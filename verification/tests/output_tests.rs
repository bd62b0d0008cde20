use ktail::output::{
    colorize_http_status, colorize_json, decimal_exec, is_http_status_key_exec,
    resolve_workload_name, strip_hash_suffix, JsonNumber, JsonValue, OutputFormatter,
};
use ktail::pod::{ContainerInfo, OwnerRef, PodInfo};
use ktail::tailer::LogEvent;
use ktail::time::Timestamp;

fn strip_escapes(s: &str) -> String {
    let mut out = String::new();
    let mut chars = s.chars().peekable();
    while let Some(c) = chars.next() {
        if c == '\u{1b}' {
            for d in chars.by_ref() {
                if d == 'm' {
                    break;
                }
            }
        } else {
            out.push(c);
        }
    }
    out
}

fn pod_with_owner(kind: &str, owner: &str) -> PodInfo {
    PodInfo {
        name: Some("web-5d8f7c9b6d-abcde".to_string()),
        namespace: Some("default".to_string()),
        uid: None,
        labels: None,
        owner_references: Some(vec![OwnerRef { kind: kind.to_string(), name: owner.to_string() }]),
        phase: Some("Running".to_string()),
        spec: None,
    }
}

fn event(message: &str, timestamp: Option<Timestamp>) -> LogEvent {
    LogEvent {
        pod: pod_with_owner("ReplicaSet", "web-5d8f7c9b6d"),
        container: ContainerInfo { name: "app".to_string() },
        timestamp,
        message: message.to_string(),
    }
}

fn formatter(raw: bool, timestamps: bool, template: Option<&str>, mode: &str) -> OutputFormatter {
    OutputFormatter::new(
        raw,
        timestamps,
        false,
        template.map(|t| t.to_string()),
        mode.to_string(),
        "modern".to_string(),
        false,
    )
}

#[test]
fn hash_suffixes() {
    assert_eq!(strip_hash_suffix("web-5d8f7c9b6d"), Some("web".to_string()));
    assert_eq!(strip_hash_suffix("my-app-7c9b6d5d8f"), Some("my-app".to_string()));
    assert_eq!(strip_hash_suffix("web-5d8f7c9b"), None);
    assert_eq!(strip_hash_suffix("web-5d8f7c9b6x"), None);
    assert_eq!(strip_hash_suffix("web"), None);
}

#[test]
fn workload_names() {
    let c = ContainerInfo { name: "app".to_string() };
    assert_eq!(resolve_workload_name(&pod_with_owner("ReplicaSet", "web-5d8f7c9b6d"), &c), "web");
    assert_eq!(resolve_workload_name(&pod_with_owner("ReplicaSet", "web"), &c), "web");
    assert_eq!(resolve_workload_name(&pod_with_owner("StatefulSet", "db"), &c), "db");
    assert_eq!(resolve_workload_name(&pod_with_owner("Node", "n1"), &c), "app");
    let mut p = pod_with_owner("Job", "j");
    p.owner_references = None;
    assert_eq!(resolve_workload_name(&p, &c), "app");
}

#[test]
fn raw_lines() {
    let f = formatter(true, false, None, "never");
    assert_eq!(f.format_line(&event("hello", None), None, false), "hello");
    let t = Timestamp::parse_rfc3339("2023-03-30T12:00:00Z").unwrap();
    let g = formatter(true, true, None, "never");
    let line = g.format_line(&event("hello", Some(t)), None, false);
    assert_eq!(line, format!("{} hello", t.to_rfc3339()));
    assert!(line.starts_with("2023-03-30T12:00:00"));
}

#[test]
fn default_lines_without_color() {
    let f = formatter(false, false, None, "never");
    assert_eq!(f.format_line(&event("hello", None), None, true), "web-5d8f7c9b6d-abcde:web hello");
    let mut no_color = formatter(false, false, None, "always");
    no_color.no_color = true;
    assert_eq!(no_color.format_line(&event("hi", None), None, true), "web-5d8f7c9b6d-abcde:web hi");
    let auto = formatter(false, false, None, "auto");
    assert_eq!(auto.format_line(&event("x", None), None, false), "web-5d8f7c9b6d-abcde:web x");
}

#[test]
fn colored_lines_keep_their_text() {
    let f = formatter(false, false, None, "always");
    let json = JsonValue::Object(vec![(
        "status".to_string(),
        JsonValue::Number(JsonNumber { text: "200".to_string(), as_u64: Some(200) }),
    )]);
    let line = f.format_line(&event("{\"status\":200}", None), Some(&json), false);
    assert_eq!(strip_escapes(&line), "web-5d8f7c9b6d-abcde:web {\"status\":200}");
}

#[test]
fn template_lines() {
    let t = Timestamp::parse_rfc3339("2023-03-30T12:00:00Z").unwrap();
    let f = formatter(false, false, Some("[{{Pod}}/{{Container}}] {{Message}} @{{Timestamp}}"), "always");
    let line = f.format_line(&event("ok", Some(t)), None, true);
    assert_eq!(line, format!("[web-5d8f7c9b6d-abcde/app] ok @{}", t.to_rfc3339()));
    let plain = formatter(false, false, Some("no fields here"), "never");
    assert_eq!(plain.format_line(&event("ok", None), None, false), "no fields here");
    let missing = formatter(false, false, Some("{{Timestamp}} {{Message}}"), "never");
    assert_eq!(missing.format_line(&event("ok", None), None, false), "{{Timestamp}} ok");
}

#[test]
fn json_rendering() {
    let v = JsonValue::Array(vec![
        JsonValue::Null,
        JsonValue::Bool(true),
        JsonValue::String("a".to_string()),
        JsonValue::Object(vec![]),
    ]);
    assert_eq!(strip_escapes(&colorize_json(&v, None)), "[null,true,\"a\",{}]");
}

#[test]
fn http_statuses() {
    assert_eq!(strip_escapes(&colorize_http_status(404)), "404");
    assert_eq!(strip_escapes(&colorize_http_status(99)), "99");
    assert_eq!(decimal_exec(0).iter().collect::<String>(), "0");
    assert_eq!(decimal_exec(1234).iter().collect::<String>(), "1234");
    let k: Vec<char> = "HTTP_Status".chars().collect();
    assert!(is_http_status_key_exec(Some(&k)));
    let other: Vec<char> = "state".chars().collect();
    assert!(!is_http_status_key_exec(Some(&other)));
    assert!(!is_http_status_key_exec(None));
}

#[test]
fn notices() {
    let f = formatter(false, false, None, "never");
    let n = f.event_notice("web-1", "app", "Started").unwrap();
    assert_eq!(strip_escapes(&n), "Started container app in pod web-1");
    let mut quiet = formatter(false, false, None, "never");
    quiet.quiet = true;
    assert!(quiet.event_notice("web-1", "app", "Started").is_none());
    let e = f.error_notice("web-1", "app", "boom");
    assert_eq!(strip_escapes(&e), "[ERROR] Error tailing web-1/app: boom");
}

#[test]
fn json_text_keeps_escapes_without_color() {
    let v = JsonValue::Object(vec![
        ("m".to_string(), JsonValue::String("a\"b\\c\n".to_string())),
        ("k\"ey".to_string(), JsonValue::String("\u{1}".to_string())),
    ]);
    let plain = colorize_json(&v, None);
    if !plain.contains('\u{1b}') {
        assert_eq!(plain, "{\"m\":\"a\\\"b\\\\c\\n\",\"k\\\"ey\":\"\\u0001\"}");
    }
    assert_eq!(strip_escapes(&plain), "{\"m\":\"a\\\"b\\\\c\\n\",\"k\\\"ey\":\"\\u0001\"}");
}

#[test]
fn log_events_read_json_messages() {
    let json_line = formatter(false, false, None, "never").format_log_event(&event("{\"a\":1}", None));
    assert_eq!(json_line, "web-5d8f7c9b6d-abcde:web {\"a\":1}");
    let spaced = OutputFormatter::new(false, false, false, None, "always".to_string(), "modern".to_string(), false)
        .format_log_event(&event("{ \"a\" : [1, \"x\"] }", None));
    assert_eq!(strip_escapes(&spaced), "web-5d8f7c9b6d-abcde:web {\"a\":[1,\"x\"]}");
    let text = OutputFormatter::new(false, false, false, None, "always".to_string(), "modern".to_string(), false)
        .format_log_event(&event("not { json", None));
    assert_eq!(strip_escapes(&text), "web-5d8f7c9b6d-abcde:web not { json");
    assert!(ktail::output::parse_json("{\"k\":[true,null]}").is_some());
    assert!(ktail::output::parse_json("{broken").is_none());
}
