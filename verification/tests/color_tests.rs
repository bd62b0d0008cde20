use ktail::output::{
    colorize_http_status, colorize_json, parse_json, JsonNumber, JsonValue, OutputFormatter,
};

fn force_colors() {
    colored::control::set_override(true);
}

#[test]
fn statuses_colored_by_class() {
    force_colors();
    assert_eq!(colorize_http_status(101), "\u{1b}[36m101\u{1b}[0m");
    assert_eq!(colorize_http_status(204), "\u{1b}[1;32m204\u{1b}[0m");
    assert_eq!(colorize_http_status(302), "\u{1b}[33m302\u{1b}[0m");
    assert_eq!(colorize_http_status(404), "\u{1b}[91m404\u{1b}[0m");
    assert_eq!(colorize_http_status(503), "\u{1b}[1;31m503\u{1b}[0m");
    assert_eq!(colorize_http_status(700), "\u{1b}[34m700\u{1b}[0m");
}

#[test]
fn json_colored_by_kind() {
    force_colors();
    let v = JsonValue::Object(vec![
        ("code".to_string(), JsonValue::String("404".to_string())),
        ("status".to_string(), JsonValue::String("404".to_string())),
        ("n".to_string(), JsonValue::Number(JsonNumber { text: "1.5".to_string(), as_u64: None })),
    ]);
    assert_eq!(
        colorize_json(&v, None),
        "{\"\u{1b}[36mcode\u{1b}[0m\":\"\u{1b}[32m404\u{1b}[0m\",\
         \"\u{1b}[36mstatus\u{1b}[0m\":\"\u{1b}[91m404\u{1b}[0m\",\
         \"\u{1b}[36mn\u{1b}[0m\":\u{1b}[34m1.5\u{1b}[0m}"
    );
}

#[test]
fn notices_colored() {
    force_colors();
    let f = OutputFormatter::new(false, false, false, None, "always".to_string(), "modern".to_string(), false);
    assert_eq!(
        f.event_notice("p", "c", "Started").unwrap(),
        "\u{1b}[33mStarted\u{1b}[0m container \u{1b}[34mc\u{1b}[0m in pod \u{1b}[36mp\u{1b}[0m"
    );
    assert_eq!(
        f.error_notice("p", "c", "boom"),
        "\u{1b}[31m[ERROR]\u{1b}[0m Error tailing \u{1b}[36mp\u{1b}[0m/\u{1b}[34mc\u{1b}[0m: \u{1b}[31mboom\u{1b}[0m"
    );
}

#[test]
fn nested_reset_restores_style() {
    force_colors();
    let f = OutputFormatter::new(false, false, false, None, "always".to_string(), "modern".to_string(), false);
    let n = f.event_notice("p", "c", "a\u{1b}[0mb").unwrap();
    assert!(n.starts_with("\u{1b}[33ma\u{1b}[0m\u{1b}[33mb\u{1b}[0m"));
}

fn strip_escapes(s: &str) -> String {
    let mut out = String::new();
    let mut chars = s.chars();
    while let Some(c) = chars.next() {
        if c == '\u{1b}' {
            for d in chars.by_ref() {
                if d == 'm' {
                    break;
                }
            }
        } else {
            out.push(c);
        }
    }
    out
}

#[test]
fn highlighting_keeps_the_json_text() {
    force_colors();
    for text in [
        r#"{"m":"a\"b"}"#,
        r#"{"path":"C:\\dir","tab":"x\ty","nl":"l1\nl2","ctl":"\u0001\u001b"}"#,
        r#"{"quo\"te":[1,2.5,-3,true,null,{"status":"200"},{"status":404}],"ünï":"çödé"}"#,
        r#"["\u00e9",{},[],""]"#,
    ] {
        let v: serde_json::Value = serde_json::from_str(text).unwrap();
        let colored = colorize_json(&parse_json(text).unwrap(), None);
        assert!(colored.contains('\u{1b}'));
        assert_eq!(strip_escapes(&colored), serde_json::to_string(&v).unwrap());
    }
}

#[test]
fn status_string_keeps_its_text() {
    force_colors();
    let v = JsonValue::Object(vec![("status".to_string(), JsonValue::String("0200".to_string()))]);
    assert_eq!(
        colorize_json(&v, None),
        "{\"\u{1b}[36mstatus\u{1b}[0m\":\"\u{1b}[1;32m0200\u{1b}[0m\"}"
    );
}
