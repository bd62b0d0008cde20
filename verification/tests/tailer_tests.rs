use ktail::pod::{ContainerInfo, PodInfo};
use ktail::tailer::{
    backoff_secs, is_pod_not_found, is_transient_stream_error, line_without_break, FailureAction,
    LogSourceError, TailMode, TailerState, POLL_INTERVAL_SECS,
};
use ktail::time::{parse_duration, parse_since, SinceValue, Timestamp};

fn pod() -> PodInfo {
    PodInfo {
        name: Some("web-1".to_string()),
        namespace: Some("default".to_string()),
        uid: Some("u1".to_string()),
        labels: None,
        owner_references: None,
        phase: Some("Running".to_string()),
        spec: None,
    }
}

fn tailer() -> TailerState {
    TailerState::new(pod(), ContainerInfo { name: "app".to_string() }, None)
}

#[test]
fn durations() {
    assert_eq!(parse_duration("30s"), Some(30));
    assert_eq!(parse_duration("5m"), Some(300));
    assert_eq!(parse_duration("2H"), Some(7200));
    assert_eq!(parse_duration("1d"), Some(86400));
    assert_eq!(parse_duration("-1m"), Some(-60));
    assert_eq!(parse_duration("+3s"), Some(3));
    assert_eq!(parse_duration("m"), None);
    assert_eq!(parse_duration("10"), None);
    assert_eq!(parse_duration("1w"), None);
    assert_eq!(parse_duration("1.5h"), None);
    assert_eq!(parse_duration(""), None);
}

#[test]
fn since_values() {
    assert!(matches!(parse_since("15m"), Ok(SinceValue::Ago(900))));
    match parse_since("2024-01-01") {
        Ok(SinceValue::At(t)) => assert_eq!((t.secs, t.nanos), (1704067200, 0)),
        _ => panic!("a date should be read"),
    }
    assert!(parse_since("2024-13-01").is_err());
}

#[test]
fn timestamps_read_write_and_compare() {
    let t = Timestamp::parse_rfc3339("2023-03-30T12:00:00.5Z").unwrap();
    assert_eq!(t.secs, 1680177600);
    assert_eq!(t.nanos, 500_000_000);
    let text = t.to_rfc3339();
    let back = Timestamp::parse_rfc3339(&text).unwrap();
    assert_eq!((back.secs, back.nanos), (t.secs, t.nanos));
    let offset = Timestamp::parse_rfc3339("2023-03-30T14:00:00+02:00").unwrap();
    assert_eq!(offset.secs, 1680177600);
    assert!(offset.is_before(&t));
    assert!(!t.is_before(&offset));
    assert!(!t.is_before(&t));
    assert!(Timestamp::parse_rfc3339("not a time").is_none());
}

#[test]
fn backoff_grows_and_caps() {
    let got: Vec<u64> = (0..8).map(backoff_secs).collect();
    assert_eq!(got, vec![1, 2, 4, 8, 16, 16, 16, 16]);
    assert_eq!(backoff_secs(u32::MAX), 16);
}

#[test]
fn lines_become_events() {
    let mut t = tailer();
    assert!(t.receive_line("").is_none());
    let e = t.receive_line("2023-03-30T12:00:00Z hello world").unwrap();
    assert_eq!(e.message, "hello world");
    assert_eq!(e.timestamp.map(|x| x.secs), Some(1680177600));
    assert_eq!(e.container.name, "app");
    assert_eq!(e.pod.name.as_deref(), Some("web-1"));
    let plain = t.receive_line("no timestamp here").unwrap();
    assert!(plain.timestamp.is_none());
    assert_eq!(plain.message, "no timestamp here");
    assert_eq!(t.last_seen_timestamp.map(|x| x.secs), Some(1680177600));
}

#[test]
fn normal_mode_emits_repeats() {
    let mut t = tailer();
    assert!(t.receive_line("same").is_some());
    assert!(t.receive_line("same").is_some());
}

#[test]
fn recover_mode_drops_repeat_and_older_lines() {
    let mut t = tailer();
    t.receive_line("2023-03-30T12:00:05Z last line").unwrap();
    assert_eq!(t.on_poll_complete(), POLL_INTERVAL_SECS);
    assert!(matches!(t.mode, TailMode::Recover));
    assert_eq!(t.from_timestamp.map(|x| x.secs), Some(1680177605));
    // The same message again: skipped.
    assert!(t.receive_line("2023-03-30T12:00:05Z last line").is_none());
    // An older line: skipped.
    assert!(t.receive_line("2023-03-30T12:00:01Z earlier").is_none());
    assert!(matches!(t.mode, TailMode::Recover));
    // A new line: emitted, back to normal.
    assert!(t.receive_line("2023-03-30T12:00:06Z next").is_some());
    assert!(matches!(t.mode, TailMode::Normal));
}

#[test]
fn checksums_tell_messages_apart() {
    let mut t = tailer();
    t.receive_line("first").unwrap();
    let a = t.last_line_checksum.clone().unwrap();
    t.receive_line("second").unwrap();
    let b = t.last_line_checksum.clone().unwrap();
    assert_eq!(a.len(), 32);
    assert_ne!(a, b);
    assert_ne!(a, b"first".to_vec());
}

#[test]
fn failed_polls() {
    let mut t = tailer();
    match t.on_poll_failed("pods \"web-1\" not found") {
        FailureAction::Stop => {}
        _ => panic!("a missing pod stops the tailer"),
    }
    assert_eq!(t.retry_count, 0);
    match t.on_poll_failed("connection reset by peer") {
        FailureAction::Retry { backoff_secs } => assert_eq!(backoff_secs, 1),
        _ => panic!("a transient error is retried quietly"),
    }
    match t.on_poll_failed("internal error") {
        FailureAction::ReportAndRetry { backoff_secs } => assert_eq!(backoff_secs, 2),
        _ => panic!("other errors are reported"),
    }
    assert_eq!(t.retry_count, 2);
    assert_eq!(t.calculate_backoff(), 4);
    t.on_poll_complete();
    assert_eq!(t.retry_count, 0);
}

#[test]
fn error_texts() {
    assert!(is_pod_not_found("the server could not find the requested resource (404): not found"));
    assert!(is_pod_not_found("NotFound"));
    assert!(!is_pod_not_found("forbidden"));
    assert!(is_transient_stream_error("Connection Refused"));
    assert!(is_transient_stream_error("container is waiting to start: ContainerCreating"));
    assert!(!is_transient_stream_error("log_stream connect timed out"));
    assert!(is_transient_stream_error("request timed out"));
    assert!(!is_transient_stream_error("bad request"));
}

#[test]
fn latest_timestamp_never_moves_back() {
    let mut t = tailer();
    t.receive_line("2023-03-30T12:00:05Z b").unwrap();
    t.receive_line("2023-03-30T12:00:01Z a").unwrap();
    assert_eq!(t.last_seen_timestamp.map(|x| x.secs), Some(1680177605));
    t.receive_line("2023-03-30T12:00:09Z c").unwrap();
    assert_eq!(t.last_seen_timestamp.map(|x| x.secs), Some(1680177609));
}

#[test]
fn line_breaks_removed() {
    assert_eq!(line_without_break("hello\n"), "hello");
    assert_eq!(line_without_break("hello\r\n"), "hello");
    assert_eq!(line_without_break("hello\n\n"), "hello");
    assert_eq!(line_without_break("a\r\r\n"), "a");
    assert_eq!(line_without_break("a\n\r"), "a\n");
    assert_eq!(line_without_break("no break"), "no break");
    assert_eq!(line_without_break(""), "");
}

#[test]
fn log_source_needs_name_then_namespace() {
    let t = tailer();
    let (name, ns) = t.log_source().ok().unwrap();
    assert_eq!((name.as_str(), ns.as_str()), ("web-1", "default"));
    let mut p = pod();
    p.namespace = None;
    let u = TailerState::new(p.clone(), ContainerInfo { name: "app".to_string() }, None);
    match u.log_source() {
        Err(e) => {
            assert!(matches!(e, LogSourceError::NoNamespace));
            assert_eq!(e.message(), "No namespace");
        }
        Ok(_) => panic!("a pod without namespace has no log source"),
    }
    p.name = None;
    let w = TailerState::new(p, ContainerInfo { name: "app".to_string() }, None);
    match w.log_source() {
        Err(e) => assert_eq!(e.message(), "No pod name"),
        Ok(_) => panic!("a pod without name has no log source"),
    }
}

#[test]
fn log_request_of_a_poll() {
    let t0 = Timestamp::parse_rfc3339("2023-03-30T12:00:00Z").unwrap();
    let t = TailerState::new(pod(), ContainerInfo { name: "app".to_string() }, Some(t0));
    let q = t.log_request().ok().unwrap();
    assert_eq!(q.pod_name, "web-1");
    assert_eq!(q.namespace, "default");
    assert_eq!(q.container, "app");
    assert!(!q.follow);
    assert!(q.timestamps);
    assert_eq!(q.since.map(|x| x.secs), Some(1680177600));
    assert_eq!(q.connect_timeout_secs, 30);
    let mut p = pod();
    p.name = None;
    let u = TailerState::new(p, ContainerInfo { name: "app".to_string() }, None);
    assert!(matches!(u.log_request(), Err(LogSourceError::NoPodName)));
}
