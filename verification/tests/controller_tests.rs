use ktail::controller::{
    is_permission_denied, namespace_scope, pod_allows_tailing, pod_instance_id, tailer_id,
    ControllerOptions, ControllerState, Discovery, TailerTarget, WatchAction, WatchRetry,
};
use ktail::matcher::{Matcher, RegexMatcher};
use ktail::selection::{exclusion_matcher, inclusion_matcher};
use ktail::pod::{ContainerInfo, PodInfo, PodSpecInfo};

fn pod(name: &str, uid: &str, phase: &str, init: &[&str], containers: &[&str]) -> PodInfo {
    let names = |v: &[&str]| -> Vec<ContainerInfo> {
        v.iter().map(|n| ContainerInfo { name: n.to_string() }).collect()
    };
    PodInfo {
        name: Some(name.to_string()),
        namespace: Some("ns".to_string()),
        uid: Some(uid.to_string()),
        labels: None,
        owner_references: None,
        phase: Some(phase.to_string()),
        spec: Some(PodSpecInfo {
            init_containers: if init.is_empty() { None } else { Some(names(init)) },
            containers: names(containers),
        }),
    }
}

fn options(wanted: &str, unwanted: &str) -> ControllerOptions {
    let inc: Box<dyn Matcher> = Box::new(RegexMatcher::new(wanted).ok().unwrap());
    let exc: Box<dyn Matcher> = Box::new(RegexMatcher::new(unwanted).ok().unwrap());
    ControllerOptions {
        namespaces: vec!["ns".to_string()],
        inclusion_matcher: inc,
        exclusion_matcher: exc,
        since_start: false,
        since: None,
    }
}

fn target(p: &PodInfo, c: &str) -> TailerTarget {
    TailerTarget { pod: p.clone(), container: ContainerInfo { name: c.to_string() } }
}

#[test]
fn identifiers() {
    let p = pod("web-1", "u1", "Running", &[], &["app"]);
    assert_eq!(tailer_id(&p, &ContainerInfo { name: "app".to_string() }), "ns/u1/app");
    let mut q = p.clone();
    q.uid = None;
    assert_eq!(tailer_id(&q, &ContainerInfo { name: "app".to_string() }), "ns/web-1/app");
    q.namespace = None;
    q.name = None;
    assert_eq!(tailer_id(&q, &ContainerInfo { name: "app".to_string() }), "//app");
    assert_eq!(pod_instance_id(&p), ("ns".to_string(), "u1".to_string()));
    assert_ne!(
        tailer_id(&p, &ContainerInfo { name: "a".to_string() }),
        tailer_id(&p, &ContainerInfo { name: "b".to_string() })
    );
}

#[test]
fn phases_that_allow_tailing() {
    assert!(pod_allows_tailing(&pod("a", "u", "Running", &[], &[])));
    assert!(pod_allows_tailing(&pod("a", "u", "Pending", &[], &[])));
    assert!(!pod_allows_tailing(&pod("a", "u", "Succeeded", &[], &[])));
    let mut p = pod("a", "u", "Running", &[], &[]);
    p.phase = None;
    assert!(!pod_allows_tailing(&p));
}

#[test]
fn matching_targets_init_first_and_filtered() {
    let o = options(".*", "^istio");
    let p = pod("web", "u1", "Running", &["init-db"], &["app", "istio-proxy"]);
    let t = o.matching_targets(&p);
    let names: Vec<String> = t.iter().map(|x| x.container.name.clone()).collect();
    assert_eq!(names, vec!["init-db".to_string(), "app".to_string()]);
    assert!(o.should_include_container(&p, &ContainerInfo { name: "app".to_string() }));
    assert!(!o.should_include_container(&p, &ContainerInfo { name: "istio-proxy".to_string() }));
    let stopped = pod("web", "u1", "Succeeded", &[], &["app"]);
    assert!(o.matching_targets(&stopped).is_empty());
}

#[test]
fn register_is_idempotent() {
    let mut s = ControllerState::new(options(".*", "\\b\\B"));
    let p = pod("web", "u1", "Running", &[], &["app"]);
    assert!(s.register(target(&p, "app")));
    assert!(!s.register(target(&p, "app")));
    assert!(s.is_tailing(&"ns/u1/app".to_string()));
    assert!(s.register(target(&p, "sidecar")));
}

#[test]
fn deleting_a_pod_stops_its_tailers_only() {
    let mut s = ControllerState::new(options(".*", "\\b\\B"));
    let p = pod("web", "u1", "Running", &[], &["app", "side"]);
    let q = pod("db", "u2", "Running", &[], &["pg"]);
    s.register(target(&p, "app"));
    s.register(target(&p, "side"));
    s.register(target(&q, "pg"));
    let removed = s.remove_tailers_for_pod(&p);
    let mut ids: Vec<String> = removed.iter().map(|e| e.id.clone()).collect();
    ids.sort();
    assert_eq!(ids, vec!["ns/u1/app".to_string(), "ns/u1/side".to_string()]);
    assert!(!s.is_tailing(&"ns/u1/app".to_string()));
    assert!(s.is_tailing(&"ns/u2/pg".to_string()));
}

#[test]
fn reconciling_a_changed_pod() {
    let mut s = ControllerState::new(options(".*", "^old"));
    let p = pod("web", "u1", "Running", &[], &["app", "old-sidecar"]);
    s.register(target(&p, "app"));
    s.register(target(&p, "old-sidecar"));
    let (removed, desired) = s.reconcile_pod_targets(&p);
    assert_eq!(removed.len(), 1);
    assert_eq!(removed[0].id, "ns/u1/old-sidecar");
    assert_eq!(desired.len(), 1);
    assert_eq!(desired[0].container.name, "app");
    assert!(s.is_tailing(&"ns/u1/app".to_string()));
    // The pod stops running: all its tailers go, nothing is desired.
    let done = pod("web", "u1", "Succeeded", &[], &["app"]);
    let (removed, desired) = s.reconcile_pod_targets(&done);
    assert_eq!(removed.len(), 1);
    assert!(desired.is_empty());
}

#[test]
fn relisting_replaces_stale_tailers() {
    let mut s = ControllerState::new(options(".*", "\\b\\B"));
    let p = pod("web", "u1", "Running", &[], &["app"]);
    let gone = pod("old", "u9", "Running", &[], &["app"]);
    s.register(target(&p, "app"));
    s.register(target(&gone, "app"));
    s.on_init();
    s.on_init_apply(&p);
    let (removed, desired) = s.on_init_done();
    assert_eq!(removed.len(), 1);
    assert_eq!(removed[0].id, "ns/u9/app");
    assert_eq!(desired.len(), 1);
    assert_eq!(desired[0].container.name, "app");
    assert!(s.is_tailing(&"ns/u1/app".to_string()));
    // Without a listing in progress, nothing is desired, so every tailer
    // stops.
    let (removed, desired) = s.on_init_done();
    assert!(desired.is_empty());
    assert_eq!(removed.len(), 1);
    assert!(!s.is_tailing(&"ns/u1/app".to_string()));
}

#[test]
fn finished_tailer_is_forgotten() {
    let mut s = ControllerState::new(options(".*", "\\b\\B"));
    let p = pod("web", "u1", "Running", &[], &["app"]);
    s.register(target(&p, "app"));
    let removed = s.tailer_finished(&"ns/u1/app".to_string());
    assert_eq!(removed.len(), 1);
    assert!(!s.is_tailing(&"ns/u1/app".to_string()));
    assert!(s.register(target(&p, "app")));
}

#[test]
fn watching_namespaces() {
    assert!(namespace_scope("*").is_none());
    assert_eq!(namespace_scope("kube-system"), Some("kube-system".to_string()));
    assert!(is_permission_denied("pods is forbidden: User cannot list"));
    assert!(is_permission_denied("Forbidden"));
    assert!(is_permission_denied("HTTP 403"));
    assert!(!is_permission_denied("connection refused"));
}

#[test]
fn watch_restarts_back_off() {
    let mut w = WatchRetry::new();
    assert_eq!(w.on_stream_end(), 1);
    assert_eq!(w.on_stream_end(), 2);
    match w.on_stream_error("stream reset") {
        WatchAction::RestartAfter(s) => assert_eq!(s, 4),
        WatchAction::Stop => panic!("a plain error restarts the watch"),
    }
    assert_eq!(w.retry_count, 3);
    assert!(matches!(w.on_stream_error("403 Forbidden"), WatchAction::Stop));
    assert_eq!(w.retry_count, 3);
    w.on_event();
    assert_eq!(w.on_stream_end(), 1);
    w.retry_count = u32::MAX;
    assert_eq!(w.on_stream_end(), 16);
    assert_eq!(w.retry_count, u32::MAX);
}

fn cli_options(patterns: &[&str], selectors: &[&str], excludes: &[&str]) -> ControllerOptions {
    let v = |x: &[&str]| -> Vec<String> { x.iter().map(|s| s.to_string()).collect() };
    let inc: Box<dyn Matcher> = Box::new(inclusion_matcher(&v(patterns), &v(selectors)).ok().unwrap());
    let exc: Box<dyn Matcher> = Box::new(exclusion_matcher(&v(excludes)).ok().unwrap());
    ControllerOptions {
        namespaces: vec!["ns".to_string()],
        inclusion_matcher: inc,
        exclusion_matcher: exc,
        since_start: false,
        since: None,
    }
}

#[test]
fn label_selector_tails_the_pods_containers() {
    let o = cli_options(&[], &["app=myapp"], &[]);
    let mut p = pod("myapp-1", "u1", "Running", &[], &["web", "sidecar"]);
    p.labels = Some(vec![("app".to_string(), "myapp".to_string())]);
    assert!(o.should_include_container(&p, &ContainerInfo { name: "web".to_string() }));
    let names: Vec<String> = o.matching_targets(&p).iter().map(|t| t.container.name.clone()).collect();
    assert_eq!(names, vec!["web".to_string(), "sidecar".to_string()]);
    let mut other = p.clone();
    other.labels = Some(vec![("app".to_string(), "other".to_string())]);
    assert!(o.matching_targets(&other).is_empty());
}

#[test]
fn pattern_on_pod_name_tails_its_containers() {
    let o = cli_options(&["^frontend"], &[], &[]);
    let p = pod("frontend-7d9f8", "u1", "Running", &[], &["nginx"]);
    assert!(o.should_include_container(&p, &ContainerInfo { name: "nginx".to_string() }));
    let q = pod("backend-1", "u2", "Running", &[], &["frontend-proxy", "app"]);
    let names: Vec<String> = o.matching_targets(&q).iter().map(|t| t.container.name.clone()).collect();
    assert_eq!(names, vec!["frontend-proxy".to_string()]);
}

#[test]
fn exclusion_by_pod_name_or_container() {
    let o = cli_options(&[], &[], &["^istio"]);
    let gateway = pod("istio-gateway", "u1", "Running", &[], &["envoy"]);
    assert!(o.matching_targets(&gateway).is_empty());
    let web = pod("web", "u2", "Running", &[], &["app", "istio-proxy"]);
    let names: Vec<String> = o.matching_targets(&web).iter().map(|t| t.container.name.clone()).collect();
    assert_eq!(names, vec!["app".to_string()]);
}

#[test]
fn first_listing_bookkeeping() {
    let mut d = Discovery::new();
    assert!(!d.discovered_any);
    d.pod_listed(&Vec::new());
    assert!(!d.discovered_any);
    assert!(d.list_failed("secret", "pods is forbidden"));
    assert!(!d.list_failed("flaky", "connection refused"));
    assert!(!d.should_watch(&"secret".to_string()));
    assert!(d.should_watch(&"flaky".to_string()));
    let p = pod("web", "u1", "Running", &[], &["app"]);
    d.pod_listed(&vec![target(&p, "app")]);
    assert!(d.discovered_any);
    d.pod_listed(&Vec::new());
    assert!(d.discovered_any);
}
