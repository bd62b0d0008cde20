use ktail::matcher::Matcher;
use ktail::pod::{ContainerInfo, PodInfo};
use ktail::selection::{
    exclusion_matcher, inclusion_matcher, parse_label_selector, start_point, target_namespaces,
    MatcherError,
};
use ktail::time::SinceValue;

fn pod(name: &str, labels: Option<Vec<(&str, &str)>>) -> PodInfo {
    PodInfo {
        name: Some(name.to_string()),
        namespace: Some("default".to_string()),
        uid: None,
        labels: labels.map(|v| v.into_iter().map(|(k, x)| (k.to_string(), x.to_string())).collect()),
        owner_references: None,
        phase: Some("Running".to_string()),
        spec: None,
    }
}

fn strings(v: &[&str]) -> Vec<String> {
    v.iter().map(|s| s.to_string()).collect()
}

#[test]
fn label_selector_pairs_in_order_and_trimmed() {
    let v = parse_label_selector("app=web, tier = front ").ok().unwrap();
    assert_eq!(
        v,
        vec![("app".to_string(), "web".to_string()), ("tier".to_string(), "front".to_string())]
    );
    let single = parse_label_selector("app=").ok().unwrap();
    assert_eq!(single, vec![("app".to_string(), "".to_string())]);
}

#[test]
fn label_selector_errors() {
    for bad in ["app", "a=b=c", "", "app=web,", ",app=web"] {
        match parse_label_selector(bad) {
            Ok(_) => panic!("selector {:?} should be refused", bad),
            Err(e) => {
                assert_eq!(e.selector, bad);
                assert_eq!(e.message(), format!("Invalid label selector: {}", bad));
            }
        }
    }
}

#[test]
fn namespaces_to_watch() {
    assert_eq!(target_namespaces(true, strings(&["a"])), strings(&["*"]));
    assert_eq!(target_namespaces(false, strings(&["a", "b"])), strings(&["a", "b"]));
    assert_eq!(target_namespaces(false, Vec::new()), strings(&["default"]));
}

#[test]
fn inclusion_by_patterns() {
    let m = inclusion_matcher(&strings(&["^web", "db$"]), &strings(&["app=x"])).ok().unwrap();
    assert!(m.matches_pod(&pod("web-1", None)));
    assert!(m.matches_pod(&pod("main-db", None)));
    assert!(!m.matches_pod(&pod("cache", None)));
    assert!(m.matches_container(&pod("cache", None), &ContainerInfo { name: "webserver".to_string() }));
}

#[test]
fn inclusion_by_selectors() {
    let m = inclusion_matcher(&Vec::new(), &strings(&["app=web", "tier=db"])).ok().unwrap();
    assert!(m.matches_pod(&pod("p", Some(vec![("app", "web")]))));
    assert!(m.matches_pod(&pod("p", Some(vec![("tier", "db")]))));
    assert!(!m.matches_pod(&pod("p", Some(vec![("app", "db")]))));
    assert!(!m.matches_container(&pod("p", Some(vec![("app", "web")])), &ContainerInfo { name: "c".to_string() }));
}

#[test]
fn inclusion_of_everything_by_default() {
    let m = inclusion_matcher(&Vec::new(), &Vec::new()).ok().unwrap();
    assert!(m.matches_pod(&pod("anything", None)));
    assert!(m.matches_container(&pod("p", None), &ContainerInfo { name: "c".to_string() }));
}

#[test]
fn inclusion_errors() {
    match inclusion_matcher(&strings(&["ok", "(bad"]), &Vec::new()) {
        Err(MatcherError::Pattern(e)) => assert_eq!(e.pattern, "(bad"),
        _ => panic!("a bad pattern should be reported"),
    }
    match inclusion_matcher(&Vec::new(), &strings(&["app=web", "broken"])) {
        Err(MatcherError::Selector(e)) => assert_eq!(e.selector, "broken"),
        _ => panic!("a bad selector should be reported"),
    }
}

#[test]
fn exclusion_matches_nothing_by_default() {
    let m = exclusion_matcher(&Vec::new()).ok().unwrap();
    assert!(!m.matches_pod(&pod("web", None)));
    assert!(!m.matches_container(&pod("web", None), &ContainerInfo { name: "istio-proxy".to_string() }));
    let x = exclusion_matcher(&strings(&["istio"])).ok().unwrap();
    assert!(x.matches_container(&pod("web", None), &ContainerInfo { name: "istio-proxy".to_string() }));
    assert!(!x.matches_container(&pod("web", None), &ContainerInfo { name: "app".to_string() }));
    assert!(exclusion_matcher(&strings(&["["])).is_err());
}

#[test]
fn where_reading_starts() {
    assert!(matches!(start_point(true, Some("1h")), Ok(None)));
    assert!(matches!(start_point(false, None), Ok(Some(SinceValue::Ago(0)))));
    assert!(matches!(start_point(false, Some("2h")), Ok(Some(SinceValue::Ago(7200)))));
    match start_point(false, Some("2023-03-30")) {
        Ok(Some(SinceValue::At(t))) => {
            assert_eq!(t.secs, 1680134400);
            assert_eq!(t.nanos, 0);
        }
        _ => panic!("a date should be read"),
    }
    match start_point(false, Some("yesterday")) {
        Err(e) => {
            assert_eq!(e.value, "yesterday");
            assert_eq!(
                e.message(),
                "Cannot parse since value: yesterday. Use format like '1h' or '2023-03-30'"
            );
        }
        _ => panic!("an unreadable value should be refused"),
    }
}
