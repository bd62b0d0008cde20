use ktail::matcher::{AndMatcher, LabelSelectorMatcher, Matcher, NotMatcher, OrMatcher, RegexMatcher};
use ktail::pod::{ContainerInfo, PodInfo};

fn pod(name: Option<&str>, labels: Option<Vec<(&str, &str)>>) -> PodInfo {
    PodInfo {
        name: name.map(|s| s.to_string()),
        namespace: Some("default".to_string()),
        uid: Some("uid-1".to_string()),
        labels: labels.map(|v| v.into_iter().map(|(k, x)| (k.to_string(), x.to_string())).collect()),
        owner_references: None,
        phase: Some("Running".to_string()),
        spec: None,
    }
}

fn container(name: &str) -> ContainerInfo {
    ContainerInfo { name: name.to_string() }
}

fn pairs(v: &[(&str, &str)]) -> Vec<(String, String)> {
    v.iter().map(|(k, x)| (k.to_string(), x.to_string())).collect()
}

#[test]
fn regex_matcher_matches_names() {
    let m = RegexMatcher::new("^foo").ok().unwrap();
    assert_eq!(m.pattern(), "^foo");
    assert!(m.matches_pod(&pod(Some("foobar"), None)));
    assert!(!m.matches_pod(&pod(Some("barfoo"), None)));
    assert!(!m.matches_pod(&pod(None, None)));
    assert!(m.matches_container(&pod(Some("x"), None), &container("foo-sidecar")));
    assert!(!m.matches_container(&pod(Some("foo"), None), &container("bar")));
}

#[test]
fn regex_matcher_refuses_bad_pattern() {
    match RegexMatcher::new("(unclosed") {
        Ok(_) => panic!("pattern should not compile"),
        Err(e) => {
            assert_eq!(e.pattern, "(unclosed");
            assert!(!e.cause.to_string().is_empty());
        }
    }
}

#[test]
fn label_selector_needs_every_label() {
    let m = LabelSelectorMatcher::new(pairs(&[("app", "web"), ("tier", "front")]));
    assert!(m.matches_pod(&pod(Some("a"), Some(vec![("tier", "front"), ("app", "web"), ("x", "y")]))));
    assert!(!m.matches_pod(&pod(Some("a"), Some(vec![("app", "web")]))));
    assert!(!m.matches_pod(&pod(Some("a"), Some(vec![("app", "db"), ("tier", "front")]))));
    assert!(!m.matches_pod(&pod(Some("a"), None)));
    assert!(!m.matches_container(&pod(Some("a"), Some(vec![("app", "web"), ("tier", "front")])), &container("c")));
}

#[test]
fn label_selector_later_value_wins() {
    let m = LabelSelectorMatcher::new(pairs(&[("app", "a"), ("app", "b")]));
    assert!(m.matches_pod(&pod(Some("p"), Some(vec![("app", "b")]))));
    assert!(!m.matches_pod(&pod(Some("p"), Some(vec![("app", "a")]))));
}

#[test]
fn empty_label_selector_selects_any_labelled_pod() {
    let m = LabelSelectorMatcher::new(Vec::new());
    assert!(m.matches_pod(&pod(Some("p"), Some(vec![]))));
    assert!(!m.matches_pod(&pod(Some("p"), None)));
}

#[test]
fn combinations_of_matchers() {
    let foo: Box<dyn Matcher> = Box::new(RegexMatcher::new("foo").ok().unwrap());
    let bar: Box<dyn Matcher> = Box::new(RegexMatcher::new("bar").ok().unwrap());
    let both = AndMatcher(vec![foo, bar]);
    assert!(both.matches_pod(&pod(Some("foobar"), None)));
    assert!(!both.matches_pod(&pod(Some("foo"), None)));

    let foo: Box<dyn Matcher> = Box::new(RegexMatcher::new("foo").ok().unwrap());
    let bar: Box<dyn Matcher> = Box::new(RegexMatcher::new("bar").ok().unwrap());
    let either = OrMatcher(vec![foo, bar]);
    assert!(either.matches_pod(&pod(Some("bar-1"), None)));
    assert!(either.matches_container(&pod(Some("x"), None), &container("foo")));
    assert!(!either.matches_pod(&pod(Some("baz"), None)));

    let not_foo = NotMatcher(Box::new(RegexMatcher::new("foo").ok().unwrap()));
    assert!(not_foo.matches_pod(&pod(Some("baz"), None)));
    assert!(!not_foo.matches_container(&pod(Some("baz"), None), &container("foo")));
}

#[test]
fn empty_combinations_select_nothing() {
    let p = pod(Some("anything"), Some(vec![]));
    assert!(!AndMatcher(Vec::new()).matches_pod(&p));
    assert!(!AndMatcher(Vec::new()).matches_container(&p, &container("c")));
    assert!(!OrMatcher(Vec::new()).matches_pod(&p));
    assert!(!OrMatcher(Vec::new()).matches_container(&p, &container("c")));
}

#[test]
fn selector_of_own_labels_selects_pod() {
    let labels = vec![("app", "web"), ("tier", "front"), ("env", "prod")];
    let m = LabelSelectorMatcher::new(pairs(&labels));
    assert!(m.matches_pod(&pod(Some("p"), Some(labels))));
}

#[test]
fn single_combination_acts_as_its_matcher() {
    let p = pod(Some("foo-1"), None);
    let q = pod(Some("bar-1"), None);
    let all = AndMatcher(vec![Box::new(RegexMatcher::new("foo").ok().unwrap())]);
    let any = OrMatcher(vec![Box::new(RegexMatcher::new("foo").ok().unwrap())]);
    assert!(all.matches_pod(&p) && any.matches_pod(&p));
    assert!(!all.matches_pod(&q) && !any.matches_pod(&q));
}
