use ktail::config::{config_file_path, default_color_mode, default_color_scheme, output_settings, Config};
use ktail::pod::{ContainerInfo, OwnerRef, PodInfo, PodSpecInfo};

fn pod_named(name: &str) -> PodInfo {
    PodInfo {
        name: Some(name.to_string()),
        namespace: Some("default".to_string()),
        uid: None,
        labels: None,
        owner_references: None,
        phase: Some("Running".to_string()),
        spec: None,
    }
}

#[test]
fn config_default_values() {
    let c = Config::default();
    assert!(!c.quiet && !c.no_color && !c.raw && !c.timestamps);
    assert_eq!(c.color_mode, "auto");
    assert_eq!(c.color_scheme, "modern");
    assert_eq!(c.template_string, "");
    assert_eq!(c.kube_config_path, "");
    assert_eq!(default_color_mode(), "auto");
    assert_eq!(default_color_scheme(), "modern");
}

#[test]
fn config_file_path_joins_home() {
    assert_eq!(config_file_path("/home/ann"), "/home/ann/.config/ktail/config.yml");
    assert_eq!(config_file_path("/home/ann/"), "/home/ann/.config/ktail/config.yml");
    assert_eq!(config_file_path(""), ".config/ktail/config.yml");
}

#[test]
fn command_line_overrides_file_settings() {
    let mut c = Config::default();
    c.quiet = true;
    c.template_string = "{{Message}}".to_string();
    c.color_scheme = "bw".to_string();
    let f = output_settings(&c, true, false, false, false, None, Some("never".to_string()), None);
    assert!(f.raw);
    assert!(f.quiet);
    assert!(!f.timestamps);
    assert!(!f.no_color);
    assert_eq!(f.template.as_deref(), Some("{{Message}}"));
    assert_eq!(f.color_mode, "never");
    assert_eq!(f.color_scheme, "bw");

    let d = Config::default();
    let g = output_settings(&d, false, true, false, true, Some("{{Pod}}".to_string()), None, None);
    assert!(g.timestamps && g.no_color && !g.raw && !g.quiet);
    assert_eq!(g.template.as_deref(), Some("{{Pod}}"));
    assert_eq!(g.color_mode, "auto");
    assert_eq!(g.color_scheme, "modern");

    let h = output_settings(&d, false, false, false, false, None, None, None);
    assert!(h.template.is_none());
}

#[test]
fn pod_model_holds_what_is_given() {
    let mut p = pod_named("web-1");
    p.owner_references = Some(vec![OwnerRef { kind: "ReplicaSet".to_string(), name: "web-5d8f7c9b6d".to_string() }]);
    p.spec = Some(PodSpecInfo {
        init_containers: None,
        containers: vec![ContainerInfo { name: "app".to_string() }],
    });
    let q = p.clone();
    assert_eq!(q.name.as_deref(), Some("web-1"));
    assert_eq!(q.owner_references.as_ref().map(|o| o.len()), Some(1));
    assert_eq!(q.spec.as_ref().map(|s| s.containers[0].name.clone()), Some("app".to_string()));
}
