use vectorguard::config::ScopeConfig;
use vectorguard::event::{
    RawRecord,
    Action, ContainerInfo, EventSource, EventType, K8sMeta, NormalizedEvent, ProcessInfo,
    Severity,
};
use vectorguard::scope::ScopeFilter;

fn base_cfg() -> ScopeConfig {
    ScopeConfig {
        targets: vec![],
        exclude_processes: vec![],
        include_namespaces: vec![],
        exclude_namespaces: vec![],
        label_selectors: vec![],
    }
}

fn make_event(binary: &str, k8s: Option<K8sMeta>) -> NormalizedEvent {
    NormalizedEvent {
        id: 0,
        timestamp: 0,
        source: EventSource::NativeEbpf,
        process: ProcessInfo {
            pid: 1,
            ppid: 0,
            uid: 0,
            gid: 0,
            binary: binary.to_string(),
            args: vec![],
            cwd: String::new(),
        },
        parent: None,
        event_type: EventType::Exec,
        severity: Severity::Info,
        action: Action::Allowed,
        rule_name: None,
        k8s,
        raw: RawRecord::Null,
    }
}

fn k8s(ns: &str, labels: &[(&str, &str)]) -> K8sMeta {
    K8sMeta {
        pod_name: "test-pod".into(),
        namespace: ns.into(),
        node_name: "node-1".into(),
        container: ContainerInfo {
            id: "abc".into(),
            name: "app".into(),
            image: "nginx:latest".into(),
        },
        labels: labels.iter().map(|(k, v)| (k.to_string(), v.to_string())).collect(),
    }
}

#[test]
fn empty_targets_allows_all() {
    let f = ScopeFilter::new(&base_cfg());
    assert!(f.allows(&make_event("anything", None)));
}

#[test]
fn target_exact_match() {
    let f = ScopeFilter::new(&ScopeConfig { targets: vec!["nginx".into()], ..base_cfg() });
    assert!(f.allows(&make_event("nginx", None)));
    assert!(!f.allows(&make_event("sshd", None)));
}

#[test]
fn target_glob_match() {
    let f = ScopeFilter::new(&ScopeConfig {
        targets: vec!["py*".into(), "nginx".into()],
        ..base_cfg()
    });
    assert!(f.allows(&make_event("python3", None)));
    assert!(f.allows(&make_event("nginx", None)));
    assert!(!f.allows(&make_event("bash", None)));
}

#[test]
fn include_ns_allows_matching_namespace() {
    let f = ScopeFilter::new(&ScopeConfig {
        include_namespaces: vec!["production".into()],
        ..base_cfg()
    });
    assert!(f.allows(&make_event("nginx", Some(k8s("production", &[])))));
    assert!(!f.allows(&make_event("nginx", Some(k8s("kube-system", &[])))));
}

#[test]
fn include_ns_does_not_affect_bare_metal_events() {
    let f = ScopeFilter::new(&ScopeConfig {
        include_namespaces: vec!["production".into()],
        ..base_cfg()
    });
    // No K8sMeta → include_ns is not applied
    assert!(f.allows(&make_event("nginx", None)));
}

#[test]
fn include_ns_glob_pattern() {
    let f = ScopeFilter::new(&ScopeConfig {
        include_namespaces: vec!["prod-*".into()],
        ..base_cfg()
    });
    assert!(f.allows(&make_event("app", Some(k8s("prod-eu", &[])))));
    assert!(f.allows(&make_event("app", Some(k8s("prod-us", &[])))));
    assert!(!f.allows(&make_event("app", Some(k8s("staging", &[])))));
}

#[test]
fn exclude_ns_drops_matching_namespace() {
    let f = ScopeFilter::new(&ScopeConfig {
        exclude_namespaces: vec!["kube-system".into(), "kube-public".into()],
        ..base_cfg()
    });
    assert!(!f.allows(&make_event("coredns", Some(k8s("kube-system", &[])))));
    assert!(!f.allows(&make_event("proxy", Some(k8s("kube-public", &[])))));
    assert!(f.allows(&make_event("nginx", Some(k8s("production", &[])))));
}

#[test]
fn exclude_ns_does_not_affect_bare_metal_events() {
    let f = ScopeFilter::new(&ScopeConfig {
        exclude_namespaces: vec!["kube-system".into()],
        ..base_cfg()
    });
    assert!(f.allows(&make_event("coredns", None)));
}

#[test]
fn exclude_overrides_include() {
    // Both lists present; exclude takes precedence
    let f = ScopeFilter::new(&ScopeConfig {
        include_namespaces: vec!["prod*".into()],
        exclude_namespaces: vec!["prod-dmz".into()],
        ..base_cfg()
    });
    assert!(f.allows(&make_event("app", Some(k8s("prod-eu", &[])))));
    assert!(!f.allows(&make_event("app", Some(k8s("prod-dmz", &[])))));
    assert!(!f.allows(&make_event("app", Some(k8s("staging", &[])))));
}

#[test]
fn label_selector_all_must_match() {
    let f = ScopeFilter::new(&ScopeConfig {
        label_selectors: vec!["app=nginx".into(), "env=prod".into()],
        ..base_cfg()
    });
    assert!(f.allows(&make_event("nginx", Some(k8s("prod", &[("app", "nginx"), ("env", "prod")])))));
    assert!(!f.allows(&make_event(
        "nginx",
        Some(k8s("prod", &[("app", "nginx"), ("env", "staging")]))
    )));
    assert!(!f.allows(&make_event("nginx", Some(k8s("prod", &[("app", "nginx")])))));
}

#[test]
fn label_selector_does_not_affect_bare_metal() {
    let f = ScopeFilter::new(&ScopeConfig {
        label_selectors: vec!["app=nginx".into()],
        ..base_cfg()
    });
    assert!(f.allows(&make_event("nginx", None)));
}

#[test]
fn combined_target_and_namespace() {
    let f = ScopeFilter::new(&ScopeConfig {
        targets: vec!["nginx".into()],
        exclude_processes: vec![],
        include_namespaces: vec!["production".into()],
        exclude_namespaces: vec!["kube-system".into()],
        label_selectors: vec![],
    });
    // Right binary, right namespace
    assert!(f.allows(&make_event("nginx", Some(k8s("production", &[])))));
    // Wrong binary
    assert!(!f.allows(&make_event("sshd", Some(k8s("production", &[])))));
    // Excluded namespace
    assert!(!f.allows(&make_event("nginx", Some(k8s("kube-system", &[])))));
    // Not in include list
    assert!(!f.allows(&make_event("nginx", Some(k8s("staging", &[])))));
}

#[test]
fn excluded_processes_never_enter() {
    let f = ScopeFilter::new(&ScopeConfig {
        targets: vec!["*".into()],
        exclude_processes: vec!["vector*".into()],
        ..base_cfg()
    });
    assert!(!f.allows(&make_event("vectorguard", None)));
    assert!(f.allows(&make_event("bash", None)));
}

#[test]
fn malformed_selectors_are_ignored() {
    let f = ScopeFilter::new(&ScopeConfig {
        label_selectors: vec!["no-equals-sign".into(), " app = web ".into()],
        ..base_cfg()
    });
    assert!(f.allows(&make_event("x", Some(k8s("ns", &[("app", "web")])))));
    assert!(!f.allows(&make_event("x", Some(k8s("ns", &[("app", "db")])))));
}
