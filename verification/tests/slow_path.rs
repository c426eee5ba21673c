use vectorguard::event::{
    RawRecord, ContainerInfo, K8sMeta,
    Action, EventSource, EventType, FileFlags, NormalizedEvent, ProcessInfo, Severity,
};
use vectorguard::slow_path::{
    apply_anomaly, event_to_text, openai_dim, should_analyze, stable_id, voyage_dim,
    LocalEmbedder, FNV_OFFSET_BASIS,
};

fn make_event(event_type: EventType, uid: u32, binary: &str) -> NormalizedEvent {
    NormalizedEvent {
        id: 0,
        timestamp: 0,
        source: EventSource::NativeEbpf,
        process: ProcessInfo {
            pid: 1,
            ppid: 0,
            uid,
            gid: 0,
            binary: binary.to_string(),
            args: vec!["--flag".into(), "value".into()],
            cwd: "/home/user".into(),
        },
        parent: Some(ProcessInfo {
            pid: 0,
            ppid: 0,
            uid: 0,
            gid: 0,
            binary: "systemd".to_string(),
            args: vec![],
            cwd: String::new(),
        }),
        event_type,
        severity: Severity::Info,
        action: Action::Allowed,
        rule_name: None,
        k8s: None,
        raw: RawRecord::Null,
    }
}

#[test]
fn stable_id_is_deterministic() {
    assert_eq!(stable_id("nginx"), stable_id("nginx"));
    assert_eq!(stable_id(""), stable_id(""));
}

#[test]
fn stable_id_differs_across_inputs() {
    assert_ne!(stable_id("nginx"), stable_id("apache2"));
    assert_ne!(stable_id("sh"), stable_id("sH"));
}

#[test]
fn stable_id_known_fnv1a_value() {
    // FNV-1a("") = 0xcbf29ce484222325 (offset basis itself)
    assert_eq!(stable_id(""), 0xcbf2_9ce4_8422_2325);
}

#[test]
fn stable_id_matches_reference_fnv1a() {
    // FNV-1a 64 of "a" is 0xaf63dc4c8601ec8c.
    assert_eq!(stable_id("a"), 0xaf63_dc4c_8601_ec8c);
    assert_eq!(FNV_OFFSET_BASIS, 0xcbf2_9ce4_8422_2325);
}

#[test]
fn event_to_text_includes_args_and_parent() {
    let ev = make_event(EventType::Exec, 1000, "bash");
    let text = event_to_text(&ev);
    assert!(text.contains("args=[--flag, value]"));
    assert!(text.contains("parent=systemd(pid=0)"));
    assert!(text.contains("cwd=/home/user"));
    assert!(text.contains("severity=Info"));
}

#[test]
fn event_to_text_file_access_includes_mode() {
    let ev = make_event(
        EventType::FileAccess {
            path: "/etc/shadow".into(),
            flags: FileFlags { read: true, write: false, execute: false },
        },
        0,
        "cat",
    );
    let text = event_to_text(&ev);
    assert!(text.contains("file_access /etc/shadow mode=r"));
}

#[test]
fn event_to_text_whole_line() {
    let ev = make_event(EventType::Exec, 1000, "bash");
    assert_eq!(
        event_to_text(&ev),
        "exec uid=1000 proc=bash args=[--flag, value] cwd=/home/user parent=systemd(pid=0) severity=Info"
    );
    let mut bare = make_event(
        EventType::Signal { signum: 9, target_pid: 77 },
        0,
        "kill",
    );
    bare.process.args.clear();
    bare.process.cwd.clear();
    bare.parent = None;
    bare.severity = Severity::High;
    assert_eq!(event_to_text(&bare), "signal 9 target_pid=77 uid=0 proc=kill severity=High");
}

#[test]
fn local_embedder_dim() {
    let emb = LocalEmbedder;
    assert_eq!(emb.dim(), 64);
}

#[test]
fn openai_dims_by_model() {
    assert_eq!(openai_dim("text-embedding-3-large"), 3072);
    assert_eq!(openai_dim("text-embedding-3-small"), 1536);
    assert_eq!(voyage_dim("voyage-3-lite"), 512);
    assert_eq!(voyage_dim("voyage-3"), 1024);
}

#[test]
fn anomaly_escalates_allowed_events_only() {
    let mut ev = make_event(EventType::Exec, 0, "sh");
    apply_anomaly(&mut ev, true);
    assert_eq!(ev.action, Action::Alerted);
    assert_eq!(ev.severity, Severity::Medium);

    let mut high = make_event(EventType::Exec, 0, "sh");
    high.severity = Severity::Critical;
    apply_anomaly(&mut high, true);
    assert_eq!(high.severity, Severity::Critical);

    let mut logged = make_event(EventType::Exec, 0, "sh");
    logged.action = Action::Logged;
    apply_anomaly(&mut logged, true);
    assert_eq!(logged.action, Action::Logged);

    let mut normal = make_event(EventType::Exec, 0, "sh");
    apply_anomaly(&mut normal, false);
    assert_eq!(normal.action, Action::Allowed);
    assert_eq!(normal.severity, Severity::Info);
}

#[test]
fn blocked_events_skip_the_slow_path() {
    let mut ev = make_event(EventType::Exec, 0, "sh");
    assert!(should_analyze(true, true, &ev));
    assert!(!should_analyze(false, true, &ev));
    assert!(!should_analyze(true, false, &ev));
    ev.action = Action::Blocked;
    assert!(!should_analyze(true, true, &ev));
}

#[test]
fn escalation_keeps_the_rest_of_the_event() {
    let mut ev = make_event(EventType::Exec, 0, "sh");
    ev.source = EventSource::Falco;
    ev.raw = RawRecord::Text("line".into());
    ev.rule_name = Some("r".into());
    ev.k8s = Some(K8sMeta {
        pod_name: "web".into(),
        namespace: "prod".into(),
        node_name: "n1".into(),
        container: ContainerInfo { id: "c".into(), name: "app".into(), image: "img".into() },
        labels: vec![("app".into(), "web".into())],
    });
    apply_anomaly(&mut ev, true);
    assert_eq!(ev.action, Action::Alerted);
    assert_eq!(ev.source, EventSource::Falco);
    assert_eq!(ev.parent.as_ref().unwrap().binary, "systemd");
    assert_eq!(ev.k8s.as_ref().unwrap().pod_name, "web");
    assert_eq!(ev.k8s.as_ref().unwrap().labels.len(), 1);
    assert_eq!(ev.rule_name.as_deref(), Some("r"));
    assert!(matches!(&ev.raw, RawRecord::Text(s) if s == "line"));
}
