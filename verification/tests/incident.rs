use vectorguard::config::{DefaultAction, FastPathConfig, ScopeConfig};
use vectorguard::event::{
    RawRecord,
    Action, Direction, EventSource, EventType, FileFlags, NormalizedEvent, ProcessInfo, Proto,
    Severity,
};
use vectorguard::fast_path::FastPath;
use vectorguard::incident::{incident_kind_text, incident_record};
use vectorguard::rules::{Rule, RuleAction};
use vectorguard::scope::ScopeFilter;

fn make_event(action: Action, binary: &str, rule: Option<&str>) -> NormalizedEvent {
    NormalizedEvent {
        id: 1,
        timestamp: 1234,
        source: EventSource::NativeEbpf,
        process: ProcessInfo {
            pid: 42,
            ppid: 1,
            uid: 1000,
            gid: 1000,
            binary: binary.to_string(),
            args: vec![],
            cwd: String::new(),
        },
        parent: None,
        event_type: EventType::Exec,
        severity: Severity::High,
        action,
        rule_name: rule.map(String::from),
        k8s: None,
        raw: RawRecord::Null,
    }
}

#[test]
fn incident_record_skips_allowed_and_logged() {
    assert!(incident_record(&make_event(Action::Allowed, "ls", None)).is_none());
    assert!(incident_record(&make_event(Action::Logged, "curl", Some("log-curl"))).is_none());
}

#[test]
fn incident_record_of_blocked_event() {
    let rec = incident_record(&make_event(Action::Blocked, "nc", Some("block-nc"))).unwrap();
    assert_eq!(rec.timestamp, 1234);
    assert_eq!(rec.pid, 42);
    assert_eq!(rec.ppid, 1);
    assert_eq!(rec.uid, 1000);
    assert_eq!(rec.binary, "nc");
    assert_eq!(rec.event_type, "Exec");
    assert_eq!(rec.rule.as_deref(), Some("block-nc"));
    assert_eq!(rec.action, "Blocked");
    let killed = incident_record(&make_event(Action::Killed, "x", None)).unwrap();
    assert_eq!(killed.action, "Killed");
    assert_eq!(killed.rule, None);
}

#[test]
fn incident_kinds_carry_their_detail() {
    let file = EventType::FileAccess {
        path: "/etc/shadow".into(),
        flags: FileFlags { read: true, write: false, execute: false },
    };
    assert_eq!(incident_kind_text(&file), "FileAccess:/etc/shadow");
    let net = EventType::Network {
        direction: Direction::Inbound,
        remote_ip: "::1".into(),
        port: 4444,
        proto: Proto::Udp,
    };
    assert_eq!(incident_kind_text(&net), "Network:Udp:4444");
    let pr = EventType::Privilege { syscall: "setuid".into(), capability: None };
    assert_eq!(incident_kind_text(&pr), "Privilege:setuid");
    assert_eq!(incident_kind_text(&EventType::Signal { signum: 9, target_pid: 3 }), "Signal:9");
}

// ── scope → fast path → incident, on synthetic events ──────────────────

fn empty_scope() -> ScopeConfig {
    ScopeConfig {
        targets: vec![],
        exclude_processes: vec![],
        include_namespaces: vec![],
        exclude_namespaces: vec![],
        label_selectors: vec![],
    }
}

fn fast_path(rules: Vec<Rule>) -> FastPath {
    let cfg = FastPathConfig {
        enabled: true,
        rules_path: String::new(),
        default_action: DefaultAction::Log,
    };
    FastPath::new(&cfg, rules)
}

fn one_rule(name: &str, action: RuleAction) -> Rule {
    Rule {
        name: name.into(),
        action,
        description: None,
        match_process: vec![],
        match_path_prefix: vec![],
        match_exec_path: vec![],
        match_port: vec![],
        match_uid: None,
    }
}

#[test]
fn pipeline_block_rule_records_incident() {
    let mut r = one_rule("block-shadow-access", RuleAction::Block);
    r.match_path_prefix = vec!["/etc/shadow".into()];
    let scope = ScopeFilter::new(&empty_scope());
    let fp = fast_path(vec![r]);
    let mut ev = make_event(Action::Allowed, "cat", None);
    ev.event_type = EventType::FileAccess {
        path: "/etc/shadow".into(),
        flags: FileFlags { read: true, write: false, execute: false },
    };
    assert!(scope.allows(&ev));
    fp.evaluate(&mut ev);
    let rec = incident_record(&ev).unwrap();
    assert_eq!(rec.action, "Blocked");
    assert_eq!(rec.rule.as_deref(), Some("block-shadow-access"));
    assert_eq!(rec.event_type, "FileAccess:/etc/shadow");
}

#[test]
fn pipeline_unmatched_event_is_logged_without_incident() {
    let scope = ScopeFilter::new(&empty_scope());
    let fp = fast_path(vec![]);
    let mut ev = make_event(Action::Allowed, "ls", None);
    assert!(scope.allows(&ev));
    fp.evaluate(&mut ev);
    assert!(!matches!(ev.action, Action::Blocked | Action::Alerted));
    assert!(incident_record(&ev).is_none());
}

#[test]
fn pipeline_scope_exclusion_comes_first() {
    let mut cfg = empty_scope();
    cfg.exclude_processes = vec!["cat".into()];
    let scope = ScopeFilter::new(&cfg);
    let ev = make_event(Action::Allowed, "cat", None);
    assert!(!scope.allows(&ev));
}

#[test]
fn pipeline_alert_rule_escalates_severity() {
    let mut r = one_rule("alert-rev-shell", RuleAction::Alert);
    r.match_port = vec![4444];
    let fp = fast_path(vec![r]);
    let mut ev = make_event(Action::Allowed, "nc", None);
    ev.severity = Severity::Info;
    ev.event_type = EventType::Network {
        direction: Direction::Outbound,
        remote_ip: "10.0.0.1".into(),
        port: 4444,
        proto: Proto::Tcp,
    };
    fp.evaluate(&mut ev);
    assert_eq!(ev.severity, Severity::High, "alert should escalate severity");
    let rec = incident_record(&ev).unwrap();
    assert_eq!(rec.action, "Alerted");
    assert_eq!(rec.rule.as_deref(), Some("alert-rev-shell"));
}
