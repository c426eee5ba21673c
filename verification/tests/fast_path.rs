use vectorguard::config::{DefaultAction, FastPathConfig};
use vectorguard::event::{
    RawRecord,
    Action, Direction, EventSource, EventType, FileFlags, NormalizedEvent, ProcessInfo, Proto,
    Severity,
};
use vectorguard::fast_path::{exceeds_kernel_comm, FastPath};
use vectorguard::rules::{Rule, RuleAction, RuleSet};

fn base_event(binary: &str, uid: u32, event_type: EventType) -> NormalizedEvent {
    NormalizedEvent {
        id: 0,
        timestamp: 0,
        source: EventSource::NativeEbpf,
        process: ProcessInfo {
            pid: 1,
            ppid: 0,
            uid,
            gid: 0,
            binary: binary.to_string(),
            args: vec![],
            cwd: String::new(),
        },
        parent: None,
        event_type,
        severity: Severity::Info,
        action: Action::Allowed,
        rule_name: None,
        k8s: None,
        raw: RawRecord::Null,
    }
}

fn exec_event(binary: &str) -> NormalizedEvent {
    base_event(binary, 1000, EventType::Exec)
}

fn file_event(binary: &str, path: &str) -> NormalizedEvent {
    base_event(
        binary,
        1000,
        EventType::FileAccess {
            path: path.to_string(),
            flags: FileFlags { read: true, write: false, execute: false },
        },
    )
}

fn net_event(binary: &str, port: u16) -> NormalizedEvent {
    base_event(
        binary,
        1000,
        EventType::Network {
            direction: Direction::Outbound,
            remote_ip: "1.2.3.4".to_string(),
            port,
            proto: Proto::Tcp,
        },
    )
}

fn rule(name: &str, action: RuleAction, procs: &[&str]) -> Rule {
    Rule {
        name: name.into(),
        action,
        description: None,
        match_process: procs.iter().map(|p| p.to_string()).collect(),
        match_path_prefix: vec![],
        match_exec_path: vec![],
        match_port: vec![],
        match_uid: None,
    }
}

#[test]
fn builtin_blocks_shadow_access() {
    let rs = RuleSet { rules: RuleSet::builtin_rules() };
    let ev = file_event("cat", "/etc/shadow");
    let result = rs.evaluate(&ev);
    assert_eq!(result.as_ref().map(|(a, _)| a), Some(&Action::Blocked));
}

#[test]
fn builtin_allows_normal_file() {
    let rs = RuleSet { rules: RuleSet::builtin_rules() };
    let ev = file_event("cat", "/tmp/test.txt");
    assert_eq!(rs.evaluate(&ev), None);
}

#[test]
fn builtin_alerts_shell_from_nginx() {
    let rs = RuleSet { rules: RuleSet::builtin_rules() };
    let ev3 = file_event("any", "/etc/sudoers");
    let result = rs.evaluate(&ev3);
    assert_eq!(result.as_ref().map(|(a, _)| a), Some(&Action::Blocked));
}

#[test]
fn builtin_alerts_suspicious_port() {
    let rs = RuleSet { rules: RuleSet::builtin_rules() };
    let ev = net_event("curl", 4444);
    let result = rs.evaluate(&ev);
    assert_eq!(result.as_ref().map(|(a, _)| a), Some(&Action::Alerted));
}

#[test]
fn normal_port_not_alerted() {
    let rs = RuleSet { rules: RuleSet::builtin_rules() };
    let ev = net_event("curl", 443);
    assert_eq!(rs.evaluate(&ev), None);
}

#[test]
fn custom_rule_uid_match() {
    let rs = RuleSet {
        rules: vec![Rule {
            name: "alert-root".into(),
            action: RuleAction::Alert,
            description: None,
            match_process: vec![],
            match_path_prefix: vec![],
            match_exec_path: vec![],
            match_port: vec![],
            match_uid: Some(0),
        }],
    };
    let ev_root = base_event("bash", 0, EventType::Exec);
    let ev_user = base_event("bash", 1000, EventType::Exec);
    assert_eq!(rs.evaluate(&ev_root).map(|(a, _)| a), Some(Action::Alerted));
    assert_eq!(rs.evaluate(&ev_user), None);
}

#[test]
fn custom_rule_process_glob() {
    let rs = RuleSet {
        rules: vec![Rule {
            name: "block-py".into(),
            action: RuleAction::Block,
            description: None,
            match_process: vec!["py*".into()],
            match_path_prefix: vec![],
            match_exec_path: vec![],
            match_port: vec![],
            match_uid: None,
        }],
    };
    assert_eq!(rs.evaluate(&exec_event("python3")).map(|(a, _)| a), Some(Action::Blocked));
    assert_eq!(rs.evaluate(&exec_event("pypy")).map(|(a, _)| a), Some(Action::Blocked));
    assert_eq!(rs.evaluate(&exec_event("ruby")), None);
}

#[test]
fn first_matching_rule_wins() {
    let rs = RuleSet {
        rules: vec![
            Rule {
                name: "alert".into(),
                action: RuleAction::Alert,
                description: None,
                match_process: vec!["nginx".into()],
                match_path_prefix: vec![],
                match_exec_path: vec![],
                match_port: vec![],
                match_uid: None,
            },
            Rule {
                name: "block".into(),
                action: RuleAction::Block,
                description: None,
                match_process: vec!["nginx".into()],
                match_path_prefix: vec![],
                match_exec_path: vec![],
                match_port: vec![],
                match_uid: None,
            },
        ],
    };
    assert_eq!(rs.evaluate(&exec_event("nginx")).map(|(a, _)| a), Some(Action::Alerted));
}

#[test]
fn evaluate_returns_rule_name() {
    let rs = RuleSet {
        rules: vec![Rule {
            name: "my-custom-rule".into(),
            action: RuleAction::Block,
            description: None,
            match_process: vec!["bash".into()],
            match_path_prefix: vec![],
            match_exec_path: vec![],
            match_port: vec![],
            match_uid: None,
        }],
    };
    let result = rs.evaluate(&exec_event("bash"));
    assert_eq!(result, Some((Action::Blocked, "my-custom-rule".into())));
}

#[test]
fn log_action_maps_to_logged_not_allowed() {
    let rs = RuleSet {
        rules: vec![Rule {
            name: "log-curl".into(),
            action: RuleAction::Log,
            description: None,
            match_process: vec!["curl".into()],
            match_path_prefix: vec![],
            match_exec_path: vec![],
            match_port: vec![],
            match_uid: None,
        }],
    };
    let result = rs.evaluate(&exec_event("curl"));
    assert_eq!(result.map(|(a, _)| a), Some(Action::Logged));
}

fn cfg(enabled: bool, default_action: DefaultAction) -> FastPathConfig {
    FastPathConfig { enabled, rules_path: "/nonexistent".into(), default_action }
}

#[test]
fn fast_path_without_rules_runs_builtins() {
    let fp = FastPath::new(&cfg(true, DefaultAction::Log), vec![]);
    assert_eq!(fp.rules().len(), 4);
    let mut ev = file_event("cat", "/etc/shadow");
    fp.evaluate(&mut ev);
    assert_eq!(ev.action, Action::Blocked);
    assert_eq!(ev.rule_name.as_deref(), Some("block-shadow-access"));
    assert_eq!(ev.severity, Severity::High);
}

#[test]
fn fast_path_default_action_when_nothing_matches() {
    let fp = FastPath::new(
        &cfg(true, DefaultAction::Log),
        vec![rule("block-nc", RuleAction::Block, &["nc"])],
    );
    let mut ev = exec_event("ls");
    fp.evaluate(&mut ev);
    assert_eq!(ev.action, Action::Logged);
    assert_eq!(ev.rule_name, None);
    assert_eq!(ev.severity, Severity::Info);

    let strict = FastPath::new(
        &cfg(true, DefaultAction::Block),
        vec![rule("allow-ls", RuleAction::Allow, &["ls"])],
    );
    let mut other = exec_event("cat");
    strict.evaluate(&mut other);
    assert_eq!(other.action, Action::Blocked);
    assert_eq!(other.severity, Severity::High);
    let mut ls = exec_event("ls");
    strict.evaluate(&mut ls);
    assert_eq!(ls.action, Action::Allowed);
    assert_eq!(ls.rule_name.as_deref(), Some("allow-ls"));
}

#[test]
fn disabled_fast_path_leaves_events_alone() {
    let fp = FastPath::new(
        &cfg(false, DefaultAction::Block),
        vec![rule("block-all", RuleAction::Block, &["*"])],
    );
    let mut ev = exec_event("bash");
    fp.evaluate(&mut ev);
    assert_eq!(ev.action, Action::Allowed);
    assert_eq!(ev.rule_name, None);
}

#[test]
fn long_literal_process_patterns_cannot_block_in_kernel() {
    assert!(!exceeds_kernel_comm("nginx"));
    assert!(!exceeds_kernel_comm("0123456789abcde"));
    assert!(exceeds_kernel_comm("0123456789abcdef"));
    assert!(!exceeds_kernel_comm("0123456789*abcdefghij"));
}
