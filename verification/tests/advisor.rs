use vectorguard::advice::{
    advice_file_text, advice_model, advice_prompt, advice_rules, event_summary, extract_toml,
};
use vectorguard::ai_advisor::{pattern_key, AiAdvisor};
use vectorguard::config::AiAdvisorConfig;
use vectorguard::event::{
    RawRecord,
    Action, Direction, EventSource, EventType, FileFlags, NormalizedEvent, ProcessInfo, Proto,
    Severity,
};

const SEC: u64 = 1_000_000_000;

fn cfg(threshold: u32, cooldown: u64, ctx: usize, window: u64) -> AiAdvisorConfig {
    AiAdvisorConfig {
        enabled: true,
        api_key: "SECRET-REDACTED".into(),
        model: String::new(),
        trigger_threshold: threshold,
        cooldown_seconds: cooldown,
        context_window_size: ctx,
        window_secs: window,
    }
}

fn event(binary: &str, event_type: EventType, action: Action) -> NormalizedEvent {
    NormalizedEvent {
        id: 0,
        timestamp: 0,
        source: EventSource::NativeEbpf,
        process: ProcessInfo {
            pid: 7,
            ppid: 1,
            uid: 1000,
            gid: 1000,
            binary: binary.to_string(),
            args: vec![],
            cwd: String::new(),
        },
        parent: None,
        event_type,
        severity: Severity::High,
        action,
        rule_name: Some("block-shadow-access".into()),
        k8s: None,
        raw: RawRecord::Null,
    }
}

fn shadow(action: Action) -> NormalizedEvent {
    event(
        "cat",
        EventType::FileAccess {
            path: "/etc/shadow".into(),
            flags: FileFlags { read: true, write: false, execute: false },
        },
        action,
    )
}

#[test]
fn pattern_keys_by_kind() {
    let k = pattern_key(&shadow(Action::Blocked)).unwrap();
    assert_eq!((k.binary.as_str(), k.detail.as_str(), k.action.as_str()), ("cat", "/etc/shadow", "Blocked"));
    let net = event(
        "nc",
        EventType::Network {
            direction: Direction::Outbound,
            remote_ip: "10.0.0.1".into(),
            port: 4444,
            proto: Proto::Tcp,
        },
        Action::Alerted,
    );
    assert_eq!(pattern_key(&net).unwrap().detail, "4444");
    assert_eq!(pattern_key(&event("sh", EventType::Exec, Action::Killed)).unwrap().detail, "sh");
    let sig = event("kill", EventType::Signal { signum: 9, target_pid: 1 }, Action::Blocked);
    assert!(pattern_key(&sig).is_none());
}

#[test]
fn advisor_triggers_at_threshold_then_cools_down() {
    let mut a = AiAdvisor::new(cfg(3, 300, 2, 60), "/etc/vectorguard/rules".into());
    assert!(a.analyze(&shadow(Action::Blocked), 0).is_none());
    assert!(a.analyze(&shadow(Action::Blocked), SEC).is_none());
    let ctx = a.analyze(&shadow(Action::Blocked), 2 * SEC).expect("third repeat triggers");
    assert_eq!(ctx.len(), 2);
    // inside the cooldown nothing more is sent
    assert!(a.analyze(&shadow(Action::Blocked), 3 * SEC).is_none());
    // after the cooldown, with the pattern still frequent, it fires again
    let later = 2 * SEC + 300 * SEC;
    let mut fired = false;
    for i in 0..3 {
        if a.analyze(&shadow(Action::Blocked), later + i * SEC).is_some() {
            fired = true;
        }
    }
    assert!(fired);
}

#[test]
fn advisor_window_expires_old_events() {
    let mut a = AiAdvisor::new(cfg(2, 0, 5, 10), String::new());
    assert!(a.analyze(&shadow(Action::Blocked), 0).is_none());
    // 11 s later the first event has left the 10 s window
    assert!(a.analyze(&shadow(Action::Blocked), 11 * SEC).is_none());
    let ctx = a.analyze(&shadow(Action::Blocked), 12 * SEC).unwrap();
    assert_eq!(ctx.len(), 2);
}

#[test]
fn advisor_ignores_untracked_events() {
    let mut off = AiAdvisor::new(AiAdvisorConfig::default(), String::new());
    assert!(off.analyze(&shadow(Action::Blocked), 0).is_none());
    let mut a = AiAdvisor::new(cfg(1, 0, 5, 60), String::new());
    assert!(a.analyze(&shadow(Action::Allowed), 0).is_none());
    assert!(a.analyze(&shadow(Action::Logged), 0).is_none());
    let sig = event("kill", EventType::Signal { signum: 9, target_pid: 1 }, Action::Blocked);
    assert!(a.analyze(&sig, 0).is_none());
    // threshold 1: the first tracked event already triggers
    assert!(a.analyze(&shadow(Action::Alerted), 0).is_some());
}

#[test]
fn advisor_context_is_newest_first() {
    let mut a = AiAdvisor::new(cfg(2, 0, 10, 60), String::new());
    let mut first = shadow(Action::Blocked);
    first.id = 1;
    let mut second = shadow(Action::Blocked);
    second.id = 2;
    a.analyze(&first, 0);
    let ctx = a.analyze(&second, SEC).unwrap();
    assert_eq!(ctx.iter().map(|e| e.id).collect::<Vec<_>>(), vec![2, 1]);
}

#[test]
fn advisor_keeps_counting_after_config_update() {
    let mut a = AiAdvisor::new(cfg(5, 0, 10, 60), String::new());
    a.analyze(&shadow(Action::Blocked), 0);
    a.analyze(&shadow(Action::Blocked), 0);
    a.update_config(cfg(3, 0, 10, 60));
    assert!(a.analyze(&shadow(Action::Blocked), 0).is_some());
}

#[test]
fn summary_lines() {
    let mut ev = shadow(Action::Blocked);
    assert_eq!(
        event_summary(&ev),
        "binary=cat uid=1000 action=Blocked type=file_access path=/etc/shadow rule=Some(\"block-shadow-access\")"
    );
    ev.rule_name = None;
    ev.event_type = EventType::Network {
        direction: Direction::Outbound,
        remote_ip: "10.0.0.1".into(),
        port: 4444,
        proto: Proto::Tcp,
    };
    assert_eq!(
        event_summary(&ev),
        "binary=cat uid=1000 action=Blocked type=network remote=10.0.0.1:4444 rule=None"
    );
}

#[test]
fn prompt_embeds_rules_and_events() {
    let ctx = vec![shadow(Action::Blocked), shadow(Action::Alerted)];
    let p = advice_prompt("[[rules]]\nname = \"x\"\n", &ctx);
    assert!(p.starts_with("You are a security rule advisor for VectorGuard"));
    assert!(p.contains("```toml\n[[rules]]\nname = \"x\"\n```\n"));
    assert!(p.contains("action=Blocked type=file_access path=/etc/shadow rule=Some(\"block-shadow-access\")\nbinary=cat"));
    assert!(p.ends_with("Reply with only the TOML block(s), no commentary."));
}

#[test]
fn model_defaults_to_gpt_4o() {
    assert_eq!(advice_model(&cfg(1, 1, 1, 1)), "gpt-4o");
    let mut c = cfg(1, 1, 1, 1);
    c.model = "gpt-4.1".into();
    assert_eq!(advice_model(&c), "gpt-4.1");
}

#[test]
fn extract_toml_from_fences() {
    let reply = "Here you go:\n```toml\n[[rules]]\nname = \"a\"\n```\nand\n  ```toml\nx = 1\n```";
    assert_eq!(extract_toml(reply), "[[rules]]\nname = \"a\"\nx = 1\n");
    // raw TOML without a fence
    let raw = "[[rules]]\nname = \"b\"";
    assert_eq!(extract_toml(raw), raw);
    assert_eq!(extract_toml("no rules here"), "");
}

#[test]
fn advice_keeps_only_parsing_toml() {
    assert_eq!(
        advice_rules("```toml\n[[rules]]\nname = \"a\"\naction = \"alert\"\n```").as_deref(),
        Some("[[rules]]\nname = \"a\"\naction = \"alert\"\n")
    );
    assert_eq!(advice_rules("```toml\n[[rules]\n```"), None);
    assert_eq!(advice_rules("nothing"), None);
    assert_eq!(
        advice_file_text("x = 1\n"),
        "# Auto-generated by VectorGuard AI Advisor — do not edit manually\n\nx = 1\n"
    );
}
