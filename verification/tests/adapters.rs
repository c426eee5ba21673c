use vectorguard::adapter::auditd::{
    auditd_line_event, kv_get, parse_auditd_syscall, parse_kv, unquote,
};
use vectorguard::adapter::falco::{falco_event, falco_priority_to_severity, FalcoRecord};
use vectorguard::adapter::tetragon::{
    convert_response, is_sensitive, is_suspicious_port, k8s_from, kprobe_event_type,
    process_info, KprobeArg, TetraEvent, TetraPod, TetraProcess,
};
use vectorguard::adapter::{next_id, EventIds};
use vectorguard::event::{
    Action, Direction, EventSource, EventType, FileFlags, Proto, RawRecord, Severity,
};

// ── auditd ──────────────────────────────────────────────────────────────

#[test]
fn parse_kv_splits_at_first_equals() {
    let pairs = parse_kv("type=SYSCALL msg=audit(1.2:3): a=b=c flag comm=\"ls\"");
    assert_eq!(
        pairs,
        vec![
            ("type".to_string(), "SYSCALL".to_string()),
            ("msg".to_string(), "audit(1.2:3):".to_string()),
            ("a".to_string(), "b=c".to_string()),
            ("comm".to_string(), "\"ls\"".to_string()),
        ]
    );
}

#[test]
fn kv_get_takes_the_last_value() {
    let pairs = parse_kv("uid=1 pid=7 uid=2");
    assert_eq!(kv_get(&pairs, "uid").as_deref(), Some("2"));
    assert_eq!(kv_get(&pairs, "pid").as_deref(), Some("7"));
    assert_eq!(kv_get(&pairs, "gid"), None);
}

#[test]
fn unquote_strips_surrounding_quotes() {
    assert_eq!(unquote("\"/usr/bin/ls\""), "/usr/bin/ls");
    assert_eq!(unquote("plain"), "plain");
    assert_eq!(unquote("\"\"x\"\""), "x");
}

#[test]
fn auditd_execve_record() {
    let line = "type=SYSCALL msg=audit(1700000000.123:42): arch=c000003e syscall=59 success=yes pid=1234 ppid=1 uid=0 comm=\"bash\" exe=\"/usr/bin/bash\"";
    let ev = parse_auditd_syscall(line, 5);
    assert_eq!(ev.id, 5);
    assert_eq!(ev.source, EventSource::Auditd);
    assert!(matches!(ev.event_type, EventType::Exec));
    assert_eq!(ev.process.pid, 1234);
    assert_eq!(ev.process.ppid, 1);
    assert_eq!(ev.process.uid, 0);
    assert_eq!(ev.process.binary, "bash");
    assert_eq!(ev.severity, Severity::Medium);
    assert_eq!(ev.action, Action::Allowed);
}

#[test]
fn auditd_openat_uses_exe_path_and_defaults() {
    let line = "type=SYSCALL syscall=257 pid=9 uid=1000 exe=\"/usr/bin/cat\"";
    let ev = parse_auditd_syscall(line, 0);
    match &ev.event_type {
        EventType::FileAccess { path, flags } => {
            assert_eq!(path, "/usr/bin/cat");
            assert_eq!(*flags, FileFlags { read: true, write: false, execute: false });
        }
        other => panic!("unexpected {:?}", other),
    }
    // no comm: the executable names the process; missing ppid reads as 0
    assert_eq!(ev.process.binary, "/usr/bin/cat");
    assert_eq!(ev.process.ppid, 0);
    assert_eq!(ev.severity, Severity::Info);
}

#[test]
fn auditd_connect_and_other_syscalls() {
    let ev = parse_auditd_syscall("type=SYSCALL syscall=42 uid=x", 0);
    match &ev.event_type {
        EventType::Network { direction, remote_ip, port, proto } => {
            assert_eq!(*direction, Direction::Outbound);
            assert_eq!(remote_ip, "0.0.0.0");
            assert_eq!(*port, 0);
            assert_eq!(*proto, Proto::Tcp);
        }
        other => panic!("unexpected {:?}", other),
    }
    // a malformed uid reads as 65534
    assert_eq!(ev.process.uid, 65534);
    let ev = parse_auditd_syscall("type=SYSCALL syscall=105 uid=+0", 0);
    match &ev.event_type {
        EventType::Privilege { syscall, capability } => {
            assert_eq!(syscall, "105");
            assert!(capability.is_none());
        }
        other => panic!("unexpected {:?}", other),
    }
    assert_eq!(ev.process.uid, 0);
    // an overflowing number is malformed too
    let ev = parse_auditd_syscall("type=SYSCALL syscall=4294967296", 0);
    assert!(matches!(&ev.event_type, EventType::Privilege { syscall, .. } if syscall == "0"));
}

#[test]
fn auditd_only_syscall_lines_become_events() {
    assert!(auditd_line_event("type=PATH msg=audit(1:2): item=0", 0).is_none());
    assert!(auditd_line_event("   ", 0).is_none());
    let ev = auditd_line_event("  type=SYSCALL syscall=59 comm=\"sh\"\n", 3).unwrap();
    assert_eq!(ev.id, 3);
    assert_eq!(ev.process.binary, "sh");
}

// ── falco ───────────────────────────────────────────────────────────────

fn falco(evt: Option<&str>) -> FalcoRecord {
    FalcoRecord {
        document: "{\"priority\":\"Warning\"}".into(),
        priority: Some("Warning".into()),
        proc_name: Some("nc".into()),
        pid: Some(10),
        ppid: Some(1),
        uid: None,
        evt_type: evt.map(String::from),
        fd_name: Some("/etc/passwd".into()),
        fd_openflags: Some(2),
        fd_sport: Some(70000),
    }
}

#[test]
fn falco_priorities() {
    assert_eq!(falco_priority_to_severity("Emergency"), Severity::Critical);
    assert_eq!(falco_priority_to_severity("Alert"), Severity::Critical);
    assert_eq!(falco_priority_to_severity("Critical"), Severity::Critical);
    assert_eq!(falco_priority_to_severity("Error"), Severity::High);
    assert_eq!(falco_priority_to_severity("Warning"), Severity::Medium);
    assert_eq!(falco_priority_to_severity("Notice"), Severity::Low);
    assert_eq!(falco_priority_to_severity("Informational"), Severity::Info);
    assert_eq!(falco_priority_to_severity("warning"), Severity::Info);
}

#[test]
fn falco_open_event() {
    let ev = falco_event(&falco(Some("openat")), 7);
    assert_eq!(ev.id, 7);
    assert_eq!(ev.source, EventSource::Falco);
    assert_eq!(ev.severity, Severity::Medium);
    assert_eq!(ev.process.binary, "nc");
    assert_eq!(ev.process.pid, 10);
    assert_eq!(ev.process.uid, 65534);
    match &ev.event_type {
        EventType::FileAccess { path, flags } => {
            assert_eq!(path, "/etc/passwd");
            // O_RDWR: written, not read-only
            assert_eq!(*flags, FileFlags { read: true, write: true, execute: false });
        }
        other => panic!("unexpected {:?}", other),
    }
}

#[test]
fn falco_connect_and_unknown_events() {
    let ev = falco_event(&falco(Some("connect")), 0);
    match &ev.event_type {
        EventType::Network { port, remote_ip, .. } => {
            // 70000 keeps its low 16 bits
            assert_eq!(*port, 70000u32 as u16);
            assert_eq!(remote_ip, "0.0.0.0");
        }
        other => panic!("unexpected {:?}", other),
    }
    assert!(matches!(falco_event(&falco(Some("mmap")), 0).event_type, EventType::Exec));
    let mut r = falco(None);
    r.priority = None;
    let ev = falco_event(&r, 0);
    assert!(matches!(ev.event_type, EventType::Exec));
    assert_eq!(ev.severity, Severity::Info);
}

// ── tetragon ────────────────────────────────────────────────────────────

fn tproc(pod: Option<&str>) -> TetraProcess {
    TetraProcess {
        pid: Some(42),
        uid: None,
        binary: "/usr/bin/curl".into(),
        arguments: "  -s   http://x  ".into(),
        cwd: "/root".into(),
        pod: pod.map(|n| TetraPod { name: n.into(), namespace: "default".into() }),
    }
}

#[test]
fn tetragon_process_info() {
    let p = process_info(&tproc(None));
    assert_eq!(p.pid, 42);
    assert_eq!(p.ppid, 0);
    assert_eq!(p.uid, 65534);
    assert_eq!(p.binary, "/usr/bin/curl");
    assert_eq!(p.args, vec!["-s".to_string(), "http://x".to_string()]);
    assert_eq!(p.cwd, "/root");
}

#[test]
fn tetragon_pod_metadata() {
    assert!(k8s_from(&tproc(None)).is_none());
    assert!(k8s_from(&tproc(Some(""))).is_none());
    let m = k8s_from(&tproc(Some("web-1"))).unwrap();
    assert_eq!(m.pod_name, "web-1");
    assert_eq!(m.namespace, "default");
    assert!(m.labels.is_empty());
}

#[test]
fn tetragon_severity_hints() {
    assert!(is_sensitive("/etc/shadow"));
    assert!(is_sensitive("/root/.ssh/id_rsa"));
    assert!(!is_sensitive("/etc/passwd"));
    assert!(is_suspicious_port(4444));
    assert!(is_suspicious_port(31337));
    assert!(!is_suspicious_port(443));
}

#[test]
fn tetragon_kprobe_kinds() {
    let args = vec![
        KprobeArg::Other,
        KprobeArg::Sock { remote_ip: Some("10.1.2.3".into()), dport: 65536 + 4444 },
        KprobeArg::File { path: "/etc/shadow".into(), flags: 1 },
    ];
    match kprobe_event_type("security_file_open", &args) {
        EventType::FileAccess { path, flags } => {
            assert_eq!(path, "/etc/shadow");
            assert_eq!(flags, FileFlags { read: false, write: true, execute: false });
        }
        other => panic!("unexpected {:?}", other),
    }
    match kprobe_event_type("tcp_connect", &args) {
        EventType::Network { remote_ip, port, .. } => {
            assert_eq!(remote_ip, "10.1.2.3");
            assert_eq!(port, 4444);
        }
        other => panic!("unexpected {:?}", other),
    }
    match kprobe_event_type("tcp_connect", &vec![]) {
        EventType::Network { remote_ip, port, .. } => {
            assert_eq!(remote_ip, "0.0.0.0");
            assert_eq!(port, 0);
        }
        other => panic!("unexpected {:?}", other),
    }
    match kprobe_event_type("cap_capable", &args) {
        EventType::Privilege { syscall, .. } => assert_eq!(syscall, "cap_capable"),
        other => panic!("unexpected {:?}", other),
    }
    assert!(matches!(kprobe_event_type("do_exit", &args), EventType::Exec));
}

#[test]
fn tetragon_conversion_numbers_events() {
    let mut ids = EventIds::new();
    assert!(convert_response(&TetraEvent::Exec { process: None, parent: None }, &mut ids).is_none());
    assert!(convert_response(&TetraEvent::Loader, &mut ids).is_none());
    let ev = convert_response(
        &TetraEvent::Exec { process: Some(tproc(Some("web"))), parent: Some(tproc(None)) },
        &mut ids,
    )
    .unwrap();
    assert_eq!(ev.id, 0);
    assert_eq!(ev.source, EventSource::Tetragon);
    assert!(ev.parent.is_some());
    assert_eq!(ev.k8s.as_ref().unwrap().pod_name, "web");
    let ev = convert_response(
        &TetraEvent::Kprobe {
            process: Some(tproc(None)),
            parent: None,
            function_name: "fd_install_open".into(),
            args: vec![KprobeArg::File { path: "/etc/sudoers".into(), flags: 0 }],
        },
        &mut ids,
    )
    .unwrap();
    assert_eq!(ev.id, 1);
    assert_eq!(ev.severity, Severity::High);
    let ev = convert_response(
        &TetraEvent::Tracepoint {
            process: Some(tproc(None)),
            parent: None,
            subsys: "syscalls".into(),
            event: "sys_enter_setuid".into(),
        },
        &mut ids,
    )
    .unwrap();
    assert_eq!(ev.id, 2);
    assert_eq!(ev.severity, Severity::Medium);
    assert!(matches!(&ev.event_type, EventType::Privilege { syscall, .. } if syscall == "syscalls/sys_enter_setuid"));
    let ev = convert_response(
        &TetraEvent::Exit { process: Some(tproc(None)), parent: None },
        &mut ids,
    )
    .unwrap();
    assert!(matches!(ev.event_type, EventType::Signal { signum: 0, target_pid: 42 }));
    assert_eq!(next_id(&mut ids), 4);
}

#[test]
fn events_keep_their_raw_record() {
    let line = "type=SYSCALL syscall=59 uid=0 comm=\"sh\"";
    let ev = parse_auditd_syscall(line, 1);
    assert!(matches!(&ev.raw, RawRecord::Text(s) if s == line));
    let ev = auditd_line_event("  type=SYSCALL syscall=59 comm=\"sh\"\n", 2).unwrap();
    assert!(matches!(&ev.raw, RawRecord::Text(s) if s == "type=SYSCALL syscall=59 comm=\"sh\""));
    let ev = falco_event(&falco(Some("execve")), 3);
    assert!(matches!(&ev.raw, RawRecord::Json(s) if s == "{\"priority\":\"Warning\"}"));
    let mut ids = EventIds::new();
    let ev = convert_response(
        &TetraEvent::Exec { process: Some(tproc(None)), parent: None },
        &mut ids,
    )
    .unwrap();
    assert!(matches!(ev.raw, RawRecord::Null));
    let copy = ev.clone();
    assert!(matches!(copy.raw, RawRecord::Null));
}
