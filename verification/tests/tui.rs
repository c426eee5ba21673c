use vectorguard::event::{
    RawRecord,
    Action, EventSource, EventType, FileFlags, NormalizedEvent, ProcessInfo, Severity,
};
use vectorguard::tui::{
    format_age, format_ts, App, AppState, EventHandler, IncidentFilter, InputMode, Key, Tab,
};

fn ev(pid: u32, ppid: u32, binary: &str, action: Action, severity: Severity) -> NormalizedEvent {
    NormalizedEvent {
        id: 0,
        timestamp: 1_500_000_000,
        source: EventSource::NativeEbpf,
        process: ProcessInfo {
            pid,
            ppid,
            uid: 0,
            gid: 0,
            binary: binary.to_string(),
            args: vec![],
            cwd: String::new(),
        },
        parent: None,
        event_type: EventType::FileAccess {
            path: "/etc/shadow".into(),
            flags: FileFlags { read: true, write: false, execute: false },
        },
        severity,
        action,
        rule_name: Some("r".into()),
        k8s: None,
        raw: RawRecord::Null,
    }
}

fn app() -> App {
    App::new("[system]\nlog_level = \"info\"\n".to_string(), "/tmp/c.toml".to_string())
}

#[test]
fn timestamps_and_ages() {
    assert_eq!(format_ts(1_500_000_000), "1.500");
    assert_eq!(format_ts(0), "0.000");
    assert_eq!(format_ts(62_007_000_000), "62.007");
    assert_eq!(format_age(42), "42s");
    assert_eq!(format_age(300), "5m");
    assert_eq!(format_age(7200), "2h");
}

#[test]
fn tabs_cycle_and_index() {
    assert_eq!(Tab::titles().len(), 5);
    assert_eq!(Tab::from_index(Tab::Config.index()), Tab::Config);
    let mut a = app();
    for _ in 0..5 {
        a.next_tab();
    }
    assert_eq!(a.active_tab, Tab::Dashboard);
}

#[test]
fn push_event_counts_and_tables() {
    let mut a = app();
    a.push_event(&ev(10, 1, "cat", Action::Blocked, Severity::High));
    a.push_event(&ev(11, 10, "sh", Action::Allowed, Severity::Info));
    a.push_event(&ev(10, 1, "cat", Action::Alerted, Severity::Critical));
    assert_eq!(a.stats.total_events, 3);
    assert_eq!(a.stats.blocked, 1);
    assert_eq!(a.stats.alerts, 1);
    assert_eq!(a.stats.high_severity, 2);
    assert_eq!(a.events.len(), 3);
    assert_eq!(a.incidents.len(), 2);
    assert_eq!(a.process_map.len(), 2);
    let rows = a.process_tree_rows();
    assert_eq!(rows.len(), 2);
    assert_eq!((rows[0].0, rows[0].1.pid), (0, 10));
    assert_eq!((rows[1].0, rows[1].1.pid), (1, 11));
}

#[test]
fn process_tree_lists_self_parented_and_cyclic_processes() {
    let mut a = app();
    a.push_event(&ev(5, 5, "init-like", Action::Allowed, Severity::Info));
    let rows = a.process_tree_rows();
    assert_eq!(rows.len(), 1);
    assert_eq!((rows[0].0, rows[0].1.pid), (0, 5));

    let mut a = app();
    a.push_event(&ev(20, 21, "a", Action::Allowed, Severity::Info));
    a.push_event(&ev(21, 20, "b", Action::Allowed, Severity::Info));
    a.push_event(&ev(22, 21, "c", Action::Allowed, Severity::Info));
    a.push_event(&ev(30, 1, "root", Action::Allowed, Severity::Info));
    let rows: Vec<(usize, u32)> = a.process_tree_rows().iter().map(|(d, n)| (*d, n.pid)).collect();
    assert_eq!(rows, vec![(0, 30), (0, 20), (1, 21), (2, 22)]);
}

#[test]
fn incident_filter_cycles() {
    let mut a = app();
    a.push_event(&ev(10, 1, "cat", Action::Blocked, Severity::High));
    a.push_event(&ev(12, 1, "nc", Action::Alerted, Severity::High));
    assert_eq!(a.filtered_incidents().len(), 2);
    a.cycle_incident_filter();
    assert_eq!(a.incident_filter, IncidentFilter::Blocked);
    assert_eq!(a.filtered_incidents().len(), 1);
    a.cycle_incident_filter();
    assert_eq!(a.filtered_incidents().len(), 1);
    a.cycle_incident_filter();
    assert_eq!(a.incident_filter, IncidentFilter::All);
    assert_eq!(a.incidents.len(), 2);
    assert_eq!(a.events.len(), 2);
    assert_eq!(a.process_map.len(), 2);
}

#[test]
fn keys_drive_the_dashboard() {
    let mut a = app();
    a.push_event(&ev(10, 1, "cat", Action::Blocked, Severity::High));
    a.push_event(&ev(12, 1, "nc", Action::Allowed, Severity::Low));
    assert!(!a.handle_key(Key::Char('2')));
    assert_eq!(a.active_tab, Tab::Events);
    assert!(!a.handle_key(Key::Char('/')));
    assert_eq!(a.input_mode, InputMode::Filtering);
    for c in "NC".chars() {
        a.handle_key(Key::Char(c));
    }
    a.handle_key(Key::Backspace);
    a.handle_key(Key::Char('C'));
    a.handle_key(Key::Enter);
    assert_eq!(a.input_mode, InputMode::Normal);
    assert_eq!(a.filter_query, "NC");
    // the query matches case-insensitively
    assert_eq!(a.filtered_events().len(), 1);
    assert!(a.handle_key(Key::Char('q')));
    assert_eq!(a.state, AppState::Quit);
}

#[test]
fn detail_popup_opens_and_closes() {
    let mut a = app();
    a.push_event(&ev(10, 1, "cat", Action::Blocked, Severity::High));
    a.handle_key(Key::Char('2'));
    a.open_detail();
    assert!(a.is_detail_open());
    // while the popup is open, q only closes it
    assert!(!a.handle_key(Key::Char('q')));
    assert!(!a.is_detail_open());
    assert_eq!(a.state, AppState::Running);
}

#[test]
fn config_editing_round_trip() {
    let mut a = app();
    assert!(!a.config_fields.is_empty());
    a.start_config_edit();
    assert!(a.config_editing);
    a.cancel_config_edit();
    assert!(!a.config_editing);
    assert!(!a.config_modified);
    let _ = EventHandler::new(250);
}
