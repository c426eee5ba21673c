use vectorguard::cli::{parse_args, ArgsOutcome};

fn run(args: &[&str]) -> ArgsOutcome {
    let mut v = vec!["vectorguard".to_string()];
    v.extend(args.iter().map(|a| a.to_string()));
    parse_args(&v)
}

fn path(o: ArgsOutcome) -> Option<String> {
    match o {
        ArgsOutcome::Config(p) => Some(p),
        _ => None,
    }
}

#[test]
fn tui_selects_system_config() {
    assert_eq!(path(run(&["tui"])).as_deref(), Some("/etc/vectorguard/config.toml"));
}

#[test]
fn config_flag_forms() {
    assert_eq!(path(run(&["--config", "/a.toml"])).as_deref(), Some("/a.toml"));
    assert_eq!(path(run(&["-c", "b.toml"])).as_deref(), Some("b.toml"));
    assert_eq!(path(run(&["--config=c.toml"])).as_deref(), Some("c.toml"));
    assert_eq!(path(run(&["--config=--config=d.toml"])).as_deref(), Some("d.toml"));
    assert_eq!(path(run(&["--verbose", "-c", "e.toml", "tui"])).as_deref(), Some("e.toml"));
}

#[test]
fn help_and_default() {
    assert!(matches!(run(&["--help"]), ArgsOutcome::Help));
    assert!(matches!(run(&["x", "-h"]), ArgsOutcome::Help));
    assert!(matches!(run(&[]), ArgsOutcome::Default));
    // a trailing --config without a path is skipped
    assert!(matches!(run(&["--config"]), ArgsOutcome::Default));
    // the program name itself is never read as an argument
    assert!(matches!(parse_args(&vec!["tui".to_string()]), ArgsOutcome::Default));
}
