use vectorguard::config_edit::{extract_toml_value, update_toml_value};

const CFG: &str = "[system]\nlog_level = \"info\"  # verbosity\nhot_reload = true\n\n[[rules]]\nname = \"x\"\n\n[fast_path]\n  enabled = false\n";

#[test]
fn extract_reads_value_in_section() {
    assert_eq!(extract_toml_value(CFG, "system", "log_level"), "\"info\"");
    assert_eq!(extract_toml_value(CFG, "system", "hot_reload"), "true");
    assert_eq!(extract_toml_value(CFG, "fast_path", "enabled"), "false");
    assert_eq!(extract_toml_value(CFG, "fast_path", "log_level"), "");
    assert_eq!(extract_toml_value(CFG, "missing", "x"), "");
}

#[test]
fn update_replaces_first_assignment_keeping_indent() {
    let out = update_toml_value(CFG, "fast_path", "enabled", "true");
    assert_eq!(
        out,
        "[system]\nlog_level = \"info\"  # verbosity\nhot_reload = true\n\n[[rules]]\nname = \"x\"\n\n[fast_path]\n  enabled = true\n"
    );
    let out = update_toml_value(CFG, "system", "log_level", "\"debug\"");
    assert!(out.starts_with("[system]\nlog_level = \"debug\"\nhot_reload = true"));
}

#[test]
fn update_without_match_keeps_text() {
    let text = "a = 1\r\nb = 2\n";
    assert_eq!(update_toml_value(text, "s", "a", "3"), text);
    assert_eq!(update_toml_value("\n", "s", "a", "3"), "\n");
    assert_eq!(update_toml_value("", "s", "a", "3"), "");
}

#[test]
fn update_keeps_line_endings() {
    let text = "[s]\r\na = 1 # c\r\nb = 2\r\n";
    assert_eq!(update_toml_value(text, "s", "a", "3"), "[s]\r\na = 3\r\nb = 2\r\n");
    let text = "[s]\na = 1";
    assert_eq!(update_toml_value(text, "s", "a", "3"), "[s]\na = 3");
}

#[test]
fn edited_value_reads_back() {
    let text = "[ai_advisor]\r\nenabled = false # off\r\n\r\n[tui]\ntheme = \"dark\"\n";
    let out = update_toml_value(text, "ai_advisor", "enabled", "true");
    assert_eq!(extract_toml_value(&out, "ai_advisor", "enabled"), "true");
    let out = update_toml_value(&out, "tui", "theme", "\"light\"");
    assert_eq!(extract_toml_value(&out, "tui", "theme"), "\"light\"");
    assert_eq!(extract_toml_value(&out, "ai_advisor", "enabled"), "true");
    let out = update_toml_value(&out, "tui", "theme", "");
    assert_eq!(extract_toml_value(&out, "tui", "theme"), "");
}
