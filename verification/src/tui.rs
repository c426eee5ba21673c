//! State of the terminal dashboard: tabs, event and incident tables, the
//! process tree, the config editor, and the key bindings that drive them.
use vstd::prelude::*;
use vstd::string::StringSliceAdditionalSpecFns;
use vstd::utf8::{decode_utf8, encode_utf8};
use crate::config_edit::{extract_toml_value, toml_updated, toml_value, update_toml_value};
use crate::event::{
    action_name, is_incident, is_incident_action, Action, EventType, NormalizedEvent, Severity,
};
use crate::text::{
    chars_of, contains, decimal, has_infix, lowercase, push_char, push_decimal,
    push_decimal_width3, push_str, string_of, to_lowercase, trim, trim_char, trim_char_chars,
    trim_chars, zero_padded,
};

verus! {

broadcast use vstd::string::group_string_axioms;

#[derive(Debug, Clone, Copy, PartialEq, Eq, Structural)]
pub enum AppState {
    Running,
    Quit,
}

#[derive(Debug, Clone, Copy, PartialEq, Eq, Structural)]
pub enum FieldType {
    Str,
    Bool,
    Int,
    Float,
}

/// One editable config entry; `value` is the raw TOML value (e.g. `"info"`,
/// `true`, `3`).
#[derive(Debug)]
pub struct ConfigField {
    pub section: &'static str,
    pub label: &'static str,
    pub toml_key: &'static str,
    pub description: &'static str,
    pub value: String,
    pub field_type: FieldType,
}

#[derive(Debug, Clone, Copy, PartialEq, Eq, Structural)]
pub enum Tab {
    Dashboard,
    Events,
    Incidents,
    Config,
    ProcessTree,
}

pub open spec fn tab_index(t: Tab) -> nat {
    match t {
        Tab::Dashboard => 0,
        Tab::Events => 1,
        Tab::Incidents => 2,
        Tab::Config => 3,
        Tab::ProcessTree => 4,
    }
}

pub open spec fn tab_at(i: nat) -> Tab {
    if i == 1 {
        Tab::Events
    } else if i == 2 {
        Tab::Incidents
    } else if i == 3 {
        Tab::Config
    } else if i == 4 {
        Tab::ProcessTree
    } else {
        Tab::Dashboard
    }
}

impl Tab {
    pub fn titles() -> (r: Vec<&'static str>)
        ensures
            r@.len() == 5,
            r@[0]@ == "Dashboard"@,
            r@[1]@ == "Events"@,
            r@[2]@ == "Incidents"@,
            r@[3]@ == "Config"@,
            r@[4]@ == "Process Tree"@,
    {
        vec!["Dashboard", "Events", "Incidents", "Config", "Process Tree"]
    }

    pub fn index(&self) -> (r: usize)
        ensures
            r == tab_index(*self),
    {
        match self {
            Tab::Dashboard => 0,
            Tab::Events => 1,
            Tab::Incidents => 2,
            Tab::Config => 3,
            Tab::ProcessTree => 4,
        }
    }

    /// The tab at position `i`; any other position gives the dashboard.
    pub fn from_index(i: usize) -> (r: Tab)
        ensures
            r == tab_at(i as nat),
    {
        match i {
            1 => Tab::Events,
            2 => Tab::Incidents,
            3 => Tab::Config,
            4 => Tab::ProcessTree,
            _ => Tab::Dashboard,
        }
    }
}

/// A tab's position leads back to the tab.
pub proof fn lemma_tab_round_trip(t: Tab)
    ensures
        tab_at(tab_index(t)) == t,
{
}

#[derive(Debug, Clone, Copy, PartialEq, Eq, Structural)]
pub enum IncidentFilter {
    All,
    Blocked,
    Alerted,
}

#[derive(Debug, Clone, Copy, PartialEq, Eq, Structural)]
pub enum InputMode {
    Normal,
    Filtering,
}

/// Overall dashboard state.
pub struct App {
    pub state: AppState,
    pub active_tab: Tab,
    pub stats: Stats,
    pub events: Vec<EventRow>,
    pub event_scroll: usize,
    pub selected_event: Option<usize>,
    pub input_mode: InputMode,
    pub filter_input: String,
    pub filter_query: String,
    pub incidents: Vec<IncidentRow>,
    pub incident_scroll: usize,
    pub incident_filter: IncidentFilter,
    pub selected_incident: Option<usize>,
    /// One node per process id, in the order the processes were first seen.
    pub process_map: Vec<ProcessNode>,
    pub proc_scroll: usize,
    pub config_text: String,
    pub config_path: String,
    pub config_fields: Vec<ConfigField>,
    pub config_field_idx: usize,
    pub config_editing: bool,
    pub config_edit_buf: String,
    pub config_modified: bool,
}

#[derive(Debug, Default, Clone, Copy)]
pub struct Stats {
    pub total_events: u64,
    pub blocked: u64,
    pub alerts: u64,
    pub high_severity: u64,
}

#[derive(Debug)]
pub struct EventRow {
    pub timestamp: String,
    pub pid: u32,
    pub ppid: u32,
    pub uid: u32,
    pub process: String,
    pub kind: String,
    pub severity: Severity,
    pub action: String,
    pub full_kind: String,
}

#[derive(Debug)]
pub struct IncidentRow {
    pub timestamp: String,
    pub pid: u32,
    pub ppid: u32,
    pub uid: u32,
    pub process: String,
    pub kind: String,
    pub full_kind: String,
    pub severity: Severity,
    pub action: String,
    pub rule: String,
}

#[derive(Debug)]
pub struct ProcessNode {
    pub pid: u32,
    pub ppid: u32,
    pub name: String,
    pub uid: u32,
    pub event_count: u64,
    pub last_action: String,
    pub last_seen: String,
}

/// Most rows kept in the event and incident tables.
pub const MAX_ROWS: usize = 500;

// ── Config field table ─────────────────────────────────────────────────

/// The editable entries: (section, label, key, description, type).
pub open spec fn field_table() -> Seq<(Seq<char>, Seq<char>, Seq<char>, Seq<char>, FieldType)> {
    seq![
        ("system"@, "log_level"@, "log_level"@, "debug / info / warn / error"@, FieldType::Str),
        ("fast_path"@, "enabled"@, "enabled"@, "Enable rule engine"@, FieldType::Bool),
        ("fast_path"@, "default_action"@, "default_action"@, "block / alert / log"@, FieldType::Str),
        ("slow_path"@, "enabled"@, "enabled"@, "Enable anomaly detection"@, FieldType::Bool),
        ("slow_path"@, "similarity_threshold"@, "similarity_threshold"@, "Vector similarity threshold 0-1"@, FieldType::Float),
        ("ai_advisor"@, "enabled"@, "enabled"@, "Enable AI rule generation"@, FieldType::Bool),
        ("ai_advisor"@, "provider"@, "provider"@, "anthropic / openai"@, FieldType::Str),
        ("ai_advisor"@, "api_key_env"@, "api_key_env"@, "Env var holding API key"@, FieldType::Str),
        ("ai_advisor"@, "model"@, "model"@, "Model name (e.g. gpt-4o)"@, FieldType::Str),
        ("ai_advisor"@, "trigger_threshold"@, "trigger_threshold"@, "Pattern count to trigger AI call"@, FieldType::Int),
        ("tui"@, "refresh_rate_ms"@, "refresh_rate_ms"@, "TUI refresh rate in ms"@, FieldType::Int),
        ("tui"@, "theme"@, "theme"@, "dark / light"@, FieldType::Str),
    ]
}

/// The entries match the table, each holding its value read from `text`.
pub open spec fn fields_for(fields: Seq<ConfigField>, text: Seq<char>) -> bool {
    &&& fields.len() == field_table().len()
    &&& forall|i: int|
        #![trigger fields[i]]
        0 <= i < fields.len() ==> {
            let (sec, label, key, desc, ty) = field_table()[i];
            &&& fields[i].section@ == sec
            &&& fields[i].label@ == label
            &&& fields[i].toml_key@ == key
            &&& fields[i].description@ == desc
            &&& fields[i].field_type == ty
            &&& fields[i].value@ == toml_value(text, sec, key)
        }
}

fn field(
    section: &'static str,
    label: &'static str,
    description: &'static str,
    field_type: FieldType,
    text: &str,
) -> (r: ConfigField)
    ensures
        r.section == section,
        r.label == label,
        r.toml_key == label,
        r.description == description,
        r.field_type == field_type,
        r.value@ == toml_value(text@, section@, label@),
{
    ConfigField {
        section,
        label,
        toml_key: label,
        description,
        value: extract_toml_value(text, section, label),
        field_type,
    }
}

/// The editable entries with their current values read from `text`.
pub fn build_config_fields(text: &str) -> (r: Vec<ConfigField>)
    ensures
        fields_for(r@, text@),
{
    let r = vec![
        field("system", "log_level", "debug / info / warn / error", FieldType::Str, text),
        field("fast_path", "enabled", "Enable rule engine", FieldType::Bool, text),
        field("fast_path", "default_action", "block / alert / log", FieldType::Str, text),
        field("slow_path", "enabled", "Enable anomaly detection", FieldType::Bool, text),
        field("slow_path", "similarity_threshold", "Vector similarity threshold 0-1", FieldType::Float, text),
        field("ai_advisor", "enabled", "Enable AI rule generation", FieldType::Bool, text),
        field("ai_advisor", "provider", "anthropic / openai", FieldType::Str, text),
        field("ai_advisor", "api_key_env", "Env var holding API key", FieldType::Str, text),
        field("ai_advisor", "model", "Model name (e.g. gpt-4o)", FieldType::Str, text),
        field("ai_advisor", "trigger_threshold", "Pattern count to trigger AI call", FieldType::Int, text),
        field("tui", "refresh_rate_ms", "TUI refresh rate in ms", FieldType::Int, text),
        field("tui", "theme", "dark / light", FieldType::Str, text),
    ];
    r
}

// ── Formatting ──────────────────────────────────────────────────────────

/// Seconds and milliseconds of a nanosecond timestamp: `secs.mmm`.
pub open spec fn ts_text(ns: nat) -> Seq<char> {
    decimal(ns / 1_000_000_000) + seq!['.'] + zero_padded((ns % 1_000_000_000) / 1_000_000, 3)
}

pub fn format_ts(ns: u64) -> (r: String)
    ensures
        r@ == ts_text(ns as nat),
{
    let secs = ns / 1_000_000_000;
    let ms = (ns % 1_000_000_000) / 1_000_000;
    let mut s = String::new();
    push_decimal(&mut s, secs as u128);
    push_char(&mut s, '.');
    push_decimal_width3(&mut s, ms);
    assert(s@ =~= ts_text(ns as nat));
    s
}

/// An age as whole seconds, minutes or hours: `42s`, `5m`, `3h`.
pub open spec fn age_text(secs: nat) -> Seq<char> {
    if secs < 60 {
        decimal(secs) + seq!['s']
    } else if secs < 3600 {
        decimal(secs / 60) + seq!['m']
    } else {
        decimal(secs / 3600) + seq!['h']
    }
}

pub fn format_age(secs: u64) -> (r: String)
    ensures
        r@ == age_text(secs as nat),
{
    let mut s = String::new();
    if secs < 60 {
        push_decimal(&mut s, secs as u128);
        push_char(&mut s, 's');
    } else if secs < 3600 {
        push_decimal(&mut s, (secs / 60) as u128);
        push_char(&mut s, 'm');
    } else {
        push_decimal(&mut s, (secs / 3600) as u128);
        push_char(&mut s, 'h');
    }
    assert(s@ =~= age_text(secs as nat));
    s
}

/// The kind column of an event: `Exec`, `File:<path>`, `Net:<port>`,
/// `Priv:<syscall>` or `Sig:<signum>`.
pub open spec fn full_kind_text(t: EventType) -> Seq<char> {
    match t {
        EventType::Exec => "Exec"@,
        EventType::FileAccess { path, .. } => "File:"@ + path@,
        EventType::Network { port, .. } => "Net:"@ + decimal(port as nat),
        EventType::Privilege { syscall, .. } => "Priv:"@ + syscall@,
        EventType::Signal { signum, .. } => "Sig:"@ + decimal(signum as nat),
    }
}

fn full_kind_of(t: &EventType) -> (r: String)
    ensures
        r@ == full_kind_text(*t),
{
    match t {
        EventType::Exec => "Exec".to_string(),
        EventType::FileAccess { path, .. } => {
            let mut s = "File:".to_string();
            push_str(&mut s, path.as_str());
            s
        },
        EventType::Network { port, .. } => {
            let mut s = "Net:".to_string();
            push_decimal(&mut s, *port as u128);
            s
        },
        EventType::Privilege { syscall, .. } => {
            let mut s = "Priv:".to_string();
            push_str(&mut s, syscall.as_str());
            s
        },
        EventType::Signal { signum, .. } => {
            let mut s = "Sig:".to_string();
            push_decimal(&mut s, *signum as u128);
            s
        },
    }
}

/// A kind longer than 40 UTF-8 bytes is cut to its first 39 bytes plus `…`;
/// the cut must fall on a character boundary.
pub open spec fn kind_cut_ok(full: Seq<char>) -> bool {
    encode_utf8(full).len() <= 40 || vstd::utf8::is_char_boundary(encode_utf8(full), 39)
}

pub open spec fn short_kind_text(full: Seq<char>) -> Seq<char> {
    if encode_utf8(full).len() > 40 {
        decode_utf8(encode_utf8(full).take(39)) + seq!['…']
    } else {
        full
    }
}

/// Whether an event's kind can be shortened for the event table (the
/// condition `push_event` needs).
pub fn kind_fits(ev: &NormalizedEvent) -> (r: bool)
    ensures
        r == kind_cut_ok(full_kind_text(ev.event_type)),
{
    let full = full_kind_of(&ev.event_type);
    let s = full.as_str();
    assert(s.spec_bytes() == encode_utf8(full@));
    s.as_bytes().len() <= 40 || s.is_char_boundary(39)
}

fn short_kind(full: &String) -> (r: String)
    requires
        kind_cut_ok(full@),
    ensures
        r@ == short_kind_text(full@),
{
    let s = full.as_str();
    assert(s.spec_bytes() == encode_utf8(full@));
    let nbytes = s.as_bytes().len();
    if nbytes > 40 {
        let (head, _tail) = s.split_at(39);
        proof {
            vstd::utf8::encode_utf8_decode_utf8(head@);
            assert(head.spec_bytes() == encode_utf8(head@));
            assert(encode_utf8(head@) =~= encode_utf8(full@).take(39));
            assert(decode_utf8(encode_utf8(full@).take(39)) == head@);
        }
        let mut r = head.to_string();
        assert(r@ == head@);
        push_char(&mut r, '…');
        assert(r@ =~= short_kind_text(full@));
        r
    } else {
        let r = full.clone();
        assert(encode_utf8(full@).len() <= 40);
        r
    }
}

// ── Row filters ─────────────────────────────────────────────────────────

pub open spec fn incident_passes(row: IncidentRow, f: IncidentFilter) -> bool {
    match f {
        IncidentFilter::All => true,
        IncidentFilter::Blocked => has_infix(row.action@, "Block"@) || has_infix(
            row.action@,
            "Kill"@,
        ),
        IncidentFilter::Alerted => has_infix(row.action@, "Alert"@),
    }
}

/// The indices of the rows that pass the filter, in order.
pub open spec fn incident_picks(rows: Seq<IncidentRow>, f: IncidentFilter) -> Seq<int>
    decreases rows.len(),
{
    if rows.len() == 0 {
        seq![]
    } else if incident_passes(rows.last(), f) {
        incident_picks(rows.drop_last(), f).push(rows.len() - 1)
    } else {
        incident_picks(rows.drop_last(), f)
    }
}

/// Which incident rows each filter shows: All shows every row; Blocked
/// every row whose action text contains "Block" or "Kill"; Alerted every
/// row whose action text contains "Alert". The rows shown keep their order.
pub proof fn lemma_incident_filter_rows(rows: Seq<IncidentRow>, f: IncidentFilter)
    ensures
        forall|i: int|
            0 <= i < rows.len() ==> (#[trigger] incident_picks(rows, f).contains(i) <==> match f {
                IncidentFilter::All => true,
                IncidentFilter::Blocked => has_infix(rows[i].action@, "Block"@) || has_infix(
                    rows[i].action@,
                    "Kill"@,
                ),
                IncidentFilter::Alerted => has_infix(rows[i].action@, "Alert"@),
            }),
        forall|a: int, b: int|
            0 <= a < b < incident_picks(rows, f).len() ==> #[trigger] incident_picks(rows, f)[a]
                < #[trigger] incident_picks(rows, f)[b],
        forall|a: int|
            0 <= a < incident_picks(rows, f).len() ==> 0 <= #[trigger] incident_picks(rows, f)[a]
                < rows.len(),
    decreases rows.len(),
{
    if rows.len() > 0 {
        let d = rows.drop_last();
        let n = rows.len() - 1;
        lemma_incident_filter_rows(d, f);
        let pd = incident_picks(d, f);
        let p = incident_picks(rows, f);
        assert forall|i: int| 0 <= i < rows.len() implies (#[trigger] p.contains(i) <==> match f {
            IncidentFilter::All => true,
            IncidentFilter::Blocked => has_infix(rows[i].action@, "Block"@) || has_infix(
                rows[i].action@,
                "Kill"@,
            ),
            IncidentFilter::Alerted => has_infix(rows[i].action@, "Alert"@),
        }) by {
            if i < n {
                assert(d[i] == rows[i]);
                if p.contains(i) {
                    let k = choose|k: int| 0 <= k < p.len() && p[k] == i;
                    if incident_passes(rows.last(), f) && k == p.len() - 1 {
                        assert(p[k] == n);
                    } else {
                        assert(pd[k] == i);
                        assert(pd.contains(i));
                    }
                }
                if pd.contains(i) {
                    let k = choose|k: int| 0 <= k < pd.len() && pd[k] == i;
                    assert(p[k] == i);
                }
            } else {
                assert(rows.last() == rows[i]);
                if incident_passes(rows.last(), f) {
                    assert(p[p.len() - 1] == n);
                } else if p.contains(i) {
                    let k = choose|k: int| 0 <= k < p.len() && p[k] == i;
                    assert(pd[k] == i);
                }
            }
        }
    }
}

/// An event row passes a (lower-cased, non-empty) query when its process,
/// kind, action or full kind contains it, case-insensitively.
pub open spec fn event_passes(row: EventRow, q: Seq<char>) -> bool {
    ||| has_infix(lowercase(row.process@), q)
    ||| has_infix(lowercase(row.kind@), q)
    ||| has_infix(lowercase(row.action@), q)
    ||| has_infix(lowercase(row.full_kind@), q)
}

pub open spec fn event_picks(rows: Seq<EventRow>, q: Seq<char>) -> Seq<int>
    decreases rows.len(),
{
    if rows.len() == 0 {
        seq![]
    } else if q.len() == 0 || event_passes(rows.last(), q) {
        event_picks(rows.drop_last(), q).push(rows.len() - 1)
    } else {
        event_picks(rows.drop_last(), q)
    }
}

pub proof fn lemma_picks_bounded_incidents(rows: Seq<IncidentRow>, f: IncidentFilter)
    ensures
        incident_picks(rows, f).len() <= rows.len(),
        forall|k: int|
            0 <= k < incident_picks(rows, f).len() ==> 0 <= #[trigger] incident_picks(rows, f)[k]
                < rows.len(),
    decreases rows.len(),
{
    if rows.len() > 0 {
        lemma_picks_bounded_incidents(rows.drop_last(), f);
    }
}

pub proof fn lemma_picks_bounded_events(rows: Seq<EventRow>, q: Seq<char>)
    ensures
        event_picks(rows, q).len() <= rows.len(),
        forall|k: int|
            0 <= k < event_picks(rows, q).len() ==> 0 <= #[trigger] event_picks(rows, q)[k]
                < rows.len(),
    decreases rows.len(),
{
    if rows.len() > 0 {
        lemma_picks_bounded_events(rows.drop_last(), q);
    }
}

fn text_has(s: &String, pat: &str) -> (r: bool)
    ensures
        r == has_infix(s@, pat@),
{
    let a = chars_of(s.as_str());
    let b = chars_of(pat);
    contains(&a, &b)
}

fn lower_has(s: &String, q: &Vec<char>) -> (r: bool)
    ensures
        r == has_infix(lowercase(s@), q@),
{
    let l = to_lowercase(s.as_str());
    let a = chars_of(l.as_str());
    contains(&a, q)
}

// ── Well-formedness ─────────────────────────────────────────────────────

/// No two process nodes share a pid.
pub open spec fn pids_unique(nodes: Seq<ProcessNode>) -> bool {
    forall|i: int, j: int|
        0 <= i < j < nodes.len() ==> (#[trigger] nodes[i]).pid != (#[trigger] nodes[j]).pid
}

impl App {
    /// The counters never exceed the total, nor does any node's count, and
    /// process ids are unique.
    pub open spec fn wf(&self) -> bool {
        &&& pids_unique(self.process_map@)
        &&& self.stats.blocked <= self.stats.total_events
        &&& self.stats.alerts <= self.stats.total_events
        &&& self.stats.high_severity <= self.stats.total_events
        &&& forall|i: int|
            0 <= i < self.process_map@.len() ==> (#[trigger] self.process_map@[i]).event_count
                <= self.stats.total_events
    }

    pub fn new(config_text: String, config_path: String) -> (r: App)
        ensures
            r.wf(),
            r.state == AppState::Running,
            r.active_tab == Tab::Dashboard,
            r.stats.total_events == 0,
            r.stats.blocked == 0,
            r.stats.alerts == 0,
            r.stats.high_severity == 0,
            r.events@.len() == 0,
            r.event_scroll == 0,
            r.selected_event is None,
            r.input_mode == InputMode::Normal,
            r.filter_input@.len() == 0,
            r.filter_query@.len() == 0,
            r.incidents@.len() == 0,
            r.incident_scroll == 0,
            r.incident_filter == IncidentFilter::All,
            r.selected_incident is None,
            r.process_map@.len() == 0,
            r.proc_scroll == 0,
            r.config_text == config_text,
            r.config_path == config_path,
            fields_for(r.config_fields@, config_text@),
            r.config_field_idx == 0,
            !r.config_editing,
            r.config_edit_buf@.len() == 0,
            !r.config_modified,
    {
        let fields = build_config_fields(config_text.as_str());
        App {
            state: AppState::Running,
            active_tab: Tab::Dashboard,
            stats: Stats { total_events: 0, blocked: 0, alerts: 0, high_severity: 0 },
            events: Vec::new(),
            event_scroll: 0,
            selected_event: None,
            input_mode: InputMode::Normal,
            filter_input: String::new(),
            filter_query: String::new(),
            incidents: Vec::new(),
            incident_scroll: 0,
            incident_filter: IncidentFilter::All,
            selected_incident: None,
            process_map: Vec::new(),
            proc_scroll: 0,
            config_text,
            config_path,
            config_fields: fields,
            config_field_idx: 0,
            config_editing: false,
            config_edit_buf: String::new(),
            config_modified: false,
        }
    }

    // ── Config editor ───────────────────────────────────────────────

    /// Starts editing the selected entry, with its surrounding quotes removed.
    pub fn start_config_edit(&mut self)
        ensures
            old(self).config_field_idx < old(self).config_fields@.len() ==> {
                &&& final(self).config_edit_buf@ == trim_char(
                    old(self).config_fields@[old(self).config_field_idx as int].value@,
                    '"',
                )
                &&& final(self).config_editing
            },
            old(self).config_field_idx >= old(self).config_fields@.len() ==> *final(self) == *old(self),
            *final(self) == (App {
                config_edit_buf: final(self).config_edit_buf,
                config_editing: final(self).config_editing,
                ..*old(self)
            }),
    {
        if self.config_field_idx < self.config_fields.len() {
            let v = chars_of(self.config_fields[self.config_field_idx].value.as_str());
            let t = trim_char_chars(&v, '"');
            self.config_edit_buf = string_of(&t);
            self.config_editing = true;
        }
    }

    pub fn cancel_config_edit(&mut self)
        ensures
            !final(self).config_editing,
            final(self).config_edit_buf@.len() == 0,
            *final(self) == (App {
                config_edit_buf: final(self).config_edit_buf,
                config_editing: false,
                ..*old(self)
            }),
    {
        self.config_editing = false;
        self.config_edit_buf = String::new();
    }

    /// Writes the edit buffer (trimmed; quoted for string entries) into the
    /// selected entry and into the config text, and ends editing.
    pub fn confirm_config_edit(&mut self)
        ensures
            old(self).config_field_idx < old(self).config_fields@.len() ==> {
                let f = old(self).config_fields@[old(self).config_field_idx as int];
                let raw = if f.field_type == FieldType::Str {
                    seq!['"'] + trim(old(self).config_edit_buf@) + seq!['"']
                } else {
                    trim(old(self).config_edit_buf@)
                };
                &&& final(self).config_text@ == toml_updated(
                    old(self).config_text@,
                    f.section@,
                    f.toml_key@,
                    raw,
                )
                &&& final(self).config_fields@.len() == old(self).config_fields@.len()
                &&& final(self).config_fields@[old(self).config_field_idx as int].value@ == raw
                &&& final(self).config_fields@[old(self).config_field_idx as int].section
                    == f.section
                &&& final(self).config_fields@[old(self).config_field_idx as int].label == f.label
                &&& final(self).config_fields@[old(self).config_field_idx as int].toml_key
                    == f.toml_key
                &&& final(self).config_fields@[old(self).config_field_idx as int].field_type
                    == f.field_type
                &&& forall|j: int|
                    0 <= j < old(self).config_fields@.len() && j != old(self).config_field_idx
                        ==> #[trigger] final(self).config_fields@[j] == old(self).config_fields@[j]
                &&& final(self).config_modified
            },
            old(self).config_field_idx >= old(self).config_fields@.len() ==> {
                &&& final(self).config_text == old(self).config_text
                &&& final(self).config_fields == old(self).config_fields
                &&& final(self).config_modified == old(self).config_modified
            },
            !final(self).config_editing,
            final(self).config_edit_buf@.len() == 0,
            *final(self) == (App {
                config_text: final(self).config_text,
                config_fields: final(self).config_fields,
                config_modified: final(self).config_modified,
                config_editing: false,
                config_edit_buf: final(self).config_edit_buf,
                ..*old(self)
            }),
    {
        let idx = self.config_field_idx;
        if idx < self.config_fields.len() {
            let buf = chars_of(self.config_edit_buf.as_str());
            let trimmed = trim_chars(&buf);
            let ft = self.config_fields[idx].field_type;
            let mut raw = String::new();
            if ft == FieldType::Str {
                push_char(&mut raw, '"');
                crate::text::push_chars(&mut raw, &trimmed);
                push_char(&mut raw, '"');
            } else {
                crate::text::push_chars(&mut raw, &trimmed);
            }
            let section = self.config_fields[idx].section;
            let key = self.config_fields[idx].toml_key;
            let ghost raw_v = raw@;
            proof {
                let f = old(self).config_fields@[idx as int];
                let expect = if f.field_type == FieldType::Str {
                    seq!['"'] + trim(old(self).config_edit_buf@) + seq!['"']
                } else {
                    trim(old(self).config_edit_buf@)
                };
                assert(raw_v =~= expect);
            }
            let new_text = update_toml_value(self.config_text.as_str(), section, key, raw.as_str());
            self.config_text = new_text;
            let old_field = &self.config_fields[idx];
            let updated = ConfigField {
                section: old_field.section,
                label: old_field.label,
                toml_key: old_field.toml_key,
                description: old_field.description,
                value: raw,
                field_type: old_field.field_type,
            };
            self.config_fields.set(idx, updated);
            self.config_modified = true;
        }
        self.config_editing = false;
        self.config_edit_buf = String::new();
    }

    pub fn scroll_config_up(&mut self)
        ensures
            *final(self) == (App {
                config_field_idx: if old(self).config_field_idx > 0 {
                    (old(self).config_field_idx - 1) as usize
                } else {
                    0
                },
                ..*old(self)
            }),
    {
        self.config_field_idx = self.config_field_idx.saturating_sub(1);
    }

    pub fn scroll_config_down(&mut self)
        ensures
            *final(self) == (App {
                config_field_idx: if old(self).config_field_idx + 1 < old(self).config_fields@.len() {
                    (old(self).config_field_idx + 1) as usize
                } else {
                    old(self).config_field_idx
                },
                ..*old(self)
            }),
    {
        if self.config_field_idx < self.config_fields.len() && self.config_field_idx + 1
            < self.config_fields.len() {
            self.config_field_idx += 1;
        }
    }

    /// Moves to the next tab, wrapping from the last to the first.
    pub fn next_tab(&mut self)
        ensures
            *final(self) == after_next_tab(*old(self)),
    {
        let n = Tab::titles().len();
        let next = (self.active_tab.index() + 1) % n;
        self.active_tab = Tab::from_index(next);
    }
}


/// A key press, as the dashboard sees it.
#[derive(Debug, Clone, Copy, PartialEq, Eq, Structural)]
pub enum Key {
    Esc,
    Enter,
    Tab,
    Up,
    Down,
    Backspace,
    Char(char),
    Other,
}

/// Number of incident rows the current filter shows.
pub open spec fn visible_incidents(a: App) -> nat {
    incident_picks(a.incidents@, a.incident_filter).len()
}

/// Number of event rows the current query shows.
pub open spec fn visible_events(a: App) -> nat {
    event_picks(a.events@, lowercase(a.filter_query@)).len()
}

/// The dashboard after moving to the next tab (wrapping around).
pub open spec fn after_next_tab(a: App) -> App {
    App { active_tab: tab_at(((tab_index(a.active_tab) + 1) % 5) as nat), ..a }
}

/// The dashboard after moving up one row on the active tab.
pub open spec fn after_scroll_up(a: App) -> App {
    if a.active_tab == Tab::ProcessTree {
        App { proc_scroll: if a.proc_scroll > 0 { (a.proc_scroll - 1) as usize } else { 0 }, ..a }
    } else if a.active_tab == Tab::Incidents {
        App {
            incident_scroll: if a.incident_scroll > 0 { (a.incident_scroll - 1) as usize } else { 0 },
            ..a
        }
    } else if a.active_tab == Tab::Config {
        App {
            config_field_idx: if a.config_field_idx > 0 { (a.config_field_idx - 1) as usize } else { 0 },
            ..a
        }
    } else {
        App { event_scroll: if a.event_scroll > 0 { (a.event_scroll - 1) as usize } else { 0 }, ..a }
    }
}

/// The dashboard after moving down one row on the active tab (never past the
/// last visible row).
pub open spec fn after_scroll_down(a: App) -> App {
    if a.active_tab == Tab::ProcessTree {
        App {
            proc_scroll: if a.proc_scroll + 1 < a.process_map@.len() {
                (a.proc_scroll + 1) as usize
            } else {
                a.proc_scroll
            },
            ..a
        }
    } else if a.active_tab == Tab::Incidents {
        App {
            incident_scroll: if a.incident_scroll + 1 < visible_incidents(a) {
                (a.incident_scroll + 1) as usize
            } else {
                a.incident_scroll
            },
            ..a
        }
    } else if a.active_tab == Tab::Config {
        App {
            config_field_idx: if a.config_field_idx + 1 < a.config_fields@.len() {
                (a.config_field_idx + 1) as usize
            } else {
                a.config_field_idx
            },
            ..a
        }
    } else {
        App {
            event_scroll: if a.event_scroll + 1 < visible_events(a) {
                (a.event_scroll + 1) as usize
            } else {
                a.event_scroll
            },
            ..a
        }
    }
}

/// The dashboard after opening the detail popup: the current incident row on
/// the incidents tab, else the current event row, when there is one.
pub open spec fn after_open_detail(a: App) -> App {
    if a.active_tab == Tab::Incidents {
        if visible_incidents(a) > 0 {
            App { selected_incident: Some(a.incident_scroll), ..a }
        } else {
            a
        }
    } else {
        if visible_events(a) > 0 {
            App { selected_event: Some(a.event_scroll), ..a }
        } else {
            a
        }
    }
}

pub open spec fn after_close_detail(a: App) -> App {
    App { selected_event: None, selected_incident: None, ..a }
}

/// The key ends the dashboard.
pub open spec fn quits(a: App, key: Key) -> bool {
    a.selected_event is None && a.selected_incident is None && a.input_mode == InputMode::Normal
        && (key == Key::Char('q') || key == Key::Char('Q') || key == Key::Esc)
}

/// `b` is the dashboard `a` after the key press.
pub open spec fn key_effect(a: App, b: App, key: Key) -> bool {
    if a.selected_event is Some || a.selected_incident is Some {
        if key == Key::Esc || key == Key::Char('q') || key == Key::Enter {
            b == after_close_detail(a)
        } else {
            b == a
        }
    } else if a.input_mode == InputMode::Filtering {
        if key == Key::Esc {
            &&& b == (App {
                filter_input: b.filter_input,
                filter_query: b.filter_query,
                input_mode: InputMode::Normal,
                ..a
            })
            &&& b.filter_input@.len() == 0
            &&& b.filter_query@.len() == 0
        } else if key == Key::Enter {
            b == (App {
                filter_query: a.filter_input,
                input_mode: InputMode::Normal,
                event_scroll: 0,
                ..a
            })
        } else if key == Key::Backspace {
            &&& b == (App { filter_input: b.filter_input, ..a })
            &&& b.filter_input@ == if a.filter_input@.len() > 0 {
                a.filter_input@.drop_last()
            } else {
                a.filter_input@
            }
        } else if key is Char {
            &&& b == (App { filter_input: b.filter_input, ..a })
            &&& b.filter_input@ == a.filter_input@.push(key->Char_0)
        } else {
            b == a
        }
    } else if quits(a, key) {
        b == (App { state: AppState::Quit, ..a })
    } else if key == Key::Tab {
        b == after_next_tab(a)
    } else if key == Key::Char('1') {
        b == (App { active_tab: Tab::Dashboard, ..a })
    } else if key == Key::Char('2') {
        b == (App { active_tab: Tab::Events, ..a })
    } else if key == Key::Char('3') {
        b == (App { active_tab: Tab::Config, ..a })
    } else if key == Key::Char('4') {
        b == (App { active_tab: Tab::ProcessTree, ..a })
    } else if key == Key::Up || key == Key::Char('k') {
        b == after_scroll_up(a)
    } else if key == Key::Down || key == Key::Char('j') {
        b == after_scroll_down(a)
    } else if key == Key::Enter && a.active_tab == Tab::Events {
        b == after_open_detail(a)
    } else if key == Key::Char('/') && a.active_tab == Tab::Events {
        &&& b == (App { input_mode: InputMode::Filtering, filter_input: b.filter_input, ..a })
        &&& b.filter_input@.len() == 0
    } else {
        b == a
    }
}

/// An incident row describes the event.
pub open spec fn incident_row_for(row: IncidentRow, ev: NormalizedEvent) -> bool {
    &&& row.timestamp@ == ts_text(ev.timestamp as nat)
    &&& row.pid == ev.process.pid
    &&& row.ppid == ev.process.ppid
    &&& row.uid == ev.process.uid
    &&& row.process@ == ev.process.binary@
    &&& row.full_kind@ == full_kind_text(ev.event_type)
    &&& row.kind@ == short_kind_text(full_kind_text(ev.event_type))
    &&& row.severity == ev.severity
    &&& row.action@ == action_name(ev.action)
    &&& row.rule@ == match ev.rule_name {
        Some(n) => n@,
        None => Seq::<char>::empty(),
    }
}

/// An event row describes the event.
pub open spec fn event_row_for(row: EventRow, ev: NormalizedEvent) -> bool {
    &&& row.timestamp@ == ts_text(ev.timestamp as nat)
    &&& row.pid == ev.process.pid
    &&& row.ppid == ev.process.ppid
    &&& row.uid == ev.process.uid
    &&& row.process@ == ev.process.binary@
    &&& row.full_kind@ == full_kind_text(ev.event_type)
    &&& row.kind@ == short_kind_text(full_kind_text(ev.event_type))
    &&& row.severity == ev.severity
    &&& row.action@ == action_name(ev.action)
}

/// `rows` after appending one row (described by the last element of `after`),
/// dropping the oldest when more than `MAX_ROWS` would remain.
pub open spec fn appended_capped<T>(before: Seq<T>, after: Seq<T>) -> bool {
    &&& after.len() > 0
    &&& after.drop_last() == if before.len() + 1 > MAX_ROWS {
        before.drop_first()
    } else {
        before
    }
}

/// The process node of `ev`'s pid after the event, given the node before (if any).
pub open spec fn node_after(n: ProcessNode, ev: NormalizedEvent, count: u64) -> bool {
    &&& n.pid == ev.process.pid
    &&& n.event_count == count
    &&& n.last_action@ == action_name(ev.action)
    &&& n.last_seen@ == ts_text(ev.timestamp as nat)
}

/// The index of the node with `pid`, if any.
pub open spec fn node_index(nodes: Seq<ProcessNode>, pid: u32) -> Option<int> {
    if exists|i: int| 0 <= i < nodes.len() && (#[trigger] nodes[i]).pid == pid {
        Some(choose|i: int| 0 <= i < nodes.len() && (#[trigger] nodes[i]).pid == pid)
    } else {
        None
    }
}

/// Counts one event of `ev`'s process: the node of its pid gets one more
/// event and the event's action and time; an unseen pid gets a new node at
/// the end.
fn record_process(nodes: &mut Vec<ProcessNode>, ev: &NormalizedEvent, action_str: &str)
    requires
        pids_unique(old(nodes)@),
        action_str@ == action_name(ev.action),
        forall|j: int| 0 <= j < old(nodes)@.len() ==> (#[trigger] old(nodes)@[j]).event_count < u64::MAX,
    ensures
        pids_unique(final(nodes)@),
        match node_index(old(nodes)@, ev.process.pid) {
            Some(i) => {
                &&& final(nodes)@.len() == old(nodes)@.len()
                &&& node_after(final(nodes)@[i], *ev, (old(nodes)@[i].event_count + 1) as u64)
                &&& final(nodes)@[i].ppid == old(nodes)@[i].ppid
                &&& final(nodes)@[i].name == old(nodes)@[i].name
                &&& final(nodes)@[i].uid == old(nodes)@[i].uid
                &&& forall|j: int|
                    0 <= j < old(nodes)@.len() && j != i ==> #[trigger] final(nodes)@[j] == old(nodes)@[j]
            },
            None => {
                &&& final(nodes)@.drop_last() == old(nodes)@
                &&& final(nodes)@.len() == old(nodes)@.len() + 1
                &&& node_after(final(nodes)@.last(), *ev, 1)
                &&& final(nodes)@.last().ppid == ev.process.ppid
                &&& final(nodes)@.last().name@ == ev.process.binary@
                &&& final(nodes)@.last().uid == ev.process.uid
            },
        },
{
    let ghost nodes_before = nodes@;
    match find_node(nodes, ev.process.pid) {
        Some(i) => {
            let old_node = &nodes[i];
            let node = ProcessNode {
                pid: old_node.pid,
                ppid: old_node.ppid,
                name: old_node.name.clone(),
                uid: old_node.uid,
                event_count: old_node.event_count + 1,
                last_action: action_str.to_string(),
                last_seen: format_ts(ev.timestamp),
            };
            nodes.set(i, node);
            proof {
                assert(nodes_before[i as int].pid == ev.process.pid);
                let k = node_index(nodes_before, ev.process.pid)->0;
                assert(nodes_before[k].pid == ev.process.pid);
                assert(k == i) by {
                    if k != i {
                        if k < i {
                            assert(nodes_before[k].pid != nodes_before[i as int].pid);
                        } else {
                            assert(nodes_before[i as int].pid != nodes_before[k].pid);
                        }
                    }
                }
                assert(pids_unique(nodes@)) by {
                    assert forall|a: int, b: int|
                        0 <= a < b < nodes@.len() implies (
                        #[trigger] nodes@[a]).pid != (
                        #[trigger] nodes@[b]).pid by {
                        assert(nodes@[a].pid == nodes_before[a].pid);
                        assert(nodes@[b].pid == nodes_before[b].pid);
                    }
                }
            }
        },
        None => {
            let node = ProcessNode {
                pid: ev.process.pid,
                ppid: ev.process.ppid,
                name: ev.process.binary.clone(),
                uid: ev.process.uid,
                event_count: 1,
                last_action: action_str.to_string(),
                last_seen: format_ts(ev.timestamp),
            };
            nodes.push(node);
            proof {
                assert(node_index(nodes_before, ev.process.pid) is None);
                assert(nodes@.drop_last() =~= nodes_before);
                assert(pids_unique(nodes@)) by {
                    assert forall|a: int, b: int|
                        0 <= a < b < nodes@.len() implies (
                        #[trigger] nodes@[a]).pid != (
                        #[trigger] nodes@[b]).pid by {
                        if b == nodes_before.len() {
                            assert(nodes@[a] == nodes_before[a]);
                        } else {
                            assert(nodes@[a] == nodes_before[a]);
                            assert(nodes@[b] == nodes_before[b]);
                        }
                    }
                }
            }
        },
    }
}

fn find_node(nodes: &Vec<ProcessNode>, pid: u32) -> (r: Option<usize>)
    ensures
        match r {
            Some(i) => i < nodes@.len() && nodes@[i as int].pid == pid,
            None => forall|i: int| 0 <= i < nodes@.len() ==> (#[trigger] nodes@[i]).pid != pid,
        },
{
    let mut i: usize = 0;
    while i < nodes.len()
        invariant
            i <= nodes@.len(),
            forall|j: int| 0 <= j < i ==> (#[trigger] nodes@[j]).pid != pid,
        decreases nodes.len() - i,
    {
        if nodes[i].pid == pid {
            return Some(i);
        }
        i += 1;
    }
    None
}

/// `String::pop`, keeping only the shortened text.
#[verifier::external_body]
fn pop_char(s: &mut String)
    ensures
        final(s)@ == if old(s)@.len() > 0 {
            old(s)@.drop_last()
        } else {
            old(s)@
        },
{
    s.pop();
}

impl App {
    pub fn scroll_up(&mut self)
        ensures
            *final(self) == after_scroll_up(*old(self)),
    {
        match self.active_tab {
            Tab::ProcessTree => {
                self.proc_scroll = self.proc_scroll.saturating_sub(1);
            },
            Tab::Incidents => {
                self.incident_scroll = self.incident_scroll.saturating_sub(1);
            },
            Tab::Config => {
                self.scroll_config_up();
            },
            _ => {
                self.event_scroll = self.event_scroll.saturating_sub(1);
            },
        }
    }

    pub fn scroll_down(&mut self)
        ensures
            *final(self) == after_scroll_down(*old(self)),
    {
        match self.active_tab {
            Tab::ProcessTree => {
                if self.proc_scroll < self.process_map.len() && self.proc_scroll + 1
                    < self.process_map.len() {
                    self.proc_scroll += 1;
                }
            },
            Tab::Incidents => {
                let len = self.filtered_incidents().len();
                if self.incident_scroll < len && self.incident_scroll + 1 < len {
                    self.incident_scroll += 1;
                }
            },
            Tab::Config => {
                self.scroll_config_down();
            },
            _ => {
                let len = self.filtered_events().len();
                if self.event_scroll < len && self.event_scroll + 1 < len {
                    self.event_scroll += 1;
                }
            },
        }
    }

    pub fn open_detail(&mut self)
        ensures
            *final(self) == after_open_detail(*old(self)),
    {
        match self.active_tab {
            Tab::Incidents => {
                let len = self.filtered_incidents().len();
                if len > 0 {
                    self.selected_incident = Some(self.incident_scroll);
                }
            },
            _ => {
                let len = self.filtered_events().len();
                if len > 0 {
                    self.selected_event = Some(self.event_scroll);
                }
            },
        }
    }

    pub fn close_detail(&mut self)
        ensures
            *final(self) == after_close_detail(*old(self)),
    {
        self.selected_event = None;
        self.selected_incident = None;
    }

    pub fn is_detail_open(&self) -> (r: bool)
        ensures
            r == (self.selected_event is Some || self.selected_incident is Some),
    {
        self.selected_event.is_some() || self.selected_incident.is_some()
    }

    /// All → Blocked → Alerted → All, back to the first row.
    pub fn cycle_incident_filter(&mut self)
        ensures
            final(self).incident_filter == match old(self).incident_filter {
                IncidentFilter::All => IncidentFilter::Blocked,
                IncidentFilter::Blocked => IncidentFilter::Alerted,
                IncidentFilter::Alerted => IncidentFilter::All,
            },
            *final(self) == (App {
                incident_filter: final(self).incident_filter,
                incident_scroll: 0,
                ..*old(self)
            }),
    {
        self.incident_filter = match self.incident_filter {
            IncidentFilter::All => IncidentFilter::Blocked,
            IncidentFilter::Blocked => IncidentFilter::Alerted,
            IncidentFilter::Alerted => IncidentFilter::All,
        };
        self.incident_scroll = 0;
    }

    /// The incident rows the current filter shows, in order.
    pub fn filtered_incidents(&self) -> (r: Vec<&IncidentRow>)
        ensures
            r@.len() == incident_picks(self.incidents@, self.incident_filter).len(),
            forall|k: int|
                0 <= k < r@.len() ==> *#[trigger] r@[k] == self.incidents@[incident_picks(
                    self.incidents@,
                    self.incident_filter,
                )[k]],
    {
        let mut out: Vec<&IncidentRow> = Vec::new();
        let mut i: usize = 0;
        while i < self.incidents.len()
            invariant
                i <= self.incidents@.len(),
                out@.len() == incident_picks(self.incidents@.take(i as int), self.incident_filter).len(),
                forall|k: int|
                    0 <= k < out@.len() ==> *#[trigger] out@[k] == self.incidents@[incident_picks(
                        self.incidents@.take(i as int),
                        self.incident_filter,
                    )[k]],
            decreases self.incidents.len() - i,
        {
            let row = &self.incidents[i];
            let ghost before = self.incidents@.take(i as int);
            assert(self.incidents@.take(i + 1).drop_last() == before);
            assert(self.incidents@.take(i + 1).last() == *row);
            let pass = match self.incident_filter {
                IncidentFilter::All => true,
                IncidentFilter::Blocked => text_has(&row.action, "Block") || text_has(
                    &row.action,
                    "Kill",
                ),
                IncidentFilter::Alerted => text_has(&row.action, "Alert"),
            };
            if pass {
                out.push(row);
            }
            i += 1;
        }
        assert(self.incidents@.take(self.incidents@.len() as int) == self.incidents@);
        out
    }

    /// The event rows whose process, kind, action or full kind contains the
    /// query (case-insensitively); all rows for an empty query.
    pub fn filtered_events(&self) -> (r: Vec<&EventRow>)
        ensures
            r@.len() == event_picks(self.events@, lowercase(self.filter_query@)).len(),
            forall|k: int|
                0 <= k < r@.len() ==> *#[trigger] r@[k] == self.events@[event_picks(
                    self.events@,
                    lowercase(self.filter_query@),
                )[k]],
    {
        let ql = to_lowercase(self.filter_query.as_str());
        let q = chars_of(ql.as_str());
        let ghost qv = lowercase(self.filter_query@);
        let mut out: Vec<&EventRow> = Vec::new();
        let mut i: usize = 0;
        while i < self.events.len()
            invariant
                i <= self.events@.len(),
                q@ == qv,
                qv == lowercase(self.filter_query@),
                out@.len() == event_picks(self.events@.take(i as int), qv).len(),
                forall|k: int|
                    0 <= k < out@.len() ==> *#[trigger] out@[k] == self.events@[event_picks(
                        self.events@.take(i as int),
                        qv,
                    )[k]],
            decreases self.events.len() - i,
        {
            let row = &self.events[i];
            let ghost before = self.events@.take(i as int);
            assert(self.events@.take(i + 1).drop_last() == before);
            assert(self.events@.take(i + 1).last() == *row);
            let pass = q.len() == 0 || lower_has(&row.process, &q) || lower_has(&row.kind, &q)
                || lower_has(&row.action, &q) || lower_has(&row.full_kind, &q);
            if pass {
                out.push(row);
            }
            i += 1;
        }
        assert(self.events@.take(self.events@.len() as int) == self.events@);
        out
    }

    /// Records an event: counters, the event table, the incident table (for
    /// Blocked, Alerted and Killed events) and the process node of its pid.
    /// Each table keeps its newest `MAX_ROWS` rows.
    #[verifier::spinoff_prover]
    #[verifier::rlimit(40)]
    pub fn push_event(&mut self, ev: &NormalizedEvent)
        requires
            old(self).wf(),
            old(self).stats.total_events < u64::MAX,
            kind_cut_ok(full_kind_text(ev.event_type)),
        ensures
            final(self).wf(),
            final(self).stats.total_events == old(self).stats.total_events + 1,
            final(self).stats.high_severity == old(self).stats.high_severity + if ev.severity
                == Severity::High || ev.severity == Severity::Critical {
                1int
            } else {
                0int
            },
            final(self).stats.blocked == old(self).stats.blocked + if ev.action == Action::Blocked
                || ev.action == Action::Killed {
                1int
            } else {
                0int
            },
            final(self).stats.alerts == old(self).stats.alerts + if ev.action == Action::Alerted {
                1int
            } else {
                0int
            },
            is_incident_action(ev.action) ==> appended_capped(
                old(self).incidents@,
                final(self).incidents@,
            ) && incident_row_for(final(self).incidents@.last(), *ev),
            !is_incident_action(ev.action) ==> final(self).incidents == old(self).incidents,
            appended_capped(old(self).events@, final(self).events@),
            event_row_for(final(self).events@.last(), *ev),
            match node_index(old(self).process_map@, ev.process.pid) {
                Some(i) => {
                    &&& final(self).process_map@.len() == old(self).process_map@.len()
                    &&& node_after(
                        final(self).process_map@[i],
                        *ev,
                        (old(self).process_map@[i].event_count + 1) as u64,
                    )
                    &&& final(self).process_map@[i].ppid == old(self).process_map@[i].ppid
                    &&& final(self).process_map@[i].name == old(self).process_map@[i].name
                    &&& final(self).process_map@[i].uid == old(self).process_map@[i].uid
                    &&& forall|j: int|
                        0 <= j < old(self).process_map@.len() && j != i ==> #[trigger] final(self).process_map@[j] == old(self).process_map@[j]
                },
                None => {
                    &&& final(self).process_map@.drop_last() == old(self).process_map@
                    &&& final(self).process_map@.len() == old(self).process_map@.len() + 1
                    &&& node_after(final(self).process_map@.last(), *ev, 1)
                    &&& final(self).process_map@.last().ppid == ev.process.ppid
                    &&& final(self).process_map@.last().name@ == ev.process.binary@
                    &&& final(self).process_map@.last().uid == ev.process.uid
                },
            },
            *final(self) == (App {
                stats: final(self).stats,
                events: final(self).events,
                incidents: final(self).incidents,
                process_map: final(self).process_map,
                ..*old(self)
            }),
    {
        self.stats.total_events = self.stats.total_events + 1;
        if ev.severity == Severity::High || ev.severity == Severity::Critical {
            self.stats.high_severity = self.stats.high_severity + 1;
        }
        if ev.action == Action::Blocked || ev.action == Action::Killed {
            self.stats.blocked = self.stats.blocked + 1;
        } else if ev.action == Action::Alerted {
            self.stats.alerts = self.stats.alerts + 1;
        }
        let full_kind = full_kind_of(&ev.event_type);
        let kind = short_kind(&full_kind);
        let action_str = ev.action.name();
        if is_incident(ev.action) {
            let row = IncidentRow {
                timestamp: format_ts(ev.timestamp),
                pid: ev.process.pid,
                ppid: ev.process.ppid,
                uid: ev.process.uid,
                process: ev.process.binary.clone(),
                kind: kind.clone(),
                full_kind: full_kind.clone(),
                severity: ev.severity,
                action: action_str.to_string(),
                rule: match &ev.rule_name {
                    Some(n) => n.clone(),
                    None => String::new(),
                },
            };
            let ghost before = self.incidents@;
            self.incidents.push(row);
            if self.incidents.len() > MAX_ROWS {
                self.incidents.remove(0);
                assert(self.incidents@.drop_last() =~= before.drop_first());
            } else {
                assert(self.incidents@.drop_last() =~= before);
            }
        }
        let erow = EventRow {
            timestamp: format_ts(ev.timestamp),
            pid: ev.process.pid,
            ppid: ev.process.ppid,
            uid: ev.process.uid,
            process: ev.process.binary.clone(),
            kind,
            severity: ev.severity,
            action: action_str.to_string(),
            full_kind,
        };
        let ghost before_events = self.events@;
        self.events.push(erow);
        if self.events.len() > MAX_ROWS {
            self.events.remove(0);
            assert(self.events@.drop_last() =~= before_events.drop_first());
        } else {
            assert(self.events@.drop_last() =~= before_events);
        }
        let ghost nodes_before = self.process_map@;
        proof {
            assert forall|j: int| 0 <= j < nodes_before.len() implies (
            #[trigger] nodes_before[j]).event_count < u64::MAX by {
                assert(nodes_before[j].event_count <= old(self).stats.total_events);
            }
        }
        record_process(&mut self.process_map, ev, action_str);
        proof {
            assert forall|j: int| 0 <= j < self.process_map@.len() implies (
            #[trigger] self.process_map@[j]).event_count <= self.stats.total_events by {
                if j < nodes_before.len() {
                    assert(nodes_before[j].event_count <= old(self).stats.total_events);
                }
            }
        }
    }

    /// Applies one key press. Returns `true` when the dashboard should exit.
    ///
    /// With a detail popup open, Esc, `q` and Enter close it. While typing a
    /// filter, characters and Backspace edit it, Enter applies it and Esc
    /// clears it. Otherwise `q`, `Q` and Esc quit; Tab and `1`..`4` switch
    /// tabs; Up/`k` and Down/`j` scroll; Enter opens the detail popup and `/`
    /// starts a filter on the events tab.
    pub fn handle_key(&mut self, key: Key) -> (quit: bool)
        ensures
            quit == quits(*old(self), key),
            key_effect(*old(self), *final(self), key),
    {
        if self.is_detail_open() {
            match key {
                Key::Esc | Key::Char('q') | Key::Enter => {
                    self.close_detail();
                },
                _ => {},
            }
            return false;
        }
        if self.input_mode == InputMode::Filtering {
            match key {
                Key::Esc => {
                    self.filter_input = String::new();
                    self.filter_query = String::new();
                    self.input_mode = InputMode::Normal;
                },
                Key::Enter => {
                    self.filter_query = self.filter_input.clone();
                    self.input_mode = InputMode::Normal;
                    self.event_scroll = 0;
                },
                Key::Char(c) => {
                    push_char(&mut self.filter_input, c);
                },
                Key::Backspace => {
                    pop_char(&mut self.filter_input);
                },
                _ => {},
            }
            return false;
        }
        match key {
            Key::Char('q') | Key::Char('Q') | Key::Esc => {
                self.state = AppState::Quit;
                return true;
            },
            Key::Tab => self.next_tab(),
            Key::Char('1') => self.active_tab = Tab::Dashboard,
            Key::Char('2') => self.active_tab = Tab::Events,
            Key::Char('3') => self.active_tab = Tab::Config,
            Key::Char('4') => self.active_tab = Tab::ProcessTree,
            Key::Up | Key::Char('k') => self.scroll_up(),
            Key::Down | Key::Char('j') => self.scroll_down(),
            Key::Enter => {
                if self.active_tab == Tab::Events {
                    self.open_detail();
                }
            },
            Key::Char('/') => {
                if self.active_tab == Tab::Events {
                    self.input_mode = InputMode::Filtering;
                    self.filter_input = String::new();
                }
            },
            _ => {},
        }
        false
    }
}

// ── Process tree ────────────────────────────────────────────────────────

/// Some node has this pid.
pub open spec fn has_pid(nodes: Seq<ProcessNode>, pid: u32) -> bool {
    exists|i: int| 0 <= i < nodes.len() && (#[trigger] nodes[i]).pid == pid
}

/// The pids of the nodes whose parent is `pid` (a node is never its own
/// child), in node order.
pub open spec fn child_pids(nodes: Seq<ProcessNode>, all: Seq<ProcessNode>, pid: u32) -> Seq<u32>
    decreases nodes.len(),
{
    if nodes.len() == 0 {
        seq![]
    } else if nodes.last().ppid == pid && nodes.last().pid != pid {
        child_pids(nodes.drop_last(), all, pid).push(nodes.last().pid)
    } else {
        child_pids(nodes.drop_last(), all, pid)
    }
}

/// The pids of the root nodes (parent 0, or a parent with no node), in node order.
pub open spec fn root_pids(nodes: Seq<ProcessNode>, all: Seq<ProcessNode>) -> Seq<u32>
    decreases nodes.len(),
{
    if nodes.len() == 0 {
        seq![]
    } else if nodes.last().ppid == 0 || !has_pid(all, nodes.last().ppid) {
        root_pids(nodes.drop_last(), all).push(nodes.last().pid)
    } else {
        root_pids(nodes.drop_last(), all)
    }
}

/// `x` placed before the first element of `s` greater than it.
pub open spec fn insert_sorted(s: Seq<u32>, x: u32) -> Seq<u32>
    decreases s.len(),
{
    if s.len() == 0 {
        seq![x]
    } else if x < s[0] {
        seq![x] + s
    } else {
        seq![s[0]] + insert_sorted(s.drop_first(), x)
    }
}

/// `s` in ascending order (insertion sort).
pub open spec fn ascending(s: Seq<u32>) -> Seq<u32>
    decreases s.len(),
{
    if s.len() == 0 {
        seq![]
    } else {
        insert_sorted(ascending(s.drop_last()), s.last())
    }
}

/// Depth-first visit of `pid` at `depth`: the pid, then its children in
/// ascending order, each one deeper; pids already visited are skipped.
/// `fuel` bounds the nesting; it never runs out when it exceeds the number
/// of nodes.
pub open spec fn dfs_node(
    nodes: Seq<ProcessNode>,
    fuel: nat,
    pid: u32,
    depth: nat,
    visited: Set<u32>,
) -> (Seq<(nat, u32)>, Set<u32>)
    decreases fuel, 0nat,
{
    if fuel == 0 || visited.contains(pid) {
        (seq![], visited)
    } else {
        let (rest, v) = dfs_list(
            nodes,
            (fuel - 1) as nat,
            ascending(child_pids(nodes, nodes, pid)),
            depth + 1,
            visited.insert(pid),
        );
        (seq![(depth, pid)] + rest, v)
    }
}

/// Depth-first visits of `pids` in order, at `depth`.
pub open spec fn dfs_list(
    nodes: Seq<ProcessNode>,
    fuel: nat,
    pids: Seq<u32>,
    depth: nat,
    visited: Set<u32>,
) -> (Seq<(nat, u32)>, Set<u32>)
    decreases fuel, pids.len() + 1,
{
    if pids.len() == 0 {
        (seq![], visited)
    } else {
        let (a, v1) = dfs_node(nodes, fuel, pids[0], depth, visited);
        let (b, v2) = dfs_list(nodes, fuel, pids.drop_first(), depth, v1);
        (a + b, v2)
    }
}

/// The fuel for a tree walk over `nodes`.
pub open spec fn tree_fuel(nodes: Seq<ProcessNode>) -> nat {
    if nodes.len() < usize::MAX {
        (nodes.len() + 1) as nat
    } else {
        nodes.len()
    }
}

/// The pids of the nodes, in node order.
pub open spec fn node_pids(nodes: Seq<ProcessNode>) -> Seq<u32>
    decreases nodes.len(),
{
    if nodes.len() == 0 {
        seq![]
    } else {
        node_pids(nodes.drop_last()).push(nodes.last().pid)
    }
}

/// Where the tree walk starts: the roots in ascending pid order, then every
/// pid in ascending order, so that a process that no root reaches (one on a
/// cycle of parents) starts a tree of its own.
pub open spec fn walk_starts(nodes: Seq<ProcessNode>) -> Seq<u32> {
    ascending(root_pids(nodes, nodes)) + ascending(node_pids(nodes))
}

/// (depth, pid) of every row of the process tree, in display order.
pub open spec fn tree_order(nodes: Seq<ProcessNode>) -> Seq<(nat, u32)> {
    dfs_list(nodes, tree_fuel(nodes), walk_starts(nodes), 0, Set::empty()).0
}

fn insert_sorted_exec(s: &mut Vec<u32>, x: u32)
    ensures
        final(s)@ == insert_sorted(old(s)@, x),
{
    let mut i: usize = 0;
    assert(s@.skip(0) =~= s@);
    assert(s@.take(0) =~= Seq::<u32>::empty());
    while i < s.len() && s[i] <= x
        invariant
            i <= s@.len(),
            insert_sorted(s@, x) == s@.take(i as int) + insert_sorted(s@.skip(i as int), x),
        decreases s.len() - i,
    {
        proof {
            let t = s@.skip(i as int);
            assert(t[0] == s@[i as int]);
            assert(t.drop_first() =~= s@.skip(i + 1));
            assert(s@.take(i + 1) =~= s@.take(i as int) + seq![s@[i as int]]);
            assert(insert_sorted(t, x) == seq![t[0]] + insert_sorted(t.drop_first(), x));
            assert(s@.take(i as int) + insert_sorted(t, x) =~= s@.take(i + 1) + insert_sorted(
                s@.skip(i + 1),
                x,
            ));
        }
        i += 1;
    }
    proof {
        let t = s@.skip(i as int);
        if i < s@.len() {
            assert(t[0] == s@[i as int]);
            assert(insert_sorted(t, x) == seq![x] + t);
        } else {
            assert(t.len() == 0);
        }
    }
    let ghost before = s@;
    s.insert(i, x);
    assert(s@ =~= before.take(i as int) + insert_sorted(before.skip(i as int), x));
}

fn ascending_exec(v: &Vec<u32>) -> (r: Vec<u32>)
    ensures
        r@ == ascending(v@),
{
    let mut r: Vec<u32> = Vec::new();
    let mut i: usize = 0;
    while i < v.len()
        invariant
            i <= v@.len(),
            r@ == ascending(v@.take(i as int)),
        decreases v.len() - i,
    {
        assert(v@.take(i + 1).drop_last() =~= v@.take(i as int));
        assert(v@.take(i + 1).last() == v@[i as int]);
        insert_sorted_exec(&mut r, v[i]);
        i += 1;
    }
    assert(v@.take(v@.len() as int) =~= v@);
    r
}

fn children_of(nodes: &Vec<ProcessNode>, pid: u32) -> (r: Vec<u32>)
    ensures
        r@ == ascending(child_pids(nodes@, nodes@, pid)),
{
    let mut c: Vec<u32> = Vec::new();
    let mut i: usize = 0;
    while i < nodes.len()
        invariant
            i <= nodes@.len(),
            c@ == child_pids(nodes@.take(i as int), nodes@, pid),
        decreases nodes.len() - i,
    {
        assert(nodes@.take(i + 1).drop_last() =~= nodes@.take(i as int));
        assert(nodes@.take(i + 1).last() == nodes@[i as int]);
        if nodes[i].ppid == pid && nodes[i].pid != pid {
            c.push(nodes[i].pid);
        }
        i += 1;
    }
    assert(nodes@.take(nodes@.len() as int) =~= nodes@);
    ascending_exec(&c)
}

fn all_pids_of(nodes: &Vec<ProcessNode>) -> (r: Vec<u32>)
    ensures
        r@ == ascending(node_pids(nodes@)),
{
    let mut c: Vec<u32> = Vec::new();
    let mut i: usize = 0;
    while i < nodes.len()
        invariant
            i <= nodes@.len(),
            c@ == node_pids(nodes@.take(i as int)),
        decreases nodes.len() - i,
    {
        assert(nodes@.take(i + 1).drop_last() =~= nodes@.take(i as int));
        assert(nodes@.take(i + 1).last() == nodes@[i as int]);
        c.push(nodes[i].pid);
        i += 1;
    }
    assert(nodes@.take(nodes@.len() as int) =~= nodes@);
    ascending_exec(&c)
}

fn roots_of(nodes: &Vec<ProcessNode>) -> (r: Vec<u32>)
    ensures
        r@ == ascending(root_pids(nodes@, nodes@)),
{
    let mut c: Vec<u32> = Vec::new();
    let mut i: usize = 0;
    while i < nodes.len()
        invariant
            i <= nodes@.len(),
            c@ == root_pids(nodes@.take(i as int), nodes@),
        decreases nodes.len() - i,
    {
        assert(nodes@.take(i + 1).drop_last() =~= nodes@.take(i as int));
        assert(nodes@.take(i + 1).last() == nodes@[i as int]);
        let ppid = nodes[i].ppid;
        let parent_known = match find_node(nodes, ppid) {
            Some(_) => true,
            None => false,
        };
        if ppid == 0 || !parent_known {
            c.push(nodes[i].pid);
        }
        i += 1;
    }
    assert(nodes@.take(nodes@.len() as int) =~= nodes@);
    ascending_exec(&c)
}

proof fn lemma_push_to_set(s: Seq<u32>, x: u32)
    ensures
        s.push(x).to_set() == s.to_set().insert(x),
{
    assert forall|a: u32| s.push(x).to_set().contains(a) <==> s.to_set().insert(x).contains(a) by {
        if s.contains(a) {
            let i = choose|i: int| 0 <= i < s.len() && s[i] == a;
            assert(s.push(x)[i] == a);
        }
        if s.push(x).contains(a) {
            let i = choose|i: int| 0 <= i < s.push(x).len() && s.push(x)[i] == a;
            if i < s.len() {
                assert(s[i] == a);
            }
        }
        if a == x {
            assert(s.push(x)[s.len() as int] == x);
        }
    }
    assert(s.push(x).to_set() =~= s.to_set().insert(x));
}

fn seen(visited: &Vec<u32>, pid: u32) -> (r: bool)
    ensures
        r == visited@.to_set().contains(pid),
{
    let mut i: usize = 0;
    while i < visited.len()
        invariant
            i <= visited@.len(),
            forall|j: int| 0 <= j < i ==> visited@[j] != pid,
        decreases visited.len() - i,
    {
        if visited[i] == pid {
            assert(visited@.contains(pid));
            return true;
        }
        i += 1;
    }
    assert(!visited@.contains(pid));
    false
}

/// The order entries with spec depths.
pub open spec fn order_view(o: Seq<(usize, u32)>) -> Seq<(nat, u32)> {
    o.map_values(|e: (usize, u32)| (e.0 as nat, e.1))
}

fn dfs_node_exec(
    nodes: &Vec<ProcessNode>,
    fuel: usize,
    pid: u32,
    depth: usize,
    visited: &mut Vec<u32>,
    out: &mut Vec<(usize, u32)>,
)
    requires
        depth + fuel <= usize::MAX,
    ensures
        ({
            let (o, v) = dfs_node(nodes@, fuel as nat, pid, depth as nat, old(visited)@.to_set());
            &&& order_view(final(out)@) == order_view(old(out)@) + o
            &&& final(visited)@.to_set() == v
        }),
    decreases fuel, 0nat,
{
    if fuel == 0 || seen(visited, pid) {
        return;
    }
    let ghost v0 = visited@.to_set();
    let ghost vs = visited@;
    visited.push(pid);
    proof {
        lemma_push_to_set(vs, pid);
    }
    let ghost out0 = order_view(out@);
    out.push((depth, pid));
    assert(order_view(out@) =~= out0 + seq![(depth as nat, pid)]);
    let children = children_of(nodes, pid);
    dfs_list_exec(nodes, fuel - 1, &children, depth + 1, visited, out);
}

fn dfs_list_exec(
    nodes: &Vec<ProcessNode>,
    fuel: usize,
    pids: &Vec<u32>,
    depth: usize,
    visited: &mut Vec<u32>,
    out: &mut Vec<(usize, u32)>,
)
    requires
        depth + fuel <= usize::MAX,
    ensures
        ({
            let (o, v) = dfs_list(nodes@, fuel as nat, pids@, depth as nat, old(visited)@.to_set());
            &&& order_view(final(out)@) == order_view(old(out)@) + o
            &&& final(visited)@.to_set() == v
        }),
    decreases fuel, 1nat,
{
    let ghost out0 = order_view(out@);
    let ghost vis0 = visited@.to_set();
    let mut i: usize = 0;
    assert(pids@.skip(0) =~= pids@);
    while i < pids.len()
        invariant
            i <= pids@.len(),
            depth + fuel <= usize::MAX,
            ({
                let (o_all, v_all) = dfs_list(nodes@, fuel as nat, pids@, depth as nat, vis0);
                let (o_rest, v_rest) = dfs_list(
                    nodes@,
                    fuel as nat,
                    pids@.skip(i as int),
                    depth as nat,
                    visited@.to_set(),
                );
                &&& o_all == (order_view(out@) + o_rest).skip(out0.len() as int)
                &&& order_view(out@).take(out0.len() as int) == out0
                &&& order_view(out@).len() >= out0.len()
                &&& v_all == v_rest
            }),
        decreases pids.len() - i,
    {
        let ghost t = pids@.skip(i as int);
        let ghost vis_i = visited@.to_set();
        let ghost out_i = order_view(out@);
        assert(t[0] == pids@[i as int]);
        assert(t.drop_first() =~= pids@.skip(i + 1));
        dfs_node_exec(nodes, fuel, pids[i], depth, visited, out);
        proof {
            let (a, v1) = dfs_node(nodes@, fuel as nat, t[0], depth as nat, vis_i);
            let (b, v2) = dfs_list(nodes@, fuel as nat, t.drop_first(), depth as nat, v1);
            assert(dfs_list(nodes@, fuel as nat, t, depth as nat, vis_i) == (a + b, v2));
            assert(order_view(out@) == out_i + a);
            assert(order_view(out@) + b =~= out_i + (a + b));
            assert(order_view(out@).take(out0.len() as int) =~= out0);
        }
        i += 1;
    }
    proof {
        assert(pids@.skip(i as int).len() == 0);
        assert(order_view(out@) =~= out0 + order_view(out@).skip(out0.len() as int));
    }
}

// ── What the tree walk lists ────────────────────────────────────────────

proof fn lemma_insert_sorted_contains(s: Seq<u32>, x: u32)
    ensures
        forall|y: u32| #[trigger] insert_sorted(s, x).contains(y) <==> (s.contains(y) || y == x),
    decreases s.len(),
{
    let r = insert_sorted(s, x);
    if s.len() == 0 {
        assert forall|y: u32| #[trigger] r.contains(y) <==> (s.contains(y) || y == x) by {
            if y == x {
                assert(r[0] == x);
            }
        }
    } else if x < s[0] {
        assert forall|y: u32| #[trigger] r.contains(y) <==> (s.contains(y) || y == x) by {
            if s.contains(y) {
                let i = choose|i: int| 0 <= i < s.len() && s[i] == y;
                assert(r[i + 1] == y);
            }
            if y == x {
                assert(r[0] == x);
            }
            if r.contains(y) {
                let i = choose|i: int| 0 <= i < r.len() && r[i] == y;
                if i > 0 {
                    assert(s[i - 1] == y);
                }
            }
        }
    } else {
        let t = s.drop_first();
        lemma_insert_sorted_contains(t, x);
        let q = insert_sorted(t, x);
        assert(r == seq![s[0]] + q);
        assert forall|y: u32| #[trigger] r.contains(y) <==> (s.contains(y) || y == x) by {
            if s.contains(y) {
                let i = choose|i: int| 0 <= i < s.len() && s[i] == y;
                if i == 0 {
                    assert(r[0] == y);
                } else {
                    assert(t[i - 1] == y);
                    assert(q.contains(y));
                    let j = choose|j: int| 0 <= j < q.len() && q[j] == y;
                    assert(r[j + 1] == y);
                }
            }
            if y == x {
                assert(q.contains(x));
                let j = choose|j: int| 0 <= j < q.len() && q[j] == x;
                assert(r[j + 1] == x);
            }
            if r.contains(y) {
                let i = choose|i: int| 0 <= i < r.len() && r[i] == y;
                if i == 0 {
                    assert(s[0] == y);
                } else {
                    assert(q[i - 1] == y);
                    assert(q.contains(y));
                    if t.contains(y) {
                        let j = choose|j: int| 0 <= j < t.len() && t[j] == y;
                        assert(s[j + 1] == y);
                    }
                }
            }
        }
    }
}

/// Sorting keeps the elements.
proof fn lemma_ascending_contains(s: Seq<u32>)
    ensures
        forall|y: u32| #[trigger] ascending(s).contains(y) <==> s.contains(y),
    decreases s.len(),
{
    if s.len() > 0 {
        let d = s.drop_last();
        lemma_ascending_contains(d);
        lemma_insert_sorted_contains(ascending(d), s.last());
        assert forall|y: u32| #[trigger] ascending(s).contains(y) <==> s.contains(y) by {
            if d.contains(y) {
                let i = choose|i: int| 0 <= i < d.len() && d[i] == y;
                assert(s[i] == y);
            }
            if y == s.last() {
                assert(s[s.len() - 1] == y);
            }
            if s.contains(y) {
                let i = choose|i: int| 0 <= i < s.len() && s[i] == y;
                if i < s.len() - 1 {
                    assert(d[i] == y);
                }
            }
        }
    }
}

proof fn lemma_has_pid_drop_last(nodes: Seq<ProcessNode>, x: u32)
    requires
        nodes.len() > 0,
    ensures
        has_pid(nodes, x) <==> (has_pid(nodes.drop_last(), x) || nodes.last().pid == x),
{
    let d = nodes.drop_last();
    if has_pid(d, x) {
        let i = choose|i: int| 0 <= i < d.len() && (#[trigger] d[i]).pid == x;
        assert(nodes[i].pid == x);
    }
    if nodes.last().pid == x {
        assert(nodes[nodes.len() - 1].pid == x);
    }
    if has_pid(nodes, x) {
        let i = choose|i: int| 0 <= i < nodes.len() && (#[trigger] nodes[i]).pid == x;
        if i < nodes.len() - 1 {
            assert(d[i].pid == x);
        }
    }
}

/// Every node's pid is listed, and only those.
proof fn lemma_node_pids(nodes: Seq<ProcessNode>)
    ensures
        forall|x: u32| #[trigger] node_pids(nodes).contains(x) <==> has_pid(nodes, x),
    decreases nodes.len(),
{
    if nodes.len() > 0 {
        let d = nodes.drop_last();
        lemma_node_pids(d);
        let s = node_pids(nodes);
        assert forall|x: u32| #[trigger] s.contains(x) <==> has_pid(nodes, x) by {
            lemma_has_pid_drop_last(nodes, x);
            if node_pids(d).contains(x) {
                let i = choose|i: int| 0 <= i < node_pids(d).len() && node_pids(d)[i] == x;
                assert(s[i] == x);
            }
            if nodes.last().pid == x {
                assert(s[s.len() - 1] == x);
            }
            if s.contains(x) {
                let i = choose|i: int| 0 <= i < s.len() && s[i] == x;
                if i < s.len() - 1 {
                    assert(node_pids(d)[i] == x);
                }
            }
        }
    }
}

/// Roots and children are pids of nodes.
proof fn lemma_roots_and_children_have_nodes(nodes: Seq<ProcessNode>, all: Seq<ProcessNode>, pid: u32)
    ensures
        forall|x: u32| #[trigger] root_pids(nodes, all).contains(x) ==> has_pid(nodes, x),
        forall|x: u32| #[trigger] child_pids(nodes, all, pid).contains(x) ==> has_pid(nodes, x),
    decreases nodes.len(),
{
    if nodes.len() > 0 {
        let d = nodes.drop_last();
        lemma_roots_and_children_have_nodes(d, all, pid);
        let last = nodes.last();
        assert forall|x: u32| #[trigger] root_pids(nodes, all).contains(x) implies has_pid(nodes, x) by {
            lemma_has_pid_drop_last(nodes, x);
            let s = root_pids(nodes, all);
            let sd = root_pids(d, all);
            let i = choose|i: int| 0 <= i < s.len() && s[i] == x;
            if last.ppid == 0 || !has_pid(all, last.ppid) {
                assert(s == sd.push(last.pid));
                if i < sd.len() {
                    assert(sd[i] == x);
                    assert(sd.contains(x));
                }
            } else {
                assert(s == sd);
                assert(sd.contains(x));
            }
        }
        assert forall|x: u32| #[trigger] child_pids(nodes, all, pid).contains(x) implies has_pid(
            nodes,
            x,
        ) by {
            lemma_has_pid_drop_last(nodes, x);
            let s = child_pids(nodes, all, pid);
            let sd = child_pids(d, all, pid);
            let i = choose|i: int| 0 <= i < s.len() && s[i] == x;
            if last.ppid == pid && last.pid != pid {
                assert(s == sd.push(last.pid));
                if i < sd.len() {
                    assert(sd[i] == x);
                    assert(sd.contains(x));
                }
            } else {
                assert(s == sd);
                assert(sd.contains(x));
            }
        }
    }
}

/// Some row of `o` lists pid `x`.
pub open spec fn in_order(o: Seq<(nat, u32)>, x: u32) -> bool {
    exists|k: int| 0 <= k < o.len() && (#[trigger] o[k]).1 == x
}

/// What a walk from `starts` gives when it begins with `visited`: the
/// visited set grows by exactly the pids it lists, it lists no pid twice and
/// none visited before, and each pid it lists is a start or has a node.
pub open spec fn walk_ok(
    o: Seq<(nat, u32)>,
    v: Set<u32>,
    visited: Set<u32>,
    starts: Seq<u32>,
    nodes: Seq<ProcessNode>,
) -> bool {
    &&& forall|x: u32| #[trigger] v.contains(x) <==> (visited.contains(x) || in_order(o, x))
    &&& forall|k: int| 0 <= k < o.len() ==> !visited.contains((#[trigger] o[k]).1)
    &&& forall|k1: int, k2: int|
        0 <= k1 < k2 < o.len() ==> (#[trigger] o[k1]).1 != (#[trigger] o[k2]).1
    &&& forall|k: int|
        0 <= k < o.len() ==> starts.contains((#[trigger] o[k]).1) || has_pid(nodes, o[k].1)
}

proof fn lemma_dfs_node(nodes: Seq<ProcessNode>, fuel: nat, pid: u32, depth: nat, visited: Set<u32>)
    ensures
        walk_ok(
            dfs_node(nodes, fuel, pid, depth, visited).0,
            dfs_node(nodes, fuel, pid, depth, visited).1,
            visited,
            seq![pid],
            nodes,
        ),
        fuel > 0 ==> dfs_node(nodes, fuel, pid, depth, visited).1.contains(pid),
    decreases fuel, 0nat,
{
    if fuel > 0 && !visited.contains(pid) {
        let cp = child_pids(nodes, nodes, pid);
        let ch = ascending(cp);
        let vi = visited.insert(pid);
        lemma_dfs_list(nodes, (fuel - 1) as nat, ch, depth + 1, vi);
        lemma_ascending_contains(cp);
        lemma_roots_and_children_have_nodes(nodes, nodes, pid);
        let (rest, v) = dfs_list(nodes, (fuel - 1) as nat, ch, depth + 1, vi);
        let o = seq![(depth, pid)] + rest;
        assert(dfs_node(nodes, fuel, pid, depth, visited) == (o, v));
        assert forall|x: u32| #[trigger] v.contains(x) <==> (visited.contains(x) || in_order(o, x)) by {
            if in_order(rest, x) {
                let k = choose|k: int| 0 <= k < rest.len() && (#[trigger] rest[k]).1 == x;
                assert(o[k + 1].1 == x);
            }
            if x == pid {
                assert(o[0].1 == x);
            }
            if in_order(o, x) {
                let k = choose|k: int| 0 <= k < o.len() && (#[trigger] o[k]).1 == x;
                if k > 0 {
                    assert(rest[k - 1].1 == x);
                }
            }
        }
        assert forall|k: int| 0 <= k < o.len() implies !visited.contains((#[trigger] o[k]).1) by {
            if k > 0 {
                assert(o[k] == rest[k - 1]);
            }
        }
        assert forall|k1: int, k2: int| 0 <= k1 < k2 < o.len() implies (#[trigger] o[k1]).1
            != (#[trigger] o[k2]).1 by {
            assert(o[k2] == rest[k2 - 1]);
            if k1 > 0 {
                assert(o[k1] == rest[k1 - 1]);
            } else {
                assert(!vi.contains(rest[k2 - 1].1));
            }
        }
        assert forall|k: int| 0 <= k < o.len() implies seq![pid].contains((#[trigger] o[k]).1)
            || has_pid(nodes, o[k].1) by {
            if k == 0 {
                assert(seq![pid][0] == pid);
            } else {
                assert(o[k] == rest[k - 1]);
                if ch.contains(rest[k - 1].1) {
                    assert(cp.contains(rest[k - 1].1));
                }
            }
        }
    } else {
        assert(dfs_node(nodes, fuel, pid, depth, visited).0.len() == 0);
    }
}

proof fn lemma_dfs_list(
    nodes: Seq<ProcessNode>,
    fuel: nat,
    pids: Seq<u32>,
    depth: nat,
    visited: Set<u32>,
)
    ensures
        walk_ok(
            dfs_list(nodes, fuel, pids, depth, visited).0,
            dfs_list(nodes, fuel, pids, depth, visited).1,
            visited,
            pids,
            nodes,
        ),
        fuel > 0 ==> forall|i: int|
            0 <= i < pids.len() ==> dfs_list(nodes, fuel, pids, depth, visited).1.contains(
                #[trigger] pids[i],
            ),
    decreases fuel, pids.len() + 1,
{
    if pids.len() > 0 {
        let p0 = pids[0];
        let tl = pids.drop_first();
        lemma_dfs_node(nodes, fuel, p0, depth, visited);
        let (a, v1) = dfs_node(nodes, fuel, p0, depth, visited);
        lemma_dfs_list(nodes, fuel, tl, depth, v1);
        let (b, v2) = dfs_list(nodes, fuel, tl, depth, v1);
        let o = a + b;
        assert(dfs_list(nodes, fuel, pids, depth, visited) == (o, v2));
        assert forall|x: u32| #[trigger] v2.contains(x) <==> (visited.contains(x) || in_order(o, x)) by {
            if in_order(a, x) {
                let k = choose|k: int| 0 <= k < a.len() && (#[trigger] a[k]).1 == x;
                assert(o[k].1 == x);
            }
            if in_order(b, x) {
                let k = choose|k: int| 0 <= k < b.len() && (#[trigger] b[k]).1 == x;
                assert(o[a.len() + k].1 == x);
            }
            if in_order(o, x) {
                let k = choose|k: int| 0 <= k < o.len() && (#[trigger] o[k]).1 == x;
                if k < a.len() {
                    assert(a[k].1 == x);
                } else {
                    assert(b[k - a.len()].1 == x);
                }
            }
        }
        assert forall|k: int| 0 <= k < o.len() implies !visited.contains((#[trigger] o[k]).1) by {
            if k < a.len() {
                assert(o[k] == a[k]);
            } else {
                assert(o[k] == b[k - a.len()]);
            }
        }
        assert forall|k1: int, k2: int| 0 <= k1 < k2 < o.len() implies (#[trigger] o[k1]).1
            != (#[trigger] o[k2]).1 by {
            if k2 < a.len() {
                assert(o[k1] == a[k1]);
                assert(o[k2] == a[k2]);
            } else if k1 >= a.len() {
                assert(o[k1] == b[k1 - a.len()]);
                assert(o[k2] == b[k2 - a.len()]);
            } else {
                assert(o[k1] == a[k1]);
                assert(o[k2] == b[k2 - a.len()]);
                assert(in_order(a, a[k1].1));
                assert(v1.contains(a[k1].1));
            }
        }
        assert forall|k: int| 0 <= k < o.len() implies pids.contains((#[trigger] o[k]).1)
            || has_pid(nodes, o[k].1) by {
            if k < a.len() {
                assert(o[k] == a[k]);
                if seq![p0].contains(a[k].1) {
                    assert(pids[0] == a[k].1);
                }
            } else {
                assert(o[k] == b[k - a.len()]);
                if tl.contains(b[k - a.len()].1) {
                    let j = choose|j: int| 0 <= j < tl.len() && tl[j] == b[k - a.len()].1;
                    assert(pids[j + 1] == tl[j]);
                }
            }
        }
        if fuel > 0 {
            assert forall|i: int| 0 <= i < pids.len() implies v2.contains(#[trigger] pids[i]) by {
                if i == 0 {
                    assert(v1.contains(p0));
                } else {
                    assert(tl[i - 1] == pids[i]);
                }
            }
        }
    }
}


/// The rows of `order` whose pid has a node, with that node.
pub open spec fn tree_rows(nodes: Seq<ProcessNode>, order: Seq<(nat, u32)>) -> Seq<(nat, int)>
    decreases order.len(),
{
    if order.len() == 0 {
        seq![]
    } else {
        let rest = tree_rows(nodes, order.drop_last());
        match node_index(nodes, order.last().1) {
            Some(i) => rest.push((order.last().0, i)),
            None => rest,
        }
    }
}

proof fn lemma_tree_rows_index(nodes: Seq<ProcessNode>, order: Seq<(nat, u32)>)
    ensures
        forall|k: int|
            0 <= k < tree_rows(nodes, order).len() ==> 0 <= (#[trigger] tree_rows(nodes, order)[k]).1
                < nodes.len(),
    decreases order.len(),
{
    if order.len() > 0 {
        lemma_tree_rows_index(nodes, order.drop_last());
        let rest = tree_rows(nodes, order.drop_last());
        match node_index(nodes, order.last().1) {
            Some(i) => {
                assert forall|k: int| 0 <= k < tree_rows(nodes, order).len() implies 0 <= (
                #[trigger] tree_rows(nodes, order)[k]).1 < nodes.len() by {
                    if k < rest.len() {
                        assert(tree_rows(nodes, order)[k] == rest[k]);
                    }
                }
            },
            None => {},
        }
    }
}

impl App {
    /// The process tree in display order: roots (parent 0 or unknown) in
    /// ascending pid order, each followed depth-first by its children in
    /// ascending pid order, each with its depth. A process that no root
    /// reaches (one on a cycle of parents, or its own parent) then starts a
    /// tree of its own, in ascending pid order. Every process appears
    /// exactly once.
    #[verifier::spinoff_prover]
    #[verifier::rlimit(40)]
    pub fn process_tree_rows(&self) -> (r: Vec<(usize, &ProcessNode)>)
        requires
            pids_unique(self.process_map@),
        ensures
            r@.len() == tree_rows(self.process_map@, tree_order(self.process_map@)).len(),
            forall|k: int|
                #![trigger r@[k]]
                0 <= k < r@.len() ==> {
                    let (d, i) = tree_rows(self.process_map@, tree_order(self.process_map@))[k];
                    &&& r@[k].0 as nat == d
                    &&& *r@[k].1 == self.process_map@[i]
                },
            forall|i: int|
                #![trigger self.process_map@[i]]
                0 <= i < self.process_map@.len() ==> exists|k: int|
                    0 <= k < r@.len() && *(#[trigger] r@[k]).1 == self.process_map@[i],
            forall|k1: int, k2: int|
                0 <= k1 < k2 < r@.len() ==> (#[trigger] r@[k1]).1.pid != (#[trigger] r@[k2]).1.pid,
    {
        let nodes = &self.process_map;
        let mut starts = roots_of(nodes);
        let mut all = all_pids_of(nodes);
        starts.append(&mut all);
        let fuel: usize = if nodes.len() < usize::MAX {
            nodes.len() + 1
        } else {
            nodes.len()
        };
        let mut visited: Vec<u32> = Vec::new();
        let mut order: Vec<(usize, u32)> = Vec::new();
        assert(visited@.to_set() =~= Set::<u32>::empty());
        assert(starts@ == walk_starts(nodes@));
        dfs_list_exec(nodes, fuel, &starts, 0, &mut visited, &mut order);
        assert(order_view(order@) =~= tree_order(nodes@));
        let ghost ov = tree_order(nodes@);
        proof {
            let ws = walk_starts(nodes@);
            lemma_dfs_list(nodes@, tree_fuel(nodes@), ws, 0, Set::empty());
            lemma_roots_and_children_have_nodes(nodes@, nodes@, 0);
            lemma_ascending_contains(root_pids(nodes@, nodes@));
            lemma_ascending_contains(node_pids(nodes@));
            lemma_node_pids(nodes@);
            assert forall|m: int| 0 <= m < ov.len() implies has_pid(nodes@, (#[trigger] ov[m]).1) by {
                let x = ov[m].1;
                if ws.contains(x) {
                    let j = choose|j: int| 0 <= j < ws.len() && ws[j] == x;
                    let rs = ascending(root_pids(nodes@, nodes@));
                    if j < rs.len() {
                        assert(rs[j] == x);
                        assert(rs.contains(x));
                    } else {
                        assert(ascending(node_pids(nodes@))[j - rs.len()] == x);
                        assert(ascending(node_pids(nodes@)).contains(x));
                    }
                }
            }
        }
        let mut rows: Vec<(usize, &ProcessNode)> = Vec::new();
        let mut k: usize = 0;
        while k < order.len()
            invariant
                k <= order@.len(),
                order_view(order@) == ov,
                ov == tree_order(nodes@),
                *nodes == self.process_map,
                pids_unique(nodes@),
                forall|m: int| 0 <= m < ov.len() ==> has_pid(nodes@, (#[trigger] ov[m]).1),
                rows@.len() == k,
                forall|m: int| 0 <= m < k ==> (#[trigger] rows@[m]).1.pid == ov[m].1,
                rows@.len() == tree_rows(nodes@, ov.take(k as int)).len(),
                forall|m: int|
                    #![trigger rows@[m]]
                    0 <= m < rows@.len() ==> {
                        let (d, i) = tree_rows(nodes@, ov.take(k as int))[m];
                        &&& rows@[m].0 as nat == d
                        &&& *rows@[m].1 == nodes@[i]
                    },
            decreases order.len() - k,
        {
            let (depth, pid) = order[k];
            assert(ov.take(k + 1).drop_last() =~= ov.take(k as int));
            assert(ov.take(k + 1).last() == ov[k as int]);
            assert(ov[k as int] == (depth as nat, pid));
            match find_node(nodes, pid) {
                Some(i) => {
                    proof {
                        let j = node_index(nodes@, pid)->0;
                        assert(nodes@[j].pid == pid);
                        assert(j == i) by {
                            if j < i {
                                assert(nodes@[j].pid != nodes@[i as int].pid);
                            } else if i < j {
                                assert(nodes@[i as int].pid != nodes@[j].pid);
                            }
                        }
                    }
                    rows.push((depth, &nodes[i]));
                },
                None => {
                    proof {
                        assert(has_pid(nodes@, ov[k as int].1));
                        let j = choose|j: int|
                            0 <= j < nodes@.len() && (#[trigger] nodes@[j]).pid == pid;
                        assert(nodes@[j].pid != pid);
                    }
                },
            }
            k += 1;
        }
        assert(ov.take(order@.len() as int) =~= ov);
        proof {
            let ws = walk_starts(nodes@);
            let fuel_s = tree_fuel(nodes@);
            lemma_dfs_list(nodes@, fuel_s, ws, 0, Set::empty());
            lemma_ascending_contains(node_pids(nodes@));
            lemma_node_pids(nodes@);
            let v = dfs_list(nodes@, fuel_s, ws, 0, Set::empty()).1;
            assert forall|i: int| #![trigger nodes@[i]] 0 <= i < nodes@.len() implies exists|k: int|
                0 <= k < rows@.len() && *(#[trigger] rows@[k]).1 == nodes@[i] by {
                let p = nodes@[i].pid;
                assert(has_pid(nodes@, p));
                assert(node_pids(nodes@).contains(p));
                let an = ascending(node_pids(nodes@));
                assert(an.contains(p));
                let j = choose|j: int| 0 <= j < an.len() && an[j] == p;
                let rs = ascending(root_pids(nodes@, nodes@));
                assert(ws[rs.len() + j] == p);
                assert(v.contains(ws[rs.len() + j]));
                assert(in_order(ov, p));
                let k = choose|k: int| 0 <= k < ov.len() && (#[trigger] ov[k]).1 == p;
                let (d, ii) = tree_rows(nodes@, ov)[k];
                assert(*rows@[k].1 == nodes@[ii]);
                assert(rows@[k].1.pid == p);
                assert(0 <= ii < nodes@.len()) by {
                    lemma_tree_rows_index(nodes@, ov);
                }
                assert(ii == i) by {
                    if ii < i {
                        assert(nodes@[ii].pid != nodes@[i].pid);
                    } else if i < ii {
                        assert(nodes@[i].pid != nodes@[ii].pid);
                    }
                }
            }
            assert forall|k1: int, k2: int| 0 <= k1 < k2 < rows@.len() implies (
            #[trigger] rows@[k1]).1.pid != (#[trigger] rows@[k2]).1.pid by {
                assert(ov[k1].1 != ov[k2].1);
            }
        }
        rows
    }
}

pub struct EventHandler {
    pub tick_ms: u64,
}

impl EventHandler {
    pub fn new(tick_ms: u64) -> (r: EventHandler)
        ensures
            r.tick_ms == tick_ms,
    {
        EventHandler { tick_ms }
    }
}

} // verus!
