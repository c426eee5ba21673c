//! Falco JSON alerts (`json_output: true`).
use vstd::prelude::*;
use crate::adapter::{bare_process, bare_process_info, fresh, observed_event};
use crate::event::{
    Direction, EventSource, EventType, FileFlags, NormalizedEvent, Proto, RawRecord, Severity,
};
use crate::text::str_eq;

verus! {

broadcast use vstd::string::group_string_axioms;

/// The fields of a Falco alert that the conversion reads: the top-level
/// `priority` and, from `output_fields`, `proc.name`, `proc.pid`,
/// `proc.ppid`, `user.uid`, `evt.type`, `fd.name`, `fd.openflags` and
/// `fd.sport`. Each is `None` when absent or not of the expected JSON type
/// (a string, or an unsigned integer). `document` is the alert's JSON text,
/// kept as the event's raw record.
pub struct FalcoRecord {
    pub document: String,
    pub priority: Option<String>,
    pub proc_name: Option<String>,
    pub pid: Option<u64>,
    pub ppid: Option<u64>,
    pub uid: Option<u64>,
    pub evt_type: Option<String>,
    pub fd_name: Option<String>,
    pub fd_openflags: Option<u64>,
    pub fd_sport: Option<u64>,
}

/// Falco priorities onto severities: Emergency, Alert and Critical are
/// Critical; Error is High; Warning Medium; Notice Low; anything else Info.
pub open spec fn priority_severity(p: Seq<char>) -> Severity {
    if p == "Emergency"@ || p == "Alert"@ || p == "Critical"@ {
        Severity::Critical
    } else if p == "Error"@ {
        Severity::High
    } else if p == "Warning"@ {
        Severity::Medium
    } else if p == "Notice"@ {
        Severity::Low
    } else {
        Severity::Info
    }
}

pub fn falco_priority_to_severity(p: &str) -> (r: Severity)
    ensures
        r == priority_severity(p@),
{
    if str_eq(p, "Emergency") || str_eq(p, "Alert") || str_eq(p, "Critical") {
        Severity::Critical
    } else if str_eq(p, "Error") {
        Severity::High
    } else if str_eq(p, "Warning") {
        Severity::Medium
    } else if str_eq(p, "Notice") {
        Severity::Low
    } else {
        Severity::Info
    }
}

pub open spec fn text_or(o: Option<String>, default: Seq<char>) -> Seq<char> {
    match o {
        Some(s) => s@,
        None => default,
    }
}

pub open spec fn num_or(o: Option<u64>, default: u64) -> u64 {
    match o {
        Some(n) => n,
        None => default,
    }
}

/// Access flags from `open(2)` flags: reading unless write-only, writing
/// when write-only or read-write.
pub open spec fn open_flags(flags: u32) -> FileFlags {
    FileFlags { read: flags & 1 == 0, write: flags & 1 != 0 || flags & 2 != 0, execute: false }
}

pub fn flags_of(flags: u32) -> (r: FileFlags)
    ensures
        r == open_flags(flags),
{
    FileFlags { read: flags & 1 == 0, write: flags & 1 != 0 || flags & 2 != 0, execute: false }
}

/// The event kind of a Falco `evt.type`: execve/execveat are execs,
/// open/openat file accesses of `fd.name`, connect an outbound TCP
/// connection to `fd.sport`; anything else counts as an exec.
pub open spec fn falco_kind(t: EventType, r: FalcoRecord) -> bool {
    let evt = text_or(r.evt_type, seq![]);
    if evt == "openat"@ || evt == "open"@ {
        &&& t matches EventType::FileAccess { path, flags }
        &&& path@ == text_or(r.fd_name, seq![])
        &&& flags == open_flags(num_or(r.fd_openflags, 0) as u32)
    } else if evt == "connect"@ {
        &&& t matches EventType::Network { direction, remote_ip, port, proto }
        &&& direction == Direction::Outbound
        &&& remote_ip@ == "0.0.0.0"@
        &&& port == num_or(r.fd_sport, 0) as u16
        &&& proto == Proto::Tcp
    } else {
        t is Exec
    }
}

/// `e` is the event of the Falco alert `r`. Numbers keep their low bits;
/// a missing uid reads as 65534 and a missing priority as Informational.
pub open spec fn falco_event_of(e: NormalizedEvent, r: FalcoRecord, id: u64) -> bool {
    &&& fresh(e, id, EventSource::Falco)
    &&& bare_process(
        e.process,
        num_or(r.pid, 0) as u32,
        num_or(r.ppid, 0) as u32,
        num_or(r.uid, 65534) as u32,
        text_or(r.proc_name, seq![]),
    )
    &&& e.parent.is_none()
    &&& e.k8s.is_none()
    &&& e.raw == RawRecord::Json(r.document)
    &&& e.severity == priority_severity(text_or(r.priority, "Informational"@))
    &&& falco_kind(e.event_type, r)
}

fn text_of(o: &Option<String>) -> (r: String)
    ensures
        r@ == text_or(*o, seq![]),
{
    match o {
        Some(s) => s.clone(),
        None => String::new(),
    }
}

fn num_of(o: &Option<u64>, default: u64) -> (r: u64)
    ensures
        r == num_or(*o, default),
{
    match o {
        Some(n) => *n,
        None => default,
    }
}

/// The normalized event of a Falco alert.
pub fn falco_event(r: &FalcoRecord, id: u64) -> (e: NormalizedEvent)
    ensures
        falco_event_of(e, *r, id),
{
    proof {
        reveal_strlit("Informational");
        reveal_strlit("0.0.0.0");
    }
    let severity = match &r.priority {
        Some(p) => falco_priority_to_severity(p.as_str()),
        None => falco_priority_to_severity("Informational"),
    };
    let evt = text_of(&r.evt_type);
    let event_type = if str_eq(evt.as_str(), "openat") || str_eq(evt.as_str(), "open") {
        EventType::FileAccess {
            path: text_of(&r.fd_name),
            flags: flags_of(num_of(&r.fd_openflags, 0) as u32),
        }
    } else if str_eq(evt.as_str(), "connect") {
        EventType::Network {
            direction: Direction::Outbound,
            remote_ip: "0.0.0.0".to_string(),
            port: num_of(&r.fd_sport, 0) as u16,
            proto: Proto::Tcp,
        }
    } else {
        EventType::Exec
    };
    let process = bare_process_info(
        num_of(&r.pid, 0) as u32,
        num_of(&r.ppid, 0) as u32,
        num_of(&r.uid, 65534) as u32,
        text_of(&r.proc_name),
    );
    let raw = RawRecord::Json(r.document.clone());
    observed_event(id, EventSource::Falco, process, event_type, severity, raw)
}

} // verus!
