//! Incident records: the line appended to the incident log for every event
//! that the pipeline blocked, alerted on or killed.
use vstd::prelude::*;
use crate::event::{
    action_name, is_incident_action, proto_name, Action, EventType, NormalizedEvent,
};
use crate::text::{decimal, push_decimal, push_str};

verus! {

broadcast use vstd::string::group_string_axioms;

/// One line of the incident log.
pub struct IncidentRecord {
    pub timestamp: u64,
    pub pid: u32,
    pub ppid: u32,
    pub uid: u32,
    pub binary: String,
    pub event_type: String,
    pub rule: Option<String>,
    pub action: String,
}

/// The event kind with its most telling detail: `Exec`,
/// `FileAccess:<path>`, `Network:<proto>:<port>`, `Privilege:<syscall>` or
/// `Signal:<signum>`.
pub open spec fn incident_kind(t: EventType) -> Seq<char> {
    match t {
        EventType::Exec => "Exec"@,
        EventType::FileAccess { path, .. } => "FileAccess:"@ + path@,
        EventType::Network { port, proto, .. } => "Network:"@ + proto_name(proto) + ":"@ + decimal(
            port as nat,
        ),
        EventType::Privilege { syscall, .. } => "Privilege:"@ + syscall@,
        EventType::Signal { signum, .. } => "Signal:"@ + decimal(signum as nat),
    }
}

/// `r` is the incident record of `e`.
pub open spec fn records(r: IncidentRecord, e: NormalizedEvent) -> bool {
    &&& r.timestamp == e.timestamp
    &&& r.pid == e.process.pid
    &&& r.ppid == e.process.ppid
    &&& r.uid == e.process.uid
    &&& r.binary@ == e.process.binary@
    &&& r.event_type@ == incident_kind(e.event_type)
    &&& r.action@ == action_name(e.action)
    &&& match (r.rule, e.rule_name) {
        (Some(a), Some(b)) => a@ == b@,
        (None, None) => true,
        _ => false,
    }
}

/// The incident-kind text of an event type.
pub fn incident_kind_text(t: &EventType) -> (r: String)
    ensures
        r@ == incident_kind(*t),
{
    let mut s = String::new();
    match t {
        EventType::Exec => push_str(&mut s, "Exec"),
        EventType::FileAccess { path, .. } => {
            push_str(&mut s, "FileAccess:");
            push_str(&mut s, path.as_str());
        },
        EventType::Network { port, proto, .. } => {
            push_str(&mut s, "Network:");
            push_str(&mut s, proto.name());
            push_str(&mut s, ":");
            push_decimal(&mut s, *port as u128);
        },
        EventType::Privilege { syscall, .. } => {
            push_str(&mut s, "Privilege:");
            push_str(&mut s, syscall.as_str());
        },
        EventType::Signal { signum, .. } => {
            push_str(&mut s, "Signal:");
            push_decimal(&mut s, *signum as u128);
        },
    }
    assert(s@ =~= incident_kind(*t));
    s
}

/// The record to log for an event: `Some` exactly for Blocked, Alerted and
/// Killed events; allowed and merely logged events leave no incident.
pub fn incident_record(e: &NormalizedEvent) -> (r: Option<IncidentRecord>)
    ensures
        r.is_some() <==> is_incident_action(e.action),
        r matches Some(rec) ==> records(rec, *e),
{
    match e.action {
        Action::Blocked | Action::Alerted | Action::Killed => {},
        _ => {
            return None;
        },
    }
    let mut action = String::new();
    push_str(&mut action, e.action.name());
    assert(action@ =~= action_name(e.action));
    let rule = match &e.rule_name {
        Some(n) => Some(n.clone()),
        None => None,
    };
    Some(
        IncidentRecord {
            timestamp: e.timestamp,
            pid: e.process.pid,
            ppid: e.process.ppid,
            uid: e.process.uid,
            binary: e.process.binary.clone(),
            event_type: incident_kind_text(&e.event_type),
            rule,
            action,
        },
    )
}

} // verus!
