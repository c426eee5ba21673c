//! Event sources: what the adapters share, and the conversion of each
//! source's records into normalized events.
pub mod auditd;
pub mod falco;
pub mod tetragon;

use vstd::prelude::*;
use crate::event::{
    Action, EventSource, EventType, NormalizedEvent, ProcessInfo, RawRecord, Severity,
};

verus! {

broadcast use vstd::string::group_string_axioms;

pub open spec fn source_name(s: EventSource) -> Seq<char> {
    match s {
        EventSource::Tetragon => "tetragon"@,
        EventSource::Falco => "falco"@,
        EventSource::Auditd => "auditd"@,
        EventSource::NativeEbpf => "native_ebpf"@,
    }
}

impl EventSource {
    /// The source's name in logs.
    pub fn name(&self) -> (r: &'static str)
        ensures
            r@ == source_name(*self),
    {
        match self {
            EventSource::Tetragon => "tetragon",
            EventSource::Falco => "falco",
            EventSource::Auditd => "auditd",
            EventSource::NativeEbpf => "native_ebpf",
        }
    }
}

/// A source's event-id counter: ids are handed out in order, wrapping at
/// `u64::MAX`.
pub struct EventIds {
    next: u64,
}

impl EventIds {
    /// The id that the next call of `next_id` hands out.
    pub closed spec fn peek(&self) -> u64 {
        self.next
    }

    pub fn new() -> (r: EventIds)
        ensures
            r.peek() == 0,
    {
        EventIds { next: 0 }
    }
}

/// Hands out the next id (a relaxed `fetch_add(1)`).
pub fn next_id(ids: &mut EventIds) -> (r: u64)
    ensures
        r == old(ids).peek(),
        final(ids).peek() == if old(ids).peek() == u64::MAX {
            0
        } else {
            (old(ids).peek() + 1) as u64
        },
{
    let r = ids.next;
    ids.next = ids.next.wrapping_add(1);
    r
}

/// `e` is a freshly observed event: nothing has judged it yet, and it has
/// no time stamp, parent, rule or Kubernetes metadata.
pub open spec fn fresh(e: NormalizedEvent, id: u64, source: EventSource) -> bool {
    &&& e.id == id
    &&& e.timestamp == 0
    &&& e.source == source
    &&& e.action == Action::Allowed
    &&& e.rule_name.is_none()
}

/// A bare process description: only the given fields are known.
pub open spec fn bare_process(p: ProcessInfo, pid: u32, ppid: u32, uid: u32, binary: Seq<char>) -> bool {
    &&& p.pid == pid
    &&& p.ppid == ppid
    &&& p.uid == uid
    &&& p.gid == 0
    &&& p.binary@ == binary
    &&& p.args@.len() == 0
    &&& p.cwd@.len() == 0
}

pub fn bare_process_info(pid: u32, ppid: u32, uid: u32, binary: String) -> (p: ProcessInfo)
    ensures
        bare_process(p, pid, ppid, uid, binary@),
{
    ProcessInfo { pid, ppid, uid, gid: 0, binary, args: Vec::new(), cwd: String::new() }
}

/// A freshly observed event with neither parent nor Kubernetes metadata.
pub fn observed_event(
    id: u64,
    source: EventSource,
    process: ProcessInfo,
    event_type: EventType,
    severity: Severity,
    raw: RawRecord,
) -> (e: NormalizedEvent)
    ensures
        fresh(e, id, source),
        e.raw == raw,
        e.process == process,
        e.event_type == event_type,
        e.severity == severity,
        e.parent.is_none(),
        e.k8s.is_none(),
{
    NormalizedEvent {
        id,
        timestamp: 0,
        source,
        process,
        parent: None,
        event_type,
        severity,
        action: Action::Allowed,
        rule_name: None,
        k8s: None,
        raw,
    }
}

} // verus!
