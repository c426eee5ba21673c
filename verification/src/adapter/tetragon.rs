//! Tetragon events: process execs and exits, kprobes and tracepoints, with
//! the process's pod when it runs in Kubernetes.
//!
//! The types below hold what the conversion reads of Tetragon's event
//! stream; the transport fills them in.
use vstd::prelude::*;
use crate::adapter::{fresh, next_id, EventIds};
use crate::event::{
    ContainerInfo, Direction, EventSource, EventType, FileFlags, K8sMeta, NormalizedEvent,
    ProcessInfo, Proto, RawRecord, Severity,
};
use crate::adapter::falco::{flags_of, open_flags};
use crate::text::{
    chars_of, contains, has_infix, has_prefix, push_str, starts_with, string_texts,
    whitespace_words, words,
};

verus! {

broadcast use vstd::string::group_string_axioms;

pub struct TetraPod {
    pub name: String,
    pub namespace: String,
}

pub struct TetraProcess {
    pub pid: Option<u32>,
    pub uid: Option<u32>,
    pub binary: String,
    /// The arguments as one space-separated text.
    pub arguments: String,
    pub cwd: String,
    pub pod: Option<TetraPod>,
}

/// A kprobe argument. `remote_ip` is the destination address in its
/// canonical text form, `None` when Tetragon's `daddr` is not an IP
/// address.
pub enum KprobeArg {
    File { path: String, flags: u32 },
    Sock { remote_ip: Option<String>, dport: u32 },
    Other,
}

pub enum TetraEvent {
    Exec { process: Option<TetraProcess>, parent: Option<TetraProcess> },
    Exit { process: Option<TetraProcess>, parent: Option<TetraProcess> },
    Kprobe {
        process: Option<TetraProcess>,
        parent: Option<TetraProcess>,
        function_name: String,
        args: Vec<KprobeArg>,
    },
    Tracepoint {
        process: Option<TetraProcess>,
        parent: Option<TetraProcess>,
        subsys: String,
        event: String,
    },
    Loader,
    Uprobe,
}

// ── Processes ───────────────────────────────────────────────────────────

/// `p` describes the Tetragon process `t`: a missing pid reads as 0, a
/// missing uid as 65534; the arguments are split at whitespace.
pub open spec fn process_of(p: ProcessInfo, t: TetraProcess) -> bool {
    &&& p.pid == match t.pid {
        Some(n) => n,
        None => 0,
    }
    &&& p.ppid == 0
    &&& p.uid == match t.uid {
        Some(n) => n,
        None => 65534,
    }
    &&& p.gid == 0
    &&& p.binary@ == t.binary@
    &&& string_texts(p.args@) == words(t.arguments@)
    &&& p.cwd@ == t.cwd@
}

pub fn process_info(p: &TetraProcess) -> (r: ProcessInfo)
    ensures
        process_of(r, *p),
{
    ProcessInfo {
        pid: match p.pid {
            Some(n) => n,
            None => 0,
        },
        ppid: 0,
        uid: match p.uid {
            Some(n) => n,
            None => 65534,
        },
        gid: 0,
        binary: p.binary.clone(),
        args: whitespace_words(p.arguments.as_str()),
        cwd: p.cwd.clone(),
    }
}

pub open spec fn parent_of(p: Option<ProcessInfo>, t: Option<TetraProcess>) -> bool {
    match (p, t) {
        (Some(a), Some(b)) => process_of(a, b),
        (None, None) => true,
        _ => false,
    }
}

fn parent_info(t: &Option<TetraProcess>) -> (r: Option<ProcessInfo>)
    ensures
        parent_of(r, *t),
{
    match t {
        Some(p) => Some(process_info(p)),
        None => None,
    }
}

/// Kubernetes metadata from the process's pod: present when the pod has a
/// name, with the pod's name and namespace and nothing else known.
pub open spec fn k8s_of(k: Option<K8sMeta>, t: TetraProcess) -> bool {
    match t.pod {
        Some(pod) if pod.name@.len() > 0 => {
            &&& k matches Some(m)
            &&& m.pod_name@ == pod.name@
            &&& m.namespace@ == pod.namespace@
            &&& m.node_name@.len() == 0
            &&& m.container.id@.len() == 0
            &&& m.container.name@.len() == 0
            &&& m.container.image@.len() == 0
            &&& m.labels@.len() == 0
        },
        _ => k.is_none(),
    }
}

pub fn k8s_from(p: &TetraProcess) -> (r: Option<K8sMeta>)
    ensures
        k8s_of(r, *p),
{
    match &p.pod {
        Some(pod) => {
            if pod.name.as_str().is_empty() {
                return None;
            }
            Some(
                K8sMeta {
                    pod_name: pod.name.clone(),
                    namespace: pod.namespace.clone(),
                    node_name: String::new(),
                    container: ContainerInfo {
                        id: String::new(),
                        name: String::new(),
                        image: String::new(),
                    },
                    labels: Vec::new(),
                },
            )
        },
        None => None,
    }
}

// ── Severity hints ──────────────────────────────────────────────────────

/// Paths whose access is itself suspicious.
pub open spec fn sensitive(path: Seq<char>) -> bool {
    ||| has_prefix(path, "/etc/shadow"@)
    ||| has_prefix(path, "/etc/sudoers"@)
    ||| has_prefix(path, "/etc/gshadow"@)
    ||| has_prefix(path, "/root/"@)
    ||| has_prefix(path, "/proc/keys"@)
}

pub fn is_sensitive(path: &str) -> (r: bool)
    ensures
        r == sensitive(path@),
{
    let v = chars_of(path);
    starts_with(&v, &chars_of("/etc/shadow")) || starts_with(&v, &chars_of("/etc/sudoers"))
        || starts_with(&v, &chars_of("/etc/gshadow")) || starts_with(&v, &chars_of("/root/"))
        || starts_with(&v, &chars_of("/proc/keys"))
}

/// Ports that common backdoors and tooling listen on.
pub open spec fn suspicious_port(port: u16) -> bool {
    port == 4444 || port == 1337 || port == 31337 || port == 9001 || port == 8888 || port == 6666
}

pub fn is_suspicious_port(port: u16) -> (r: bool)
    ensures
        r == suspicious_port(port),
{
    port == 4444 || port == 1337 || port == 31337 || port == 9001 || port == 8888 || port == 6666
}

// ── Kprobes ─────────────────────────────────────────────────────────────

/// The first file argument's path and flags.
pub open spec fn first_file(args: Seq<KprobeArg>) -> Option<(Seq<char>, u32)>
    decreases args.len(),
{
    if args.len() == 0 {
        None
    } else {
        match args[0] {
            KprobeArg::File { path, flags } => Some((path@, flags)),
            _ => first_file(args.drop_first()),
        }
    }
}

/// The first socket argument's peer address (0.0.0.0 when unparsed) and
/// destination port (its low 16 bits).
pub open spec fn first_sock(args: Seq<KprobeArg>) -> Option<(Seq<char>, u16)>
    decreases args.len(),
{
    if args.len() == 0 {
        None
    } else {
        match args[0] {
            KprobeArg::Sock { remote_ip, dport } => Some(
                (
                    match remote_ip {
                        Some(ip) => ip@,
                        None => "0.0.0.0"@,
                    },
                    dport as u16,
                ),
            ),
            _ => first_sock(args.drop_first()),
        }
    }
}

pub open spec fn is_file_probe(f: Seq<char>) -> bool {
    has_infix(f, "open"@) || has_infix(f, "vfs_read"@) || has_infix(f, "vfs_write"@)
}

pub open spec fn is_net_probe(f: Seq<char>) -> bool {
    has_infix(f, "connect"@) || has_infix(f, "tcp"@) || has_infix(f, "sock"@)
}

pub open spec fn is_priv_probe(f: Seq<char>) -> bool {
    has_infix(f, "cap_"@) || has_infix(f, "setuid"@) || has_infix(f, "ptrace"@)
}

/// The event kind of a kprobe, by the probed function's name: file
/// functions give a file access from the first file argument, network
/// functions an outbound TCP connection from the first socket argument,
/// capability, setuid and ptrace functions a privilege event named after
/// the function; anything else counts as an exec.
pub open spec fn kprobe_kind(t: EventType, f: Seq<char>, args: Seq<KprobeArg>) -> bool {
    if is_file_probe(f) {
        let (path, flags) = match first_file(args) {
            Some(x) => x,
            None => (seq![], 0u32),
        };
        &&& t matches EventType::FileAccess { path: p, flags: fl }
        &&& p@ == path
        &&& fl == open_flags(flags)
    } else if is_net_probe(f) {
        let (ip, port) = match first_sock(args) {
            Some(x) => x,
            None => ("0.0.0.0"@, 0u16),
        };
        &&& t matches EventType::Network { direction, remote_ip, port: pt, proto }
        &&& direction == Direction::Outbound
        &&& remote_ip@ == ip
        &&& pt == port
        &&& proto == Proto::Tcp
    } else if is_priv_probe(f) {
        &&& t matches EventType::Privilege { syscall, capability }
        &&& syscall@ == f
        &&& capability.is_none()
    } else {
        t is Exec
    }
}

proof fn lemma_first_file(args: Seq<KprobeArg>)
    ensures
        first_file(args) matches Some((path, flags)) ==> exists|i: int|
            0 <= i < args.len() && (#[trigger] args[i] matches KprobeArg::File { path: p, flags: fl }
                && p@ == path && fl == flags) && forall|j: int|
                0 <= j < i ==> !(#[trigger] args[j] is File),
        first_file(args) is None ==> forall|j: int| 0 <= j < args.len() ==> !(#[trigger] args[j] is File),
    decreases args.len(),
{
    if args.len() > 0 {
        let t = args.drop_first();
        lemma_first_file(t);
        match args[0] {
            KprobeArg::File { .. } => {
                assert(args[0] is File);
            },
            _ => {
                if first_file(t) is Some {
                    let (fp, ff) = first_file(t)->0;
                    let i = choose|i: int|
                        0 <= i < t.len() && (#[trigger] t[i] matches KprobeArg::File { path: p, flags: fl }
                            && p@ == fp && fl == ff) && forall|j: int|
                            0 <= j < i ==> !(#[trigger] t[j] is File);
                    assert(args[i + 1] == t[i]);
                    assert forall|j: int| 0 <= j < i + 1 implies !(#[trigger] args[j] is File) by {
                        if j > 0 {
                            assert(args[j] == t[j - 1]);
                        }
                    }
                } else {
                    assert forall|j: int| 0 <= j < args.len() implies !(#[trigger] args[j] is File) by {
                        if j > 0 {
                            assert(args[j] == t[j - 1]);
                        }
                    }
                }
            },
        }
    }
}

/// A kprobe on a file function (its name contains "vfs_write", "vfs_read"
/// or "open") is a file access of its first file argument: that
/// argument's path, read unless the write-only or read-write bit is set,
/// write when either is; without a file argument, of the empty path.
pub proof fn lemma_file_kprobe_is_file_access(t: EventType, f: Seq<char>, args: Seq<KprobeArg>)
    requires
        kprobe_kind(t, f, args),
        has_infix(f, "vfs_write"@) || has_infix(f, "vfs_read"@) || has_infix(f, "open"@),
    ensures
        t matches EventType::FileAccess { path, flags } && {
            &&& forall|i: int|
                0 <= i < args.len() && (forall|j: int| 0 <= j < i ==> !(#[trigger] args[j] is File))
                    ==> (#[trigger] args[i] matches KprobeArg::File { path: p, flags: fl } ==> {
                    &&& path@ == p@
                    &&& flags.read == (fl & 1 == 0)
                    &&& flags.write == (fl & 1 != 0 || fl & 2 != 0)
                    &&& !flags.execute
                })
            &&& (forall|j: int| 0 <= j < args.len() ==> !(#[trigger] args[j] is File)) ==> path@.len()
                == 0
        },
{
    lemma_first_file(args);
    if first_file(args) is Some {
        let (fp, ff) = first_file(args)->0;
        let w = choose|i: int|
            0 <= i < args.len() && (#[trigger] args[i] matches KprobeArg::File { path: p, flags: fl }
                && p@ == fp && fl == ff) && forall|j: int| 0 <= j < i ==> !(#[trigger] args[j] is File);
        assert forall|i: int|
            0 <= i < args.len() && (forall|j: int| 0 <= j < i ==> !(#[trigger] args[j] is File))
                && (#[trigger] args[i] is File) implies i == w by {
            if i < w {
                assert(!(args[i] is File));
            } else if w < i {
                assert(!(args[w] is File));
            }
        }
    }
}

fn find_file(args: &Vec<KprobeArg>) -> (r: (String, u32))
    ensures
        (r.0@, r.1) == match first_file(args@) {
            Some(x) => x,
            None => (seq![], 0u32),
        },
{
    let mut i: usize = 0;
    assert(args@.skip(0) =~= args@);
    while i < args.len()
        invariant
            i <= args@.len(),
            first_file(args@) == first_file(args@.skip(i as int)),
        decreases args.len() - i,
    {
        assert(args@.skip(i as int).drop_first() =~= args@.skip(i + 1));
        assert(args@.skip(i as int)[0] == args@[i as int]);
        match &args[i] {
            KprobeArg::File { path, flags } => {
                return (path.clone(), *flags);
            },
            _ => {},
        }
        i += 1;
    }
    (String::new(), 0)
}

fn find_sock(args: &Vec<KprobeArg>) -> (r: (String, u16))
    ensures
        (r.0@, r.1) == match first_sock(args@) {
            Some(x) => x,
            None => ("0.0.0.0"@, 0u16),
        },
{
    let mut i: usize = 0;
    assert(args@.skip(0) =~= args@);
    while i < args.len()
        invariant
            i <= args@.len(),
            first_sock(args@) == first_sock(args@.skip(i as int)),
        decreases args.len() - i,
    {
        assert(args@.skip(i as int).drop_first() =~= args@.skip(i + 1));
        assert(args@.skip(i as int)[0] == args@[i as int]);
        match &args[i] {
            KprobeArg::Sock { remote_ip, dport } => {
                let ip = match remote_ip {
                    Some(a) => a.clone(),
                    None => "0.0.0.0".to_string(),
                };
                return (ip, *dport as u16);
            },
            _ => {},
        }
        i += 1;
    }
    ("0.0.0.0".to_string(), 0)
}

fn has_text(f: &[char], p: &str) -> (r: bool)
    ensures
        r == has_infix(f@, p@),
{
    let v = chars_of(p);
    contains(f, v.as_slice())
}

/// The event kind of a kprobe on `func` with arguments `args`.
pub fn kprobe_event_type(func: &str, args: &Vec<KprobeArg>) -> (t: EventType)
    ensures
        kprobe_kind(t, func@, args@),
{
    let f = chars_of(func);
    if has_text(&f, "open") || has_text(&f, "vfs_read") || has_text(&f, "vfs_write") {
        let (path, flags) = find_file(args);
        return EventType::FileAccess { path, flags: flags_of(flags) };
    }
    if has_text(&f, "connect") || has_text(&f, "tcp") || has_text(&f, "sock") {
        let (remote_ip, port) = find_sock(args);
        return EventType::Network {
            direction: Direction::Outbound,
            remote_ip,
            port,
            proto: Proto::Tcp,
        };
    }
    if has_text(&f, "cap_") || has_text(&f, "setuid") || has_text(&f, "ptrace") {
        return EventType::Privilege { syscall: func.to_string(), capability: None };
    }
    EventType::Exec
}

/// Kprobe severity: sensitive file accesses are High, connections to
/// suspicious ports Medium, the rest Info.
pub open spec fn kprobe_severity(t: EventType) -> Severity {
    match t {
        EventType::FileAccess { path, .. } => if sensitive(path@) {
            Severity::High
        } else {
            Severity::Info
        },
        EventType::Network { port, .. } => if suspicious_port(port) {
            Severity::Medium
        } else {
            Severity::Info
        },
        _ => Severity::Info,
    }
}

fn kprobe_severity_of(t: &EventType) -> (r: Severity)
    ensures
        r == kprobe_severity(*t),
{
    match t {
        EventType::FileAccess { path, .. } => if is_sensitive(path.as_str()) {
            Severity::High
        } else {
            Severity::Info
        },
        EventType::Network { port, .. } => if is_suspicious_port(*port) {
            Severity::Medium
        } else {
            Severity::Info
        },
        _ => Severity::Info,
    }
}

// ── Conversion ──────────────────────────────────────────────────────────

/// `e` is a Tetragon event of process `p` with parent `parent`.
pub open spec fn tetra_base(
    e: NormalizedEvent,
    p: TetraProcess,
    parent: Option<TetraProcess>,
    id: u64,
) -> bool {
    &&& fresh(e, id, EventSource::Tetragon)
    &&& process_of(e.process, p)
    &&& parent_of(e.parent, parent)
    &&& k8s_of(e.k8s, p)
    &&& e.raw == RawRecord::Null
}

/// What a Tetragon event converts to, given the id it is numbered with:
/// nothing for events without a process and for loader and uprobe events;
/// otherwise an exec (Info), an exit as signal 0 to the exiting pid (Info),
/// a kprobe by `kprobe_kind` with `kprobe_severity`, or a tracepoint as a
/// privilege event `<subsys>/<event>` (Medium).
pub open spec fn converts(r: Option<NormalizedEvent>, ev: TetraEvent, id: u64) -> bool {
    match ev {
        TetraEvent::Exec { process, parent } => match process {
            Some(p) => r matches Some(e) && tetra_base(e, p, parent, id) && e.event_type is Exec
                && e.severity == Severity::Info,
            None => r.is_none(),
        },
        TetraEvent::Exit { process, parent } => match process {
            Some(p) => {
                &&& r matches Some(e)
                &&& tetra_base(e, p, parent, id)
                &&& e.event_type == EventType::Signal {
                    signum: 0,
                    target_pid: match p.pid {
                        Some(n) => n,
                        None => 0,
                    },
                }
                &&& e.severity == Severity::Info
            },
            None => r.is_none(),
        },
        TetraEvent::Kprobe { process, parent, function_name, args } => match process {
            Some(p) => {
                &&& r matches Some(e)
                &&& tetra_base(e, p, parent, id)
                &&& kprobe_kind(e.event_type, function_name@, args@)
                &&& e.severity == kprobe_severity(e.event_type)
            },
            None => r.is_none(),
        },
        TetraEvent::Tracepoint { process, parent, subsys, event } => match process {
            Some(p) => {
                &&& r matches Some(e)
                &&& tetra_base(e, p, parent, id)
                &&& e.event_type matches EventType::Privilege { syscall, capability }
                &&& syscall@ == subsys@ + "/"@ + event@
                &&& capability.is_none()
                &&& e.severity == Severity::Medium
            },
            None => r.is_none(),
        },
        TetraEvent::Loader => r.is_none(),
        TetraEvent::Uprobe => r.is_none(),
    }
}

fn tetra_event(
    p: &TetraProcess,
    parent: &Option<TetraProcess>,
    id: u64,
    event_type: EventType,
    severity: Severity,
) -> (e: NormalizedEvent)
    ensures
        tetra_base(e, *p, *parent, id),
        e.event_type == event_type,
        e.severity == severity,
{
    NormalizedEvent {
        id,
        timestamp: 0,
        source: EventSource::Tetragon,
        process: process_info(p),
        parent: parent_info(parent),
        event_type,
        severity,
        action: crate::event::Action::Allowed,
        rule_name: None,
        k8s: k8s_from(p),
        raw: RawRecord::Null,
    }
}

/// Converts one Tetragon event, numbering it from `ids`; an id is used up
/// only when an event comes out.
pub fn convert_response(ev: &TetraEvent, ids: &mut EventIds) -> (r: Option<NormalizedEvent>)
    ensures
        converts(r, *ev, old(ids).peek()),
        r.is_some() ==> final(ids).peek() == if old(ids).peek() == u64::MAX {
            0
        } else {
            (old(ids).peek() + 1) as u64
        },
        r.is_none() ==> final(ids).peek() == old(ids).peek(),
{
    proof {
        reveal_strlit("/");
    }
    match ev {
        TetraEvent::Exec { process, parent } => match process {
            Some(p) => {
                let id = next_id(ids);
                Some(tetra_event(p, parent, id, EventType::Exec, Severity::Info))
            },
            None => None,
        },
        TetraEvent::Exit { process, parent } => match process {
            Some(p) => {
                let id = next_id(ids);
                let target_pid = match p.pid {
                    Some(n) => n,
                    None => 0,
                };
                Some(
                    tetra_event(
                        p,
                        parent,
                        id,
                        EventType::Signal { signum: 0, target_pid },
                        Severity::Info,
                    ),
                )
            },
            None => None,
        },
        TetraEvent::Kprobe { process, parent, function_name, args } => match process {
            Some(p) => {
                let id = next_id(ids);
                let event_type = kprobe_event_type(function_name.as_str(), args);
                let severity = kprobe_severity_of(&event_type);
                Some(tetra_event(p, parent, id, event_type, severity))
            },
            None => None,
        },
        TetraEvent::Tracepoint { process, parent, subsys, event } => match process {
            Some(p) => {
                let id = next_id(ids);
                let mut syscall = String::new();
                push_str(&mut syscall, subsys.as_str());
                push_str(&mut syscall, "/");
                push_str(&mut syscall, event.as_str());
                assert(syscall@ =~= subsys@ + "/"@ + event@);
                Some(
                    tetra_event(
                        p,
                        parent,
                        id,
                        EventType::Privilege { syscall, capability: None },
                        Severity::Medium,
                    ),
                )
            },
            None => None,
        },
        TetraEvent::Loader => None,
        TetraEvent::Uprobe => None,
    }
}

} // verus!
