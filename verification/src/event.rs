//! The normalized event that every event source produces and every stage of
//! the pipeline reads.
use vstd::prelude::*;

verus! {

broadcast use vstd::string::group_string_axioms;

#[derive(Debug)]
pub struct NormalizedEvent {
    pub id: u64,
    pub timestamp: u64,
    pub source: EventSource,
    pub process: ProcessInfo,
    pub parent: Option<ProcessInfo>,
    pub event_type: EventType,
    pub severity: Severity,
    pub action: Action,
    pub rule_name: Option<String>,
    pub k8s: Option<K8sMeta>,
    pub raw: RawRecord,
}

/// The source record an event was built from, kept as it arrived: `Text`
/// holds a plain log line (auditd), `Json` the text of a JSON document
/// (Falco), and `Null` means that no record is kept (Tetragon).
#[derive(Debug)]
pub enum RawRecord {
    Null,
    Text(String),
    Json(String),
}

#[derive(Debug)]
pub struct ProcessInfo {
    pub pid: u32,
    pub ppid: u32,
    pub binary: String,
    pub args: Vec<String>,
    pub uid: u32,
    pub gid: u32,
    pub cwd: String,
}

/// What happened. `remote_ip` holds the textual form of the peer address.
#[derive(Debug)]
pub enum EventType {
    Exec,
    FileAccess { path: String, flags: FileFlags },
    Network { direction: Direction, remote_ip: String, port: u16, proto: Proto },
    Privilege { syscall: String, capability: Option<String> },
    Signal { signum: u32, target_pid: u32 },
}

#[derive(Debug, Clone, Copy, PartialEq, Eq, Structural)]
pub struct FileFlags {
    pub read: bool,
    pub write: bool,
    pub execute: bool,
}

#[derive(Debug, Clone, Copy, PartialEq, Eq, Structural)]
pub enum Direction {
    Inbound,
    Outbound,
}

#[derive(Debug, Clone, Copy, PartialEq, Eq, Structural)]
pub enum Proto {
    Tcp,
    Udp,
    Unknown,
}

/// Ordered from least to most severe.
#[derive(Debug, Clone, Copy, PartialEq, Eq, Structural)]
pub enum Severity {
    Info,
    Low,
    Medium,
    High,
    Critical,
}

#[derive(Debug, Clone, Copy, PartialEq, Eq, Structural)]
pub enum Action {
    Allowed,
    Blocked,
    Killed,
    Alerted,
    Logged,
}

/// Kubernetes metadata. `labels` holds the pod labels as (key, value) pairs;
/// a key is looked up at its first pair.
#[derive(Debug)]
pub struct K8sMeta {
    pub pod_name: String,
    pub namespace: String,
    pub node_name: String,
    pub container: ContainerInfo,
    pub labels: Vec<(String, String)>,
}

#[derive(Debug)]
pub struct ContainerInfo {
    pub id: String,
    pub name: String,
    pub image: String,
}

#[derive(Debug, Clone, Copy, PartialEq, Eq, Structural)]
pub enum EventSource {
    Tetragon,
    Falco,
    Auditd,
    NativeEbpf,
}

// ── Copies ──────────────────────────────────────────────────────────────

/// A copy of a list of strings.
pub fn copy_strings(v: &Vec<String>) -> (r: Vec<String>)
    ensures
        r@ == v@,
{
    let mut r: Vec<String> = Vec::new();
    let mut i: usize = 0;
    while i < v.len()
        invariant
            i <= v@.len(),
            r@ == v@.take(i as int),
        decreases v.len() - i,
    {
        r.push(v[i].clone());
        i += 1;
        assert(r@ =~= v@.take(i as int));
    }
    assert(v@.take(v@.len() as int) =~= v@);
    r
}

pub fn copy_opt_string(s: &Option<String>) -> (r: Option<String>)
    ensures
        r == *s,
{
    match s {
        Some(x) => Some(x.clone()),
        None => None,
    }
}

/// Two process records with the same contents.
pub open spec fn same_process(a: ProcessInfo, b: ProcessInfo) -> bool {
    &&& a.pid == b.pid
    &&& a.ppid == b.ppid
    &&& a.binary == b.binary
    &&& a.args@ == b.args@
    &&& a.uid == b.uid
    &&& a.gid == b.gid
    &&& a.cwd == b.cwd
}

/// Two K8s records with the same contents.
pub open spec fn same_k8s(a: K8sMeta, b: K8sMeta) -> bool {
    &&& a.pod_name == b.pod_name
    &&& a.namespace == b.namespace
    &&& a.node_name == b.node_name
    &&& a.container == b.container
    &&& a.labels@ == b.labels@
}

/// Two events with the same contents.
pub open spec fn same_event(a: NormalizedEvent, b: NormalizedEvent) -> bool {
    &&& a.id == b.id
    &&& a.timestamp == b.timestamp
    &&& a.source == b.source
    &&& same_process(a.process, b.process)
    &&& (a.parent is Some <==> b.parent is Some)
    &&& (a.parent is Some ==> same_process(a.parent->0, b.parent->0))
    &&& a.event_type == b.event_type
    &&& a.severity == b.severity
    &&& a.action == b.action
    &&& a.rule_name == b.rule_name
    &&& (a.k8s is Some <==> b.k8s is Some)
    &&& (a.k8s is Some ==> same_k8s(a.k8s->0, b.k8s->0))
    &&& a.raw == b.raw
}

impl Clone for ProcessInfo {
    fn clone(&self) -> (r: Self)
        ensures
            same_process(r, *self),
    {
        ProcessInfo {
            pid: self.pid,
            ppid: self.ppid,
            binary: self.binary.clone(),
            args: copy_strings(&self.args),
            uid: self.uid,
            gid: self.gid,
            cwd: self.cwd.clone(),
        }
    }
}

impl Clone for EventType {
    fn clone(&self) -> (r: Self)
        ensures
            r == *self,
    {
        match self {
            EventType::Exec => EventType::Exec,
            EventType::FileAccess { path, flags } => EventType::FileAccess {
                path: path.clone(),
                flags: *flags,
            },
            EventType::Network { direction, remote_ip, port, proto } => EventType::Network {
                direction: *direction,
                remote_ip: remote_ip.clone(),
                port: *port,
                proto: *proto,
            },
            EventType::Privilege { syscall, capability } => EventType::Privilege {
                syscall: syscall.clone(),
                capability: copy_opt_string(capability),
            },
            EventType::Signal { signum, target_pid } => EventType::Signal {
                signum: *signum,
                target_pid: *target_pid,
            },
        }
    }
}

pub fn copy_labels(v: &Vec<(String, String)>) -> (r: Vec<(String, String)>)
    ensures
        r@ == v@,
{
    let mut r: Vec<(String, String)> = Vec::new();
    let mut i: usize = 0;
    while i < v.len()
        invariant
            i <= v@.len(),
            r@ == v@.take(i as int),
        decreases v.len() - i,
    {
        let (k, val) = &v[i];
        r.push((k.clone(), val.clone()));
        i += 1;
        assert(r@ =~= v@.take(i as int));
    }
    assert(v@.take(v@.len() as int) =~= v@);
    r
}

impl Clone for K8sMeta {
    fn clone(&self) -> (r: Self)
        ensures
            same_k8s(r, *self),
    {
        K8sMeta {
            pod_name: self.pod_name.clone(),
            namespace: self.namespace.clone(),
            node_name: self.node_name.clone(),
            container: ContainerInfo {
                id: self.container.id.clone(),
                name: self.container.name.clone(),
                image: self.container.image.clone(),
            },
            labels: copy_labels(&self.labels),
        }
    }
}

impl Clone for RawRecord {
    fn clone(&self) -> (r: Self)
        ensures
            r == *self,
    {
        match self {
            RawRecord::Null => RawRecord::Null,
            RawRecord::Text(s) => RawRecord::Text(s.clone()),
            RawRecord::Json(s) => RawRecord::Json(s.clone()),
        }
    }
}

impl Clone for NormalizedEvent {
    fn clone(&self) -> (r: Self)
        ensures
            same_event(r, *self),
    {
        NormalizedEvent {
            id: self.id,
            timestamp: self.timestamp,
            source: self.source,
            process: self.process.clone(),
            parent: match &self.parent {
                Some(p) => Some(p.clone()),
                None => None,
            },
            event_type: self.event_type.clone(),
            severity: self.severity,
            action: self.action,
            rule_name: copy_opt_string(&self.rule_name),
            k8s: match &self.k8s {
                Some(k) => Some(k.clone()),
                None => None,
            },
            raw: self.raw.clone(),
        }
    }
}

// ── Names ───────────────────────────────────────────────────────────────

/// Rank of a severity: `Info` is 0, `Critical` is 4.
pub open spec fn severity_rank(s: Severity) -> nat {
    match s {
        Severity::Info => 0,
        Severity::Low => 1,
        Severity::Medium => 2,
        Severity::High => 3,
        Severity::Critical => 4,
    }
}

impl Severity {
    pub fn rank(&self) -> (r: u8)
        ensures
            r == severity_rank(*self),
    {
        match self {
            Severity::Info => 0,
            Severity::Low => 1,
            Severity::Medium => 2,
            Severity::High => 3,
            Severity::Critical => 4,
        }
    }

    /// The variant's name, as `{:?}` prints it.
    pub fn name(&self) -> (r: &'static str)
        ensures
            r@ == severity_name(*self),
    {
        match self {
            Severity::Info => "Info",
            Severity::Low => "Low",
            Severity::Medium => "Medium",
            Severity::High => "High",
            Severity::Critical => "Critical",
        }
    }
}

pub open spec fn severity_name(s: Severity) -> Seq<char> {
    match s {
        Severity::Info => "Info"@,
        Severity::Low => "Low"@,
        Severity::Medium => "Medium"@,
        Severity::High => "High"@,
        Severity::Critical => "Critical"@,
    }
}

pub open spec fn action_name(a: Action) -> Seq<char> {
    match a {
        Action::Allowed => "Allowed"@,
        Action::Blocked => "Blocked"@,
        Action::Killed => "Killed"@,
        Action::Alerted => "Alerted"@,
        Action::Logged => "Logged"@,
    }
}

impl Action {
    /// The variant's name, as `{:?}` prints it.
    pub fn name(&self) -> (r: &'static str)
        ensures
            r@ == action_name(*self),
    {
        match self {
            Action::Allowed => "Allowed",
            Action::Blocked => "Blocked",
            Action::Killed => "Killed",
            Action::Alerted => "Alerted",
            Action::Logged => "Logged",
        }
    }
}

/// Blocked, Alerted and Killed events are incidents.
pub open spec fn is_incident_action(a: Action) -> bool {
    a == Action::Blocked || a == Action::Alerted || a == Action::Killed
}

pub fn is_incident(a: Action) -> (r: bool)
    ensures
        r == is_incident_action(a),
{
    match a {
        Action::Blocked | Action::Alerted | Action::Killed => true,
        _ => false,
    }
}

pub open spec fn proto_name(p: Proto) -> Seq<char> {
    match p {
        Proto::Tcp => "Tcp"@,
        Proto::Udp => "Udp"@,
        Proto::Unknown => "Unknown"@,
    }
}

impl Proto {
    /// The variant's name, as `{:?}` prints it.
    pub fn name(&self) -> (r: &'static str)
        ensures
            r@ == proto_name(*self),
    {
        match self {
            Proto::Tcp => "Tcp",
            Proto::Udp => "Udp",
            Proto::Unknown => "Unknown",
        }
    }
}

pub open spec fn direction_name(d: Direction) -> Seq<char> {
    match d {
        Direction::Inbound => "Inbound"@,
        Direction::Outbound => "Outbound"@,
    }
}

impl Direction {
    /// The variant's name, as `{:?}` prints it.
    pub fn name(&self) -> (r: &'static str)
        ensures
            r@ == direction_name(*self),
    {
        match self {
            Direction::Inbound => "Inbound",
            Direction::Outbound => "Outbound",
        }
    }
}

} // verus!
