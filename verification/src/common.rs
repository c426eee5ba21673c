//! The records that the kernel probes hand to user space through the ring
//! buffer, and the decisions the probes make on them.
//!
//! In the kernel these records are fixed C layouts whose payload is a union
//! selected by the kind; here the payload is an enum that carries its kind.
use vstd::prelude::*;

verus! {

/// Raw event passed from the kernel to user space.
pub struct RawEvent {
    pub kind: EventKind,
    /// Nanoseconds since boot.
    pub timestamp: u64,
    pub pid: u32,
    pub ppid: u32,
    pub uid: u32,
    pub gid: u32,
    /// Process name, NUL-terminated unless it fills the field.
    pub comm: [u8; 64],
    pub payload: EventPayload,
    /// 1 when the kernel already took blocking action (SIGKILL or EPERM).
    pub blocked: u8,
    pub _pad: [u8; 7],
}

#[derive(Debug, Clone, Copy, PartialEq, Eq, Structural)]
pub enum EventKind {
    Exec,
    FileOpen,
    NetConnect,
    Privilege,
}

/// The per-kind payload.
pub enum EventPayload {
    Exec(ExecPayload),
    File(FilePayload),
    Net(NetPayload),
    Privilege(PrivilegePayload),
}

pub struct ExecPayload {
    pub filename: [u8; 256],
    /// Space-joined arguments.
    pub argv: [u8; 512],
}

pub struct FilePayload {
    pub path: [u8; 256],
    /// `O_RDONLY`, `O_WRONLY`, `O_RDWR`, ...
    pub flags: u32,
}

#[derive(Debug, Clone, Copy)]
pub struct NetPayload {
    /// IPv4 address, big-endian.
    pub dst_ip: u32,
    pub dst_port: u16,
    /// 6 for TCP, 17 for UDP.
    pub proto: u8,
    pub _pad: u8,
}

#[derive(Debug, Clone, Copy)]
pub struct PrivilegePayload {
    pub syscall_nr: u32,
    /// Capability bit mask.
    pub cap: u64,
}

/// Index of the first NUL byte, or the length when there is none.
pub open spec fn nul_end(b: Seq<u8>) -> nat
    decreases b.len(),
{
    if b.len() == 0 {
        0
    } else if b[0] == 0 {
        0
    } else {
        1 + nul_end(b.drop_first())
    }
}

proof fn lemma_nul_end(b: Seq<u8>, i: int)
    requires
        0 <= i <= b.len(),
        forall|j: int| 0 <= j < i ==> b[j] != 0,
        i == b.len() || b[i] == 0,
    ensures
        nul_end(b) == i,
    decreases i,
{
    if i > 0 {
        assert forall|j: int| 0 <= j < i - 1 implies b.drop_first()[j] != 0 by {
            assert(b.drop_first()[j] == b[j + 1]);
        }
        if i < b.len() {
            assert(b.drop_first()[i - 1] == b[i]);
        }
        lemma_nul_end(b.drop_first(), i - 1);
    }
}

/// The process name: the bytes before the first NUL decoded as UTF-8, or
/// `<invalid>` when they are not UTF-8.
pub open spec fn comm_text(comm: Seq<u8>) -> Seq<char> {
    let b = comm.take(nul_end(comm) as int);
    if vstd::utf8::valid_utf8(b) {
        vstd::utf8::decode_utf8(b)
    } else {
        "<invalid>"@
    }
}

/// `core::str::from_utf8(bytes).ok()`: text exactly when the bytes are
/// UTF-8, decoded.
#[verifier::external_body]
fn utf8_str(bytes: &[u8]) -> (r: Option<&str>)
    ensures
        r.is_some() == vstd::utf8::valid_utf8(bytes@),
        r matches Some(s) ==> s@ == vstd::utf8::decode_utf8(bytes@),
{
    core::str::from_utf8(bytes).ok()
}

impl RawEvent {
    /// The process name (see `comm_text`).
    pub fn comm_str(&self) -> (r: &str)
        ensures
            r@ == comm_text(self.comm@),
    {
        let b: &[u8] = self.comm.as_slice();
        let mut end: usize = 0;
        while end < b.len() && b[end] != 0
            invariant
                end <= b@.len(),
                b@ == self.comm@,
                forall|j: int| 0 <= j < end ==> b@[j] != 0,
            decreases b.len() - end,
        {
            end += 1;
        }
        proof {
            lemma_nul_end(b@, end as int);
        }
        let head = &b[0..end];
        assert(head@ =~= b@.take(end as int));
        match utf8_str(head) {
            Some(s) => s,
            None => {
                proof {
                    reveal_strlit("<invalid>");
                }
                "<invalid>"
            },
        }
    }
}

// ── Probe decisions ─────────────────────────────────────────────────────

/// The two 32-bit halves of a helper's packed result (high, low): pid and
/// thread id of `bpf_get_current_pid_tgid`, gid and uid of
/// `bpf_get_current_uid_gid`.
pub fn split_halves(x: u64) -> (r: (u32, u32))
    ensures
        r.0 == x / 0x1_0000_0000,
        r.1 == x % 0x1_0000_0000,
{
    let hi = (x >> 32u64) as u32;
    let lo = (x & 0xFFFF_FFFFu64) as u32;
    assert(x >> 32u64 == x / 0x1_0000_0000) by (bit_vector);
    assert(x & 0xFFFF_FFFFu64 == x % 0x1_0000_0000) by (bit_vector);
    (hi, lo)
}

/// An exec is stopped when the caller's name or its uid is blocklisted.
pub fn exec_blocked(comm_listed: bool, uid_listed: bool) -> (r: bool)
    ensures
        r == (comm_listed || uid_listed),
{
    comm_listed || uid_listed
}

/// The LSM exec hook's answer: `-1` (EPERM) for a blocked caller, else 0.
pub fn exec_verdict(comm_listed: bool, uid_listed: bool) -> (r: i32)
    ensures
        r == if comm_listed || uid_listed {
            -1i32
        } else {
            0i32
        },
{
    if comm_listed {
        return -1;
    }
    if uid_listed {
        return -1;
    }
    0
}

/// Where a `connect(2)` goes: the address family as 4 or 6, the
/// destination port, and the address bytes (IPv4 in the first four).
pub struct ConnectTarget {
    pub family: u8,
    pub port: u16,
    pub addr: [u8; 16],
}

pub open spec fn connect_family(sa: Seq<u8>) -> u16 {
    (sa[0] as int + sa[1] as int * 256) as u16
}

pub open spec fn connect_port(sa: Seq<u8>) -> u16 {
    (sa[2] as int * 256 + sa[3] as int) as u16
}

/// The destination of a `sockaddr_in` or `sockaddr_in6` as read from user
/// memory (28 bytes; the family in host order, little-endian here, the
/// port in network order). Other families give nothing.
pub open spec fn connect_target(t: Option<ConnectTarget>, sa: Seq<u8>) -> bool {
    let family = connect_family(sa);
    if family == 2 {
        &&& t matches Some(c)
        &&& c.family == 4
        &&& c.port == connect_port(sa)
        &&& forall|i: int| 0 <= i < 4 ==> c.addr@[i] == sa[4 + i]
        &&& forall|i: int| 4 <= i < 16 ==> c.addr@[i] == 0
    } else if family == 10 {
        &&& t matches Some(c)
        &&& c.family == 6
        &&& c.port == connect_port(sa)
        &&& forall|i: int| 0 <= i < 16 ==> c.addr@[i] == sa[8 + i]
    } else {
        t is None
    }
}

pub fn parse_sockaddr(sa: &[u8; 28]) -> (r: Option<ConnectTarget>)
    ensures
        connect_target(r, sa@),
{
    let family: u16 = sa[0] as u16 + sa[1] as u16 * 256;
    let port: u16 = sa[2] as u16 * 256 + sa[3] as u16;
    let mut addr: [u8; 16] = [0u8; 16];
    if family == 2 {
        let mut i: usize = 0;
        while i < 4
            invariant
                i <= 4,
                forall|j: int| 0 <= j < i ==> addr@[j] == sa@[4 + j],
                forall|j: int| 4 <= j < 16 ==> addr@[j] == 0,
            decreases 4 - i,
        {
            addr[i] = sa[4 + i];
            i += 1;
        }
        Some(ConnectTarget { family: 4, port, addr })
    } else if family == 10 {
        let mut i: usize = 0;
        while i < 16
            invariant
                i <= 16,
                forall|j: int| 0 <= j < i ==> addr@[j] == sa@[8 + j],
            decreases 16 - i,
        {
            addr[i] = sa[8 + i];
            i += 1;
        }
        Some(ConnectTarget { family: 6, port, addr })
    } else {
        None
    }
}

/// Whether `port` is on the kernel's blocked-port list.
pub fn port_blocked(port: u16, blocked_ports: &[u16]) -> (r: bool)
    ensures
        r == blocked_ports@.contains(port),
{
    let mut i: usize = 0;
    while i < blocked_ports.len()
        invariant
            i <= blocked_ports@.len(),
            forall|j: int| 0 <= j < i ==> blocked_ports@[j] != port,
        decreases blocked_ports.len() - i,
    {
        if blocked_ports[i] == port {
            assert(blocked_ports@[i as int] == port);
            return true;
        }
        i += 1;
    }
    false
}

/// The connect hook's decision on one `connect(2)`: calls to other than an
/// IPv4 or IPv6 address are let through unrecorded; any other call is
/// recorded with its destination, and the caller is killed (SIGKILL) exactly
/// when the destination port is on the blocked-port list.
pub fn connect_verdict(sa: &[u8; 28], blocked_ports: &[u16]) -> (r: Option<(ConnectTarget, bool)>)
    ensures
        r is None <==> (connect_family(sa@) != 2 && connect_family(sa@) != 10),
        r matches Some((c, kill)) ==> {
            &&& connect_target(Some(c), sa@)
            &&& kill == blocked_ports@.contains(c.port)
        },
{
    match parse_sockaddr(sa) {
        Some(c) => {
            let kill = port_blocked(c.port, blocked_ports);
            Some((c, kill))
        },
        None => None,
    }
}

} // verus!
