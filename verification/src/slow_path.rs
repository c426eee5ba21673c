//! The integer and text side of the slow path: stable vector-store point
//! ids, the text an event is embedded from, embedding dimensions, and the
//! escalation of an event that has no similar past behaviour.
use vstd::prelude::*;
use crate::event::{
    action_name, direction_name, proto_name, severity_name, severity_rank, Action, EventType,
    NormalizedEvent, ProcessInfo, Severity,
};
use crate::text::{decimal, push_char, push_decimal, push_str};

verus! {

broadcast use vstd::string::group_string_axioms;

pub const FNV_OFFSET_BASIS: u64 = 0xcbf2_9ce4_8422_2325;

pub const FNV_PRIME: u64 = 0x100_0000_01b3;

/// One FNV-1a step: xor in the byte, then multiply by the prime modulo 2^64.
pub open spec fn fnv1a_step(h: u64, b: u8) -> u64 {
    (((h ^ (b as u64)) as nat * FNV_PRIME as nat) % 0x1_0000_0000_0000_0000nat) as u64
}

/// FNV-1a of a byte string.
pub open spec fn fnv1a(bytes: Seq<u8>) -> u64
    decreases bytes.len(),
{
    if bytes.len() == 0 {
        FNV_OFFSET_BASIS
    } else {
        fnv1a_step(fnv1a(bytes.drop_last()), bytes.last())
    }
}

/// Deterministic 64-bit FNV-1a hash of the UTF-8 bytes of `s`, so that
/// vector-store point ids stay stable across restarts.
pub fn stable_id(s: &str) -> (h: u64)
    ensures
        h == fnv1a(vstd::utf8::encode_utf8(s@)),
{
    let bytes = s.as_bytes();
    let mut h: u64 = FNV_OFFSET_BASIS;
    let mut i: usize = 0;
    while i < bytes.len()
        invariant
            i <= bytes@.len(),
            bytes@ == vstd::utf8::encode_utf8(s@),
            h == fnv1a(bytes@.take(i as int)),
        decreases bytes.len() - i,
    {
        assert(bytes@.take(i + 1).drop_last() =~= bytes@.take(i as int));
        assert(bytes@.take(i + 1).last() == bytes@[i as int]);
        h = h ^ (bytes[i] as u64);
        h = h.wrapping_mul(FNV_PRIME);
        i += 1;
    }
    assert(bytes@.take(bytes@.len() as int) =~= bytes@);
    h
}

/// The empty string hashes to the offset basis.
pub proof fn lemma_stable_id_empty()
    ensures
        fnv1a(Seq::<u8>::empty()) == FNV_OFFSET_BASIS,
{
}

// ── Event text ──────────────────────────────────────────────────────────

/// Parts joined with `sep` between them.
pub open spec fn join(parts: Seq<Seq<char>>, sep: Seq<char>) -> Seq<char>
    decreases parts.len(),
{
    if parts.len() == 0 {
        seq![]
    } else if parts.len() == 1 {
        parts[0]
    } else {
        join(parts.drop_last(), sep) + sep + parts.last()
    }
}

/// The texts of a list of strings.
pub open spec fn texts(v: Seq<String>) -> Seq<Seq<char>> {
    v.map_values(|s: String| s@)
}

/// `rwx`-style access mode, each letter only when set.
pub open spec fn mode_text(read: bool, write: bool, execute: bool) -> Seq<char> {
    (if read {
        seq!['r']
    } else {
        seq![]
    }) + (if write {
        seq!['w']
    } else {
        seq![]
    }) + (if execute {
        seq!['x']
    } else {
        seq![]
    })
}

/// What happened, in words.
pub open spec fn kind_words(t: EventType) -> Seq<char> {
    match t {
        EventType::Exec => "exec"@,
        EventType::FileAccess { path, flags } => "file_access "@ + path@ + " mode="@ + mode_text(
            flags.read,
            flags.write,
            flags.execute,
        ),
        EventType::Network { direction, remote_ip, port, proto } => "net_"@ + direction_name(
            direction,
        ) + " "@ + proto_name(proto) + " "@ + remote_ip@ + ":"@ + decimal(port as nat),
        EventType::Privilege { syscall, capability } => "privilege "@ + syscall@ + " cap="@
            + match capability {
            Some(c) => c@,
            None => "none"@,
        },
        EventType::Signal { signum, target_pid } => "signal "@ + decimal(signum as nat)
            + " target_pid="@ + decimal(target_pid as nat),
    }
}

/// ` uid=<uid> proc=<binary>`.
pub open spec fn proc_text(p: ProcessInfo) -> Seq<char> {
    " uid="@ + decimal(p.uid as nat) + " proc="@ + p.binary@
}

/// ` args=[a, b, ...]` when there are arguments.
pub open spec fn args_text(args: Seq<String>) -> Seq<char> {
    if args.len() == 0 {
        seq![]
    } else {
        " args=["@ + join(texts(args), ", "@) + "]"@
    }
}

/// ` cwd=<dir>` when the working directory is known.
pub open spec fn cwd_text(cwd: Seq<char>) -> Seq<char> {
    if cwd.len() == 0 {
        seq![]
    } else {
        " cwd="@ + cwd
    }
}

/// ` parent=<binary>(pid=<pid>)` when the parent is known.
pub open spec fn parent_text(parent: Option<ProcessInfo>) -> Seq<char> {
    match parent {
        Some(p) => " parent="@ + p.binary@ + "(pid="@ + decimal(p.pid as nat) + ")"@,
        None => seq![],
    }
}

/// The text an event is embedded from: kind, uid, process, then arguments,
/// working directory and parent when present, then severity.
pub open spec fn event_text(e: NormalizedEvent) -> Seq<char> {
    kind_words(e.event_type) + proc_text(e.process) + args_text(e.process.args@) + cwd_text(
        e.process.cwd@,
    ) + parent_text(e.parent) + " severity="@ + severity_name(e.severity)
}

fn push_joined(out: &mut String, parts: &Vec<String>, sep: &str)
    ensures
        final(out)@ == old(out)@ + join(texts(parts@), sep@),
{
    let ghost start = old(out)@;
    let mut i: usize = 0;
    while i < parts.len()
        invariant
            i <= parts@.len(),
            out@ == start + join(texts(parts@.take(i as int)), sep@),
        decreases parts.len() - i,
    {
        proof {
            assert(texts(parts@.take(i + 1)).drop_last() =~= texts(parts@.take(i as int)));
            assert(texts(parts@.take(i + 1)).last() == parts@[i as int]@);
        }
        if i > 0 {
            push_str(out, sep);
        }
        push_str(out, parts[i].as_str());
        proof {
            if i == 0 {
                assert(texts(parts@.take(1)).len() == 1);
            }
            assert(out@ =~= start + join(texts(parts@.take(i + 1)), sep@));
        }
        i += 1;
    }
    assert(parts@.take(parts@.len() as int) =~= parts@);
}

fn push_kind_words(s: &mut String, t: &EventType)
    ensures
        final(s)@ == old(s)@ + kind_words(*t),
{
    let ghost start = old(s)@;
    match t {
        EventType::Exec => push_str(s, "exec"),
        EventType::FileAccess { path, flags } => {
            push_str(s, "file_access ");
            push_str(s, path.as_str());
            push_str(s, " mode=");
            if flags.read {
                push_char(s, 'r');
            }
            if flags.write {
                push_char(s, 'w');
            }
            if flags.execute {
                push_char(s, 'x');
            }
        },
        EventType::Network { direction, remote_ip, port, proto } => {
            push_str(s, "net_");
            push_str(s, direction.name());
            push_str(s, " ");
            push_str(s, proto.name());
            push_str(s, " ");
            push_str(s, remote_ip.as_str());
            push_str(s, ":");
            push_decimal(s, *port as u128);
        },
        EventType::Privilege { syscall, capability } => {
            push_str(s, "privilege ");
            push_str(s, syscall.as_str());
            push_str(s, " cap=");
            match capability {
                Some(c) => push_str(s, c.as_str()),
                None => push_str(s, "none"),
            }
        },
        EventType::Signal { signum, target_pid } => {
            push_str(s, "signal ");
            push_decimal(s, *signum as u128);
            push_str(s, " target_pid=");
            push_decimal(s, *target_pid as u128);
        },
    }
    assert(s@ =~= start + kind_words(*t));
}

fn push_proc_text(s: &mut String, p: &ProcessInfo)
    ensures
        final(s)@ == old(s)@ + proc_text(*p),
{
    let ghost start = old(s)@;
    push_str(s, " uid=");
    push_decimal(s, p.uid as u128);
    push_str(s, " proc=");
    push_str(s, p.binary.as_str());
    assert(s@ =~= start + proc_text(*p));
}

fn push_args_text(s: &mut String, args: &Vec<String>)
    ensures
        final(s)@ == old(s)@ + args_text(args@),
{
    let ghost start = old(s)@;
    if args.len() > 0 {
        push_str(s, " args=[");
        push_joined(s, args, ", ");
        push_str(s, "]");
    }
    assert(s@ =~= start + args_text(args@));
}

fn push_cwd_text(s: &mut String, cwd: &String)
    ensures
        final(s)@ == old(s)@ + cwd_text(cwd@),
{
    let ghost start = old(s)@;
    if !cwd.as_str().is_empty() {
        push_str(s, " cwd=");
        push_str(s, cwd.as_str());
    }
    assert(s@ =~= start + cwd_text(cwd@));
}

fn push_parent_text(s: &mut String, parent: &Option<ProcessInfo>)
    ensures
        final(s)@ == old(s)@ + parent_text(*parent),
{
    let ghost start = old(s)@;
    match parent {
        Some(p) => {
            push_str(s, " parent=");
            push_str(s, p.binary.as_str());
            push_str(s, "(pid=");
            push_decimal(s, p.pid as u128);
            push_str(s, ")");
        },
        None => {},
    }
    assert(s@ =~= start + parent_text(*parent));
}

/// The text an event is embedded from (see `event_text`).
pub fn event_to_text(e: &NormalizedEvent) -> (r: String)
    ensures
        r@ == event_text(*e),
{
    let mut s = String::new();
    push_kind_words(&mut s, &e.event_type);
    push_proc_text(&mut s, &e.process);
    push_args_text(&mut s, &e.process.args);
    push_cwd_text(&mut s, &e.process.cwd);
    push_parent_text(&mut s, &e.parent);
    push_str(&mut s, " severity=");
    push_str(&mut s, e.severity.name());
    assert(s@ =~= event_text(*e));
    s
}

// ── Embedding dimensions ────────────────────────────────────────────────

/// Dimension of the built-in character-hash embedding.
pub const LOCAL_DIM: usize = 64;

/// The deterministic embedding that needs no external service.
pub struct LocalEmbedder;

impl LocalEmbedder {
    pub fn dim(&self) -> (r: usize)
        ensures
            r == LOCAL_DIM,
    {
        LOCAL_DIM
    }
}

/// Embedding dimension of an OpenAI model: 3072 for
/// `text-embedding-3-large`, 1536 otherwise.
pub fn openai_dim(model: &str) -> (r: usize)
    ensures
        r == if model@ == "text-embedding-3-large"@ {
            3072usize
        } else {
            1536usize
        },
{
    let m = crate::text::chars_of(model);
    let large = crate::text::chars_of("text-embedding-3-large");
    if crate::text::chars_eq(&m, &large) {
        3072
    } else {
        1536
    }
}

/// Embedding dimension of a Voyage model: 512 for `voyage-3-lite`, 1024
/// otherwise.
pub fn voyage_dim(model: &str) -> (r: usize)
    ensures
        r == if model@ == "voyage-3-lite"@ {
            512usize
        } else {
            1024usize
        },
{
    if crate::text::str_eq(model, "voyage-3-lite") {
        512
    } else {
        1024
    }
}

// ── Escalation ──────────────────────────────────────────────────────────

/// The slow path runs on an event only when it is enabled, the vector store
/// is available, and the fast path did not already block it.
pub open spec fn analyzes(enabled: bool, available: bool, a: Action) -> bool {
    enabled && available && a != Action::Blocked
}

/// With the slow path enabled and its store available, every event that
/// the fast path did not block is analyzed, whatever its action; a blocked
/// event never is, and nothing is analyzed when the slow path is disabled
/// or its store unavailable.
pub proof fn lemma_analyzes_all_but_blocked(enabled: bool, available: bool, a: Action)
    ensures
        a != Action::Blocked ==> analyzes(true, true, a),
        analyzes(true, true, Action::Allowed),
        analyzes(true, true, Action::Logged),
        analyzes(true, true, Action::Alerted),
        analyzes(true, true, Action::Killed),
        !analyzes(enabled, available, Action::Blocked),
        !enabled ==> !analyzes(enabled, available, a),
        !available ==> !analyzes(enabled, available, a),
{
}

pub fn should_analyze(enabled: bool, available: bool, event: &NormalizedEvent) -> (r: bool)
    ensures
        r == analyzes(enabled, available, event.action),
{
    enabled && available && event.action != Action::Blocked
}

/// An allowed event with no similar past behaviour becomes Alerted, with at
/// least Medium severity; anything else is left as it is.
pub fn apply_anomaly(event: &mut NormalizedEvent, is_anomaly: bool)
    ensures
        (is_anomaly && old(event).action == Action::Allowed) ==> *final(event) == (NormalizedEvent {
            action: Action::Alerted,
            severity: if severity_rank(old(event).severity) < 2 {
                Severity::Medium
            } else {
                old(event).severity
            },
            ..*old(event)
        }),
        !(is_anomaly && old(event).action == Action::Allowed) ==> *final(event) == *old(event),
{
    if is_anomaly && event.action == Action::Allowed {
        event.action = Action::Alerted;
        if event.severity.rank() < 2 {
            event.severity = Severity::Medium;
        }
    }
}

} // verus!
