//! auditd SYSCALL records: `key=value` fields separated by whitespace.
use vstd::prelude::*;
use crate::adapter::{bare_process, bare_process_info, fresh, observed_event};
use crate::event::{
    Direction, EventSource, EventType, FileFlags, NormalizedEvent, Proto, RawRecord, Severity,
};
use crate::text::{
    chars_of, contains, copy_range, decimal, decimal_string, find_char, has_infix, parse_u32,
    parsed_u32, split_once, split_words, string_of, trim, trim_char, trim_char_chars, trim_chars,
    vec_texts, words,
};

verus! {

broadcast use vstd::string::group_string_axioms;

/// The `key=value` pairs among the words, in order: each word split at its
/// first `=`; words without one are skipped.
pub open spec fn kv_pairs(ws: Seq<Seq<char>>) -> Seq<(Seq<char>, Seq<char>)>
    decreases ws.len(),
{
    if ws.len() == 0 {
        seq![]
    } else {
        let rest = kv_pairs(ws.drop_last());
        match split_once(ws.last(), '=') {
            Some(p) => rest.push(p),
            None => rest,
        }
    }
}

pub open spec fn pair_views(v: Seq<(String, String)>) -> Seq<(Seq<char>, Seq<char>)> {
    v.map_values(|p: (String, String)| (p.0@, p.1@))
}

/// The value of `key`: that of its last pair, as when the pairs are
/// inserted into a map in order.
pub open spec fn kv_lookup(ps: Seq<(Seq<char>, Seq<char>)>, key: Seq<char>) -> Option<Seq<char>>
    decreases ps.len(),
{
    if ps.len() == 0 {
        None
    } else if ps.last().0 == key {
        Some(ps.last().1)
    } else {
        kv_lookup(ps.drop_last(), key)
    }
}

pub open spec fn opt_text(o: Option<String>) -> Option<Seq<char>> {
    match o {
        Some(s) => Some(s@),
        None => None,
    }
}

fn parse_kv_chars(v: &[char]) -> (r: Vec<(String, String)>)
    ensures
        pair_views(r@) == kv_pairs(words(v@)),
{
    let ws = split_words(v);
    let ghost all = words(v@);
    let mut out: Vec<(String, String)> = Vec::new();
    let mut j: usize = 0;
    while j < ws.len()
        invariant
            vec_texts(ws@) == all,
            j <= ws@.len(),
            pair_views(out@) == kv_pairs(all.take(j as int)),
        decreases ws.len() - j,
    {
        let w = &ws[j];
        proof {
            assert(all.take(j + 1).drop_last() =~= all.take(j as int));
            assert(all.take(j + 1).last() == w@);
        }
        let i = find_char(w.as_slice(), '=');
        if i < w.len() {
            let k = string_of(copy_range(w.as_slice(), 0, i).as_slice());
            let val = string_of(copy_range(w.as_slice(), i + 1, w.len()).as_slice());
            let ghost before = pair_views(out@);
            proof {
                assert(w@.subrange(0, i as int) =~= w@.take(i as int));
                assert(w@.subrange(i + 1, w@.len() as int) =~= w@.skip(i + 1));
            }
            out.push((k, val));
            assert(pair_views(out@) =~= before.push((k@, val@)));
        }
        j += 1;
    }
    assert(all.take(ws@.len() as int) =~= all);
    out
}

/// The `key=value` pairs of an auditd line, in order (each whitespace-
/// separated word split at its first `=`).
pub fn parse_kv(line: &str) -> (r: Vec<(String, String)>)
    ensures
        pair_views(r@) == kv_pairs(words(line@)),
{
    let v = chars_of(line);
    parse_kv_chars(v.as_slice())
}

/// The value of `key` among the pairs (the last one, as a map keeps it).
pub fn kv_get(pairs: &Vec<(String, String)>, key: &str) -> (r: Option<String>)
    ensures
        opt_text(r) == kv_lookup(pair_views(pairs@), key@),
{
    let ghost ps = pair_views(pairs@);
    let k = key.to_string();
    let mut i: usize = pairs.len();
    assert(ps.take(i as int) =~= ps);
    while i > 0
        invariant
            i <= pairs@.len(),
            ps == pair_views(pairs@),
            k@ == key@,
            kv_lookup(ps, key@) == kv_lookup(ps.take(i as int), key@),
        decreases i,
    {
        proof {
            assert(ps.take(i as int).drop_last() =~= ps.take(i - 1));
            assert(ps.take(i as int).last() == ps[i - 1]);
        }
        if pairs[i - 1].0 == k {
            return Some(pairs[i - 1].1.clone());
        }
        i -= 1;
    }
    assert(ps.take(0) =~= Seq::<(Seq<char>, Seq<char>)>::empty());
    None
}

/// The text between surrounding double quotes (`trim_matches('"')`).
pub fn unquote(s: &str) -> (r: String)
    ensures
        r@ == trim_char(s@, '"'),
{
    let v = chars_of(s);
    string_of(trim_char_chars(v.as_slice(), '"').as_slice())
}

/// The value of a field of an auditd line.
pub open spec fn field(line: Seq<char>, key: Seq<char>) -> Option<Seq<char>> {
    kv_lookup(kv_pairs(words(line)), key)
}

/// A numeric field, or `default` when it is missing or not a `u32`.
pub open spec fn field_u32(line: Seq<char>, key: Seq<char>, default: u32) -> u32 {
    match field(line, key) {
        Some(v) => match parsed_u32(v) {
            Some(n) => n,
            None => default,
        },
        None => default,
    }
}

/// A text field without its quotes, or empty when missing.
pub open spec fn field_text(line: Seq<char>, key: Seq<char>) -> Seq<char> {
    match field(line, key) {
        Some(v) => trim_char(v, '"'),
        None => seq![],
    }
}

/// The event kind of an x86_64 syscall number: execve/execveat are execs,
/// open/openat file reads of the executable's path, connect/accept4
/// outbound TCP connections to an unknown peer, anything else a privilege
/// event named by its number.
pub open spec fn syscall_kind(t: EventType, nr: u32, exe: Seq<char>) -> bool {
    if nr == 59 || nr == 322 {
        t is Exec
    } else if nr == 2 || nr == 257 {
        &&& t matches EventType::FileAccess { path, flags }
        &&& path@ == exe
        &&& flags == (FileFlags { read: true, write: false, execute: false })
    } else if nr == 42 || nr == 288 {
        &&& t matches EventType::Network { direction, remote_ip, port, proto }
        &&& direction == Direction::Outbound
        &&& remote_ip@ == "0.0.0.0"@
        &&& port == 0
        &&& proto == Proto::Tcp
    } else {
        &&& t matches EventType::Privilege { syscall, capability }
        &&& syscall@ == decimal(nr as nat)
        &&& capability.is_none()
    }
}

/// `e` is the event of the auditd SYSCALL line `line`.
pub open spec fn syscall_event(e: NormalizedEvent, line: Seq<char>, id: u64) -> bool {
    let nr = field_u32(line, "syscall"@, 0);
    let uid = field_u32(line, "uid"@, 65534);
    let comm = field_text(line, "comm"@);
    let exe = field_text(line, "exe"@);
    &&& fresh(e, id, EventSource::Auditd)
    &&& bare_process(
        e.process,
        field_u32(line, "pid"@, 0),
        field_u32(line, "ppid"@, 0),
        uid,
        if comm.len() == 0 {
            exe
        } else {
            comm
        },
    )
    &&& e.parent.is_none()
    &&& e.k8s.is_none()
    &&& e.raw matches RawRecord::Text(s) && s@ == line
    &&& e.severity == if uid == 0 {
        Severity::Medium
    } else {
        Severity::Info
    }
    &&& syscall_kind(e.event_type, nr, exe)
}

fn get_u32(pairs: &Vec<(String, String)>, key: &str, default: u32) -> (r: u32)
    ensures
        r == match kv_lookup(pair_views(pairs@), key@) {
            Some(v) => match parsed_u32(v) {
                Some(n) => n,
                None => default,
            },
            None => default,
        },
{
    match kv_get(pairs, key) {
        Some(v) => {
            let c = chars_of(v.as_str());
            match parse_u32(c.as_slice()) {
                Some(n) => n,
                None => default,
            }
        },
        None => default,
    }
}

fn get_text(pairs: &Vec<(String, String)>, key: &str) -> (r: String)
    ensures
        r@ == match kv_lookup(pair_views(pairs@), key@) {
            Some(v) => trim_char(v, '"'),
            None => seq![],
        },
{
    match kv_get(pairs, key) {
        Some(v) => unquote(v.as_str()),
        None => String::new(),
    }
}

fn syscall_event_chars(v: &[char], id: u64) -> (e: NormalizedEvent)
    ensures
        syscall_event(e, v@, id),
{
    proof {
        reveal_strlit("syscall");
        reveal_strlit("pid");
        reveal_strlit("ppid");
        reveal_strlit("uid");
        reveal_strlit("comm");
        reveal_strlit("exe");
        reveal_strlit("0.0.0.0");
    }
    let fields = parse_kv_chars(v);
    let nr = get_u32(&fields, "syscall", 0);
    let pid = get_u32(&fields, "pid", 0);
    let ppid = get_u32(&fields, "ppid", 0);
    let uid = get_u32(&fields, "uid", 65534);
    let comm = get_text(&fields, "comm");
    let exe = get_text(&fields, "exe");
    let event_type = if nr == 59 || nr == 322 {
        EventType::Exec
    } else if nr == 2 || nr == 257 {
        EventType::FileAccess {
            path: exe.clone(),
            flags: FileFlags { read: true, write: false, execute: false },
        }
    } else if nr == 42 || nr == 288 {
        EventType::Network {
            direction: Direction::Outbound,
            remote_ip: "0.0.0.0".to_string(),
            port: 0,
            proto: Proto::Tcp,
        }
    } else {
        EventType::Privilege { syscall: decimal_string(nr as u128), capability: None }
    };
    let severity = if uid == 0 {
        Severity::Medium
    } else {
        Severity::Info
    };
    let binary = if comm.as_str().is_empty() {
        exe
    } else {
        comm
    };
    let process = bare_process_info(pid, ppid, uid, binary);
    let raw = RawRecord::Text(string_of(v));
    observed_event(id, EventSource::Auditd, process, event_type, severity, raw)
}

/// The event of an auditd SYSCALL record (format: `type=SYSCALL
/// msg=audit(...): arch=... syscall=N ... pid=N ppid=N uid=N ... comm="..."
/// exe="..."`). Missing or malformed numbers read as 0 (uid: 65534).
pub fn parse_auditd_syscall(line: &str, id: u64) -> (e: NormalizedEvent)
    ensures
        syscall_event(e, line@, id),
{
    let v = chars_of(line);
    syscall_event_chars(v.as_slice(), id)
}

/// What the tailing adapter makes of one log line: only SYSCALL records
/// become events, parsed from the trimmed line.
pub fn auditd_line_event(line: &str, id: u64) -> (r: Option<NormalizedEvent>)
    ensures
        r.is_some() <==> has_infix(trim(line@), "type=SYSCALL"@),
        r matches Some(e) ==> syscall_event(e, trim(line@), id),
{
    let v = chars_of(line);
    let t = trim_chars(v.as_slice());
    let marker = chars_of("type=SYSCALL");
    if !contains(t.as_slice(), marker.as_slice()) {
        return None;
    }
    Some(syscall_event_chars(t.as_slice(), id))
}

} // verus!
