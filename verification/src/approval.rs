//! The naming side of the rule-approval workflow.
//!
//! Proposed rules are staged as one file per rule under a pending
//! directory, named by an id made of the staging time and the sanitized
//! rule name; an operator promotes them to the rules directory under an
//! `ai-approved-` prefix, where a reaper removes them once they are older
//! than the approval TTL. The directory walking and file moves live with
//! the daemon; the names, ids and the expiry decision are here.
use vstd::prelude::*;
use crate::rules::Rule;
use crate::text::{
    chars_of, decimal, ends_with, has_prefix, has_suffix, push_char, push_decimal, push_str,
    starts_with,
};

verus! {

broadcast use vstd::string::group_string_axioms;

/// Where proposals wait for review and where approved rules go.
pub struct ApprovalStore {
    pub pending_dir: String,
    pub approved_dir: String,
}

/// A staged proposal as listed for review; `created_at` is the file's
/// modification time in nanoseconds since the Unix epoch.
pub struct PendingItem {
    pub id: String,
    pub path: String,
    pub rule: Rule,
    pub created_at: u128,
}

impl ApprovalStore {
    pub fn new(pending_dir: String, approved_dir: String) -> (s: ApprovalStore)
        ensures
            s.pending_dir@ == pending_dir@,
            s.approved_dir@ == approved_dir@,
    {
        ApprovalStore { pending_dir, approved_dir }
    }
}

/// ASCII letters and digits.
pub open spec fn is_ascii_alnum(c: char) -> bool {
    ('a' <= c <= 'z') || ('A' <= c <= 'Z') || ('0' <= c <= '9')
}

/// A character kept as it is in an id; every other one becomes `-`.
pub open spec fn id_char(c: char) -> char {
    if is_ascii_alnum(c) || c == '-' || c == '_' {
        c
    } else {
        '-'
    }
}

/// The rule name with unsafe characters replaced, or `rule` when empty.
pub open spec fn sanitized(s: Seq<char>) -> Seq<char> {
    if s.len() == 0 {
        "rule"@
    } else {
        s.map_values(|c: char| id_char(c))
    }
}

/// An id: the staging time in nanoseconds, a dash, the sanitized name.
pub open spec fn id_text(ts_ns: nat, name: Seq<char>) -> Seq<char> {
    decimal(ts_ns) + "-"@ + sanitized(name)
}

/// The file a pending proposal is staged in.
pub open spec fn pending_name(id: Seq<char>) -> Seq<char> {
    id + ".toml"@
}

/// The file an approved rule is promoted to.
pub open spec fn approved_name(id: Seq<char>) -> Seq<char> {
    "ai-approved-"@ + id + ".toml"@
}

/// Files that the reaper may remove.
pub open spec fn is_reapable(name: Seq<char>) -> bool {
    has_prefix(name, "ai-approved-"@) && has_suffix(name, ".toml"@)
}

fn id_char_exec(c: char) -> (r: char)
    ensures
        r == id_char(c),
{
    if ('a' <= c && c <= 'z') || ('A' <= c && c <= 'Z') || ('0' <= c && c <= '9') || c == '-'
        || c == '_' {
        c
    } else {
        '-'
    }
}

/// Replaces every character that is not an ASCII letter, digit, `-` or `_`
/// by `-`; an empty name becomes `rule`.
pub fn sanitize(s: &str) -> (r: String)
    ensures
        r@ == sanitized(s@),
{
    let v = chars_of(s);
    if v.len() == 0 {
        proof {
            reveal_strlit("rule");
        }
        return "rule".to_string();
    }
    let mut out = String::new();
    let mut i: usize = 0;
    while i < v.len()
        invariant
            v@ == s@,
            i <= v@.len(),
            out@ == v@.take(i as int).map_values(|c: char| id_char(c)),
        decreases v.len() - i,
    {
        push_char(&mut out, id_char_exec(v[i]));
        proof {
            assert(v@.take(i + 1).map_values(|c: char| id_char(c)) =~= v@.take(i as int).map_values(
                |c: char| id_char(c),
            ).push(id_char(v@[i as int])));
        }
        i += 1;
    }
    assert(v@.take(v@.len() as int) =~= v@);
    out
}

/// The id of a rule staged at `ts_ns` nanoseconds after the Unix epoch.
pub fn make_id_at(ts_ns: u128, rule_name: &str) -> (r: String)
    ensures
        r@ == id_text(ts_ns as nat, rule_name@),
{
    let mut out = String::new();
    push_decimal(&mut out, ts_ns);
    push_char(&mut out, '-');
    let clean = sanitize(rule_name);
    push_str(&mut out, clean.as_str());
    proof {
        reveal_strlit("-");
    }
    assert(out@ =~= id_text(ts_ns as nat, rule_name@));
    out
}

/// Nanoseconds since the Unix epoch on the system clock, 0 when the clock
/// reads before the epoch (`SystemTime::now().duration_since(UNIX_EPOCH)`).
/// Nothing is stated of the value: it is whatever the clock says.
#[verifier::external_body]
fn unix_nanos() -> (t: u128) {
    std::time::SystemTime::now().duration_since(std::time::UNIX_EPOCH).map(|d| d.as_nanos()).unwrap_or(0)
}

/// The id of a rule staged now: the current time and the sanitized name.
pub fn make_id(rule_name: &str) -> (r: String)
    ensures
        exists|ts: u128| r@ == id_text(ts as nat, rule_name@),
{
    let ts = unix_nanos();
    make_id_at(ts, rule_name)
}

/// `<id>.toml`.
pub fn pending_file_name(id: &str) -> (r: String)
    ensures
        r@ == pending_name(id@),
{
    let mut out = String::new();
    push_str(&mut out, id);
    push_str(&mut out, ".toml");
    assert(out@ =~= pending_name(id@));
    out
}

/// `ai-approved-<id>.toml`.
pub fn approved_file_name(id: &str) -> (r: String)
    ensures
        r@ == approved_name(id@),
{
    let mut out = String::new();
    push_str(&mut out, "ai-approved-");
    push_str(&mut out, id);
    push_str(&mut out, ".toml");
    assert(out@ =~= approved_name(id@));
    out
}

/// Whether a file in the approved directory was put there by approval.
pub fn is_reapable_file(name: &str) -> (r: bool)
    ensures
        r == is_reapable(name@),
{
    proof {
        reveal_strlit("ai-approved-");
        reveal_strlit(".toml");
    }
    let v = chars_of(name);
    let p = chars_of("ai-approved-");
    let x = chars_of(".toml");
    starts_with(&v, &p) && ends_with(&v, &x)
}

/// An approved file modified at `modified_ns` has expired at `now_ns` when
/// it is at least `ttl_ns` old; a modification time in the future never
/// expires.
pub open spec fn expired(now_ns: u128, modified_ns: u128, ttl_ns: u128) -> bool {
    modified_ns <= now_ns && now_ns - modified_ns >= ttl_ns
}

pub fn is_expired(now_ns: u128, modified_ns: u128, ttl_ns: u128) -> (r: bool)
    ensures
        r == expired(now_ns, modified_ns, ttl_ns),
{
    modified_ns <= now_ns && now_ns - modified_ns >= ttl_ns
}

// ── Listing order ───────────────────────────────────────────────────────

/// The items staged at time `t`, in their order in `s`.
pub open spec fn staged_at(s: Seq<PendingItem>, t: u128) -> Seq<PendingItem> {
    s.filter(|p: PendingItem| p.created_at == t)
}

/// Oldest first.
pub open spec fn oldest_first(s: Seq<PendingItem>) -> bool {
    forall|i: int, j: int| 0 <= i < j < s.len() ==> s[i].created_at <= s[j].created_at
}

proof fn lemma_insert_after_older(s: Seq<PendingItem>, pos: int, x: PendingItem)
    requires
        oldest_first(s),
        0 <= pos <= s.len(),
        forall|i: int| 0 <= i < pos ==> s[i].created_at <= x.created_at,
        forall|i: int| pos <= i < s.len() ==> s[i].created_at > x.created_at,
    ensures
        oldest_first(s.insert(pos, x)),
        forall|t: u128|
            #[trigger] staged_at(s.insert(pos, x), t) == if t == x.created_at {
                staged_at(s, t).push(x)
            } else {
                staged_at(s, t)
            },
{
    broadcast use vstd::seq_lib::group_seq_properties;
    let a = s.take(pos);
    let b = s.skip(pos);
    assert(s =~= a + b);
    assert(s.insert(pos, x) =~= a + seq![x] + b);
    assert forall|t: u128| #[trigger]
        staged_at(s.insert(pos, x), t) == if t == x.created_at {
            staged_at(s, t).push(x)
        } else {
            staged_at(s, t)
        } by {
        let f = |p: PendingItem| p.created_at == t;
        vstd::seq::Seq::filter_distributes_over_add(a + seq![x], b, f);
        vstd::seq::Seq::filter_distributes_over_add(a, seq![x], f);
        vstd::seq::Seq::filter_distributes_over_add(a, b, f);
        Seq::<PendingItem>::empty().lemma_filter_push(x, f);
        assert(seq![x] =~= Seq::<PendingItem>::empty().push(x));
        reveal(Seq::filter);
        assert(Seq::<PendingItem>::empty().filter(f) =~= Seq::<PendingItem>::empty());
        if t == x.created_at {
            assert forall|i: int| 0 <= i < b.len() implies !f(b[i]) by {
                assert(b[i] == s[pos + i]);
            }
            b.lemma_all_neg_filter_empty(f);
            assert(s.insert(pos, x).filter(f) =~= a.filter(f).push(x));
            assert(s.filter(f) =~= a.filter(f));
        } else {
            assert(s.insert(pos, x).filter(f) =~= a.filter(f) + b.filter(f));
        }
    }
}

/// The pending items oldest first; items staged at the same time keep
/// their order (a stable sort by `created_at`).
pub fn sort_pending(items: Vec<PendingItem>) -> (r: Vec<PendingItem>)
    ensures
        oldest_first(r@),
        forall|t: u128| #[trigger] staged_at(r@, t) == staged_at(items@, t),
{
    broadcast use vstd::seq_lib::group_seq_properties;
    let ghost orig = items@;
    let mut rest = items;
    let mut out: Vec<PendingItem> = Vec::new();
    let ghost mut n: int = 0;
    proof {
        reveal(Seq::filter);
        assert forall|t: u128| #[trigger] staged_at(out@, t) == staged_at(orig.take(0), t) by {
            assert(orig.take(0) =~= Seq::<PendingItem>::empty());
            assert(out@ =~= Seq::<PendingItem>::empty());
        }
        assert(orig.skip(0) =~= orig);
    }
    while rest.len() > 0
        invariant
            0 <= n <= orig.len(),
            rest@ == orig.skip(n),
            oldest_first(out@),
            forall|t: u128| #[trigger] staged_at(out@, t) == staged_at(orig.take(n), t),
        decreases rest@.len(),
    {
        let x = rest.remove(0);
        assert(x == orig[n]);
        let mut j: usize = 0;
        while j < out.len() && out[j].created_at <= x.created_at
            invariant
                j <= out@.len(),
                forall|i: int| 0 <= i < j ==> out@[i].created_at <= x.created_at,
            decreases out.len() - j,
        {
            j += 1;
        }
        proof {
            assert forall|i: int| j <= i < out@.len() implies out@[i].created_at > x.created_at by {
                assert(out@[j as int].created_at > x.created_at);
            }
            lemma_insert_after_older(out@, j as int, x);
            assert forall|t: u128| #[trigger]
                staged_at(orig.take(n + 1), t) == if t == x.created_at {
                    staged_at(orig.take(n), t).push(x)
                } else {
                    staged_at(orig.take(n), t)
                } by {
                assert(orig.take(n + 1) =~= orig.take(n).push(x));
                orig.take(n).lemma_filter_push(x, |p: PendingItem| p.created_at == t);
            }
            assert(rest@ =~= orig.skip(n + 1));
        }
        out.insert(j, x);
        proof {
            n = n + 1;
        }
    }
    proof {
        assert(orig.take(n) =~= orig);
    }
    out
}

/// Every approved file name passes the reaper's filter.
pub proof fn lemma_approved_names_are_reapable(id: Seq<char>)
    ensures
        is_reapable(approved_name(id)),
{
    reveal_strlit("ai-approved-");
    reveal_strlit(".toml");
    let n = approved_name(id);
    assert(n.take("ai-approved-"@.len() as int) =~= "ai-approved-"@);
    assert(n.skip(n.len() - ".toml"@.len()) =~= ".toml"@);
}

} // verus!
