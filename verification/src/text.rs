//! Character-level text handling shared by the rule engine, the scope
//! filter, the TOML editor and the record formatters.
//!
//! Text is modelled as `Seq<char>` (the view of `str` and `String`); the
//! executable helpers work on `&[char]` and hand back `Vec<char>` or indices.
use vstd::prelude::*;

verus! {

broadcast use vstd::string::group_string_axioms;

// ── Conversions ─────────────────────────────────────────────────────────

/// The characters of `s`, in order.
pub fn chars_of(s: &str) -> (v: Vec<char>)
    ensures
        v@ == s@,
{
    let mut v: Vec<char> = Vec::new();
    for c in it: s.chars()
        invariant
            it.seq() == s@,
            v@ == it.seq().take(it.index()),
    {
        v.push(c);
    }
    v
}

/// Appends one character (`String::push`).
#[verifier::external_body]
pub(crate) fn push_char(s: &mut String, c: char)
    ensures
        final(s)@ == old(s)@.push(c),
{
    s.push(c);
}

/// Appends a string slice (`String::push_str`).
#[verifier::external_body]
pub(crate) fn push_str(s: &mut String, t: &str)
    ensures
        final(s)@ == old(s)@ + t@,
{
    s.push_str(t);
}

/// A `String` holding exactly the given characters.
pub fn string_of(v: &[char]) -> (s: String)
    ensures
        s@ == v@,
{
    let mut s = String::new();
    let mut i: usize = 0;
    while i < v.len()
        invariant
            i <= v.len(),
            s@ == v@.take(i as int),
        decreases v.len() - i,
    {
        push_char(&mut s, v[i]);
        i += 1;
        assert(v@.take(i as int) == v@.take((i - 1) as int).push(v@[i - 1]));
    }
    assert(v@.take(v.len() as int) == v@);
    s
}

/// Appends the characters of `v` to `s`.
pub fn push_chars(s: &mut String, v: &[char])
    ensures
        final(s)@ == old(s)@ + v@,
{
    let ghost start = s@;
    let mut i: usize = 0;
    while i < v.len()
        invariant
            i <= v.len(),
            s@ == start + v@.take(i as int),
        decreases v.len() - i,
    {
        push_char(s, v[i]);
        i += 1;
        assert(v@.take(i as int) == v@.take((i - 1) as int).push(v@[i - 1]));
    }
    assert(v@.take(v.len() as int) == v@);
}

/// A copy of `v[lo..hi]`.
pub fn copy_range(v: &[char], lo: usize, hi: usize) -> (r: Vec<char>)
    requires
        lo <= hi <= v@.len(),
    ensures
        r@ == v@.subrange(lo as int, hi as int),
{
    vstd::slice::slice_to_vec(&v[lo..hi])
}

/// Two character slices with the same contents.
pub fn chars_eq(a: &[char], b: &[char]) -> (r: bool)
    ensures
        r == (a@ == b@),
{
    if a.len() != b.len() {
        return false;
    }
    let mut i: usize = 0;
    while i < a.len()
        invariant
            a@.len() == b@.len(),
            i <= a.len(),
            forall|j: int| 0 <= j < i ==> a@[j] == b@[j],
        decreases a.len() - i,
    {
        if a[i] != b[i] {
            return false;
        }
        i += 1;
    }
    assert(a@ =~= b@);
    true
}

/// Two string slices with the same text.
pub fn str_eq(a: &str, b: &str) -> (r: bool)
    ensures
        r == (a@ == b@),
{
    let x = chars_of(a);
    let y = chars_of(b);
    chars_eq(x.as_slice(), y.as_slice())
}

// ── Decimal rendering ───────────────────────────────────────────────────

/// The ASCII digit for `d < 10`.
pub open spec fn digit(d: nat) -> char {
    (48 + d) as char
}

/// The decimal rendering of `n`, without sign or leading zeros.
pub open spec fn decimal(n: nat) -> Seq<char>
    decreases n,
{
    if n < 10 {
        seq![digit(n)]
    } else {
        decimal(n / 10).push(digit(n % 10))
    }
}

/// `decimal(n)` left-padded with zeros to at least `width` characters.
pub open spec fn zero_padded(n: nat, width: nat) -> Seq<char> {
    let d = decimal(n);
    if d.len() >= width {
        d
    } else {
        Seq::new((width - d.len()) as nat, |i: int| '0') + d
    }
}

fn digit_char(d: u128) -> (c: char)
    requires
        d < 10,
    ensures
        c == digit(d as nat),
{
    let b: u8 = (48 + d) as u8;
    b as char
}

/// Appends the decimal rendering of `n` (`{}` formatting of an unsigned integer).
pub fn push_decimal(s: &mut String, n: u128)
    ensures
        final(s)@ == old(s)@ + decimal(n as nat),
    decreases n,
{
    if n < 10 {
        push_char(s, digit_char(n));
        assert(decimal(n as nat) == seq![digit(n as nat)]);
    } else {
        push_decimal(s, n / 10);
        push_char(s, digit_char(n % 10));
        assert(decimal(n as nat) == decimal((n / 10) as nat).push(digit((n % 10) as nat)));
    }
}

/// The decimal rendering of `n`.
pub fn decimal_string(n: u128) -> (s: String)
    ensures
        s@ == decimal(n as nat),
{
    let mut s = String::new();
    push_decimal(&mut s, n);
    assert(s@ =~= decimal(n as nat));
    s
}

pub proof fn lemma_decimal_len(n: nat)
    ensures
        decimal(n).len() >= 1,
        n < 10 <==> decimal(n).len() == 1,
        n < 100 ==> decimal(n).len() <= 2,
        n < 1000 ==> decimal(n).len() <= 3,
    decreases n,
{
    if n >= 10 {
        lemma_decimal_len(n / 10);
    }
}

/// Appends `n` left-padded with zeros to three characters (`{:03}`).
pub fn push_decimal_width3(s: &mut String, n: u64)
    requires
        n < 1000,
    ensures
        final(s)@ == old(s)@ + zero_padded(n as nat, 3),
{
    proof {
        lemma_decimal_len(n as nat);
    }
    let ghost start = s@;
    if n < 10 {
        push_char(s, '0');
        push_char(s, '0');
    } else if n < 100 {
        push_char(s, '0');
    }
    let ghost pad = s@.subrange(start.len() as int, s@.len() as int);
    push_decimal(s, n as u128);
    proof {
        let d = decimal(n as nat);
        assert(pad =~= Seq::new((3 - d.len()) as nat, |i: int| '0')) by {
            if n >= 100 {
                assert(d.len() == 3) by {
                    lemma_decimal_len((n / 10) as nat);
                    lemma_decimal_len((n / 100) as nat);
                }
            }
        }
        assert(s@ =~= start + zero_padded(n as nat, 3));
    }
}

// ── Whitespace and trimming ─────────────────────────────────────────────

/// Unicode `White_Space` (what `char::is_whitespace` tests).
pub open spec fn is_ws(c: char) -> bool {
    let u = c as u32;
    ||| 9 <= u <= 13
    ||| u == 32
    ||| u == 0x85
    ||| u == 0xA0
    ||| u == 0x1680
    ||| 0x2000 <= u <= 0x200A
    ||| u == 0x2028
    ||| u == 0x2029
    ||| u == 0x202F
    ||| u == 0x205F
    ||| u == 0x3000
}

/// `char::is_whitespace`.
pub fn is_whitespace(c: char) -> (b: bool)
    ensures
        b == is_ws(c),
{
    let u = c as u32;
    (9 <= u && u <= 13) || u == 32 || u == 0x85 || u == 0xA0 || u == 0x1680 || (0x2000 <= u
        && u <= 0x200A) || u == 0x2028 || u == 0x2029 || u == 0x202F || u == 0x205F || u == 0x3000
}

/// What a trim removes: whitespace, or one given character.
pub open spec fn strips(ws: bool, target: char, c: char) -> bool {
    if ws {
        is_ws(c)
    } else {
        c == target
    }
}

fn strips_exec(ws: bool, target: char, c: char) -> (b: bool)
    ensures
        b == strips(ws, target, c),
{
    if ws {
        is_whitespace(c)
    } else {
        c == target
    }
}

/// Number of leading characters that a trim removes.
pub open spec fn lead(s: Seq<char>, ws: bool, target: char) -> nat
    decreases s.len(),
{
    if s.len() > 0 && strips(ws, target, s[0]) {
        1 + lead(s.drop_first(), ws, target)
    } else {
        0
    }
}

/// Number of trailing characters that a trim removes.
pub open spec fn trail(s: Seq<char>, ws: bool, target: char) -> nat
    decreases s.len(),
{
    if s.len() > 0 && strips(ws, target, s.last()) {
        1 + trail(s.drop_last(), ws, target)
    } else {
        0
    }
}

/// `s` without leading and trailing stripped characters.
pub open spec fn trim_by(s: Seq<char>, ws: bool, target: char) -> Seq<char> {
    let t = s.skip(lead(s, ws, target) as int);
    t.take(t.len() - trail(t, ws, target))
}

/// `str::trim`.
pub open spec fn trim(s: Seq<char>) -> Seq<char> {
    trim_by(s, true, ' ')
}

/// `str::trim_matches(c)` for a single character.
pub open spec fn trim_char(s: Seq<char>, c: char) -> Seq<char> {
    trim_by(s, false, c)
}

/// `str::trim_start`.
pub open spec fn trim_start(s: Seq<char>) -> Seq<char> {
    s.skip(lead(s, true, ' ') as int)
}

pub proof fn lemma_lead(s: Seq<char>, ws: bool, target: char, i: int)
    requires
        0 <= i <= s.len(),
        forall|j: int| 0 <= j < i ==> strips(ws, target, #[trigger] s[j]),
        i == s.len() || !strips(ws, target, s[i]),
    ensures
        lead(s, ws, target) == i,
    decreases i,
{
    if i > 0 {
        let t = s.drop_first();
        assert forall|j: int| 0 <= j < i - 1 implies strips(ws, target, #[trigger] t[j]) by {
            assert(t[j] == s[j + 1]);
        }
        if i - 1 < t.len() {
            assert(t[i - 1] == s[i]);
        }
        lemma_lead(t, ws, target, i - 1);
    }
}

pub proof fn lemma_lead_bound(s: Seq<char>, ws: bool, target: char)
    ensures
        lead(s, ws, target) <= s.len(),
        forall|j: int| 0 <= j < lead(s, ws, target) ==> strips(ws, target, #[trigger] s[j]),
        lead(s, ws, target) < s.len() ==> !strips(ws, target, s[lead(s, ws, target) as int]),
    decreases s.len(),
{
    if s.len() > 0 && strips(ws, target, s[0]) {
        let t = s.drop_first();
        lemma_lead_bound(t, ws, target);
        assert forall|j: int| 0 <= j < lead(s, ws, target) implies strips(
            ws,
            target,
            #[trigger] s[j],
        ) by {
            if j > 0 {
                assert(s[j] == t[j - 1]);
            }
        }
        if lead(s, ws, target) < s.len() {
            assert(s[lead(s, ws, target) as int] == t[lead(t, ws, target) as int]);
        }
    }
}

pub proof fn lemma_trail(s: Seq<char>, ws: bool, target: char, k: int)
    requires
        0 <= k <= s.len(),
        forall|j: int| s.len() - k <= j < s.len() ==> strips(ws, target, #[trigger] s[j]),
        k == s.len() || !strips(ws, target, s[s.len() - k - 1]),
    ensures
        trail(s, ws, target) == k,
    decreases k,
{
    if k > 0 {
        let t = s.drop_last();
        assert forall|j: int| t.len() - (k - 1) <= j < t.len() implies strips(
            ws,
            target,
            #[trigger] t[j],
        ) by {
            assert(t[j] == s[j]);
        }
        if k - 1 < t.len() {
            assert(t[t.len() - (k - 1) - 1] == s[s.len() - k - 1]);
        }
        lemma_trail(t, ws, target, k - 1);
    }
}

/// `trim` keeps exactly the part between whitespace runs at both ends.
pub proof fn lemma_trim_exact(s: Seq<char>, lo: int, hi: int)
    requires
        0 <= lo <= hi <= s.len(),
        forall|j: int| 0 <= j < lo ==> is_ws(#[trigger] s[j]),
        forall|j: int| hi <= j < s.len() ==> is_ws(#[trigger] s[j]),
        lo < hi ==> !is_ws(s[lo]) && !is_ws(s[hi - 1]),
        lo == hi ==> hi == s.len(),
    ensures
        trim(s) == s.subrange(lo, hi),
{
    lemma_lead(s, true, ' ', lo);
    let t = s.skip(lo);
    let k = s.len() - hi;
    assert forall|j: int| t.len() - k <= j < t.len() implies strips(true, ' ', #[trigger] t[j]) by {
        assert(t[j] == s[j + lo]);
    }
    if k < t.len() {
        assert(t[t.len() - k - 1] == s[hi - 1]);
    }
    lemma_trail(t, true, ' ', k);
    assert(t.take(t.len() - k) =~= s.subrange(lo, hi));
}

/// Start and end of the trimmed part of `v`.
pub fn trim_bounds(v: &[char], ws: bool, target: char) -> (r: (usize, usize))
    ensures
        r.0 <= r.1 <= v@.len(),
        v@.subrange(r.0 as int, r.1 as int) == trim_by(v@, ws, target),
        r.0 == lead(v@, ws, target),
{
    let n = v.len();
    let mut lo: usize = 0;
    while lo < n && strips_exec(ws, target, v[lo])
        invariant
            lo <= n == v@.len(),
            forall|j: int| 0 <= j < lo ==> strips(ws, target, #[trigger] v@[j]),
        decreases n - lo,
    {
        lo += 1;
    }
    proof {
        lemma_lead(v@, ws, target, lo as int);
    }
    let mut hi: usize = n;
    while hi > lo && strips_exec(ws, target, v[hi - 1])
        invariant
            lo <= hi <= n == v@.len(),
            forall|j: int| hi <= j < n ==> strips(ws, target, #[trigger] v@[j]),
        decreases hi,
    {
        hi -= 1;
    }
    proof {
        let t = v@.skip(lo as int);
        let k = (n - hi) as int;
        assert forall|j: int| t.len() - k <= j < t.len() implies strips(
            ws,
            target,
            #[trigger] t[j],
        ) by {
            assert(t[j] == v@[j + lo]);
        }
        if k < t.len() {
            assert(t[t.len() - k - 1] == v@[hi - 1]);
        }
        lemma_trail(t, ws, target, k);
        assert(v@.subrange(lo as int, hi as int) =~= t.take(t.len() - k));
    }
    (lo, hi)
}

/// `s.trim()` of a character slice.
pub fn trim_chars(v: &[char]) -> (r: Vec<char>)
    ensures
        r@ == trim(v@),
{
    let (lo, hi) = trim_bounds(v, true, ' ');
    copy_range(v, lo, hi)
}

/// `s.trim_matches(c)` of a character slice.
pub fn trim_char_chars(v: &[char], c: char) -> (r: Vec<char>)
    ensures
        r@ == trim_char(v@, c),
{
    let (lo, hi) = trim_bounds(v, false, c);
    copy_range(v, lo, hi)
}

// ── Searching ───────────────────────────────────────────────────────────

/// `s.starts_with(p)`.
pub open spec fn has_prefix(s: Seq<char>, p: Seq<char>) -> bool {
    p.len() <= s.len() && s.take(p.len() as int) == p
}

/// `s.ends_with(p)`.
pub open spec fn has_suffix(s: Seq<char>, p: Seq<char>) -> bool {
    p.len() <= s.len() && s.skip(s.len() - p.len()) == p
}

/// `p` occurs in `s` starting at position `i`.
pub open spec fn occurs_at(s: Seq<char>, p: Seq<char>, i: int) -> bool {
    0 <= i && i + p.len() <= s.len() && s.subrange(i, i + p.len()) == p
}

/// `s.contains(p)`.
pub open spec fn has_infix(s: Seq<char>, p: Seq<char>) -> bool {
    exists|i: int| occurs_at(s, p, i)
}

fn occurs_at_exec(s: &[char], p: &[char], i: usize) -> (r: bool)
    requires
        i + p@.len() <= s@.len(),
    ensures
        r == occurs_at(s@, p@, i as int),
{
    let mut j: usize = 0;
    while j < p.len()
        invariant
            j <= p@.len(),
            i + p@.len() <= s@.len(),
            s@.len() == s.len(),
            p@.len() == p.len(),
            forall|k: int| 0 <= k < j ==> s@[i + k] == p@[k],
        decreases p.len() - j,
    {
        if s[i + j] != p[j] {
            assert(s@.subrange(i as int, i + p@.len())[j as int] != p@[j as int]);
            return false;
        }
        j += 1;
    }
    assert(s@.subrange(i as int, i + p@.len()) =~= p@);
    true
}

/// `s.starts_with(p)` on character slices.
pub fn starts_with(s: &[char], p: &[char]) -> (r: bool)
    ensures
        r == has_prefix(s@, p@),
{
    if p.len() > s.len() {
        return false;
    }
    let r = occurs_at_exec(s, p, 0);
    assert(s@.subrange(0, p@.len() as int) == s@.take(p@.len() as int));
    r
}

/// `s.ends_with(p)` on character slices.
pub fn ends_with(s: &[char], p: &[char]) -> (r: bool)
    ensures
        r == has_suffix(s@, p@),
{
    if p.len() > s.len() {
        return false;
    }
    let r = occurs_at_exec(s, p, s.len() - p.len());
    assert(s@.subrange(s@.len() - p@.len(), s@.len() as int) == s@.skip(s@.len() - p@.len()));
    r
}

/// `s.contains(p)` on character slices.
pub fn contains(s: &[char], p: &[char]) -> (r: bool)
    ensures
        r == has_infix(s@, p@),
{
    if p.len() > s.len() {
        assert(forall|i: int| !occurs_at(s@, p@, i));
        return false;
    }
    if p.len() == 0 {
        assert(s@.subrange(0, 0) =~= p@);
        assert(occurs_at(s@, p@, 0));
        return true;
    }
    let last = s.len() - p.len();
    let mut i: usize = 0;
    while i <= last
        invariant
            p@.len() <= s@.len(),
            last == s@.len() - p@.len(),
            p@.len() >= 1,
            s@.len() == s.len(),
            i <= last + 1,
            forall|k: int| 0 <= k < i ==> !occurs_at(s@, p@, k),
        decreases last + 1 - i,
    {
        if occurs_at_exec(s, p, i) {
            return true;
        }
        i += 1;
    }
    assert forall|k: int| !occurs_at(s@, p@, k) by {
        if 0 <= k < i {
        }
    }
    false
}

/// Index of the first occurrence of `c` in `s`, or `s.len()` when absent.
pub open spec fn first_index(s: Seq<char>, c: char) -> nat
    decreases s.len(),
{
    if s.len() == 0 {
        0
    } else if s[0] == c {
        0
    } else {
        1 + first_index(s.drop_first(), c)
    }
}

pub proof fn lemma_first_index(s: Seq<char>, c: char, i: int)
    requires
        0 <= i <= s.len(),
        forall|j: int| 0 <= j < i ==> #[trigger] s[j] != c,
        i == s.len() || s[i] == c,
    ensures
        first_index(s, c) == i,
    decreases i,
{
    if i > 0 {
        let t = s.drop_first();
        assert forall|j: int| 0 <= j < i - 1 implies #[trigger] t[j] != c by {
            assert(t[j] == s[j + 1]);
        }
        if i - 1 < t.len() {
            assert(t[i - 1] == s[i]);
        }
        lemma_first_index(t, c, i - 1);
    }
}

pub proof fn lemma_first_index_props(s: Seq<char>, c: char)
    ensures
        first_index(s, c) <= s.len(),
        forall|j: int| 0 <= j < first_index(s, c) ==> #[trigger] s[j] != c,
        first_index(s, c) < s.len() ==> s[first_index(s, c) as int] == c,
    decreases s.len(),
{
    if s.len() > 0 && s[0] != c {
        let t = s.drop_first();
        lemma_first_index_props(t, c);
        assert forall|j: int| 0 <= j < first_index(s, c) implies #[trigger] s[j] != c by {
            if j > 0 {
                assert(s[j] == t[j - 1]);
            }
        }
        if first_index(s, c) < s.len() {
            assert(s[first_index(s, c) as int] == t[first_index(t, c) as int]);
        }
    }
}

/// Position of the first `c` in `s`, or `s.len()` (`str::find` for one character).
pub fn find_char(s: &[char], c: char) -> (r: usize)
    ensures
        r == first_index(s@, c),
        r <= s@.len(),
{
    let mut i: usize = 0;
    while i < s.len() && s[i] != c
        invariant
            i <= s@.len(),
            forall|j: int| 0 <= j < i ==> #[trigger] s@[j] != c,
        decreases s.len() - i,
    {
        i += 1;
    }
    proof {
        lemma_first_index(s@, c, i as int);
    }
    i
}

/// `s.split(c).next()`: the text before the first `c`.
pub open spec fn before_char(s: Seq<char>, c: char) -> Seq<char> {
    s.take(first_index(s, c) as int)
}

/// `s.split_once(c)`: the text around the first `c`, when there is one.
pub open spec fn split_once(s: Seq<char>, c: char) -> Option<(Seq<char>, Seq<char>)> {
    let i = first_index(s, c);
    if i < s.len() {
        Some((s.take(i as int), s.skip(i as int + 1)))
    } else {
        None
    }
}

// ── Lines ───────────────────────────────────────────────────────────────

/// One line with its `\r` before the line feed removed.
pub open spec fn strip_cr(s: Seq<char>) -> Seq<char> {
    if s.len() > 0 && s.last() == '\r' {
        s.drop_last()
    } else {
        s
    }
}

/// `str::lines`: split at `\n` (a `\r` right before it goes too); a final
/// line feed adds no empty line.
pub open spec fn lines(s: Seq<char>) -> Seq<Seq<char>>
    decreases s.len(),
{
    if s.len() == 0 {
        seq![]
    } else {
        let i = first_index(s, '\n');
        if i < s.len() {
            seq![strip_cr(s.take(i as int))] + lines(s.skip(i as int + 1))
        } else {
            seq![s]
        }
    }
}

/// `str::lines` on a character slice.
pub fn lines_of(v: &[char]) -> (r: Vec<Vec<char>>)
    ensures
        r@.len() == lines(v@).len(),
        forall|k: int| 0 <= k < r@.len() ==> #[trigger] r@[k]@ == lines(v@)[k],
{
    let mut out: Vec<Vec<char>> = Vec::new();
    let mut start: usize = 0;
    let ghost done: Seq<Seq<char>> = seq![];
    assert(v@.skip(0) == v@);
    assert(lines(v@) =~= done + lines(v@.skip(0)));
    while start < v.len()
        invariant
            start <= v@.len(),
            out@.len() == done.len(),
            forall|k: int| 0 <= k < out@.len() ==> #[trigger] out@[k]@ == done[k],
            lines(v@) == done + lines(v@.skip(start as int)),
        decreases v.len() - start,
    {
        let rest = &v[start..v.len()];
        assert(rest@ == v@.skip(start as int));
        let i = find_char(rest, '\n');
        let mut line: Vec<char>;
        let next: usize;
        if i < rest.len() {
            let mut end = i;
            if end > 0 && rest[end - 1] == '\r' {
                end = end - 1;
            }
            line = copy_range(rest, 0, end);
            proof {
                assert(line@ == strip_cr(rest@.take(i as int)));
            }
            next = start + i + 1;
            proof {
                assert(rest@.skip(i + 1) =~= v@.skip(next as int));
            }
        } else {
            line = copy_range(rest, 0, rest.len());
            assert(line@ == rest@);
            next = v.len();
            proof {
                assert(lines(v@.skip(next as int)) == Seq::<Seq<char>>::empty()) by {
                    assert(v@.skip(next as int).len() == 0);
                }
            }
        }
        proof {
            assert(lines(rest@) == seq![line@] + lines(v@.skip(next as int)));
            done = done.push(line@);
            assert(lines(v@) =~= done + lines(v@.skip(next as int)));
        }
        out.push(line);
        start = next;
    }
    proof {
        assert(v@.skip(start as int).len() == 0);
        assert(lines(v@) =~= done);
    }
    out
}

// ── Words ───────────────────────────────────────────────────────────────

/// `str::split_whitespace`: the maximal runs of non-whitespace characters,
/// in order. Defined one character at a time: whitespace ends the current
/// word, anything else extends it or starts a new one.
pub open spec fn words(s: Seq<char>) -> Seq<Seq<char>>
    decreases s.len(),
{
    if s.len() == 0 {
        seq![]
    } else {
        let w = words(s.drop_last());
        let c = s.last();
        if is_ws(c) {
            w
        } else if s.len() >= 2 && !is_ws(s[s.len() - 2]) {
            w.update(w.len() - 1, w.last().push(c))
        } else {
            w.push(seq![c])
        }
    }
}

/// The texts of a list of character vectors.
pub open spec fn vec_texts(v: Seq<Vec<char>>) -> Seq<Seq<char>> {
    v.map_values(|w: Vec<char>| w@)
}

/// `str::split_whitespace` on a character slice.
pub fn split_words(v: &[char]) -> (r: Vec<Vec<char>>)
    ensures
        vec_texts(r@) == words(v@),
{
    let mut out: Vec<Vec<char>> = Vec::new();
    let mut cur: Vec<char> = Vec::new();
    let mut i: usize = 0;
    while i < v.len()
        invariant
            i <= v@.len(),
            cur@.len() > 0 <==> (i > 0 && !is_ws(v@[i - 1])),
            words(v@.take(i as int)) == if cur@.len() > 0 {
                vec_texts(out@).push(cur@)
            } else {
                vec_texts(out@)
            },
        decreases v.len() - i,
    {
        let c = v[i];
        let ghost before = vec_texts(out@);
        let ghost cur_before = cur@;
        proof {
            assert(v@.take(i + 1).drop_last() =~= v@.take(i as int));
            assert(v@.take(i + 1).last() == c);
            if i > 0 {
                assert(v@.take(i + 1)[i - 1] == v@[i - 1]);
            }
        }
        if is_whitespace(c) {
            if cur.len() > 0 {
                let done = cur;
                cur = Vec::new();
                out.push(done);
                proof {
                    assert(vec_texts(out@) =~= before.push(cur_before));
                }
            }
        } else {
            cur.push(c);
            proof {
                if cur_before.len() > 0 {
                    assert(before.push(cur_before).update(before.len() as int, cur_before.push(c))
                        =~= before.push(cur@));
                } else {
                    assert(cur@ =~= seq![c]);
                }
            }
        }
        i += 1;
    }
    assert(v@.take(v@.len() as int) =~= v@);
    if cur.len() > 0 {
        let ghost before = vec_texts(out@);
        let ghost last = cur@;
        out.push(cur);
        assert(vec_texts(out@) =~= before.push(last));
    }
    out
}

/// The texts of a list of strings.
pub open spec fn string_texts(v: Seq<String>) -> Seq<Seq<char>> {
    v.map_values(|s: String| s@)
}

/// `s.split_whitespace().map(String::from).collect()`.
pub fn whitespace_words(s: &str) -> (r: Vec<String>)
    ensures
        string_texts(r@) == words(s@),
{
    let v = chars_of(s);
    let ws = split_words(v.as_slice());
    let mut out: Vec<String> = Vec::new();
    let mut i: usize = 0;
    while i < ws.len()
        invariant
            i <= ws@.len(),
            vec_texts(ws@) == words(s@),
            string_texts(out@) == vec_texts(ws@).take(i as int),
        decreases ws.len() - i,
    {
        let w = string_of(ws[i].as_slice());
        let ghost before = string_texts(out@);
        out.push(w);
        assert(string_texts(out@) =~= before.push(w@));
        assert(vec_texts(ws@)[i as int] == ws@[i as int]@);
        assert(vec_texts(ws@).take(i + 1) =~= vec_texts(ws@).take(i as int).push(ws@[i as int]@));
        i += 1;
    }
    assert(vec_texts(ws@).take(ws@.len() as int) =~= vec_texts(ws@));
    out
}

// ── Numbers ─────────────────────────────────────────────────────────────

pub open spec fn is_digit(c: char) -> bool {
    '0' <= c <= '9'
}

pub open spec fn all_digits(s: Seq<char>) -> bool {
    forall|i: int| 0 <= i < s.len() ==> is_digit(#[trigger] s[i])
}

/// The number that a string of decimal digits denotes.
pub open spec fn digits_value(s: Seq<char>) -> nat
    decreases s.len(),
{
    if s.len() == 0 {
        0
    } else {
        digits_value(s.drop_last()) * 10 + (s.last() as nat - 48) as nat
    }
}

/// What `str::parse::<u32>` accepts: an optional `+`, then at least one
/// ASCII digit, denoting a number that fits in 32 bits.
pub open spec fn parsed_u32(s: Seq<char>) -> Option<u32> {
    let d = if s.len() > 0 && s[0] == '+' {
        s.drop_first()
    } else {
        s
    };
    if d.len() > 0 && all_digits(d) && digits_value(d) <= u32::MAX {
        Some(digits_value(d) as u32)
    } else {
        None
    }
}

proof fn lemma_digits_value_grows(s: Seq<char>, i: int)
    requires
        0 <= i <= s.len(),
        all_digits(s),
    ensures
        digits_value(s.take(i)) <= digits_value(s),
    decreases s.len() - i,
{
    if i < s.len() {
        lemma_digits_value_grows(s, i + 1);
        assert(s.take(i + 1).drop_last() =~= s.take(i));
    } else {
        assert(s.take(i) =~= s);
    }
}

/// `str::parse::<u32>`, `None` on any error.
pub fn parse_u32(s: &[char]) -> (r: Option<u32>)
    ensures
        r == parsed_u32(s@),
{
    let start: usize = if s.len() > 0 && s[0] == '+' {
        1
    } else {
        0
    };
    let ghost d = if s@.len() > 0 && s@[0] == '+' {
        s@.drop_first()
    } else {
        s@
    };
    assert(d =~= s@.skip(start as int));
    if start == s.len() {
        return None;
    }
    let mut value: u64 = 0;
    let mut i: usize = start;
    while i < s.len()
        invariant
            start <= i <= s@.len(),
            start < s@.len(),
            d == s@.skip(start as int),
            d == if s@.len() > 0 && s@[0] == '+' {
                s@.drop_first()
            } else {
                s@
            },
            all_digits(d.take(i - start)),
            value == digits_value(d.take(i - start)),
            value <= u32::MAX,
        decreases s.len() - i,
    {
        let c = s[i];
        proof {
            assert(d.take(i - start + 1).drop_last() =~= d.take(i - start));
            assert(d.take(i - start + 1).last() == c);
        }
        if c < '0' || c > '9' {
            proof {
                assert(d[i - start] == c);
                assert(!is_digit(d[i - start]));
                assert(!all_digits(d));
                assert(parsed_u32(s@) == None::<u32>);
            }
            return None;
        }
        let digit: u64 = (c as u32 - 48) as u64;
        value = value * 10 + digit;
        i += 1;
        if value > 0xffff_ffff {
            proof {
                if all_digits(d) {
                    lemma_digits_value_grows(d, i - start);
                }
                assert(parsed_u32(s@) == None::<u32>);
            }
            return None;
        }
    }
    assert(d.take(i - start) =~= d);
    Some(value as u32)
}

// ── Case folding ────────────────────────────────────────────────────────

/// What `str::to_lowercase` returns for a text: Unicode lower-case mapping,
/// a function of the text alone.
pub uninterp spec fn lowercase(s: Seq<char>) -> Seq<char>;

/// `str::to_lowercase`. The contract only ties the result to the input text
/// by name; Unicode case mapping itself is not restated here.
#[verifier::external_body]
pub(crate) fn to_lowercase(s: &str) -> (r: String)
    ensures
        r@ == lowercase(s@),
{
    s.to_lowercase()
}

} // verus!
