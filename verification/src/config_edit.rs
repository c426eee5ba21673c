//! Line-oriented reading and editing of `key = value` entries inside
//! `[section]` tables of a TOML text, keeping every other character as it is.
use vstd::prelude::*;
use crate::text::{
    before_char, chars_eq, chars_of, copy_range, find_char, first_index, has_prefix, is_ws, lead,
    lemma_first_index, lemma_first_index_props, lemma_lead_bound,
    lemma_trim_exact, lines, lines_of, push_char, push_chars, split_once,
    starts_with, string_of, strip_cr, trim, trim_bounds, trim_chars,
};

verus! {

broadcast use vstd::string::group_string_axioms;

/// A table header line (`[name]`, not an array header `[[name]]`).
pub open spec fn is_section_header(t: Seq<char>) -> bool {
    has_prefix(t, seq!['[']) && !has_prefix(t, seq!['[', '['])
}

/// The header line of a section: `[section]`.
pub open spec fn section_header(section: Seq<char>) -> Seq<char> {
    seq!['['] + section + seq![']']
}

/// The code part of a trimmed line: the text before any `#`, trimmed.
pub open spec fn code_of(t: Seq<char>) -> Seq<char> {
    trim(before_char(t, '#'))
}

/// The (key, value) of an assignment in a code part, both trimmed.
pub open spec fn assignment(code: Seq<char>) -> Option<(Seq<char>, Seq<char>)> {
    match split_once(code, '=') {
        Some((k, v)) => Some((trim(k), trim(v))),
        None => None,
    }
}

/// The line (trimmed) assigns `key`.
pub open spec fn assigns(t: Seq<char>, key: Seq<char>) -> bool {
    assignment(code_of(t)) matches Some((k, _)) && k == key
}

/// The raw value of `key` in the section whose header is `target`, reading
/// `lines` with `in_sec` telling whether the first line is inside it; empty
/// when absent. The first assignment wins.
pub open spec fn extract_in(
    lines: Seq<Seq<char>>,
    target: Seq<char>,
    key: Seq<char>,
    in_sec: bool,
) -> Seq<char>
    decreases lines.len(),
{
    if lines.len() == 0 {
        seq![]
    } else {
        let t = trim(lines[0]);
        if is_section_header(t) {
            extract_in(lines.drop_first(), target, key, t == target)
        } else if in_sec && assigns(t, key) {
            match assignment(code_of(t)) {
                Some((_, v)) => v,
                None => seq![],
            }
        } else {
            extract_in(lines.drop_first(), target, key, in_sec)
        }
    }
}

/// The raw TOML value of `key` inside `[section]` of `text` (e.g. `"info"` or
/// `true`), or empty.
pub open spec fn toml_value(text: Seq<char>, section: Seq<char>, key: Seq<char>) -> Seq<char> {
    extract_in(lines(text), section_header(section), key, false)
}

/// The leading whitespace of a line.
pub open spec fn indent_of(line: Seq<char>) -> Seq<char> {
    line.take(lead(line, true, ' ') as int)
}

/// The replacement line: the old indentation, then `key = value`.
pub open spec fn assignment_line(line: Seq<char>, key: Seq<char>, val: Seq<char>) -> Seq<char> {
    indent_of(line) + key + seq![' ', '=', ' '] + val
}

/// The lines with the first assignment of `key` inside the target section
/// replaced (`replaced` tells whether that already happened).
pub open spec fn update_in(
    lines: Seq<Seq<char>>,
    target: Seq<char>,
    key: Seq<char>,
    val: Seq<char>,
    in_sec: bool,
    replaced: bool,
) -> Seq<Seq<char>>
    decreases lines.len(),
{
    if lines.len() == 0 {
        seq![]
    } else {
        let line = lines[0];
        let t = trim(line);
        if is_section_header(t) {
            seq![line] + update_in(lines.drop_first(), target, key, val, t == target, replaced)
        } else if in_sec && !replaced && assigns(t, key) {
            seq![assignment_line(line, key, val)] + update_in(
                lines.drop_first(),
                target,
                key,
                val,
                in_sec,
                true,
            )
        } else {
            seq![line] + update_in(lines.drop_first(), target, key, val, in_sec, replaced)
        }
    }
}

/// The first line of a non-empty text as `str::lines` gives it, and the
/// index where the text after that line's ending starts.
pub open spec fn first_line(s: Seq<char>) -> (Seq<char>, int) {
    let i = first_index(s, '\n') as int;
    if i < s.len() {
        (strip_cr(s.take(i)), i + 1)
    } else {
        (s, s.len() as int)
    }
}

/// One line of the edit: the line written out, and whether the next line
/// is inside the section and whether the replacement has happened.
pub open spec fn line_step(
    line: Seq<char>,
    target: Seq<char>,
    key: Seq<char>,
    val: Seq<char>,
    in_sec: bool,
    replaced: bool,
) -> (Seq<char>, bool, bool) {
    let t = trim(line);
    if is_section_header(t) {
        (line, t == target, replaced)
    } else if in_sec && !replaced && assigns(t, key) {
        (assignment_line(line, key, val), in_sec, true)
    } else {
        (line, in_sec, replaced)
    }
}

/// The text `s` with the first assignment of `key` inside the target section
/// replaced by `key = val` (keeping its indentation); every other character,
/// line endings and a final line feed included, is kept. `in_sec` tells
/// whether `s` starts inside the section, `replaced` whether the replacement
/// already happened.
pub open spec fn edit_text(
    s: Seq<char>,
    target: Seq<char>,
    key: Seq<char>,
    val: Seq<char>,
    in_sec: bool,
    replaced: bool,
) -> Seq<char>
    decreases s.len(),
{
    if s.len() == 0 {
        seq![]
    } else {
        let line = first_line(s).0;
        let next = first_line(s).1;
        let ending = s.subrange(line.len() as int, next);
        proof {
            lemma_first_index_props(s, '\n');
        }
        let step = line_step(line, target, key, val, in_sec, replaced);
        step.0 + ending + edit_text(s.skip(next), target, key, val, step.1, step.2)
    }
}

/// `text` with the value of `key` inside `[section]` replaced by `val`:
/// only the line of the first assignment of `key` in that section changes.
pub open spec fn toml_updated(
    text: Seq<char>,
    section: Seq<char>,
    key: Seq<char>,
    val: Seq<char>,
) -> Seq<char> {
    edit_text(text, section_header(section), key, val, false, false)
}

// ── Reading back an edit ────────────────────────────────────────────────

/// A key that reads back as itself: not empty, without surrounding
/// whitespace, without `=`, `#` or line feeds, and not opening with `[`.
pub open spec fn plain_key(k: Seq<char>) -> bool {
    &&& k.len() > 0
    &&& !is_ws(k[0])
    &&& !is_ws(k.last())
    &&& k[0] != '['
    &&& forall|i: int| 0 <= i < k.len() ==> #[trigger] k[i] != '=' && k[i] != '#' && k[i] != '\n'
}

/// A value that reads back as itself: without surrounding whitespace and
/// without `#` or line feeds.
pub open spec fn plain_value(v: Seq<char>) -> bool {
    &&& v.len() > 0 ==> !is_ws(v[0]) && !is_ws(v.last())
    &&& forall|i: int| 0 <= i < v.len() ==> #[trigger] v[i] != '#' && v[i] != '\n'
}

/// The lines assign `key` inside the target section (the first line being
/// inside it when `in_sec`).
pub open spec fn has_entry_in(
    lines: Seq<Seq<char>>,
    target: Seq<char>,
    key: Seq<char>,
    in_sec: bool,
) -> bool
    decreases lines.len(),
{
    if lines.len() == 0 {
        false
    } else {
        let t = trim(lines[0]);
        if is_section_header(t) {
            has_entry_in(lines.drop_first(), target, key, t == target)
        } else if in_sec && assigns(t, key) {
            true
        } else {
            has_entry_in(lines.drop_first(), target, key, in_sec)
        }
    }
}

/// The trimmed replacement line: `key = value` (`key =` for an empty value).
pub open spec fn written_entry(k: Seq<char>, v: Seq<char>) -> Seq<char> {
    k + seq![' ', '='] + if v.len() > 0 {
        seq![' '] + v
    } else {
        seq![]
    }
}

proof fn lemma_written_entry(line: Seq<char>, k: Seq<char>, v: Seq<char>)
    requires
        plain_key(k),
        plain_value(v),
    ensures
        trim(assignment_line(line, k, v)) == written_entry(k, v),
        !is_section_header(written_entry(k, v)),
        code_of(written_entry(k, v)) == written_entry(k, v),
        assignment(written_entry(k, v)) == Some((k, v)),
{
    lemma_lead_bound(line, true, ' ');
    let ind = indent_of(line);
    let s = assignment_line(line, k, v);
    let n = ind.len() as int;
    let e = written_entry(k, v);
    let hi = if v.len() > 0 {
        s.len() as int
    } else {
        s.len() - 1
    };
    assert forall|j: int| 0 <= j < n implies is_ws(#[trigger] s[j]) by {
        assert(s[j] == line[j]);
    }
    assert(s[n] == k[0]);
    if v.len() > 0 {
        assert(s[hi - 1] == v.last());
    } else {
        assert(s[hi - 1] == '=');
        assert(s[hi] == ' ');
    }
    lemma_trim_exact(s, n, hi);
    assert(s.subrange(n, hi) =~= e);
    // not a header
    assert(e[0] == k[0]);
    // no comment
    assert forall|j: int| 0 <= j < e.len() implies #[trigger] e[j] != '#' by {
        if j < k.len() {
            assert(e[j] == k[j]);
        } else if j >= k.len() + 3 {
            assert(e[j] == v[j - k.len() - 3]);
        }
    }
    lemma_first_index(e, '#', e.len() as int);
    assert(before_char(e, '#') =~= e);
    if v.len() > 0 {
        assert(e.last() == v.last());
    }
    lemma_trim_exact(e, 0, e.len() as int);
    assert(e.subrange(0, e.len() as int) =~= e);
    // the first '=' follows the key
    let p = (k.len() + 1) as int;
    assert forall|j: int| 0 <= j < p implies #[trigger] e[j] != '=' by {
        if j < k.len() {
            assert(e[j] == k[j]);
        }
    }
    assert(e[p] == '=');
    lemma_first_index(e, '=', p);
    let kpart = e.take(p);
    assert(kpart[k.len() as int] == ' ');
    lemma_trim_exact(kpart, 0, k.len() as int);
    assert(kpart.subrange(0, k.len() as int) =~= k);
    let vpart = e.skip(p + 1);
    if v.len() > 0 {
        assert(vpart =~= seq![' '] + v);
        assert(vpart[0] == ' ');
        assert(vpart[vpart.len() - 1] == v.last());
        assert(vpart[1] == v[0]);
        lemma_trim_exact(vpart, 1, vpart.len() as int);
        assert(vpart.subrange(1, vpart.len() as int) =~= v);
    } else {
        assert(vpart =~= Seq::<char>::empty());
        lemma_trim_exact(vpart, 0, 0);
        assert(vpart.subrange(0, 0) =~= v);
    }
}

/// Editing a key and reading it back gives the new value, on the line
/// model: when the lines assign a plain `key` inside the section, the value
/// read after writing a plain value `val` is `val`.
pub proof fn lemma_update_then_extract(
    ls: Seq<Seq<char>>,
    target: Seq<char>,
    key: Seq<char>,
    val: Seq<char>,
    in_sec: bool,
)
    requires
        plain_key(key),
        plain_value(val),
        has_entry_in(ls, target, key, in_sec),
    ensures
        extract_in(update_in(ls, target, key, val, in_sec, false), target, key, in_sec) == val,
    decreases ls.len(),
{
    let line = ls[0];
    let t = trim(line);
    let rest = ls.drop_first();
    if is_section_header(t) {
        let u = update_in(rest, target, key, val, t == target, false);
        assert((seq![line] + u).drop_first() =~= u);
        assert((seq![line] + u)[0] == line);
        lemma_update_then_extract(rest, target, key, val, t == target);
    } else if in_sec && assigns(t, key) {
        let u = update_in(rest, target, key, val, in_sec, true);
        let w = assignment_line(line, key, val);
        assert((seq![w] + u)[0] == w);
        lemma_written_entry(line, key, val);
    } else {
        let u = update_in(rest, target, key, val, in_sec, false);
        assert((seq![line] + u).drop_first() =~= u);
        assert((seq![line] + u)[0] == line);
        lemma_update_then_extract(rest, target, key, val, in_sec);
    }
}

/// How the first line of a non-empty text sits in it: the text is the line,
/// its ending (`\n`, `\r\n`, or nothing for a last line without one) and
/// the rest, and `str::lines` yields the line and then the rest's lines.
proof fn lemma_first_line(s: Seq<char>)
    requires
        s.len() > 0,
    ensures
        ({
            let line = first_line(s).0;
            let next = first_line(s).1;
            let ending = s.subrange(line.len() as int, next);
            &&& 0 < next <= s.len()
            &&& line.len() <= next
            &&& s == line + ending + s.skip(next)
            &&& lines(s) == seq![line] + lines(s.skip(next))
            &&& forall|j: int| 0 <= j < line.len() ==> #[trigger] line[j] != '\n'
            &&& next < s.len() || ending.len() > 0 || s.skip(next).len() == 0
            &&& ending.len() == 0 ==> next == s.len() && line.len() > 0
            &&& ending.len() > 0 ==> (ending == seq!['\n'] && (line.len() == 0 || line.last()
                != '\r')) || ending == seq!['\r', '\n']
        }),
{
    lemma_first_index_props(s, '\n');
    let i = first_index(s, '\n') as int;
    let line = first_line(s).0;
    let next = first_line(s).1;
    let ending = s.subrange(line.len() as int, next);
    if i < s.len() {
        let raw = s.take(i);
        if raw.len() > 0 && raw.last() == '\r' {
            assert(ending =~= seq!['\r', '\n']);
        } else {
            assert(ending =~= seq!['\n']);
        }
        assert(s =~= line + ending + s.skip(next));
    } else {
        assert(s.skip(next) =~= Seq::<char>::empty());
        assert(ending =~= Seq::<char>::empty());
        assert(s =~= line + ending + s.skip(next));
        assert(lines(s.skip(next)) =~= Seq::<Seq<char>>::empty());
        assert(lines(s) =~= seq![line] + lines(s.skip(next)));
    }
}

/// `str::lines` on a line, a line ending and a rest: the line, then the
/// rest's lines.
proof fn lemma_lines_prepend(out: Seq<char>, ending: Seq<char>, r: Seq<char>)
    requires
        forall|j: int| 0 <= j < out.len() ==> #[trigger] out[j] != '\n',
        ending == seq!['\n'] || ending == seq!['\r', '\n'],
        ending == seq!['\n'] ==> out.len() == 0 || out.last() != '\r',
    ensures
        lines(out + ending + r) == seq![out] + lines(r),
{
    let x = out + ending + r;
    let i: int = if ending == seq!['\n'] {
        out.len() as int
    } else {
        out.len() as int + 1
    };
    assert forall|j: int| 0 <= j < i implies #[trigger] x[j] != '\n' by {
        if j < out.len() {
            assert(x[j] == out[j]);
        } else {
            assert(x[j] == '\r');
        }
    }
    assert(x[i] == '\n');
    lemma_first_index(x, '\n', i);
    if ending == seq!['\n'] {
        assert(x.take(i) =~= out);
    } else {
        assert(x.take(i) =~= out.push('\r'));
        assert(x.take(i).drop_last() =~= out);
    }
    assert(x.skip(i + 1) =~= r);
}

/// A non-empty text without line feeds is a single line.
proof fn lemma_lines_single(out: Seq<char>)
    requires
        out.len() > 0,
        forall|j: int| 0 <= j < out.len() ==> #[trigger] out[j] != '\n',
    ensures
        lines(out) == seq![out],
{
    lemma_first_index(out, '\n', out.len() as int);
}

proof fn lemma_assignment_line_shape(line: Seq<char>, key: Seq<char>, val: Seq<char>)
    requires
        plain_key(key),
        plain_value(val),
        forall|j: int| 0 <= j < line.len() ==> #[trigger] line[j] != '\n',
    ensures
        ({
            let w = assignment_line(line, key, val);
            &&& w.len() > 0
            &&& w.last() != '\r'
            &&& forall|j: int| 0 <= j < w.len() ==> #[trigger] w[j] != '\n'
        }),
{
    lemma_lead_bound(line, true, ' ');
    let ind = indent_of(line);
    let w = assignment_line(line, key, val);
    assert forall|j: int| 0 <= j < w.len() implies #[trigger] w[j] != '\n' by {
        if j < ind.len() {
            assert(w[j] == line[j]);
        } else if j < ind.len() + key.len() {
            assert(w[j] == key[j - ind.len()]);
        } else if j >= ind.len() + key.len() + 3 {
            assert(w[j] == val[j - ind.len() - key.len() - 3]);
        }
    }
    if val.len() > 0 {
        assert(w.last() == val.last());
    } else {
        assert(w.last() == ' ');
    }
}

/// On the text, the edit does what the line model says: the lines of the
/// edited text are the edited lines.
proof fn lemma_edit_lines(
    s: Seq<char>,
    target: Seq<char>,
    key: Seq<char>,
    val: Seq<char>,
    in_sec: bool,
    replaced: bool,
)
    requires
        plain_key(key),
        plain_value(val),
    ensures
        lines(edit_text(s, target, key, val, in_sec, replaced)) == update_in(
            lines(s),
            target,
            key,
            val,
            in_sec,
            replaced,
        ),
    decreases s.len(),
{
    if s.len() > 0 {
        lemma_first_line(s);
        let line = first_line(s).0;
        let next = first_line(s).1;
        let ending = s.subrange(line.len() as int, next);
        let rest = s.skip(next);
        let t = trim(line);
        let ls = lines(s);
        assert(ls[0] == line);
        assert(ls.drop_first() =~= lines(rest));
        let (out, in2, rep2) = line_step(line, target, key, val, in_sec, replaced);
        lemma_edit_lines(rest, target, key, val, in2, rep2);
        let e2 = edit_text(rest, target, key, val, in2, rep2);
        assert(edit_text(s, target, key, val, in_sec, replaced) == out + ending + e2);
        assert(update_in(ls, target, key, val, in_sec, replaced) == seq![out] + update_in(
            lines(rest),
            target,
            key,
            val,
            in2,
            rep2,
        ));
        if out != line {
            lemma_assignment_line_shape(line, key, val);
        }
        if ending.len() == 0 {
            assert(rest.len() == 0);
            assert(e2 =~= Seq::<char>::empty());
            assert(lines(rest) =~= Seq::<Seq<char>>::empty());
            assert(out + ending + e2 =~= out);
            lemma_lines_single(out);
        } else {
            lemma_lines_prepend(out, ending, e2);
        }
    }
}

/// When no assignment of `key` is left to replace, the edit keeps the text
/// as it is.
proof fn lemma_edit_keeps(
    s: Seq<char>,
    target: Seq<char>,
    key: Seq<char>,
    val: Seq<char>,
    in_sec: bool,
    replaced: bool,
)
    requires
        replaced || !has_entry_in(lines(s), target, key, in_sec),
    ensures
        edit_text(s, target, key, val, in_sec, replaced) == s,
    decreases s.len(),
{
    if s.len() > 0 {
        lemma_first_line(s);
        let line = first_line(s).0;
        let next = first_line(s).1;
        let rest = s.skip(next);
        let t = trim(line);
        let ls = lines(s);
        assert(ls[0] == line);
        assert(ls.drop_first() =~= lines(rest));
        if is_section_header(t) {
            lemma_edit_keeps(rest, target, key, val, t == target, replaced);
        } else {
            lemma_edit_keeps(rest, target, key, val, in_sec, replaced);
        }
    }
}

/// Writing a plain value for a plain key that the section assigns, then
/// reading the key back, gives the value written.
pub proof fn lemma_edit_reads_back(
    text: Seq<char>,
    section: Seq<char>,
    key: Seq<char>,
    val: Seq<char>,
)
    requires
        plain_key(key),
        plain_value(val),
        has_entry_in(lines(text), section_header(section), key, false),
    ensures
        toml_value(toml_updated(text, section, key, val), section, key) == val,
{
    let target = section_header(section);
    lemma_edit_lines(text, target, key, val, false, false);
    lemma_update_then_extract(lines(text), target, key, val, false);
}

/// Editing a key that the section does not assign changes nothing: the
/// text comes back character for character, line endings included.
pub proof fn lemma_edit_without_entry_keeps_text(
    text: Seq<char>,
    section: Seq<char>,
    key: Seq<char>,
    val: Seq<char>,
)
    requires
        !has_entry_in(lines(text), section_header(section), key, false),
    ensures
        toml_updated(text, section, key, val) == text,
{
    lemma_edit_keeps(text, section_header(section), key, val, false, false);
}

fn header_of(section: &str) -> (r: Vec<char>)
    ensures
        r@ == section_header(section@),
{
    let mut r: Vec<char> = Vec::new();
    r.push('[');
    let s = chars_of(section);
    let mut i: usize = 0;
    while i < s.len()
        invariant
            i <= s@.len(),
            r@ == seq!['['] + s@.take(i as int),
        decreases s.len() - i,
    {
        r.push(s[i]);
        i += 1;
        assert(r@ =~= seq!['['] + s@.take(i as int));
    }
    r.push(']');
    assert(s@.take(s@.len() as int) == s@);
    assert(r@ =~= section_header(section@));
    r
}

fn is_header_exec(t: &[char]) -> (r: bool)
    ensures
        r == is_section_header(t@),
{
    let open = vec!['['];
    let open2 = vec!['[', '['];
    assert(open@ =~= seq!['[']);
    assert(open2@ =~= seq!['[', '[']);
    starts_with(t, &open) && !starts_with(t, &open2)
}

/// The key and value of an assignment line (trimmed), when it is one.
fn assignment_exec(t: &[char]) -> (r: Option<(Vec<char>, Vec<char>)>)
    ensures
        match assignment(code_of(t@)) {
            Some((k, v)) => r matches Some(p) && p.0@ == k && p.1@ == v,
            None => r is None,
        },
{
    let h = find_char(t, '#');
    let code = trim_chars(&copy_range(t, 0, h));
    assert(t@.subrange(0, h as int) == t@.take(h as int));
    let e = find_char(&code, '=');
    if e >= code.len() {
        return None;
    }
    let k = trim_chars(&copy_range(&code, 0, e));
    let v = trim_chars(&copy_range(&code, e + 1, code.len()));
    assert(code@.subrange(0, e as int) == code@.take(e as int));
    assert(code@.subrange(e + 1, code@.len() as int) == code@.skip(e + 1));
    Some((k, v))
}

/// The raw TOML value of `key` inside `[section]` (e.g. `"info"` or `true`),
/// or an empty string.
pub fn extract_toml_value(text: &str, section: &str, key: &str) -> (r: String)
    ensures
        r@ == toml_value(text@, section@, key@),
{
    let target = header_of(section);
    let k = chars_of(key);
    let all = chars_of(text);
    let ls = lines_of(&all);
    let ghost lines_v = lines(text@);
    let mut in_section = false;
    let mut i: usize = 0;
    assert(lines_v.skip(0) =~= lines_v);
    while i < ls.len()
        invariant
            i <= ls@.len(),
            ls@.len() == lines_v.len(),
            forall|j: int| 0 <= j < ls@.len() ==> #[trigger] ls@[j]@ == lines_v[j],
            lines_v == lines(text@),
            target@ == section_header(section@),
            k@ == key@,
            toml_value(text@, section@, key@) == extract_in(
                lines_v.skip(i as int),
                target@,
                key@,
                in_section,
            ),
        decreases ls.len() - i,
    {
        let ghost rest = lines_v.skip(i as int);
        assert(rest[0] == ls@[i as int]@);
        assert(rest.drop_first() =~= lines_v.skip(i + 1));
        let t = trim_chars(&ls[i]);
        if is_header_exec(&t) {
            in_section = chars_eq(&t, &target);
        } else if in_section {
            match assignment_exec(&t) {
                Some((kk, v)) => {
                    if chars_eq(&kk, &k) {
                        return string_of(&v);
                    }
                },
                None => {},
            }
        }
        i += 1;
    }
    String::new()
}

/// The first line of a non-empty text, its line ending, and where the rest
/// starts.
fn split_first_line(rest: &[char]) -> (r: (Vec<char>, Vec<char>, usize))
    requires
        rest@.len() > 0,
    ensures
        first_line(rest@) == (r.0@, r.2 as int),
        r.1@ == rest@.subrange(r.0@.len() as int, r.2 as int),
        0 < r.2 <= rest@.len(),
{
    let i = find_char(rest, '\n');
    let line_end: usize;
    let next: usize;
    if i < rest.len() {
        if i > 0 && rest[i - 1] == '\r' {
            line_end = i - 1;
        } else {
            line_end = i;
        }
        next = i + 1;
    } else {
        line_end = rest.len();
        next = rest.len();
    }
    let line = copy_range(rest, 0, line_end);
    let ending = copy_range(rest, line_end, next);
    proof {
        if i < rest.len() {
            assert(line@ =~= strip_cr(rest@.take(i as int)));
        } else {
            assert(line@ =~= rest@);
        }
    }
    (line, ending, next)
}

/// One line of the edit (see `line_step`).
fn edit_line(
    line: &Vec<char>,
    target: &Vec<char>,
    k: &Vec<char>,
    nv: &Vec<char>,
    in_section: bool,
    replaced: bool,
) -> (r: (Vec<char>, bool, bool))
    ensures
        (r.0@, r.1, r.2) == line_step(line@, target@, k@, nv@, in_section, replaced),
{
    let t = trim_chars(line);
    if is_header_exec(&t) {
        return (copy_range(line, 0, line.len()), chars_eq(&t, target), replaced);
    }
    let mut hit = false;
    if in_section && !replaced {
        match assignment_exec(&t) {
            Some((kk, _v)) => {
                hit = chars_eq(&kk, k);
            },
            None => {},
        }
    }
    if !hit {
        assert(line@.subrange(0, line@.len() as int) =~= line@);
        return (copy_range(line, 0, line.len()), in_section, replaced);
    }
    let (lo, _hi) = trim_bounds(line, true, ' ');
    let mut l = copy_range(line, 0, lo);
    let ghost indent = l@;
    assert(line@.subrange(0, lo as int) == indent_of(line@));
    let mut j: usize = 0;
    while j < k.len()
        invariant
            j <= k@.len(),
            l@ == indent + k@.take(j as int),
        decreases k.len() - j,
    {
        l.push(k[j]);
        j += 1;
        assert(l@ =~= indent + k@.take(j as int));
    }
    assert(k@.take(k@.len() as int) == k@);
    l.push(' ');
    l.push('=');
    l.push(' ');
    let ghost mid = l@;
    let mut j: usize = 0;
    while j < nv.len()
        invariant
            j <= nv@.len(),
            l@ == mid + nv@.take(j as int),
        decreases nv.len() - j,
    {
        l.push(nv[j]);
        j += 1;
        assert(l@ =~= mid + nv@.take(j as int));
    }
    assert(nv@.take(nv@.len() as int) == nv@);
    assert(l@ =~= assignment_line(line@, k@, nv@));
    (l, in_section, true)
}

/// `text` with the first `key = ...` line inside `[section]` replaced by
/// `key = new_val` (keeping its indentation); every other character, line
/// endings and a final line feed included, is kept.
pub fn update_toml_value(text: &str, section: &str, key: &str, new_val: &str) -> (r: String)
    ensures
        r@ == toml_updated(text@, section@, key@, new_val@),
{
    let target = header_of(section);
    let k = chars_of(key);
    let nv = chars_of(new_val);
    let all = chars_of(text);
    let mut out = String::new();
    let mut in_section = false;
    let mut replaced = false;
    let mut start: usize = 0;
    assert(all@.skip(0) =~= all@);
    while start < all.len()
        invariant
            start <= all@.len(),
            all@ == text@,
            target@ == section_header(section@),
            k@ == key@,
            nv@ == new_val@,
            toml_updated(text@, section@, key@, new_val@) == out@ + edit_text(
                all@.skip(start as int),
                target@,
                key@,
                new_val@,
                in_section,
                replaced,
            ),
        decreases all.len() - start,
    {
        let rest = &all[start..all.len()];
        assert(rest@ == all@.skip(start as int));
        let (line, ending, next) = split_first_line(rest);
        assert(rest@.skip(next as int) =~= all@.skip(start + next));
        let ghost in0 = in_section;
        let ghost rep0 = replaced;
        let ghost out0 = out@;
        let (written, in2, rep2) = edit_line(&line, &target, &k, &nv, in_section, replaced);
        in_section = in2;
        replaced = rep2;
        push_chars(&mut out, &written);
        push_chars(&mut out, &ending);
        proof {
            let tail = edit_text(all@.skip(start + next), target@, key@, new_val@, in_section, replaced);
            assert(edit_text(rest@, target@, key@, new_val@, in0, rep0) == written@ + ending@ + tail);
            assert(out0 + (written@ + ending@ + tail) =~= out@ + tail);
        }
        start = start + next;
    }
    assert(all@.skip(start as int) =~= Seq::<char>::empty());
    assert(out@ + Seq::<char>::empty() =~= out@);
    out
}

} // verus!
