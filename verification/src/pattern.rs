//! Shell-style glob patterns (`*`, `?`, `[...]`), compiled and matched by the
//! `glob` crate.
use vstd::prelude::*;

verus! {

#[verifier::external_type_specification]
#[verifier::external_body]
pub struct ExPattern(glob::Pattern);

/// Whether `glob::Pattern::new` accepts the pattern text.
pub uninterp spec fn glob_valid(pattern: Seq<char>) -> bool;

/// Whether the pattern compiled from `pattern` matches `text` under
/// `glob::Pattern::matches` (default match options).
pub uninterp spec fn glob_matches(pattern: Seq<char>, text: Seq<char>) -> bool;

/// A pattern text holds none of the glob metacharacters `*`, `?`, `[`.
pub open spec fn is_literal(pattern: Seq<char>) -> bool {
    forall|i: int| 0 <= i < pattern.len() ==> pattern[i] != '*' && pattern[i] != '?' && pattern[i]
        != '['
}

/// A compiled glob pattern together with the text it was compiled from.
pub struct Glob {
    source: String,
    compiled: glob::Pattern,
}

impl View for Glob {
    type V = Seq<char>;

    closed spec fn view(&self) -> Seq<char> {
        self.source@
    }
}

/// `glob::Pattern::new`: `Some` exactly when the crate accepts the text.
/// A text without metacharacters always compiles (every character becomes a
/// literal token).
#[verifier::external_body]
fn compile(pattern: &str) -> (r: Option<glob::Pattern>)
    ensures
        r is Some <==> glob_valid(pattern@),
        is_literal(pattern@) ==> r is Some,
{
    glob::Pattern::new(pattern).ok()
}

/// `glob::Pattern::matches` on a pattern that `compile` built from `g@`.
/// For a literal pattern the crate compares character by character, so it
/// matches exactly the identical text.
#[verifier::external_body]
fn run(g: &Glob, text: &str) -> (r: bool)
    ensures
        r == glob_matches(g@, text@),
        is_literal(g@) ==> (r <==> text@ == g@),
{
    g.compiled.matches(text)
}

impl Glob {
    /// Compiles `pattern`; `None` when the glob crate rejects it.
    pub fn new(pattern: &str) -> (r: Option<Glob>)
        ensures
            r is Some <==> glob_valid(pattern@),
            is_literal(pattern@) ==> r is Some,
            r matches Some(g) ==> g@ == pattern@,
    {
        match compile(pattern) {
            Some(p) => {
                let g = Glob { source: pattern.to_string(), compiled: p };
                Some(g)
            },
            None => None,
        }
    }

    /// Whether `text` matches this pattern.
    pub fn matches(&self, text: &str) -> (r: bool)
        ensures
            r == glob_matches(self@, text@),
            is_literal(self@) ==> (r <==> text@ == self@),
    {
        run(self, text)
    }
}

/// Compiles and matches in one step: false when the pattern is rejected.
pub open spec fn glob_hit(pattern: Seq<char>, text: Seq<char>) -> bool {
    glob_valid(pattern) && glob_matches(pattern, text)
}

/// `Pattern::new(pattern).map(|p| p.matches(text)).unwrap_or(false)`.
pub fn glob_hit_exec(pattern: &str, text: &str) -> (r: bool)
    ensures
        r == glob_hit(pattern@, text@),
        is_literal(pattern@) ==> (r <==> text@ == pattern@),
{
    match Glob::new(pattern) {
        Some(g) => g.matches(text),
        None => false,
    }
}

/// The pattern texts in `raw` that compile, in order.
pub open spec fn valid_patterns(raw: Seq<String>) -> Seq<Seq<char>>
    decreases raw.len(),
{
    if raw.len() == 0 {
        seq![]
    } else if glob_valid(raw.last()@) {
        valid_patterns(raw.drop_last()).push(raw.last()@)
    } else {
        valid_patterns(raw.drop_last())
    }
}

/// Compiles every pattern in `raw`, dropping those the crate rejects.
pub fn compile_all(raw: &Vec<String>) -> (r: Vec<Glob>)
    ensures
        r@.len() == valid_patterns(raw@).len(),
        forall|i: int| 0 <= i < r@.len() ==> #[trigger] r@[i]@ == valid_patterns(raw@)[i],
{
    let mut out: Vec<Glob> = Vec::new();
    let mut i: usize = 0;
    while i < raw.len()
        invariant
            i <= raw@.len(),
            out@.len() == valid_patterns(raw@.take(i as int)).len(),
            forall|k: int|
                0 <= k < out@.len() ==> #[trigger] out@[k]@ == valid_patterns(raw@.take(i as int))[k],
        decreases raw.len() - i,
    {
        let ghost before = raw@.take(i as int);
        assert(raw@.take(i + 1).drop_last() == before);
        assert(raw@.take(i + 1).last() == raw@[i as int]);
        match Glob::new(raw[i].as_str()) {
            Some(g) => {
                out.push(g);
            },
            None => {},
        }
        i += 1;
    }
    assert(raw@.take(raw@.len() as int) == raw@);
    out
}

/// Some pattern in `pats` matches `text`.
pub open spec fn any_matches(pats: Seq<Seq<char>>, text: Seq<char>) -> bool {
    exists|i: int| 0 <= i < pats.len() && glob_matches(#[trigger] pats[i], text)
}

/// Whether any of the compiled patterns matches `text`.
pub fn any_glob_matches(pats: &Vec<Glob>, text: &str) -> (r: bool)
    ensures
        r == any_matches(pats@.map_values(|g: Glob| g@), text@),
{
    let ghost views = pats@.map_values(|g: Glob| g@);
    let mut i: usize = 0;
    while i < pats.len()
        invariant
            i <= pats@.len(),
            views == pats@.map_values(|g: Glob| g@),
            forall|k: int| 0 <= k < i ==> !glob_matches(#[trigger] views[k], text@),
        decreases pats.len() - i,
    {
        if pats[i].matches(text) {
            assert(glob_matches(views[i as int], text@));
            return true;
        }
        i += 1;
    }
    false
}

} // verus!
