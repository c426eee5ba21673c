//! The scope filter decides which events enter the pipeline. An event must
//! pass every layer, in order:
//!
//! 0. Process exclude: a binary name matching any `exclude_processes` glob is dropped.
//! 1. Process target: with a non-empty `targets` list, the binary name must match one.
//! 2. K8s namespace include: with a non-empty list, a K8s event's namespace must match one.
//! 3. K8s namespace exclude: a K8s event whose namespace matches any pattern is dropped.
//! 4. K8s label selector: every "key=value" pair must match the pod's labels.
//!
//! Events without K8s metadata skip layers 2 to 4.
use vstd::prelude::*;
use crate::config::ScopeConfig;
use crate::event::{K8sMeta, NormalizedEvent};
use crate::pattern::{any_glob_matches, any_matches, compile_all, valid_patterns, Glob};
use crate::text::{chars_eq, chars_of, copy_range, find_char, split_once, trim, trim_chars};

verus! {

pub struct ScopeFilter {
    target_patterns: Vec<Glob>,
    exclude_processes: Vec<Glob>,
    include_ns: Vec<Glob>,
    exclude_ns: Vec<Glob>,
    label_selectors: Vec<(String, String)>,
}

/// The filter's rules as plain texts.
pub struct ScopeView {
    pub targets: Seq<Seq<char>>,
    pub exclude_processes: Seq<Seq<char>>,
    pub include_ns: Seq<Seq<char>>,
    pub exclude_ns: Seq<Seq<char>>,
    pub selectors: Seq<(Seq<char>, Seq<char>)>,
}

/// A "key=value" selector: key and value trimmed, split at the first `=`;
/// `None` without `=` or with an empty key.
pub open spec fn parse_selector(s: Seq<char>) -> Option<(Seq<char>, Seq<char>)> {
    match split_once(s, '=') {
        Some((k, v)) => if trim(k).len() == 0 {
            None
        } else {
            Some((trim(k), trim(v)))
        },
        None => None,
    }
}

/// The well-formed selectors of `raw`, in order.
pub open spec fn parse_selectors(raw: Seq<String>) -> Seq<(Seq<char>, Seq<char>)>
    decreases raw.len(),
{
    if raw.len() == 0 {
        seq![]
    } else {
        match parse_selector(raw.last()@) {
            Some(p) => parse_selectors(raw.drop_last()).push(p),
            None => parse_selectors(raw.drop_last()),
        }
    }
}

/// The value of the first label pair whose key is `key`.
pub open spec fn label_value(labels: Seq<(String, String)>, key: Seq<char>) -> Option<Seq<char>>
    decreases labels.len(),
{
    if labels.len() == 0 {
        None
    } else if labels[0].0@ == key {
        Some(labels[0].1@)
    } else {
        label_value(labels.drop_first(), key)
    }
}

/// Every selector holds among the labels.
pub open spec fn labels_selected(
    labels: Seq<(String, String)>,
    selectors: Seq<(Seq<char>, Seq<char>)>,
) -> bool {
    forall|i: int|
        0 <= i < selectors.len() ==> label_value(labels, #[trigger] selectors[i].0) == Some(
            selectors[i].1,
        )
}

/// The K8s layers (2 to 4) for an event with metadata `m`.
pub open spec fn k8s_allowed(v: ScopeView, m: K8sMeta) -> bool {
    &&& (v.include_ns.len() == 0 || any_matches(v.include_ns, m.namespace@))
    &&& !any_matches(v.exclude_ns, m.namespace@)
    &&& labels_selected(m.labels@, v.selectors)
}

/// Whether the filter with rules `v` lets `e` through.
pub open spec fn scope_allows(v: ScopeView, e: NormalizedEvent) -> bool {
    &&& !any_matches(v.exclude_processes, e.process.binary@)
    &&& (v.targets.len() == 0 || any_matches(v.targets, e.process.binary@))
    &&& (e.k8s matches Some(m) ==> k8s_allowed(v, m))
}

fn parse_one_selector(s: &str) -> (r: Option<(String, String)>)
    ensures
        match parse_selector(s@) {
            Some((k, v)) => r matches Some(p) && p.0@ == k && p.1@ == v,
            None => r is None,
        },
{
    let c = chars_of(s);
    let i = find_char(&c, '=');
    if i >= c.len() {
        return None;
    }
    let key = trim_chars(&copy_range(&c, 0, i));
    let val = trim_chars(&copy_range(&c, i + 1, c.len()));
    assert(c@.subrange(0, i as int) == c@.take(i as int));
    assert(c@.subrange(i + 1, c@.len() as int) == c@.skip(i + 1));
    if key.len() == 0 {
        return None;
    }
    Some((crate::text::string_of(&key), crate::text::string_of(&val)))
}

fn parse_all_selectors(raw: &Vec<String>) -> (r: Vec<(String, String)>)
    ensures
        r@.len() == parse_selectors(raw@).len(),
        forall|i: int|
            0 <= i < r@.len() ==> (#[trigger] r@[i]).0@ == parse_selectors(raw@)[i].0 && r@[i].1@
                == parse_selectors(raw@)[i].1,
{
    let mut out: Vec<(String, String)> = Vec::new();
    let mut i: usize = 0;
    while i < raw.len()
        invariant
            i <= raw@.len(),
            out@.len() == parse_selectors(raw@.take(i as int)).len(),
            forall|k: int|
                0 <= k < out@.len() ==> (#[trigger] out@[k]).0@ == parse_selectors(
                    raw@.take(i as int),
                )[k].0 && out@[k].1@ == parse_selectors(raw@.take(i as int))[k].1,
        decreases raw.len() - i,
    {
        assert(raw@.take(i + 1).drop_last() == raw@.take(i as int));
        assert(raw@.take(i + 1).last() == raw@[i as int]);
        match parse_one_selector(raw[i].as_str()) {
            Some(p) => {
                out.push(p);
            },
            None => {},
        }
        i += 1;
    }
    assert(raw@.take(raw@.len() as int) == raw@);
    out
}

fn lookup_label<'a>(labels: &'a Vec<(String, String)>, key: &str) -> (r: Option<&'a String>)
    ensures
        match label_value(labels@, key@) {
            Some(v) => r matches Some(s) && s@ == v,
            None => r is None,
        },
{
    let k = chars_of(key);
    let mut i: usize = 0;
    assert(labels@.skip(0) == labels@);
    while i < labels.len()
        invariant
            i <= labels@.len(),
            label_value(labels@, key@) == label_value(labels@.skip(i as int), key@),
            k@ == key@,
        decreases labels.len() - i,
    {
        let kk = chars_of(labels[i].0.as_str());
        assert(labels@.skip(i as int).drop_first() == labels@.skip(i + 1));
        let ghost t = labels@.skip(i as int);
        assert(t[0] == labels@[i as int]);
        assert(kk@ == t[0].0@);
        assert(t.len() > 0);
        assert(k@ == key@);
        if chars_eq(&kk, &k) {
            assert(t[0].0@ == key@);
            assert(label_value(t, key@) == Some(t[0].1@));
            return Some(&labels[i].1);
        }
        i += 1;
    }
    None
}

impl ScopeFilter {
    pub closed spec fn rules(&self) -> ScopeView {
        ScopeView {
            targets: self.target_patterns@.map_values(|g: Glob| g@),
            exclude_processes: self.exclude_processes@.map_values(|g: Glob| g@),
            include_ns: self.include_ns@.map_values(|g: Glob| g@),
            exclude_ns: self.exclude_ns@.map_values(|g: Glob| g@),
            selectors: self.label_selectors@.map_values(|p: (String, String)| (p.0@, p.1@)),
        }
    }

    /// The filter for `cfg`; patterns the glob crate rejects and malformed
    /// selectors are left out.
    pub fn new(cfg: &ScopeConfig) -> (r: ScopeFilter)
        ensures
            r.rules().targets == valid_patterns(cfg.targets@),
            r.rules().exclude_processes == valid_patterns(cfg.exclude_processes@),
            r.rules().include_ns == valid_patterns(cfg.include_namespaces@),
            r.rules().exclude_ns == valid_patterns(cfg.exclude_namespaces@),
            r.rules().selectors == parse_selectors(cfg.label_selectors@),
    {
        let target_patterns = compile_all(&cfg.targets);
        let exclude_processes = compile_all(&cfg.exclude_processes);
        let include_ns = compile_all(&cfg.include_namespaces);
        let exclude_ns = compile_all(&cfg.exclude_namespaces);
        let label_selectors = parse_all_selectors(&cfg.label_selectors);
        let r = ScopeFilter {
            target_patterns,
            exclude_processes,
            include_ns,
            exclude_ns,
            label_selectors,
        };
        assert(r.rules().targets =~= valid_patterns(cfg.targets@));
        assert(r.rules().exclude_processes =~= valid_patterns(cfg.exclude_processes@));
        assert(r.rules().include_ns =~= valid_patterns(cfg.include_namespaces@));
        assert(r.rules().exclude_ns =~= valid_patterns(cfg.exclude_namespaces@));
        assert(r.rules().selectors =~= parse_selectors(cfg.label_selectors@));
        r
    }

    /// `true` when the event passes every scope layer and should be processed.
    pub fn allows(&self, event: &NormalizedEvent) -> (r: bool)
        ensures
            r == scope_allows(self.rules(), *event),
    {
        let binary = event.process.binary.as_str();
        if any_glob_matches(&self.exclude_processes, binary) {
            return false;
        }
        if self.target_patterns.len() > 0 && !any_glob_matches(&self.target_patterns, binary) {
            return false;
        }
        match &event.k8s {
            Some(k8s) => {
                let ns = k8s.namespace.as_str();
                if self.include_ns.len() > 0 && !any_glob_matches(&self.include_ns, ns) {
                    return false;
                }
                if any_glob_matches(&self.exclude_ns, ns) {
                    return false;
                }
                let ghost sel = self.rules().selectors;
                let mut i: usize = 0;
                while i < self.label_selectors.len()
                    invariant
                        i <= self.label_selectors@.len(),
                        sel == self.label_selectors@.map_values(
                            |p: (String, String)| (p.0@, p.1@),
                        ),
                        sel == self.rules().selectors,
                        event.k8s is Some,
                        event.k8s->0 == *k8s,
                        self.include_ns@.len() == 0 || any_matches(
                            self.rules().include_ns,
                            k8s.namespace@,
                        ),
                        !any_matches(self.rules().exclude_ns, k8s.namespace@),
                        !any_matches(self.rules().exclude_processes, event.process.binary@),
                        self.rules().targets.len() == 0 || any_matches(
                            self.rules().targets,
                            event.process.binary@,
                        ),
                        forall|j: int|
                            0 <= j < i ==> label_value(k8s.labels@, #[trigger] sel[j].0) == Some(
                                sel[j].1,
                            ),
                    decreases self.label_selectors.len() - i,
                {
                    let (key, val) = &self.label_selectors[i];
                    assert(sel[i as int] == (key@, val@));
                    match lookup_label(&k8s.labels, key.as_str()) {
                        Some(actual) => {
                            let a = chars_of(actual.as_str());
                            let b = chars_of(val.as_str());
                            if !chars_eq(&a, &b) {
                                assert(label_value(k8s.labels@, sel[i as int].0) != Some(
                                    sel[i as int].1,
                                ));
                                assert(!labels_selected(k8s.labels@, sel));
                                return false;
                            }
                        },
                        None => {
                            assert(label_value(k8s.labels@, sel[i as int].0) is None);
                            assert(!labels_selected(k8s.labels@, sel));
                            return false;
                        },
                    }
                    i += 1;
                }
                true
            },
            None => true,
        }
    }
}

/// An event from a namespace matching an exclude pattern is dropped, whatever
/// the include patterns say.
pub proof fn lemma_exclude_overrides_include(v: ScopeView, e: NormalizedEvent)
    requires
        e.k8s is Some,
        any_matches(v.exclude_ns, e.k8s->0.namespace@),
    ensures
        !scope_allows(v, e),
{
}

/// Events without K8s metadata are judged by the process layers alone.
pub proof fn lemma_bare_metal_ignores_k8s_rules(v: ScopeView, e: NormalizedEvent)
    requires
        e.k8s is None,
    ensures
        scope_allows(v, e) == (!any_matches(v.exclude_processes, e.process.binary@) && (
        v.targets.len() == 0 || any_matches(v.targets, e.process.binary@))),
{
}

/// With no rules at all, every event passes.
pub proof fn lemma_empty_scope_allows_all(v: ScopeView, e: NormalizedEvent)
    requires
        v.targets.len() == 0,
        v.exclude_processes.len() == 0,
        v.include_ns.len() == 0,
        v.exclude_ns.len() == 0,
        v.selectors.len() == 0,
    ensures
        scope_allows(v, e),
{
}

} // verus!
