//! The AI rule advisor's trigger: it counts repeated security patterns
//! (the same binary doing the same thing with the same outcome) over a
//! sliding time window, and when one repeats often enough, outside its
//! cooldown, hands the most recent events to the model that proposes new
//! rules.
//!
//! Times are nanoseconds on a monotonic clock chosen by the caller.
use vstd::prelude::*;
use std::collections::VecDeque;
use crate::config::AiAdvisorConfig;
use crate::event::{
    action_name, is_incident_action, same_event, Action, EventType, NormalizedEvent,
};
use crate::text::{decimal, decimal_string, push_str};

verus! {

broadcast use {
    vstd::string::group_string_axioms,
    vstd::seq_lib::group_to_multiset_ensures,
    vstd::multiset::group_multiset_axioms,
};

/// A repeated security pattern: binary, target and action.
pub struct PatternKey {
    pub binary: String,
    pub detail: String,
    pub action: String,
}

pub open spec fn key_view(k: PatternKey) -> (Seq<char>, Seq<char>, Seq<char>) {
    (k.binary@, k.detail@, k.action@)
}

/// The pattern of an event: its binary; the file path, the port or (for an
/// exec) the binary again; and the action. Other kinds have none.
pub open spec fn event_pattern(e: NormalizedEvent) -> Option<(Seq<char>, Seq<char>, Seq<char>)> {
    match e.event_type {
        EventType::FileAccess { path, .. } => Some(
            (e.process.binary@, path@, action_name(e.action)),
        ),
        EventType::Network { port, .. } => Some(
            (e.process.binary@, decimal(port as nat), action_name(e.action)),
        ),
        EventType::Exec => Some((e.process.binary@, e.process.binary@, action_name(e.action))),
        _ => None,
    }
}

pub open spec fn pattern_or_none(e: NormalizedEvent) -> (Seq<char>, Seq<char>, Seq<char>) {
    match event_pattern(e) {
        Some(k) => k,
        None => (seq![], seq![], seq![]),
    }
}

/// The patterns of the window's events, in order.
pub open spec fn window_keys(w: Seq<(u64, NormalizedEvent)>) -> Seq<
    (Seq<char>, Seq<char>, Seq<char>),
> {
    w.map_values(|p: (u64, NormalizedEvent)| pattern_or_none(p.1))
}

/// How often a pattern occurs in the window.
pub open spec fn occurrences(
    w: Seq<(u64, NormalizedEvent)>,
    k: (Seq<char>, Seq<char>, Seq<char>),
) -> nat {
    window_keys(w).to_multiset().count(k)
}

/// Time from `t` to `now` in nanoseconds, 0 when `t` is later.
pub open spec fn elapsed(t: u64, now: u64) -> nat {
    if now >= t {
        (now - t) as nat
    } else {
        0
    }
}

/// An event seen at `t` has left a window of `secs` seconds at `now`.
pub open spec fn expired_at(t: u64, now: u64, secs: u64) -> bool {
    elapsed(t, now) > secs as nat * 1_000_000_000
}

/// Number of leading window entries that have expired.
pub open spec fn lead_expired(w: Seq<(u64, NormalizedEvent)>, now: u64, secs: u64) -> nat
    decreases w.len(),
{
    if w.len() > 0 && expired_at(w[0].0, now, secs) {
        1 + lead_expired(w.drop_first(), now, secs)
    } else {
        0
    }
}

/// The advisor counts an event when it is enabled with an API key and the
/// event is an incident with a pattern.
pub open spec fn tracks(cfg: AiAdvisorConfig, e: NormalizedEvent) -> bool {
    cfg.enabled && cfg.api_key@.len() > 0 && is_incident_action(e.action) && event_pattern(
        e,
    ) is Some
}

/// A pattern last handed to the model at `last` is still cooling down.
pub open spec fn cooling(last: Option<u64>, now: u64, secs: u64) -> bool {
    match last {
        Some(t) => elapsed(t, now) < secs as nat * 1_000_000_000,
        None => false,
    }
}

pub struct AiAdvisor {
    cfg: AiAdvisorConfig,
    rules_path: String,
    window: VecDeque<(u64, NormalizedEvent)>,
    counts: Vec<(PatternKey, u32)>,
    cooldowns: Vec<(PatternKey, u64)>,
}

impl AiAdvisor {
    pub closed spec fn config(&self) -> AiAdvisorConfig {
        self.cfg
    }

    pub closed spec fn rules_dir(&self) -> Seq<char> {
        self.rules_path@
    }

    /// The tracked events with the time each was seen, oldest first.
    pub closed spec fn window(&self) -> Seq<(u64, NormalizedEvent)> {
        self.window@
    }

    /// The recorded count of a pattern (0 when none is recorded).
    pub closed spec fn count_of(&self, k: (Seq<char>, Seq<char>, Seq<char>)) -> nat {
        if exists|i: int| 0 <= i < self.counts@.len() && key_view(#[trigger] self.counts@[i].0) == k {
            let i = choose|i: int|
                0 <= i < self.counts@.len() && key_view(#[trigger] self.counts@[i].0) == k;
            self.counts@[i].1 as nat
        } else {
            0
        }
    }

    /// When a pattern was last handed to the model.
    pub closed spec fn last_trigger(&self, k: (Seq<char>, Seq<char>, Seq<char>)) -> Option<u64> {
        if exists|i: int|
            0 <= i < self.cooldowns@.len() && key_view(#[trigger] self.cooldowns@[i].0) == k {
            let i = choose|i: int|
                0 <= i < self.cooldowns@.len() && key_view(#[trigger] self.cooldowns@[i].0) == k;
            Some(self.cooldowns@[i].1)
        } else {
            None
        }
    }

    /// Every tracked event has a pattern; each pattern is recorded once,
    /// with a positive count equal to its occurrences in the window, and
    /// every pattern in the window is recorded; each cooldown is recorded
    /// once.
    pub closed spec fn wf(&self) -> bool {
        let w = self.window@;
        let c = self.counts@;
        let d = self.cooldowns@;
        let m = window_keys(w).to_multiset();
        &&& forall|i: int| 0 <= i < w.len() ==> event_pattern(#[trigger] w[i].1) is Some
        &&& forall|i: int, j: int|
            0 <= i < j < c.len() ==> key_view(#[trigger] c[i].0) != key_view(#[trigger] c[j].0)
        &&& forall|i: int|
            0 <= i < c.len() ==> (#[trigger] c[i]).1 > 0 && c[i].1 == m.count(key_view(c[i].0))
        &&& forall|k: (Seq<char>, Seq<char>, Seq<char>)|
            #[trigger] m.count(k) > 0 ==> exists|i: int|
                0 <= i < c.len() && key_view(#[trigger] c[i].0) == k
        &&& forall|i: int, j: int|
            0 <= i < j < d.len() ==> key_view(#[trigger] d[i].0) != key_view(#[trigger] d[j].0)
    }
}

/// The count the advisor keeps of a pattern is the number of times the
/// pattern occurs among the events of its window.
pub proof fn lemma_counts_match_window(a: &AiAdvisor, k: (Seq<char>, Seq<char>, Seq<char>))
    requires
        a.wf(),
    ensures
        a.count_of(k) == occurrences(a.window(), k),
{
    if exists|i: int| 0 <= i < a.counts@.len() && key_view(#[trigger] a.counts@[i].0) == k {
        let i = choose|i: int| 0 <= i < a.counts@.len() && key_view(#[trigger] a.counts@[i].0) == k;
        assert(a.counts@[i].1 == window_keys(a.window@).to_multiset().count(k));
    } else {
        if window_keys(a.window@).to_multiset().count(k) > 0 {
            assert(false);
        }
    }
}

/// Every event in the advisor's window has a pattern.
pub proof fn lemma_window_has_patterns(a: &AiAdvisor, i: int)
    requires
        a.wf(),
        0 <= i < a.window().len(),
    ensures
        event_pattern(a.window()[i].1) is Some,
{
}

proof fn lemma_wf_new_cooldowns(a: AiAdvisor, b: AiAdvisor)
    requires
        a.wf(),
        b.window@ == a.window@,
        b.counts@ == a.counts@,
        forall|i: int, j: int|
            0 <= i < j < b.cooldowns@.len() ==> key_view(#[trigger] b.cooldowns@[i].0) != key_view(
                #[trigger] b.cooldowns@[j].0,
            ),
    ensures
        b.wf(),
{
}

fn key_eq(a: &PatternKey, b: &PatternKey) -> (r: bool)
    ensures
        r == (key_view(*a) == key_view(*b)),
{
    a.binary == b.binary && a.detail == b.detail && a.action == b.action
}

fn find_key<V>(v: &Vec<(PatternKey, V)>, k: &PatternKey) -> (r: Option<usize>)
    ensures
        match r {
            Some(i) => i < v@.len() && key_view(v@[i as int].0) == key_view(*k),
            None => forall|i: int| 0 <= i < v@.len() ==> key_view(#[trigger] v@[i].0) != key_view(*k),
        },
{
    let mut i: usize = 0;
    while i < v.len()
        invariant
            i <= v@.len(),
            forall|j: int| 0 <= j < i ==> key_view(#[trigger] v@[j].0) != key_view(*k),
        decreases v.len() - i,
    {
        if key_eq(&v[i].0, k) {
            return Some(i);
        }
        i += 1;
    }
    None
}

fn clone_key(k: &PatternKey) -> (r: PatternKey)
    ensures
        key_view(r) == key_view(*k),
{
    PatternKey { binary: k.binary.clone(), detail: k.detail.clone(), action: k.action.clone() }
}

/// The pattern of an event, when it has one.
pub fn pattern_key(e: &NormalizedEvent) -> (r: Option<PatternKey>)
    ensures
        match r {
            Some(k) => event_pattern(*e) == Some(key_view(k)),
            None => event_pattern(*e) is None,
        },
{
    let detail = match &e.event_type {
        EventType::FileAccess { path, .. } => path.clone(),
        EventType::Network { port, .. } => decimal_string(*port as u128),
        EventType::Exec => e.process.binary.clone(),
        _ => {
            return None;
        },
    };
    let mut action = String::new();
    push_str(&mut action, e.action.name());
    Some(PatternKey { binary: e.process.binary.clone(), detail, action })
}

proof fn lemma_keys_drop_first(w: Seq<(u64, NormalizedEvent)>)
    requires
        w.len() > 0,
    ensures
        window_keys(w.subrange(1, w.len() as int)).to_multiset() == window_keys(
            w,
        ).to_multiset().remove(pattern_or_none(w[0].1)),
{
    assert(window_keys(w.subrange(1, w.len() as int)) =~= window_keys(w).remove(0));
}

proof fn lemma_keys_push(w: Seq<(u64, NormalizedEvent)>, p: (u64, NormalizedEvent))
    ensures
        window_keys(w.push(p)).to_multiset() == window_keys(w).to_multiset().insert(
            pattern_or_none(p.1),
        ),
{
    assert(window_keys(w.push(p)) =~= window_keys(w).push(pattern_or_none(p.1)));
}

impl AiAdvisor {
    pub fn new(cfg: AiAdvisorConfig, rules_path: String) -> (a: AiAdvisor)
        ensures
            a.wf(),
            a.config() == cfg,
            a.rules_dir() == rules_path@,
            a.window().len() == 0,
            forall|k| a.last_trigger(k) is None,
    {
        let a = AiAdvisor {
            cfg,
            rules_path,
            window: VecDeque::new(),
            counts: Vec::new(),
            cooldowns: Vec::new(),
        };
        assert(window_keys(a.window@) =~= Seq::empty());
        a
    }

    /// Replaces the configuration; what has been counted stays.
    pub fn update_config(&mut self, cfg: AiAdvisorConfig)
        requires
            old(self).wf(),
        ensures
            final(self).wf(),
            final(self).config() == cfg,
            final(self).rules_dir() == old(self).rules_dir(),
            final(self).window() == old(self).window(),
            forall|k| final(self).count_of(k) == old(self).count_of(k),
            forall|k| final(self).last_trigger(k) == old(self).last_trigger(k),
    {
        self.cfg = cfg;
        assert(self.counts@ == old(self).counts@);
        assert(self.cooldowns@ == old(self).cooldowns@);
    }

    /// The configuration in force.
    pub fn config_ref(&self) -> (r: &AiAdvisorConfig)
        ensures
            *r == self.config(),
    {
        &self.cfg
    }

    /// Number of events in the window.
    pub fn window_len(&self) -> (r: usize)
        ensures
            r == self.window().len(),
    {
        self.window.len()
    }

    /// The directory the advisor reads the current rules from.
    pub fn rules_path(&self) -> (r: &str)
        ensures
            r@ == self.rules_dir(),
    {
        self.rules_path.as_str()
    }

    /// Removes the first window entry and takes it off its pattern's count.
    #[verifier::spinoff_prover]
    fn evict_front(&mut self)
        requires
            old(self).wf(),
            old(self).window@.len() > 0,
        ensures
            final(self).wf(),
            final(self).window@ == old(self).window@.subrange(1, old(self).window@.len() as int),
            final(self).cfg == old(self).cfg,
            final(self).rules_path == old(self).rules_path,
            final(self).cooldowns == old(self).cooldowns,
    {
        let ghost w0 = self.window@;
        let ghost c0 = self.counts@;
        let ghost m0 = window_keys(w0).to_multiset();
        let front = self.window.pop_front();
        let (_, old_ev) = match front {
            Some(p) => p,
            None => {
                return;
            },
        };
        let ghost k0 = pattern_or_none(old_ev);
        proof {
            lemma_keys_drop_first(w0);
            assert(event_pattern(w0[0].1) is Some);
        }
        let ghost m1 = window_keys(self.window@).to_multiset();
        assert(m1 == m0.remove(k0));
        let key = match pattern_key(&old_ev) {
            Some(k) => k,
            None => {
                return;
            },
        };
        assert(key_view(key) == k0);
        match find_key(&self.counts, &key) {
            Some(i) => {
                let c = self.counts[i].1;
                assert(c == m0.count(k0));
                if c <= 1 {
                    self.counts.remove(i);
                    proof {
                        let c1 = self.counts@;
                        assert(m1.count(k0) == 0);
                        assert forall|j: int| 0 <= j < c1.len() implies c1[j].1 > 0 && c1[j].1
                            == m1.count(key_view(#[trigger] c1[j].0)) by {
                            let oj = if j < i {
                                j
                            } else {
                                j + 1
                            };
                            assert(c1[j] == c0[oj]);
                            assert(key_view(c0[oj].0) != k0);
                        }
                        assert forall|k: (Seq<char>, Seq<char>, Seq<char>)| #[trigger]
                            m1.count(k) > 0 implies exists|j: int|
                            0 <= j < c1.len() && key_view(#[trigger] c1[j].0) == k by {
                            assert(m0.count(k) > 0);
                            let oj = choose|oj: int|
                                0 <= oj < c0.len() && key_view(#[trigger] c0[oj].0) == k;
                            assert(oj != i);
                            if oj < i {
                                assert(c1[oj] == c0[oj]);
                            } else {
                                assert(c1[oj - 1] == c0[oj]);
                            }
                        }
                        assert forall|a: int, b: int| 0 <= a < b < c1.len() implies key_view(
                            #[trigger] c1[a].0,
                        ) != key_view(#[trigger] c1[b].0) by {
                            let oa = if a < i {
                                a
                            } else {
                                a + 1
                            };
                            let ob = if b < i {
                                b
                            } else {
                                b + 1
                            };
                            assert(c1[a] == c0[oa]);
                            assert(c1[b] == c0[ob]);
                        }
                    }
                } else {
                    self.counts.set(i, (key, c - 1));
                    proof {
                        let c1 = self.counts@;
                        assert forall|j: int| 0 <= j < c1.len() implies c1[j].1 > 0 && c1[j].1
                            == m1.count(key_view(#[trigger] c1[j].0)) by {
                            if j != i {
                                assert(c1[j] == c0[j]);
                                assert(key_view(c0[j].0) != k0);
                            }
                        }
                        assert forall|k: (Seq<char>, Seq<char>, Seq<char>)| #[trigger]
                            m1.count(k) > 0 implies exists|j: int|
                            0 <= j < c1.len() && key_view(#[trigger] c1[j].0) == k by {
                            assert(m0.count(k) > 0);
                            let oj = choose|oj: int|
                                0 <= oj < c0.len() && key_view(#[trigger] c0[oj].0) == k;
                            if oj != i {
                                assert(c1[oj] == c0[oj]);
                            } else {
                                assert(key_view(c1[oj].0) == k);
                            }
                        }
                        assert forall|a: int, b: int| 0 <= a < b < c1.len() implies key_view(
                            #[trigger] c1[a].0,
                        ) != key_view(#[trigger] c1[b].0) by {
                            if a != i {
                                assert(c1[a] == c0[a]);
                            }
                            if b != i {
                                assert(c1[b] == c0[b]);
                            }
                        }
                    }
                }
            },
            None => {
                proof {
                    assert(window_keys(w0)[0] == k0);
                    assert(window_keys(w0).contains(k0));
                    assert(m0.count(k0) > 0);
                    let oj = choose|oj: int|
                        0 <= oj < c0.len() && key_view(#[trigger] c0[oj].0) == k0;
                    assert(false);
                }
            },
        }
    }

    /// Drops the events that have left the time window, oldest first.
    fn evict_expired(&mut self, now: u64)
        requires
            old(self).wf(),
        ensures
            final(self).wf(),
            final(self).window@ == old(self).window@.skip(
                lead_expired(old(self).window@, now, old(self).cfg.window_secs) as int,
            ),
            final(self).cfg == old(self).cfg,
            final(self).rules_path == old(self).rules_path,
            final(self).cooldowns == old(self).cooldowns,
    {
        let ghost w0 = self.window@;
        let ghost secs = self.cfg.window_secs;
        let limit: u128 = self.cfg.window_secs as u128 * 1_000_000_000;
        let ghost mut n: nat = 0;
        assert(w0.skip(0) =~= w0);
        while self.window.len() > 0
            invariant
                self.wf(),
                self.cfg.window_secs == secs,
                self.cfg == old(self).cfg,
                self.rules_path == old(self).rules_path,
                self.cooldowns == old(self).cooldowns,
                w0 == old(self).window@,
                limit == secs as nat * 1_000_000_000,
                n <= w0.len(),
                self.window@ == w0.skip(n as int),
                lead_expired(w0, now, secs) == n + lead_expired(self.window@, now, secs),
            ensures
                self.wf(),
                self.cfg == old(self).cfg,
                self.rules_path == old(self).rules_path,
                self.cooldowns == old(self).cooldowns,
                self.window@ == w0.skip(n as int),
                lead_expired(w0, now, secs) == n,
            decreases self.window@.len(),
        {
            let t = self.window[0].0;
            let age: u128 = if now >= t {
                (now - t) as u128
            } else {
                0
            };
            if age <= limit {
                break;
            }
            let ghost w = self.window@;
            assert(w.drop_first() =~= w.subrange(1, w.len() as int));
            self.evict_front();
            proof {
                n = n + 1;
                assert(self.window@ =~= w0.skip(n as int));
            }
        }
    }

    /// Appends an event to the window and counts its pattern.
    #[verifier::spinoff_prover]
    fn enter(&mut self, now: u64, event: &NormalizedEvent, key: PatternKey) -> (count: u32)
        requires
            old(self).wf(),
            old(self).window@.len() < u32::MAX,
            event_pattern(*event) == Some(key_view(key)),
        ensures
            final(self).wf(),
            final(self).window@.len() == old(self).window@.len() + 1,
            forall|i: int|
                0 <= i < old(self).window@.len() ==> final(self).window@[i] == old(
                    self,
                ).window@[i],
            final(self).window@.last().0 == now,
            same_event(final(self).window@.last().1, *event),
            count == occurrences(final(self).window@, key_view(key)),
            final(self).cfg == old(self).cfg,
            final(self).rules_path == old(self).rules_path,
            final(self).cooldowns == old(self).cooldowns,
    {
        let ghost w0 = self.window@;
        let ghost c0 = self.counts@;
        let ghost m0 = window_keys(w0).to_multiset();
        let ghost k = key_view(key);
        let copy = event.clone();
        assert(event_pattern(copy) == event_pattern(*event));
        self.window.push_back((now, copy));
        proof {
            lemma_keys_push(w0, (now, copy));
            assert(self.window@ =~= w0.push((now, copy)));
        }
        let ghost m1 = window_keys(self.window@).to_multiset();
        assert(m1 == m0.insert(k));
        proof {
            assert forall|i: int| 0 <= i < self.window@.len() implies event_pattern(
                #[trigger] self.window@[i].1,
            ) is Some by {
                if i < w0.len() {
                    assert(self.window@[i] == w0[i]);
                }
            }
        }
        match find_key(&self.counts, &key) {
            Some(i) => {
                let c = self.counts[i].1;
                proof {
                    assert(c == m0.count(k));
                    assert(m0.count(k) <= m0.len());
                    assert(m0.len() == w0.len()) by {
                        assert(window_keys(w0).len() == w0.len());
                    }
                }
                self.counts.set(i, (key, c + 1));
                proof {
                    let c1 = self.counts@;
                    assert forall|j: int| 0 <= j < c1.len() implies c1[j].1 > 0 && c1[j].1
                        == m1.count(key_view(#[trigger] c1[j].0)) by {
                        if j != i {
                            assert(c1[j] == c0[j]);
                            assert(key_view(c0[j].0) != k);
                        }
                    }
                    assert forall|kk: (Seq<char>, Seq<char>, Seq<char>)| #[trigger]
                        m1.count(kk) > 0 implies exists|j: int|
                        0 <= j < c1.len() && key_view(#[trigger] c1[j].0) == kk by {
                        if kk == k {
                            assert(key_view(c1[i as int].0) == kk);
                        } else {
                            assert(m0.count(kk) > 0);
                            let oj = choose|oj: int|
                                0 <= oj < c0.len() && key_view(#[trigger] c0[oj].0) == kk;
                            assert(oj != i);
                            assert(c1[oj] == c0[oj]);
                        }
                    }
                    assert forall|a: int, b: int| 0 <= a < b < c1.len() implies key_view(
                        #[trigger] c1[a].0,
                    ) != key_view(#[trigger] c1[b].0) by {
                        if a != i {
                            assert(c1[a] == c0[a]);
                        }
                        if b != i {
                            assert(c1[b] == c0[b]);
                        }
                    }
                }
                c + 1
            },
            None => {
                proof {
                    if m0.count(k) > 0 {
                        let oj = choose|oj: int|
                            0 <= oj < c0.len() && key_view(#[trigger] c0[oj].0) == k;
                        assert(false);
                    }
                }
                self.counts.push((key, 1));
                proof {
                    let c1 = self.counts@;
                    assert forall|j: int| 0 <= j < c1.len() implies c1[j].1 > 0 && c1[j].1
                        == m1.count(key_view(#[trigger] c1[j].0)) by {
                        if j < c0.len() {
                            assert(c1[j] == c0[j]);
                            assert(key_view(c0[j].0) != k);
                        }
                    }
                    assert forall|kk: (Seq<char>, Seq<char>, Seq<char>)| #[trigger]
                        m1.count(kk) > 0 implies exists|j: int|
                        0 <= j < c1.len() && key_view(#[trigger] c1[j].0) == kk by {
                        if kk == k {
                            assert(key_view(c1[c0.len() as int].0) == kk);
                        } else {
                            assert(m0.count(kk) > 0);
                            let oj = choose|oj: int|
                                0 <= oj < c0.len() && key_view(#[trigger] c0[oj].0) == kk;
                            assert(c1[oj] == c0[oj]);
                        }
                    }
                    assert forall|a: int, b: int| 0 <= a < b < c1.len() implies key_view(
                        #[trigger] c1[a].0,
                    ) != key_view(#[trigger] c1[b].0) by {
                        assert(c1[a] == c0[a]);
                        if b < c0.len() {
                            assert(c1[b] == c0[b]);
                        }
                    }
                }
                1
            },
        }
    }

    /// Whether a pattern may trigger now; when it may, its trigger time
    /// becomes `now`.
    #[verifier::spinoff_prover]
    fn take_cooldown(&mut self, key: PatternKey, now: u64) -> (fires: bool)
        requires
            old(self).wf(),
        ensures
            final(self).wf(),
            fires == !cooling(old(self).last_trigger(key_view(key)), now, old(self).cfg.cooldown_seconds),
            forall|k|
                final(self).last_trigger(k) == if fires && k == key_view(key) {
                    Some(now)
                } else {
                    old(self).last_trigger(k)
                },
            final(self).cfg == old(self).cfg,
            final(self).rules_path == old(self).rules_path,
            final(self).window == old(self).window,
            final(self).counts == old(self).counts,
    {
        let ghost d0 = self.cooldowns@;
        let ghost before: AiAdvisor = *self;
        let ghost k = key_view(key);
        let limit: u128 = self.cfg.cooldown_seconds as u128 * 1_000_000_000;
        match find_key(&self.cooldowns, &key) {
            Some(i) => {
                let last = self.cooldowns[i].1;
                proof {
                    assert(old(self).last_trigger(k) == Some(last)) by {
                        let j = choose|j: int|
                            0 <= j < d0.len() && key_view(#[trigger] d0[j].0) == k;
                        assert(j == i);
                    }
                }
                let age: u128 = if now >= last {
                    (now - last) as u128
                } else {
                    0
                };
                if age < limit {
                    assert(self.wf());
                    return false;
                }
                self.cooldowns.set(i, (key, now));
                proof {
                    let d1 = self.cooldowns@;
                    assert forall|a: int, b: int| 0 <= a < b < d1.len() implies key_view(
                        #[trigger] d1[a].0,
                    ) != key_view(#[trigger] d1[b].0) by {
                        if a != i {
                            assert(d1[a] == d0[a]);
                        }
                        if b != i {
                            assert(d1[b] == d0[b]);
                        }
                    }
                    assert forall|kk| #[trigger]
                        self.last_trigger(kk) == if kk == k {
                            Some(now)
                        } else {
                            old(self).last_trigger(kk)
                        } by {
                        if kk == k {
                            let j = choose|j: int|
                                0 <= j < d1.len() && key_view(#[trigger] d1[j].0) == kk;
                            assert(key_view(d1[i as int].0) == kk);
                            assert(j == i);
                        } else {
                            if exists|j: int| 0 <= j < d0.len() && key_view(#[trigger] d0[j].0) == kk {
                                let j = choose|j: int|
                                    0 <= j < d0.len() && key_view(#[trigger] d0[j].0) == kk;
                                assert(j != i);
                                assert(d1[j] == d0[j]);
                                let j1 = choose|j1: int|
                                    0 <= j1 < d1.len() && key_view(#[trigger] d1[j1].0) == kk;
                                assert(j1 != i);
                                assert(d1[j1] == d0[j1]);
                            } else {
                                if exists|j: int| 0 <= j < d1.len() && key_view(#[trigger] d1[j].0) == kk {
                                    let j = choose|j: int|
                                        0 <= j < d1.len() && key_view(#[trigger] d1[j].0) == kk;
                                    assert(j != i);
                                    assert(d1[j] == d0[j]);
                                }
                            }
                        }
                    }
                    lemma_wf_new_cooldowns(before, *self);
                }
                true
            },
            None => {
                assert(old(self).last_trigger(k) is None);
                self.cooldowns.push((key, now));
                proof {
                    let d1 = self.cooldowns@;
                    assert forall|a: int, b: int| 0 <= a < b < d1.len() implies key_view(
                        #[trigger] d1[a].0,
                    ) != key_view(#[trigger] d1[b].0) by {
                        assert(d1[a] == d0[a]);
                        if b < d0.len() {
                            assert(d1[b] == d0[b]);
                        }
                    }
                    assert forall|kk| #[trigger]
                        self.last_trigger(kk) == if kk == k {
                            Some(now)
                        } else {
                            old(self).last_trigger(kk)
                        } by {
                        if kk == k {
                            let j = choose|j: int|
                                0 <= j < d1.len() && key_view(#[trigger] d1[j].0) == kk;
                            assert(key_view(d1[d0.len() as int].0) == kk);
                            assert(j == d0.len());
                        } else {
                            if exists|j: int| 0 <= j < d0.len() && key_view(#[trigger] d0[j].0) == kk {
                                let j = choose|j: int|
                                    0 <= j < d0.len() && key_view(#[trigger] d0[j].0) == kk;
                                assert(d1[j] == d0[j]);
                                let j1 = choose|j1: int|
                                    0 <= j1 < d1.len() && key_view(#[trigger] d1[j1].0) == kk;
                                assert(j1 < d0.len());
                                assert(d1[j1] == d0[j1]);
                            } else {
                                if exists|j: int| 0 <= j < d1.len() && key_view(#[trigger] d1[j].0) == kk {
                                    let j = choose|j: int|
                                        0 <= j < d1.len() && key_view(#[trigger] d1[j].0) == kk;
                                    assert(j < d0.len());
                                    assert(d1[j] == d0[j]);
                                }
                            }
                        }
                    }
                    lemma_wf_new_cooldowns(before, *self);
                }
                true
            },
        }
    }

    /// The most recent window events, newest first, at most `size` of them.
    fn recent(&self, size: usize) -> (ctx: Vec<NormalizedEvent>)
        ensures
            ctx@.len() == if size < self.window@.len() {
                size as nat
            } else {
                self.window@.len()
            },
            forall|j: int|
                0 <= j < ctx@.len() ==> same_event(
                    #[trigger] ctx@[j],
                    self.window@[self.window@.len() - 1 - j].1,
                ),
    {
        let mut ctx: Vec<NormalizedEvent> = Vec::new();
        let n = self.window.len();
        let mut j: usize = 0;
        while j < size && j < n
            invariant
                n == self.window@.len(),
                j <= n,
                j <= size,
                ctx@.len() == j,
                forall|i: int|
                    0 <= i < j ==> same_event(#[trigger] ctx@[i], self.window@[n - 1 - i].1),
            decreases n - j,
        {
            let e = self.window[n - 1 - j].1.clone();
            ctx.push(e);
            j += 1;
        }
        ctx
    }

    /// Counts an event and decides whether its pattern calls for new rules.
    ///
    /// Untracked events (advisor disabled or without key, events that are
    /// not incidents, events without a pattern) change nothing. A tracked
    /// event first expires the window's oldest events, then joins the
    /// window; when its pattern now occurs at least `trigger_threshold`
    /// times and is not cooling down, the pattern's trigger time becomes
    /// `now` and the `context_window_size` most recent events, newest first,
    /// are returned for the model.
    pub fn analyze(&mut self, event: &NormalizedEvent, now: u64) -> (r: Option<Vec<NormalizedEvent>>)
        requires
            old(self).wf(),
            old(self).window().len() < u32::MAX,
        ensures
            final(self).wf(),
            final(self).config() == old(self).config(),
            final(self).rules_dir() == old(self).rules_dir(),
            !tracks(old(self).config(), *event) ==> {
                &&& r is None
                &&& final(self).window() == old(self).window()
                &&& forall|k| final(self).last_trigger(k) == old(self).last_trigger(k)
            },
            tracks(old(self).config(), *event) ==> {
                let cfg = old(self).config();
                let w0 = old(self).window();
                let n = lead_expired(w0, now, cfg.window_secs);
                let w = final(self).window();
                let key = pattern_or_none(*event);
                let fires = occurrences(w, key) >= cfg.trigger_threshold && !cooling(
                    old(self).last_trigger(key),
                    now,
                    cfg.cooldown_seconds,
                );
                &&& w.len() == w0.len() - n + 1
                &&& forall|i: int| 0 <= i < w.len() - 1 ==> w[i] == w0[i + n]
                &&& w.last().0 == now
                &&& same_event(w.last().1, *event)
                &&& r.is_some() == fires
                &&& forall|k|
                    final(self).last_trigger(k) == if fires && k == key {
                        Some(now)
                    } else {
                        old(self).last_trigger(k)
                    }
                &&& r matches Some(ctx) ==> {
                    &&& ctx@.len() == if cfg.context_window_size < w.len() {
                        cfg.context_window_size as nat
                    } else {
                        w.len()
                    }
                    &&& forall|j: int|
                        0 <= j < ctx@.len() ==> same_event(#[trigger] ctx@[j], w[w.len() - 1 - j].1)
                }
            },
    {
        if !self.cfg.enabled || self.cfg.api_key.as_str().is_empty() {
            return None;
        }
        match event.action {
            Action::Blocked | Action::Alerted | Action::Killed => {},
            _ => {
                return None;
            },
        }
        let key = match pattern_key(event) {
            Some(k) => k,
            None => {
                return None;
            },
        };
        let ghost w0 = self.window@;
        let ghost n = lead_expired(w0, now, self.cfg.window_secs);
        proof {
            lemma_lead_expired_bound(w0, now, self.cfg.window_secs);
        }
        self.evict_expired(now);
        let ghost w1 = self.window@;
        let count_key = clone_key(&key);
        let count = self.enter(now, event, count_key);
        proof {
            let w = self.window@;
            assert forall|i: int| 0 <= i < w.len() - 1 implies w[i] == w0[i + n] by {
                assert(w[i] == w1[i]);
            }
        }
        if count < self.cfg.trigger_threshold {
            return None;
        }
        let fires = self.take_cooldown(key, now);
        if !fires {
            return None;
        }
        let size = self.cfg.context_window_size;
        Some(self.recent(size))
    }
}

proof fn lemma_lead_expired_bound(w: Seq<(u64, NormalizedEvent)>, now: u64, secs: u64)
    ensures
        lead_expired(w, now, secs) <= w.len(),
    decreases w.len(),
{
    if w.len() > 0 && expired_at(w[0].0, now, secs) {
        lemma_lead_expired_bound(w.drop_first(), now, secs);
    }
}

} // verus!
