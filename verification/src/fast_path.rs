//! The fast path: synchronous rule evaluation that sets an event's action.
use vstd::prelude::*;
use crate::config::{DefaultAction, FastPathConfig};
use crate::event::{Action, NormalizedEvent, Severity};
use crate::rules::{action_of, first_match_at, is_builtin_rules, rule_matches, Rule, RuleSet};

verus! {

pub struct FastPath {
    ruleset: RuleSet,
    default_action: Action,
    enabled: bool,
}

pub open spec fn default_action_of(d: DefaultAction) -> Action {
    match d {
        DefaultAction::Block => Action::Blocked,
        DefaultAction::Alert => Action::Alerted,
        DefaultAction::Log => Action::Logged,
    }
}

/// Number of characters before the first glob metacharacter (`*`, `?`, `[`).
pub open spec fn literal_prefix_len(pat: Seq<char>) -> nat
    decreases pat.len(),
{
    if pat.len() == 0 || pat[0] == '*' || pat[0] == '?' || pat[0] == '[' {
        0
    } else {
        1 + literal_prefix_len(pat.drop_first())
    }
}

/// The kernel keeps only 15 characters of a process name, so a
/// process pattern whose literal part is longer can never block in-kernel.
pub fn exceeds_kernel_comm(pat: &str) -> (r: bool)
    ensures
        r == (literal_prefix_len(pat@) > 15),
{
    let v = crate::text::chars_of(pat);
    let mut i: usize = 0;
    assert(v@.skip(0) == v@);
    while i < v.len() && v[i] != '*' && v[i] != '?' && v[i] != '['
        invariant
            i <= v@.len(),
            literal_prefix_len(v@) == i + literal_prefix_len(v@.skip(i as int)),
        decreases v.len() - i,
    {
        assert(v@.skip(i as int).drop_first() == v@.skip(i + 1));
        i += 1;
    }
    i > 15
}

impl FastPath {
    /// The fast path for `cfg`, running `loaded` (the rules read from
    /// `cfg.rules_path`), or the built-in rules when none were loaded.
    pub fn new(cfg: &FastPathConfig, loaded: Vec<Rule>) -> (r: FastPath)
        ensures
            loaded@.len() > 0 ==> r.rule_list() == loaded@,
            loaded@.len() == 0 ==> is_builtin_rules(r.rule_list()),
            r.fallback() == default_action_of(cfg.default_action),
            r.is_enabled() == cfg.enabled,
    {
        let ruleset = RuleSet::from_loaded(loaded);
        let default_action = match cfg.default_action {
            DefaultAction::Block => Action::Blocked,
            DefaultAction::Alert => Action::Alerted,
            DefaultAction::Log => Action::Logged,
        };
        FastPath { ruleset, default_action, enabled: cfg.enabled }
    }

    pub closed spec fn rule_list(&self) -> Seq<Rule> {
        self.ruleset.rules@
    }

    pub closed spec fn fallback(&self) -> Action {
        self.default_action
    }

    pub closed spec fn is_enabled(&self) -> bool {
        self.enabled
    }

    /// All loaded rules (read by the kernel enforcer).
    pub fn rules(&self) -> (r: &[Rule])
        ensures
            r@ == self.rule_list(),
    {
        self.ruleset.rules.as_slice()
    }

    /// Applies the rules to `event`: its action becomes that of the first
    /// matching rule (and its rule name that rule's name), or the default
    /// action with no rule name; a Blocked or Alerted event is raised to High
    /// severity. A disabled fast path leaves the event as it is.
    pub fn evaluate(&self, event: &mut NormalizedEvent)
        ensures
            !self.is_enabled() ==> *final(event) == *old(event),
            self.is_enabled() ==> {
                &&& (exists|i: int| first_match_at(self.rule_list(), *old(event), i))
                    ==> (exists|i: int|
                    #![trigger self.rule_list()[i]]
                    first_match_at(self.rule_list(), *old(event), i)
                        && final(event).action == action_of(self.rule_list()[i].action)
                        && final(event).rule_name == Some(self.rule_list()[i].name))
                &&& (forall|i: int| 0 <= i < self.rule_list().len()
                    ==> !rule_matches(#[trigger] self.rule_list()[i], *old(event)))
                    ==> (final(event).action == self.fallback() && final(event).rule_name is None)
                &&& final(event).severity == (if final(event).action == Action::Blocked
                    || final(event).action == Action::Alerted {
                    Severity::High
                } else {
                    old(event).severity
                })
                &&& *final(event) == (NormalizedEvent {
                    action: final(event).action,
                    rule_name: final(event).rule_name,
                    severity: final(event).severity,
                    ..*old(event)
                })
            },
    {
        if !self.enabled {
            return;
        }
        let found = self.ruleset.evaluate(event);
        let (action, rule_name) = match found {
            Some((a, name)) => {
                proof {
                    let i = choose|i: int|
                        first_match_at(self.rule_list(), *event, i) && a == action_of(
                            #[trigger] self.rule_list()[i].action,
                        ) && name == self.rule_list()[i].name;
                    assert(rule_matches(self.rule_list()[i], *event));
                }
                (a, Some(name))
            },
            None => {
                proof {
                    assert forall|i: int| !first_match_at(self.rule_list(), *event, i) by {
                        if 0 <= i < self.rule_list().len() {
                            assert(!rule_matches(self.rule_list()[i], *event));
                        }
                    }
                }
                (self.default_action, None)
            },
        };
        event.action = action;
        event.rule_name = rule_name;
        if action == Action::Blocked || action == Action::Alerted {
            event.severity = Severity::High;
        }
    }
}

} // verus!
