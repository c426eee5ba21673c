//! Fast-path rules: conditions on an event and the action taken when all of
//! a rule's configured conditions hold.
use vstd::prelude::*;
use crate::event::{Action, EventType, NormalizedEvent};
use crate::pattern::{glob_hit, glob_hit_exec};
use crate::text::{chars_of, has_prefix, starts_with};

verus! {

broadcast use vstd::string::group_string_axioms;

#[derive(Debug)]
pub struct Rule {
    pub name: String,
    pub action: RuleAction,
    /// Free-text rationale; not used for matching.
    pub description: Option<String>,
    /// Glob patterns for the process binary name (e.g. "nginx", "py*").
    pub match_process: Vec<String>,
    /// Path prefixes for FileAccess events (e.g. "/etc/shadow").
    pub match_path_prefix: Vec<String>,
    /// Executable path prefixes for Exec events (e.g. "/bin/sh").
    pub match_exec_path: Vec<String>,
    /// Destination ports for Network events.
    pub match_port: Vec<u16>,
    /// UID match (0 = root).
    pub match_uid: Option<u32>,
}

#[derive(Debug, Clone, Copy, PartialEq, Eq, Structural)]
pub enum RuleAction {
    Block,
    Alert,
    Log,
    Allow,
}

/// The rules of one rule file, or of all rule files together.
#[derive(Debug)]
pub struct RuleSet {
    pub rules: Vec<Rule>,
}

pub open spec fn action_of(a: RuleAction) -> Action {
    match a {
        RuleAction::Block => Action::Blocked,
        RuleAction::Alert => Action::Alerted,
        RuleAction::Log => Action::Logged,
        RuleAction::Allow => Action::Allowed,
    }
}

impl RuleAction {
    pub fn to_action(&self) -> (r: Action)
        ensures
            r == action_of(*self),
    {
        match self {
            RuleAction::Block => Action::Blocked,
            RuleAction::Alert => Action::Alerted,
            RuleAction::Log => Action::Logged,
            RuleAction::Allow => Action::Allowed,
        }
    }
}

/// Some text in `texts` is a glob pattern that matches `text`.
pub open spec fn some_glob_hits(pats: Seq<String>, text: Seq<char>) -> bool {
    exists|i: int| 0 <= i < pats.len() && glob_hit(#[trigger] pats[i]@, text)
}

/// Some text in `prefixes` is a prefix of `text`.
pub open spec fn some_prefix(prefixes: Seq<String>, text: Seq<char>) -> bool {
    exists|i: int| 0 <= i < prefixes.len() && has_prefix(text, #[trigger] prefixes[i]@)
}

/// A rule matches an event when every condition it configures holds;
/// conditions on ports, paths and exec paths also require the matching
/// event kind.
pub open spec fn rule_matches(r: Rule, e: NormalizedEvent) -> bool {
    &&& (r.match_process@.len() == 0 || some_glob_hits(r.match_process@, e.process.binary@))
    &&& (r.match_uid matches Some(u) ==> e.process.uid == u)
    &&& (r.match_port@.len() == 0 || (e.event_type matches EventType::Network { port, .. }
        && r.match_port@.contains(port)))
    &&& (r.match_path_prefix@.len() == 0 || (e.event_type matches EventType::FileAccess {
        path,
        ..
    } && some_prefix(r.match_path_prefix@, path@)))
    &&& (r.match_exec_path@.len() == 0 || (e.event_type is Exec && some_prefix(
        r.match_exec_path@,
        e.process.binary@,
    )))
}

/// A rule that lists exec paths matches only exec events whose binary
/// starts with one of those paths.
pub proof fn lemma_exec_path_rule_needs_prefix(r: Rule, e: NormalizedEvent)
    requires
        rule_matches(r, e),
        r.match_exec_path@.len() > 0,
    ensures
        e.event_type is Exec,
        exists|i: int|
            0 <= i < r.match_exec_path@.len() && #[trigger] r.match_exec_path@[i]@.len()
                <= e.process.binary@.len() && e.process.binary@.take(
                r.match_exec_path@[i]@.len() as int,
            ) == r.match_exec_path@[i]@,
{
    let i = choose|i: int|
        0 <= i < r.match_exec_path@.len() && has_prefix(
            e.process.binary@,
            #[trigger] r.match_exec_path@[i]@,
        );
    assert(r.match_exec_path@[i]@.len() <= e.process.binary@.len());
}

/// An exec whose binary starts with none of a rule's exec paths never
/// matches that rule, whatever else the rule says.
pub proof fn lemma_exec_path_mismatch_excludes(r: Rule, e: NormalizedEvent)
    requires
        r.match_exec_path@.len() > 0,
        forall|i: int|
            0 <= i < r.match_exec_path@.len() ==> !(#[trigger] r.match_exec_path@[i]@.len()
                <= e.process.binary@.len() && e.process.binary@.take(
                r.match_exec_path@[i]@.len() as int,
            ) == r.match_exec_path@[i]@),
    ensures
        !rule_matches(r, e),
{
    if rule_matches(r, e) {
        lemma_exec_path_rule_needs_prefix(r, e);
    }
}

/// `rules[i]` is the first rule of `rules` that matches `e`.
pub open spec fn first_match_at(rules: Seq<Rule>, e: NormalizedEvent, i: int) -> bool {
    &&& 0 <= i < rules.len()
    &&& rule_matches(rules[i], e)
    &&& forall|j: int| 0 <= j < i ==> !rule_matches(#[trigger] rules[j], e)
}

fn any_glob_hit(pats: &Vec<String>, text: &str) -> (r: bool)
    ensures
        r == some_glob_hits(pats@, text@),
{
    let mut i: usize = 0;
    while i < pats.len()
        invariant
            i <= pats@.len(),
            forall|k: int| 0 <= k < i ==> !glob_hit(#[trigger] pats@[k]@, text@),
        decreases pats.len() - i,
    {
        if glob_hit_exec(pats[i].as_str(), text) {
            return true;
        }
        i += 1;
    }
    false
}

fn any_prefix(prefixes: &Vec<String>, text: &[char]) -> (r: bool)
    ensures
        r == some_prefix(prefixes@, text@),
{
    let mut i: usize = 0;
    while i < prefixes.len()
        invariant
            i <= prefixes@.len(),
            forall|k: int| 0 <= k < i ==> !has_prefix(text@, #[trigger] prefixes@[k]@),
        decreases prefixes.len() - i,
    {
        let p = chars_of(prefixes[i].as_str());
        if starts_with(text, &p) {
            return true;
        }
        i += 1;
    }
    false
}

fn contains_port(ports: &Vec<u16>, port: u16) -> (r: bool)
    ensures
        r == ports@.contains(port),
{
    let mut i: usize = 0;
    while i < ports.len()
        invariant
            i <= ports@.len(),
            forall|k: int| 0 <= k < i ==> ports@[k] != port,
        decreases ports.len() - i,
    {
        if ports[i] == port {
            return true;
        }
        i += 1;
    }
    false
}

impl Rule {
    /// Whether every condition this rule configures holds for `event`.
    pub fn matches(&self, event: &NormalizedEvent) -> (r: bool)
        ensures
            r == rule_matches(*self, *event),
    {
        if self.match_process.len() > 0 {
            if !any_glob_hit(&self.match_process, event.process.binary.as_str()) {
                return false;
            }
        }
        match self.match_uid {
            Some(uid) => {
                if event.process.uid != uid {
                    return false;
                }
            },
            None => {},
        }
        if self.match_port.len() > 0 {
            match &event.event_type {
                EventType::Network { port, .. } => {
                    if !contains_port(&self.match_port, *port) {
                        return false;
                    }
                },
                _ => {
                    return false;
                },
            }
        }
        if self.match_path_prefix.len() > 0 {
            match &event.event_type {
                EventType::FileAccess { path, .. } => {
                    let p = chars_of(path.as_str());
                    if !any_prefix(&self.match_path_prefix, &p) {
                        return false;
                    }
                },
                _ => {
                    return false;
                },
            }
        }
        if self.match_exec_path.len() > 0 {
            match &event.event_type {
                EventType::Exec => {
                    let b = chars_of(event.process.binary.as_str());
                    if !any_prefix(&self.match_exec_path, &b) {
                        return false;
                    }
                },
                _ => {
                    return false;
                },
            }
        }
        true
    }
}

fn strs(v: Vec<&str>) -> (r: Vec<String>)
    ensures
        r@.len() == v@.len(),
        forall|i: int| 0 <= i < v@.len() ==> #[trigger] r@[i]@ == v@[i]@,
{
    let mut r: Vec<String> = Vec::new();
    let mut i: usize = 0;
    while i < v.len()
        invariant
            i <= v@.len(),
            r@.len() == i,
            forall|k: int| 0 <= k < i ==> #[trigger] r@[k]@ == v@[k]@,
        decreases v.len() - i,
    {
        r.push(v[i].to_string());
        i += 1;
    }
    r
}

/// The texts of `v` are exactly `expected`, in order.
pub open spec fn texts_are(v: Seq<String>, expected: Seq<Seq<char>>) -> bool {
    &&& v.len() == expected.len()
    &&& forall|i: int| 0 <= i < v.len() ==> #[trigger] v[i]@ == expected[i]
}

/// The built-in rule set used when no rule file yields any rule.
pub open spec fn is_builtin_rules(r: Seq<Rule>) -> bool {
    &&& r.len() == 4
    &&& r[0].name@ == "block-shadow-access"@
    &&& r[0].action == RuleAction::Block
    &&& r[0].description is None
    &&& r[0].match_process@.len() == 0
    &&& texts_are(
        r[0].match_path_prefix@,
        seq!["/etc/shadow"@, "/etc/sudoers"@, "/etc/gshadow"@],
    )
    &&& r[0].match_exec_path@.len() == 0
    &&& r[0].match_port@.len() == 0
    &&& r[0].match_uid is None
    &&& r[1].name@ == "alert-shell-exec-by-service"@
    &&& r[1].action == RuleAction::Alert
    &&& r[1].description is None
    &&& texts_are(r[1].match_process@, seq!["nginx"@, "postgres"@, "apache2"@])
    &&& r[1].match_path_prefix@.len() == 0
    &&& texts_are(
        r[1].match_exec_path@,
        seq!["/bin/sh"@, "/bin/bash"@, "/bin/dash"@, "/usr/bin/python"@, "/usr/bin/perl"@],
    )
    &&& r[1].match_port@.len() == 0
    &&& r[1].match_uid is None
    &&& r[2].name@ == "alert-outbound-unusual-port"@
    &&& r[2].action == RuleAction::Alert
    &&& r[2].description is None
    &&& r[2].match_process@.len() == 0
    &&& r[2].match_path_prefix@.len() == 0
    &&& r[2].match_exec_path@.len() == 0
    &&& r[2].match_port@ == seq![4444u16, 1337u16, 31337u16, 9001u16, 8888u16]
    &&& r[2].match_uid is None
    &&& r[3].name@ == "alert-root-exec"@
    &&& r[3].action == RuleAction::Alert
    &&& r[3].description is None
    &&& r[3].match_process@.len() == 0
    &&& r[3].match_path_prefix@.len() == 0
    &&& texts_are(r[3].match_exec_path@, seq!["/usr/bin/wget"@, "/usr/bin/curl"@, "/usr/bin/nc"@])
    &&& r[3].match_port@.len() == 0
    &&& r[3].match_uid == Some(0u32)
}

impl RuleSet {
    /// The rules to run: those loaded from the rule files, or the built-in
    /// defaults when the files yield none.
    pub fn from_loaded(loaded: Vec<Rule>) -> (r: RuleSet)
        ensures
            loaded@.len() > 0 ==> r.rules@ == loaded@,
            loaded@.len() == 0 ==> is_builtin_rules(r.rules@),
    {
        if loaded.len() == 0 {
            RuleSet { rules: RuleSet::builtin_rules() }
        } else {
            RuleSet { rules: loaded }
        }
    }

    /// The action and name of the first rule that matches, or `None`.
    pub fn evaluate(&self, event: &NormalizedEvent) -> (r: Option<(Action, String)>)
        ensures
            match r {
                Some((a, name)) => exists|i: int|
                    first_match_at(self.rules@, *event, i) && a == action_of(
                        #[trigger] self.rules@[i].action,
                    ) && name == self.rules@[i].name,
                None => forall|i: int|
                    0 <= i < self.rules@.len() ==> !rule_matches(#[trigger] self.rules@[i], *event),
            },
    {
        let mut i: usize = 0;
        while i < self.rules.len()
            invariant
                i <= self.rules@.len(),
                forall|j: int| 0 <= j < i ==> !rule_matches(#[trigger] self.rules@[j], *event),
            decreases self.rules.len() - i,
        {
            let rule = &self.rules[i];
            if rule.matches(event) {
                assert(first_match_at(self.rules@, *event, i as int));
                return Some((rule.action.to_action(), rule.name.clone()));
            }
            i += 1;
        }
        None
    }

    pub fn builtin_rules() -> (r: Vec<Rule>)
        ensures
            is_builtin_rules(r@),
    {
        let r0 = Rule {
            name: "block-shadow-access".to_string(),
            action: RuleAction::Block,
            description: None,
            match_process: Vec::new(),
            match_path_prefix: strs(vec!["/etc/shadow", "/etc/sudoers", "/etc/gshadow"]),
            match_exec_path: Vec::new(),
            match_port: Vec::new(),
            match_uid: None,
        };
        let r1 = Rule {
            name: "alert-shell-exec-by-service".to_string(),
            action: RuleAction::Alert,
            description: None,
            match_process: strs(vec!["nginx", "postgres", "apache2"]),
            match_path_prefix: Vec::new(),
            match_exec_path: strs(
                vec!["/bin/sh", "/bin/bash", "/bin/dash", "/usr/bin/python", "/usr/bin/perl"],
            ),
            match_port: Vec::new(),
            match_uid: None,
        };
        let r2 = Rule {
            name: "alert-outbound-unusual-port".to_string(),
            action: RuleAction::Alert,
            description: None,
            match_process: Vec::new(),
            match_path_prefix: Vec::new(),
            match_exec_path: Vec::new(),
            match_port: vec![4444, 1337, 31337, 9001, 8888],
            match_uid: None,
        };
        let r3 = Rule {
            name: "alert-root-exec".to_string(),
            action: RuleAction::Alert,
            description: None,
            match_process: Vec::new(),
            match_path_prefix: Vec::new(),
            match_exec_path: strs(vec!["/usr/bin/wget", "/usr/bin/curl", "/usr/bin/nc"]),
            match_port: Vec::new(),
            match_uid: Some(0),
        };
        let r = vec![r0, r1, r2, r3];
        assert(r@[2].match_port@ =~= seq![4444u16, 1337u16, 31337u16, 9001u16, 8888u16]);
        r
    }
}

} // verus!
