//! Keys for the kernel block maps, computed from the fast-path rules.
//!
//! The kernel hooks look up three hash maps: process name (first 16 bytes of
//! `comm`), destination port, and UID. A hit makes the hook kill the process
//! or deny the call, without a round trip to user space.
use vstd::prelude::*;
use vstd::utf8::encode_utf8;
use crate::rules::{Rule, RuleAction};

verus! {

/// The 16-byte key of a name with the given UTF-8 bytes: the first 16 bytes,
/// zero-padded.
pub open spec fn comm_key_bytes(b: Seq<u8>) -> Seq<u8> {
    Seq::new(16, |i: int| if i < b.len() { b[i] } else { 0u8 })
}

/// Converts a process name to the 16-byte comm key of the eBPF map: longer
/// names are truncated, shorter ones zero-padded.
pub fn comm_key(name: &str) -> (key: [u8; 16])
    ensures
        key@ == comm_key_bytes(encode_utf8(name@)),
{
    let bytes = name.as_bytes();
    let len = if bytes.len() < 16 {
        bytes.len()
    } else {
        16
    };
    let mut key = [0u8; 16];
    let mut i: usize = 0;
    while i < len
        invariant
            len <= 16,
            len <= bytes@.len(),
            len == bytes@.len() || len == 16,
            i <= len,
            bytes@ == encode_utf8(name@),
            forall|j: int| 0 <= j < i ==> key@[j] == bytes@[j],
            forall|j: int| i <= j < 16 ==> key@[j] == 0,
        decreases len - i,
    {
        key[i] = bytes[i];
        i += 1;
    }
    assert(key@ =~= comm_key_bytes(encode_utf8(name@)));
    key
}

/// The keys to install in the kernel block maps.
#[derive(Debug, Default, PartialEq, Eq)]
pub struct BlockKeys {
    pub comms: Vec<[u8; 16]>,
    pub ports: Vec<u16>,
    pub uids: Vec<u32>,
}

/// The comm keys a rule contributes: one per process pattern of a Block rule.
pub open spec fn rule_comms(r: Rule) -> Seq<Seq<u8>> {
    if r.action == RuleAction::Block {
        r.match_process@.map_values(|s: String| comm_key_bytes(encode_utf8(s@)))
    } else {
        seq![]
    }
}

pub open spec fn rule_ports(r: Rule) -> Seq<u16> {
    if r.action == RuleAction::Block {
        r.match_port@
    } else {
        seq![]
    }
}

pub open spec fn rule_uids(r: Rule) -> Seq<u32> {
    if r.action == RuleAction::Block && r.match_uid is Some {
        seq![r.match_uid->0]
    } else {
        seq![]
    }
}

pub open spec fn block_comms(rules: Seq<Rule>) -> Seq<Seq<u8>>
    decreases rules.len(),
{
    if rules.len() == 0 {
        seq![]
    } else {
        block_comms(rules.drop_last()) + rule_comms(rules.last())
    }
}

pub open spec fn block_ports(rules: Seq<Rule>) -> Seq<u16>
    decreases rules.len(),
{
    if rules.len() == 0 {
        seq![]
    } else {
        block_ports(rules.drop_last()) + rule_ports(rules.last())
    }
}

pub open spec fn block_uids(rules: Seq<Rule>) -> Seq<u32>
    decreases rules.len(),
{
    if rules.len() == 0 {
        seq![]
    } else {
        block_uids(rules.drop_last()) + rule_uids(rules.last())
    }
}

/// Only Block rules put keys in the kernel maps: a UID is a key exactly
/// when some Block rule matches that UID, a port exactly when some Block
/// rule lists it, a comm key exactly when it is the key of a process name
/// of some Block rule. A list without Block rules gives no key at all.
pub proof fn lemma_only_block_rules_give_keys(rules: Seq<Rule>)
    ensures
        forall|u: u32|
            #[trigger] block_uids(rules).contains(u) <==> exists|i: int|
                0 <= i < rules.len() && (#[trigger] rules[i]).action == RuleAction::Block
                    && rules[i].match_uid == Some(u),
        forall|p: u16|
            #[trigger] block_ports(rules).contains(p) <==> exists|i: int|
                0 <= i < rules.len() && (#[trigger] rules[i]).action == RuleAction::Block
                    && rules[i].match_port@.contains(p),
        forall|c: Seq<u8>|
            #[trigger] block_comms(rules).contains(c) <==> exists|i: int, j: int|
                #![trigger rules[i].match_process@[j]]
                0 <= i < rules.len() && rules[i].action == RuleAction::Block && 0 <= j
                    < rules[i].match_process@.len() && c == comm_key_bytes(
                    encode_utf8(rules[i].match_process@[j]@),
                ),
        (forall|i: int| 0 <= i < rules.len() ==> (#[trigger] rules[i]).action != RuleAction::Block)
            ==> block_uids(rules).len() == 0 && block_ports(rules).len() == 0 && block_comms(
            rules,
        ).len() == 0,
    decreases rules.len(),
{
    if rules.len() > 0 {
        let d = rules.drop_last();
        let r = rules.last();
        let n = rules.len() - 1;
        lemma_only_block_rules_give_keys(d);
        assert(rules[n] == r);
        assert forall|i: int| 0 <= i < d.len() implies #[trigger] d[i] == rules[i] by {}
        assert forall|u: u32| #[trigger] block_uids(rules).contains(u) <==> exists|i: int|
            0 <= i < rules.len() && (#[trigger] rules[i]).action == RuleAction::Block
                && rules[i].match_uid == Some(u) by {
            let s = block_uids(rules);
            let sd = block_uids(d);
            let sr = rule_uids(r);
            assert(s == sd + sr);
            if s.contains(u) {
                let k = choose|k: int| 0 <= k < s.len() && s[k] == u;
                if k < sd.len() {
                    assert(sd[k] == u);
                    assert(sd.contains(u));
                    let i = choose|i: int|
                        0 <= i < d.len() && (#[trigger] d[i]).action == RuleAction::Block
                            && d[i].match_uid == Some(u);
                    assert(rules[i] == d[i]);
                } else {
                    assert(sr[k - sd.len()] == u);
                }
            }
            if exists|i: int|
                0 <= i < rules.len() && (#[trigger] rules[i]).action == RuleAction::Block
                    && rules[i].match_uid == Some(u) {
                let i = choose|i: int|
                    0 <= i < rules.len() && (#[trigger] rules[i]).action == RuleAction::Block
                        && rules[i].match_uid == Some(u);
                if i < n {
                    assert(d[i] == rules[i]);
                    assert(sd.contains(u));
                    let k = choose|k: int| 0 <= k < sd.len() && sd[k] == u;
                    assert(s[k] == u);
                } else {
                    assert(sr[0] == u);
                    assert(s[sd.len() as int] == u);
                }
            }
        }
        assert forall|p: u16| #[trigger] block_ports(rules).contains(p) <==> exists|i: int|
            0 <= i < rules.len() && (#[trigger] rules[i]).action == RuleAction::Block
                && rules[i].match_port@.contains(p) by {
            let s = block_ports(rules);
            let sd = block_ports(d);
            let sr = rule_ports(r);
            assert(s == sd + sr);
            if s.contains(p) {
                let k = choose|k: int| 0 <= k < s.len() && s[k] == p;
                if k < sd.len() {
                    assert(sd[k] == p);
                    assert(sd.contains(p));
                    let i = choose|i: int|
                        0 <= i < d.len() && (#[trigger] d[i]).action == RuleAction::Block
                            && d[i].match_port@.contains(p);
                    assert(rules[i] == d[i]);
                } else {
                    assert(sr[k - sd.len()] == p);
                    assert(r.match_port@.contains(p));
                }
            }
            if exists|i: int|
                0 <= i < rules.len() && (#[trigger] rules[i]).action == RuleAction::Block
                    && rules[i].match_port@.contains(p) {
                let i = choose|i: int|
                    0 <= i < rules.len() && (#[trigger] rules[i]).action == RuleAction::Block
                        && rules[i].match_port@.contains(p);
                if i < n {
                    assert(d[i] == rules[i]);
                    assert(sd.contains(p));
                    let k = choose|k: int| 0 <= k < sd.len() && sd[k] == p;
                    assert(s[k] == p);
                } else {
                    let k = choose|k: int| 0 <= k < sr.len() && sr[k] == p;
                    assert(s[sd.len() + k] == p);
                }
            }
        }
        assert forall|c: Seq<u8>| #[trigger] block_comms(rules).contains(c) <==> exists|i: int, j: int|
            #![trigger rules[i].match_process@[j]]
            0 <= i < rules.len() && rules[i].action == RuleAction::Block && 0 <= j
                < rules[i].match_process@.len() && c == comm_key_bytes(
                encode_utf8(rules[i].match_process@[j]@),
            ) by {
            let s = block_comms(rules);
            let sd = block_comms(d);
            let sr = rule_comms(r);
            assert(s == sd + sr);
            if s.contains(c) {
                let k = choose|k: int| 0 <= k < s.len() && s[k] == c;
                if k < sd.len() {
                    assert(sd[k] == c);
                    assert(sd.contains(c));
                    let (i, j) = choose|i: int, j: int|
                        #![trigger d[i].match_process@[j]]
                        0 <= i < d.len() && d[i].action == RuleAction::Block && 0 <= j
                            < d[i].match_process@.len() && c == comm_key_bytes(
                            encode_utf8(d[i].match_process@[j]@),
                        );
                    assert(rules[i] == d[i]);
                } else {
                    assert(sr[k - sd.len()] == c);
                    assert(r.action == RuleAction::Block);
                    assert(rules[n].match_process@.len() == sr.len());
                }
            }
            if exists|i: int, j: int|
                #![trigger rules[i].match_process@[j]]
                0 <= i < rules.len() && rules[i].action == RuleAction::Block && 0 <= j
                    < rules[i].match_process@.len() && c == comm_key_bytes(
                    encode_utf8(rules[i].match_process@[j]@),
                ) {
                let (i, j) = choose|i: int, j: int|
                    #![trigger rules[i].match_process@[j]]
                    0 <= i < rules.len() && rules[i].action == RuleAction::Block && 0
                        <= j < rules[i].match_process@.len() && c == comm_key_bytes(
                        encode_utf8(rules[i].match_process@[j]@),
                    );
                if i < n {
                    assert(d[i] == rules[i]);
                    assert(sd.contains(c));
                    let k = choose|k: int| 0 <= k < sd.len() && sd[k] == c;
                    assert(s[k] == c);
                } else {
                    assert(sr[j] == c);
                    assert(s[sd.len() + j] == c);
                }
            }
        }
        if forall|i: int| 0 <= i < rules.len() ==> (#[trigger] rules[i]).action != RuleAction::Block {
            assert forall|i: int| 0 <= i < d.len() implies (#[trigger] d[i]).action
                != RuleAction::Block by {
                assert(d[i] == rules[i]);
            }
            assert(r.action != RuleAction::Block);
        }
    }
}

/// The views of the comm keys.
pub open spec fn key_views(keys: Seq<[u8; 16]>) -> Seq<Seq<u8>> {
    keys.map_values(|k: [u8; 16]| k@)
}

/// The block-map keys for a rule list, in rule order: only Block rules
/// contribute, each with its process names, ports and UID.
pub fn compute_block_keys(rules: &[Rule]) -> (keys: BlockKeys)
    ensures
        key_views(keys.comms@) == block_comms(rules@),
        keys.ports@ == block_ports(rules@),
        keys.uids@ == block_uids(rules@),
{
    let mut comms: Vec<[u8; 16]> = Vec::new();
    let mut ports: Vec<u16> = Vec::new();
    let mut uids: Vec<u32> = Vec::new();
    let mut i: usize = 0;
    while i < rules.len()
        invariant
            i <= rules@.len(),
            key_views(comms@) == block_comms(rules@.take(i as int)),
            ports@ == block_ports(rules@.take(i as int)),
            uids@ == block_uids(rules@.take(i as int)),
        decreases rules.len() - i,
    {
        let rule = &rules[i];
        let ghost prefix = rules@.take(i as int);
        assert(rules@.take(i + 1).drop_last() == prefix);
        assert(rules@.take(i + 1).last() == *rule);
        if rule.action == RuleAction::Block {
            let ghost before = key_views(comms@);
            let mut j: usize = 0;
            while j < rule.match_process.len()
                invariant
                    j <= rule.match_process@.len(),
                    rule.action == RuleAction::Block,
                    key_views(comms@) == before + rule_comms(*rule).take(j as int),
                decreases rule.match_process.len() - j,
            {
                let k = comm_key(rule.match_process[j].as_str());
                let ghost views_before = key_views(comms@);
                comms.push(k);
                assert(key_views(comms@) =~= views_before.push(k@));
                assert(rule_comms(*rule)[j as int] == k@);
                assert(rule_comms(*rule).take(j + 1) =~= rule_comms(*rule).take(j as int).push(k@));
                assert(key_views(comms@) =~= before + rule_comms(*rule).take(j + 1));
                j += 1;
            }
            assert(rule_comms(*rule).take(j as int) =~= rule_comms(*rule));
            let ghost ports_before = ports@;
            let mut j: usize = 0;
            while j < rule.match_port.len()
                invariant
                    j <= rule.match_port@.len(),
                    ports@ == ports_before + rule.match_port@.take(j as int),
                decreases rule.match_port.len() - j,
            {
                ports.push(rule.match_port[j]);
                j += 1;
                assert(ports@ =~= ports_before + rule.match_port@.take(j as int));
            }
            assert(rule.match_port@.take(j as int) =~= rule.match_port@);
            match rule.match_uid {
                Some(uid) => {
                    uids.push(uid);
                },
                None => {},
            }
        }
        assert(key_views(comms@) =~= block_comms(rules@.take(i + 1)));
        assert(ports@ =~= block_ports(rules@.take(i + 1)));
        assert(uids@ =~= block_uids(rules@.take(i + 1)));
        i += 1;
    }
    assert(rules@.take(rules@.len() as int) == rules@);
    BlockKeys { comms, ports, uids }
}

} // verus!
