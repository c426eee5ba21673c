use vectorguard::enforcer::{comm_key, compute_block_keys, BlockKeys};
use vectorguard::rules::{Rule, RuleAction};

fn block_rule(name: &str) -> Rule {
    Rule {
        name: name.into(),
        action: RuleAction::Block,
        description: None,
        match_process: vec![],
        match_path_prefix: vec![],
        match_exec_path: vec![],
        match_port: vec![],
        match_uid: None,
    }
}

#[test]
fn comm_key_short_name_is_zero_padded() {
    let k = comm_key("sh");
    assert_eq!(&k[..2], b"sh");
    assert!(k[2..].iter().all(|&b| b == 0));
}

#[test]
fn comm_key_long_name_is_truncated_to_16_bytes() {
    let k = comm_key("aaaaaaaaaaaaaaaaaaaa"); // 20 'a's
    assert_eq!(k, [b'a'; 16]);
}

#[test]
fn comm_key_exactly_16_bytes_fills_array() {
    let k = comm_key("0123456789abcdef");
    assert_eq!(&k[..], b"0123456789abcdef");
}

#[test]
fn compute_block_keys_skips_non_block_rules() {
    let mut r1 = block_rule("a");
    r1.match_process = vec!["nginx".into()];
    let mut r2 = Rule { action: RuleAction::Alert, ..block_rule("b") };
    r2.match_process = vec!["sshd".into()];

    let keys = compute_block_keys(&[r1, r2]);
    assert_eq!(keys.comms.len(), 1);
    assert_eq!(&keys.comms[0][..5], b"nginx");
}

#[test]
fn compute_block_keys_collects_ports_and_uids() {
    let mut r = block_rule("misc");
    r.match_port = vec![4444, 1337];
    r.match_uid = Some(0);

    let keys = compute_block_keys(&[r]);
    assert_eq!(keys.ports, vec![4444, 1337]);
    assert_eq!(keys.uids, vec![0]);
}

#[test]
fn compute_block_keys_handles_multiple_block_rules() {
    let mut r1 = block_rule("a");
    r1.match_process = vec!["nc".into(), "ncat".into()];
    let mut r2 = block_rule("b");
    r2.match_process = vec!["xmrig".into()];
    r2.match_uid = Some(1000);

    let keys = compute_block_keys(&[r1, r2]);
    assert_eq!(keys.comms.len(), 3);
    assert_eq!(keys.uids, vec![1000]);
}

#[test]
fn compute_block_keys_empty_on_no_block_rules() {
    let r = Rule { action: RuleAction::Log, ..block_rule("x") };
    let keys = compute_block_keys(&[r]);
    assert_eq!(keys, BlockKeys::default());
}

#[test]
fn comm_key_multibyte_name_counts_bytes() {
    // "é" is two UTF-8 bytes; nine of them fill 18 bytes, cut at 16.
    let k = comm_key("ééééééééé");
    let bytes = "ééééééééé".as_bytes();
    assert_eq!(&k[..], &bytes[..16]);
}

#[test]
fn compute_block_keys_keeps_rule_order() {
    let mut r1 = block_rule("a");
    r1.match_process = vec!["b".into()];
    r1.match_port = vec![22];
    let mut r2 = block_rule("b");
    r2.match_process = vec!["a".into()];
    r2.match_port = vec![21];
    let keys = compute_block_keys(&[r1, r2]);
    assert_eq!(keys.comms[0][0], b'b');
    assert_eq!(keys.comms[1][0], b'a');
    assert_eq!(keys.ports, vec![22, 21]);
}
