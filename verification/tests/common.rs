use vectorguard::common::{
    connect_verdict, exec_blocked, exec_verdict, parse_sockaddr, port_blocked, split_halves, EventKind, EventPayload,
    NetPayload, RawEvent,
};

fn raw(comm: &[u8]) -> RawEvent {
    let mut c = [0u8; 64];
    c[..comm.len()].copy_from_slice(comm);
    RawEvent {
        kind: EventKind::NetConnect,
        timestamp: 1,
        pid: 2,
        ppid: 3,
        uid: 4,
        gid: 5,
        comm: c,
        payload: EventPayload::Net(NetPayload { dst_ip: 0x7f000001, dst_port: 80, proto: 6, _pad: 0 }),
        blocked: 0,
        _pad: [0; 7],
    }
}

#[test]
fn comm_str_stops_at_nul() {
    assert_eq!(raw(b"bash").comm_str(), "bash");
    assert_eq!(raw(b"").comm_str(), "");
    assert_eq!(raw(&[b'a'; 64]).comm_str(), "a".repeat(64));
    assert_eq!(raw("héllo".as_bytes()).comm_str(), "héllo");
}

#[test]
fn comm_str_rejects_invalid_utf8() {
    assert_eq!(raw(&[0xff, 0xfe, b'x']).comm_str(), "<invalid>");
}

#[test]
fn helper_halves() {
    assert_eq!(split_halves(0x0000_0007_0000_0009), (7, 9));
    assert_eq!(split_halves(u64::MAX), (u32::MAX, u32::MAX));
}

#[test]
fn exec_blocking_decisions() {
    assert!(exec_blocked(true, false));
    assert!(exec_blocked(false, true));
    assert!(!exec_blocked(false, false));
    assert_eq!(exec_verdict(true, false), -1);
    assert_eq!(exec_verdict(false, true), -1);
    assert_eq!(exec_verdict(false, false), 0);
}

#[test]
fn sockaddr_ipv4_and_ipv6() {
    let mut sa = [0u8; 28];
    sa[0] = 2; // AF_INET, little-endian
    sa[2] = 0x11;
    sa[3] = 0x5c; // port 4444
    sa[4..8].copy_from_slice(&[10, 0, 0, 1]);
    let t = parse_sockaddr(&sa).unwrap();
    assert_eq!(t.family, 4);
    assert_eq!(t.port, 4444);
    assert_eq!(&t.addr[..4], &[10, 0, 0, 1]);
    assert!(t.addr[4..].iter().all(|&b| b == 0));

    let mut sa6 = [0u8; 28];
    sa6[0] = 10; // AF_INET6
    sa6[3] = 80;
    for i in 0..16 {
        sa6[8 + i] = i as u8 + 1;
    }
    let t6 = parse_sockaddr(&sa6).unwrap();
    assert_eq!(t6.family, 6);
    assert_eq!(t6.port, 80);
    assert_eq!(t6.addr[0], 1);
    assert_eq!(t6.addr[15], 16);

    let mut unix = [0u8; 28];
    unix[0] = 1; // AF_UNIX
    assert!(parse_sockaddr(&unix).is_none());
}

#[test]
fn connect_to_blocked_port_kills() {
    let mut sa = [0u8; 28];
    sa[0] = 2; // AF_INET, little-endian
    sa[2] = 0x11;
    sa[3] = 0x5c; // port 4444
    sa[4..8].copy_from_slice(&[10, 0, 0, 1]);
    let (t, kill) = connect_verdict(&sa, &[22, 4444]).unwrap();
    assert_eq!(t.port, 4444);
    assert_eq!(t.family, 4);
    assert!(kill);
    let (_, kill) = connect_verdict(&sa, &[22]).unwrap();
    assert!(!kill);
    assert!(port_blocked(22, &[80, 22]));
    assert!(!port_blocked(22, &[]));
    sa[0] = 1; // AF_UNIX
    assert!(connect_verdict(&sa, &[4444]).is_none());
}
