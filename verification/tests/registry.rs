use nimbus_rendezvous::peer::PeerMap;
use nimbus_rendezvous::protocol::{
    RegisterPk, RegisterPkResult, RendezvousMessage, SockAddr,
};
use nimbus_rendezvous::rendezvous_server::RendezvousServer;

fn server() -> RendezvousServer {
    RendezvousServer::new(3, "10.0.0.1".to_owned(), vec!["rs.example".to_owned()])
}

fn rk(id: &str, uuid: &[u8], pk: &[u8]) -> RegisterPk {
    RegisterPk {
        id: id.to_owned(),
        uuid: uuid.to_vec(),
        pk: pk.to_vec(),
        old_id: String::new(),
    }
}

fn addr(ip: &str, port: u16) -> SockAddr {
    SockAddr { ip: ip.to_owned(), port }
}

fn response_result(r: Option<RendezvousMessage>) -> RegisterPkResult {
    match r {
        Some(RendezvousMessage::RegisterPkResponse(res)) => res,
        _ => panic!("expected a RegisterPkResponse"),
    }
}

/// 31 registration attempts from one IP inside the block window: the 31st is
/// rejected as too frequent; once the window has elapsed, an attempt
/// succeeds again.
#[test]
fn ip_blocker_31st_attempt_rejected() {
    let mut s = server();
    let now = 1000u64;
    for k in 0..30 {
        let id = format!("peer{:03}", k);
        let r = s.handle_udp_register_pk(rk(&id, b"uuid-x", b"key-x"), addr("9.9.9.9", 1), now);
        assert_eq!(response_result(r), RegisterPkResult::OK, "attempt {} admitted", k + 1);
    }
    let r = s.handle_udp_register_pk(rk("peer030", b"uuid-x", b"key-x"), addr("9.9.9.9", 1), now);
    assert_eq!(response_result(r), RegisterPkResult::TOO_FREQUENT);

    // 61 seconds later the frequency window has elapsed.
    let r = s.handle_udp_register_pk(
        rk("peer031", b"uuid-x", b"key-x"),
        addr("9.9.9.9", 1),
        now + 61,
    );
    assert_eq!(response_result(r), RegisterPkResult::OK);
}

/// Identity binding: the token binds on first registration; a foreign token
/// is rejected, a changed key together with a changed IP is rejected, and a
/// changed IP alone with the same key is tolerated.
#[test]
fn identity_binding() {
    let mut s = server();
    let r = s.handle_udp_register_pk(rk("abcdef", b"U1", b"K1"), addr("1.2.3.4", 5000), 100);
    assert_eq!(response_result(r), RegisterPkResult::OK);

    let r = s.handle_udp_register_pk(rk("abcdef", b"U2", b"K1"), addr("1.2.3.4", 5000), 101);
    assert_eq!(response_result(r), RegisterPkResult::UUID_MISMATCH);

    let r = s.handle_udp_register_pk(rk("abcdef", b"U1", b"K2"), addr("5.6.7.8", 5000), 102);
    assert_eq!(response_result(r), RegisterPkResult::UUID_MISMATCH);

    let r = s.handle_udp_register_pk(rk("abcdef", b"U1", b"K1"), addr("5.6.7.8", 5000), 103);
    assert_eq!(response_result(r), RegisterPkResult::OK);

    let peer = s.peer_map.get(&"abcdef".to_owned()).expect("record exists");
    assert_eq!(peer.uuid, b"U1".to_vec());
    assert_eq!(peer.pk, b"K1".to_vec());
    assert_eq!(peer.peer_info.ip, "5.6.7.8");

    // The IP change was tracked for observability.
    assert!(s
        .ip_changes
        .entries
        .iter()
        .any(|(id, e)| id == "abcdef" && e.counts.iter().any(|(ip, c)| ip == "5.6.7.8" && *c == 1)));
}

/// An empty token or key, and a short identifier, are rejected with the
/// mismatch result.
#[test]
fn malformed_registrations() {
    let mut s = server();
    let r = s.handle_udp_register_pk(rk("abcdef", b"", b"K1"), addr("1.2.3.4", 1), 10);
    assert_eq!(response_result(r), RegisterPkResult::UUID_MISMATCH);
    let r = s.handle_udp_register_pk(rk("abcdef", b"U1", b""), addr("1.2.3.4", 1), 10);
    assert_eq!(response_result(r), RegisterPkResult::UUID_MISMATCH);
    let r = s.handle_udp_register_pk(rk("abc", b"U1", b"K1"), addr("1.2.3.4", 1), 10);
    assert_eq!(response_result(r), RegisterPkResult::UUID_MISMATCH);
    // None of these touched the registry or the blocker.
    assert!(s.peer_map.entries.is_empty());
    assert!(s.ip_blocker.entries.is_empty());
}

/// The per-identifier limiter: past two recorded attempts within six
/// seconds the next attempt is rejected; once the window has elapsed it is
/// admitted again.
#[test]
fn per_identifier_limiter() {
    let mut s = server();
    for (i, t) in [10u64, 11, 12].iter().enumerate() {
        let r = s.handle_udp_register_pk(rk("abcdef", b"U1", b"K1"), addr("1.2.3.4", 1), *t);
        assert_eq!(response_result(r), RegisterPkResult::OK, "attempt {}", i + 1);
    }
    let r = s.handle_udp_register_pk(rk("abcdef", b"U1", b"K1"), addr("1.2.3.4", 1), 13);
    assert_eq!(response_result(r), RegisterPkResult::TOO_FREQUENT);

    let r = s.handle_udp_register_pk(rk("abcdef", b"U1", b"K1"), addr("1.2.3.4", 1), 19);
    assert_eq!(response_result(r), RegisterPkResult::OK);
}

/// The registry binds each identifier once and updates in place.
#[test]
fn peer_map_basics() {
    let mut m = PeerMap::new();
    let id = "peer-a".to_owned();
    assert!(!m.is_in_memory(&id));
    assert!(m.get(&id).is_none());
    m.get_or(&id, 5000);
    assert!(m.is_in_memory(&id));
    assert_eq!(m.entries.len(), 1);
    m.get_or(&id, 6000);
    assert_eq!(m.entries.len(), 1);

    let res = m.update_pk(
        id.clone(),
        SockAddr { ip: "8.8.8.8".to_owned(), port: 7 },
        b"U".to_vec(),
        b"K".to_vec(),
        "8.8.8.8".to_owned(),
        7000,
    );
    assert_eq!(res, RegisterPkResult::OK);
    let p = m.get_in_memory(&id).unwrap();
    assert_eq!(p.uuid, b"U".to_vec());
    assert_eq!(p.pk, b"K".to_vec());
    assert_eq!(p.socket_addr.port, 7);
    assert_eq!(p.last_register_time, 7000 - 3600);
}
