use nimbus_rendezvous::common::{classify_nat, next_retest_interval, proxied_nat_type};
use nimbus_rendezvous::config::{
    Config, Config2, NetWorkType, Socks5Server, NAT_TYPE_ASYMMETRIC, NAT_TYPE_SYMMETRIC,
};
use nimbus_rendezvous::get_expired_time;
use nimbus_rendezvous::protocol::{
    RegisterPeer, RegisterPk, RendezvousMessage, SockAddr, TestNatRequest,
};
use nimbus_rendezvous::protocol::RegisterPkResult;
use nimbus_rendezvous::rendezvous_server::{listener_ports, rebind_port, LoopFailure, RendezvousServer};

fn server() -> RendezvousServer {
    RendezvousServer::new(3, "10.0.0.1".to_owned(), vec!["rs1.example".to_owned(), "rs2.example".to_owned()])
}

/// Two probes reporting the same external port classify the NAT as
/// asymmetric-friendly; differing ports classify it as symmetric.
#[test]
fn nat_classification() {
    assert_eq!(classify_nat(Some(40000), Some(40000)), Some(NAT_TYPE_ASYMMETRIC));
    assert_eq!(classify_nat(Some(40000), Some(40123)), Some(NAT_TYPE_SYMMETRIC));
    assert_eq!(classify_nat(None, Some(40000)), None);
    assert_eq!(classify_nat(Some(40000), None), None);
    assert_eq!(classify_nat(Some(0), Some(40000)), None);
    assert_eq!(classify_nat(Some(40000), Some(-1)), None);
}

#[test]
fn proxied_client_is_symmetric() {
    assert_eq!(proxied_nat_type(false), Some(NAT_TYPE_SYMMETRIC));
    assert_eq!(proxied_nat_type(true), None);
}

#[test]
fn retest_backoff() {
    assert_eq!(next_retest_interval(0), 1);
    assert_eq!(next_retest_interval(1), 3);
    assert_eq!(next_retest_interval(149), 299);
    assert_eq!(next_retest_interval(150), 300);
    assert_eq!(next_retest_interval(300), 300);
}

/// A failure of one I/O source rebinds that source's own port and no other.
#[test]
fn listener_independence() {
    let port = 8080;
    assert_eq!(listener_ports(port), (8080, 8079, 8082));
    assert_eq!(rebind_port(&LoopFailure::WsListener, port), 8082);
    assert_eq!(rebind_port(&LoopFailure::NatListener, port), 8079);
    assert_eq!(rebind_port(&LoopFailure::PortListener, port), 8080);
    assert_eq!(rebind_port(&LoopFailure::UdpSocket, port), 8080);
}

/// A peer whose serial is behind gets the configuration pushed; a current
/// one gets silence.
#[test]
fn register_peer_config_update() {
    let mut s = server();
    let r = s.handle_udp(
        RendezvousMessage::RegisterPeer(RegisterPeer { id: "abcdef".to_owned(), serial: 1 }),
        SockAddr { ip: "1.2.3.4".to_owned(), port: 9 },
        50,
    );
    match r {
        Some(RendezvousMessage::ConfigUpdate(c)) => {
            assert_eq!(c.serial, 3);
            assert_eq!(c.rendezvous_servers, vec!["rs1.example".to_owned(), "rs2.example".to_owned()]);
        }
        _ => panic!("expected a ConfigUpdate"),
    }
    let r = s.handle_udp(
        RendezvousMessage::RegisterPeer(RegisterPeer { id: "abcdef".to_owned(), serial: 3 }),
        SockAddr { ip: "1.2.3.4".to_owned(), port: 9 },
        50,
    );
    assert!(r.is_none());
}

/// Stream dispatch: a NAT probe is answered with the observed source port,
/// registration over a stream is refused, unknown kinds are ignored.
#[test]
fn tcp_dispatch() {
    let mut s = server();
    let addr = SockAddr { ip: "7.7.7.7".to_owned(), port: 40123 };
    let r = s.handle_tcp(
        &RendezvousMessage::TestNatRequest(TestNatRequest { serial: 0 }),
        &addr,
    );
    match r {
        Some(RendezvousMessage::TestNatResponse(t)) => assert_eq!(t.port, 40123),
        _ => panic!("expected a TestNatResponse"),
    }
    let r = s.handle_tcp(
        &RendezvousMessage::RegisterPk(RegisterPk {
            id: "abcdef".to_owned(),
            uuid: b"U".to_vec(),
            pk: b"K".to_vec(),
            old_id: String::new(),
        }),
        &addr,
    );
    match r {
        Some(RendezvousMessage::RegisterPkResponse(res)) => {
            assert_eq!(res, RegisterPkResult::NOT_SUPPORT)
        }
        _ => panic!("expected a RegisterPkResponse"),
    }
    assert!(s.handle_tcp(&RendezvousMessage::Other, &addr).is_none());
    assert!(s
        .handle_udp(RendezvousMessage::Other, addr, 1)
        .is_none());
}

#[test]
fn admin_commands_answer_empty() {
    let s = server();
    assert_eq!(s.check_cmd("ip-blocker"), "");
    assert_eq!(s.check_cmd("h"), "");
}

#[test]
fn config_queries() {
    let mut c = Config::new(Config2 { serial: 1, socks: None, nat_type: 0 });
    assert_eq!(c.get_serial(), 3);
    assert_eq!(c.get_nat_type(), 0);
    assert_eq!(c.get_network_type(), NetWorkType::Direct);
    assert!(c.get_socks().is_none());
    c.set_nat_type(NAT_TYPE_SYMMETRIC);
    assert_eq!(c.get_nat_type(), NAT_TYPE_SYMMETRIC);
    c.set_nat_type(NAT_TYPE_SYMMETRIC);
    assert_eq!(c.get_nat_type(), NAT_TYPE_SYMMETRIC);

    let mut c2 = Config::new(Config2 {
        serial: 7,
        socks: Some(Socks5Server {
            proxy: "proxy.example:1080".to_owned(),
            username: String::new(),
            password: String::new(),
        }),
        nat_type: 0,
    });
    assert_eq!(c2.get_serial(), 7);
    assert_eq!(c2.get_network_type(), NetWorkType::ProxySocks);
    assert_eq!(c2.get_socks().unwrap().proxy, "proxy.example:1080");
    c2.set_nat_type(NAT_TYPE_ASYMMETRIC);
    assert_eq!(c2.get_nat_type(), NAT_TYPE_ASYMMETRIC);
}

#[test]
fn expired_time_is_an_hour_back() {
    assert_eq!(get_expired_time(5000), 1400);
    assert_eq!(get_expired_time(3600), 0);
    assert_eq!(get_expired_time(10), 0);
}
