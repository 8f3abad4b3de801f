//! The server core: the message-level state machine and the recovery
//! decisions of the multiplexed I/O loop.
//!
//! The engine is stateless per message: each inbound message is dispatched on
//! its kind, consults the anti-abuse guard and the registry, and yields at
//! most one typed response. The I/O shell owns the sockets, feeds parsed
//! messages in with the current time, and sends the responses back; when one
//! of the four I/O sources fails, `rebind_port` names the one port to rebind,
//! so a fatal error on one listener never touches the others.

use vstd::prelude::*;
use vstd::string::StrSliceExecFns;

use crate::assoc::assoc_get;
use crate::bytes_eq;
use crate::peer::{
    fresh_block_entry, spec_block_step, IpBlockEntry, IpBlocker, IpChanges, Peer, PeerMap,
};
use crate::protocol::{
    ConfigUpdate, RegisterPeer, RegisterPk, RegisterPkResult, RendezvousMessage, SockAddr,
    TestNatRequest, TestNatResponse,
};
use crate::{spec_expired_time, Secs};

verus! {

/// Which of the four I/O sources of the main loop failed irrecoverably.
#[derive(Debug, Clone, Copy, PartialEq, Eq, Structural)]
pub enum LoopFailure {
    UdpSocket,
    WsListener,
    NatListener,
    PortListener,
}

/// The three listener ports derived from the main port: the main port
/// itself, the NAT-probe port one below it, and the WebSocket port two
/// above it.
pub fn listener_ports(port: i32) -> (r: (i32, i32, i32))
    requires
        1 <= port <= 65533,
    ensures
        r.0 == port,
        r.1 == port - 1,
        r.2 == port + 2,
{
    (port, port - 1, port + 2)
}

/// The port to rebind after a loop failure: exactly the failed source's own
/// port, so that one source's fatal error never touches the other three.
pub fn rebind_port(failure: &LoopFailure, port: i32) -> (r: i32)
    requires
        1 <= port <= 65533,
    ensures
        r as int == match failure {
            LoopFailure::UdpSocket => port as int,
            LoopFailure::PortListener => port as int,
            LoopFailure::NatListener => port - 1,
            LoopFailure::WsListener => port + 2,
        },
{
    match failure {
        LoopFailure::UdpSocket => port,
        LoopFailure::PortListener => port,
        LoopFailure::NatListener => port - 1,
        LoopFailure::WsListener => port + 2,
    }
}

/// The registration-attempt limiter on one peer record: the counter resets
/// once more than six seconds have passed since its window started, and past
/// two attempts inside the window the attempt is rejected.
pub open spec fn spec_reg_pk_limited(reg_pk: (u32, Secs), now: Secs) -> bool {
    !(now > reg_pk.1 + 6) && reg_pk.0 > 2
}

/// The identity-registration decision, one typed response per attempt: an
/// empty token or key, a short identifier, and an identity mismatch answer
/// UUID_MISMATCH; the IP blocker and the per-identifier limiter answer
/// TOO_FREQUENT; everything else is OK. An identity mismatch is a foreign
/// token, or a changed key and a changed IP at once; either alone is
/// tolerated.
pub open spec fn spec_register_pk_response(
    peers: Seq<(String, Peer)>,
    blocker: Seq<(String, IpBlockEntry)>,
    id: Seq<char>,
    uuid: Seq<u8>,
    pk: Seq<u8>,
    ip: Seq<char>,
    now: Secs,
) -> Option<RegisterPkResult> {
    if uuid.len() == 0 || pk.len() == 0 {
        Some(RegisterPkResult::UUID_MISMATCH)
    } else if id.len() < 6 {
        Some(RegisterPkResult::UUID_MISMATCH)
    } else {
        let prior = match assoc_get(blocker, ip) {
            Some(e) => e@,
            None => fresh_block_entry(now),
        };
        if !spec_block_step(prior, id, now).0 {
            Some(RegisterPkResult::TOO_FREQUENT)
        } else {
            let stored = assoc_get(peers, id);
            let stored_uuid = match stored {
                Some(p) => p.uuid@,
                None => Seq::<u8>::empty(),
            };
            let stored_pk = match stored {
                Some(p) => p.pk@,
                None => Seq::<u8>::empty(),
            };
            let stored_ip = match stored {
                Some(p) => p.peer_info.ip@,
                None => Seq::<char>::empty(),
            };
            if stored_uuid.len() > 0 && (stored_uuid != uuid || (stored_ip != ip && stored_pk
                != pk)) {
                Some(RegisterPkResult::UUID_MISMATCH)
            } else {
                let reg_pk = match stored {
                    Some(p) => p.reg_pk,
                    None => (0u32, spec_expired_time(now)),
                };
                if spec_reg_pk_limited(reg_pk, now) {
                    Some(RegisterPkResult::TOO_FREQUENT)
                } else {
                    Some(RegisterPkResult::OK)
                }
            }
        }
    }
}

/// The attempt counter a record carries after an admitted registration.
pub open spec fn spec_reg_pk_after(reg_pk: (u32, Secs), now: Secs) -> (u32, Secs) {
    let c: u32 = if now > reg_pk.1 + 6 {
        0u32
    } else {
        reg_pk.0
    };
    ((if c < u32::MAX {
        (c + 1) as u32
    } else {
        c
    }), now)
}

/// Everything one identity-registration attempt does to the server state
/// and answers, over the pre-state: the response is exactly
/// `spec_register_pk_response`; the IP blocker advances on the source IP
/// once the payload shape is acceptable and never otherwise; the registry
/// changes only on an admitted attempt, and then only the attempted
/// identifier's record, which afterwards carries the attempt's token, key
/// and source IP and a stamped attempt counter; and the IP-change tracker
/// learns of the identifier exactly when a bound record registered from a
/// new IP.
pub open spec fn register_pk_post(
    pre: RendezvousServer,
    post: RendezvousServer,
    r: Option<RendezvousMessage>,
    id: Seq<char>,
    uuid: Seq<u8>,
    pk: Seq<u8>,
    addr: SockAddr,
    now: Secs,
) -> bool {
    let ip = addr.ip@;
    let want = spec_register_pk_response(
        pre.peer_map.entries@,
        pre.ip_blocker.entries@,
        id,
        uuid,
        pk,
        ip,
        now,
    );
    let stored = assoc_get(pre.peer_map.entries@, id);
    let stored_uuid_len = match stored {
        Some(p) => p.uuid@.len(),
        None => 0,
    };
    let stored_ip = match stored {
        Some(p) => p.peer_info.ip@,
        None => Seq::<char>::empty(),
    };
    let stored_pk = match stored {
        Some(p) => p.pk@,
        None => Seq::<u8>::empty(),
    };
    let ip_changed = stored_uuid_len > 0 && stored_ip != ip;
    let changed = stored_uuid_len == 0 || stored_pk != pk || stored_ip != ip;
    &&& post.serial == pre.serial
    &&& post.local_ip == pre.local_ip
    &&& post.rendezvous_servers == pre.rendezvous_servers
    &&& (match want {
        None => r is None,
        Some(res) => r matches Some(m) && m matches RendezvousMessage::RegisterPkResponse(x) && x
            == res,
    })
    &&& ((uuid.len() == 0 || pk.len() == 0 || id.len() < 6) ==> post.ip_blocker.entries@
        == pre.ip_blocker.entries@)
    &&& ((uuid.len() > 0 && pk.len() > 0 && id.len() >= 6) ==> ({
        let prior = match assoc_get(pre.ip_blocker.entries@, ip) {
            Some(e) => e@,
            None => fresh_block_entry(now),
        };
        let step = spec_block_step(prior, id, now);
        &&& assoc_get(post.ip_blocker.entries@, ip) matches Some(e2) && e2@ == step.1
        &&& forall|k: Seq<char>|
            k != ip ==> assoc_get(post.ip_blocker.entries@, k) == assoc_get(
                pre.ip_blocker.entries@,
                k,
            )
    }))
    &&& (want != Some(RegisterPkResult::OK) ==> post.peer_map.entries@ == pre.peer_map.entries@
        && post.ip_changes.entries@ == pre.ip_changes.entries@)
    &&& (want == Some(RegisterPkResult::OK) ==> ({
        let reg0 = match stored {
            Some(p) => p.reg_pk,
            None => (0u32, spec_expired_time(now)),
        };
        &&& assoc_get(post.peer_map.entries@, id) matches Some(q) && q.uuid@ == uuid && q.pk@ == pk
            && q.peer_info.ip@ == ip && q.reg_pk == spec_reg_pk_after(reg0, now) && (changed ==> ({
            &&& q.socket_addr.ip@ == addr.ip@
            &&& q.socket_addr.port == addr.port
            &&& q.last_register_time == spec_expired_time(now)
            &&& q.guid@ == (match stored {
                Some(p) => p.guid@,
                None => Seq::<u8>::empty(),
            })
        }))
        &&& forall|k: Seq<char>|
            k != id ==> assoc_get(post.peer_map.entries@, k) == assoc_get(
                pre.peer_map.entries@,
                k,
            )
        &&& (!ip_changed ==> post.ip_changes.entries@ == pre.ip_changes.entries@)
        &&& (ip_changed ==> crate::peer::ip_change_recorded(
            pre.ip_changes.entries@,
            post.ip_changes.entries@,
            id,
            ip,
            now,
        ))
    }))
}

/// The server core's state: configuration serial, the local IP it announces,
/// the server list it pushes, the registry, and the anti-abuse maps.
pub struct RendezvousServer {
    pub serial: i32,
    pub local_ip: String,
    pub rendezvous_servers: Vec<String>,
    pub peer_map: PeerMap,
    pub ip_blocker: IpBlocker,
    pub ip_changes: IpChanges,
}

/// Both states hold the same registry, guard and configuration values.
pub open spec fn same_server_state(a: RendezvousServer, b: RendezvousServer) -> bool {
    &&& a.serial == b.serial
    &&& a.local_ip == b.local_ip
    &&& a.rendezvous_servers == b.rendezvous_servers
    &&& a.peer_map.entries == b.peer_map.entries
    &&& a.ip_blocker.entries == b.ip_blocker.entries
    &&& a.ip_changes.entries == b.ip_changes.entries
}

impl RendezvousServer {
    pub fn new(serial: i32, local_ip: String, rendezvous_servers: Vec<String>) -> (r: Self)
        ensures
            r.serial == serial,
            r.local_ip == local_ip,
            r.rendezvous_servers == rendezvous_servers,
            r.peer_map.entries@.len() == 0,
            r.ip_blocker.entries@.len() == 0,
            r.ip_changes.entries@.len() == 0,
    {
        RendezvousServer {
            serial,
            local_ip,
            rendezvous_servers,
            peer_map: PeerMap::new(),
            ip_blocker: IpBlocker::new(),
            ip_changes: IpChanges::new(),
        }
    }

    /// Consults and advances the IP blocker for one attempt of `id` from
    /// `ip`; nothing else of the server state moves.
    pub fn check_ip_blocker(&mut self, ip: &String, id: &String, now: Secs) -> (allowed: bool)
        ensures
            ({
                let prior = match assoc_get(old(self).ip_blocker.entries@, ip@) {
                    Some(e) => e@,
                    None => fresh_block_entry(now),
                };
                let step = spec_block_step(prior, id@, now);
                &&& allowed == step.0
                &&& assoc_get(final(self).ip_blocker.entries@, ip@) matches Some(e2) && e2@
                    == step.1
                &&& forall|k: Seq<char>|
                    k != ip@ ==> assoc_get(final(self).ip_blocker.entries@, k) == assoc_get(
                        old(self).ip_blocker.entries@,
                        k,
                    )
            }),
            final(self).serial == old(self).serial,
            final(self).local_ip == old(self).local_ip,
            final(self).rendezvous_servers == old(self).rendezvous_servers,
            final(self).peer_map.entries == old(self).peer_map.entries,
            final(self).ip_changes.entries == old(self).ip_changes.entries,
    {
        self.ip_blocker.check(ip, id, now)
    }

    /// Answers a peer announcement: a peer whose serial is behind gets the
    /// current configuration pushed; one that is current gets silence.
    pub fn handle_register_peer(&self, rp: &RegisterPeer) -> (r: Option<RendezvousMessage>)
        ensures
            self.serial > rp.serial ==> (r matches Some(m) && m matches
                RendezvousMessage::ConfigUpdate(c) && c.serial == self.serial
                && c.rendezvous_servers.deep_view() == self.rendezvous_servers.deep_view()),
            self.serial <= rp.serial ==> r is None,
    {
        if self.serial > rp.serial {
            let mut servers: Vec<String> = Vec::new();
            let n = self.rendezvous_servers.len();
            let mut i: usize = 0;
            while i < n
                invariant
                    n == self.rendezvous_servers@.len(),
                    i <= n,
                    servers@.len() == i,
                    forall|j: int| 0 <= j < i ==> #[trigger] servers@[j]@
                        == self.rendezvous_servers@[j]@,
                decreases n - i,
            {
                servers.push(self.rendezvous_servers[i].clone());
                i += 1;
            }
            proof {
                assert forall|j: int| 0 <= j < n implies servers.deep_view()[j]
                    == self.rendezvous_servers.deep_view()[j] by {
                    assert(servers@[j]@ == self.rendezvous_servers@[j]@);
                }
                assert(servers.deep_view() =~= self.rendezvous_servers.deep_view());
            }
            Some(
                RendezvousMessage::ConfigUpdate(
                    ConfigUpdate { serial: self.serial, rendezvous_servers: servers },
                ),
            )
        } else {
            None
        }
    }

    /// Answers a NAT probe: the externally observed source port of the
    /// connection, read from the accepted peer address.
    pub fn handle_test_nat_request(&mut self, tar: &TestNatRequest, addr: &SockAddr) -> (r:
        RendezvousMessage)
        ensures
            r matches RendezvousMessage::TestNatResponse(t) && t.port == addr.port as i32,
            same_server_state(*old(self), *final(self)),
    {
        RendezvousMessage::TestNatResponse(TestNatResponse { port: addr.port as i32 })
    }

    /// Identity registration over a stream transport is not supported.
    pub fn handle_tcp_register_pk(&mut self) -> (r: RendezvousMessage)
        ensures
            r matches RendezvousMessage::RegisterPkResponse(x) && x
                == RegisterPkResult::NOT_SUPPORT,
            same_server_state(*old(self), *final(self)),
    {
        RendezvousMessage::RegisterPkResponse(RegisterPkResult::NOT_SUPPORT)
    }

    /// Dispatch for the stream transports (plain TCP and WebSocket): a NAT
    /// probe gets the observed port, identity registration is refused, and
    /// every other kind is silently ignored.
    pub fn handle_tcp(&mut self, msg: &RendezvousMessage, addr: &SockAddr) -> (r: Option<
        RendezvousMessage,
    >)
        ensures
            same_server_state(*old(self), *final(self)),
            match msg {
                RendezvousMessage::TestNatRequest(_) => r matches Some(m) && m matches
                    RendezvousMessage::TestNatResponse(t) && t.port == addr.port as i32,
                RendezvousMessage::RegisterPk(_) => r matches Some(m) && m matches
                    RendezvousMessage::RegisterPkResponse(x) && x == RegisterPkResult::NOT_SUPPORT,
                _ => r is None,
            },
    {
        match msg {
            RendezvousMessage::TestNatRequest(tar) => Some(
                self.handle_test_nat_request(tar, addr),
            ),
            RendezvousMessage::RegisterPk(_) => Some(self.handle_tcp_register_pk()),
            _ => None,
        }
    }

    /// One UDP identity-registration attempt: evaluates the guard chain in
    /// order — payload shape, identifier length, IP blocker, identity
    /// binding, per-identifier limiter — updates the registry when the
    /// attempt is admitted, and answers the typed result. Everything it does
    /// is what `register_pk_post` states.
    pub fn handle_udp_register_pk(&mut self, rk: RegisterPk, addr: SockAddr, now: Secs) -> (r:
        Option<RendezvousMessage>)
        ensures
            register_pk_post(
                *old(self),
                *final(self),
                r,
                rk.id@,
                rk.uuid@,
                rk.pk@,
                addr,
                now,
            ),
    {
        let RegisterPk { id, uuid, pk, old_id: _ } = rk;
        if uuid.len() == 0 || pk.len() == 0 {
            return Some(RendezvousMessage::RegisterPkResponse(RegisterPkResult::UUID_MISMATCH));
        }
        let ip = addr.ip.clone();
        if id.as_str().unicode_len() < 6 {
            return Some(RendezvousMessage::RegisterPkResponse(RegisterPkResult::UUID_MISMATCH));
        }
        if !self.check_ip_blocker(&ip, &id, now) {
            return Some(RendezvousMessage::RegisterPkResponse(RegisterPkResult::TOO_FREQUENT));
        }
        self.peer_map.get_or(&id, now);
        let stored_uuid_empty: bool;
        let uuid_matches: bool;
        let pk_differs: bool;
        let ip_differs: bool;
        let reg_pk: (u32, Secs);
        match self.peer_map.get(&id) {
            Some(p) => {
                stored_uuid_empty = p.uuid.len() == 0;
                uuid_matches = bytes_eq(&p.uuid, &uuid);
                pk_differs = !bytes_eq(&p.pk, &pk);
                ip_differs = !(p.peer_info.ip == ip);
                reg_pk = p.reg_pk;
            },
            None => {
                proof {
                    assert(false);
                }
                return None;
            },
        }
        let changed: bool;
        let ip_changed: bool;
        if stored_uuid_empty {
            changed = true;
            ip_changed = false;
        } else {
            if uuid_matches {
                if ip_differs && pk_differs {
                    return Some(
                        RendezvousMessage::RegisterPkResponse(RegisterPkResult::UUID_MISMATCH),
                    );
                }
            } else {
                return Some(
                    RendezvousMessage::RegisterPkResponse(RegisterPkResult::UUID_MISMATCH),
                );
            }
            ip_changed = ip_differs;
            changed = pk_differs || ip_differs;
        }
        let mut req_pk = reg_pk;
        if req_pk.1 <= u64::MAX - 6 && now > req_pk.1 + 6 {
            req_pk.0 = 0;
        } else if req_pk.0 > 2 {
            return Some(RendezvousMessage::RegisterPkResponse(RegisterPkResult::TOO_FREQUENT));
        }
        req_pk.0 = if req_pk.0 < u32::MAX {
            req_pk.0 + 1
        } else {
            req_pk.0
        };
        req_pk.1 = now;
        self.peer_map.set_reg_pk(&id, req_pk);
        if ip_changed {
            self.ip_changes.record(&id, &ip, now);
        }
        if changed {
            self.peer_map.update_pk(id, addr, uuid, pk, ip, now);
        }
        Some(RendezvousMessage::RegisterPkResponse(RegisterPkResult::OK))
    }

    /// Dispatch for UDP datagrams: peer announcements and identity
    /// registration are handled, every other kind is silently ignored.
    pub fn handle_udp(&mut self, msg: RendezvousMessage, addr: SockAddr, now: Secs) -> (r: Option<
        RendezvousMessage,
    >)
        ensures
            match msg {
                RendezvousMessage::RegisterPeer(rp) => same_server_state(*old(self), *final(self))
                    && (old(self).serial > rp.serial ==> (r matches Some(m) && m matches
                RendezvousMessage::ConfigUpdate(c) && c.serial == old(self).serial
                    && c.rendezvous_servers.deep_view() == old(self).rendezvous_servers.deep_view()))
                    && (old(self).serial <= rp.serial ==> r is None),
                RendezvousMessage::RegisterPk(rk) => register_pk_post(
                    *old(self),
                    *final(self),
                    r,
                    rk.id@,
                    rk.uuid@,
                    rk.pk@,
                    addr,
                    now,
                ),
                _ => r is None && same_server_state(*old(self), *final(self)),
            },
    {
        match msg {
            RendezvousMessage::RegisterPeer(rp) => self.handle_register_peer(&rp),
            RendezvousMessage::RegisterPk(rk) => self.handle_udp_register_pk(rk, addr, now),
            _ => None,
        }
    }

    /// The administrative command channel of the loopback NAT-probe port:
    /// commands are recognized and answered by external collaborators; this
    /// core answers every command with an empty report.
    pub fn check_cmd(&self, cmd: &str) -> (r: String)
        ensures
            r@ == Seq::<char>::empty(),
    {
        let _ = cmd;
        String::new()
    }
}

} // verus!
