//! The peer registry and the anti-abuse bookkeeping.
//!
//! The registry maps peer identifiers to peer records; it is the single
//! source of truth for who a peer is. An identity token binds on first
//! registration and is immutable afterwards — the guard in the server core
//! rejects mismatches before any update reaches the registry. Beside it live
//! two per-source maps: the IP blocker (a frequency window and a bounded set
//! of identifiers seen per IP) and the IP-change tracker (observability only,
//! never a block).

use vstd::prelude::*;

use crate::assoc::{assoc_find, assoc_get, contains_string, lemma_assoc_push, lemma_assoc_update};
use crate::protocol::{RegisterPkResult, SockAddr};
use crate::{get_expired_time, spec_expired_time, Secs};

verus! {

/// Window of the IP-change tracker, in seconds.
pub const IP_CHANGE_DUR: u64 = 180;

/// One day, in seconds: the window of the per-IP identifier set.
pub const DAY_SECONDS: u64 = 86400;

/// Window of the per-IP frequency counter, in seconds.
pub const IP_BLOCK_DUR: u64 = 60;

/// Auxiliary peer facts kept for persistence: the last source IP.
pub struct PeerInfo {
    pub ip: String,
}

/// One registered peer.
pub struct Peer {
    pub socket_addr: SockAddr,
    pub last_register_time: Secs,
    pub guid: Vec<u8>,
    pub uuid: Vec<u8>,
    pub pk: Vec<u8>,
    pub peer_info: PeerInfo,
    /// Registration-attempt limiter: attempts since the last reset, and when
    /// that window started.
    pub reg_pk: (u32, Secs),
}

impl Peer {
    /// A fresh, unbound record: empty identity, an address of all zeroes, and
    /// rate-limit windows that start already expired.
    pub fn default_at(now: Secs) -> (r: Peer)
        ensures
            r.socket_addr.ip@ == "0.0.0.0"@,
            r.socket_addr.port == 0,
            r.last_register_time == spec_expired_time(now),
            r.guid@ == Seq::<u8>::empty(),
            r.uuid@ == Seq::<u8>::empty(),
            r.pk@ == Seq::<u8>::empty(),
            r.peer_info.ip@ == Seq::<char>::empty(),
            r.reg_pk == (0u32, spec_expired_time(now)),
    {
        let expired = get_expired_time(now);
        Peer {
            socket_addr: SockAddr { ip: "0.0.0.0".to_owned(), port: 0 },
            last_register_time: expired,
            guid: Vec::new(),
            uuid: Vec::new(),
            pk: Vec::new(),
            peer_info: PeerInfo { ip: String::new() },
            reg_pk: (0, expired),
        }
    }
}

/// The in-memory peer registry. The durable store behind it is an external
/// collaborator; this cache is what the handlers read and write.
pub struct PeerMap {
    pub entries: Vec<(String, Peer)>,
}

impl PeerMap {
    pub fn new() -> (r: Self)
        ensures
            r.entries@.len() == 0,
    {
        PeerMap { entries: Vec::new() }
    }

    /// The record of `id`, if one is registered.
    pub fn get(&self, id: &String) -> (r: Option<&Peer>)
        ensures
            r matches Some(p) ==> assoc_get(self.entries@, id@) == Some(*p),
            r is None ==> assoc_get(self.entries@, id@) is None,
    {
        match assoc_find(&self.entries, id) {
            Some(i) => Some(&self.entries[i].1),
            None => None,
        }
    }

    /// Same as `get`: this cache is the only in-process storage.
    pub fn get_in_memory(&self, id: &String) -> (r: Option<&Peer>)
        ensures
            r matches Some(p) ==> assoc_get(self.entries@, id@) == Some(*p),
            r is None ==> assoc_get(self.entries@, id@) is None,
    {
        self.get(id)
    }

    pub fn is_in_memory(&self, id: &String) -> (r: bool)
        ensures
            r == (assoc_get(self.entries@, id@) is Some),
    {
        match assoc_find(&self.entries, id) {
            Some(_) => true,
            None => false,
        }
    }

    /// Makes sure `id` has a record: the existing one is kept, a missing one
    /// is created fresh. Never binds the same identifier twice.
    pub fn get_or(&mut self, id: &String, now: Secs)
        ensures
            assoc_get(old(self).entries@, id@) matches Some(p) ==> final(self).entries@ == old(
                self,
            ).entries@ && assoc_get(final(self).entries@, id@) == Some(p),
            assoc_get(old(self).entries@, id@) is None ==> ({
                &&& assoc_get(final(self).entries@, id@) matches Some(p) && p.uuid@ == Seq::<
                    u8,
                >::empty() && p.pk@ == Seq::<u8>::empty() && p.guid@ == Seq::<u8>::empty()
                    && p.reg_pk == (0u32, spec_expired_time(now)) && p.peer_info.ip@ == Seq::<
                    char,
                >::empty()
                &&& forall|k: Seq<char>|
                    k != id@ ==> assoc_get(final(self).entries@, k) == assoc_get(
                        old(self).entries@,
                        k,
                    )
            }),
    {
        match assoc_find(&self.entries, id) {
            Some(_) => {},
            None => {
                let ghost olds = self.entries@;
                let fresh = Peer::default_at(now);
                let ghost gid = id@;
                self.entries.push((id.clone(), fresh));
                proof {
                    let e = self.entries@.last();
                    assert(self.entries@ =~= olds.push(e));
                    lemma_assoc_push(olds, e, gid);
                    assert forall|k: Seq<char>| k != gid implies #[trigger] assoc_get(
                        self.entries@,
                        k,
                    ) == assoc_get(olds, k) by {
                        lemma_assoc_push(olds, e, k);
                    }
                }
            },
        }
    }

    /// Stamps the registration-attempt limiter of `id`; nothing else of the
    /// record or of the registry moves. A missing record is left missing.
    pub fn set_reg_pk(&mut self, id: &String, reg_pk: (u32, Secs))
        ensures
            assoc_get(old(self).entries@, id@) matches Some(p) ==> ({
                &&& assoc_get(final(self).entries@, id@) matches Some(q)
                &&& q.reg_pk == reg_pk
                &&& q.socket_addr == p.socket_addr
                &&& q.last_register_time == p.last_register_time
                &&& q.guid == p.guid
                &&& q.uuid == p.uuid
                &&& q.pk == p.pk
                &&& q.peer_info.ip == p.peer_info.ip
                &&& forall|k: Seq<char>|
                    k != id@ ==> assoc_get(final(self).entries@, k) == assoc_get(
                        old(self).entries@,
                        k,
                    )
            }),
            assoc_get(old(self).entries@, id@) is None ==> final(self).entries@ == old(
                self,
            ).entries@,
    {
        match assoc_find(&self.entries, id) {
            Some(i) => {
                let ghost olds = self.entries@;
                let (key, old_peer) = self.entries.remove(i);
                let updated = Peer {
                    socket_addr: old_peer.socket_addr,
                    last_register_time: old_peer.last_register_time,
                    guid: old_peer.guid,
                    uuid: old_peer.uuid,
                    pk: old_peer.pk,
                    peer_info: old_peer.peer_info,
                    reg_pk,
                };
                self.entries.insert(i, (key, updated));
                proof {
                    assert(self.entries@ =~= olds.update(i as int, self.entries@[i as int]));
                    lemma_assoc_update(olds, i as int, self.entries@[i as int], id@);
                    assert forall|k: Seq<char>| k != id@ implies #[trigger] assoc_get(
                        self.entries@,
                        k,
                    ) == assoc_get(olds, k) by {
                        lemma_assoc_update(olds, i as int, self.entries@[i as int], k);
                    }
                }
            },
            None => {},
        }
    }

    /// The registry's single update path: rebinds address, identity token,
    /// key and source IP of `id` in one step, stamping the record. The
    /// attempt limiter and the stored persistence token survive the update;
    /// a record is created first when none exists. Forwarding a first-time
    /// binding to the durable store is the collaborator's part, not modelled
    /// here.
    pub fn update_pk(
        &mut self,
        id: String,
        addr: SockAddr,
        uuid: Vec<u8>,
        pk: Vec<u8>,
        ip: String,
        now: Secs,
    ) -> (r: RegisterPkResult)
        ensures
            r == RegisterPkResult::OK,
            ({
                &&& assoc_get(final(self).entries@, id@) matches Some(p)
                &&& p.socket_addr.ip@ == addr.ip@
                &&& p.socket_addr.port == addr.port
                &&& p.uuid@ == uuid@
                &&& p.pk@ == pk@
                &&& p.peer_info.ip@ == ip@
                &&& p.last_register_time == spec_expired_time(now)
                &&& p.reg_pk == (match assoc_get(old(self).entries@, id@) {
                    Some(q) => q.reg_pk,
                    None => (0u32, spec_expired_time(now)),
                })
                &&& p.guid@ == (match assoc_get(old(self).entries@, id@) {
                    Some(q) => q.guid@,
                    None => Seq::<u8>::empty(),
                })
            }),
            forall|k: Seq<char>|
                k != id@ ==> assoc_get(final(self).entries@, k) == assoc_get(
                    old(self).entries@,
                    k,
                ),
    {
        let expired = get_expired_time(now);
        match assoc_find(&self.entries, &id) {
            Some(i) => {
                let ghost olds = self.entries@;
                let (_, old_peer) = self.entries.remove(i);
                let updated = Peer {
                    socket_addr: addr,
                    last_register_time: expired,
                    guid: old_peer.guid,
                    uuid,
                    pk,
                    peer_info: PeerInfo { ip },
                    reg_pk: old_peer.reg_pk,
                };
                self.entries.insert(i, (id, updated));
                proof {
                    assert(self.entries@ =~= olds.update(i as int, self.entries@[i as int]));
                    lemma_assoc_update(olds, i as int, self.entries@[i as int], id@);
                    assert forall|k: Seq<char>| k != id@ implies #[trigger] assoc_get(
                        self.entries@,
                        k,
                    ) == assoc_get(olds, k) by {
                        lemma_assoc_update(olds, i as int, self.entries@[i as int], k);
                    }
                }
            },
            None => {
                let ghost olds = self.entries@;
                let fresh = Peer {
                    socket_addr: addr,
                    last_register_time: expired,
                    guid: Vec::new(),
                    uuid,
                    pk,
                    peer_info: PeerInfo { ip },
                    reg_pk: (0, expired),
                };
                let ghost gid = id@;
                self.entries.push((id, fresh));
                proof {
                    let e = self.entries@.last();
                    assert(self.entries@ =~= olds.push(e));
                    lemma_assoc_push(olds, e, gid);
                    assert forall|k: Seq<char>| k != gid implies #[trigger] assoc_get(
                        self.entries@,
                        k,
                    ) == assoc_get(olds, k) by {
                        lemma_assoc_push(olds, e, k);
                    }
                }
            },
        }
        RegisterPkResult::OK
    }
}

/// The ghost shape of one IP-blocker entry.
pub struct BlockEntryView {
    /// Attempts seen in the current frequency window.
    pub count: u32,
    /// When the frequency window last moved.
    pub count_since: u64,
    /// Distinct identifiers seen from this IP in the current day window.
    pub ids: Seq<Seq<char>>,
    /// When the day window last moved.
    pub ids_since: u64,
}

/// One IP-blocker entry: the frequency counter with its window start, and
/// the day-scoped set of identifiers seen from this IP.
pub struct IpBlockEntry {
    pub frequency: (u32, Secs),
    pub ids: Vec<String>,
    pub ids_since: Secs,
}

impl View for IpBlockEntry {
    type V = BlockEntryView;

    open spec fn view(&self) -> BlockEntryView {
        BlockEntryView {
            count: self.frequency.0,
            count_since: self.frequency.1,
            ids: self.ids.deep_view(),
            ids_since: self.ids_since,
        }
    }
}

/// The entry an IP that was never seen starts from.
pub open spec fn fresh_block_entry(now: u64) -> BlockEntryView {
    BlockEntryView { count: 0, count_since: now, ids: Seq::empty(), ids_since: now }
}

/// One evaluation of the IP blocker, as a pure function from the entry's
/// prior state: the frequency counter resets once its window has lapsed, is
/// incremented on every attempt — also on one about to be rejected, a
/// deliberate policy — and blocks past 30 attempts in the window. Past that
/// gate, the day-scoped identifier set admits anything while below its cap
/// of 300, clears wholesale once its window has lapsed, and when full admits
/// only identifiers it has already seen.
pub open spec fn spec_block_step(e: BlockEntryView, id: Seq<char>, now: u64) -> (bool, BlockEntryView) {
    let c0: u32 = if now > e.count_since + IP_BLOCK_DUR {
        0u32
    } else {
        e.count
    };
    let c1: u32 = if c0 < u32::MAX {
        (c0 + 1) as u32
    } else {
        c0
    };
    if c1 > 30 {
        (false, BlockEntryView { count: c1, count_since: now, ids: e.ids, ids_since: e.ids_since })
    } else {
        let is_new = !e.ids.contains(id);
        if now > e.ids_since + DAY_SECONDS {
            (
                true,
                BlockEntryView {
                    count: c1,
                    count_since: now,
                    ids: if is_new {
                        seq![id]
                    } else {
                        Seq::empty()
                    },
                    ids_since: now,
                },
            )
        } else if e.ids.len() > 300 {
            (
                !is_new,
                BlockEntryView { count: c1, count_since: now, ids: e.ids, ids_since: e.ids_since },
            )
        } else {
            (
                true,
                BlockEntryView {
                    count: c1,
                    count_since: now,
                    ids: if is_new {
                        e.ids.push(id)
                    } else {
                        e.ids
                    },
                    ids_since: now,
                },
            )
        }
    }
}

/// Within the frequency window, an entry that has already counted thirty
/// attempts rejects every further one.
pub proof fn lemma_block_saturates(e: BlockEntryView, id: Seq<char>, now: u64)
    requires
        !(now > e.count_since + IP_BLOCK_DUR),
        e.count >= 30,
    ensures
        !spec_block_step(e, id, now).0,
{
}

/// Once the frequency window has lapsed, an attempt from an IP whose
/// identifier set is within its cap is admitted again, whatever the counter
/// had reached.
pub proof fn lemma_block_recovers(e: BlockEntryView, id: Seq<char>, now: u64)
    requires
        now > e.count_since + IP_BLOCK_DUR,
        e.ids.len() <= 300,
    ensures
        spec_block_step(e, id, now).0,
{
}

/// The per-source-IP blocker map.
pub struct IpBlocker {
    pub entries: Vec<(String, IpBlockEntry)>,
}

impl IpBlocker {
    pub fn new() -> (r: Self)
        ensures
            r.entries@.len() == 0,
    {
        IpBlocker { entries: Vec::new() }
    }

    /// Records one registration attempt of `id` from `ip` and says whether
    /// it may proceed, exactly as `spec_block_step` evaluates it on the
    /// stored entry (an unseen IP starts from `fresh_block_entry`).
    pub fn check(&mut self, ip: &String, id: &String, now: Secs) -> (allowed: bool)
        ensures
            ({
                let prior = match assoc_get(old(self).entries@, ip@) {
                    Some(e) => e@,
                    None => fresh_block_entry(now),
                };
                let step = spec_block_step(prior, id@, now);
                &&& allowed == step.0
                &&& assoc_get(final(self).entries@, ip@) matches Some(e2) && e2@ == step.1
                &&& forall|k: Seq<char>|
                    k != ip@ ==> assoc_get(final(self).entries@, k) == assoc_get(
                        old(self).entries@,
                        k,
                    )
            }),
    {
        match assoc_find(&self.entries, ip) {
            Some(i) => {
                let ghost olds = self.entries@;
                let (key, mut entry) = self.entries.remove(i);
                let ghost prior = entry@;
                let c0: u32 = if entry.frequency.1 <= u64::MAX - IP_BLOCK_DUR && now
                    > entry.frequency.1 + IP_BLOCK_DUR {
                    0
                } else {
                    entry.frequency.0
                };
                let c1: u32 = if c0 < u32::MAX {
                    c0 + 1
                } else {
                    c0
                };
                entry.frequency = (c1, now);
                let allowed: bool;
                if c1 > 30 {
                    allowed = false;
                } else {
                    let is_new = !contains_string(&entry.ids, id);
                    if entry.ids_since <= u64::MAX - DAY_SECONDS && now > entry.ids_since
                        + DAY_SECONDS {
                        entry.ids = Vec::new();
                        if is_new {
                            entry.ids.push(id.clone());
                        }
                        entry.ids_since = now;
                        allowed = true;
                    } else if entry.ids.len() > 300 {
                        allowed = !is_new;
                    } else {
                        if is_new {
                            entry.ids.push(id.clone());
                        }
                        entry.ids_since = now;
                        allowed = true;
                    }
                    proof {
                        assert(entry@.ids =~= spec_block_step(prior, id@, now).1.ids);
                    }
                }
                self.entries.insert(i, (key, entry));
                proof {
                    assert(self.entries@ =~= olds.update(i as int, self.entries@[i as int]));
                    lemma_assoc_update(olds, i as int, self.entries@[i as int], ip@);
                    assert forall|k: Seq<char>| k != ip@ implies #[trigger] assoc_get(
                        self.entries@,
                        k,
                    ) == assoc_get(olds, k) by {
                        lemma_assoc_update(olds, i as int, self.entries@[i as int], k);
                    }
                }
                allowed
            },
            None => {
                let ghost olds = self.entries@;
                let mut ids: Vec<String> = Vec::new();
                ids.push(id.clone());
                let entry = IpBlockEntry { frequency: (1, now), ids, ids_since: now };
                let ghost gip = ip@;
                self.entries.push((ip.clone(), entry));
                proof {
                    let e = self.entries@.last();
                    assert(self.entries@ =~= olds.push(e));
                    lemma_assoc_push(olds, e, gip);
                    assert forall|k: Seq<char>| k != gip implies #[trigger] assoc_get(
                        self.entries@,
                        k,
                    ) == assoc_get(olds, k) by {
                        lemma_assoc_push(olds, e, k);
                    }
                    assert(e.1@.ids =~= spec_block_step(fresh_block_entry(now), id@, now).1.ids);
                }
                true
            },
        }
    }
}

/// One IP-change entry: when the window started, and how often each IP was
/// seen for the identifier inside it.
pub struct IpChangeEntry {
    pub since: Secs,
    pub counts: Vec<(String, i32)>,
}

/// The per-identifier IP-change tracker: pure observability, never a block.
pub struct IpChanges {
    pub entries: Vec<(String, IpChangeEntry)>,
}

/// What recording one IP sighting of an identifier does to the tracker:
/// within the window the per-IP occurrence count grows (saturating), a
/// lapsed window starts over with this occurrence alone, an unseen
/// identifier gets a fresh entry, and no other identifier's entry moves.
pub open spec fn ip_change_recorded(
    pre: Seq<(String, IpChangeEntry)>,
    post: Seq<(String, IpChangeEntry)>,
    id: Seq<char>,
    ip: Seq<char>,
    now: Secs,
) -> bool {
    let prior = assoc_get(pre, id);
    let entry = assoc_get(post, id);
    &&& (match prior {
        None => entry matches Some(e) && e.since == now && e.counts@.len() == 1
            && e.counts@[0].0@ == ip && e.counts@[0].1 == 1i32,
        Some(p) => {
            if now > p.since + IP_CHANGE_DUR {
                entry matches Some(e) && e.since == now && e.counts@.len() == 1
                    && e.counts@[0].0@ == ip && e.counts@[0].1 == 1i32
            } else {
                entry matches Some(e) && e.since == p.since && (match assoc_get(p.counts@, ip) {
                    Some(v) => assoc_get(e.counts@, ip) == Some(
                        (if v < i32::MAX {
                            (v + 1) as i32
                        } else {
                            v
                        }),
                    ) && (forall|k: Seq<char>|
                        k != ip ==> assoc_get(e.counts@, k) == assoc_get(p.counts@, k)),
                    None => assoc_get(e.counts@, ip) == Some(1i32) && (forall|k: Seq<char>|
                        k != ip ==> assoc_get(e.counts@, k) == assoc_get(p.counts@, k)),
                })
            }
        },
    })
    &&& forall|k: Seq<char>| k != id ==> assoc_get(post, k) == assoc_get(pre, k)
}

impl IpChanges {
    pub fn new() -> (r: Self)
        ensures
            r.entries@.len() == 0,
    {
        IpChanges { entries: Vec::new() }
    }

    /// Records that `id` registered from `ip`, exactly as
    /// `ip_change_recorded` states.
    pub fn record(&mut self, id: &String, ip: &String, now: Secs)
        ensures
            ip_change_recorded(old(self).entries@, final(self).entries@, id@, ip@, now),
    {
        match assoc_find(&self.entries, id) {
            Some(i) => {
                let ghost olds = self.entries@;
                let (key, mut entry) = self.entries.remove(i);
                if entry.since <= u64::MAX - IP_CHANGE_DUR && now > entry.since + IP_CHANGE_DUR {
                    entry.since = now;
                    entry.counts = Vec::new();
                    entry.counts.push((ip.clone(), 1));
                } else {
                    match assoc_find(&entry.counts, ip) {
                        Some(j) => {
                            let ghost oldc = entry.counts@;
                            let (ckey, v) = entry.counts.remove(j);
                            let v2: i32 = if v < i32::MAX {
                                v + 1
                            } else {
                                v
                            };
                            entry.counts.insert(j, (ckey, v2));
                            proof {
                                assert(entry.counts@ =~= oldc.update(
                                    j as int,
                                    entry.counts@[j as int],
                                ));
                                lemma_assoc_update(oldc, j as int, entry.counts@[j as int], ip@);
                                assert forall|k: Seq<char>| k != ip@ implies #[trigger] assoc_get(
                                    entry.counts@,
                                    k,
                                ) == assoc_get(oldc, k) by {
                                    lemma_assoc_update(
                                        oldc,
                                        j as int,
                                        entry.counts@[j as int],
                                        k,
                                    );
                                }
                            }
                        },
                        None => {
                            let ghost oldc = entry.counts@;
                            let ghost gip = ip@;
                            entry.counts.push((ip.clone(), 1));
                            proof {
                                let e = entry.counts@.last();
                                assert(entry.counts@ =~= oldc.push(e));
                                lemma_assoc_push(oldc, e, gip);
                                assert forall|k: Seq<char>| k != gip implies #[trigger] assoc_get(
                                    entry.counts@,
                                    k,
                                ) == assoc_get(oldc, k) by {
                                    lemma_assoc_push(oldc, e, k);
                                }
                            }
                        },
                    }
                }
                self.entries.insert(i, (key, entry));
                proof {
                    assert(self.entries@ =~= olds.update(i as int, self.entries@[i as int]));
                    lemma_assoc_update(olds, i as int, self.entries@[i as int], id@);
                    assert forall|k: Seq<char>| k != id@ implies #[trigger] assoc_get(
                        self.entries@,
                        k,
                    ) == assoc_get(olds, k) by {
                        lemma_assoc_update(olds, i as int, self.entries@[i as int], k);
                    }
                }
            },
            None => {
                let ghost olds = self.entries@;
                let mut counts: Vec<(String, i32)> = Vec::new();
                counts.push((ip.clone(), 1));
                let entry = IpChangeEntry { since: now, counts };
                let ghost gid = id@;
                self.entries.push((id.clone(), entry));
                proof {
                    let e = self.entries@.last();
                    assert(self.entries@ =~= olds.push(e));
                    lemma_assoc_push(olds, e, gid);
                    assert forall|k: Seq<char>| k != gid implies #[trigger] assoc_get(
                        self.entries@,
                        k,
                    ) == assoc_get(olds, k) by {
                        lemma_assoc_push(olds, e, k);
                    }
                }
            },
        }
    }
}

} // verus!
