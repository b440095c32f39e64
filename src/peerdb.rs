//! The peer database: every peer ever observed, with its connection status,
//! reputation, identity and metadata. Records are never deleted.

use crate::expiring_set::max_u64;
use crate::reputation::{
    apply_rep_change, saturating_rep, DEFAULT_REPUTATION, MAX_REPUTATION, MIN_REP_BEFORE_BAN,
};
use crate::types::{
    serves_subnet, ConnectionDirection, MetaData, Multiaddr, PeerConnectionStatus, PeerId,
};
use vstd::prelude::*;

verus! {

/// What is known of one peer.
#[derive(Debug)]
pub struct PeerInfo {
    pub connection_status: PeerConnectionStatus,
    /// In `[0, MAX_REPUTATION]`; below `MIN_REP_BEFORE_BAN` exactly when banned.
    pub reputation: u8,
    /// The peer's self-description, as it identified itself.
    pub client: String,
    /// The addresses the peer says it listens on.
    pub listening_addresses: Vec<Multiaddr>,
    /// The latest metadata received from the peer.
    pub meta_data: Option<MetaData>,
    /// Clock reading until which the peer is kept for a subnet duty.
    pub min_ttl: Option<u64>,
}

/// A peer and what is known of it.
#[derive(Debug)]
pub struct PeerRecord {
    pub id: PeerId,
    pub info: PeerInfo,
}

/// The record a peer gets when it is first observed.
pub open spec fn is_fresh(info: PeerInfo) -> bool {
    &&& info.connection_status == PeerConnectionStatus::Unknown
    &&& info.reputation == DEFAULT_REPUTATION
    &&& info.client@ == Seq::<char>::empty()
    &&& info.listening_addresses@ == Seq::<Multiaddr>::empty()
    &&& info.meta_data.is_none()
    &&& info.min_ttl.is_none()
}

pub open spec fn has_id(s: Seq<PeerRecord>, id: PeerId) -> bool {
    exists|i: int| 0 <= i < s.len() && (#[trigger] s[i]).id == id
}

/// The record of `id` among `s`, if there is one.
pub open spec fn lookup(s: Seq<PeerRecord>, id: PeerId) -> Option<PeerInfo> {
    if has_id(s, id) {
        Some(s[choose|i: int| 0 <= i < s.len() && (#[trigger] s[i]).id == id].info)
    } else {
        None
    }
}

pub open spec fn unique_ids(s: Seq<PeerRecord>) -> bool {
    forall|i: int, j: int| 0 <= i < j < s.len() ==> (#[trigger] s[i]).id != (#[trigger] s[j]).id
}

/// The ban rule: reputation in range, and banned exactly when below the threshold.
pub open spec fn rep_consistent(info: PeerInfo) -> bool {
    &&& info.reputation <= MAX_REPUTATION
    &&& (info.connection_status.spec_is_banned() <==> info.reputation < MIN_REP_BEFORE_BAN)
}

pub open spec fn is_connected(st: PeerConnectionStatus) -> bool {
    st.spec_is_connected()
}

pub open spec fn is_connected_or_dialing(st: PeerConnectionStatus) -> bool {
    st.spec_is_connected() || st.spec_is_dialing()
}

/// How many records have a status that satisfies `p`.
pub open spec fn count_where(s: Seq<PeerRecord>, p: spec_fn(PeerConnectionStatus) -> bool) -> nat
    decreases s.len(),
{
    if s.len() == 0 {
        0
    } else {
        count_where(s.drop_last(), p) + if p(s.last().info.connection_status) {
            1nat
        } else {
            0nat
        }
    }
}

pub open spec fn one_if(b: bool) -> int {
    if b {
        1
    } else {
        0
    }
}

pub proof fn lemma_count_update(
    s: Seq<PeerRecord>,
    i: int,
    r: PeerRecord,
    p: spec_fn(PeerConnectionStatus) -> bool,
)
    requires
        0 <= i < s.len(),
    ensures
        count_where(s.update(i, r), p) == count_where(s, p) - one_if(p(s[i].info.connection_status))
            + one_if(p(r.info.connection_status)),
    decreases s.len(),
{
    let t = s.update(i, r);
    if i == s.len() - 1 {
        assert(t.drop_last() =~= s.drop_last());
    } else {
        assert(t.drop_last() =~= s.drop_last().update(i, r));
        lemma_count_update(s.drop_last(), i, r, p);
    }
}

proof fn lemma_lookup_at(s: Seq<PeerRecord>, i: int)
    requires
        unique_ids(s),
        0 <= i < s.len(),
    ensures
        lookup(s, s[i].id) == Some(s[i].info),
{
    let id = s[i].id;
    assert(has_id(s, id));
    let j = choose|j: int| 0 <= j < s.len() && (#[trigger] s[j]).id == id;
    if j < i {
        assert(s[j].id != s[i].id);
    } else if i < j {
        assert(s[i].id != s[j].id);
    }
}

proof fn lemma_lookup_update(s: Seq<PeerRecord>, i: int, r: PeerRecord, x: PeerId)
    requires
        unique_ids(s),
        0 <= i < s.len(),
        r.id == s[i].id,
    ensures
        unique_ids(s.update(i, r)),
        lookup(s.update(i, r), x) == if x == r.id {
            Some(r.info)
        } else {
            lookup(s, x)
        },
{
    let t = s.update(i, r);
    assert forall|a: int, b: int| 0 <= a < b < t.len() implies (#[trigger] t[a]).id != (
    #[trigger] t[b]).id by {
        assert(s[a].id != s[b].id);
    }
    if x == r.id {
        lemma_lookup_at(t, i);
    } else {
        if has_id(s, x) {
            let j = choose|j: int| 0 <= j < s.len() && (#[trigger] s[j]).id == x;
            lemma_lookup_at(s, j);
            assert(t[j] == s[j]);
            lemma_lookup_at(t, j);
        }
        if has_id(t, x) {
            let j = choose|j: int| 0 <= j < t.len() && (#[trigger] t[j]).id == x;
            assert(t[j] == s[j]);
        }
    }
}

proof fn lemma_lookup_push(s: Seq<PeerRecord>, r: PeerRecord, x: PeerId)
    requires
        unique_ids(s),
        !has_id(s, r.id),
    ensures
        unique_ids(s.push(r)),
        lookup(s.push(r), x) == if x == r.id {
            Some(r.info)
        } else {
            lookup(s, x)
        },
{
    let t = s.push(r);
    assert forall|a: int, b: int| 0 <= a < b < t.len() implies (#[trigger] t[a]).id != (
    #[trigger] t[b]).id by {
        if b == s.len() {
            assert(t[a] == s[a]);
        } else {
            assert(s[a].id != s[b].id);
        }
    }
    if x == r.id {
        lemma_lookup_at(t, s.len() as int);
    } else {
        if has_id(s, x) {
            let j = choose|j: int| 0 <= j < s.len() && (#[trigger] s[j]).id == x;
            lemma_lookup_at(s, j);
            assert(t[j] == s[j]);
            lemma_lookup_at(t, j);
        }
        if has_id(t, x) {
            let j = choose|j: int| 0 <= j < t.len() && (#[trigger] t[j]).id == x;
            assert(t[j] == s[j]);
        }
    }
}

/// `b` is `a` with its pin extended to `min_ttl` where `a`'s metadata says it serves `subnet`.
pub open spec fn subnet_extended(a: PeerInfo, b: PeerInfo, subnet: u64, min_ttl: u64) -> bool {
    &&& b.connection_status == a.connection_status
    &&& b.reputation == a.reputation
    &&& b.meta_data == a.meta_data
    &&& b.client == a.client
    &&& b.listening_addresses == a.listening_addresses
    &&& b.min_ttl == match a.meta_data {
        Some(m) => if serves_subnet(m, subnet) {
            Some(
                match a.min_ttl {
                    Some(t) => max_u64(t, min_ttl),
                    None => min_ttl,
                },
            )
        } else {
            a.min_ttl
        },
        None => a.min_ttl,
    }
}

/// The status a peer with status `st` has once its reputation became `rep`: it is
/// banned below the threshold and unbanned (disconnected) at or above it.
pub open spec fn status_after_rep(st: PeerConnectionStatus, rep: int, now: u64) -> PeerConnectionStatus {
    if rep < MIN_REP_BEFORE_BAN {
        if st.spec_is_banned() {
            st
        } else {
            PeerConnectionStatus::Banned { since: now }
        }
    } else {
        if st.spec_is_banned() {
            PeerConnectionStatus::Disconnected { since: now }
        } else {
            st
        }
    }
}

/// Whether a peer with status `st` has been dialed for longer than `timeout` at `now`.
pub open spec fn dial_stale(st: PeerConnectionStatus, now: u64, timeout: u64) -> bool {
    match st {
        PeerConnectionStatus::Dialing { since } => now > since && now - since > timeout,
        _ => false,
    }
}

/// `b` is `a` with a stale dial turned into a disconnection at `now`.
pub open spec fn dial_expired(a: PeerInfo, b: PeerInfo, now: u64, timeout: u64) -> bool {
    &&& b.connection_status == if dial_stale(a.connection_status, now, timeout) {
        PeerConnectionStatus::Disconnected { since: now }
    } else {
        a.connection_status
    }
    &&& b.reputation == a.reputation
    &&& b.meta_data == a.meta_data
    &&& b.client == a.client
    &&& b.listening_addresses == a.listening_addresses
    &&& b.min_ttl == a.min_ttl
}

/// The ids of the records of `s` dialed for longer than `timeout` at `now`, in order.
pub open spec fn stale_ids(s: Seq<PeerRecord>, now: u64, timeout: u64) -> Seq<PeerId>
    decreases s.len(),
{
    if s.len() == 0 {
        Seq::empty()
    } else if dial_stale(s.last().info.connection_status, now, timeout) {
        stale_ids(s.drop_last(), now, timeout).push(s.last().id)
    } else {
        stale_ids(s.drop_last(), now, timeout)
    }
}

pub open spec fn wf_records(s: Seq<PeerRecord>) -> bool {
    &&& unique_ids(s)
    &&& forall|i: int| 0 <= i < s.len() ==> rep_consistent(#[trigger] s[i].info)
}

/// Every known peer, one record each.
pub struct PeerDB {
    peers: Vec<PeerRecord>,
}

impl View for PeerDB {
    type V = Seq<PeerRecord>;

    closed spec fn view(&self) -> Seq<PeerRecord> {
        self.peers@
    }
}

impl PeerDB {
    pub open spec fn wf(&self) -> bool {
        wf_records(self@)
    }

    pub open spec fn spec_peer(&self, id: PeerId) -> Option<PeerInfo> {
        lookup(self@, id)
    }

    pub open spec fn spec_status(&self, id: PeerId) -> PeerConnectionStatus {
        match self.spec_peer(id) {
            Some(info) => info.connection_status,
            None => PeerConnectionStatus::Unknown,
        }
    }

    pub open spec fn spec_connected(&self) -> nat {
        count_where(self@, |st: PeerConnectionStatus| is_connected(st))
    }

    pub open spec fn spec_connected_or_dialing(&self) -> nat {
        count_where(self@, |st: PeerConnectionStatus| is_connected_or_dialing(st))
    }

    pub open spec fn spec_reputation(&self, id: PeerId) -> int {
        match self.spec_peer(id) {
            Some(info) => info.reputation as int,
            None => DEFAULT_REPUTATION as int,
        }
    }

    pub open spec fn spec_meta_data(&self, id: PeerId) -> Option<MetaData> {
        match self.spec_peer(id) {
            Some(info) => info.meta_data,
            None => None,
        }
    }

    pub open spec fn spec_min_ttl(&self, id: PeerId) -> Option<u64> {
        match self.spec_peer(id) {
            Some(info) => info.min_ttl,
            None => None,
        }
    }

    pub open spec fn spec_client(&self, id: PeerId) -> Seq<char> {
        match self.spec_peer(id) {
            Some(info) => info.client@,
            None => Seq::<char>::empty(),
        }
    }

    pub open spec fn spec_addresses(&self, id: PeerId) -> Seq<Multiaddr> {
        match self.spec_peer(id) {
            Some(info) => info.listening_addresses@,
            None => Seq::<Multiaddr>::empty(),
        }
    }

    /// `id`'s record holds the given status and reputation and otherwise what it held in
    /// `old` (fresh values where `old` did not know `id`); all other records are as in `old`.
    pub open spec fn status_rep_set(
        &self,
        old: &PeerDB,
        id: PeerId,
        st: PeerConnectionStatus,
        rep: int,
    ) -> bool {
        &&& self.spec_peer(id).is_some()
        &&& self.spec_status(id) == st
        &&& self.spec_reputation(id) == rep
        &&& self.spec_meta_data(id) == old.spec_meta_data(id)
        &&& self.spec_min_ttl(id) == old.spec_min_ttl(id)
        &&& self.spec_client(id) == old.spec_client(id)
        &&& self.spec_addresses(id) == old.spec_addresses(id)
        &&& self.same_except(old, id)
    }

    /// The two counters moved as `id`'s status moved from `old` to `self`.
    pub open spec fn counts_follow(&self, old: &PeerDB, id: PeerId) -> bool {
        &&& self.spec_connected() == old.spec_connected() - one_if(
            is_connected(old.spec_status(id)),
        ) + one_if(is_connected(self.spec_status(id)))
        &&& self.spec_connected_or_dialing() == old.spec_connected_or_dialing() - one_if(
            is_connected_or_dialing(old.spec_status(id)),
        ) + one_if(is_connected_or_dialing(self.spec_status(id)))
    }

    /// `self` is `old` with the pins of the peers that serve `subnet` extended to `min_ttl`.
    pub open spec fn subnet_pins_extended(&self, old: &PeerDB, subnet: u64, min_ttl: u64) -> bool {
        &&& self.wf()
        &&& forall|x: PeerId| #[trigger]
            self.spec_peer(x).is_some() == old.spec_peer(x).is_some()
        &&& forall|x: PeerId|
            old.spec_peer(x).is_some() ==> subnet_extended(
                old.spec_peer(x).unwrap(),
                #[trigger] self.spec_peer(x).unwrap(),
                subnet,
                min_ttl,
            )
        &&& self.spec_connected() == old.spec_connected()
        &&& self.spec_connected_or_dialing() == old.spec_connected_or_dialing()
    }

    /// `x`'s record is its record in `old` (fresh values where `old` did not know it)
    /// with its pin moved to the later of the old pin and `t`.
    pub open spec fn pinned_from(&self, old: &PeerDB, x: PeerId, t: u64) -> bool {
        &&& self.spec_peer(x).is_some()
        &&& self.spec_min_ttl(x) == Some(
            match old.spec_min_ttl(x) {
                Some(a) => max_u64(a, t),
                None => t,
            },
        )
        &&& self.spec_status(x) == old.spec_status(x)
        &&& self.spec_reputation(x) == old.spec_reputation(x)
        &&& self.spec_meta_data(x) == old.spec_meta_data(x)
        &&& self.spec_client(x) == old.spec_client(x)
        &&& self.spec_addresses(x) == old.spec_addresses(x)
    }

    /// Every peer's reputation, metadata, self-description and addresses are as in `old`.
    pub open spec fn keeps_details(&self, old: &PeerDB) -> bool {
        forall|x: PeerId|
            #![trigger self.spec_peer(x)]
            {
                &&& self.spec_reputation(x) == old.spec_reputation(x)
                &&& self.spec_meta_data(x) == old.spec_meta_data(x)
                &&& self.spec_client(x) == old.spec_client(x)
                &&& self.spec_addresses(x) == old.spec_addresses(x)
            }
    }

    pub proof fn lemma_keeps_details_trans(&self, mid: &PeerDB, old: &PeerDB)
        requires
            self.keeps_details(mid),
            mid.keeps_details(old),
        ensures
            self.keeps_details(old),
    {
        assert forall|x: PeerId| #![trigger self.spec_peer(x)] {
            &&& self.spec_reputation(x) == old.spec_reputation(x)
            &&& self.spec_meta_data(x) == old.spec_meta_data(x)
            &&& self.spec_client(x) == old.spec_client(x)
            &&& self.spec_addresses(x) == old.spec_addresses(x)
        } by {
            let _ = mid.spec_peer(x);
            let _ = old.spec_peer(x);
        }
    }

    /// Whether the two databases hold the same records but for `id`'s.
    pub open spec fn same_except(&self, other: &PeerDB, id: PeerId) -> bool {
        forall|x: PeerId| x != id ==> #[trigger] self.spec_peer(x) == other.spec_peer(x)
    }

    /// An empty database.
    pub fn new() -> (r: PeerDB)
        ensures
            r.wf(),
            r@ == Seq::<PeerRecord>::empty(),
    {
        PeerDB { peers: Vec::new() }
    }

    fn position(&self, id: PeerId) -> (r: Option<usize>)
        requires
            self.wf(),
        ensures
            match r {
                Some(i) => i < self@.len() && self@[i as int].id == id && self.spec_peer(id) == Some(
                    self@[i as int].info,
                ),
                None => !has_id(self@, id) && self.spec_peer(id).is_none(),
            },
    {
        let n = self.peers.len();
        for i in 0..n
            invariant
                self.wf(),
                n == self.peers@.len(),
                forall|j: int| 0 <= j < i ==> (#[trigger] self.peers@[j]).id != id,
        {
            if self.peers[i].id == id {
                proof {
                    lemma_lookup_at(self@, i as int);
                }
                return Some(i);
            }
        }
        None
    }

    /// The index of `id`'s record, made with fresh values if `id` was unknown.
    fn position_or_insert(&mut self, id: PeerId) -> (r: usize)
        requires
            old(self).wf(),
        ensures
            final(self).wf(),
            r < final(self)@.len(),
            final(self)@[r as int].id == id,
            final(self)@[r as int].info == match old(self).spec_peer(id) {
                Some(info) => info,
                None => final(self)@[r as int].info,
            },
            old(self).spec_peer(id).is_none() ==> is_fresh(final(self)@[r as int].info),
            old(self).spec_peer(id).is_none() ==> final(self)@ == old(self)@.push(
                final(self)@[r as int],
            ),
            old(self).spec_peer(id).is_some() ==> final(self)@ == old(self)@,
    {
        match self.position(id) {
            Some(i) => i,
            None => {
                let info = PeerInfo {
                    connection_status: PeerConnectionStatus::Unknown,
                    reputation: DEFAULT_REPUTATION,
                    client: String::new(),
                    listening_addresses: Vec::new(),
                    meta_data: None,
                    min_ttl: None,
                };
                let ghost s = self.peers@;
                self.peers.push(PeerRecord { id, info });
                proof {
                    lemma_lookup_push(s, self.peers@.last(), id);
                }
                self.peers.len() - 1
            },
        }
    }

    /// Writes `id`'s status, reputation, metadata and pin, creating the record first
    /// where `id` is unknown.
    fn write_record(
        &mut self,
        id: PeerId,
        st: PeerConnectionStatus,
        rep: u8,
        meta: Option<MetaData>,
        min_ttl: Option<u64>,
    )
        requires
            old(self).wf(),
            rep <= MAX_REPUTATION,
            st.spec_is_banned() <==> rep < MIN_REP_BEFORE_BAN,
        ensures
            final(self).wf(),
            final(self).spec_peer(id).is_some(),
            final(self).spec_status(id) == st,
            final(self).spec_reputation(id) == rep,
            final(self).spec_meta_data(id) == meta,
            final(self).spec_min_ttl(id) == min_ttl,
            final(self).spec_client(id) == old(self).spec_client(id),
            final(self).spec_addresses(id) == old(self).spec_addresses(id),
            final(self).same_except(old(self), id),
            final(self).counts_follow(old(self), id),
    {
        let ghost s0 = self.peers@;
        let i = self.position_or_insert(id);
        let ghost s = self.peers@;
        proof {
            if lookup(s0, id).is_none() {
                assert(s.drop_last() =~= s0);
                assert forall|x: PeerId| x != id implies #[trigger] lookup(s, x) == lookup(s0, x) by {
                    lemma_lookup_push(s0, s.last(), x);
                }
            }
        }
        let mut rec = self.take_record(i);
        rec.info.connection_status = st;
        rec.info.reputation = rep;
        rec.info.meta_data = meta;
        rec.info.min_ttl = min_ttl;
        self.put_record(i, rec, Ghost(s));
    }

    /// The record of `id`, if it is known.
    pub fn peer_info(&self, id: PeerId) -> (r: Option<&PeerInfo>)
        requires
            self.wf(),
        ensures
            match r {
                Some(info) => self.spec_peer(id) == Some(*info),
                None => self.spec_peer(id).is_none(),
            },
    {
        match self.position(id) {
            Some(i) => Some(&self.peers[i].info),
            None => None,
        }
    }

    /// The connection status of `id`, if it is known.
    pub fn connection_status(&self, id: PeerId) -> (r: Option<PeerConnectionStatus>)
        requires
            self.wf(),
        ensures
            r == match self.spec_peer(id) {
                Some(info) => Some(info.connection_status),
                None => None,
            },
    {
        match self.position(id) {
            Some(i) => Some(self.peers[i].info.connection_status),
            None => None,
        }
    }

    /// The reputation of `id`; the starting value where it is unknown.
    pub fn reputation(&self, id: PeerId) -> (r: u8)
        requires
            self.wf(),
        ensures
            r as int == self.spec_reputation(id),
    {
        match self.position(id) {
            Some(i) => self.peers[i].info.reputation,
            None => DEFAULT_REPUTATION,
        }
    }

    /// Whether `id` is connected or being dialed.
    pub fn is_connected_or_dialing(&self, id: PeerId) -> (r: bool)
        requires
            self.wf(),
        ensures
            r == is_connected_or_dialing(self.spec_status(id)),
    {
        match self.position(id) {
            Some(i) => {
                let st = &self.peers[i].info.connection_status;
                st.is_connected() || st.is_dialing()
            },
            None => false,
        }
    }

    /// Whether `id` is banned.
    pub fn peer_banned(&self, id: PeerId) -> (r: bool)
        requires
            self.wf(),
        ensures
            r == self.spec_status(id).spec_is_banned(),
    {
        match self.position(id) {
            Some(i) => self.peers[i].info.connection_status.is_banned(),
            None => false,
        }
    }

    fn count(&self, dialing_too: bool) -> (r: usize)
        ensures
            !dialing_too ==> r == self.spec_connected(),
            dialing_too ==> r == self.spec_connected_or_dialing(),
    {
        let n = self.peers.len();
        let mut c: usize = 0;
        let ghost p = if dialing_too {
            |st: PeerConnectionStatus| is_connected_or_dialing(st)
        } else {
            |st: PeerConnectionStatus| is_connected(st)
        };
        for i in 0..n
            invariant
                n == self.peers@.len(),
                c == count_where(self.peers@.take(i as int), p),
                c <= i,
                p == if dialing_too {
                    |st: PeerConnectionStatus| is_connected_or_dialing(st)
                } else {
                    |st: PeerConnectionStatus| is_connected(st)
                },
        {
            let st = &self.peers[i].info.connection_status;
            assert(self.peers@.take(i + 1).drop_last() =~= self.peers@.take(i as int));
            if st.is_connected() || (dialing_too && st.is_dialing()) {
                c = c + 1;
            }
        }
        assert(self.peers@.take(n as int) =~= self.peers@);
        c
    }

    /// The number of connected peers.
    pub fn connected_peers(&self) -> (r: usize)
        ensures
            r == self.spec_connected(),
    {
        self.count(false)
    }

    /// The number of peers that are connected or being dialed.
    pub fn connected_or_dialing_peers(&self) -> (r: usize)
        ensures
            r == self.spec_connected_or_dialing(),
    {
        self.count(true)
    }

    /// `id`'s status, reputation, metadata and pin (fresh values where it is unknown).
    fn current(&self, id: PeerId) -> (r: (PeerConnectionStatus, u8, Option<MetaData>, Option<u64>))
        requires
            self.wf(),
        ensures
            r.0 == self.spec_status(id),
            r.1 as int == self.spec_reputation(id),
            r.2 == self.spec_meta_data(id),
            r.3 == self.spec_min_ttl(id),
            r.1 <= MAX_REPUTATION,
            r.0.spec_is_banned() <==> r.1 < MIN_REP_BEFORE_BAN,
    {
        match self.position(id) {
            Some(i) => {
                let info = &self.peers[i].info;
                (info.connection_status, info.reputation, info.meta_data, info.min_ttl)
            },
            None => (PeerConnectionStatus::Unknown, DEFAULT_REPUTATION, None, None),
        }
    }

    /// Moves `id` to `st` unless it is banned; returns whether it moved.
    fn enter_unless_banned(&mut self, id: PeerId, st: PeerConnectionStatus) -> (r: bool)
        requires
            old(self).wf(),
            !st.spec_is_banned(),
        ensures
            final(self).wf(),
            r == !old(self).spec_status(id).spec_is_banned(),
            r ==> final(self).status_rep_set(old(self), id, st, old(self).spec_reputation(id)),
            !r ==> final(self)@ == old(self)@,
            final(self).counts_follow(old(self), id),
    {
        let (cur, rep, meta, ttl) = self.current(id);
        if cur.is_banned() {
            false
        } else {
            self.write_record(id, st, rep, meta, ttl);
            true
        }
    }

    /// Marks `id` as being dialed; a banned peer is refused.
    pub fn dialing_peer(&mut self, id: PeerId, now: u64) -> (r: bool)
        requires
            old(self).wf(),
        ensures
            final(self).wf(),
            r == !old(self).spec_status(id).spec_is_banned(),
            r ==> final(self).status_rep_set(
                old(self),
                id,
                PeerConnectionStatus::Dialing { since: now },
                old(self).spec_reputation(id),
            ),
            !r ==> final(self)@ == old(self)@,
            final(self).counts_follow(old(self), id),
    {
        self.enter_unless_banned(id, PeerConnectionStatus::Dialing { since: now })
    }

    /// Marks `id` as connected by its own dial; a banned peer is refused.
    pub fn connect_ingoing(&mut self, id: PeerId, now: u64) -> (r: bool)
        requires
            old(self).wf(),
        ensures
            final(self).wf(),
            r == !old(self).spec_status(id).spec_is_banned(),
            r ==> final(self).status_rep_set(
                old(self),
                id,
                PeerConnectionStatus::Connected { direction: ConnectionDirection::Incoming, since: now },
                old(self).spec_reputation(id),
            ),
            !r ==> final(self)@ == old(self)@,
            final(self).counts_follow(old(self), id),
    {
        self.enter_unless_banned(
            id,
            PeerConnectionStatus::Connected { direction: ConnectionDirection::Incoming, since: now },
        )
    }

    /// Marks `id` as connected by our dial; a banned peer is refused.
    pub fn connect_outgoing(&mut self, id: PeerId, now: u64) -> (r: bool)
        requires
            old(self).wf(),
        ensures
            final(self).wf(),
            r == !old(self).spec_status(id).spec_is_banned(),
            r ==> final(self).status_rep_set(
                old(self),
                id,
                PeerConnectionStatus::Connected { direction: ConnectionDirection::Outgoing, since: now },
                old(self).spec_reputation(id),
            ),
            !r ==> final(self)@ == old(self)@,
            final(self).counts_follow(old(self), id),
    {
        self.enter_unless_banned(
            id,
            PeerConnectionStatus::Connected { direction: ConnectionDirection::Outgoing, since: now },
        )
    }

    /// Marks `id` as disconnected. A banned peer stays banned and an already
    /// disconnected one keeps the time it left.
    pub fn disconnect(&mut self, id: PeerId, now: u64)
        requires
            old(self).wf(),
        ensures
            final(self).wf(),
            final(self).status_rep_set(
                old(self),
                id,
                match old(self).spec_status(id) {
                    PeerConnectionStatus::Banned { since } => PeerConnectionStatus::Banned { since },
                    PeerConnectionStatus::Disconnected { since } => PeerConnectionStatus::Disconnected {
                        since,
                    },
                    _ => PeerConnectionStatus::Disconnected { since: now },
                },
                old(self).spec_reputation(id),
            ),
            final(self).counts_follow(old(self), id),
    {
        let (cur, rep, meta, ttl) = self.current(id);
        let st = match cur {
            PeerConnectionStatus::Banned { since } => PeerConnectionStatus::Banned { since },
            PeerConnectionStatus::Disconnected { since } => PeerConnectionStatus::Disconnected {
                since,
            },
            _ => PeerConnectionStatus::Disconnected { since: now },
        };
        self.write_record(id, st, rep, meta, ttl);
    }

    /// Bans `id`: its reputation drops to zero.
    pub fn ban(&mut self, id: PeerId, now: u64)
        requires
            old(self).wf(),
        ensures
            final(self).wf(),
            final(self).status_rep_set(old(self), id, PeerConnectionStatus::Banned { since: now }, 0),
            final(self).counts_follow(old(self), id),
    {
        let (_cur, _rep, meta, ttl) = self.current(id);
        self.write_record(id, PeerConnectionStatus::Banned { since: now }, 0, meta, ttl);
    }

    /// Adds `delta` to `id`'s reputation, saturating in `[0, MAX_REPUTATION]`. Falling
    /// below `MIN_REP_BEFORE_BAN` bans the peer; climbing back to it turns a ban into a
    /// disconnection. Returns whether the peer was banned by this call.
    pub fn add_reputation(&mut self, id: PeerId, delta: i16, now: u64) -> (r: bool)
        requires
            old(self).wf(),
        ensures
            final(self).wf(),
            final(self).status_rep_set(
                old(self),
                id,
                status_after_rep(
                    old(self).spec_status(id),
                    saturating_rep(old(self).spec_reputation(id), delta as int),
                    now,
                ),
                saturating_rep(old(self).spec_reputation(id), delta as int),
            ),
            r == (!old(self).spec_status(id).spec_is_banned()
                && final(self).spec_status(id).spec_is_banned()),
            final(self).counts_follow(old(self), id),
    {
        let (cur, rep, meta, ttl) = self.current(id);
        let new_rep = apply_rep_change(rep, delta);
        let was_banned = cur.is_banned();
        let st = if new_rep < MIN_REP_BEFORE_BAN {
            if was_banned {
                cur
            } else {
                PeerConnectionStatus::Banned { since: now }
            }
        } else {
            if was_banned {
                PeerConnectionStatus::Disconnected { since: now }
            } else {
                cur
            }
        };
        self.write_record(id, st, new_rep, meta, ttl);
        !was_banned && st.is_banned()
    }

    /// Keeps `id` at least until `min_ttl`: its pin becomes the later of the two.
    pub fn update_min_ttl(&mut self, id: PeerId, min_ttl: u64)
        requires
            old(self).wf(),
        ensures
            final(self).wf(),
            final(self).spec_peer(id).is_some(),
            final(self).spec_min_ttl(id) == Some(
                match old(self).spec_min_ttl(id) {
                    Some(t) => max_u64(t, min_ttl),
                    None => min_ttl,
                },
            ),
            final(self).spec_status(id) == old(self).spec_status(id),
            final(self).spec_reputation(id) == old(self).spec_reputation(id),
            final(self).spec_meta_data(id) == old(self).spec_meta_data(id),
            final(self).spec_client(id) == old(self).spec_client(id),
            final(self).spec_addresses(id) == old(self).spec_addresses(id),
            final(self).same_except(old(self), id),
            final(self).spec_connected() == old(self).spec_connected(),
            final(self).spec_connected_or_dialing() == old(self).spec_connected_or_dialing(),
    {
        let (cur, rep, meta, ttl) = self.current(id);
        let t = match ttl {
            Some(t) => if t >= min_ttl {
                t
            } else {
                min_ttl
            },
            None => min_ttl,
        };
        self.write_record(id, cur, rep, meta, Some(t));
    }

    /// Stores `meta` as `id`'s metadata.
    pub fn set_meta_data(&mut self, id: PeerId, meta: MetaData)
        requires
            old(self).wf(),
        ensures
            final(self).wf(),
            final(self).spec_peer(id).is_some(),
            final(self).spec_meta_data(id) == Some(meta),
            final(self).spec_status(id) == old(self).spec_status(id),
            final(self).spec_reputation(id) == old(self).spec_reputation(id),
            final(self).spec_min_ttl(id) == old(self).spec_min_ttl(id),
            final(self).spec_client(id) == old(self).spec_client(id),
            final(self).spec_addresses(id) == old(self).spec_addresses(id),
            final(self).same_except(old(self), id),
            final(self).spec_connected() == old(self).spec_connected(),
            final(self).spec_connected_or_dialing() == old(self).spec_connected_or_dialing(),
    {
        let (cur, rep, _meta, ttl) = self.current(id);
        self.write_record(id, cur, rep, Some(meta), ttl);
    }

    /// Records how a known peer identified itself; an unknown peer is left alone.
    /// Returns whether `id` was known.
    pub fn set_identity(&mut self, id: PeerId, client: String, addresses: Vec<Multiaddr>) -> (r: bool)
        requires
            old(self).wf(),
        ensures
            final(self).wf(),
            r == old(self).spec_peer(id).is_some(),
            !r ==> final(self)@ == old(self)@,
            r ==> final(self).spec_client(id) == client@,
            r ==> final(self).spec_addresses(id) == addresses@,
            final(self).spec_peer(id).is_some() == old(self).spec_peer(id).is_some(),
            final(self).spec_status(id) == old(self).spec_status(id),
            final(self).spec_reputation(id) == old(self).spec_reputation(id),
            final(self).spec_meta_data(id) == old(self).spec_meta_data(id),
            final(self).spec_min_ttl(id) == old(self).spec_min_ttl(id),
            final(self).same_except(old(self), id),
            final(self).spec_connected() == old(self).spec_connected(),
            final(self).spec_connected_or_dialing() == old(self).spec_connected_or_dialing(),
    {
        match self.position(id) {
            Some(i) => {
                let ghost s = self.peers@;
                let mut rec = self.take_record(i);
                rec.info.client = client;
                rec.info.listening_addresses = addresses;
                self.put_record(i, rec, Ghost(s));
                true
            },
            None => false,
        }
    }

    /// Every peer whose metadata says it serves `subnet` is kept at least until `min_ttl`.
    pub fn extend_peers_on_subnet(&mut self, subnet: u64, min_ttl: u64)
        requires
            old(self).wf(),
        ensures
            final(self).subnet_pins_extended(old(self), subnet, min_ttl),
    {
        let ghost s0 = self.peers@;
        let n = self.peers.len();
        for i in 0..n
            invariant
                self.wf(),
                n == self.peers@.len(),
                s0.len() == n,
                forall|j: int| 0 <= j < n ==> (#[trigger] self.peers@[j]).id == s0[j].id,
                forall|j: int|
                    0 <= j < i ==> subnet_extended(s0[j].info, #[trigger] self.peers@[j].info, subnet, min_ttl),
                forall|j: int| i <= j < n ==> #[trigger] self.peers@[j] == s0[j],
                self.spec_connected() == count_where(s0, |st: PeerConnectionStatus| is_connected(st)),
                self.spec_connected_or_dialing() == count_where(s0, |st: PeerConnectionStatus| is_connected_or_dialing(st)),
        {
            let serves = match self.peers[i].info.meta_data {
                Some(m) => m.on_subnet(subnet),
                None => false,
            };
            if serves {
                let ghost s = self.peers@;
                let mut rec = self.take_record(i);
                let t = match rec.info.min_ttl {
                    Some(t) => if t >= min_ttl {
                        t
                    } else {
                        min_ttl
                    },
                    None => min_ttl,
                };
                rec.info.min_ttl = Some(t);
                self.put_record(i, rec, Ghost(s));
                assert(self.peers@ == s.update(i as int, self.peers@[i as int]));
            }
        }
        proof {
            let t = self.peers@;
            assert forall|x: PeerId| #[trigger] lookup(t, x).is_some() == lookup(s0, x).is_some()
                && (lookup(s0, x).is_some() ==> subnet_extended(
                lookup(s0, x).unwrap(),
                lookup(t, x).unwrap(),
                subnet,
                min_ttl,
            )) by {
                if has_id(s0, x) {
                    let j = choose|j: int| 0 <= j < s0.len() && (#[trigger] s0[j]).id == x;
                    lemma_lookup_at(s0, j);
                    lemma_lookup_at(t, j);
                }
                if has_id(t, x) {
                    let j = choose|j: int| 0 <= j < t.len() && (#[trigger] t[j]).id == x;
                    assert(s0[j].id == x);
                }
            }
        }
    }

    /// Whether `x` is known and has been dialed for longer than `timeout` at `now`.
    pub open spec fn spec_dial_stale(&self, x: PeerId, now: u64, timeout: u64) -> bool {
        self.spec_peer(x).is_some() && dial_stale(self.spec_status(x), now, timeout)
    }

    /// Every peer dialed for longer than `timeout` is marked disconnected at `now`;
    /// returns those peers.
    pub fn disconnect_stale_dialing(&mut self, now: u64, timeout: u64) -> (r: Vec<PeerId>)
        requires
            old(self).wf(),
        ensures
            final(self).wf(),
            forall|x: PeerId| #[trigger]
                final(self).spec_peer(x).is_some() == old(self).spec_peer(x).is_some(),
            forall|x: PeerId|
                old(self).spec_peer(x).is_some() ==> dial_expired(
                    old(self).spec_peer(x).unwrap(),
                    #[trigger] final(self).spec_peer(x).unwrap(),
                    now,
                    timeout,
                ),
            forall|x: PeerId| #[trigger] r@.contains(x) == old(self).spec_dial_stale(x, now, timeout),
            r@ == stale_ids(old(self)@, now, timeout),
            final(self).spec_connected() == old(self).spec_connected(),
            final(self).spec_connected_or_dialing() + r@.len() == old(self).spec_connected_or_dialing(),
    {
        let ghost s0 = self.peers@;
        let mut out: Vec<PeerId> = Vec::new();
        let n = self.peers.len();
        for i in 0..n
            invariant
                self.wf(),
                n == self.peers@.len(),
                s0.len() == n,
                wf_records(s0),
                forall|j: int| 0 <= j < n ==> (#[trigger] self.peers@[j]).id == s0[j].id,
                forall|j: int|
                    0 <= j < i ==> dial_expired(s0[j].info, #[trigger] self.peers@[j].info, now, timeout),
                forall|j: int| i <= j < n ==> #[trigger] self.peers@[j] == s0[j],
                forall|x: PeerId|
                    #[trigger] out@.contains(x) == exists|j: int|
                        0 <= j < i && (#[trigger] s0[j]).id == x && dial_stale(
                            s0[j].info.connection_status,
                            now,
                            timeout,
                        ),
                self.spec_connected() == count_where(s0, |st: PeerConnectionStatus| is_connected(st)),
                out@ == stale_ids(s0.take(i as int), now, timeout),
                self.spec_connected_or_dialing() + out@.len() == count_where(
                    s0,
                    |st: PeerConnectionStatus| is_connected_or_dialing(st),
                ),
        {
            let stale = match self.peers[i].info.connection_status {
                PeerConnectionStatus::Dialing { since } => now > since && now - since > timeout,
                _ => false,
            };
            let ghost before = out@;
            assert(s0.take(i + 1).drop_last() =~= s0.take(i as int));
            assert(s0.take(i + 1).last() == s0[i as int]);
            if stale {
                let ghost s = self.peers@;
                let mut rec = self.take_record(i);
                let id = rec.id;
                rec.info.connection_status = PeerConnectionStatus::Disconnected { since: now };
                self.put_record(i, rec, Ghost(s));
                out.push(id);
                assert(self.peers@ == s.update(i as int, self.peers@[i as int]));
                assert forall|x: PeerId| #[trigger] out@.contains(x) == exists|j: int|
                    0 <= j < i + 1 && (#[trigger] s0[j]).id == x && dial_stale(
                        s0[j].info.connection_status,
                        now,
                        timeout,
                    ) by {
                    if x == id {
                        assert(out@[before.len() as int] == x);
                        assert(s0[i as int].id == x);
                    } else {
                        if out@.contains(x) {
                            let k = choose|k: int| 0 <= k < out@.len() && out@[k] == x;
                            assert(before[k] == x);
                            assert(before.contains(x));
                        }
                        if before.contains(x) {
                            let k = choose|k: int| 0 <= k < before.len() && before[k] == x;
                            assert(out@[k] == x);
                        }
                    }
                }
            } else {
                assert forall|x: PeerId| #[trigger] out@.contains(x) == exists|j: int|
                    0 <= j < i + 1 && (#[trigger] s0[j]).id == x && dial_stale(
                        s0[j].info.connection_status,
                        now,
                        timeout,
                    ) by {
                    if exists|j: int|
                        0 <= j < i + 1 && (#[trigger] s0[j]).id == x && dial_stale(
                            s0[j].info.connection_status,
                            now,
                            timeout,
                        ) {
                        let j = choose|j: int|
                            0 <= j < i + 1 && (#[trigger] s0[j]).id == x && dial_stale(
                                s0[j].info.connection_status,
                                now,
                                timeout,
                            );
                        assert(j != i);
                    }
                }
            }
        }
        proof {
            assert(s0.take(n as int) =~= s0);
            let t = self.peers@;
            assert forall|x: PeerId| #[trigger] lookup(t, x).is_some() == lookup(s0, x).is_some()
                && (lookup(s0, x).is_some() ==> dial_expired(
                lookup(s0, x).unwrap(),
                lookup(t, x).unwrap(),
                now,
                timeout,
            )) && (out@.contains(x) == (lookup(s0, x).is_some() && dial_stale(
                lookup(s0, x).unwrap().connection_status,
                now,
                timeout,
            ))) by {
                if has_id(s0, x) {
                    let j = choose|j: int| 0 <= j < s0.len() && (#[trigger] s0[j]).id == x;
                    lemma_lookup_at(s0, j);
                    lemma_lookup_at(t, j);
                    if out@.contains(x) {
                        let k = choose|k: int|
                            0 <= k < n && (#[trigger] s0[k]).id == x && dial_stale(
                                s0[k].info.connection_status,
                                now,
                                timeout,
                            );
                        lemma_lookup_at(s0, k);
                    }
                } else {
                    if out@.contains(x) {
                        let k = choose|k: int|
                            0 <= k < n && (#[trigger] s0[k]).id == x && dial_stale(
                                s0[k].info.connection_status,
                                now,
                                timeout,
                            );
                        assert(has_id(s0, x));
                    }
                }
                if has_id(t, x) {
                    let j = choose|j: int| 0 <= j < t.len() && (#[trigger] t[j]).id == x;
                    assert(s0[j].id == x);
                }
            }
        }
        out
    }

    /// Takes the record at `i` out for an update; `put_record` puts it back.
    fn take_record(&mut self, i: usize) -> (r: PeerRecord)
        requires
            i < old(self)@.len(),
        ensures
            r == old(self)@[i as int],
            final(self)@ == old(self)@.remove(i as int),
    {
        self.peers.remove(i)
    }

    /// Puts a record for the same peer back where `take_record` took one out of `s`.
    fn put_record(&mut self, i: usize, rec: PeerRecord, Ghost(s): Ghost<Seq<PeerRecord>>)
        requires
            old(self)@ == s.remove(i as int),
            i < s.len(),
            wf_records(s),
            rec.id == s[i as int].id,
            rep_consistent(rec.info),
        ensures
            final(self).wf(),
            final(self)@ == s.update(i as int, rec),
            final(self).spec_peer(rec.id) == Some(rec.info),
            forall|x: PeerId| x != rec.id ==> #[trigger] final(self).spec_peer(x) == lookup(s, x),
            final(self).spec_connected() == count_where(s, |st: PeerConnectionStatus| is_connected(st))
                - one_if(is_connected(s[i as int].info.connection_status))
                + one_if(is_connected(rec.info.connection_status)),
            final(self).spec_connected_or_dialing() == count_where(s, |st: PeerConnectionStatus| is_connected_or_dialing(st))
                - one_if(is_connected_or_dialing(s[i as int].info.connection_status))
                + one_if(is_connected_or_dialing(rec.info.connection_status)),
    {
        let ghost r = rec;
        self.peers.insert(i, rec);
        proof {
            assert(self.peers@ =~= s.update(i as int, r));
            lemma_lookup_update(s, i as int, r, r.id);
            assert forall|x: PeerId| x != r.id implies #[trigger] lookup(self.peers@, x) == lookup(
                s,
                x,
            ) by {
                lemma_lookup_update(s, i as int, r, x);
            }
            lemma_count_update(s, i as int, r, |st: PeerConnectionStatus| is_connected(st));
            lemma_count_update(
                s,
                i as int,
                r,
                |st: PeerConnectionStatus| is_connected_or_dialing(st),
            );
        }
    }
}

} // verus!
