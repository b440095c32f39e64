//! The peer manager: ingests network, discovery and timer events, keeps the peer
//! database up to date and queues directives for the network layer.

use crate::expiring_set::{
    expired_prefix, fired_of, max_u64, rearmed, remove_all, sat_add, Entry, ExpiringSet,
};
use crate::peerdb::{
    dial_expired, is_connected, is_connected_or_dialing, one_if, stale_ids, status_after_rep,
    PeerDB,
};
use crate::queue::{queue_len, queue_new, queue_push, queue_remove, queued, EventQueue};
use crate::reputation::{
    rep_after, rpc_error_action, saturating_rep, spec_rep_change, spec_rpc_error_action, PeerAction,
    Protocol, RPCError,
};
use crate::types::{
    has_udp, AddrComponent, ConnectionDirection, IdentifyInfo, IpAddr, MetaData, Multiaddr,
    PeerConnectionStatus, PeerId, SocketAddr,
};
use vstd::prelude::*;

verus! {

/// Seconds between pings of a quiet peer.
pub const PING_INTERVAL: u64 = 30;

/// Seconds between status requests to a peer.
pub const STATUS_INTERVAL: u64 = 300;

/// Seconds between heartbeats.
pub const HEARTBEAT_INTERVAL: u64 = 30;

/// Seconds a peer may stay in the dialing state before it counts as disconnected.
pub const DIAL_TIMEOUT: u64 = 120;

/// The directives the manager hands to the network layer.
#[derive(Clone, Debug, PartialEq, Eq)]
pub enum PeerManagerEvent {
    /// Dial a peer by its id.
    Dial(PeerId),
    /// Our external address changed.
    SocketUpdated(Multiaddr),
    /// Send a STATUS to a peer.
    Status(PeerId),
    /// Send a PING to a peer.
    Ping(PeerId),
    /// Request METADATA from a peer.
    MetaData(PeerId),
    /// Disconnect a peer.
    DisconnectPeer(PeerId),
}

/// What discovery reports.
#[derive(Debug)]
pub enum DiscoveryEvent {
    /// Our external UDP socket, as other nodes see it.
    SocketUpdated(SocketAddr),
    /// Peers a query found, with the pin the query was made for.
    QueryResult(Option<u64>, Vec<PeerId>),
}

/// A search the manager asks discovery to run.
#[derive(Clone, Copy, Debug, PartialEq, Eq, Structural)]
pub enum DiscoveryRequest {
    /// Find more peers.
    Peers,
    /// Find peers on a subnet, to be kept until `min_ttl` where it is given.
    SubnetPeers { subnet: u64, min_ttl: Option<u64> },
}

/// Handles the peers' reputation and connection status. Clock readings (`now`)
/// are seconds of a monotonic clock.
pub struct PeerManager {
    peers: PeerDB,
    events: EventQueue,
    ping_peers: ExpiringSet,
    status_peers: ExpiringSet,
    target_peers: usize,
    listen_port_tcp: u16,
    discovery_requests: Vec<DiscoveryRequest>,
}

/// Whether a peer whose stored metadata is `meta` should be asked for metadata
/// after showing sequence number `seq`.
pub open spec fn wants_meta_data(meta: Option<MetaData>, seq: u64) -> bool {
    match meta {
        Some(m) => m.seq_number < seq,
        None => true,
    }
}

/// Whether metadata `new` replaces the stored `meta`.
pub open spec fn accepts_meta_data(meta: Option<MetaData>, new: MetaData) -> bool {
    match meta {
        Some(m) => m.seq_number < new.seq_number,
        None => true,
    }
}

pub open spec fn one_directive(b: bool, e: PeerManagerEvent) -> Seq<PeerManagerEvent> {
    if b {
        seq![e]
    } else {
        Seq::<PeerManagerEvent>::empty()
    }
}

/// The views of the addresses that have no UDP layer, in order.
pub open spec fn tcp_addresses(s: Seq<Multiaddr>) -> Seq<Seq<AddrComponent>>
    decreases s.len(),
{
    if s.len() == 0 {
        Seq::empty()
    } else if has_udp(s.last()@) {
        tcp_addresses(s.drop_last())
    } else {
        tcp_addresses(s.drop_last()).push(s.last()@)
    }
}

/// Our TCP address as libp2p should announce it: the external IP that discovery
/// saw, with our own TCP listening port (NAT of TCP is not tracked).
pub open spec fn socket_multiaddr(socket: SocketAddr, tcp_port: u16) -> Seq<AddrComponent> {
    seq![
        match socket.ip {
            IpAddr::V4(a) => AddrComponent::Ip4(a),
            IpAddr::V6(a) => AddrComponent::Ip6(a),
        },
        AddrComponent::Tcp(tcp_port),
    ]
}

pub open spec fn ping_directives(s: Seq<PeerId>) -> Seq<PeerManagerEvent> {
    s.map_values(|x: PeerId| PeerManagerEvent::Ping(x))
}

pub open spec fn status_directives(s: Seq<PeerId>) -> Seq<PeerManagerEvent> {
    s.map_values(|x: PeerId| PeerManagerEvent::Status(x))
}

/// A timer set's entries as a heartbeat at `now` leaves them (with the stale dials of
/// `db` taken out), or as they are where no heartbeat ran.
pub open spec fn swept(s: Seq<Entry>, db: PeerDB, heartbeat: bool, now: u64) -> Seq<Entry> {
    if heartbeat {
        remove_all(s, stale_ids(db@, now, DIAL_TIMEOUT))
    } else {
        s
    }
}

/// Whether a discovery event pins the peers it finds.
pub open spec fn carries_pin(event: DiscoveryEvent) -> bool {
    match event {
        DiscoveryEvent::QueryResult(min_ttl, _) => min_ttl.is_some(),
        DiscoveryEvent::SocketUpdated(_) => false,
    }
}

pub open spec fn no_pins(events: Seq<DiscoveryEvent>) -> bool {
    forall|i: int| 0 <= i < events.len() ==> !carries_pin(#[trigger] events[i])
}

/// Whether discovery results may be dialed for a peer with status `st`.
pub open spec fn dialable(st: PeerConnectionStatus) -> bool {
    !is_connected_or_dialing(st) && !st.spec_is_banned()
}

/// The later of a pin `old` (if any) and `t`.
pub open spec fn pin_with(old: Option<u64>, t: u64) -> u64 {
    match old {
        Some(a) => max_u64(a, t),
        None => t,
    }
}

/// A `Dial` for each of `peers` that `db` finds dialable, in order.
pub open spec fn dial_list(db: PeerDB, peers: Seq<PeerId>) -> Seq<PeerManagerEvent>
    decreases peers.len(),
{
    if peers.len() == 0 {
        Seq::empty()
    } else if dialable(db.spec_status(peers.last())) {
        dial_list(db, peers.drop_last()).push(PeerManagerEvent::Dial(peers.last()))
    } else {
        dial_list(db, peers.drop_last())
    }
}

/// The directives a discovery result yields: while fewer than `target` peers are
/// connected or being dialed, dials for the first dialable peers, in order, as many as
/// the target leaves room for; none otherwise.
pub open spec fn discovery_dials(db: PeerDB, target: usize, peers: Seq<PeerId>) -> Seq<
    PeerManagerEvent,
> {
    if db.spec_connected_or_dialing() < target {
        first_dials(db, target - db.spec_connected_or_dialing(), peers)
    } else {
        Seq::empty()
    }
}

/// The dials for the first `slots` dialable peers among `peers`, in order.
pub open spec fn first_dials(db: PeerDB, slots: int, peers: Seq<PeerId>) -> Seq<PeerManagerEvent> {
    let all = dial_list(db, peers);
    if all.len() <= slots {
        all
    } else {
        all.take(slots)
    }
}

pub proof fn lemma_push_contains<A>(s: Seq<A>, e: A, f: A)
    ensures
        s.push(e).contains(f) == (s.contains(f) || f == e),
{
    if f == e {
        assert(s.push(e)[s.len() as int] == f);
    } else if s.push(e).contains(f) {
        let k = choose|k: int| 0 <= k < s.len() + 1 && s.push(e)[k] == f;
        assert(s[k] == f);
    } else if s.contains(f) {
        let k = choose|k: int| 0 <= k < s.len() && s[k] == f;
        assert(s.push(e)[k] == f);
    }
}

/// What a directive says, with addresses as their layers.
pub enum EventView {
    Dial(PeerId),
    SocketUpdated(Seq<AddrComponent>),
    Status(PeerId),
    Ping(PeerId),
    MetaData(PeerId),
    DisconnectPeer(PeerId),
}

impl View for PeerManagerEvent {
    type V = EventView;

    open spec fn view(&self) -> EventView {
        match self {
            PeerManagerEvent::Dial(x) => EventView::Dial(*x),
            PeerManagerEvent::SocketUpdated(a) => EventView::SocketUpdated(a@),
            PeerManagerEvent::Status(x) => EventView::Status(*x),
            PeerManagerEvent::Ping(x) => EventView::Ping(*x),
            PeerManagerEvent::MetaData(x) => EventView::MetaData(*x),
            PeerManagerEvent::DisconnectPeer(x) => EventView::DisconnectPeer(*x),
        }
    }
}

pub open spec fn event_views(s: Seq<PeerManagerEvent>) -> Seq<EventView> {
    s.map_values(|e: PeerManagerEvent| e@)
}

/// The directives one discovery event yields, given the statuses and counts of `db`.
pub open spec fn event_discovery_views(
    db: PeerDB,
    target: usize,
    tcp_port: u16,
    event: DiscoveryEvent,
) -> Seq<EventView> {
    match event {
        DiscoveryEvent::SocketUpdated(s) => seq![EventView::SocketUpdated(socket_multiaddr(s, tcp_port))],
        DiscoveryEvent::QueryResult(_, peers) => event_views(discovery_dials(db, target, peers@)),
    }
}

/// The directives a run of discovery events yields, first event first.
pub open spec fn discovery_views(
    db: PeerDB,
    target: usize,
    tcp_port: u16,
    events: Seq<DiscoveryEvent>,
) -> Seq<EventView>
    decreases events.len(),
{
    if events.len() == 0 {
        Seq::empty()
    } else {
        discovery_views(db, target, tcp_port, events.drop_last()) + event_discovery_views(
            db,
            target,
            tcp_port,
            events.last(),
        )
    }
}

pub proof fn lemma_event_views_add(a: Seq<PeerManagerEvent>, b: Seq<PeerManagerEvent>)
    ensures
        event_views(a + b) == event_views(a) + event_views(b),
{
    assert(event_views(a + b) =~= event_views(a) + event_views(b));
}

/// `dial_list` reads nothing of the database but the peers' statuses.
pub proof fn lemma_dial_list_same(db1: PeerDB, db2: PeerDB, peers: Seq<PeerId>)
    requires
        forall|x: PeerId| #[trigger] db1.spec_status(x) == db2.spec_status(x),
    ensures
        dial_list(db1, peers) == dial_list(db2, peers),
    decreases peers.len(),
{
    if peers.len() > 0 {
        lemma_dial_list_same(db1, db2, peers.drop_last());
        assert(db1.spec_status(peers.last()) == db2.spec_status(peers.last()));
    }
}

/// `discovery_views` reads nothing of the database but statuses and counts.
pub proof fn lemma_discovery_views_same(
    db1: PeerDB,
    db2: PeerDB,
    target: usize,
    tcp_port: u16,
    events: Seq<DiscoveryEvent>,
)
    requires
        forall|x: PeerId| #[trigger] db1.spec_status(x) == db2.spec_status(x),
        db1.spec_connected_or_dialing() == db2.spec_connected_or_dialing(),
    ensures
        discovery_views(db1, target, tcp_port, events) == discovery_views(db2, target, tcp_port, events),
    decreases events.len(),
{
    if events.len() > 0 {
        lemma_discovery_views_same(db1, db2, target, tcp_port, events.drop_last());
        if let DiscoveryEvent::QueryResult(_, peers) = events.last() {
            lemma_dial_list_same(db1, db2, peers@);
        }
    }
}

proof fn lemma_event_views_concat(
    before: PeerManager,
    after: PeerManager,
    event: DiscoveryEvent,
    db0: PeerDB,
)
    requires
        after.discovery_event_outcome(&before, event),
        forall|x: PeerId| #[trigger] before.db().spec_status(x) == db0.spec_status(x),
        before.db().spec_connected_or_dialing() == db0.spec_connected_or_dialing(),
    ensures
        event_views(after.queue()) == event_views(before.queue()) + event_discovery_views(
            db0,
            before.target(),
            before.tcp_port(),
            event,
        ),
        forall|x: PeerId| #[trigger] after.db().spec_status(x) == db0.spec_status(x),
        after.db().spec_connected_or_dialing() == db0.spec_connected_or_dialing(),
        after.db().spec_connected() == before.db().spec_connected(),
        after.timers_kept(&before),
        after.wf(),
        after.db().keeps_details(&before.db()),
        !carries_pin(event) ==> after.db() == before.db(),
{
    match event {
        DiscoveryEvent::SocketUpdated(s) => {
            let q = after.queue();
            assert(q =~= before.queue().push(q.last()));
            assert(event_views(q) =~= event_views(before.queue()) + seq![
                EventView::SocketUpdated(socket_multiaddr(s, before.tcp_port())),
            ]);
        },
        DiscoveryEvent::QueryResult(t, peers) => {
            lemma_dial_list_same(before.db(), db0, peers@);
            lemma_event_views_add(before.queue(), discovery_dials(before.db(), before.target(), peers@));
        },
    }
}

impl PeerManager {
    pub closed spec fn db(&self) -> PeerDB {
        self.peers
    }

    pub closed spec fn ping_set(&self) -> ExpiringSet {
        self.ping_peers
    }

    pub closed spec fn status_set(&self) -> ExpiringSet {
        self.status_peers
    }

    /// The directives waiting to be handed out, front first.
    pub closed spec fn queue(&self) -> Seq<PeerManagerEvent> {
        queued(self.events)
    }

    /// The searches waiting for discovery, oldest first.
    pub closed spec fn requests(&self) -> Seq<DiscoveryRequest> {
        self.discovery_requests@
    }

    pub closed spec fn target(&self) -> usize {
        self.target_peers
    }

    pub closed spec fn tcp_port(&self) -> u16 {
        self.listen_port_tcp
    }

    pub open spec fn wf(&self) -> bool {
        &&& self.db().wf()
        &&& self.ping_set().wf()
        &&& self.status_set().wf()
        &&& self.ping_set().ttl() == PING_INTERVAL
        &&& self.status_set().ttl() == STATUS_INTERVAL
    }

    /// Nothing but the database and the queue moved between `old` and `self`.
    pub open spec fn timers_kept(&self, old: &PeerManager) -> bool {
        &&& self.ping_set() == old.ping_set()
        &&& self.status_set() == old.status_set()
        &&& self.requests() == old.requests()
        &&& self.target() == old.target()
        &&& self.tcp_port() == old.tcp_port()
    }

    /// Nothing at all moved between `old` and `self`.
    pub open spec fn unchanged(&self, old: &PeerManager) -> bool {
        &&& self.db()@ == old.db()@
        &&& self.queue() == old.queue()
        &&& self.timers_kept(old)
    }

    /// `self` is `old` after `connect_*` or `dialing_peer` moved `id` towards `st`:
    /// a banned peer is refused and nothing moves; any other peer takes `st`, keeps its
    /// reputation, and both of its timers are (re)armed.
    pub open spec fn connect_outcome(
        &self,
        old: &PeerManager,
        id: PeerId,
        st: PeerConnectionStatus,
        now: u64,
        accepted: bool,
    ) -> bool {
        &&& self.wf()
        &&& accepted == !old.db().spec_status(id).spec_is_banned()
        &&& accepted ==> {
            &&& self.db().status_rep_set(&old.db(), id, st, old.db().spec_reputation(id))
            &&& self.db().counts_follow(&old.db(), id)
            &&& self.ping_set().spec_inserted(&old.ping_set(), id, now)
            &&& self.status_set().spec_inserted(&old.status_set(), id, now)
            &&& self.queue() == old.queue()
            &&& self.requests() == old.requests()
            &&& self.target() == old.target()
            &&& self.tcp_port() == old.tcp_port()
        }
        &&& !accepted ==> self.unchanged(old)
    }

    /// `self` is `old` after `id` was reported for `action`: its reputation took the
    /// action's change with saturation, its status followed the ban rule, and a peer
    /// banned by it is to be disconnected.
    pub open spec fn report_outcome(
        &self,
        old: &PeerManager,
        id: PeerId,
        action: PeerAction,
        now: u64,
    ) -> bool {
        let rep = saturating_rep(old.db().spec_reputation(id), spec_rep_change(action));
        let st = status_after_rep(old.db().spec_status(id), rep, now);
        &&& self.wf()
        &&& self.db().status_rep_set(&old.db(), id, st, rep)
        &&& self.db().counts_follow(&old.db(), id)
        &&& self.queue() == old.queue() + one_directive(
            !old.db().spec_status(id).spec_is_banned() && st.spec_is_banned(),
            PeerManagerEvent::DisconnectPeer(id),
        )
        &&& self.timers_kept(old)
    }

    /// `self` is `old` after metadata `meta` arrived from `id`: it is stored if the peer
    /// is known and `meta` is newer than what it holds; otherwise nothing moves.
    pub open spec fn meta_data_outcome(&self, old: &PeerManager, id: PeerId, meta: MetaData) -> bool {
        let taken = old.db().spec_peer(id).is_some() && accepts_meta_data(
            old.db().spec_meta_data(id),
            meta,
        );
        &&& self.wf()
        &&& self.queue() == old.queue()
        &&& self.timers_kept(old)
        &&& !taken ==> self.db() == old.db()
        &&& taken ==> {
            &&& self.db().spec_peer(id).is_some()
            &&& self.db().spec_meta_data(id) == Some(meta)
            &&& self.db().spec_status(id) == old.db().spec_status(id)
            &&& self.db().spec_reputation(id) == old.db().spec_reputation(id)
            &&& self.db().spec_min_ttl(id) == old.db().spec_min_ttl(id)
            &&& self.db().spec_client(id) == old.db().spec_client(id)
            &&& self.db().spec_addresses(id) == old.db().spec_addresses(id)
            &&& self.db().same_except(&old.db(), id)
            &&& self.db().spec_connected() == old.db().spec_connected()
            &&& self.db().spec_connected_or_dialing() == old.db().spec_connected_or_dialing()
        }
    }

    /// `self` is `old` after the discovered `peers` were handled with pin `min_ttl`.
    pub open spec fn peers_discovered_outcome(
        &self,
        old: &PeerManager,
        peers: Seq<PeerId>,
        min_ttl: Option<u64>,
    ) -> bool {
        let dials = discovery_dials(old.db(), old.target(), peers);
        &&& self.wf()
        &&& self.timers_kept(old)
        &&& self.queue() == old.queue() + dials
        &&& old.db().spec_connected_or_dialing() < old.target() ==> old.db().spec_connected_or_dialing()
            + dials.len() <= old.target()
        &&& old.db().spec_connected_or_dialing() >= old.target() ==> dials.len() == 0
        &&& self.db().keeps_details(&old.db())
        &&& forall|x: PeerId| #[trigger] self.db().spec_status(x) == old.db().spec_status(x)
        &&& self.db().spec_connected() == old.db().spec_connected()
        &&& self.db().spec_connected_or_dialing() == old.db().spec_connected_or_dialing()
        &&& min_ttl.is_none() ==> self.db() == old.db()
        &&& forall|x: PeerId|
            #![trigger self.db().spec_peer(x)]
            min_ttl.is_some() ==> if dials.contains(PeerManagerEvent::Dial(x)) {
                self.db().pinned_from(&old.db(), x, min_ttl.unwrap())
            } else {
                self.db().spec_peer(x) == old.db().spec_peer(x)
            }
    }

    /// `self` is `old` after one event of discovery.
    pub open spec fn discovery_event_outcome(&self, old: &PeerManager, event: DiscoveryEvent) -> bool {
        match event {
            DiscoveryEvent::SocketUpdated(socket) => {
                &&& self.wf()
                &&& self.db() == old.db()
                &&& self.timers_kept(old)
                &&& self.queue().len() == old.queue().len() + 1
                &&& self.queue().drop_last() == old.queue()
                &&& self.queue().last()@ == EventView::SocketUpdated(
                    socket_multiaddr(socket, old.tcp_port()),
                )
            },
            DiscoveryEvent::QueryResult(min_ttl, peers) => self.peers_discovered_outcome(
                old,
                peers@,
                min_ttl,
            ),
        }
    }

    /// `self` is `old` after a heartbeat at `now`.
    pub open spec fn heartbeat_outcome(&self, old: &PeerManager, now: u64) -> bool {
        &&& self.wf()
        &&& forall|x: PeerId| #[trigger]
            self.db().spec_peer(x).is_some() == old.db().spec_peer(x).is_some()
        &&& forall|x: PeerId|
            old.db().spec_peer(x).is_some() ==> dial_expired(
                old.db().spec_peer(x).unwrap(),
                #[trigger] self.db().spec_peer(x).unwrap(),
                now,
                DIAL_TIMEOUT,
            )
        &&& forall|x: PeerId| #[trigger]
            self.db().spec_status(x) == if old.db().spec_dial_stale(x, now, DIAL_TIMEOUT) {
                PeerConnectionStatus::Disconnected { since: now }
            } else {
                old.db().spec_status(x)
            }
        &&& self.db().spec_connected() == old.db().spec_connected()
        &&& self.db().spec_connected_or_dialing() <= old.db().spec_connected_or_dialing()
        &&& self.db().keeps_details(&old.db())
        &&& forall|x: PeerId| #[trigger]
            self.db().spec_min_ttl(x) == old.db().spec_min_ttl(x)
        &&& self.queue() == old.queue()
        &&& self.ping_set()@ == remove_all(old.ping_set()@, stale_ids(old.db()@, now, DIAL_TIMEOUT))
        &&& self.status_set()@ == remove_all(
            old.status_set()@,
            stale_ids(old.db()@, now, DIAL_TIMEOUT),
        )
        &&& self.ping_set().ttl() == old.ping_set().ttl()
        &&& self.ping_set().clock() == old.ping_set().clock()
        &&& self.status_set().ttl() == old.status_set().ttl()
        &&& self.status_set().clock() == old.status_set().clock()
        &&& forall|x: PeerId| #[trigger]
            self.ping_set().spec_contains(x) == (old.ping_set().spec_contains(x)
                && !old.db().spec_dial_stale(x, now, DIAL_TIMEOUT))
        &&& forall|x: PeerId| #[trigger]
            self.status_set().spec_contains(x) == (old.status_set().spec_contains(x)
                && !old.db().spec_dial_stale(x, now, DIAL_TIMEOUT))
        &&& self.target() == old.target()
        &&& self.tcp_port() == old.tcp_port()
        &&& self.requests() == if self.db().spec_connected_or_dialing() < old.target() {
            old.requests().push(DiscoveryRequest::Peers)
        } else {
            old.requests()
        }
    }

    /// A manager with no peers that wants `target_peers` of them and listens for
    /// TCP on `listen_port_tcp`. It asks discovery for peers at once.
    pub fn new(target_peers: usize, listen_port_tcp: u16) -> (r: PeerManager)
        ensures
            r.wf(),
            r.db()@ == Seq::<crate::peerdb::PeerRecord>::empty(),
            r.queue() == Seq::<PeerManagerEvent>::empty(),
            r.ping_set()@.len() == 0,
            r.status_set()@.len() == 0,
            r.ping_set().clock() == 0,
            r.status_set().clock() == 0,
            r.requests() == seq![DiscoveryRequest::Peers],
            r.target() == target_peers,
            r.tcp_port() == listen_port_tcp,
    {
        let mut discovery_requests: Vec<DiscoveryRequest> = Vec::new();
        discovery_requests.push(DiscoveryRequest::Peers);
        PeerManager {
            peers: PeerDB::new(),
            events: queue_new(),
            ping_peers: ExpiringSet::new(PING_INTERVAL),
            status_peers: ExpiringSet::new(STATUS_INTERVAL),
            target_peers,
            listen_port_tcp,
            discovery_requests,
        }
    }

    fn connect_peer(&mut self, id: PeerId, st: PeerConnectionStatus, now: u64) -> (r: bool)
        requires
            old(self).wf(),
            st.spec_is_dialing() || st.spec_is_connected(),
        ensures
            final(self).connect_outcome(old(self), id, st, now, r),
    {
        let accepted = match st {
            PeerConnectionStatus::Dialing { since } => self.peers.dialing_peer(id, since),
            PeerConnectionStatus::Connected { direction: ConnectionDirection::Incoming, since } =>
                self.peers.connect_ingoing(id, since),
            PeerConnectionStatus::Connected { direction: ConnectionDirection::Outgoing, since } =>
                self.peers.connect_outgoing(id, since),
            _ => false,
        };
        if accepted {
            // start the ping and status timers for the peer
            self.ping_peers.insert(id, now);
            self.status_peers.insert(id, now);
        }
        accepted
    }

    /// The peer dialed us: it becomes connected unless it is banned. Returns whether
    /// it was accepted.
    pub fn connect_ingoing(&mut self, id: PeerId, now: u64) -> (r: bool)
        requires
            old(self).wf(),
        ensures
            final(self).connect_outcome(
                old(self),
                id,
                PeerConnectionStatus::Connected { direction: ConnectionDirection::Incoming, since: now },
                now,
                r,
            ),
            r ==> final(self).db().spec_status(id).spec_is_connected(),
            r ==> final(self).ping_set().spec_contains(id) && final(self).status_set().spec_contains(id),
            r && now >= old(self).ping_set().clock() ==> final(self).ping_set()@.last() == (Entry {
                item: id,
                deadline: sat_add(now, PING_INTERVAL),
            }),
            r && now >= old(self).status_set().clock() ==> final(self).status_set()@.last() == (Entry {
                item: id,
                deadline: sat_add(now, STATUS_INTERVAL),
            }),
    {
        self.connect_peer(
            id,
            PeerConnectionStatus::Connected { direction: ConnectionDirection::Incoming, since: now },
            now,
        )
    }

    /// Our dial reached the peer: it becomes connected unless it is banned. Returns
    /// whether it was accepted.
    pub fn connect_outgoing(&mut self, id: PeerId, now: u64) -> (r: bool)
        requires
            old(self).wf(),
        ensures
            final(self).connect_outcome(
                old(self),
                id,
                PeerConnectionStatus::Connected { direction: ConnectionDirection::Outgoing, since: now },
                now,
                r,
            ),
            r ==> final(self).db().spec_status(id).spec_is_connected(),
            r ==> final(self).ping_set().spec_contains(id) && final(self).status_set().spec_contains(id),
            r && now >= old(self).ping_set().clock() ==> final(self).ping_set()@.last() == (Entry {
                item: id,
                deadline: sat_add(now, PING_INTERVAL),
            }),
            r && now >= old(self).status_set().clock() ==> final(self).status_set()@.last() == (Entry {
                item: id,
                deadline: sat_add(now, STATUS_INTERVAL),
            }),
    {
        self.connect_peer(
            id,
            PeerConnectionStatus::Connected { direction: ConnectionDirection::Outgoing, since: now },
            now,
        )
    }

    /// The peer is being dialed: it is marked so unless it is banned. Returns whether
    /// it was accepted.
    pub fn dialing_peer(&mut self, id: PeerId, now: u64) -> (r: bool)
        requires
            old(self).wf(),
        ensures
            final(self).connect_outcome(old(self), id, PeerConnectionStatus::Dialing { since: now }, now, r),
    {
        self.connect_peer(id, PeerConnectionStatus::Dialing { since: now }, now)
    }

    /// The peer disconnected: it is marked so (a banned peer stays banned) and both
    /// of its timers are disarmed.
    pub fn notify_disconnect(&mut self, id: PeerId, now: u64)
        requires
            old(self).wf(),
        ensures
            final(self).wf(),
            final(self).db().status_rep_set(
                &old(self).db(),
                id,
                match old(self).db().spec_status(id) {
                    PeerConnectionStatus::Banned { since } => PeerConnectionStatus::Banned { since },
                    PeerConnectionStatus::Disconnected { since } => PeerConnectionStatus::Disconnected {
                        since,
                    },
                    _ => PeerConnectionStatus::Disconnected { since: now },
                },
                old(self).db().spec_reputation(id),
            ),
            final(self).ping_set().spec_removed(&old(self).ping_set(), id),
            final(self).status_set().spec_removed(&old(self).status_set(), id),
            !final(self).ping_set().spec_contains(id),
            !final(self).status_set().spec_contains(id),
            final(self).db().spec_connected() == old(self).db().spec_connected() - one_if(
                is_connected(old(self).db().spec_status(id)),
            ),
            final(self).queue() == old(self).queue(),
            final(self).requests() == old(self).requests(),
            final(self).target() == old(self).target(),
            final(self).tcp_port() == old(self).tcp_port(),
    {
        self.peers.disconnect(id, now);
        // remove the ping and status timer for the peer
        self.ping_peers.remove(id);
        self.status_peers.remove(id);
    }

    /// A STATUS message arrived from the peer: its status timer starts over.
    pub fn peer_statusd(&mut self, id: PeerId, now: u64)
        requires
            old(self).wf(),
        ensures
            final(self).wf(),
            final(self).status_set().spec_inserted(&old(self).status_set(), id, now),
            final(self).db() == old(self).db(),
            final(self).queue() == old(self).queue(),
            final(self).ping_set() == old(self).ping_set(),
            final(self).requests() == old(self).requests(),
            final(self).target() == old(self).target(),
            final(self).tcp_port() == old(self).tcp_port(),
    {
        self.status_peers.insert(id, now);
    }

    /// Reports the peer for `action`: its reputation moves by the action's change,
    /// saturating in `[0, MAX_REPUTATION]`; a peer that gets banned by it is queued for
    /// disconnection. An unknown peer gets a record first.
    pub fn report_peer(&mut self, id: PeerId, action: PeerAction, now: u64)
        requires
            old(self).wf(),
        ensures
            final(self).report_outcome(old(self), id, action, now),
    {
        let ghost q = self.queue();
        let banned = self.peers.add_reputation(id, action.rep_change(), now);
        if banned {
            queue_push(&mut self.events, PeerManagerEvent::DisconnectPeer(id));
            assert(self.queue() =~= q + seq![PeerManagerEvent::DisconnectPeer(id)]);
        } else {
            assert(self.queue() =~= q + Seq::<PeerManagerEvent>::empty());
        }
    }

    /// An RPC exchange with the peer failed on `protocol`: the failure is mapped to a
    /// peer action and reported; failures on our side, and those not worth a
    /// penalty, change nothing.
    pub fn handle_rpc_error(&mut self, id: PeerId, protocol: Protocol, err: &RPCError, now: u64)
        requires
            old(self).wf(),
        ensures
            final(self).wf(),
            match spec_rpc_error_action(protocol, *err) {
                Some(action) => final(self).report_outcome(old(self), id, action, now),
                None => final(self).unchanged(old(self)),
            },
    {
        match rpc_error_action(protocol, err) {
            Some(action) => self.report_peer(id, action, now),
            None => {},
        }
    }

    /// Queues a metadata request for a known peer whose advertised sequence number is
    /// ahead of what we hold, or whose metadata we lack.
    fn request_meta_data_if_stale(&mut self, id: PeerId, seq: u64)
        requires
            old(self).wf(),
            old(self).db().spec_peer(id).is_some(),
        ensures
            final(self).wf(),
            final(self).db() == old(self).db(),
            final(self).timers_kept(old(self)),
            final(self).queue() == old(self).queue() + one_directive(
                wants_meta_data(old(self).db().spec_meta_data(id), seq),
                PeerManagerEvent::MetaData(id),
            ),
    {
        let stale = match self.peers.peer_info(id) {
            Some(info) => match info.meta_data {
                Some(meta) => meta.seq_number < seq,
                None => true,
            },
            None => false,
        };
        let ghost q = self.queue();
        if stale {
            queue_push(&mut self.events, PeerManagerEvent::MetaData(id));
            assert(self.queue() =~= q + seq![PeerManagerEvent::MetaData(id)]);
        } else {
            assert(self.queue() =~= q + Seq::<PeerManagerEvent>::empty());
        }
    }

    /// A PING with sequence number `seq` arrived from the peer: its ping timer starts
    /// over, and its metadata is requested if `seq` is newer than what we hold. An
    /// unknown peer changes nothing.
    pub fn ping_request(&mut self, id: PeerId, seq: u64, now: u64)
        requires
            old(self).wf(),
        ensures
            final(self).wf(),
            old(self).db().spec_peer(id).is_none() ==> final(self).unchanged(old(self)),
            old(self).db().spec_peer(id).is_some() ==> {
                &&& final(self).db() == old(self).db()
                &&& final(self).ping_set().spec_inserted(&old(self).ping_set(), id, now)
                &&& final(self).status_set() == old(self).status_set()
                &&& final(self).requests() == old(self).requests()
                &&& final(self).target() == old(self).target()
                &&& final(self).tcp_port() == old(self).tcp_port()
                &&& final(self).queue() == old(self).queue() + one_directive(
                    wants_meta_data(old(self).db().spec_meta_data(id), seq),
                    PeerManagerEvent::MetaData(id),
                )
            },
    {
        if self.peers.peer_info(id).is_some() {
            // reset the to-ping timer for this peer
            self.ping_peers.insert(id, now);
            self.request_meta_data_if_stale(id, seq);
        }
    }

    /// A PONG with sequence number `seq` arrived from the peer: its metadata is
    /// requested if `seq` is newer than what we hold. An unknown peer changes nothing.
    pub fn pong_response(&mut self, id: PeerId, seq: u64)
        requires
            old(self).wf(),
        ensures
            final(self).wf(),
            old(self).db().spec_peer(id).is_none() ==> final(self).unchanged(old(self)),
            old(self).db().spec_peer(id).is_some() ==> {
                &&& final(self).db() == old(self).db()
                &&& final(self).timers_kept(old(self))
                &&& final(self).queue() == old(self).queue() + one_directive(
                    wants_meta_data(old(self).db().spec_meta_data(id), seq),
                    PeerManagerEvent::MetaData(id),
                )
            },
    {
        if self.peers.peer_info(id).is_some() {
            self.request_meta_data_if_stale(id, seq);
        }
    }

    /// Metadata arrived from the peer: it is stored if it is newer than what we hold
    /// (or we hold none); stale metadata and unknown peers change nothing.
    pub fn meta_data_response(&mut self, id: PeerId, meta: MetaData)
        requires
            old(self).wf(),
        ensures
            final(self).meta_data_outcome(old(self), id, meta),
    {
        let accept = match self.peers.peer_info(id) {
            Some(info) => match info.meta_data {
                Some(known) => known.seq_number < meta.seq_number,
                None => true,
            },
            None => false,
        };
        if accept {
            self.peers.set_meta_data(id, meta);
        }
    }

    /// Records how a known peer identified itself; an unknown peer changes nothing.
    pub fn identify(&mut self, id: PeerId, info: IdentifyInfo)
        requires
            old(self).wf(),
        ensures
            final(self).wf(),
            final(self).queue() == old(self).queue(),
            final(self).timers_kept(old(self)),
            old(self).db().spec_peer(id).is_none() ==> final(self).db()@ == old(self).db()@,
            old(self).db().spec_peer(id).is_some() ==> {
                &&& final(self).db().spec_client(id) == info.agent_version@
                &&& final(self).db().spec_addresses(id) == info.listen_addrs@
                &&& final(self).db().spec_status(id) == old(self).db().spec_status(id)
                &&& final(self).db().spec_reputation(id) == old(self).db().spec_reputation(id)
                &&& final(self).db().spec_meta_data(id) == old(self).db().spec_meta_data(id)
                &&& final(self).db().spec_min_ttl(id) == old(self).db().spec_min_ttl(id)
                &&& final(self).db().same_except(&old(self).db(), id)
            },
    {
        let IdentifyInfo { agent_version, listen_addrs } = info;
        self.peers.set_identity(id, agent_version, listen_addrs);
    }

    /// The addresses a peer can be dialed at: those of its discovery record
    /// (`enr_addresses`, `None` where discovery has no record of it) that have no UDP
    /// layer, in order. UDP belongs to discovery, not to the dialer.
    pub fn addresses_of_peer(enr_addresses: Option<Vec<Multiaddr>>) -> (r: Vec<Multiaddr>)
        ensures
            r@.map_values(|a: Multiaddr| a@) == match enr_addresses {
                Some(addrs) => tcp_addresses(addrs@),
                None => Seq::<Seq<AddrComponent>>::empty(),
            },
    {
        let mut out: Vec<Multiaddr> = Vec::new();
        match &enr_addresses {
            Some(addrs) => {
                let n = addrs.len();
                for i in 0..n
                    invariant
                        n == addrs@.len(),
                        out@.map_values(|a: Multiaddr| a@) == tcp_addresses(addrs@.take(i as int)),
                {
                    proof {
                        assert(addrs@.take(i + 1).drop_last() =~= addrs@.take(i as int));
                    }
                    if !addrs[i].contains_udp() {
                        let ghost before = out@;
                        out.push(addrs[i].duplicate());
                        proof {
                            assert(out@.map_values(|a: Multiaddr| a@) =~= before.map_values(
                                |a: Multiaddr| a@,
                            ).push(addrs@[i as int]@));
                        }
                    }
                }
                assert(addrs@.take(n as int) =~= addrs@);
            },
            None => {
                assert(out@.map_values(|a: Multiaddr| a@) =~= Seq::<Seq<AddrComponent>>::empty());
            },
        }
        out
    }

    /// Asks discovery for peers on `subnet`; with a `min_ttl`, the peers known to serve
    /// the subnet are first kept at least that long.
    pub fn discover_subnet_peers(&mut self, subnet: u64, min_ttl: Option<u64>)
        requires
            old(self).wf(),
        ensures
            final(self).wf(),
            final(self).requests() == old(self).requests().push(
                DiscoveryRequest::SubnetPeers { subnet, min_ttl },
            ),
            match min_ttl {
                Some(t) => final(self).db().subnet_pins_extended(&old(self).db(), subnet, t),
                None => final(self).db() == old(self).db(),
            },
            final(self).queue() == old(self).queue(),
            final(self).ping_set() == old(self).ping_set(),
            final(self).status_set() == old(self).status_set(),
            final(self).target() == old(self).target(),
            final(self).tcp_port() == old(self).tcp_port(),
    {
        if let Some(t) = min_ttl {
            self.peers.extend_peers_on_subnet(subnet, t);
        }
        self.discovery_requests.push(DiscoveryRequest::SubnetPeers { subnet, min_ttl });
    }

    /// Discovery saw a new external socket: announce it as a TCP address.
    pub fn socket_updated(&mut self, socket: SocketAddr)
        requires
            old(self).wf(),
        ensures
            final(self).wf(),
            final(self).db() == old(self).db(),
            final(self).timers_kept(old(self)),
            final(self).queue().len() == old(self).queue().len() + 1,
            final(self).queue().drop_last() == old(self).queue(),
            final(self).queue().last() matches PeerManagerEvent::SocketUpdated(a) && a@
                == socket_multiaddr(socket, old(self).tcp_port()),
    {
        let ip = match socket.ip {
            IpAddr::V4(a) => AddrComponent::Ip4(a),
            IpAddr::V6(a) => AddrComponent::Ip6(a),
        };
        let mut components: Vec<AddrComponent> = Vec::new();
        components.push(ip);
        components.push(AddrComponent::Tcp(self.listen_port_tcp));
        let addr = Multiaddr { components };
        assert(addr@ =~= socket_multiaddr(socket, self.listen_port_tcp));
        let ghost q = self.queue();
        queue_push(&mut self.events, PeerManagerEvent::SocketUpdated(addr));
        assert(self.queue().drop_last() =~= q);
    }

    /// Dials the discovered peers, in order, while fewer than the target are connected
    /// or being dialed, skipping those connected, being dialed or banned; a dialed peer
    /// is pinned until `min_ttl` where one is given. Nothing else changes: the peer is
    /// marked as being dialed once the network layer reports the dial.
    pub fn peers_discovered(&mut self, peers: &Vec<PeerId>, min_ttl: Option<u64>)
        requires
            old(self).wf(),
        ensures
            final(self).peers_discovered_outcome(old(self), peers@, min_ttl),
    {
        let ghost q0 = self.queue();
        let ghost db0 = self.db();
        let count = self.peers.connected_or_dialing_peers();
        let ghost slots: int = if count < self.target_peers {
            self.target_peers - count
        } else {
            0
        };
        let mut dialed: usize = 0;
        let n = peers.len();
        for i in 0..n
            invariant
                self.wf(),
                n == peers@.len(),
                self.timers_kept(old(self)),
                q0 == old(self).queue(),
                db0 == old(self).db(),
                count == db0.spec_connected_or_dialing(),
                slots == if count < old(self).target() {
                    old(self).target() - count
                } else {
                    0
                },
                dialed as int == if dial_list(db0, peers@.take(i as int)).len() <= slots {
                    dial_list(db0, peers@.take(i as int)).len() as int
                } else {
                    slots
                },
                self.queue() == q0 + dial_list(db0, peers@.take(i as int)).take(dialed as int),
                forall|x: PeerId| #[trigger] self.db().spec_status(x) == db0.spec_status(x),
                self.db().spec_connected() == db0.spec_connected(),
                self.db().spec_connected_or_dialing() == db0.spec_connected_or_dialing(),
                min_ttl.is_none() ==> self.db() == db0,
                forall|x: PeerId|
                    #![trigger self.db().spec_peer(x)]
                    min_ttl.is_some() ==> if dial_list(db0, peers@.take(i as int)).take(
                        dialed as int,
                    ).contains(PeerManagerEvent::Dial(x)) {
                        self.db().pinned_from(&db0, x, min_ttl.unwrap())
                    } else {
                        self.db().spec_peer(x) == db0.spec_peer(x)
                    },
        {
            let id = peers[i];
            let ghost l0 = dial_list(db0, peers@.take(i as int));
            let ghost db1 = self.db();
            proof {
                assert(peers@.take(i + 1).drop_last() =~= peers@.take(i as int));
                assert(peers@.take(i + 1).last() == id);
            }
            // dial while the target leaves room, counting the dials queued so far
            if count < self.target_peers && dialed < self.target_peers - count
                && !self.peers.is_connected_or_dialing(id) && !self.peers.peer_banned(id)
            {
                proof {
                    assert(dial_list(db0, peers@.take(i + 1)) == l0.push(PeerManagerEvent::Dial(id)));
                    assert(l0.take(dialed as int) =~= l0);
                    assert(l0.push(PeerManagerEvent::Dial(id)).take(dialed + 1) =~= l0.push(
                        PeerManagerEvent::Dial(id),
                    ));
                    assert forall|x: PeerId| #[trigger] l0.push(PeerManagerEvent::Dial(id)).contains(
                        PeerManagerEvent::Dial(x),
                    ) == (l0.contains(PeerManagerEvent::Dial(x)) || x == id) by {
                        lemma_push_contains(l0, PeerManagerEvent::Dial(id), PeerManagerEvent::Dial(x));
                    }
                }
                if let Some(t) = min_ttl {
                    self.peers.update_min_ttl(id, t);
                    proof {
                        assert forall|x: PeerId| #[trigger] self.db().spec_status(x) == db0.spec_status(x) by {
                            if x != id {
                                assert(self.db().spec_peer(x) == db1.spec_peer(x));
                            }
                        }
                        assert forall|x: PeerId|
                            #![trigger self.db().spec_peer(x)]
                            if l0.push(PeerManagerEvent::Dial(id)).contains(PeerManagerEvent::Dial(x)) {
                                self.db().pinned_from(&db0, x, t)
                            } else {
                                self.db().spec_peer(x) == db0.spec_peer(x)
                            } by {
                            if x != id {
                                assert(self.db().spec_peer(x) == db1.spec_peer(x));
                            }
                        }
                    }
                }
                queue_push(&mut self.events, PeerManagerEvent::Dial(id));
                dialed = dialed + 1;
                assert(self.queue() =~= q0 + dial_list(db0, peers@.take(i + 1)).take(dialed as int));
            } else {
                proof {
                    let l1 = dial_list(db0, peers@.take(i + 1));
                    if dialable(db0.spec_status(id)) {
                        assert(l1 == l0.push(PeerManagerEvent::Dial(id)));
                        assert(dialed as int == slots);
                        assert(l1.take(dialed as int) =~= l0.take(dialed as int));
                    } else {
                        assert(l1 == l0);
                    }
                }
            }
        }
        proof {
            assert(peers@.take(n as int) =~= peers@);
            let l = dial_list(db0, peers@);
            if l.len() <= slots {
                assert(l.take(dialed as int) =~= l);
            }
        }
    }

    /// The heartbeat at clock reading `now`: peers dialed for longer than
    /// `DIAL_TIMEOUT` are marked disconnected and their timers disarmed; then, while fewer than the target peers
    /// are connected or being dialed, discovery is asked for more.
    pub fn heartbeat(&mut self, now: u64)
        requires
            old(self).wf(),
        ensures
            final(self).heartbeat_outcome(old(self), now),
    {
        let stale = self.peers.disconnect_stale_dialing(now, DIAL_TIMEOUT);
        let ghost db1 = self.db();
        let ghost p0 = self.ping_set();
        let ghost t0 = self.status_set();
        let n = stale.len();
        for i in 0..n
            invariant
                self.wf(),
                n == stale@.len(),
                self.ping_set()@ == remove_all(p0@, stale@.take(i as int)),
                self.status_set()@ == remove_all(t0@, stale@.take(i as int)),
                self.ping_set().ttl() == p0.ttl(),
                self.ping_set().clock() == p0.clock(),
                self.status_set().ttl() == t0.ttl(),
                self.status_set().clock() == t0.clock(),
                forall|x: PeerId| #[trigger]
                    self.ping_set().spec_contains(x) == (p0.spec_contains(x) && !stale@.take(
                        i as int,
                    ).contains(x)),
                forall|x: PeerId| #[trigger]
                    self.status_set().spec_contains(x) == (t0.spec_contains(x) && !stale@.take(
                        i as int,
                    ).contains(x)),
                self.db() == db1,
                self.queue() == old(self).queue(),
                self.requests() == old(self).requests(),
                self.target() == old(self).target(),
                self.tcp_port() == old(self).tcp_port(),
        {
            let id = stale[i];
            let ghost p1 = self.ping_set();
            let ghost t1 = self.status_set();
            // a peer no longer being dialed needs no timers
            self.ping_peers.remove(id);
            self.status_peers.remove(id);
            proof {
                assert(stale@.take(i + 1) =~= stale@.take(i as int).push(id));
                assert(stale@.take(i + 1).drop_last() =~= stale@.take(i as int));
                assert forall|x: PeerId| #[trigger] stale@.take(i + 1).contains(x) == (stale@.take(
                    i as int,
                ).contains(x) || x == id) by {
                    lemma_push_contains(stale@.take(i as int), id, x);
                }
                assert forall|x: PeerId| #[trigger] self.ping_set().spec_contains(x) == (
                p0.spec_contains(x) && !stale@.take(i + 1).contains(x)) by {
                    assert(p1.spec_contains(x) == (p0.spec_contains(x) && !stale@.take(
                        i as int,
                    ).contains(x)));
                }
                assert forall|x: PeerId| #[trigger] self.status_set().spec_contains(x) == (
                t0.spec_contains(x) && !stale@.take(i + 1).contains(x)) by {
                    assert(t1.spec_contains(x) == (t0.spec_contains(x) && !stale@.take(
                        i as int,
                    ).contains(x)));
                }
            }
        }
        assert(stale@.take(n as int) =~= stale@);
        if self.peers.connected_or_dialing_peers() < self.target_peers {
            self.discovery_requests.push(DiscoveryRequest::Peers);
        }
    }

    /// Queues one directive per fired peer, in order: a STATUS where `status` holds,
    /// else a PING.
    fn queue_timer_directives(&mut self, fired: &Vec<PeerId>, status: bool)
        requires
            old(self).wf(),
        ensures
            final(self).wf(),
            final(self).db() == old(self).db(),
            final(self).timers_kept(old(self)),
            final(self).queue() == old(self).queue() + if status {
                status_directives(fired@)
            } else {
                ping_directives(fired@)
            },
    {
        let ghost q0 = self.queue();
        let n = fired.len();
        for j in 0..n
            invariant
                self.wf(),
                n == fired@.len(),
                self.db() == old(self).db(),
                self.timers_kept(old(self)),
                q0 == old(self).queue(),
                self.queue() == q0 + if status {
                    status_directives(fired@.take(j as int))
                } else {
                    ping_directives(fired@.take(j as int))
                },
        {
            let id = fired[j];
            let e = if status {
                PeerManagerEvent::Status(id)
            } else {
                PeerManagerEvent::Ping(id)
            };
            queue_push(&mut self.events, e);
            proof {
                assert(fired@.take(j + 1) =~= fired@.take(j as int).push(id));
                assert(status_directives(fired@.take(j + 1)) =~= status_directives(
                    fired@.take(j as int),
                ).push(PeerManagerEvent::Status(id)));
                assert(ping_directives(fired@.take(j + 1)) =~= ping_directives(
                    fired@.take(j as int),
                ).push(PeerManagerEvent::Ping(id)));
            }
            if status {
                assert(self.queue() =~= q0 + status_directives(fired@.take(j + 1)));
            } else {
                assert(self.queue() =~= q0 + ping_directives(fired@.take(j + 1)));
            }
        }
        assert(fired@.take(n as int) =~= fired@);
    }

    /// Pings every peer whose ping timer ran out, in deadline order, once each, and
    /// starts its timer over.
    pub fn ping_timeouts(&mut self, now: u64)
        requires
            old(self).wf(),
        ensures
            final(self).wf(),
            final(self).db() == old(self).db(),
            final(self).ping_set().spec_rearmed(&old(self).ping_set(), now),
            final(self).status_set() == old(self).status_set(),
            final(self).requests() == old(self).requests(),
            final(self).target() == old(self).target(),
            final(self).tcp_port() == old(self).tcp_port(),
            final(self).queue() == old(self).queue() + ping_directives(old(self).ping_set().fired(now)),
            old(self).ping_set().fired(now).no_duplicates(),
            forall|i: int|
                0 <= i < old(self).ping_set()@.len() ==> ((#[trigger] old(self).ping_set()@[i]).deadline
                    <= now <==> i < expired_prefix(old(self).ping_set()@, now)),
    {
        let fired = self.ping_peers.expire_and_rearm(now);
        self.queue_timer_directives(&fired, false);
    }

    /// Asks every peer whose status timer ran out for its status, in deadline order,
    /// once each, and starts its timer over.
    pub fn status_timeouts(&mut self, now: u64)
        requires
            old(self).wf(),
        ensures
            final(self).wf(),
            final(self).db() == old(self).db(),
            final(self).status_set().spec_rearmed(&old(self).status_set(), now),
            final(self).ping_set() == old(self).ping_set(),
            final(self).requests() == old(self).requests(),
            final(self).target() == old(self).target(),
            final(self).tcp_port() == old(self).tcp_port(),
            final(self).queue() == old(self).queue() + status_directives(
                old(self).status_set().fired(now),
            ),
            old(self).status_set().fired(now).no_duplicates(),
            forall|i: int|
                0 <= i < old(self).status_set()@.len() ==> ((#[trigger] old(self).status_set()@[i]).deadline <= now <==> i < expired_prefix(
                    old(self).status_set()@,
                    now,
                )),
    {
        let fired = self.status_peers.expire_and_rearm(now);
        self.queue_timer_directives(&fired, true);
    }

    /// Handles one event of discovery: a new socket is announced as a TCP address;
    /// found peers are dialed and pinned as `peers_discovered` says.
    pub fn handle_discovery_event(&mut self, event: DiscoveryEvent)
        requires
            old(self).wf(),
        ensures
            final(self).discovery_event_outcome(old(self), event),
    {
        match event {
            DiscoveryEvent::SocketUpdated(socket) => {
                self.socket_updated(socket);
            },
            DiscoveryEvent::QueryResult(min_ttl, peers) => {
                self.peers_discovered(&peers, min_ttl);
            },
        }
    }

    /// Hands out the oldest waiting directive, if any.
    pub fn next_event(&mut self) -> (r: Option<PeerManagerEvent>)
        requires
            old(self).wf(),
        ensures
            final(self).wf(),
            r == if old(self).queue().len() == 0 {
                None
            } else {
                Some(old(self).queue()[0])
            },
            final(self).queue() == if old(self).queue().len() == 0 {
                old(self).queue()
            } else {
                old(self).queue().drop_first()
            },
            final(self).db() == old(self).db(),
            final(self).timers_kept(old(self)),
    {
        if queue_len(&self.events) == 0 {
            None
        } else {
            let e = queue_remove(&mut self.events, 0);
            assert(old(self).queue().remove(0) =~= old(self).queue().drop_first());
            Some(e)
        }
    }

    /// One poll of the manager at clock reading `now`, after `heartbeat_ticks`
    /// heartbeat intervals elapsed and with the events discovery has ready. In order:
    /// the heartbeat runs (once, however many ticks were missed); the discovery events
    /// are handled; the ping, then the status timers that ran out fire; then the oldest
    /// waiting directive is handed out, if there is one.
    pub fn poll(&mut self, now: u64, heartbeat_ticks: u64, discovery: Vec<DiscoveryEvent>) -> (r:
        Option<PeerManagerEvent>)
        requires
            old(self).wf(),
        ensures
            final(self).wf(),
            ({
                let q = event_views(old(self).queue()) + discovery_views(
                    final(self).db(),
                    old(self).target(),
                    old(self).tcp_port(),
                    discovery@,
                ) + event_views(
                    ping_directives(
                        fired_of(swept(old(self).ping_set()@, old(self).db(), heartbeat_ticks > 0, now), now),
                    ),
                ) + event_views(
                    status_directives(
                        fired_of(swept(old(self).status_set()@, old(self).db(), heartbeat_ticks > 0, now), now),
                    ),
                );
                &&& r.is_none() == (q.len() == 0)
                &&& r.is_some() ==> r.unwrap()@ == q[0]
                &&& event_views(final(self).queue()) == if q.len() == 0 {
                    q
                } else {
                    q.drop_first()
                }
            }),
            ({
                let p = swept(old(self).ping_set()@, old(self).db(), heartbeat_ticks > 0, now);
                final(self).ping_set()@ == p.skip(expired_prefix(p, now)) + rearmed(
                    fired_of(p, now),
                    sat_add(max_u64(now, old(self).ping_set().clock()), PING_INTERVAL),
                )
            }),
            ({
                let p = swept(old(self).status_set()@, old(self).db(), heartbeat_ticks > 0, now);
                final(self).status_set()@ == p.skip(expired_prefix(p, now)) + rearmed(
                    fired_of(p, now),
                    sat_add(max_u64(now, old(self).status_set().clock()), STATUS_INTERVAL),
                )
            }),
            forall|x: PeerId| #[trigger]
                final(self).ping_set().spec_contains(x) == (old(self).ping_set().spec_contains(x)
                    && !(heartbeat_ticks > 0 && old(self).db().spec_dial_stale(x, now, DIAL_TIMEOUT))),
            forall|x: PeerId| #[trigger]
                final(self).status_set().spec_contains(x) == (old(self).status_set().spec_contains(x)
                    && !(heartbeat_ticks > 0 && old(self).db().spec_dial_stale(x, now, DIAL_TIMEOUT))),
            final(self).requests() == if heartbeat_ticks > 0 && final(self).db().spec_connected_or_dialing() < old(self).target() {
                old(self).requests().push(DiscoveryRequest::Peers)
            } else {
                old(self).requests()
            },
            forall|x: PeerId| #[trigger]
                final(self).db().spec_status(x) == if heartbeat_ticks > 0 && old(self).db().spec_dial_stale(x, now, DIAL_TIMEOUT) {
                    PeerConnectionStatus::Disconnected { since: now }
                } else {
                    old(self).db().spec_status(x)
                },
            final(self).db().spec_connected() == old(self).db().spec_connected(),
            final(self).db().spec_connected_or_dialing() <= old(self).db().spec_connected_or_dialing(),
            heartbeat_ticks == 0 ==> final(self).db().spec_connected_or_dialing() == old(self).db().spec_connected_or_dialing(),
            final(self).db().keeps_details(&old(self).db()),
            no_pins(discovery@) ==> forall|x: PeerId| #[trigger]
                final(self).db().spec_min_ttl(x) == old(self).db().spec_min_ttl(x),
            heartbeat_ticks == 0 && no_pins(discovery@) ==> final(self).db() == old(self).db(),
            final(self).target() == old(self).target(),
            final(self).tcp_port() == old(self).tcp_port(),
    {
        if heartbeat_ticks > 0 {
            self.heartbeat(now);
        }
        proof {
            if heartbeat_ticks == 0 {
                assert(self.db().keeps_details(&old(self).db())) by {
                    assert forall|x: PeerId| #![trigger self.db().spec_peer(x)] true by {}
                }
            }
        }
        let ghost m1 = *self;
        let ghost all = discovery@;
        let mut discovery = discovery;
        let mut done: usize = 0;
        let total = discovery.len();
        while discovery.len() > 0
            invariant
                self.wf(),
                total == all.len(),
                done <= all.len(),
                discovery@ == all.skip(done as int),
                event_views(self.queue()) == event_views(m1.queue()) + discovery_views(
                    m1.db(),
                    m1.target(),
                    m1.tcp_port(),
                    all.take(done as int),
                ),
                self.ping_set() == m1.ping_set(),
                self.status_set() == m1.status_set(),
                self.requests() == m1.requests(),
                self.target() == m1.target(),
                self.tcp_port() == m1.tcp_port(),
                m1.wf(),
                forall|x: PeerId| #[trigger] self.db().spec_status(x) == m1.db().spec_status(x),
                self.db().spec_connected() == m1.db().spec_connected(),
                self.db().spec_connected_or_dialing() == m1.db().spec_connected_or_dialing(),
                self.db().keeps_details(&m1.db()),
                no_pins(all.take(done as int)) ==> self.db() == m1.db(),
                no_pins(all) ==> forall|x: PeerId| #[trigger]
                    self.db().spec_min_ttl(x) == m1.db().spec_min_ttl(x),
            decreases discovery.len(),
        {
            let ghost before = *self;
            assert(all.skip(done as int).len() == all.len() - done);
            let event = discovery.remove(0);
            proof {
                assert(event == all[done as int]);
                assert(discovery@ =~= all.skip(done + 1));
                assert(all.take(done + 1).drop_last() =~= all.take(done as int));
                assert(all.take(done + 1).last() == event);
            }
            let ghost ev = event;
            self.handle_discovery_event(event);
            proof {
                lemma_event_views_concat(before, *self, ev, m1.db());
                self.db().lemma_keeps_details_trans(&before.db(), &m1.db());
                assert(all.take(done + 1)[done as int] == ev);
                if no_pins(all.take(done + 1)) {
                    assert(!carries_pin(all.take(done + 1)[done as int]));
                    assert forall|i: int| 0 <= i < done implies !carries_pin(
                        #[trigger] all.take(done as int)[i],
                    ) by {
                        assert(all.take(done as int)[i] == all.take(done + 1)[i]);
                    }
                }
                if no_pins(all) {
                    assert(all[done as int] == ev);
                    assert(!carries_pin(all[done as int]));
                }
                assert(discovery_views(m1.db(), m1.target(), m1.tcp_port(), all.take(done + 1))
                    == discovery_views(m1.db(), m1.target(), m1.tcp_port(), all.take(done as int))
                    + event_discovery_views(m1.db(), m1.target(), m1.tcp_port(), ev));
            }
            done = done + 1;
        }
        proof {
            assert(all.take(done as int) =~= all);
            lemma_discovery_views_same(m1.db(), self.db(), m1.target(), m1.tcp_port(), all);
        }
        let ghost q1 = self.queue();
        self.ping_timeouts(now);
        self.status_timeouts(now);
        proof {
            lemma_event_views_add(q1, ping_directives(m1.ping_set().fired(now)));
            lemma_event_views_add(
                q1 + ping_directives(m1.ping_set().fired(now)),
                status_directives(m1.status_set().fired(now)),
            );
        }
        let ghost q2 = self.queue();
        let r = self.next_event();
        proof {
            if q2.len() > 0 {
                assert(event_views(q2.drop_first()) =~= event_views(q2).drop_first());
            }
        }
        r
    }

    /// The peer database.
    pub fn peers(&self) -> (r: &PeerDB)
        ensures
            *r == self.db(),
    {
        &self.peers
    }

    /// The peers waiting to be pinged.
    pub fn ping_peers(&self) -> (r: &ExpiringSet)
        ensures
            *r == self.ping_set(),
    {
        &self.ping_peers
    }

    /// The peers waiting to be asked for their status.
    pub fn status_peers(&self) -> (r: &ExpiringSet)
        ensures
            *r == self.status_set(),
    {
        &self.status_peers
    }

    /// The number of peers wanted.
    pub fn target_peers(&self) -> (r: usize)
        ensures
            r == self.target(),
    {
        self.target_peers
    }

    /// The number of directives waiting to be handed out.
    pub fn pending_events(&self) -> (r: usize)
        ensures
            r == self.queue().len(),
    {
        queue_len(&self.events)
    }

    /// Hands the waiting discovery searches over, oldest first.
    pub fn take_discovery_requests(&mut self) -> (r: Vec<DiscoveryRequest>)
        ensures
            r@ == old(self).requests(),
            final(self).requests() == Seq::<DiscoveryRequest>::empty(),
            final(self).db() == old(self).db(),
            final(self).queue() == old(self).queue(),
            final(self).ping_set() == old(self).ping_set(),
            final(self).status_set() == old(self).status_set(),
            final(self).target() == old(self).target(),
            final(self).tcp_port() == old(self).tcp_port(),
    {
        let mut out: Vec<DiscoveryRequest> = Vec::new();
        std::mem::swap(&mut out, &mut self.discovery_requests);
        out
    }
}

/// The highest sequence number among `init` and `metas`, if there is any.
pub open spec fn max_seq_number(init: Option<MetaData>, metas: Seq<MetaData>) -> Option<u64>
    decreases metas.len(),
{
    if metas.len() == 0 {
        match init {
            Some(m) => Some(m.seq_number),
            None => None,
        }
    } else {
        match max_seq_number(init, metas.drop_last()) {
            Some(v) => Some(max_u64(v, metas.last().seq_number)),
            None => Some(metas.last().seq_number),
        }
    }
}

pub open spec fn rep_changes(actions: Seq<PeerAction>) -> Seq<int> {
    actions.map_values(|a: PeerAction| spec_rep_change(a))
}

/// Reporting a peer for a run of actions, one after the other, leaves it with the
/// saturating sum of their changes, started from the reputation it had.
pub proof fn lemma_reports_saturate(
    states: Seq<PeerManager>,
    id: PeerId,
    actions: Seq<PeerAction>,
    times: Seq<u64>,
)
    requires
        states.len() == actions.len() + 1,
        times.len() == actions.len(),
        forall|i: int|
            #![trigger actions[i]]
            0 <= i < actions.len() ==> states[i + 1].report_outcome(&states[i], id, actions[i], times[i]),
    ensures
        states.last().db().spec_reputation(id) == rep_after(
            states[0].db().spec_reputation(id),
            rep_changes(actions),
        ),
    decreases actions.len(),
{
    if actions.len() > 0 {
        let n = actions.len() - 1;
        let prev = states.drop_last();
        assert forall|i: int|
            #![trigger actions.drop_last()[i]]
            0 <= i < actions.drop_last().len() implies prev[i + 1].report_outcome(
            &prev[i],
            id,
            actions.drop_last()[i],
            times.drop_last()[i],
        ) by {
            assert(actions[i] == actions.drop_last()[i]);
        }
        lemma_reports_saturate(prev, id, actions.drop_last(), times.drop_last());
        assert(actions[n] == actions.last());
        assert(rep_changes(actions).drop_last() =~= rep_changes(actions.drop_last()));
    }
}

/// A fatal report bans a peer with reputation zero, and one further low, mid or high
/// tolerance error leaves it banned at zero.
pub proof fn lemma_fatal_ban_holds(
    s0: PeerManager,
    s1: PeerManager,
    s2: PeerManager,
    id: PeerId,
    action: PeerAction,
    t1: u64,
    t2: u64,
)
    requires
        s1.report_outcome(&s0, id, PeerAction::Fatal, t1),
        s2.report_outcome(&s1, id, action, t2),
        action is LowToleranceError || action is MidToleranceError || action is HighToleranceError,
    ensures
        s1.db().spec_reputation(id) == 0,
        s1.db().spec_status(id).spec_is_banned(),
        s2.db().spec_reputation(id) == 0,
        s2.db().spec_status(id).spec_is_banned(),
{
}

/// After metadata responses from a known peer, one after the other, the stored sequence
/// number is the highest among the responses and what was stored before.
pub proof fn lemma_meta_data_keeps_max(states: Seq<PeerManager>, id: PeerId, metas: Seq<MetaData>)
    requires
        states.len() == metas.len() + 1,
        states[0].db().spec_peer(id).is_some(),
        forall|i: int|
            #![trigger metas[i]]
            0 <= i < metas.len() ==> states[i + 1].meta_data_outcome(&states[i], id, metas[i]),
    ensures
        states.last().db().spec_peer(id).is_some(),
        match states.last().db().spec_meta_data(id) {
            Some(m) => Some(m.seq_number),
            None => None::<u64>,
        } == max_seq_number(states[0].db().spec_meta_data(id), metas),
    decreases metas.len(),
{
    if metas.len() > 0 {
        let n = metas.len() - 1;
        let prev = states.drop_last();
        assert forall|i: int|
            #![trigger metas.drop_last()[i]]
            0 <= i < metas.drop_last().len() implies prev[i + 1].meta_data_outcome(
            &prev[i],
            id,
            metas.drop_last()[i],
        ) by {
            assert(metas[i] == metas.drop_last()[i]);
        }
        lemma_meta_data_keeps_max(prev, id, metas.drop_last());
        assert(metas[n] == metas.last());
        assert(states[n + 1].meta_data_outcome(&states[n], id, metas[n]));
    }
}

} // verus!
