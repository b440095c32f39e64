//! Plain-value models of the identifiers, addresses and statuses the manager works on.

use vstd::prelude::*;

verus! {

/// An opaque peer identifier (a digest of the peer's public key).
#[derive(Clone, Copy, Debug, PartialEq, Eq, Structural, Hash)]
pub struct PeerId(pub u64);

/// One layer of a multiaddr.
#[derive(Clone, Copy, Debug, PartialEq, Eq, Structural, Hash)]
pub enum AddrComponent {
    Ip4(u32),
    Ip6(u128),
    Tcp(u16),
    Udp(u16),
    /// Any other protocol, by its multicodec code.
    Other(u32),
}

/// A layered network address, outermost layer first.
#[derive(Clone, Debug, PartialEq, Eq, Hash)]
pub struct Multiaddr {
    pub components: Vec<AddrComponent>,
}

impl View for Multiaddr {
    type V = Seq<AddrComponent>;

    open spec fn view(&self) -> Seq<AddrComponent> {
        self.components@
    }
}

pub open spec fn is_udp(c: AddrComponent) -> bool {
    c matches AddrComponent::Udp(_)
}

/// Whether some layer of the address is UDP.
pub open spec fn has_udp(a: Seq<AddrComponent>) -> bool {
    exists|i: int| 0 <= i < a.len() && is_udp(#[trigger] a[i])
}

impl Multiaddr {
    /// A copy with the same layers.
    pub fn duplicate(&self) -> (r: Multiaddr)
        ensures
            r@ == self@,
    {
        let mut out: Vec<AddrComponent> = Vec::new();
        let n = self.components.len();
        for i in 0..n
            invariant
                n == self.components@.len(),
                out@ == self.components@.take(i as int),
        {
            out.push(self.components[i]);
            assert(self.components@.take(i + 1) =~= self.components@.take(i as int).push(
                self.components@[i as int],
            ));
        }
        assert(self.components@.take(n as int) =~= self.components@);
        Multiaddr { components: out }
    }

    /// Whether one of the layers is UDP.
    pub fn contains_udp(&self) -> (r: bool)
        ensures
            r == has_udp(self@),
    {
        let n = self.components.len();
        for i in 0..n
            invariant
                n == self.components@.len(),
                forall|j: int| 0 <= j < i ==> !is_udp(#[trigger] self.components@[j]),
        {
            if let AddrComponent::Udp(_) = self.components[i] {
                return true;
            }
        }
        false
    }
}

/// An IP address.
#[derive(Clone, Copy, Debug, PartialEq, Eq, Structural, Hash)]
pub enum IpAddr {
    V4(u32),
    V6(u128),
}

/// An IP address and a port.
#[derive(Clone, Copy, Debug, PartialEq, Eq, Structural, Hash)]
pub struct SocketAddr {
    pub ip: IpAddr,
    pub port: u16,
}

/// Which side opened a connection.
#[derive(Clone, Copy, Debug, PartialEq, Eq, Structural, Hash)]
pub enum ConnectionDirection {
    /// The remote dialed us.
    Incoming,
    /// We dialed the remote.
    Outgoing,
}

/// Connection state of a peer; `since` is the clock reading at which it was entered.
#[derive(Clone, Copy, Debug, PartialEq, Eq, Structural, Hash)]
pub enum PeerConnectionStatus {
    Connected { direction: ConnectionDirection, since: u64 },
    Dialing { since: u64 },
    Disconnected { since: u64 },
    Banned { since: u64 },
    Unknown,
}

impl PeerConnectionStatus {
    pub open spec fn spec_is_connected(self) -> bool {
        self matches PeerConnectionStatus::Connected { .. }
    }

    pub open spec fn spec_is_dialing(self) -> bool {
        self matches PeerConnectionStatus::Dialing { .. }
    }

    pub open spec fn spec_is_banned(self) -> bool {
        self matches PeerConnectionStatus::Banned { .. }
    }

    pub fn is_connected(&self) -> (r: bool)
        ensures
            r == self.spec_is_connected(),
    {
        matches!(self, PeerConnectionStatus::Connected { .. })
    }

    pub fn is_dialing(&self) -> (r: bool)
        ensures
            r == self.spec_is_dialing(),
    {
        matches!(self, PeerConnectionStatus::Dialing { .. })
    }

    pub fn is_banned(&self) -> (r: bool)
        ensures
            r == self.spec_is_banned(),
    {
        matches!(self, PeerConnectionStatus::Banned { .. })
    }
}

/// Application-level metadata a peer advertises: a sequence number and the
/// bitfield of attestation subnets it serves (bit `s` for subnet `s`).
#[derive(Clone, Copy, Debug, PartialEq, Eq, Structural, Hash)]
pub struct MetaData {
    pub seq_number: u64,
    pub attnets: u64,
}

pub open spec fn serves_subnet(meta: MetaData, subnet: u64) -> bool {
    subnet < 64 && (meta.attnets >> subnet) & 1u64 == 1u64
}

impl MetaData {
    /// Whether the advertised bitfield has the subnet's bit set.
    pub fn on_subnet(&self, subnet: u64) -> (r: bool)
        ensures
            r == serves_subnet(*self, subnet),
    {
        subnet < 64 && (self.attnets >> subnet) & 1u64 == 1u64
    }
}

} // verus!

verus! {

/// How a peer identified itself: its self-description and its listening addresses.
#[derive(Debug)]
pub struct IdentifyInfo {
    pub agent_version: String,
    pub listen_addrs: Vec<Multiaddr>,
}

} // verus!
