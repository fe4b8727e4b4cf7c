//! WireGuard peers and their mapping onto attribute trees.
//!
//! The kernel treats the allowed addresses of a peer as additive when a peer
//! is set: an address is only taken away by removing the peer and setting it
//! again.
pub mod device;
pub mod encode;
pub mod laws;

pub use device::{PeersProgress, WireguardDev};

use vstd::prelude::*;
use crate::netlink::bindings::{
    sockaddr_in, sockaddr_in6, AF_INET, AF_INET6, WGALLOWEDIP_A_CIDR_MASK, WGALLOWEDIP_A_FAMILY,
    WGALLOWEDIP_A_IPADDR, WGPEER_A_ALLOWEDIPS, WGPEER_A_ENDPOINT,
    WGPEER_A_PERSISTENT_KEEPALIVE_INTERVAL, WGPEER_A_PUBLIC_KEY,
};
use crate::netlink::recv::{
    attr_head, attr_kind, attr_malformed, attr_payload, attr_rest, Attribute, AttributeIterator,
    AttributeType, FromAttr,
};
use crate::netlink::send::ReprC;
use crate::netlink::wire::{array16, array4, take16, take4};

verus! {

/// An IP address, as its bytes in network order.
#[derive(Debug, Clone, Copy, PartialEq, Eq)]
pub enum IpAddr {
    V4([u8; 4]),
    V6([u8; 16]),
}

/// A WireGuard peer.
#[derive(Debug, Clone, PartialEq, Eq)]
pub struct Peer {
    /// The public key of the peer: 32 bytes that identify it.
    pub peer_key: Vec<u8>,
    /// Where the peer was last reached, or is to be reached.
    pub endpoint: Option<(IpAddr, u16)>,
    /// The networks routed to the peer, each with the length of its prefix.
    pub allowed_ips: Vec<(IpAddr, u8)>,
    /// The interval of the persistent keepalive, in seconds.
    pub keepalive: Option<u16>,
}

/// A peer as a mathematical value.
pub struct PeerView {
    pub peer_key: Seq<u8>,
    pub endpoint: Option<(IpAddr, u16)>,
    pub allowed_ips: Seq<(IpAddr, u8)>,
    pub keepalive: Option<u16>,
}

impl View for Peer {
    type V = PeerView;

    open spec fn view(&self) -> PeerView {
        PeerView {
            peer_key: self.peer_key@,
            endpoint: self.endpoint,
            allowed_ips: self.allowed_ips@,
            keepalive: self.keepalive,
        }
    }
}

/// The views of a list of peers.
pub open spec fn peer_views(peers: Seq<Peer>) -> Seq<PeerView> {
    peers.map_values(|p: Peer| p@)
}

/// The endpoint that a socket address holds: an IPv6 one in 28 bytes, an
/// IPv4 one in 16, each under its own address family; nothing else is an
/// endpoint.
pub open spec fn endpoint_of(bytes: Seq<u8>) -> Option<(IpAddr, u16)> {
    if bytes.len() == 28 {
        let sock = sockaddr_in6::from_image(bytes);
        if sock.sin6_family == AF_INET6 {
            Some((IpAddr::V6(sock.sin6_addr), sock.sin6_port))
        } else {
            None
        }
    } else if bytes.len() == 16 {
        let sock = sockaddr_in::from_image(bytes);
        if sock.sin_family == AF_INET {
            Some((IpAddr::V4(sock.sin_addr), sock.sin_port))
        } else {
            None
        }
    } else {
        None
    }
}

/// Reads the endpoint of a peer from the payload of its attribute.
pub fn parse_endpoint(bytes: &[u8]) -> (r: Option<(IpAddr, u16)>)
    ensures
        r == endpoint_of(bytes@),
{
    if bytes.len() == 28 {
        let sock = sockaddr_in6::load(bytes, 0);
        assert(bytes@.subrange(0, 28) =~= bytes@);
        if sock.sin6_family == AF_INET6 {
            Some((IpAddr::V6(sock.sin6_addr), sock.sin6_port))
        } else {
            None
        }
    } else if bytes.len() == 16 {
        let sock = sockaddr_in::load(bytes, 0);
        assert(bytes@.subrange(0, 16) =~= bytes@);
        if sock.sin_family == AF_INET {
            Some((IpAddr::V4(sock.sin_addr), sock.sin_port))
        } else {
            None
        }
    } else {
        None
    }
}

/// What has been read of an allowed address so far.
pub struct AllowedIpParts {
    pub addr: Option<Seq<u8>>,
    pub family: Option<u16>,
    pub mask: Option<u8>,
}

/// Reads the attributes of an allowed address one after the other. An
/// attribute of another type, or a record that breaks the format, spoils the
/// entry.
pub open spec fn allowed_ip_scan(s: Seq<u8>, parts: AllowedIpParts) -> Option<AllowedIpParts>
    decreases s.len(),
{
    if s.len() < 4 {
        Some(parts)
    } else if attr_malformed(s) {
        None
    } else {
        let kind = attr_kind(attr_head(s));
        let payload = attr_payload(s);
        if kind == AttributeType::Raw(WGALLOWEDIP_A_IPADDR) {
            allowed_ip_scan(attr_rest(s), AllowedIpParts { addr: Some(payload), ..parts })
        } else if kind == AttributeType::Raw(WGALLOWEDIP_A_FAMILY) {
            allowed_ip_scan(attr_rest(s), AllowedIpParts { family: u16::decode(payload), ..parts })
        } else if kind == AttributeType::Raw(WGALLOWEDIP_A_CIDR_MASK) {
            allowed_ip_scan(attr_rest(s), AllowedIpParts { mask: u8::decode(payload), ..parts })
        } else {
            None
        }
    }
}

/// The allowed address that the parts make: the family decides the length
/// of the address, and all three parts have to be there.
pub open spec fn allowed_ip_from_parts(parts: AllowedIpParts) -> Option<(IpAddr, u8)> {
    match (parts.family, parts.addr, parts.mask) {
        (Some(family), Some(addr), Some(mask)) => {
            if family == AF_INET && addr.len() == 4 {
                Some((IpAddr::V4(array4(addr)), mask))
            } else if family == AF_INET6 && addr.len() == 16 {
                Some((IpAddr::V6(array16(addr)), mask))
            } else {
                None
            }
        },
        _ => None,
    }
}

/// The bytes that the attributes of `kind` and `payload` are read from: the
/// payload of a nest, nothing for any other attribute.
pub open spec fn nest_region(kind: AttributeType, payload: Seq<u8>) -> Seq<u8> {
    if kind is Nested {
        payload
    } else {
        Seq::empty()
    }
}

/// The allowed address that an attribute of `kind` and `payload` holds.
pub open spec fn allowed_ip_of(kind: AttributeType, payload: Seq<u8>) -> Option<(IpAddr, u8)> {
    match allowed_ip_scan(
        nest_region(kind, payload),
        AllowedIpParts { addr: None, family: None, mask: None },
    ) {
        Some(parts) => allowed_ip_from_parts(parts),
        None => None,
    }
}

/// Reads one allowed address from its nest.
pub fn parse_allowed_ip(ip_attr: Attribute<'_>) -> (r: Option<(IpAddr, u8)>)
    requires
        ip_attr.wf(),
    ensures
        r == allowed_ip_of(ip_attr.attribute_type, ip_attr.payload()),
{
    let mut bytes: Option<&[u8]> = None;
    let mut family: Option<u16> = None;
    let mut mask: Option<u8> = None;
    let mut it = ip_attr.attributes();
    let ghost region = it.remaining();
    let ghost start = AllowedIpParts { addr: None, family: None, mask: None };
    while it.remaining_len() >= 4
        invariant
            it.wf(),
            region == nest_region(ip_attr.attribute_type, ip_attr.payload()),
            start == (AllowedIpParts { addr: None, family: None, mask: None }),
            allowed_ip_scan(
                it.remaining(),
                AllowedIpParts {
                    addr: match bytes {
                        Some(b) => Some(b@),
                        None => None,
                    },
                    family,
                    mask,
                },
            ) == allowed_ip_scan(region, start),
        decreases it.remaining().len(),
    {
        if it.is_malformed() {
            return None;
        }
        let a = match it.next() {
            Some(a) => a,
            None => {
                return None;
            },
        };
        if a.attribute_type == AttributeType::Raw(WGALLOWEDIP_A_IPADDR) {
            bytes = a.get_bytes();
        } else if a.attribute_type == AttributeType::Raw(WGALLOWEDIP_A_FAMILY) {
            family = a.get::<u16>();
        } else if a.attribute_type == AttributeType::Raw(WGALLOWEDIP_A_CIDR_MASK) {
            mask = a.get::<u8>();
        } else {
            return None;
        }
    }
    let family: u16 = match family {
        Some(f) => f,
        None => {
            return None;
        },
    };
    let addr: &[u8] = match bytes {
        Some(b) => b,
        None => {
            return None;
        },
    };
    let ip = if family == AF_INET {
        if addr.len() != 4 {
            return None;
        }
        assert(addr@.subrange(0, 4) =~= addr@);
        IpAddr::V4(take4(addr, 0))
    } else if family == AF_INET6 {
        if addr.len() != 16 {
            return None;
        }
        assert(addr@.subrange(0, 16) =~= addr@);
        IpAddr::V6(take16(addr, 0))
    } else {
        return None;
    };
    match mask {
        Some(m) => Some((ip, m)),
        None => None,
    }
}

/// Reads the entries of a list of allowed addresses one after the other,
/// behind those of `found`. An entry that does not hold an allowed address is
/// passed over; a record that breaks the format spoils the list.
pub open spec fn allowed_ips_scan(s: Seq<u8>, found: Seq<(IpAddr, u8)>) -> Option<
    Seq<(IpAddr, u8)>,
>
    decreases s.len(),
{
    if s.len() < 4 {
        Some(found)
    } else if attr_malformed(s) {
        None
    } else {
        match allowed_ip_of(attr_kind(attr_head(s)), attr_payload(s)) {
            Some(entry) => allowed_ips_scan(attr_rest(s), found.push(entry)),
            None => allowed_ips_scan(attr_rest(s), found),
        }
    }
}

/// Reads a list of allowed addresses.
fn parse_allowed_ips(list: AttributeIterator<'_>) -> (r: Option<Vec<(IpAddr, u8)>>)
    requires
        list.wf(),
    ensures
        r matches Some(v) ==> allowed_ips_scan(list.remaining(), Seq::empty()) == Some(v@),
        r is None ==> allowed_ips_scan(list.remaining(), Seq::empty()) is None,
{
    let mut it = list;
    let mut found: Vec<(IpAddr, u8)> = Vec::new();
    while it.remaining_len() >= 4
        invariant
            it.wf(),
            allowed_ips_scan(it.remaining(), found@) == allowed_ips_scan(
                list.remaining(),
                Seq::empty(),
            ),
        decreases it.remaining().len(),
    {
        if it.is_malformed() {
            return None;
        }
        let a = match it.next() {
            Some(a) => a,
            None => {
                return None;
            },
        };
        match parse_allowed_ip(a) {
            Some(entry) => {
                found.push(entry);
            },
            None => {},
        }
    }
    Some(found)
}

/// What has been read of a peer so far.
pub struct PeerParts {
    pub peer: PeerView,
    /// Whether a public key was among the attributes.
    pub keyed: bool,
}

/// The keepalive interval that a payload holds; zero stands for none.
pub open spec fn keepalive_of(payload: Seq<u8>) -> Option<u16> {
    match u16::decode(payload) {
        Some(v) => if v != 0 {
            Some(v)
        } else {
            None
        },
        None => None,
    }
}

/// Reads the attributes of a peer one after the other. Attributes of other
/// types are passed over; a record that breaks the format, in the peer or in
/// its list of allowed addresses, spoils the peer.
pub open spec fn peer_scan(s: Seq<u8>, parts: PeerParts) -> Option<PeerParts>
    decreases s.len(),
{
    if s.len() < 4 {
        Some(parts)
    } else if attr_malformed(s) {
        None
    } else {
        let kind = attr_kind(attr_head(s));
        let payload = attr_payload(s);
        let peer = parts.peer;
        if kind == AttributeType::Raw(WGPEER_A_PUBLIC_KEY) {
            peer_scan(
                attr_rest(s),
                PeerParts {
                    peer: PeerView { peer_key: peer.peer_key + payload, ..peer },
                    keyed: true,
                },
            )
        } else if kind == AttributeType::Raw(WGPEER_A_ENDPOINT) {
            peer_scan(
                attr_rest(s),
                PeerParts { peer: PeerView { endpoint: endpoint_of(payload), ..peer }, ..parts },
            )
        } else if kind == AttributeType::Raw(WGPEER_A_PERSISTENT_KEEPALIVE_INTERVAL) {
            peer_scan(
                attr_rest(s),
                PeerParts { peer: PeerView { keepalive: keepalive_of(payload), ..peer }, ..parts },
            )
        } else if kind == AttributeType::Nested(WGPEER_A_ALLOWEDIPS) {
            match allowed_ips_scan(payload, Seq::empty()) {
                Some(ips) => peer_scan(
                    attr_rest(s),
                    PeerParts { peer: PeerView { allowed_ips: ips, ..peer }, ..parts },
                ),
                None => None,
            }
        } else {
            peer_scan(attr_rest(s), parts)
        }
    }
}

/// A peer of which nothing is known yet.
pub open spec fn no_peer_parts() -> PeerParts {
    PeerParts {
        peer: PeerView {
            peer_key: Seq::empty(),
            endpoint: None,
            allowed_ips: Seq::empty(),
            keepalive: None,
        },
        keyed: false,
    }
}

/// The peer that the attributes in `s` describe: there is none without a
/// public key.
pub open spec fn peer_of(s: Seq<u8>) -> Option<PeerView> {
    match peer_scan(s, no_peer_parts()) {
        Some(parts) => if parts.keyed {
            Some(parts.peer)
        } else {
            None
        },
        None => None,
    }
}

impl Peer {
    /// Reads a peer from the attributes of its nest, as a reply to a query
    /// of the device or a notification carries them.
    pub fn new(attributes: AttributeIterator<'_>) -> (r: Option<Self>)
        requires
            attributes.wf(),
        ensures
            r matches Some(p) ==> peer_of(attributes.remaining()) == Some(p@),
            r is None ==> peer_of(attributes.remaining()) is None,
    {
        let mut peer_key: Vec<u8> = Vec::new();
        let mut keyed = false;
        let mut endpoint: Option<(IpAddr, u16)> = None;
        let mut allowed_ips: Vec<(IpAddr, u8)> = Vec::new();
        let mut keepalive: Option<u16> = None;
        let mut it = attributes;
        while it.remaining_len() >= 4
            invariant
                it.wf(),
                peer_scan(
                    it.remaining(),
                    PeerParts {
                        peer: PeerView {
                            peer_key: peer_key@,
                            endpoint,
                            allowed_ips: allowed_ips@,
                            keepalive,
                        },
                        keyed,
                    },
                ) == peer_scan(attributes.remaining(), no_peer_parts()),
            decreases it.remaining().len(),
        {
            if it.is_malformed() {
                return None;
            }
            let ghost before = it.remaining();
            let ghost parts = PeerParts {
                peer: PeerView {
                    peer_key: peer_key@,
                    endpoint,
                    allowed_ips: allowed_ips@,
                    keepalive,
                },
                keyed,
            };
            let a = match it.next() {
                Some(a) => a,
                None => {
                    return None;
                },
            };
            if a.attribute_type == AttributeType::Raw(WGPEER_A_PUBLIC_KEY) {
                match a.get_bytes() {
                    Some(bytes) => {
                        peer_key.extend_from_slice(bytes);
                    },
                    None => {},
                }
                keyed = true;
                assert(peer_key@ =~= parts.peer.peer_key + a.payload());
            } else if a.attribute_type == AttributeType::Raw(WGPEER_A_ENDPOINT) {
                endpoint = match a.get_bytes() {
                    Some(bytes) => parse_endpoint(bytes),
                    None => None,
                };
            } else if a.attribute_type == AttributeType::Raw(
                WGPEER_A_PERSISTENT_KEEPALIVE_INTERVAL,
            ) {
                keepalive = match a.get::<u16>() {
                    Some(v) => if v != 0 {
                        Some(v)
                    } else {
                        None
                    },
                    None => None,
                };
            } else if a.attribute_type == AttributeType::Nested(WGPEER_A_ALLOWEDIPS) {
                match parse_allowed_ips(a.attributes()) {
                    Some(ips) => {
                        allowed_ips = ips;
                    },
                    None => {
                        return None;
                    },
                }
            }
        }
        if !keyed {
            return None;
        }
        Some(Peer { peer_key, endpoint, allowed_ips, keepalive })
    }
}

} // verus!
