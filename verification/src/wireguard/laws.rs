//! Writing and reading agree: a peer that was written is read back as it
//! was.
use vstd::prelude::*;
use crate::netlink::bindings::{
    sockaddr_in, sockaddr_in6, AF_INET, AF_INET6, WGALLOWEDIP_A_CIDR_MASK, WGALLOWEDIP_A_FAMILY,
    WGALLOWEDIP_A_IPADDR, WGPEER_A_ALLOWEDIPS, WGPEER_A_ENDPOINT,
    WGPEER_A_PERSISTENT_KEEPALIVE_INTERVAL, WGPEER_A_PUBLIC_KEY,
};
use crate::netlink::laws::{
    lemma_attr_read_back, lemma_kind_read_back, lemma_nest_read_back, MAX_ATTR_PAYLOAD,
};
use crate::netlink::recv::{
    attr_head, attr_kind, attr_malformed, attr_payload, attr_rest, AttributeType, FromAttr,
};
use crate::netlink::send::{attr_encoding, nest_encoding, ReprC};
use crate::netlink::wire::{array16, array4, le16, lemma_int_round_trip};
use crate::wireguard::device::peers_scan;
use crate::wireguard::encode::{
    allowed_ip_attrs, allowed_ips_encoding, endpoint_encoding, ip_family, ip_octets,
    lemma_allowed_ip_len, lemma_allowed_ips_len, lemma_peer_len, peer_attrs, peer_encoding,
    peers_encoding,
};
use crate::wireguard::{
    allowed_ip_of, allowed_ip_scan, allowed_ips_scan, endpoint_of, nest_region, no_peer_parts,
    peer_of, peer_scan, AllowedIpParts, IpAddr, PeerParts, PeerView,
};

verus! {

/// An endpoint that was written is read back.
pub proof fn lemma_endpoint_round_trip(endpoint: (IpAddr, u16))
    ensures
        endpoint_of(endpoint_encoding(endpoint)) == Some(endpoint),
{
    match endpoint.0 {
        IpAddr::V4(a) => {
            (sockaddr_in { sin_family: AF_INET, sin_port: endpoint.1, sin_addr: a }).lemma_image();
        },
        IpAddr::V6(a) => {
            (sockaddr_in6 {
                sin6_family: AF_INET6,
                sin6_port: endpoint.1,
                sin6_flowinfo: 0,
                sin6_addr: a,
                sin6_scope_id: 0,
            }).lemma_image();
        },
    }
}

/// An allowed address that was written is read back from its nest.
pub proof fn lemma_allowed_ip_round_trip(ip: IpAddr, mask: u8)
    ensures
        allowed_ip_of(AttributeType::Nested(0), allowed_ip_attrs(ip, mask)) == Some((ip, mask)),
{
    let family = attr_encoding(WGALLOWEDIP_A_FAMILY as u16, le16(ip_family(ip)));
    let addr = attr_encoding(WGALLOWEDIP_A_IPADDR as u16, ip_octets(ip));
    let cidr = attr_encoding(WGALLOWEDIP_A_CIDR_MASK as u16, seq![mask]);
    let none = AllowedIpParts { addr: None, family: None, mask: None };
    let one = AllowedIpParts { family: Some(ip_family(ip)), ..none };
    let two = AllowedIpParts { addr: Some(ip_octets(ip)), ..one };
    let three = AllowedIpParts { mask: Some(mask), ..two };
    match ip {
        IpAddr::V4(a) => {
            assert(a@.len() == 4);
            assert(array4(a@) =~= a);
        },
        IpAddr::V6(a) => {
            assert(a@.len() == 16);
            assert(array16(a@) =~= a);
        },
    }
    lemma_int_round_trip(ip_family(ip), 0, 0);
    assert(allowed_ip_attrs(ip, mask) =~= family + (addr + cidr));
    lemma_attr_read_back(WGALLOWEDIP_A_FAMILY as u16, le16(ip_family(ip)), addr + cidr);
    lemma_kind_read_back(WGALLOWEDIP_A_FAMILY as u16, (4 + le16(ip_family(ip)).len()) as u16);
    assert(allowed_ip_scan(family + (addr + cidr), none) == allowed_ip_scan(addr + cidr, one));
    lemma_attr_read_back(WGALLOWEDIP_A_IPADDR as u16, ip_octets(ip), cidr);
    lemma_kind_read_back(WGALLOWEDIP_A_IPADDR as u16, (4 + ip_octets(ip).len()) as u16);
    assert(allowed_ip_scan(addr + cidr, one) == allowed_ip_scan(cidr, two));
    assert(cidr + Seq::<u8>::empty() =~= cidr);
    lemma_attr_read_back(WGALLOWEDIP_A_CIDR_MASK as u16, seq![mask], Seq::empty());
    lemma_kind_read_back(WGALLOWEDIP_A_CIDR_MASK as u16, (4 + seq![mask].len()) as u16);
    assert(allowed_ip_scan(cidr, two) == allowed_ip_scan(Seq::empty(), three));
    assert(allowed_ip_scan(Seq::empty(), three) == Some(three));
}

/// A list of allowed addresses that was written is read back, behind what
/// was read before it.
pub proof fn lemma_allowed_ips_round_trip(
    ips: Seq<(IpAddr, u8)>,
    rest: Seq<u8>,
    found: Seq<(IpAddr, u8)>,
)
    ensures
        allowed_ips_scan(allowed_ips_encoding(ips) + rest, found) == allowed_ips_scan(
            rest,
            found + ips,
        ),
    decreases ips.len(),
{
    if ips.len() == 0 {
        assert(allowed_ips_encoding(ips) + rest =~= rest);
        assert(found + ips =~= found);
    } else {
        let last = ips.last();
        let entry = nest_encoding(0, allowed_ip_attrs(last.0, last.1));
        let front = ips.drop_last();
        assert(allowed_ips_encoding(ips) + rest =~= allowed_ips_encoding(front) + (entry + rest));
        lemma_allowed_ips_round_trip(front, entry + rest, found);
        lemma_allowed_ip_len(last.0, last.1);
        lemma_nest_read_back(0, allowed_ip_attrs(last.0, last.1), rest);
        lemma_kind_read_back(0, (4 + allowed_ip_attrs(last.0, last.1).len()) as u16);
        lemma_allowed_ip_round_trip(last.0, last.1);
        assert((found + front).push(last) =~= found + ips);
    }
}

/// What `peer_scan` makes of `s` and `parts`; the proofs below unfold it one
/// step at a time.
#[verifier::opaque]
spec fn scanned(s: Seq<u8>, parts: PeerParts) -> Option<PeerParts> {
    peer_scan(s, parts)
}

/// Reading the key of a peer that was written.
proof fn lemma_read_key(key: Seq<u8>, rest: Seq<u8>, parts: PeerParts)
    requires
        key.len() <= MAX_ATTR_PAYLOAD,
    ensures
        scanned(attr_encoding(WGPEER_A_PUBLIC_KEY as u16, key) + rest, parts) == scanned(
            rest,
            PeerParts {
                peer: PeerView { peer_key: parts.peer.peer_key + key, ..parts.peer },
                keyed: true,
            },
        ),
{
    reveal(scanned);
    lemma_attr_read_back(WGPEER_A_PUBLIC_KEY as u16, key, rest);
    lemma_kind_read_back(WGPEER_A_PUBLIC_KEY as u16, (4 + key.len()) as u16);
}

/// Reading the allowed addresses of a peer that was written.
proof fn lemma_read_allowed_ips(ips: Seq<(IpAddr, u8)>, rest: Seq<u8>, parts: PeerParts)
    requires
        allowed_ips_encoding(ips).len() <= MAX_ATTR_PAYLOAD,
    ensures
        scanned(
            nest_encoding(WGPEER_A_ALLOWEDIPS as u16, allowed_ips_encoding(ips)) + rest,
            parts,
        ) == scanned(
            rest,
            PeerParts { peer: PeerView { allowed_ips: ips, ..parts.peer }, ..parts },
        ),
{
    reveal(scanned);
    lemma_allowed_ips_len(ips, 0);
    lemma_nest_read_back(WGPEER_A_ALLOWEDIPS as u16, allowed_ips_encoding(ips), rest);
    lemma_kind_read_back(WGPEER_A_ALLOWEDIPS as u16, (4 + allowed_ips_encoding(ips).len()) as u16);
    lemma_allowed_ips_round_trip(ips, Seq::empty(), Seq::empty());
    assert(allowed_ips_encoding(ips) + Seq::<u8>::empty() =~= allowed_ips_encoding(ips));
    assert(Seq::<(IpAddr, u8)>::empty() + ips =~= ips);
    assert(allowed_ips_scan(Seq::empty(), ips) == Some(ips));
}

/// Reading the endpoint of a peer that was written.
proof fn lemma_read_endpoint(endpoint: (IpAddr, u16), rest: Seq<u8>, parts: PeerParts)
    ensures
        scanned(
            attr_encoding(WGPEER_A_ENDPOINT as u16, endpoint_encoding(endpoint)) + rest,
            parts,
        ) == scanned(
            rest,
            PeerParts { peer: PeerView { endpoint: Some(endpoint), ..parts.peer }, ..parts },
        ),
{
    reveal(scanned);
    match endpoint.0 {
        IpAddr::V4(a) => {
            (sockaddr_in { sin_family: AF_INET, sin_port: endpoint.1, sin_addr: a }).lemma_image();
        },
        IpAddr::V6(a) => {
            (sockaddr_in6 {
                sin6_family: AF_INET6,
                sin6_port: endpoint.1,
                sin6_flowinfo: 0,
                sin6_addr: a,
                sin6_scope_id: 0,
            }).lemma_image();
        },
    }
    lemma_attr_read_back(WGPEER_A_ENDPOINT as u16, endpoint_encoding(endpoint), rest);
    lemma_kind_read_back(WGPEER_A_ENDPOINT as u16, (4 + endpoint_encoding(endpoint).len()) as u16);
    lemma_endpoint_round_trip(endpoint);
}

/// Reading the keepalive interval of a peer that was written.
proof fn lemma_read_keepalive(keepalive: u16, rest: Seq<u8>, parts: PeerParts)
    requires
        keepalive != 0,
    ensures
        scanned(
            attr_encoding(WGPEER_A_PERSISTENT_KEEPALIVE_INTERVAL as u16, le16(keepalive)) + rest,
            parts,
        ) == scanned(
            rest,
            PeerParts { peer: PeerView { keepalive: Some(keepalive), ..parts.peer }, ..parts },
        ),
{
    reveal(scanned);
    lemma_int_round_trip(keepalive, 0, 0);
    lemma_attr_read_back(WGPEER_A_PERSISTENT_KEEPALIVE_INTERVAL as u16, le16(keepalive), rest);
    lemma_kind_read_back(
        WGPEER_A_PERSISTENT_KEEPALIVE_INTERVAL as u16,
        (4 + le16(keepalive).len()) as u16,
    );
}

/// Reading on where nothing is left.
proof fn lemma_read_end(parts: PeerParts)
    ensures
        scanned(Seq::empty(), parts) == Some(parts),
{
    reveal(scanned);
}

/// The attributes of a peer part by part, each part behind the ones before
/// it.
proof fn lemma_peer_attrs_parts(peer: PeerView)
    ensures
        peer_attrs(peer) == attr_encoding(WGPEER_A_PUBLIC_KEY as u16, peer.peer_key) + (
        nest_encoding(WGPEER_A_ALLOWEDIPS as u16, allowed_ips_encoding(peer.allowed_ips)) + ((
        match peer.endpoint {
            Some(endpoint) => attr_encoding(WGPEER_A_ENDPOINT as u16, endpoint_encoding(endpoint)),
            None => Seq::empty(),
        }) + (match peer.keepalive {
            Some(keepalive) => attr_encoding(
                WGPEER_A_PERSISTENT_KEEPALIVE_INTERVAL as u16,
                le16(keepalive),
            ),
            None => Seq::empty(),
        }))),
{
    let key = attr_encoding(WGPEER_A_PUBLIC_KEY as u16, peer.peer_key);
    let ips = nest_encoding(WGPEER_A_ALLOWEDIPS as u16, allowed_ips_encoding(peer.allowed_ips));
    let endpoint = match peer.endpoint {
        Some(endpoint) => attr_encoding(WGPEER_A_ENDPOINT as u16, endpoint_encoding(endpoint)),
        None => Seq::empty(),
    };
    let keepalive = match peer.keepalive {
        Some(keepalive) => attr_encoding(
            WGPEER_A_PERSISTENT_KEEPALIVE_INTERVAL as u16,
            le16(keepalive),
        ),
        None => Seq::empty(),
    };
    assert(key + ips + endpoint + keepalive =~= key + (ips + (endpoint + keepalive)));
}

/// Round trip. A peer that was written is read back as it was: the
/// attributes of `set_peer` make the peer that they were made from. The
/// exception is a keepalive interval of zero, which is written, and read as
/// none. The key and the list of allowed addresses have to fit the length
/// field of their records.
pub proof fn lemma_peer_round_trip(peer: PeerView)
    requires
        peer.keepalive != Some(0u16),
        peer.peer_key.len() <= MAX_ATTR_PAYLOAD,
        allowed_ips_encoding(peer.allowed_ips).len() <= MAX_ATTR_PAYLOAD,
    ensures
        peer_of(peer_attrs(peer)) == Some(peer),
{
    let ips = nest_encoding(WGPEER_A_ALLOWEDIPS as u16, allowed_ips_encoding(peer.allowed_ips));
    let endpoint = match peer.endpoint {
        Some(endpoint) => attr_encoding(WGPEER_A_ENDPOINT as u16, endpoint_encoding(endpoint)),
        None => Seq::empty(),
    };
    let keepalive = match peer.keepalive {
        Some(keepalive) => attr_encoding(
            WGPEER_A_PERSISTENT_KEEPALIVE_INTERVAL as u16,
            le16(keepalive),
        ),
        None => Seq::empty(),
    };
    let none = no_peer_parts();
    let keyed = PeerParts {
        peer: PeerView { peer_key: none.peer.peer_key + peer.peer_key, ..none.peer },
        keyed: true,
    };
    let listed = PeerParts {
        peer: PeerView { allowed_ips: peer.allowed_ips, ..keyed.peer },
        ..keyed
    };
    let reached = PeerParts { peer: PeerView { endpoint: peer.endpoint, ..listed.peer }, ..listed };
    let whole = PeerParts {
        peer: PeerView { keepalive: peer.keepalive, ..reached.peer },
        ..reached
    };
    lemma_peer_attrs_parts(peer);
    lemma_read_key(peer.peer_key, ips + (endpoint + keepalive), none);
    lemma_read_allowed_ips(peer.allowed_ips, endpoint + keepalive, keyed);
    match peer.endpoint {
        Some(e) => {
            lemma_read_endpoint(e, keepalive, listed);
        },
        None => {
            assert(endpoint + keepalive =~= keepalive);
        },
    }
    assert(scanned(endpoint + keepalive, listed) == scanned(keepalive, reached));
    match peer.keepalive {
        Some(k) => {
            assert(keepalive + Seq::<u8>::empty() =~= keepalive);
            lemma_read_keepalive(k, Seq::empty(), reached);
        },
        None => {},
    }
    assert(scanned(keepalive, reached) == scanned(Seq::empty(), whole));
    lemma_read_end(whole);
    assert(scanned(peer_attrs(peer), none) == Some(whole));
    assert(whole.peer.peer_key =~= peer.peer_key);
    assert(whole.peer == peer);
    assert(peer_of(peer_attrs(peer)) == Some(peer)) by {
        reveal(scanned);
    }
}

/// The nest of a peer that was written is read back as a nest of type zero
/// that holds the attributes of the peer.
pub proof fn lemma_peer_nest_read_back(peer: PeerView, rest: Seq<u8>)
    requires
        peer_attrs(peer).len() <= MAX_ATTR_PAYLOAD,
    ensures
        !attr_malformed(peer_encoding(peer) + rest),
        attr_kind(attr_head(peer_encoding(peer) + rest)) == AttributeType::Nested(0),
        attr_payload(peer_encoding(peer) + rest) == peer_attrs(peer),
        attr_rest(peer_encoding(peer) + rest) == rest,
{
    lemma_peer_len(peer);
    lemma_nest_read_back(0, peer_attrs(peer), rest);
    lemma_kind_read_back(0, (4 + peer_attrs(peer).len()) as u16);
}

/// Whether a peer is read back as it is written: its keepalive interval is
/// not zero, and its key, its list of allowed addresses and all its
/// attributes together fit the length field of their records.
pub open spec fn reads_back(peer: PeerView) -> bool {
    &&& peer.keepalive != Some(0u16)
    &&& peer.peer_key.len() <= MAX_ATTR_PAYLOAD
    &&& allowed_ips_encoding(peer.allowed_ips).len() <= MAX_ATTR_PAYLOAD
    &&& peer_attrs(peer).len() <= MAX_ATTR_PAYLOAD
}

/// What `peers_scan` makes of `s` and `found`; the proofs below unfold it
/// one step at a time.
#[verifier::opaque]
spec fn listed(s: Seq<u8>, found: Seq<PeerView>) -> Option<Seq<PeerView>> {
    peers_scan(s, found)
}

/// Reading one peer of a list that was written.
proof fn lemma_read_peer(peer: PeerView, rest: Seq<u8>, found: Seq<PeerView>)
    requires
        reads_back(peer),
    ensures
        listed(peer_encoding(peer) + rest, found) == listed(rest, found.push(peer)),
{
    reveal(listed);
    lemma_peer_nest_read_back(peer, rest);
    lemma_peer_round_trip(peer);
    assert(nest_region(AttributeType::Nested(0), peer_attrs(peer)) == peer_attrs(peer));
}

/// Round trip of a list. The peers that were written as a list are read
/// back as that list, behind what was read before them, where each of them
/// is read back as it is written.
pub proof fn lemma_peers_round_trip(peers: Seq<PeerView>, rest: Seq<u8>, found: Seq<PeerView>)
    requires
        forall|i: int| 0 <= i < peers.len() ==> reads_back(#[trigger] peers[i]),
    ensures
        peers_scan(peers_encoding(peers) + rest, found) == peers_scan(rest, found + peers),
{
    lemma_listed_round_trip(peers, rest, found);
    reveal(listed);
}

/// The round trip of a list, one peer at a time.
proof fn lemma_listed_round_trip(peers: Seq<PeerView>, rest: Seq<u8>, found: Seq<PeerView>)
    requires
        forall|i: int| 0 <= i < peers.len() ==> reads_back(#[trigger] peers[i]),
    ensures
        listed(peers_encoding(peers) + rest, found) == listed(rest, found + peers),
    decreases peers.len(),
{
    if peers.len() == 0 {
        assert(peers_encoding(peers) + rest =~= rest);
        assert(found + peers =~= found);
    } else {
        let last = peers.last();
        let front = peers.drop_last();
        let entry = peer_encoding(last);
        assert(reads_back(peers[peers.len() - 1]));
        assert forall|i: int| 0 <= i < front.len() implies reads_back(#[trigger] front[i]) by {
            assert(front[i] == peers[i]);
        }
        assert(peers_encoding(peers) + rest =~= peers_encoding(front) + (entry + rest));
        lemma_listed_round_trip(front, entry + rest, found);
        lemma_read_peer(last, rest, found + front);
        assert((found + front).push(last) =~= found + peers);
    }
}

} // verus!
