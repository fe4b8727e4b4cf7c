//! How peers are written: the records of a peer that is set or removed,
//! and their lengths.
use vstd::prelude::*;
use crate::netlink::bindings::{
    nl_align_length, nlattr, sockaddr_in, sockaddr_in6, AF_INET, AF_INET6, WGALLOWEDIP_A_CIDR_MASK,
    WGALLOWEDIP_A_FAMILY, WGALLOWEDIP_A_IPADDR, WGPEER_A_ALLOWEDIPS, WGPEER_A_ENDPOINT,
    WGPEER_A_FLAGS, WGPEER_A_PERSISTENT_KEEPALIVE_INTERVAL, WGPEER_A_PUBLIC_KEY, WGPEER_F_REMOVE_ME,
};
use crate::netlink::send::{
    attr_encoding, builder_wf, has_room, lemma_close_nest, lemma_encoding_len, lemma_same_nest,
    nest_encoding, same_frame, written, NestBuilder, NlSerializer, ReprC, ToAttr, MAX_NL_MSG_SIZE,
};
use crate::netlink::wire::{align_up, le16, le32, lemma_align_up, zeros};
use crate::netlink::{base64_encode, base64_text};
use crate::wireguard::{peer_views, IpAddr, Peer, PeerView};

verus! {

/// The address family of an address.
pub open spec fn ip_family(ip: IpAddr) -> u16 {
    match ip {
        IpAddr::V4(_) => AF_INET,
        IpAddr::V6(_) => AF_INET6,
    }
}

/// The bytes of an address, in network order.
pub open spec fn ip_octets(ip: IpAddr) -> Seq<u8> {
    match ip {
        IpAddr::V4(a) => a@,
        IpAddr::V6(a) => a@,
    }
}

/// The attributes of an allowed address: family, address, prefix length.
pub open spec fn allowed_ip_attrs(ip: IpAddr, mask: u8) -> Seq<u8> {
    attr_encoding(WGALLOWEDIP_A_FAMILY as u16, le16(ip_family(ip))) + attr_encoding(
        WGALLOWEDIP_A_IPADDR as u16,
        ip_octets(ip),
    ) + attr_encoding(WGALLOWEDIP_A_CIDR_MASK as u16, seq![mask])
}

/// The entries of a list of allowed addresses: one nest for each.
pub open spec fn allowed_ips_encoding(ips: Seq<(IpAddr, u8)>) -> Seq<u8>
    decreases ips.len(),
{
    if ips.len() == 0 {
        Seq::empty()
    } else {
        allowed_ips_encoding(ips.drop_last()) + nest_encoding(
            0,
            allowed_ip_attrs(ips.last().0, ips.last().1),
        )
    }
}

/// The socket address of an endpoint, with flow information and scope left
/// at zero.
pub open spec fn endpoint_encoding(endpoint: (IpAddr, u16)) -> Seq<u8> {
    match endpoint.0 {
        IpAddr::V4(a) => (sockaddr_in {
            sin_family: AF_INET,
            sin_port: endpoint.1,
            sin_addr: a,
        }).image(),
        IpAddr::V6(a) => (sockaddr_in6 {
            sin6_family: AF_INET6,
            sin6_port: endpoint.1,
            sin6_flowinfo: 0,
            sin6_addr: a,
            sin6_scope_id: 0,
        }).image(),
    }
}

/// The attributes of a peer that is set: its key, the nest of its allowed
/// addresses, then its endpoint and its keepalive interval where it has them.
pub open spec fn peer_attrs(peer: PeerView) -> Seq<u8> {
    attr_encoding(WGPEER_A_PUBLIC_KEY as u16, peer.peer_key) + nest_encoding(
        WGPEER_A_ALLOWEDIPS as u16,
        allowed_ips_encoding(peer.allowed_ips),
    ) + (match peer.endpoint {
        Some(endpoint) => attr_encoding(WGPEER_A_ENDPOINT as u16, endpoint_encoding(endpoint)),
        None => Seq::empty(),
    }) + (match peer.keepalive {
        Some(keepalive) => attr_encoding(
            WGPEER_A_PERSISTENT_KEEPALIVE_INTERVAL as u16,
            le16(keepalive),
        ),
        None => Seq::empty(),
    })
}

/// The nest of a peer that is set.
pub open spec fn peer_encoding(peer: PeerView) -> Seq<u8> {
    nest_encoding(0, peer_attrs(peer))
}

/// The nest of a peer that is removed: the flag that says so, and the key.
pub open spec fn remove_peer_encoding(peer_key: Seq<u8>) -> Seq<u8> {
    nest_encoding(
        0,
        attr_encoding(WGPEER_A_FLAGS as u16, le32(WGPEER_F_REMOVE_ME)) + attr_encoding(
            WGPEER_A_PUBLIC_KEY as u16,
            peer_key,
        ),
    )
}

/// The length of the attributes of an allowed address: 24 bytes under IPv4,
/// 36 under IPv6.
pub proof fn lemma_allowed_ip_len(ip: IpAddr, mask: u8)
    ensures
        allowed_ip_attrs(ip, mask).len() == (if ip is V4 {
            24nat
        } else {
            36nat
        }),
{
    lemma_encoding_len(WGALLOWEDIP_A_FAMILY as u16, le16(ip_family(ip)));
    lemma_encoding_len(WGALLOWEDIP_A_IPADDR as u16, ip_octets(ip));
    lemma_encoding_len(WGALLOWEDIP_A_CIDR_MASK as u16, seq![mask]);
    assert(le16(ip_family(ip)).len() == 2);
    assert(seq![mask].len() == 1);
    match ip {
        IpAddr::V4(a) => {
            assert(a@.len() == 4);
        },
        IpAddr::V6(a) => {
            assert(a@.len() == 16);
        },
    }
}

/// A list of allowed addresses is a multiple of four bytes long, and no
/// shorter than any of its beginnings.
pub proof fn lemma_allowed_ips_len(ips: Seq<(IpAddr, u8)>, k: int)
    requires
        0 <= k <= ips.len(),
    ensures
        allowed_ips_encoding(ips.take(k)).len() <= allowed_ips_encoding(ips).len(),
        allowed_ips_encoding(ips).len() % 4 == 0,
        allowed_ips_encoding(ips).len() <= 40 * ips.len(),
        allowed_ips_encoding(ips).len() >= 28 * ips.len(),
    decreases ips.len(),
{
    if ips.len() == 0 {
        assert(ips.take(k) =~= ips);
    } else {
        lemma_allowed_ip_len(ips.last().0, ips.last().1);
        if k == ips.len() {
            assert(ips.take(k) =~= ips);
            lemma_allowed_ips_len(ips.drop_last(), k - 1);
        } else {
            assert(ips.drop_last().take(k) =~= ips.take(k));
            lemma_allowed_ips_len(ips.drop_last(), k);
        }
    }
}

/// The entries of the first addresses of a list, one address more at a
/// time.
pub proof fn lemma_allowed_ips_step(ips: Seq<(IpAddr, u8)>, i: int)
    requires
        0 <= i < ips.len(),
    ensures
        allowed_ips_encoding(ips.take(i + 1)) == allowed_ips_encoding(ips.take(i)) + nest_encoding(
            0,
            allowed_ip_attrs(ips[i].0, ips[i].1),
        ),
        allowed_ips_encoding(ips.take(i + 1)).len() == allowed_ips_encoding(ips.take(i)).len() + (
        if ips[i].0 is V4 {
            28nat
        } else {
            40nat
        }),
        allowed_ips_encoding(ips.take(i + 1)).len() <= allowed_ips_encoding(ips).len(),
{
    lemma_allowed_ips_len(ips, i + 1);
    lemma_allowed_ip_len(ips[i].0, ips[i].1);
    lemma_encoding_len(0, allowed_ip_attrs(ips[i].0, ips[i].1));
    assert(ips.take(i + 1).drop_last() =~= ips.take(i));
    assert(ips.take(i + 1).last() == ips[i]);
}

/// The length of the record of an endpoint: 20 bytes under IPv4, 32 under
/// IPv6.
pub proof fn lemma_endpoint_len(attr_type: u16, endpoint: (IpAddr, u16))
    ensures
        attr_encoding(attr_type, endpoint_encoding(endpoint)).len() == (if endpoint.0 is V4 {
            20nat
        } else {
            32nat
        }),
{
    lemma_encoding_len(attr_type, endpoint_encoding(endpoint));
    match endpoint.0 {
        IpAddr::V4(a) => {
            (sockaddr_in { sin_family: AF_INET, sin_port: endpoint.1, sin_addr: a }).lemma_image();
        },
        IpAddr::V6(a) => {
            (sockaddr_in6 {
                sin6_family: AF_INET6,
                sin6_port: endpoint.1,
                sin6_flowinfo: 0,
                sin6_addr: a,
                sin6_scope_id: 0,
            }).lemma_image();
        },
    }
}

/// The length of the attributes of a peer, part by part.
pub proof fn lemma_peer_len(peer: PeerView)
    ensures
        peer_attrs(peer).len() == 4 + align_up(peer.peer_key.len()) + 4 + allowed_ips_encoding(
            peer.allowed_ips,
        ).len() + (match peer.endpoint {
            Some((IpAddr::V4(_), _)) => 20nat,
            Some((IpAddr::V6(_), _)) => 32nat,
            None => 0nat,
        }) + (if peer.keepalive is Some {
            8nat
        } else {
            0nat
        }),
        peer_attrs(peer).len() % 4 == 0,
        peer_encoding(peer).len() == 4 + peer_attrs(peer).len(),
{
    let key = attr_encoding(WGPEER_A_PUBLIC_KEY as u16, peer.peer_key);
    let ips = nest_encoding(WGPEER_A_ALLOWEDIPS as u16, allowed_ips_encoding(peer.allowed_ips));
    let endpoint = match peer.endpoint {
        Some(endpoint) => attr_encoding(WGPEER_A_ENDPOINT as u16, endpoint_encoding(endpoint)),
        None => Seq::empty(),
    };
    let keepalive = match peer.keepalive {
        Some(keepalive) => attr_encoding(
            WGPEER_A_PERSISTENT_KEEPALIVE_INTERVAL as u16,
            le16(keepalive),
        ),
        None => Seq::empty(),
    };
    assert(key.len() == 4 + align_up(peer.peer_key.len()) && key.len() % 4 == 0) by {
        lemma_encoding_len(WGPEER_A_PUBLIC_KEY as u16, peer.peer_key);
    }
    assert(ips.len() == 4 + allowed_ips_encoding(peer.allowed_ips).len() && ips.len() % 4 == 0)
        by {
        lemma_encoding_len(WGPEER_A_ALLOWEDIPS as u16, allowed_ips_encoding(peer.allowed_ips));
        lemma_allowed_ips_len(peer.allowed_ips, 0);
    }
    assert(endpoint.len() == (match peer.endpoint {
        Some((IpAddr::V4(_), _)) => 20nat,
        Some((IpAddr::V6(_), _)) => 32nat,
        None => 0nat,
    })) by {
        match peer.endpoint {
            Some(e) => {
                lemma_endpoint_len(WGPEER_A_ENDPOINT as u16, e);
            },
            None => {},
        }
    }
    assert(keepalive.len() == (if peer.keepalive is Some {
        8nat
    } else {
        0nat
    })) by {
        match peer.keepalive {
            Some(k) => {
                lemma_encoding_len(WGPEER_A_PERSISTENT_KEEPALIVE_INTERVAL as u16, le16(k));
                assert(le16(k).len() == 2);
            },
            None => {},
        }
    }
    assert(peer_attrs(peer).len() == key.len() + ips.len() + endpoint.len() + keepalive.len());
    assert(peer_encoding(peer).len() == 4 + peer_attrs(peer).len()) by {
        lemma_encoding_len(0, peer_attrs(peer));
    }
}

impl<T: NlSerializer> NestBuilder<T> {
    /// Adds the attributes of an allowed address.
    fn add_ip(self, ip: &IpAddr, mask: u8) -> (r: Self)
        requires
            builder_wf(&self),
            has_room(self.cursor(), allowed_ip_attrs(*ip, mask).len()),
        ensures
            builder_wf(&r),
            same_frame(&self, &r),
            written(&r) == written(&self) + allowed_ip_attrs(*ip, mask),
    {
        proof {
            lemma_allowed_ip_len(*ip, mask);
            lemma_encoding_len(WGALLOWEDIP_A_FAMILY as u16, le16(ip_family(*ip)));
            lemma_encoding_len(WGALLOWEDIP_A_IPADDR as u16, ip_octets(*ip));
        }
        let this = match ip {
            IpAddr::V4(ipv4) => self.attr(WGALLOWEDIP_A_FAMILY as u16, AF_INET).attr_bytes(
                WGALLOWEDIP_A_IPADDR as u16,
                ipv4.as_slice(),
            ),
            IpAddr::V6(ipv6) => self.attr(WGALLOWEDIP_A_FAMILY as u16, AF_INET6).attr_bytes(
                WGALLOWEDIP_A_IPADDR as u16,
                ipv6.as_slice(),
            ),
        };
        let r = this.attr(WGALLOWEDIP_A_CIDR_MASK as u16, mask);
        assert(written(&r) =~= written(&self) + allowed_ip_attrs(*ip, mask));
        r
    }

    /// Adds the nest of one allowed address.
    fn add_allowed_ip(self, ip: &IpAddr, mask: u8) -> (r: Self)
        requires
            builder_wf(&self),
            has_room(self.cursor(), 4 + allowed_ip_attrs(*ip, mask).len()),
        ensures
            builder_wf(&r),
            same_frame(&self, &r),
            written(&r) == written(&self) + nest_encoding(0, allowed_ip_attrs(*ip, mask)),
    {
        let ghost before = written(&self);
        proof {
            lemma_allowed_ip_len(*ip, mask);
            assert(before.len() == self.cursor());
        }
        let nest = self.attr_list_start(0);
        let filled = nest.add_ip(ip, mask);
        proof {
            lemma_same_nest(&nest, &filled);
            assert(written(&filled) =~= before + zeros(4) + allowed_ip_attrs(*ip, mask));
            assert(written(&filled).len() == filled.cursor());
            lemma_close_nest(
                before,
                allowed_ip_attrs(*ip, mask),
                nlattr {
                    nla_len: (filled.cursor() - filled.start_pos) as u16,
                    nla_type: filled.start_attr.nla_type,
                },
            );
        }
        filled.attr_list_end()
    }

    /// Adds one nest for each allowed address.
    fn set_allowed_ips(self, ips: &[(IpAddr, u8)]) -> (r: Self)
        requires
            builder_wf(&self),
            has_room(self.cursor(), allowed_ips_encoding(ips@).len()),
        ensures
            builder_wf(&r),
            same_frame(&self, &r),
            written(&r) == written(&self) + allowed_ips_encoding(ips@),
    {
        let mut this = self;
        let mut i: usize = 0;
        assert(written(&this) =~= written(&self) + allowed_ips_encoding(ips@.take(0)));
        while i < ips.len()
            invariant
                i <= ips.len(),
                builder_wf(&this),
                builder_wf(&self),
                same_frame(&self, &this),
                has_room(self.cursor(), allowed_ips_encoding(ips@).len()),
                written(&this) == written(&self) + allowed_ips_encoding(ips@.take(i as int)),
            decreases ips.len() - i,
        {
            let ip: IpAddr = ips[i].0;
            let mask: u8 = ips[i].1;
            let ghost done = allowed_ips_encoding(ips@.take(i as int));
            proof {
                lemma_allowed_ips_step(ips@, i as int);
                assert(written(&this).len() == this.cursor());
                assert(written(&self).len() == self.cursor());
                lemma_append_twice(
                    written(&self),
                    done,
                    nest_encoding(0, allowed_ip_attrs(ip, mask)),
                );
            }
            this = this.add_allowed_ip(&ip, mask);
            i = i + 1;
        }
        assert(ips@.take(ips@.len() as int) =~= ips@);
        this
    }

    /// Adds the endpoint of a peer as a socket address.
    fn attr_endpoint(self, attr_type: u16, endpoint: (IpAddr, u16)) -> (r: Self)
        requires
            builder_wf(&self),
            has_room(
                self.cursor(),
                attr_encoding(attr_type, endpoint_encoding(endpoint)).len(),
            ),
        ensures
            builder_wf(&r),
            same_frame(&self, &r),
            written(&r) == written(&self) + attr_encoding(attr_type, endpoint_encoding(endpoint)),
    {
        proof {
            lemma_endpoint_len(attr_type, endpoint);
        }
        match endpoint {
            (IpAddr::V4(ipv4), port) => {
                let s = sockaddr_in { sin_family: AF_INET, sin_port: port, sin_addr: ipv4 };
                proof {
                    s.lemma_image();
                }
                self.attr(attr_type, s)
            },
            (IpAddr::V6(ipv6), port) => {
                let s = sockaddr_in6 {
                    sin6_family: AF_INET6,
                    sin6_port: port,
                    sin6_flowinfo: 0,
                    sin6_addr: ipv6,
                    sin6_scope_id: 0,
                };
                proof {
                    s.lemma_image();
                }
                self.attr(attr_type, s)
            },
        }
    }

    /// Adds the nest of the allowed addresses of a peer.
    fn allowed_ips_nest(self, ips: &[(IpAddr, u8)]) -> (r: Self)
        requires
            builder_wf(&self),
            has_room(self.cursor(), 4 + allowed_ips_encoding(ips@).len()),
        ensures
            builder_wf(&r),
            same_frame(&self, &r),
            written(&r) == written(&self) + nest_encoding(
                WGPEER_A_ALLOWEDIPS as u16,
                allowed_ips_encoding(ips@),
            ),
    {
        let ghost before = written(&self);
        proof {
            assert(before.len() == self.cursor());
        }
        let nest = self.attr_list_start(WGPEER_A_ALLOWEDIPS as u16);
        let filled = nest.set_allowed_ips(ips);
        proof {
            lemma_same_nest(&nest, &filled);
            assert(written(&filled) =~= before + zeros(4) + allowed_ips_encoding(ips@));
            assert(written(&filled).len() == filled.cursor());
            lemma_close_nest(
                before,
                allowed_ips_encoding(ips@),
                nlattr {
                    nla_len: (filled.cursor() - filled.start_pos) as u16,
                    nla_type: filled.start_attr.nla_type,
                },
            );
        }
        filled.attr_list_end()
    }

    /// Adds the attributes of a peer that is set.
    fn peer_attributes(self, peer: &Peer) -> (r: Self)
        requires
            builder_wf(&self),
            has_room(self.cursor(), peer_attrs(peer@).len()),
        ensures
            builder_wf(&r),
            same_frame(&self, &r),
            written(&r) == written(&self) + peer_attrs(peer@),
    {
        let ghost before = written(&self);
        let ghost key = attr_encoding(WGPEER_A_PUBLIC_KEY as u16, peer.peer_key@);
        let ghost ips = nest_encoding(
            WGPEER_A_ALLOWEDIPS as u16,
            allowed_ips_encoding(peer.allowed_ips@),
        );
        proof {
            lemma_peer_len(peer@);
        }
        let keyed = self.attr_bytes(WGPEER_A_PUBLIC_KEY as u16, peer.peer_key.as_slice());
        let mut attr_list = keyed.allowed_ips_nest(peer.allowed_ips.as_slice());
        assert(written(&attr_list) =~= before + (key + ips));
        match peer.endpoint {
            Some(endpoint) => {
                proof {
                    assert(written(&attr_list).len() == attr_list.cursor());
                    assert(before.len() == self.cursor());
                }
                attr_list = attr_list.attr_endpoint(WGPEER_A_ENDPOINT as u16, endpoint);
            },
            None => {},
        }
        match peer.keepalive {
            Some(keepalive) => {
                proof {
                    assert(le16(keepalive).len() == 2);
                    assert(written(&attr_list).len() == attr_list.cursor());
                    assert(before.len() == self.cursor());
                }
                attr_list =
                attr_list.attr(WGPEER_A_PERSISTENT_KEEPALIVE_INTERVAL as u16, keepalive);
            },
            None => {},
        }
        assert(written(&attr_list) =~= before + peer_attrs(peer@));
        attr_list
    }

    /// Adds the nest that creates or updates a peer. An endpoint or a
    /// keepalive interval that the peer does not have is left as it is in the
    /// kernel; its allowed addresses are added to those the kernel knows.
    pub fn set_peer(self, peer: &Peer) -> (r: Self)
        requires
            builder_wf(&self),
            has_room(self.cursor(), peer_encoding(peer@).len()),
        ensures
            builder_wf(&r),
            same_frame(&self, &r),
            written(&r) == written(&self) + peer_encoding(peer@),
    {
        let ghost before = written(&self);
        proof {
            lemma_encoding_len(0, peer_attrs(peer@));
            assert(before.len() == self.cursor());
        }
        let nest = self.attr_list_start(0);
        let filled = nest.peer_attributes(peer);
        proof {
            lemma_same_nest(&nest, &filled);
            assert(written(&filled) =~= before + zeros(4) + peer_attrs(peer@));
            assert(written(&filled).len() == filled.cursor());
            lemma_close_nest(
                before,
                peer_attrs(peer@),
                nlattr {
                    nla_len: (filled.cursor() - filled.start_pos) as u16,
                    nla_type: filled.start_attr.nla_type,
                },
            );
        }
        filled.attr_list_end()
    }

    /// Adds the nest that removes the peer of the given public key.
    pub fn remove_peer(self, peer_key: &[u8]) -> (r: Self)
        requires
            builder_wf(&self),
            has_room(self.cursor(), remove_peer_encoding(peer_key@).len()),
        ensures
            builder_wf(&r),
            same_frame(&self, &r),
            written(&r) == written(&self) + remove_peer_encoding(peer_key@),
    {
        let ghost before = written(&self);
        let ghost flags = attr_encoding(WGPEER_A_FLAGS as u16, le32(WGPEER_F_REMOVE_ME));
        let ghost key = attr_encoding(WGPEER_A_PUBLIC_KEY as u16, peer_key@);
        proof {
            lemma_encoding_len(WGPEER_A_FLAGS as u16, le32(WGPEER_F_REMOVE_ME));
            lemma_encoding_len(WGPEER_A_PUBLIC_KEY as u16, peer_key@);
            lemma_encoding_len(0, flags + key);
            assert(before.len() == self.cursor());
        }
        let nest = self.attr_list_start(0);
        let flagged = nest.attr(WGPEER_A_FLAGS as u16, WGPEER_F_REMOVE_ME);
        let keyed = flagged.attr_bytes(WGPEER_A_PUBLIC_KEY as u16, peer_key);
        proof {
            lemma_same_nest(&nest, &flagged);
            lemma_same_nest(&flagged, &keyed);
            assert(written(&keyed) =~= before + zeros(4) + (flags + key));
            lemma_close_nest(
                before,
                flags + key,
                nlattr {
                    nla_len: (keyed.cursor() - keyed.start_pos) as u16,
                    nla_type: keyed.start_attr.nla_type,
                },
            );
        }
        keyed.attr_list_end()
    }
}

/// The nests of a list of peers that are set, one behind the other.
pub open spec fn peers_encoding(peers: Seq<PeerView>) -> Seq<u8>
    decreases peers.len(),
{
    if peers.len() == 0 {
        Seq::empty()
    } else {
        peers_encoding(peers.drop_last()) + peer_encoding(peers.last())
    }
}

/// A list of peers is a multiple of four bytes long, and no shorter than
/// any of its beginnings.
pub proof fn lemma_peers_len(peers: Seq<PeerView>, k: int)
    requires
        0 <= k <= peers.len(),
    ensures
        peers_encoding(peers.take(k)).len() <= peers_encoding(peers).len(),
        peers_encoding(peers).len() % 4 == 0,
    decreases peers.len(),
{
    if peers.len() == 0 {
        assert(peers.take(k) =~= peers);
    } else {
        let front = peers_encoding(peers.drop_last()).len();
        let back = peer_encoding(peers.last()).len();
        assert(back % 4 == 0) by {
            lemma_peer_len(peers.last());
        }
        assert(peers_encoding(peers).len() == front + back);
        if k == peers.len() {
            assert(peers.take(k) =~= peers);
            lemma_peers_len(peers.drop_last(), k - 1);
        } else {
            assert(peers.drop_last().take(k) =~= peers.take(k));
            lemma_peers_len(peers.drop_last(), k);
        }
        assert(front % 4 == 0);
        assert((front + back) % 4 == 0);
    }
}

/// The records of the first peers of a list, one peer more at a time.
pub proof fn lemma_peers_step(peers: Seq<PeerView>, i: int)
    requires
        0 <= i < peers.len(),
    ensures
        peers_encoding(peers.take(i + 1)) == peers_encoding(peers.take(i)) + peer_encoding(
            peers[i],
        ),
        peers_encoding(peers.take(i + 1)).len() == peers_encoding(peers.take(i)).len()
            + peer_encoding(peers[i]).len(),
        peers_encoding(peers.take(i + 1)).len() <= peers_encoding(peers).len(),
{
    lemma_peers_len(peers, i + 1);
    assert(peers.take(i + 1).drop_last() =~= peers.take(i));
    assert(peers.take(i + 1).last() == peers[i]);
}

/// Appending to what was appended is appending both.
pub proof fn lemma_append_twice(before: Seq<u8>, first: Seq<u8>, second: Seq<u8>)
    ensures
        (before + first) + second == before + (first + second),
{
    assert((before + first) + second =~= before + (first + second));
}

impl<T: NlSerializer> NestBuilder<T> {
    /// Adds the nest of each of the peers.
    pub(crate) fn set_peers(self, peers: &[Peer]) -> (r: Self)
        requires
            builder_wf(&self),
            has_room(self.cursor(), peers_encoding(peer_views(peers@)).len()),
        ensures
            builder_wf(&r),
            same_frame(&self, &r),
            written(&r) == written(&self) + peers_encoding(peer_views(peers@)),
    {
        let mut this = self;
        let mut i: usize = 0;
        let ghost all = peer_views(peers@);
        assert(written(&this) =~= written(&self) + peers_encoding(all.take(0)));
        while i < peers.len()
            invariant
                i <= peers@.len(),
                all == peer_views(peers@),
                builder_wf(&this),
                builder_wf(&self),
                same_frame(&self, &this),
                has_room(self.cursor(), peers_encoding(all).len()),
                written(&this) == written(&self) + peers_encoding(all.take(i as int)),
            decreases peers@.len() - i,
        {
            let ghost done = peers_encoding(all.take(i as int));
            proof {
                lemma_peers_step(all, i as int);
                assert(all[i as int] == peers@[i as int]@);
                assert(written(&this).len() == this.cursor());
                assert(written(&self).len() == self.cursor());
                lemma_append_twice(written(&self), done, peer_encoding(all[i as int]));
            }
            this = this.set_peer(&peers[i]);
            i = i + 1;
        }
        assert(all.take(peers@.len() as int) =~= all);
        this
    }
}

/// The number of bytes that the nests of the peers take, where that is no
/// more than a message can hold.
pub fn peers_encoded_len(peers: &[Peer]) -> (r: Option<usize>)
    ensures
        r matches Some(n) ==> n == peers_encoding(peer_views(peers@)).len() && n
            <= MAX_NL_MSG_SIZE,
        r is None ==> peers_encoding(peer_views(peers@)).len() > MAX_NL_MSG_SIZE,
{
    let mut total: usize = 0;
    let mut i: usize = 0;
    let ghost all = peer_views(peers@);
    assert(all.take(0) =~= Seq::empty());
    while i < peers.len()
        invariant
            i <= peers@.len(),
            all == peer_views(peers@),
            total == peers_encoding(all.take(i as int)).len(),
            total <= MAX_NL_MSG_SIZE,
        decreases peers@.len() - i,
    {
        proof {
            lemma_peers_step(all, i as int);
            assert(all[i as int] == peers@[i as int]@);
        }
        match peers[i].encoded_len() {
            Some(n) => {
                if n > MAX_NL_MSG_SIZE - total {
                    return None;
                }
                total = total + n;
            },
            None => {
                return None;
            },
        }
        i = i + 1;
    }
    assert(all.take(peers@.len() as int) =~= all);
    Some(total)
}

impl Peer {
    /// The number of bytes that `set_peer` adds for this peer, where that is
    /// no more than a message can hold.
    pub fn encoded_len(&self) -> (r: Option<usize>)
        ensures
            r matches Some(n) ==> n == peer_encoding(self@).len() && n <= MAX_NL_MSG_SIZE,
            r is None ==> peer_encoding(self@).len() > MAX_NL_MSG_SIZE,
    {
        proof {
            lemma_peer_len(self@);
            lemma_allowed_ips_len(self.allowed_ips@, 0);
            lemma_align_up(self.peer_key@.len());
        }
        if self.peer_key.len() > MAX_NL_MSG_SIZE || self.allowed_ips.len() > MAX_NL_MSG_SIZE / 28 {
            return None;
        }
        let mut ips: usize = 0;
        let mut i: usize = 0;
        assert(self.allowed_ips@.take(0) =~= Seq::empty());
        while i < self.allowed_ips.len()
            invariant
                i <= self.allowed_ips@.len(),
                self.allowed_ips@.len() <= MAX_NL_MSG_SIZE / 28,
                ips == allowed_ips_encoding(self.allowed_ips@.take(i as int)).len(),
                ips <= 40 * i,
            decreases self.allowed_ips@.len() - i,
        {
            proof {
                lemma_allowed_ips_step(self.allowed_ips@, i as int);
            }
            ips = ips + match self.allowed_ips[i].0 {
                IpAddr::V4(_) => 28,
                IpAddr::V6(_) => 40,
            };
            i = i + 1;
        }
        assert(self.allowed_ips@.take(i as int) =~= self.allowed_ips@);
        let key: usize = nl_align_length(self.peer_key.len());
        let endpoint: usize = match self.endpoint {
            Some((IpAddr::V4(_), _)) => 20,
            Some((IpAddr::V6(_), _)) => 32,
            None => 0,
        };
        let keepalive: usize = if self.keepalive.is_some() {
            8
        } else {
            0
        };
        let total: usize = 4 + 4 + key + 4 + ips + endpoint + keepalive;
        if total > MAX_NL_MSG_SIZE {
            None
        } else {
            Some(total)
        }
    }

    /// The public key of the peer as Base64 text, the way keys are shown.
    pub fn key_base64(&self) -> (text: String)
        ensures
            text@ == base64_text(self.peer_key@),
    {
        base64_encode(self.peer_key.as_slice())
    }
}

} // verus!
