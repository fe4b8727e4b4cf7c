//! A WireGuard device: choosing it among the interfaces of the system, the
//! requests to it, and the walks over its replies.
use vstd::prelude::*;
use crate::netlink::bindings::{
    genlmsghdr, nlattr, nlmsghdr, NLM_F_DUMP, WGDEVICE_A_IFINDEX, WGDEVICE_A_MONITOR,
    WGDEVICE_A_PEERS, WGDEVICE_MONITOR_F_ENDPOINT, WGDEVICE_MONITOR_F_PEERS, WGPEER_A_FLAGS,
    WGPEER_A_PUBLIC_KEY, WGPEER_F_REMOVE_ME, WG_CMD_GET_DEVICE, WG_CMD_SET_DEVICE,
    WG_MULTICAST_GROUP_PEERS,
};
use crate::netlink::generic::{
    bytes_eq, group_views, subscription, NetlinkGeneric, Stop, SubscriptionError,
};
use crate::netlink::recv::{
    attr_head, attr_kind, attr_malformed, attr_payload, attr_rest, bare_done_at, reports,
    step_cursor, step_outcome, AttributeIterator, AttributeType, FromAttr, MsgBuffer, MsgPart,
    NetlinkType, Outcome, PartStep,
};
use crate::netlink::rt::{link_views, IfLink, IfLinkView, NetlinkRoute};
use crate::netlink::send::{
    attr_encoding, builder_wf, lemma_close_nest, lemma_encoding_len, lemma_same_nest, nest_encoding,
    written, MsgBuilder, NlSerializer, ReprC, MAX_NL_MSG_SIZE,
};
use crate::netlink::wire::{i32_bits, le32, lemma_align_up, unsigned32, zeros};
use crate::netlink::{string_from_utf8, Error};
use crate::wireguard::encode::{peer_attrs, peers_encoded_len, peers_encoding, remove_peer_encoding};
use crate::wireguard::{nest_region, peer_of, peer_views, Peer, PeerView};

verus! {

/// Reads the entries of a list of peers one after the other, behind those
/// of `found`. An entry that holds no peer is passed over; a record of the
/// list that breaks the format spoils the list.
pub open spec fn peers_scan(s: Seq<u8>, found: Seq<PeerView>) -> Option<Seq<PeerView>>
    decreases s.len(),
{
    if s.len() < 4 {
        Some(found)
    } else if attr_malformed(s) {
        None
    } else {
        match peer_of(nest_region(attr_kind(attr_head(s)), attr_payload(s))) {
            Some(peer) => peers_scan(attr_rest(s), found.push(peer)),
            None => peers_scan(attr_rest(s), found),
        }
    }
}

/// The peers among the attributes of a device: those of the first list of
/// peers, and none where there is no list.
pub open spec fn device_peers(s: Seq<u8>) -> Option<Option<Seq<PeerView>>>
    decreases s.len(),
{
    if s.len() < 4 {
        Some(None)
    } else if attr_malformed(s) {
        None
    } else if attr_kind(attr_head(s)) == AttributeType::Nested(WGDEVICE_A_PEERS) {
        match peers_scan(attr_payload(s), Seq::empty()) {
            Some(peers) => Some(Some(peers)),
            None => None,
        }
    } else {
        device_peers(attr_rest(s))
    }
}

/// How a walk over the replies to a query of the peers ends.
pub enum PeersOutcome {
    /// The walk stopped before a list of peers was found.
    Stopped(Stop),
    /// The first list of peers.
    Found(Seq<PeerView>),
}

/// Walks the messages of a datagram from `pos` on up to the first list of
/// peers.
pub open spec fn peers_walk(
    data: Seq<u8>,
    kind: NetlinkType,
    filled: bool,
    pos: int,
) -> PeersOutcome
    decreases data.len() - pos,
{
    if bare_done_at(data, pos) {
        PeersOutcome::Stopped(Stop::Invalid)
    } else {
        match step_outcome(data, kind, filled, pos) {
            Outcome::Part { header, sub_header, start, end } => {
                match device_peers(data.subrange(start as int, end as int)) {
                    Some(Some(peers)) => PeersOutcome::Found(peers),
                    Some(None) => peers_walk(data, kind, filled, step_cursor(data, pos)),
                    None => PeersOutcome::Stopped(Stop::Invalid),
                }
            },
            other => PeersOutcome::Stopped(Stop::Plain(other)),
        }
    }
}

/// How far a query of the peers has come.
pub enum PeersProgress {
    /// The datagram is used up: receive another one into the buffer, and
    /// walk on.
    Refill,
    /// The peers of the device.
    Peers(Vec<Peer>),
    /// The query has failed.
    Failed(Error),
}

impl PeersProgress {
    /// Whether this is how a query reports `outcome`: the peers that were
    /// found, and no peers where the replies ended without a list.
    pub open spec fn tells(&self, outcome: PeersOutcome) -> bool {
        match outcome {
            PeersOutcome::Found(peers) => *self matches PeersProgress::Peers(v) && peer_views(v@)
                == peers,
            PeersOutcome::Stopped(Stop::Plain(Outcome::Refill)) => *self is Refill,
            PeersOutcome::Stopped(Stop::Plain(Outcome::End)) => *self matches PeersProgress::Peers(
                v,
            ) && v@.len() == 0,
            PeersOutcome::Stopped(Stop::Plain(failure)) => *self matches PeersProgress::Failed(e)
                && reports(e, failure),
            PeersOutcome::Stopped(Stop::Invalid) => *self matches PeersProgress::Failed(
                Error::Invalid,
            ),
        }
    }
}

/// The peers of the first list among the attributes of a message.
fn find_peers(msg: &MsgPart<'_>) -> (r: Option<Option<Vec<Peer>>>)
    requires
        msg.wf(),
    ensures
        match device_peers(msg.region()) {
            Some(Some(peers)) => r matches Some(Some(v)) && peer_views(v@) == peers,
            Some(None) => r matches Some(None),
            None => r is None,
        },
{
    let mut it = msg.attributes();
    while it.remaining_len() >= 4
        invariant
            it.wf(),
            device_peers(it.remaining()) == device_peers(msg.region()),
        decreases it.remaining().len(),
    {
        if it.is_malformed() {
            return None;
        }
        let attr = match it.next() {
            Some(a) => a,
            None => {
                return None;
            },
        };
        if attr.attribute_type == AttributeType::Nested(WGDEVICE_A_PEERS) {
            return match WireguardDev::parse_peers(attr.attributes()) {
                Some(peers) => Some(Some(peers)),
                None => None,
            };
        }
    }
    Some(None)
}

/// The name of the kind of a WireGuard link.
pub open spec fn wireguard_kind() -> Seq<u8> {
    seq![119u8, 105u8, 114u8, 101u8, 103u8, 117u8, 97u8, 114u8, 100u8]
}

/// The WireGuard interfaces among `links`, behind those of `found`: the
/// links of the WireGuard kind whose name is UTF-8, each with its name and
/// its index.
pub open spec fn wireguard_links(links: Seq<IfLinkView>, found: Seq<(Seq<char>, i32)>) -> Seq<
    (Seq<char>, i32),
>
    decreases links.len(),
{
    if links.len() == 0 {
        found
    } else if links[0].link_type_name == Some(wireguard_kind()) && vstd::utf8::valid_utf8(
        links[0].name,
    ) {
        wireguard_links(
            links.skip(1),
            found.push((vstd::utf8::decode_utf8(links[0].name), links[0].index)),
        )
    } else {
        wireguard_links(links.skip(1), found)
    }
}

/// The views of a list of interfaces.
pub open spec fn interface_views(interfaces: Seq<(String, i32)>) -> Seq<(Seq<char>, i32)> {
    interfaces.map_values(|i: (String, i32)| (i.0@, i.1))
}

impl NetlinkRoute {
    /// The WireGuard interfaces among the links of the system, each with its
    /// name and its index.
    pub fn get_wireguard_interfaces(links: &Vec<IfLink>) -> (r: Vec<(String, i32)>)
        ensures
            interface_views(r@) == wireguard_links(
                link_views(links@),
                Seq::empty(),
            ),
    {
        let mut found: Vec<(String, i32)> = Vec::new();
        let mut i: usize = 0;
        let kind: [u8; 9] = [119, 105, 114, 101, 103, 117, 97, 114, 100];
        assert(kind@ =~= wireguard_kind());
        assert(link_views(links@).skip(0) =~= link_views(
            links@,
        ));
        assert(interface_views(found@) =~= Seq::empty());
        while i < links.len()
            invariant
                i <= links@.len(),
                kind@ == wireguard_kind(),
                wireguard_links(
                    link_views(links@).skip(i as int),
                    interface_views(found@),
                ) == wireguard_links(link_views(links@), Seq::empty()),
            decreases links@.len() - i,
        {
            let ghost rest = link_views(links@).skip(i as int);
            let ghost before = interface_views(found@);
            assert(rest.skip(1) =~= link_views(links@).skip(i + 1));
            assert(rest[0] == links@[i as int]@);
            let link = &links[i];
            let is_wireguard = match &link.link_type_name {
                Some(t) => bytes_eq(t.as_bytes(), kind.as_slice()),
                None => false,
            };
            if is_wireguard {
                let name = vstd::slice::slice_to_vec(link.name.as_bytes());
                match string_from_utf8(name) {
                    Some(n) => {
                        let ghost text = n@;
                        found.push((n, link.index));
                        assert(interface_views(found@) =~= before.push((text, link.index)));
                    },
                    None => {},
                }
            }
            i = i + 1;
        }
        found
    }
}

/// The hint of the error for more than one WireGuard interface.
pub open spec fn multiple_hint() -> Seq<char> {
    "multiple wireguard interfaces found, please specify an interface name"@
}

/// The hint of the error for a request that does not fit a message.
pub open spec fn too_large_hint() -> Seq<char> {
    "the request does not fit a netlink message"@
}

/// Which interface is meant, or why none is.
pub enum Selection {
    /// The interface at this place in the list.
    At(int),
    /// No interface matches.
    Missing,
    /// There is more than one interface, and no name to choose by.
    Ambiguous,
}

/// The first place in `interfaces` that holds the name `name`, if any.
pub open spec fn first_named(
    interfaces: Seq<(Seq<char>, i32)>,
    name: Seq<char>,
    from: int,
) -> Option<int>
    decreases interfaces.len() - from,
{
    if from < 0 || from >= interfaces.len() {
        None
    } else if interfaces[from].0 == name {
        Some(from)
    } else {
        first_named(interfaces, name, from + 1)
    }
}

/// Which interface a filter selects: with a name, the first interface of
/// that name; without, the only interface there is.
pub open spec fn selection(
    interfaces: Seq<(Seq<char>, i32)>,
    filter: Option<Seq<char>>,
) -> Selection {
    match filter {
        Some(name) => match first_named(interfaces, name, 0) {
            Some(i) => Selection::At(i),
            None => Selection::Missing,
        },
        None => if interfaces.len() == 0 {
            Selection::Missing
        } else if interfaces.len() == 1 {
            Selection::At(0)
        } else {
            Selection::Ambiguous
        },
    }
}

/// What a device is asked to tell of: changes of endpoints, and changes of
/// peers.
pub open spec fn monitor_flags() -> u8 {
    (WGDEVICE_MONITOR_F_ENDPOINT | WGDEVICE_MONITOR_F_PEERS) as u8
}

/// Both monitor flags together are the number three.
pub proof fn lemma_monitor_flags()
    ensures
        monitor_flags() == 3,
{
    assert(1u32 | 2u32 == 3u32) by (bit_vector);
}

/// The attribute that names the device of a request by its index.
pub open spec fn ifindex_attr(index: i32) -> Seq<u8> {
    attr_encoding(WGDEVICE_A_IFINDEX as u16, le32(unsigned32(index)))
}

/// What every request to a device starts with: the space of the main
/// header, the sub-header for the command, and the index of the device.
pub open spec fn device_prefix(cmd: u8, index: i32) -> Seq<u8> {
    zeros(16) + (genlmsghdr { cmd, version: 1, reserved: 0 }).image() + ifindex_attr(index)
}

/// A WireGuard interface of the system.
pub struct WireguardDev {
    /// The session with the WireGuard family.
    pub wgnl: NetlinkGeneric,
    pub name: String,
    pub index: i32,
}

impl WireguardDev {
    /// Chooses the interface to talk to among the WireGuard interfaces of
    /// the system. With a name, it is the interface of that name; without,
    /// it is the only interface, and there must be just one.
    pub fn select(interfaces: Vec<(String, i32)>, ifname_filter: Option<&str>) -> (r: Result<
        (String, i32),
        Error,
    >)
        ensures
            match selection(
                interface_views(interfaces@),
                match ifname_filter {
                    Some(name) => Some(name@),
                    None => None,
                },
            ) {
                Selection::At(i) => r matches Ok(found) && found.0@ == interfaces@[i].0@ && found.1
                    == interfaces@[i].1,
                Selection::Missing => r matches Err(Error::NoInterfaceFound),
                Selection::Ambiguous => r matches Err(Error::Other(hint)) && hint@
                    == multiple_hint(),
            },
    {
        let mut list = interfaces;
        let ghost all = interface_views(interfaces@);
        match ifname_filter {
            Some(ifname) => {
                let wanted: String = ifname.to_owned();
                let mut i: usize = 0;
                while i < list.len()
                    invariant
                        i <= list@.len(),
                        list@ == interfaces@,
                        all == interface_views(interfaces@),
                        ifname_filter == Some(ifname),
                        wanted@ == ifname@,
                        first_named(all, ifname@, i as int) == first_named(all, ifname@, 0),
                    decreases list@.len() - i,
                {
                    assert(all[i as int].0 == list@[i as int].0@);
                    if list[i].0 == wanted {
                        let found = list.swap_remove(i);
                        return Ok(found);
                    }
                    i = i + 1;
                }
                Err(Error::NoInterfaceFound)
            },
            None => {
                if list.len() == 0 {
                    return Err(Error::NoInterfaceFound);
                }
                if list.len() > 1 {
                    let hint =
                        "multiple wireguard interfaces found, please specify an interface name";
                    return Err(Error::Other(hint.to_string()));
                }
                let found = list.swap_remove(0);
                Ok(found)
            },
        }
    }

    /// The device of the given name and index, with a session that has
    /// resolved the WireGuard family.
    pub fn new(wgnl: NetlinkGeneric, name: String, index: i32) -> (r: Self)
        ensures
            r.wgnl == wgnl,
            r.name == name,
            r.index == index,
    {
        WireguardDev { wgnl, name, index }
    }

    /// Reads a list of peers.
    pub fn parse_peers(list: AttributeIterator<'_>) -> (r: Option<Vec<Peer>>)
        requires
            list.wf(),
        ensures
            r matches Some(v) ==> peers_scan(list.remaining(), Seq::empty()) == Some(
                peer_views(v@),
            ),
            r is None ==> peers_scan(list.remaining(), Seq::empty()) is None,
    {
        let mut it = list;
        let mut found: Vec<Peer> = Vec::new();
        assert(peer_views(found@) =~= Seq::empty());
        while it.remaining_len() >= 4
            invariant
                it.wf(),
                peers_scan(it.remaining(), peer_views(found@)) == peers_scan(
                    list.remaining(),
                    Seq::empty(),
                ),
            decreases it.remaining().len(),
        {
            if it.is_malformed() {
                return None;
            }
            let peer_attrs = match it.next() {
                Some(a) => a,
                None => {
                    return None;
                },
            };
            let ghost before = peer_views(found@);
            match Peer::new(peer_attrs.attributes()) {
                Some(peer) => {
                    let ghost view = peer@;
                    found.push(peer);
                    assert(peer_views(found@) =~= before.push(view));
                },
                None => {},
            }
        }
        Some(found)
    }

    /// A request to the device for the command `cmd`.
    fn device_message(&mut self, cmd: u8) -> (r: MsgBuilder)
        ensures
            final(self).name == old(self).name,
            final(self).index == old(self).index,
            final(self).wgnl.family == old(self).wgnl.family,
            final(self).wgnl.mcast_groups == old(self).wgnl.mcast_groups,
            final(self).wgnl.seq == (if old(self).wgnl.seq == u32::MAX {
                0
            } else {
                old(self).wgnl.seq + 1
            }),
            builder_wf(&r),
            r.pos == 28,
            r.header == nlmsghdr::new_spec(old(self).wgnl.family, old(self).wgnl.seq),
            written(&r) == device_prefix(cmd, old(self).index),
    {
        let index: u32 = i32_bits(self.index);
        let r = self.wgnl.build_message(cmd).attr(WGDEVICE_A_IFINDEX as u16, index);
        proof {
            lemma_encoding_len(WGDEVICE_A_IFINDEX as u16, le32(index));
            assert(written(&r).len() == r.pos);
        }
        r
    }

    /// The request for the peers of the device, and the buffer for the
    /// replies.
    pub fn get_peers_request(&mut self) -> (r: (MsgBuilder, MsgBuffer))
        ensures
            final(self).name == old(self).name,
            final(self).index == old(self).index,
            final(self).wgnl.family == old(self).wgnl.family,
            final(self).wgnl.mcast_groups == old(self).wgnl.mcast_groups,
            final(self).wgnl.seq == (if old(self).wgnl.seq == u32::MAX {
                0
            } else {
                old(self).wgnl.seq + 1
            }),
            builder_wf(&r.0),
            r.0.header == (nlmsghdr {
                nlmsg_flags: nlmsghdr::new_spec(
                    old(self).wgnl.family,
                    old(self).wgnl.seq,
                ).nlmsg_flags | NLM_F_DUMP,
                ..nlmsghdr::new_spec(old(self).wgnl.family, old(self).wgnl.seq)
            }),
            written(&r.0) == device_prefix(WG_CMD_GET_DEVICE as u8, old(self).index),
            r.1.wf(),
            r.1.kind() == NetlinkType::Generic(old(self).wgnl.family),
            !r.1.is_filled(),
            r.1.data() == Seq::<u8>::empty(),
    {
        let get_dev_cmd = self.device_message(WG_CMD_GET_DEVICE as u8).dump();
        (get_dev_cmd, self.wgnl.send())
    }

    /// Looks for the peers of the device in the datagram that `buffer`
    /// holds, and says how to go on: with another datagram, or with the
    /// peers.
    pub fn get_peers(buffer: &MsgBuffer) -> (r: PeersProgress)
        requires
            buffer.wf(),
        ensures
            r.tells(peers_walk(buffer.data(), buffer.kind(), buffer.is_filled(), 0)),
    {
        let mut it = buffer.recv_msgs();
        let size: usize = buffer.size();
        let mut left: usize = size;
        loop
            invariant
                it.wf(),
                !it.is_stopped(),
                it.buffer() == *buffer,
                buffer.wf(),
                size == buffer.data().len(),
                it.position() <= size,
                left == size - it.position(),
                peers_walk(
                    buffer.data(),
                    buffer.kind(),
                    buffer.is_filled(),
                    it.position() as int,
                ) == peers_walk(buffer.data(), buffer.kind(), buffer.is_filled(), 0),
            decreases left,
        {
            if it.at_bare_done() {
                return PeersProgress::Failed(Error::Invalid);
            }
            let ghost pos = it.position();
            match it.next() {
                PartStep::Refill => {
                    return PeersProgress::Refill;
                },
                PartStep::Failed(e) => {
                    return PeersProgress::Failed(e);
                },
                PartStep::End => {
                    return PeersProgress::Peers(Vec::new());
                },
                PartStep::Part(msg) => {
                    match find_peers(&msg) {
                        Some(Some(peers)) => {
                            return PeersProgress::Peers(peers);
                        },
                        Some(None) => {},
                        None => {
                            return PeersProgress::Failed(Error::Invalid);
                        },
                    }
                    assert(pos < it.position() <= size);
                    left = size - it.position_now();
                },
            }
        }
    }

    /// The request that creates or updates the given peers, if it fits a
    /// message. An endpoint or a keepalive interval that a peer does not have
    /// is left as it is; a keepalive interval of zero switches the keepalive
    /// off. The allowed addresses are added to those that the kernel knows
    /// of the peer: an address is only taken away by removing the peer and
    /// setting it again.
    pub fn set_peers_request(&mut self, peers: &[Peer]) -> (r: Result<MsgBuilder, Error>)
        ensures
            final(self).name == old(self).name,
            final(self).index == old(self).index,
            final(self).wgnl.family == old(self).wgnl.family,
            final(self).wgnl.mcast_groups == old(self).wgnl.mcast_groups,
            final(self).wgnl.seq == (if old(self).wgnl.seq == u32::MAX {
                0
            } else {
                old(self).wgnl.seq + 1
            }),
            32 + peers_encoding(peer_views(peers@)).len() <= MAX_NL_MSG_SIZE ==> (r matches Ok(
                builder,
            ) && builder_wf(&builder) && builder.header == nlmsghdr::new_spec(
                old(self).wgnl.family,
                old(self).wgnl.seq,
            ) && written(&builder) == device_prefix(WG_CMD_SET_DEVICE as u8, old(self).index)
                + nest_encoding(WGDEVICE_A_PEERS as u16, peers_encoding(peer_views(peers@)))),
            32 + peers_encoding(peer_views(peers@)).len() > MAX_NL_MSG_SIZE ==> (r matches Err(
                Error::Other(hint),
            ) && hint@ == too_large_hint()),
    {
        let start = self.device_message(WG_CMD_SET_DEVICE as u8);
        let ghost before = written(&start);
        let ghost all = peer_views(peers@);
        match peers_encoded_len(peers) {
            Some(n) => {
                if n > MAX_NL_MSG_SIZE - 32 {
                    return Err(
                        Error::Other("the request does not fit a netlink message".to_string()),
                    );
                }
            },
            None => {
                return Err(Error::Other("the request does not fit a netlink message".to_string()));
            },
        }
        let nest = start.attr_list_start(WGDEVICE_A_PEERS as u16);
        let filled = nest.set_peers(peers);
        proof {
            lemma_same_nest(&nest, &filled);
            assert(written(&filled) =~= before + zeros(4) + peers_encoding(all));
            assert(written(&filled).len() == filled.cursor());
            lemma_close_nest(
                before,
                peers_encoding(all),
                nlattr {
                    nla_len: (filled.cursor() - filled.start_pos) as u16,
                    nla_type: filled.start_attr.nla_type,
                },
            );
        }
        Ok(filled.attr_list_end())
    }

    /// The request that removes the peer of the given public key, if it
    /// fits a message.
    pub fn remove_peer_request(&mut self, peer_key: &[u8]) -> (r: Result<MsgBuilder, Error>)
        ensures
            final(self).name == old(self).name,
            final(self).index == old(self).index,
            final(self).wgnl.family == old(self).wgnl.family,
            final(self).wgnl.mcast_groups == old(self).wgnl.mcast_groups,
            final(self).wgnl.seq == (if old(self).wgnl.seq == u32::MAX {
                0
            } else {
                old(self).wgnl.seq + 1
            }),
            32 + remove_peer_encoding(peer_key@).len() <= MAX_NL_MSG_SIZE ==> (r matches Ok(
                builder,
            ) && builder_wf(&builder) && builder.header == nlmsghdr::new_spec(
                old(self).wgnl.family,
                old(self).wgnl.seq,
            ) && written(&builder) == device_prefix(WG_CMD_SET_DEVICE as u8, old(self).index)
                + nest_encoding(WGDEVICE_A_PEERS as u16, remove_peer_encoding(peer_key@))),
            32 + remove_peer_encoding(peer_key@).len() > MAX_NL_MSG_SIZE ==> (r matches Err(
                Error::Other(hint),
            ) && hint@ == too_large_hint()),
    {
        let start = self.device_message(WG_CMD_SET_DEVICE as u8);
        let ghost before = written(&start);
        proof {
            lemma_encoding_len(WGPEER_A_FLAGS as u16, le32(WGPEER_F_REMOVE_ME));
            lemma_encoding_len(WGPEER_A_PUBLIC_KEY as u16, peer_key@);
            lemma_encoding_len(
                0,
                attr_encoding(WGPEER_A_FLAGS as u16, le32(WGPEER_F_REMOVE_ME)) + attr_encoding(
                    WGPEER_A_PUBLIC_KEY as u16,
                    peer_key@,
                ),
            );
            lemma_align_up(peer_key@.len());
        }
        if peer_key.len() > MAX_NL_MSG_SIZE - 48 {
            return Err(Error::Other("the request does not fit a netlink message".to_string()));
        }
        let nest = start.attr_list_start(WGDEVICE_A_PEERS as u16);
        let filled = nest.remove_peer(peer_key);
        proof {
            lemma_same_nest(&nest, &filled);
            assert(written(&filled) =~= before + zeros(4) + remove_peer_encoding(peer_key@));
            assert(written(&filled).len() == filled.cursor());
            lemma_close_nest(
                before,
                remove_peer_encoding(peer_key@),
                nlattr {
                    nla_len: (filled.cursor() - filled.start_pos) as u16,
                    nla_type: filled.start_attr.nla_type,
                },
            );
        }
        Ok(filled.attr_list_end())
    }

    /// The request that makes the device tell of what happens to its peers
    /// and to their endpoints.
    pub fn monitor_request(&mut self) -> (r: MsgBuilder)
        ensures
            final(self).name == old(self).name,
            final(self).index == old(self).index,
            final(self).wgnl.family == old(self).wgnl.family,
            final(self).wgnl.mcast_groups == old(self).wgnl.mcast_groups,
            final(self).wgnl.seq == (if old(self).wgnl.seq == u32::MAX {
                0
            } else {
                old(self).wgnl.seq + 1
            }),
            builder_wf(&r),
            r.header == nlmsghdr::new_spec(old(self).wgnl.family, old(self).wgnl.seq),
            written(&r) == device_prefix(WG_CMD_SET_DEVICE as u8, old(self).index) + attr_encoding(
                WGDEVICE_A_MONITOR as u16,
                seq![monitor_flags()],
            ),
    {
        let flags: u8 = (WGDEVICE_MONITOR_F_ENDPOINT | WGDEVICE_MONITOR_F_PEERS) as u8;
        proof {
            lemma_monitor_flags();
        }
        self.device_message(WG_CMD_SET_DEVICE as u8).attr(WGDEVICE_A_MONITOR as u16, flags)
    }

    /// What a subscription to the notifications of the device needs: the
    /// group mask to bind a second socket to, and the buffer for what arrives
    /// on it.
    pub fn subscribe(&self) -> (r: Result<(u32, MsgBuffer), Error>)
        ensures
            match subscription(
                group_views(self.wgnl.mcast_groups@),
                WG_MULTICAST_GROUP_PEERS@,
            ) {
                Ok(mask) => (r matches Ok((m, buffer)) && m == mask && buffer.wf() && buffer.kind()
                    == NetlinkType::Generic(self.wgnl.family) && !buffer.is_filled()
                    && buffer.data() == Seq::<u8>::empty()),
                Err(SubscriptionError::WrongGroupName) => r matches Err(
                    Error::WrongGroupName,
                ),
                Err(SubscriptionError::InvalidGroupId) => r matches Err(
                    Error::InvalidGroupId,
                ),
            },
    {
        let name = WG_MULTICAST_GROUP_PEERS;
        self.wgnl.subscribe(name.as_slice())
    }
}

} // verus!
