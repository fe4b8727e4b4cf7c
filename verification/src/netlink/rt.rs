//! The route dialect: enumerating the network links and watching them
//! change.
use vstd::prelude::*;
use crate::netlink::bindings::{
    ifinfomsg, AF_UNSPEC, IFLA_IFNAME, IFLA_INFO_KIND, IFLA_LINKINFO, RTM_GETLINK, RTM_NEWLINK,
    RTMGRP_LINK,
};
use crate::netlink::recv::{
    attr_head, attr_kind, attr_malformed, attr_payload, attr_rest, bare_done_at, reports,
    step_cursor, step_outcome, AttributeIterator, AttributeType, CString, FromAttr, MsgBuffer,
    MsgPart, NetlinkType, Outcome, PartIterator, PartStep, SubHeader,
};
use crate::netlink::send::{builder_wf, written, MsgBuilder, NlSerializer, ReprC};
use crate::netlink::wire::zeros;
use crate::netlink::Error;

verus! {

/// A network link.
#[derive(Debug, Clone, PartialEq, Eq)]
pub struct IfLink {
    pub name: CString,
    pub index: i32,
    pub iftype: u16,
    /// The kind of the link, such as `wireguard`, where the kernel names one.
    pub link_type_name: Option<CString>,
}

/// A network link as a mathematical value.
pub struct IfLinkView {
    pub name: Seq<u8>,
    pub index: i32,
    pub iftype: u16,
    pub link_type_name: Option<Seq<u8>>,
}

/// The view of a name that may be missing.
pub open spec fn name_view(name: Option<CString>) -> Option<Seq<u8>> {
    match name {
        Some(n) => Some(n@),
        None => None,
    }
}

impl View for IfLink {
    type V = IfLinkView;

    open spec fn view(&self) -> IfLinkView {
        IfLinkView {
            name: self.name@,
            index: self.index,
            iftype: self.iftype,
            link_type_name: name_view(self.link_type_name),
        }
    }
}

/// The views of a list of links.
pub open spec fn link_views(links: Seq<IfLink>) -> Seq<IfLinkView> {
    links.map_values(|l: IfLink| l@)
}

/// Reads the kind of a link from the attributes of its link information:
/// the last attribute of that type decides, whether it holds a name or not.
/// A record that breaks the format spoils the reading.
pub open spec fn link_kind_scan(s: Seq<u8>, found: Option<Seq<u8>>) -> Option<Option<Seq<u8>>>
    decreases s.len(),
{
    if s.len() < 4 {
        Some(found)
    } else if attr_malformed(s) {
        None
    } else if attr_kind(attr_head(s)) == AttributeType::Raw(IFLA_INFO_KIND) {
        link_kind_scan(attr_rest(s), CString::decode(attr_payload(s)))
    } else {
        link_kind_scan(attr_rest(s), found)
    }
}

/// What has been read of a link so far.
pub struct LinkParts {
    pub name: Option<Seq<u8>>,
    pub link_type_name: Option<Seq<u8>>,
}

/// Reads the attributes of a link message one after the other. The link
/// information is taken as a nest although the kernel does not flag it as
/// one. A record that breaks the format spoils the reading.
pub open spec fn link_scan(s: Seq<u8>, parts: LinkParts) -> Option<LinkParts>
    decreases s.len(),
{
    if s.len() < 4 {
        Some(parts)
    } else if attr_malformed(s) {
        None
    } else if attr_kind(attr_head(s)) == AttributeType::Raw(IFLA_IFNAME) {
        link_scan(attr_rest(s), LinkParts { name: CString::decode(attr_payload(s)), ..parts })
    } else if attr_kind(attr_head(s)) == AttributeType::Raw(IFLA_LINKINFO) {
        match link_kind_scan(attr_payload(s), parts.link_type_name) {
            Some(link_type_name) => link_scan(attr_rest(s), LinkParts { link_type_name, ..parts }),
            None => None,
        }
    } else {
        link_scan(attr_rest(s), parts)
    }
}

/// What a step of a link iterator finds in a datagram.
pub enum LinkOutcome {
    /// What the message iterator found, where that is no message.
    Plain(Outcome),
    /// A message that breaks the format: a record of its attributes does,
    /// or it closes a dump that was never announced.
    Invalid,
    /// A link, and the type of the message that tells of it.
    Link { msg_type: u16, link: IfLinkView },
    /// A message that is not about a link, or names none.
    End,
}

/// What the link iterator makes of a message with the given headers and
/// attributes.
pub open spec fn link_of_part(
    msg_type: u16,
    sub_header: SubHeader,
    region: Seq<u8>,
) -> LinkOutcome {
    match sub_header {
        SubHeader::RouteIfinfo(info) => match link_scan(
            region,
            LinkParts { name: None, link_type_name: None },
        ) {
            Some(parts) => match parts.name {
                Some(name) => LinkOutcome::Link {
                    msg_type,
                    link: IfLinkView {
                        name,
                        index: info.ifi_index,
                        iftype: info.ifi_type,
                        link_type_name: parts.link_type_name,
                    },
                },
                None => LinkOutcome::End,
            },
            None => LinkOutcome::Invalid,
        },
        _ => LinkOutcome::End,
    }
}

/// What a step of a link iterator finds at `pos` of a datagram, as long as
/// no error of the kernel was found before.
pub open spec fn link_outcome(
    data: Seq<u8>,
    kind: NetlinkType,
    filled: bool,
    pos: int,
) -> LinkOutcome {
    if bare_done_at(data, pos) {
        LinkOutcome::Invalid
    } else {
        match step_outcome(data, kind, filled, pos) {
            Outcome::Part { header, sub_header, start, end } => link_of_part(
                header.nlmsg_type,
                sub_header,
                data.subrange(start as int, end as int),
            ),
            other => LinkOutcome::Plain(other),
        }
    }
}

/// Where the cursor stands after a step of a link iterator at `pos`, as
/// long as no error of the kernel was found before.
pub open spec fn link_cursor(data: Seq<u8>, pos: int) -> int {
    if bare_done_at(data, pos) {
        pos
    } else {
        step_cursor(data, pos)
    }
}

/// What a step of a link iterator finds at `pos`. An iterator that has
/// reported an error of the kernel is `stopped`: every later step finds the
/// end.
pub open spec fn link_iterator_outcome(
    data: Seq<u8>,
    kind: NetlinkType,
    filled: bool,
    stopped: bool,
    pos: int,
) -> LinkOutcome {
    if stopped {
        LinkOutcome::End
    } else {
        link_outcome(data, kind, filled, pos)
    }
}

/// Where the cursor of a link iterator stands after a step at `pos`: a
/// stopped iterator does not move.
pub open spec fn link_iterator_cursor(data: Seq<u8>, stopped: bool, pos: int) -> int {
    if stopped {
        pos
    } else {
        link_cursor(data, pos)
    }
}

/// Whether a link iterator is stopped after a step at `pos`: it stays
/// stopped, and it stops where the step finds an error of the kernel.
pub open spec fn link_iterator_stops(
    data: Seq<u8>,
    kind: NetlinkType,
    filled: bool,
    stopped: bool,
    pos: int,
) -> bool {
    stopped || link_outcome(data, kind, filled, pos) matches LinkOutcome::Plain(
        Outcome::OsError { .. },
    )
}

/// What a step of a link iterator yields.
pub enum LinkStep {
    /// The datagram is used up: receive another one into the buffer, and go
    /// on with a new iterator.
    Refill,
    /// The type of a message, and the link that it tells of.
    Link(u16, IfLink),
    /// An error, of the kernel's or in the format.
    Failed(Error),
    /// Nothing is yielded, and the iteration is over.
    End,
}

impl LinkStep {
    /// Whether this is what a step yields for `outcome`.
    pub open spec fn yields(&self, outcome: LinkOutcome) -> bool {
        match outcome {
            LinkOutcome::Plain(Outcome::Refill) => *self is Refill,
            LinkOutcome::Plain(Outcome::End) => *self is End,
            LinkOutcome::Plain(failure) => *self matches LinkStep::Failed(e) && reports(e, failure),
            LinkOutcome::Invalid => *self matches LinkStep::Failed(Error::Invalid),
            LinkOutcome::Link { msg_type, link } => *self matches LinkStep::Link(t, l) && t
                == msg_type && l@ == link,
            LinkOutcome::End => *self is End,
        }
    }
}

/// Reads the kind of a link from the attributes of its link information.
fn parse_link_kind(list: AttributeIterator<'_>, found: Option<CString>) -> (r: Option<
    Option<CString>,
>)
    requires
        list.wf(),
    ensures
        r matches Some(kind) ==> link_kind_scan(list.remaining(), name_view(found)) == Some(
            name_view(kind),
        ),
        r is None ==> link_kind_scan(list.remaining(), name_view(found)) is None,
{
    let mut it = list;
    let mut link_type_name = found;
    while it.remaining_len() >= 4
        invariant
            it.wf(),
            link_kind_scan(it.remaining(), name_view(link_type_name)) == link_kind_scan(
                list.remaining(),
                name_view(found),
            ),
        decreases it.remaining().len(),
    {
        if it.is_malformed() {
            return None;
        }
        let sattr = match it.next() {
            Some(a) => a,
            None => {
                return None;
            },
        };
        if sattr.attribute_type == AttributeType::Raw(IFLA_INFO_KIND) {
            link_type_name = sattr.get::<CString>();
        }
    }
    Some(link_type_name)
}

/// Reads the link that a message tells of.
fn parse_link(msg: &MsgPart<'_>) -> (r: LinkStep)
    requires
        msg.wf(),
    ensures
        r.yields(link_of_part(msg.header.nlmsg_type, msg.sub_header, msg.region())),
{
    let (index, iftype) = match msg.sub_header {
        SubHeader::RouteIfinfo(info) => (info.ifi_index, info.ifi_type),
        _ => {
            return LinkStep::End;
        },
    };
    let mut ifname: Option<CString> = None;
    let mut link_type_name: Option<CString> = None;
    let mut it = msg.attributes();
    while it.remaining_len() >= 4
        invariant
            it.wf(),
            msg.sub_header is RouteIfinfo,
            link_scan(
                it.remaining(),
                LinkParts { name: name_view(ifname), link_type_name: name_view(link_type_name) },
            ) == link_scan(msg.region(), LinkParts { name: None, link_type_name: None }),
        decreases it.remaining().len(),
    {
        if it.is_malformed() {
            return LinkStep::Failed(Error::Invalid);
        }
        let attr = match it.next() {
            Some(a) => a,
            None => {
                return LinkStep::Failed(Error::Invalid);
            },
        };
        if attr.attribute_type == AttributeType::Raw(IFLA_IFNAME) {
            ifname = attr.get::<CString>();
        } else if attr.attribute_type == AttributeType::Raw(IFLA_LINKINFO) {
            match parse_link_kind(attr.make_nested().attributes(), link_type_name) {
                Some(kind) => {
                    link_type_name = kind;
                },
                None => {
                    return LinkStep::Failed(Error::Invalid);
                },
            }
        }
    }
    match ifname {
        Some(name) => LinkStep::Link(
            msg.header.nlmsg_type,
            IfLink { name, iftype, link_type_name, index },
        ),
        None => LinkStep::End,
    }
}

/// An iterator over the link messages of a datagram.
pub struct LinkEvIterator<'a> {
    msg_iter: PartIterator<'a>,
}

impl<'a> LinkEvIterator<'a> {
    /// The cursor lies within the datagram.
    pub closed spec fn wf(&self) -> bool {
        self.msg_iter.wf()
    }

    /// The offset of the message that the next step looks at.
    pub closed spec fn position(&self) -> usize {
        self.msg_iter.position()
    }

    /// Whether a step has reported an error of the kernel, after which
    /// every step finds the end.
    pub closed spec fn is_stopped(&self) -> bool {
        self.msg_iter.is_stopped()
    }

    /// The buffer that the iterator borrows.
    pub closed spec fn buffer(&self) -> MsgBuffer {
        self.msg_iter.buffer()
    }

    /// The offset of the message that the next step looks at.
    pub fn position_now(&self) -> (p: usize)
        ensures
            p == self.position(),
    {
        self.msg_iter.position_now()
    }

    /// Whether a step has reported an error of the kernel.
    pub fn stopped(&self) -> (b: bool)
        ensures
            b == self.is_stopped(),
    {
        self.msg_iter.stopped()
    }

    /// Looks at the message at the cursor, and moves the cursor behind it.
    /// Once a step has reported an error of the kernel, every step yields
    /// the end.
    pub fn next(&mut self) -> (r: LinkStep)
        requires
            old(self).wf(),
        ensures
            final(self).wf(),
            final(self).buffer() == old(self).buffer(),
            final(self).position() == link_iterator_cursor(
                old(self).buffer().data(),
                old(self).is_stopped(),
                old(self).position() as int,
            ),
            final(self).is_stopped() == link_iterator_stops(
                old(self).buffer().data(),
                old(self).buffer().kind(),
                old(self).buffer().is_filled(),
                old(self).is_stopped(),
                old(self).position() as int,
            ),
            r.yields(
                link_iterator_outcome(
                    old(self).buffer().data(),
                    old(self).buffer().kind(),
                    old(self).buffer().is_filled(),
                    old(self).is_stopped(),
                    old(self).position() as int,
                ),
            ),
    {
        if self.msg_iter.at_bare_done() {
            return LinkStep::Failed(Error::Invalid);
        }
        let msg = match self.msg_iter.next() {
            PartStep::Refill => {
                return LinkStep::Refill;
            },
            PartStep::Failed(e) => {
                return LinkStep::Failed(e);
            },
            PartStep::End => {
                return LinkStep::End;
            },
            PartStep::Part(msg) => msg,
        };
        parse_link(&msg)
    }
}

impl MsgBuffer {
    /// An iterator over the link messages of the datagram that the buffer
    /// holds.
    pub fn iter_links(&self) -> (r: LinkEvIterator<'_>)
        requires
            self.wf(),
        ensures
            r.wf(),
            r.buffer() == *self,
            r.position() == 0,
            !r.is_stopped(),
    {
        LinkEvIterator { msg_iter: self.recv_msgs() }
    }
}

/// How far a walk over the replies to a request has come.
pub enum Progress {
    /// The datagram is used up: receive another one into the buffer, and
    /// walk on.
    Refill,
    /// The walk is over.
    Done,
    /// The walk has failed.
    Failed(Error),
}

/// Walks the link messages of a datagram from `pos` on and gathers, behind
/// `found`, the links that are announced as new; gives the outcome that
/// stopped the walk, and the links.
pub open spec fn links_walk(
    data: Seq<u8>,
    kind: NetlinkType,
    filled: bool,
    pos: int,
    found: Seq<IfLinkView>,
) -> (LinkOutcome, Seq<IfLinkView>)
    decreases data.len() - pos,
{
    match link_outcome(data, kind, filled, pos) {
        LinkOutcome::Link { msg_type, link } => links_walk(
            data,
            kind,
            filled,
            link_cursor(data, pos),
            if msg_type == RTM_NEWLINK {
                found.push(link)
            } else {
                found
            },
        ),
        stop => (stop, found),
    }
}

impl Progress {
    /// Whether this is how a walk reports that `outcome` stopped it.
    pub open spec fn reports(&self, outcome: LinkOutcome) -> bool {
        match outcome {
            LinkOutcome::Plain(Outcome::Refill) => *self is Refill,
            LinkOutcome::Plain(Outcome::End) => *self is Done,
            LinkOutcome::Plain(failure) => *self matches Progress::Failed(e) && reports(e, failure),
            LinkOutcome::Invalid => *self matches Progress::Failed(Error::Invalid),
            LinkOutcome::End => *self is Done,
            LinkOutcome::Link { .. } => false,
        }
    }
}

/// A session of the route dialect.
pub struct NetlinkRoute {
    /// The sequence number of the next request.
    pub seq: u32,
}

impl NetlinkRoute {
    /// A session that has made no request.
    pub fn new() -> (r: Self)
        ensures
            r.seq == 1,
    {
        NetlinkRoute { seq: 1 }
    }

    /// The group mask to bind a socket to that is to hear of link changes.
    pub fn subscribe_link(&self) -> (r: (u32, MsgBuffer))
        ensures
            r.0 == RTMGRP_LINK,
            r.1.wf(),
            r.1.kind() == NetlinkType::Route,
            !r.1.is_filled(),
            r.1.data() == Seq::<u8>::empty(),
    {
        (RTMGRP_LINK, MsgBuffer::new(NetlinkType::Route))
    }

    /// The request for a dump of all links, under the next sequence number,
    /// and the buffer for the replies.
    pub fn get_interfaces_request(&mut self) -> (r: (MsgBuilder, MsgBuffer))
        ensures
            final(self).seq == (if old(self).seq == u32::MAX {
                0
            } else {
                old(self).seq + 1
            }),
            builder_wf(&r.0),
            r.0.header == MsgBuilder::links_request_header(old(self).seq),
            written(&r.0) == zeros(16) + (ifinfomsg {
                ifi_family: AF_UNSPEC as u8,
                __ifi_pad: 0,
                ifi_type: 0,
                ifi_index: 0,
                ifi_flags: 0,
                ifi_change: 0xFFFF_FFFF,
            }).image(),
            r.1.wf(),
            r.1.kind() == NetlinkType::Route,
            !r.1.is_filled(),
            r.1.data() == Seq::<u8>::empty(),
    {
        let builder = MsgBuilder::new(RTM_GETLINK as u16, self.seq).dump().ifinfomsg(
            AF_UNSPEC as u8,
        );
        self.seq = if self.seq == u32::MAX {
            0
        } else {
            self.seq + 1
        };
        (builder, MsgBuffer::new(NetlinkType::Route))
    }

    /// Gathers the links that the datagram in `buffer` announces, behind
    /// those of `found`, and says how to go on: with another datagram, or not
    /// at all.
    pub fn get_interfaces(buffer: &MsgBuffer, found: &mut Vec<IfLink>) -> (r: Progress)
        requires
            buffer.wf(),
        ensures
            r.reports(
                links_walk(
                    buffer.data(),
                    buffer.kind(),
                    buffer.is_filled(),
                    0,
                    link_views(old(found)@),
                ).0,
            ),
            link_views(final(found)@) == links_walk(
                buffer.data(),
                buffer.kind(),
                buffer.is_filled(),
                0,
                link_views(old(found)@),
            ).1,
    {
        let mut it = buffer.iter_links();
        let size: usize = buffer.size();
        let mut left: usize = size;
        loop
            invariant
                it.wf(),
                !it.is_stopped(),
                it.buffer() == *buffer,
                buffer.wf(),
                size == buffer.data().len(),
                it.position() <= size,
                left == size - it.position(),
                links_walk(
                    buffer.data(),
                    buffer.kind(),
                    buffer.is_filled(),
                    it.position() as int,
                    link_views(found@),
                ) == links_walk(
                    buffer.data(),
                    buffer.kind(),
                    buffer.is_filled(),
                    0,
                    link_views(old(found)@),
                ),
            decreases left,
        {
            let ghost before = link_views(found@);
            let ghost pos = it.position();
            match it.next() {
                LinkStep::Refill => {
                    return Progress::Refill;
                },
                LinkStep::Failed(e) => {
                    return Progress::Failed(e);
                },
                LinkStep::End => {
                    return Progress::Done;
                },
                LinkStep::Link(msgtype, link_info) => {
                    if msgtype as u32 == RTM_NEWLINK {
                        found.push(link_info);
                        assert(link_views(found@) =~= before.push(link_info@));
                    }
                    assert(pos < it.position() <= size);
                    left = size - it.position_now();
                },
            }
        }
    }
}

impl MsgBuilder {
    /// The main header of a request for a dump of all links, under the
    /// sequence number `seq`.
    pub open spec fn links_request_header(seq: u32) -> crate::netlink::bindings::nlmsghdr {
        let header = crate::netlink::bindings::nlmsghdr::new_spec(RTM_GETLINK as u16, seq);
        crate::netlink::bindings::nlmsghdr {
            nlmsg_flags: header.nlmsg_flags | crate::netlink::bindings::NLM_F_DUMP,
            ..header
        }
    }

    /// Adds the sub-header of a link message that asks about every link:
    /// all bits of the change mask are set.
    pub fn ifinfomsg(self, family: u8) -> (r: Self)
        requires
            builder_wf(&self),
            self.pos + 16 <= crate::netlink::send::MAX_NL_MSG_SIZE,
        ensures
            builder_wf(&r),
            r.header == self.header,
            written(&r) == written(&self) + (ifinfomsg {
                ifi_family: family,
                __ifi_pad: 0,
                ifi_type: 0,
                ifi_index: 0,
                ifi_flags: 0,
                ifi_change: 0xFFFF_FFFF,
            }).image(),
    {
        let mut this = self;
        let header = ifinfomsg {
            ifi_family: family,
            __ifi_pad: 0,
            ifi_type: 0,
            ifi_index: 0,
            ifi_flags: 0,
            ifi_change: 0xFFFF_FFFF,
        };
        this.write_obj(header);
        proof {
            header.lemma_image();
            assert(written(&self) + header.image() + crate::netlink::wire::padding(16) =~= written(
                &self,
            ) + header.image());
        }
        this
    }
}

} // verus!
