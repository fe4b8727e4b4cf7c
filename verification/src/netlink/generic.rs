//! The generic dialect: resolving a family by its name, building requests
//! for it, and subscribing to its multicast groups.
use vstd::prelude::*;
use crate::netlink::bindings::{
    genlmsghdr, nlmsghdr, CTRL_ATTR_FAMILY_ID, CTRL_ATTR_FAMILY_NAME, CTRL_ATTR_MCAST_GROUPS,
    CTRL_ATTR_MCAST_GRP_ID, CTRL_ATTR_MCAST_GRP_NAME, CTRL_CMD_GETFAMILY, GENL_ID_CTRL,
};
use crate::netlink::recv::{
    attr_head, attr_kind, attr_malformed, attr_payload, attr_rest, bare_done_at, nul_terminated,
    reports, step_cursor, step_outcome, Attribute, AttributeIterator, AttributeType, CString,
    FromAttr, MsgBuffer, MsgPart, NetlinkType, Outcome, PartStep,
};
use crate::netlink::rt::Progress;
use crate::netlink::send::{
    attr_encoding, builder_wf, written, MsgBuilder, NlSerializer, ReprC, MAX_NL_MSG_SIZE,
};
use crate::netlink::wire::{align_up, zeros};
use crate::netlink::Error;

verus! {

/// The multicast groups of a family, as pairs of name and identifier. Where
/// a name occurs twice, the later pair counts.
pub open spec fn group_views(groups: Seq<(CString, u32)>) -> Seq<(Seq<u8>, u32)> {
    groups.map_values(|g: (CString, u32)| (g.0@, g.1))
}

/// The identifier under which `groups` lists `name`.
pub open spec fn group_id(groups: Seq<(Seq<u8>, u32)>, name: Seq<u8>) -> Option<u32>
    decreases groups.len(),
{
    if groups.len() == 0 {
        None
    } else if groups.last().0 == name {
        Some(groups.last().1)
    } else {
        group_id(groups.drop_last(), name)
    }
}

/// Whether two byte strings are equal.
pub fn bytes_eq(a: &[u8], b: &[u8]) -> (r: bool)
    ensures
        r == (a@ == b@),
{
    if a.len() != b.len() {
        return false;
    }
    let mut i: usize = 0;
    while i < a.len()
        invariant
            i <= a@.len(),
            a@.len() == b@.len(),
            forall|j: int| 0 <= j < i ==> a@[j] == b@[j],
        decreases a@.len() - i,
    {
        if a[i] != b[i] {
            return false;
        }
        i = i + 1;
    }
    assert(a@ =~= b@);
    true
}

/// Looks a group up by its name.
pub fn find_group(groups: &Vec<(CString, u32)>, name: &[u8]) -> (r: Option<u32>)
    ensures
        r == group_id(group_views(groups@), name@),
{
    let mut i: usize = groups.len();
    assert(group_views(groups@).take(i as int) =~= group_views(groups@));
    while i > 0
        invariant
            i <= groups@.len(),
            group_id(group_views(groups@).take(i as int), name@) == group_id(
                group_views(groups@),
                name@,
            ),
        decreases i,
    {
        let ghost prefix = group_views(groups@).take(i as int);
        assert(prefix.drop_last() =~= group_views(groups@).take(i - 1));
        assert(prefix.last() == (groups@[i - 1].0@, groups@[i - 1].1));
        i = i - 1;
        if bytes_eq(groups[i].0.as_bytes(), name) {
            return Some(groups[i].1);
        }
    }
    None
}

/// What has been read of a multicast group so far.
pub struct GroupParts {
    pub id: Option<u32>,
    pub name: Option<Seq<u8>>,
}

/// Reads the attributes of one multicast group. A record that breaks the
/// format spoils the reading.
pub open spec fn group_scan(s: Seq<u8>, parts: GroupParts) -> Option<GroupParts>
    decreases s.len(),
{
    if s.len() < 4 {
        Some(parts)
    } else if attr_malformed(s) {
        None
    } else if attr_kind(attr_head(s)) == AttributeType::Raw(CTRL_ATTR_MCAST_GRP_NAME) {
        group_scan(attr_rest(s), GroupParts { name: CString::decode(attr_payload(s)), ..parts })
    } else if attr_kind(attr_head(s)) == AttributeType::Raw(CTRL_ATTR_MCAST_GRP_ID) {
        group_scan(attr_rest(s), GroupParts { id: u32::decode(attr_payload(s)), ..parts })
    } else {
        group_scan(attr_rest(s), parts)
    }
}

/// Reads a list of multicast groups, behind those of `groups`: each record
/// is taken as the nest of one group, and a group counts where it has both
/// an identifier and a name.
pub open spec fn groups_scan(s: Seq<u8>, groups: Seq<(Seq<u8>, u32)>) -> Option<
    Seq<(Seq<u8>, u32)>,
>
    decreases s.len(),
{
    if s.len() < 4 {
        Some(groups)
    } else if attr_malformed(s) {
        None
    } else {
        match group_scan(attr_payload(s), GroupParts { id: None, name: None }) {
            Some(GroupParts { id: Some(id), name: Some(name) }) => groups_scan(
                attr_rest(s),
                groups.push((name, id)),
            ),
            Some(_) => groups_scan(attr_rest(s), groups),
            None => None,
        }
    }
}

/// What the replies to the query of a family have told so far.
pub struct FamilyInfo {
    pub family_id: Option<u16>,
    pub mcast_groups: Vec<(CString, u32)>,
}

/// What is known of a family, as a mathematical value.
pub struct FamilyInfoView {
    pub family_id: Option<u16>,
    pub mcast_groups: Seq<(Seq<u8>, u32)>,
}

impl View for FamilyInfo {
    type V = FamilyInfoView;

    open spec fn view(&self) -> FamilyInfoView {
        FamilyInfoView {
            family_id: self.family_id,
            mcast_groups: group_views(self.mcast_groups@),
        }
    }
}

/// Reads the attributes of a reply to the query of a family: its
/// identifier, and the list of its multicast groups.
pub open spec fn family_scan(s: Seq<u8>, info: FamilyInfoView) -> Option<FamilyInfoView>
    decreases s.len(),
{
    if s.len() < 4 {
        Some(info)
    } else if attr_malformed(s) {
        None
    } else if attr_kind(attr_head(s)) == AttributeType::Raw(CTRL_ATTR_FAMILY_ID) {
        family_scan(
            attr_rest(s),
            FamilyInfoView { family_id: u16::decode(attr_payload(s)), ..info },
        )
    } else if attr_kind(attr_head(s)) == AttributeType::Raw(CTRL_ATTR_MCAST_GROUPS) {
        match groups_scan(attr_payload(s), info.mcast_groups) {
            Some(mcast_groups) => family_scan(
                attr_rest(s),
                FamilyInfoView { mcast_groups, ..info },
            ),
            None => None,
        }
    } else {
        family_scan(attr_rest(s), info)
    }
}

/// What stops a walk over the replies to a request.
pub enum Stop {
    /// What the message iterator found, where that is no message.
    Plain(Outcome),
    /// A message that breaks the format: a record of its attributes does,
    /// or it closes a dump that was never announced.
    Invalid,
}

/// Walks the messages of a datagram from `pos` on and reads what they tell
/// of a family; gives what stopped the walk, and what is known then.
pub open spec fn family_walk(
    data: Seq<u8>,
    kind: NetlinkType,
    filled: bool,
    pos: int,
    info: FamilyInfoView,
) -> (Stop, FamilyInfoView)
    decreases data.len() - pos,
{
    if bare_done_at(data, pos) {
        (Stop::Invalid, info)
    } else {
        match step_outcome(data, kind, filled, pos) {
            Outcome::Part { header, sub_header, start, end } => {
                match family_scan(data.subrange(start as int, end as int), info) {
                    Some(more) => family_walk(data, kind, filled, step_cursor(data, pos), more),
                    None => (Stop::Invalid, info),
                }
            },
            other => (Stop::Plain(other), info),
        }
    }
}

impl Progress {
    /// Whether this is how a walk reports that `stop` stopped it.
    pub open spec fn tells(&self, stop: Stop) -> bool {
        match stop {
            Stop::Plain(Outcome::Refill) => *self is Refill,
            Stop::Plain(Outcome::End) => *self is Done,
            Stop::Plain(failure) => *self matches Progress::Failed(e) && reports(e, failure),
            Stop::Invalid => *self matches Progress::Failed(Error::Invalid),
        }
    }
}

/// Reads the attributes of one multicast group.
fn parse_group(list: AttributeIterator<'_>) -> (r: Option<(Option<u32>, Option<CString>)>)
    requires
        list.wf(),
    ensures
        r matches Some((id, name)) ==> group_scan(
            list.remaining(),
            GroupParts { id: None, name: None },
        ) == Some(GroupParts { id, name: crate::netlink::rt::name_view(name) }),
        r is None ==> group_scan(list.remaining(), GroupParts { id: None, name: None }) is None,
{
    let mut it = list;
    let mut id: Option<u32> = None;
    let mut name: Option<CString> = None;
    while it.remaining_len() >= 4
        invariant
            it.wf(),
            group_scan(
                it.remaining(),
                GroupParts { id, name: crate::netlink::rt::name_view(name) },
            ) == group_scan(list.remaining(), GroupParts { id: None, name: None }),
        decreases it.remaining().len(),
    {
        if it.is_malformed() {
            return None;
        }
        let item = match it.next() {
            Some(a) => a,
            None => {
                return None;
            },
        };
        if item.attribute_type == AttributeType::Raw(CTRL_ATTR_MCAST_GRP_NAME) {
            name = item.get::<CString>();
        } else if item.attribute_type == AttributeType::Raw(CTRL_ATTR_MCAST_GRP_ID) {
            id = item.get::<u32>();
        }
    }
    Some((id, name))
}

/// A session of the generic dialect, for one family.
pub struct NetlinkGeneric {
    /// The sequence number of the next request.
    pub seq: u32,
    /// The identifier of the family; that of the controller until the
    /// family is resolved.
    pub family: u16,
    /// The multicast groups that the family offers.
    pub mcast_groups: Vec<(CString, u32)>,
}

/// The group mask of the multicast group of the given identifier: the bit
/// below the identifier.
pub open spec fn group_mask(id: u32) -> u32 {
    1u32 << ((id - 1) as u32)
}

impl NetlinkGeneric {
    /// A session that talks to the controller of families, before a family
    /// is resolved.
    pub fn new() -> (r: Self)
        ensures
            r.seq == 1,
            r.family == GENL_ID_CTRL,
            r.mcast_groups@ == Seq::<(CString, u32)>::empty(),
    {
        NetlinkGeneric { seq: 1, family: GENL_ID_CTRL, mcast_groups: Vec::new() }
    }

    /// A request to the family for the command `cmd`, under the next
    /// sequence number.
    pub fn build_message(&mut self, cmd: u8) -> (r: MsgBuilder)
        ensures
            final(self).family == old(self).family,
            final(self).mcast_groups == old(self).mcast_groups,
            final(self).seq == (if old(self).seq == u32::MAX {
                0
            } else {
                old(self).seq + 1
            }),
            builder_wf(&r),
            r.pos == 20,
            r.header == nlmsghdr::new_spec(old(self).family, old(self).seq),
            written(&r) == zeros(16) + (genlmsghdr { cmd, version: 1, reserved: 0 }).image(),
    {
        let builder = MsgBuilder::new(self.family, self.seq).generic(cmd);
        self.seq = if self.seq == u32::MAX {
            0
        } else {
            self.seq + 1
        };
        proof {
            (genlmsghdr { cmd, version: 1, reserved: 0 }).lemma_image();
            assert(written(&builder).len() == builder.pos);
        }
        builder
    }

    /// The buffer for the replies to a request of this session.
    pub fn send(&self) -> (r: MsgBuffer)
        ensures
            r.wf(),
            r.kind() == NetlinkType::Generic(self.family),
            !r.is_filled(),
            r.data() == Seq::<u8>::empty(),
    {
        MsgBuffer::new(NetlinkType::Generic(self.family))
    }

    /// The request that asks the controller for the family of the given
    /// name.
    pub fn family_request(&mut self, family_name: &[u8]) -> (r: MsgBuilder)
        requires
            24 + align_up(family_name@.len()) <= MAX_NL_MSG_SIZE,
        ensures
            final(self).family == old(self).family,
            final(self).mcast_groups == old(self).mcast_groups,
            final(self).seq == (if old(self).seq == u32::MAX {
                0
            } else {
                old(self).seq + 1
            }),
            builder_wf(&r),
            r.header == nlmsghdr::new_spec(old(self).family, old(self).seq),
            written(&r) == zeros(16) + (genlmsghdr {
                cmd: CTRL_CMD_GETFAMILY as u8,
                version: 1,
                reserved: 0,
            }).image() + attr_encoding(CTRL_ATTR_FAMILY_NAME as u16, family_name@),
    {
        self.build_message(CTRL_CMD_GETFAMILY as u8).attr_bytes(
            CTRL_ATTR_FAMILY_NAME as u16,
            family_name,
        )
    }

    /// Reads a list of multicast groups into `groups`; says whether the
    /// list was in order.
    fn add_mcast_groups(groups: &mut Vec<(CString, u32)>, attribute: Attribute<'_>) -> (ok: bool)
        requires
            attribute.wf(),
        ensures
            ok ==> groups_scan(attribute.payload(), group_views(old(groups)@)) == Some(
                group_views(final(groups)@),
            ),
            !ok ==> groups_scan(attribute.payload(), group_views(old(groups)@)) is None,
    {
        let mut it = attribute.make_nested().attributes();
        while it.remaining_len() >= 4
            invariant
                it.wf(),
                groups_scan(it.remaining(), group_views(groups@)) == groups_scan(
                    attribute.payload(),
                    group_views(old(groups)@),
                ),
            decreases it.remaining().len(),
        {
            if it.is_malformed() {
                return false;
            }
            let att = match it.next() {
                Some(a) => a,
                None => {
                    return false;
                },
            };
            let ghost before = group_views(groups@);
            match parse_group(att.make_nested().attributes()) {
                Some((Some(gid), Some(gname))) => {
                    let ghost name = gname@;
                    groups.push((gname, gid));
                    assert(group_views(groups@) =~= before.push((name, gid)));
                },
                Some(_) => {},
                None => {
                    return false;
                },
            }
        }
        true
    }

    /// Takes over what the replies have told of the family: its identifier,
    /// which all later requests go to, and its multicast groups. Without an
    /// identifier the family is not resolved.
    pub fn set_family_info(&mut self, info: FamilyInfo) -> (r: Result<(), Error>)
        ensures
            final(self).seq == old(self).seq,
            info.family_id matches Some(id) ==> (r is Ok && final(self).family == id
                && final(self).mcast_groups == info.mcast_groups),
            info.family_id is None ==> (r matches Err(Error::Invalid) && final(self).family == old(
                self,
            ).family && final(self).mcast_groups == old(self).mcast_groups),
    {
        match info.family_id {
            Some(id) => {
                self.family = id;
            },
            None => {
                return Err(Error::Invalid);
            },
        }
        self.mcast_groups = info.mcast_groups;
        Ok(())
    }

    /// What a subscription to the group of the given name needs: the group
    /// mask to bind a second socket to, and the buffer for what arrives on
    /// it. The name ends in a NUL byte.
    pub fn subscribe(&self, group_name: &[u8]) -> (r: Result<(u32, MsgBuffer), Error>)
        ensures
            match subscription(group_views(self.mcast_groups@), group_name@) {
                Ok(mask) => (r matches Ok((m, buffer)) && m == mask && buffer.wf() && buffer.kind()
                    == NetlinkType::Generic(self.family) && !buffer.is_filled() && buffer.data()
                    == Seq::<u8>::empty()),
                Err(SubscriptionError::WrongGroupName) => r matches Err(Error::WrongGroupName),
                Err(SubscriptionError::InvalidGroupId) => r matches Err(Error::InvalidGroupId),
            },
    {
        let name = match CString::from_bytes_with_nul(group_name) {
            Some(name) => name,
            None => {
                return Err(Error::WrongGroupName);
            },
        };
        let group_id_bit: u32 = match find_group(&self.mcast_groups, name.as_bytes()) {
            Some(id) => {
                if id == 0 || id > 32 {
                    return Err(Error::InvalidGroupId);
                }
                id
            },
            None => {
                return Err(Error::WrongGroupName);
            },
        };
        let group: u32 = 1u32 << (group_id_bit - 1);
        Ok((group, MsgBuffer::new(NetlinkType::Generic(self.family))))
    }
}

/// Why a subscription cannot be made.
pub enum SubscriptionError {
    /// The name is no NUL-terminated string, or the family has no group of
    /// that name.
    WrongGroupName,
    /// The group has the identifier zero, or one beyond the 32 bits of a
    /// group mask.
    InvalidGroupId,
}

/// The group mask of a subscription to the group `name` among `groups`, or
/// why there is none.
pub open spec fn subscription(groups: Seq<(Seq<u8>, u32)>, name: Seq<u8>) -> Result<
    u32,
    SubscriptionError,
> {
    if !nul_terminated(name) {
        Err(SubscriptionError::WrongGroupName)
    } else {
        match group_id(groups, name.drop_last()) {
            Some(id) => if id == 0 || id > 32 {
                Err(SubscriptionError::InvalidGroupId)
            } else {
                Ok(group_mask(id))
            },
            None => Err(SubscriptionError::WrongGroupName),
        }
    }
}

impl FamilyInfo {
    /// Nothing is known yet.
    pub fn new() -> (r: Self)
        ensures
            r@ == (FamilyInfoView { family_id: None, mcast_groups: Seq::empty() }),
    {
        let r = FamilyInfo { family_id: None, mcast_groups: Vec::new() };
        assert(group_views(r.mcast_groups@) =~= Seq::empty());
        r
    }

    /// Reads the attributes of one reply.
    fn read_part(&mut self, msg: &MsgPart<'_>) -> (ok: bool)
        requires
            msg.wf(),
        ensures
            ok ==> family_scan(msg.region(), old(self)@) == Some(final(self)@),
            !ok ==> family_scan(msg.region(), old(self)@) is None,
    {
        let mut it = msg.attributes();
        while it.remaining_len() >= 4
            invariant
                it.wf(),
                family_scan(it.remaining(), self@) == family_scan(msg.region(), old(self)@),
            decreases it.remaining().len(),
        {
            if it.is_malformed() {
                return false;
            }
            let attr = match it.next() {
                Some(a) => a,
                None => {
                    return false;
                },
            };
            if attr.attribute_type == AttributeType::Raw(CTRL_ATTR_FAMILY_ID) {
                self.family_id = attr.get::<u16>();
            } else if attr.attribute_type == AttributeType::Raw(CTRL_ATTR_MCAST_GROUPS) {
                if !NetlinkGeneric::add_mcast_groups(&mut self.mcast_groups, attr) {
                    return false;
                }
            }
        }
        true
    }

    /// Reads what the datagram in `buffer` tells of the family, and says how
    /// to go on: with another datagram, or not at all.
    pub fn absorb(&mut self, buffer: &MsgBuffer) -> (r: Progress)
        requires
            buffer.wf(),
        ensures
            r.tells(
                family_walk(buffer.data(), buffer.kind(), buffer.is_filled(), 0, old(self)@).0,
            ),
            r is Refill || r is Done ==> final(self)@ == family_walk(
                buffer.data(),
                buffer.kind(),
                buffer.is_filled(),
                0,
                old(self)@,
            ).1,
    {
        let mut it = buffer.recv_msgs();
        let size: usize = buffer.size();
        let mut left: usize = size;
        loop
            invariant
                it.wf(),
                !it.is_stopped(),
                it.buffer() == *buffer,
                buffer.wf(),
                size == buffer.data().len(),
                it.position() <= size,
                left == size - it.position(),
                family_walk(
                    buffer.data(),
                    buffer.kind(),
                    buffer.is_filled(),
                    it.position() as int,
                    self@,
                ) == family_walk(
                    buffer.data(),
                    buffer.kind(),
                    buffer.is_filled(),
                    0,
                    old(self)@,
                ),
            decreases left,
        {
            if it.at_bare_done() {
                return Progress::Failed(Error::Invalid);
            }
            let ghost pos = it.position();
            match it.next() {
                PartStep::Refill => {
                    return Progress::Refill;
                },
                PartStep::Failed(e) => {
                    return Progress::Failed(e);
                },
                PartStep::End => {
                    return Progress::Done;
                },
                PartStep::Part(msg) => {
                    if !self.read_part(&msg) {
                        return Progress::Failed(Error::Invalid);
                    }
                    assert(pos < it.position() <= size);
                    left = size - it.position_now();
                },
            }
        }
    }
}

/// Walks the messages of a datagram from `pos` on without reading them, and
/// gives what stopped the walk.
pub open spec fn drain_walk(data: Seq<u8>, kind: NetlinkType, filled: bool, pos: int) -> Stop
    decreases data.len() - pos,
{
    if bare_done_at(data, pos) {
        Stop::Invalid
    } else {
        match step_outcome(data, kind, filled, pos) {
            Outcome::Part { header, sub_header, start, end } => drain_walk(
                data,
                kind,
                filled,
                step_cursor(data, pos),
            ),
            other => Stop::Plain(other),
        }
    }
}

impl MsgBuffer {
    /// Walks the messages of the datagram that the buffer holds, as the
    /// replies to a request that answers with nothing but an acknowledgement
    /// or an error, and says how to go on.
    pub fn drain(&self) -> (r: Progress)
        requires
            self.wf(),
        ensures
            r.tells(drain_walk(self.data(), self.kind(), self.is_filled(), 0)),
    {
        let mut it = self.recv_msgs();
        let size: usize = self.size();
        let mut left: usize = size;
        loop
            invariant
                it.wf(),
                !it.is_stopped(),
                it.buffer() == *self,
                self.wf(),
                size == self.data().len(),
                it.position() <= size,
                left == size - it.position(),
                drain_walk(self.data(), self.kind(), self.is_filled(), it.position() as int)
                    == drain_walk(self.data(), self.kind(), self.is_filled(), 0),
            decreases left,
        {
            if it.at_bare_done() {
                return Progress::Failed(Error::Invalid);
            }
            let ghost pos = it.position();
            match it.next() {
                PartStep::Refill => {
                    return Progress::Refill;
                },
                PartStep::Failed(e) => {
                    return Progress::Failed(e);
                },
                PartStep::End => {
                    return Progress::Done;
                },
                PartStep::Part(_) => {
                    assert(pos < it.position() <= size);
                    left = size - it.position_now();
                },
            }
        }
    }
}

} // verus!
