//! What the serializer and the deserializer have in common: the records
//! that one writes are the records that the other reads.
use vstd::prelude::*;
use crate::netlink::bindings::{
    genlmsghdr, lemma_type_bits, nlattr, nlmsghdr, CTRL_ATTR_FAMILY_ID, CTRL_ATTR_FAMILY_NAME,
    CTRL_ATTR_MCAST_GROUPS, CTRL_ATTR_MCAST_GRP_ID, CTRL_ATTR_MCAST_GRP_NAME, NLA_F_NESTED,
    NLMSG_DONE, NLMSG_ERROR, NLM_F_DUMP_INTR,
};
use crate::netlink::generic::{
    family_scan, group_scan, groups_scan, FamilyInfoView, GroupParts,
};
use crate::netlink::recv::{
    attr_head, attr_kind, attr_malformed, attr_payload, attr_rest, attrs_of, has_flag,
    header_at, message_at, nul_terminated, step_cursor, step_outcome, AttributeType, CString,
    FromAttr, NetlinkType, Outcome, SubHeader,
};
use crate::netlink::send::{
    attr_encoding, builder_wf, lemma_close_nest, message_bytes, nest_encoding, written,
    NestBuilder, NlSerializer, ReprC, MAX_NL_MSG_SIZE,
};
use crate::netlink::wire::{
    align_up, le16, le32, lemma_align_up, lemma_int_round_trip, splice, zeros,
};

verus! {

/// The largest payload whose record length fits the 16 bits of a header.
pub const MAX_ATTR_PAYLOAD: usize = 65531;

/// A record that was written is read back: where an attribute of type
/// `attr_type` and payload `payload` was appended, and anything else behind
/// it, the first record is in order, has the header that was written, holds
/// the payload, and is followed, behind its padding, by what was appended
/// behind it.
pub proof fn lemma_attr_read_back(attr_type: u16, payload: Seq<u8>, rest: Seq<u8>)
    requires
        payload.len() <= MAX_ATTR_PAYLOAD,
    ensures
        !attr_malformed(attr_encoding(attr_type, payload) + rest),
        attr_head(attr_encoding(attr_type, payload) + rest) == (nlattr {
            nla_len: (4 + payload.len()) as u16,
            nla_type: attr_type,
        }),
        attr_payload(attr_encoding(attr_type, payload) + rest) == payload,
        attr_rest(attr_encoding(attr_type, payload) + rest) == rest,
        (attr_encoding(attr_type, payload) + rest).len() >= 4,
{
    let header = nlattr { nla_len: (4 + payload.len()) as u16, nla_type: attr_type };
    let s = attr_encoding(attr_type, payload) + rest;
    header.lemma_image();
    lemma_align_up(payload.len());
    assert(s.subrange(0, 4) =~= header.image());
    assert(s.subrange(4, 4 + payload.len() as int) =~= payload);
    assert(s.subrange(4 + align_up(payload.len()) as int, s.len() as int) =~= rest);
}

/// A nest that was written is read back: its first record is in order, has
/// the header of the nest, holds the children, and is followed by what was
/// appended behind the nest.
pub proof fn lemma_nest_read_back(attr_type: u16, children: Seq<u8>, rest: Seq<u8>)
    requires
        children.len() <= MAX_ATTR_PAYLOAD,
        children.len() % 4 == 0,
    ensures
        !attr_malformed(nest_encoding(attr_type, children) + rest),
        attr_head(nest_encoding(attr_type, children) + rest) == (nlattr {
            nla_len: (4 + children.len()) as u16,
            nla_type: attr_type | NLA_F_NESTED,
        }),
        attr_payload(nest_encoding(attr_type, children) + rest) == children,
        attr_rest(nest_encoding(attr_type, children) + rest) == rest,
        (nest_encoding(attr_type, children) + rest).len() >= 4,
{
    let header = nlattr {
        nla_len: (4 + children.len()) as u16,
        nla_type: attr_type | NLA_F_NESTED,
    };
    let s = nest_encoding(attr_type, children) + rest;
    header.lemma_image();
    lemma_align_up(children.len());
    assert(s.subrange(0, 4) =~= header.image());
    assert(s.subrange(4, 4 + children.len() as int) =~= children);
    assert(s.subrange(4 + children.len() as int, s.len() as int) =~= rest);
}

/// The type that is read from a header whose type field is an identifier
/// of at most 14 bits, without and with the nested flag.
pub proof fn lemma_kind_read_back(attr_type: u16, len: u16)
    requires
        attr_type < 0x4000,
    ensures
        attr_kind(nlattr { nla_len: len, nla_type: attr_type }) == AttributeType::Raw(
            attr_type as u32,
        ),
        attr_kind(nlattr { nla_len: len, nla_type: attr_type | NLA_F_NESTED })
            == AttributeType::Nested(attr_type as u32),
{
    lemma_type_bits(attr_type);
    lemma_type_bits(attr_type | NLA_F_NESTED);
}

/// The records of a list of attributes, each given by its type and payload,
/// one behind the other.
pub open spec fn attrs_encoding(items: Seq<(u16, Seq<u8>)>) -> Seq<u8>
    decreases items.len(),
{
    if items.len() == 0 {
        Seq::empty()
    } else {
        attr_encoding(items[0].0, items[0].1) + attrs_encoding(items.skip(1))
    }
}

/// What is read of an attribute that was written with the given type and
/// payload.
pub open spec fn read_back(item: (u16, Seq<u8>)) -> (AttributeType, Seq<u8>) {
    (attr_kind(nlattr { nla_len: (4 + item.1.len()) as u16, nla_type: item.0 }), item.1)
}

/// Alignment and round trip. Each record starts where the one before it
/// ends, padding included; so a walk over the records of any list of
/// attributes yields that list: the same payloads, each under the type that
/// its type field stands for.
pub proof fn lemma_attrs_round_trip(items: Seq<(u16, Seq<u8>)>)
    requires
        forall|i: int| 0 <= i < items.len() ==> (#[trigger] items[i]).1.len() <= MAX_ATTR_PAYLOAD,
    ensures
        attrs_of(attrs_encoding(items)) == Some(items.map_values(|item| read_back(item))),
    decreases items.len(),
{
    let expected = items.map_values(|item| read_back(item));
    if items.len() == 0 {
        assert(expected =~= Seq::empty());
    } else {
        let first = items[0];
        let rest = attrs_encoding(items.skip(1));
        lemma_attr_read_back(first.0, first.1, rest);
        lemma_attrs_round_trip(items.skip(1));
        let tail = items.skip(1).map_values(|item| read_back(item));
        assert(seq![read_back(first)] + tail =~= expected);
    }
}

/// An empty nest. Where a nest of type `attr_type` is closed right after it
/// was opened, the builder has gained one record: a header alone, whose
/// length is that of a header and whose type carries the nested flag.
pub proof fn lemma_empty_nest<S: NlSerializer>(
    before: S,
    nest: NestBuilder<S>,
    after: S,
    attr_type: u16,
)
    requires
        builder_wf(&before),
        written(&nest.upper) == written(&before) + zeros(4),
        nest.start_pos == before.cursor(),
        nest.start_attr == (nlattr { nla_len: 0, nla_type: attr_type | NLA_F_NESTED }),
        nest.cursor() == before.cursor() + 4,
        written(&after) == splice(
            written(&nest),
            nest.start_pos as int,
            (nlattr {
                nla_len: (nest.cursor() - nest.start_pos) as u16,
                nla_type: nest.start_attr.nla_type,
            }).image(),
        ),
    ensures
        written(&after) == written(&before) + (nlattr {
            nla_len: 4,
            nla_type: attr_type | NLA_F_NESTED,
        }).image(),
        written(&after) == written(&before) + nest_encoding(attr_type, Seq::empty()),
{
    let header = nlattr { nla_len: 4, nla_type: attr_type | NLA_F_NESTED };
    lemma_close_nest(written(&before), Seq::empty(), header);
    assert(written(&before) + zeros(4) + Seq::<u8>::empty() =~= written(&before) + zeros(4));
    assert(written(&before).len() == before.cursor());
    assert(written(&before) + header.image() + Seq::<u8>::empty() =~= written(&before)
        + header.image());
    assert(nest_encoding(attr_type, Seq::empty()) =~= header.image());
}

/// A message that was written is read back. The bytes of a finished
/// message of a generic family, with the attributes `attrs` behind the
/// sub-header for `cmd`, are one message to a buffer of that family: its
/// headers are those that were written, with the length filled in, and its
/// attributes are `attrs`. The type of the message must be that of a family,
/// and its flags must not say that a dump was interrupted.
pub proof fn lemma_message_read_back(header: nlmsghdr, cmd: u8, attrs: Seq<u8>, filled: bool)
    requires
        header.nlmsg_type != NLMSG_ERROR,
        header.nlmsg_type != NLMSG_DONE,
        !has_flag(header.nlmsg_flags, NLM_F_DUMP_INTR),
        20 + attrs.len() <= MAX_NL_MSG_SIZE,
    ensures
        ({
            let sub_header = genlmsghdr { cmd, version: 1, reserved: 0 };
            let data = message_bytes(header, zeros(16) + sub_header.image() + attrs);
            &&& data.len() == 20 + attrs.len()
            &&& step_outcome(data, NetlinkType::Generic(header.nlmsg_type), filled, 0)
                == (Outcome::Part {
                header: nlmsghdr { nlmsg_len: (20 + attrs.len()) as u32, ..header },
                sub_header: SubHeader::Generic(sub_header),
                start: 20,
                end: (20 + attrs.len()) as usize,
            })
            &&& data.subrange(20, 20 + attrs.len() as int) == attrs
            &&& step_cursor(data, 0) == data.len()
        }),
{
    let sub_header = genlmsghdr { cmd, version: 1, reserved: 0 };
    let body = zeros(16) + sub_header.image() + attrs;
    let sent = nlmsghdr { nlmsg_len: (20 + attrs.len()) as u32, ..header };
    let data = message_bytes(header, body);
    sub_header.lemma_image();
    sent.lemma_image();
    assert(body.len() == 20 + attrs.len());
    assert(data.subrange(0, 16) =~= sent.image());
    assert(data.subrange(16, 20) =~= sub_header.image());
    assert(data.subrange(20, 20 + attrs.len() as int) =~= attrs);
    assert(header_at(data, 0) == sent);
    assert(message_at(data, 0));
}

/// Every step over a datagram gets on. Where a header fits at the cursor,
/// the step moves the cursor forward, and not beyond the datagram: a walk
/// over a datagram ends.
pub proof fn lemma_step_advances(data: Seq<u8>, pos: int)
    requires
        0 <= pos,
        pos + 16 <= data.len(),
    ensures
        pos < step_cursor(data, pos) <= data.len(),
{
}

/// A request that was written is read back, attribute by attribute. The
/// bytes of a finished message of a generic family that holds the attributes
/// `items` are one message to a buffer of that family, and a walk over the
/// attributes of that message yields `items`: as many attributes, in their
/// order, each with its payload without the padding, under the type that its
/// type field stands for.
pub proof fn lemma_request_round_trip(
    header: nlmsghdr,
    cmd: u8,
    items: Seq<(u16, Seq<u8>)>,
    filled: bool,
)
    requires
        header.nlmsg_type != NLMSG_ERROR,
        header.nlmsg_type != NLMSG_DONE,
        !has_flag(header.nlmsg_flags, NLM_F_DUMP_INTR),
        20 + attrs_encoding(items).len() <= MAX_NL_MSG_SIZE,
        forall|i: int| 0 <= i < items.len() ==> (#[trigger] items[i]).1.len() <= MAX_ATTR_PAYLOAD,
    ensures
        ({
            let sub_header = genlmsghdr { cmd, version: 1, reserved: 0 };
            let attrs = attrs_encoding(items);
            let data = message_bytes(header, zeros(16) + sub_header.image() + attrs);
            &&& step_outcome(data, NetlinkType::Generic(header.nlmsg_type), filled, 0)
                == (Outcome::Part {
                header: nlmsghdr { nlmsg_len: (20 + attrs.len()) as u32, ..header },
                sub_header: SubHeader::Generic(sub_header),
                start: 20,
                end: (20 + attrs.len()) as usize,
            })
            &&& attrs_of(data.subrange(20, 20 + attrs.len() as int)) == Some(
                items.map_values(|item| read_back(item)),
            )
        }),
{
    lemma_message_read_back(header, cmd, attrs_encoding(items), filled);
    lemma_attrs_round_trip(items);
}

/// A multicast group as a reply tells of it: the type of its record, its
/// name without the terminator, and its identifier.
pub struct GroupEntry {
    pub entry_type: u16,
    pub name: Seq<u8>,
    pub id: u32,
}

/// Whether a group can be told of: its name holds no NUL byte and fits a
/// record.
pub open spec fn tellable(group: GroupEntry) -> bool {
    &&& group.name.len() <= 1024
    &&& forall|i: int| 0 <= i < group.name.len() ==> group.name[i] != 0
}

/// The attributes of one multicast group: its name with the terminator, and
/// its identifier.
pub open spec fn group_attrs(group: GroupEntry) -> Seq<u8> {
    attr_encoding(CTRL_ATTR_MCAST_GRP_NAME as u16, group.name.push(0u8)) + attr_encoding(
        CTRL_ATTR_MCAST_GRP_ID as u16,
        le32(group.id),
    )
}

/// The records of a list of multicast groups, one record for each group.
pub open spec fn groups_encoding(groups: Seq<GroupEntry>) -> Seq<u8>
    decreases groups.len(),
{
    if groups.len() == 0 {
        Seq::empty()
    } else {
        groups_encoding(groups.drop_last()) + attr_encoding(
            groups.last().entry_type,
            group_attrs(groups.last()),
        )
    }
}

/// The names and identifiers of a list of multicast groups.
pub open spec fn group_pairs(groups: Seq<GroupEntry>) -> Seq<(Seq<u8>, u32)> {
    groups.map_values(|g: GroupEntry| (g.name, g.id))
}

/// Reading the name of a multicast group: wherever it stands among the
/// attributes of the group, it is taken over without its terminator.
pub proof fn lemma_read_group_name(name: Seq<u8>, rest: Seq<u8>, parts: GroupParts)
    requires
        name.len() <= 1024,
        forall|i: int| 0 <= i < name.len() ==> name[i] != 0,
    ensures
        group_scan(attr_encoding(CTRL_ATTR_MCAST_GRP_NAME as u16, name.push(0u8)) + rest, parts)
            == group_scan(rest, GroupParts { name: Some(name), ..parts }),
{
    let text = name.push(0u8);
    lemma_attr_read_back(CTRL_ATTR_MCAST_GRP_NAME as u16, text, rest);
    lemma_kind_read_back(CTRL_ATTR_MCAST_GRP_NAME as u16, (4 + text.len()) as u16);
    assert(nul_terminated(text));
    assert(text.drop_last() =~= name);
    assert(CString::decode(text) == Some(name));
}

/// Reading the identifier of a multicast group: wherever it stands among
/// the attributes of the group, it is taken over.
pub proof fn lemma_read_group_id(id: u32, rest: Seq<u8>, parts: GroupParts)
    ensures
        group_scan(attr_encoding(CTRL_ATTR_MCAST_GRP_ID as u16, le32(id)) + rest, parts)
            == group_scan(rest, GroupParts { id: Some(id), ..parts }),
{
    lemma_attr_read_back(CTRL_ATTR_MCAST_GRP_ID as u16, le32(id), rest);
    lemma_kind_read_back(CTRL_ATTR_MCAST_GRP_ID as u16, (4 + le32(id).len()) as u16);
    lemma_int_round_trip(0, id, 0);
}

/// The attributes of a multicast group that was told of are read back as
/// its identifier and its name.
pub proof fn lemma_group_read_back(group: GroupEntry)
    requires
        tellable(group),
    ensures
        group_scan(group_attrs(group), GroupParts { id: None, name: None }) == Some(
            GroupParts { id: Some(group.id), name: Some(group.name) },
        ),
        group_attrs(group).len() <= MAX_ATTR_PAYLOAD,
{
    let id = attr_encoding(CTRL_ATTR_MCAST_GRP_ID as u16, le32(group.id));
    let none = GroupParts { id: None, name: None };
    let named = GroupParts { name: Some(group.name), ..none };
    let whole = GroupParts { id: Some(group.id), ..named };
    lemma_read_group_name(group.name, id, none);
    assert(id + Seq::<u8>::empty() =~= id);
    lemma_read_group_id(group.id, Seq::empty(), named);
    assert(group_scan(Seq::empty(), whole) == Some(whole));
    assert(group_attrs(group).len() <= MAX_ATTR_PAYLOAD) by {
        lemma_align_up(group.name.push(0u8).len());
        lemma_align_up(le32(group.id).len());
    }
}

/// A list of multicast groups that was told of is read back, behind the
/// groups that were read before it: every group with its name and its
/// identifier, in the order of the list, whatever the types of the records.
pub proof fn lemma_groups_read_back(
    groups: Seq<GroupEntry>,
    rest: Seq<u8>,
    found: Seq<(Seq<u8>, u32)>,
)
    requires
        forall|i: int| 0 <= i < groups.len() ==> tellable(#[trigger] groups[i]),
    ensures
        groups_scan(groups_encoding(groups) + rest, found) == groups_scan(
            rest,
            found + group_pairs(groups),
        ),
    decreases groups.len(),
{
    if groups.len() == 0 {
        assert(groups_encoding(groups) + rest =~= rest);
        assert(found + group_pairs(groups) =~= found);
    } else {
        let last = groups.last();
        let front = groups.drop_last();
        let entry = attr_encoding(last.entry_type, group_attrs(last));
        assert(tellable(groups[groups.len() - 1]));
        assert forall|i: int| 0 <= i < front.len() implies tellable(#[trigger] front[i]) by {
            assert(front[i] == groups[i]);
        }
        assert(groups_encoding(groups) + rest =~= groups_encoding(front) + (entry + rest));
        lemma_groups_read_back(front, entry + rest, found);
        lemma_group_read_back(last);
        lemma_attr_read_back(last.entry_type, group_attrs(last), rest);
        assert(groups_scan(entry + rest, found + group_pairs(front)) == groups_scan(
            rest,
            (found + group_pairs(front)).push((last.name, last.id)),
        ));
        assert((found + group_pairs(front)).push((last.name, last.id)) =~= found + group_pairs(
            groups,
        ));
    }
}

/// Reading the identifier of a family: wherever it stands among the
/// attributes of a reply, it is taken over, and the reading goes on behind
/// it.
pub proof fn lemma_read_family_id(family_id: u16, rest: Seq<u8>, info: FamilyInfoView)
    ensures
        family_scan(attr_encoding(CTRL_ATTR_FAMILY_ID as u16, le16(family_id)) + rest, info)
            == family_scan(rest, FamilyInfoView { family_id: Some(family_id), ..info }),
{
    lemma_attr_read_back(CTRL_ATTR_FAMILY_ID as u16, le16(family_id), rest);
    lemma_kind_read_back(CTRL_ATTR_FAMILY_ID as u16, (4 + le16(family_id).len()) as u16);
    lemma_int_round_trip(family_id, 0, 0);
}

/// Reading the multicast groups of a family: wherever their list stands
/// among the attributes of a reply, its groups are added to those read
/// before, and the reading goes on behind the list.
pub proof fn lemma_read_family_groups(groups: Seq<GroupEntry>, rest: Seq<u8>, info: FamilyInfoView)
    requires
        forall|i: int| 0 <= i < groups.len() ==> tellable(#[trigger] groups[i]),
        groups_encoding(groups).len() <= MAX_ATTR_PAYLOAD,
    ensures
        family_scan(
            attr_encoding(CTRL_ATTR_MCAST_GROUPS as u16, groups_encoding(groups)) + rest,
            info,
        ) == family_scan(
            rest,
            FamilyInfoView { mcast_groups: info.mcast_groups + group_pairs(groups), ..info },
        ),
{
    lemma_attr_read_back(CTRL_ATTR_MCAST_GROUPS as u16, groups_encoding(groups), rest);
    lemma_kind_read_back(
        CTRL_ATTR_MCAST_GROUPS as u16,
        (4 + groups_encoding(groups).len()) as u16,
    );
    lemma_groups_read_back(groups, Seq::empty(), info.mcast_groups);
    assert(groups_encoding(groups) + Seq::<u8>::empty() =~= groups_encoding(groups));
    assert(groups_scan(Seq::empty(), info.mcast_groups + group_pairs(groups)) == Some(
        info.mcast_groups + group_pairs(groups),
    ));
}

/// Reading any other attribute of a reply: it is passed over.
pub proof fn lemma_skip_family_attr(
    attr_type: u16,
    payload: Seq<u8>,
    rest: Seq<u8>,
    info: FamilyInfoView,
)
    requires
        payload.len() <= MAX_ATTR_PAYLOAD,
        attr_type < 0x4000,
        attr_type != CTRL_ATTR_FAMILY_ID,
        attr_type != CTRL_ATTR_MCAST_GROUPS,
    ensures
        family_scan(attr_encoding(attr_type, payload) + rest, info) == family_scan(rest, info),
{
    lemma_attr_read_back(attr_type, payload, rest);
    lemma_kind_read_back(attr_type, (4 + payload.len()) as u16);
}

/// Family resolution. A reply that names the family, gives its identifier
/// and lists its multicast groups is read as that identifier and those
/// groups, whatever the identifier and whatever groups there are.
pub proof fn lemma_family_read_back(name: Seq<u8>, family_id: u16, groups: Seq<GroupEntry>)
    requires
        name.len() <= MAX_ATTR_PAYLOAD,
        forall|i: int| 0 <= i < groups.len() ==> tellable(#[trigger] groups[i]),
        groups_encoding(groups).len() <= MAX_ATTR_PAYLOAD,
    ensures
        family_scan(
            attr_encoding(CTRL_ATTR_FAMILY_NAME as u16, name) + (attr_encoding(
                CTRL_ATTR_FAMILY_ID as u16,
                le16(family_id),
            ) + attr_encoding(CTRL_ATTR_MCAST_GROUPS as u16, groups_encoding(groups))),
            FamilyInfoView { family_id: None, mcast_groups: Seq::empty() },
        ) == Some(
            FamilyInfoView { family_id: Some(family_id), mcast_groups: group_pairs(groups) },
        ),
{
    let none = FamilyInfoView { family_id: None, mcast_groups: Seq::empty() };
    let known = FamilyInfoView { family_id: Some(family_id), ..none };
    let id = attr_encoding(CTRL_ATTR_FAMILY_ID as u16, le16(family_id));
    let list = attr_encoding(CTRL_ATTR_MCAST_GROUPS as u16, groups_encoding(groups));
    lemma_skip_family_attr(CTRL_ATTR_FAMILY_NAME as u16, name, id + list, none);
    lemma_read_family_id(family_id, list, none);
    assert(list + Seq::<u8>::empty() =~= list);
    lemma_read_family_groups(groups, Seq::empty(), known);
    assert(known.mcast_groups + group_pairs(groups) =~= group_pairs(groups));
}

} // verus!
