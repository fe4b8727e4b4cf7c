use wireguard_uapi::netlink::bindings::{
    genlmsghdr, ifinfomsg, nl_align_length, nl_size_of_aligned, nlattr, nlmsghdr, sockaddr_in,
    sockaddr_in6, NLA_F_NESTED, NLA_F_NET_BYTEORDER, NLMSG_DONE, NLMSG_ERROR, NLM_F_ACK,
    NLM_F_DUMP, NLM_F_DUMP_INTR, NLM_F_MULTI, NLM_F_REQUEST, RTM_DELLINK, RTM_NEWLINK,
};
use wireguard_uapi::netlink::recv::{CString, FromAttr, NetlinkType, PartStep};
use wireguard_uapi::netlink::send::ReprC;
use wireguard_uapi::netlink::{
    AttributeIterator, AttributeType, Error, MsgBuffer, MsgBuilder, NlSerializer, SubHeader,
    MAX_NL_MSG_SIZE,
};

fn pad(mut bytes: Vec<u8>) -> Vec<u8> {
    while bytes.len() % 4 != 0 {
        bytes.push(0);
    }
    bytes
}

fn raw_attr(attr_type: u16, payload: &[u8]) -> Vec<u8> {
    let mut out = Vec::new();
    out.extend_from_slice(&((payload.len() + 4) as u16).to_le_bytes());
    out.extend_from_slice(&attr_type.to_le_bytes());
    out.extend_from_slice(payload);
    pad(out)
}

fn raw_msg(msg_type: u16, flags: u16, seq: u32, body: &[u8]) -> Vec<u8> {
    let mut out = Vec::new();
    out.extend_from_slice(&((body.len() + 16) as u32).to_le_bytes());
    out.extend_from_slice(&msg_type.to_le_bytes());
    out.extend_from_slice(&flags.to_le_bytes());
    out.extend_from_slice(&seq.to_le_bytes());
    out.extend_from_slice(&0u32.to_le_bytes());
    out.extend_from_slice(body);
    out
}

fn generic_body(cmd: u8, attrs: &[u8]) -> Vec<u8> {
    let mut out = vec![cmd, 1, 0, 0];
    out.extend_from_slice(attrs);
    out
}

fn filled(kind: NetlinkType, datagram: &[u8]) -> MsgBuffer {
    let mut buffer = MsgBuffer::new(kind);
    buffer.refill(datagram);
    buffer
}

fn walk(mut it: AttributeIterator<'_>) -> Vec<(AttributeType, Vec<u8>)> {
    let mut out = Vec::new();
    loop {
        assert!(!it.is_malformed());
        match it.next() {
            Some(a) => out.push((a.attribute_type, a.get_bytes().unwrap().to_vec())),
            None => return out,
        }
    }
}

#[test]
fn align_rounds_up_to_four() {
    assert_eq!(nl_align_length(0), 0);
    assert_eq!(nl_align_length(1), 4);
    assert_eq!(nl_align_length(2), 4);
    assert_eq!(nl_align_length(3), 4);
    assert_eq!(nl_align_length(4), 4);
    assert_eq!(nl_align_length(5), 8);
    assert_eq!(nl_align_length(1021), 1024);
    assert_eq!(nl_align_length(1024), 1024);
}

#[test]
fn aligned_sizes_of_the_layouts() {
    assert_eq!(nl_size_of_aligned::<nlattr>(), 4);
    assert_eq!(nl_size_of_aligned::<genlmsghdr>(), 4);
    assert_eq!(nl_size_of_aligned::<nlmsghdr>(), 16);
    assert_eq!(nl_size_of_aligned::<ifinfomsg>(), 16);
    assert_eq!(nl_size_of_aligned::<sockaddr_in>(), 16);
    assert_eq!(nl_size_of_aligned::<sockaddr_in6>(), 28);
}

#[test]
fn attribute_header_bits() {
    let plain = nlattr { nla_len: 8, nla_type: 5 };
    assert!(!plain.is_nested());
    assert_eq!(plain.payload_type(), 5);
    assert_eq!(plain.payload_length(), 4);
    let nested = nlattr { nla_len: 4, nla_type: 9 | NLA_F_NESTED };
    assert!(nested.is_nested());
    assert_eq!(nested.payload_type(), 9);
    assert_eq!(nested.payload_length(), 0);
    let network = nlattr { nla_len: 6, nla_type: 3 | NLA_F_NET_BYTEORDER };
    assert!(!network.is_nested());
    assert_eq!(network.payload_type(), 3);
    assert_eq!(network.payload_length(), 2);
    let both = nlattr { nla_len: 4, nla_type: 0xffff };
    assert!(both.is_nested());
    assert_eq!(both.payload_type(), 0x3fff);
}

#[test]
fn request_header_defaults() {
    let header = nlmsghdr::new(0x23, 7);
    assert_eq!(header.nlmsg_len, 0);
    assert_eq!(header.nlmsg_type, 0x23);
    assert_eq!(header.nlmsg_flags, NLM_F_REQUEST | NLM_F_ACK);
    assert_eq!(header.nlmsg_flags, 5);
    assert_eq!(header.nlmsg_seq, 7);
    assert_eq!(header.nlmsg_pid, 0);
}

#[test]
fn layouts_store_and_load() {
    let header = nlmsghdr {
        nlmsg_len: 0x01020304,
        nlmsg_type: 0x0506,
        nlmsg_flags: 0x0708,
        nlmsg_seq: 0x090a0b0c,
        nlmsg_pid: 0x0d0e0f10,
    };
    let mut out = [0xffu8; 20];
    header.store(&mut out, 2);
    assert_eq!(
        out,
        [0xff, 0xff, 4, 3, 2, 1, 6, 5, 8, 7, 0x0c, 0x0b, 0x0a, 9, 0x10, 0x0f, 0x0e, 0x0d, 0xff, 0xff]
    );
    assert_eq!(nlmsghdr::load(&out, 2), header);

    let info = ifinfomsg {
        ifi_family: 1,
        __ifi_pad: 2,
        ifi_type: 0x0304,
        ifi_index: -2,
        ifi_flags: 0x11223344,
        ifi_change: 0xffff_ffff,
    };
    let mut out = [0u8; 16];
    info.store(&mut out, 0);
    assert_eq!(
        out,
        [1, 2, 4, 3, 0xfe, 0xff, 0xff, 0xff, 0x44, 0x33, 0x22, 0x11, 0xff, 0xff, 0xff, 0xff]
    );
    assert_eq!(ifinfomsg::load(&out, 0), info);

    let gen = genlmsghdr { cmd: 3, version: 1, reserved: 0x0201 };
    let mut out = [0u8; 4];
    gen.store(&mut out, 0);
    assert_eq!(out, [3, 1, 1, 2]);
    assert_eq!(genlmsghdr::load(&out, 0), gen);
}

#[test]
fn fixed_width_payloads_are_little_endian() {
    let mut msg = MsgBuilder::new(0x23, 1)
        .attr(1, 0xabu8)
        .attr(2, 0x1234u16)
        .attr(3, 0xdeadbeefu32)
        .attr(4, ());
    msg.finalize();
    let bytes = msg.as_bytes();
    assert_eq!(bytes.len(), 16 + 8 + 8 + 8 + 4);
    assert_eq!(&bytes[16..24], &[5, 0, 1, 0, 0xab, 0, 0, 0]);
    assert_eq!(&bytes[24..32], &[6, 0, 2, 0, 0x34, 0x12, 0, 0]);
    assert_eq!(&bytes[32..40], &[8, 0, 3, 0, 0xef, 0xbe, 0xad, 0xde]);
    assert_eq!(&bytes[40..44], &[4, 0, 4, 0]);
}

#[test]
fn byte_payloads_are_padded_but_not_counted() {
    let mut msg = MsgBuilder::new(0x10, 1).attr_bytes(2, b"wireguard\0");
    msg.finalize();
    let bytes = msg.as_bytes();
    assert_eq!(bytes.len(), 16 + 4 + 12);
    assert_eq!(&bytes[16..20], &[14, 0, 2, 0]);
    assert_eq!(&bytes[20..30], b"wireguard\0");
    assert_eq!(&bytes[30..32], &[0, 0]);
}

#[test]
fn finalize_writes_the_main_header() {
    let mut msg = MsgBuilder::new(0x23, 0x01020304).generic(1).dump().attr(1, 21u32);
    assert_eq!(msg.pos, 28);
    msg.finalize();
    let bytes = msg.as_bytes();
    let expected = raw_msg(
        0x23,
        NLM_F_REQUEST | NLM_F_ACK | NLM_F_DUMP,
        0x01020304,
        &generic_body(1, &raw_attr(1, &21u32.to_le_bytes())),
    );
    assert_eq!(bytes, expected.as_slice());
    assert_eq!(&bytes[0..4], &[28, 0, 0, 0]);
    assert_eq!(&bytes[6..8], &[0x05, 0x03]);
}

#[test]
fn empty_nest_is_a_header_alone() {
    let mut msg = MsgBuilder::new(0x23, 1).attr_list_start(8).attr_list_end();
    assert_eq!(msg.pos, 20);
    msg.finalize();
    assert_eq!(&msg.as_bytes()[16..20], &[4, 0, 8, 0x80]);
}

#[test]
fn nests_are_patched_on_closure() {
    let mut msg = MsgBuilder::new(0x23, 1)
        .attr_list_start(8)
        .attr_list_start(0)
        .attr(1, 7u8)
        .attr_list_end()
        .attr_list_start(0)
        .attr_list_end()
        .attr_list_end()
        .attr(2, 9u16);
    msg.finalize();
    let bytes = msg.as_bytes();
    assert_eq!(&bytes[16..20], &[20, 0, 8, 0x80]);
    assert_eq!(&bytes[20..24], &[12, 0, 0, 0x80]);
    assert_eq!(&bytes[24..32], &[5, 0, 1, 0, 7, 0, 0, 0]);
    assert_eq!(&bytes[32..36], &[4, 0, 0, 0x80]);
    assert_eq!(&bytes[36..44], &[6, 0, 2, 0, 9, 0, 0, 0]);
    assert_eq!(bytes.len(), 44);
}

#[test]
fn attributes_round_trip_through_builder_and_parser() {
    let lengths = [0usize, 1, 2, 3, 4, 5, 7, 8, 31, 32, 33, 100, 255, 256, 1024];
    let mut start = 0;
    while start < lengths.len() {
        let mut builder = MsgBuilder::new(0x23, 1).generic(0);
        let mut expected = Vec::new();
        let mut index = start;
        while index < lengths.len() {
            let len = lengths[index];
            if builder.pos + 4 + nl_align_length(len) > MAX_NL_MSG_SIZE {
                break;
            }
            let payload: Vec<u8> = (0..len).map(|i| (i * 7 + index) as u8).collect();
            let attr_type = (index as u16 * 37 + 1) & 0x3fff;
            builder = builder.attr_bytes(attr_type, &payload);
            expected.push((AttributeType::Raw(attr_type as u32), payload));
            index += 1;
        }
        assert!(index > start);
        builder.finalize();
        let buffer = filled(NetlinkType::Generic(0x23), builder.as_bytes());
        let mut it = buffer.recv_msgs();
        assert!(!it.at_bare_done());
        match it.next() {
            PartStep::Part(part) => assert_eq!(walk(part.attributes()), expected),
            _ => panic!("a message was expected"),
        }
        start = index;
    }
}

#[test]
fn next_attribute_starts_after_the_padding() {
    let mut attrs = raw_attr(1, &[1, 2, 3, 4, 5]);
    attrs.extend_from_slice(&raw_attr(2, &[9]));
    let datagram = raw_msg(0x23, 0, 1, &generic_body(0, &attrs));
    let buffer = filled(NetlinkType::Generic(0x23), &datagram);
    let mut it = buffer.recv_msgs();
    let part = match it.next() {
        PartStep::Part(part) => part,
        _ => panic!("a message was expected"),
    };
    let mut attrs = part.attributes();
    assert_eq!(attrs.remaining_len(), 20);
    let first = attrs.next().unwrap();
    assert_eq!(first.attribute_type, AttributeType::Raw(1));
    assert_eq!(first.get_bytes().unwrap(), &[1, 2, 3, 4, 5]);
    assert_eq!(attrs.remaining_len(), 8);
    let second = attrs.next().unwrap();
    assert_eq!(second.attribute_type, AttributeType::Raw(2));
    assert_eq!(second.get_bytes().unwrap(), &[9]);
    assert_eq!(attrs.remaining_len(), 0);
    assert!(attrs.next().is_none());
}

#[test]
fn nested_attributes_stay_within_their_parent() {
    let mut inner = raw_attr(1, &[0xaa]);
    inner.extend_from_slice(&raw_attr(2, &[0xbb, 0xcc]));
    let mut attrs = raw_attr(8 | NLA_F_NESTED, &inner);
    attrs.extend_from_slice(&raw_attr(3, &[0xdd]));
    let datagram = raw_msg(0x23, 0, 1, &generic_body(0, &attrs));
    let buffer = filled(NetlinkType::Generic(0x23), &datagram);
    let mut it = buffer.recv_msgs();
    let part = match it.next() {
        PartStep::Part(part) => part,
        _ => panic!("a message was expected"),
    };
    let mut attrs = part.attributes();
    let nest = attrs.next().unwrap();
    assert_eq!(nest.attribute_type, AttributeType::Nested(8));
    assert_eq!(
        walk(nest.attributes()),
        vec![(AttributeType::Raw(1), vec![0xaa]), (AttributeType::Raw(2), vec![0xbb, 0xcc])]
    );
    let plain = attrs.next().unwrap();
    assert_eq!(plain.attribute_type, AttributeType::Raw(3));
    assert_eq!(walk(plain.attributes()), vec![]);
    assert_eq!(
        plain.make_nested().attribute_type,
        AttributeType::Nested(3)
    );
    assert_eq!(nest.make_nested().attribute_type, AttributeType::Nested(8));
    assert_eq!(nest.make_nested().get_bytes().unwrap(), inner.as_slice());
}

#[test]
fn collected_attributes_are_those_that_were_written() {
    let items: Vec<(u16, Vec<u8>)> = vec![
        (1, vec![]),
        (2, vec![7]),
        (0x3fff, vec![1, 2, 3, 4]),
        (3, (0..1024u32).map(|i| i as u8).collect()),
        (4, vec![9, 9, 9, 9, 9]),
        (1, vec![0; 31]),
    ];
    let mut builder = MsgBuilder::new(0x23, 1).generic(0);
    for (attr_type, payload) in &items {
        assert!(builder.pos + 4 + nl_align_length(payload.len()) <= MAX_NL_MSG_SIZE);
        builder = builder.attr_bytes(*attr_type, payload);
    }
    builder.finalize();
    let buffer = filled(NetlinkType::Generic(0x23), builder.as_bytes());
    let part = match buffer.recv_msgs().next() {
        PartStep::Part(part) => part,
        _ => panic!("a message was expected"),
    };
    let found = part.attributes().collect().unwrap();
    assert_eq!(found.len(), items.len());
    for (attr, (attr_type, payload)) in found.iter().zip(&items) {
        assert_eq!(attr.attribute_type, AttributeType::Raw(*attr_type as u32));
        assert_eq!(attr.get_bytes().unwrap(), payload.as_slice());
    }
    // a nest is one attribute of its list, and its children are a list of their own
    let mut msg = MsgBuilder::new(0x23, 1)
        .generic(0)
        .attr_list_start(8)
        .attr(1, 7u8)
        .attr(2, 9u16)
        .attr_list_end()
        .attr(3, 1u32);
    msg.finalize();
    let buffer = filled(NetlinkType::Generic(0x23), msg.as_bytes());
    let part = match buffer.recv_msgs().next() {
        PartStep::Part(part) => part,
        _ => panic!("a message was expected"),
    };
    let found = part.attributes().collect().unwrap();
    assert_eq!(found.len(), 2);
    assert_eq!(found[0].attribute_type, AttributeType::Nested(8));
    assert_eq!(found[1].attribute_type, AttributeType::Raw(3));
    assert_eq!(found[0].attributes().collect().unwrap().len(), 2);
    assert_eq!(found[1].attributes().collect().unwrap().len(), 0);
}

#[test]
fn a_broken_record_spoils_the_collection() {
    let mut attrs = raw_attr(1, &[1, 2, 3, 4]);
    attrs.extend_from_slice(&[12, 0, 2, 0, 1, 2, 3, 4]);
    let datagram = raw_msg(0x23, 0, 1, &generic_body(0, &attrs));
    let buffer = filled(NetlinkType::Generic(0x23), &datagram);
    let part = match buffer.recv_msgs().next() {
        PartStep::Part(part) => part,
        _ => panic!("a message was expected"),
    };
    assert!(part.attributes().collect().is_none());
    // what is left behind the last record is less than a header: the list is whole
    let mut attrs = raw_attr(1, &[1, 2, 3, 4]);
    attrs.extend_from_slice(&[9, 0, 2]);
    let datagram = raw_msg(0x23, 0, 1, &generic_body(0, &attrs));
    let buffer = filled(NetlinkType::Generic(0x23), &datagram);
    let part = match buffer.recv_msgs().next() {
        PartStep::Part(part) => part,
        _ => panic!("a message was expected"),
    };
    assert_eq!(part.attributes().collect().unwrap().len(), 1);
}

#[test]
fn malformed_attributes_are_detected() {
    // declares twelve bytes where eight are left
    let attrs = vec![12u8, 0, 1, 0, 1, 2, 3, 4];
    let datagram = raw_msg(0x23, 0, 1, &generic_body(0, &attrs));
    let buffer = filled(NetlinkType::Generic(0x23), &datagram);
    let part = match buffer.recv_msgs().next() {
        PartStep::Part(part) => part,
        _ => panic!("a message was expected"),
    };
    assert!(part.attributes().is_malformed());

    // declares less than its own header
    let attrs = vec![3u8, 0, 1, 0];
    let datagram = raw_msg(0x23, 0, 1, &generic_body(0, &attrs));
    let buffer = filled(NetlinkType::Generic(0x23), &datagram);
    let part = match buffer.recv_msgs().next() {
        PartStep::Part(part) => part,
        _ => panic!("a message was expected"),
    };
    assert!(part.attributes().is_malformed());

    // the padding of the last record is missing
    let attrs = vec![5u8, 0, 1, 0, 9];
    let datagram = raw_msg(0x23, 0, 1, &generic_body(0, &attrs));
    let buffer = filled(NetlinkType::Generic(0x23), &datagram);
    let part = match buffer.recv_msgs().next() {
        PartStep::Part(part) => part,
        _ => panic!("a message was expected"),
    };
    assert!(part.attributes().is_malformed());

    // less than a header is left: the walk is over, and nothing is wrong
    let attrs = vec![5u8, 0, 1];
    let datagram = raw_msg(0x23, 0, 1, &generic_body(0, &attrs));
    let buffer = filled(NetlinkType::Generic(0x23), &datagram);
    let part = match buffer.recv_msgs().next() {
        PartStep::Part(part) => part,
        _ => panic!("a message was expected"),
    };
    let mut it = part.attributes();
    assert!(!it.is_malformed());
    assert!(it.next().is_none());
}

#[test]
fn payloads_decode_by_width() {
    assert_eq!(u32::from_attr(&[0x78, 0x56, 0x34, 0x12]), Some(0x12345678));
    assert_eq!(u32::from_attr(&[0x78, 0x56, 0x34, 0x12, 0xff]), Some(0x12345678));
    assert_eq!(u32::from_attr(&[0x78, 0x56, 0x34]), None);
    assert_eq!(i32::from_attr(&[0xfe, 0xff, 0xff, 0xff]), Some(-2));
    assert_eq!(i32::from_attr(&[0, 0, 0, 0x80]), Some(i32::MIN));
    assert_eq!(i32::from_attr(&[0xff, 0xff, 0xff, 0x7f]), Some(i32::MAX));
    assert_eq!(i32::from_attr(&[1]), None);
    assert_eq!(u16::from_attr(&[0x34, 0x12]), Some(0x1234));
    assert_eq!(u16::from_attr(&[0x34]), None);
    assert_eq!(u8::from_attr(&[0x34]), Some(0x34));
    assert_eq!(u8::from_attr(&[]), None);
}

#[test]
fn strings_end_in_their_only_nul() {
    assert_eq!(CString::from_bytes_with_nul(b"wg0\0").unwrap().as_bytes(), b"wg0");
    assert_eq!(CString::from_bytes_with_nul(b"\0").unwrap().as_bytes(), b"");
    assert!(CString::from_bytes_with_nul(b"").is_none());
    assert!(CString::from_bytes_with_nul(b"wg0").is_none());
    assert!(CString::from_bytes_with_nul(b"w\0g0\0").is_none());
    assert!(CString::from_bytes_with_nul(b"wg0\0\0").is_none());
    assert_eq!(CString::from_attr(b"peers\0").unwrap().as_bytes(), b"peers");
    assert!(CString::from_attr(b"peers").is_none());
}

#[test]
fn dump_of_two_parts_ends_after_two_items() {
    let mut datagram = raw_msg(0x23, NLM_F_MULTI, 5, &generic_body(0, &raw_attr(1, &[1, 0, 0, 0])));
    datagram.extend_from_slice(&raw_msg(
        0x23,
        NLM_F_MULTI,
        5,
        &generic_body(0, &raw_attr(1, &[2, 0, 0, 0])),
    ));
    datagram.extend_from_slice(&raw_msg(NLMSG_DONE, NLM_F_MULTI, 5, &[0, 0, 0, 0]));
    let buffer = filled(NetlinkType::Generic(0x23), &datagram);
    let mut it = buffer.recv_msgs();
    let mut seen = Vec::new();
    loop {
        assert!(!it.at_bare_done());
        match it.next() {
            PartStep::Part(part) => {
                assert_eq!(part.header.nlmsg_seq, 5);
                assert_eq!(part.sub_header, SubHeader::Generic(genlmsghdr { cmd: 0, version: 1, reserved: 0 }));
                seen.push(walk(part.attributes()));
            },
            PartStep::End => break,
            _ => panic!("unexpected step"),
        }
    }
    assert_eq!(
        seen,
        vec![
            vec![(AttributeType::Raw(1), vec![1, 0, 0, 0])],
            vec![(AttributeType::Raw(1), vec![2, 0, 0, 0])],
        ]
    );
    assert_eq!(it.position_now(), datagram.len());
    assert!(matches!(it.next(), PartStep::Refill));
}

#[test]
fn kernel_error_is_surfaced_once() {
    // the error with the request echoed behind it
    let mut body = (-2i32).to_le_bytes().to_vec();
    body.extend_from_slice(&raw_msg(0x23, 5, 9, &[])[..16]);
    let datagram = raw_msg(NLMSG_ERROR, 0, 9, &body);
    let buffer = filled(NetlinkType::Generic(0x23), &datagram);
    let mut it = buffer.recv_msgs();
    assert!(!it.stopped());
    match it.next() {
        PartStep::Failed(Error::OsError(code)) => assert_eq!(code, nix::errno::Errno::ENOENT),
        _ => panic!("an error was expected"),
    }
    // the error is the only item: the iteration is over, and nothing more is asked for
    assert!(it.stopped());
    assert_eq!(it.position_now(), 36);
    assert!(!it.at_bare_done());
    assert!(matches!(it.next(), PartStep::End));
    assert!(matches!(it.next(), PartStep::End));
    assert_eq!(it.position_now(), 36);

    // the error alone
    let datagram = raw_msg(NLMSG_ERROR, 0, 9, &(-2i32).to_le_bytes());
    let buffer = filled(NetlinkType::Generic(0x23), &datagram);
    let mut it = buffer.recv_msgs();
    match it.next() {
        PartStep::Failed(Error::OsError(code)) => assert_eq!(code, nix::errno::Errno::ENOENT),
        _ => panic!("an error was expected"),
    }
    assert!(matches!(it.next(), PartStep::End));
    assert_eq!(it.position_now(), 20);

    // a new iterator over the same datagram starts afresh
    let mut again = buffer.recv_msgs();
    assert!(!again.stopped());
    assert!(matches!(again.next(), PartStep::Failed(Error::OsError(_))));
}

#[test]
fn nothing_behind_a_kernel_error_is_looked_at() {
    // a message, the end of a dump that was never announced, and more behind the error
    let mut datagram = raw_msg(NLMSG_ERROR, 0, 9, &(-1i32).to_le_bytes());
    datagram.extend_from_slice(&raw_msg(NLMSG_DONE, 0, 9, &[0, 0, 0, 0]));
    datagram.extend_from_slice(&raw_msg(0x23, 0, 9, &generic_body(0, &[])));
    let buffer = filled(NetlinkType::Generic(0x23), &datagram);
    let mut it = buffer.recv_msgs();
    assert!(matches!(
        it.next(),
        PartStep::Failed(Error::OsError(nix::errno::Errno::EPERM))
    ));
    assert!(!it.at_bare_done());
    assert!(matches!(it.next(), PartStep::End));
    assert_eq!(it.position_now(), 20);

    // other failures do not stop the iterator: the next message is looked at
    let mut datagram = raw_msg(0x24, 0, 9, &generic_body(0, &[]));
    datagram.extend_from_slice(&raw_msg(0x23, 0, 9, &generic_body(0, &[])));
    let buffer = filled(NetlinkType::Generic(0x23), &datagram);
    let mut it = buffer.recv_msgs();
    assert!(matches!(it.next(), PartStep::Failed(Error::Other(_))));
    assert!(!it.stopped());
    assert!(matches!(it.next(), PartStep::Part(_)));
    assert!(matches!(it.next(), PartStep::Refill));
}

#[test]
fn views_give_their_offsets() {
    let mut inner = raw_attr(1, &[0xaa]);
    inner.extend_from_slice(&raw_attr(2, &[0xbb, 0xcc]));
    let mut attrs = raw_attr(1, &[1, 2, 3, 4, 5]);
    attrs.extend_from_slice(&raw_attr(8 | NLA_F_NESTED, &inner));
    let mut datagram = raw_msg(0x23, 0, 1, &generic_body(0, &[]));
    datagram.extend_from_slice(&raw_msg(0x23, 0, 1, &generic_body(0, &attrs)));
    let buffer = filled(NetlinkType::Generic(0x23), &datagram);
    let mut it = buffer.recv_msgs();
    match it.next() {
        PartStep::Part(part) => {
            assert_eq!((part.attributes_start, part.attributes_end), (20, 20));
        },
        _ => panic!("a message was expected"),
    }
    let part = match it.next() {
        PartStep::Part(part) => part,
        _ => panic!("a message was expected"),
    };
    assert_eq!((part.attributes_start, part.attributes_end), (40, 40 + attrs.len()));
    let mut list = part.attributes();
    let first = list.next().unwrap();
    assert_eq!((first.payload_start, first.payload_end), (44, 49));
    let nest = list.next().unwrap();
    assert_eq!((nest.payload_start, nest.payload_end), (56, 72));
    assert_eq!(&datagram[nest.payload_start..nest.payload_end], inner.as_slice());
    let turned = first.make_nested();
    assert_eq!((turned.payload_start, turned.payload_end), (44, 49));
    let mut children = nest.attributes();
    let child = children.next().unwrap();
    assert_eq!((child.payload_start, child.payload_end), (60, 61));
    let child = children.next().unwrap();
    assert_eq!((child.payload_start, child.payload_end), (68, 70));
    assert!(children.next().is_none());
}

#[test]
fn acknowledgement_yields_nothing() {
    let mut body = 0i32.to_le_bytes().to_vec();
    body.extend_from_slice(&raw_msg(0x23, 5, 9, &[])[..16]);
    let datagram = raw_msg(NLMSG_ERROR, 0, 9, &body);
    let buffer = filled(NetlinkType::Generic(0x23), &datagram);
    let mut it = buffer.recv_msgs();
    assert!(matches!(it.next(), PartStep::End));
    assert_eq!(it.position_now(), 36);
    assert!(matches!(it.next(), PartStep::Refill));

    // capped: the request is not echoed
    let datagram = raw_msg(NLMSG_ERROR, 0x100, 9, &0i32.to_le_bytes());
    let buffer = filled(NetlinkType::Generic(0x23), &datagram);
    let mut it = buffer.recv_msgs();
    assert!(matches!(it.next(), PartStep::End));
    assert_eq!(it.position_now(), 20);
    assert!(matches!(it.next(), PartStep::Refill));
}

#[test]
fn empty_buffer_asks_for_a_datagram() {
    let buffer = MsgBuffer::new(NetlinkType::Route);
    assert_eq!(buffer.size(), 0);
    let mut it = buffer.recv_msgs();
    assert!(matches!(it.next(), PartStep::Refill));
    assert!(matches!(it.next(), PartStep::Refill));
    assert_eq!(it.position_now(), 0);
}

#[test]
fn second_truncation_is_an_error() {
    let buffer = filled(NetlinkType::Route, &[]);
    assert!(matches!(buffer.recv_msgs().next(), PartStep::Failed(Error::Truncated)));
    let buffer = filled(NetlinkType::Route, &[16, 0, 0, 0, 3, 0, 2, 0, 0, 0, 0, 0, 0, 0, 0]);
    assert!(matches!(buffer.recv_msgs().next(), PartStep::Failed(Error::Truncated)));
}

#[test]
fn declared_length_beyond_the_datagram_is_truncated() {
    let mut datagram = raw_msg(0x23, 0, 1, &generic_body(0, &[]));
    datagram[0] = 24;
    let buffer = filled(NetlinkType::Generic(0x23), &datagram);
    let mut it = buffer.recv_msgs();
    assert!(matches!(it.next(), PartStep::Failed(Error::Truncated)));
    assert_eq!(it.position_now(), datagram.len());
    assert!(matches!(it.next(), PartStep::Refill));

    let mut datagram = raw_msg(0x23, 0, 1, &generic_body(0, &[]));
    datagram[0] = 12;
    let buffer = filled(NetlinkType::Generic(0x23), &datagram);
    let mut it = buffer.recv_msgs();
    assert!(matches!(it.next(), PartStep::Failed(Error::Truncated)));
    assert_eq!(it.position_now(), datagram.len());
}

#[test]
fn missing_sub_header_is_truncated() {
    let datagram = raw_msg(0x23, 0, 1, &[1, 1]);
    let buffer = filled(NetlinkType::Generic(0x23), &datagram);
    assert!(matches!(buffer.recv_msgs().next(), PartStep::Failed(Error::Truncated)));
    let datagram = raw_msg(RTM_NEWLINK as u16, 0, 1, &[0; 12]);
    let buffer = filled(NetlinkType::Route, &datagram);
    assert!(matches!(buffer.recv_msgs().next(), PartStep::Failed(Error::Truncated)));
    let datagram = raw_msg(NLMSG_ERROR, 0, 1, &[0xfe, 0xff]);
    let buffer = filled(NetlinkType::Route, &datagram);
    assert!(matches!(buffer.recv_msgs().next(), PartStep::Failed(Error::Truncated)));
}

#[test]
fn interrupted_dump_is_surfaced() {
    let datagram = raw_msg(0x23, NLM_F_MULTI | NLM_F_DUMP_INTR, 1, &generic_body(0, &[]));
    let buffer = filled(NetlinkType::Generic(0x23), &datagram);
    let mut it = buffer.recv_msgs();
    assert!(matches!(it.next(), PartStep::Failed(Error::Interrupted)));
    assert_eq!(it.position_now(), datagram.len());
}

#[test]
fn foreign_message_type_is_a_protocol_error() {
    let datagram = raw_msg(0x24, 0, 1, &generic_body(0, &[]));
    let buffer = filled(NetlinkType::Generic(0x23), &datagram);
    let mut it = buffer.recv_msgs();
    match it.next() {
        PartStep::Failed(Error::Other(hint)) => {
            assert_eq!(hint, "unsupported netlink family or message type")
        },
        _ => panic!("an error was expected"),
    }
    assert_eq!(it.position_now(), datagram.len());

    let datagram = raw_msg(RTM_NEWLINK as u16, 0, 1, &[0; 16]);
    let buffer = filled(NetlinkType::Generic(0x23), &datagram);
    assert!(matches!(buffer.recv_msgs().next(), PartStep::Failed(Error::Other(_))));
    let datagram = raw_msg(0x23, 0, 1, &[0; 16]);
    let buffer = filled(NetlinkType::Route, &datagram);
    assert!(matches!(buffer.recv_msgs().next(), PartStep::Failed(Error::Other(_))));
}

#[test]
fn route_messages_carry_the_link_header() {
    let info = ifinfomsg {
        ifi_family: 0,
        __ifi_pad: 0,
        ifi_type: 65534,
        ifi_index: 21,
        ifi_flags: 0x41,
        ifi_change: 0,
    };
    let mut body = [0u8; 16];
    info.store(&mut body, 0);
    let mut datagram = raw_msg(RTM_NEWLINK as u16, 0, 1, &body);
    datagram.extend_from_slice(&raw_msg(RTM_DELLINK as u16, 0, 1, &body));
    let buffer = filled(NetlinkType::Route, &datagram);
    let mut it = buffer.recv_msgs();
    match it.next() {
        PartStep::Part(part) => {
            assert_eq!(part.header.nlmsg_type as u32, RTM_NEWLINK);
            assert_eq!(part.sub_header, SubHeader::RouteIfinfo(info));
            assert_eq!(part.attributes().remaining_len(), 0);
        },
        _ => panic!("a message was expected"),
    }
    match it.next() {
        PartStep::Part(part) => {
            assert_eq!(part.header.nlmsg_type as u32, RTM_DELLINK);
            assert_eq!(part.sub_header, SubHeader::RouteIfinfo(info));
        },
        _ => panic!("a message was expected"),
    }
    assert!(matches!(it.next(), PartStep::Refill));
}

#[test]
fn done_without_multi_flag_is_found_before_the_step() {
    let datagram = raw_msg(NLMSG_DONE, 0, 1, &[0, 0, 0, 0]);
    let buffer = filled(NetlinkType::Route, &datagram);
    assert!(buffer.recv_msgs().at_bare_done());
    let datagram = raw_msg(NLMSG_DONE, NLM_F_MULTI, 1, &[0, 0, 0, 0]);
    let buffer = filled(NetlinkType::Route, &datagram);
    let mut it = buffer.recv_msgs();
    assert!(!it.at_bare_done());
    assert!(matches!(it.next(), PartStep::End));
    assert!(!it.at_bare_done());
}

#[test]
fn refill_cuts_off_what_exceeds_the_buffer() {
    let mut buffer = MsgBuffer::new(NetlinkType::Route);
    let big = vec![7u8; 5000];
    buffer.refill(&big);
    assert_eq!(buffer.size(), 4096);
    assert_eq!(buffer.bytes(), &big[..4096]);
    buffer.refill(&[1, 2, 3]);
    assert_eq!(buffer.size(), 3);
    assert_eq!(buffer.bytes(), &[1, 2, 3]);
}

#[test]
fn errors_from_codes() {
    assert!(matches!(Error::from(-2), Error::OsError(nix::errno::Errno::ENOENT)));
    assert!(matches!(Error::from(2), Error::OsError(nix::errno::Errno::ENOENT)));
    assert!(matches!(Error::from(-13), Error::OsError(nix::errno::Errno::EACCES)));
    assert!(matches!(Error::from(i32::MIN), Error::OsError(nix::errno::Errno::UnknownErrno)));
    assert!(matches!(
        Error::from(nix::errno::Errno::EAGAIN),
        Error::OsError(nix::errno::Errno::EAGAIN)
    ));
    assert!(matches!(
        Error::from_io(std::io::Error::from_raw_os_error(11)),
        Error::OsError(nix::errno::Errno::EAGAIN)
    ));
    assert!(matches!(
        Error::from_io(std::io::Error::new(std::io::ErrorKind::Other, "no code")),
        Error::IoError(_)
    ));
    assert!(matches!(
        Error::from_os_code(Some(2), std::io::Error::new(std::io::ErrorKind::Other, "x")),
        Error::OsError(nix::errno::Errno::ENOENT)
    ));
    assert!(matches!(
        Error::from_os_code(None, std::io::Error::new(std::io::ErrorKind::Other, "x")),
        Error::IoError(_)
    ));
    assert!(matches!(
        Error::from(std::io::Error::from_raw_os_error(2)),
        Error::OsError(nix::errno::Errno::ENOENT)
    ));
    match Error::from(std::io::Error::new(std::io::ErrorKind::Other, "no code")) {
        Error::IoError(inner) => assert_eq!(inner.to_string(), "no code"),
        _ => panic!("the failure itself was expected"),
    }
}
