use wireguard_uapi::netlink::bindings::{sockaddr_in, sockaddr_in6, AF_INET, AF_INET6, NLA_F_NESTED};
use wireguard_uapi::netlink::recv::{NetlinkType, PartStep};
use wireguard_uapi::netlink::{
    Attribute, AttributeIterator, AttributeType, MsgBuffer, MsgBuilder, NlSerializer,
    MAX_NL_MSG_SIZE,
};
use wireguard_uapi::wireguard::{parse_allowed_ip, parse_endpoint, IpAddr, Peer, WireguardDev};

fn pad(mut bytes: Vec<u8>) -> Vec<u8> {
    while bytes.len() % 4 != 0 {
        bytes.push(0);
    }
    bytes
}

fn raw_attr(attr_type: u16, payload: &[u8]) -> Vec<u8> {
    let mut out = Vec::new();
    out.extend_from_slice(&((payload.len() + 4) as u16).to_le_bytes());
    out.extend_from_slice(&attr_type.to_le_bytes());
    out.extend_from_slice(payload);
    pad(out)
}

fn raw_nest(attr_type: u16, children: &[Vec<u8>]) -> Vec<u8> {
    raw_attr(attr_type | NLA_F_NESTED, &children.concat())
}

fn raw_msg(msg_type: u16, flags: u16, seq: u32, body: &[u8]) -> Vec<u8> {
    let mut out = Vec::new();
    out.extend_from_slice(&((body.len() + 16) as u32).to_le_bytes());
    out.extend_from_slice(&msg_type.to_le_bytes());
    out.extend_from_slice(&flags.to_le_bytes());
    out.extend_from_slice(&seq.to_le_bytes());
    out.extend_from_slice(&0u32.to_le_bytes());
    out.extend_from_slice(body);
    out
}

fn raw_v4_endpoint(addr: [u8; 4], port: u16) -> Vec<u8> {
    let mut out = vec![2, 0];
    out.extend_from_slice(&port.to_be_bytes());
    out.extend_from_slice(&addr);
    out.extend_from_slice(&[0; 8]);
    out
}

fn raw_v6_endpoint(addr: [u8; 16], port: u16) -> Vec<u8> {
    let mut out = vec![10, 0];
    out.extend_from_slice(&port.to_be_bytes());
    out.extend_from_slice(&[0; 4]);
    out.extend_from_slice(&addr);
    out.extend_from_slice(&[0; 4]);
    out
}

fn raw_allowed_ip(family: u16, addr: &[u8], mask: u8) -> Vec<u8> {
    raw_nest(
        0,
        &[raw_attr(1, &family.to_le_bytes()), raw_attr(2, addr), raw_attr(3, &[mask])],
    )
}

const KEY: [u8; 32] = [
    0x10, 0x11, 0x12, 0x13, 0x14, 0x15, 0x16, 0x17, 0x18, 0x19, 0x1a, 0x1b, 0x1c, 0x1d, 0x1e, 0x1f,
    0x20, 0x21, 0x22, 0x23, 0x24, 0x25, 0x26, 0x27, 0x28, 0x29, 0x2a, 0x2b, 0x2c, 0x2d, 0x2e, 0x2f,
];

const DB8: [u8; 16] = [0x20, 0x01, 0x0d, 0xb8, 0, 0, 0, 0, 0, 0, 0, 0, 0, 0, 0, 0];

fn sample_peer() -> Peer {
    Peer {
        peer_key: KEY.to_vec(),
        endpoint: Some((IpAddr::V4([203, 0, 113, 5]), 51820)),
        allowed_ips: vec![(IpAddr::V4([10, 0, 0, 0]), 24), (IpAddr::V6(DB8), 32)],
        keepalive: Some(25),
    }
}

fn sample_peer_attrs() -> Vec<Vec<u8>> {
    vec![
        raw_attr(1, &KEY),
        raw_nest(9, &[raw_allowed_ip(2, &[10, 0, 0, 0], 24), raw_allowed_ip(10, &DB8, 32)]),
        raw_attr(4, &raw_v4_endpoint([203, 0, 113, 5], 51820)),
        raw_attr(5, &25u16.to_le_bytes()),
    ]
}

/// Hands the attributes of a message with the given attribute bytes to `f`.
fn with_attributes<R>(attrs: &[u8], f: impl FnOnce(AttributeIterator<'_>) -> R) -> R {
    let mut body = vec![0u8, 1, 0, 0];
    body.extend_from_slice(attrs);
    let mut buffer = MsgBuffer::new(NetlinkType::Generic(0x23));
    buffer.refill(&raw_msg(0x23, 0, 1, &body));
    let mut it = buffer.recv_msgs();
    match it.next() {
        PartStep::Part(part) => f(part.attributes()),
        _ => panic!("a message was expected"),
    }
}

fn with_attribute<R>(attr: &[u8], f: impl FnOnce(Attribute<'_>) -> R) -> R {
    with_attributes(attr, |mut it| f(it.next().unwrap()))
}

fn written_by(build: impl FnOnce(MsgBuilder) -> MsgBuilder) -> Vec<u8> {
    let msg = build(MsgBuilder::new(0x23, 1));
    msg.as_bytes()[16..].to_vec()
}

#[test]
fn endpoint_port_is_in_network_order() {
    let peer = Peer {
        peer_key: KEY.to_vec(),
        endpoint: Some((IpAddr::V4([203, 0, 113, 5]), 53476)),
        allowed_ips: vec![],
        keepalive: None,
    };
    let bytes = written_by(|b| b.attr_list_start(8).set_peer(&peer).attr_list_end());
    // nest of peers, nest of the peer, key, empty nest of addresses, endpoint
    let endpoint = 4 + 4 + 36 + 4;
    assert_eq!(&bytes[endpoint..endpoint + 4], &[20, 0, 4, 0]);
    assert_eq!(&bytes[endpoint + 4..endpoint + 6], &[2, 0]);
    assert_eq!(&bytes[endpoint + 6..endpoint + 8], &[0xd0, 0xe4]);
    assert_eq!(&bytes[endpoint + 8..endpoint + 12], &[203, 0, 113, 5]);
    assert_eq!(&bytes[endpoint + 12..endpoint + 20], &[0; 8]);

    let direct = written_by(|b| {
        b.attr(4, sockaddr_in { sin_family: AF_INET, sin_port: 53476, sin_addr: [203, 0, 113, 5] })
    });
    assert_eq!(direct, raw_attr(4, &raw_v4_endpoint([203, 0, 113, 5], 53476)));
    assert_eq!(&direct[6..8], &[0xd0, 0xe4]);
}

#[test]
fn ipv6_endpoint_layout() {
    let direct = written_by(|b| {
        b.attr(
            4,
            sockaddr_in6 {
                sin6_family: AF_INET6,
                sin6_port: 51820,
                sin6_flowinfo: 0,
                sin6_addr: DB8,
                sin6_scope_id: 0,
            },
        )
    });
    assert_eq!(direct, raw_attr(4, &raw_v6_endpoint(DB8, 51820)));
    assert_eq!(direct.len(), 32);
    assert_eq!(&direct[..4], &[32, 0, 4, 0]);
    assert_eq!(&direct[6..8], &[0xca, 0x6c]);
}

#[test]
fn endpoints_parse_by_length_and_family() {
    assert_eq!(
        parse_endpoint(&raw_v4_endpoint([203, 0, 113, 5], 51820)),
        Some((IpAddr::V4([203, 0, 113, 5]), 51820))
    );
    assert_eq!(parse_endpoint(&raw_v6_endpoint(DB8, 53476)), Some((IpAddr::V6(DB8), 53476)));
    assert_eq!(parse_endpoint(&[]), None);
    assert_eq!(parse_endpoint(&[2, 0, 0, 80, 1, 2, 3, 4]), None);
    assert_eq!(parse_endpoint(&[0; 17]), None);
    let mut wrong = raw_v4_endpoint([203, 0, 113, 5], 51820);
    wrong[0] = 10;
    assert_eq!(parse_endpoint(&wrong), None);
    let mut wrong = raw_v6_endpoint(DB8, 51820);
    wrong[0] = 2;
    assert_eq!(parse_endpoint(&wrong), None);
}

#[test]
fn allowed_ips_parse_from_their_nest() {
    let v4 = raw_allowed_ip(2, &[10, 0, 0, 0], 24);
    assert_eq!(with_attribute(&v4, parse_allowed_ip), Some((IpAddr::V4([10, 0, 0, 0]), 24)));
    let v6 = raw_allowed_ip(10, &DB8, 32);
    assert_eq!(with_attribute(&v6, parse_allowed_ip), Some((IpAddr::V6(DB8), 32)));
    // any order of the attributes
    let shuffled =
        raw_nest(0, &[raw_attr(3, &[8]), raw_attr(2, &[10, 0, 0, 0]), raw_attr(1, &[2, 0])]);
    assert_eq!(with_attribute(&shuffled, parse_allowed_ip), Some((IpAddr::V4([10, 0, 0, 0]), 8)));
}

#[test]
fn spoiled_allowed_ips_yield_nothing() {
    // the length of the address does not go with the family
    let entry = raw_allowed_ip(2, &DB8, 24);
    assert_eq!(with_attribute(&entry, parse_allowed_ip), None);
    let entry = raw_allowed_ip(10, &[10, 0, 0, 0], 24);
    assert_eq!(with_attribute(&entry, parse_allowed_ip), None);
    // an unknown family
    let entry = raw_allowed_ip(3, &[10, 0, 0, 0], 24);
    assert_eq!(with_attribute(&entry, parse_allowed_ip), None);
    // a part is missing
    let entry = raw_nest(0, &[raw_attr(1, &[2, 0]), raw_attr(2, &[10, 0, 0, 0])]);
    assert_eq!(with_attribute(&entry, parse_allowed_ip), None);
    let entry = raw_nest(0, &[raw_attr(2, &[10, 0, 0, 0]), raw_attr(3, &[24])]);
    assert_eq!(with_attribute(&entry, parse_allowed_ip), None);
    let entry = raw_nest(0, &[raw_attr(1, &[2, 0]), raw_attr(3, &[24])]);
    assert_eq!(with_attribute(&entry, parse_allowed_ip), None);
    // the family is too short to decode
    let entry = raw_nest(0, &[raw_attr(1, &[2]), raw_attr(2, &[10, 0, 0, 0]), raw_attr(3, &[24])]);
    assert_eq!(with_attribute(&entry, parse_allowed_ip), None);
    // an attribute that does not belong
    let entry = raw_nest(
        0,
        &[raw_attr(1, &[2, 0]), raw_attr(2, &[10, 0, 0, 0]), raw_attr(3, &[24]), raw_attr(4, &[])],
    );
    assert_eq!(with_attribute(&entry, parse_allowed_ip), None);
    // not flagged as a nest: nothing is inside
    let mut plain = raw_allowed_ip(2, &[10, 0, 0, 0], 24);
    plain[3] = 0;
    assert_eq!(with_attribute(&plain, parse_allowed_ip), None);
    // a record inside breaks the format
    let entry = raw_attr(NLA_F_NESTED, &[9, 0, 1, 0, 2, 0, 0, 0]);
    assert_eq!(with_attribute(&entry, parse_allowed_ip), None);
}

#[test]
fn one_peer_is_parsed_as_it_is_encoded() {
    let attrs = sample_peer_attrs().concat();
    assert_eq!(with_attributes(&attrs, Peer::new), Some(sample_peer()));
}

#[test]
fn peer_without_key_is_no_peer() {
    let attrs = sample_peer_attrs()[1..].concat();
    assert_eq!(with_attributes(&attrs, Peer::new), None);
    assert_eq!(with_attributes(&[], Peer::new), None);
}

#[test]
fn peer_with_empty_key_is_a_peer() {
    let attrs = raw_attr(1, &[]);
    assert_eq!(
        with_attributes(&attrs, Peer::new),
        Some(Peer { peer_key: vec![], endpoint: None, allowed_ips: vec![], keepalive: None })
    );
}

#[test]
fn unknown_peer_attributes_are_skipped() {
    let mut parts = vec![raw_attr(6, &[0; 16]), raw_attr(7, &[1; 8])];
    parts.extend(sample_peer_attrs());
    parts.push(raw_attr(10, &1u32.to_le_bytes()));
    // an endpoint flagged as a nest and a list of addresses that is not are other attributes
    parts.push(raw_nest(4, &[]));
    parts.push(raw_attr(9, &raw_allowed_ip(2, &[10, 9, 9, 9], 32)));
    assert_eq!(with_attributes(&parts.concat(), Peer::new), Some(sample_peer()));
}

#[test]
fn later_peer_attributes_replace_earlier_ones_and_keys_append() {
    let parts = vec![
        raw_attr(1, &KEY[..16]),
        raw_attr(4, &raw_v4_endpoint([1, 2, 3, 4], 1)),
        raw_attr(5, &7u16.to_le_bytes()),
        raw_nest(9, &[raw_allowed_ip(2, &[10, 1, 0, 0], 16)]),
        raw_attr(1, &KEY[16..]),
        raw_attr(4, &raw_v4_endpoint([203, 0, 113, 5], 51820)),
        raw_attr(5, &25u16.to_le_bytes()),
        raw_nest(9, &[raw_allowed_ip(2, &[10, 0, 0, 0], 24), raw_allowed_ip(10, &DB8, 32)]),
    ];
    assert_eq!(with_attributes(&parts.concat(), Peer::new), Some(sample_peer()));
}

#[test]
fn keepalive_of_zero_reads_as_none() {
    let attrs = [raw_attr(1, &KEY), raw_attr(5, &0u16.to_le_bytes())].concat();
    let peer = with_attributes(&attrs, Peer::new).unwrap();
    assert_eq!(peer.keepalive, None);
    let attrs = [raw_attr(1, &KEY), raw_attr(5, &[25])].concat();
    assert_eq!(with_attributes(&attrs, Peer::new).unwrap().keepalive, None);

    let zero = Peer { peer_key: KEY.to_vec(), endpoint: None, allowed_ips: vec![], keepalive: Some(0) };
    let bytes = written_by(|b| b.attr_list_start(8).set_peer(&zero).attr_list_end());
    assert_eq!(&bytes[bytes.len() - 8..], &[6, 0, 5, 0, 0, 0, 0, 0]);
    let read = with_attributes(&bytes, |mut it| {
        let peers = it.next().unwrap();
        let peer = peers.attributes().next().unwrap();
        Peer::new(peer.attributes())
    });
    assert_eq!(read, Some(Peer { keepalive: None, ..zero }));
}

#[test]
fn bad_endpoint_leaves_the_peer_without_one() {
    let attrs = [raw_attr(1, &KEY), raw_attr(4, &[2, 0, 0, 80])].concat();
    let peer = with_attributes(&attrs, Peer::new).unwrap();
    assert_eq!(peer.endpoint, None);
    assert_eq!(peer.peer_key, KEY.to_vec());
}

#[test]
fn spoiled_entries_are_left_out_of_the_list() {
    let attrs = [
        raw_attr(1, &KEY),
        raw_nest(
            9,
            &[
                raw_allowed_ip(2, &[10, 0, 0, 0], 24),
                raw_allowed_ip(2, &DB8, 24),
                raw_allowed_ip(10, &DB8, 32),
            ],
        ),
    ]
    .concat();
    let peer = with_attributes(&attrs, Peer::new).unwrap();
    assert_eq!(peer.allowed_ips, vec![(IpAddr::V4([10, 0, 0, 0]), 24), (IpAddr::V6(DB8), 32)]);
}

#[test]
fn peer_with_a_broken_record_is_no_peer() {
    let attrs = [raw_attr(1, &KEY), vec![40, 0, 5, 0, 25, 0, 0, 0]].concat();
    assert_eq!(with_attributes(&attrs, Peer::new), None);
    let attrs = [raw_attr(1, &KEY), raw_attr(9 | NLA_F_NESTED, &[2, 0, 0, 0x80])].concat();
    assert_eq!(with_attributes(&attrs, Peer::new), None);
}

#[test]
fn set_peer_writes_key_addresses_endpoint_keepalive() {
    let peer = sample_peer();
    let bytes = written_by(|b| b.attr_list_start(8).set_peer(&peer).attr_list_end());
    let expected = raw_nest(8, &[raw_nest(0, &sample_peer_attrs())]);
    assert_eq!(bytes, expected);
}

#[test]
fn set_peer_leaves_out_what_the_peer_lacks() {
    let peer = Peer { peer_key: KEY.to_vec(), endpoint: None, allowed_ips: vec![], keepalive: None };
    let bytes = written_by(|b| b.attr_list_start(8).set_peer(&peer).attr_list_end());
    assert_eq!(bytes, raw_nest(8, &[raw_nest(0, &[raw_attr(1, &KEY), raw_nest(9, &[])])]));

    let peer = Peer {
        peer_key: KEY.to_vec(),
        endpoint: Some((IpAddr::V6(DB8), 51820)),
        allowed_ips: vec![],
        keepalive: None,
    };
    let bytes = written_by(|b| b.attr_list_start(8).set_peer(&peer).attr_list_end());
    assert_eq!(
        bytes,
        raw_nest(
            8,
            &[raw_nest(
                0,
                &[raw_attr(1, &KEY), raw_nest(9, &[]), raw_attr(4, &raw_v6_endpoint(DB8, 51820))]
            )]
        )
    );
}

#[test]
fn remove_peer_writes_the_flag_and_the_key() {
    let bytes = written_by(|b| b.attr_list_start(8).remove_peer(&KEY).attr_list_end());
    let expected =
        raw_nest(8, &[raw_nest(0, &[raw_attr(3, &1u32.to_le_bytes()), raw_attr(1, &KEY)])]);
    assert_eq!(bytes, expected);
    assert_eq!(bytes.len(), 4 + 4 + 8 + 36);
}

#[test]
fn peers_round_trip() {
    let peers = vec![
        sample_peer(),
        Peer { peer_key: KEY.to_vec(), endpoint: None, allowed_ips: vec![], keepalive: None },
        Peer {
            peer_key: vec![0xff; 32],
            endpoint: Some((IpAddr::V6(DB8), 1)),
            allowed_ips: vec![(IpAddr::V6([0; 16]), 0)],
            keepalive: Some(65535),
        },
        Peer {
            peer_key: vec![1, 2, 3],
            endpoint: Some((IpAddr::V4([0, 0, 0, 0]), 0)),
            allowed_ips: (0..20u8).map(|i| (IpAddr::V4([10, i, 0, 0]), i)).collect(),
            keepalive: Some(1),
        },
        Peer { peer_key: vec![], endpoint: None, allowed_ips: vec![], keepalive: None },
    ];
    for peer in &peers {
        let bytes = written_by(|b| b.attr_list_start(8).set_peer(peer).attr_list_end());
        assert_eq!(bytes.len(), 4 + peer.encoded_len().unwrap());
        let read = with_attributes(&bytes, |mut it| {
            let list = it.next().unwrap();
            assert_eq!(list.attribute_type, AttributeType::Nested(8));
            WireguardDev::parse_peers(list.attributes())
        });
        assert_eq!(read, Some(vec![peer.clone()]));
    }
    // all of them in one list
    let bytes = written_by(|b| {
        let mut nest = b.attr_list_start(8);
        for peer in &peers {
            nest = nest.set_peer(peer);
        }
        nest.attr_list_end()
    });
    let read = with_attributes(&bytes, |mut it| {
        WireguardDev::parse_peers(it.next().unwrap().attributes())
    });
    assert_eq!(read, Some(peers));
}

#[test]
fn entries_without_a_peer_are_left_out_of_the_list() {
    let list = raw_nest(
        8,
        &[
            raw_nest(0, &sample_peer_attrs()),
            raw_nest(0, &[raw_attr(5, &25u16.to_le_bytes())]),
            raw_attr(0, &raw_attr(1, &KEY)),
            raw_nest(0, &[raw_attr(1, &[9])]),
        ],
    );
    let read = with_attributes(&list, |mut it| {
        WireguardDev::parse_peers(it.next().unwrap().attributes())
    });
    assert_eq!(
        read,
        Some(vec![
            sample_peer(),
            Peer { peer_key: vec![9], endpoint: None, allowed_ips: vec![], keepalive: None },
        ])
    );
    let broken = raw_attr(8 | NLA_F_NESTED, &[200, 0, 0, 0x80]);
    let read = with_attributes(&broken, |mut it| {
        WireguardDev::parse_peers(it.next().unwrap().attributes())
    });
    assert_eq!(read, None);
}

#[test]
fn encoded_length_of_a_peer() {
    assert_eq!(sample_peer().encoded_len(), Some(4 + 36 + 4 + 28 + 40 + 20 + 8));
    let bare = Peer { peer_key: vec![], endpoint: None, allowed_ips: vec![], keepalive: None };
    assert_eq!(bare.encoded_len(), Some(12));
    let unaligned = Peer { peer_key: vec![1, 2, 3, 4, 5], ..bare.clone() };
    assert_eq!(unaligned.encoded_len(), Some(20));
    let largest = Peer { peer_key: vec![0; MAX_NL_MSG_SIZE - 12], ..bare.clone() };
    assert_eq!(largest.encoded_len(), Some(MAX_NL_MSG_SIZE));
    let too_large = Peer { peer_key: vec![0; MAX_NL_MSG_SIZE - 11], ..bare.clone() };
    assert_eq!(too_large.encoded_len(), None);
    let many = Peer {
        allowed_ips: (0..74u8).map(|i| (IpAddr::V4([10, i, 0, 0]), 16)).collect(),
        ..bare.clone()
    };
    assert_eq!(many.encoded_len(), None);
    let many = Peer {
        allowed_ips: (0..72u8).map(|i| (IpAddr::V4([10, i, 0, 0]), 16)).collect(),
        ..bare
    };
    assert_eq!(many.encoded_len(), Some(12 + 72 * 28));
}

#[test]
fn keys_are_shown_in_base64() {
    let peer = Peer { peer_key: vec![0; 32], endpoint: None, allowed_ips: vec![], keepalive: None };
    assert_eq!(peer.key_base64(), "AAAAAAAAAAAAAAAAAAAAAAAAAAAAAAAAAAAAAAAAAAA=");
    assert_eq!(Peer { peer_key: vec![1, 2, 3], ..peer.clone() }.key_base64(), "AQID");
    assert_eq!(Peer { peer_key: b"hello!".to_vec(), ..peer.clone() }.key_base64(), "aGVsbG8h");
    assert_eq!(Peer { peer_key: vec![0xfb, 0xff], ..peer.clone() }.key_base64(), "+/8=");
    assert_eq!(Peer { peer_key: vec![], ..peer }.key_base64(), "");
}
