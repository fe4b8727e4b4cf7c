//! Constants and fixed layouts of the kernel interface: Netlink, Generic
//! Netlink, the route family and WireGuard.
//!
//! Multi-byte fields are laid out little-endian, as on the hosts this crate
//! supports; fields that the kernel keeps in network order say so.
use vstd::prelude::*;
use crate::netlink::send::ReprC;
use crate::netlink::wire::{align_len, align_up};

verus! {

pub const NLM_F_REQUEST: u16 = 0x01;

pub const NLM_F_MULTI: u16 = 0x02;

pub const NLM_F_ACK: u16 = 0x04;

pub const NLM_F_ECHO: u16 = 0x08;

pub const NLM_F_DUMP_INTR: u16 = 0x10;

pub const NLM_F_DUMP_FILTERED: u16 = 0x20;

pub const NLM_F_ROOT: u16 = 0x100;

pub const NLM_F_MATCH: u16 = 0x200;

pub const NLM_F_DUMP: u16 = 0x300;

pub const NLMSG_NOOP: u16 = 1;

pub const NLMSG_ERROR: u16 = 2;

pub const NLMSG_DONE: u16 = 3;

pub const NLMSG_OVERRUN: u16 = 4;

pub const NLMSG_MIN_TYPE: u16 = 0x10;

pub const NLA_F_NESTED: u16 = 0x8000;

pub const NLA_F_NET_BYTEORDER: u16 = 0x4000;

pub const NLA_TYPE_MASK: u16 = 0x3fff;

pub const GENL_ID_CTRL: u16 = 0x10;

pub const CTRL_CMD_GETFAMILY: u32 = 3;

pub const CTRL_ATTR_FAMILY_ID: u32 = 1;

pub const CTRL_ATTR_FAMILY_NAME: u32 = 2;

pub const CTRL_ATTR_MCAST_GROUPS: u32 = 7;

pub const CTRL_ATTR_MCAST_GRP_NAME: u32 = 1;

pub const CTRL_ATTR_MCAST_GRP_ID: u32 = 2;

pub const RTM_NEWLINK: u32 = 16;

pub const RTM_DELLINK: u32 = 17;

pub const RTM_GETLINK: u32 = 18;

pub const RTMGRP_LINK: u32 = 1;

pub const IFLA_IFNAME: u32 = 3;

pub const IFLA_LINKINFO: u32 = 18;

pub const IFLA_INFO_KIND: u32 = 1;

pub const AF_UNSPEC: u16 = 0;

pub const AF_INET: u16 = 2;

pub const AF_INET6: u16 = 10;

pub const WG_CMD_GET_DEVICE: u32 = 0;

pub const WG_CMD_SET_DEVICE: u32 = 1;

pub const WG_CMD_CHANGED_ENDPOINT: u32 = 2;

pub const WG_CMD_REMOVED_PEER: u32 = 3;

pub const WG_CMD_SET_PEER: u32 = 4;

pub const WGDEVICE_A_IFINDEX: u32 = 1;

pub const WGDEVICE_A_IFNAME: u32 = 2;

pub const WGDEVICE_A_PRIVATE_KEY: u32 = 3;

pub const WGDEVICE_A_PUBLIC_KEY: u32 = 4;

pub const WGDEVICE_A_FLAGS: u32 = 5;

pub const WGDEVICE_A_LISTEN_PORT: u32 = 6;

pub const WGDEVICE_A_FWMARK: u32 = 7;

pub const WGDEVICE_A_PEERS: u32 = 8;

pub const WGDEVICE_A_MONITOR: u32 = 9;

pub const WGDEVICE_A_PEER: u32 = 10;

pub const WGDEVICE_MONITOR_F_ENDPOINT: u32 = 1;

pub const WGDEVICE_MONITOR_F_PEERS: u32 = 2;

pub const WGPEER_F_REMOVE_ME: u32 = 1;

pub const WGPEER_F_REPLACE_ALLOWEDIPS: u32 = 2;

pub const WGPEER_F_UPDATE_ONLY: u32 = 4;

pub const WGPEER_A_PUBLIC_KEY: u32 = 1;

pub const WGPEER_A_PRESHARED_KEY: u32 = 2;

pub const WGPEER_A_FLAGS: u32 = 3;

pub const WGPEER_A_ENDPOINT: u32 = 4;

pub const WGPEER_A_PERSISTENT_KEEPALIVE_INTERVAL: u32 = 5;

pub const WGPEER_A_LAST_HANDSHAKE_TIME: u32 = 6;

pub const WGPEER_A_RX_BYTES: u32 = 7;

pub const WGPEER_A_TX_BYTES: u32 = 8;

pub const WGPEER_A_ALLOWEDIPS: u32 = 9;

pub const WGPEER_A_PROTOCOL_VERSION: u32 = 10;

pub const WGALLOWEDIP_A_FAMILY: u32 = 1;

pub const WGALLOWEDIP_A_IPADDR: u32 = 2;

pub const WGALLOWEDIP_A_CIDR_MASK: u32 = 3;

/// The name of the WireGuard family.
pub const WG_GENL_NAME: [u8; 10] = [119, 105, 114, 101, 103, 117, 97, 114, 100, 0];

/// The name of the multicast group that tells of peers.
pub const WG_MULTICAST_GROUP_PEERS: [u8; 6] = [112, 101, 101, 114, 115, 0];

/// Length of a WireGuard key.
pub const WG_KEY_LEN: usize = 32;

/// Main header of every Netlink message.
#[derive(Clone, Copy, Debug, PartialEq, Eq, Structural)]
pub struct nlmsghdr {
    /// Length of the message, this header included.
    pub nlmsg_len: u32,
    pub nlmsg_type: u16,
    pub nlmsg_flags: u16,
    pub nlmsg_seq: u32,
    pub nlmsg_pid: u32,
}

/// Header of an attribute record.
#[derive(Clone, Copy, Debug, PartialEq, Eq, Structural)]
pub struct nlattr {
    /// Length of the record without its padding, this header included.
    pub nla_len: u16,
    /// Identifier in the low 14 bits, flags in the two bits above.
    pub nla_type: u16,
}

/// Sub-header of a Generic Netlink message.
#[derive(Clone, Copy, Debug, PartialEq, Eq, Structural)]
pub struct genlmsghdr {
    pub cmd: u8,
    pub version: u8,
    pub reserved: u16,
}

/// Sub-header of a route link message.
#[derive(Clone, Copy, Debug, PartialEq, Eq, Structural)]
pub struct ifinfomsg {
    pub ifi_family: u8,
    pub __ifi_pad: u8,
    pub ifi_type: u16,
    pub ifi_index: i32,
    pub ifi_flags: u32,
    pub ifi_change: u32,
}

/// IPv4 socket address. `sin_port` holds the port number itself; its layout
/// stores it in network order, and pads the address with eight zero bytes.
#[derive(Clone, Copy, Debug)]
pub struct sockaddr_in {
    pub sin_family: u16,
    pub sin_port: u16,
    pub sin_addr: [u8; 4],
}

/// IPv6 socket address. `sin6_port` holds the port number itself; its layout
/// stores it in network order.
#[derive(Clone, Copy, Debug)]
pub struct sockaddr_in6 {
    pub sin6_family: u16,
    pub sin6_port: u16,
    pub sin6_flowinfo: u32,
    pub sin6_addr: [u8; 16],
    pub sin6_scope_id: u32,
}

/// The size of `T`'s layout, rounded up to the alignment of the wire format.
pub fn nl_size_of_aligned<T: ReprC>() -> (n: usize)
    requires
        T::layout_size() + 3 <= usize::MAX,
    ensures
        n == align_up(T::layout_size()),
{
    nl_align_length(T::size())
}

/// Rounds `size` up to a multiple of four: everything on the wire is
/// aligned to four bytes.
pub fn nl_align_length(size: usize) -> (n: usize)
    requires
        size + 3 <= usize::MAX,
    ensures
        n == align_up(size as nat),
        n % 4 == 0,
        size <= n < size + 4,
{
    align_len(size)
}

/// What the bits of an attribute's type field mean, in arithmetic.
pub proof fn lemma_type_bits(t: u16)
    ensures
        (t & NLA_F_NESTED == NLA_F_NESTED) <==> t >= 0x8000,
        t & NLA_TYPE_MASK == t % 0x4000,
        t < 0x8000 ==> t | NLA_F_NESTED == t + 0x8000,
        t >= 0x8000 ==> t | NLA_F_NESTED == t,
{
    assert((t & 0x8000 == 0x8000) <==> t >= 0x8000) by (bit_vector);
    assert(t & 0x3fff == t % 0x4000) by (bit_vector);
    assert(t < 0x8000 ==> t | 0x8000 == t + 0x8000) by (bit_vector);
    assert(t >= 0x8000 ==> t | 0x8000 == t) by (bit_vector);
}

impl nlattr {
    /// Whether the nested flag is set in the type field.
    pub open spec fn spec_is_nested(&self) -> bool {
        self.nla_type & NLA_F_NESTED == NLA_F_NESTED
    }

    /// The identifier: the type field without its two flag bits.
    pub open spec fn spec_payload_type(&self) -> u16 {
        self.nla_type & NLA_TYPE_MASK
    }

    /// The number of payload bytes that the record declares.
    pub open spec fn spec_payload_length(&self) -> int {
        self.nla_len - 4
    }

    pub fn is_nested(&self) -> (b: bool)
        ensures
            b == self.spec_is_nested(),
    {
        (self.nla_type & NLA_F_NESTED) == NLA_F_NESTED
    }

    pub fn payload_type(&self) -> (t: u16)
        ensures
            t == self.spec_payload_type(),
            t < 0x4000,
    {
        proof {
            lemma_type_bits(self.nla_type);
        }
        self.nla_type & NLA_TYPE_MASK
    }

    pub fn payload_length(&self) -> (n: usize)
        requires
            self.nla_len >= 4,
        ensures
            n == self.spec_payload_length(),
    {
        (self.nla_len as usize) - 4
    }
}

impl nlmsghdr {
    /// The header of a request that asks for an acknowledgement. The length
    /// is left at zero until the message is complete.
    pub open spec fn new_spec(family: u16, seq: u32) -> nlmsghdr {
        nlmsghdr {
            nlmsg_len: 0,
            nlmsg_type: family,
            nlmsg_flags: NLM_F_REQUEST | NLM_F_ACK,
            nlmsg_seq: seq,
            nlmsg_pid: 0,
        }
    }

    /// The header of a request that asks for an acknowledgement. The length
    /// is left at zero until the message is complete.
    pub fn new(family: u16, seq: u32) -> (h: nlmsghdr)
        ensures
            h == nlmsghdr::new_spec(family, seq),
            h.nlmsg_flags == 5,
    {
        assert(0x01u16 | 0x04u16 == 5u16) by (bit_vector);
        nlmsghdr {
            nlmsg_len: 0,
            nlmsg_type: family,
            nlmsg_flags: NLM_F_REQUEST | NLM_F_ACK,
            nlmsg_seq: seq,
            nlmsg_pid: 0,
        }
    }
}

} // verus!
