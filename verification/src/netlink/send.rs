//! The serializer: a fluent builder of one outgoing message.
use vstd::prelude::*;
use vstd::slice::slice_subrange;
use crate::netlink::bindings::{
    genlmsghdr, ifinfomsg, nl_align_length, nlattr, nlmsghdr, sockaddr_in, sockaddr_in6,
    NLA_F_NESTED, NLM_F_DUMP,
};
use crate::netlink::wire::{
    align_up, array16, array4, be16, be16_at, get_i32_le, get_u16_be, get_u16_le, get_u32_le,
    i32_bits, le16, le16_at, le32, le32_at, lemma_align_up, lemma_int_round_trip,
    lemma_read_be16, lemma_read_le16, lemma_read_le32, lemma_splice_append, padding, put_bytes,
    put_u16_be, put_u16_le, put_u32_le, signed32, splice, take16, take4, unsigned32, zeros,
};

verus! {

/// The largest message that a builder can hold.
pub const MAX_NL_MSG_SIZE: usize = 2048;

/// A type with a fixed layout that is copied to and from the wire byte for
/// byte.
pub trait ReprC: Sized {
    /// The number of bytes of the layout.
    spec fn layout_size() -> nat;

    /// The bytes of `self` in its layout.
    spec fn image(&self) -> Seq<u8>;

    /// The value that the first `layout_size()` bytes of `bytes` hold.
    spec fn from_image(bytes: Seq<u8>) -> Self;

    /// An image has the size of the layout, and reading it gives the value
    /// back.
    proof fn lemma_image(&self)
        ensures
            self.image().len() == Self::layout_size(),
            Self::from_image(self.image()) == *self,
    ;

    fn size() -> (n: usize)
        ensures
            n == Self::layout_size(),
            n <= MAX_NL_MSG_SIZE,
    ;

    /// Writes the image of `self` to `out[pos..]`.
    fn store(&self, out: &mut [u8], pos: usize)
        requires
            pos + Self::layout_size() <= old(out)@.len(),
        ensures
            final(out)@ == splice(old(out)@, pos as int, self.image()),
    ;

    /// Reads a value from `buf[pos..]`.
    fn load(buf: &[u8], pos: usize) -> (r: Self)
        requires
            pos + Self::layout_size() <= buf@.len(),
        ensures
            r == Self::from_image(buf@.subrange(pos as int, pos + Self::layout_size())),
    ;
}

impl ReprC for nlattr {
    open spec fn layout_size() -> nat {
        4
    }

    open spec fn image(&self) -> Seq<u8> {
        le16(self.nla_len) + le16(self.nla_type)
    }

    open spec fn from_image(bytes: Seq<u8>) -> Self {
        nlattr { nla_len: le16_at(bytes, 0), nla_type: le16_at(bytes, 2) }
    }

    proof fn lemma_image(&self) {
        let img = self.image();
        assert(img.subrange(0, 2) =~= le16(self.nla_len));
        assert(img.subrange(2, 4) =~= le16(self.nla_type));
        lemma_read_le16(img, 0, self.nla_len);
        lemma_read_le16(img, 2, self.nla_type);
    }

    fn size() -> (n: usize) {
        4
    }

    fn store(&self, out: &mut [u8], pos: usize) {
        // the length of a slice fits a `usize`: asking for it makes that known
        let _cap: usize = out.len();
        let ghost before = out@;
        put_u16_le(out, pos, self.nla_len);
        put_u16_le(out, pos + 2, self.nla_type);
        proof {
            lemma_splice_append(before, pos as int, le16(self.nla_len), le16(self.nla_type));
        }
    }

    fn load(buf: &[u8], pos: usize) -> (r: Self) {
        let _cap: usize = buf.len();
        nlattr { nla_len: get_u16_le(buf, pos), nla_type: get_u16_le(buf, pos + 2) }
    }
}

impl ReprC for genlmsghdr {
    open spec fn layout_size() -> nat {
        4
    }

    open spec fn image(&self) -> Seq<u8> {
        seq![self.cmd, self.version] + le16(self.reserved)
    }

    open spec fn from_image(bytes: Seq<u8>) -> Self {
        genlmsghdr { cmd: bytes[0], version: bytes[1], reserved: le16_at(bytes, 2) }
    }

    proof fn lemma_image(&self) {
        let img = self.image();
        assert(img.subrange(2, 4) =~= le16(self.reserved));
        lemma_read_le16(img, 2, self.reserved);
    }

    fn size() -> (n: usize) {
        4
    }

    fn store(&self, out: &mut [u8], pos: usize) {
        let _cap: usize = out.len();
        let ghost before = out@;
        let ghost head = seq![self.cmd, self.version];
        out[pos] = self.cmd;
        out[pos + 1] = self.version;
        assert(out@ =~= splice(before, pos as int, head));
        put_u16_le(out, pos + 2, self.reserved);
        proof {
            lemma_splice_append(before, pos as int, head, le16(self.reserved));
        }
    }

    fn load(buf: &[u8], pos: usize) -> (r: Self) {
        let _cap: usize = buf.len();
        genlmsghdr { cmd: buf[pos], version: buf[pos + 1], reserved: get_u16_le(buf, pos + 2) }
    }
}

impl ReprC for nlmsghdr {
    open spec fn layout_size() -> nat {
        16
    }

    open spec fn image(&self) -> Seq<u8> {
        le32(self.nlmsg_len) + le16(self.nlmsg_type) + le16(self.nlmsg_flags) + le32(
            self.nlmsg_seq,
        ) + le32(self.nlmsg_pid)
    }

    open spec fn from_image(bytes: Seq<u8>) -> Self {
        nlmsghdr {
            nlmsg_len: le32_at(bytes, 0),
            nlmsg_type: le16_at(bytes, 4),
            nlmsg_flags: le16_at(bytes, 6),
            nlmsg_seq: le32_at(bytes, 8),
            nlmsg_pid: le32_at(bytes, 12),
        }
    }

    proof fn lemma_image(&self) {
        let img = self.image();
        assert(img.subrange(0, 4) =~= le32(self.nlmsg_len));
        assert(img.subrange(4, 6) =~= le16(self.nlmsg_type));
        assert(img.subrange(6, 8) =~= le16(self.nlmsg_flags));
        assert(img.subrange(8, 12) =~= le32(self.nlmsg_seq));
        assert(img.subrange(12, 16) =~= le32(self.nlmsg_pid));
        lemma_read_le32(img, 0, self.nlmsg_len);
        lemma_read_le16(img, 4, self.nlmsg_type);
        lemma_read_le16(img, 6, self.nlmsg_flags);
        lemma_read_le32(img, 8, self.nlmsg_seq);
        lemma_read_le32(img, 12, self.nlmsg_pid);
    }

    fn size() -> (n: usize) {
        16
    }

    fn store(&self, out: &mut [u8], pos: usize) {
        let _cap: usize = out.len();
        let ghost before = out@;
        let ghost len = le32(self.nlmsg_len);
        let ghost kind = le16(self.nlmsg_type);
        let ghost flags = le16(self.nlmsg_flags);
        let ghost seq = le32(self.nlmsg_seq);
        put_u32_le(out, pos, self.nlmsg_len);
        put_u16_le(out, pos + 4, self.nlmsg_type);
        proof {
            lemma_splice_append(before, pos as int, len, kind);
        }
        put_u16_le(out, pos + 6, self.nlmsg_flags);
        proof {
            lemma_splice_append(before, pos as int, len + kind, flags);
        }
        put_u32_le(out, pos + 8, self.nlmsg_seq);
        proof {
            lemma_splice_append(before, pos as int, len + kind + flags, seq);
        }
        put_u32_le(out, pos + 12, self.nlmsg_pid);
        proof {
            lemma_splice_append(before, pos as int, len + kind + flags + seq, le32(self.nlmsg_pid));
        }
    }

    fn load(buf: &[u8], pos: usize) -> (r: Self) {
        let _cap: usize = buf.len();
        nlmsghdr {
            nlmsg_len: get_u32_le(buf, pos),
            nlmsg_type: get_u16_le(buf, pos + 4),
            nlmsg_flags: get_u16_le(buf, pos + 6),
            nlmsg_seq: get_u32_le(buf, pos + 8),
            nlmsg_pid: get_u32_le(buf, pos + 12),
        }
    }
}

impl ReprC for ifinfomsg {
    open spec fn layout_size() -> nat {
        16
    }

    open spec fn image(&self) -> Seq<u8> {
        seq![self.ifi_family, self.__ifi_pad] + le16(self.ifi_type) + le32(
            unsigned32(self.ifi_index),
        ) + le32(self.ifi_flags) + le32(self.ifi_change)
    }

    open spec fn from_image(bytes: Seq<u8>) -> Self {
        ifinfomsg {
            ifi_family: bytes[0],
            __ifi_pad: bytes[1],
            ifi_type: le16_at(bytes, 2),
            ifi_index: signed32(le32_at(bytes, 4)),
            ifi_flags: le32_at(bytes, 8),
            ifi_change: le32_at(bytes, 12),
        }
    }

    proof fn lemma_image(&self) {
        let img = self.image();
        assert(img.subrange(2, 4) =~= le16(self.ifi_type));
        assert(img.subrange(4, 8) =~= le32(unsigned32(self.ifi_index)));
        assert(img.subrange(8, 12) =~= le32(self.ifi_flags));
        assert(img.subrange(12, 16) =~= le32(self.ifi_change));
        lemma_read_le16(img, 2, self.ifi_type);
        lemma_read_le32(img, 4, unsigned32(self.ifi_index));
        lemma_read_le32(img, 8, self.ifi_flags);
        lemma_read_le32(img, 12, self.ifi_change);
        lemma_int_round_trip(0, 0, self.ifi_index);
    }

    fn size() -> (n: usize) {
        16
    }

    fn store(&self, out: &mut [u8], pos: usize) {
        let _cap: usize = out.len();
        let index: u32 = i32_bits(self.ifi_index);
        let ghost before = out@;
        let ghost family = seq![self.ifi_family, self.__ifi_pad];
        let ghost kind = le16(self.ifi_type);
        let ghost idx = le32(index);
        let ghost flags = le32(self.ifi_flags);
        out[pos] = self.ifi_family;
        out[pos + 1] = self.__ifi_pad;
        assert(out@ =~= splice(before, pos as int, family));
        put_u16_le(out, pos + 2, self.ifi_type);
        proof {
            lemma_splice_append(before, pos as int, family, kind);
        }
        put_u32_le(out, pos + 4, index);
        proof {
            lemma_splice_append(before, pos as int, family + kind, idx);
        }
        put_u32_le(out, pos + 8, self.ifi_flags);
        proof {
            lemma_splice_append(before, pos as int, family + kind + idx, flags);
        }
        put_u32_le(out, pos + 12, self.ifi_change);
        proof {
            lemma_splice_append(
                before,
                pos as int,
                family + kind + idx + flags,
                le32(self.ifi_change),
            );
        }
    }

    fn load(buf: &[u8], pos: usize) -> (r: Self) {
        let _cap: usize = buf.len();
        ifinfomsg {
            ifi_family: buf[pos],
            __ifi_pad: buf[pos + 1],
            ifi_type: get_u16_le(buf, pos + 2),
            ifi_index: get_i32_le(buf, pos + 4),
            ifi_flags: get_u32_le(buf, pos + 8),
            ifi_change: get_u32_le(buf, pos + 12),
        }
    }
}

impl ReprC for sockaddr_in {
    open spec fn layout_size() -> nat {
        16
    }

    open spec fn image(&self) -> Seq<u8> {
        le16(self.sin_family) + be16(self.sin_port) + self.sin_addr@ + zeros(8)
    }

    open spec fn from_image(bytes: Seq<u8>) -> Self {
        sockaddr_in {
            sin_family: le16_at(bytes, 0),
            sin_port: be16_at(bytes, 2),
            sin_addr: array4(bytes.subrange(4, 8)),
        }
    }

    proof fn lemma_image(&self) {
        let img = self.image();
        assert(img.subrange(0, 2) =~= le16(self.sin_family));
        assert(img.subrange(2, 4) =~= be16(self.sin_port));
        assert(img.subrange(4, 8) =~= self.sin_addr@);
        lemma_read_le16(img, 0, self.sin_family);
        lemma_read_be16(img, 2, self.sin_port);
        assert(array4(self.sin_addr@) =~= self.sin_addr);
    }

    fn size() -> (n: usize) {
        16
    }

    fn store(&self, out: &mut [u8], pos: usize) {
        let _cap: usize = out.len();
        let ghost before = out@;
        let ghost family = le16(self.sin_family);
        let ghost port = be16(self.sin_port);
        put_u16_le(out, pos, self.sin_family);
        put_u16_be(out, pos + 2, self.sin_port);
        proof {
            lemma_splice_append(before, pos as int, family, port);
        }
        put_bytes(out, pos + 4, self.sin_addr.as_slice());
        proof {
            lemma_splice_append(before, pos as int, family + port, self.sin_addr@);
        }
        put_u32_le(out, pos + 8, 0);
        proof {
            lemma_splice_append(before, pos as int, family + port + self.sin_addr@, le32(0));
        }
        put_u32_le(out, pos + 12, 0);
        proof {
            lemma_splice_append(
                before,
                pos as int,
                family + port + self.sin_addr@ + le32(0),
                le32(0),
            );
            assert(family + port + self.sin_addr@ + le32(0) + le32(0) =~= self.image());
        }
    }

    fn load(buf: &[u8], pos: usize) -> (r: Self) {
        let _cap: usize = buf.len();
        let r = sockaddr_in {
            sin_family: get_u16_le(buf, pos),
            sin_port: get_u16_be(buf, pos + 2),
            sin_addr: take4(buf, pos + 4),
        };
        proof {
            let img = buf@.subrange(pos as int, pos + 16);
            assert(img.subrange(4, 8) =~= buf@.subrange(pos + 4, pos + 8));
        }
        r
    }
}

impl ReprC for sockaddr_in6 {
    open spec fn layout_size() -> nat {
        28
    }

    open spec fn image(&self) -> Seq<u8> {
        le16(self.sin6_family) + be16(self.sin6_port) + le32(self.sin6_flowinfo)
            + self.sin6_addr@ + le32(self.sin6_scope_id)
    }

    open spec fn from_image(bytes: Seq<u8>) -> Self {
        sockaddr_in6 {
            sin6_family: le16_at(bytes, 0),
            sin6_port: be16_at(bytes, 2),
            sin6_flowinfo: le32_at(bytes, 4),
            sin6_addr: array16(bytes.subrange(8, 24)),
            sin6_scope_id: le32_at(bytes, 24),
        }
    }

    proof fn lemma_image(&self) {
        let img = self.image();
        assert(img.subrange(0, 2) =~= le16(self.sin6_family));
        assert(img.subrange(2, 4) =~= be16(self.sin6_port));
        assert(img.subrange(4, 8) =~= le32(self.sin6_flowinfo));
        assert(img.subrange(8, 24) =~= self.sin6_addr@);
        assert(img.subrange(24, 28) =~= le32(self.sin6_scope_id));
        lemma_read_le16(img, 0, self.sin6_family);
        lemma_read_be16(img, 2, self.sin6_port);
        lemma_read_le32(img, 4, self.sin6_flowinfo);
        lemma_read_le32(img, 24, self.sin6_scope_id);
        assert(array16(self.sin6_addr@) =~= self.sin6_addr);
    }

    fn size() -> (n: usize) {
        28
    }

    fn store(&self, out: &mut [u8], pos: usize) {
        let _cap: usize = out.len();
        let ghost before = out@;
        let ghost family = le16(self.sin6_family);
        let ghost port = be16(self.sin6_port);
        let ghost flow = le32(self.sin6_flowinfo);
        put_u16_le(out, pos, self.sin6_family);
        put_u16_be(out, pos + 2, self.sin6_port);
        proof {
            lemma_splice_append(before, pos as int, family, port);
        }
        put_u32_le(out, pos + 4, self.sin6_flowinfo);
        proof {
            lemma_splice_append(before, pos as int, family + port, flow);
        }
        put_bytes(out, pos + 8, self.sin6_addr.as_slice());
        proof {
            lemma_splice_append(before, pos as int, family + port + flow, self.sin6_addr@);
        }
        put_u32_le(out, pos + 24, self.sin6_scope_id);
        proof {
            lemma_splice_append(
                before,
                pos as int,
                family + port + flow + self.sin6_addr@,
                le32(self.sin6_scope_id),
            );
        }
    }

    fn load(buf: &[u8], pos: usize) -> (r: Self) {
        let _cap: usize = buf.len();
        let r = sockaddr_in6 {
            sin6_family: get_u16_le(buf, pos),
            sin6_port: get_u16_be(buf, pos + 2),
            sin6_flowinfo: get_u32_le(buf, pos + 4),
            sin6_addr: take16(buf, pos + 8),
            sin6_scope_id: get_u32_le(buf, pos + 24),
        };
        proof {
            let img = buf@.subrange(pos as int, pos + 28);
            assert(img.subrange(8, 24) =~= buf@.subrange(pos + 8, pos + 24));
        }
        r
    }
}

/// A value that can be the payload of an attribute.
pub trait ToAttr: Sized {
    /// The payload bytes, without padding.
    spec fn wire(&self) -> Seq<u8>;

    /// The number of payload bytes.
    fn wire_len(&self) -> (n: usize)
        ensures
            n == self.wire().len(),
    ;

    /// Writes the payload to `out[pos..]` and gives its length with padding.
    fn serialize_at(self, out: &mut [u8], pos: usize) -> (n: usize)
        requires
            pos + self.wire().len() <= old(out)@.len(),
        ensures
            final(out)@ == splice(old(out)@, pos as int, self.wire()),
            n == align_up(self.wire().len()),
    ;
}

impl ToAttr for () {
    open spec fn wire(&self) -> Seq<u8> {
        Seq::empty()
    }

    fn wire_len(&self) -> (n: usize) {
        0
    }

    fn serialize_at(self, out: &mut [u8], pos: usize) -> (n: usize) {
        assert(out@ =~= splice(old(out)@, pos as int, self.wire()));
        0
    }
}

impl<T: ReprC> ToAttr for T {
    open spec fn wire(&self) -> Seq<u8> {
        self.image()
    }

    fn wire_len(&self) -> (n: usize) {
        proof {
            self.lemma_image();
        }
        T::size()
    }

    fn serialize_at(self, out: &mut [u8], pos: usize) -> (n: usize) {
        let _cap: usize = out.len();
        proof {
            self.lemma_image();
        }
        self.store(out, pos);
        nl_align_length(T::size())
    }
}

impl ToAttr for u8 {
    open spec fn wire(&self) -> Seq<u8> {
        seq![*self]
    }

    fn wire_len(&self) -> (n: usize) {
        1
    }

    fn serialize_at(self, out: &mut [u8], pos: usize) -> (n: usize) {
        out[pos] = self;
        assert(out@ =~= splice(old(out)@, pos as int, self.wire()));
        nl_align_length(1)
    }
}

impl ToAttr for u16 {
    open spec fn wire(&self) -> Seq<u8> {
        le16(*self)
    }

    fn wire_len(&self) -> (n: usize) {
        2
    }

    fn serialize_at(self, out: &mut [u8], pos: usize) -> (n: usize) {
        put_u16_le(out, pos, self);
        nl_align_length(2)
    }
}

impl ToAttr for u32 {
    open spec fn wire(&self) -> Seq<u8> {
        le32(*self)
    }

    fn wire_len(&self) -> (n: usize) {
        4
    }

    fn serialize_at(self, out: &mut [u8], pos: usize) -> (n: usize) {
        put_u32_le(out, pos, self);
        nl_align_length(4)
    }
}

/// The record of an attribute of type `attr_type`: its header, the payload,
/// and zero bytes up to the next multiple of four. The length in the header
/// leaves the padding out.
pub open spec fn attr_encoding(attr_type: u16, payload: Seq<u8>) -> Seq<u8> {
    (nlattr { nla_len: (4 + payload.len()) as u16, nla_type: attr_type }).image() + payload
        + padding(payload.len())
}

/// The record of a nest of type `attr_type` around the records `children`:
/// the type carries the nested flag, and the length covers the children.
pub open spec fn nest_encoding(attr_type: u16, children: Seq<u8>) -> Seq<u8> {
    (nlattr { nla_len: (4 + children.len()) as u16, nla_type: attr_type | NLA_F_NESTED }).image()
        + children
}

/// The lowest offset at which a builder with the given open nests may write:
/// behind the main header, or behind the header of its innermost nest.
pub open spec fn floor_of(nests: Seq<(nat, u16)>) -> nat {
    if nests.len() == 0 {
        16
    } else {
        nests.last().0 + 4
    }
}

/// The part of a scratch region that lies before the cursor.
pub open spec fn written_of(region: Seq<u8>, cursor: nat) -> Seq<u8> {
    region.subrange(0, cursor as int)
}

/// Whether `n` more bytes fit into a scratch region behind `cursor`.
pub open spec fn has_room(cursor: nat, n: nat) -> bool {
    cursor + n <= MAX_NL_MSG_SIZE
}

/// Whether a scratch region is in order: the cursor is aligned and lies
/// between the floor and the end of the region, and nothing has been written
/// behind it.
pub open spec fn region_wf(region: Seq<u8>, cursor: nat, nests: Seq<(nat, u16)>) -> bool {
    &&& region.len() == MAX_NL_MSG_SIZE
    &&& floor_of(nests) <= cursor <= MAX_NL_MSG_SIZE
    &&& cursor % 4 == 0
    &&& forall|i: int| cursor <= i < MAX_NL_MSG_SIZE ==> region[i] == 0
}

/// Appending to a region whose tail is zero: a write at the cursor, with the
/// cursor moved behind the write and its padding, appends the written bytes
/// and the padding.
pub proof fn lemma_append(region: Seq<u8>, cursor: int, data: Seq<u8>)
    requires
        0 <= cursor,
        cursor + align_up(data.len()) <= region.len(),
        forall|i: int| cursor <= i < region.len() ==> region[i] == 0,
    ensures
        splice(region, cursor, data).subrange(0, cursor + align_up(data.len()))
            == region.subrange(0, cursor) + data + padding(data.len()),
        forall|i: int|
            cursor + align_up(data.len()) <= i < region.len() ==> splice(region, cursor, data)[i]
                == 0,
        splice(region, cursor, data).len() == region.len(),
{
    assert(splice(region, cursor, data).subrange(0, cursor + align_up(data.len()))
        =~= region.subrange(0, cursor) + data + padding(data.len()));
}

/// Closing a nest: with the header of the nest written into the space that
/// was reserved for it, the bytes from there on are the record of the nest.
pub proof fn lemma_close_nest(before: Seq<u8>, children: Seq<u8>, header: nlattr)
    ensures
        splice(before + zeros(4) + children, before.len() as int, header.image()) == before
            + header.image() + children,
{
    header.lemma_image();
    assert(splice(before + zeros(4) + children, before.len() as int, header.image()) =~= before
        + header.image() + children);
}

/// The builder of one message, or of a nest inside one: attributes are
/// appended one after the other.
pub trait NlSerializer: Sized {
    /// What the implementation keeps true of its own fields.
    spec fn inv(&self) -> bool;

    /// The scratch region that the message is built in.
    spec fn region(&self) -> Seq<u8>;

    /// The offset of the next write.
    spec fn cursor(&self) -> nat;

    /// The nests that are open, outermost first: for each the offset of its
    /// header and the type that the header will carry.
    spec fn open_nests(&self) -> Seq<(nat, u16)>;

    /// The main header of the message.
    spec fn head(&self) -> nlmsghdr;

    /// Adds an attribute with a payload of fixed width.
    fn attr<T: ToAttr>(self, attr_type: u16, payload: T) -> (r: Self)
        requires
            self.inv(),
            region_wf(self.region(), self.cursor(), self.open_nests()),
            has_room(self.cursor(), 4 + align_up(payload.wire().len())),
        ensures
            r.inv(),
            region_wf(r.region(), r.cursor(), r.open_nests()),
            r.open_nests() == self.open_nests(),
            r.head() == self.head(),
            r.cursor() == self.cursor() + 4 + align_up(payload.wire().len()),
            written_of(r.region(), r.cursor()) == written_of(self.region(), self.cursor())
                + attr_encoding(attr_type, payload.wire()),
    ;

    /// Adds an attribute with a payload of bytes.
    fn attr_bytes(self, attr_type: u16, payload: &[u8]) -> (r: Self)
        requires
            self.inv(),
            region_wf(self.region(), self.cursor(), self.open_nests()),
            has_room(self.cursor(), 4 + align_up(payload@.len())),
        ensures
            r.inv(),
            region_wf(r.region(), r.cursor(), r.open_nests()),
            r.open_nests() == self.open_nests(),
            r.head() == self.head(),
            r.cursor() == self.cursor() + 4 + align_up(payload@.len()),
            written_of(r.region(), r.cursor()) == written_of(self.region(), self.cursor())
                + attr_encoding(attr_type, payload@),
    ;

    /// The offset of the next write.
    fn pos(&self) -> (p: usize)
        requires
            self.inv(),
            self.cursor() <= MAX_NL_MSG_SIZE,
        ensures
            p == self.cursor(),
    ;

    /// Moves the cursor forward by `len` bytes.
    fn seek(&mut self, len: usize)
        requires
            old(self).inv(),
            old(self).cursor() + len <= MAX_NL_MSG_SIZE,
        ensures
            final(self).inv(),
            final(self).cursor() == old(self).cursor() + len,
            final(self).region() == old(self).region(),
            final(self).open_nests() == old(self).open_nests(),
            final(self).head() == old(self).head(),
    {
        let p = self.pos();
        self.seek_to(p + len);
    }

    /// Moves the cursor to `pos`.
    fn seek_to(&mut self, pos: usize)
        requires
            old(self).inv(),
            pos <= MAX_NL_MSG_SIZE,
        ensures
            final(self).inv(),
            final(self).cursor() == pos,
            final(self).region() == old(self).region(),
            final(self).open_nests() == old(self).open_nests(),
            final(self).head() == old(self).head(),
    ;

    /// Writes `data` into the scratch region at `pos`, wherever the cursor
    /// stands.
    fn write_at(&mut self, pos: usize, data: &[u8])
        requires
            old(self).inv(),
            old(self).region().len() == MAX_NL_MSG_SIZE,
            pos + data@.len() <= MAX_NL_MSG_SIZE,
        ensures
            final(self).inv(),
            final(self).cursor() == old(self).cursor(),
            final(self).region() == splice(old(self).region(), pos as int, data@),
            final(self).open_nests() == old(self).open_nests(),
            final(self).head() == old(self).head(),
    ;

    /// Starts a nest of attributes: space for its header is reserved, and
    /// the header is written when the nest is closed.
    fn attr_list_start(self, attr_type: u16) -> (r: NestBuilder<Self>)
        requires
            self.inv(),
            region_wf(self.region(), self.cursor(), self.open_nests()),
            has_room(self.cursor(), 4),
        ensures
            r.upper.inv(),
            region_wf(r.upper.region(), r.upper.cursor(), r.upper.open_nests()),
            r.upper.open_nests() == self.open_nests(),
            r.upper.head() == self.head(),
            r.upper.cursor() == self.cursor() + 4,
            written_of(r.upper.region(), r.upper.cursor()) == written_of(
                self.region(),
                self.cursor(),
            ) + zeros(4),
            r.start_pos == self.cursor(),
            r.start_attr == (nlattr { nla_len: 0, nla_type: attr_type | NLA_F_NESTED }),
    {
        let mut this = self;
        let start_pos = this.pos();
        this.seek(4);
        proof {
            assert(written_of(this.region(), this.cursor()) =~= written_of(
                self.region(),
                self.cursor(),
            ) + zeros(4));
        }
        NestBuilder {
            upper: this,
            start_pos,
            start_attr: nlattr { nla_len: 0, nla_type: attr_type | NLA_F_NESTED },
        }
    }

    /// Writes the layout of `payload` at `pos`, and gives the offset behind
    /// it and its padding.
    fn write_obj_at<T: ReprC>(&mut self, payload: T, pos: usize) -> (next: usize)
        requires
            old(self).inv(),
            old(self).region().len() == MAX_NL_MSG_SIZE,
            pos + align_up(T::layout_size()) <= MAX_NL_MSG_SIZE,
        ensures
            final(self).inv(),
            final(self).cursor() == old(self).cursor(),
            final(self).region() == splice(old(self).region(), pos as int, payload.image()),
            final(self).open_nests() == old(self).open_nests(),
            final(self).head() == old(self).head(),
            next == pos + align_up(T::layout_size()),
    {
        let mut image: Vec<u8> = Vec::new();
        image.resize(T::size(), 0u8);
        proof {
            payload.lemma_image();
        }
        payload.store(image.as_mut_slice(), 0);
        assert(image@ =~= payload.image());
        self.write_at(pos, image.as_slice());
        pos + nl_align_length(T::size())
    }

    /// Writes the layout of `payload` at the cursor and moves the cursor
    /// behind it and its padding.
    fn write_obj<T: ReprC>(&mut self, payload: T)
        requires
            old(self).inv(),
            region_wf(old(self).region(), old(self).cursor(), old(self).open_nests()),
            has_room(old(self).cursor(), align_up(T::layout_size())),
        ensures
            final(self).inv(),
            region_wf(final(self).region(), final(self).cursor(), final(self).open_nests()),
            final(self).open_nests() == old(self).open_nests(),
            final(self).head() == old(self).head(),
            final(self).cursor() == old(self).cursor() + align_up(T::layout_size()),
            written_of(final(self).region(), final(self).cursor()) == written_of(
                old(self).region(),
                old(self).cursor(),
            ) + payload.image() + padding(T::layout_size()),
    {
        let at = self.pos();
        let new_pos = self.write_obj_at(payload, at);
        self.seek_to(new_pos);
        proof {
            payload.lemma_image();
            lemma_append(old(self).region(), at as int, payload.image());
        }
    }
}

/// The invariant of every builder: its own, and that of its scratch region.
pub open spec fn builder_wf<S: NlSerializer>(s: &S) -> bool {
    s.inv() && region_wf(s.region(), s.cursor(), s.open_nests())
}

/// The bytes that a builder has produced so far, the reserved space of the
/// main header and of the open nests included.
pub open spec fn written<S: NlSerializer>(s: &S) -> Seq<u8> {
    written_of(s.region(), s.cursor())
}

/// Whether two builders are in the same message and the same open nests.
pub open spec fn same_frame<S: NlSerializer>(a: &S, b: &S) -> bool {
    a.open_nests() == b.open_nests() && a.head() == b.head()
}

/// The length of a record: the header, and the payload with its padding, or
/// the children of a nest.
pub proof fn lemma_encoding_len(attr_type: u16, payload: Seq<u8>)
    ensures
        attr_encoding(attr_type, payload).len() == 4 + align_up(payload.len()),
        nest_encoding(attr_type, payload).len() == 4 + payload.len(),
        attr_encoding(attr_type, payload).len() % 4 == 0,
{
    lemma_align_up(payload.len());
}

/// Two builders of a nest that are in the same open nests have their
/// headers at the same place and of the same type.
pub proof fn lemma_same_nest<U: NlSerializer>(a: &NestBuilder<U>, b: &NestBuilder<U>)
    requires
        a.open_nests() == b.open_nests(),
    ensures
        a.start_pos == b.start_pos,
        a.start_attr.nla_type == b.start_attr.nla_type,
        a.upper.open_nests() == b.upper.open_nests(),
{
    let x = a.upper.open_nests();
    let y = b.upper.open_nests();
    let p = (a.start_pos as nat, a.start_attr.nla_type);
    let q = (b.start_pos as nat, b.start_attr.nla_type);
    assert(x.push(p).last() == p);
    assert(y.push(q).last() == q);
    assert(x.push(p).drop_last() =~= x);
    assert(y.push(q).drop_last() =~= y);
}

/// A nest of attributes that is being built inside `upper`.
pub struct NestBuilder<U: NlSerializer> {
    /// The builder that the nest is part of.
    pub upper: U,
    /// Where the header of the nest goes.
    pub start_pos: usize,
    /// The header of the nest; its length is set when the nest is closed.
    pub start_attr: nlattr,
}

impl<U: NlSerializer> NlSerializer for NestBuilder<U> {
    open spec fn inv(&self) -> bool {
        &&& self.upper.inv()
        &&& self.start_pos % 4 == 0
        &&& floor_of(self.upper.open_nests()) <= self.start_pos
        &&& self.start_pos + 4 <= MAX_NL_MSG_SIZE
    }

    open spec fn region(&self) -> Seq<u8> {
        self.upper.region()
    }

    open spec fn cursor(&self) -> nat {
        self.upper.cursor()
    }

    open spec fn open_nests(&self) -> Seq<(nat, u16)> {
        self.upper.open_nests().push((self.start_pos as nat, self.start_attr.nla_type))
    }

    open spec fn head(&self) -> nlmsghdr {
        self.upper.head()
    }

    fn attr<T: ToAttr>(self, attr_type: u16, payload: T) -> (r: Self)
        ensures
            r.start_pos == self.start_pos,
            r.start_attr == self.start_attr,
    {
        let NestBuilder { upper, start_pos, start_attr } = self;
        NestBuilder { upper: upper.attr(attr_type, payload), start_pos, start_attr }
    }

    fn attr_bytes(self, attr_type: u16, payload: &[u8]) -> (r: Self)
        ensures
            r.start_pos == self.start_pos,
            r.start_attr == self.start_attr,
    {
        let NestBuilder { upper, start_pos, start_attr } = self;
        NestBuilder { upper: upper.attr_bytes(attr_type, payload), start_pos, start_attr }
    }

    fn pos(&self) -> (p: usize) {
        self.upper.pos()
    }

    fn seek_to(&mut self, pos: usize) {
        self.upper.seek_to(pos);
    }

    fn write_at(&mut self, pos: usize, data: &[u8]) {
        self.upper.write_at(pos, data);
    }
}

impl<U: NlSerializer> NestBuilder<U> {
    /// Closes the nest: its length, from its header to the cursor, goes into
    /// the header, and the header into the space reserved for it.
    pub fn attr_list_end(self) -> (r: U)
        requires
            builder_wf(&self),
        ensures
            builder_wf(&r),
            r.open_nests() == self.upper.open_nests(),
            r.head() == self.head(),
            r.cursor() == self.cursor(),
            written(&r) == splice(
                written(&self),
                self.start_pos as int,
                (nlattr {
                    nla_len: (self.cursor() - self.start_pos) as u16,
                    nla_type: self.start_attr.nla_type,
                }).image(),
            ),
    {
        let NestBuilder { upper, start_pos, start_attr } = self;
        let mut upper = upper;
        let end: usize = upper.pos();
        let header = nlattr { nla_len: (end - start_pos) as u16, nla_type: start_attr.nla_type };
        let _write_head = upper.write_obj_at(header, start_pos);
        proof {
            header.lemma_image();
            assert(written(&upper) =~= splice(written(&self), start_pos as int, header.image()));
        }
        upper
    }
}

/// The builder of a request. Every message asks for an acknowledgement, and
/// holds at most `MAX_NL_MSG_SIZE` bytes.
pub struct MsgBuilder {
    /// The scratch region; the message occupies its first `pos` bytes.
    pub inner: [u8; 2048],
    /// The main header, which is written into the region last.
    pub header: nlmsghdr,
    /// The offset of the next write.
    pub pos: usize,
}

impl NlSerializer for MsgBuilder {
    open spec fn inv(&self) -> bool {
        true
    }

    open spec fn region(&self) -> Seq<u8> {
        self.inner@
    }

    open spec fn cursor(&self) -> nat {
        self.pos as nat
    }

    open spec fn open_nests(&self) -> Seq<(nat, u16)> {
        Seq::empty()
    }

    open spec fn head(&self) -> nlmsghdr {
        self.header
    }

    fn attr_bytes(self, attr_type: u16, payload: &[u8]) -> (r: Self) {
        let mut this = self;
        let attr = nlattr { nla_len: (4 + payload.len()) as u16, nla_type: attr_type };
        this.write_obj(attr);
        let ghost mid = this.inner@;
        put_bytes(&mut this.inner, this.pos, payload);
        proof {
            lemma_append(mid, this.pos as int, payload@);
            let before = written_of(self.region(), self.cursor());
            assert(before + attr.image() + padding(4) + payload@ + padding(payload@.len())
                =~= before + attr_encoding(attr_type, payload@));
        }
        this.pos = this.pos + nl_align_length(payload.len());
        this
    }

    fn attr<T: ToAttr>(self, attr_type: u16, payload: T) -> (r: Self) {
        let mut this = self;
        let tlen: usize = payload.wire_len();
        let attr = nlattr { nla_len: (4 + tlen) as u16, nla_type: attr_type };
        this.write_obj(attr);
        let ghost mid = this.inner@;
        let n: usize = payload.serialize_at(&mut this.inner, this.pos);
        proof {
            lemma_append(mid, this.pos as int, payload.wire());
            let before = written_of(self.region(), self.cursor());
            let bytes = payload.wire();
            assert(before + attr.image() + padding(4) + bytes + padding(bytes.len()) =~= before
                + attr_encoding(attr_type, bytes));
        }
        this.pos = this.pos + n;
        this
    }

    fn pos(&self) -> (p: usize) {
        self.pos
    }

    fn seek_to(&mut self, pos: usize) {
        self.pos = pos;
    }

    fn write_at(&mut self, pos: usize, data: &[u8]) {
        put_bytes(&mut self.inner, pos, data);
    }
}

/// The bytes of a finished message: the main header with the length of the
/// message in it, then what was written behind the space reserved for it.
pub open spec fn message_bytes(header: nlmsghdr, written: Seq<u8>) -> Seq<u8> {
    (nlmsghdr { nlmsg_len: written.len() as u32, ..header }).image() + written.subrange(
        16,
        written.len() as int,
    )
}

impl MsgBuilder {
    /// A builder for a message of the given type and sequence number, with
    /// space reserved for the main header.
    pub fn new(family: u16, seq: u32) -> (r: Self)
        ensures
            builder_wf(&r),
            r.header == nlmsghdr::new_spec(family, seq),
            r.pos == 16,
            written(&r) == zeros(16),
    {
        let r = MsgBuilder { inner: [0u8; 2048], header: nlmsghdr::new(family, seq), pos: 16 };
        assert(written(&r) =~= zeros(16));
        r
    }

    /// Adds the sub-header of a Generic Netlink message for the command
    /// `cmd`, in version 1 of the family.
    pub fn generic(self, cmd: u8) -> (r: Self)
        requires
            builder_wf(&self),
            has_room(self.cursor(), 4),
        ensures
            builder_wf(&r),
            r.header == self.header,
            written(&r) == written(&self) + (genlmsghdr { cmd, version: 1, reserved: 0 }).image(),
    {
        let mut this = self;
        let gen_header = genlmsghdr { cmd, version: 1, reserved: 0 };
        this.write_obj(gen_header);
        proof {
            gen_header.lemma_image();
            assert(written(&self) + gen_header.image() + padding(4) =~= written(&self)
                + gen_header.image());
        }
        this
    }

    /// Sets the `NLM_F_DUMP` flag on the message.
    pub fn dump(self) -> (r: Self)
        ensures
            r.inner == self.inner,
            r.pos == self.pos,
            builder_wf(&self) ==> builder_wf(&r),
            written(&r) == written(&self),
            r.header == (nlmsghdr {
                nlmsg_flags: self.header.nlmsg_flags | NLM_F_DUMP,
                ..self.header
            }),
    {
        let mut this = self;
        this.header.nlmsg_flags = this.header.nlmsg_flags | NLM_F_DUMP;
        this
    }

    /// Completes the message: the length goes into the main header, and the
    /// header to the front of the region.
    pub fn finalize(&mut self)
        requires
            builder_wf(old(self)),
        ensures
            builder_wf(final(self)),
            final(self).pos == old(self).pos,
            final(self).header == (nlmsghdr {
                nlmsg_len: old(self).pos as u32,
                ..old(self).header
            }),
            written(final(self)) == message_bytes(old(self).header, written(old(self))),
    {
        self.header.nlmsg_len = self.pos as u32;
        let header = self.header;
        let _next = self.write_obj_at(header, 0);
        proof {
            header.lemma_image();
            assert(written(self) =~= message_bytes(old(self).header, written(old(self))));
        }
    }

    /// The bytes of the message so far. After `finalize` they are what is
    /// sent to the kernel.
    pub fn as_bytes(&self) -> (r: &[u8])
        requires
            builder_wf(self),
        ensures
            r@ == written(self),
    {
        slice_subrange(self.inner.as_slice(), 0, self.pos)
    }
}

} // verus!
