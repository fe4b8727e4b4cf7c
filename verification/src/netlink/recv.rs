//! The deserializer: a receive buffer, and lazy iterators over the messages
//! it holds and over their attributes.
//!
//! Nothing is parsed when a datagram arrives. The iterators walk the bytes on
//! demand, and the values they yield are views that borrow the buffer: the
//! buffer cannot be refilled while a view is alive.
use vstd::prelude::*;
use vstd::slice::{slice_subrange, slice_to_vec};
use crate::netlink::bindings::{
    genlmsghdr, ifinfomsg, nl_align_length, nlattr, nlmsghdr, NLMSG_DONE, NLMSG_ERROR,
    NLM_F_DUMP_INTR, NLM_F_MULTI, RTM_DELLINK, RTM_NEWLINK,
};
use crate::netlink::send::ReprC;
use crate::netlink::wire::{
    align_up, get_i32_le, get_u16_le, get_u32_le, le16_at, le32_at, put_bytes, signed32,
};
use crate::netlink::{errno_magnitude, errno_of, Error};

verus! {

/// The capacity of a receive buffer.
pub const RECV_BUFFER_SIZE: usize = 4096;

/// A value that can be decoded from the payload of an attribute.
pub trait FromAttr: Sized + View {
    /// The view of the value that `payload` decodes to, if it decodes.
    spec fn decode(payload: Seq<u8>) -> Option<Self::V>;

    /// Decodes a payload; a payload that is too short, or of the wrong form,
    /// decodes to nothing.
    fn from_attr(buffer: &[u8]) -> (r: Option<Self>)
        ensures
            r matches Some(v) ==> Self::decode(buffer@) == Some(v@),
            r is None ==> Self::decode(buffer@) is None,
    ;
}

impl FromAttr for u32 {
    open spec fn decode(payload: Seq<u8>) -> Option<u32> {
        if payload.len() >= 4 {
            Some(le32_at(payload, 0))
        } else {
            None
        }
    }

    fn from_attr(buffer: &[u8]) -> (r: Option<Self>) {
        if buffer.len() < 4 {
            None
        } else {
            Some(get_u32_le(buffer, 0))
        }
    }
}

impl FromAttr for i32 {
    open spec fn decode(payload: Seq<u8>) -> Option<i32> {
        if payload.len() >= 4 {
            Some(signed32(le32_at(payload, 0)))
        } else {
            None
        }
    }

    fn from_attr(buffer: &[u8]) -> (r: Option<Self>) {
        if buffer.len() < 4 {
            None
        } else {
            Some(get_i32_le(buffer, 0))
        }
    }
}

impl FromAttr for u16 {
    open spec fn decode(payload: Seq<u8>) -> Option<u16> {
        if payload.len() >= 2 {
            Some(le16_at(payload, 0))
        } else {
            None
        }
    }

    fn from_attr(buffer: &[u8]) -> (r: Option<Self>) {
        if buffer.len() < 2 {
            None
        } else {
            Some(get_u16_le(buffer, 0))
        }
    }
}

impl FromAttr for u8 {
    open spec fn decode(payload: Seq<u8>) -> Option<u8> {
        if payload.len() >= 1 {
            Some(payload[0])
        } else {
            None
        }
    }

    fn from_attr(buffer: &[u8]) -> (r: Option<Self>) {
        if buffer.len() < 1 {
            None
        } else {
            Some(buffer[0])
        }
    }
}

/// Whether `s` is a string that ends in its only NUL byte.
pub open spec fn nul_terminated(s: Seq<u8>) -> bool {
    &&& s.len() > 0
    &&& s[s.len() - 1] == 0
    &&& forall|i: int| 0 <= i < s.len() - 1 ==> s[i] != 0
}

/// A byte string without NUL bytes, as the kernel hands out names.
#[derive(Debug, PartialEq, Eq)]
pub struct CString {
    bytes: Vec<u8>,
}

impl Clone for CString {
    fn clone(&self) -> (r: Self)
        ensures
            r@ == self@,
    {
        proof {
            use_type_invariant(self);
        }
        let bytes = self.bytes.clone();
        assert(bytes@ =~= self.bytes@);
        CString { bytes }
    }
}

impl View for CString {
    type V = Seq<u8>;

    /// The bytes of the string, without the terminator.
    closed spec fn view(&self) -> Seq<u8> {
        self.bytes@
    }
}

impl CString {
    /// No byte of the string is NUL.
    #[verifier::type_invariant]
    spec fn no_nul(self) -> bool {
        forall|i: int| 0 <= i < self.bytes@.len() ==> self.bytes@[i] != 0
    }

    /// Reads a string that ends in its only NUL byte.
    pub fn from_bytes_with_nul(bytes: &[u8]) -> (r: Option<CString>)
        ensures
            r is Some <==> nul_terminated(bytes@),
            r matches Some(s) ==> s@ == bytes@.drop_last(),
    {
        let n: usize = bytes.len();
        if n == 0 {
            return None;
        }
        if bytes[n - 1] != 0 {
            return None;
        }
        let mut i: usize = 0;
        while i < n - 1
            invariant
                n == bytes@.len(),
                n > 0,
                i <= n - 1,
                forall|j: int| 0 <= j < i ==> bytes@[j] != 0,
            decreases n - i,
        {
            if bytes[i] == 0 {
                return None;
            }
            i = i + 1;
        }
        let content = slice_to_vec(slice_subrange(bytes, 0, n - 1));
        assert(content@ =~= bytes@.drop_last());
        Some(CString { bytes: content })
    }

    /// The bytes of the string, without the terminator.
    pub fn as_bytes(&self) -> (r: &[u8])
        ensures
            r@ == self@,
            forall|i: int| 0 <= i < r@.len() ==> r@[i] != 0,
    {
        proof {
            use_type_invariant(self);
        }
        self.bytes.as_slice()
    }
}

impl FromAttr for CString {
    open spec fn decode(payload: Seq<u8>) -> Option<Seq<u8>> {
        if nul_terminated(payload) {
            Some(payload.drop_last())
        } else {
            None
        }
    }

    fn from_attr(buffer: &[u8]) -> (r: Option<Self>) {
        CString::from_bytes_with_nul(buffer)
    }
}

/// The identifier of an attribute, and whether its payload is a nest.
#[derive(Debug, Clone, Copy, PartialEq, Eq, Structural)]
pub enum AttributeType {
    Nested(u32),
    Raw(u32),
}

/// The header of the first record of `s`.
pub open spec fn attr_head(s: Seq<u8>) -> nlattr {
    nlattr::from_image(s.subrange(0, 4))
}

/// Whether `s` starts with a record that breaks the format: one that
/// declares less than its own header, or more than `s` holds once padded.
pub open spec fn attr_malformed(s: Seq<u8>) -> bool {
    &&& s.len() >= 4
    &&& (attr_head(s).nla_len < 4 || align_up(attr_head(s).nla_len as nat) > s.len())
}

/// The type of a record, as its header gives it.
pub open spec fn attr_kind(h: nlattr) -> AttributeType {
    if h.spec_is_nested() {
        AttributeType::Nested(h.spec_payload_type() as u32)
    } else {
        AttributeType::Raw(h.spec_payload_type() as u32)
    }
}

/// The payload of the first record of `s`.
pub open spec fn attr_payload(s: Seq<u8>) -> Seq<u8> {
    s.subrange(4, attr_head(s).nla_len as int)
}

/// What follows the first record of `s` and its padding.
pub open spec fn attr_rest(s: Seq<u8>) -> Seq<u8> {
    s.subrange(align_up(attr_head(s).nla_len as nat) as int, s.len() as int)
}

/// The attributes that a walk over `s` yields, each as its type and payload;
/// none where a record breaks the format.
pub open spec fn attrs_of(s: Seq<u8>) -> Option<Seq<(AttributeType, Seq<u8>)>>
    decreases s.len(),
{
    if s.len() < 4 {
        Some(Seq::empty())
    } else if attr_malformed(s) {
        None
    } else {
        match attrs_of(attr_rest(s)) {
            Some(tail) => Some(seq![(attr_kind(attr_head(s)), attr_payload(s))] + tail),
            None => None,
        }
    }
}

/// The protocol dialect of a buffer, which decides the sub-header of its
/// messages.
#[derive(Debug, Clone, Copy, PartialEq, Eq, Structural)]
pub enum NetlinkType {
    /// Generic Netlink, for the family of the given id.
    Generic(u16),
    Route,
}

/// The header that follows the main header of a message.
#[derive(Debug, Clone, Copy, PartialEq, Eq, Structural)]
pub enum SubHeader {
    Generic(genlmsghdr),
    RouteIfinfo(ifinfomsg),
    /// No sub-header: the attributes follow the main header.
    Absent,
}

/// A receive buffer: the bytes of the datagram that was received last.
#[derive(Debug)]
pub struct MsgBuffer {
    /// The storage; the datagram occupies its first `size` bytes.
    pub inner: [u8; 4096],
    /// The length of the datagram.
    pub size: usize,
    pub msg_type: NetlinkType,
    /// Whether a datagram was ever placed in the buffer.
    pub filled: bool,
}

impl MsgBuffer {
    /// The buffer holds no more than its capacity.
    pub closed spec fn wf(&self) -> bool {
        self.size <= RECV_BUFFER_SIZE
    }

    /// The bytes of the datagram that the buffer holds.
    pub closed spec fn data(&self) -> Seq<u8> {
        self.inner@.subrange(0, self.size as int)
    }

    /// The dialect that the buffer was made for.
    pub closed spec fn kind(&self) -> NetlinkType {
        self.msg_type
    }

    /// Whether a datagram was ever placed in the buffer.
    pub closed spec fn is_filled(&self) -> bool {
        self.filled
    }

    /// An empty buffer for messages of the given dialect.
    pub fn new(msg_type: NetlinkType) -> (r: Self)
        ensures
            r.wf(),
            r.data() == Seq::<u8>::empty(),
            r.kind() == msg_type,
            !r.is_filled(),
    {
        let r = MsgBuffer { inner: [0u8; 4096], size: 0, msg_type, filled: false };
        assert(r.data() =~= Seq::<u8>::empty());
        r
    }

    /// Replaces the content of the buffer by a datagram. As with a receive
    /// into the buffer itself, what exceeds the capacity is cut off.
    pub fn refill(&mut self, datagram: &[u8])
        requires
            old(self).wf(),
        ensures
            final(self).wf(),
            final(self).kind() == old(self).kind(),
            final(self).is_filled(),
            datagram@.len() <= RECV_BUFFER_SIZE ==> final(self).data() == datagram@,
            datagram@.len() > RECV_BUFFER_SIZE ==> final(self).data() == datagram@.subrange(
                0,
                RECV_BUFFER_SIZE as int,
            ),
    {
        let n: usize = if datagram.len() <= RECV_BUFFER_SIZE {
            datagram.len()
        } else {
            RECV_BUFFER_SIZE
        };
        let head = slice_subrange(datagram, 0, n);
        put_bytes(&mut self.inner, 0, head);
        self.size = n;
        self.filled = true;
        assert(self.data() =~= datagram@.subrange(0, n as int));
        assert(datagram@.len() <= RECV_BUFFER_SIZE ==> datagram@.subrange(0, n as int)
            =~= datagram@);
    }

    /// The number of bytes of the datagram that the buffer holds.
    pub fn size(&self) -> (n: usize)
        requires
            self.wf(),
        ensures
            n == self.data().len(),
            n <= RECV_BUFFER_SIZE,
    {
        self.size
    }

    /// The bytes of the datagram that the buffer holds.
    pub fn bytes(&self) -> (r: &[u8])
        requires
            self.wf(),
        ensures
            r@ == self.data(),
            r@.len() <= RECV_BUFFER_SIZE,
    {
        slice_subrange(self.inner.as_slice(), 0, self.size)
    }

    /// Reads the fixed layout `T` at `start`, if it ends within `limit`, and
    /// gives the offset that follows it.
    fn deserialize<T: ReprC>(&self, start: usize, limit: usize) -> (r: Result<(T, usize), Error>)
        requires
            self.wf(),
            limit <= self.data().len(),
            T::layout_size() <= RECV_BUFFER_SIZE,
            start <= RECV_BUFFER_SIZE,
        ensures
            start + align_up(T::layout_size()) > limit ==> r matches Err(Error::Truncated),
            start + align_up(T::layout_size()) <= limit ==> (r matches Ok((v, next)) && v
                == T::from_image(
                self.data().subrange(start as int, start + T::layout_size()),
            ) && next == start + align_up(T::layout_size())),
    {
        let width: usize = nl_align_length(T::size());
        if start + width > limit {
            return Err(Error::Truncated);
        }
        let value = T::load(self.bytes(), start);
        Ok((value, start + width))
    }

    /// An iterator over the messages of the datagram that the buffer holds.
    pub fn recv_msgs(&self) -> (r: PartIterator<'_>)
        requires
            self.wf(),
        ensures
            r.wf(),
            r.buffer() == *self,
            r.position() == 0,
            !r.is_stopped(),
    {
        PartIterator { pos: 0, stopped: false, msg: self }
    }
}

/// An attribute: a view of one record of the buffer.
#[derive(Clone, Copy)]
pub struct Attribute<'a> {
    pub payload_start: usize,
    pub payload_end: usize,
    pub attribute_type: AttributeType,
    pub msg: &'a MsgBuffer,
}

impl<'a> Attribute<'a> {
    /// The view lies within the datagram.
    pub closed spec fn wf(&self) -> bool {
        &&& self.msg.wf()
        &&& self.payload_start <= self.payload_end <= self.msg.size
    }

    /// The payload bytes: those of the datagram between the two offsets of
    /// the view.
    pub open spec fn payload(&self) -> Seq<u8> {
        self.msg.data().subrange(self.payload_start as int, self.payload_end as int)
    }

    /// The buffer that the view borrows.
    pub closed spec fn buffer(&self) -> MsgBuffer {
        *self.msg
    }

    fn new(attr: nlattr, start: usize, msg: &'a MsgBuffer) -> (r: Self)
        requires
            msg.wf(),
            attr.nla_len >= 4,
            start + attr.spec_payload_length() <= msg.data().len(),
        ensures
            r.wf(),
            r.buffer() == *msg,
            r.attribute_type == attr_kind(attr),
            r.payload_start == start,
            r.payload_end == start + attr.spec_payload_length(),
    {
        Attribute {
            payload_start: start,
            payload_end: start + attr.payload_length(),
            attribute_type: if attr.is_nested() {
                AttributeType::Nested(attr.payload_type() as u32)
            } else {
                AttributeType::Raw(attr.payload_type() as u32)
            },
            msg,
        }
    }

    /// The payload. It is always there; the option is kept for callers that
    /// chain on it.
    pub fn get_bytes(&self) -> (r: Option<&'a [u8]>)
        requires
            self.wf(),
        ensures
            r matches Some(b) && b@ == self.payload(),
    {
        Some(slice_subrange(self.msg.bytes(), self.payload_start, self.payload_end))
    }

    /// Decodes the payload as a `T`.
    pub fn get<T: FromAttr>(&self) -> (r: Option<T>)
        requires
            self.wf(),
        ensures
            r matches Some(v) ==> T::decode(self.payload()) == Some(v@),
            r is None ==> T::decode(self.payload()) is None,
    {
        match self.get_bytes() {
            Some(bytes) => T::from_attr(bytes),
            None => None,
        }
    }

    /// The same attribute, taken as a nest. Some families leave the nested
    /// flag off their nests.
    pub fn make_nested(&self) -> (r: Self)
        requires
            self.wf(),
        ensures
            r.wf(),
            r.buffer() == self.buffer(),
            r.payload_start == self.payload_start,
            r.payload_end == self.payload_end,
            r.payload() == self.payload(),
            self.attribute_type matches AttributeType::Raw(t) ==> r.attribute_type
                == AttributeType::Nested(t),
            self.attribute_type matches AttributeType::Nested(t) ==> r.attribute_type
                == AttributeType::Nested(t),
    {
        Attribute {
            payload_start: self.payload_start,
            payload_end: self.payload_end,
            attribute_type: match self.attribute_type {
                AttributeType::Raw(t) => AttributeType::Nested(t),
                AttributeType::Nested(t) => AttributeType::Nested(t),
            },
            msg: self.msg,
        }
    }

    /// An iterator over the attributes inside this one: those of its payload
    /// if it is a nest, none if it is not.
    pub fn attributes(&self) -> (r: AttributeIterator<'a>)
        requires
            self.wf(),
        ensures
            r.wf(),
            r.buffer() == self.buffer(),
            self.attribute_type is Nested ==> r.offset() == self.payload_start && r.limit()
                == self.payload_end && r.remaining() == self.payload(),
            self.attribute_type is Raw ==> r.offset() == 0 && r.limit() == 0 && r.remaining()
                == Seq::<u8>::empty(),
    {
        match self.attribute_type {
            AttributeType::Raw(_) => {
                let r = AttributeIterator { pos: 0, end: 0, msg: self.msg };
                assert(r.remaining() =~= Seq::<u8>::empty());
                r
            },
            AttributeType::Nested(_) => AttributeIterator {
                pos: self.payload_start,
                end: self.payload_end,
                msg: self.msg,
            },
        }
    }
}

/// The attributes of a list as they are read: each with its type and its
/// payload.
pub open spec fn attr_views(attrs: Seq<Attribute<'_>>) -> Seq<(AttributeType, Seq<u8>)> {
    attrs.map_values(|a: Attribute<'_>| (a.attribute_type, a.payload()))
}

/// An iterator over the attribute records of a span of the buffer.
#[derive(Clone, Copy)]
pub struct AttributeIterator<'a> {
    pos: usize,
    end: usize,
    msg: &'a MsgBuffer,
}

impl<'a> AttributeIterator<'a> {
    /// The span lies within the datagram.
    pub closed spec fn wf(&self) -> bool {
        &&& self.msg.wf()
        &&& self.pos <= self.end <= self.msg.size
    }

    /// The offset of the record that the next step looks at.
    pub closed spec fn offset(&self) -> usize {
        self.pos
    }

    /// The offset at which the span of the iterator ends.
    pub closed spec fn limit(&self) -> usize {
        self.end
    }

    /// The bytes that the iterator has not walked yet.
    pub closed spec fn remaining(&self) -> Seq<u8> {
        self.msg.data().subrange(self.pos as int, self.end as int)
    }

    /// What is left to walk are the bytes of the datagram from the cursor to
    /// the end of the span.
    pub proof fn lemma_remaining(&self)
        ensures
            self.remaining() == self.buffer().data().subrange(
                self.offset() as int,
                self.limit() as int,
            ),
    {
    }

    /// The buffer that the iterator borrows.
    pub closed spec fn buffer(&self) -> MsgBuffer {
        *self.msg
    }

    /// Whether the record at the cursor breaks the format, so that `next`
    /// must not be called.
    pub fn is_malformed(&self) -> (b: bool)
        requires
            self.wf(),
        ensures
            b == attr_malformed(self.remaining()),
    {
        if self.end - self.pos < 4 {
            return false;
        }
        let data = self.msg.bytes();
        let attr = nlattr::load(data, self.pos);
        proof {
            assert(self.remaining().subrange(0, 4) =~= data@.subrange(
                self.pos as int,
                self.pos + 4,
            ));
        }
        if attr.nla_len < 4 {
            return true;
        }
        nl_align_length(attr.nla_len as usize) > self.end - self.pos
    }

    /// The number of bytes that the iterator has not walked yet.
    pub fn remaining_len(&self) -> (n: usize)
        requires
            self.wf(),
        ensures
            n == self.remaining().len(),
    {
        self.end - self.pos
    }

    /// All the attributes that are left to walk, in their order; none where
    /// a record among them breaks the format.
    pub fn collect(self) -> (r: Option<Vec<Attribute<'a>>>)
        requires
            self.wf(),
        ensures
            r matches Some(found) ==> attrs_of(self.remaining()) == Some(attr_views(found@))
                && forall|i: int|
                0 <= i < found@.len() ==> (#[trigger] found@[i]).wf() && found@[i].buffer()
                    == self.buffer(),
            r is None ==> attrs_of(self.remaining()) is None,
    {
        let mut it = self;
        let mut found: Vec<Attribute<'a>> = Vec::new();
        assert(attr_views(found@) =~= Seq::empty());
        while it.remaining_len() >= 4
            invariant
                it.wf(),
                it.buffer() == self.buffer(),
                forall|i: int|
                    0 <= i < found@.len() ==> (#[trigger] found@[i]).wf() && found@[i].buffer()
                        == self.buffer(),
                attrs_of(self.remaining()) == (match attrs_of(it.remaining()) {
                    Some(tail) => Some(attr_views(found@) + tail),
                    None => None,
                }),
            decreases it.remaining().len(),
        {
            if it.is_malformed() {
                return None;
            }
            let ghost before = attr_views(found@);
            let ghost left = it.remaining();
            let attr = match it.next() {
                Some(attr) => attr,
                None => {
                    return None;
                },
            };
            found.push(attr);
            proof {
                let read = (attr.attribute_type, attr.payload());
                assert(attr_views(found@) =~= before.push(read));
                match attrs_of(attr_rest(left)) {
                    Some(tail) => {
                        assert(before + (seq![read] + tail) =~= before.push(read) + tail);
                    },
                    None => {},
                }
            }
        }
        assert(attr_views(found@) + Seq::empty() =~= attr_views(found@));
        Some(found)
    }

    /// Yields the record at the cursor and moves past it and its padding;
    /// yields nothing once less than a header is left.
    pub fn next(&mut self) -> (r: Option<Attribute<'a>>)
        requires
            old(self).wf(),
            !attr_malformed(old(self).remaining()),
        ensures
            final(self).wf(),
            final(self).buffer() == old(self).buffer(),
            final(self).limit() == old(self).limit(),
            old(self).remaining().len() < 4 ==> (r is None && final(self).offset() == old(
                self,
            ).offset() && final(self).remaining() == old(self).remaining()),
            old(self).remaining().len() >= 4 ==> ({
                &&& r matches Some(a)
                &&& a.wf()
                &&& a.buffer() == old(self).buffer()
                &&& a.attribute_type == attr_kind(attr_head(old(self).remaining()))
                &&& a.payload_start == old(self).offset() + 4
                &&& a.payload_end == old(self).offset() + attr_head(old(self).remaining()).nla_len
                &&& a.payload() == attr_payload(old(self).remaining())
                &&& final(self).offset() == old(self).offset() + align_up(
                    attr_head(old(self).remaining()).nla_len as nat,
                )
                &&& final(self).remaining() == attr_rest(old(self).remaining())
            }),
    {
        let (attr, new_pos) = match self.msg.deserialize::<nlattr>(self.pos, self.end) {
            Ok(found) => found,
            Err(_) => {
                return None;
            },
        };
        proof {
            assert(old(self).remaining().subrange(0, 4) =~= self.msg.data().subrange(
                self.pos as int,
                self.pos + 4,
            ));
        }
        let step: usize = nl_align_length(attr.payload_length());
        let found = Attribute::new(attr, new_pos, self.msg);
        proof {
            assert(found.payload() =~= attr_payload(old(self).remaining()));
            assert(self.msg.data().subrange(new_pos + step, self.end as int) =~= attr_rest(
                old(self).remaining(),
            ));
        }
        self.pos = new_pos + step;
        Some(found)
    }
}

/// One message of a datagram: its headers, and a view of its attributes.
#[derive(Clone, Copy)]
pub struct MsgPart<'a> {
    pub header: nlmsghdr,
    pub sub_header: SubHeader,
    pub attributes_start: usize,
    pub attributes_end: usize,
    pub msg: &'a MsgBuffer,
}

impl<'a> MsgPart<'a> {
    /// The attribute span lies within the datagram.
    pub closed spec fn wf(&self) -> bool {
        &&& self.msg.wf()
        &&& self.attributes_start <= self.attributes_end <= self.msg.size
    }

    /// The bytes of the attributes of the message: those of the datagram
    /// between the two offsets of the view.
    pub open spec fn region(&self) -> Seq<u8> {
        self.msg.data().subrange(self.attributes_start as int, self.attributes_end as int)
    }

    /// The buffer that the view borrows.
    pub closed spec fn buffer(&self) -> MsgBuffer {
        *self.msg
    }

    /// An iterator over the attributes of the message.
    pub fn attributes(&self) -> (r: AttributeIterator<'a>)
        requires
            self.wf(),
        ensures
            r.wf(),
            r.buffer() == self.buffer(),
            r.offset() == self.attributes_start,
            r.limit() == self.attributes_end,
            r.remaining() == self.region(),
    {
        AttributeIterator { pos: self.attributes_start, end: self.attributes_end, msg: self.msg }
    }
}

/// What a step of a message iterator finds in a datagram.
pub enum Outcome {
    /// The datagram is used up: another one has to be received.
    Refill,
    /// A message with attributes in `data[start..end]`.
    Part { header: nlmsghdr, sub_header: SubHeader, start: usize, end: usize },
    /// A header declares more than the datagram holds.
    Truncated,
    /// The kernel flagged the dump as interrupted.
    Interrupted,
    /// A message of a type that the dialect of the buffer does not know.
    Unsupported,
    /// The kernel reports an error; `errno` is the negative code it sent.
    OsError { errno: i32 },
    /// An acknowledgement, or the end of a dump.
    End,
}

/// Whether `flags` has all the bits of `flag`.
pub open spec fn has_flag(flags: u16, flag: u16) -> bool {
    flags & flag == flag
}

/// The main header at `pos`.
pub open spec fn header_at(data: Seq<u8>, pos: int) -> nlmsghdr {
    nlmsghdr::from_image(data.subrange(pos, pos + 16))
}

/// Whether a whole message lies at `pos`: its header fits, and the length
/// that the header declares covers the header and ends within the datagram.
pub open spec fn message_at(data: Seq<u8>, pos: int) -> bool {
    &&& 0 <= pos
    &&& pos + 16 <= data.len()
    &&& header_at(data, pos).nlmsg_len >= 16
    &&& pos + header_at(data, pos).nlmsg_len <= data.len()
}

/// What the message at `pos` is, once its length and flags have passed.
pub open spec fn dispatch(data: Seq<u8>, kind: NetlinkType, pos: int) -> Outcome {
    let header = header_at(data, pos);
    let body = pos + 16;
    let limit = pos + header.nlmsg_len;
    if header.nlmsg_type == NLMSG_ERROR {
        if body + 4 > limit {
            Outcome::Truncated
        } else if signed32(le32_at(data, body)) < 0 {
            Outcome::OsError { errno: signed32(le32_at(data, body)) }
        } else {
            Outcome::End
        }
    } else if header.nlmsg_type == NLMSG_DONE {
        Outcome::End
    } else if kind == NetlinkType::Generic(header.nlmsg_type) {
        if body + 4 > limit {
            Outcome::Truncated
        } else {
            Outcome::Part {
                header,
                sub_header: SubHeader::Generic(
                    genlmsghdr::from_image(data.subrange(body, body + 4)),
                ),
                start: (body + 4) as usize,
                end: limit as usize,
            }
        }
    } else if kind == NetlinkType::Route && (header.nlmsg_type == RTM_NEWLINK
        || header.nlmsg_type == RTM_DELLINK) {
        if body + 16 > limit {
            Outcome::Truncated
        } else {
            Outcome::Part {
                header,
                sub_header: SubHeader::RouteIfinfo(
                    ifinfomsg::from_image(data.subrange(body, body + 16)),
                ),
                start: (body + 16) as usize,
                end: limit as usize,
            }
        }
    } else {
        Outcome::Unsupported
    }
}

/// What a step finds at `pos` of a datagram `data`, in a buffer of the
/// given dialect, as long as no error of the kernel was found before;
/// `filled` says whether the buffer ever received anything.
pub open spec fn step_outcome(data: Seq<u8>, kind: NetlinkType, filled: bool, pos: int) -> Outcome {
    if pos + 16 > data.len() {
        if pos == 0 && filled {
            Outcome::Truncated
        } else {
            Outcome::Refill
        }
    } else if !message_at(data, pos) {
        Outcome::Truncated
    } else if has_flag(header_at(data, pos).nlmsg_flags, NLM_F_DUMP_INTR) {
        Outcome::Interrupted
    } else {
        dispatch(data, kind, pos)
    }
}

/// Where the cursor stands after a step at `pos`: in place where no header
/// fits, at the end of the datagram where a length is wrong, else behind the
/// message.
pub open spec fn step_cursor(data: Seq<u8>, pos: int) -> int {
    if pos + 16 > data.len() {
        pos
    } else if !message_at(data, pos) {
        data.len() as int
    } else {
        pos + header_at(data, pos).nlmsg_len
    }
}

/// What a step of an iterator finds at `pos`. An iterator that has reported
/// an error of the kernel is `stopped`: the exchange is over, so every later
/// step finds the end, whatever the datagram holds behind the error.
pub open spec fn iterator_outcome(
    data: Seq<u8>,
    kind: NetlinkType,
    filled: bool,
    stopped: bool,
    pos: int,
) -> Outcome {
    if stopped {
        Outcome::End
    } else {
        step_outcome(data, kind, filled, pos)
    }
}

/// Where the cursor of an iterator stands after a step at `pos`: a stopped
/// iterator does not move.
pub open spec fn iterator_cursor(data: Seq<u8>, stopped: bool, pos: int) -> int {
    if stopped {
        pos
    } else {
        step_cursor(data, pos)
    }
}

/// Whether an iterator is stopped after a step at `pos`: it stays stopped,
/// and it stops where the step finds an error of the kernel.
pub open spec fn iterator_stops(
    data: Seq<u8>,
    kind: NetlinkType,
    filled: bool,
    stopped: bool,
    pos: int,
) -> bool {
    stopped || step_outcome(data, kind, filled, pos) is OsError
}

/// Whether the message at `pos` closes a dump that was never announced: a
/// `NLMSG_DONE` without the multi-part flag.
pub open spec fn bare_done_at(data: Seq<u8>, pos: int) -> bool {
    &&& message_at(data, pos)
    &&& !has_flag(header_at(data, pos).nlmsg_flags, NLM_F_DUMP_INTR)
    &&& header_at(data, pos).nlmsg_type == NLMSG_DONE
    &&& !has_flag(header_at(data, pos).nlmsg_flags, NLM_F_MULTI)
}

/// The hint of the error for a message of an unknown type.
pub open spec fn unsupported_hint() -> Seq<char> {
    "unsupported netlink family or message type"@
}

/// Whether `e` is the error that stands for the failure `outcome`.
pub open spec fn reports(e: Error, outcome: Outcome) -> bool {
    match outcome {
        Outcome::Truncated => e is Truncated,
        Outcome::Interrupted => e is Interrupted,
        Outcome::Unsupported => e matches Error::Other(hint) && hint@ == unsupported_hint(),
        Outcome::OsError { errno } => e matches Error::OsError(code) && code == errno_of(
            errno_magnitude(errno),
        ),
        _ => false,
    }
}

/// What a step of a message iterator yields.
pub enum PartStep<'a> {
    /// The datagram is used up: receive another one into the buffer, and go
    /// on with a new iterator.
    Refill,
    /// A message.
    Part(MsgPart<'a>),
    /// An error, of the kernel's or in the format.
    Failed(Error),
    /// An acknowledgement, or the end of a dump: nothing is yielded, and the
    /// iteration is over.
    End,
}

impl<'a> PartStep<'a> {
    /// Whether this is what a step yields for `outcome`, in a datagram `data`
    /// of `buffer`.
    pub open spec fn yields(&self, outcome: Outcome, buffer: MsgBuffer) -> bool {
        match outcome {
            Outcome::Refill => *self is Refill,
            Outcome::Part { header, sub_header, start, end } => {
                &&& *self matches PartStep::Part(part)
                &&& part.wf()
                &&& part.buffer() == buffer
                &&& part.header == header
                &&& part.sub_header == sub_header
                &&& part.attributes_start == start
                &&& part.attributes_end == end
                &&& part.region() == buffer.data().subrange(start as int, end as int)
            },
            Outcome::End => *self is End,
            failure => *self matches PartStep::Failed(e) && reports(e, failure),
        }
    }
}

/// An iterator over the messages of a datagram.
pub struct PartIterator<'a> {
    pos: usize,
    /// Whether a step has reported an error of the kernel.
    stopped: bool,
    msg: &'a MsgBuffer,
}

impl<'a> PartIterator<'a> {
    /// The cursor lies within the datagram.
    pub closed spec fn wf(&self) -> bool {
        &&& self.msg.wf()
        &&& self.pos <= self.msg.size
    }

    /// The offset of the message that the next step looks at.
    pub closed spec fn position(&self) -> usize {
        self.pos
    }

    /// Whether a step has reported an error of the kernel, after which
    /// every step finds the end.
    pub closed spec fn is_stopped(&self) -> bool {
        self.stopped
    }

    /// The buffer that the iterator borrows.
    pub closed spec fn buffer(&self) -> MsgBuffer {
        *self.msg
    }

    /// The offset of the message that the next step looks at.
    pub fn position_now(&self) -> (p: usize)
        ensures
            p == self.position(),
    {
        self.pos
    }

    /// Whether a step has reported an error of the kernel.
    pub fn stopped(&self) -> (b: bool)
        ensures
            b == self.is_stopped(),
    {
        self.stopped
    }

    /// Whether the next step would look at a `NLMSG_DONE` without the
    /// multi-part flag, so that `next` must not be called.
    pub fn at_bare_done(&self) -> (b: bool)
        requires
            self.wf(),
        ensures
            b == (!self.is_stopped() && bare_done_at(
                self.buffer().data(),
                self.position() as int,
            )),
    {
        if self.stopped {
            return false;
        }
        let data = self.msg.bytes();
        if data.len() - self.pos < 16 {
            return false;
        }
        let header = nlmsghdr::load(data, self.pos);
        if header.nlmsg_len < 16 || header.nlmsg_len as usize > data.len() - self.pos {
            return false;
        }
        (header.nlmsg_flags & NLM_F_DUMP_INTR) != NLM_F_DUMP_INTR && header.nlmsg_type
            == NLMSG_DONE && (header.nlmsg_flags & NLM_F_MULTI) != NLM_F_MULTI
    }

    /// Looks at the message at the cursor, and moves the cursor behind it.
    /// Once a step has reported an error of the kernel, every step yields
    /// the end.
    pub fn next(&mut self) -> (r: PartStep<'a>)
        requires
            old(self).wf(),
            old(self).is_stopped() || !bare_done_at(
                old(self).buffer().data(),
                old(self).position() as int,
            ),
        ensures
            final(self).wf(),
            final(self).buffer() == old(self).buffer(),
            final(self).position() == iterator_cursor(
                old(self).buffer().data(),
                old(self).is_stopped(),
                old(self).position() as int,
            ),
            final(self).is_stopped() == iterator_stops(
                old(self).buffer().data(),
                old(self).buffer().kind(),
                old(self).buffer().is_filled(),
                old(self).is_stopped(),
                old(self).position() as int,
            ),
            r.yields(
                iterator_outcome(
                    old(self).buffer().data(),
                    old(self).buffer().kind(),
                    old(self).buffer().is_filled(),
                    old(self).is_stopped(),
                    old(self).position() as int,
                ),
                old(self).buffer(),
            ),
    {
        if self.stopped {
            return PartStep::End;
        }
        let size: usize = self.msg.size();
        let data = self.msg.bytes();
        let available_size: usize = size - self.pos;
        let (header, new_pos) = match self.msg.deserialize::<nlmsghdr>(self.pos, size) {
            Ok(found) => found,
            Err(_) => {
                if self.pos == 0 && self.msg.filled {
                    return PartStep::Failed(Error::Truncated);
                }
                return PartStep::Refill;
            },
        };
        if header.nlmsg_len < 16 || header.nlmsg_len as usize > available_size {
            self.pos = size;
            return PartStep::Failed(Error::Truncated);
        }
        let current_msg_limit: usize = self.pos + header.nlmsg_len as usize;
        self.pos = current_msg_limit;
        if (header.nlmsg_flags & NLM_F_DUMP_INTR) == NLM_F_DUMP_INTR {
            return PartStep::Failed(Error::Interrupted);
        }
        if header.nlmsg_type == NLMSG_ERROR {
            if new_pos + 4 > current_msg_limit {
                return PartStep::Failed(Error::Truncated);
            }
            let errno: i32 = get_i32_le(data, new_pos);
            if errno < 0 {
                self.stopped = true;
                PartStep::Failed(Error::from(errno))
            } else {
                PartStep::End
            }
        } else if header.nlmsg_type == NLMSG_DONE {
            PartStep::End
        } else {
            let sub = match self.msg.msg_type {
                NetlinkType::Generic(family_id) if header.nlmsg_type == family_id => {
                    match self.msg.deserialize::<genlmsghdr>(new_pos, current_msg_limit) {
                        Ok((gen_header, after)) => Ok((SubHeader::Generic(gen_header), after)),
                        Err(e) => Err(e),
                    }
                },
                NetlinkType::Route if header.nlmsg_type as u32 == RTM_NEWLINK
                    || header.nlmsg_type as u32 == RTM_DELLINK => {
                    match self.msg.deserialize::<ifinfomsg>(new_pos, current_msg_limit) {
                        Ok((if_header, after)) => Ok((SubHeader::RouteIfinfo(if_header), after)),
                        Err(e) => Err(e),
                    }
                },
                _ => Err(Error::Other("unsupported netlink family or message type".to_string())),
            };
            match sub {
                Ok((sub_header, after)) => PartStep::Part(
                    MsgPart {
                        header,
                        sub_header,
                        attributes_start: after,
                        attributes_end: current_msg_limit,
                        msg: self.msg,
                    },
                ),
                Err(e) => PartStep::Failed(e),
            }
        }
    }
}

} // verus!
