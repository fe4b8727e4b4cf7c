//! Byte-level vocabulary of the wire format: alignment, padding and the
//! encodings of fixed-width integers.
use vstd::prelude::*;

verus! {

/// `n` rounded up to the next multiple of four.
pub open spec fn align_up(n: nat) -> nat {
    if n % 4 == 0 {
        n
    } else {
        (n + 4 - n % 4) as nat
    }
}

/// `n` zero bytes.
pub open spec fn zeros(n: nat) -> Seq<u8> {
    Seq::new(n, |i: int| 0u8)
}

/// The padding that follows `n` payload bytes.
pub open spec fn padding(n: nat) -> Seq<u8> {
    zeros((align_up(n) - n) as nat)
}

/// `s` with the bytes from `at` on replaced by `data`.
pub open spec fn splice(s: Seq<u8>, at: int, data: Seq<u8>) -> Seq<u8> {
    s.subrange(0, at) + data + s.subrange(at + data.len(), s.len() as int)
}

/// Little-endian bytes of a 16-bit value.
pub open spec fn le16(x: u16) -> Seq<u8> {
    seq![(x % 256) as u8, (x / 256) as u8]
}

/// Little-endian bytes of a 32-bit value.
pub open spec fn le32(x: u32) -> Seq<u8> {
    seq![
        (x % 256) as u8,
        (x / 256 % 256) as u8,
        (x / 65536 % 256) as u8,
        (x / 16777216) as u8,
    ]
}

/// Big-endian (network order) bytes of a 16-bit value.
pub open spec fn be16(x: u16) -> Seq<u8> {
    seq![(x / 256) as u8, (x % 256) as u8]
}

/// The 16-bit value stored little-endian at `s[i..i + 2]`.
pub open spec fn le16_at(s: Seq<u8>, i: int) -> u16 {
    (s[i] as int + 256 * (s[i + 1] as int)) as u16
}

/// The 32-bit value stored little-endian at `s[i..i + 4]`.
pub open spec fn le32_at(s: Seq<u8>, i: int) -> u32 {
    (s[i] as int + 256 * (s[i + 1] as int) + 65536 * (s[i + 2] as int) + 16777216 * (s[i
        + 3] as int)) as u32
}

/// The 16-bit value stored big-endian at `s[i..i + 2]`.
pub open spec fn be16_at(s: Seq<u8>, i: int) -> u16 {
    (256 * (s[i] as int) + s[i + 1] as int) as u16
}

/// The signed reading of a 32-bit pattern (two's complement).
pub open spec fn signed32(u: u32) -> i32 {
    if u < 0x8000_0000 {
        u as i32
    } else {
        (u - 0x1_0000_0000) as i32
    }
}

/// The unsigned pattern of a signed 32-bit value (two's complement).
pub open spec fn unsigned32(i: i32) -> u32 {
    if i >= 0 {
        i as u32
    } else {
        (i + 0x1_0000_0000) as u32
    }
}

/// Decoding undoes encoding, for each of the integer encodings.
pub proof fn lemma_int_round_trip(a: u16, b: u32, c: i32)
    ensures
        le16_at(le16(a), 0) == a,
        be16_at(be16(a), 0) == a,
        le32_at(le32(b), 0) == b,
        signed32(unsigned32(c)) == c,
        le16(a).len() == 2,
        be16(a).len() == 2,
        le32(b).len() == 4,
{
}

/// A 16-bit value laid out little-endian at `i` reads back.
pub proof fn lemma_read_le16(s: Seq<u8>, i: int, x: u16)
    requires
        0 <= i,
        i + 2 <= s.len(),
        s.subrange(i, i + 2) == le16(x),
    ensures
        le16_at(s, i) == x,
{
    let f = s.subrange(i, i + 2);
    assert(s[i] == f[0] && s[i + 1] == f[1]);
}

/// A 16-bit value laid out big-endian at `i` reads back.
pub proof fn lemma_read_be16(s: Seq<u8>, i: int, x: u16)
    requires
        0 <= i,
        i + 2 <= s.len(),
        s.subrange(i, i + 2) == be16(x),
    ensures
        be16_at(s, i) == x,
{
    let f = s.subrange(i, i + 2);
    assert(s[i] == f[0] && s[i + 1] == f[1]);
}

/// A 32-bit value laid out little-endian at `i` reads back.
pub proof fn lemma_read_le32(s: Seq<u8>, i: int, x: u32)
    requires
        0 <= i,
        i + 4 <= s.len(),
        s.subrange(i, i + 4) == le32(x),
    ensures
        le32_at(s, i) == x,
{
    let f = s.subrange(i, i + 4);
    assert(s[i] == f[0] && s[i + 1] == f[1] && s[i + 2] == f[2] && s[i + 3] == f[3]);
}

/// Facts about `align_up` that linear arithmetic needs spelled out.
pub proof fn lemma_align_up(n: nat)
    ensures
        n <= align_up(n) < n + 4,
        align_up(n) % 4 == 0,
        n % 4 == 0 ==> align_up(n) == n,
        align_up(n + 4) == align_up(n) + 4,
{
}

/// Writing `a` and then `b` behind it is writing both at once.
pub proof fn lemma_splice_append(s: Seq<u8>, at: int, a: Seq<u8>, b: Seq<u8>)
    requires
        0 <= at,
        at + a.len() + b.len() <= s.len(),
    ensures
        splice(splice(s, at, a), at + a.len(), b) == splice(s, at, a + b),
{
    assert(splice(splice(s, at, a), at + a.len(), b) =~= splice(s, at, a + b));
}

/// Rounds a length up to the alignment of the wire format.
pub fn align_len(size: usize) -> (r: usize)
    requires
        size + 3 <= usize::MAX,
    ensures
        r == align_up(size as nat),
{
    let over: usize = size % 4;
    if over == 0 {
        size
    } else {
        size + (4 - over)
    }
}

/// The unsigned pattern of a signed 32-bit value.
pub fn i32_bits(i: i32) -> (u: u32)
    ensures
        u == unsigned32(i),
{
    if i >= 0 {
        i as u32
    } else {
        ((i - i32::MIN) as u32) + 0x8000_0000
    }
}

/// Stores `x` little-endian at `out[pos..pos + 2]`.
pub fn put_u16_le(out: &mut [u8], pos: usize, x: u16)
    requires
        pos + 2 <= old(out)@.len(),
    ensures
        final(out)@ == splice(old(out)@, pos as int, le16(x)),
{
    out[pos] = (x % 256) as u8;
    out[pos + 1] = (x / 256) as u8;
    assert(out@ =~= splice(old(out)@, pos as int, le16(x)));
}

/// Stores `x` big-endian at `out[pos..pos + 2]`.
pub fn put_u16_be(out: &mut [u8], pos: usize, x: u16)
    requires
        pos + 2 <= old(out)@.len(),
    ensures
        final(out)@ == splice(old(out)@, pos as int, be16(x)),
{
    out[pos] = (x / 256) as u8;
    out[pos + 1] = (x % 256) as u8;
    assert(out@ =~= splice(old(out)@, pos as int, be16(x)));
}

/// Stores `x` little-endian at `out[pos..pos + 4]`.
pub fn put_u32_le(out: &mut [u8], pos: usize, x: u32)
    requires
        pos + 4 <= old(out)@.len(),
    ensures
        final(out)@ == splice(old(out)@, pos as int, le32(x)),
{
    out[pos] = (x % 256) as u8;
    out[pos + 1] = (x / 256 % 256) as u8;
    out[pos + 2] = (x / 65536 % 256) as u8;
    out[pos + 3] = (x / 16777216) as u8;
    assert(out@ =~= splice(old(out)@, pos as int, le32(x)));
}

/// Copies `data` to `out[pos..pos + data.len()]`.
pub fn put_bytes(out: &mut [u8], pos: usize, data: &[u8])
    requires
        pos + data@.len() <= old(out)@.len(),
    ensures
        final(out)@ == splice(old(out)@, pos as int, data@),
{
    let n: usize = data.len();
    let total: usize = out.len();
    let mut i: usize = 0;
    while i < n
        invariant
            i <= n,
            n == data@.len(),
            out@.len() == old(out)@.len(),
            out@.len() == total,
            pos + n <= out@.len(),
            forall|j: int| 0 <= j < i ==> out@[pos + j] == data@[j],
            forall|j: int| 0 <= j < out@.len() && !(pos <= j < pos + i) ==> out@[j] == old(out)@[j],
        decreases n - i,
    {
        out[pos + i] = data[i];
        i = i + 1;
    }
    assert(out@ =~= splice(old(out)@, pos as int, data@));
}

/// The array whose elements are the first four bytes of `s`.
pub open spec fn array4(s: Seq<u8>) -> [u8; 4] {
    [s[0], s[1], s[2], s[3]]
}

/// The array whose elements are the first sixteen bytes of `s`.
pub open spec fn array16(s: Seq<u8>) -> [u8; 16] {
    [
        s[0], s[1], s[2], s[3], s[4], s[5], s[6], s[7],
        s[8], s[9], s[10], s[11], s[12], s[13], s[14], s[15],
    ]
}

/// Copies the four bytes at `buf[pos..pos + 4]` into an array.
pub fn take4(buf: &[u8], pos: usize) -> (a: [u8; 4])
    requires
        pos + 4 <= buf@.len(),
    ensures
        a == array4(buf@.subrange(pos as int, pos + 4)),
        a@ == buf@.subrange(pos as int, pos + 4),
{
    let a = [buf[pos], buf[pos + 1], buf[pos + 2], buf[pos + 3]];
    assert(a =~= array4(buf@.subrange(pos as int, pos + 4)));
    assert(a@ =~= buf@.subrange(pos as int, pos + 4));
    a
}

/// Copies the sixteen bytes at `buf[pos..pos + 16]` into an array.
pub fn take16(buf: &[u8], pos: usize) -> (a: [u8; 16])
    requires
        pos + 16 <= buf@.len(),
    ensures
        a == array16(buf@.subrange(pos as int, pos + 16)),
        a@ == buf@.subrange(pos as int, pos + 16),
{
    let a = [
        buf[pos], buf[pos + 1], buf[pos + 2], buf[pos + 3],
        buf[pos + 4], buf[pos + 5], buf[pos + 6], buf[pos + 7],
        buf[pos + 8], buf[pos + 9], buf[pos + 10], buf[pos + 11],
        buf[pos + 12], buf[pos + 13], buf[pos + 14], buf[pos + 15],
    ];
    assert(a =~= array16(buf@.subrange(pos as int, pos + 16)));
    assert(a@ =~= buf@.subrange(pos as int, pos + 16));
    a
}

/// Reads the little-endian 16-bit value at `buf[pos..pos + 2]`.
pub fn get_u16_le(buf: &[u8], pos: usize) -> (x: u16)
    requires
        pos + 2 <= buf@.len(),
    ensures
        x == le16_at(buf@, pos as int),
{
    let lo: u16 = buf[pos] as u16;
    let hi: u16 = buf[pos + 1] as u16;
    lo + 256 * hi
}

/// Reads the big-endian 16-bit value at `buf[pos..pos + 2]`.
pub fn get_u16_be(buf: &[u8], pos: usize) -> (x: u16)
    requires
        pos + 2 <= buf@.len(),
    ensures
        x == be16_at(buf@, pos as int),
{
    let hi: u16 = buf[pos] as u16;
    let lo: u16 = buf[pos + 1] as u16;
    256 * hi + lo
}

/// Reads the little-endian 32-bit value at `buf[pos..pos + 4]`.
pub fn get_u32_le(buf: &[u8], pos: usize) -> (x: u32)
    requires
        pos + 4 <= buf@.len(),
    ensures
        x == le32_at(buf@, pos as int),
{
    let b0: u32 = buf[pos] as u32;
    let b1: u32 = buf[pos + 1] as u32;
    let b2: u32 = buf[pos + 2] as u32;
    let b3: u32 = buf[pos + 3] as u32;
    b0 + 256 * b1 + 65536 * b2 + 16777216 * b3
}

/// Reads the little-endian signed 32-bit value at `buf[pos..pos + 4]`.
pub fn get_i32_le(buf: &[u8], pos: usize) -> (x: i32)
    requires
        pos + 4 <= buf@.len(),
    ensures
        x == signed32(le32_at(buf@, pos as int)),
{
    let u: u32 = get_u32_le(buf, pos);
    if u < 0x8000_0000 {
        u as i32
    } else {
        ((u - 0x8000_0000) as i32) + i32::MIN
    }
}

} // verus!
