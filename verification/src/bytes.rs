use vstd::prelude::*;

use vstd::utf8::{decode_utf8, encode_utf8, valid_utf8};

use crate::error::{Error, ErrorKind};

verus! {

/// Big-endian value of the two bytes at `i`.
pub open spec fn be16(s: Seq<u8>, i: int) -> int {
    s[i] as int * 0x100 + s[i + 1] as int
}

/// Big-endian value of the three bytes at `i`.
pub open spec fn be24(s: Seq<u8>, i: int) -> int {
    s[i] as int * 0x10000 + s[i + 1] as int * 0x100 + s[i + 2] as int
}

/// Big-endian value of the four bytes at `i`.
pub open spec fn be32(s: Seq<u8>, i: int) -> int {
    s[i] as int * 0x1000000 + be24(s, i + 1)
}

/// Big-endian value of the eight bytes at `i`.
pub open spec fn be64(s: Seq<u8>, i: int) -> int {
    be32(s, i) * 0x1_0000_0000 + be32(s, i + 4)
}

/// Little-endian value of the four bytes at `i`.
pub open spec fn le32(s: Seq<u8>, i: int) -> int {
    s[i + 3] as int * 0x1000000 + s[i + 2] as int * 0x10000 + s[i + 1] as int * 0x100
        + s[i] as int
}

/// The two big-endian bytes of the low 16 bits of `v`.
pub open spec fn u16_be(v: int) -> Seq<u8> {
    seq![((v / 0x100) % 0x100) as u8, (v % 0x100) as u8]
}

/// The three big-endian bytes of the low 24 bits of `v`.
pub open spec fn u24_be(v: int) -> Seq<u8> {
    seq![((v / 0x10000) % 0x100) as u8, ((v / 0x100) % 0x100) as u8, (v % 0x100) as u8]
}

/// The four big-endian bytes of the low 32 bits of `v`.
pub open spec fn u32_be(v: int) -> Seq<u8> {
    seq![
        ((v / 0x1000000) % 0x100) as u8,
        ((v / 0x10000) % 0x100) as u8,
        ((v / 0x100) % 0x100) as u8,
        (v % 0x100) as u8,
    ]
}

/// The four little-endian bytes of the low 32 bits of `v`.
pub open spec fn u32_le(v: int) -> Seq<u8> {
    seq![
        (v % 0x100) as u8,
        ((v / 0x100) % 0x100) as u8,
        ((v / 0x10000) % 0x100) as u8,
        ((v / 0x1000000) % 0x100) as u8,
    ]
}

/// The eight big-endian bytes of `v`.
pub open spec fn u64_be(v: int) -> Seq<u8> {
    u32_be(v / 0x1_0000_0000) + u32_be(v % 0x1_0000_0000)
}

/// The 32-bit two's complement pattern of `v`.
pub open spec fn i32_bits(v: i32) -> int {
    if v < 0 {
        v + 0x1_0000_0000
    } else {
        v as int
    }
}

/// The signed value of a 24-bit two's complement pattern.
pub open spec fn i24_value(u: int) -> int {
    if u >= 0x800000 {
        u - 0x1000000
    } else {
        u
    }
}

/// The signed value of a 32-bit two's complement pattern.
pub open spec fn i32_value(u: int) -> int {
    if u >= 0x8000_0000 {
        u - 0x1_0000_0000
    } else {
        u
    }
}

/// Reading back the written bytes gives the value.
pub proof fn lemma_u16_be_roundtrip(v: int)
    requires
        0 <= v < 0x10000,
    ensures
        u16_be(v).len() == 2,
        be16(u16_be(v), 0) == v,
{
}

/// Reading back the written bytes gives the low 24 bits of the value.
pub proof fn lemma_u24_be_roundtrip(v: int)
    requires
        0 <= v,
    ensures
        u24_be(v).len() == 3,
        be24(u24_be(v), 0) == v % 0x1000000,
{
}

/// Reading back the written bytes gives the value.
pub proof fn lemma_u32_be_roundtrip(v: int)
    requires
        0 <= v < 0x1_0000_0000,
    ensures
        u32_be(v).len() == 4,
        be32(u32_be(v), 0) == v,
{
}

/// Reading back the written bytes gives the value.
pub proof fn lemma_u32_le_roundtrip(v: int)
    requires
        0 <= v < 0x1_0000_0000,
    ensures
        u32_le(v).len() == 4,
        le32(u32_le(v), 0) == v,
{
}

/// Reading back the written bytes gives the value.
pub proof fn lemma_u64_be_roundtrip(v: int)
    requires
        0 <= v < 0x1_0000_0000_0000_0000,
    ensures
        u64_be(v).len() == 8,
        be64(u64_be(v), 0) == v,
{
    lemma_u32_be_roundtrip(v / 0x1_0000_0000);
    lemma_u32_be_roundtrip(v % 0x1_0000_0000);
    let s = u64_be(v);
    assert(be32(s, 0) == be32(u32_be(v / 0x1_0000_0000), 0));
    assert(be32(s, 4) == be32(u32_be(v % 0x1_0000_0000), 0));
}

/// Reads one byte at `pos`.
pub fn read_u8(buf: &[u8], pos: usize) -> (r: Result<u8, Error>)
    ensures
        r is Ok <==> pos < buf@.len(),
        r matches Ok(v) ==> v == buf@[pos as int],
        r matches Err(e) ==> e.kind == ErrorKind::InsufficientBuffer,
{
    if pos < buf.len() {
        Ok(buf[pos])
    } else {
        Err(Error::insufficient_buffer())
    }
}

/// Reads a big-endian `u16` at `pos`.
pub fn read_u16(buf: &[u8], pos: usize) -> (r: Result<u16, Error>)
    ensures
        r is Ok <==> pos + 2 <= buf@.len(),
        r matches Ok(v) ==> v == be16(buf@, pos as int),
        r matches Err(e) ==> e.kind == ErrorKind::InsufficientBuffer,
{
    if pos < buf.len() && buf.len() - pos >= 2 {
        Ok(buf[pos] as u16 * 0x100 + buf[pos + 1] as u16)
    } else {
        Err(Error::insufficient_buffer())
    }
}

/// Reads a big-endian 24-bit unsigned value at `pos`.
pub fn read_u24(buf: &[u8], pos: usize) -> (r: Result<u32, Error>)
    ensures
        r is Ok <==> pos + 3 <= buf@.len(),
        r matches Ok(v) ==> v == be24(buf@, pos as int),
        r matches Err(e) ==> e.kind == ErrorKind::InsufficientBuffer,
{
    if pos < buf.len() && buf.len() - pos >= 3 {
        Ok(buf[pos] as u32 * 0x10000 + buf[pos + 1] as u32 * 0x100 + buf[pos + 2] as u32)
    } else {
        Err(Error::insufficient_buffer())
    }
}

/// Reads a big-endian 24-bit signed (two's complement) value at `pos`.
pub fn read_i24(buf: &[u8], pos: usize) -> (r: Result<i32, Error>)
    ensures
        r is Ok <==> pos + 3 <= buf@.len(),
        r matches Ok(v) ==> v == i24_value(be24(buf@, pos as int)),
        r matches Err(e) ==> e.kind == ErrorKind::InsufficientBuffer,
{
    let u = read_u24(buf, pos)?;
    if u >= 0x800000 {
        Ok(u as i32 - 0x1000000)
    } else {
        Ok(u as i32)
    }
}

/// Reads a big-endian `u32` at `pos`.
pub fn read_u32(buf: &[u8], pos: usize) -> (r: Result<u32, Error>)
    ensures
        r is Ok <==> pos + 4 <= buf@.len(),
        r matches Ok(v) ==> v == be32(buf@, pos as int),
        r matches Err(e) ==> e.kind == ErrorKind::InsufficientBuffer,
{
    if pos < buf.len() && buf.len() - pos >= 4 {
        Ok(buf[pos] as u32 * 0x1000000 + buf[pos + 1] as u32 * 0x10000 + buf[pos + 2] as u32
            * 0x100 + buf[pos + 3] as u32)
    } else {
        Err(Error::insufficient_buffer())
    }
}

/// Reads a little-endian `u32` at `pos`.
pub fn read_u32_le(buf: &[u8], pos: usize) -> (r: Result<u32, Error>)
    ensures
        r is Ok <==> pos + 4 <= buf@.len(),
        r matches Ok(v) ==> v == le32(buf@, pos as int),
        r matches Err(e) ==> e.kind == ErrorKind::InsufficientBuffer,
{
    if pos < buf.len() && buf.len() - pos >= 4 {
        Ok(buf[pos + 3] as u32 * 0x1000000 + buf[pos + 2] as u32 * 0x10000 + buf[pos + 1] as u32
            * 0x100 + buf[pos] as u32)
    } else {
        Err(Error::insufficient_buffer())
    }
}

/// Reads a big-endian 32-bit signed (two's complement) value at `pos`.
pub fn read_i32(buf: &[u8], pos: usize) -> (r: Result<i32, Error>)
    ensures
        r is Ok <==> pos + 4 <= buf@.len(),
        r matches Ok(v) ==> v == i32_value(be32(buf@, pos as int)),
        r matches Err(e) ==> e.kind == ErrorKind::InsufficientBuffer,
{
    let u = read_u32(buf, pos)?;
    if u >= 0x8000_0000 {
        Ok((u - 0x8000_0000) as i32 - 0x4000_0000 - 0x4000_0000)
    } else {
        Ok(u as i32)
    }
}

/// Reads a big-endian `u64` at `pos` (the bit pattern of an AMF number).
pub fn read_u64(buf: &[u8], pos: usize) -> (r: Result<u64, Error>)
    ensures
        r is Ok <==> pos + 8 <= buf@.len(),
        r matches Ok(v) ==> v == be64(buf@, pos as int),
        r matches Err(e) ==> e.kind == ErrorKind::InsufficientBuffer,
{
    if pos < buf.len() && buf.len() - pos >= 8 {
        let hi = read_u32(buf, pos)?;
        let lo = read_u32(buf, pos + 4)?;
        Ok(hi as u64 * 0x1_0000_0000 + lo as u64)
    } else {
        Err(Error::insufficient_buffer())
    }
}

/// Copies `len` bytes at `pos`.
pub fn read_bytes(buf: &[u8], pos: usize, len: usize) -> (r: Result<Vec<u8>, Error>)
    ensures
        r is Ok <==> pos + len <= buf@.len(),
        r matches Ok(v) ==> v@ == buf@.subrange(pos as int, pos + len),
        r matches Err(e) ==> e.kind == ErrorKind::InsufficientBuffer,
{
    if pos <= buf.len() && buf.len() - pos >= len {
        let mut out: Vec<u8> = Vec::with_capacity(len);
        let mut i: usize = 0;
        while i < len
            invariant
                pos + len <= buf.len(),
                i <= len,
                out@ == buf@.subrange(pos as int, pos + i),
            decreases len - i,
        {
            out.push(buf[pos + i]);
            i = i + 1;
            assert(out@ =~= buf@.subrange(pos as int, pos + i));
        }
        Ok(out)
    } else {
        Err(Error::insufficient_buffer())
    }
}

/// `String::from_utf8`: the bytes as a string, exactly when they are valid UTF-8.
#[verifier::external_body]
fn string_from_utf8(bytes: Vec<u8>) -> (r: Option<String>)
    ensures
        r is Some <==> valid_utf8(bytes@),
        r matches Some(s) ==> s@ == decode_utf8(bytes@),
{
    String::from_utf8(bytes).ok()
}

/// Reads `len` bytes at `pos` as UTF-8 text.
pub fn read_utf8(buf: &[u8], pos: usize, len: usize) -> (r: Result<String, Error>)
    ensures
        r is Ok <==> pos + len <= buf@.len() && valid_utf8(buf@.subrange(pos as int, pos + len)),
        r matches Ok(s) ==> s@ == decode_utf8(buf@.subrange(pos as int, pos + len)),
        r matches Err(e) ==> e.kind == (if pos + len <= buf@.len() {
            ErrorKind::InvalidData
        } else {
            ErrorKind::InsufficientBuffer
        }),
{
    let bytes = read_bytes(buf, pos, len)?;
    match string_from_utf8(bytes) {
        Some(s) => Ok(s),
        None => Err(Error::invalid_data("invalid UTF-8 bytes")),
    }
}

/// Whether two strings have the same characters.
pub fn str_eq(a: &str, b: &str) -> (r: bool)
    ensures
        r == (a@ == b@),
{
    let x = a.as_bytes();
    let y = b.as_bytes();
    proof {
        vstd::utf8::encode_utf8_decode_utf8(a@);
        vstd::utf8::encode_utf8_decode_utf8(b@);
    }
    if x.len() != y.len() {
        return false;
    }
    let mut i: usize = 0;
    while i < x.len()
        invariant
            i <= x@.len(),
            x@.len() == y@.len(),
            x@ == encode_utf8(a@),
            y@ == encode_utf8(b@),
            forall|j: int| 0 <= j < i ==> x@[j] == y@[j],
        decreases x.len() - i,
    {
        if x[i] != y[i] {
            assert(x@ != y@);
            return false;
        }
        i = i + 1;
    }
    assert(x@ =~= y@);
    true
}

/// Whether two byte strings are equal.
pub fn bytes_eq(a: &[u8], b: &[u8]) -> (r: bool)
    ensures
        r == (a@ == b@),
{
    if a.len() != b.len() {
        return false;
    }
    let mut i: usize = 0;
    while i < a.len()
        invariant
            i <= a@.len(),
            a@.len() == b@.len(),
            forall|j: int| 0 <= j < i ==> a@[j] == b@[j],
        decreases a.len() - i,
    {
        if a[i] != b[i] {
            assert(a@[i as int] != b@[i as int]);
            return false;
        }
        i = i + 1;
    }
    assert(a@ =~= b@);
    true
}

/// Appends the UTF-8 bytes of `s`.
pub fn write_str(buf: &mut Vec<u8>, s: &str)
    ensures
        final(buf)@ == old(buf)@ + encode_utf8(s@),
{
    write_bytes(buf, s.as_bytes());
}

/// Appends one byte.
pub fn write_u8(buf: &mut Vec<u8>, v: u8)
    ensures
        final(buf)@ == old(buf)@.push(v),
{
    buf.push(v);
}

/// Appends a big-endian `u16`.
pub fn write_u16(buf: &mut Vec<u8>, v: u16)
    ensures
        final(buf)@ == old(buf)@ + u16_be(v as int),
{
    buf.push((v / 0x100) as u8);
    buf.push((v % 0x100) as u8);
    assert(buf@ =~= old(buf)@ + u16_be(v as int));
}

/// Appends the low 24 bits of `v` in big-endian order.
pub fn write_u24(buf: &mut Vec<u8>, v: u32)
    ensures
        final(buf)@ == old(buf)@ + u24_be(v as int),
{
    buf.push(((v / 0x10000) % 0x100) as u8);
    buf.push(((v / 0x100) % 0x100) as u8);
    buf.push((v % 0x100) as u8);
    assert(buf@ =~= old(buf)@ + u24_be(v as int));
}

/// Appends a big-endian `u32`.
pub fn write_u32(buf: &mut Vec<u8>, v: u32)
    ensures
        final(buf)@ == old(buf)@ + u32_be(v as int),
{
    buf.push(((v / 0x1000000) % 0x100) as u8);
    buf.push(((v / 0x10000) % 0x100) as u8);
    buf.push(((v / 0x100) % 0x100) as u8);
    buf.push((v % 0x100) as u8);
    assert(buf@ =~= old(buf)@ + u32_be(v as int));
}

/// Appends a little-endian `u32`.
pub fn write_u32_le(buf: &mut Vec<u8>, v: u32)
    ensures
        final(buf)@ == old(buf)@ + u32_le(v as int),
{
    buf.push((v % 0x100) as u8);
    buf.push(((v / 0x100) % 0x100) as u8);
    buf.push(((v / 0x10000) % 0x100) as u8);
    buf.push(((v / 0x1000000) % 0x100) as u8);
    assert(buf@ =~= old(buf)@ + u32_le(v as int));
}

/// The 32-bit two's complement pattern of `v`.
pub fn i32_to_bits(v: i32) -> (r: u32)
    ensures
        r == i32_bits(v),
{
    if v < 0 {
        ((v + 0x4000_0000 + 0x4000_0000) as u32) + 0x8000_0000
    } else {
        v as u32
    }
}

/// Appends the low 24 bits of the two's complement pattern of `v`, big-endian.
pub fn write_i24(buf: &mut Vec<u8>, v: i32)
    ensures
        final(buf)@ == old(buf)@ + u24_be(i32_bits(v)),
{
    write_u24(buf, i32_to_bits(v));
}

/// Appends the two's complement pattern of `v`, big-endian.
pub fn write_i32(buf: &mut Vec<u8>, v: i32)
    ensures
        final(buf)@ == old(buf)@ + u32_be(i32_bits(v)),
{
    write_u32(buf, i32_to_bits(v));
}

/// Appends a big-endian `u64` (the bit pattern of an AMF number).
pub fn write_u64(buf: &mut Vec<u8>, v: u64)
    ensures
        final(buf)@ == old(buf)@ + u64_be(v as int),
{
    let ghost old_buf = buf@;
    write_u32(buf, (v / 0x1_0000_0000) as u32);
    write_u32(buf, (v % 0x1_0000_0000) as u32);
    assert(buf@ =~= old_buf + u64_be(v as int));
}

/// Appends all of `v`.
pub fn write_bytes(buf: &mut Vec<u8>, v: &[u8])
    ensures
        final(buf)@ == old(buf)@ + v@,
{
    let mut i: usize = 0;
    while i < v.len()
        invariant
            i <= v@.len(),
            buf@ == old(buf)@ + v@.subrange(0, i as int),
        decreases v.len() - i,
    {
        buf.push(v[i]);
        i = i + 1;
        assert(buf@ =~= old(buf)@ + v@.subrange(0, i as int));
    }
    assert(v@.subrange(0, v@.len() as int) =~= v@);
}

} // verus!

verus! {

/// Size above which [`Buf::feed`] moves the unread bytes to the front.
pub const BUF_COMPACTION_SIZE: usize = 1048576;

/// A byte buffer from which bytes are consumed at the front.
#[derive(Debug, Default)]
pub struct Buf {
    bytes: Vec<u8>,
    offset: usize,
}

impl View for Buf {
    type V = Seq<u8>;

    /// The bytes not yet consumed.
    closed spec fn view(&self) -> Seq<u8> {
        self.bytes@.subrange(self.offset as int, self.bytes@.len() as int)
    }
}

impl Buf {
    /// The internal offset never passes the end of the stored bytes.
    pub closed spec fn wf(&self) -> bool {
        self.offset <= self.bytes@.len()
    }

    /// The whole stored vector (consumed bytes included).
    pub closed spec fn stored(&self) -> Seq<u8> {
        self.bytes@
    }

    /// How many stored bytes are already consumed.
    pub closed spec fn consumed(&self) -> int {
        self.offset as int
    }

    /// The unread bytes are the stored bytes after the consumed ones, and the buffer is
    /// consistent when no more bytes are consumed than stored.
    pub proof fn lemma_view(&self)
        ensures
            self@ == self.stored().subrange(self.consumed(), self.stored().len() as int),
            self.wf() <==> 0 <= self.consumed() <= self.stored().len(),
    {
    }

    /// An empty buffer.
    pub fn new() -> (r: Self)
        ensures
            r.wf(),
            r@ == Seq::<u8>::empty(),
    {
        Buf { bytes: Vec::new(), offset: 0 }
    }

    /// The bytes not yet consumed.
    pub fn get(&self) -> (r: &[u8])
        requires
            self.wf(),
        ensures
            r@ == self@,
    {
        vstd::slice::slice_subrange(self.bytes.as_slice(), self.offset, self.bytes.len())
    }

    /// Mutable access to the stored vector; the consumed prefix stays as it is.
    pub fn inner_mut(&mut self) -> (r: &mut Vec<u8>)
        ensures
            r@ == old(self).stored(),
            final(self).stored() == final(r)@,
            final(self).consumed() == old(self).consumed(),
    {
        &mut self.bytes
    }

    /// Appends bytes at the end.
    pub fn feed(&mut self, buf: &[u8])
        requires
            old(self).wf(),
        ensures
            final(self).wf(),
            final(self)@ == old(self)@ + buf@,
    {
        let ghost before = self@;
        write_bytes(&mut self.bytes, buf);
        assert(self@ =~= before + buf@);
        if self.bytes.len() > BUF_COMPACTION_SIZE {
            let rest = self.bytes.split_off(self.offset);
            self.bytes = rest;
            self.offset = 0;
            assert(self@ =~= before + buf@);
        }
    }

    /// Marks `n` bytes as consumed.
    pub fn advance(&mut self, n: usize)
        requires
            old(self).wf(),
            n <= old(self)@.len(),
        ensures
            final(self).wf(),
            final(self)@ == old(self)@.subrange(n as int, old(self)@.len() as int),
    {
        let ghost before = self@;
        let _len = self.bytes.len();
        self.offset = self.offset + n;
        assert(self@ =~= before.subrange(n as int, before.len() as int));
        if self.offset == self.bytes.len() {
            self.offset = 0;
            self.bytes.clear();
            assert(self@ =~= before.subrange(n as int, before.len() as int));
        }
    }
}

} // verus!
