//! Reading integers of either byte order from a file held in memory.

use vstd::prelude::*;

use crate::packbits::{unpack, unpack_bits};

verus! {

/// The byte order of a TIFF file: `II` (little endian) or `MM` (big endian).
#[derive(Debug, Clone, Copy, PartialEq, Eq, Structural)]
pub enum ByteOrder {
    LittleEndian,
    BigEndian,
}

/// The error a read reports when it runs past the end of the data.
#[derive(Debug, Clone, Copy, PartialEq, Eq, Structural)]
pub enum IoError {
    UnexpectedEof,
}

/// The unsigned value of `b` read with its first byte least significant.
pub open spec fn le_value(b: Seq<u8>) -> nat
    decreases b.len(),
{
    if b.len() == 0 {
        0
    } else {
        b[0] as nat + 256 * le_value(b.drop_first())
    }
}

/// The unsigned value of `b` read with its first byte most significant.
pub open spec fn be_value(b: Seq<u8>) -> nat
    decreases b.len(),
{
    if b.len() == 0 {
        0
    } else {
        be_value(b.drop_last()) * 256 + b.last() as nat
    }
}

/// The unsigned value of `b` in the byte order `bo`.
pub open spec fn uint_value(b: Seq<u8>, bo: ByteOrder) -> nat {
    match bo {
        ByteOrder::LittleEndian => le_value(b),
        ByteOrder::BigEndian => be_value(b),
    }
}

/// The two's complement reading of the unsigned value `v` below `modulus`.
pub open spec fn signed_value(v: nat, modulus: nat) -> int {
    if v < modulus / 2 {
        v as int
    } else {
        v - modulus
    }
}

/// The value of two bytes in Horner form, for either byte order.
pub(crate) proof fn lemma_value_2(b: Seq<u8>)
    requires
        b.len() == 2,
    ensures
        le_value(b) == b[0] + 256 * b[1],
        be_value(b) == b[0] * 256 + b[1],
{
    reveal_with_fuel(le_value, 3);
    reveal_with_fuel(be_value, 3);
    assert(b.drop_first().drop_first().len() == 0);
    assert(b.drop_last().drop_last().len() == 0);
}

/// The value of four bytes in Horner form, for either byte order.
pub(crate) proof fn lemma_value_4(b: Seq<u8>)
    requires
        b.len() == 4,
    ensures
        le_value(b) == b[0] + 256 * (b[1] + 256 * (b[2] + 256 * b[3] as int)),
        be_value(b) == ((b[0] * 256 + b[1]) * 256 + b[2]) * 256 + b[3],
{
    reveal_with_fuel(le_value, 5);
    reveal_with_fuel(be_value, 5);
    let f1 = b.drop_first();
    let f2 = f1.drop_first();
    let f3 = f2.drop_first();
    assert(f3.drop_first().len() == 0);
    let l1 = b.drop_last();
    let l2 = l1.drop_last();
    let l3 = l2.drop_last();
    assert(l3.drop_last().len() == 0);
}

/// The value of eight bytes in Horner form, for either byte order.
pub(crate) proof fn lemma_value_8(b: Seq<u8>)
    requires
        b.len() == 8,
    ensures
        le_value(b) == b[0] + 256 * (b[1] + 256 * (b[2] + 256 * (b[3] + 256 * (b[4] + 256 * (
        b[5] + 256 * (b[6] + 256 * b[7] as int)))))),
        be_value(b) == ((((((b[0] * 256 + b[1]) * 256 + b[2]) * 256 + b[3]) * 256 + b[4]) * 256
            + b[5]) * 256 + b[6]) * 256 + b[7],
{
    reveal_with_fuel(le_value, 9);
    reveal_with_fuel(be_value, 9);
    let f1 = b.drop_first();
    let f2 = f1.drop_first();
    let f3 = f2.drop_first();
    let f4 = f3.drop_first();
    let f5 = f4.drop_first();
    let f6 = f5.drop_first();
    let f7 = f6.drop_first();
    assert(f7.drop_first().len() == 0);
    let l1 = b.drop_last();
    let l2 = l1.drop_last();
    let l3 = l2.drop_last();
    let l4 = l3.drop_last();
    let l5 = l4.drop_last();
    let l6 = l5.drop_last();
    let l7 = l6.drop_last();
    assert(l7.drop_last().len() == 0);
}

/// The bytes of `b` from `from` up to `to`.
pub fn sub_vec(b: &Vec<u8>, from: usize, to: usize) -> (r: Vec<u8>)
    requires
        from <= to <= b@.len(),
    ensures
        r@ == b@.subrange(from as int, to as int),
{
    let mut v: Vec<u8> = Vec::with_capacity(to - from);
    let mut i: usize = from;
    while i < to
        invariant
            from <= i <= to <= b@.len(),
            v@ =~= b@.subrange(from as int, i as int),
        decreases to - i,
    {
        v.push(b[i]);
        i = i + 1;
        assert(v@ =~= b@.subrange(from as int, i as int));
    }
    v
}

/// The unsigned 16-bit integer held by two bytes in the byte order `bo`.
pub fn u16_from_bytes(b: &Vec<u8>, bo: ByteOrder) -> (r: u16)
    requires
        b@.len() == 2,
    ensures
        r == uint_value(b@, bo),
{
    proof {
        lemma_value_2(b@);
    }
    let b0 = b[0] as u16;
    let b1 = b[1] as u16;
    match bo {
        ByteOrder::LittleEndian => b0 + 256 * b1,
        ByteOrder::BigEndian => b0 * 256 + b1,
    }
}

/// The unsigned 32-bit integer held by four bytes in the byte order `bo`.
pub fn u32_from_bytes(b: &Vec<u8>, bo: ByteOrder) -> (r: u32)
    requires
        b@.len() == 4,
    ensures
        r == uint_value(b@, bo),
{
    proof {
        lemma_value_4(b@);
    }
    let b0 = b[0] as u32;
    let b1 = b[1] as u32;
    let b2 = b[2] as u32;
    let b3 = b[3] as u32;
    match bo {
        ByteOrder::LittleEndian => b0 + 256 * (b1 + 256 * (b2 + 256 * b3)),
        ByteOrder::BigEndian => ((b0 * 256 + b1) * 256 + b2) * 256 + b3,
    }
}

/// The unsigned 64-bit integer held by eight bytes in the byte order `bo`.
pub fn u64_from_bytes(b: &Vec<u8>, bo: ByteOrder) -> (r: u64)
    requires
        b@.len() == 8,
    ensures
        r == uint_value(b@, bo),
{
    proof {
        lemma_value_8(b@);
    }
    let b0 = b[0] as u64;
    let b1 = b[1] as u64;
    let b2 = b[2] as u64;
    let b3 = b[3] as u64;
    let b4 = b[4] as u64;
    let b5 = b[5] as u64;
    let b6 = b[6] as u64;
    let b7 = b[7] as u64;
    match bo {
        ByteOrder::LittleEndian => b0 + 256 * (b1 + 256 * (b2 + 256 * (b3 + 256 * (b4 + 256 * (b5
            + 256 * (b6 + 256 * b7)))))),
        ByteOrder::BigEndian => ((((((b0 * 256 + b1) * 256 + b2) * 256 + b3) * 256 + b4) * 256
            + b5) * 256 + b6) * 256 + b7,
    }
}

/// The signed 8-bit integer with the bits of `v`.
pub fn i8_from_u8(v: u8) -> (r: i8)
    ensures
        r == signed_value(v as nat, 0x100),
{
    if v < 0x80 {
        v as i8
    } else {
        (v as i16 - 0x100) as i8
    }
}

/// The signed 16-bit integer with the bits of `v`.
pub fn i16_from_u16(v: u16) -> (r: i16)
    ensures
        r == signed_value(v as nat, 0x10000),
{
    if v < 0x8000 {
        v as i16
    } else {
        (v as i32 - 0x10000) as i16
    }
}

/// The signed 32-bit integer with the bits of `v`.
pub fn i32_from_u32(v: u32) -> (r: i32)
    ensures
        r == signed_value(v as nat, 0x1_0000_0000),
{
    if v < 0x8000_0000 {
        v as i32
    } else {
        (v as i64 - 0x1_0000_0000) as i32
    }
}

/// The signed 64-bit integer with the bits of `v`.
pub fn i64_from_u64(v: u64) -> (r: i64)
    ensures
        r == signed_value(v as nat, 0x1_0000_0000_0000_0000),
{
    if v < 0x8000_0000_0000_0000 {
        v as i64
    } else {
        (v as i128 - 0x1_0000_0000_0000_0000) as i64
    }
}

/// Whether `n` bytes can be read at position `pos` of data of length `len`.
pub open spec fn can_read(pos: int, n: int, len: int) -> bool {
    n == 0 || pos + n <= len
}

/// The unsigned value of the `n` bytes of `file` at `pos`, where there are
/// that many.
pub open spec fn uint_at(file: Seq<u8>, pos: int, n: int, bo: ByteOrder) -> Option<nat> {
    if can_read(pos, n, file.len() as int) {
        Some(uint_value(file.subrange(pos, pos + n), bo))
    } else {
        None
    }
}

/// The bytes of `file` from `pos` on, at most `n` of them; none where `pos`
/// lies at or past its end.
pub open spec fn take_at(file: Seq<u8>, pos: nat, n: nat) -> Seq<u8> {
    if pos >= file.len() {
        Seq::empty()
    } else if pos + n >= file.len() {
        file.subrange(pos as int, file.len() as int)
    } else {
        file.subrange(pos as int, (pos + n) as int)
    }
}

/// A cursor over the bytes of a file, with the file's byte order.
#[derive(Debug)]
pub struct SmartReader {
    data: Vec<u8>,
    pos: u64,
    byte_order: ByteOrder,
}

impl SmartReader {
    /// The bytes read from.
    pub closed spec fn bytes(&self) -> Seq<u8> {
        self.data@
    }

    /// The byte order integers are read in.
    pub closed spec fn order(&self) -> ByteOrder {
        self.byte_order
    }

    /// The position of the next read.
    pub closed spec fn position(&self) -> nat {
        self.pos as nat
    }

    /// The bytes that a read of `n` bytes returns when it succeeds.
    pub open spec fn next_bytes(&self, n: int) -> Seq<u8> {
        if n == 0 {
            Seq::empty()
        } else {
            self.bytes().subrange(self.position() as int, self.position() + n)
        }
    }

    /// Whether a read of `n` bytes succeeds.
    pub open spec fn can_read(&self, n: int) -> bool {
        can_read(self.position() as int, n, self.bytes().len() as int)
    }

    /// What a read of `n` bytes leaves behind: the same data and byte order,
    /// the position moved past the bytes on success, to the end of the data
    /// on failure.
    pub open spec fn after_read(&self, n: int, next: SmartReader) -> bool {
        &&& next.bytes() == self.bytes()
        &&& next.order() == self.order()
        &&& self.can_read(n) ==> next.position() == self.position() + n
        &&& !self.can_read(n) ==> next.position() == self.bytes().len()
    }

    /// The unsigned value of the next `n` bytes in the file's byte order.
    pub open spec fn next_uint(&self, n: int) -> nat {
        uint_value(self.next_bytes(n), self.order())
    }

    /// Wraps the bytes of a file, positioned at its start.
    pub fn wrap(data: Vec<u8>, byte_order: ByteOrder) -> (r: SmartReader)
        ensures
            r.bytes() == data@,
            r.position() == 0,
            r.order() == byte_order,
    {
        SmartReader { data, pos: 0, byte_order }
    }

    /// Gives back the bytes of the file.
    pub fn into_inner(self) -> (r: Vec<u8>)
        ensures
            r@ == self.bytes(),
    {
        self.data
    }

    /// A copy of the bytes from the position on, at most `n` of them: those a
    /// reader limited to `n` bytes gives.
    pub fn take_bytes(&self, n: u64) -> (r: Vec<u8>)
        ensures
            r@ == take_at(self.bytes(), self.position(), n as nat),
    {
        let len = self.data.len();
        if self.pos >= len as u64 {
            return Vec::new();
        }
        let from = self.pos as usize;
        let to = if n >= (len - from) as u64 {
            len
        } else {
            from + n as usize
        };
        sub_vec(&self.data, from, to)
    }

    /// The bytes that unpacking PackBits data from the position on gives,
    /// taking runs until `length` bytes have been read; `None` where a run
    /// reaches past the end of the file.
    pub fn unpack_bits(&self, length: usize) -> (r: Option<Vec<u8>>)
        ensures
            r is Some <==> unpack(self.bytes(), self.position(), length as int, Seq::empty()) is Some,
            r matches Some(v) ==> v@ == unpack(self.bytes(), self.position(), length as int, Seq::empty())->Some_0,
    {
        if self.pos >= self.data.len() as u64 {
            if length == 0 {
                return Some(Vec::new());
            }
            return None;
        }
        unpack_bits(&self.data, self.pos as usize, length)
    }

    /// The byte order of the file.
    pub fn byte_order(&self) -> (r: ByteOrder)
        ensures
            r == self.order(),
    {
        self.byte_order
    }

    /// Moves the position to `offset`, which may lie past the end of the data.
    pub fn goto_offset(&mut self, offset: u64)
        ensures
            final(self).bytes() == old(self).bytes(),
            final(self).order() == old(self).order(),
            final(self).position() == offset,
    {
        self.pos = offset;
    }

    /// Reads `n` bytes, or fails with `UnexpectedEof` where fewer remain.
    pub fn read_exact(&mut self, n: usize) -> (r: Result<Vec<u8>, IoError>)
        ensures
            old(self).after_read(n as int, *final(self)),
            old(self).can_read(n as int) <==> r is Ok,
            r matches Ok(v) ==> v@ == old(self).next_bytes(n as int),
            r matches Err(e) ==> e == IoError::UnexpectedEof,
    {
        let len = self.data.len();
        if n == 0 {
            return Ok(Vec::new());
        }
        if self.pos > len as u64 || n > len - (self.pos as usize) {
            self.pos = len as u64;
            return Err(IoError::UnexpectedEof);
        }
        let start = self.pos as usize;
        let mut out: Vec<u8> = Vec::with_capacity(n);
        let mut i: usize = 0;
        while i < n
            invariant
                start + n <= len,
                len == self.data@.len(),
                i <= n,
                out@ == self.data@.subrange(start as int, start + i),
            decreases n - i,
        {
            out.push(self.data[start + i]);
            i = i + 1;
            assert(out@ =~= self.data@.subrange(start as int, start + i));
        }
        self.pos = (start + n) as u64;
        Ok(out)
    }
    /// Reads an unsigned 8-bit integer in the file's byte order.
    pub fn read_u8(&mut self) -> (r: Result<u8, IoError>)
        ensures
            old(self).after_read(1, *final(self)),
            old(self).can_read(1) <==> r is Ok,
            r matches Ok(v) ==> v == old(self).next_bytes(1)[0],
            r matches Err(e) ==> e == IoError::UnexpectedEof,
    {
        let b = self.read_exact(1)?;
        Ok(b[0])
    }

    /// Reads a signed 8-bit integer in the file's byte order.
    pub fn read_i8(&mut self) -> (r: Result<i8, IoError>)
        ensures
            old(self).after_read(1, *final(self)),
            old(self).can_read(1) <==> r is Ok,
            r matches Ok(v) ==> v == signed_value(old(self).next_bytes(1)[0] as nat, 0x100),
            r matches Err(e) ==> e == IoError::UnexpectedEof,
    {
        let v = self.read_u8()?;
        Ok(i8_from_u8(v))
    }

    /// Reads an unsigned 16-bit integer in the file's byte order.
    pub fn read_u16(&mut self) -> (r: Result<u16, IoError>)
        ensures
            old(self).after_read(2, *final(self)),
            old(self).can_read(2) <==> r is Ok,
            r matches Ok(v) ==> v == old(self).next_uint(2),
            r matches Err(e) ==> e == IoError::UnexpectedEof,
    {
        let b = self.read_exact(2)?;
        Ok(u16_from_bytes(&b, self.byte_order))
    }

    /// Reads a signed 16-bit integer in the file's byte order.
    pub fn read_i16(&mut self) -> (r: Result<i16, IoError>)
        ensures
            old(self).after_read(2, *final(self)),
            old(self).can_read(2) <==> r is Ok,
            r matches Ok(v) ==> v == signed_value(old(self).next_uint(2), 0x10000),
            r matches Err(e) ==> e == IoError::UnexpectedEof,
    {
        let v = self.read_u16()?;
        Ok(i16_from_u16(v))
    }

    /// Reads an unsigned 32-bit integer in the file's byte order.
    pub fn read_u32(&mut self) -> (r: Result<u32, IoError>)
        ensures
            old(self).after_read(4, *final(self)),
            old(self).can_read(4) <==> r is Ok,
            r matches Ok(v) ==> v == old(self).next_uint(4),
            r matches Err(e) ==> e == IoError::UnexpectedEof,
    {
        let b = self.read_exact(4)?;
        Ok(u32_from_bytes(&b, self.byte_order))
    }

    /// Reads a signed 32-bit integer in the file's byte order.
    pub fn read_i32(&mut self) -> (r: Result<i32, IoError>)
        ensures
            old(self).after_read(4, *final(self)),
            old(self).can_read(4) <==> r is Ok,
            r matches Ok(v) ==> v == signed_value(old(self).next_uint(4), 0x100000000),
            r matches Err(e) ==> e == IoError::UnexpectedEof,
    {
        let v = self.read_u32()?;
        Ok(i32_from_u32(v))
    }

    /// Reads an unsigned 64-bit integer in the file's byte order.
    pub fn read_u64(&mut self) -> (r: Result<u64, IoError>)
        ensures
            old(self).after_read(8, *final(self)),
            old(self).can_read(8) <==> r is Ok,
            r matches Ok(v) ==> v == old(self).next_uint(8),
            r matches Err(e) ==> e == IoError::UnexpectedEof,
    {
        let b = self.read_exact(8)?;
        Ok(u64_from_bytes(&b, self.byte_order))
    }

    /// Reads a signed 64-bit integer in the file's byte order.
    pub fn read_i64(&mut self) -> (r: Result<i64, IoError>)
        ensures
            old(self).after_read(8, *final(self)),
            old(self).can_read(8) <==> r is Ok,
            r matches Ok(v) ==> v == signed_value(old(self).next_uint(8), 0x10000000000000000),
            r matches Err(e) ==> e == IoError::UnexpectedEof,
    {
        let v = self.read_u64()?;
        Ok(i64_from_u64(v))
    }
}


/// The bytes of an integer in one byte order are its bytes in the other
/// reversed: the little-endian value of `b` is the big-endian value of `b`
/// reversed.
pub proof fn lemma_byte_orders_mirror(b: Seq<u8>)
    ensures
        le_value(b) == be_value(b.reverse()),
        uint_value(b, ByteOrder::LittleEndian) == uint_value(b.reverse(), ByteOrder::BigEndian),
    decreases b.len(),
{
    if b.len() > 0 {
        lemma_byte_orders_mirror(b.drop_first());
        assert(b.reverse().drop_last() =~= b.drop_first().reverse());
        assert(b.reverse().last() == b[0]);
    }
}

} // verus!
