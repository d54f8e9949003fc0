//! The samples of an image: decoding them from the bytes of a file, and the
//! horizontal predictor and color inversion applied to rows of them.

use vstd::prelude::*;

use crate::error::TiffResult;
use crate::stream::{lemma_value_2, lemma_value_4, lemma_value_8, signed_value, sub_vec, uint_value, ByteOrder, IoError};
use crate::stream::{i16_from_u16, i32_from_u32, i64_from_u64, i8_from_u8};
use crate::stream::{u16_from_bytes, u32_from_bytes, u64_from_bytes};

verus! {

/// A type with a wrapping addition.
pub trait Wrapping: Copy + Sized {
    /// The sum of `a` and `b`, wrapped around to the type's range.
    spec fn spec_wrapping_add(a: Self, b: Self) -> Self;

    /// The difference of `a` and `b`, wrapped around to the type's range.
    spec fn spec_wrapping_sub(a: Self, b: Self) -> Self;

    /// Adding back what was subtracted gives the number back.
    proof fn lemma_add_sub(a: Self, b: Self)
        ensures
            Self::spec_wrapping_add(Self::spec_wrapping_sub(a, b), b) == a,
    ;

    /// The sum of `self` and `other`, wrapped around to the type's range.
    fn wrapping_add(&self, other: Self) -> (r: Self)
        ensures
            r == Self::spec_wrapping_add(*self, other),
    ;
}

/// The type of the samples of an image buffer.
pub trait Sample: Wrapping {
    /// The number of bytes of one sample.
    spec fn spec_size() -> nat;

    /// The sample the bytes `b` hold in the byte order `bo`.
    spec fn spec_decode(b: Seq<u8>, bo: ByteOrder) -> Self;

    /// The inverse of the sample `a`: the type's maximum minus `a` for
    /// unsigned samples; signed samples are not inverted.
    spec fn spec_complement(a: Self) -> Self;

    /// The number of bytes of one sample.
    fn size() -> (r: usize)
        ensures
            r == Self::spec_size(),
            1 <= r <= 8,
    ;

    /// The sample the bytes of `b` from `start` on hold in the byte order `bo`.
    fn decode(b: &Vec<u8>, start: usize, bo: ByteOrder) -> (r: Self)
        requires
            start + Self::spec_size() <= b@.len(),
        ensures
            r == Self::spec_decode(b@.subrange(start as int, start + Self::spec_size()), bo),
    ;
}

/// A type of samples that are inverted by subtracting them from the type's
/// maximum.
pub trait Invertible: Sample {
    /// Subtracting from the maximum twice gives the sample back.
    proof fn lemma_complement_twice(a: Self)
        ensures
            Self::spec_complement(Self::spec_complement(a)) == a,
    ;

    /// The type's maximum minus `self`.
    fn complement(&self) -> (r: Self)
        ensures
            r == Self::spec_complement(*self),
    ;
}

impl Wrapping for u8 {
    open spec fn spec_wrapping_add(a: u8, b: u8) -> u8 {
        vstd::wrapping::u8_specs::wrapping_add(a, b)
    }

    open spec fn spec_wrapping_sub(a: u8, b: u8) -> u8 {
        vstd::wrapping::u8_specs::wrapping_sub(a, b)
    }

    proof fn lemma_add_sub(a: u8, b: u8) {
    }

    fn wrapping_add(&self, other: u8) -> (r: u8) {
        u8::wrapping_add(*self, other)
    }
}

impl Wrapping for u16 {
    open spec fn spec_wrapping_add(a: u16, b: u16) -> u16 {
        vstd::wrapping::u16_specs::wrapping_add(a, b)
    }

    open spec fn spec_wrapping_sub(a: u16, b: u16) -> u16 {
        vstd::wrapping::u16_specs::wrapping_sub(a, b)
    }

    proof fn lemma_add_sub(a: u16, b: u16) {
    }

    fn wrapping_add(&self, other: u16) -> (r: u16) {
        u16::wrapping_add(*self, other)
    }
}

impl Wrapping for u32 {
    open spec fn spec_wrapping_add(a: u32, b: u32) -> u32 {
        vstd::wrapping::u32_specs::wrapping_add(a, b)
    }

    open spec fn spec_wrapping_sub(a: u32, b: u32) -> u32 {
        vstd::wrapping::u32_specs::wrapping_sub(a, b)
    }

    proof fn lemma_add_sub(a: u32, b: u32) {
    }

    fn wrapping_add(&self, other: u32) -> (r: u32) {
        u32::wrapping_add(*self, other)
    }
}

impl Wrapping for u64 {
    open spec fn spec_wrapping_add(a: u64, b: u64) -> u64 {
        vstd::wrapping::u64_specs::wrapping_add(a, b)
    }

    open spec fn spec_wrapping_sub(a: u64, b: u64) -> u64 {
        vstd::wrapping::u64_specs::wrapping_sub(a, b)
    }

    proof fn lemma_add_sub(a: u64, b: u64) {
    }

    fn wrapping_add(&self, other: u64) -> (r: u64) {
        u64::wrapping_add(*self, other)
    }
}

impl Wrapping for i8 {
    open spec fn spec_wrapping_add(a: i8, b: i8) -> i8 {
        vstd::wrapping::i8_specs::wrapping_add(a, b)
    }

    open spec fn spec_wrapping_sub(a: i8, b: i8) -> i8 {
        vstd::wrapping::i8_specs::wrapping_sub(a, b)
    }

    proof fn lemma_add_sub(a: i8, b: i8) {
    }

    fn wrapping_add(&self, other: i8) -> (r: i8) {
        i8::wrapping_add(*self, other)
    }
}

impl Wrapping for i16 {
    open spec fn spec_wrapping_add(a: i16, b: i16) -> i16 {
        vstd::wrapping::i16_specs::wrapping_add(a, b)
    }

    open spec fn spec_wrapping_sub(a: i16, b: i16) -> i16 {
        vstd::wrapping::i16_specs::wrapping_sub(a, b)
    }

    proof fn lemma_add_sub(a: i16, b: i16) {
    }

    fn wrapping_add(&self, other: i16) -> (r: i16) {
        i16::wrapping_add(*self, other)
    }
}

impl Wrapping for i32 {
    open spec fn spec_wrapping_add(a: i32, b: i32) -> i32 {
        vstd::wrapping::i32_specs::wrapping_add(a, b)
    }

    open spec fn spec_wrapping_sub(a: i32, b: i32) -> i32 {
        vstd::wrapping::i32_specs::wrapping_sub(a, b)
    }

    proof fn lemma_add_sub(a: i32, b: i32) {
    }

    fn wrapping_add(&self, other: i32) -> (r: i32) {
        i32::wrapping_add(*self, other)
    }
}

impl Wrapping for i64 {
    open spec fn spec_wrapping_add(a: i64, b: i64) -> i64 {
        vstd::wrapping::i64_specs::wrapping_add(a, b)
    }

    open spec fn spec_wrapping_sub(a: i64, b: i64) -> i64 {
        vstd::wrapping::i64_specs::wrapping_sub(a, b)
    }

    proof fn lemma_add_sub(a: i64, b: i64) {
    }

    fn wrapping_add(&self, other: i64) -> (r: i64) {
        i64::wrapping_add(*self, other)
    }
}

impl Sample for u8 {
    open spec fn spec_size() -> nat {
        1
    }

    open spec fn spec_decode(b: Seq<u8>, bo: ByteOrder) -> u8 {
        b[0]
    }

    open spec fn spec_complement(a: u8) -> u8 {
        (u8::MAX - a) as u8
    }

    fn size() -> (r: usize) {
        1
    }

    fn decode(b: &Vec<u8>, start: usize, bo: ByteOrder) -> (r: u8) {
        b[start]
    }
}

impl Invertible for u8 {
    proof fn lemma_complement_twice(a: u8) {
    }

    fn complement(&self) -> (r: u8) {
        u8::MAX - *self
    }
}

impl Sample for u16 {
    open spec fn spec_size() -> nat {
        2
    }

    open spec fn spec_decode(b: Seq<u8>, bo: ByteOrder) -> u16 {
        uint_value(b, bo) as u16
    }

    open spec fn spec_complement(a: u16) -> u16 {
        (u16::MAX - a) as u16
    }

    fn size() -> (r: usize) {
        2
    }

    fn decode(b: &Vec<u8>, start: usize, bo: ByteOrder) -> (r: u16) {
        assert(<Self as Sample>::spec_size() == 2);
        assert(start + <Self as Sample>::spec_size() <= b.len());
        u16_from_bytes(&sub_vec(b, start, start + 2), bo)
    }
}

impl Invertible for u16 {
    proof fn lemma_complement_twice(a: u16) {
    }

    fn complement(&self) -> (r: u16) {
        u16::MAX - *self
    }
}

impl Sample for u32 {
    open spec fn spec_size() -> nat {
        4
    }

    open spec fn spec_decode(b: Seq<u8>, bo: ByteOrder) -> u32 {
        uint_value(b, bo) as u32
    }

    open spec fn spec_complement(a: u32) -> u32 {
        (u32::MAX - a) as u32
    }

    fn size() -> (r: usize) {
        4
    }

    fn decode(b: &Vec<u8>, start: usize, bo: ByteOrder) -> (r: u32) {
        assert(<Self as Sample>::spec_size() == 4);
        assert(start + <Self as Sample>::spec_size() <= b.len());
        u32_from_bytes(&sub_vec(b, start, start + 4), bo)
    }
}

impl Invertible for u32 {
    proof fn lemma_complement_twice(a: u32) {
    }

    fn complement(&self) -> (r: u32) {
        u32::MAX - *self
    }
}

impl Sample for u64 {
    open spec fn spec_size() -> nat {
        8
    }

    open spec fn spec_decode(b: Seq<u8>, bo: ByteOrder) -> u64 {
        uint_value(b, bo) as u64
    }

    open spec fn spec_complement(a: u64) -> u64 {
        (u64::MAX - a) as u64
    }

    fn size() -> (r: usize) {
        8
    }

    fn decode(b: &Vec<u8>, start: usize, bo: ByteOrder) -> (r: u64) {
        assert(<Self as Sample>::spec_size() == 8);
        assert(start + <Self as Sample>::spec_size() <= b.len());
        u64_from_bytes(&sub_vec(b, start, start + 8), bo)
    }
}

impl Invertible for u64 {
    proof fn lemma_complement_twice(a: u64) {
    }

    fn complement(&self) -> (r: u64) {
        u64::MAX - *self
    }
}

impl Sample for i8 {
    open spec fn spec_size() -> nat {
        1
    }

    open spec fn spec_decode(b: Seq<u8>, bo: ByteOrder) -> i8 {
        signed_value(b[0] as nat, 0x100) as i8
    }

    open spec fn spec_complement(a: i8) -> i8 {
        a
    }

    fn size() -> (r: usize) {
        1
    }

    fn decode(b: &Vec<u8>, start: usize, bo: ByteOrder) -> (r: i8) {
        i8_from_u8(b[start])
    }
}

impl Sample for i16 {
    open spec fn spec_size() -> nat {
        2
    }

    open spec fn spec_decode(b: Seq<u8>, bo: ByteOrder) -> i16 {
        signed_value(uint_value(b, bo), 0x10000) as i16
    }

    open spec fn spec_complement(a: i16) -> i16 {
        a
    }

    fn size() -> (r: usize) {
        2
    }

    fn decode(b: &Vec<u8>, start: usize, bo: ByteOrder) -> (r: i16) {
        assert(<Self as Sample>::spec_size() == 2);
        assert(start + <Self as Sample>::spec_size() <= b.len());
        i16_from_u16(u16_from_bytes(&sub_vec(b, start, start + 2), bo))
    }
}

impl Sample for i32 {
    open spec fn spec_size() -> nat {
        4
    }

    open spec fn spec_decode(b: Seq<u8>, bo: ByteOrder) -> i32 {
        signed_value(uint_value(b, bo), 0x100000000) as i32
    }

    open spec fn spec_complement(a: i32) -> i32 {
        a
    }

    fn size() -> (r: usize) {
        4
    }

    fn decode(b: &Vec<u8>, start: usize, bo: ByteOrder) -> (r: i32) {
        assert(<Self as Sample>::spec_size() == 4);
        assert(start + <Self as Sample>::spec_size() <= b.len());
        i32_from_u32(u32_from_bytes(&sub_vec(b, start, start + 4), bo))
    }
}

impl Sample for i64 {
    open spec fn spec_size() -> nat {
        8
    }

    open spec fn spec_decode(b: Seq<u8>, bo: ByteOrder) -> i64 {
        signed_value(uint_value(b, bo), 0x10000000000000000) as i64
    }

    open spec fn spec_complement(a: i64) -> i64 {
        a
    }

    fn size() -> (r: usize) {
        8
    }

    fn decode(b: &Vec<u8>, start: usize, bo: ByteOrder) -> (r: i64) {
        assert(<Self as Sample>::spec_size() == 8);
        assert(start + <Self as Sample>::spec_size() <= b.len());
        i64_from_u64(u64_from_bytes(&sub_vec(b, start, start + 8), bo))
    }
}

/// The start of row `r` of rows `stride` apart from `start` on.
pub open spec fn row_base(start: int, r: int, stride: int) -> int {
    start + r * stride
}

/// The `len` elements of `b` from `base` on.
pub open spec fn seg<T>(b: Seq<T>, base: int, len: int) -> Seq<T> {
    b.subrange(base, base + len)
}

/// Whether the position `i` lies in one of `rows` rows of `len` elements,
/// `stride` apart from `start` on.
pub open spec fn in_rows(i: int, start: int, rows: int, len: int, stride: int) -> bool {
    exists|r: int| 0 <= r < rows && row_base(start, r, stride) <= i < #[trigger] row_base(start, r, stride) + len
}

/// Whether `rows` rows of `len` elements, `stride` apart from `start` on,
/// lie within `n` elements.
pub open spec fn rows_fit(n: int, start: int, rows: int, len: int, stride: int) -> bool {
    rows == 0 || row_base(start, rows - 1, stride) + len <= n
}

/// Whether `new` is `old` with each of `rows` rows of `len` elements,
/// `stride` apart from `start` on, replaced by what `f` makes of its row
/// number and its old elements, and everything else left as it was.
pub open spec fn rows_written<T>(
    old: Seq<T>,
    new: Seq<T>,
    start: int,
    rows: int,
    len: int,
    stride: int,
    f: spec_fn(int, Seq<T>) -> Seq<T>,
) -> bool {
    &&& new.len() == old.len()
    &&& forall|r: int| 0 <= r < rows ==> #[trigger] seg(new, row_base(start, r, stride), len) == f(r, seg(old, row_base(start, r, stride), len))
    &&& forall|i: int| 0 <= i < old.len() && !in_rows(i, start, rows, len, stride) ==> new[i] == old[i]
}

/// Rows of at most `stride` elements, `stride` apart, do not overlap, and a
/// row that fits below a later one also fits.
proof fn lemma_rows_apart(start: int, r1: int, r2: int, len: int, stride: int)
    requires
        0 <= r1 < r2,
        0 <= len <= stride,
    ensures
        row_base(start, r1, stride) + len <= row_base(start, r2, stride),
        row_base(start, r1, stride) + stride <= row_base(start, r2, stride),
{
    assert(r1 * stride + stride <= r2 * stride) by (nonlinear_arith)
        requires
            r1 < r2,
            stride >= 0,
    ;
}

/// Writing row `row` into rows written up to it gives rows written up to the next.
proof fn lemma_rows_step<T>(
    old: Seq<T>,
    cur: Seq<T>,
    next: Seq<T>,
    start: int,
    row: int,
    len: int,
    stride: int,
    f: spec_fn(int, Seq<T>) -> Seq<T>,
)
    requires
        0 <= row,
        0 <= len <= stride,
        0 <= start,
        row_base(start, row, stride) + len <= old.len(),
        rows_written(old, cur, start, row, len, stride, f),
        next.len() == cur.len(),
        seg(next, row_base(start, row, stride), len) == f(row, seg(old, row_base(start, row, stride), len)),
        forall|i: int| 0 <= i < cur.len() && !(row_base(start, row, stride) <= i < row_base(start, row, stride) + len) ==> next[i] == cur[i],
    ensures
        rows_written(old, next, start, row + 1, len, stride, f),
{
    let b = row_base(start, row, stride);
    assert forall|r: int| 0 <= r < row + 1 implies #[trigger] seg(next, row_base(start, r, stride), len) == f(r, seg(old, row_base(start, r, stride), len)) by {
        if r < row {
            lemma_rows_apart(start, r, row, len, stride);
            let br = row_base(start, r, stride);
            assert(r * stride >= 0) by (nonlinear_arith)
                requires
                    r >= 0,
                    stride >= 0,
            ;
            assert(seg(next, br, len) =~= seg(cur, br, len));
        }
    }
    assert forall|i: int| 0 <= i < old.len() && !in_rows(i, start, row + 1, len, stride) implies next[i] == old[i] by {
        if b <= i < b + len {
            assert(row_base(start, row, stride) <= i < row_base(start, row, stride) + len);
            assert(in_rows(i, start, row + 1, len, stride));
        }
        if in_rows(i, start, row, len, stride) {
            let r = choose|r: int| 0 <= r < row && row_base(start, r, stride) <= i < #[trigger] row_base(start, r, stride) + len;
            assert(in_rows(i, start, row + 1, len, stride));
        }
    }
}

/// Before the first row, no row has been written.
proof fn lemma_rows_none<T>(old: Seq<T>, start: int, len: int, stride: int, f: spec_fn(int, Seq<T>) -> Seq<T>)
    ensures
        rows_written(old, old, start, 0, len, stride, f),
{
}

/// A row of a buffer whose earlier rows have been written still holds its
/// old elements.
proof fn lemma_row_untouched<T>(
    old: Seq<T>,
    cur: Seq<T>,
    start: int,
    row: int,
    len: int,
    stride: int,
    f: spec_fn(int, Seq<T>) -> Seq<T>,
)
    requires
        0 <= row,
        0 <= len <= stride,
        0 <= start,
        row_base(start, row, stride) + len <= old.len(),
        rows_written(old, cur, start, row, len, stride, f),
    ensures
        seg(cur, row_base(start, row, stride), len) == seg(old, row_base(start, row, stride), len),
{
    let b = row_base(start, row, stride);
    assert(row * stride >= 0) by (nonlinear_arith)
        requires
            row >= 0,
            stride >= 0,
    ;
    assert forall|i: int| b <= i < b + len implies !in_rows(i, start, row, len, stride) by {
        if in_rows(i, start, row, len, stride) {
            let r = choose|r: int| 0 <= r < row && row_base(start, r, stride) <= i < #[trigger] row_base(start, r, stride) + len;
            lemma_rows_apart(start, r, row, len, stride);
        }
    }
    assert(seg(cur, b, len) =~= seg(old, b, len));
}

/// A copy of the `len` elements of `b` from `base` on.
pub fn read_segment<T: Copy>(b: &Vec<T>, base: usize, len: usize) -> (r: Vec<T>)
    requires
        base + len <= b@.len(),
    ensures
        r@ == seg(b@, base as int, len as int),
{
    let mut out: Vec<T> = Vec::with_capacity(len);
    let mut i: usize = 0;
    while i < len
        invariant
            i <= len,
            base + len <= b.len(),
            out@ =~= b@.subrange(base as int, base + i),
        decreases len - i,
    {
        out.push(b[base + i]);
        i = i + 1;
        assert(out@ =~= b@.subrange(base as int, base + i));
    }
    out
}

/// Writes the elements of `vals` into `b` from `base` on.
pub fn write_segment<T: Copy>(b: &mut Vec<T>, base: usize, vals: &Vec<T>)
    requires
        base + vals@.len() <= old(b)@.len(),
    ensures
        final(b)@.len() == old(b)@.len(),
        seg(final(b)@, base as int, vals@.len() as int) == vals@,
        forall|i: int| 0 <= i < old(b)@.len() && !(base <= i < base + vals@.len()) ==> final(b)@[i] == old(b)@[i],
{
    let mut i: usize = 0;
    while i < vals.len()
        invariant
            i <= vals@.len(),
            base + vals@.len() <= b.len(),
            b@.len() == old(b)@.len(),
            forall|j: int| 0 <= j < i ==> b@[base + j] == vals@[j],
            forall|j: int| 0 <= j < old(b)@.len() && !(base <= j < base + i) ==> b@[j] == old(b)@[j],
        decreases vals.len() - i,
    {
        b.set(base + i, vals[i]);
        i = i + 1;
    }
    assert(seg(b@, base as int, vals@.len() as int) =~= vals@);
}

/// The value at column `c` of the row `s` after undoing horizontal
/// prediction with `samples` samples per pixel: the wrapping sum of the
/// columns of the same sample up to `c`.
pub open spec fn pred<T: Wrapping>(s: Seq<T>, samples: nat, c: int) -> T
    decreases c,
{
    if c < samples || samples == 0 {
        s[c]
    } else {
        T::spec_wrapping_add(s[c], pred(s, samples, c - samples))
    }
}

/// The row `s` after undoing horizontal prediction.
pub open spec fn predict<T: Wrapping>(s: Seq<T>, samples: nat) -> Seq<T> {
    Seq::new(s.len(), |c: int| pred(s, samples, c))
}

/// Undoes horizontal prediction on one row, in place.
pub fn predict_row<T: Wrapping>(row: &mut Vec<T>, samples: usize)
    requires
        samples > 0,
    ensures
        final(row)@ == predict(old(row)@, samples as nat),
{
    let ghost orig = row@;
    let mut c: usize = samples;
    while c < row.len()
        invariant
            samples > 0,
            samples <= c,
            row@.len() == orig.len(),
            forall|j: int| 0 <= j < c && j < row@.len() ==> row@[j] == pred(orig, samples as nat, j),
            forall|j: int| c <= j < row@.len() ==> row@[j] == orig[j],
        decreases row.len() - c,
    {
        let prev = row[c - samples];
        let cur = row[c];
        assert(pred(orig, samples as nat, c as int) == T::spec_wrapping_add(orig[c as int], pred(orig, samples as nat, c - samples)));
        row.set(c, cur.wrapping_add(prev));
        c = c + 1;
    }
    assert(row@ =~= predict(orig, samples as nat));
}

/// The row `s` with each sample subtracted from the type's maximum.
pub open spec fn invert<T: Sample>(s: Seq<T>) -> Seq<T> {
    s.map_values(|x: T| T::spec_complement(x))
}

/// Subtracts each sample of a row from the type's maximum, in place.
pub fn invert_row<T: Invertible>(row: &mut Vec<T>)
    ensures
        final(row)@ == invert(old(row)@),
{
    let ghost orig = row@;
    let mut c: usize = 0;
    while c < row.len()
        invariant
            c <= row@.len(),
            row@.len() == orig.len(),
            forall|j: int| 0 <= j < c ==> row@[j] == T::spec_complement(orig[j]),
            forall|j: int| c <= j < row@.len() ==> row@[j] == orig[j],
        decreases row.len() - c,
    {
        let x = row[c].complement();
        row.set(c, x);
        c = c + 1;
    }
    assert(row@ =~= invert(orig));
}

/// The `n` samples that the bytes of `data` from `off` on hold.
pub open spec fn decoded_row<T: Sample>(data: Seq<u8>, off: int, n: int, bo: ByteOrder) -> Seq<T> {
    Seq::new(
        n as nat,
        |j: int| T::spec_decode(data.subrange(off + j * T::spec_size(), off + j * T::spec_size() + T::spec_size()), bo),
    )
}

/// Decodes `n` samples from the bytes of `data` from `off` on.
pub fn decode_row<T: Sample>(data: &Vec<u8>, off: usize, n: usize, bo: ByteOrder) -> (r: Vec<T>)
    requires
        off + n * T::spec_size() <= data@.len(),
    ensures
        r@ == decoded_row::<T>(data@, off as int, n as int, bo),
{
    let k = T::size();
    let mut out: Vec<T> = Vec::with_capacity(n);
    let mut j: usize = 0;
    let mut pos: usize = off;
    while j < n
        invariant
            k == T::spec_size(),
            1 <= k <= 8,
            j <= n,
            off + n * k <= data.len(),
            pos == off + j * k,
            out@ =~= decoded_row::<T>(data@, off as int, j as int, bo),
        decreases n - j,
    {
        proof {
            assert((j + 1) * k <= n * k) by (nonlinear_arith)
                requires
                    j + 1 <= n,
                    k >= 1,
            ;
            assert((j + 1) * k == j * k + k) by (nonlinear_arith);
        }
        let x = T::decode(data, pos, bo);
        out.push(x);
        pos = pos + k;
        j = j + 1;
        assert(out@ =~= decoded_row::<T>(data@, off as int, j as int, bo));
    }
    out
}

/// The samples of row `r` decoded from `data`, rows `row_step` bytes apart.
pub open spec fn decode_fn<T: Sample>(data: Seq<u8>, row_step: int, len: int, bo: ByteOrder) -> spec_fn(int, Seq<T>) -> Seq<T> {
    |r: int, old: Seq<T>| decoded_row::<T>(data, r * row_step, len, bo)
}

/// Undoing horizontal prediction on each row.
pub open spec fn predict_fn<T: Wrapping>(samples: nat) -> spec_fn(int, Seq<T>) -> Seq<T> {
    |r: int, old: Seq<T>| predict(old, samples)
}

/// Inverting each row.
pub open spec fn invert_fn<T: Sample>() -> spec_fn(int, Seq<T>) -> Seq<T> {
    |r: int, old: Seq<T>| invert(old)
}

/// Whether the bytes of `rows` rows, `row_step` bytes apart with `need`
/// bytes each, lie within `n` bytes.
pub open spec fn data_fits(n: int, rows: int, row_step: int, need: int) -> bool {
    rows == 0 || (rows - 1) * row_step + need <= n
}

/// The base of a row before the last lies within the buffer.
proof fn lemma_base_in(start: int, row: int, rows: int, len: int, stride: int, n: int)
    requires
        0 <= row < rows,
        0 <= start,
        0 <= len <= stride,
        rows_fit(n, start, rows, len, stride),
    ensures
        0 <= row * stride,
        row_base(start, row, stride) + len <= n,
{
    assert(0 <= row * stride) by (nonlinear_arith)
        requires
            row >= 0,
            stride >= 0,
    ;
    if row < rows - 1 {
        lemma_rows_apart(start, row, rows - 1, len, stride);
    }
}

/// Decodes `rows` rows of `len` samples each from `data`, rows `row_step`
/// bytes apart there, into `buf`, rows `stride` apart from `start` on; fails
/// where `data` is too short.
pub fn read_rows<T: Sample>(
    data: &Vec<u8>,
    buf: &mut Vec<T>,
    start: usize,
    rows: usize,
    len: usize,
    stride: usize,
    row_step: usize,
    bo: ByteOrder,
) -> (r: Result<(), IoError>)
    requires
        len <= stride,
        len * T::spec_size() <= usize::MAX,
        rows_fit(old(buf)@.len() as int, start as int, rows as int, len as int, stride as int),
    ensures
        final(buf)@.len() == old(buf)@.len(),
        data_fits(data@.len() as int, rows as int, row_step as int, len * T::spec_size()) <==> r is Ok,
        r is Ok ==> rows_written(old(buf)@, final(buf)@, start as int, rows as int, len as int, stride as int, decode_fn::<T>(data@, row_step as int, len as int, bo)),
        r matches Err(e) ==> e == IoError::UnexpectedEof,
{
    let ghost orig = buf@;
    let ghost f = decode_fn::<T>(data@, row_step as int, len as int, bo);
    let k = T::size();
    let need = len * k;
    let mut row: usize = 0;
    proof {
        lemma_rows_none(orig, start as int, len as int, stride as int, f);
    }
    assert(orig.len() == buf.len());
    while row < rows
        invariant
            k == T::spec_size(),
            need == len * k,
            len <= stride,
            row <= rows,
            f == decode_fn::<T>(data@, row_step as int, len as int, bo),
            rows_fit(orig.len() as int, start as int, rows as int, len as int, stride as int),
            buf@.len() == orig.len(),
            orig == old(buf)@,
            orig.len() <= usize::MAX,
            row > 0 ==> (row - 1) * row_step + need <= data@.len(),
            rows_written(orig, buf@, start as int, row as int, len as int, stride as int, f),
        decreases rows - row,
    {
        proof {
            lemma_base_in(start as int, row as int, rows as int, len as int, stride as int, orig.len() as int);
        }
        let off = match row.checked_mul(row_step) {
            Some(o) => o,
            None => {
                proof {
                    assert(data@.len() == data.len());
                    assert((rows - 1) * row_step >= row * row_step) by (nonlinear_arith)
                        requires
                            row <= rows - 1,
                            row_step >= 0,
                    ;
                }
                return Err(IoError::UnexpectedEof);
            },
        };
        if off > data.len() || need > data.len() - off {
            proof {
                assert((rows - 1) * row_step >= row * row_step) by (nonlinear_arith)
                    requires
                        row <= rows - 1,
                        row_step >= 0,
                ;
            }
            return Err(IoError::UnexpectedEof);
        }
        let base = start + row * stride;
        let vals = decode_row::<T>(data, off, len, bo);
        let ghost cur = buf@;
        write_segment(buf, base, &vals);
        proof {
            lemma_rows_step(orig, cur, buf@, start as int, row as int, len as int, stride as int, f);
        }
        row = row + 1;
    }
    Ok(())
}

/// Undoes horizontal prediction on the rows of an image, `img_width` pixels
/// apart from `start` on, of `size.0` pixels of `samples` samples each.
pub(crate) fn rev_hpredict_nsamp<T: Wrapping>(
    image: &mut Vec<T>,
    start: usize,
    size: (u32, u32),
    img_width: usize,
    samples: usize,
) -> (r: TiffResult<()>)
    requires
        size.1 > 0 ==> size.0 <= img_width && img_width * samples <= usize::MAX,
        rows_fit(old(image)@.len() as int, start as int, size.1 as int, size.0 * samples, img_width * samples),
    ensures
        r is Ok,
        rows_written(old(image)@, final(image)@, start as int, size.1 as int, size.0 * samples, img_width * samples, predict_fn::<T>(samples as nat)),
{
    let ghost orig = image@;
    let ghost f = predict_fn::<T>(samples as nat);
    let width = size.0 as usize;
    let height = size.1 as usize;
    if height == 0 {
        proof {
            lemma_rows_none(orig, start as int, size.0 * samples, img_width * samples, f);
        }
        return Ok(());
    }
    proof {
        assert(width * samples <= img_width * samples) by (nonlinear_arith)
            requires
                width <= img_width,
        ;
    }
    let len = width * samples;
    let stride = img_width * samples;
    proof {
        lemma_rows_none(orig, start as int, len as int, stride as int, f);
    }
    if samples == 0 {
        assert forall|r: int| 0 <= r < height implies #[trigger] seg(image@, row_base(start as int, r, stride as int), len as int) == f(r, seg(orig, row_base(start as int, r, stride as int), len as int)) by {
            assert(seg(image@, row_base(start as int, r, stride as int), 0) =~= predict(seg(orig, row_base(start as int, r, stride as int), 0), 0));
        }
        return Ok(());
    }
    let mut row: usize = 0;
    assert(orig.len() == image.len());
    while row < height
        invariant
            orig.len() <= usize::MAX,
            samples > 0,
            len == width * samples,
            stride == img_width * samples,
            len <= stride,
            row <= height,
            f == predict_fn::<T>(samples as nat),
            rows_fit(orig.len() as int, start as int, height as int, len as int, stride as int),
            image@.len() == orig.len(),
            rows_written(orig, image@, start as int, row as int, len as int, stride as int, f),
        decreases height - row,
    {
        proof {
            lemma_base_in(start as int, row as int, height as int, len as int, stride as int, orig.len() as int);
            lemma_row_untouched(orig, image@, start as int, row as int, len as int, stride as int, f);
        }
        let base = start + row * stride;
        let mut vals = read_segment(image, base, len);
        predict_row(&mut vals, samples);
        let ghost cur = image@;
        write_segment(image, base, &vals);
        proof {
            lemma_rows_step(orig, cur, image@, start as int, row as int, len as int, stride as int, f);
        }
        row = row + 1;
    }
    Ok(())
}

/// Subtracts each sample of the rows of a buffer from the type's maximum.
pub(crate) fn invert_colors_unsigned<T: Invertible>(buffer: &mut Vec<T>, start: usize, rows: usize, len: usize, stride: usize)
    requires
        len <= stride,
        rows_fit(old(buffer)@.len() as int, start as int, rows as int, len as int, stride as int),
    ensures
        rows_written(old(buffer)@, final(buffer)@, start as int, rows as int, len as int, stride as int, invert_fn::<T>()),
{
    let ghost orig = buffer@;
    let ghost f = invert_fn::<T>();
    proof {
        lemma_rows_none(orig, start as int, len as int, stride as int, f);
    }
    let mut row: usize = 0;
    assert(orig.len() == buffer.len());
    while row < rows
        invariant
            orig.len() <= usize::MAX,
            len <= stride,
            row <= rows,
            f == invert_fn::<T>(),
            rows_fit(orig.len() as int, start as int, rows as int, len as int, stride as int),
            buffer@.len() == orig.len(),
            rows_written(orig, buffer@, start as int, row as int, len as int, stride as int, f),
        decreases rows - row,
    {
        proof {
            lemma_base_in(start as int, row as int, rows as int, len as int, stride as int, orig.len() as int);
            lemma_row_untouched(orig, buffer@, start as int, row as int, len as int, stride as int, f);
        }
        let base = start + row * stride;
        let mut vals = read_segment(buffer, base, len);
        invert_row(&mut vals);
        let ghost cur = buffer@;
        write_segment(buffer, base, &vals);
        proof {
            lemma_rows_step(orig, cur, buffer@, start as int, row as int, len as int, stride as int, f);
        }
        row = row + 1;
    }
}


/// A row of samples with horizontal prediction undone where `samples` is
/// positive, then inverted where `inv` holds.
pub open spec fn expand_row<T: Sample>(s: Seq<T>, samples: nat, inv: bool) -> Seq<T> {
    let p = if samples > 0 { predict(s, samples) } else { s };
    if inv { invert(p) } else { p }
}

/// The samples of row `r` decoded from `data`, rows `row_step` bytes apart,
/// then predicted and inverted as `expand_row` says.
pub open spec fn expand_fn<T: Sample>(
    data: Seq<u8>,
    row_step: int,
    len: int,
    bo: ByteOrder,
    samples: nat,
    inv: bool,
) -> spec_fn(int, Seq<T>) -> Seq<T> {
    |r: int, old: Seq<T>| expand_row(decoded_row::<T>(data, r * row_step, len, bo), samples, inv)
}

/// Decoding the rows, undoing prediction on them where `samples` is
/// positive and inverting them where `inv` holds writes the expanded rows.
pub(crate) proof fn lemma_expand_steps<T: Sample>(
    a: Seq<T>,
    b: Seq<T>,
    c: Seq<T>,
    d: Seq<T>,
    start: int,
    rows: int,
    len: int,
    stride: int,
    data: Seq<u8>,
    row_step: int,
    bo: ByteOrder,
    samples: nat,
    inv: bool,
)
    requires
        rows_written(a, b, start, rows, len, stride, decode_fn::<T>(data, row_step, len, bo)),
        samples > 0 ==> rows_written(b, c, start, rows, len, stride, predict_fn::<T>(samples)),
        samples == 0 ==> c == b,
        inv ==> rows_written(c, d, start, rows, len, stride, invert_fn::<T>()),
        !inv ==> d == c,
    ensures
        rows_written(a, d, start, rows, len, stride, expand_fn::<T>(data, row_step, len, bo, samples, inv)),
{
    let f = expand_fn::<T>(data, row_step, len, bo, samples, inv);
    assert forall|r: int| 0 <= r < rows implies #[trigger] seg(d, row_base(start, r, stride), len) == f(r, seg(a, row_base(start, r, stride), len)) by {
        let base = row_base(start, r, stride);
        assert(seg(b, base, len) == decode_fn::<T>(data, row_step, len, bo)(r, seg(a, base, len)));
        if samples > 0 {
            assert(seg(c, base, len) == predict_fn::<T>(samples)(r, seg(b, base, len)));
        }
        if inv {
            assert(seg(d, base, len) == invert_fn::<T>()(r, seg(c, base, len)));
        }
    }
    assert forall|i: int| 0 <= i < a.len() && !in_rows(i, start, rows, len, stride) implies d[i] == a[i] by {
        assert(b[i] == a[i]);
        if samples > 0 {
            assert(c[i] == b[i]);
        }
        if inv {
            assert(d[i] == c[i]);
        }
    }
}

/// `old` with each of `rows` rows of `len` elements, `stride` apart from
/// `start` on, replaced by what `f` makes of its row number and its old
/// elements.
pub open spec fn write_rows<T>(
    old: Seq<T>,
    start: int,
    rows: int,
    len: int,
    stride: int,
    f: spec_fn(int, Seq<T>) -> Seq<T>,
) -> Seq<T> {
    Seq::new(
        old.len(),
        |i: int|
            if in_rows(i, start, rows, len, stride) {
                let r = choose|r: int| 0 <= r < rows && row_base(start, r, stride) <= i < #[trigger] row_base(start, r, stride) + len;
                f(r, seg(old, row_base(start, r, stride), len))[i - row_base(start, r, stride)]
            } else {
                old[i]
            },
    )
}

/// Rows written into a buffer leave it as `write_rows` says.
pub(crate) proof fn lemma_written_is_write<T>(
    old: Seq<T>,
    new: Seq<T>,
    start: int,
    rows: int,
    len: int,
    stride: int,
    f: spec_fn(int, Seq<T>) -> Seq<T>,
)
    requires
        0 <= start,
        0 <= len <= stride,
        rows_fit(old.len() as int, start, rows, len, stride),
        rows_written(old, new, start, rows, len, stride, f),
    ensures
        new == write_rows(old, start, rows, len, stride, f),
{
    let w = write_rows(old, start, rows, len, stride, f);
    assert forall|i: int| 0 <= i < new.len() implies new[i] == w[i] by {
        if in_rows(i, start, rows, len, stride) {
            let r = choose|r: int| 0 <= r < rows && row_base(start, r, stride) <= i < #[trigger] row_base(start, r, stride) + len;
            let base = row_base(start, r, stride);
            lemma_base_in(start, r, rows, len, stride, old.len() as int);
            assert(seg(new, base, len) == f(r, seg(old, base, len)));
            assert(seg(new, base, len)[i - base] == new[i]);
        }
    }
    assert(new =~= w);
}


/// The row `s` with horizontal prediction applied: each sample but those of
/// the first pixel replaced by its wrapping difference from the same sample
/// of the pixel before it.
pub open spec fn difference<T: Wrapping>(s: Seq<T>, samples: nat) -> Seq<T> {
    Seq::new(s.len(), |c: int| if c < samples { s[c] } else { T::spec_wrapping_sub(s[c], s[c - samples]) })
}

/// Undoing prediction on a differenced row gives back each sample.
proof fn lemma_pred_difference<T: Wrapping>(s: Seq<T>, samples: nat, c: int)
    requires
        samples > 0,
        0 <= c < s.len(),
    ensures
        pred(difference(s, samples), samples, c) == s[c],
    decreases c,
{
    if c >= samples {
        lemma_pred_difference(s, samples, c - samples);
        T::lemma_add_sub(s[c], s[c - samples]);
    }
}

/// Horizontal prediction is undone by `predict`: undoing prediction on a
/// row that prediction made gives back the row.
pub proof fn lemma_predict_undoes_difference<T: Wrapping>(s: Seq<T>, samples: nat)
    requires
        samples > 0,
    ensures
        predict(difference(s, samples), samples) == s,
{
    assert forall|c: int| 0 <= c < s.len() implies predict(difference(s, samples), samples)[c] == s[c] by {
        lemma_pred_difference(s, samples, c);
    }
    assert(predict(difference(s, samples), samples) =~= s);
}

/// Inverting the colors of a row twice gives back the row.
pub proof fn lemma_invert_twice<T: Invertible>(s: Seq<T>)
    ensures
        invert(invert(s)) == s,
{
    assert forall|c: int| 0 <= c < s.len() implies invert(invert(s))[c] == s[c] by {
        T::lemma_complement_twice(s[c]);
    }
    assert(invert(invert(s)) =~= s);
}


/// Whether the rows of `a`, `rows` rows of `len` elements `stride` apart
/// from `start` on, hold what `f` makes of their row numbers.
pub open spec fn rows_hold<T>(a: Seq<T>, start: int, rows: int, len: int, stride: int, f: spec_fn(int, Seq<T>) -> Seq<T>) -> bool {
    forall|r: int| 0 <= r < rows ==> #[trigger] seg(a, row_base(start, r, stride), len) == f(r, Seq::empty())
}

/// Whether what `f` makes of a row depends on the row's number alone, and
/// has `len` elements.
pub open spec fn fills_rows<T>(f: spec_fn(int, Seq<T>) -> Seq<T>, len: int) -> bool {
    forall|r: int, x: Seq<T>| #[trigger] f(r, x) == f(r, Seq::empty()) && f(r, x).len() == len
}

/// A position lies in at most one of rows that do not overlap.
proof fn lemma_row_unique(i: int, start: int, r1: int, r2: int, len: int, stride: int)
    requires
        0 <= r1,
        0 <= r2,
        0 <= len <= stride,
        row_base(start, r1, stride) <= i < row_base(start, r1, stride) + len,
        row_base(start, r2, stride) <= i < row_base(start, r2, stride) + len,
    ensures
        r1 == r2,
{
    if r1 < r2 {
        lemma_rows_apart(start, r1, r2, len, stride);
    } else if r2 < r1 {
        lemma_rows_apart(start, r2, r1, len, stride);
    }
}

/// Writing rows with a function of the row number alone makes them hold
/// what it makes of them.
pub(crate) proof fn lemma_write_rows_hold<T>(old: Seq<T>, start: int, rows: int, len: int, stride: int, f: spec_fn(int, Seq<T>) -> Seq<T>)
    requires
        0 <= start,
        0 <= len <= stride,
        rows_fit(old.len() as int, start, rows, len, stride),
        fills_rows(f, len),
    ensures
        rows_hold(write_rows(old, start, rows, len, stride, f), start, rows, len, stride, f),
{
    let w = write_rows(old, start, rows, len, stride, f);
    assert forall|r: int| 0 <= r < rows implies #[trigger] seg(w, row_base(start, r, stride), len) == f(r, Seq::empty()) by {
        let base = row_base(start, r, stride);
        lemma_base_in(start, r, rows, len, stride, old.len() as int);
        assert forall|t: int| 0 <= t < len implies seg(w, base, len)[t] == f(r, Seq::empty())[t] by {
            let i = base + t;
            assert(row_base(start, r, stride) <= i < row_base(start, r, stride) + len);
            assert(in_rows(i, start, rows, len, stride));
            let r2 = choose|r2: int| 0 <= r2 < rows && row_base(start, r2, stride) <= i < #[trigger] row_base(start, r2, stride) + len;
            lemma_row_unique(i, start, r, r2, len, stride);
            assert(f(r, seg(old, base, len)) == f(r, Seq::empty()));
        }
        assert(seg(w, base, len) =~= f(r, Seq::empty()));
    }
}

/// Writing rows keeps other rows, none of whose positions it writes, as
/// they were.
pub(crate) proof fn lemma_write_rows_keep<T>(
    old: Seq<T>,
    start: int,
    rows: int,
    len: int,
    stride: int,
    f: spec_fn(int, Seq<T>) -> Seq<T>,
    start2: int,
    rows2: int,
    len2: int,
    stride2: int,
    g: spec_fn(int, Seq<T>) -> Seq<T>,
)
    requires
        0 <= start2,
        0 <= len2 <= stride2,
        rows_fit(old.len() as int, start2, rows2, len2, stride2),
        rows_hold(old, start2, rows2, len2, stride2, g),
        forall|i: int| #[trigger] in_rows(i, start2, rows2, len2, stride2) ==> !in_rows(i, start, rows, len, stride),
    ensures
        rows_hold(write_rows(old, start, rows, len, stride, f), start2, rows2, len2, stride2, g),
{
    let w = write_rows(old, start, rows, len, stride, f);
    assert forall|r: int| 0 <= r < rows2 implies #[trigger] seg(w, row_base(start2, r, stride2), len2) == g(r, Seq::empty()) by {
        let base = row_base(start2, r, stride2);
        lemma_base_in(start2, r, rows2, len2, stride2, old.len() as int);
        assert forall|t: int| 0 <= t < len2 implies seg(w, base, len2)[t] == seg(old, base, len2)[t] by {
            let i = base + t;
            assert(row_base(start2, r, stride2) <= i < row_base(start2, r, stride2) + len2);
            assert(in_rows(i, start2, rows2, len2, stride2));
        }
        assert(seg(w, base, len2) =~= seg(old, base, len2));
    }
}

/// Expanding rows makes each of `len` samples, from the row number alone.
pub(crate) proof fn lemma_expand_fills<T: Sample>(data: Seq<u8>, row_step: int, len: int, bo: ByteOrder, samples: nat, inv: bool)
    requires
        len >= 0,
    ensures
        fills_rows(expand_fn::<T>(data, row_step, len, bo, samples, inv), len),
{
    let f = expand_fn::<T>(data, row_step, len, bo, samples, inv);
    assert forall|r: int, x: Seq<T>| #[trigger] f(r, x) == f(r, Seq::empty()) && f(r, x).len() == len by {
        let d = decoded_row::<T>(data, r * row_step, len, bo);
        assert(d.len() == len);
    }
}

/// A sample of every width decodes to the integer its bytes hold in the
/// file's byte order: in a big-endian file the first byte weighs most, in a
/// little-endian file the last; signed samples read that integer in two's
/// complement.
pub proof fn lemma_samples_in_byte_order(b: Seq<u8>, bo: ByteOrder)
    ensures
        b.len() >= 1 ==> <u8 as Sample>::spec_decode(b, bo) == b[0],
        b.len() >= 1 ==> <i8 as Sample>::spec_decode(b, bo) as int == (if b[0] < 0x80 { b[0] as int } else { b[0] - 0x100 }),
        b.len() == 2 ==> {
            let v: int = if bo == ByteOrder::BigEndian { b[0] * 0x100 + b[1] } else { b[1] * 0x100 + b[0] };
            &&& <u16 as Sample>::spec_decode(b, bo) as int == v
            &&& <i16 as Sample>::spec_decode(b, bo) as int == (if v < 0x8000 { v } else { v - 0x1_0000 })
        },
        b.len() == 4 ==> {
            let v: int = if bo == ByteOrder::BigEndian {
                b[0] * 0x100_0000 + b[1] * 0x1_0000 + b[2] * 0x100 + b[3]
            } else {
                b[3] * 0x100_0000 + b[2] * 0x1_0000 + b[1] * 0x100 + b[0]
            };
            &&& <u32 as Sample>::spec_decode(b, bo) as int == v
            &&& <i32 as Sample>::spec_decode(b, bo) as int == (if v < 0x8000_0000 { v } else { v - 0x1_0000_0000 })
        },
        b.len() == 8 ==> {
            let v: int = if bo == ByteOrder::BigEndian {
                b[0] * 0x100_0000_0000_0000 + b[1] * 0x1_0000_0000_0000 + b[2] * 0x100_0000_0000 + b[3] * 0x1_0000_0000
                    + b[4] * 0x100_0000 + b[5] * 0x1_0000 + b[6] * 0x100 + b[7]
            } else {
                b[7] * 0x100_0000_0000_0000 + b[6] * 0x1_0000_0000_0000 + b[5] * 0x100_0000_0000 + b[4] * 0x1_0000_0000
                    + b[3] * 0x100_0000 + b[2] * 0x1_0000 + b[1] * 0x100 + b[0]
            };
            &&& <u64 as Sample>::spec_decode(b, bo) as int == v
            &&& <i64 as Sample>::spec_decode(b, bo) as int == (if v < 0x8000_0000_0000_0000 { v } else { v - 0x1_0000_0000_0000_0000 })
        },
{
    if b.len() == 2 {
        lemma_value_2(b);
    }
    if b.len() == 4 {
        lemma_value_4(b);
    }
    if b.len() == 8 {
        lemma_value_8(b);
    }
}

/// Inverting an unsigned sample of every width subtracts it from the
/// width's maximum.
pub proof fn lemma_complement_is_max_minus(a8: u8, a16: u16, a32: u32, a64: u64)
    ensures
        <u8 as Sample>::spec_complement(a8) == 0xff - a8,
        <u16 as Sample>::spec_complement(a16) == 0xffff - a16,
        <u32 as Sample>::spec_complement(a32) == 0xffff_ffff - a32,
        <u64 as Sample>::spec_complement(a64) == 0xffff_ffff_ffff_ffff - a64,
{
}

} // verus!
