//! The samples a decoding produces, and the steps that fill them in: the
//! decoding of rows from a chunk's bytes, the horizontal predictor and the
//! inversion of colors.

use vstd::prelude::*;

use crate::decoder::Limits;
use crate::error::{ColorType, TiffError, TiffResult, TiffUnsupportedError};
use crate::samples::{
    data_fits, decode_fn, expand_fn, in_rows, invert_colors_unsigned, invert_fn, lemma_expand_fills,
    lemma_expand_steps, lemma_write_rows_hold, lemma_write_rows_keep, lemma_written_is_write,
    predict_fn, read_rows, rev_hpredict_nsamp, row_base, rows_fit, rows_hold, rows_written, seg,
    write_rows, Sample,
};
use crate::stream::{ByteOrder, IoError};

verus! {

/// Result of a decoding process
#[derive(Debug)]
pub enum DecodingResult {
    /// A vector of unsigned bytes
    U8(Vec<u8>),
    /// A vector of unsigned words
    U16(Vec<u16>),
    /// A vector of 32 bit unsigned ints
    U32(Vec<u32>),
    /// A vector of 64 bit unsigned ints
    U64(Vec<u64>),
    /// A vector of 32 bit IEEE floats, each held as the bits of its encoding
    F32(Vec<u32>),
    /// A vector of 64 bit IEEE floats, each held as the bits of its encoding
    F64(Vec<u64>),
    /// A vector of 8 bit signed ints
    I8(Vec<i8>),
    /// A vector of 16 bit signed ints
    I16(Vec<i16>),
    /// A vector of 32 bit signed ints
    I32(Vec<i32>),
    /// A vector of 64 bit signed ints
    I64(Vec<i64>),
}

/// The samples of a decoding result, as mathematical values.
pub enum ResultModel {
    U8(Seq<u8>),
    U16(Seq<u16>),
    U32(Seq<u32>),
    U64(Seq<u64>),
    F32(Seq<u32>),
    F64(Seq<u64>),
    I8(Seq<i8>),
    I16(Seq<i16>),
    I32(Seq<i32>),
    I64(Seq<i64>),
}

/// The sample type of a decoding result.
#[derive(Debug, Clone, Copy, PartialEq, Eq, Structural)]
pub enum SampleKind {
    U8,
    U16,
    U32,
    U64,
    F32,
    F64,
    I8,
    I16,
    I32,
    I64,
}

impl View for DecodingResult {
    type V = ResultModel;

    open spec fn view(&self) -> ResultModel {
        match self {
            DecodingResult::U8(b) => ResultModel::U8(b@),
            DecodingResult::U16(b) => ResultModel::U16(b@),
            DecodingResult::U32(b) => ResultModel::U32(b@),
            DecodingResult::U64(b) => ResultModel::U64(b@),
            DecodingResult::F32(b) => ResultModel::F32(b@),
            DecodingResult::F64(b) => ResultModel::F64(b@),
            DecodingResult::I8(b) => ResultModel::I8(b@),
            DecodingResult::I16(b) => ResultModel::I16(b@),
            DecodingResult::I32(b) => ResultModel::I32(b@),
            DecodingResult::I64(b) => ResultModel::I64(b@),
        }
    }
}

impl ResultModel {
    /// The sample type.
    pub open spec fn kind(self) -> SampleKind {
        match self {
            ResultModel::U8(_) => SampleKind::U8,
            ResultModel::U16(_) => SampleKind::U16,
            ResultModel::U32(_) => SampleKind::U32,
            ResultModel::U64(_) => SampleKind::U64,
            ResultModel::F32(_) => SampleKind::F32,
            ResultModel::F64(_) => SampleKind::F64,
            ResultModel::I8(_) => SampleKind::I8,
            ResultModel::I16(_) => SampleKind::I16,
            ResultModel::I32(_) => SampleKind::I32,
            ResultModel::I64(_) => SampleKind::I64,
        }
    }

    /// The number of samples.
    pub open spec fn len(self) -> nat {
        match self {
            ResultModel::U8(b) => b.len(),
            ResultModel::U16(b) => b.len(),
            ResultModel::U32(b) => b.len(),
            ResultModel::U64(b) => b.len(),
            ResultModel::F32(b) => b.len(),
            ResultModel::F64(b) => b.len(),
            ResultModel::I8(b) => b.len(),
            ResultModel::I16(b) => b.len(),
            ResultModel::I32(b) => b.len(),
            ResultModel::I64(b) => b.len(),
        }
    }
}

/// `n` zero samples of the kind `k`.
pub open spec fn zeros(k: SampleKind, n: nat) -> ResultModel {
    match k {
        SampleKind::U8 => ResultModel::U8(Seq::new(n, |i: int| 0u8)),
        SampleKind::U16 => ResultModel::U16(Seq::new(n, |i: int| 0u16)),
        SampleKind::U32 => ResultModel::U32(Seq::new(n, |i: int| 0u32)),
        SampleKind::U64 => ResultModel::U64(Seq::new(n, |i: int| 0u64)),
        SampleKind::F32 => ResultModel::F32(Seq::new(n, |i: int| 0u32)),
        SampleKind::F64 => ResultModel::F64(Seq::new(n, |i: int| 0u64)),
        SampleKind::I8 => ResultModel::I8(Seq::new(n, |i: int| 0i8)),
        SampleKind::I16 => ResultModel::I16(Seq::new(n, |i: int| 0i16)),
        SampleKind::I32 => ResultModel::I32(Seq::new(n, |i: int| 0i32)),
        SampleKind::I64 => ResultModel::I64(Seq::new(n, |i: int| 0i64)),
    }
}

/// The number of bytes of one sample of the kind `k`.
pub open spec fn kind_size(k: SampleKind) -> nat {
    match k {
        SampleKind::U8 | SampleKind::I8 => 1,
        SampleKind::U16 | SampleKind::I16 => 2,
        SampleKind::U32 | SampleKind::I32 | SampleKind::F32 => 4,
        SampleKind::U64 | SampleKind::I64 | SampleKind::F64 => 8,
    }
}

/// A vector of `n` copies of `x`.
fn filled<T: Copy>(x: T, n: usize) -> (r: Vec<T>)
    ensures
        r@ == Seq::new(n as nat, |i: int| x),
{
    let mut v: Vec<T> = Vec::with_capacity(n);
    let mut i: usize = 0;
    while i < n
        invariant
            i <= n,
            v@ =~= Seq::new(i as nat, |j: int| x),
        decreases n - i,
    {
        v.push(x);
        i = i + 1;
        assert(v@ =~= Seq::new(i as nat, |j: int| x));
    }
    v
}

/// What a new decoding result of `size` samples of the kind `k` is: all
/// zeros, or `LimitsExceeded` where its bytes exceed `limit`.
pub open spec fn spec_new_result(k: SampleKind, size: usize, limit: usize) -> Result<(SampleKind, nat), TiffError> {
    if size > limit as nat / kind_size(k) {
        Err(TiffError::LimitsExceeded)
    } else {
        Ok((k, size as nat))
    }
}

/// Whether the exec result `r` is the new decoding result `s` describes.
pub open spec fn new_result_matches(r: TiffResult<DecodingResult>, s: Result<(SampleKind, nat), TiffError>) -> bool {
    match s {
        Ok((k, n)) => r matches Ok(b) && b@ == zeros(k, n),
        Err(e) => r == Err::<DecodingResult, TiffError>(e),
    }
}

impl DecodingResult {
    pub(crate) fn new_u8(size: usize, limits: &Limits) -> (r: TiffResult<DecodingResult>)
        ensures
            new_result_matches(r, spec_new_result(SampleKind::U8, size, limits.decoding_buffer_size)),
    {
        if size > limits.decoding_buffer_size {
            Err(TiffError::LimitsExceeded)
        } else {
            Ok(DecodingResult::U8(filled(0u8, size)))
        }
    }

    pub(crate) fn new_u16(size: usize, limits: &Limits) -> (r: TiffResult<DecodingResult>)
        ensures
            new_result_matches(r, spec_new_result(SampleKind::U16, size, limits.decoding_buffer_size)),
    {
        if size > limits.decoding_buffer_size / 2 {
            Err(TiffError::LimitsExceeded)
        } else {
            Ok(DecodingResult::U16(filled(0u16, size)))
        }
    }

    pub(crate) fn new_u32(size: usize, limits: &Limits) -> (r: TiffResult<DecodingResult>)
        ensures
            new_result_matches(r, spec_new_result(SampleKind::U32, size, limits.decoding_buffer_size)),
    {
        if size > limits.decoding_buffer_size / 4 {
            Err(TiffError::LimitsExceeded)
        } else {
            Ok(DecodingResult::U32(filled(0u32, size)))
        }
    }

    pub(crate) fn new_u64(size: usize, limits: &Limits) -> (r: TiffResult<DecodingResult>)
        ensures
            new_result_matches(r, spec_new_result(SampleKind::U64, size, limits.decoding_buffer_size)),
    {
        if size > limits.decoding_buffer_size / 8 {
            Err(TiffError::LimitsExceeded)
        } else {
            Ok(DecodingResult::U64(filled(0u64, size)))
        }
    }

    pub(crate) fn new_f32(size: usize, limits: &Limits) -> (r: TiffResult<DecodingResult>)
        ensures
            new_result_matches(r, spec_new_result(SampleKind::F32, size, limits.decoding_buffer_size)),
    {
        if size > limits.decoding_buffer_size / 4 {
            Err(TiffError::LimitsExceeded)
        } else {
            Ok(DecodingResult::F32(filled(0u32, size)))
        }
    }

    pub(crate) fn new_f64(size: usize, limits: &Limits) -> (r: TiffResult<DecodingResult>)
        ensures
            new_result_matches(r, spec_new_result(SampleKind::F64, size, limits.decoding_buffer_size)),
    {
        if size > limits.decoding_buffer_size / 8 {
            Err(TiffError::LimitsExceeded)
        } else {
            Ok(DecodingResult::F64(filled(0u64, size)))
        }
    }

    pub(crate) fn new_i8(size: usize, limits: &Limits) -> (r: TiffResult<DecodingResult>)
        ensures
            new_result_matches(r, spec_new_result(SampleKind::I8, size, limits.decoding_buffer_size)),
    {
        if size > limits.decoding_buffer_size {
            Err(TiffError::LimitsExceeded)
        } else {
            Ok(DecodingResult::I8(filled(0i8, size)))
        }
    }

    pub(crate) fn new_i16(size: usize, limits: &Limits) -> (r: TiffResult<DecodingResult>)
        ensures
            new_result_matches(r, spec_new_result(SampleKind::I16, size, limits.decoding_buffer_size)),
    {
        if size > limits.decoding_buffer_size / 2 {
            Err(TiffError::LimitsExceeded)
        } else {
            Ok(DecodingResult::I16(filled(0i16, size)))
        }
    }

    pub(crate) fn new_i32(size: usize, limits: &Limits) -> (r: TiffResult<DecodingResult>)
        ensures
            new_result_matches(r, spec_new_result(SampleKind::I32, size, limits.decoding_buffer_size)),
    {
        if size > limits.decoding_buffer_size / 4 {
            Err(TiffError::LimitsExceeded)
        } else {
            Ok(DecodingResult::I32(filled(0i32, size)))
        }
    }

    pub(crate) fn new_i64(size: usize, limits: &Limits) -> (r: TiffResult<DecodingResult>)
        ensures
            new_result_matches(r, spec_new_result(SampleKind::I64, size, limits.decoding_buffer_size)),
    {
        if size > limits.decoding_buffer_size / 8 {
            Err(TiffError::LimitsExceeded)
        } else {
            Ok(DecodingResult::I64(filled(0i64, size)))
        }
    }

    /// The number of bytes of one sample.
    pub fn byte_len(&self) -> (r: usize)
        ensures
            r == kind_size(self@.kind()),
    {
        match self {
            DecodingResult::U8(_) => 1,
            DecodingResult::U16(_) => 2,
            DecodingResult::U32(_) => 4,
            DecodingResult::U64(_) => 8,
            DecodingResult::F32(_) => 4,
            DecodingResult::F64(_) => 8,
            DecodingResult::I8(_) => 1,
            DecodingResult::I16(_) => 2,
            DecodingResult::I32(_) => 4,
            DecodingResult::I64(_) => 8,
        }
    }

    /// The sample type.
    pub fn kind(&self) -> (r: SampleKind)
        ensures
            r == self@.kind(),
    {
        match self {
            DecodingResult::U8(_) => SampleKind::U8,
            DecodingResult::U16(_) => SampleKind::U16,
            DecodingResult::U32(_) => SampleKind::U32,
            DecodingResult::U64(_) => SampleKind::U64,
            DecodingResult::F32(_) => SampleKind::F32,
            DecodingResult::F64(_) => SampleKind::F64,
            DecodingResult::I8(_) => SampleKind::I8,
            DecodingResult::I16(_) => SampleKind::I16,
            DecodingResult::I32(_) => SampleKind::I32,
            DecodingResult::I64(_) => SampleKind::I64,
        }
    }

    /// The number of samples.
    pub fn len(&self) -> (r: usize)
        ensures
            r == self@.len(),
    {
        match self {
            DecodingResult::U8(b) => b.len(),
            DecodingResult::U16(b) => b.len(),
            DecodingResult::U32(b) => b.len(),
            DecodingResult::U64(b) => b.len(),
            DecodingResult::F32(b) => b.len(),
            DecodingResult::F64(b) => b.len(),
            DecodingResult::I8(b) => b.len(),
            DecodingResult::I16(b) => b.len(),
            DecodingResult::I32(b) => b.len(),
            DecodingResult::I64(b) => b.len(),
        }
    }
}


/// A step applied to each row of the samples of a chunk.
pub enum RowOp {
    /// Decoding the row from the bytes `data`, rows `row_step` bytes apart
    /// there, in the byte order.
    Decode(Seq<u8>, int, ByteOrder),
    /// Undoing horizontal prediction, with the number of samples per pixel.
    Predict(nat),
    /// Inverting the colors.
    Invert,
    /// Decoding, then undoing prediction where the number of samples per
    /// pixel is positive, then inverting where the flag holds.
    Expand(Seq<u8>, int, ByteOrder, nat, bool),
}

/// What the step `op` makes of row `r` of `len` samples.
pub open spec fn row_fn<T: Sample>(op: RowOp, len: int) -> spec_fn(int, Seq<T>) -> Seq<T> {
    match op {
        RowOp::Decode(data, row_step, bo) => decode_fn::<T>(data, row_step, len, bo),
        RowOp::Predict(samples) => predict_fn::<T>(samples),
        RowOp::Invert => invert_fn::<T>(),
        RowOp::Expand(data, row_step, bo, samples, inv) => expand_fn::<T>(data, row_step, len, bo, samples, inv),
    }
}

/// Whether `new` is `old`, of the same sample type, with the step `op`
/// applied to its `rows` rows of `len` samples, `stride` apart from `start`
/// on, and everything else left as it was.
pub open spec fn result_rows_written(
    old: ResultModel,
    new: ResultModel,
    start: int,
    rows: int,
    len: int,
    stride: int,
    op: RowOp,
) -> bool {
    match (old, new) {
        (ResultModel::U8(a), ResultModel::U8(b)) => rows_written(a, b, start, rows, len, stride, row_fn::<u8>(op, len)),
        (ResultModel::U16(a), ResultModel::U16(b)) => rows_written(a, b, start, rows, len, stride, row_fn::<u16>(op, len)),
        (ResultModel::U32(a), ResultModel::U32(b)) => rows_written(a, b, start, rows, len, stride, row_fn::<u32>(op, len)),
        (ResultModel::U64(a), ResultModel::U64(b)) => rows_written(a, b, start, rows, len, stride, row_fn::<u64>(op, len)),
        (ResultModel::F32(a), ResultModel::F32(b)) => rows_written(a, b, start, rows, len, stride, row_fn::<u32>(op, len)),
        (ResultModel::F64(a), ResultModel::F64(b)) => rows_written(a, b, start, rows, len, stride, row_fn::<u64>(op, len)),
        (ResultModel::I8(a), ResultModel::I8(b)) => rows_written(a, b, start, rows, len, stride, row_fn::<i8>(op, len)),
        (ResultModel::I16(a), ResultModel::I16(b)) => rows_written(a, b, start, rows, len, stride, row_fn::<i16>(op, len)),
        (ResultModel::I32(a), ResultModel::I32(b)) => rows_written(a, b, start, rows, len, stride, row_fn::<i32>(op, len)),
        (ResultModel::I64(a), ResultModel::I64(b)) => rows_written(a, b, start, rows, len, stride, row_fn::<i64>(op, len)),
        _ => false,
    }
}

/// `m` with the step `op` applied to its `rows` rows of `len` samples,
/// `stride` apart from `start` on.
pub open spec fn result_write(m: ResultModel, start: int, rows: int, len: int, stride: int, op: RowOp) -> ResultModel {
    match m {
        ResultModel::U8(a) => ResultModel::U8(write_rows(a, start, rows, len, stride, row_fn::<u8>(op, len))),
        ResultModel::U16(a) => ResultModel::U16(write_rows(a, start, rows, len, stride, row_fn::<u16>(op, len))),
        ResultModel::U32(a) => ResultModel::U32(write_rows(a, start, rows, len, stride, row_fn::<u32>(op, len))),
        ResultModel::U64(a) => ResultModel::U64(write_rows(a, start, rows, len, stride, row_fn::<u64>(op, len))),
        ResultModel::F32(a) => ResultModel::F32(write_rows(a, start, rows, len, stride, row_fn::<u32>(op, len))),
        ResultModel::F64(a) => ResultModel::F64(write_rows(a, start, rows, len, stride, row_fn::<u64>(op, len))),
        ResultModel::I8(a) => ResultModel::I8(write_rows(a, start, rows, len, stride, row_fn::<i8>(op, len))),
        ResultModel::I16(a) => ResultModel::I16(write_rows(a, start, rows, len, stride, row_fn::<i16>(op, len))),
        ResultModel::I32(a) => ResultModel::I32(write_rows(a, start, rows, len, stride, row_fn::<i32>(op, len))),
        ResultModel::I64(a) => ResultModel::I64(write_rows(a, start, rows, len, stride, row_fn::<i64>(op, len))),
    }
}

/// Decoding rows, then undoing prediction and inverting them where asked,
/// is one expansion of the rows.
pub(crate) proof fn lemma_result_expand(
    a: ResultModel,
    b: ResultModel,
    c: ResultModel,
    d: ResultModel,
    start: int,
    rows: int,
    len: int,
    stride: int,
    data: Seq<u8>,
    row_step: int,
    bo: ByteOrder,
    samples: nat,
    inv: bool,
)
    requires
        result_rows_written(a, b, start, rows, len, stride, RowOp::Decode(data, row_step, bo)),
        samples > 0 ==> result_rows_written(b, c, start, rows, len, stride, RowOp::Predict(samples)),
        samples == 0 ==> c == b,
        inv ==> result_rows_written(c, d, start, rows, len, stride, RowOp::Invert),
        !inv ==> d == c,
    ensures
        result_rows_written(a, d, start, rows, len, stride, RowOp::Expand(data, row_step, bo, samples, inv)),
{
    match (a, b, c, d) {
        (ResultModel::U8(a1), ResultModel::U8(b1), ResultModel::U8(c1), ResultModel::U8(d1)) => {
            lemma_expand_steps::<u8>(a1, b1, c1, d1, start, rows, len, stride, data, row_step, bo, samples, inv);
        },
        (ResultModel::U16(a1), ResultModel::U16(b1), ResultModel::U16(c1), ResultModel::U16(d1)) => {
            lemma_expand_steps::<u16>(a1, b1, c1, d1, start, rows, len, stride, data, row_step, bo, samples, inv);
        },
        (ResultModel::U32(a1), ResultModel::U32(b1), ResultModel::U32(c1), ResultModel::U32(d1)) => {
            lemma_expand_steps::<u32>(a1, b1, c1, d1, start, rows, len, stride, data, row_step, bo, samples, inv);
        },
        (ResultModel::U64(a1), ResultModel::U64(b1), ResultModel::U64(c1), ResultModel::U64(d1)) => {
            lemma_expand_steps::<u64>(a1, b1, c1, d1, start, rows, len, stride, data, row_step, bo, samples, inv);
        },
        (ResultModel::F32(a1), ResultModel::F32(b1), ResultModel::F32(c1), ResultModel::F32(d1)) => {
            lemma_expand_steps::<u32>(a1, b1, c1, d1, start, rows, len, stride, data, row_step, bo, samples, inv);
        },
        (ResultModel::F64(a1), ResultModel::F64(b1), ResultModel::F64(c1), ResultModel::F64(d1)) => {
            lemma_expand_steps::<u64>(a1, b1, c1, d1, start, rows, len, stride, data, row_step, bo, samples, inv);
        },
        (ResultModel::I8(a1), ResultModel::I8(b1), ResultModel::I8(c1), ResultModel::I8(d1)) => {
            lemma_expand_steps::<i8>(a1, b1, c1, d1, start, rows, len, stride, data, row_step, bo, samples, inv);
        },
        (ResultModel::I16(a1), ResultModel::I16(b1), ResultModel::I16(c1), ResultModel::I16(d1)) => {
            lemma_expand_steps::<i16>(a1, b1, c1, d1, start, rows, len, stride, data, row_step, bo, samples, inv);
        },
        (ResultModel::I32(a1), ResultModel::I32(b1), ResultModel::I32(c1), ResultModel::I32(d1)) => {
            lemma_expand_steps::<i32>(a1, b1, c1, d1, start, rows, len, stride, data, row_step, bo, samples, inv);
        },
        (ResultModel::I64(a1), ResultModel::I64(b1), ResultModel::I64(c1), ResultModel::I64(d1)) => {
            lemma_expand_steps::<i64>(a1, b1, c1, d1, start, rows, len, stride, data, row_step, bo, samples, inv);
        },
        _ => {},
    }
}

/// Rows written into a result leave it as `result_write` says.
pub(crate) proof fn lemma_result_written_is_write(
    old: ResultModel,
    new: ResultModel,
    start: int,
    rows: int,
    len: int,
    stride: int,
    op: RowOp,
)
    requires
        0 <= start,
        0 <= len <= stride,
        rows_fit(old.len() as int, start, rows, len, stride),
        result_rows_written(old, new, start, rows, len, stride, op),
    ensures
        new == result_write(old, start, rows, len, stride, op),
        new.kind() == old.kind(),
        new.len() == old.len(),
{
    match (old, new) {
        (ResultModel::U8(a), ResultModel::U8(b)) => {
            lemma_written_is_write::<u8>(a, b, start, rows, len, stride, row_fn::<u8>(op, len));
        },
        (ResultModel::U16(a), ResultModel::U16(b)) => {
            lemma_written_is_write::<u16>(a, b, start, rows, len, stride, row_fn::<u16>(op, len));
        },
        (ResultModel::U32(a), ResultModel::U32(b)) => {
            lemma_written_is_write::<u32>(a, b, start, rows, len, stride, row_fn::<u32>(op, len));
        },
        (ResultModel::U64(a), ResultModel::U64(b)) => {
            lemma_written_is_write::<u64>(a, b, start, rows, len, stride, row_fn::<u64>(op, len));
        },
        (ResultModel::F32(a), ResultModel::F32(b)) => {
            lemma_written_is_write::<u32>(a, b, start, rows, len, stride, row_fn::<u32>(op, len));
        },
        (ResultModel::F64(a), ResultModel::F64(b)) => {
            lemma_written_is_write::<u64>(a, b, start, rows, len, stride, row_fn::<u64>(op, len));
        },
        (ResultModel::I8(a), ResultModel::I8(b)) => {
            lemma_written_is_write::<i8>(a, b, start, rows, len, stride, row_fn::<i8>(op, len));
        },
        (ResultModel::I16(a), ResultModel::I16(b)) => {
            lemma_written_is_write::<i16>(a, b, start, rows, len, stride, row_fn::<i16>(op, len));
        },
        (ResultModel::I32(a), ResultModel::I32(b)) => {
            lemma_written_is_write::<i32>(a, b, start, rows, len, stride, row_fn::<i32>(op, len));
        },
        (ResultModel::I64(a), ResultModel::I64(b)) => {
            lemma_written_is_write::<i64>(a, b, start, rows, len, stride, row_fn::<i64>(op, len));
        },
        _ => {},
    }
}

/// Decodes `rows` rows of `len` samples each from `data`, rows `row_step`
/// bytes apart there, into `buf`, rows `stride` apart from `start` on; fails
/// where `data` is too short.
pub(crate) fn decode_into(
    buf: &mut DecodingResult,
    data: &Vec<u8>,
    start: usize,
    rows: usize,
    len: usize,
    stride: usize,
    row_step: usize,
    bo: ByteOrder,
) -> (r: Result<(), IoError>)
    requires
        len <= stride,
        len * kind_size(old(buf)@.kind()) <= usize::MAX,
        rows_fit(old(buf)@.len() as int, start as int, rows as int, len as int, stride as int),
    ensures
        final(buf)@.kind() == old(buf)@.kind(),
        final(buf)@.len() == old(buf)@.len(),
        data_fits(data@.len() as int, rows as int, row_step as int, len * kind_size(old(buf)@.kind())) <==> r is Ok,
        r is Ok ==> result_rows_written(old(buf)@, final(buf)@, start as int, rows as int, len as int, stride as int, RowOp::Decode(data@, row_step as int, bo)),
        r matches Err(e) ==> e == IoError::UnexpectedEof,
{
    match buf {
            DecodingResult::U8(b) => read_rows::<u8>(data, b, start, rows, len, stride, row_step, bo),
            DecodingResult::U16(b) => read_rows::<u16>(data, b, start, rows, len, stride, row_step, bo),
            DecodingResult::U32(b) => read_rows::<u32>(data, b, start, rows, len, stride, row_step, bo),
            DecodingResult::U64(b) => read_rows::<u64>(data, b, start, rows, len, stride, row_step, bo),
            DecodingResult::F32(b) => read_rows::<u32>(data, b, start, rows, len, stride, row_step, bo),
            DecodingResult::F64(b) => read_rows::<u64>(data, b, start, rows, len, stride, row_step, bo),
            DecodingResult::I8(b) => read_rows::<i8>(data, b, start, rows, len, stride, row_step, bo),
            DecodingResult::I16(b) => read_rows::<i16>(data, b, start, rows, len, stride, row_step, bo),
            DecodingResult::I32(b) => read_rows::<i32>(data, b, start, rows, len, stride, row_step, bo),
            DecodingResult::I64(b) => read_rows::<i64>(data, b, start, rows, len, stride, row_step, bo),
    }
}


/// The number of samples per pixel the horizontal predictor works with for
/// the color type `ct`; `None` where it does not support the color type.
pub open spec fn predictor_samples(ct: ColorType) -> Option<nat> {
    match ct {
        ColorType::Gray(n) => if n == 8 || n == 16 || n == 32 || n == 64 { Some(1) } else { None },
        ColorType::RGB(n) => if n == 8 || n == 16 || n == 32 || n == 64 { Some(3) } else { None },
        ColorType::RGBA(n) => if n == 8 || n == 16 || n == 32 || n == 64 { Some(4) } else { None },
        ColorType::CMYK(n) => if n == 8 || n == 16 || n == 32 || n == 64 { Some(4) } else { None },
        _ => None,
    }
}

/// Whether the sample kind holds floating-point samples.
pub open spec fn is_float(k: SampleKind) -> bool {
    k == SampleKind::F32 || k == SampleKind::F64
}

/// Undoes horizontal prediction on the `size.1` rows of `size.0` pixels of
/// `image`, `img_width` pixels apart from `start` on. Fails with
/// `HorizontalPredictor` where the predictor does not support the color type
/// or the samples are floating point, leaving the samples as they were.
pub(crate) fn rev_hpredict(image: &mut DecodingResult, start: usize, size: (u32, u32), img_width: usize, color_type: ColorType) -> (r: TiffResult<()>)
    requires
        !is_float(old(image)@.kind()) ==> (predictor_samples(color_type) matches Some(s) ==> {
            &&& size.1 > 0 ==> size.0 <= img_width && img_width * s <= usize::MAX
            &&& rows_fit(old(image)@.len() as int, start as int, size.1 as int, size.0 * s, img_width * s)
        }),
    ensures
        predictor_samples(color_type) is None || is_float(old(image)@.kind()) ==> {
            &&& r == Err::<(), TiffError>(TiffError::UnsupportedError(TiffUnsupportedError::HorizontalPredictor(color_type)))
            &&& final(image)@ == old(image)@
        },
        predictor_samples(color_type) matches Some(s) ==> (!is_float(old(image)@.kind()) ==> r is Ok
            && result_rows_written(old(image)@, final(image)@, start as int, size.1 as int, size.0 * s, img_width * s, RowOp::Predict(s))),
{
    let samples: usize = match color_type {
        ColorType::Gray(8) | ColorType::Gray(16) | ColorType::Gray(32) | ColorType::Gray(64) => 1,
        ColorType::RGB(8) | ColorType::RGB(16) | ColorType::RGB(32) | ColorType::RGB(64) => 3,
        ColorType::RGBA(8)
        | ColorType::RGBA(16)
        | ColorType::RGBA(32)
        | ColorType::RGBA(64)
        | ColorType::CMYK(8)
        | ColorType::CMYK(16)
        | ColorType::CMYK(32)
        | ColorType::CMYK(64) => 4,
        _ => {
            return Err(TiffError::UnsupportedError(TiffUnsupportedError::HorizontalPredictor(color_type)));
        },
    };
    match image {
        DecodingResult::U8(buf) => {
            let r = rev_hpredict_nsamp(buf, start, size, img_width, samples);
            match r {
                Ok(()) => {},
                Err(e) => return Err(e),
            }
        },
        DecodingResult::U16(buf) => {
            let r = rev_hpredict_nsamp(buf, start, size, img_width, samples);
            match r {
                Ok(()) => {},
                Err(e) => return Err(e),
            }
        },
        DecodingResult::U32(buf) => {
            let r = rev_hpredict_nsamp(buf, start, size, img_width, samples);
            match r {
                Ok(()) => {},
                Err(e) => return Err(e),
            }
        },
        DecodingResult::U64(buf) => {
            let r = rev_hpredict_nsamp(buf, start, size, img_width, samples);
            match r {
                Ok(()) => {},
                Err(e) => return Err(e),
            }
        },
        DecodingResult::I8(buf) => {
            let r = rev_hpredict_nsamp(buf, start, size, img_width, samples);
            match r {
                Ok(()) => {},
                Err(e) => return Err(e),
            }
        },
        DecodingResult::I16(buf) => {
            let r = rev_hpredict_nsamp(buf, start, size, img_width, samples);
            match r {
                Ok(()) => {},
                Err(e) => return Err(e),
            }
        },
        DecodingResult::I32(buf) => {
            let r = rev_hpredict_nsamp(buf, start, size, img_width, samples);
            match r {
                Ok(()) => {},
                Err(e) => return Err(e),
            }
        },
        DecodingResult::I64(buf) => {
            let r = rev_hpredict_nsamp(buf, start, size, img_width, samples);
            match r {
                Ok(()) => {},
                Err(e) => return Err(e),
            }
        },
        DecodingResult::F32(_) => {
            return Err(TiffError::UnsupportedError(TiffUnsupportedError::HorizontalPredictor(color_type)));
        },
        DecodingResult::F64(_) => {
            return Err(TiffError::UnsupportedError(TiffUnsupportedError::HorizontalPredictor(color_type)));
        },
    }
    Ok(())
}

/// Whether `invert_colors` inverts samples of the kind `k` of an image of
/// the color type `ct`: unsigned grayscale samples as wide as the color
/// type's bits, or bytes for grayscale of at most eight bits.
pub open spec fn inverts(ct: ColorType, k: SampleKind) -> bool {
    match (ct, k) {
        (ColorType::Gray(64), SampleKind::U64) => true,
        (ColorType::Gray(32), SampleKind::U32) => true,
        (ColorType::Gray(16), SampleKind::U16) => true,
        (ColorType::Gray(n), SampleKind::U8) => n <= 8,
        _ => false,
    }
}

/// Inverts the colors of the `rows` rows of `len` samples of `buf`,
/// `stride` apart from `start` on, where `inverts` says so, and leaves
/// `buf` as it was elsewhere. Floating-point samples are left as they are:
/// inverting them is floating-point arithmetic, which callers outside the
/// library apply to the results they hand out.
pub(crate) fn invert_colors(buf: &mut DecodingResult, start: usize, rows: usize, len: usize, stride: usize, color_type: ColorType)
    requires
        len <= stride,
        rows_fit(old(buf)@.len() as int, start as int, rows as int, len as int, stride as int),
    ensures
        inverts(color_type, old(buf)@.kind()) ==> result_rows_written(old(buf)@, final(buf)@, start as int, rows as int, len as int, stride as int, RowOp::Invert),
        !inverts(color_type, old(buf)@.kind()) ==> final(buf)@ == old(buf)@,
{
    match (color_type, buf) {
        (ColorType::Gray(64), DecodingResult::U64(buffer)) => {
            invert_colors_unsigned(buffer, start, rows, len, stride);
        },
        (ColorType::Gray(32), DecodingResult::U32(buffer)) => {
            invert_colors_unsigned(buffer, start, rows, len, stride);
        },
        (ColorType::Gray(16), DecodingResult::U16(buffer)) => {
            invert_colors_unsigned(buffer, start, rows, len, stride);
        },
        (ColorType::Gray(n), DecodingResult::U8(buffer)) => {
            if n <= 8 {
                invert_colors_unsigned(buffer, start, rows, len, stride);
            }
        },
        _ => {},
    }
}


/// Applying a step to rows keeps the sample type and the number of samples.
pub(crate) proof fn lemma_result_write_shape(m: ResultModel, start: int, rows: int, len: int, stride: int, op: RowOp)
    ensures
        result_write(m, start, rows, len, stride, op).kind() == m.kind(),
        result_write(m, start, rows, len, stride, op).len() == m.len(),
{
}

/// Zero samples have the kind and number asked for.
pub(crate) proof fn lemma_zeros_shape(k: SampleKind, n: nat)
    ensures
        zeros(k, n).kind() == k,
        zeros(k, n).len() == n,
{
}


/// Whether the rows of `m`, `rows` rows of `len` samples `stride` apart
/// from `start` on, hold what the step `op` makes of their row numbers.
pub open spec fn res_rows_hold(m: ResultModel, start: int, rows: int, len: int, stride: int, op: RowOp) -> bool {
    match m {
        ResultModel::U8(a) => rows_hold(a, start, rows, len, stride, row_fn::<u8>(op, len)),
        ResultModel::U16(a) => rows_hold(a, start, rows, len, stride, row_fn::<u16>(op, len)),
        ResultModel::U32(a) => rows_hold(a, start, rows, len, stride, row_fn::<u32>(op, len)),
        ResultModel::U64(a) => rows_hold(a, start, rows, len, stride, row_fn::<u64>(op, len)),
        ResultModel::F32(a) => rows_hold(a, start, rows, len, stride, row_fn::<u32>(op, len)),
        ResultModel::F64(a) => rows_hold(a, start, rows, len, stride, row_fn::<u64>(op, len)),
        ResultModel::I8(a) => rows_hold(a, start, rows, len, stride, row_fn::<i8>(op, len)),
        ResultModel::I16(a) => rows_hold(a, start, rows, len, stride, row_fn::<i16>(op, len)),
        ResultModel::I32(a) => rows_hold(a, start, rows, len, stride, row_fn::<i32>(op, len)),
        ResultModel::I64(a) => rows_hold(a, start, rows, len, stride, row_fn::<i64>(op, len)),
    }
}

/// The `len` samples of `m` from `start` on.
pub open spec fn res_slice(m: ResultModel, start: int, len: int) -> ResultModel {
    match m {
        ResultModel::U8(a) => ResultModel::U8(a.subrange(start, start + len)),
        ResultModel::U16(a) => ResultModel::U16(a.subrange(start, start + len)),
        ResultModel::U32(a) => ResultModel::U32(a.subrange(start, start + len)),
        ResultModel::U64(a) => ResultModel::U64(a.subrange(start, start + len)),
        ResultModel::F32(a) => ResultModel::F32(a.subrange(start, start + len)),
        ResultModel::F64(a) => ResultModel::F64(a.subrange(start, start + len)),
        ResultModel::I8(a) => ResultModel::I8(a.subrange(start, start + len)),
        ResultModel::I16(a) => ResultModel::I16(a.subrange(start, start + len)),
        ResultModel::I32(a) => ResultModel::I32(a.subrange(start, start + len)),
        ResultModel::I64(a) => ResultModel::I64(a.subrange(start, start + len)),
    }
}

/// Expanding rows into a result makes them hold the expanded rows.
pub(crate) proof fn lemma_result_write_holds(
    m: ResultModel,
    start: int,
    rows: int,
    len: int,
    stride: int,
    data: Seq<u8>,
    row_step: int,
    bo: ByteOrder,
    samples: nat,
    inv: bool,
)
    requires
        0 <= start,
        0 <= len <= stride,
        rows_fit(m.len() as int, start, rows, len, stride),
    ensures
        res_rows_hold(
            result_write(m, start, rows, len, stride, RowOp::Expand(data, row_step, bo, samples, inv)),
            start,
            rows,
            len,
            stride,
            RowOp::Expand(data, row_step, bo, samples, inv),
        ),
{
    let op = RowOp::Expand(data, row_step, bo, samples, inv);
    match m {
        ResultModel::U8(a) => {
            lemma_expand_fills::<u8>(data, row_step, len, bo, samples, inv);
            lemma_write_rows_hold(a, start, rows, len, stride, row_fn::<u8>(op, len));
        },
        ResultModel::U16(a) => {
            lemma_expand_fills::<u16>(data, row_step, len, bo, samples, inv);
            lemma_write_rows_hold(a, start, rows, len, stride, row_fn::<u16>(op, len));
        },
        ResultModel::U32(a) => {
            lemma_expand_fills::<u32>(data, row_step, len, bo, samples, inv);
            lemma_write_rows_hold(a, start, rows, len, stride, row_fn::<u32>(op, len));
        },
        ResultModel::U64(a) => {
            lemma_expand_fills::<u64>(data, row_step, len, bo, samples, inv);
            lemma_write_rows_hold(a, start, rows, len, stride, row_fn::<u64>(op, len));
        },
        ResultModel::F32(a) => {
            lemma_expand_fills::<u32>(data, row_step, len, bo, samples, inv);
            lemma_write_rows_hold(a, start, rows, len, stride, row_fn::<u32>(op, len));
        },
        ResultModel::F64(a) => {
            lemma_expand_fills::<u64>(data, row_step, len, bo, samples, inv);
            lemma_write_rows_hold(a, start, rows, len, stride, row_fn::<u64>(op, len));
        },
        ResultModel::I8(a) => {
            lemma_expand_fills::<i8>(data, row_step, len, bo, samples, inv);
            lemma_write_rows_hold(a, start, rows, len, stride, row_fn::<i8>(op, len));
        },
        ResultModel::I16(a) => {
            lemma_expand_fills::<i16>(data, row_step, len, bo, samples, inv);
            lemma_write_rows_hold(a, start, rows, len, stride, row_fn::<i16>(op, len));
        },
        ResultModel::I32(a) => {
            lemma_expand_fills::<i32>(data, row_step, len, bo, samples, inv);
            lemma_write_rows_hold(a, start, rows, len, stride, row_fn::<i32>(op, len));
        },
        ResultModel::I64(a) => {
            lemma_expand_fills::<i64>(data, row_step, len, bo, samples, inv);
            lemma_write_rows_hold(a, start, rows, len, stride, row_fn::<i64>(op, len));
        },
    }
}

/// Writing rows into a result keeps other rows, none of whose positions it
/// writes, as they were.
pub(crate) proof fn lemma_result_write_keeps(
    m: ResultModel,
    start: int,
    rows: int,
    len: int,
    stride: int,
    op: RowOp,
    start2: int,
    rows2: int,
    len2: int,
    stride2: int,
    op2: RowOp,
)
    requires
        0 <= start2,
        0 <= len2 <= stride2,
        rows_fit(m.len() as int, start2, rows2, len2, stride2),
        res_rows_hold(m, start2, rows2, len2, stride2, op2),
        forall|i: int| #[trigger] in_rows(i, start2, rows2, len2, stride2) ==> !in_rows(i, start, rows, len, stride),
    ensures
        res_rows_hold(result_write(m, start, rows, len, stride, op), start2, rows2, len2, stride2, op2),
{
    match m {
        ResultModel::U8(a) => {
            lemma_write_rows_keep(a, start, rows, len, stride, row_fn::<u8>(op, len), start2, rows2, len2, stride2, row_fn::<u8>(op2, len2));
        },
        ResultModel::U16(a) => {
            lemma_write_rows_keep(a, start, rows, len, stride, row_fn::<u16>(op, len), start2, rows2, len2, stride2, row_fn::<u16>(op2, len2));
        },
        ResultModel::U32(a) => {
            lemma_write_rows_keep(a, start, rows, len, stride, row_fn::<u32>(op, len), start2, rows2, len2, stride2, row_fn::<u32>(op2, len2));
        },
        ResultModel::U64(a) => {
            lemma_write_rows_keep(a, start, rows, len, stride, row_fn::<u64>(op, len), start2, rows2, len2, stride2, row_fn::<u64>(op2, len2));
        },
        ResultModel::F32(a) => {
            lemma_write_rows_keep(a, start, rows, len, stride, row_fn::<u32>(op, len), start2, rows2, len2, stride2, row_fn::<u32>(op2, len2));
        },
        ResultModel::F64(a) => {
            lemma_write_rows_keep(a, start, rows, len, stride, row_fn::<u64>(op, len), start2, rows2, len2, stride2, row_fn::<u64>(op2, len2));
        },
        ResultModel::I8(a) => {
            lemma_write_rows_keep(a, start, rows, len, stride, row_fn::<i8>(op, len), start2, rows2, len2, stride2, row_fn::<i8>(op2, len2));
        },
        ResultModel::I16(a) => {
            lemma_write_rows_keep(a, start, rows, len, stride, row_fn::<i16>(op, len), start2, rows2, len2, stride2, row_fn::<i16>(op2, len2));
        },
        ResultModel::I32(a) => {
            lemma_write_rows_keep(a, start, rows, len, stride, row_fn::<i32>(op, len), start2, rows2, len2, stride2, row_fn::<i32>(op2, len2));
        },
        ResultModel::I64(a) => {
            lemma_write_rows_keep(a, start, rows, len, stride, row_fn::<i64>(op, len), start2, rows2, len2, stride2, row_fn::<i64>(op2, len2));
        },
    }
}

/// Two results of the same sample type whose rows hold what the same step
/// makes of them agree row by row: the rows of the first, `stride` apart
/// from `start` on, are those of the second, one after another.
pub(crate) proof fn lemma_rows_hold_agree(a: ResultModel, b: ResultModel, start: int, rows: int, len: int, stride: int, op: RowOp, r: int)
    requires
        a.kind() == b.kind(),
        res_rows_hold(a, start, rows, len, stride, op),
        res_rows_hold(b, 0, rows, len, len, op),
        0 <= r < rows,
    ensures
        res_slice(a, start + r * stride, len) == res_slice(b, r * len, len),
{
    match (a, b) {
        (ResultModel::U8(a), ResultModel::U8(b)) => {
            assert(seg(a, row_base(start, r, stride), len) == row_fn::<u8>(op, len)(r, Seq::empty()));
            assert(seg(b, row_base(0, r, len), len) == row_fn::<u8>(op, len)(r, Seq::empty()));
        },
        (ResultModel::U16(a), ResultModel::U16(b)) => {
            assert(seg(a, row_base(start, r, stride), len) == row_fn::<u16>(op, len)(r, Seq::empty()));
            assert(seg(b, row_base(0, r, len), len) == row_fn::<u16>(op, len)(r, Seq::empty()));
        },
        (ResultModel::U32(a), ResultModel::U32(b)) => {
            assert(seg(a, row_base(start, r, stride), len) == row_fn::<u32>(op, len)(r, Seq::empty()));
            assert(seg(b, row_base(0, r, len), len) == row_fn::<u32>(op, len)(r, Seq::empty()));
        },
        (ResultModel::U64(a), ResultModel::U64(b)) => {
            assert(seg(a, row_base(start, r, stride), len) == row_fn::<u64>(op, len)(r, Seq::empty()));
            assert(seg(b, row_base(0, r, len), len) == row_fn::<u64>(op, len)(r, Seq::empty()));
        },
        (ResultModel::F32(a), ResultModel::F32(b)) => {
            assert(seg(a, row_base(start, r, stride), len) == row_fn::<u32>(op, len)(r, Seq::empty()));
            assert(seg(b, row_base(0, r, len), len) == row_fn::<u32>(op, len)(r, Seq::empty()));
        },
        (ResultModel::F64(a), ResultModel::F64(b)) => {
            assert(seg(a, row_base(start, r, stride), len) == row_fn::<u64>(op, len)(r, Seq::empty()));
            assert(seg(b, row_base(0, r, len), len) == row_fn::<u64>(op, len)(r, Seq::empty()));
        },
        (ResultModel::I8(a), ResultModel::I8(b)) => {
            assert(seg(a, row_base(start, r, stride), len) == row_fn::<i8>(op, len)(r, Seq::empty()));
            assert(seg(b, row_base(0, r, len), len) == row_fn::<i8>(op, len)(r, Seq::empty()));
        },
        (ResultModel::I16(a), ResultModel::I16(b)) => {
            assert(seg(a, row_base(start, r, stride), len) == row_fn::<i16>(op, len)(r, Seq::empty()));
            assert(seg(b, row_base(0, r, len), len) == row_fn::<i16>(op, len)(r, Seq::empty()));
        },
        (ResultModel::I32(a), ResultModel::I32(b)) => {
            assert(seg(a, row_base(start, r, stride), len) == row_fn::<i32>(op, len)(r, Seq::empty()));
            assert(seg(b, row_base(0, r, len), len) == row_fn::<i32>(op, len)(r, Seq::empty()));
        },
        (ResultModel::I64(a), ResultModel::I64(b)) => {
            assert(seg(a, row_base(start, r, stride), len) == row_fn::<i64>(op, len)(r, Seq::empty()));
            assert(seg(b, row_base(0, r, len), len) == row_fn::<i64>(op, len)(r, Seq::empty()));
        },
        _ => {},
    }
}

} // verus!
