//! Looking up tags in an image file directory and converting their values.

use std::collections::HashMap;
use vstd::prelude::*;
use vstd::std_specs::convert::TryFromSpec;
use vstd::std_specs::hash::group_hash_axioms;

use crate::decoder::Limits;
use crate::error::{TiffError, TiffFormatError, TiffResult, TiffUnsupportedError};
use crate::ifd::{
    code_points, realizes, realizes_result, spec_into_u16, spec_into_u16_vec, spec_into_u32,
    spec_into_u32_vec, spec_into_u64, spec_into_u64_vec, spec_into_u8_vec, spec_list_into_u16,
    spec_list_into_u32, spec_list_into_u64, spec_list_into_u8, unsigned_expected, Directory,
    dir_view, Entry, EntryModel, Value, ValueModel,
};
use crate::stream::{ByteOrder, SmartReader};
use crate::tags::{PhotometricInterpretation, SampleFormat, Tag};

verus! {

broadcast use group_hash_axioms;

/// What the values of a directory's entries are read from: the bytes of the
/// file, its byte order, the limit on decoding buffers, and whether it is a
/// BigTIFF file.
pub struct ReadContext {
    pub file: Seq<u8>,
    pub order: ByteOrder,
    pub dbs: usize,
    pub bigtiff: bool,
}

/// The context of reading values with the reader `r`.
pub open spec fn read_context(r: SmartReader, dbs: usize, bigtiff: bool) -> ReadContext {
    ReadContext { file: r.bytes(), order: r.order(), dbs, bigtiff }
}

/// An error as a spec describes it: exactly, or as the error of a value that
/// is not an unsigned integer, where the value is a list or a string that
/// the spec describes by its model.
pub enum ErrorModel {
    Exact(TiffError),
    NotUnsigned(ValueModel),
    NotSigned(ValueModel),
    UnsupportedSampleFormat(Seq<SampleFormat>),
    InterpretationWithBits(PhotometricInterpretation, Seq<u8>),
}

/// Whether the error `e` is the one the model `m` describes.
pub open spec fn error_realizes(e: TiffError, m: ErrorModel) -> bool {
    match m {
        ErrorModel::Exact(x) => e == x,
        ErrorModel::NotUnsigned(vm) => e matches TiffError::FormatError(
            TiffFormatError::UnsignedIntegerExpected(v),
        ) && realizes(v, vm),
        ErrorModel::NotSigned(vm) => e matches TiffError::FormatError(
            TiffFormatError::SignedIntegerExpected(v),
        ) && realizes(v, vm),
        ErrorModel::UnsupportedSampleFormat(f) => e matches TiffError::UnsupportedError(
            TiffUnsupportedError::UnsupportedSampleFormat(v),
        ) && v@ == f,
        ErrorModel::InterpretationWithBits(p, b) => e matches TiffError::UnsupportedError(
            TiffUnsupportedError::InterpretationWithBits(q, v),
        ) && q == p && v@ == b,
    }
}

/// Whether the result `r` is the spec result `s`.
pub open spec fn outcome<T>(r: TiffResult<T>, s: Result<T, ErrorModel>) -> bool {
    match s {
        Ok(x) => r == Ok::<T, TiffError>(x),
        Err(m) => r matches Err(e) && error_realizes(e, m),
    }
}

/// Whether the result `r` is the spec result `s`, for a list.
pub open spec fn outcome_list<T>(r: TiffResult<Vec<T>>, s: Result<Seq<T>, ErrorModel>) -> bool {
    match s {
        Ok(x) => r matches Ok(v) && v@ == x,
        Err(m) => r matches Err(e) && error_realizes(e, m),
    }
}

/// A spec result with an exact error.
pub open spec fn exact<T>(r: Result<T, TiffError>) -> Result<T, ErrorModel> {
    match r {
        Ok(x) => Ok(x),
        Err(e) => Err(ErrorModel::Exact(e)),
    }
}

/// What the tag `tag` of the directory `dir` holds: `None` where it has no
/// entry.
pub open spec fn spec_find_tag(dir: Map<u16, EntryModel>, tag: Tag, ctx: ReadContext) -> Result<Option<ValueModel>, TiffError> {
    if dir.contains_key(tag.code()) {
        match dir[tag.code()].spec_val(ctx.dbs, ctx.bigtiff, ctx.file, ctx.order) {
            Ok(m) => Ok(Some(m)),
            Err(e) => Err(e),
        }
    } else {
        Ok(None)
    }
}

/// Where looking up the tag `tag` leaves the reader that was at `pos`:
/// where reading the entry's value leaves it, or at `pos` where the
/// directory has no such entry.
pub open spec fn spec_find_tag_pos(dir: Map<u16, EntryModel>, tag: Tag, ctx: ReadContext, pos: nat) -> nat {
    if dir.contains_key(tag.code()) {
        dir[tag.code()].spec_val_pos(ctx.dbs, ctx.bigtiff, ctx.file, ctx.order, pos)
    } else {
        pos
    }
}

/// The value the model `m` describes, as a `u16`.
pub open spec fn model_into_u16(m: ValueModel) -> Result<u16, ErrorModel> {
    match m {
        ValueModel::Item(v) => exact(spec_into_u16(v)),
        _ => Err(ErrorModel::NotUnsigned(m)),
    }
}

/// The value the model `m` describes, as a `u32`.
pub open spec fn model_into_u32(m: ValueModel) -> Result<u32, ErrorModel> {
    match m {
        ValueModel::Item(v) => exact(spec_into_u32(v)),
        _ => Err(ErrorModel::NotUnsigned(m)),
    }
}

/// The value the model `m` describes, as a list of `u64`.
pub open spec fn model_into_u64_vec(m: ValueModel) -> Result<Seq<u64>, ErrorModel> {
    match m {
        ValueModel::Item(v) => exact(spec_into_u64_vec(v)),
        ValueModel::Items(s) => exact(spec_list_into_u64(s)),
        ValueModel::Text(c) => Ok(code_points(c).map_values(|x: u32| x as u64)),
    }
}

/// The value the model `m` describes, as a list of `u8`.
pub open spec fn model_into_u8_vec(m: ValueModel) -> Result<Seq<u8>, ErrorModel> {
    match m {
        ValueModel::Item(v) => exact(spec_into_u8_vec(v)),
        ValueModel::Items(s) => exact(spec_list_into_u8(s)),
        ValueModel::Text(c) => Err(ErrorModel::NotUnsigned(m)),
    }
}

/// A value of a known model as a `u16`.
pub fn value_into_u16(v: Value, Ghost(m): Ghost<ValueModel>) -> (r: TiffResult<u16>)
    requires
        realizes(v, m),
    ensures
        outcome(r, model_into_u16(m)),
{
    v.into_u16()
}

/// A value of a known model as a `u32`.
pub fn value_into_u32(v: Value, Ghost(m): Ghost<ValueModel>) -> (r: TiffResult<u32>)
    requires
        realizes(v, m),
    ensures
        outcome(r, model_into_u32(m)),
{
    v.into_u32()
}

/// A value of a known model as a list of `u64`.
pub fn value_into_u64_vec(v: Value, Ghost(m): Ghost<ValueModel>) -> (r: TiffResult<Vec<u64>>)
    requires
        realizes(v, m),
    ensures
        outcome_list(r, model_into_u64_vec(m)),
{
    v.into_u64_vec()
}

/// A value of a known model as a list of `u8`.
pub fn value_into_u8_vec(v: Value, Ghost(m): Ghost<ValueModel>) -> (r: TiffResult<Vec<u8>>)
    requires
        realizes(v, m),
    ensures
        outcome_list(r, model_into_u8_vec(m)),
{
    v.into_u8_vec()
}

/// Reads the value of the tag `tag` of the directory `ifd`.
pub fn find_tag(ifd: &Directory, tag: Tag, limits: &Limits, bigtiff: bool, reader: &mut SmartReader) -> (r: TiffResult<Option<Value>>)
    ensures
        final(reader).bytes() == old(reader).bytes(),
        final(reader).order() == old(reader).order(),
        final(reader).position() == spec_find_tag_pos(dir_view(ifd@), tag, read_context(*old(reader), limits.decoding_buffer_size, bigtiff), old(reader).position()),
        ({
            let ctx = ReadContext {
                file: old(reader).bytes(),
                order: old(reader).order(),
                dbs: limits.decoding_buffer_size,
                bigtiff,
            };
            match spec_find_tag(dir_view(ifd@), tag, ctx) {
                Ok(None) => r matches Ok(None),
                Ok(Some(m)) => r matches Ok(Some(v)) && realizes(v, m),
                Err(e) => r == Err::<Option<Value>, TiffError>(e),
            }
        }),
{
    let code = tag.to_u16();
    match ifd.get(&code) {
        None => Ok(None),
        Some(entry) => match entry.val(limits, bigtiff, reader) {
            Ok(v) => Ok(Some(v)),
            Err(e) => Err(e),
        },
    }
}

/// Each element of `s` converted to `T`, or `None` where one does not fit.
pub open spec fn spec_try_all<T: TryFrom<u64>>(s: Seq<u64>) -> Option<Seq<T>>
    decreases s.len(),
{
    if s.len() == 0 {
        Some(Seq::empty())
    } else {
        match spec_try_all::<T>(s.drop_last()) {
            None => None,
            Some(r) => match <T as TryFromSpec<u64>>::try_from_spec(s.last()) {
                Ok(x) => Some(r.push(x)),
                Err(_) => None,
            },
        }
    }
}

/// Once a prefix does not convert, neither does the whole.
proof fn lemma_try_all_none<T: TryFrom<u64>>(s: Seq<u64>, n: int)
    requires
        0 <= n <= s.len(),
        spec_try_all::<T>(s.take(n)) is None,
    ensures
        spec_try_all::<T>(s) is None,
    decreases s.len() - n,
{
    if n < s.len() {
        assert(s.take(n + 1).drop_last() =~= s.take(n));
        lemma_try_all_none::<T>(s, n + 1);
    } else {
        assert(s.take(n) =~= s);
    }
}

/// Converts each element of `v` to `T`, failing with `InvalidTagValueType(tag)`
/// where one does not fit.
pub fn try_all<T: TryFrom<u64>>(v: Vec<u64>, tag: Tag) -> (r: TiffResult<Vec<T>>)
    ensures
        r matches Ok(w) ==> w@.len() == v@.len(),
        r is Err ==> r == Err::<Vec<T>, TiffError>(TiffError::FormatError(TiffFormatError::InvalidTagValueType(tag))),
        <T as TryFromSpec<u64>>::obeys_try_from_spec() ==> match spec_try_all::<T>(v@) {
            Some(s) => r matches Ok(w) && w@ == s,
            None => r == Err::<Vec<T>, TiffError>(
                TiffError::FormatError(TiffFormatError::InvalidTagValueType(tag)),
            ),
        },
{
    let mut out: Vec<T> = Vec::with_capacity(v.len());
    let mut i: usize = 0;
    assert(v@.take(0) =~= Seq::<u64>::empty());
    while i < v.len()
        invariant
            i <= v@.len(),
            out@.len() == i,
            <T as TryFromSpec<u64>>::obeys_try_from_spec() ==> spec_try_all::<T>(v@.take(i as int)) == Some(out@),
        decreases v.len() - i,
    {
        assert(v@.take(i + 1).drop_last() =~= v@.take(i as int));
        assert(v@.take(i + 1).last() == v@[i as int]);
        match T::try_from(v[i]) {
            Ok(x) => out.push(x),
            Err(_) => {
                proof {
                    if <T as TryFromSpec<u64>>::obeys_try_from_spec() {
                        lemma_try_all_none::<T>(v@, i + 1);
                    }
                }
                return Err(TiffError::FormatError(TiffFormatError::InvalidTagValueType(tag)));
            },
        }
        i = i + 1;
    }
    assert(v@.take(v@.len() as int) =~= v@);
    Ok(out)
}

/// What `find_tag_uint_vec` reads for the tag `tag`: its values as a list of
/// `T`, or `None` where the directory has no entry for it.
pub open spec fn spec_find_tag_uint_vec<T: TryFrom<u64>>(dir: Map<u16, EntryModel>, tag: Tag, ctx: ReadContext) -> Result<Option<Seq<T>>, ErrorModel> {
    match spec_find_tag(dir, tag, ctx) {
        Err(e) => Err(ErrorModel::Exact(e)),
        Ok(None) => Ok(None),
        Ok(Some(m)) => match model_into_u64_vec(m) {
            Err(e) => Err(e),
            Ok(s) => match spec_try_all::<T>(s) {
                Some(x) => Ok(Some(x)),
                None => Err(ErrorModel::Exact(TiffError::FormatError(TiffFormatError::InvalidTagValueType(tag)))),
            },
        },
    }
}

/// Reads the values of the tag `tag` as a list of `T`.
pub fn find_tag_uint_vec<T: TryFrom<u64>>(ifd: &Directory, tag: Tag, limits: &Limits, bigtiff: bool, reader: &mut SmartReader) -> (r: TiffResult<Option<Vec<T>>>)
    requires
        <T as TryFromSpec<u64>>::obeys_try_from_spec(),
    ensures
        final(reader).bytes() == old(reader).bytes(),
        final(reader).order() == old(reader).order(),
        final(reader).position() == spec_find_tag_pos(dir_view(ifd@), tag, read_context(*old(reader), limits.decoding_buffer_size, bigtiff), old(reader).position()),
        ({
            let ctx = ReadContext {
                file: old(reader).bytes(),
                order: old(reader).order(),
                dbs: limits.decoding_buffer_size,
                bigtiff,
            };
            match spec_find_tag_uint_vec::<T>(dir_view(ifd@), tag, ctx) {
                Ok(None) => r matches Ok(None),
                Ok(Some(s)) => r matches Ok(Some(v)) && v@ == s,
                Err(m) => r matches Err(e) && error_realizes(e, m),
            }
        }),
{
    let ghost ctx = ReadContext {
        file: reader.bytes(),
        order: reader.order(),
        dbs: limits.decoding_buffer_size,
        bigtiff,
    };
    match find_tag(ifd, tag, limits, bigtiff, reader) {
        Err(e) => Err(e),
        Ok(None) => Ok(None),
        Ok(Some(v)) => {
            let ghost m = spec_find_tag(dir_view(ifd@), tag, ctx).unwrap().unwrap();
            match value_into_u64_vec(v, Ghost(m)) {
                Err(e) => Err(e),
                Ok(w) => match try_all::<T>(w, tag) {
                    Err(e) => Err(e),
                    Ok(x) => Ok(Some(x)),
                },
            }
        },
    }
}

/// What the required tag `tag` holds, as a `u32`.
pub open spec fn spec_require_u32(dir: Map<u16, EntryModel>, tag: Tag, ctx: ReadContext) -> Result<u32, ErrorModel> {
    match spec_find_tag(dir, tag, ctx) {
        Err(e) => Err(ErrorModel::Exact(e)),
        Ok(None) => Err(ErrorModel::Exact(TiffError::FormatError(TiffFormatError::RequiredTagNotFound(tag)))),
        Ok(Some(m)) => model_into_u32(m),
    }
}

/// Reads the required tag `tag` as a `u32`.
pub fn require_u32(ifd: &Directory, tag: Tag, limits: &Limits, bigtiff: bool, reader: &mut SmartReader) -> (r: TiffResult<u32>)
    ensures
        final(reader).bytes() == old(reader).bytes(),
        final(reader).order() == old(reader).order(),
        final(reader).position() == spec_find_tag_pos(dir_view(ifd@), tag, read_context(*old(reader), limits.decoding_buffer_size, bigtiff), old(reader).position()),
        outcome(r, spec_require_u32(dir_view(ifd@), tag, ReadContext {
            file: old(reader).bytes(),
            order: old(reader).order(),
            dbs: limits.decoding_buffer_size,
            bigtiff,
        })),
{
    let ghost ctx = ReadContext {
        file: reader.bytes(),
        order: reader.order(),
        dbs: limits.decoding_buffer_size,
        bigtiff,
    };
    match find_tag(ifd, tag, limits, bigtiff, reader) {
        Err(e) => Err(e),
        Ok(None) => Err(TiffError::FormatError(TiffFormatError::RequiredTagNotFound(tag))),
        Ok(Some(v)) => {
            let ghost m = spec_find_tag(dir_view(ifd@), tag, ctx).unwrap().unwrap();
            value_into_u32(v, Ghost(m))
        },
    }
}

/// What the optional tag `tag` holds, as a `u16`.
pub open spec fn spec_find_u16(dir: Map<u16, EntryModel>, tag: Tag, ctx: ReadContext) -> Result<Option<u16>, ErrorModel> {
    match spec_find_tag(dir, tag, ctx) {
        Err(e) => Err(ErrorModel::Exact(e)),
        Ok(None) => Ok(None),
        Ok(Some(m)) => match model_into_u16(m) {
            Ok(x) => Ok(Some(x)),
            Err(e) => Err(e),
        },
    }
}

/// Reads the optional tag `tag` as a `u16`.
pub fn find_u16(ifd: &Directory, tag: Tag, limits: &Limits, bigtiff: bool, reader: &mut SmartReader) -> (r: TiffResult<Option<u16>>)
    ensures
        final(reader).bytes() == old(reader).bytes(),
        final(reader).order() == old(reader).order(),
        final(reader).position() == spec_find_tag_pos(dir_view(ifd@), tag, read_context(*old(reader), limits.decoding_buffer_size, bigtiff), old(reader).position()),
        outcome(r, spec_find_u16(dir_view(ifd@), tag, ReadContext {
            file: old(reader).bytes(),
            order: old(reader).order(),
            dbs: limits.decoding_buffer_size,
            bigtiff,
        })),
{
    let ghost ctx = ReadContext {
        file: reader.bytes(),
        order: reader.order(),
        dbs: limits.decoding_buffer_size,
        bigtiff,
    };
    match find_tag(ifd, tag, limits, bigtiff, reader) {
        Err(e) => Err(e),
        Ok(None) => Ok(None),
        Ok(Some(v)) => {
            let ghost m = spec_find_tag(dir_view(ifd@), tag, ctx).unwrap().unwrap();
            match value_into_u16(v, Ghost(m)) {
                Ok(x) => Ok(Some(x)),
                Err(e) => Err(e),
            }
        },
    }
}

/// What the optional tag `tag` holds, as a `u32`.
pub open spec fn spec_find_u32(dir: Map<u16, EntryModel>, tag: Tag, ctx: ReadContext) -> Result<Option<u32>, ErrorModel> {
    match spec_find_tag(dir, tag, ctx) {
        Err(e) => Err(ErrorModel::Exact(e)),
        Ok(None) => Ok(None),
        Ok(Some(m)) => match model_into_u32(m) {
            Ok(x) => Ok(Some(x)),
            Err(e) => Err(e),
        },
    }
}

/// Reads the optional tag `tag` as a `u32`.
pub fn find_u32(ifd: &Directory, tag: Tag, limits: &Limits, bigtiff: bool, reader: &mut SmartReader) -> (r: TiffResult<Option<u32>>)
    ensures
        final(reader).bytes() == old(reader).bytes(),
        final(reader).order() == old(reader).order(),
        final(reader).position() == spec_find_tag_pos(dir_view(ifd@), tag, read_context(*old(reader), limits.decoding_buffer_size, bigtiff), old(reader).position()),
        outcome(r, spec_find_u32(dir_view(ifd@), tag, ReadContext {
            file: old(reader).bytes(),
            order: old(reader).order(),
            dbs: limits.decoding_buffer_size,
            bigtiff,
        })),
{
    let ghost ctx = ReadContext {
        file: reader.bytes(),
        order: reader.order(),
        dbs: limits.decoding_buffer_size,
        bigtiff,
    };
    match find_tag(ifd, tag, limits, bigtiff, reader) {
        Err(e) => Err(e),
        Ok(None) => Ok(None),
        Ok(Some(v)) => {
            let ghost m = spec_find_tag(dir_view(ifd@), tag, ctx).unwrap().unwrap();
            match value_into_u32(v, Ghost(m)) {
                Ok(x) => Ok(Some(x)),
                Err(e) => Err(e),
            }
        },
    }
}

/// What the tag `tag`, which the directory has, holds as a list of `u64`.
pub open spec fn spec_require_u64_vec(dir: Map<u16, EntryModel>, tag: Tag, ctx: ReadContext) -> Result<Seq<u64>, ErrorModel> {
    match spec_find_tag(dir, tag, ctx) {
        Err(e) => Err(ErrorModel::Exact(e)),
        Ok(None) => Err(ErrorModel::Exact(TiffError::FormatError(TiffFormatError::RequiredTagNotFound(tag)))),
        Ok(Some(m)) => model_into_u64_vec(m),
    }
}

/// Reads the tag `tag`, which the directory has, as a list of `u64`.
pub fn require_u64_vec(ifd: &Directory, tag: Tag, limits: &Limits, bigtiff: bool, reader: &mut SmartReader) -> (r: TiffResult<Vec<u64>>)
    ensures
        final(reader).bytes() == old(reader).bytes(),
        final(reader).order() == old(reader).order(),
        final(reader).position() == spec_find_tag_pos(dir_view(ifd@), tag, read_context(*old(reader), limits.decoding_buffer_size, bigtiff), old(reader).position()),
        outcome_list(r, spec_require_u64_vec(dir_view(ifd@), tag, ReadContext {
            file: old(reader).bytes(),
            order: old(reader).order(),
            dbs: limits.decoding_buffer_size,
            bigtiff,
        })),
{
    let ghost ctx = ReadContext {
        file: reader.bytes(),
        order: reader.order(),
        dbs: limits.decoding_buffer_size,
        bigtiff,
    };
    match find_tag(ifd, tag, limits, bigtiff, reader) {
        Err(e) => Err(e),
        Ok(None) => Err(TiffError::FormatError(TiffFormatError::RequiredTagNotFound(tag))),
        Ok(Some(v)) => {
            let ghost m = spec_find_tag(dir_view(ifd@), tag, ctx).unwrap().unwrap();
            value_into_u64_vec(v, Ghost(m))
        },
    }
}

/// The value the model `m` describes, as a `u64`.
pub open spec fn model_into_u64(m: ValueModel) -> Result<u64, ErrorModel> {
    match m {
        ValueModel::Item(v) => exact(spec_into_u64(v)),
        _ => Err(ErrorModel::NotUnsigned(m)),
    }
}

/// The value the model `m` describes, as a list of `u16`.
pub open spec fn model_into_u16_vec(m: ValueModel) -> Result<Seq<u16>, ErrorModel> {
    match m {
        ValueModel::Item(v) => exact(spec_into_u16_vec(v)),
        ValueModel::Items(s) => exact(spec_list_into_u16(s)),
        ValueModel::Text(c) => Err(ErrorModel::NotUnsigned(m)),
    }
}

/// The value the model `m` describes, as a list of `u32`.
pub open spec fn model_into_u32_vec(m: ValueModel) -> Result<Seq<u32>, ErrorModel> {
    match m {
        ValueModel::Item(v) => exact(spec_into_u32_vec(v)),
        ValueModel::Items(s) => exact(spec_list_into_u32(s)),
        ValueModel::Text(c) => Ok(code_points(c)),
    }
}

/// The value the model `m` describes, as a string.
pub open spec fn model_into_string(m: ValueModel) -> Result<Seq<char>, ErrorModel> {
    match m {
        ValueModel::Text(c) => Ok(c),
        ValueModel::Item(v) => match v {
            Value::Ascii(t) => Ok(t@),
            _ => Err(ErrorModel::Exact(TiffError::FormatError(TiffFormatError::SignedIntegerExpected(v)))),
        },
        ValueModel::Items(_) => Err(ErrorModel::NotSigned(m)),
    }
}

/// A value of a known model as a `u64`.
pub fn value_into_u64(v: Value, Ghost(m): Ghost<ValueModel>) -> (r: TiffResult<u64>)
    requires
        realizes(v, m),
    ensures
        outcome(r, model_into_u64(m)),
{
    v.into_u64()
}

/// A value of a known model as a list of `u16`.
pub fn value_into_u16_vec(v: Value, Ghost(m): Ghost<ValueModel>) -> (r: TiffResult<Vec<u16>>)
    requires
        realizes(v, m),
    ensures
        outcome_list(r, model_into_u16_vec(m)),
{
    v.into_u16_vec()
}

/// A value of a known model as a list of `u32`.
pub fn value_into_u32_vec(v: Value, Ghost(m): Ghost<ValueModel>) -> (r: TiffResult<Vec<u32>>)
    requires
        realizes(v, m),
    ensures
        outcome_list(r, model_into_u32_vec(m)),
{
    v.into_u32_vec()
}

/// Whether the exec result `r` is the spec result `s`, for a string.
pub open spec fn outcome_string(r: TiffResult<String>, s: Result<Seq<char>, ErrorModel>) -> bool {
    match s {
        Ok(c) => r matches Ok(t) && t@ == c,
        Err(m) => r matches Err(e) && error_realizes(e, m),
    }
}

/// A value of a known model as a string.
pub fn value_into_string(v: Value, Ghost(m): Ghost<ValueModel>) -> (r: TiffResult<String>)
    requires
        realizes(v, m),
    ensures
        outcome_string(r, model_into_string(m)),
{
    v.into_string()
}

} // verus!
