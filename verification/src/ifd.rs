//! Image file directories: their entries, and the values the entries hold.

use std::collections::HashMap;
use vstd::prelude::*;
use vstd::string::*;
use vstd::utf8::*;

use crate::decoder::Limits;
use crate::error::{TiffError, TiffFormatError, TiffResult};
use crate::stream::{can_read, lemma_value_2, lemma_value_4, lemma_value_8, signed_value, uint_value, ByteOrder, IoError, SmartReader};
use crate::stream::{sub_vec, u16_from_bytes, u32_from_bytes, u64_from_bytes};
use crate::stream::{i16_from_u16, i32_from_u32, i64_from_u64, i8_from_u8};
use crate::tags::Type;

verus! {

/// A value of a directory entry. Floating-point values are held as the bits
/// of their IEEE 754 encoding.
#[derive(Debug, PartialEq)]
pub enum Value {
    Byte(u8),
    Short(u16),
    SignedByte(i8),
    SignedShort(i16),
    Signed(i32),
    SignedBig(i64),
    Unsigned(u32),
    UnsignedBig(u64),
    Float(u32),
    Double(u64),
    List(Vec<Value>),
    Rational(u32, u32),
    RationalBig(u64, u64),
    SRational(i32, i32),
    SRationalBig(i64, i64),
    Ascii(String),
    Ifd(u32),
    IfdBig(u64),
}

/// The decoding of UTF-8 bytes into a string.
///
/// Calls `String::from_utf8`, which fails exactly where the bytes are not
/// valid UTF-8 and otherwise holds the characters they encode.
#[verifier::external_body]
pub(crate) fn string_from_utf8(bytes: Vec<u8>) -> (r: Option<String>)
    ensures
        r is Some <==> valid_utf8(bytes@),
        r matches Some(s) ==> s@ == decode_utf8(bytes@),
{
    String::from_utf8(bytes).ok()
}

/// The bytes of `b` before its first zero byte.
pub open spec fn until_nul(b: Seq<u8>) -> Seq<u8>
    decreases b.len(),
{
    if b.len() == 0 || b[0] == 0 {
        Seq::empty()
    } else {
        seq![b[0]] + until_nul(b.drop_first())
    }
}

/// What a string field of the bytes `b` reads as: the bytes before the first
/// zero byte, decoded as UTF-8; `InvalidTag` where they are not UTF-8.
pub open spec fn spec_nul_terminated_string(b: Seq<u8>) -> Result<Seq<char>, TiffError> {
    if valid_utf8(until_nul(b)) {
        Ok(decode_utf8(until_nul(b)))
    } else {
        Err(TiffError::FormatError(TiffFormatError::InvalidTag))
    }
}

/// The position of the first zero byte of `b`, or its length where it has none.
fn first_nul(b: &Vec<u8>) -> (r: usize)
    ensures
        r <= b@.len(),
        forall|i: int| 0 <= i < r ==> b@[i] != 0,
        r < b@.len() ==> b@[r as int] == 0,
{
    let mut i: usize = 0;
    while i < b.len()
        invariant
            i <= b@.len(),
            forall|j: int| 0 <= j < i ==> b@[j] != 0,
        decreases b.len() - i,
    {
        if b[i] == 0 {
            return i;
        }
        i = i + 1;
    }
    i
}

/// `until_nul` of bytes with no zero before `n`, and a zero at `n` or no byte there.
proof fn lemma_until_nul(b: Seq<u8>, n: int)
    requires
        0 <= n <= b.len(),
        forall|i: int| 0 <= i < n ==> b[i] != 0,
        n < b.len() ==> b[n] == 0,
    ensures
        until_nul(b) == b.take(n),
    decreases n,
{
    if n == 0 {
        assert(b.take(0) =~= Seq::<u8>::empty());
    } else {
        lemma_until_nul(b.drop_first(), n - 1);
        assert(b.take(n) =~= seq![b[0]] + b.drop_first().take(n - 1));
    }
}

/// Decodes the bytes of a string field: the bytes before the first zero byte,
/// as UTF-8.
pub fn nul_terminated_string(mut out: Vec<u8>) -> (r: TiffResult<String>)
    ensures
        match spec_nul_terminated_string(out@) {
            Ok(chars) => r matches Ok(s) && s@ == chars,
            Err(e) => r == Err::<String, TiffError>(e),
        },
{
    let ghost orig = out@;
    let first = first_nul(&out);
    proof {
        lemma_until_nul(orig, first as int);
    }
    out.truncate(first);
    match string_from_utf8(out) {
        Some(s) => Ok(s),
        None => Err(TiffError::FormatError(TiffFormatError::InvalidTag)),
    }
}

/// The error of a value that is not an unsigned integer where one is expected.
pub open spec fn unsigned_expected(v: Value) -> TiffError {
    TiffError::FormatError(TiffFormatError::UnsignedIntegerExpected(v))
}

/// `v` as a `u8`: what `into_u8` returns.
pub open spec fn spec_into_u8(v: Value) -> Result<u8, TiffError> {
    match v {
        Value::Byte(x) => Ok(x),
        _ => Err(TiffError::FormatError(TiffFormatError::ByteExpected(v))),
    }
}

/// `v` as a `u16`: what `into_u16` returns.
pub open spec fn spec_into_u16(v: Value) -> Result<u16, TiffError> {
    match v {
        Value::Short(x) => Ok(x),
        Value::Unsigned(x) => if x <= u16::MAX { Ok(x as u16) } else { Err(TiffError::IntSizeError) },
        Value::UnsignedBig(x) => if x <= u16::MAX { Ok(x as u16) } else { Err(TiffError::IntSizeError) },
        _ => Err(unsigned_expected(v)),
    }
}

/// `v` as a `u32`: what `into_u32` returns.
pub open spec fn spec_into_u32(v: Value) -> Result<u32, TiffError> {
    match v {
        Value::Short(x) => Ok(x as u32),
        Value::Unsigned(x) => Ok(x),
        Value::UnsignedBig(x) => if x <= u32::MAX { Ok(x as u32) } else { Err(TiffError::IntSizeError) },
        Value::Ifd(x) => Ok(x),
        Value::IfdBig(x) => if x <= u32::MAX { Ok(x as u32) } else { Err(TiffError::IntSizeError) },
        _ => Err(unsigned_expected(v)),
    }
}

/// `v` as a `u64`: what `into_u64` returns.
pub open spec fn spec_into_u64(v: Value) -> Result<u64, TiffError> {
    match v {
        Value::Short(x) => Ok(x as u64),
        Value::Unsigned(x) => Ok(x as u64),
        Value::UnsignedBig(x) => Ok(x),
        Value::Ifd(x) => Ok(x as u64),
        Value::IfdBig(x) => Ok(x),
        _ => Err(unsigned_expected(v)),
    }
}

/// Each element of `s` converted by `f`, or the error of the first element
/// `f` refuses.
pub open spec fn spec_convert_all<T>(s: Seq<Value>, f: spec_fn(Value) -> Result<T, TiffError>) -> Result<Seq<T>, TiffError>
    decreases s.len(),
{
    if s.len() == 0 {
        Ok(Seq::empty())
    } else {
        match spec_convert_all(s.drop_last(), f) {
            Err(e) => Err(e),
            Ok(r) => match f(s.last()) {
                Ok(x) => Ok(r.push(x)),
                Err(e) => Err(e),
            },
        }
    }
}

/// Once a prefix of the elements has an error, so have all the elements.
proof fn lemma_convert_all_error<T>(s: Seq<Value>, n: int, f: spec_fn(Value) -> Result<T, TiffError>)
    requires
        0 <= n <= s.len(),
        spec_convert_all(s.take(n), f) is Err,
    ensures
        spec_convert_all(s, f) == spec_convert_all(s.take(n), f),
    decreases s.len() - n,
{
    if n < s.len() {
        assert(s.take(n + 1).drop_last() =~= s.take(n));
        lemma_convert_all_error(s, n + 1, f);
    } else {
        assert(s.take(n) =~= s);
    }
}

/// The code points of the characters of `c`.
pub open spec fn code_points(c: Seq<char>) -> Seq<u32> {
    Seq::new(c.len(), |i: int| c[i] as u32)
}

/// The code points of the characters of `s`, in order.
fn string_code_points(s: &String) -> (r: Vec<u32>)
    ensures
        r@ == code_points(s@),
{
    let st = s.as_str();
    let n = st.unicode_len();
    let mut out: Vec<u32> = Vec::with_capacity(n);
    let mut i: usize = 0;
    while i < n
        invariant
            n == st@.len(),
            st@ == s@,
            i <= n,
            out@ =~= code_points(s@).take(i as int),
        decreases n - i,
    {
        let c = st.get_char(i);
        out.push(c as u32);
        i = i + 1;
        assert(out@ =~= code_points(s@).take(i as int));
    }
    assert(code_points(s@).take(n as int) =~= code_points(s@));
    out
}

/// A vector of one element.
pub(crate) fn vec_of_1<T>(a: T) -> (r: Vec<T>)
    ensures
        r@ == seq![a],
{
    let mut v = Vec::new();
    v.push(a);
    v
}

/// A vector of two elements.
fn vec_of_2<T>(a: T, b: T) -> (r: Vec<T>)
    ensures
        r@ == seq![a, b],
{
    let mut v = Vec::new();
    v.push(a);
    v.push(b);
    v
}

/// Widens each element of `v` to 64 bits.
fn widen_all(v: Vec<u32>) -> (r: Vec<u64>)
    ensures
        r@ == v@.map_values(|x: u32| x as u64),
{
    let mut out: Vec<u64> = Vec::with_capacity(v.len());
    let mut i: usize = 0;
    while i < v.len()
        invariant
            i <= v@.len(),
            out@ =~= v@.map_values(|x: u32| x as u64).take(i as int),
        decreases v.len() - i,
    {
        out.push(v[i] as u64);
        i = i + 1;
        assert(out@ =~= v@.map_values(|x: u32| x as u64).take(i as int));
    }
    assert(v@.map_values(|x: u32| x as u64).take(v@.len() as int) =~= v@.map_values(|x: u32| x as u64));
    out
}

/// `v` as a list of `u8`: what `into_u8_vec` returns.
pub open spec fn spec_into_u8_vec(v: Value) -> Result<Seq<u8>, TiffError> {
    match v {
        Value::List(l) => spec_list_into_u8(l@),
        Value::Byte(x) => Ok(seq![x]),
        _ => Err(unsigned_expected(v)),
    }
}

/// `v` as a list of `u16`: what `into_u16_vec` returns.
pub open spec fn spec_into_u16_vec(v: Value) -> Result<Seq<u16>, TiffError> {
    match v {
        Value::List(l) => spec_list_into_u16(l@),
        Value::Short(x) => Ok(seq![x]),
        _ => Err(unsigned_expected(v)),
    }
}

/// `v` as a list of `u32`: what `into_u32_vec` returns.
pub open spec fn spec_into_u32_vec(v: Value) -> Result<Seq<u32>, TiffError> {
    match v {
        Value::List(l) => spec_list_into_u32(l@),
        Value::Unsigned(x) => Ok(seq![x]),
        Value::UnsignedBig(x) => if x <= u32::MAX { Ok(seq![x as u32]) } else { Err(TiffError::IntSizeError) },
        Value::Rational(n, d) => Ok(seq![n, d]),
        Value::RationalBig(n, d) => if n <= u32::MAX && d <= u32::MAX {
            Ok(seq![n as u32, d as u32])
        } else {
            Err(TiffError::IntSizeError)
        },
        Value::Ifd(x) => Ok(seq![x]),
        Value::IfdBig(x) => if x <= u32::MAX { Ok(seq![x as u32]) } else { Err(TiffError::IntSizeError) },
        Value::Ascii(s) => Ok(code_points(s@)),
        _ => Err(unsigned_expected(v)),
    }
}

/// `v` as a list of `u64`: what `into_u64_vec` returns.
pub open spec fn spec_into_u64_vec(v: Value) -> Result<Seq<u64>, TiffError> {
    match v {
        Value::List(l) => spec_list_into_u64(l@),
        Value::Unsigned(x) => Ok(seq![x as u64]),
        Value::UnsignedBig(x) => Ok(seq![x]),
        Value::Rational(n, d) => Ok(seq![n as u64, d as u64]),
        Value::RationalBig(n, d) => Ok(seq![n, d]),
        Value::Ifd(x) => Ok(seq![x as u64]),
        Value::IfdBig(x) => Ok(seq![x]),
        Value::Ascii(s) => Ok(code_points(s@).map_values(|x: u32| x as u64)),
        _ => Err(unsigned_expected(v)),
    }
}

/// Each element of `s` as a `u8`, or the error of the first that is not one.
pub open spec fn spec_list_into_u8(s: Seq<Value>) -> Result<Seq<u8>, TiffError> {
    spec_convert_all(s, into_u8_fn())
}

/// `spec_into_u8` as a function value.
pub open spec fn into_u8_fn() -> spec_fn(Value) -> Result<u8, TiffError> {
    |x: Value| spec_into_u8(x)
}

/// Each element of `s` as a `u16`, or the error of the first that is not one.
pub open spec fn spec_list_into_u16(s: Seq<Value>) -> Result<Seq<u16>, TiffError> {
    spec_convert_all(s, into_u16_fn())
}

/// `spec_into_u16` as a function value.
pub open spec fn into_u16_fn() -> spec_fn(Value) -> Result<u16, TiffError> {
    |x: Value| spec_into_u16(x)
}

/// Each element of `s` as a `u32`, or the error of the first that is not one.
pub open spec fn spec_list_into_u32(s: Seq<Value>) -> Result<Seq<u32>, TiffError> {
    spec_convert_all(s, into_u32_fn())
}

/// `spec_into_u32` as a function value.
pub open spec fn into_u32_fn() -> spec_fn(Value) -> Result<u32, TiffError> {
    |x: Value| spec_into_u32(x)
}

/// Each element of `s` as a `u64`, or the error of the first that is not one.
pub open spec fn spec_list_into_u64(s: Seq<Value>) -> Result<Seq<u64>, TiffError> {
    spec_convert_all(s, into_u64_fn())
}

/// `spec_into_u64` as a function value.
pub open spec fn into_u64_fn() -> spec_fn(Value) -> Result<u64, TiffError> {
    |x: Value| spec_into_u64(x)
}

/// Whether the exec result `r` is the spec result `s`.
pub open spec fn same_list_result<T>(r: TiffResult<Vec<T>>, s: Result<Seq<T>, TiffError>) -> bool {
    match s {
        Ok(x) => r matches Ok(v) && v@ == x,
        Err(e) => r == Err::<Vec<T>, TiffError>(e),
    }
}

impl Value {
    /// The value as a `u8`.
    pub fn into_u8(self) -> (r: TiffResult<u8>)
        ensures
            r == spec_into_u8(self),
    {
        match self {
            Value::Byte(x) => Ok(x),
            val => Err(TiffError::FormatError(TiffFormatError::ByteExpected(val))),
        }
    }

    /// The value as a `u16`.
    pub fn into_u16(self) -> (r: TiffResult<u16>)
        ensures
            r == spec_into_u16(self),
    {
        match self {
            Value::Short(x) => Ok(x),
            Value::Unsigned(x) => if x <= u16::MAX as u32 { Ok(x as u16) } else { Err(TiffError::IntSizeError) },
            Value::UnsignedBig(x) => if x <= u16::MAX as u64 { Ok(x as u16) } else { Err(TiffError::IntSizeError) },
            val => Err(TiffError::FormatError(TiffFormatError::UnsignedIntegerExpected(val))),
        }
    }

    /// The value as a `u32`.
    pub fn into_u32(self) -> (r: TiffResult<u32>)
        ensures
            r == spec_into_u32(self),
    {
        match self {
            Value::Short(x) => Ok(x as u32),
            Value::Unsigned(x) => Ok(x),
            Value::UnsignedBig(x) => if x <= u32::MAX as u64 { Ok(x as u32) } else { Err(TiffError::IntSizeError) },
            Value::Ifd(x) => Ok(x),
            Value::IfdBig(x) => if x <= u32::MAX as u64 { Ok(x as u32) } else { Err(TiffError::IntSizeError) },
            val => Err(TiffError::FormatError(TiffFormatError::UnsignedIntegerExpected(val))),
        }
    }

    /// The value as a `u64`.
    pub fn into_u64(self) -> (r: TiffResult<u64>)
        ensures
            r == spec_into_u64(self),
    {
        match self {
            Value::Short(x) => Ok(x as u64),
            Value::Unsigned(x) => Ok(x as u64),
            Value::UnsignedBig(x) => Ok(x),
            Value::Ifd(x) => Ok(x as u64),
            Value::IfdBig(x) => Ok(x),
            val => Err(TiffError::FormatError(TiffFormatError::UnsignedIntegerExpected(val))),
        }
    }

    /// The value as a string.
    pub fn into_string(self) -> (r: TiffResult<String>)
        ensures
            self matches Value::Ascii(s) ==> r matches Ok(t) && t == s,
            !(self is Ascii) ==> r == Err::<String, TiffError>(TiffError::FormatError(TiffFormatError::SignedIntegerExpected(self))),
    {
        match self {
            Value::Ascii(s) => Ok(s),
            val => Err(TiffError::FormatError(TiffFormatError::SignedIntegerExpected(val))),
        }
    }

    /// The elements of a list, each as a `u8`, or the error of the first
    /// element that is not one.
    fn list_into_u8(l: Vec<Value>) -> (r: TiffResult<Vec<u8>>)
        ensures
            same_list_result(r, spec_list_into_u8(l@)),
    {
        let ghost elems = l@;
        let mut out: Vec<u8> = Vec::with_capacity(l.len());
        assert(elems.take(0) =~= Seq::<Value>::empty());
        for v in it: l.into_iter()
            invariant
                it.seq() == elems,
                spec_list_into_u8(elems.take(it.index() as int)) == Ok::<Seq<u8>, TiffError>(out@),
        {
            let ghost i = it.index();
            assert(v == elems[i as int]);
            assert(elems.take(i + 1).drop_last() =~= elems.take(i));
            let ghost cur = v;
            assert(elems.take(i + 1).last() == cur);
            match v.into_u8() {
                Ok(x) => {
                    assert(into_u8_fn()(cur) == Ok::<u8, TiffError>(x));
                    out.push(x);
                }
                Err(e) => {
                    proof {
                        assert(into_u8_fn()(cur) == Err::<u8, TiffError>(e));
                        assert(spec_list_into_u8(elems.take(i + 1)) == Err::<Seq<u8>, TiffError>(e));
                        lemma_convert_all_error(elems, i + 1, into_u8_fn());
                    }
                    return Err(e);
                }
            }
        }
        assert(elems.take(elems.len() as int) =~= elems);
        Ok(out)
    }

    /// The elements of a list, each as a `u16`, or the error of the first
    /// element that is not one.
    fn list_into_u16(l: Vec<Value>) -> (r: TiffResult<Vec<u16>>)
        ensures
            same_list_result(r, spec_list_into_u16(l@)),
    {
        let ghost elems = l@;
        let mut out: Vec<u16> = Vec::with_capacity(l.len());
        assert(elems.take(0) =~= Seq::<Value>::empty());
        for v in it: l.into_iter()
            invariant
                it.seq() == elems,
                spec_list_into_u16(elems.take(it.index() as int)) == Ok::<Seq<u16>, TiffError>(out@),
        {
            let ghost i = it.index();
            assert(v == elems[i as int]);
            assert(elems.take(i + 1).drop_last() =~= elems.take(i));
            let ghost cur = v;
            assert(elems.take(i + 1).last() == cur);
            match v.into_u16() {
                Ok(x) => {
                    assert(into_u16_fn()(cur) == Ok::<u16, TiffError>(x));
                    out.push(x);
                }
                Err(e) => {
                    proof {
                        assert(into_u16_fn()(cur) == Err::<u16, TiffError>(e));
                        assert(spec_list_into_u16(elems.take(i + 1)) == Err::<Seq<u16>, TiffError>(e));
                        lemma_convert_all_error(elems, i + 1, into_u16_fn());
                    }
                    return Err(e);
                }
            }
        }
        assert(elems.take(elems.len() as int) =~= elems);
        Ok(out)
    }

    /// The elements of a list, each as a `u32`, or the error of the first
    /// element that is not one.
    fn list_into_u32(l: Vec<Value>) -> (r: TiffResult<Vec<u32>>)
        ensures
            same_list_result(r, spec_list_into_u32(l@)),
    {
        let ghost elems = l@;
        let mut out: Vec<u32> = Vec::with_capacity(l.len());
        assert(elems.take(0) =~= Seq::<Value>::empty());
        for v in it: l.into_iter()
            invariant
                it.seq() == elems,
                spec_list_into_u32(elems.take(it.index() as int)) == Ok::<Seq<u32>, TiffError>(out@),
        {
            let ghost i = it.index();
            assert(v == elems[i as int]);
            assert(elems.take(i + 1).drop_last() =~= elems.take(i));
            let ghost cur = v;
            assert(elems.take(i + 1).last() == cur);
            match v.into_u32() {
                Ok(x) => {
                    assert(into_u32_fn()(cur) == Ok::<u32, TiffError>(x));
                    out.push(x);
                }
                Err(e) => {
                    proof {
                        assert(into_u32_fn()(cur) == Err::<u32, TiffError>(e));
                        assert(spec_list_into_u32(elems.take(i + 1)) == Err::<Seq<u32>, TiffError>(e));
                        lemma_convert_all_error(elems, i + 1, into_u32_fn());
                    }
                    return Err(e);
                }
            }
        }
        assert(elems.take(elems.len() as int) =~= elems);
        Ok(out)
    }

    /// The elements of a list, each as a `u64`, or the error of the first
    /// element that is not one.
    fn list_into_u64(l: Vec<Value>) -> (r: TiffResult<Vec<u64>>)
        ensures
            same_list_result(r, spec_list_into_u64(l@)),
    {
        let ghost elems = l@;
        let mut out: Vec<u64> = Vec::with_capacity(l.len());
        assert(elems.take(0) =~= Seq::<Value>::empty());
        for v in it: l.into_iter()
            invariant
                it.seq() == elems,
                spec_list_into_u64(elems.take(it.index() as int)) == Ok::<Seq<u64>, TiffError>(out@),
        {
            let ghost i = it.index();
            assert(v == elems[i as int]);
            assert(elems.take(i + 1).drop_last() =~= elems.take(i));
            let ghost cur = v;
            assert(elems.take(i + 1).last() == cur);
            match v.into_u64() {
                Ok(x) => {
                    assert(into_u64_fn()(cur) == Ok::<u64, TiffError>(x));
                    out.push(x);
                }
                Err(e) => {
                    proof {
                        assert(into_u64_fn()(cur) == Err::<u64, TiffError>(e));
                        assert(spec_list_into_u64(elems.take(i + 1)) == Err::<Seq<u64>, TiffError>(e));
                        lemma_convert_all_error(elems, i + 1, into_u64_fn());
                    }
                    return Err(e);
                }
            }
        }
        assert(elems.take(elems.len() as int) =~= elems);
        Ok(out)
    }

    /// The value as a list of `u8`.
    pub fn into_u8_vec(self) -> (r: TiffResult<Vec<u8>>)
        ensures
            same_list_result(r, spec_into_u8_vec(self)),
    {
        match self {
            Value::List(l) => Value::list_into_u8(l),
            Value::Byte(x) => Ok(vec_of_1(x)),
            val => Err(TiffError::FormatError(TiffFormatError::UnsignedIntegerExpected(val))),
        }
    }

    /// The value as a list of `u16`.
    pub fn into_u16_vec(self) -> (r: TiffResult<Vec<u16>>)
        ensures
            same_list_result(r, spec_into_u16_vec(self)),
    {
        match self {
            Value::List(l) => Value::list_into_u16(l),
            Value::Short(x) => Ok(vec_of_1(x)),
            val => Err(TiffError::FormatError(TiffFormatError::UnsignedIntegerExpected(val))),
        }
    }

    /// The value as a list of `u32`.
    pub fn into_u32_vec(self) -> (r: TiffResult<Vec<u32>>)
        ensures
            same_list_result(r, spec_into_u32_vec(self)),
    {
        match self {
            Value::List(l) => Value::list_into_u32(l),
            Value::Unsigned(x) => Ok(vec_of_1(x)),
            Value::UnsignedBig(x) => if x <= u32::MAX as u64 {
                Ok(vec_of_1(x as u32))
            } else {
                Err(TiffError::IntSizeError)
            },
            Value::Rational(n, d) => Ok(vec_of_2(n, d)),
            Value::RationalBig(n, d) => if n <= u32::MAX as u64 && d <= u32::MAX as u64 {
                Ok(vec_of_2(n as u32, d as u32))
            } else {
                Err(TiffError::IntSizeError)
            },
            Value::Ifd(x) => Ok(vec_of_1(x)),
            Value::IfdBig(x) => if x <= u32::MAX as u64 {
                Ok(vec_of_1(x as u32))
            } else {
                Err(TiffError::IntSizeError)
            },
            Value::Ascii(s) => Ok(string_code_points(&s)),
            val => Err(TiffError::FormatError(TiffFormatError::UnsignedIntegerExpected(val))),
        }
    }

    /// The value as a list of `u64`.
    pub fn into_u64_vec(self) -> (r: TiffResult<Vec<u64>>)
        ensures
            same_list_result(r, spec_into_u64_vec(self)),
    {
        match self {
            Value::List(l) => Value::list_into_u64(l),
            Value::Unsigned(x) => Ok(vec_of_1(x as u64)),
            Value::UnsignedBig(x) => Ok(vec_of_1(x)),
            Value::Rational(n, d) => Ok(vec_of_2(n as u64, d as u64)),
            Value::RationalBig(n, d) => Ok(vec_of_2(n, d)),
            Value::Ifd(x) => Ok(vec_of_1(x as u64)),
            Value::IfdBig(x) => Ok(vec_of_1(x)),
            Value::Ascii(s) => Ok(widen_all(string_code_points(&s))),
            val => Err(TiffError::FormatError(TiffFormatError::UnsignedIntegerExpected(val))),
        }
    }
}

/// The entries of an image file directory, by the number of their tag.
pub type Directory = HashMap<u16, Entry>;

/// An entry of an image file directory: the type and number of its values,
/// and the eight bytes of its offset field, which hold the values where they
/// fit and their offset in the file where they do not.
#[derive(Clone, Copy, Debug, PartialEq, Eq)]
pub struct Entry {
    type_: Type,
    count: u64,
    offset: [u8; 8],
}

/// The number of bytes of one value of the type `t`.
pub open spec fn type_size(t: Type) -> nat {
    match t {
        Type::BYTE | Type::SBYTE | Type::ASCII | Type::UNDEFINED => 1,
        Type::SHORT | Type::SSHORT => 2,
        Type::LONG | Type::SLONG | Type::FLOAT | Type::IFD => 4,
        Type::LONG8 | Type::SLONG8 | Type::DOUBLE | Type::RATIONAL | Type::SRATIONAL | Type::IFD8 => 8,
    }
}

/// Where the values of an entry are read from: a single value, several
/// values held in the offset field, or several values elsewhere in the file.
/// The variant a value is decoded to depends on it.
#[derive(Clone, Copy)]
pub enum Layout {
    Single,
    Inline,
    Outline,
}

/// The value one item of type `t` decodes to from its bytes `b`.
pub open spec fn spec_item(t: Type, l: Layout, b: Seq<u8>, bo: ByteOrder) -> Value {
    let u = uint_value(b, bo);
    match t {
        Type::BYTE => match l {
            Layout::Outline => Value::UnsignedBig(b[0] as u64),
            _ => Value::Unsigned(b[0] as u32),
        },
        Type::SBYTE => match l {
            Layout::Outline => Value::SignedBig(signed_value(b[0] as nat, 0x100) as i64),
            _ => Value::Signed(signed_value(b[0] as nat, 0x100) as i32),
        },
        Type::UNDEFINED | Type::ASCII => Value::Byte(b[0]),
        Type::SHORT => match l {
            Layout::Single => Value::Unsigned(u as u32),
            Layout::Inline => Value::Short(u as u16),
            Layout::Outline => Value::UnsignedBig(u as u64),
        },
        Type::SSHORT => match l {
            Layout::Outline => Value::SignedBig(signed_value(u, 0x10000) as i64),
            _ => Value::Signed(signed_value(u, 0x10000) as i32),
        },
        Type::LONG => Value::Unsigned(u as u32),
        Type::SLONG => Value::Signed(signed_value(u, 0x1_0000_0000) as i32),
        Type::FLOAT => Value::Float(u as u32),
        Type::IFD => Value::Ifd(u as u32),
        Type::LONG8 => Value::UnsignedBig(u as u64),
        Type::SLONG8 => Value::SignedBig(signed_value(u, 0x1_0000_0000_0000_0000) as i64),
        Type::DOUBLE => Value::Double(u as u64),
        Type::IFD8 => Value::IfdBig(u as u64),
        Type::RATIONAL => Value::Rational(
            uint_value(b.take(4), bo) as u32,
            uint_value(b.subrange(4, 8), bo) as u32,
        ),
        Type::SRATIONAL => Value::SRational(
            signed_value(uint_value(b.take(4), bo), 0x1_0000_0000) as i32,
            signed_value(uint_value(b.subrange(4, 8), bo), 0x1_0000_0000) as i32,
        ),
    }
}

/// The `n` items of type `t` held by `data` from the position `start` on.
pub open spec fn spec_items(t: Type, l: Layout, data: Seq<u8>, start: int, n: nat, bo: ByteOrder) -> Seq<Value> {
    Seq::new(
        n,
        |j: int|
            spec_item(
                t,
                l,
                data.subrange(start + j * type_size(t), start + j * type_size(t) + type_size(t)),
                bo,
            ),
    )
}

/// What an entry holds: one value, a list of values, or a string.
pub enum ValueModel {
    Item(Value),
    Items(Seq<Value>),
    Text(Seq<char>),
}

/// Whether the value `v` is what the model `m` describes.
pub open spec fn realizes(v: Value, m: ValueModel) -> bool {
    match m {
        ValueModel::Item(x) => v == x,
        ValueModel::Items(s) => v matches Value::List(l) && l@ == s,
        ValueModel::Text(c) => v matches Value::Ascii(t) && t@ == c,
    }
}

/// Whether the result `r` is the spec result `s`.
pub open spec fn realizes_result(r: TiffResult<Value>, s: Result<ValueModel, TiffError>) -> bool {
    match s {
        Ok(m) => r matches Ok(v) && realizes(v, m),
        Err(e) => r == Err::<Value, TiffError>(e),
    }
}

/// `c` without the NUL characters it starts with.
pub open spec fn trim_start_nul(c: Seq<char>) -> Seq<char>
    decreases c.len(),
{
    if c.len() > 0 && c[0] == '\0' {
        trim_start_nul(c.drop_first())
    } else {
        c
    }
}

/// `c` without the NUL characters it ends with.
pub open spec fn trim_end_nul(c: Seq<char>) -> Seq<char>
    decreases c.len(),
{
    if c.len() > 0 && c.last() == '\0' {
        trim_end_nul(c.drop_last())
    } else {
        c
    }
}

/// `c` without the NUL characters it starts or ends with.
pub open spec fn trim_nul(c: Seq<char>) -> Seq<char> {
    trim_end_nul(trim_start_nul(c))
}

/// Whether every byte of `b` is an ASCII code.
pub open spec fn all_ascii(b: Seq<u8>) -> bool {
    forall|i: int| 0 <= i < b.len() ==> b[i] < 0x80
}

/// Whether there are too many values to hold as `Value`s within the limit
/// `dbs` on the size of a decoding buffer.
pub open spec fn too_many_values(n: nat, dbs: usize) -> bool {
    vstd::layout::size_of::<Value>() > 0 && n > dbs as nat / vstd::layout::size_of::<Value>()
}

/// An entry of an image file directory, as mathematical values.
pub struct EntryModel {
    pub field_type: Type,
    pub count: u64,
    pub field: Seq<u8>,
}

impl View for Entry {
    type V = EntryModel;

    closed spec fn view(&self) -> EntryModel {
        EntryModel { field_type: self.type_, count: self.count, field: self.offset@ }
    }
}

/// The entries of a directory as mathematical values.
pub open spec fn dir_view(d: Map<u16, Entry>) -> Map<u16, EntryModel> {
    d.map_values(|e: Entry| e@)
}

impl EntryModel {
    /// The position of the values in the file, where they are not held in
    /// the offset field.
    pub open spec fn spec_offset(self, bigtiff: bool, bo: ByteOrder) -> nat {
        if bigtiff {
            uint_value(self.field, bo)
        } else {
            uint_value(self.field.take(4), bo)
        }
    }

    /// What the entry's value is, read from a file with the bytes `file`
    /// in the byte order `bo`, within the decoding buffer limit `dbs`.
    pub open spec fn spec_val(self, dbs: usize, bigtiff: bool, file: Seq<u8>, bo: ByteOrder) -> Result<ValueModel, TiffError> {
        let t = self.field_type;
        let n = self.count as nat;
        let f = self.field;
        let k = type_size(t);
        let eof = TiffError::IoError(IoError::UnexpectedEof);
        if n == 0 {
            Ok(ValueModel::Items(Seq::empty()))
        } else if n * k > u64::MAX {
            Err(TiffError::LimitsExceeded)
        } else if n == 1 {
            if bigtiff && k == 8 {
                Ok(ValueModel::Item(spec_item(t, Layout::Single, f, bo)))
            } else if t == Type::ASCII {
                if f[0] == 0 {
                    Ok(ValueModel::Text(Seq::empty()))
                } else {
                    Err(TiffError::FormatError(TiffFormatError::InvalidTag))
                }
            } else if k == 8 {
                let off = uint_value(f.take(4), bo) as int;
                if can_read(off, 8, file.len() as int) {
                    Ok(ValueModel::Item(spec_item(t, Layout::Single, file.subrange(off, off + 8), bo)))
                } else {
                    Err(eof)
                }
            } else {
                Ok(ValueModel::Item(spec_item(t, Layout::Single, f.take(k as int), bo)))
            }
        } else if n * k <= 4 || (bigtiff && n * k <= 8) {
            if t == Type::ASCII {
                let buf = f.take(n as int);
                if all_ascii(buf) && buf.last() == 0 && valid_utf8(buf) {
                    Ok(ValueModel::Text(trim_nul(decode_utf8(buf))))
                } else {
                    Err(TiffError::FormatError(TiffFormatError::InvalidTag))
                }
            } else {
                Ok(ValueModel::Items(spec_items(t, Layout::Inline, f, 0, n, bo)))
            }
        } else {
            let off = self.spec_offset(bigtiff, bo) as int;
            if n > usize::MAX {
                Err(TiffError::IntSizeError)
            } else if t == Type::ASCII {
                if n > dbs {
                    Err(TiffError::LimitsExceeded)
                } else if !can_read(off, n as int, file.len() as int) {
                    Err(eof)
                } else {
                    match spec_nul_terminated_string(file.subrange(off, off + n)) {
                        Ok(c) => Ok(ValueModel::Text(c)),
                        Err(e) => Err(e),
                    }
                }
            } else if too_many_values(n, dbs) {
                Err(TiffError::LimitsExceeded)
            } else if !can_read(off, (n * k) as int, file.len() as int) {
                Err(eof)
            } else {
                Ok(ValueModel::Items(spec_items(t, Layout::Outline, file, off, n, bo)))
            }
        }
    }

    /// Where reading the value leaves the reader that was at `pos`: past
    /// the value where it lies elsewhere in the file and reads whole, at the
    /// end of the file where it does not, and at `pos` where the value is
    /// held in the entry itself or is refused before any read.
    pub open spec fn spec_val_pos(self, dbs: usize, bigtiff: bool, file: Seq<u8>, bo: ByteOrder, pos: nat) -> nat {
        let t = self.field_type;
        let n = self.count as nat;
        let f = self.field;
        let k = type_size(t);
        let len = file.len();
        if n == 0 || n * k > u64::MAX {
            pos
        } else if n == 1 {
            if bigtiff && k == 8 {
                pos
            } else if t == Type::ASCII {
                pos
            } else if k == 8 {
                let off = uint_value(f.take(4), bo) as int;
                if can_read(off, 8, len as int) { (off + 8) as nat } else { len }
            } else {
                pos
            }
        } else if n * k <= 4 || (bigtiff && n * k <= 8) {
            pos
        } else {
            let off = self.spec_offset(bigtiff, bo) as int;
            if n > usize::MAX {
                pos
            } else if t == Type::ASCII {
                if n > dbs {
                    pos
                } else if !can_read(off, n as int, len as int) {
                    len
                } else {
                    (off + n) as nat
                }
            } else if too_many_values(n, dbs) {
                pos
            } else if !can_read(off, (n * k) as int, len as int) {
                len
            } else {
                (off + n * k) as nat
            }
        }
    }

}

impl Entry {
    /// The field of an entry always has eight bytes.
    pub proof fn lemma_field_len(&self)
        ensures
            self@.field.len() == 8,
    {
    }

    /// An entry of a TIFF file, with a four-byte offset field.
    pub fn new(type_: Type, count: u32, offset: [u8; 4]) -> (r: Entry)
        ensures
            r@ == (EntryModel { field_type: type_, count: count as u64, field: offset@ + seq![0u8, 0u8, 0u8, 0u8] }),
    {
        let e = Entry {
            type_,
            count: count as u64,
            offset: [offset[0], offset[1], offset[2], offset[3], 0, 0, 0, 0],
        };
        assert(e.offset@ =~= offset@ + seq![0u8, 0u8, 0u8, 0u8]);
        e
    }

    /// An entry of a BigTIFF file, with an eight-byte offset field.
    pub fn new_u64(type_: Type, count: u64, offset: [u8; 8]) -> (r: Entry)
        ensures
            r@ == (EntryModel { field_type: type_, count, field: offset@ }),
    {
        Entry { type_, count, offset }
    }

    /// A reader over the offset field.
    fn r(&self, byte_order: ByteOrder) -> (r: SmartReader)
        ensures
            r.bytes() == self@.field,
            r.position() == 0,
            r.order() == byte_order,
    {
        let mut v: Vec<u8> = Vec::with_capacity(8);
        let mut i: usize = 0;
        while i < 8
            invariant
                i <= 8,
                self.offset@.len() == 8,
                v@ =~= self.offset@.take(i as int),
            decreases 8 - i,
        {
            v.push(self.offset[i]);
            i = i + 1;
            assert(v@ =~= self.offset@.take(i as int));
        }
        assert(self.offset@.take(8) =~= self.offset@);
        SmartReader::wrap(v, byte_order)
    }
}

/// The error of a read past the end of the data, as a decoding error.
pub fn io_result<T>(r: Result<T, IoError>) -> (o: TiffResult<T>)
    ensures
        r matches Ok(x) ==> o == Ok::<T, TiffError>(x),
        r matches Err(e) ==> o == Err::<T, TiffError>(TiffError::IoError(e)),
{
    match r {
        Ok(x) => Ok(x),
        Err(e) => Err(TiffError::IoError(e)),
    }
}

/// The number of bytes of one value of the type `t`.
pub fn type_size_of(t: Type) -> (r: u64)
    ensures
        r == type_size(t),
        1 <= r <= 8,
{
    match t {
        Type::BYTE | Type::SBYTE | Type::ASCII | Type::UNDEFINED => 1,
        Type::SHORT | Type::SSHORT => 2,
        Type::LONG | Type::SLONG | Type::FLOAT | Type::IFD => 4,
        Type::LONG8 | Type::SLONG8 | Type::DOUBLE | Type::RATIONAL | Type::SRATIONAL | Type::IFD8 => 8,
    }
}

/// The value one item of type `t` decodes to from its bytes `b`.
pub fn item_from_bytes(t: Type, l: Layout, b: &Vec<u8>, bo: ByteOrder) -> (r: Value)
    requires
        b@.len() == type_size(t),
    ensures
        r == spec_item(t, l, b@, bo),
{
    match t {
        Type::BYTE => match l {
            Layout::Outline => Value::UnsignedBig(b[0] as u64),
            _ => Value::Unsigned(b[0] as u32),
        },
        Type::SBYTE => {
            let x = i8_from_u8(b[0]);
            match l {
                Layout::Outline => Value::SignedBig(x as i64),
                _ => Value::Signed(x as i32),
            }
        },
        Type::UNDEFINED | Type::ASCII => Value::Byte(b[0]),
        Type::SHORT => {
            let x = u16_from_bytes(b, bo);
            match l {
                Layout::Single => Value::Unsigned(x as u32),
                Layout::Inline => Value::Short(x),
                Layout::Outline => Value::UnsignedBig(x as u64),
            }
        },
        Type::SSHORT => {
            let x = i16_from_u16(u16_from_bytes(b, bo));
            match l {
                Layout::Outline => Value::SignedBig(x as i64),
                _ => Value::Signed(x as i32),
            }
        },
        Type::LONG => Value::Unsigned(u32_from_bytes(b, bo)),
        Type::SLONG => Value::Signed(i32_from_u32(u32_from_bytes(b, bo))),
        Type::FLOAT => Value::Float(u32_from_bytes(b, bo)),
        Type::IFD => Value::Ifd(u32_from_bytes(b, bo)),
        Type::LONG8 => Value::UnsignedBig(u64_from_bytes(b, bo)),
        Type::SLONG8 => Value::SignedBig(i64_from_u64(u64_from_bytes(b, bo))),
        Type::DOUBLE => Value::Double(u64_from_bytes(b, bo)),
        Type::IFD8 => Value::IfdBig(u64_from_bytes(b, bo)),
        Type::RATIONAL => {
            let lo = sub_vec(b, 0, 4);
            let hi = sub_vec(b, 4, 8);
            assert(lo@ =~= b@.take(4));
            Value::Rational(u32_from_bytes(&lo, bo), u32_from_bytes(&hi, bo))
        },
        Type::SRATIONAL => {
            let lo = sub_vec(b, 0, 4);
            let hi = sub_vec(b, 4, 8);
            assert(lo@ =~= b@.take(4));
            Value::SRational(
                i32_from_u32(u32_from_bytes(&lo, bo)),
                i32_from_u32(u32_from_bytes(&hi, bo)),
            )
        },
    }
}

/// Reads `n` items of type `t`, one after the other.
pub fn read_items(reader: &mut SmartReader, t: Type, l: Layout, n: usize) -> (r: Result<Vec<Value>, IoError>)
    ensures
        final(reader).bytes() == old(reader).bytes(),
        final(reader).order() == old(reader).order(),
        can_read(old(reader).position() as int, (n * type_size(t)) as int, old(reader).bytes().len() as int) <==> r is Ok,
        r matches Ok(v) ==> v@ == spec_items(t, l, old(reader).bytes(), old(reader).position() as int, n as nat, old(reader).order()),
        r matches Err(e) ==> e == IoError::UnexpectedEof,
        r is Ok ==> final(reader).position() == old(reader).position() + n * type_size(t),
        r is Err ==> final(reader).position() == old(reader).bytes().len(),
{
    let ghost start = reader.position() as int;
    let ghost bytes = reader.bytes();
    let ghost len = bytes.len() as int;
    let ghost k = type_size(t) as int;
    let bo = reader.byte_order();
    let size = type_size_of(t) as usize;
    let mut out: Vec<Value> = Vec::with_capacity(n);
    let mut i: usize = 0;
    assert(out@ =~= spec_items(t, l, bytes, start, 0, bo));
    while i < n
        invariant
            reader.bytes() == bytes,
            reader.order() == bo,
            bytes == old(reader).bytes(),
            start == old(reader).position(),
            bo == old(reader).order(),
            len == bytes.len(),
            size == k,
            k == type_size(t),
            1 <= k <= 8,
            i <= n,
            reader.position() == start + i * k,
            i > 0 ==> start + i * k <= len,
            out@ == spec_items(t, l, bytes, start, i as nat, bo),
        decreases n - i,
    {
        proof {
            assert((i + 1) * k == i * k + k) by (nonlinear_arith);
            assert((i + 1) * k <= n * k) by (nonlinear_arith)
                requires
                    i + 1 <= n,
                    k >= 1,
            ;
        }
        let b = match reader.read_exact(size) {
            Ok(b) => b,
            Err(e) => {
                assert(start + i * k + k > len);
                return Err(e);
            },
        };
        let item = item_from_bytes(t, l, &b, bo);
        let ghost prev = out@;
        out.push(item);
        i = i + 1;
        assert(out@ =~= spec_items(t, l, bytes, start, i as nat, bo));
    }
    Ok(out)
}

/// `trim_start_nul` of characters that start with `a` NULs, followed by
/// none or by another character.
proof fn lemma_trim_start(c: Seq<char>, a: int)
    requires
        0 <= a <= c.len(),
        forall|i: int| 0 <= i < a ==> c[i] == '\0',
        a < c.len() ==> c[a] != '\0',
    ensures
        trim_start_nul(c) == c.skip(a),
    decreases a,
{
    if a == 0 {
        assert(c.skip(0) =~= c);
    } else {
        lemma_trim_start(c.drop_first(), a - 1);
        assert(c.drop_first().skip(a - 1) =~= c.skip(a));
    }
}

/// `trim_end_nul` of characters that end with NULs from `b` on, preceded
/// by none or by another character.
proof fn lemma_trim_end(c: Seq<char>, b: int)
    requires
        0 <= b <= c.len(),
        forall|i: int| b <= i < c.len() ==> c[i] == '\0',
        b > 0 ==> c[b - 1] != '\0',
    ensures
        trim_end_nul(c) == c.take(b),
    decreases c.len() - b,
{
    if b == c.len() {
        assert(c.take(b) =~= c);
    } else {
        lemma_trim_end(c.drop_last(), b);
        assert(c.drop_last().take(b) =~= c.take(b));
    }
}

/// `s` without the NUL characters it starts or ends with.
fn trim_nul_string(s: &String) -> (r: String)
    ensures
        r@ == trim_nul(s@),
{
    let st = s.as_str();
    let n = st.unicode_len();
    let mut a: usize = 0;
    while a < n && st.get_char(a) == '\0'
        invariant
            n == st@.len(),
            st@ == s@,
            a <= n,
            forall|i: int| 0 <= i < a ==> st@[i] == '\0',
        decreases n - a,
    {
        a = a + 1;
    }
    let mut b: usize = n;
    while b > a && st.get_char(b - 1) == '\0'
        invariant
            n == st@.len(),
            st@ == s@,
            a <= b <= n,
            forall|i: int| b <= i < n ==> st@[i] == '\0',
        decreases b,
    {
        b = b - 1;
    }
    proof {
        lemma_trim_start(s@, a as int);
        let rest = s@.skip(a as int);
        assert forall|i: int| (b - a) <= i < rest.len() implies rest[i] == '\0' by {
            assert(rest[i] == s@[i + a]);
        }
        if b > a {
            assert(rest[b - a - 1] == s@[b - 1]);
        }
        lemma_trim_end(rest, (b - a) as int);
        assert(rest.take((b - a) as int) =~= s@.subrange(a as int, b as int));
    }
    st.substring_char(a, b).to_owned()
}

impl Entry {
    /// The first `k` bytes of the offset field.
    fn field_prefix(&self, k: usize) -> (r: Vec<u8>)
        requires
            k <= 8,
        ensures
            r@ == self@.field.take(k as int),
    {
        let mut v: Vec<u8> = Vec::with_capacity(k);
        let mut i: usize = 0;
        while i < k
            invariant
                i <= k <= 8,
                self.offset@.len() == 8,
                v@ =~= self.offset@.take(i as int),
            decreases k - i,
        {
            v.push(self.offset[i]);
            i = i + 1;
            assert(v@ =~= self.offset@.take(i as int));
        }
        v
    }

    /// The position of the values in the file, where they are not held in
    /// the offset field.
    fn offset_value(&self, bigtiff: bool, bo: ByteOrder) -> (r: u64)
        ensures
            r == self@.spec_offset(bigtiff, bo),
    {
        if bigtiff {
            let b = self.field_prefix(8);
            assert(self@.field.take(8) =~= self@.field);
            u64_from_bytes(&b, bo)
        } else {
            u32_from_bytes(&self.field_prefix(4), bo) as u64
        }
    }

    /// The entry's value, read from the file where it is not held in the
    /// offset field.
    pub fn val(&self, limits: &Limits, bigtiff: bool, reader: &mut SmartReader) -> (r: TiffResult<Value>)
        ensures
            final(reader).bytes() == old(reader).bytes(),
            final(reader).order() == old(reader).order(),
            realizes_result(
                r,
                self@.spec_val(limits.decoding_buffer_size, bigtiff, old(reader).bytes(), old(reader).order()),
            ),
            final(reader).position() == self@.spec_val_pos(
                limits.decoding_buffer_size,
                bigtiff,
                old(reader).bytes(),
                old(reader).order(),
                old(reader).position(),
            ),
    {
        let ghost file = reader.bytes();
        proof {
            self.lemma_field_len();
        }
        let t = self.type_;
        if self.count == 0 {
            let empty: Vec<Value> = Vec::new();
            assert(empty@ =~= Seq::<Value>::empty());
            return Ok(Value::List(empty));
        }
        let bo = reader.byte_order();
        let tag_size = type_size_of(t);
        let value_bytes = match self.count.checked_mul(tag_size) {
            Some(n) => n,
            None => return Err(TiffError::LimitsExceeded),
        };
        if self.count == 1 {
            if bigtiff && value_bytes > 4 && value_bytes <= 8 {
                let b = self.field_prefix(8);
                assert(self@.field.take(8) =~= self@.field);
                return Ok(item_from_bytes(t, Layout::Single, &b, bo));
            }
            match t {
                Type::ASCII => {
                    if self.offset[0] == 0 {
                        let e = String::new();
                        return Ok(Value::Ascii(e));
                    } else {
                        return Err(TiffError::FormatError(TiffFormatError::InvalidTag));
                    }
                },
                Type::LONG8 | Type::SLONG8 | Type::DOUBLE | Type::RATIONAL | Type::SRATIONAL | Type::IFD8 => {
                    let off = u32_from_bytes(&self.field_prefix(4), bo);
                    reader.goto_offset(off as u64);
                    let b = match io_result(reader.read_exact(8)) {
            Ok(x) => x,
            Err(e) => return Err(e),
        };
                    return Ok(item_from_bytes(t, Layout::Single, &b, bo));
                },
                _ => {
                    let b = self.field_prefix(tag_size as usize);
                    return Ok(item_from_bytes(t, Layout::Single, &b, bo));
                },
            }
        }
        if value_bytes <= 4 || bigtiff && value_bytes <= 8 {
            if t == Type::ASCII {
                let buf = self.field_prefix(self.count as usize);
                let mut ascii = true;
                let mut i: usize = 0;
                while i < buf.len()
                    invariant
                        i <= buf@.len(),
                        ascii <==> forall|j: int| 0 <= j < i ==> buf@[j] < 0x80,
                    decreases buf.len() - i,
                {
                    if buf[i] >= 0x80 {
                        ascii = false;
                    }
                    i = i + 1;
                }
                if ascii && buf[buf.len() - 1] == 0 {
                    match string_from_utf8(buf) {
                        Some(v) => return Ok(Value::Ascii(trim_nul_string(&v))),
                        None => return Err(TiffError::FormatError(TiffFormatError::InvalidTag)),
                    }
                } else {
                    return Err(TiffError::FormatError(TiffFormatError::InvalidTag));
                }
            }
            let mut fr = self.r(bo);
            let v = match io_result(read_items(&mut fr, t, Layout::Inline, self.count as usize)) {
            Ok(x) => x,
            Err(e) => return Err(e),
        };
            return Ok(Value::List(v));
        }
        let offset = self.offset_value(bigtiff, bo);
        if self.count > usize::MAX as u64 {
            return Err(TiffError::IntSizeError);
        }
        let n = self.count as usize;
        if t == Type::ASCII {
            if n > limits.decoding_buffer_size {
                return Err(TiffError::LimitsExceeded);
            }
            reader.goto_offset(offset);
            let out = match io_result(reader.read_exact(n)) {
            Ok(x) => x,
            Err(e) => return Err(e),
        };
            let s = match nul_terminated_string(out) {
            Ok(x) => x,
            Err(e) => return Err(e),
        };
            return Ok(Value::Ascii(s));
        }
        let per_value = core::mem::size_of::<Value>();
        if per_value > 0 && n > limits.decoding_buffer_size / per_value {
            return Err(TiffError::LimitsExceeded);
        }
        reader.goto_offset(offset);
        let v = match io_result(read_items(reader, t, Layout::Outline, n)) {
            Ok(x) => x,
            Err(e) => return Err(e),
        };
        Ok(Value::List(v))
    }
}


/// A value that converts to a narrower unsigned integer converts to every
/// wider one, to the same number.
pub proof fn lemma_unsigned_widening(v: Value)
    ensures
        spec_into_u16(v) matches Ok(x) ==> spec_into_u32(v) == Ok::<u32, TiffError>(x as u32),
        spec_into_u32(v) matches Ok(x) ==> spec_into_u64(v) == Ok::<u64, TiffError>(x as u64),
{
}

/// A rational of eight bytes `b` is the numerator its first four bytes hold
/// over the denominator its last four hold, each word read in the file's
/// byte order (first byte weighing most in a big-endian file, least in a
/// little-endian one); a signed rational reads both words in two's
/// complement.
pub proof fn lemma_rationals_in_byte_order(l: Layout, b: Seq<u8>, bo: ByteOrder)
    requires
        b.len() == 8,
    ensures
        ({
            let n: int = if bo == ByteOrder::BigEndian {
                b[0] * 0x100_0000 + b[1] * 0x1_0000 + b[2] * 0x100 + b[3]
            } else {
                b[3] * 0x100_0000 + b[2] * 0x1_0000 + b[1] * 0x100 + b[0]
            };
            let d: int = if bo == ByteOrder::BigEndian {
                b[4] * 0x100_0000 + b[5] * 0x1_0000 + b[6] * 0x100 + b[7]
            } else {
                b[7] * 0x100_0000 + b[6] * 0x1_0000 + b[5] * 0x100 + b[4]
            };
            &&& spec_item(Type::RATIONAL, l, b, bo) matches Value::Rational(x, y) && x == n && y == d
            &&& spec_item(Type::SRATIONAL, l, b, bo) matches Value::SRational(x, y)
                && x == (if n < 0x8000_0000 { n } else { n - 0x1_0000_0000 })
                && y == (if d < 0x8000_0000 { d } else { d - 0x1_0000_0000 })
        }),
{
    let lo = b.take(4);
    let hi = b.subrange(4, 8);
    lemma_value_4(lo);
    lemma_value_4(hi);
    assert(lo[0] == b[0] && lo[1] == b[1] && lo[2] == b[2] && lo[3] == b[3]);
    assert(hi[0] == b[4] && hi[1] == b[5] && hi[2] == b[6] && hi[3] == b[7]);
}

/// A single item of every integer, floating-point and offset type is the
/// integer its bytes hold in the file's byte order (first byte weighing most
/// in a big-endian file, least in a little-endian one), signed types read in
/// two's complement, whatever the layout that decides the variant it is
/// carried in.
pub proof fn lemma_items_in_byte_order(l: Layout, b: Seq<u8>, bo: ByteOrder)
    ensures
        b.len() >= 1 ==> {
            &&& spec_item(Type::BYTE, l, b, bo) == (if l == Layout::Outline {
                Value::UnsignedBig(b[0] as u64)
            } else {
                Value::Unsigned(b[0] as u32)
            })
            &&& spec_item(Type::SBYTE, l, b, bo) == (if l == Layout::Outline {
                Value::SignedBig((if b[0] < 0x80 { b[0] as int } else { b[0] - 0x100 }) as i64)
            } else {
                Value::Signed((if b[0] < 0x80 { b[0] as int } else { b[0] - 0x100 }) as i32)
            })
            &&& spec_item(Type::UNDEFINED, l, b, bo) == Value::Byte(b[0])
            &&& spec_item(Type::ASCII, l, b, bo) == Value::Byte(b[0])
        },
        b.len() == 2 ==> {
            let v: int = if bo == ByteOrder::BigEndian { b[0] * 0x100 + b[1] } else { b[1] * 0x100 + b[0] };
            let w: int = if v < 0x8000 { v } else { v - 0x1_0000 };
            &&& spec_item(Type::SHORT, l, b, bo) == (match l {
                Layout::Single => Value::Unsigned(v as u32),
                Layout::Inline => Value::Short(v as u16),
                Layout::Outline => Value::UnsignedBig(v as u64),
            })
            &&& spec_item(Type::SSHORT, l, b, bo) == (if l == Layout::Outline {
                Value::SignedBig(w as i64)
            } else {
                Value::Signed(w as i32)
            })
            &&& 0 <= v < 0x1_0000
        },
        b.len() == 4 ==> {
            let v: int = if bo == ByteOrder::BigEndian {
                b[0] * 0x100_0000 + b[1] * 0x1_0000 + b[2] * 0x100 + b[3]
            } else {
                b[3] * 0x100_0000 + b[2] * 0x1_0000 + b[1] * 0x100 + b[0]
            };
            &&& spec_item(Type::LONG, l, b, bo) matches Value::Unsigned(x) && x == v
            &&& spec_item(Type::SLONG, l, b, bo) matches Value::Signed(x)
                && x == (if v < 0x8000_0000 { v } else { v - 0x1_0000_0000 })
            &&& spec_item(Type::FLOAT, l, b, bo) matches Value::Float(x) && x == v
            &&& spec_item(Type::IFD, l, b, bo) matches Value::Ifd(x) && x == v
        },
        b.len() == 8 ==> {
            let v: int = if bo == ByteOrder::BigEndian {
                b[0] * 0x100_0000_0000_0000 + b[1] * 0x1_0000_0000_0000 + b[2] * 0x100_0000_0000 + b[3] * 0x1_0000_0000
                    + b[4] * 0x100_0000 + b[5] * 0x1_0000 + b[6] * 0x100 + b[7]
            } else {
                b[7] * 0x100_0000_0000_0000 + b[6] * 0x1_0000_0000_0000 + b[5] * 0x100_0000_0000 + b[4] * 0x1_0000_0000
                    + b[3] * 0x100_0000 + b[2] * 0x1_0000 + b[1] * 0x100 + b[0]
            };
            &&& spec_item(Type::LONG8, l, b, bo) matches Value::UnsignedBig(x) && x == v
            &&& spec_item(Type::SLONG8, l, b, bo) matches Value::SignedBig(x)
                && x == (if v < 0x8000_0000_0000_0000 { v } else { v - 0x1_0000_0000_0000_0000 })
            &&& spec_item(Type::DOUBLE, l, b, bo) matches Value::Double(x) && x == v
            &&& spec_item(Type::IFD8, l, b, bo) matches Value::IfdBig(x) && x == v
        },
{
    if b.len() == 2 {
        lemma_value_2(b);
    }
    if b.len() == 4 {
        lemma_value_4(b);
    }
    if b.len() == 8 {
        lemma_value_8(b);
    }
}

} // verus!
