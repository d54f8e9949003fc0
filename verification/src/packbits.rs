//! The PackBits compression of chunks: runs of a repeated byte and runs of
//! literal bytes, each after a header byte.

use vstd::prelude::*;

verus! {

/// `n` copies of the byte `b`.
pub open spec fn repeat(b: u8, n: nat) -> Seq<u8> {
    Seq::new(n, |i: int| b)
}

/// The bytes that unpacking `file` from `pos` on gives, after `out`, until
/// `remaining` bytes of it have been taken; `None` where a run reaches past
/// the end of `file`. A header `h`, read as a signed byte, from -127 to -1
/// repeats the next byte `1 - h` times, from 0 to 127 takes the next `h + 1`
/// bytes as they are, and -128 does nothing. A run is taken whole even where
/// it reaches past the `remaining` bytes.
pub open spec fn unpack(file: Seq<u8>, pos: nat, remaining: int, out: Seq<u8>) -> Option<Seq<u8>>
    decreases file.len() - pos,
{
    if remaining <= 0 {
        Some(out)
    } else if pos >= file.len() {
        None
    } else {
        let h = file[pos as int];
        if h >= 129 {
            if pos + 1 >= file.len() {
                None
            } else {
                unpack(file, pos + 2, remaining - 2, out + repeat(file[pos + 1 as int], (257 - h) as nat))
            }
        } else if h <= 127 {
            let n = (h + 1) as nat;
            if pos + 1 + n > file.len() {
                None
            } else {
                unpack(file, pos + 1 + n, remaining - 1 - n, out + file.subrange(pos + 1 as int, pos + 1 + n as int))
            }
        } else {
            unpack(file, pos + 1, remaining - 1, out)
        }
    }
}

/// Unpacks PackBits data from `pos` on in `file`, taking runs until
/// `length` bytes have been read; `None` where a run reaches past the end
/// of `file`.
pub fn unpack_bits(file: &Vec<u8>, pos: usize, length: usize) -> (r: Option<Vec<u8>>)
    ensures
        r is Some <==> unpack(file@, pos as nat, length as int, Seq::empty()) is Some,
        r matches Some(v) ==> v@ == unpack(file@, pos as nat, length as int, Seq::empty())->Some_0,
{
    let mut out: Vec<u8> = Vec::new();
    let mut at: usize = pos;
    let mut read: usize = 0;
    let len = file.len();
    while read < length
        invariant
            len == file@.len(),
            unpack(file@, at as nat, length - read, out@) == unpack(file@, pos as nat, length as int, Seq::empty()),
        decreases length - read,
    {
        if at >= len {
            return None;
        }
        let h = file[at];
        if h >= 129 {
            if at + 1 >= len {
                return None;
            }
            let b = file[at + 1];
            let n: usize = (257 - h as u16) as usize;
            let ghost before = out@;
            let ghost rem = length - read;
            let mut i: usize = 0;
            while i < n
                invariant
                    out@ == before + repeat(b, i as nat),
                    i <= n,
                decreases n - i,
            {
                out.push(b);
                i = i + 1;
                assert(out@ =~= before + repeat(b, i as nat));
            }
            proof {
                assert(unpack(file@, at as nat, rem, before) == unpack(file@, (at + 2) as nat, rem - 2, out@));
            }
            at = at + 2;
            read = if length - read < 2 { length } else { read + 2 };
        } else if h <= 127 {
            let n: usize = h as usize + 1;
            if n > len - (at + 1) {
                return None;
            }
            let ghost before = out@;
            let ghost rem = length - read;
            let mut i: usize = 0;
            while i < n
                invariant
                    at + 1 + n <= len,
                    len == file@.len(),
                    out@ == before + file@.subrange(at + 1, at + 1 + i),
                    i <= n,
                decreases n - i,
            {
                out.push(file[at + 1 + i]);
                i = i + 1;
                assert(out@ =~= before + file@.subrange(at + 1, at + 1 + i));
            }
            proof {
                assert(unpack(file@, at as nat, rem, before) == unpack(file@, (at + 1 + n) as nat, rem - 1 - n, out@));
            }
            at = at + 1 + n;
            read = if length - read < 1 + n { length } else { read + 1 + n };
        } else {
            at = at + 1;
            read = read + 1;
        }
    }
    Some(out)
}

/// Unpacking a literal run gives its bytes: a header `n - 1` followed by
/// `n` bytes (`n` from 1 to 128), read whole, gives those `n` bytes.
pub proof fn lemma_literal_run(data: Seq<u8>)
    requires
        1 <= data.len() <= 128,
    ensures
        unpack(seq![(data.len() - 1) as u8] + data, 0, data.len() + 1 as int, Seq::empty()) == Some(data),
{
    let file = seq![(data.len() - 1) as u8] + data;
    let n = data.len();
    assert(file[0] == (n - 1) as u8);
    assert(file.subrange(1, 1 + n as int) =~= data);
    assert(Seq::<u8>::empty() + data =~= data);
    assert(unpack(file, (1 + n) as nat, 0, data) == Some(data));
}

/// Unpacking a repeated run gives the byte as often as its header says: a
/// header `257 - n` (`n` from 2 to 128), which reads as the signed byte
/// `1 - n`, followed by a byte `b`, gives `n` copies of `b`.
pub proof fn lemma_repeat_run(n: nat, b: u8)
    requires
        2 <= n <= 128,
    ensures
        unpack(seq![(257 - n) as u8, b], 0, 2, Seq::empty()) == Some(Seq::new(n, |i: int| b)),
{
    let file = seq![(257 - n) as u8, b];
    assert(file[0] == (257 - n) as u8);
    assert(file[1] == b);
    assert(Seq::<u8>::empty() + repeat(b, n) =~= Seq::new(n, |i: int| b));
    assert(unpack(file, 2, 0, Seq::<u8>::empty() + repeat(b, n)) == Some(Seq::<u8>::empty() + repeat(b, n)));
}

/// The header 128 (the signed byte -128) gives nothing and is passed over:
/// unpacking after it goes on with the next header.
pub proof fn lemma_no_op_header(file: Seq<u8>, pos: nat, remaining: int, out: Seq<u8>)
    requires
        pos < file.len(),
        file[pos as int] == 128,
        remaining > 0,
    ensures
        unpack(file, pos, remaining, out) == unpack(file, pos + 1, remaining - 1, out),
{
}

} // verus!
