use vstd::prelude::*;

use crate::errors::EncodeError;
use crate::text::{encode_oneline, encode_oneline_spec};

verus! {

/// `n` zero bytes.
pub open spec fn zeros(n: nat) -> Seq<u8> {
    Seq::new(n, |i: int| 0u8)
}

/// The two little-endian bytes of the 16-bit two's complement form of `v` (taken mod 2^16).
pub open spec fn le16(v: int) -> Seq<u8> {
    let u = v % 65536;
    seq![(u % 256) as u8, (u / 256) as u8]
}

/// The byte that stores a flag: 1 for true, 0 for false.
pub open spec fn bool_byte(b: bool) -> u8 {
    if b {
        1u8
    } else {
        0u8
    }
}

/// The unsigned little-endian 16-bit number at position `p`.
pub open spec fn u16_at(s: Seq<u8>, p: int) -> int {
    s[p] + 256 * s[p + 1]
}

/// The signed little-endian 16-bit number at position `p`.
pub open spec fn i16_at(s: Seq<u8>, p: int) -> i16 {
    let u = u16_at(s, p);
    if u >= 32768 {
        (u - 65536) as i16
    } else {
        u as i16
    }
}

/// A text field of capacity `cap`: a length byte, the text's bytes, and zero padding up to
/// `cap` bytes; or why the text does not fit.
pub open spec fn pstring_spec(cap: u8, s: Seq<char>) -> Result<Seq<u8>, EncodeError> {
    match encode_oneline_spec(s) {
        Err(e) => Err(e),
        Ok(b) => if b.len() > cap {
            Err(EncodeError::StringTooLong { max: cap })
        } else {
            Ok(seq![b.len() as u8] + b + zeros((cap - b.len()) as nat))
        },
    }
}

/// Reading back a 16-bit field gives the number written, for numbers in the signed range.
pub proof fn lemma_le16_i16(v: int, s: Seq<u8>, p: int)
    requires
        -32768 <= v <= 32767,
        0 <= p,
        p + 2 <= s.len(),
        s[p] == le16(v)[0],
        s[p + 1] == le16(v)[1],
    ensures
        i16_at(s, p) as int == v,
{
}

/// Reading back a 16-bit field gives the number written, for numbers in the unsigned range.
pub proof fn lemma_le16_u16(v: int, s: Seq<u8>, p: int)
    requires
        0 <= v <= 65535,
        0 <= p,
        p + 2 <= s.len(),
        s[p] == le16(v)[0],
        s[p + 1] == le16(v)[1],
    ensures
        u16_at(s, p) == v,
{
}

/// Appends the two bytes of a signed 16-bit number.
pub(crate) fn push_i16(out: &mut Vec<u8>, v: i16)
    ensures
        final(out)@ == old(out)@ + le16(v as int),
{
    let u: u32 = if v < 0 {
        (v as i32 + 65536) as u32
    } else {
        v as u32
    };
    out.push((u % 256) as u8);
    out.push((u / 256) as u8);
    assert(final(out)@ =~= old(out)@ + le16(v as int));
}

/// Appends the two bytes of an unsigned 16-bit number.
pub(crate) fn push_u16(out: &mut Vec<u8>, v: u16)
    ensures
        final(out)@ == old(out)@ + le16(v as int),
{
    out.push((v % 256) as u8);
    out.push((v / 256) as u8);
    assert(final(out)@ =~= old(out)@ + le16(v as int));
}

/// Appends a flag byte.
pub(crate) fn push_bool(out: &mut Vec<u8>, v: bool)
    ensures
        final(out)@ == old(out)@.push(bool_byte(v)),
{
    out.push(if v {
        1
    } else {
        0
    });
}

/// Appends `size` zero bytes.
pub(crate) fn push_padding(out: &mut Vec<u8>, size: usize)
    ensures
        final(out)@ == old(out)@ + zeros(size as nat),
{
    let ghost start = out@;
    let mut i: usize = 0;
    while i < size
        invariant
            i <= size,
            out@ == start + zeros(i as nat),
        decreases size - i,
    {
        out.push(0);
        i += 1;
        assert(out@ =~= start + zeros(i as nat));
    }
}

/// Appends a text field of capacity `cap`, or reports why the text does not fit and leaves
/// `out` as it was.
pub(crate) fn push_string(out: &mut Vec<u8>, cap: u8, value: &str) -> (r: Result<(), EncodeError>)
    ensures
        match pstring_spec(cap, value@) {
            Ok(b) => r is Ok && final(out)@ == old(out)@ + b,
            Err(e) => r == Err::<(), EncodeError>(e) && final(out)@ == old(out)@,
        },
{
    let mut bytes = match encode_oneline(value) {
        Ok(b) => b,
        Err(e) => return Err(e),
    };
    if bytes.len() > cap as usize {
        return Err(EncodeError::StringTooLong { max: cap });
    }
    let n = bytes.len();
    let ghost b = bytes@;
    out.push(n as u8);
    out.append(&mut bytes);
    push_padding(out, cap as usize - n);
    Ok(())
}

} // verus!
