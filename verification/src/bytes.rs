//! Byte-level primitives: big-endian integer fields, fixed-width
//! zero-padded name fields, and in-place splicing of a byte buffer.

use vstd::pervasive::VecAdditionalExecFns;
use vstd::prelude::*;

use crate::errors::{FileReason, ZevParseError};

verus! {

/// The 16-bit big-endian value stored in two bytes.
pub open spec fn u16_be(b0: u8, b1: u8) -> u16 {
    (b0 * 256 + b1) as u16
}

/// The 32-bit big-endian value stored in four bytes.
pub open spec fn u32_be(b0: u8, b1: u8, b2: u8, b3: u8) -> u32 {
    (b0 * 0x1000000 + b1 * 0x10000 + b2 * 0x100 + b3) as u32
}

/// The two bytes of a 16-bit value, big-endian.
pub open spec fn u16_bytes(x: u16) -> Seq<u8> {
    seq![(x / 256) as u8, (x % 256) as u8]
}

/// The four bytes of a 32-bit value, big-endian.
pub open spec fn u32_bytes(x: u32) -> Seq<u8> {
    seq![
        (x / 0x1000000) as u8,
        ((x / 0x10000) % 256) as u8,
        ((x / 256) % 256) as u8,
        (x % 256) as u8,
    ]
}

pub broadcast proof fn lemma_u16_bytes_be(x: u16)
    ensures
        (#[trigger] u16_bytes(x)).len() == 2,
        u16_be(u16_bytes(x)[0], u16_bytes(x)[1]) == x,
{
}

/// The 32-bit big-endian value at position `pos` of a buffer.
pub open spec fn u32_at(b: Seq<u8>, pos: int) -> u32 {
    u32_be(b[pos], b[pos + 1], b[pos + 2], b[pos + 3])
}

/// `b` with the range starting at `pos` replaced by `s`.
pub open spec fn splice(b: Seq<u8>, pos: int, s: Seq<u8>) -> Seq<u8>
    recommends
        0 <= pos,
        pos + s.len() <= b.len(),
{
    b.take(pos).add(s).add(b.skip(pos + s.len()))
}

pub broadcast proof fn lemma_splice(b: Seq<u8>, pos: int, s: Seq<u8>)
    requires
        0 <= pos,
        pos + s.len() <= b.len(),
    ensures
        (#[trigger] splice(b, pos, s)).len() == b.len(),
        forall|i: int| 0 <= i < pos ==> splice(b, pos, s)[i] == b[i],
        forall|i: int| pos <= i < pos + s.len() ==> splice(b, pos, s)[i] == s[i - pos],
        forall|i: int| pos + s.len() <= i < b.len() ==> splice(b, pos, s)[i] == b[i],
{
}

/// Splicing two adjacent ranges is one splice of their concatenation.
pub proof fn lemma_splice_splice(b: Seq<u8>, pos: int, s1: Seq<u8>, s2: Seq<u8>)
    requires
        0 <= pos,
        pos + s1.len() + s2.len() <= b.len(),
    ensures
        splice(splice(b, pos, s1), pos + s1.len(), s2) == splice(b, pos, s1.add(s2)),
{
    lemma_splice(b, pos, s1);
    let b1 = splice(b, pos, s1);
    lemma_splice(b1, pos + s1.len(), s2);
    lemma_splice(b, pos, s1.add(s2));
    assert(splice(b1, pos + s1.len(), s2) =~= splice(b, pos, s1.add(s2)));
}

/// Every byte is in the ASCII range.
pub open spec fn is_ascii(s: Seq<u8>) -> bool {
    forall|i: int| 0 <= i < s.len() ==> s[i] < 128
}

/// Position of the first zero byte at or after `i`, or `s.len()` if none.
pub open spec fn first_zero(s: Seq<u8>, i: int) -> int
    recommends
        0 <= i <= s.len(),
    decreases s.len() - i when 0 <= i <= s.len()
{
    if i >= s.len() {
        s.len() as int
    } else if s[i] == 0 {
        i
    } else {
        first_zero(s, i + 1)
    }
}

/// The name held in a fixed-width field: the prefix up to the first zero
/// byte, or the whole field when no zero byte is present.
pub open spec fn field_str(field: Seq<u8>) -> Seq<u8> {
    field.take(first_zero(field, 0))
}

/// Whether decoding a fixed-width name field succeeds.
pub open spec fn field_ok(field: Seq<u8>) -> bool {
    is_ascii(field_str(field))
}

/// A name padded with zero bytes to the width `w` of its field.
pub open spec fn zpad(s: Seq<u8>, w: int) -> Seq<u8>
    recommends
        s.len() <= w,
{
    s.add(Seq::new((w - s.len()) as nat, |i: int| 0u8))
}

/// A well-formed name for a field of width `w`: it fits the field and
/// every byte is nonzero ASCII, so that writing and re-reading the field
/// gives the name back.
pub open spec fn name_wf(s: Seq<u8>, w: int) -> bool {
    &&& s.len() <= w
    &&& forall|i: int| 0 <= i < s.len() ==> 0 < #[trigger] s[i] < 128
}

/// A well-formed name survives the round trip through its zero-padded
/// field.
pub proof fn lemma_field_str_zpad(s: Seq<u8>, w: int)
    requires
        name_wf(s, w),
    ensures
        field_str(zpad(s, w)) == s,
        field_ok(zpad(s, w)),
{
    let f = zpad(s, w);
    assert(f.len() == w);
    lemma_first_zero_is(f, 0, s.len() as int);
    assert(field_str(f) =~= s);
}

/// A prefix of nonzero bytes closed by a zero byte (or by the end of the
/// field) pins down `first_zero`.
pub proof fn lemma_first_zero_is(s: Seq<u8>, i: int, k: int)
    requires
        0 <= i <= k <= s.len(),
        forall|j: int| i <= j < k ==> s[j] != 0,
        k < s.len() ==> s[k] == 0,
    ensures
        first_zero(s, i) == k,
    decreases k - i,
{
    if i < k {
        lemma_first_zero_is(s, i + 1, k);
    }
}

/// Reads the 16-bit big-endian field at `pos`.
pub fn read_u16_at(bytes: &[u8], pos: usize) -> (r: u16)
    requires
        pos + 2 <= bytes.len(),
    ensures
        r == u16_be(bytes@[pos as int], bytes@[pos as int + 1]),
{
    bytes[pos] as u16 * 256 + bytes[pos + 1] as u16
}

/// Reads the 32-bit big-endian field at `pos`.
pub fn read_u32_at(bytes: &[u8], pos: usize) -> (r: u32)
    requires
        pos + 4 <= bytes.len(),
    ensures
        r == u32_be(
            bytes@[pos as int],
            bytes@[pos as int + 1],
            bytes@[pos as int + 2],
            bytes@[pos as int + 3],
        ),
{
    bytes[pos] as u32 * 0x1000000 + bytes[pos + 1] as u32 * 0x10000 + bytes[pos + 2] as u32 * 0x100
        + bytes[pos + 3] as u32
}

/// Overwrites the two bytes at `pos` with `x`, big-endian.
pub fn write_u16_at(buf: &mut Vec<u8>, pos: usize, x: u16)
    requires
        pos + 2 <= old(buf).len(),
    ensures
        final(buf)@ == splice(old(buf)@, pos as int, u16_bytes(x)),
{
    buf.set(pos, (x / 256) as u8);
    buf.set(pos + 1, (x % 256) as u8);
    proof {
        lemma_splice(old(buf)@, pos as int, u16_bytes(x));
        assert(buf@ =~= splice(old(buf)@, pos as int, u16_bytes(x)));
    }
}

/// An exact copy of a byte vector.
pub fn clone_bytes(v: &Vec<u8>) -> (r: Vec<u8>)
    ensures
        r@ == v@,
{
    let r = v.clone();
    proof {
        assert forall|i: int| 0 <= i < v@.len() implies r@[i] == v@[i] by {
            assert(cloned::<u8>(v@[i], r@[i]));
        }
        assert(r@ =~= v@);
    }
    r
}

/// A buffer of `n` zero bytes.
pub fn zero_vec(n: usize) -> (r: Vec<u8>)
    ensures
        r@ == Seq::new(n as nat, |i: int| 0u8),
{
    let r = vec![0u8; n];
    proof {
        assert forall|i: int| 0 <= i < r@.len() implies r@[i] == 0u8 by {
            assert(cloned::<u8>(0u8, r@[i]));
        }
        assert(r@ =~= Seq::new(n as nat, |i: int| 0u8));
    }
    r
}

/// Overwrites the byte at `pos` with `x`.
pub fn write_u8_at(buf: &mut Vec<u8>, pos: usize, x: u8)
    requires
        pos + 1 <= old(buf).len(),
    ensures
        final(buf)@ == splice(old(buf)@, pos as int, seq![x]),
{
    buf.set(pos, x);
    proof {
        lemma_splice(old(buf)@, pos as int, seq![x]);
        assert(buf@ =~= splice(old(buf)@, pos as int, seq![x]));
    }
}

/// Decodes the fixed-width name field of width `max_len` at `pos`: the
/// prefix up to the first zero byte (the whole field when none), rejected
/// when it is not ASCII.
#[verifier::loop_isolation(true)]
pub fn read_null_term_string(bytes: &[u8], pos: usize, max_len: usize) -> (r: Result<
    Vec<u8>,
    ZevParseError,
>)
    requires
        pos + max_len <= bytes.len(),
    ensures
        ({
            let field = bytes@.subrange(pos as int, pos + max_len);
            &&& field_ok(field) ==> r is Ok && r->Ok_0@ == field_str(field)
            &&& !field_ok(field) ==> r == Err::<Vec<u8>, ZevParseError>(
                ZevParseError::InvalidFile(FileReason::NameNotAscii),
            )
        }),
{
    let ghost field = bytes@.subrange(pos as int, pos + max_len);
    let mut end: usize = 0;
    while end < max_len
        invariant
            pos + max_len <= bytes.len(),
            end <= max_len,
            field == bytes@.subrange(pos as int, pos + max_len),
            forall|j: int| 0 <= j < end ==> field[j] != 0,
        ensures
            end <= max_len,
            forall|j: int| 0 <= j < end ==> field[j] != 0,
            end < max_len ==> field[end as int] == 0,
        decreases max_len - end,
    {
        if bytes[pos + end] == 0 {
            assert(field[end as int] == 0);
            break ;
        }
        assert(field[end as int] != 0);
        end += 1;
    }
    proof {
        lemma_first_zero_is(field, 0, end as int);
        assert(field_str(field) =~= bytes@.subrange(pos as int, pos + end));
    }
    let mut i: usize = 0;
    let mut out: Vec<u8> = Vec::new();
    while i < end
        invariant
            pos + max_len <= bytes.len(),
            end <= max_len,
            i <= end,
            field == bytes@.subrange(pos as int, pos + max_len),
            field_str(field) == bytes@.subrange(pos as int, pos + end),
            out@ == bytes@.subrange(pos as int, pos + i),
            forall|j: int| 0 <= j < i ==> field[j] < 128,
        decreases end - i,
    {
        let b = bytes[pos + i];
        if b >= 128 {
            proof {
                assert(field_str(field)[i as int] == b);
                assert(!is_ascii(field_str(field)));
            }
            return Err(ZevParseError::InvalidFile(FileReason::NameNotAscii));
        }
        out.push(b);
        i += 1;
        proof {
            assert(out@ =~= bytes@.subrange(pos as int, pos + i));
        }
    }
    proof {
        assert(forall|j: int|
            0 <= j < field_str(field).len() ==> field_str(field)[j] == field[j] && field[j] < 128);
    }
    Ok(out)
}

/// Writes `s` at `pos` followed by zero padding to the field width.
pub fn write_null_term_pad_string(buf: &mut Vec<u8>, pos: usize, s: &[u8], max_len: usize)
    requires
        s@.len() <= max_len,
        pos + max_len <= old(buf).len(),
    ensures
        final(buf)@ == splice(old(buf)@, pos as int, zpad(s@, max_len as int)),
{
    let n = s.len();
    let mut i: usize = 0;
    while i < n
        invariant
            n == s@.len() <= max_len,
            pos + max_len <= buf.len(),
            buf.len() == old(buf).len(),
            i <= n,
            forall|k: int|
                0 <= k < buf.len() && !(pos <= k < pos + i) ==> buf@[k] == old(buf)@[k],
            forall|k: int| pos <= k < pos + i ==> buf@[k] == s@[k - pos],
        decreases n - i,
    {
        buf.set(pos + i, s[i]);
        i += 1;
    }
    let mut j: usize = n;
    while j < max_len
        invariant
            n == s@.len() <= max_len,
            pos + max_len <= buf.len(),
            buf.len() == old(buf).len(),
            n <= j <= max_len,
            forall|k: int|
                0 <= k < buf.len() && !(pos <= k < pos + j) ==> buf@[k] == old(buf)@[k],
            forall|k: int| pos <= k < pos + n ==> buf@[k] == s@[k - pos],
            forall|k: int| pos + n <= k < pos + j ==> buf@[k] == 0,
        decreases max_len - j,
    {
        buf.set(pos + j, 0);
        j += 1;
    }
    proof {
        lemma_splice(old(buf)@, pos as int, zpad(s@, max_len as int));
        assert(buf@ =~= splice(old(buf)@, pos as int, zpad(s@, max_len as int)));
    }
}

} // verus!
