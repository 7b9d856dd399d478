//! Little-endian byte readers and writers over `Vec<u8>`, and the sequence
//! lemmas the codec's proofs share.

use vstd::bytes::*;
use vstd::prelude::*;

verus! {

/// The `u16` encoded little-endian at byte offset `i` of `b`.
pub open spec fn u16_at(b: Seq<u8>, i: int) -> u16 {
    spec_u16_from_le_bytes(b.subrange(i, i + 2))
}

/// The `u32` encoded little-endian at byte offset `i` of `b`.
pub open spec fn u32_at(b: Seq<u8>, i: int) -> u32 {
    spec_u32_from_le_bytes(b.subrange(i, i + 4))
}

/// The `i32` encoded little-endian at byte offset `i` of `b` (two's
/// complement reading of the `u32` bit pattern).
pub open spec fn i32_at(b: Seq<u8>, i: int) -> i32 {
    u32_at(b, i) as i32
}

/// The two little-endian bytes of `x`.
pub open spec fn u16_le(x: u16) -> Seq<u8> {
    spec_u16_to_le_bytes(x)
}

/// The four little-endian bytes of `x`.
pub open spec fn u32_le(x: u32) -> Seq<u8> {
    spec_u32_to_le_bytes(x)
}

/// The four little-endian bytes of `x` (two's complement bit pattern).
pub open spec fn i32_le(x: i32) -> Seq<u8> {
    spec_u32_to_le_bytes(x as u32)
}

/// Both directions of the little-endian encodings: each writer emits the
/// fixed width, reading back a written value returns it, and writing a read
/// value reproduces the bytes.
pub proof fn lemma_le_bytes()
    ensures
        forall|x: u16| (#[trigger] u16_le(x)).len() == 2,
        forall|x: u32| (#[trigger] u32_le(x)).len() == 4,
        forall|x: i32| (#[trigger] i32_le(x)).len() == 4,
        forall|x: u16| spec_u16_from_le_bytes(#[trigger] u16_le(x)) == x,
        forall|x: u32| spec_u32_from_le_bytes(#[trigger] u32_le(x)) == x,
        forall|x: i32| spec_u32_from_le_bytes(#[trigger] i32_le(x)) as i32 == x,
        forall|s: Seq<u8>| s.len() == 2 ==> #[trigger] u16_le(spec_u16_from_le_bytes(s)) == s,
        forall|s: Seq<u8>| s.len() == 4 ==> #[trigger] u32_le(spec_u32_from_le_bytes(s)) == s,
        forall|s: Seq<u8>| s.len() == 4 ==> #[trigger] i32_le(spec_u32_from_le_bytes(s) as i32)
            == s,
{
    lemma_auto_spec_u16_to_from_le_bytes();
    lemma_auto_spec_u32_to_from_le_bytes();
    assert forall|x: u16|
        (#[trigger] u16_le(x)).len() == 2 && spec_u16_from_le_bytes(u16_le(x)) == x by {
        assert(spec_u16_to_le_bytes(x).len() == 2);
    }
    assert forall|x: u32|
        (#[trigger] u32_le(x)).len() == 4 && spec_u32_from_le_bytes(u32_le(x)) == x by {
        assert(spec_u32_to_le_bytes(x).len() == 4);
    }
    assert forall|x: i32|
        (#[trigger] i32_le(x)).len() == 4 && spec_u32_from_le_bytes(i32_le(x)) as i32 == x by {
        assert(spec_u32_to_le_bytes(x as u32).len() == 4);
        assert(((x as u32) as i32) == x) by (bit_vector);
    }
    assert forall|s: Seq<u8>| s.len() == 2 implies #[trigger] u16_le(spec_u16_from_le_bytes(s))
        == s by {
        assert(spec_u16_to_le_bytes(spec_u16_from_le_bytes(s)).len() == 2);
    }
    assert forall|s: Seq<u8>| s.len() == 4 implies #[trigger] u32_le(spec_u32_from_le_bytes(s))
        == s by {
        assert(spec_u32_to_le_bytes(spec_u32_from_le_bytes(s)).len() == 4);
    }
    assert forall|s: Seq<u8>| s.len() == 4 implies #[trigger] i32_le(
        spec_u32_from_le_bytes(s) as i32,
    ) == s by {
        let u = spec_u32_from_le_bytes(s);
        assert(((u as i32) as u32) == u) by (bit_vector);
        assert(spec_u32_to_le_bytes(spec_u32_from_le_bytes(s)).len() == 4);
    }
}

/// A subrange of a subrange of `s` is the corresponding subrange of `s`.
pub proof fn lemma_subrange_of_subrange(s: Seq<u8>, start: int, end: int, a: int, b: int)
    requires
        0 <= start <= end <= s.len(),
        0 <= a <= b <= end - start,
    ensures
        s.subrange(start, end).subrange(a, b) == s.subrange(start + a, start + b),
{
    assert(s.subrange(start, end).subrange(a, b) =~= s.subrange(start + a, start + b));
}

/// When the bytes `s` sit in `b` at offset `pos`, any subrange of `s`
/// equals the corresponding subrange of `b`.
pub proof fn lemma_subrange_eq_sub(b: Seq<u8>, pos: int, s: Seq<u8>, a: int, c: int)
    requires
        0 <= pos,
        pos + s.len() <= b.len(),
        b.subrange(pos, pos + s.len()) == s,
        0 <= a <= c <= s.len(),
    ensures
        b.subrange(pos + a, pos + c) == s.subrange(a, c),
{
    assert forall|j: int| 0 <= j < c - a implies b.subrange(pos + a, pos + c)[j] == s.subrange(
        a,
        c,
    )[j] by {
        assert(b.subrange(pos, pos + s.len())[a + j] == s[a + j]);
    }
    assert(b.subrange(pos + a, pos + c) =~= s.subrange(a, c));
}

/// Reads the little-endian `u16` at offset `i` of `data`.
pub fn read_u16(data: &Vec<u8>, i: usize) -> (x: u16)
    requires
        i + 2 <= data@.len(),
    ensures
        x == u16_at(data@, i as int),
{
    let sl = data.as_slice();
    let n = sl.len();
    assert(i + 2 <= n);
    let s = vstd::slice::slice_subrange(sl, i, i + 2);
    u16_from_le_bytes(s)
}

/// Reads the little-endian `u32` at offset `i` of `data`.
pub fn read_u32(data: &Vec<u8>, i: usize) -> (x: u32)
    requires
        i + 4 <= data@.len(),
    ensures
        x == u32_at(data@, i as int),
{
    let sl = data.as_slice();
    let n = sl.len();
    assert(i + 4 <= n);
    let s = vstd::slice::slice_subrange(sl, i, i + 4);
    u32_from_le_bytes(s)
}

/// Reads the little-endian `i32` at offset `i` of `data`.
pub fn read_i32(data: &Vec<u8>, i: usize) -> (x: i32)
    requires
        i + 4 <= data@.len(),
    ensures
        x == i32_at(data@, i as int),
{
    read_u32(data, i) as i32
}

/// Appends the two little-endian bytes of `x` to `out`.
pub fn push_u16(out: &mut Vec<u8>, x: u16)
    ensures
        final(out)@ == old(out)@ + u16_le(x),
{
    let mut t = u16_to_le_bytes(x);
    out.append(&mut t);
}

/// Appends the four little-endian bytes of `x` to `out`.
pub fn push_u32(out: &mut Vec<u8>, x: u32)
    ensures
        final(out)@ == old(out)@ + u32_le(x),
{
    let mut t = u32_to_le_bytes(x);
    out.append(&mut t);
}

/// Appends the four little-endian bytes of `x` to `out`.
pub fn push_i32(out: &mut Vec<u8>, x: i32)
    ensures
        final(out)@ == old(out)@ + i32_le(x),
{
    push_u32(out, x as u32);
}

/// Copies `data[start..end]` into a fresh vector.
pub fn copy_range(data: &Vec<u8>, start: usize, end: usize) -> (r: Vec<u8>)
    requires
        start <= end <= data@.len(),
    ensures
        r@ == data@.subrange(start as int, end as int),
{
    let mut r: Vec<u8> = Vec::new();
    let mut i: usize = start;
    while i < end
        invariant
            start <= i <= end <= data@.len(),
            r@ == data@.subrange(start as int, i as int),
        decreases end - i,
    {
        r.push(data[i]);
        assert(r@ =~= data@.subrange(start as int, i + 1 as int));
        i = i + 1;
    }
    r
}

} // verus!
