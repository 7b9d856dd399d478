//! The container's string pool: a single blob of null-terminated strings,
//! obfuscated on disk with a fixed repeating XOR key. Decoding is
//! self-inverse, so encoding re-applies the same key.

use crate::bytes::copy_range;
use vstd::prelude::*;

verus! {

/// The byte of the format's fixed eight-byte XOR key used at offset `i`.
pub open spec fn hash_key(i: int) -> u8 {
    let r = i % 8;
    if r == 0 {
        0x95
    } else if r == 1 {
        0x3a
    } else if r == 2 {
        0xc5
    } else if r == 3 {
        0x2a
    } else if r == 4 {
        0x95
    } else if r == 5 {
        0x7a
    } else if r == 6 {
        0x95
    } else {
        0x6a
    }
}

/// `s` XORed byte-for-byte with the repeating key, the key starting over at
/// the first byte of `s`. Applying it twice gives `s` back.
pub open spec fn crypt(s: Seq<u8>) -> Seq<u8> {
    Seq::new(s.len(), |i: int| s[i] ^ hash_key(i))
}

/// The XOR obfuscation is self-inverse.
pub proof fn lemma_crypt_self_inverse(s: Seq<u8>)
    ensures
        crypt(crypt(s)) == s,
{
    assert forall|i: int| 0 <= i < s.len() implies crypt(crypt(s))[i] == s[i] by {
        let a = s[i];
        let k = hash_key(i);
        assert((a ^ k) ^ k == a) by (bit_vector);
    }
    assert(crypt(crypt(s)) =~= s);
}

/// The byte of the XOR key used at offset `i`.
fn hash_key_at(i: usize) -> (k: u8)
    ensures
        k == hash_key(i as int),
{
    let r = i % 8;
    if r == 0 {
        0x95
    } else if r == 1 {
        0x3a
    } else if r == 2 {
        0xc5
    } else if r == 3 {
        0x2a
    } else if r == 4 {
        0x95
    } else if r == 5 {
        0x7a
    } else if r == 6 {
        0x95
    } else {
        0x6a
    }
}

/// XORs `data[start..end]` with the repeating key (the key starting over at
/// `start`), returning the transformed bytes.
pub fn crypt_range(data: &Vec<u8>, start: usize, end: usize) -> (r: Vec<u8>)
    requires
        start <= end <= data@.len(),
    ensures
        r@ == crypt(data@.subrange(start as int, end as int)),
{
    let mut r: Vec<u8> = Vec::new();
    let mut i: usize = start;
    while i < end
        invariant
            start <= i <= end <= data@.len(),
            r@.len() == i - start,
            forall|j: int|
                0 <= j < i - start ==> r@[j] == data@[start + j] ^ hash_key(j),
        decreases end - i,
    {
        r.push(data[i] ^ hash_key_at(i - start));
        i = i + 1;
    }
    assert(r@ =~= crypt(data@.subrange(start as int, end as int)));
    r
}

/// The null-terminated string starting at offset `i` of `data`: the bytes up
/// to the first null byte or the end of the buffer, exclusive.
pub open spec fn cstr_at(data: Seq<u8>, i: int) -> Seq<u8>
    decreases data.len() - i,
    when 0 <= i <= data.len()
{
    if i < data.len() && data[i] != 0 {
        seq![data[i]] + cstr_at(data, i + 1)
    } else {
        Seq::empty()
    }
}

/// What resolving `offset` against a decoded pool `data` yields: the
/// null-terminated string at `-offset` for a negative in-range offset, and
/// the empty string for zero, positive, or out-of-range offsets.
pub open spec fn resolve_spec(data: Seq<u8>, offset: int) -> Seq<u8> {
    if offset < 0 && -offset <= data.len() {
        cstr_at(data, -offset)
    } else {
        Seq::empty()
    }
}

/// `offset` has no defined pool semantics: the format marks pool offsets by a
/// negative sign, so a positive or negative-but-out-of-range value is a
/// boundary case seen in legacy files; it resolves to the empty string but
/// should be flagged rather than silently accepted.
pub open spec fn boundary_offset(pool_len: nat, offset: int) -> bool {
    offset > 0 || -offset > pool_len
}

/// `cstr_at` equals the subrange up to the terminator found by a scan.
proof fn lemma_cstr_range(data: Seq<u8>, i: int, end: int)
    requires
        0 <= i <= end <= data.len(),
        forall|j: int| i <= j < end ==> data[j] != 0,
        end == data.len() || data[end] == 0,
    ensures
        cstr_at(data, i) == data.subrange(i, end),
    decreases end - i,
{
    if i < end {
        lemma_cstr_range(data, i + 1, end);
        assert(seq![data[i]] + data.subrange(i + 1, end) =~= data.subrange(i, end));
    } else {
        assert(data.subrange(i, end) =~= Seq::<u8>::empty());
    }
}

/// The characters that lossy UTF-8 decoding yields for the bytes `b`; a
/// function of the bytes alone.
pub uninterp spec fn lossy_string_of(b: Seq<u8>) -> Seq<char>;

/// Relies on `String::from_utf8_lossy`: the result depends on the bytes
/// alone, and valid UTF-8 — in particular ASCII — decodes unchanged, one
/// character per byte.
#[verifier::external_body]
fn bytes_to_string_lossy(b: &Vec<u8>) -> (r: String)
    ensures
        r@ == lossy_string_of(b@),
        (forall|i: int| 0 <= i < b@.len() ==> b@[i] < 0x80) ==> (r@.len() == b@.len()
            && forall|i: int| 0 <= i < b@.len() ==> r@[i] == b@[i] as char),
{
    String::from_utf8_lossy(b.as_slice()).into_owned()
}

/// The decoded string pool. `view` is the decoded byte buffer; the on-disk
/// form is `crypt` of it.
#[derive(Clone, Debug, PartialEq, Eq)]
pub struct StringPool {
    data: Vec<u8>,
}

impl View for StringPool {
    type V = Seq<u8>;

    closed spec fn view(&self) -> Seq<u8> {
        self.data@
    }
}

impl StringPool {
    /// Decodes the on-disk string blob by applying the XOR key.
    pub fn decode(raw: &Vec<u8>) -> (pool: StringPool)
        ensures
            pool@ == crypt(raw@),
    {
        let n = raw.len();
        let data = crypt_range(raw, 0, n);
        proof {
            assert(raw@.subrange(0, raw@.len() as int) =~= raw@);
        }
        StringPool { data }
    }

    /// Re-applies the XOR key, reproducing the on-disk blob exactly.
    pub fn encode(&self) -> (r: Vec<u8>)
        ensures
            r@ == crypt(self@),
    {
        let n = self.data.len();
        let r = crypt_range(&self.data, 0, n);
        proof {
            assert(self.data@.subrange(0, self.data@.len() as int) =~= self.data@);
        }
        r
    }

    /// The decoded pool's byte length.
    pub fn len(&self) -> (n: usize)
        ensures
            n == self@.len(),
    {
        self.data.len()
    }

    /// Resolves `offset` to the decoded bytes of the referenced string:
    /// the null-terminated string at `-offset` when `offset` is negative and
    /// in range, and the empty string otherwise (offset zero means "no
    /// string"; positive or out-of-range offsets are boundary cases).
    pub fn resolve(&self, offset: i32) -> (r: Vec<u8>)
        ensures
            r@ == resolve_spec(self@, offset as int),
    {
        if offset >= 0 {
            return Vec::new();
        }
        let mag64: u64 = (-(offset as i64)) as u64;
        if mag64 > self.data.len() as u64 {
            return Vec::new();
        }
        let start: usize = mag64 as usize;
        let n = self.data.len();
        let mut end: usize = start;
        while end < n && self.data[end] != 0u8
            invariant
                start <= end <= n == self@.len(),
                forall|j: int| start <= j < end ==> self@[j] != 0,
            decreases n - end,
        {
            end = end + 1;
        }
        proof {
            lemma_cstr_range(self@, start as int, end as int);
        }
        copy_range(&self.data, start, end)
    }

    /// Resolves `offset` as `resolve` does and decodes the bytes as text:
    /// an ASCII string (the usual case for this format) decodes to exactly
    /// its bytes, one character per byte.
    pub fn resolve_string(&self, offset: i32) -> (r: String)
        ensures
            r@ == lossy_string_of(resolve_spec(self@, offset as int)),
            (forall|i: int|
                0 <= i < resolve_spec(self@, offset as int).len() ==> resolve_spec(
                    self@,
                    offset as int,
                )[i] < 0x80) ==> (r@.len() == resolve_spec(self@, offset as int).len()
                && forall|i: int|
                0 <= i < resolve_spec(self@, offset as int).len() ==> r@[i] == resolve_spec(
                    self@,
                    offset as int,
                )[i] as char),
    {
        let bytes = self.resolve(offset);
        bytes_to_string_lossy(&bytes)
    }

    /// Resolves `offset` as `resolve` does, and reports beside the bytes
    /// whether the offset was a boundary case (positive, or negative but out
    /// of range) that a caller should flag.
    pub fn resolve_checked(&self, offset: i32) -> (r: (Vec<u8>, bool))
        ensures
            r.0@ == resolve_spec(self@, offset as int),
            r.1 == boundary_offset(self@.len(), offset as int),
    {
        let bytes = self.resolve(offset);
        let flagged: bool = if offset > 0 {
            true
        } else if offset == 0 {
            false
        } else {
            let mag64: u64 = (-(offset as i64)) as u64;
            mag64 > self.data.len() as u64
        };
        (bytes, flagged)
    }
}

} // verus!
