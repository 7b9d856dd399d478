//! The two index types fragments use to point at other data: a signed byte
//! offset into the string pool, and a signed 1-based index into the fragment
//! list. Both parse and serialize as raw little-endian `i32` values; neither
//! is validated at parse time, so any raw value round-trips unchanged.

use crate::bytes::{i32_at, i32_le, push_i32, read_i32};
use crate::error::ParseError;
use vstd::prelude::*;

verus! {

/// A signed byte offset into the string pool. Zero means "no string";
/// a negative value marks a pool offset (the string starts at `-offset`);
/// a positive value is not a valid pool offset but is preserved verbatim.
#[derive(Clone, Copy, Debug, PartialEq, Eq, Structural)]
pub struct StringReference(pub i32);

impl StringReference {
    /// The four bytes this reference serializes to.
    pub open spec fn bytes_of(self) -> Seq<u8> {
        i32_le(self.0)
    }

    /// Reading a reference consumes the four bytes at the front of `b`.
    pub open spec fn parse_spec(b: Seq<u8>) -> Option<(StringReference, int)> {
        if b.len() >= 4 {
            Some((StringReference(i32_at(b, 0)), 4int))
        } else {
            None
        }
    }

    /// Parses the reference at offset `pos` of `body`.
    pub fn parse(body: &Vec<u8>, pos: usize) -> (r: Result<(StringReference, usize), ParseError>)
        requires
            pos <= body@.len(),
        ensures
            match r {
                Ok((v, p)) => Self::parse_spec(body@.skip(pos as int)) == Some((v, (p - pos) as int))
                    && pos <= p <= body@.len(),
                Err(_) => Self::parse_spec(body@.skip(pos as int)) is None,
            },
    {
        let n = body.len();
        if n - pos < 4 {
            return Err(ParseError::Truncated { offset: pos, needed: 4, available: n - pos });
        }
        let v = read_i32(body, pos);
        proof {
            assert(body@.skip(pos as int).subrange(0, 4) =~= body@.subrange(
                pos as int,
                pos + 4,
            ));
        }
        Ok((StringReference(v), pos + 4))
    }

    /// Serializes the raw offset, little-endian.
    pub fn serialize(&self) -> (r: Vec<u8>)
        ensures
            r@ == self.bytes_of(),
    {
        let mut out: Vec<u8> = Vec::new();
        push_i32(&mut out, self.0);
        assert(out@ =~= self.bytes_of());
        out
    }
}

/// A signed 1-based index into the container's fragment list. Zero is the
/// null reference; a positive `N` names the `N`th fragment in file order;
/// negative values have no meaning in the framework but round-trip unchanged.
#[derive(Clone, Copy, Debug, PartialEq, Eq, Structural)]
pub struct FragmentRef(pub i32);

impl FragmentRef {
    /// The four bytes this reference serializes to.
    pub open spec fn bytes_of(self) -> Seq<u8> {
        i32_le(self.0)
    }

    /// Reading a reference consumes the four bytes at the front of `b`.
    pub open spec fn parse_spec(b: Seq<u8>) -> Option<(FragmentRef, int)> {
        if b.len() >= 4 {
            Some((FragmentRef(i32_at(b, 0)), 4int))
        } else {
            None
        }
    }

    /// True of the null reference, which resolves to no fragment.
    pub open spec fn is_null(self) -> bool {
        self.0 == 0
    }

    /// Parses the reference at offset `pos` of `body`.
    pub fn parse(body: &Vec<u8>, pos: usize) -> (r: Result<(FragmentRef, usize), ParseError>)
        requires
            pos <= body@.len(),
        ensures
            match r {
                Ok((v, p)) => Self::parse_spec(body@.skip(pos as int)) == Some((v, (p - pos) as int))
                    && pos <= p <= body@.len(),
                Err(_) => Self::parse_spec(body@.skip(pos as int)) is None,
            },
    {
        let n = body.len();
        if n - pos < 4 {
            return Err(ParseError::Truncated { offset: pos, needed: 4, available: n - pos });
        }
        let v = read_i32(body, pos);
        proof {
            assert(body@.skip(pos as int).subrange(0, 4) =~= body@.subrange(
                pos as int,
                pos + 4,
            ));
        }
        Ok((FragmentRef(v), pos + 4))
    }

    /// Serializes the raw index, little-endian.
    pub fn serialize(&self) -> (r: Vec<u8>)
        ensures
            r@ == self.bytes_of(),
    {
        let mut out: Vec<u8> = Vec::new();
        push_i32(&mut out, self.0);
        assert(out@ =~= self.bytes_of());
        out
    }
}

} // verus!
