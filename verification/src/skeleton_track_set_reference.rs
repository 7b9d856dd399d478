//! A reference to a skeleton track set fragment. One of the legacy record
//! shapes whose body does not begin with a name reference.

use crate::bytes::{i32_at, lemma_le_bytes, push_i32, push_u32, read_i32, read_u32, u32_at, u32_le};
use crate::error::ParseError;
use crate::refs::FragmentRef;
use vstd::prelude::*;

verus! {

/// The 32-bit type identifier of this fragment kind.
pub const SKELETON_TRACK_SET_REFERENCE_ID: u32 = 0x11;

/// A reference to a skeleton track set fragment.
#[derive(Clone, Copy, Debug, PartialEq, Eq, Structural)]
pub struct SkeletonTrackSetReferenceFragment {
    /// The skeleton track set reference.
    pub reference: FragmentRef,
    /// Unknown; observed to contain 0.
    pub params1: u32,
}

impl SkeletonTrackSetReferenceFragment {
    /// Every field combination is a valid value of this shape.
    pub open spec fn wf(self) -> bool {
        true
    }

    /// The body bytes this fragment serializes to.
    pub open spec fn bytes_of(self) -> Seq<u8> {
        self.reference.bytes_of() + u32_le(self.params1)
    }

    /// Reading a body: a fragment reference then one `u32`, eight bytes.
    pub open spec fn parse_spec(b: Seq<u8>) -> Option<(Self, int)> {
        if b.len() >= 8 {
            Some(
                (
                    SkeletonTrackSetReferenceFragment {
                        reference: FragmentRef(i32_at(b, 0)),
                        params1: u32_at(b, 4),
                    },
                    8int,
                ),
            )
        } else {
            None
        }
    }

    /// Parses a body slice; fails exactly when fewer than eight bytes remain.
    pub fn parse(body: &Vec<u8>) -> (r: Result<(Self, usize), ParseError>)
        ensures
            match r {
                Ok((f, c)) => Self::parse_spec(body@) == Some((f, c as int)) && c <= body@.len(),
                Err(e) => Self::parse_spec(body@) is None && e is Truncated,
            },
    {
        let n = body.len();
        if n < 8 {
            return Err(ParseError::Truncated { offset: 0, needed: 8, available: n });
        }
        let reference = FragmentRef(read_i32(body, 0));
        let params1 = read_u32(body, 4);
        Ok((SkeletonTrackSetReferenceFragment { reference, params1 }, 8))
    }

    /// Serializes the body bytes.
    pub fn serialize(&self) -> (r: Vec<u8>)
        ensures
            r@ == self.bytes_of(),
    {
        let mut out: Vec<u8> = Vec::new();
        push_i32(&mut out, self.reference.0);
        push_u32(&mut out, self.params1);
        assert(out@ =~= self.bytes_of());
        out
    }

    /// Round trip: parsing a serialized value (with any bytes after it)
    /// yields the value back, consuming exactly its own bytes.
    pub proof fn lemma_round_trip(self, tail: Seq<u8>)
        requires
            self.wf(),
        ensures
            Self::parse_spec(self.bytes_of() + tail) == Some(
                (self, self.bytes_of().len() as int),
            ),
    {
        lemma_le_bytes();
        let b = self.bytes_of() + tail;
        assert(b.subrange(0, 4) =~= self.reference.bytes_of());
        assert(b.subrange(4, 8) =~= u32_le(self.params1));
    }

    /// Byte identity: a parsed value serializes back to exactly the bytes
    /// that were consumed.
    pub proof fn lemma_parse_exact(b: Seq<u8>)
        ensures
            match Self::parse_spec(b) {
                Some((f, c)) => f.wf() && 0 <= c <= b.len() && f.bytes_of() == b.subrange(0, c),
                None => true,
            },
    {
        lemma_le_bytes();
        if Self::parse_spec(b) is Some {
            assert(b.subrange(0, 4) + b.subrange(4, 8) =~= b.subrange(0, 8));
        }
    }
}

} // verus!
