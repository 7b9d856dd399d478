//! A reference to a vertex color fragment.

use crate::bytes::{i32_at, lemma_le_bytes, push_i32, push_u32, read_i32, read_u32, u32_at, u32_le};
use crate::error::ParseError;
use crate::refs::{FragmentRef, StringReference};
use vstd::prelude::*;

verus! {

/// The 32-bit type identifier of this fragment kind.
pub const VERTEX_COLOR_REFERENCE_ID: u32 = 0x33;

/// A reference to a vertex color fragment.
#[derive(Clone, Copy, Debug, PartialEq, Eq, Structural)]
pub struct VertexColorReferenceFragment {
    /// The fragment's name in the string pool, usually empty.
    pub name_reference: StringReference,
    /// The vertex color fragment reference.
    pub reference: FragmentRef,
    /// Unknown; observed to contain 0.
    pub flags: u32,
}

impl VertexColorReferenceFragment {
    /// Every field combination is a valid value of this shape.
    pub open spec fn wf(self) -> bool {
        true
    }

    /// The body bytes this fragment serializes to.
    pub open spec fn bytes_of(self) -> Seq<u8> {
        self.name_reference.bytes_of() + self.reference.bytes_of() + u32_le(self.flags)
    }

    /// Reading a body: a name reference, a fragment reference, then flags.
    pub open spec fn parse_spec(b: Seq<u8>) -> Option<(Self, int)> {
        if b.len() >= 12 {
            Some(
                (
                    VertexColorReferenceFragment {
                        name_reference: StringReference(i32_at(b, 0)),
                        reference: FragmentRef(i32_at(b, 4)),
                        flags: u32_at(b, 8),
                    },
                    12int,
                ),
            )
        } else {
            None
        }
    }

    /// Parses a body slice; fails exactly when fewer than twelve bytes remain.
    pub fn parse(body: &Vec<u8>) -> (r: Result<(Self, usize), ParseError>)
        ensures
            match r {
                Ok((f, c)) => Self::parse_spec(body@) == Some((f, c as int)) && c <= body@.len(),
                Err(e) => Self::parse_spec(body@) is None && e is Truncated,
            },
    {
        let n = body.len();
        if n < 12 {
            return Err(ParseError::Truncated { offset: 0, needed: 12, available: n });
        }
        let name_reference = StringReference(read_i32(body, 0));
        let reference = FragmentRef(read_i32(body, 4));
        let flags = read_u32(body, 8);
        Ok((VertexColorReferenceFragment { name_reference, reference, flags }, 12))
    }

    /// Serializes the body bytes.
    pub fn serialize(&self) -> (r: Vec<u8>)
        ensures
            r@ == self.bytes_of(),
    {
        let mut out: Vec<u8> = Vec::new();
        push_i32(&mut out, self.name_reference.0);
        push_i32(&mut out, self.reference.0);
        push_u32(&mut out, self.flags);
        assert(out@ =~= self.bytes_of());
        out
    }

    /// Round trip: parsing a serialized value (with any bytes after it)
    /// yields the value back, consuming exactly its own bytes.
    pub proof fn lemma_round_trip(self, tail: Seq<u8>)
        requires
            self.wf(),
        ensures
            Self::parse_spec(self.bytes_of() + tail) == Some(
                (self, self.bytes_of().len() as int),
            ),
    {
        lemma_le_bytes();
        let b = self.bytes_of() + tail;
        assert(b.subrange(0, 4) =~= self.name_reference.bytes_of());
        assert(b.subrange(4, 8) =~= self.reference.bytes_of());
        assert(b.subrange(8, 12) =~= u32_le(self.flags));
    }

    /// Byte identity: a parsed value serializes back to exactly the bytes
    /// that were consumed.
    pub proof fn lemma_parse_exact(b: Seq<u8>)
        ensures
            match Self::parse_spec(b) {
                Some((f, c)) => f.wf() && 0 <= c <= b.len() && f.bytes_of() == b.subrange(0, c),
                None => true,
            },
    {
        lemma_le_bytes();
        if Self::parse_spec(b) is Some {
            assert(b.subrange(0, 4) + b.subrange(4, 8) + b.subrange(8, 12) =~= b.subrange(0, 12));
        }
    }
}

} // verus!
