//! A fragment kind whose body layout is unknown beyond its leading name
//! reference; any bytes after the name survive as record trailing data.

use crate::bytes::{i32_at, lemma_le_bytes, push_i32, read_i32};
use crate::error::ParseError;
use crate::refs::StringReference;
use vstd::prelude::*;

verus! {

/// The 32-bit type identifier of this fragment kind.
pub const UNKNOWN_0X34_ID: u32 = 0x34;

/// A fragment of unknown layout: only the leading name reference is modeled.
#[derive(Clone, Copy, Debug, PartialEq, Eq, Structural)]
pub struct Unknown0x34Fragment {
    /// The fragment's name in the string pool.
    pub name_reference: StringReference,
}

impl Unknown0x34Fragment {
    /// Every field combination is a valid value of this shape.
    pub open spec fn wf(self) -> bool {
        true
    }

    /// The body bytes this fragment serializes to.
    pub open spec fn bytes_of(self) -> Seq<u8> {
        self.name_reference.bytes_of()
    }

    /// Reading a body: the name reference alone, four bytes.
    pub open spec fn parse_spec(b: Seq<u8>) -> Option<(Self, int)> {
        if b.len() >= 4 {
            Some((Unknown0x34Fragment { name_reference: StringReference(i32_at(b, 0)) }, 4int))
        } else {
            None
        }
    }

    /// Parses a body slice; fails exactly when fewer than four bytes remain.
    pub fn parse(body: &Vec<u8>) -> (r: Result<(Self, usize), ParseError>)
        ensures
            match r {
                Ok((f, c)) => Self::parse_spec(body@) == Some((f, c as int)) && c <= body@.len(),
                Err(e) => Self::parse_spec(body@) is None && e is Truncated,
            },
    {
        let n = body.len();
        if n < 4 {
            return Err(ParseError::Truncated { offset: 0, needed: 4, available: n });
        }
        let name_reference = StringReference(read_i32(body, 0));
        Ok((Unknown0x34Fragment { name_reference }, 4))
    }

    /// Serializes the body bytes.
    pub fn serialize(&self) -> (r: Vec<u8>)
        ensures
            r@ == self.bytes_of(),
    {
        let mut out: Vec<u8> = Vec::new();
        push_i32(&mut out, self.name_reference.0);
        assert(out@ =~= self.bytes_of());
        out
    }

    /// Round trip: parsing a serialized value (with any bytes after it)
    /// yields the value back, consuming exactly its own bytes.
    pub proof fn lemma_round_trip(self, tail: Seq<u8>)
        requires
            self.wf(),
        ensures
            Self::parse_spec(self.bytes_of() + tail) == Some(
                (self, self.bytes_of().len() as int),
            ),
    {
        lemma_le_bytes();
        let b = self.bytes_of() + tail;
        assert(b.subrange(0, 4) =~= self.name_reference.bytes_of());
    }

    /// Byte identity: a parsed value serializes back to exactly the bytes
    /// that were consumed.
    pub proof fn lemma_parse_exact(b: Seq<u8>)
        ensures
            match Self::parse_spec(b) {
                Some((f, c)) => f.wf() && 0 <= c <= b.len() && f.bytes_of() == b.subrange(0, c),
                None => true,
            },
    {
        lemma_le_bytes();
    }
}

} // verus!
