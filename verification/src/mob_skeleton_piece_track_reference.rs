//! A reference to a skeleton piece track fragment, the worked example of the
//! format's flag-gated optional-field idiom: bit 0 of `flags` gates the
//! presence of the trailing `params1` field, and absence is distinct from an
//! explicit zero.

use crate::bytes::{i32_at, lemma_le_bytes, push_i32, push_u32, read_i32, read_u32, u32_at, u32_le};
use crate::error::ParseError;
use crate::refs::{FragmentRef, StringReference};
use vstd::prelude::*;

verus! {

/// The 32-bit type identifier of this fragment kind.
pub const MOB_SKELETON_PIECE_TRACK_REFERENCE_ID: u32 = 0x13;

/// A reference to a skeleton piece track fragment.
#[derive(Clone, Copy, Debug, PartialEq, Eq)]
pub struct MobSkeletonPieceTrackReferenceFragment {
    /// The fragment's name in the string pool.
    pub name_reference: StringReference,
    /// The skeleton piece track reference.
    pub reference: FragmentRef,
    /// Mostly unknown flags; bit 0 set means `params1` follows.
    pub flags: u32,
    /// Present exactly when bit 0 of `flags` is set.
    pub params1: Option<u32>,
}

impl MobSkeletonPieceTrackReferenceFragment {
    /// The optional field's presence agrees with its gate bit, so
    /// re-serializing emits the same flags and the same field pattern.
    pub open spec fn wf(self) -> bool {
        (self.flags & 1 == 1) <==> (self.params1 is Some)
    }

    /// The body bytes this fragment serializes to.
    pub open spec fn bytes_of(self) -> Seq<u8> {
        self.name_reference.bytes_of() + self.reference.bytes_of() + u32_le(self.flags) + (
        match self.params1 {
            Some(p) => u32_le(p),
            None => Seq::empty(),
        })
    }

    /// Reading a body: name reference, fragment reference, flags; then
    /// `params1` exactly when bit 0 of the flags just read is set.
    pub open spec fn parse_spec(b: Seq<u8>) -> Option<(Self, int)> {
        if b.len() >= 12 {
            let name_reference = StringReference(i32_at(b, 0));
            let reference = FragmentRef(i32_at(b, 4));
            let flags = u32_at(b, 8);
            if flags & 1 == 1 {
                if b.len() >= 16 {
                    Some(
                        (
                            MobSkeletonPieceTrackReferenceFragment {
                                name_reference,
                                reference,
                                flags,
                                params1: Some(u32_at(b, 12)),
                            },
                            16int,
                        ),
                    )
                } else {
                    None
                }
            } else {
                Some(
                    (
                        MobSkeletonPieceTrackReferenceFragment {
                            name_reference,
                            reference,
                            flags,
                            params1: None,
                        },
                        12int,
                    ),
                )
            }
        } else {
            None
        }
    }

    /// Parses a body slice. Fails exactly when the fixed fields are
    /// truncated, or bit 0 is set and the body ends before `params1`.
    pub fn parse(body: &Vec<u8>) -> (r: Result<(Self, usize), ParseError>)
        ensures
            match r {
                Ok((f, c)) => Self::parse_spec(body@) == Some((f, c as int)) && c <= body@.len()
                    && f.wf(),
                Err(e) => Self::parse_spec(body@) is None && e is Truncated,
            },
    {
        let n = body.len();
        if n < 12 {
            return Err(ParseError::Truncated { offset: 0, needed: 12, available: n });
        }
        let name_reference = StringReference(read_i32(body, 0));
        let reference = FragmentRef(read_i32(body, 4));
        let flags = read_u32(body, 8);
        if flags & 1 == 1 {
            if n < 16 {
                return Err(ParseError::Truncated { offset: 12, needed: 4, available: n - 12 });
            }
            let params1 = Some(read_u32(body, 12));
            Ok((MobSkeletonPieceTrackReferenceFragment { name_reference, reference, flags, params1 }, 16))
        } else {
            Ok(
                (
                    MobSkeletonPieceTrackReferenceFragment {
                        name_reference,
                        reference,
                        flags,
                        params1: None,
                    },
                    12,
                ),
            )
        }
    }

    /// Serializes the body bytes: the optional field is emitted exactly when
    /// present.
    pub fn serialize(&self) -> (r: Vec<u8>)
        ensures
            r@ == self.bytes_of(),
    {
        let mut out: Vec<u8> = Vec::new();
        push_i32(&mut out, self.name_reference.0);
        push_i32(&mut out, self.reference.0);
        push_u32(&mut out, self.flags);
        match self.params1 {
            Some(p) => push_u32(&mut out, p),
            None => (),
        }
        assert(out@ =~= self.bytes_of());
        out
    }

    /// Round trip: parsing a serialized well-formed value (with any bytes
    /// after it) yields the value back, consuming exactly its own bytes; in
    /// particular the re-read flags gate the same presence pattern.
    pub proof fn lemma_round_trip(self, tail: Seq<u8>)
        requires
            self.wf(),
        ensures
            Self::parse_spec(self.bytes_of() + tail) == Some(
                (self, self.bytes_of().len() as int),
            ),
    {
        lemma_le_bytes();
        let b = self.bytes_of() + tail;
        assert(b.subrange(0, 4) =~= self.name_reference.bytes_of());
        assert(b.subrange(4, 8) =~= self.reference.bytes_of());
        assert(b.subrange(8, 12) =~= u32_le(self.flags));
        match self.params1 {
            Some(p) => {
                assert(b.subrange(12, 16) =~= u32_le(p));
            },
            None => (),
        }
    }

    /// Byte identity: a parsed value is well formed and serializes back to
    /// exactly the bytes that were consumed.
    pub proof fn lemma_parse_exact(b: Seq<u8>)
        ensures
            match Self::parse_spec(b) {
                Some((f, c)) => f.wf() && 0 <= c <= b.len() && f.bytes_of() == b.subrange(0, c),
                None => true,
            },
    {
        lemma_le_bytes();
        if Self::parse_spec(b) is Some {
            if u32_at(b, 8) & 1 == 1 {
                assert(b.subrange(0, 4) + b.subrange(4, 8) + b.subrange(8, 12) + b.subrange(12, 16)
                    =~= b.subrange(0, 16));
            } else {
                assert(b.subrange(0, 4) + b.subrange(4, 8) + b.subrange(8, 12) + Seq::<u8>::empty()
                    =~= b.subrange(0, 12));
            }
        }
    }
}

} // verus!
