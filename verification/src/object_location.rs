//! An object placement record: position, rotation, and scale for either a
//! whole zone or one placeable object. The positional fields are 32-bit IEEE
//! floating-point values in the file; the codec keeps their raw little-endian
//! bit patterns as `u32`, which makes round-tripping byte-exact, and leaves
//! numeric interpretation to callers.

use crate::bytes::{lemma_le_bytes, push_u32, read_u32, u32_at, u32_le};
use crate::error::ParseError;
use vstd::prelude::*;

verus! {

/// The 32-bit type identifier of this fragment kind.
pub const OBJECT_LOCATION_ID: u32 = 0x15;

/// An object placement record. One of the legacy record shapes whose body
/// does not begin with a name reference. Fields named `*_bits` hold the raw
/// bit pattern of a 32-bit float.
#[derive(Clone, Copy, Debug, PartialEq, Eq, Structural)]
pub struct ObjectLocationFragment {
    /// Typically 0x2E in main zone files and 0x32E for placeable objects.
    pub flags: u32,
    /// In main zone files, points at another fragment; 0 for placeables.
    pub fragment1: u32,
    /// X coordinate (zone minimum, or the object's location).
    pub x_bits: u32,
    /// Y coordinate (zone minimum, or the object's location).
    pub y_bits: u32,
    /// Z coordinate (zone minimum, or the object's location).
    pub z_bits: u32,
    /// Rotation around the Z axis, scaled as degrees times 512/360.
    pub rotate_z_bits: u32,
    /// Rotation around the Y axis, scaled as degrees times 512/360.
    pub rotate_y_bits: u32,
    /// Rotation around the X axis, scaled as degrees times 512/360.
    pub rotate_x_bits: u32,
    /// Unknown; typically 0.
    pub params1: u32,
    /// Scaling factor in the Y direction.
    pub scale_y_bits: u32,
    /// Scaling factor in the X direction.
    pub scale_x_bits: u32,
    /// In placeable objects, points at a vertex color reference fragment.
    pub fragment2: u32,
    /// Typically 30 in main zone files and 0 for placeable objects.
    pub params2: u32,
}

impl ObjectLocationFragment {
    /// Every field combination is a valid value of this shape.
    pub open spec fn wf(self) -> bool {
        true
    }

    /// The body bytes this fragment serializes to: thirteen little-endian
    /// 32-bit fields in file order.
    pub open spec fn bytes_of(self) -> Seq<u8> {
        u32_le(self.flags) + u32_le(self.fragment1) + u32_le(self.x_bits) + u32_le(self.y_bits)
            + u32_le(self.z_bits) + u32_le(self.rotate_z_bits) + u32_le(self.rotate_y_bits)
            + u32_le(self.rotate_x_bits) + u32_le(self.params1) + u32_le(self.scale_y_bits)
            + u32_le(self.scale_x_bits) + u32_le(self.fragment2) + u32_le(self.params2)
    }

    /// Reading a body: thirteen consecutive 32-bit fields, 52 bytes.
    pub open spec fn parse_spec(b: Seq<u8>) -> Option<(Self, int)> {
        if b.len() >= 52 {
            Some(
                (
                    ObjectLocationFragment {
                        flags: u32_at(b, 0),
                        fragment1: u32_at(b, 4),
                        x_bits: u32_at(b, 8),
                        y_bits: u32_at(b, 12),
                        z_bits: u32_at(b, 16),
                        rotate_z_bits: u32_at(b, 20),
                        rotate_y_bits: u32_at(b, 24),
                        rotate_x_bits: u32_at(b, 28),
                        params1: u32_at(b, 32),
                        scale_y_bits: u32_at(b, 36),
                        scale_x_bits: u32_at(b, 40),
                        fragment2: u32_at(b, 44),
                        params2: u32_at(b, 48),
                    },
                    52int,
                ),
            )
        } else {
            None
        }
    }

    /// Parses a body slice; fails exactly when fewer than 52 bytes remain.
    pub fn parse(body: &Vec<u8>) -> (r: Result<(Self, usize), ParseError>)
        ensures
            match r {
                Ok((f, c)) => Self::parse_spec(body@) == Some((f, c as int)) && c <= body@.len(),
                Err(e) => Self::parse_spec(body@) is None && e is Truncated,
            },
    {
        let n = body.len();
        if n < 52 {
            return Err(ParseError::Truncated { offset: 0, needed: 52, available: n });
        }
        Ok(
            (
                ObjectLocationFragment {
                    flags: read_u32(body, 0),
                    fragment1: read_u32(body, 4),
                    x_bits: read_u32(body, 8),
                    y_bits: read_u32(body, 12),
                    z_bits: read_u32(body, 16),
                    rotate_z_bits: read_u32(body, 20),
                    rotate_y_bits: read_u32(body, 24),
                    rotate_x_bits: read_u32(body, 28),
                    params1: read_u32(body, 32),
                    scale_y_bits: read_u32(body, 36),
                    scale_x_bits: read_u32(body, 40),
                    fragment2: read_u32(body, 44),
                    params2: read_u32(body, 48),
                },
                52,
            ),
        )
    }

    /// Serializes the body bytes.
    pub fn serialize(&self) -> (r: Vec<u8>)
        ensures
            r@ == self.bytes_of(),
    {
        let mut out: Vec<u8> = Vec::new();
        push_u32(&mut out, self.flags);
        push_u32(&mut out, self.fragment1);
        push_u32(&mut out, self.x_bits);
        push_u32(&mut out, self.y_bits);
        push_u32(&mut out, self.z_bits);
        push_u32(&mut out, self.rotate_z_bits);
        push_u32(&mut out, self.rotate_y_bits);
        push_u32(&mut out, self.rotate_x_bits);
        push_u32(&mut out, self.params1);
        push_u32(&mut out, self.scale_y_bits);
        push_u32(&mut out, self.scale_x_bits);
        push_u32(&mut out, self.fragment2);
        push_u32(&mut out, self.params2);
        assert(out@ =~= self.bytes_of());
        out
    }

    /// Round trip: parsing a serialized value (with any bytes after it)
    /// yields the value back, consuming exactly its own bytes.
    pub proof fn lemma_round_trip(self, tail: Seq<u8>)
        requires
            self.wf(),
        ensures
            Self::parse_spec(self.bytes_of() + tail) == Some(
                (self, self.bytes_of().len() as int),
            ),
    {
        lemma_le_bytes();
        let b = self.bytes_of() + tail;
        assert(b.subrange(0, 4) =~= u32_le(self.flags));
        assert(b.subrange(4, 8) =~= u32_le(self.fragment1));
        assert(b.subrange(8, 12) =~= u32_le(self.x_bits));
        assert(b.subrange(12, 16) =~= u32_le(self.y_bits));
        assert(b.subrange(16, 20) =~= u32_le(self.z_bits));
        assert(b.subrange(20, 24) =~= u32_le(self.rotate_z_bits));
        assert(b.subrange(24, 28) =~= u32_le(self.rotate_y_bits));
        assert(b.subrange(28, 32) =~= u32_le(self.rotate_x_bits));
        assert(b.subrange(32, 36) =~= u32_le(self.params1));
        assert(b.subrange(36, 40) =~= u32_le(self.scale_y_bits));
        assert(b.subrange(40, 44) =~= u32_le(self.scale_x_bits));
        assert(b.subrange(44, 48) =~= u32_le(self.fragment2));
        assert(b.subrange(48, 52) =~= u32_le(self.params2));
    }

    /// Byte identity: a parsed value serializes back to exactly the bytes
    /// that were consumed.
    pub proof fn lemma_parse_exact(b: Seq<u8>)
        ensures
            match Self::parse_spec(b) {
                Some((f, c)) => f.wf() && 0 <= c <= b.len() && f.bytes_of() == b.subrange(0, c),
                None => true,
            },
    {
        lemma_le_bytes();
        if Self::parse_spec(b) is Some {
            assert(b.subrange(0, 4) + b.subrange(4, 8) + b.subrange(8, 12) + b.subrange(12, 16)
                + b.subrange(16, 20) + b.subrange(20, 24) + b.subrange(24, 28) + b.subrange(28, 32)
                + b.subrange(32, 36) + b.subrange(36, 40) + b.subrange(40, 44) + b.subrange(44, 48)
                + b.subrange(48, 52) =~= b.subrange(0, 52));
        }
    }
}

} // verus!
