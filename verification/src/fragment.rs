//! The fragment type registry and record framer. A record is a length-framed,
//! type-tagged wrapper around a fragment body; the registry is a closed set
//! of known type ids, each dispatching to one parser and one serializer, and
//! any other id is preserved as an opaque fragment so unknown types still
//! round-trip byte-exactly. A parser that consumes fewer bytes than the
//! declared length is tolerated: the rest of the body is kept as trailing
//! data; one that would need more is a fatal malformed-input error.

use crate::bytes::{copy_range, lemma_le_bytes, lemma_subrange_of_subrange, push_u32, read_u32, u32_at, u32_le};
use crate::error::{ParseError, RefError};
use crate::mob_skeleton_piece_track_reference::{
    MobSkeletonPieceTrackReferenceFragment, MOB_SKELETON_PIECE_TRACK_REFERENCE_ID,
};
use crate::object_location::{ObjectLocationFragment, OBJECT_LOCATION_ID};
use crate::refs::{FragmentRef, StringReference};
use crate::skeleton_track_set_reference::{
    SkeletonTrackSetReferenceFragment, SKELETON_TRACK_SET_REFERENCE_ID,
};
use crate::texture_images::{
    lemma_texture_images_parse_exact, lemma_texture_images_round_trip, TextureImagesFragment,
    TextureImagesFragmentView, TEXTURE_IMAGES_ID,
};
use crate::unknown_0x34::{Unknown0x34Fragment, UNKNOWN_0X34_ID};
use crate::vertex_color_reference::{VertexColorReferenceFragment, VERTEX_COLOR_REFERENCE_ID};
use vstd::prelude::*;

verus! {

/// A fragment whose type id the registry does not know: the full body bytes
/// are preserved verbatim and replayed on serialization.
#[derive(Clone, Debug, PartialEq, Eq)]
pub struct OpaqueFragment {
    /// The unrecognized 32-bit type identifier.
    pub type_id: u32,
    /// The record's body bytes, kept exactly as read.
    pub body: Vec<u8>,
}

/// The mathematical value of an opaque fragment.
#[verifier::ext_equal]
pub struct OpaqueFragmentView {
    pub type_id: u32,
    pub body: Seq<u8>,
}

impl View for OpaqueFragment {
    type V = OpaqueFragmentView;

    open spec fn view(&self) -> OpaqueFragmentView {
        OpaqueFragmentView { type_id: self.type_id, body: self.body@ }
    }
}

/// The closed sum of fragment kinds the registry knows, plus the opaque
/// variant carrying any other record verbatim. Consumers pattern-match on the
/// variant instead of inspecting runtime types.
#[derive(Clone, Debug, PartialEq, Eq)]
pub enum Fragment {
    TextureImages(TextureImagesFragment),
    SkeletonTrackSetReference(SkeletonTrackSetReferenceFragment),
    MobSkeletonPieceTrackReference(MobSkeletonPieceTrackReferenceFragment),
    ObjectLocation(ObjectLocationFragment),
    VertexColorReference(VertexColorReferenceFragment),
    Unknown0x34(Unknown0x34Fragment),
    Opaque(OpaqueFragment),
}

/// The mathematical value of a fragment.
#[verifier::ext_equal]
pub enum FragmentView {
    TextureImages(TextureImagesFragmentView),
    SkeletonTrackSetReference(SkeletonTrackSetReferenceFragment),
    MobSkeletonPieceTrackReference(MobSkeletonPieceTrackReferenceFragment),
    ObjectLocation(ObjectLocationFragment),
    VertexColorReference(VertexColorReferenceFragment),
    Unknown0x34(Unknown0x34Fragment),
    Opaque(OpaqueFragmentView),
}

impl View for Fragment {
    type V = FragmentView;

    open spec fn view(&self) -> FragmentView {
        match self {
            Fragment::TextureImages(f) => FragmentView::TextureImages(f@),
            Fragment::SkeletonTrackSetReference(f) => FragmentView::SkeletonTrackSetReference(*f),
            Fragment::MobSkeletonPieceTrackReference(f) => FragmentView::MobSkeletonPieceTrackReference(
                *f,
            ),
            Fragment::ObjectLocation(f) => FragmentView::ObjectLocation(*f),
            Fragment::VertexColorReference(f) => FragmentView::VertexColorReference(*f),
            Fragment::Unknown0x34(f) => FragmentView::Unknown0x34(*f),
            Fragment::Opaque(f) => FragmentView::Opaque(f@),
        }
    }
}

/// True of the type ids the registry knows. Registration is static: this is
/// the whole set, fixed at build time.
pub open spec fn registered(type_id: u32) -> bool {
    ||| type_id == TEXTURE_IMAGES_ID
    ||| type_id == SKELETON_TRACK_SET_REFERENCE_ID
    ||| type_id == MOB_SKELETON_PIECE_TRACK_REFERENCE_ID
    ||| type_id == OBJECT_LOCATION_ID
    ||| type_id == VERTEX_COLOR_REFERENCE_ID
    ||| type_id == UNKNOWN_0X34_ID
}

/// No two registered kinds share a numeric id.
pub proof fn lemma_registry_ids_distinct()
    ensures
        TEXTURE_IMAGES_ID != SKELETON_TRACK_SET_REFERENCE_ID,
        TEXTURE_IMAGES_ID != MOB_SKELETON_PIECE_TRACK_REFERENCE_ID,
        TEXTURE_IMAGES_ID != OBJECT_LOCATION_ID,
        TEXTURE_IMAGES_ID != VERTEX_COLOR_REFERENCE_ID,
        TEXTURE_IMAGES_ID != UNKNOWN_0X34_ID,
        SKELETON_TRACK_SET_REFERENCE_ID != MOB_SKELETON_PIECE_TRACK_REFERENCE_ID,
        SKELETON_TRACK_SET_REFERENCE_ID != OBJECT_LOCATION_ID,
        SKELETON_TRACK_SET_REFERENCE_ID != VERTEX_COLOR_REFERENCE_ID,
        SKELETON_TRACK_SET_REFERENCE_ID != UNKNOWN_0X34_ID,
        MOB_SKELETON_PIECE_TRACK_REFERENCE_ID != OBJECT_LOCATION_ID,
        MOB_SKELETON_PIECE_TRACK_REFERENCE_ID != VERTEX_COLOR_REFERENCE_ID,
        MOB_SKELETON_PIECE_TRACK_REFERENCE_ID != UNKNOWN_0X34_ID,
        OBJECT_LOCATION_ID != VERTEX_COLOR_REFERENCE_ID,
        OBJECT_LOCATION_ID != UNKNOWN_0X34_ID,
        VERTEX_COLOR_REFERENCE_ID != UNKNOWN_0X34_ID,
{
}

/// The type id a fragment serializes under.
pub open spec fn fragment_type_id(f: FragmentView) -> u32 {
    match f {
        FragmentView::TextureImages(_) => TEXTURE_IMAGES_ID,
        FragmentView::SkeletonTrackSetReference(_) => SKELETON_TRACK_SET_REFERENCE_ID,
        FragmentView::MobSkeletonPieceTrackReference(_) => MOB_SKELETON_PIECE_TRACK_REFERENCE_ID,
        FragmentView::ObjectLocation(_) => OBJECT_LOCATION_ID,
        FragmentView::VertexColorReference(_) => VERTEX_COLOR_REFERENCE_ID,
        FragmentView::Unknown0x34(_) => UNKNOWN_0X34_ID,
        FragmentView::Opaque(o) => o.type_id,
    }
}

/// The fragment's name reference: the leading name for the kinds that carry
/// one, and the null reference for the legacy kinds (and opaque records) that
/// do not.
pub open spec fn fragment_name(f: FragmentView) -> StringReference {
    match f {
        FragmentView::TextureImages(t) => t.name_reference,
        FragmentView::SkeletonTrackSetReference(_) => StringReference(0),
        FragmentView::MobSkeletonPieceTrackReference(m) => m.name_reference,
        FragmentView::ObjectLocation(_) => StringReference(0),
        FragmentView::VertexColorReference(v) => v.name_reference,
        FragmentView::Unknown0x34(u) => u.name_reference,
        FragmentView::Opaque(_) => StringReference(0),
    }
}

/// A well-formed fragment: its kind's own invariant holds, and an opaque
/// fragment's id really is unregistered (parsing never produces another).
pub open spec fn fragment_wf(f: FragmentView) -> bool {
    match f {
        FragmentView::TextureImages(t) => t.wf(),
        FragmentView::SkeletonTrackSetReference(s) => s.wf(),
        FragmentView::MobSkeletonPieceTrackReference(m) => m.wf(),
        FragmentView::ObjectLocation(o) => o.wf(),
        FragmentView::VertexColorReference(v) => v.wf(),
        FragmentView::Unknown0x34(u) => u.wf(),
        FragmentView::Opaque(o) => !registered(o.type_id),
    }
}

/// The body bytes a fragment serializes to.
pub open spec fn fragment_bytes(f: FragmentView) -> Seq<u8> {
    match f {
        FragmentView::TextureImages(t) => t.bytes_of(),
        FragmentView::SkeletonTrackSetReference(s) => s.bytes_of(),
        FragmentView::MobSkeletonPieceTrackReference(m) => m.bytes_of(),
        FragmentView::ObjectLocation(o) => o.bytes_of(),
        FragmentView::VertexColorReference(v) => v.bytes_of(),
        FragmentView::Unknown0x34(u) => u.bytes_of(),
        FragmentView::Opaque(o) => o.body,
    }
}

/// Registry dispatch on a record body: a registered id goes to its kind's
/// parser; any other id yields an opaque fragment holding the whole body.
pub open spec fn parse_body_spec(type_id: u32, b: Seq<u8>) -> Option<(FragmentView, int)> {
    if type_id == TEXTURE_IMAGES_ID {
        match TextureImagesFragmentView::parse_spec(b) {
            Some((f, c)) => Some((FragmentView::TextureImages(f), c)),
            None => None,
        }
    } else if type_id == SKELETON_TRACK_SET_REFERENCE_ID {
        match SkeletonTrackSetReferenceFragment::parse_spec(b) {
            Some((f, c)) => Some((FragmentView::SkeletonTrackSetReference(f), c)),
            None => None,
        }
    } else if type_id == MOB_SKELETON_PIECE_TRACK_REFERENCE_ID {
        match MobSkeletonPieceTrackReferenceFragment::parse_spec(b) {
            Some((f, c)) => Some((FragmentView::MobSkeletonPieceTrackReference(f), c)),
            None => None,
        }
    } else if type_id == OBJECT_LOCATION_ID {
        match ObjectLocationFragment::parse_spec(b) {
            Some((f, c)) => Some((FragmentView::ObjectLocation(f), c)),
            None => None,
        }
    } else if type_id == VERTEX_COLOR_REFERENCE_ID {
        match VertexColorReferenceFragment::parse_spec(b) {
            Some((f, c)) => Some((FragmentView::VertexColorReference(f), c)),
            None => None,
        }
    } else if type_id == UNKNOWN_0X34_ID {
        match Unknown0x34Fragment::parse_spec(b) {
            Some((f, c)) => Some((FragmentView::Unknown0x34(f), c)),
            None => None,
        }
    } else {
        Some((FragmentView::Opaque(OpaqueFragmentView { type_id, body: b }), b.len() as int))
    }
}

/// Byte identity for the registry: a parsed fragment is well formed, carries
/// the id it was dispatched on, and serializes back to exactly the consumed
/// prefix; an unregistered id always parses, to an opaque fragment holding
/// the whole body.
pub proof fn lemma_fragment_parse_exact(type_id: u32, b: Seq<u8>)
    ensures
        match parse_body_spec(type_id, b) {
            Some((f, c)) => fragment_wf(f) && 0 <= c <= b.len() && fragment_bytes(f) == b.subrange(
                0,
                c,
            ) && fragment_type_id(f) == type_id && ((f is Opaque) ==> c == b.len()),
            None => registered(type_id),
        },
{
    if type_id == TEXTURE_IMAGES_ID {
        lemma_texture_images_parse_exact(b);
    } else if type_id == SKELETON_TRACK_SET_REFERENCE_ID {
        SkeletonTrackSetReferenceFragment::lemma_parse_exact(b);
    } else if type_id == MOB_SKELETON_PIECE_TRACK_REFERENCE_ID {
        MobSkeletonPieceTrackReferenceFragment::lemma_parse_exact(b);
    } else if type_id == OBJECT_LOCATION_ID {
        ObjectLocationFragment::lemma_parse_exact(b);
    } else if type_id == VERTEX_COLOR_REFERENCE_ID {
        VertexColorReferenceFragment::lemma_parse_exact(b);
    } else if type_id == UNKNOWN_0X34_ID {
        Unknown0x34Fragment::lemma_parse_exact(b);
    } else {
        assert(b.subrange(0, b.len() as int) =~= b);
    }
}

/// Round trip for the registry: parsing what a well-formed fragment
/// serializes to (with any bytes after it, none for an opaque fragment)
/// yields the fragment back, consuming exactly its own bytes.
pub proof fn lemma_fragment_round_trip(f: FragmentView, tail: Seq<u8>)
    requires
        fragment_wf(f),
        f is Opaque ==> tail.len() == 0,
    ensures
        parse_body_spec(fragment_type_id(f), fragment_bytes(f) + tail) == Some(
            (f, fragment_bytes(f).len() as int),
        ),
{
    match f {
        FragmentView::TextureImages(t) => lemma_texture_images_round_trip(t, tail),
        FragmentView::SkeletonTrackSetReference(s) => s.lemma_round_trip(tail),
        FragmentView::MobSkeletonPieceTrackReference(m) => m.lemma_round_trip(tail),
        FragmentView::ObjectLocation(o) => o.lemma_round_trip(tail),
        FragmentView::VertexColorReference(v) => v.lemma_round_trip(tail),
        FragmentView::Unknown0x34(u) => u.lemma_round_trip(tail),
        FragmentView::Opaque(o) => {
            assert(o.body + tail =~= o.body);
            assert(FragmentView::Opaque(
                OpaqueFragmentView { type_id: o.type_id, body: o.body + tail },
            ) =~= f);
        },
    }
}

/// Unknown-type survival: a body with an unregistered type id always parses,
/// into an opaque fragment whose serialized bytes equal the original body
/// bytes exactly.
pub proof fn lemma_unknown_type_survival(type_id: u32, b: Seq<u8>)
    requires
        !registered(type_id),
    ensures
        parse_body_spec(type_id, b) == Some(
            (
                FragmentView::Opaque(OpaqueFragmentView { type_id, body: b }),
                b.len() as int,
            ),
        ),
        fragment_bytes(FragmentView::Opaque(OpaqueFragmentView { type_id, body: b })) == b,
{
}

/// Dispatches a record body to the registered parser for `type_id`, or
/// preserves it verbatim as an opaque fragment when the id is unregistered.
/// Fails exactly when a registered parser needs more bytes than the body
/// holds.
pub fn parse_body(type_id: u32, body: &Vec<u8>) -> (r: Result<(Fragment, usize), ParseError>)
    ensures
        match r {
            Ok((f, c)) => parse_body_spec(type_id, body@) == Some((f@, c as int)) && c
                <= body@.len() && fragment_wf(f@),
            Err(e) => parse_body_spec(type_id, body@) is None && e is Truncated,
        },
{
    proof {
        lemma_fragment_parse_exact(type_id, body@);
    }
    if type_id == TEXTURE_IMAGES_ID {
        match TextureImagesFragment::parse(body) {
            Ok((f, c)) => Ok((Fragment::TextureImages(f), c)),
            Err(e) => Err(e),
        }
    } else if type_id == SKELETON_TRACK_SET_REFERENCE_ID {
        match SkeletonTrackSetReferenceFragment::parse(body) {
            Ok((f, c)) => Ok((Fragment::SkeletonTrackSetReference(f), c)),
            Err(e) => Err(e),
        }
    } else if type_id == MOB_SKELETON_PIECE_TRACK_REFERENCE_ID {
        match MobSkeletonPieceTrackReferenceFragment::parse(body) {
            Ok((f, c)) => Ok((Fragment::MobSkeletonPieceTrackReference(f), c)),
            Err(e) => Err(e),
        }
    } else if type_id == OBJECT_LOCATION_ID {
        match ObjectLocationFragment::parse(body) {
            Ok((f, c)) => Ok((Fragment::ObjectLocation(f), c)),
            Err(e) => Err(e),
        }
    } else if type_id == VERTEX_COLOR_REFERENCE_ID {
        match VertexColorReferenceFragment::parse(body) {
            Ok((f, c)) => Ok((Fragment::VertexColorReference(f), c)),
            Err(e) => Err(e),
        }
    } else if type_id == UNKNOWN_0X34_ID {
        match Unknown0x34Fragment::parse(body) {
            Ok((f, c)) => Ok((Fragment::Unknown0x34(f), c)),
            Err(e) => Err(e),
        }
    } else {
        let n = body.len();
        let copy = copy_range(body, 0, n);
        proof {
            assert(body@.subrange(0, body@.len() as int) =~= body@);
        }
        Ok((Fragment::Opaque(OpaqueFragment { type_id, body: copy }), n))
    }
}

/// The registry's diagnostic name for a type id; `None` exactly when the id
/// is unregistered.
pub fn kind_name(type_id: u32) -> (r: Option<&'static str>)
    ensures
        r is Some <==> registered(type_id),
{
    if type_id == TEXTURE_IMAGES_ID {
        Some("TextureImages")
    } else if type_id == SKELETON_TRACK_SET_REFERENCE_ID {
        Some("SkeletonTrackSetReference")
    } else if type_id == MOB_SKELETON_PIECE_TRACK_REFERENCE_ID {
        Some("MobSkeletonPieceTrackReference")
    } else if type_id == OBJECT_LOCATION_ID {
        Some("ObjectLocation")
    } else if type_id == VERTEX_COLOR_REFERENCE_ID {
        Some("VertexColorReference")
    } else if type_id == UNKNOWN_0X34_ID {
        Some("Unknown0x34")
    } else {
        None
    }
}

impl Fragment {
    /// The 32-bit type identifier this fragment serializes under.
    pub fn type_id(&self) -> (t: u32)
        ensures
            t == fragment_type_id(self@),
    {
        match self {
            Fragment::TextureImages(_) => TEXTURE_IMAGES_ID,
            Fragment::SkeletonTrackSetReference(_) => SKELETON_TRACK_SET_REFERENCE_ID,
            Fragment::MobSkeletonPieceTrackReference(_) => MOB_SKELETON_PIECE_TRACK_REFERENCE_ID,
            Fragment::ObjectLocation(_) => OBJECT_LOCATION_ID,
            Fragment::VertexColorReference(_) => VERTEX_COLOR_REFERENCE_ID,
            Fragment::Unknown0x34(_) => UNKNOWN_0X34_ID,
            Fragment::Opaque(o) => o.type_id,
        }
    }

    /// The fragment's name reference (the null reference for kinds without
    /// one).
    pub fn name_ref(&self) -> (r: StringReference)
        ensures
            r == fragment_name(self@),
    {
        match self {
            Fragment::TextureImages(f) => f.name_reference,
            Fragment::SkeletonTrackSetReference(_) => StringReference(0),
            Fragment::MobSkeletonPieceTrackReference(f) => f.name_reference,
            Fragment::ObjectLocation(_) => StringReference(0),
            Fragment::VertexColorReference(f) => f.name_reference,
            Fragment::Unknown0x34(f) => f.name_reference,
            Fragment::Opaque(_) => StringReference(0),
        }
    }

    /// Serializes the fragment's body bytes; an opaque fragment replays its
    /// stored bytes verbatim.
    pub fn serialize(&self) -> (r: Vec<u8>)
        ensures
            r@ == fragment_bytes(self@),
    {
        match self {
            Fragment::TextureImages(f) => f.serialize(),
            Fragment::SkeletonTrackSetReference(f) => f.serialize(),
            Fragment::MobSkeletonPieceTrackReference(f) => f.serialize(),
            Fragment::ObjectLocation(f) => f.serialize(),
            Fragment::VertexColorReference(f) => f.serialize(),
            Fragment::Unknown0x34(f) => f.serialize(),
            Fragment::Opaque(o) => {
                let n = o.body.len();
                let r = copy_range(&o.body, 0, n);
                proof {
                    assert(o.body@.subrange(0, o.body@.len() as int) =~= o.body@);
                }
                r
            },
        }
    }
}

impl FragmentRef {
    /// Resolves this reference against the finished fragment list: the null
    /// reference resolves to no fragment; a positive index `N` resolves to
    /// the `N`th fragment (1-based); an index past the end of the list or a
    /// negative index is a resolution-time error, never a panic.
    pub fn resolve<'a>(&self, list: &'a Vec<Fragment>) -> (r: Result<
        Option<&'a Fragment>,
        RefError,
    >)
        ensures
            self.0 == 0 ==> r matches Ok(None),
            0 < self.0 <= list@.len() ==> (r matches Ok(Some(f)) && *f == list@[self.0 - 1]),
            self.0 < 0 ==> r == Err::<Option<&'a Fragment>, RefError>(
                RefError::NegativeIndex { index: self.0 },
            ),
            self.0 > list@.len() ==> r == Err::<Option<&'a Fragment>, RefError>(
                RefError::OutOfRange { index: self.0, len: list@.len() as usize },
            ),
    {
        let n = list.len();
        if self.0 == 0 {
            Ok(None)
        } else if self.0 < 0 {
            Err(RefError::NegativeIndex { index: self.0 })
        } else {
            let idx = self.0 as usize;
            if idx > n {
                Err(RefError::OutOfRange { index: self.0, len: n })
            } else {
                Ok(Some(&list[idx - 1]))
            }
        }
    }

    /// Resolves as `resolve` does, and additionally demands that the target
    /// fragment's type id be `expected`; a mismatch is its own resolution
    /// error, never a silent coercion.
    pub fn resolve_typed<'a>(&self, list: &'a Vec<Fragment>, expected: u32) -> (r: Result<
        Option<&'a Fragment>,
        RefError,
    >)
        ensures
            self.0 == 0 ==> r matches Ok(None),
            0 < self.0 <= list@.len() && fragment_type_id(list@[self.0 - 1]@) == expected ==> (
            r matches Ok(Some(f)) && *f == list@[self.0 - 1]),
            0 < self.0 <= list@.len() && fragment_type_id(list@[self.0 - 1]@) != expected ==> r
                == Err::<Option<&'a Fragment>, RefError>(
                RefError::WrongType {
                    expected,
                    found: fragment_type_id(list@[self.0 - 1]@),
                },
            ),
            self.0 < 0 ==> r == Err::<Option<&'a Fragment>, RefError>(
                RefError::NegativeIndex { index: self.0 },
            ),
            self.0 > list@.len() ==> r == Err::<Option<&'a Fragment>, RefError>(
                RefError::OutOfRange { index: self.0, len: list@.len() as usize },
            ),
    {
        match self.resolve(list) {
            Err(e) => Err(e),
            Ok(None) => Ok(None),
            Ok(Some(f)) => {
                let found = f.type_id();
                if found == expected {
                    Ok(Some(f))
                } else {
                    Err(RefError::WrongType { expected, found })
                }
            },
        }
    }
}

/// One framed record: the parsed fragment, plus any body bytes the type's
/// parser did not consume, kept so the record still serializes byte-exactly.
#[derive(Clone, Debug, PartialEq, Eq)]
pub struct FragmentRecord {
    /// The parsed (or opaque) fragment.
    pub fragment: Fragment,
    /// Body bytes after what the parser consumed, replayed on serialization.
    pub trailing: Vec<u8>,
}

/// The mathematical value of a framed record.
#[verifier::ext_equal]
pub struct FragmentRecordView {
    pub fragment: FragmentView,
    pub trailing: Seq<u8>,
}

impl View for FragmentRecord {
    type V = FragmentRecordView;

    open spec fn view(&self) -> FragmentRecordView {
        FragmentRecordView { fragment: self.fragment@, trailing: self.trailing@ }
    }
}

/// A well-formed record: its fragment is well formed, the framed body length
/// fits the 32-bit length field, and an opaque fragment (which already holds
/// its whole body) carries no separate trailing bytes.
pub open spec fn record_wf(r: FragmentRecordView) -> bool {
    &&& fragment_wf(r.fragment)
    &&& fragment_bytes(r.fragment).len() + r.trailing.len() <= u32::MAX
    &&& (r.fragment is Opaque ==> r.trailing.len() == 0)
}

/// The bytes a record serializes to: the body length, the type id, the
/// fragment's bytes, then the trailing bytes.
pub open spec fn record_bytes(r: FragmentRecordView) -> Seq<u8> {
    u32_le((fragment_bytes(r.fragment).len() + r.trailing.len()) as u32) + u32_le(
        fragment_type_id(r.fragment),
    ) + fragment_bytes(r.fragment) + r.trailing
}

/// Reading one record at offset `pos` of `b`: a 32-bit body length, a 32-bit
/// type id, then exactly that many body bytes handed to the registry; body
/// bytes the dispatched parser leaves over become the record's trailing data.
pub open spec fn parse_record_at(b: Seq<u8>, pos: int) -> Option<(FragmentRecordView, int)> {
    if 0 <= pos && pos + 8 <= b.len() {
        let l = u32_at(b, pos) as int;
        let t = u32_at(b, pos + 4);
        if pos + 8 + l <= b.len() {
            let body = b.subrange(pos + 8, pos + 8 + l);
            match parse_body_spec(t, body) {
                None => None,
                Some((f, c)) => Some(
                    (
                        FragmentRecordView { fragment: f, trailing: body.subrange(c, l) },
                        pos + 8 + l,
                    ),
                ),
            }
        } else {
            None
        }
    } else {
        None
    }
}

/// Byte identity of one record: a parsed record is well formed and
/// serializes back to exactly the bytes that were consumed.
pub proof fn lemma_record_parse_exact(b: Seq<u8>, pos: int)
    ensures
        match parse_record_at(b, pos) {
            Some((r, p)) => record_wf(r) && 0 <= pos && pos + 8 <= p <= b.len() && record_bytes(r)
                == b.subrange(pos, p),
            None => true,
        },
{
    lemma_le_bytes();
    if parse_record_at(b, pos) is Some {
        let l = u32_at(b, pos) as int;
        let t = u32_at(b, pos + 4);
        let body = b.subrange(pos + 8, pos + 8 + l);
        lemma_fragment_parse_exact(t, body);
        match parse_body_spec(t, body) {
            None => (),
            Some((f, c)) => {
                let fb = fragment_bytes(f);
                let tr = body.subrange(c, l);
                assert(fb.len() + tr.len() == l);
                assert(u32_le((fb.len() + tr.len()) as u32) == u32_le(u32_at(b, pos)));
                assert(u32_le(u32_at(b, pos)) == b.subrange(pos, pos + 4));
                assert(u32_le(u32_at(b, pos + 4)) == b.subrange(pos + 4, pos + 8));
                lemma_subrange_of_subrange(b, pos + 8, pos + 8 + l, 0, c);
                lemma_subrange_of_subrange(b, pos + 8, pos + 8 + l, c, l);
                assert(b.subrange(pos, pos + 4) + b.subrange(pos + 4, pos + 8) + b.subrange(
                    pos + 8,
                    pos + 8 + c,
                ) + b.subrange(pos + 8 + c, pos + 8 + l) =~= b.subrange(pos, pos + 8 + l));
            },
        }
    }
}

/// Round trip of one record found at `pos`: parsing the bytes a well-formed
/// record serializes to yields the record back.
pub proof fn lemma_record_round_trip(r: FragmentRecordView, b: Seq<u8>, pos: int)
    requires
        record_wf(r),
        0 <= pos,
        pos + record_bytes(r).len() <= b.len(),
        b.subrange(pos, pos + record_bytes(r).len()) == record_bytes(r),
    ensures
        parse_record_at(b, pos) == Some((r, pos + record_bytes(r).len())),
{
    lemma_le_bytes();
    let rb = record_bytes(r);
    let fb = fragment_bytes(r.fragment);
    let l = fb.len() + r.trailing.len();
    assert(rb.len() == 8 + l);
    crate::bytes::lemma_subrange_eq_sub(b, pos, rb, 0, 4);
    assert(rb.subrange(0, 4) =~= u32_le((l as u32)));
    assert(u32_at(b, pos) == l as u32);
    assert(u32_at(b, pos) as int == l);
    crate::bytes::lemma_subrange_eq_sub(b, pos, rb, 4, 8);
    assert(rb.subrange(4, 8) =~= u32_le(fragment_type_id(r.fragment)));
    assert(u32_at(b, pos + 4) == fragment_type_id(r.fragment));
    crate::bytes::lemma_subrange_eq_sub(b, pos, rb, 8, 8 + l as int);
    let body = b.subrange(pos + 8, pos + 8 + l as int);
    assert(rb.subrange(8, 8 + l as int) =~= fb + r.trailing);
    assert(body == fb + r.trailing);
    lemma_fragment_round_trip(r.fragment, r.trailing);
    assert(body.subrange(fb.len() as int, l as int) =~= r.trailing);
    let parsed = FragmentRecordView {
        fragment: r.fragment,
        trailing: body.subrange(fb.len() as int, l as int),
    };
    assert(parsed =~= r);
}

/// Parses the record at offset `pos` of `data`. Fails exactly when the
/// framing is truncated, the declared body length exceeds the remaining
/// bytes, or the dispatched parser needs more bytes than the body holds.
pub fn parse_record(data: &Vec<u8>, pos: usize) -> (r: Result<(FragmentRecord, usize), ParseError>)
    requires
        pos <= data@.len(),
    ensures
        match r {
            Ok((rec, p)) => parse_record_at(data@, pos as int) == Some((rec@, p as int)) && pos < p
                <= data@.len() && record_wf(rec@),
            Err(e) => parse_record_at(data@, pos as int) is None && e is Truncated,
        },
{
    let n = data.len();
    if n - pos < 8 {
        return Err(ParseError::Truncated { offset: pos, needed: 8, available: n - pos });
    }
    let l32 = read_u32(data, pos);
    let t = read_u32(data, pos + 4);
    let l = l32 as usize;
    if n - (pos + 8) < l {
        return Err(ParseError::Truncated { offset: pos + 8, needed: l, available: n - pos - 8 });
    }
    let body = copy_range(data, pos + 8, pos + 8 + l);
    proof {
        lemma_record_parse_exact(data@, pos as int);
    }
    match parse_body(t, &body) {
        Err(e) => Err(e),
        Ok((f, c)) => {
            let bl = body.len();
            let trailing = copy_range(&body, c, bl);
            Ok((FragmentRecord { fragment: f, trailing }, pos + 8 + l))
        },
    }
}

/// Serializes one record onto `out`: body length, type id, fragment bytes,
/// trailing bytes.
pub fn serialize_record_into(out: &mut Vec<u8>, rec: &FragmentRecord)
    requires
        fragment_bytes(rec@.fragment).len() + rec@.trailing.len() <= u32::MAX,
    ensures
        final(out)@ == old(out)@ + record_bytes(rec@),
{
    let body = rec.fragment.serialize();
    let blen: u64 = body.len() as u64 + rec.trailing.len() as u64;
    push_u32(out, blen as u32);
    let t = rec.fragment.type_id();
    push_u32(out, t);
    let mut body_mut = body;
    out.append(&mut body_mut);
    let mut i: usize = 0;
    let tn = rec.trailing.len();
    let ghost mid = out@;
    while i < tn
        invariant
            i <= tn == rec.trailing@.len(),
            out@ == mid + rec.trailing@.subrange(0, i as int),
        decreases tn - i,
    {
        out.push(rec.trailing[i]);
        assert(out@ =~= mid + rec.trailing@.subrange(0, i + 1));
        i = i + 1;
    }
    proof {
        assert(rec.trailing@.subrange(0, rec.trailing@.len() as int) =~= rec.trailing@);
        assert(out@ =~= old(out)@ + record_bytes(rec@));
    }
}

} // verus!
