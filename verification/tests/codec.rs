//! End-to-end tests of the container codec: pool resolution, reference
//! resolution, the flag-gated and entry-count idioms, unknown-type
//! passthrough, and byte-exact round trips of whole files.

use wld_codec::container::{parse, Container, CONTAINER_MAGIC};
use wld_codec::error::{ParseError, RefError};
use wld_codec::fragment::{kind_name, Fragment, FragmentRecord, OpaqueFragment};
use wld_codec::mob_skeleton_piece_track_reference::MobSkeletonPieceTrackReferenceFragment;
use wld_codec::object_location::ObjectLocationFragment;
use wld_codec::refs::{FragmentRef, StringReference};
use wld_codec::skeleton_track_set_reference::SkeletonTrackSetReferenceFragment;
use wld_codec::string_pool::StringPool;
use wld_codec::texture_images::{TextureImagesFragment, TextureImagesFragmentEntry};
use wld_codec::unknown_0x34::Unknown0x34Fragment;
use wld_codec::vertex_color_reference::VertexColorReferenceFragment;

const KEY: [u8; 8] = [0x95, 0x3a, 0xc5, 0x2a, 0x95, 0x7a, 0x95, 0x6a];

fn xor(data: &[u8]) -> Vec<u8> {
    data.iter().enumerate().map(|(i, b)| b ^ KEY[i % 8]).collect()
}

fn le_u32(x: u32) -> Vec<u8> {
    x.to_le_bytes().to_vec()
}

fn le_i32(x: i32) -> Vec<u8> {
    x.to_le_bytes().to_vec()
}

fn le_u16(x: u16) -> Vec<u8> {
    x.to_le_bytes().to_vec()
}

fn record(type_id: u32, body: &[u8]) -> Vec<u8> {
    let mut out = le_u32(body.len() as u32);
    out.extend_from_slice(&le_u32(type_id));
    out.extend_from_slice(body);
    out
}

fn container_file(version: u32, pool_plain: &[u8], records: &[Vec<u8>]) -> Vec<u8> {
    let mut out = le_u32(CONTAINER_MAGIC);
    out.extend_from_slice(&le_u32(version));
    out.extend_from_slice(&le_u32(records.len() as u32));
    out.extend_from_slice(&le_u32(pool_plain.len() as u32));
    out.extend_from_slice(&xor(pool_plain));
    for r in records {
        out.extend_from_slice(r);
    }
    out
}

fn mob_body(name: i32, reference: i32, flags: u32, params1: Option<u32>) -> Vec<u8> {
    let mut b = le_i32(name);
    b.extend_from_slice(&le_i32(reference));
    b.extend_from_slice(&le_u32(flags));
    if let Some(p) = params1 {
        b.extend_from_slice(&le_u32(p));
    }
    b
}

fn texture_body(name: i32, size1: u32, names: &[&[u8]]) -> Vec<u8> {
    let mut b = le_i32(name);
    b.extend_from_slice(&le_u32(size1));
    for n in names {
        b.extend_from_slice(&le_u16(n.len() as u16));
        b.extend_from_slice(&xor(n));
    }
    b
}

#[test]
fn pool_resolve_zero_is_empty() {
    let raw = xor(b"abc\0def\0");
    let pool = StringPool::decode(&raw);
    assert_eq!(pool.resolve(0), Vec::<u8>::new());
    assert_eq!(pool.resolve_string(0), "");
}

#[test]
fn pool_resolve_negative_offset() {
    let raw = xor(b"abc\0def\0");
    let pool = StringPool::decode(&raw);
    assert_eq!(pool.resolve(-4), b"def".to_vec());
    assert_eq!(pool.resolve_string(-4), "def");
    assert_eq!(pool.resolve(-1), b"bc".to_vec());
    assert_eq!(pool.resolve_string(-1), "bc");
}

#[test]
fn pool_boundary_offsets_resolve_empty_and_flag() {
    let raw = xor(b"abc\0def\0");
    let pool = StringPool::decode(&raw);
    let (bytes, flagged) = pool.resolve_checked(5);
    assert_eq!(bytes, Vec::<u8>::new());
    assert!(flagged);
    let (bytes, flagged) = pool.resolve_checked(-100);
    assert_eq!(bytes, Vec::<u8>::new());
    assert!(flagged);
    let (bytes, flagged) = pool.resolve_checked(0);
    assert_eq!(bytes, Vec::<u8>::new());
    assert!(!flagged);
    let (bytes, flagged) = pool.resolve_checked(-4);
    assert_eq!(bytes, b"def".to_vec());
    assert!(!flagged);
    let (bytes, flagged) = pool.resolve_checked(i32::MIN);
    assert_eq!(bytes, Vec::<u8>::new());
    assert!(flagged);
}

#[test]
fn pool_encode_reproduces_raw_blob() {
    let raw = xor(b"hello\0world\0");
    let pool = StringPool::decode(&raw);
    assert_eq!(pool.encode(), raw);
    assert_eq!(pool.len(), raw.len());
}

#[test]
fn fragment_ref_null_resolves_to_none() {
    let list = vec![
        Fragment::SkeletonTrackSetReference(SkeletonTrackSetReferenceFragment {
            reference: FragmentRef(0),
            params1: 0,
        }),
    ];
    assert!(matches!(FragmentRef(0).resolve(&list), Ok(None)));
}

#[test]
fn fragment_ref_resolves_one_based() {
    let first = Fragment::SkeletonTrackSetReference(SkeletonTrackSetReferenceFragment {
        reference: FragmentRef(0),
        params1: 7,
    });
    let second = Fragment::VertexColorReference(VertexColorReferenceFragment {
        name_reference: StringReference(0),
        reference: FragmentRef(1),
        flags: 0,
    });
    let list = vec![first.clone(), second.clone()];
    assert_eq!(FragmentRef(1).resolve(&list).unwrap(), Some(&first));
    assert_eq!(FragmentRef(2).resolve(&list).unwrap(), Some(&second));
}

#[test]
fn fragment_ref_out_of_range_is_error_not_panic() {
    let list = vec![
        Fragment::SkeletonTrackSetReference(SkeletonTrackSetReferenceFragment {
            reference: FragmentRef(0),
            params1: 0,
        }),
    ];
    assert_eq!(
        FragmentRef(2).resolve(&list),
        Err(RefError::OutOfRange { index: 2, len: 1 })
    );
    assert_eq!(
        FragmentRef(-3).resolve(&list),
        Err(RefError::NegativeIndex { index: -3 })
    );
}

#[test]
fn fragment_ref_typed_mismatch_is_wrong_type() {
    let list = vec![
        Fragment::SkeletonTrackSetReference(SkeletonTrackSetReferenceFragment {
            reference: FragmentRef(0),
            params1: 0,
        }),
    ];
    assert_eq!(
        FragmentRef(1).resolve_typed(&list, 0x33),
        Err(RefError::WrongType { expected: 0x33, found: 0x11 })
    );
    assert!(matches!(FragmentRef(1).resolve_typed(&list, 0x11), Ok(Some(_))));
    assert!(matches!(FragmentRef(0).resolve_typed(&list, 0x33), Ok(None)));
}

#[test]
fn mob_flags_clear_params_absent() {
    let body = mob_body(0, 3, 0x00, None);
    let (frag, consumed) = MobSkeletonPieceTrackReferenceFragment::parse(&body).unwrap();
    assert_eq!(consumed, 12);
    assert_eq!(frag.flags, 0x00);
    assert_eq!(frag.params1, None);
    assert_eq!(frag.reference, FragmentRef(3));
}

#[test]
fn mob_flags_set_params_present_and_reemitted() {
    let body = mob_body(-2, 3, 0x01, Some(7));
    let (frag, consumed) = MobSkeletonPieceTrackReferenceFragment::parse(&body).unwrap();
    assert_eq!(consumed, 16);
    assert_eq!(frag.params1, Some(7));
    let out = frag.serialize();
    assert_eq!(out.len(), 16);
    assert_eq!(out[8] & 1, 1);
    assert_eq!(&out[12..16], &7u32.to_le_bytes());
    assert_eq!(out, body);
}

#[test]
fn mob_flags_set_but_body_truncated_is_error() {
    let body = mob_body(0, 3, 0x01, None);
    assert!(matches!(
        MobSkeletonPieceTrackReferenceFragment::parse(&body),
        Err(ParseError::Truncated { .. })
    ));
}

#[test]
fn mob_value_round_trip() {
    let frag = MobSkeletonPieceTrackReferenceFragment {
        name_reference: StringReference(-9),
        reference: FragmentRef(4),
        flags: 0x05,
        params1: Some(9),
    };
    let (back, consumed) =
        MobSkeletonPieceTrackReferenceFragment::parse(&frag.serialize()).unwrap();
    assert_eq!(back, frag);
    assert_eq!(consumed, 16);
}

#[test]
fn texture_one_entry_decodes_filename() {
    let body = texture_body(-1, 1, &[b"fire1.bmp"]);
    let (frag, consumed) = TextureImagesFragment::parse(&body).unwrap();
    assert_eq!(consumed, body.len());
    assert_eq!(frag.size1, 1);
    assert_eq!(frag.entries.len(), 1);
    assert_eq!(frag.entries[0].name_length, 9);
    assert_eq!(frag.entries[0].file_name, b"fire1.bmp".to_vec());
}

#[test]
fn texture_two_entries_parse_sequentially() {
    let body = texture_body(0, 2, &[b"a.bmp", b"grass.bmp"]);
    let (frag, consumed) = TextureImagesFragment::parse(&body).unwrap();
    assert_eq!(consumed, body.len());
    assert_eq!(frag.entries.len(), 2);
    assert_eq!(frag.entries[0].file_name, b"a.bmp".to_vec());
    assert_eq!(frag.entries[1].file_name, b"grass.bmp".to_vec());
}

#[test]
fn texture_declared_count_short_of_bytes_is_error() {
    let body = texture_body(0, 2, &[b"a.bmp"]);
    assert!(matches!(
        TextureImagesFragment::parse(&body),
        Err(ParseError::Truncated { .. })
    ));
}

#[test]
fn texture_serialize_reencodes_filename() {
    let entry = TextureImagesFragmentEntry { name_length: 5, file_name: b"a.bmp".to_vec() };
    let out = entry.serialize();
    let mut expected = le_u16(5);
    expected.extend_from_slice(&xor(b"a.bmp"));
    assert_eq!(out, expected);
    assert_ne!(&out[2..], b"a.bmp");
}

#[test]
fn texture_value_round_trip() {
    let frag = TextureImagesFragment {
        name_reference: StringReference(-16),
        size1: 1,
        entries: vec![TextureImagesFragmentEntry {
            name_length: 9,
            file_name: b"fire1.bmp".to_vec(),
        }],
    };
    let (back, _) = TextureImagesFragment::parse(&frag.serialize()).unwrap();
    assert_eq!(back, frag);
}

#[test]
fn skeleton_track_set_reference_round_trip() {
    let body = {
        let mut b = le_i32(6);
        b.extend_from_slice(&le_u32(0));
        b
    };
    let (frag, consumed) = SkeletonTrackSetReferenceFragment::parse(&body).unwrap();
    assert_eq!(consumed, 8);
    assert_eq!(frag.reference, FragmentRef(6));
    assert_eq!(frag.params1, 0);
    assert_eq!(frag.serialize(), body);
}

#[test]
fn vertex_color_reference_round_trip() {
    let frag = VertexColorReferenceFragment {
        name_reference: StringReference(0),
        reference: FragmentRef(2),
        flags: 0,
    };
    let (back, consumed) = VertexColorReferenceFragment::parse(&frag.serialize()).unwrap();
    assert_eq!(consumed, 12);
    assert_eq!(back, frag);
}

#[test]
fn object_location_round_trip_preserves_float_bits() {
    let mut body = Vec::new();
    for v in [
        0x32Eu32,
        0,
        0x42C80000, // 100.0 as bits
        0x3F800000, // 1.0 as bits
        0xC2C80000, // -100.0 as bits
        0,
        0,
        0,
        0,
        0x3F000000, // 0.5 as bits
        0x3F000000,
        0,
        30,
    ] {
        body.extend_from_slice(&le_u32(v));
    }
    let (frag, consumed) = ObjectLocationFragment::parse(&body).unwrap();
    assert_eq!(consumed, 52);
    assert_eq!(frag.flags, 0x32E);
    assert_eq!(frag.x_bits, 0x42C80000);
    assert_eq!(frag.z_bits, 0xC2C80000);
    assert_eq!(frag.params2, 30);
    assert_eq!(frag.serialize(), body);
}

#[test]
fn unknown_0x34_parses_name_only() {
    let body = le_i32(-5);
    let (frag, consumed) = Unknown0x34Fragment::parse(&body).unwrap();
    assert_eq!(consumed, 4);
    assert_eq!(frag.name_reference, StringReference(-5));
    assert_eq!(frag.serialize(), body);
}

#[test]
fn registry_kind_names() {
    assert_eq!(kind_name(0x03), Some("TextureImages"));
    assert_eq!(kind_name(0x11), Some("SkeletonTrackSetReference"));
    assert_eq!(kind_name(0x13), Some("MobSkeletonPieceTrackReference"));
    assert_eq!(kind_name(0x15), Some("ObjectLocation"));
    assert_eq!(kind_name(0x33), Some("VertexColorReference"));
    assert_eq!(kind_name(0x34), Some("Unknown0x34"));
    assert_eq!(kind_name(0x99), None);
}

#[test]
fn unknown_type_id_survives_as_opaque() {
    let body = vec![1u8, 2, 3, 4, 5];
    let file = container_file(1, b"", &[record(0x99, &body)]);
    let container = parse(&file).unwrap();
    match container.fragment(0).unwrap() {
        Fragment::Opaque(o) => {
            assert_eq!(o.type_id, 0x99);
            assert_eq!(o.body, body);
        }
        other => panic!("expected an opaque fragment, got {:?}", other),
    }
    assert_eq!(container.serialize(), file);
}

#[test]
fn container_parses_header_and_dispatches() {
    let pool = b"\0LIGHT\0";
    let file = container_file(
        2,
        pool,
        &[
            record(0x03, &texture_body(-1, 1, &[b"fire1.bmp"])),
            record(0x13, &mob_body(0, 1, 0x01, Some(3))),
        ],
    );
    let container = parse(&file).unwrap();
    assert_eq!(container.version, 2);
    assert_eq!(container.fragment_count(), 2);
    assert!(matches!(container.fragment(0), Some(Fragment::TextureImages(_))));
    assert!(matches!(container.fragment(1), Some(Fragment::MobSkeletonPieceTrackReference(_))));
    assert!(container.fragment(2).is_none());
    assert_eq!(container.resolve_string(StringReference(-1)), "LIGHT");
    assert_eq!(container.fragment(0).unwrap().type_id(), 0x03);
    assert_eq!(container.fragment(0).unwrap().name_ref(), StringReference(-1));
}

#[test]
fn byte_identity_for_whole_file() {
    let pool = b"\0ZONE_ACTORDEF\0TREE01\0";
    let mut unknown_with_trailing = le_i32(-15);
    unknown_with_trailing.extend_from_slice(&[9, 9, 9]);
    let object_location_body: Vec<u8> = (0..13u32).flat_map(le_u32).collect();
    let file = container_file(
        1,
        pool,
        &[
            record(0x03, &texture_body(-1, 1, &[b"fire1.bmp"])),
            record(0x13, &mob_body(-15, 1, 0x05, Some(2))),
            record(0x13, &mob_body(-15, 1, 0x04, None)),
            record(0x11, &{
                let mut b = le_i32(2);
                b.extend_from_slice(&le_u32(0));
                b
            }),
            record(0x33, &{
                let mut b = le_i32(0);
                b.extend_from_slice(&le_i32(4));
                b.extend_from_slice(&le_u32(0));
                b
            }),
            record(0x15, &object_location_body),
            record(0x34, &unknown_with_trailing),
            record(0x2222, &[0xAB, 0xCD]),
        ],
    );
    let container = parse(&file).unwrap();
    assert_eq!(container.serialize(), file);
}

#[test]
fn trailing_body_bytes_are_kept_not_dropped() {
    let mut body = mob_body(0, 1, 0x00, None);
    body.extend_from_slice(&[0xEE, 0xFF]);
    let file = container_file(1, b"", &[record(0x13, &body)]);
    let container = parse(&file).unwrap();
    assert_eq!(container.records[0].trailing, vec![0xEE, 0xFF]);
    assert_eq!(container.serialize(), file);
}

#[test]
fn rebuilt_container_round_trips() {
    let file = container_file(
        1,
        b"\0A\0",
        &[record(0x11, &{
            let mut b = le_i32(1);
            b.extend_from_slice(&le_u32(0));
            b
        })],
    );
    let first = parse(&file).unwrap();
    let rebuilt = Container {
        version: first.version,
        strings: StringPool::decode(&xor(b"\0A\0")),
        records: vec![FragmentRecord {
            fragment: Fragment::Opaque(OpaqueFragment { type_id: 0x77, body: vec![1, 2] }),
            trailing: Vec::new(),
        }],
    };
    let reparsed = parse(&rebuilt.serialize()).unwrap();
    assert_eq!(reparsed.version, rebuilt.version);
    assert_eq!(reparsed.fragment_count(), 1);
    assert_eq!(reparsed.records[0].fragment, rebuilt.records[0].fragment);
    assert_eq!(reparsed.strings.encode(), rebuilt.strings.encode());
}

#[test]
fn truncated_header_is_error() {
    let file = vec![0u8; 10];
    assert_eq!(
        parse(&file),
        Err(ParseError::Truncated { offset: 0, needed: 16, available: 10 })
    );
}

#[test]
fn bad_magic_is_error() {
    let mut file = container_file(1, b"", &[]);
    file[0] = 0xFF;
    assert!(matches!(parse(&file), Err(ParseError::BadMagic { .. })));
}

#[test]
fn declared_blob_longer_than_file_is_error() {
    let mut file = le_u32(CONTAINER_MAGIC);
    file.extend_from_slice(&le_u32(1));
    file.extend_from_slice(&le_u32(0));
    file.extend_from_slice(&le_u32(100));
    assert!(matches!(parse(&file), Err(ParseError::Truncated { .. })));
}

#[test]
fn declared_record_length_overrun_is_error() {
    let mut file = container_file(1, b"", &[]);
    // One declared record whose body length exceeds the remaining bytes.
    file[8..12].copy_from_slice(&1u32.to_le_bytes());
    file.extend_from_slice(&le_u32(50));
    file.extend_from_slice(&le_u32(0x99));
    file.extend_from_slice(&[0u8; 3]);
    assert!(matches!(parse(&file), Err(ParseError::Truncated { .. })));
}

#[test]
fn registered_parser_overrun_is_error() {
    // A texture record whose body ends before its declared entry.
    let file = container_file(1, b"", &[record(0x03, &texture_body(0, 1, &[]))]);
    assert!(matches!(parse(&file), Err(ParseError::Truncated { .. })));
}

#[test]
fn bytes_after_declared_records_are_error() {
    let mut file = container_file(1, b"", &[record(0x99, &[1, 2, 3])]);
    file.push(0);
    assert_eq!(
        parse(&file),
        Err(ParseError::TrailingBytes { offset: file.len() - 1, remaining: 1 })
    );
}

#[test]
fn string_reference_round_trips_any_raw_value() {
    for v in [0i32, -4, 17, i32::MIN, i32::MAX] {
        let r = StringReference(v);
        let bytes = r.serialize();
        let (back, p) = StringReference::parse(&bytes, 0).unwrap();
        assert_eq!(back, r);
        assert_eq!(p, 4);
    }
}

#[test]
fn fragment_ref_round_trips_any_raw_value() {
    for v in [0i32, -1, 3, i32::MIN, i32::MAX] {
        let r = FragmentRef(v);
        let bytes = r.serialize();
        let (back, p) = FragmentRef::parse(&bytes, 0).unwrap();
        assert_eq!(back, r);
        assert_eq!(p, 4);
    }
}
