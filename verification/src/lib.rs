//! Codec for the WLD game-asset container format: a header, an obfuscated
//! string pool, and a sequence of length-framed, type-tagged binary records
//! (fragments) that reference each other and the pool by integer index.

pub mod bytes;
pub mod container;
pub mod error;
pub mod fragment;
pub mod refs;
pub mod mob_skeleton_piece_track_reference;
pub mod object_location;
pub mod skeleton_track_set_reference;
pub mod texture_images;
pub mod unknown_0x34;
pub mod vertex_color_reference;
pub mod string_pool;
