//! Codec for the binary metadata tags that the Serato DJ application writes
//! into audio files.
//!
//! Every tag payload starts with a two-byte version envelope; the body that
//! follows is a tag-specific byte grammar. One tag family additionally packs
//! integers and colors into a legacy 7-bit-safe form (the "serato32"
//! encoding). Each decoder is a pure function from a byte slice to a typed
//! value or a structural error, and is verified against a specification of
//! the byte layout.

pub mod analysis;
pub mod error;
pub mod format;
pub mod markers;
pub mod overview;
pub mod serato32;
pub mod util;
