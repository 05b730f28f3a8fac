//! The container capability layer.
//!
//! A tag kind is polymorphic over the host containers it can be embedded
//! in. Each capability supplies the addressing key that an external
//! container reader uses to locate the payload: the description of a binary
//! ID3 GEOB frame, the name of a FLAC comment field, or the fully qualified
//! path of an MP4 freeform atom. A tag kind that does not implement a
//! capability cannot be read from that container at all — asking for it is
//! a caller-side type error, never a runtime decode failure.
//!
//! The binary GEOB frame is binary-safe, so that capability hands the
//! payload to the tag grammar unchanged. The comment-field and atom hosts
//! are text-only and store the payload behind a text-safety envelope; the
//! envelope transform is applied by the external container reader and is
//! not part of this codec, which only fixes the addressing keys.

use vstd::prelude::*;

verus! {

/// The capability of living in a binary ID3 GEOB frame, addressed by the
/// frame's description string. Binary-safe: the located payload is handed
/// to the tag grammar unchanged.
pub trait ID3Tag {
    /// The frame description that addresses this tag kind.
    spec fn spec_id3_tag() -> Seq<char>;

    /// Returns the frame description that addresses this tag kind.
    fn id3_tag() -> (r: &'static str)
        ensures
            r@ == Self::spec_id3_tag(),
    ;
}

/// The capability of living in a FLAC comment field, addressed by the
/// field's name.
pub trait FLACTag {
    /// The comment field name that addresses this tag kind.
    spec fn spec_flac_comment() -> Seq<char>;

    /// Returns the comment field name that addresses this tag kind.
    fn flac_comment() -> (r: &'static str)
        ensures
            r@ == Self::spec_flac_comment(),
    ;
}

/// The capability of living in an MP4 freeform atom, addressed by its
/// fully qualified, vendor-namespaced path.
pub trait MP4Tag {
    /// The atom path that addresses this tag kind.
    spec fn spec_mp4_atom() -> Seq<char>;

    /// Returns the atom path that addresses this tag kind.
    fn mp4_atom() -> (r: &'static str)
        ensures
            r@ == Self::spec_mp4_atom(),
    ;
}

} // verus!
