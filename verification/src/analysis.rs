//! The `Serato Analysis` tag: the version of the analysis that the
//! application performed on the track.
//!
//! The value is opaque to this codec: beyond the version envelope nothing
//! is consumed, and nothing of the application-version semantics is
//! interpreted.

use vstd::prelude::*;

use crate::error::Error;
use crate::format::FLACTag;
use crate::format::ID3Tag;
use crate::format::MP4Tag;
use crate::util;
use crate::util::Version;

verus! {

/// The decoded `Serato Analysis` tag.
#[derive(Debug, Clone, Copy, PartialEq, Eq, Structural)]
pub struct Analysis {
    /// The analysis version.
    pub version: Version,
}

/// What decoding an analysis body from the front of `s` yields: just the
/// version envelope and whatever follows it.
pub open spec fn spec_take_analysis(s: Seq<u8>) -> Result<(Seq<u8>, Analysis), Error> {
    match util::spec_take_version(s) {
        Err(e) => Err(e),
        Ok((rest, version)) => Ok((rest, Analysis { version })),
    }
}

/// What decoding a whole `Serato Analysis` payload yields: the version
/// envelope with nothing after it; any trailing byte is a structural
/// error.
pub open spec fn spec_parse_analysis(s: Seq<u8>) -> Result<Analysis, Error> {
    match spec_take_analysis(s) {
        Err(e) => Err(e),
        Ok((rest, a)) => if rest.len() == 0 {
            Ok(a)
        } else {
            Err(Error::TrailingData)
        },
    }
}

/// Decodes an analysis body — the version envelope — from the front of the
/// input and returns the remaining input beside it.
pub fn take_analysis(input: &[u8]) -> (r: Result<(&[u8], Analysis), Error>)
    ensures
        match spec_take_analysis(input@) {
            Ok((rest, a)) => r matches Ok(p) && p.0@ == rest && p.1 == a,
            Err(e) => r matches Err(re) && re == e,
        },
{
    match util::take_version(input) {
        Ok((rest, version)) => Ok((rest, Analysis { version })),
        Err(e) => Err(e),
    }
}

impl Analysis {
    /// Decodes a whole `Serato Analysis` payload, requiring exact
    /// consumption.
    pub fn parse(input: &[u8]) -> (r: Result<Analysis, Error>)
        ensures
            r == spec_parse_analysis(input@),
    {
        match take_analysis(input) {
            Ok((rest, a)) => if rest.len() == 0 {
                Ok(a)
            } else {
                Err(Error::TrailingData)
            },
            Err(e) => Err(e),
        }
    }

    /// Decodes a payload located inside a binary ID3 GEOB frame. The frame
    /// is binary-safe, so the payload reaches the tag grammar unchanged.
    pub fn parse_id3(input: &[u8]) -> (r: Result<Analysis, Error>)
        ensures
            r == spec_parse_analysis(input@),
    {
        Analysis::parse(input)
    }
}

/// Encodes an analysis tag as the whole payload it decodes from: encoding
/// and then decoding yields the tag back.
pub fn write_analysis(a: &Analysis) -> (r: Vec<u8>)
    ensures
        r@ == util::spec_version_bytes(a.version),
        spec_parse_analysis(r@) == Ok::<Analysis, Error>(*a),
{
    let out = util::write_version(&a.version);
    proof {
        assert(out@.skip(2) =~= Seq::<u8>::empty());
    }
    out
}

impl ID3Tag for Analysis {
    open spec fn spec_id3_tag() -> Seq<char> {
        "Serato Analysis"@
    }

    fn id3_tag() -> (r: &'static str) {
        "Serato Analysis"
    }
}

impl FLACTag for Analysis {
    open spec fn spec_flac_comment() -> Seq<char> {
        "SERATO_ANALYSIS"@
    }

    fn flac_comment() -> (r: &'static str) {
        "SERATO_ANALYSIS"
    }
}

impl MP4Tag for Analysis {
    open spec fn spec_mp4_atom() -> Seq<char> {
        "----:com.serato.dj:analysisVersion"@
    }

    fn mp4_atom() -> (r: &'static str) {
        "----:com.serato.dj:analysisVersion"
    }
}

} // verus!
