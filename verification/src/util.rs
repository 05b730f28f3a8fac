//! The version envelope and the color value shared by all tag grammars.

use vstd::prelude::*;
use vstd::slice::slice_subrange;

use crate::error::Error;

verus! {

/// The two-byte `(major, minor)` header that opens every tag payload.
#[derive(Debug, Clone, Copy, PartialEq, Eq, Structural)]
pub struct Version {
    pub major: u8,
    pub minor: u8,
}

/// An 8-bit-per-channel color.
#[derive(Debug, Clone, Copy, PartialEq, Eq, Structural)]
pub struct Color {
    pub red: u8,
    pub green: u8,
    pub blue: u8,
}

/// The two bytes that encode a version header.
pub open spec fn spec_version_bytes(v: Version) -> Seq<u8> {
    seq![v.major, v.minor]
}

/// What decoding a version header from the front of `s` yields: the
/// remaining input and the header, or a truncation error when fewer than
/// two bytes remain.
pub open spec fn spec_take_version(s: Seq<u8>) -> Result<(Seq<u8>, Version), Error> {
    if s.len() < 2 {
        Err(Error::Truncated)
    } else {
        Ok((s.skip(2), Version { major: s[0], minor: s[1] }))
    }
}

/// Decodes the two-byte version header from the front of the input and
/// returns the remaining input beside it.
pub fn take_version(input: &[u8]) -> (r: Result<(&[u8], Version), Error>)
    ensures
        match spec_take_version(input@) {
            Ok((rest, v)) => r matches Ok(p) && p.0@ == rest && p.1 == v,
            Err(e) => r matches Err(re) && re == e,
        },
{
    if input.len() < 2 {
        return Err(Error::Truncated);
    }
    let major = input[0];
    let minor = input[1];
    let rest = slice_subrange(input, 2, input.len());
    Ok((rest, Version { major, minor }))
}

/// Encodes a version header as the two bytes it came from.
pub fn write_version(v: &Version) -> (r: Vec<u8>)
    ensures
        r@ == spec_version_bytes(*v),
{
    let mut out: Vec<u8> = Vec::new();
    out.push(v.major);
    out.push(v.minor);
    proof {
        assert(out@ =~= spec_version_bytes(*v));
    }
    out
}

/// Decoding then re-encoding a version header reproduces the first two
/// input bytes, and leaves exactly the rest of the input.
pub proof fn lemma_version_round_trip(s: Seq<u8>)
    requires
        s.len() >= 2,
    ensures
        spec_take_version(s) matches Ok(p) && spec_version_bytes(p.1) + p.0 == s,
{
    let p = spec_take_version(s)->Ok_0;
    assert(spec_version_bytes(p.1) + p.0 =~= s);
}

} // verus!
