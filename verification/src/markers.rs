//! The `Serato Markers_` tag: the first cues and loops and the track color.
//!
//! This overlaps with information in the `Serato Markers2` tag, which
//! carries it in an independently evolving chunked layout and is
//! authoritative when both tags are present on a track. That precedence
//! rule belongs to the calling application, not to this codec.
//!
//! The payload is the version envelope, a 4-byte big-endian entry count,
//! that many fixed-layout marker records, and a trailing serato32-packed
//! track color; the whole input must be consumed exactly.

use vstd::prelude::*;
use vstd::slice::slice_subrange;

use crate::error::Error;
use crate::format::ID3Tag;
use crate::serato32;
use crate::util;
use crate::util::Color;
use crate::util::Version;

verus! {

/// The type of a marker entry.
///
/// The discriminant byte admits `0x00` (an unset cue slot), `0x01` (a cue)
/// and `0x03` (a loop, set or unset). `0x02` and everything above `0x03` are
/// real gaps in the discriminant space and are rejected.
#[allow(non_camel_case_types)]
#[derive(Debug, Clone, Copy, PartialEq, Eq, Structural)]
pub enum EntryType {
    INVALID,
    CUE,
    LOOP,
}

/// A single marker in the `Serato Markers_` tag.
#[derive(Debug, Clone, Copy, PartialEq)]
pub struct Marker {
    /// The position of the loop or cue.
    pub start_position_millis: Option<u32>,

    /// If this is a loop, the end position.
    pub end_position_millis: Option<u32>,

    /// The color of the cue.
    pub color: Color,

    /// The type of this marker.
    pub entry_type: EntryType,

    /// Whether the loop is locked. Only meaningful for loops; well-formed
    /// data has `false` on cues, but that is a recording fact the decoder
    /// does not enforce.
    pub is_locked: bool,
}

/// The decoded `Serato Markers_` tag.
#[derive(Debug, Clone, PartialEq)]
pub struct Markers {
    /// The tag version.
    pub version: Version,

    /// The marker entries, in payload order.
    pub entries: Vec<Marker>,

    /// The color of the track in the application's library view.
    pub track_color: Color,
}

impl ID3Tag for Markers {
    open spec fn spec_id3_tag() -> Seq<char> {
        "Serato Markers_"@
    }

    fn id3_tag() -> (r: &'static str) {
        "Serato Markers_"
    }
}

/// The big-endian 32-bit value of four bytes.
pub open spec fn spec_be_u32(b0: u8, b1: u8, b2: u8, b3: u8) -> u32 {
    ((b0 as int) * 0x1000000 + (b1 as int) * 0x10000 + (b2 as int) * 0x100 + (b3 as int)) as u32
}

/// What decoding a big-endian `u32` from the front of `s` yields.
pub open spec fn spec_take_be_u32(s: Seq<u8>) -> Result<(Seq<u8>, u32), Error> {
    if s.len() < 4 {
        Err(Error::Truncated)
    } else {
        Ok((s.skip(4), spec_be_u32(s[0], s[1], s[2], s[3])))
    }
}

/// What decoding a boolean byte yields: `0x00` is `false`, `0x01` is
/// `true`, anything else is an invalid discriminant.
pub open spec fn spec_take_bool(s: Seq<u8>) -> Result<(Seq<u8>, bool), Error> {
    if s.len() < 1 {
        Err(Error::Truncated)
    } else if s[0] == 0x00 {
        Ok((s.skip(1), false))
    } else if s[0] == 0x01 {
        Ok((s.skip(1), true))
    } else {
        Err(Error::InvalidDiscriminant)
    }
}

/// What decoding a position-presence byte yields: `0x00` means a position
/// follows, `0x7f` means the no-position filler follows, anything else is
/// an invalid discriminant.
pub open spec fn spec_take_has_position(s: Seq<u8>) -> Result<(Seq<u8>, bool), Error> {
    if s.len() < 1 {
        Err(Error::Truncated)
    } else if s[0] == 0x00 {
        Ok((s.skip(1), true))
    } else if s[0] == 0x7f {
        Ok((s.skip(1), false))
    } else {
        Err(Error::InvalidDiscriminant)
    }
}

/// What decoding a position field yields. After the presence byte, a
/// present position is a serato32-packed `u32`; an absent one must be the
/// exact filler `7f 7f 7f 7f`.
pub open spec fn spec_take_position(s: Seq<u8>) -> Result<(Seq<u8>, Option<u32>), Error> {
    match spec_take_has_position(s) {
        Err(e) => Err(e),
        Ok((rest, has)) => if has {
            match serato32::spec_take_u32(rest) {
                Ok((r, v)) => Ok((r, Some(v))),
                Err(e) => Err(e),
            }
        } else {
            if rest.len() < 4 {
                Err(Error::Truncated)
            } else if rest[0] == 0x7f && rest[1] == 0x7f && rest[2] == 0x7f && rest[3] == 0x7f {
                Ok((rest.skip(4), None))
            } else {
                Err(Error::MismatchedFiller)
            }
        },
    }
}

/// What decoding the fixed 6-byte reserved filler `00 7f 7f 7f 7f 7f`
/// yields: the remaining input. The filler's presence is verified byte for
/// byte, never interpreted.
pub open spec fn spec_take_filler(s: Seq<u8>) -> Result<Seq<u8>, Error> {
    if s.len() < 6 {
        Err(Error::Truncated)
    } else if s[0] == 0x00 && s[1] == 0x7f && s[2] == 0x7f && s[3] == 0x7f && s[4] == 0x7f && s[5]
        == 0x7f {
        Ok(s.skip(6))
    } else {
        Err(Error::MismatchedFiller)
    }
}

/// What decoding an entry-type byte yields.
pub open spec fn spec_take_entry_type(s: Seq<u8>) -> Result<(Seq<u8>, EntryType), Error> {
    if s.len() < 1 {
        Err(Error::Truncated)
    } else if s[0] == 0x00 {
        Ok((s.skip(1), EntryType::INVALID))
    } else if s[0] == 0x01 {
        Ok((s.skip(1), EntryType::CUE))
    } else if s[0] == 0x03 {
        Ok((s.skip(1), EntryType::LOOP))
    } else {
        Err(Error::InvalidDiscriminant)
    }
}

/// What decoding one marker record yields: start and end position fields,
/// the 6-byte reserved filler, a serato32-packed color, the entry type and
/// the locked flag, in that order.
#[verifier::opaque]
pub open spec fn spec_take_marker(s: Seq<u8>) -> Result<(Seq<u8>, Marker), Error> {
    match spec_take_position(s) {
        Err(e) => Err(e),
        Ok((s1, start)) => match spec_take_position(s1) {
            Err(e) => Err(e),
            Ok((s2, end)) => match spec_take_filler(s2) {
                Err(e) => Err(e),
                Ok(s3) => match serato32::spec_take_color(s3) {
                    Err(e) => Err(e),
                    Ok((s4, color)) => match spec_take_entry_type(s4) {
                        Err(e) => Err(e),
                        Ok((s5, entry_type)) => match spec_take_bool(s5) {
                            Err(e) => Err(e),
                            Ok((s6, is_locked)) => Ok(
                                (
                                    s6,
                                    Marker {
                                        start_position_millis: start,
                                        end_position_millis: end,
                                        color,
                                        entry_type,
                                        is_locked,
                                    },
                                ),
                            ),
                        },
                    },
                },
            },
        },
    }
}

/// What decoding exactly `n` consecutive marker records yields.
pub open spec fn spec_take_entries(s: Seq<u8>, n: nat) -> Result<(Seq<u8>, Seq<Marker>), Error>
    decreases n,
{
    if n == 0 {
        Ok((s, Seq::empty()))
    } else {
        match spec_take_marker(s) {
            Err(e) => Err(e),
            Ok((rest, m)) => match spec_take_entries(rest, (n - 1) as nat) {
                Err(e) => Err(e),
                Ok((rest2, ms)) => Ok((rest2, seq![m] + ms)),
            },
        }
    }
}

/// What decoding a whole `Serato Markers_` payload yields: the version,
/// the entries promised by the count prefix, and the track color, with the
/// input consumed exactly.
pub open spec fn spec_parse_markers(s: Seq<u8>) -> Result<(Version, Seq<Marker>, Color), Error> {
    match util::spec_take_version(s) {
        Err(e) => Err(e),
        Ok((s1, version)) => match spec_take_be_u32(s1) {
            Err(e) => Err(e),
            Ok((s2, count)) => match spec_take_entries(s2, count as nat) {
                Err(e) => Err(e),
                Ok((s3, entries)) => match serato32::spec_take_color(s3) {
                    Err(e) => Err(e),
                    Ok((s4, track_color)) => if s4.len() == 0 {
                        Ok((version, entries, track_color))
                    } else {
                        Err(Error::TrailingData)
                    },
                },
            },
        },
    }
}

/// Decodes a 4-byte big-endian count from the front of the input.
fn take_be_u32(input: &[u8]) -> (r: Result<(&[u8], u32), Error>)
    ensures
        match spec_take_be_u32(input@) {
            Ok((rest, v)) => r matches Ok(p) && p.0@ == rest && p.1 == v,
            Err(e) => r matches Err(re) && re == e,
        },
{
    if input.len() < 4 {
        return Err(Error::Truncated);
    }
    let value = (input[0] as u32) * 0x1000000 + (input[1] as u32) * 0x10000 + (input[2] as u32)
        * 0x100 + (input[3] as u32);
    Ok((slice_subrange(input, 4, input.len()), value))
}

/// Decodes a boolean byte: `0x00` or `0x01`, all else rejected.
pub fn take_bool(input: &[u8]) -> (r: Result<(&[u8], bool), Error>)
    ensures
        match spec_take_bool(input@) {
            Ok((rest, b)) => r matches Ok(p) && p.0@ == rest && p.1 == b,
            Err(e) => r matches Err(re) && re == e,
        },
{
    if input.len() < 1 {
        return Err(Error::Truncated);
    }
    let rest = slice_subrange(input, 1, input.len());
    match input[0] {
        0x00 => Ok((rest, false)),
        0x01 => Ok((rest, true)),
        _ => Err(Error::InvalidDiscriminant),
    }
}

/// Decodes the position-presence byte: `0x00` means present, `0x7f` means
/// absent, all else rejected.
pub fn has_position(input: &[u8]) -> (r: Result<(&[u8], bool), Error>)
    ensures
        match spec_take_has_position(input@) {
            Ok((rest, b)) => r matches Ok(p) && p.0@ == rest && p.1 == b,
            Err(e) => r matches Err(re) && re == e,
        },
{
    if input.len() < 1 {
        return Err(Error::Truncated);
    }
    let rest = slice_subrange(input, 1, input.len());
    match input[0] {
        0x00 => Ok((rest, true)),
        0x7f => Ok((rest, false)),
        _ => Err(Error::InvalidDiscriminant),
    }
}

/// Decodes a position field: the presence byte, then either a
/// serato32-packed position or the exact `7f 7f 7f 7f` filler.
pub fn position(input: &[u8]) -> (r: Result<(&[u8], Option<u32>), Error>)
    ensures
        match spec_take_position(input@) {
            Ok((rest, v)) => r matches Ok(p) && p.0@ == rest && p.1 == v,
            Err(e) => r matches Err(re) && re == e,
        },
{
    let (rest, has) = match has_position(input) {
        Ok(p) => p,
        Err(e) => return Err(e),
    };
    if rest.len() < 4 {
        return Err(Error::Truncated);
    }
    if has {
        match serato32::take_u32(rest) {
            Ok((r2, v)) => Ok((r2, Some(v))),
            Err(e) => Err(e),
        }
    } else {
        if rest[0] == 0x7f && rest[1] == 0x7f && rest[2] == 0x7f && rest[3] == 0x7f {
            Ok((slice_subrange(rest, 4, rest.len()), None))
        } else {
            Err(Error::MismatchedFiller)
        }
    }
}

/// Decodes the fixed 6-byte reserved filler, verifying it byte for byte.
fn take_filler(input: &[u8]) -> (r: Result<&[u8], Error>)
    ensures
        match spec_take_filler(input@) {
            Ok(rest) => r matches Ok(p) && p@ == rest,
            Err(e) => r matches Err(re) && re == e,
        },
{
    if input.len() < 6 {
        return Err(Error::Truncated);
    }
    if input[0] == 0x00 && input[1] == 0x7f && input[2] == 0x7f && input[3] == 0x7f && input[4]
        == 0x7f && input[5] == 0x7f {
        Ok(slice_subrange(input, 6, input.len()))
    } else {
        Err(Error::MismatchedFiller)
    }
}

/// Decodes the entry-type byte. `0x02` and anything above `0x03` are gaps
/// in the discriminant space and rejected.
pub fn entry_type(input: &[u8]) -> (r: Result<(&[u8], EntryType), Error>)
    ensures
        match spec_take_entry_type(input@) {
            Ok((rest, t)) => r matches Ok(p) && p.0@ == rest && p.1 == t,
            Err(e) => r matches Err(re) && re == e,
        },
{
    if input.len() < 1 {
        return Err(Error::Truncated);
    }
    let rest = slice_subrange(input, 1, input.len());
    match input[0] {
        0x00 => Ok((rest, EntryType::INVALID)),
        0x01 => Ok((rest, EntryType::CUE)),
        0x03 => Ok((rest, EntryType::LOOP)),
        _ => Err(Error::InvalidDiscriminant),
    }
}

/// Decodes one marker record from the front of the input.
pub fn marker(input: &[u8]) -> (r: Result<(&[u8], Marker), Error>)
    ensures
        match spec_take_marker(input@) {
            Ok((rest, m)) => r matches Ok(p) && p.0@ == rest && p.1 == m,
            Err(e) => r matches Err(re) && re == e,
        },
{
    proof {
        reveal(spec_take_marker);
    }
    let (input, start_position_millis) = match position(input) {
        Ok(p) => p,
        Err(e) => return Err(e),
    };
    let (input, end_position_millis) = match position(input) {
        Ok(p) => p,
        Err(e) => return Err(e),
    };
    let input = match take_filler(input) {
        Ok(p) => p,
        Err(e) => return Err(e),
    };
    let (input, color) = match serato32::take_color(input) {
        Ok(p) => p,
        Err(e) => return Err(e),
    };
    let (input, entry_type) = match entry_type(input) {
        Ok(p) => p,
        Err(e) => return Err(e),
    };
    let (input, is_locked) = match take_bool(input) {
        Ok(p) => p,
        Err(e) => return Err(e),
    };
    Ok(
        (
            input,
            Marker { start_position_millis, end_position_millis, color, entry_type, is_locked },
        ),
    )
}

/// [`spec_take_entries`] with an accumulator of already decoded entries in
/// front: the form the decode loop maintains.
pub open spec fn spec_entries_from(s: Seq<u8>, n: nat, acc: Seq<Marker>) -> Result<
    (Seq<u8>, Seq<Marker>),
    Error,
> {
    match spec_take_entries(s, n) {
        Ok((rest, ms)) => Ok((rest, acc + ms)),
        Err(e) => Err(e),
    }
}

/// Decodes a whole `Serato Markers_` payload: version envelope, 4-byte
/// big-endian entry count, that many marker records, and the trailing
/// serato32-packed track color. Any unconsumed byte is a structural error.
#[verifier::loop_isolation(false)]
pub fn parse(input: &[u8]) -> (r: Result<Markers, Error>)
    ensures
        match spec_parse_markers(input@) {
            Ok(t) => r matches Ok(m) && m.version == t.0 && m.entries@ == t.1 && m.track_color
                == t.2,
            Err(e) => r matches Err(re) && re == e,
        },
        r matches Ok(m) ==> m.wf(),
{
    let (rest, version) = match util::take_version(input) {
        Ok(p) => p,
        Err(e) => return Err(e),
    };
    let (rest, count) = match take_be_u32(rest) {
        Ok(p) => p,
        Err(e) => return Err(e),
    };
    let ghost entries_start: Seq<u8> = rest@;
    let mut rest: &[u8] = rest;
    let mut entries: Vec<Marker> = Vec::new();
    let mut i: u32 = 0;
    while i < count
        invariant
            i <= count,
            spec_entries_from(entries_start, count as nat, Seq::empty()) == spec_entries_from(
                rest@,
                (count - i) as nat,
                entries@,
            ),
        decreases count - i,
    {
        match marker(rest) {
            Ok((r2, m)) => {
                proof {
                    let k = (count - i) as nat;
                    match spec_take_entries(r2@, (k - 1) as nat) {
                        Ok(p) => {
                            assert(entries@ + (seq![m] + p.1) =~= entries@.push(m) + p.1);
                        },
                        Err(_) => {},
                    }
                }
                entries.push(m);
                rest = r2;
                i = i + 1;
            },
            Err(e) => {
                return Err(e);
            },
        }
    }
    proof {
        assert(entries@ + Seq::<Marker>::empty() =~= entries@);
        assert(Seq::<Marker>::empty() + entries@ =~= entries@);
        lemma_take_entries_wf(entries_start, count as nat);
        lemma_take_entries_len(entries_start, count as nat);
    }
    let (rest, track_color) = match serato32::take_color(rest) {
        Ok(p) => p,
        Err(e) => return Err(e),
    };
    if rest.len() > 0 {
        return Err(Error::TrailingData);
    }
    Ok(Markers { version, entries, track_color })
}

/// A marker whose positions fit the 28-bit serato32 domain. Decoding
/// establishes this, and encoding requires it — the on-disk format cannot
/// represent anything larger.
pub open spec fn spec_marker_wf(m: Marker) -> bool {
    &&& (m.start_position_millis matches Some(v) ==> v < 0x10000000)
    &&& (m.end_position_millis matches Some(v) ==> v < 0x10000000)
}

impl Markers {
    /// A well-formed tag: every entry's positions fit the serato32 domain,
    /// and the entry count fits the 4-byte count prefix.
    pub open spec fn wf(&self) -> bool {
        &&& self.entries@.len() <= u32::MAX
        &&& forall|i: int|
            0 <= i < self.entries@.len() ==> spec_marker_wf(#[trigger] self.entries@[i])
    }
}

/// The four big-endian bytes of a 32-bit count.
pub open spec fn spec_be_u32_bytes(v: u32) -> Seq<u8> {
    seq![
        ((v as int) / 0x1000000) as u8,
        (((v as int) / 0x10000) % 0x100) as u8,
        (((v as int) / 0x100) % 0x100) as u8,
        ((v as int) % 0x100) as u8,
    ]
}

/// The bytes of a position field: the presence byte, then either the
/// packed position or the no-position filler.
pub open spec fn spec_position_bytes(p: Option<u32>) -> Seq<u8> {
    match p {
        Some(v) => seq![0x00u8] + serato32::spec_bytes(v),
        None => seq![0x7fu8, 0x7fu8, 0x7fu8, 0x7fu8, 0x7fu8],
    }
}

/// The byte of an entry type.
pub open spec fn spec_entry_type_byte(t: EntryType) -> u8 {
    match t {
        EntryType::INVALID => 0x00,
        EntryType::CUE => 0x01,
        EntryType::LOOP => 0x03,
    }
}

/// The byte of a boolean.
pub open spec fn spec_bool_byte(b: bool) -> u8 {
    if b {
        0x01
    } else {
        0x00
    }
}

/// The 22 bytes of one marker record.
#[verifier::opaque]
pub open spec fn spec_marker_bytes(m: Marker) -> Seq<u8> {
    spec_position_bytes(m.start_position_millis) + spec_position_bytes(m.end_position_millis)
        + seq![0x00u8, 0x7fu8, 0x7fu8, 0x7fu8, 0x7fu8, 0x7fu8] + serato32::spec_bytes(
        serato32::spec_color_value(m.color),
    ) + seq![spec_entry_type_byte(m.entry_type)] + seq![spec_bool_byte(m.is_locked)]
}

/// The bytes of a sequence of marker records, concatenated in order.
pub open spec fn spec_entries_bytes(ms: Seq<Marker>) -> Seq<u8>
    decreases ms.len(),
{
    if ms.len() == 0 {
        Seq::empty()
    } else {
        spec_marker_bytes(ms[0]) + spec_entries_bytes(ms.skip(1))
    }
}

/// The whole payload that a `Serato Markers_` tag encodes to.
pub open spec fn spec_markers_bytes(version: Version, ms: Seq<Marker>, track_color: Color) -> Seq<
    u8,
> {
    util::spec_version_bytes(version) + spec_be_u32_bytes(ms.len() as u32) + spec_entries_bytes(ms)
        + serato32::spec_bytes(serato32::spec_color_value(track_color))
}

/// A 32-bit count decomposes into four big-endian digits that reassemble
/// to the count.
proof fn lemma_be_digits(v: u32)
    by (bit_vector)
    ensures
        v / 0x1000000 < 0x100,
        (v / 0x1000000) * 0x1000000 + ((v / 0x10000) % 0x100) * 0x10000 + ((v / 0x100) % 0x100)
            * 0x100 + (v % 0x100) == v,
{
}

/// Encoding a count and decoding the bytes in front of any remaining input
/// yields the count back and leaves exactly that input.
proof fn lemma_take_be_u32_of_bytes(v: u32, rest: Seq<u8>)
    ensures
        spec_take_be_u32(spec_be_u32_bytes(v) + rest) == Ok::<(Seq<u8>, u32), Error>((rest, v)),
{
    lemma_be_digits(v);
    let b = spec_be_u32_bytes(v);
    let s = b + rest;
    assert(s[0] == b[0] && s[1] == b[1] && s[2] == b[2] && s[3] == b[3]);
    assert(spec_be_u32(s[0], s[1], s[2], s[3]) == v);
    assert(s.skip(4) =~= rest);
}

/// The position analogue: encode then decode is the identity.
proof fn lemma_take_position_of_bytes(p: Option<u32>, rest: Seq<u8>)
    requires
        p matches Some(v) ==> v < 0x10000000,
    ensures
        spec_take_position(spec_position_bytes(p) + rest) == Ok::<(Seq<u8>, Option<u32>), Error>(
            (rest, p),
        ),
{
    let s = spec_position_bytes(p) + rest;
    match p {
        Some(v) => {
            assert(s[0] == 0x00);
            assert(s.skip(1) =~= serato32::spec_bytes(v) + rest);
            serato32::lemma_take_u32_of_bytes(v, rest);
        },
        None => {
            assert(s[0] == 0x7f);
            let t = s.skip(1);
            assert(t =~= seq![0x7fu8, 0x7fu8, 0x7fu8, 0x7fu8] + rest);
            assert(t[0] == 0x7f && t[1] == 0x7f && t[2] == 0x7f && t[3] == 0x7f);
            assert(t.skip(4) =~= rest);
        },
    }
}

/// The reserved-filler analogue: its six bytes decode to the rest.
proof fn lemma_take_filler_of_bytes(rest: Seq<u8>)
    ensures
        spec_take_filler(seq![0x00u8, 0x7fu8, 0x7fu8, 0x7fu8, 0x7fu8, 0x7fu8] + rest) == Ok::<
            Seq<u8>,
            Error,
        >(rest),
{
    let s = seq![0x00u8, 0x7fu8, 0x7fu8, 0x7fu8, 0x7fu8, 0x7fu8] + rest;
    assert(s[0] == 0x00 && s[1] == 0x7f && s[2] == 0x7f && s[3] == 0x7f && s[4] == 0x7f && s[5]
        == 0x7f);
    assert(s.skip(6) =~= rest);
}

/// The entry-type analogue: encode then decode is the identity.
proof fn lemma_take_entry_type_of_bytes(t: EntryType, rest: Seq<u8>)
    ensures
        spec_take_entry_type(seq![spec_entry_type_byte(t)] + rest) == Ok::<
            (Seq<u8>, EntryType),
            Error,
        >((rest, t)),
{
    let s = seq![spec_entry_type_byte(t)] + rest;
    assert(s[0] == spec_entry_type_byte(t));
    assert(s.skip(1) =~= rest);
}

/// The boolean analogue: encode then decode is the identity.
proof fn lemma_take_bool_of_bytes(b: bool, rest: Seq<u8>)
    ensures
        spec_take_bool(seq![spec_bool_byte(b)] + rest) == Ok::<(Seq<u8>, bool), Error>((rest, b)),
{
    let s = seq![spec_bool_byte(b)] + rest;
    assert(s[0] == spec_bool_byte(b));
    assert(s.skip(1) =~= rest);
}

/// Encoding one marker record and decoding it in front of any remaining
/// input yields the record back and leaves exactly that input.
#[verifier::rlimit(50)]
proof fn lemma_take_marker_of_bytes(m: Marker, rest: Seq<u8>)
    requires
        spec_marker_wf(m),
    ensures
        spec_take_marker(spec_marker_bytes(m) + rest) == Ok::<(Seq<u8>, Marker), Error>((rest, m)),
{
    reveal(spec_take_marker);
    reveal(spec_marker_bytes);
    let a = spec_position_bytes(m.start_position_millis);
    let b = spec_position_bytes(m.end_position_millis);
    let c = seq![0x00u8, 0x7fu8, 0x7fu8, 0x7fu8, 0x7fu8, 0x7fu8];
    let d = serato32::spec_bytes(serato32::spec_color_value(m.color));
    let e = seq![spec_entry_type_byte(m.entry_type)];
    let f = seq![spec_bool_byte(m.is_locked)];
    let s = spec_marker_bytes(m) + rest;
    let r1 = b + (c + (d + (e + (f + rest))));
    let r2 = c + (d + (e + (f + rest)));
    let r3 = d + (e + (f + rest));
    let r4 = e + (f + rest);
    let r5 = f + rest;
    assert(a.len() == 5 && b.len() == 5);
    assert(c.len() == 6 && d.len() == 4 && e.len() == 1 && f.len() == 1);
    assert(spec_marker_bytes(m).len() == 22);
    assert(s =~= a + r1);
    lemma_take_position_of_bytes(m.start_position_millis, r1);
    assert(spec_take_position(s) == Ok::<(Seq<u8>, Option<u32>), Error>(
        (r1, m.start_position_millis),
    ));
    lemma_take_position_of_bytes(m.end_position_millis, r2);
    assert(spec_take_position(r1) == Ok::<(Seq<u8>, Option<u32>), Error>(
        (r2, m.end_position_millis),
    ));
    lemma_take_filler_of_bytes(r3);
    assert(spec_take_filler(r2) == Ok::<Seq<u8>, Error>(r3));
    serato32::lemma_take_color_of_bytes(m.color, r4);
    assert(serato32::spec_take_color(r3) == Ok::<(Seq<u8>, Color), Error>((r4, m.color)));
    lemma_take_entry_type_of_bytes(m.entry_type, r5);
    assert(spec_take_entry_type(r4) == Ok::<(Seq<u8>, EntryType), Error>((r5, m.entry_type)));
    lemma_take_bool_of_bytes(m.is_locked, rest);
    assert(spec_take_bool(r5) == Ok::<(Seq<u8>, bool), Error>((rest, m.is_locked)));
}

/// Appending one record appends its bytes.
proof fn lemma_entries_bytes_push(ms: Seq<Marker>, m: Marker)
    ensures
        spec_entries_bytes(ms.push(m)) == spec_entries_bytes(ms) + spec_marker_bytes(m),
    decreases ms.len(),
{
    if ms.len() == 0 {
        assert(ms.push(m).skip(1) =~= Seq::<Marker>::empty());
        assert(ms.push(m)[0] == m);
        assert(spec_entries_bytes(ms.push(m)) == spec_marker_bytes(m) + spec_entries_bytes(
            Seq::<Marker>::empty(),
        ));
        assert(spec_entries_bytes(ms.push(m)) =~= spec_entries_bytes(ms) + spec_marker_bytes(m));
    } else {
        assert(ms.push(m)[0] == ms[0]);
        assert(ms.push(m).skip(1) =~= ms.skip(1).push(m));
        lemma_entries_bytes_push(ms.skip(1), m);
        assert(spec_marker_bytes(ms[0]) + (spec_entries_bytes(ms.skip(1)) + spec_marker_bytes(m))
            =~= (spec_marker_bytes(ms[0]) + spec_entries_bytes(ms.skip(1))) + spec_marker_bytes(
            m,
        ));
    }
}

/// Encoding a sequence of records and decoding that many in front of any
/// remaining input yields the records back and leaves exactly that input.
#[verifier::rlimit(50)]
proof fn lemma_take_entries_of_bytes(ms: Seq<Marker>, rest: Seq<u8>)
    requires
        forall|i: int| 0 <= i < ms.len() ==> spec_marker_wf(#[trigger] ms[i]),
    ensures
        spec_take_entries(spec_entries_bytes(ms) + rest, ms.len()) == Ok::<
            (Seq<u8>, Seq<Marker>),
            Error,
        >((rest, ms)),
    decreases ms.len(),
{
    if ms.len() == 0 {
        assert(spec_entries_bytes(ms) + rest =~= rest);
        assert(ms =~= Seq::<Marker>::empty());
    } else {
        let tail = spec_entries_bytes(ms.skip(1)) + rest;
        let s = spec_entries_bytes(ms) + rest;
        assert(s =~= spec_marker_bytes(ms[0]) + tail);
        lemma_take_marker_of_bytes(ms[0], tail);
        assert(spec_take_marker(s) == Ok::<(Seq<u8>, Marker), Error>((tail, ms[0])));
        lemma_take_entries_of_bytes(ms.skip(1), rest);
        assert(spec_take_entries(tail, ms.skip(1).len()) == Ok::<(Seq<u8>, Seq<Marker>), Error>(
            (rest, ms.skip(1)),
        ));
        assert(seq![ms[0]] + ms.skip(1) =~= ms);
        assert(spec_take_entries(s, ms.len()) == Ok::<(Seq<u8>, Seq<Marker>), Error>((rest, ms)));
    }
}

/// Encoding a whole tag yields a payload that decodes back to exactly the
/// tag's parts.
pub proof fn lemma_markers_round_trip(version: Version, ms: Seq<Marker>, track_color: Color)
    requires
        ms.len() <= u32::MAX,
        forall|i: int| 0 <= i < ms.len() ==> spec_marker_wf(#[trigger] ms[i]),
    ensures
        spec_parse_markers(spec_markers_bytes(version, ms, track_color)) == Ok::<
            (Version, Seq<Marker>, Color),
            Error,
        >((version, ms, track_color)),
{
    let count = ms.len() as u32;
    let cb = spec_be_u32_bytes(count);
    let eb = spec_entries_bytes(ms);
    let colb = serato32::spec_bytes(serato32::spec_color_value(track_color));
    let s = spec_markers_bytes(version, ms, track_color);
    assert(s[0] == version.major && s[1] == version.minor);
    assert(util::spec_take_version(s) == Ok::<(Seq<u8>, Version), Error>((s.skip(2), version)));
    assert(s.skip(2) =~= cb + (eb + colb));
    lemma_take_be_u32_of_bytes(count, eb + colb);
    lemma_take_entries_of_bytes(ms, colb);
    assert(count as nat == ms.len());
    lemma_take_color_of_bytes_exact(track_color);
}

/// [`serato32::lemma_take_color_of_bytes`] with nothing after the color.
proof fn lemma_take_color_of_bytes_exact(c: Color)
    ensures
        serato32::spec_take_color(serato32::spec_bytes(serato32::spec_color_value(c))) == Ok::<
            (Seq<u8>, Color),
            Error,
        >((Seq::<u8>::empty(), c)),
{
    serato32::lemma_take_color_of_bytes(c, Seq::<u8>::empty());
    assert(serato32::spec_bytes(serato32::spec_color_value(c)) + Seq::<u8>::empty()
        =~= serato32::spec_bytes(serato32::spec_color_value(c)));
}

/// Appends every byte of `bytes` to `out`.
fn push_bytes(out: &mut Vec<u8>, bytes: &Vec<u8>)
    ensures
        final(out)@ == old(out)@ + bytes@,
{
    let ghost orig = out@;
    let mut j: usize = 0;
    while j < bytes.len()
        invariant
            j <= bytes@.len(),
            out@ == orig + bytes@.take(j as int),
        decreases bytes@.len() - j,
    {
        out.push(bytes[j]);
        proof {
            assert(out@ =~= orig + bytes@.take(j + 1));
        }
        j = j + 1;
    }
    proof {
        assert(bytes@.take(bytes@.len() as int) =~= bytes@);
    }
}

/// Appends the bytes of a position field to `out`.
fn push_position(out: &mut Vec<u8>, p: &Option<u32>)
    requires
        *p matches Some(v) ==> v < 0x10000000,
    ensures
        final(out)@ == old(out)@ + spec_position_bytes(*p),
{
    let ghost orig = out@;
    match p {
        Some(v) => {
            out.push(0x00);
            let bytes = serato32::encode_u32(*v);
            push_bytes(out, &bytes);
            proof {
                assert(out@ =~= orig + spec_position_bytes(*p));
            }
        },
        None => {
            out.push(0x7f);
            out.push(0x7f);
            out.push(0x7f);
            out.push(0x7f);
            out.push(0x7f);
            proof {
                assert(out@ =~= orig + spec_position_bytes(*p));
            }
        },
    }
}

/// Encodes one marker record as its 22 bytes.
fn write_marker(m: &Marker) -> (r: Vec<u8>)
    requires
        spec_marker_wf(*m),
    ensures
        r@ == spec_marker_bytes(*m),
{
    let mut out: Vec<u8> = Vec::new();
    push_position(&mut out, &m.start_position_millis);
    push_position(&mut out, &m.end_position_millis);
    let ghost g1 = out@;
    out.push(0x00);
    out.push(0x7f);
    out.push(0x7f);
    out.push(0x7f);
    out.push(0x7f);
    out.push(0x7f);
    proof {
        assert(out@ =~= g1 + seq![0x00u8, 0x7fu8, 0x7fu8, 0x7fu8, 0x7fu8, 0x7fu8]);
    }
    let color_bytes = serato32::encode_color(&m.color);
    push_bytes(&mut out, &color_bytes);
    let ghost g2 = out@;
    match m.entry_type {
        EntryType::INVALID => out.push(0x00),
        EntryType::CUE => out.push(0x01),
        EntryType::LOOP => out.push(0x03),
    }
    if m.is_locked {
        out.push(0x01);
    } else {
        out.push(0x00);
    }
    proof {
        reveal(spec_marker_bytes);
        assert(out@ =~= g2 + seq![spec_entry_type_byte(m.entry_type)] + seq![
            spec_bool_byte(m.is_locked),
        ]);
        assert(out@ =~= spec_marker_bytes(*m));
    }
    out
}

/// Encodes a whole `Serato Markers_` tag as the payload it decodes from:
/// encoding and then decoding yields the tag's parts back.
#[verifier::loop_isolation(false)]
pub fn write_markers(m: &Markers) -> (r: Vec<u8>)
    requires
        m.wf(),
    ensures
        r@ == spec_markers_bytes(m.version, m.entries@, m.track_color),
        spec_parse_markers(r@) == Ok::<(Version, Seq<Marker>, Color), Error>(
            (m.version, m.entries@, m.track_color),
        ),
{
    let mut out = util::write_version(&m.version);
    let count: u32 = m.entries.len() as u32;
    out.push((count / 0x1000000) as u8);
    out.push(((count / 0x10000) % 0x100) as u8);
    out.push(((count / 0x100) % 0x100) as u8);
    out.push((count % 0x100) as u8);
    proof {
        assert(out@ =~= util::spec_version_bytes(m.version) + spec_be_u32_bytes(count));
    }
    let ghost head = out@;
    let mut i: usize = 0;
    while i < m.entries.len()
        invariant
            i <= m.entries@.len(),
            out@ == head + spec_entries_bytes(m.entries@.take(i as int)),
        decreases m.entries@.len() - i,
    {
        let record = write_marker(&m.entries[i]);
        push_bytes(&mut out, &record);
        proof {
            lemma_entries_bytes_push(m.entries@.take(i as int), m.entries@[i as int]);
            assert(m.entries@.take(i + 1) =~= m.entries@.take(i as int).push(
                m.entries@[i as int],
            ));
        }
        i = i + 1;
    }
    proof {
        assert(m.entries@.take(m.entries@.len() as int) =~= m.entries@);
    }
    let color_bytes = serato32::encode_color(&m.track_color);
    push_bytes(&mut out, &color_bytes);
    proof {
        assert(out@ =~= spec_markers_bytes(m.version, m.entries@, m.track_color));
        lemma_markers_round_trip(m.version, m.entries@, m.track_color);
    }
    out
}

/// Every decoded position fits the 28-bit domain.
proof fn lemma_take_position_wf(s: Seq<u8>)
    ensures
        spec_take_position(s) matches Ok(p) ==> (p.1 matches Some(v) ==> v < 0x10000000),
{
    if s.len() >= 1 && s[0] == 0x00 {
        serato32::lemma_take_u32_bound(s.skip(1));
    }
}

/// Every decoded marker record is well formed: its positions fit the
/// 28-bit serato32 domain.
proof fn lemma_take_marker_wf(s: Seq<u8>)
    ensures
        spec_take_marker(s) matches Ok(p) ==> spec_marker_wf(p.1),
{
    reveal(spec_take_marker);
    lemma_take_position_wf(s);
    match spec_take_position(s) {
        Ok((s1, _)) => lemma_take_position_wf(s1),
        Err(_) => {},
    }
}

/// Every decoded entry sequence holds only well-formed markers.
proof fn lemma_take_entries_wf(s: Seq<u8>, n: nat)
    ensures
        spec_take_entries(s, n) matches Ok(p) ==> forall|i: int|
            0 <= i < p.1.len() ==> spec_marker_wf(#[trigger] p.1[i]),
    decreases n,
{
    if n > 0 {
        lemma_take_marker_wf(s);
        match spec_take_marker(s) {
            Ok((rest, m)) => {
                lemma_take_entries_wf(rest, (n - 1) as nat);
                match spec_take_entries(rest, (n - 1) as nat) {
                    Ok((_, ms)) => {
                        assert forall|i: int| 0 <= i < (seq![m] + ms).len() implies spec_marker_wf(
                            #[trigger] (seq![m] + ms)[i],
                        ) by {
                            if i > 0 {
                                assert((seq![m] + ms)[i] == ms[i - 1]);
                            }
                        }
                    },
                    Err(_) => {},
                }
            },
            Err(_) => {},
        }
    }
}

/// Decoding `n` marker records yields exactly `n` entries.
proof fn lemma_take_entries_len(s: Seq<u8>, n: nat)
    ensures
        spec_take_entries(s, n) matches Ok(p) ==> p.1.len() == n,
    decreases n,
{
    if n > 0 {
        match spec_take_marker(s) {
            Ok((rest, _)) => lemma_take_entries_len(rest, (n - 1) as nat),
            Err(_) => {},
        }
    }
}

/// In every successfully decoded `Serato Markers_` payload, the number of
/// entries equals the explicit 4-byte big-endian count prefix that follows
/// the version header.
pub proof fn lemma_markers_entry_count(s: Seq<u8>)
    ensures
        spec_parse_markers(s) matches Ok(t) ==> s.len() >= 6 && t.1.len() == spec_be_u32(
            s[2],
            s[3],
            s[4],
            s[5],
        ),
{
    if spec_parse_markers(s) is Ok {
        let s1 = util::spec_take_version(s)->Ok_0.0;
        let s2 = spec_take_be_u32(s1)->Ok_0.0;
        let count = spec_take_be_u32(s1)->Ok_0.1;
        assert(s1 == s.skip(2));
        assert(s1[0] == s[2] && s1[1] == s[3] && s1[2] == s[4] && s1[3] == s[5]);
        lemma_take_entries_len(s2, count as nat);
    }
}

} // verus!
