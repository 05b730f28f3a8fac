//! The legacy 7-bit-safe packing ("serato32") used for integers and colors
//! inside the `Serato Markers_` tag family.
//!
//! A packed quantity occupies exactly four bytes, each with its most
//! significant bit clear (a text-channel safety constraint inherited from
//! early host containers). The 28 significant bits are assembled
//! most-significant-byte-first: `value = (b0 << 21) | (b1 << 14) |
//! (b2 << 7) | b3`, each byte contributing its low 7 bits. A color is the
//! same 4-byte group reduced to the low 24 bits, split into three channels.

use vstd::prelude::*;
use vstd::slice::slice_subrange;

use crate::error::Error;
use crate::util::Color;

verus! {

/// The 28-bit value packed into four 7-bit-safe bytes, assembled
/// most-significant-byte-first.
pub open spec fn spec_value(b0: u8, b1: u8, b2: u8, b3: u8) -> u32 {
    ((b0 as int) * 0x200000 + (b1 as int) * 0x4000 + (b2 as int) * 0x80 + (b3 as int)) as u32
}

/// The four 7-bit-safe bytes that encode a 28-bit value.
pub open spec fn spec_bytes(v: u32) -> Seq<u8> {
    seq![
        ((v as int) / 0x200000) as u8,
        (((v as int) / 0x4000) % 0x80) as u8,
        (((v as int) / 0x80) % 0x80) as u8,
        ((v as int) % 0x80) as u8,
    ]
}

/// The color held in the low 24 bits of a decoded serato32 value.
pub open spec fn spec_color_of(v: u32) -> Color {
    Color {
        red: (((v as int) / 0x10000) % 0x100) as u8,
        green: (((v as int) / 0x100) % 0x100) as u8,
        blue: ((v as int) % 0x100) as u8,
    }
}

/// The 24-bit value that a color packs into the serato32 form.
pub open spec fn spec_color_value(c: Color) -> u32 {
    ((c.red as int) * 0x10000 + (c.green as int) * 0x100 + (c.blue as int)) as u32
}

/// What decoding a serato32 `u32` from the front of `s` yields. Fewer than
/// four bytes is a truncation error; a byte with its top bit set is outside
/// the 7-bit-safe alphabet and rejected.
pub open spec fn spec_take_u32(s: Seq<u8>) -> Result<(Seq<u8>, u32), Error> {
    if s.len() < 4 {
        Err(Error::Truncated)
    } else if s[0] >= 0x80 || s[1] >= 0x80 || s[2] >= 0x80 || s[3] >= 0x80 {
        Err(Error::InvalidDiscriminant)
    } else {
        Ok((s.skip(4), spec_value(s[0], s[1], s[2], s[3])))
    }
}

/// What decoding a serato32 color from the front of `s` yields: the same
/// 4-byte group as [`spec_take_u32`], reduced to three channels.
pub open spec fn spec_take_color(s: Seq<u8>) -> Result<(Seq<u8>, Color), Error> {
    match spec_take_u32(s) {
        Ok((rest, v)) => Ok((rest, spec_color_of(v))),
        Err(e) => Err(e),
    }
}

/// Every decoded serato32 value fits the 28-bit domain, so it can always
/// be re-encoded.
pub proof fn lemma_take_u32_bound(s: Seq<u8>)
    ensures
        spec_take_u32(s) matches Ok(p) ==> p.1 < 0x10000000,
{
    if s.len() >= 4 && s[0] < 0x80 && s[1] < 0x80 && s[2] < 0x80 && s[3] < 0x80 {
        assert((s[0] as int) * 0x200000 + (s[1] as int) * 0x4000 + (s[2] as int) * 0x80 + (
        s[3] as int) < 0x10000000);
    }
}

/// Decodes a serato32-packed `u32` from the front of the input.
pub fn take_u32(input: &[u8]) -> (r: Result<(&[u8], u32), Error>)
    ensures
        match spec_take_u32(input@) {
            Ok((rest, v)) => r matches Ok(p) && p.0@ == rest && p.1 == v,
            Err(e) => r matches Err(re) && re == e,
        },
{
    if input.len() < 4 {
        return Err(Error::Truncated);
    }
    let b0 = input[0];
    let b1 = input[1];
    let b2 = input[2];
    let b3 = input[3];
    if b0 >= 0x80 || b1 >= 0x80 || b2 >= 0x80 || b3 >= 0x80 {
        return Err(Error::InvalidDiscriminant);
    }
    let value = (b0 as u32) * 0x200000 + (b1 as u32) * 0x4000 + (b2 as u32) * 0x80 + (b3 as u32);
    let rest = slice_subrange(input, 4, input.len());
    Ok((rest, value))
}

/// Decodes a serato32-packed color from the front of the input.
pub fn take_color(input: &[u8]) -> (r: Result<(&[u8], Color), Error>)
    ensures
        match spec_take_color(input@) {
            Ok((rest, c)) => r matches Ok(p) && p.0@ == rest && p.1 == c,
            Err(e) => r matches Err(re) && re == e,
        },
{
    match take_u32(input) {
        Ok((rest, v)) => {
            let red = ((v / 0x10000) % 0x100) as u8;
            let green = ((v / 0x100) % 0x100) as u8;
            let blue = (v % 0x100) as u8;
            Ok((rest, Color { red, green, blue }))
        },
        Err(e) => Err(e),
    }
}

/// Encodes a 28-bit value as its four 7-bit-safe bytes. Values with any of
/// the top four bits set cannot be represented on disk; handing one in is a
/// caller error, ruled out here.
pub fn encode_u32(value: u32) -> (r: Vec<u8>)
    requires
        value < 0x10000000,
    ensures
        r@ == spec_bytes(value),
{
    let mut out: Vec<u8> = Vec::new();
    out.push((value / 0x200000) as u8);
    out.push(((value / 0x4000) % 0x80) as u8);
    out.push(((value / 0x80) % 0x80) as u8);
    out.push((value % 0x80) as u8);
    proof {
        assert(out@ =~= spec_bytes(value));
    }
    out
}

/// Encodes a color as the four 7-bit-safe bytes of its 24-bit value.
pub fn encode_color(c: &Color) -> (r: Vec<u8>)
    ensures
        r@ == spec_bytes(spec_color_value(*c)),
{
    let value = (c.red as u32) * 0x10000 + (c.green as u32) * 0x100 + (c.blue as u32);
    encode_u32(value)
}

/// The division facts behind the round trip: each 7-bit byte comes back
/// out of the assembled value unchanged, and the value fits in 28 bits.
proof fn lemma_fields(b0: u8, b1: u8, b2: u8, b3: u8)
    by (bit_vector)
    requires
        b0 < 0x80,
        b1 < 0x80,
        b2 < 0x80,
        b3 < 0x80,
    ensures
        ((b0 as u32) * 0x200000 + (b1 as u32) * 0x4000 + (b2 as u32) * 0x80 + (b3 as u32))
            / 0x200000 == b0 as u32,
        (((b0 as u32) * 0x200000 + (b1 as u32) * 0x4000 + (b2 as u32) * 0x80 + (b3 as u32))
            / 0x4000) % 0x80 == b1 as u32,
        (((b0 as u32) * 0x200000 + (b1 as u32) * 0x4000 + (b2 as u32) * 0x80 + (b3 as u32))
            / 0x80) % 0x80 == b2 as u32,
        ((b0 as u32) * 0x200000 + (b1 as u32) * 0x4000 + (b2 as u32) * 0x80 + (b3 as u32))
            % 0x80 == b3 as u32,
        (b0 as u32) * 0x200000 + (b1 as u32) * 0x4000 + (b2 as u32) * 0x80 + (b3 as u32)
            < 0x10000000,
{
}

/// The other direction of the round trip: a 28-bit value decomposes into
/// four digits below 0x80 that reassemble to the value.
proof fn lemma_digits(v: u32)
    by (bit_vector)
    requires
        v < 0x10000000,
    ensures
        v / 0x200000 < 0x80,
        (v / 0x4000) % 0x80 < 0x80,
        (v / 0x80) % 0x80 < 0x80,
        v % 0x80 < 0x80,
        (v / 0x200000) * 0x200000 + ((v / 0x4000) % 0x80) * 0x4000 + ((v / 0x80) % 0x80) * 0x80 + (
        v % 0x80) == v,
{
}

/// Encoding a 28-bit value and decoding the bytes in front of any
/// remaining input yields the value back and leaves exactly that input.
pub proof fn lemma_take_u32_of_bytes(v: u32, rest: Seq<u8>)
    requires
        v < 0x10000000,
    ensures
        spec_take_u32(spec_bytes(v) + rest) == Ok::<(Seq<u8>, u32), Error>((rest, v)),
{
    lemma_digits(v);
    let b = spec_bytes(v);
    let s = b + rest;
    assert(s[0] == b[0] && s[1] == b[1] && s[2] == b[2] && s[3] == b[3]);
    assert(b[0] < 0x80 && b[1] < 0x80 && b[2] < 0x80 && b[3] < 0x80);
    assert(spec_value(s[0], s[1], s[2], s[3]) == v);
    assert(s.skip(4) =~= rest);
}

/// Encoding a color and decoding the bytes in front of any remaining
/// input yields the color back and leaves exactly that input.
pub proof fn lemma_take_color_of_bytes(c: Color, rest: Seq<u8>)
    ensures
        spec_take_color(spec_bytes(spec_color_value(c)) + rest) == Ok::<(Seq<u8>, Color), Error>(
            (rest, c),
        ),
{
    lemma_color_fields(c.red, c.green, c.blue);
    lemma_take_u32_of_bytes(spec_color_value(c), rest);
    lemma_color_round_trip(c);
}

/// Decoding a 7-bit-safe 4-byte group and re-encoding the value is the
/// identity on the bytes, and the decoded value fits in 28 bits; a group
/// with any top bit set never decodes.
pub proof fn lemma_serato32_round_trip(b0: u8, b1: u8, b2: u8, b3: u8)
    ensures
        b0 < 0x80 && b1 < 0x80 && b2 < 0x80 && b3 < 0x80 ==> {
            &&& spec_value(b0, b1, b2, b3) < 0x10000000
            &&& spec_bytes(spec_value(b0, b1, b2, b3)) == seq![b0, b1, b2, b3]
            &&& spec_take_u32(seq![b0, b1, b2, b3]) == Ok::<_, Error>(
                (Seq::<u8>::empty(), spec_value(b0, b1, b2, b3)),
            )
        },
        b0 >= 0x80 || b1 >= 0x80 || b2 >= 0x80 || b3 >= 0x80 ==> spec_take_u32(
            seq![b0, b1, b2, b3],
        ) == Err::<(Seq<u8>, u32), Error>(Error::InvalidDiscriminant),
{
    if b0 < 0x80 && b1 < 0x80 && b2 < 0x80 && b3 < 0x80 {
        lemma_fields(b0, b1, b2, b3);
        assert(spec_bytes(spec_value(b0, b1, b2, b3)) =~= seq![b0, b1, b2, b3]);
        let s = seq![b0, b1, b2, b3];
        assert(s.skip(4) =~= Seq::<u8>::empty());
    }
}

/// The channel analogue of [`lemma_fields`], for the 24-bit color packing.
proof fn lemma_color_fields(red: u8, green: u8, blue: u8)
    by (bit_vector)
    ensures
        ((red as u32) * 0x10000 + (green as u32) * 0x100 + (blue as u32)) / 0x10000 % 0x100
            == red as u32,
        ((red as u32) * 0x10000 + (green as u32) * 0x100 + (blue as u32)) / 0x100 % 0x100
            == green as u32,
        ((red as u32) * 0x10000 + (green as u32) * 0x100 + (blue as u32)) % 0x100 == blue as u32,
        (red as u32) * 0x10000 + (green as u32) * 0x100 + (blue as u32) < 0x1000000,
{
}

/// A color survives the trip through its packed 24-bit value.
pub proof fn lemma_color_round_trip(c: Color)
    ensures
        spec_color_value(c) < 0x10000000,
        spec_color_of(spec_color_value(c)) == c,
{
    lemma_color_fields(c.red, c.green, c.blue);
}

} // verus!
