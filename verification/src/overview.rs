//! The `Serato Overview` tag: waveform overview data as 16-byte chunks.
//!
//! After the version envelope the body is "however many complete 16-byte
//! chunks remain": at least one chunk must be present, and a partial
//! trailing chunk is a structural error, never silently dropped.

use vstd::prelude::*;
use vstd::slice::slice_subrange;
use vstd::slice::slice_to_vec;

use crate::error::Error;
use crate::format::FLACTag;
use crate::format::ID3Tag;
use crate::format::MP4Tag;
use crate::util;
use crate::util::Version;

verus! {

/// The decoded `Serato Overview` tag.
#[derive(Debug, Clone, PartialEq)]
pub struct Overview {
    /// The tag version.
    pub version: Version,

    /// The waveform overview data: complete 16-byte chunks, in payload
    /// order, each an independent copy of the payload bytes.
    pub data: Vec<Vec<u8>>,
}

/// What decoding one 16-byte chunk from the front of `s` yields.
pub open spec fn spec_take_chunk(s: Seq<u8>) -> Result<(Seq<u8>, Seq<u8>), Error> {
    if s.len() < 16 {
        Err(Error::Truncated)
    } else {
        Ok((s.skip(16), s.take(16)))
    }
}

/// The greedy chunk decomposition of `s`: every complete 16-byte chunk in
/// order, and whatever remains after the last one (always fewer than 16
/// bytes).
pub open spec fn spec_take_chunks(s: Seq<u8>) -> (Seq<u8>, Seq<Seq<u8>>)
    decreases s.len(),
{
    if s.len() < 16 {
        (s, Seq::empty())
    } else {
        let t = spec_take_chunks(s.skip(16));
        (t.0, seq![s.take(16)] + t.1)
    }
}

/// What decoding an overview body from the front of `s` yields: the version
/// envelope, then at least one complete 16-byte chunk, greedily.
pub open spec fn spec_take_overview(s: Seq<u8>) -> Result<
    (Seq<u8>, (Version, Seq<Seq<u8>>)),
    Error,
> {
    match util::spec_take_version(s) {
        Err(e) => Err(e),
        Ok((s1, version)) => if s1.len() < 16 {
            Err(Error::Truncated)
        } else {
            let t = spec_take_chunks(s1);
            Ok((t.0, (version, t.1)))
        },
    }
}

/// What decoding a whole `Serato Overview` payload yields: the body of
/// [`spec_take_overview`], with the input consumed exactly — a partial
/// trailing chunk leaves bytes behind and is therefore rejected.
pub open spec fn spec_parse_overview(s: Seq<u8>) -> Result<(Version, Seq<Seq<u8>>), Error> {
    match spec_take_overview(s) {
        Err(e) => Err(e),
        Ok((rest, t)) => if rest.len() == 0 {
            Ok(t)
        } else {
            Err(Error::TrailingData)
        },
    }
}

impl Overview {
    /// A well-formed overview: at least one chunk, each exactly 16 bytes.
    /// Decoding establishes this, and encoding requires it — anything else
    /// has no byte representation.
    pub open spec fn wf(&self) -> bool {
        &&& self.data@.len() >= 1
        &&& forall|i: int|
            0 <= i < self.data@.len() ==> (#[trigger] self.data@[i])@.len() == 16
    }
}

/// The bytes of a sequence of chunks, concatenated in order.
pub open spec fn spec_chunks_bytes(cs: Seq<Seq<u8>>) -> Seq<u8>
    decreases cs.len(),
{
    if cs.len() == 0 {
        Seq::empty()
    } else {
        cs[0] + spec_chunks_bytes(cs.skip(1))
    }
}

/// Appending one chunk appends its bytes.
proof fn lemma_chunks_bytes_push(cs: Seq<Seq<u8>>, c: Seq<u8>)
    ensures
        spec_chunks_bytes(cs.push(c)) == spec_chunks_bytes(cs) + c,
    decreases cs.len(),
{
    if cs.len() == 0 {
        assert(cs.push(c).skip(1) =~~= Seq::<Seq<u8>>::empty());
        assert(cs.push(c)[0] == c);
        assert(spec_chunks_bytes(cs.push(c)) == c + spec_chunks_bytes(Seq::<Seq<u8>>::empty()));
        assert(spec_chunks_bytes(cs.push(c)) =~= spec_chunks_bytes(cs) + c);
    } else {
        assert(cs.push(c)[0] == cs[0]);
        assert(cs.push(c).skip(1) =~~= cs.skip(1).push(c));
        lemma_chunks_bytes_push(cs.skip(1), c);
        assert(cs[0] + (spec_chunks_bytes(cs.skip(1)) + c) =~= (cs[0] + spec_chunks_bytes(
            cs.skip(1),
        )) + c);
    }
}

/// The concatenated bytes of 16-byte chunks decompose greedily back into
/// exactly those chunks, with nothing left over.
proof fn lemma_chunks_round_trip(cs: Seq<Seq<u8>>)
    requires
        forall|i: int| 0 <= i < cs.len() ==> (#[trigger] cs[i]).len() == 16,
    ensures
        spec_take_chunks(spec_chunks_bytes(cs)) == (Seq::<u8>::empty(), cs),
    decreases cs.len(),
{
    if cs.len() == 0 {
        assert(cs =~= Seq::<Seq<u8>>::empty());
    } else {
        let s = spec_chunks_bytes(cs);
        assert(s == cs[0] + spec_chunks_bytes(cs.skip(1)));
        assert(s.take(16) =~= cs[0]);
        assert(s.skip(16) =~= spec_chunks_bytes(cs.skip(1)));
        lemma_chunks_round_trip(cs.skip(1));
        assert(seq![cs[0]] + cs.skip(1) =~= cs);
    }
}

/// Every chunk of the greedy decomposition is exactly 16 bytes, and an
/// input of at least 16 bytes yields at least one chunk.
proof fn lemma_take_chunks_wf(s: Seq<u8>)
    ensures
        forall|i: int|
            0 <= i < spec_take_chunks(s).1.len() ==> (#[trigger] spec_take_chunks(
                s,
            ).1[i]).len() == 16,
        s.len() >= 16 ==> spec_take_chunks(s).1.len() >= 1,
    decreases s.len(),
{
    if s.len() >= 16 {
        lemma_take_chunks_wf(s.skip(16));
        let t = spec_take_chunks(s.skip(16));
        assert forall|i: int| 0 <= i < spec_take_chunks(s).1.len() implies (
        #[trigger] spec_take_chunks(s).1[i]).len() == 16 by {
            if i > 0 {
                assert(spec_take_chunks(s).1[i] == t.1[i - 1]);
            } else {
                assert(spec_take_chunks(s).1[0] == s.take(16));
            }
        }
    }
}

/// Encodes an overview tag as the whole payload it decodes from: encoding
/// and then decoding yields the tag back.
#[verifier::loop_isolation(false)]
pub fn write_overview(o: &Overview) -> (r: Vec<u8>)
    requires
        o.wf(),
    ensures
        r@ == util::spec_version_bytes(o.version) + spec_chunks_bytes(o.data.deep_view()),
        spec_parse_overview(r@) matches Ok(t) && t.0 == o.version && t.1 == o.data.deep_view(),
{
    let mut out = util::write_version(&o.version);
    let mut i: usize = 0;
    while i < o.data.len()
        invariant
            i <= o.data@.len(),
            out@ == util::spec_version_bytes(o.version) + spec_chunks_bytes(
                o.data.deep_view().take(i as int),
            ),
        decreases o.data@.len() - i,
    {
        let chunk: &Vec<u8> = &o.data[i];
        let ghost prefix = out@;
        let mut j: usize = 0;
        while j < 16
            invariant
                j <= 16,
                chunk@.len() == 16,
                out@ == prefix + chunk@.take(j as int),
            decreases 16 - j,
        {
            out.push(chunk[j]);
            proof {
                assert(out@ =~= prefix + chunk@.take(j + 1));
            }
            j = j + 1;
        }
        proof {
            assert(chunk@.take(16) =~= chunk@);
            lemma_chunks_bytes_push(o.data.deep_view().take(i as int), chunk@);
            assert(o.data.deep_view()[i as int] =~= chunk@);
            assert(o.data.deep_view().take(i + 1) =~~= o.data.deep_view().take(i as int).push(
                chunk@,
            ));
            assert(prefix + chunk@ =~= util::spec_version_bytes(o.version) + spec_chunks_bytes(
                o.data.deep_view().take(i + 1),
            ));
        }
        i = i + 1;
    }
    proof {
        let dv = o.data.deep_view();
        assert(dv.take(o.data@.len() as int) =~= dv);
        lemma_chunks_round_trip(dv);
        assert(out@.skip(2) =~= spec_chunks_bytes(dv));
        assert(dv[0].len() == 16);
        assert(spec_chunks_bytes(dv).len() >= 16);
    }
    out
}

/// Decodes one 16-byte chunk from the front of the input into an owned
/// copy.
pub fn take_chunk(input: &[u8]) -> (r: Result<(&[u8], Vec<u8>), Error>)
    ensures
        match spec_take_chunk(input@) {
            Ok((rest, c)) => r matches Ok(p) && p.0@ == rest && p.1@ == c,
            Err(e) => r matches Err(re) && re == e,
        },
{
    if input.len() < 16 {
        return Err(Error::Truncated);
    }
    let chunk = slice_to_vec(slice_subrange(input, 0, 16));
    Ok((slice_subrange(input, 16, input.len()), chunk))
}

/// Decodes as many complete 16-byte chunks as the input holds; at least one
/// must be present.
#[verifier::loop_isolation(false)]
pub fn take_chunks(input: &[u8]) -> (r: Result<(&[u8], Vec<Vec<u8>>), Error>)
    ensures
        input@.len() < 16 ==> (r matches Err(e) && e == Error::Truncated),
        input@.len() >= 16 ==> (r matches Ok(p) && p.0@ == spec_take_chunks(input@).0
            && p.1.deep_view() == spec_take_chunks(input@).1),
{
    if input.len() < 16 {
        return Err(Error::Truncated);
    }
    let mut rest: &[u8] = input;
    let mut chunks: Vec<Vec<u8>> = Vec::new();
    proof {
        assert(chunks.deep_view() + spec_take_chunks(rest@).1 =~= spec_take_chunks(input@).1);
    }
    while rest.len() >= 16
        invariant
            spec_take_chunks(input@).0 == spec_take_chunks(rest@).0,
            spec_take_chunks(input@).1 == chunks.deep_view() + spec_take_chunks(rest@).1,
        decreases rest@.len(),
    {
        let ghost old_dv = chunks.deep_view();
        let chunk = slice_to_vec(slice_subrange(rest, 0, 16));
        chunks.push(chunk);
        proof {
            assert(chunk.deep_view() =~= rest@.take(16));
            assert(chunks.deep_view() =~= old_dv.push(rest@.take(16)));
            assert(old_dv.push(rest@.take(16)) + spec_take_chunks(rest@.skip(16)).1 =~= old_dv + (
            seq![rest@.take(16)] + spec_take_chunks(rest@.skip(16)).1));
        }
        rest = slice_subrange(rest, 16, rest.len());
    }
    proof {
        assert(chunks.deep_view() + spec_take_chunks(rest@).1 =~= chunks.deep_view());
    }
    Ok((rest, chunks))
}

/// Decodes an overview body — version envelope, then at least one complete
/// 16-byte chunk, greedily — and returns the remaining input beside it.
pub fn take_overview(input: &[u8]) -> (r: Result<(&[u8], Overview), Error>)
    ensures
        match spec_take_overview(input@) {
            Ok((rest, t)) => r matches Ok(p) && p.0@ == rest && p.1.version == t.0
                && p.1.data.deep_view() == t.1,
            Err(e) => r matches Err(re) && re == e,
        },
{
    let (rest, version) = match util::take_version(input) {
        Ok(p) => p,
        Err(e) => return Err(e),
    };
    match take_chunks(rest) {
        Ok((rest2, data)) => Ok((rest2, Overview { version, data })),
        Err(e) => Err(e),
    }
}

impl Overview {
    /// Decodes a whole `Serato Overview` payload, requiring exact
    /// consumption: any byte left after the last complete chunk — in
    /// particular a partial trailing chunk — is a structural error.
    pub fn parse(input: &[u8]) -> (r: Result<Overview, Error>)
        ensures
            match spec_parse_overview(input@) {
                Ok(t) => r matches Ok(o) && o.version == t.0 && o.data.deep_view() == t.1,
                Err(e) => r matches Err(re) && re == e,
            },
            r matches Ok(o) ==> o.wf(),
    {
        match take_overview(input) {
            Ok((rest, overview)) => if rest.len() == 0 {
                proof {
                    let s1 = util::spec_take_version(input@)->Ok_0.0;
                    lemma_take_chunks_wf(s1);
                    let dv = overview.data.deep_view();
                    assert forall|i: int|
                        0 <= i < overview.data@.len() implies (
                    #[trigger] overview.data@[i])@.len() == 16 by {
                        assert(dv[i] == overview.data@[i].deep_view());
                        assert(overview.data@[i].deep_view().len() == overview.data@[i]@.len());
                    }
                }
                Ok(overview)
            } else {
                Err(Error::TrailingData)
            },
            Err(e) => Err(e),
        }
    }

    /// Decodes a payload located inside a binary ID3 GEOB frame. The frame
    /// is binary-safe, so the payload reaches the tag grammar unchanged.
    pub fn parse_id3(input: &[u8]) -> (r: Result<Overview, Error>)
        ensures
            match spec_parse_overview(input@) {
                Ok(t) => r matches Ok(o) && o.version == t.0 && o.data.deep_view() == t.1,
                Err(e) => r matches Err(re) && re == e,
            },
    {
        Overview::parse(input)
    }
}

impl ID3Tag for Overview {
    open spec fn spec_id3_tag() -> Seq<char> {
        "Serato Overview"@
    }

    fn id3_tag() -> (r: &'static str) {
        "Serato Overview"
    }
}

impl FLACTag for Overview {
    open spec fn spec_flac_comment() -> Seq<char> {
        "SERATO_OVERVIEW"@
    }

    fn flac_comment() -> (r: &'static str) {
        "SERATO_OVERVIEW"
    }
}

impl MP4Tag for Overview {
    open spec fn spec_mp4_atom() -> Seq<char> {
        "----:com.serato.dj:overview"@
    }

    fn mp4_atom() -> (r: &'static str) {
        "----:com.serato.dj:overview"
    }
}

} // verus!
