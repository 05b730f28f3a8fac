use serato_tags::analysis::take_analysis;
use serato_tags::analysis::write_analysis;
use serato_tags::analysis::Analysis;
use serato_tags::error::Error;
use serato_tags::format::FLACTag;
use serato_tags::format::ID3Tag;
use serato_tags::format::MP4Tag;
use serato_tags::util::take_version;
use serato_tags::util::write_version;
use serato_tags::util::Version;

#[test]
fn analysis_payload_is_just_the_version() {
    let analysis = Analysis::parse(&[0x01, 0x00]).unwrap();
    assert_eq!(analysis, Analysis { version: Version { major: 1, minor: 0 } });
}

#[test]
fn any_trailing_byte_fails() {
    assert_eq!(Analysis::parse(&[0x01, 0x00, 0x00]), Err(Error::TrailingData));
    assert_eq!(Analysis::parse(&[0x01, 0x00, 0xff]), Err(Error::TrailingData));
}

#[test]
fn a_short_payload_is_truncated() {
    assert_eq!(Analysis::parse(&[0x01]), Err(Error::Truncated));
    assert_eq!(Analysis::parse(&[]), Err(Error::Truncated));
}

#[test]
fn take_analysis_leaves_the_remaining_input() {
    let (rest, analysis) = take_analysis(&[0x02, 0x01, 0xaa, 0xbb]).unwrap();
    assert_eq!(rest, &[0xaau8, 0xbb][..]);
    assert_eq!(analysis.version, Version { major: 2, minor: 1 });
}

#[test]
fn analysis_parse_id3_is_the_binary_frame_entry() {
    assert_eq!(Analysis::parse_id3(&[0x01, 0x00]), Analysis::parse(&[0x01, 0x00]));
    assert_eq!(Analysis::parse_id3(&[0x01]), Err(Error::Truncated));
}

#[test]
fn version_decode_then_encode_is_the_identity() {
    let (rest, version) = take_version(&[0x0a, 0x0b, 0xcc]).unwrap();
    assert_eq!(rest, &[0xccu8][..]);
    assert_eq!(version, Version { major: 0x0a, minor: 0x0b });
    assert_eq!(write_version(&version), vec![0x0a, 0x0b]);
    assert_eq!(take_version(&[0x0a]), Err(Error::Truncated));
}

#[test]
fn analysis_decode_then_encode_reproduces_the_payload() {
    let analysis = Analysis::parse(&[0x02, 0x01]).unwrap();
    assert_eq!(write_analysis(&analysis), vec![0x02, 0x01]);
}

#[test]
fn analysis_container_keys() {
    assert_eq!(<Analysis as ID3Tag>::id3_tag(), "Serato Analysis");
    assert_eq!(<Analysis as FLACTag>::flac_comment(), "SERATO_ANALYSIS");
    assert_eq!(<Analysis as MP4Tag>::mp4_atom(), "----:com.serato.dj:analysisVersion");
}
