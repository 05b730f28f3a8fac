use serato_tags::error::Error;
use serato_tags::format::FLACTag;
use serato_tags::format::ID3Tag;
use serato_tags::format::MP4Tag;
use serato_tags::overview::take_chunk;
use serato_tags::overview::take_chunks;
use serato_tags::overview::take_overview;
use serato_tags::overview::write_overview;
use serato_tags::overview::Overview;

#[test]
fn test_take_chunk() {
    let (rest, chunk) = take_chunk(&[
        0x00, 0x01, 0x02, 0x03, 0x04, 0x05, 0x06, 0x07, 0x08, 0x09, 0x0a, 0x0b, 0x0c, 0x0d, 0x0e,
        0x0f, 0x10,
    ])
    .unwrap();
    assert_eq!(rest, &[0x10u8][..]);
    assert_eq!(
        chunk,
        [
            0x00u8, 0x01, 0x02, 0x03, 0x04, 0x05, 0x06, 0x07, 0x08, 0x09, 0x0a, 0x0b, 0x0c, 0x0d,
            0x0e, 0x0f
        ]
        .to_vec()
    );
    assert!(take_chunk(&[0xAB, 0x01]).is_err());
}

#[test]
fn take_chunks_requires_one_chunk() {
    assert_eq!(take_chunks(&[]), Err(Error::Truncated));
    assert_eq!(take_chunks(&[0x01; 15]), Err(Error::Truncated));
}

#[test]
fn take_chunks_is_greedy_and_leaves_the_partial_tail() {
    let mut input = vec![0x11u8; 16];
    input.extend_from_slice(&[0x22; 16]);
    input.extend_from_slice(&[0x33; 5]);
    let (rest, chunks) = take_chunks(&input).unwrap();
    assert_eq!(rest, &[0x33u8; 5][..]);
    assert_eq!(chunks, vec![vec![0x11u8; 16], vec![0x22u8; 16]]);
}

#[test]
fn sixteen_byte_payload_is_one_chunk() {
    let mut input = vec![0x01u8, 0x05];
    input.extend_from_slice(&[0xAA; 16]);
    let overview = Overview::parse(&input).unwrap();
    assert_eq!(overview.version.major, 0x01);
    assert_eq!(overview.version.minor, 0x05);
    assert_eq!(overview.data, vec![vec![0xAAu8; 16]]);
}

#[test]
fn partial_trailing_chunk_fails() {
    let mut input = vec![0x01u8, 0x05];
    input.extend_from_slice(&[0xAA; 17]);
    assert_eq!(Overview::parse(&input), Err(Error::TrailingData));
}

#[test]
fn empty_overview_body_fails() {
    assert_eq!(Overview::parse(&[0x01, 0x05]), Err(Error::Truncated));
    assert_eq!(Overview::parse(&[0x01]), Err(Error::Truncated));
    assert_eq!(Overview::parse(&[]), Err(Error::Truncated));
}

#[test]
fn take_overview_leaves_the_remaining_input() {
    let mut input = vec![0x01u8, 0x05];
    input.extend_from_slice(&[0xBB; 16]);
    input.extend_from_slice(&[0xCC; 3]);
    let (rest, overview) = take_overview(&input).unwrap();
    assert_eq!(rest, &[0xCCu8; 3][..]);
    assert_eq!(overview.data, vec![vec![0xBBu8; 16]]);
}

#[test]
fn overview_parse_id3_is_the_binary_frame_entry() {
    let mut input = vec![0x01u8, 0x05];
    input.extend_from_slice(&[0xAA; 16]);
    assert_eq!(Overview::parse_id3(&input), Overview::parse(&input));
}

#[test]
fn overview_decode_then_encode_reproduces_the_payload() {
    let mut input = vec![0x01u8, 0x05];
    for byte in 0..32u8 {
        input.push(byte);
    }
    let overview = Overview::parse(&input).unwrap();
    assert_eq!(write_overview(&overview), input);
}

#[test]
fn overview_container_keys() {
    assert_eq!(<Overview as ID3Tag>::id3_tag(), "Serato Overview");
    assert_eq!(<Overview as FLACTag>::flac_comment(), "SERATO_OVERVIEW");
    assert_eq!(<Overview as MP4Tag>::mp4_atom(), "----:com.serato.dj:overview");
}
