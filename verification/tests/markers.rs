use serato_tags::error::Error;
use serato_tags::format::ID3Tag;
use serato_tags::markers::entry_type;
use serato_tags::markers::has_position;
use serato_tags::markers::marker;
use serato_tags::markers::parse;
use serato_tags::markers::position;
use serato_tags::markers::take_bool;
use serato_tags::markers::write_markers;
use serato_tags::markers::EntryType;
use serato_tags::markers::Markers;
use serato_tags::util::Color;

// One well-formed 22-byte marker record: a cue at 172 ms, no end position,
// the reserved filler, the color 0x27AAE1, entry type cue, not locked.
const CUE_RECORD: [u8; 22] = [
    0x00, 0x00, 0x00, 0x01, 0x2c, // start position, serato32 172
    0x7f, 0x7f, 0x7f, 0x7f, 0x7f, // no end position
    0x00, 0x7f, 0x7f, 0x7f, 0x7f, 0x7f, // reserved filler
    0x01, 0x1e, 0x55, 0x61, // serato32 color 0x27AAE1
    0x01, // cue
    0x00, // not locked
];

#[test]
fn position_present() {
    let (rest, value) = position(&[0x00, 0x00, 0x00, 0x01, 0x2c, 0x44]).unwrap();
    assert_eq!(rest, &[0x44u8][..]);
    assert_eq!(value, Some(172));
}

#[test]
fn position_absent() {
    let (rest, value) = position(&[0x7f, 0x7f, 0x7f, 0x7f, 0x7f]).unwrap();
    assert_eq!(rest, &[][..] as &[u8]);
    assert_eq!(value, None);
}

#[test]
fn position_prefix_outside_the_defined_set_fails() {
    assert_eq!(
        position(&[0x05, 0x00, 0x00, 0x01, 0x2c]),
        Err(Error::InvalidDiscriminant)
    );
    assert_eq!(
        position(&[0x01, 0x00, 0x00, 0x01, 0x2c]),
        Err(Error::InvalidDiscriminant)
    );
}

#[test]
fn absent_position_with_a_wrong_filler_fails() {
    assert_eq!(
        position(&[0x7f, 0x7f, 0x00, 0x7f, 0x7f]),
        Err(Error::MismatchedFiller)
    );
}

#[test]
fn short_position_is_truncated() {
    assert_eq!(position(&[]), Err(Error::Truncated));
    assert_eq!(position(&[0x00, 0x00, 0x01]), Err(Error::Truncated));
    assert_eq!(position(&[0x7f, 0x7f, 0x7f]), Err(Error::Truncated));
}

#[test]
fn has_position_reads_the_presence_byte() {
    assert_eq!(has_position(&[0x00]).unwrap().1, true);
    assert_eq!(has_position(&[0x7f]).unwrap().1, false);
    assert_eq!(has_position(&[0x42]), Err(Error::InvalidDiscriminant));
}

#[test]
fn entry_type_bytes() {
    assert_eq!(entry_type(&[0x00]).unwrap().1, EntryType::INVALID);
    assert_eq!(entry_type(&[0x01]).unwrap().1, EntryType::CUE);
    assert_eq!(entry_type(&[0x03]).unwrap().1, EntryType::LOOP);
    assert_eq!(entry_type(&[0x02]), Err(Error::InvalidDiscriminant));
    assert_eq!(entry_type(&[0x04]), Err(Error::InvalidDiscriminant));
    assert_eq!(entry_type(&[]), Err(Error::Truncated));
}

#[test]
fn boolean_bytes() {
    assert_eq!(take_bool(&[0x00]).unwrap().1, false);
    assert_eq!(take_bool(&[0x01]).unwrap().1, true);
    assert_eq!(take_bool(&[0x02]), Err(Error::InvalidDiscriminant));
    assert_eq!(take_bool(&[]), Err(Error::Truncated));
}

#[test]
fn decodes_one_marker_record() {
    let (rest, m) = marker(&CUE_RECORD).unwrap();
    assert_eq!(rest, &[][..] as &[u8]);
    assert_eq!(m.start_position_millis, Some(172));
    assert_eq!(m.end_position_millis, None);
    assert_eq!(m.color, Color { red: 0x27, green: 0xaa, blue: 0xe1 });
    assert_eq!(m.entry_type, EntryType::CUE);
    assert_eq!(m.is_locked, false);
}

#[test]
fn a_corrupt_reserved_filler_fails() {
    let mut record = CUE_RECORD;
    record[11] = 0x00;
    assert_eq!(marker(&record), Err(Error::MismatchedFiller));
}

#[test]
fn empty_markers_payload() {
    let input = [
        0x02, 0x05, // version
        0x00, 0x00, 0x00, 0x00, // count = 0
        0x01, 0x1e, 0x55, 0x61, // serato32 track color
    ];
    let markers = parse(&input).unwrap();
    assert_eq!(markers.version.major, 0x02);
    assert_eq!(markers.version.minor, 0x05);
    assert_eq!(markers.entries, vec![]);
    assert_eq!(markers.track_color, Color { red: 0x27, green: 0xaa, blue: 0xe1 });
}

#[test]
fn a_trailing_byte_fails() {
    let input = [
        0x02, 0x05, 0x00, 0x00, 0x00, 0x00, 0x01, 0x1e, 0x55, 0x61, 0x00,
    ];
    assert_eq!(parse(&input), Err(Error::TrailingData));
}

#[test]
fn entry_count_is_honoured() {
    let mut input = vec![0x02u8, 0x05, 0x00, 0x00, 0x00, 0x02];
    input.extend_from_slice(&CUE_RECORD);
    input.extend_from_slice(&CUE_RECORD);
    input.extend_from_slice(&[0x01, 0x1e, 0x55, 0x61]);
    let markers = parse(&input).unwrap();
    assert_eq!(markers.entries.len(), 2);
    assert_eq!(markers.entries[0], markers.entries[1]);
    assert_eq!(markers.entries[0].entry_type, EntryType::CUE);
}

#[test]
fn a_missing_entry_is_truncated() {
    // Count says two records but only one well-formed record follows, so
    // the input ends early inside the second one.
    let mut input = vec![0x02u8, 0x05, 0x00, 0x00, 0x00, 0x02];
    input.extend_from_slice(&CUE_RECORD);
    assert_eq!(parse(&input), Err(Error::Truncated));
}

#[test]
fn markers_decode_then_encode_reproduces_the_payload() {
    let mut input = vec![0x02u8, 0x05, 0x00, 0x00, 0x00, 0x02];
    input.extend_from_slice(&CUE_RECORD);
    input.extend_from_slice(&CUE_RECORD);
    input.extend_from_slice(&[0x01, 0x1e, 0x55, 0x61]);
    let markers = parse(&input).unwrap();
    assert_eq!(write_markers(&markers), input);
}

#[test]
fn markers_encode_then_decode_yields_the_tag() {
    let input = [
        0x01u8, 0x00, 0x00, 0x00, 0x00, 0x00, 0x00, 0x00, 0x02, 0x2c,
    ];
    let markers = parse(&input).unwrap();
    let reparsed = parse(&write_markers(&markers)).unwrap();
    assert_eq!(reparsed, markers);
}

#[test]
fn markers_container_key() {
    assert_eq!(<Markers as ID3Tag>::id3_tag(), "Serato Markers_");
}
