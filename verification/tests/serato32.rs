use serato_tags::error::Error;
use serato_tags::serato32::encode_color;
use serato_tags::serato32::encode_u32;
use serato_tags::serato32::take_color;
use serato_tags::serato32::take_u32;
use serato_tags::util::Color;

#[test]
fn decodes_a_packed_u32() {
    // (0x00 << 21) | (0x00 << 14) | (0x01 << 7) | 0x2c
    let (rest, value) = take_u32(&[0x00, 0x00, 0x01, 0x2c]).unwrap();
    assert_eq!(rest, &[][..] as &[u8]);
    assert_eq!(value, 172);

    let (rest, value) = take_u32(&[0x7f, 0x7f, 0x7f, 0x7f, 0x09]).unwrap();
    assert_eq!(rest, &[0x09u8][..]);
    assert_eq!(value, 0x0fff_ffff);
}

#[test]
fn decode_then_encode_is_the_identity_on_safe_bytes() {
    let groups: [[u8; 4]; 4] = [
        [0x00, 0x00, 0x01, 0x2c],
        [0x01, 0x1e, 0x55, 0x61],
        [0x7f, 0x7f, 0x7f, 0x7f],
        [0x00, 0x00, 0x00, 0x00],
    ];
    for group in groups.iter() {
        let (_, value) = take_u32(group).unwrap();
        assert_eq!(encode_u32(value), group.to_vec());
    }
}

#[test]
fn a_set_top_bit_fails() {
    assert_eq!(take_u32(&[0x80, 0x00, 0x00, 0x00]), Err(Error::InvalidDiscriminant));
    assert_eq!(take_u32(&[0x00, 0xff, 0x00, 0x00]), Err(Error::InvalidDiscriminant));
    assert_eq!(take_u32(&[0x00, 0x00, 0x9a, 0x00]), Err(Error::InvalidDiscriminant));
    assert_eq!(take_u32(&[0x00, 0x00, 0x00, 0x80]), Err(Error::InvalidDiscriminant));
}

#[test]
fn fewer_than_four_bytes_is_truncated() {
    assert_eq!(take_u32(&[]), Err(Error::Truncated));
    assert_eq!(take_u32(&[0x00, 0x00, 0x01]), Err(Error::Truncated));
}

#[test]
fn encodes_a_value_into_safe_bytes() {
    // 300 = (0x02 << 7) | 0x2c
    assert_eq!(encode_u32(300), vec![0x00, 0x00, 0x02, 0x2c]);
    assert_eq!(encode_u32(0), vec![0x00, 0x00, 0x00, 0x00]);
    assert_eq!(encode_u32(0x0fff_ffff), vec![0x7f, 0x7f, 0x7f, 0x7f]);
}

#[test]
fn decodes_a_packed_color() {
    // 0x27AAE1, the application's loop color.
    let (rest, color) = take_color(&[0x01, 0x1e, 0x55, 0x61]).unwrap();
    assert_eq!(rest, &[][..] as &[u8]);
    assert_eq!(color, Color { red: 0x27, green: 0xaa, blue: 0xe1 });
}

#[test]
fn encodes_a_color_into_safe_bytes() {
    let color = Color { red: 0x27, green: 0xaa, blue: 0xe1 };
    assert_eq!(encode_color(&color), vec![0x01, 0x1e, 0x55, 0x61]);
    let white = Color { red: 0xff, green: 0xff, blue: 0xff };
    let bytes = encode_color(&white);
    let (_, decoded) = take_color(&bytes).unwrap();
    assert_eq!(decoded, white);
}
