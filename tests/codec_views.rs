use bit_viewer::bits::{mask_for, EngineError};
use bit_viewer::codec::{decode, encode, utf8_field_text, Base};

#[test]
fn hex_big_endian_example() {
    assert_eq!(encode(0xFF, 8, Base::HexBE).unwrap(), "0xFF");
    assert_eq!(decode("0xFF", 8, Base::HexBE), Ok(Some(0xFF)));
}

#[test]
fn hex_byte_orders() {
    assert_eq!(encode(0x1234, 16, Base::HexBE).unwrap(), "0x1234");
    assert_eq!(encode(0x1234, 16, Base::HexLE).unwrap(), "0x3412");
    assert_eq!(encode(0xAB, 32, Base::HexBE).unwrap(), "0x000000AB");
    assert_eq!(encode(0xAB, 32, Base::HexLE).unwrap(), "0xAB000000");
    assert_eq!(decode("0x3412", 16, Base::HexLE), Ok(Some(0x1234)));
    assert_eq!(decode("0x1234", 16, Base::HexBE), Ok(Some(0x1234)));
    assert_eq!(decode("0xab000000", 32, Base::HexLE), Ok(Some(0xAB)));
}

#[test]
fn hex_byte_orders_need_every_digit() {
    assert_eq!(decode("0xF", 8, Base::HexBE), Ok(None));
    assert_eq!(decode("12 3", 16, Base::HexLE), Ok(None));
    assert_eq!(decode("12 34", 16, Base::HexLE), Ok(Some(0x3412)));
}

#[test]
fn hex_byte_orders_refuse_extra_digits() {
    assert_eq!(decode("0x123", 8, Base::HexBE), Ok(None));
    assert_eq!(decode("123456", 16, Base::HexLE), Ok(None));
}

#[test]
fn native_hex_keeps_the_digits_the_width_holds() {
    assert_eq!(decode("0x1234", 8, Base::HexNative), Ok(Some(0x12)));
    assert_eq!(decode("0x10000000000000000", 64, Base::HexNative), Ok(Some(0x1000_0000_0000_0000)));
}

#[test]
fn numeric_views() {
    assert_eq!(encode(0x1FF, 8, Base::Decimal).unwrap(), "255");
    assert_eq!(encode(0, 64, Base::Decimal).unwrap(), "0");
    assert_eq!(encode(u64::MAX, 64, Base::Decimal).unwrap(), "18446744073709551615");
    assert_eq!(encode(5, 8, Base::Binary).unwrap(), "0b00000101");
    assert_eq!(encode(0xABC, 16, Base::HexNative).unwrap(), "0xABC");
    assert_eq!(encode(0, 16, Base::HexNative).unwrap(), "0x0");
    assert_eq!(encode(8, 8, Base::Octal).unwrap(), "0o10");
}

#[test]
fn binary_view_is_padded_to_width() {
    let s = encode(1, 32, Base::Binary).unwrap();
    assert_eq!(s.len(), 2 + 32);
    assert!(s.ends_with("01"));
}

#[test]
fn ascii_view_uses_little_endian_bytes() {
    assert_eq!(encode(0x4142, 16, Base::Ascii).unwrap(), "BA");
    assert_eq!(encode(0x0A41, 16, Base::Ascii).unwrap(), "A ");
    assert_eq!(encode(0x7F, 8, Base::Ascii).unwrap(), " ");
}

#[test]
fn utf8_view_uses_big_endian_bytes() {
    assert_eq!(encode(0x4142, 16, Base::Utf8).unwrap(), "AB");
    assert_eq!(encode(0xFF, 8, Base::Utf8).unwrap(), "\u{FFFD}");
    assert_eq!(encode(0xC3A9, 16, Base::Utf8).unwrap(), "\u{e9}");
    assert_eq!(encode(0, 8, Base::Utf8).unwrap(), "\u{0}");
}

#[test]
fn utf8_field_of_empty_text_is_a_space() {
    assert_eq!(utf8_field_text(String::new()), " ");
    assert_eq!(utf8_field_text("ok".to_string()), "ok");
}

#[test]
fn decode_drops_illegal_characters() {
    assert_eq!(decode("12a3", 64, Base::Decimal), Ok(Some(123)));
    assert_eq!(decode("0b1 01", 8, Base::Binary), Ok(Some(5)));
    assert_eq!(decode("0x1f", 16, Base::HexNative), Ok(Some(0x1F)));
    assert_eq!(decode("0o17", 8, Base::Octal), Ok(Some(15)));
    assert_eq!(decode("1 9 8", 8, Base::Octal), Ok(Some(1)));
}

#[test]
fn decode_masks_to_width() {
    assert_eq!(decode("300", 8, Base::Decimal), Ok(Some(44)));
    assert_eq!(decode("0b111111111", 8, Base::Binary), Ok(Some(0xFF)));
}

#[test]
fn decode_without_digits_gives_no_update() {
    assert_eq!(decode("", 64, Base::Decimal), Ok(None));
    assert_eq!(decode("0b", 8, Base::Binary), Ok(None));
    assert_eq!(decode("zz", 16, Base::HexNative), Ok(None));
}

#[test]
fn decode_beyond_64_bits_gives_no_update() {
    assert_eq!(decode("18446744073709551616", 64, Base::Decimal), Ok(None));
    assert_eq!(decode("18446744073709551615", 64, Base::Decimal), Ok(Some(u64::MAX)));
    assert_eq!(decode("2000000000000000000000", 64, Base::Octal), Ok(None));
}

#[test]
fn ascii_text_is_read_as_little_endian_bytes() {
    assert_eq!(decode("A", 8, Base::Ascii), Ok(Some(0x41)));
    assert_eq!(decode("BA", 16, Base::Ascii), Ok(Some(0x4142)));
    assert_eq!(decode("A ~!", 32, Base::Ascii), Ok(Some(0x217E_2041)));
}

#[test]
fn ascii_text_of_another_length_or_unprintable_gives_no_update() {
    assert_eq!(decode("A", 16, Base::Ascii), Ok(None));
    assert_eq!(decode("ABC", 16, Base::Ascii), Ok(None));
    assert_eq!(decode("\u{7}", 8, Base::Ascii), Ok(None));
    assert_eq!(decode("\u{e9}", 8, Base::Ascii), Ok(None));
}

#[test]
fn utf8_view_is_not_read_back() {
    assert_eq!(decode("A", 8, Base::Utf8), Ok(None));
}

#[test]
fn only_a_leading_marker_is_removed() {
    assert_eq!(decode("10b1", 8, Base::Binary), Ok(Some(5)));
    assert_eq!(decode("101", 8, Base::Binary), Ok(Some(5)));
    assert_eq!(decode("0b101", 8, Base::Binary), Ok(Some(5)));
    assert_eq!(decode("10o7", 8, Base::Octal), Ok(Some(0o107)));
    assert_eq!(decode(" 0x FF", 8, Base::HexBE), Ok(Some(0xFF)));
    let long = format!("1{}", "0b".repeat(64));
    assert_eq!(decode(&long, 64, Base::Binary), Ok(None));
    let long = format!("1{}", "0o".repeat(22));
    assert_eq!(decode(&long, 64, Base::Octal), Ok(None));
}

#[test]
fn invalid_width_is_an_error() {
    assert_eq!(encode(1, 12, Base::Decimal), Err(EngineError::InvalidWidth));
    assert_eq!(decode("1", 0, Base::Decimal), Err(EngineError::InvalidWidth));
}

#[test]
fn decode_of_encode_round_trips() {
    let bases = [
        Base::Decimal,
        Base::Binary,
        Base::HexNative,
        Base::HexBE,
        Base::HexLE,
        Base::Octal,
    ];
    let raws = [0u64, 1, 0x7F, 0x80, 0xABCD, 0x1234_5678_9ABC_DEF0, u64::MAX];
    for &width in &[8u64, 16, 32, 64] {
        for &base in &bases {
            for &raw in &raws {
                let text = encode(raw, width, base).unwrap();
                assert_eq!(decode(&text, width, base), Ok(Some(raw & mask_for(width))));
            }
        }
        for &raw in &[0x4142_4344_4546_4748u64, 0x2020_7E7E_2021_3031] {
            let text = encode(raw, width, Base::Ascii).unwrap();
            assert_eq!(decode(&text, width, Base::Ascii), Ok(Some(raw & mask_for(width))));
        }
    }
}
