use recolor::console::{Color, ColorParseError};

fn ansi24(c: Color) -> String {
    let mut out = Vec::new();
    c.write_as_24bit_ansi(&mut out);
    String::from_utf8(out).unwrap()
}

fn paletted(c: Color) -> String {
    let mut out = Vec::new();
    c.write_as_paletted_ansi(&mut out);
    String::from_utf8(out).unwrap()
}

#[test]
fn from_rgb_keeps_channels() {
    assert_eq!(Color::from_rgb(1, 2, 3), Color(1, 2, 3));
    assert_eq!(Color::default(), Color(0, 0, 0));
}

#[test]
fn lookup_index_is_24_bit_number() {
    assert_eq!(Color(0, 0, 0).lookup_index(), 0);
    assert_eq!(Color(0xAB, 0xCD, 0xEF).lookup_index(), 0xABCDEF);
    assert_eq!(Color(255, 255, 255).lookup_index(), 0xFFFFFF);
}

#[test]
fn dist2_is_squared_distance() {
    assert_eq!(Color(0, 0, 0).dist2(Color(255, 255, 255)), 3 * 255 * 255);
    assert_eq!(Color(10, 20, 30).dist2(Color(13, 16, 30)), 9 + 16);
    assert_eq!(Color(13, 16, 30).dist2(Color(10, 20, 30)), 25);
}

#[test]
fn truecolor_escape_is_exact() {
    assert_eq!(ansi24(Color(10, 20, 30)), "\u{1b}[38;2;10;20;30m");
    assert_eq!(ansi24(Color(0, 9, 255)), "\u{1b}[38;2;0;9;255m");
    assert_eq!(ansi24(Color(100, 101, 99)), "\u{1b}[38;2;100;101;99m");
}

#[test]
fn truecolor_escape_appends() {
    let mut out = vec![b'x'];
    Color(1, 2, 3).write_as_24bit_ansi(&mut out);
    assert_eq!(out, b"x\x1b[38;2;1;2;3m".to_vec());
}

#[test]
fn palette_picks_nearest_entry() {
    assert_eq!(paletted(Color(0, 0, 0)), "\u{1b}[0;30m");
    assert_eq!(paletted(Color(210, 5, 5)), "\u{1b}[0;31m");
    assert_eq!(paletted(Color(0, 190, 0)), "\u{1b}[0;32m");
    assert_eq!(paletted(Color(0, 0, 255)), "\u{1b}[0;34m");
    assert_eq!(paletted(Color(255, 255, 255)), "\u{1b}[0;37m");
    assert_eq!(Color(190, 190, 10).nearest_palette_index(), 3);
}

#[test]
fn palette_tie_goes_to_first_entry() {
    // (100, 0, 0) is as far from black as from (200, 0, 0).
    assert_eq!(Color(100, 0, 0).nearest_palette_index(), 0);
    assert_eq!(Color(101, 0, 0).nearest_palette_index(), 1);
}

#[test]
fn interpolate_exact_values() {
    let a = Color(200, 100, 0);
    let b = Color(0, 50, 255);
    // (200 * 128 + 0 * 127) >> 8 = 100, (100 * 128 + 50 * 127) >> 8 = 74,
    // (255 * 127) >> 8 = 126
    assert_eq!(a.rgb_interpolate(b, 127), Color(100, 74, 126));
}

#[test]
fn interpolate_ends_are_within_one() {
    let a = Color(200, 100, 0);
    let b = Color(1, 50, 255);
    assert_eq!(a.rgb_interpolate(b, 0), Color(199, 99, 0));
    assert_eq!(a.rgb_interpolate(b, 255), Color(0, 49, 254));
    assert_eq!(a.rgb_interpolate(a, 77), Color(199, 99, 0));
}

#[test]
fn hex_parses() {
    assert_eq!(Color::from_hex("E40303"), Ok(Color(0xE4, 0x03, 0x03)));
    assert_eq!(Color::from_hex("abcdef"), Ok(Color(0xAB, 0xCD, 0xEF)));
    assert_eq!(Color::from_hex("000000"), Ok(Color(0, 0, 0)));
    assert_eq!(Color::from_hex("+12345"), Ok(Color(0x01, 0x23, 0x45)));
}

#[test]
fn hex_rejects() {
    assert_eq!(Color::from_hex(""), Err(ColorParseError::WrongLength));
    assert_eq!(Color::from_hex("FFF"), Err(ColorParseError::WrongLength));
    assert_eq!(Color::from_hex("1234567"), Err(ColorParseError::WrongLength));
    assert_eq!(Color::from_hex("12345G"), Err(ColorParseError::InvalidHex));
    assert_eq!(Color::from_hex("-12345"), Err(ColorParseError::InvalidHex));
    assert_eq!(Color::from_hex("12 345"), Err(ColorParseError::InvalidHex));
    assert_eq!(Color::from_hex("1234é"), Err(ColorParseError::InvalidHex));
}

#[test]
fn hex_digits_are_upper_case() {
    assert_eq!(Color(0xAB, 0x0C, 0xF0).hex_digits(), b"AB0CF0".to_vec());
    assert_eq!(Color(0, 0, 0).hex_digits(), b"000000".to_vec());
}

#[test]
fn hex_round_trip_samples() {
    let mut n: u32 = 0;
    while n < 0x100_0000 {
        let c = Color((n >> 16) as u8, (n >> 8) as u8, n as u8);
        assert_eq!(Color::from_hex_bytes(&c.hex_digits()), Ok(c));
        n += 4099;
    }
}

#[test]
fn lookup_table_agrees_with_the_search() {
    let table = recolor::console::PaletteLookup::build();
    assert_eq!(table.code(Color(0, 0, 0)), (0, 30));
    assert_eq!(table.code(Color(100, 0, 0)), (0, 30));
    assert_eq!(table.code(Color(101, 0, 0)), (0, 31));
    assert_eq!(table.code(Color(255, 255, 255)), (0, 37));
    let mut n: u32 = 0;
    while n < 0x100_0000 {
        let c = Color((n >> 16) as u8, (n >> 8) as u8, n as u8);
        assert_eq!(table.code(c), (0, 30 + c.nearest_palette_index() as u8));
        n += 7919;
    }
}

#[test]
fn parse_goes_through_from_str() {
    assert_eq!("FF8C00".parse::<Color>(), Ok(Color(0xFF, 0x8C, 0x00)));
    assert_eq!("FF8C0".parse::<Color>(), Err(ColorParseError::WrongLength));
    assert_eq!("FF8C0Z".parse::<Color>(), Err(ColorParseError::InvalidHex));
}

#[test]
fn parse_errors_in_words() {
    assert_eq!(ColorParseError::WrongLength.message(), "Color must have length 6");
    assert_eq!(ColorParseError::InvalidHex.message(), "Invalid hexadecimal");
}
