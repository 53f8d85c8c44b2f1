use rom_atlas::header::{
    bracketed_string, decimal_string, header_checksum, parse_header, push_decimal,
    validate_checksum, HeaderError, CHECKSUM_BIAS, CHECKSUM_END, CHECKSUM_FIRST,
};

fn header_with(title: &[u8]) -> Vec<u8> {
    let mut header = vec![0u8; 192];
    header[0xA0..0xA0 + title.len()].copy_from_slice(title);
    header
}

#[test]
fn bytes_are_written_in_decimal() {
    assert_eq!(decimal_string(0), "0");
    assert_eq!(decimal_string(7), "7");
    assert_eq!(decimal_string(9), "9");
    assert_eq!(decimal_string(10), "10");
    assert_eq!(decimal_string(42), "42");
    assert_eq!(decimal_string(99), "99");
    assert_eq!(decimal_string(100), "100");
    assert_eq!(decimal_string(101), "101");
    assert_eq!(decimal_string(110), "110");
    assert_eq!(decimal_string(200), "200");
    assert_eq!(decimal_string(255), "255");
    for n in 0u8..=255 {
        assert_eq!(decimal_string(n), n.to_string());
    }
    let mut text = "n=".to_string();
    push_decimal(&mut text, 231);
    assert_eq!(text, "n=231");
}

#[test]
fn byte_lists_stand_in_square_brackets() {
    assert_eq!(bracketed_string(&[]), "[]");
    assert_eq!(bracketed_string(&[0]), "[0]");
    assert_eq!(bracketed_string(&[1, 20, 255]), "[1, 20, 255]");
    assert_eq!(bracketed_string(&[100, 9]), "[100, 9]");
    assert_eq!(bracketed_string(b"AB"), format!("{:?}", b"AB"));
}

#[test]
fn a_field_of_text_is_shown_as_bytes_and_text() {
    let header = header_with(b"ZELDA");
    assert_eq!(
        parse_header(&header, 0xA0..0xA5),
        Ok("[90, 69, 76, 68, 65]: ZELDA".to_string())
    );
    assert_eq!(parse_header(&header, 0xA4..0xA7), Ok("[65, 0, 0]: A\0\0".to_string()));
    assert_eq!(parse_header(&header, 0xA0..0xA0), Ok("[]: ".to_string()));
    assert_eq!(parse_header(&header, 192..192), Ok("[]: ".to_string()));
    let header = header_with(&[0xE3, 0x81, 0x82]);
    assert_eq!(parse_header(&header, 0xA0..0xA3), Ok("[227, 129, 130]: \u{3042}".to_string()));
}

#[test]
fn a_field_that_is_no_utf8_is_shown_as_bytes_alone() {
    let header = header_with(&[0x41, 0xFF, 0x42]);
    assert_eq!(parse_header(&header, 0xA0..0xA3), Ok("[65, 255, 66]".to_string()));
    assert_eq!(parse_header(&header, 0xA1..0xA2), Ok("[255]".to_string()));
    let header = header_with(&[0xE3, 0x81, 0x82]);
    assert_eq!(parse_header(&header, 0xA0..0xA2), Ok("[227, 129]".to_string()));
    assert_eq!(parse_header(&header, 0xA1..0xA3), Ok("[129, 130]".to_string()));
    let header = header_with(&[0xC0, 0x80, 0xED, 0xA0, 0x80]);
    assert_eq!(parse_header(&header, 0xA0..0xA2), Ok("[192, 128]".to_string()));
    assert_eq!(parse_header(&header, 0xA2..0xA5), Ok("[237, 160, 128]".to_string()));
}

#[test]
fn a_range_outside_the_header_is_refused() {
    let header = vec![0u8; 192];
    assert_eq!(parse_header(&header, 190..193), Err(HeaderError::OutOfRange));
    assert_eq!(parse_header(&header, 193..193), Err(HeaderError::OutOfRange));
    assert_eq!(parse_header(&header, 5..4), Err(HeaderError::OutOfRange));
    assert_eq!(parse_header(&Vec::new(), 0..1), Err(HeaderError::OutOfRange));
    assert_eq!(parse_header(&Vec::new(), 0..0), Ok("[]: ".to_string()));
}

#[test]
fn the_checksum_takes_the_covered_bytes_and_the_bias_off_zero() {
    assert_eq!(CHECKSUM_FIRST, 0xA0);
    assert_eq!(CHECKSUM_END, 0xBC);
    assert_eq!(CHECKSUM_BIAS, 0x19);
    let mut header = vec![0u8; 192];
    assert_eq!(header_checksum(&header), Ok(0xE7));
    assert_eq!(validate_checksum(&header), Ok("231".to_string()));
    header[0xA0] = 1;
    assert_eq!(header_checksum(&header), Ok(0xE6));
    header[0xBB] = 0xE6;
    assert_eq!(header_checksum(&header), Ok(0));
    assert_eq!(validate_checksum(&header), Ok("0".to_string()));
    header[0xA5] = 1;
    assert_eq!(header_checksum(&header), Ok(0xFF));
    assert_eq!(validate_checksum(&header), Ok("255".to_string()));
}

#[test]
fn bytes_outside_the_covered_range_do_not_count() {
    let mut header = vec![0u8; 192];
    header[0x9F] = 0x55;
    header[0xBC] = 0x66;
    header[0xBD] = 0x77;
    header[0] = 0x88;
    assert_eq!(header_checksum(&header), Ok(0xE7));
    let header = vec![0xFFu8; 192];
    assert_eq!(header_checksum(&header), Ok(3));
    assert_eq!(validate_checksum(&header), Ok("3".to_string()));
}

#[test]
fn a_header_that_ends_too_early_has_no_checksum() {
    assert_eq!(header_checksum(&vec![0u8; 0xBB]), Err(HeaderError::Truncated));
    assert_eq!(validate_checksum(&vec![0u8; 0xBB]), Err(HeaderError::Truncated));
    assert_eq!(validate_checksum(&Vec::new()), Err(HeaderError::Truncated));
    assert_eq!(header_checksum(&vec![0u8; 0xBC]), Ok(0xE7));
    assert_eq!(validate_checksum(&vec![0u8; 0xBC]), Ok("231".to_string()));
}
