use rom_atlas::text::{
    decode_text, decode_utf16_le, fits_shift_jis, is_mostly_text, is_padding, is_text_byte,
    keep_text, read_lossy, read_shift_jis, read_table, same_bytes, starts_with_at, trim_padding,
    SubstitutionTable,
};

fn table_of(pairs: &[(&[u8], &str)]) -> SubstitutionTable {
    let mut table = SubstitutionTable::new();
    for (key, value) in pairs {
        assert!(table.insert(key.to_vec(), value.to_string()));
    }
    table
}

#[test]
fn text_bytes_are_graphic_ascii_and_six_others() {
    for b in 0x21u8..=0x7E {
        assert!(is_text_byte(b));
    }
    for b in [0x20u8, 0x00, 0xFF, 0x0A, 0x0D, 0x09] {
        assert!(is_text_byte(b));
    }
    for b in [0x01u8, 0x08, 0x0B, 0x0C, 0x1F, 0x7F, 0x80, 0xA0, 0xFE] {
        assert!(!is_text_byte(b));
    }
    let count = (0u8..=255).filter(|b| is_text_byte(*b)).count();
    assert_eq!(count, 94 + 6);
}

#[test]
fn seven_tenths_of_text_bytes_are_enough() {
    let mut raw = vec![0x41u8; 7];
    raw.extend_from_slice(&[0x01, 0x01, 0x01]);
    assert!(is_mostly_text(&raw));
    let mut raw = vec![0x41u8; 6];
    raw.extend_from_slice(&[0x01, 0x01, 0x01, 0x01]);
    assert!(!is_mostly_text(&raw));
    let mut raw = vec![0x41u8; 69];
    raw.extend_from_slice(&[0x01; 31]);
    assert!(!is_mostly_text(&raw));
    let mut raw = vec![0x41u8; 70];
    raw.extend_from_slice(&[0x01; 30]);
    assert!(is_mostly_text(&raw));
}

#[test]
fn an_empty_window_is_not_mostly_text() {
    assert!(!is_mostly_text(&[]));
    assert_eq!(decode_utf16_le(&[]), Some(String::new()));
    assert_eq!(decode_text(&[], None), Some(String::new()));
}

#[test]
fn padding_is_nul_and_on_demand_the_replacement_character() {
    assert!(is_padding('\0', false));
    assert!(is_padding('\0', true));
    assert!(is_padding('\u{FFFD}', true));
    assert!(!is_padding('\u{FFFD}', false));
    assert!(!is_padding(' ', true));
    assert!(!is_padding('A', false));
}

#[test]
fn trimming_takes_off_trailing_padding_only() {
    assert_eq!(trim_padding("AB\0\0".to_string(), false), "AB");
    assert_eq!(trim_padding("\0A\0B\0".to_string(), false), "\0A\0B");
    assert_eq!(trim_padding("AB\u{FFFD}\0\u{FFFD}".to_string(), true), "AB");
    assert_eq!(trim_padding("AB\0\u{FFFD}".to_string(), false), "AB\0\u{FFFD}");
    assert_eq!(trim_padding("\0\0\0".to_string(), false), "");
    assert_eq!(trim_padding(String::new(), true), "");
    assert_eq!(trim_padding("AB ".to_string(), true), "AB ");
}

#[test]
fn a_reading_that_is_all_padding_is_not_kept() {
    assert_eq!(keep_text("\0\0".to_string(), false), None);
    assert_eq!(keep_text("\u{FFFD}\0".to_string(), true), None);
    assert_eq!(keep_text("\u{FFFD}\0".to_string(), false), Some("\u{FFFD}".to_string()));
    assert_eq!(keep_text("x\0".to_string(), false), Some("x".to_string()));
    assert_eq!(keep_text(String::new(), false), None);
}

#[test]
fn utf16_le_window_decodes_up_to_the_zero_unit() {
    let raw = [0x41u8, 0x00, 0x42, 0x00, 0x00, 0x00];
    assert_eq!(decode_utf16_le(&raw), Some("AB".to_string()));
}

#[test]
fn nul_bytes_count_as_text_so_the_first_reading_takes_ascii_in_utf16() {
    let raw = [0x41u8, 0x00, 0x42, 0x00, 0x00, 0x00];
    assert_eq!(decode_text(&raw, None), Some("A\0B".to_string()));
}

#[test]
fn utf16_le_is_the_reading_of_a_window_that_is_not_mostly_text() {
    let raw = [0x01u8, 0x04, 0x02, 0x04, 0x00, 0x00];
    assert_eq!(decode_text(&raw, None), Some("\u{401}\u{402}".to_string()));
}

#[test]
fn utf16_le_stops_at_the_first_zero_unit() {
    let raw = [0x41u8, 0x00, 0x00, 0x00, 0x00, 0xD8, 0x42, 0x00];
    assert_eq!(decode_utf16_le(&raw), Some("A".to_string()));
    let raw = [0x00u8, 0x00, 0x41, 0x00];
    assert_eq!(decode_utf16_le(&raw), Some(String::new()));
}

#[test]
fn utf16_le_without_a_zero_unit_decodes_the_whole_window() {
    let raw = [0x42u8, 0x30, 0xAC, 0x20];
    assert_eq!(decode_utf16_le(&raw), Some("\u{3042}\u{20AC}".to_string()));
}

#[test]
fn utf16_le_rejects_odd_lengths_and_surrogates() {
    assert_eq!(decode_utf16_le(&[0x41, 0x00, 0x42]), None);
    assert_eq!(decode_utf16_le(&[0x41]), None);
    assert_eq!(decode_utf16_le(&[0x41, 0x00, 0x00, 0xD8]), None);
    assert_eq!(decode_utf16_le(&[0xFF, 0xDF, 0x41, 0x00]), None);
    assert_eq!(decode_utf16_le(&[0xFF, 0xD7]), Some("\u{D7FF}".to_string()));
    assert_eq!(decode_utf16_le(&[0x00, 0xE0]), Some("\u{E000}".to_string()));
}

#[test]
fn graphic_ascii_with_a_tail_of_nuls_reads_as_the_graphic_part() {
    let raw = b"HELLO!\0\0\0\0";
    assert_eq!(decode_text(raw, None), Some("HELLO!".to_string()));
    let raw = b"~";
    assert_eq!(decode_text(raw, None), Some("~".to_string()));
    let all: Vec<u8> = (0x21u8..=0x7E).chain([0u8, 0u8]).collect();
    let text: String = (0x21u8..=0x7E).map(|b| b as char).collect();
    assert_eq!(decode_text(&all, None), Some(text));
}

#[test]
fn lossy_reading_puts_the_replacement_character_for_ill_formed_bytes() {
    assert_eq!(decode_text(&[0x41, 0x80, 0x42, 0x43], None), Some("A\u{FFFD}BC".to_string()));
    assert_eq!(decode_text(&[0x41, 0x42, 0x43, 0x80], None), Some("ABC".to_string()));
    assert_eq!(read_lossy(&[0x41, 0x42, 0x43, 0x80], "ABC\u{FFFD}".to_string()), Some("ABC".to_string()));
}

#[test]
fn lossy_reading_needs_a_window_that_is_mostly_text() {
    let raw = [0x41u8, 0x01, 0x01, 0x01];
    assert_eq!(read_lossy(&raw, "A\u{1}\u{1}\u{1}".to_string()), None);
    let raw = [0x41u8, 0x42, 0x43, 0x01];
    assert_eq!(read_lossy(&raw, "ABC\u{1}".to_string()), Some("ABC\u{1}".to_string()));
    assert_eq!(read_lossy(&[0x00, 0x00, 0x00], "\0\0\0".to_string()), None);
}

#[test]
fn multi_byte_utf8_is_read_by_the_first_reading() {
    let mut raw = b"caf".to_vec();
    raw.extend_from_slice(&[0xC3, 0xA9]);
    raw.extend_from_slice(b" au lait");
    assert_eq!(decode_text(&raw, None), Some("caf\u{E9} au lait".to_string()));
}

#[test]
fn shift_jis_reads_what_the_first_two_readings_do_not() {
    let raw = [0x93u8, 0xFA, 0x96, 0x7B, 0x41];
    assert_eq!(decode_text(&raw, None), Some("\u{65E5}\u{672C}A".to_string()));
    let raw = [0x83u8, 0x65, 0x83, 0x58, 0x83, 0x67, 0x00];
    assert_eq!(decode_text(&raw, None), Some("\u{30C6}\u{30B9}\u{30C8}".to_string()));
}

#[test]
fn shift_jis_reading_is_dropped_on_errors() {
    assert_eq!(read_shift_jis("abc".to_string(), true), None);
    assert_eq!(read_shift_jis("abc\0\0".to_string(), false), Some("abc".to_string()));
    assert_eq!(read_shift_jis("\0\0".to_string(), false), None);
    assert_eq!(read_shift_jis("a\u{FFFD}".to_string(), false), Some("a\u{FFFD}".to_string()));
    assert_eq!(decode_text(&[0x01, 0xFE, 0x02], None), None);
    assert_eq!(decode_text(&[0x02, 0x03, 0x81], None), None);
}

#[test]
fn windows_of_ordinary_length_fit_the_shift_jis_decoder() {
    assert!(fits_shift_jis(0));
    assert!(fits_shift_jis(1024));
    assert!(fits_shift_jis(32 * 1024 * 1024));
    assert!(fits_shift_jis((isize::MAX as usize - 3) / 3));
    assert!(!fits_shift_jis((isize::MAX as usize - 3) / 3 + 1));
    assert!(!fits_shift_jis(usize::MAX));
}

#[test]
fn substitution_table_skips_unmapped_bytes() {
    let table = table_of(&[(&[0xFE], "<END>")]);
    let raw = [0x01u8, 0xFE, 0x02];
    assert_eq!(table.substitute(&raw), "<END>");
    assert_eq!(decode_text(&raw, Some(&table)), Some("<END>".to_string()));
    assert_eq!(decode_text(&raw, None), None);
}

#[test]
fn substitution_advances_by_the_length_of_the_pattern() {
    let table = table_of(&[(&[0x01, 0x02], "ab"), (&[0x02], "b"), (&[0x03], "c")]);
    assert_eq!(table.substitute(&[0x01, 0x02, 0x03]), "abc");
    assert_eq!(table.substitute(&[0x02, 0x01, 0x02, 0x02]), "babb");
    assert_eq!(table.substitute(&[0x01, 0x01, 0x03, 0x01]), "c");
    assert_eq!(table.substitute(&[]), "");
    assert_eq!(table.substitute(&[0x09, 0x09]), "");
}

#[test]
fn the_first_entry_that_matches_wins() {
    let short_first = table_of(&[(&[0x01], "a"), (&[0x01, 0x02], "b")]);
    assert_eq!(short_first.substitute(&[0x01, 0x02]), "a");
    let long_first = table_of(&[(&[0x01, 0x02], "b"), (&[0x01], "a")]);
    assert_eq!(long_first.substitute(&[0x01, 0x02]), "b");
    assert_eq!(long_first.substitute(&[0x01, 0x03]), "a");
    assert_eq!(short_first.find_match(&[0x01, 0x02], 0), Some(0));
    assert_eq!(long_first.find_match(&[0x01, 0x02], 0), Some(0));
    assert_eq!(long_first.find_match(&[0x01, 0x03], 0), Some(1));
    assert_eq!(long_first.find_match(&[0x01, 0x03], 1), None);
    assert_eq!(long_first.find_match(&[0x01, 0x03], 2), None);
}

#[test]
fn inserting_a_pattern_again_replaces_its_replacement_in_place() {
    let mut table = SubstitutionTable::new();
    assert_eq!(table.len(), 0);
    assert!(table.insert(vec![0x01], "one".to_string()));
    assert!(table.insert(vec![0x01, 0x02], "both".to_string()));
    assert_eq!(table.len(), 2);
    assert_eq!(table.position(&[0x01]), Some(0));
    assert_eq!(table.position(&[0x01, 0x02]), Some(1));
    assert_eq!(table.position(&[0x02]), None);
    assert!(table.insert(vec![0x01], "uno".to_string()));
    assert_eq!(table.len(), 2);
    assert_eq!(table.position(&[0x01]), Some(0));
    assert_eq!(table.substitute(&[0x01, 0x02]), "uno");
}

#[test]
fn an_empty_pattern_is_refused() {
    let mut table = SubstitutionTable::new();
    assert!(!table.insert(Vec::new(), "nothing".to_string()));
    assert_eq!(table.len(), 0);
    assert_eq!(table.substitute(&[0x01, 0x02]), "");
    assert_eq!(read_table(&[0x01, 0x02], Some(&table)), None);
}

#[test]
fn a_table_reading_that_is_empty_is_no_reading() {
    let table = table_of(&[(&[0x05], ""), (&[0x06], "six")]);
    assert_eq!(read_table(&[0x05, 0x05], Some(&table)), None);
    assert_eq!(read_table(&[0x05, 0x06], Some(&table)), Some("six".to_string()));
    assert_eq!(read_table(&[0x05, 0x06], None), None);
}

#[test]
fn earlier_readings_come_before_the_table() {
    let table = table_of(&[(b"A", "<a>")]);
    assert_eq!(decode_text(b"AAAA", Some(&table)), Some("AAAA".to_string()));
    let raw = [0x41u8, 0x01, 0x02, 0x03, 0xFE];
    assert_eq!(decode_text(&raw, Some(&table)), Some("<a>".to_string()));
}

#[test]
fn patterns_are_found_at_an_offset() {
    let raw = [0x10u8, 0x20, 0x30, 0x40];
    assert!(starts_with_at(&raw, 0, &[0x10, 0x20]));
    assert!(starts_with_at(&raw, 2, &[0x30, 0x40]));
    assert!(!starts_with_at(&raw, 3, &[0x40, 0x50]));
    assert!(!starts_with_at(&raw, 1, &[0x10]));
    assert!(starts_with_at(&raw, 3, &[0x40]));
    assert!(!starts_with_at(&raw, 4, &[0x40]));
    assert!(!starts_with_at(&raw, 0, &[]));
    assert!(!starts_with_at(&raw, 4, &[]));
    assert!(!starts_with_at(&raw, usize::MAX, &[0x10]));
    assert!(same_bytes(&raw, &[0x10, 0x20, 0x30, 0x40]));
    assert!(!same_bytes(&raw, &[0x10, 0x20, 0x30]));
    assert!(!same_bytes(&raw, &[0x10, 0x20, 0x30, 0x41]));
    assert!(same_bytes(&[], &[]));
}
