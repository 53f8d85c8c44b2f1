use rom_atlas::classify::{
    classify_given, classify_window, find_marker, has_pointer_words, MIN_WINDOW, WORDS_NEEDED,
    WORDS_SEEN,
};
use rom_atlas::text::SubstitutionTable;
use rom_atlas::RomRegionKind;

const ADDRESS_WORD: [u8; 4] = [0x01, 0xDC, 0x85, 0x08];

fn words(address_words: usize, other_words: usize) -> Vec<u8> {
    let mut raw = Vec::new();
    for _ in 0..address_words {
        raw.extend_from_slice(&ADDRESS_WORD);
    }
    for _ in 0..other_words {
        raw.extend_from_slice(&[0x02, 0xDC, 0x85, 0x07]);
    }
    raw
}

#[test]
fn windows_of_fewer_than_four_bytes_are_unknown() {
    assert_eq!(MIN_WINDOW, 4);
    for raw in [&b""[..], &b"A"[..], &b"AB"[..], &b"ABC"[..]] {
        assert_eq!(classify_window(raw, None), RomRegionKind::Unknown);
        assert_eq!(classify_given(raw, true), RomRegionKind::Unknown);
        assert_eq!(classify_given(raw, false), RomRegionKind::Unknown);
    }
    assert_eq!(classify_window(b"ABCD", None), RomRegionKind::Text);
}

#[test]
fn text_comes_before_every_other_rule() {
    let raw = words(8, 0);
    assert_eq!(classify_given(&raw, true), RomRegionKind::Text);
    assert_eq!(classify_given(&raw, false), RomRegionKind::PointerTable);
    assert_eq!(classify_window(b"\x01xxx(((", None), RomRegionKind::Text);
}

#[test]
fn four_address_words_among_the_first_eight_make_a_pointer_table() {
    assert_eq!(WORDS_SEEN, 8);
    assert_eq!(WORDS_NEEDED, 4);
    assert!(has_pointer_words(&words(4, 0)));
    assert!(!has_pointer_words(&words(3, 0)));
    assert!(!has_pointer_words(&words(3, 5)));
    assert!(has_pointer_words(&words(4, 4)));
    let mut late = words(0, 5);
    late.extend_from_slice(&words(4, 0));
    assert!(!has_pointer_words(&late));
    let mut spread = Vec::new();
    for _ in 0..4 {
        spread.extend_from_slice(&words(0, 1));
        spread.extend_from_slice(&words(1, 0));
    }
    assert!(has_pointer_words(&spread));
    let mut ragged = words(4, 0);
    ragged.extend_from_slice(&[0x01, 0xDC, 0x85]);
    assert!(has_pointer_words(&ragged));
    assert_eq!(classify_window(&words(4, 0), None), RomRegionKind::PointerTable);
}

#[test]
fn address_words_count_by_the_window_alone() {
    let mut raw = Vec::new();
    for value in [0x0800_0000u32, 0x09FF_FFFF, 0x0812_3456, 0x0900_0000] {
        raw.extend_from_slice(&value.to_le_bytes());
    }
    assert!(has_pointer_words(&raw));
    let mut raw = Vec::new();
    for value in [0x0800_0000u32, 0x0A00_0000, 0x0812_3456, 0x0900_0000] {
        raw.extend_from_slice(&value.to_le_bytes());
    }
    assert!(!has_pointer_words(&raw));
}

#[test]
fn pointers_come_before_code() {
    let raw = words(4, 0);
    assert_eq!(raw[0] & 1, 1);
    assert_eq!(classify_given(&raw, false), RomRegionKind::PointerTable);
}

#[test]
fn a_set_low_bit_of_the_first_byte_is_code() {
    let raw = [0x01u8, 0xDC, 0x85, 0x08, 0xFE];
    assert_eq!(classify_window(&raw, None), RomRegionKind::Code);
    assert_eq!(classify_given(&[0x01, 0x00, 0x10, 0x00], false), RomRegionKind::Code);
    assert_eq!(classify_given(&[0xFF, 0x00, 0x00, 0x00], false), RomRegionKind::Code);
}

#[test]
fn bits_one_to_three_of_the_second_byte_are_code() {
    let raw = [0x02u8, 0x0E, 0xFE, 0x03, 0xFD];
    assert_eq!(classify_window(&raw, None), RomRegionKind::Code);
    assert_eq!(classify_given(&[0x02, 0x0E, 0x10, 0x00], false), RomRegionKind::Code);
    assert_eq!(classify_given(&[0x02, 0xFF, 0x00, 0x00], false), RomRegionKind::Code);
    assert_eq!(classify_given(&[0x02, 0x1E, 0x00, 0x00], false), RomRegionKind::Code);
    assert_eq!(classify_given(&[0x02, 0x0C, 0x00, 0x00], false), RomRegionKind::Unknown);
    assert_eq!(classify_given(&[0x02, 0x06, 0x00, 0x00], false), RomRegionKind::Unknown);
    assert_eq!(classify_given(&[0x02, 0xF1, 0x00, 0x00], false), RomRegionKind::Unknown);
}

#[test]
fn a_marker_byte_is_data() {
    let raw = [0x02u8, 0x00, 0xFE, 0x10, 0xFD];
    assert_eq!(classify_window(&raw, None), RomRegionKind::Data);
    assert_eq!(classify_given(&[0x02, 0x00, 0x00, 0x28], false), RomRegionKind::Data);
    assert_eq!(classify_given(&[0x78, 0x00, 0x00, 0x00], false), RomRegionKind::Data);
    assert_eq!(classify_given(&[0x02, 0x00, 0x00, 0x00, 0x00, 0x10], false), RomRegionKind::Data);
    assert!(find_marker(&[0x00, 0x10]));
    assert!(find_marker(&[0x28]));
    assert!(find_marker(&[0x01, 0x02, 0x78]));
    assert!(!find_marker(&[0x11, 0x27, 0x29, 0x77, 0x79, 0x0F]));
    assert!(!find_marker(&[]));
}

#[test]
fn what_no_rule_takes_is_unknown() {
    let raw = [0x02u8, 0x00, 0xFE, 0x03, 0xFD];
    assert_eq!(classify_window(&raw, None), RomRegionKind::Unknown);
    assert_eq!(classify_given(&[0x02, 0x00, 0x00, 0x00], false), RomRegionKind::Unknown);
}

#[test]
fn the_table_of_the_rom_can_make_a_window_text() {
    let raw = [0x02u8, 0x00, 0xFE, 0x03, 0xFD];
    let mut table = SubstitutionTable::new();
    assert!(table.insert(vec![0xFE, 0x03], "!".to_string()));
    assert_eq!(classify_window(&raw, Some(&table)), RomRegionKind::Text);
    assert_eq!(classify_window(&raw[..3], Some(&table)), RomRegionKind::Unknown);
}

#[test]
fn the_classifier_gives_one_of_five_kinds_and_the_same_each_time() {
    let mut seed: u32 = 0x2545_F491;
    for len in 0..96usize {
        let mut raw = Vec::with_capacity(len);
        for _ in 0..len {
            seed = seed.wrapping_mul(1_664_525).wrapping_add(1_013_904_223);
            raw.push((seed >> 24) as u8);
        }
        let kind = classify_window(&raw, None);
        assert!(matches!(
            kind,
            RomRegionKind::Text
                | RomRegionKind::PointerTable
                | RomRegionKind::Code
                | RomRegionKind::Data
                | RomRegionKind::Unknown
        ));
        assert_eq!(classify_window(&raw, None), kind);
        if len < 4 {
            assert_eq!(kind, RomRegionKind::Unknown);
        }
    }
}
