//! The region classifier: a fixed chain of rules, of which the first that
//! applies decides what a byte window probably holds.

use vstd::prelude::*;
use crate::pointer::{in_rom_window, is_rom_address, le_word, read_word};
use crate::region::RomRegionKind;
use crate::text::{decode_text, decoded_text, table_of, SubstitutionTable, TableModel};

verus! {

/// A window shorter than this is too short to classify.
pub const MIN_WINDOW: usize = 4;

/// The number of leading words that are looked at for pointers.
pub const WORDS_SEEN: usize = 8;

/// The number of pointers among them that makes a pointer table.
pub const WORDS_NEEDED: usize = 4;

/// The number of words of `raw` that are looked at for pointers: its whole
/// words, and at most eight.
pub open spec fn words_seen(raw: Seq<u8>) -> nat {
    if raw.len() / 4 < WORDS_SEEN {
        raw.len() / 4
    } else {
        WORDS_SEEN as nat
    }
}

/// How many of the first `words` words of `raw` hold an address of the ROM
/// window.
pub open spec fn address_words(raw: Seq<u8>, words: nat) -> nat
    decreases words,
{
    if words == 0 {
        0
    } else {
        address_words(raw, (words - 1) as nat) + if in_rom_window(le_word(raw, 4 * (words - 1))) {
            1nat
        } else {
            0nat
        }
    }
}

/// At least four of the words looked at hold an address of the ROM window.
pub open spec fn looks_like_pointers(raw: Seq<u8>) -> bool {
    address_words(raw, words_seen(raw)) >= WORDS_NEEDED
}

/// The low bit of the first byte is set, or bits 1 to 3 of the second byte
/// are all set.
pub open spec fn looks_like_code(raw: Seq<u8>) -> bool {
    raw[0] & 0b1 == 1 || raw[1] & 0b1110 == 0b1110
}

/// One of the byte values that mark asset data.
pub open spec fn marker(b: u8) -> bool {
    b == 0x10 || b == 0x28 || b == 0x78
}

/// Some byte of `raw` is a marker.
pub open spec fn has_marker(raw: Seq<u8>) -> bool {
    exists|i: int| 0 <= i < raw.len() && marker(#[trigger] raw[i])
}

/// The kind of a window, given whether the text decoder finds text in it. A
/// window of fewer than four bytes is `Unknown`; of the others, the first of
/// these rules that applies decides: text, pointers, code, data.
pub open spec fn classification_given(raw: Seq<u8>, is_text: bool) -> RomRegionKind {
    if raw.len() < MIN_WINDOW {
        RomRegionKind::Unknown
    } else if is_text {
        RomRegionKind::Text
    } else if looks_like_pointers(raw) {
        RomRegionKind::PointerTable
    } else if looks_like_code(raw) {
        RomRegionKind::Code
    } else if has_marker(raw) {
        RomRegionKind::Data
    } else {
        RomRegionKind::Unknown
    }
}

/// The kind of a window.
pub open spec fn classification(raw: Seq<u8>, table: Option<TableModel>) -> RomRegionKind {
    classification_given(raw, decoded_text(raw, table) is Some)
}

/// The classifier gives every window one of five kinds, and a window of
/// fewer than four bytes the kind `Unknown`.
pub proof fn classification_is_total(raw: Seq<u8>, is_text: bool)
    ensures
        raw.len() < MIN_WINDOW ==> classification_given(raw, is_text) == RomRegionKind::Unknown,
        ({
            let kind = classification_given(raw, is_text);
            ||| kind == RomRegionKind::Text
            ||| kind == RomRegionKind::PointerTable
            ||| kind == RomRegionKind::Code
            ||| kind == RomRegionKind::Data
            ||| kind == RomRegionKind::Unknown
        }),
{
}

/// Tells whether at least four of the first eight words of `raw` hold an
/// address of the ROM window.
pub fn has_pointer_words(raw: &[u8]) -> (yes: bool)
    ensures
        yes == looks_like_pointers(raw@),
{
    let words: usize = if raw.len() / 4 < WORDS_SEEN {
        raw.len() / 4
    } else {
        WORDS_SEEN
    };
    let mut count: usize = 0;
    let mut w: usize = 0;
    while w < words
        invariant
            w <= words,
            words == words_seen(raw@),
            4 * words <= raw@.len(),
            count == address_words(raw@, w as nat),
            count <= w,
        decreases words - w,
    {
        if is_rom_address(read_word(raw, 4 * w)) {
            count += 1;
        }
        w += 1;
    }
    count >= WORDS_NEEDED
}

/// Tells whether some byte of `raw` is a marker.
pub fn find_marker(raw: &[u8]) -> (yes: bool)
    ensures
        yes == has_marker(raw@),
{
    let mut i: usize = 0;
    while i < raw.len()
        invariant
            i <= raw.len(),
            forall|j: int| 0 <= j < i ==> !marker(#[trigger] raw@[j]),
        decreases raw.len() - i,
    {
        let b = raw[i];
        if b == 0x10 || b == 0x28 || b == 0x78 {
            return true;
        }
        i += 1;
    }
    false
}

/// Classifies a window, given whether the text decoder finds text in it.
pub fn classify_given(raw: &[u8], is_text: bool) -> (kind: RomRegionKind)
    ensures
        kind == classification_given(raw@, is_text),
{
    if raw.len() < MIN_WINDOW {
        return RomRegionKind::Unknown;
    }
    if is_text {
        return RomRegionKind::Text;
    }
    if has_pointer_words(raw) {
        return RomRegionKind::PointerTable;
    }
    if raw[0] & 0b1 == 1 || raw[1] & 0b1110 == 0b1110 {
        return RomRegionKind::Code;
    }
    if find_marker(raw) {
        return RomRegionKind::Data;
    }
    RomRegionKind::Unknown
}

/// Classifies a window.
pub fn classify_window(raw: &[u8], tbl: Option<&SubstitutionTable>) -> (kind: RomRegionKind)
    ensures
        kind == classification(raw@, table_of(tbl)),
        raw@.len() < MIN_WINDOW ==> kind == RomRegionKind::Unknown,
        kind == RomRegionKind::Text || kind == RomRegionKind::PointerTable || kind
            == RomRegionKind::Code || kind == RomRegionKind::Data || kind
            == RomRegionKind::Unknown,
{
    if raw.len() < MIN_WINDOW {
        return RomRegionKind::Unknown;
    }
    let is_text = decode_text(raw, tbl).is_some();
    classify_given(raw, is_text)
}

} // verus!
