//! The text decoder: a fallback chain of readings of a byte window.
//!
//! A window is read, in this order, as mostly printable UTF-8, as UTF-16
//! little-endian, as Shift-JIS and through a substitution table. The first
//! reading that yields text is the window's text.

use vstd::prelude::*;
use vstd::string::StringExecFns;
use vstd::utf8::{decode_utf8, is_scalar, valid_utf8};

verus! {

/// `String::push` appends one character.
pub assume_specification[ String::push ](s: &mut String, ch: char)
    ensures
        final(s)@ == old(s)@.push(ch),
;

/// `String::pop` removes the last character and returns it, or returns
/// `None` and leaves the string alone when it is empty.
pub assume_specification[ String::pop ](s: &mut String) -> (last: Option<char>)
    ensures
        old(s)@.len() == 0 ==> last is None && final(s)@ == old(s)@,
        old(s)@.len() > 0 ==> last == Some(old(s)@.last()) && final(s)@ == old(s)@.drop_last(),
;

/// `char::from_u32` gives the character with the given scalar value, and
/// `None` for a surrogate or a value past `0x10FFFF`.
pub assume_specification[ char::from_u32 ](i: u32) -> (c: Option<char>)
    ensures
        c is Some <==> is_scalar(i),
        c is Some ==> c->0 as u32 == i,
;

/// The text of an optional string.
pub open spec fn text_of(s: Option<String>) -> Option<Seq<char>> {
    match s {
        Some(s) => Some(s@),
        None => None,
    }
}

/// A byte that counts as text: graphic ASCII, space, NUL, `0xFF`, line feed,
/// carriage return or tab.
pub open spec fn text_byte(b: u8) -> bool {
    ||| 0x21 <= b <= 0x7E
    ||| b == 0x20
    ||| b == 0x00
    ||| b == 0xFF
    ||| b == 0x0A
    ||| b == 0x0D
    ||| b == 0x09
}

/// Tells whether `b` counts as text.
pub fn is_text_byte(b: u8) -> (yes: bool)
    ensures
        yes == text_byte(b),
{
    (0x21 <= b && b <= 0x7E) || b == 0x20 || b == 0x00 || b == 0xFF || b == 0x0A || b == 0x0D
        || b == 0x09
}

/// The number of text bytes in `raw`.
pub open spec fn text_byte_count(raw: Seq<u8>) -> nat
    decreases raw.len(),
{
    if raw.len() == 0 {
        0
    } else {
        text_byte_count(raw.drop_last()) + if text_byte(raw.last()) {
            1nat
        } else {
            0nat
        }
    }
}

/// At least seven tenths of the bytes of `raw` are text bytes. An empty
/// window is counted as one byte that is no text.
pub open spec fn mostly_text(raw: Seq<u8>) -> bool {
    10 * text_byte_count(raw) >= 7 * (if raw.len() == 0 {
        1
    } else {
        raw.len()
    })
}

/// Tells whether at least seven tenths of `raw` are text bytes.
pub fn is_mostly_text(raw: &[u8]) -> (yes: bool)
    ensures
        yes == mostly_text(raw@),
{
    let mut count: usize = 0;
    let mut i: usize = 0;
    while i < raw.len()
        invariant
            i <= raw.len(),
            count <= i,
            count == text_byte_count(raw@.take(i as int)),
        decreases raw.len() - i,
    {
        assert(raw@.take(i as int + 1).drop_last() =~= raw@.take(i as int));
        if is_text_byte(raw[i]) {
            count += 1;
        }
        i += 1;
    }
    assert(raw@.take(raw.len() as int) =~= raw@);
    let total: usize = if raw.len() == 0 {
        1
    } else {
        raw.len()
    };
    (count as u128) * 10 >= (total as u128) * 7
}

/// A character that is dropped from the end of a reading: NUL, and the
/// replacement character where `replacement` says so.
pub open spec fn padding(c: char, replacement: bool) -> bool {
    c == '\0' || (replacement && c == '\u{FFFD}')
}

/// `s` without its trailing padding.
pub open spec fn trimmed(s: Seq<char>, replacement: bool) -> Seq<char>
    decreases s.len(),
{
    if s.len() > 0 && padding(s.last(), replacement) {
        trimmed(s.drop_last(), replacement)
    } else {
        s
    }
}

/// Tells whether `c` is padding.
pub fn is_padding(c: char, replacement: bool) -> (yes: bool)
    ensures
        yes == padding(c, replacement),
{
    c == '\0' || (replacement && c == '\u{FFFD}')
}

/// Drops the trailing padding of `s`.
pub fn trim_padding(s: String, replacement: bool) -> (t: String)
    ensures
        t@ == trimmed(s@, replacement),
{
    let mut t = s;
    loop
        invariant
            trimmed(t@, replacement) == trimmed(s@, replacement),
        ensures
            t@ == trimmed(s@, replacement),
        decreases t@.len(),
    {
        let ghost before = t@;
        match t.pop() {
            None => {
                break ;
            },
            Some(c) => {
                if !is_padding(c, replacement) {
                    t.push(c);
                    assert(t@ =~= before);
                    break ;
                }
            },
        }
    }
    t
}

/// A reading counts only if it is not empty.
pub open spec fn kept(text: Seq<char>) -> Option<Seq<char>> {
    if text.len() > 0 {
        Some(text)
    } else {
        None
    }
}

/// Drops the trailing padding of `s` and keeps what is left, unless nothing
/// is left.
pub fn keep_text(s: String, replacement: bool) -> (text: Option<String>)
    ensures
        text_of(text) == kept(trimmed(s@, replacement)),
{
    let t = trim_padding(s, replacement);
    if t.as_str().is_empty() {
        None
    } else {
        Some(t)
    }
}

/// The `k`-th little-endian 16-bit unit of `raw`.
pub open spec fn utf16_unit(raw: Seq<u8>, k: int) -> int {
    raw[2 * k] + 256 * raw[2 * k + 1]
}

/// A 16-bit unit that is half of a surrogate pair, and so no character.
pub open spec fn surrogate(unit: int) -> bool {
    0xD800 <= unit <= 0xDFFF
}

/// The index of the first zero unit of `raw` at or after `from`, or the
/// number of whole units where there is none.
pub open spec fn utf16_stop(raw: Seq<u8>, from: int) -> int
    decreases raw.len() - 2 * from,
{
    if from < 0 || 2 * from + 2 > raw.len() || utf16_unit(raw, from) == 0 {
        from
    } else {
        utf16_stop(raw, from + 1)
    }
}

/// The reading of `raw` as UTF-16 little-endian: the units before the first
/// zero unit, each one character. There is none where the length is odd or
/// one of those units is a surrogate.
pub open spec fn utf16le_reading(raw: Seq<u8>) -> Option<Seq<char>> {
    let stop = utf16_stop(raw, 0);
    if raw.len() % 2 != 0 {
        None
    } else if exists|k: int| 0 <= k < stop && surrogate(#[trigger] utf16_unit(raw, k)) {
        None
    } else {
        Some(Seq::new(stop as nat, |k: int| utf16_unit(raw, k) as char))
    }
}

/// The stop of a window lies at or after the unit the search starts from,
/// within the whole units, and no unit between the two is zero.
pub proof fn lemma_utf16_stop(raw: Seq<u8>, from: int)
    requires
        0 <= from,
        2 * from <= raw.len(),
    ensures
        from <= utf16_stop(raw, from),
        2 * utf16_stop(raw, from) <= raw.len(),
        forall|k: int| from <= k < utf16_stop(raw, from) ==> utf16_unit(raw, k) != 0,
        2 * utf16_stop(raw, from) + 2 <= raw.len() ==> utf16_unit(raw, utf16_stop(raw, from)) == 0,
    decreases raw.len() - 2 * from,
{
    if 2 * from + 2 > raw.len() || utf16_unit(raw, from) == 0 {
    } else {
        lemma_utf16_stop(raw, from + 1);
    }
}

/// Reads `raw` as UTF-16 little-endian, up to the first zero unit.
pub fn decode_utf16_le(raw: &[u8]) -> (text: Option<String>)
    ensures
        text_of(text) == utf16le_reading(raw@),
{
    if raw.len() % 2 != 0 {
        return None;
    }
    let units: usize = raw.len() / 2;
    let mut out = String::new();
    let mut k: usize = 0;
    while k < units
        invariant
            raw@.len() == 2 * units,
            2 * units <= usize::MAX,
            k <= units,
            utf16_stop(raw@, k as int) == utf16_stop(raw@, 0),
            forall|j: int| 0 <= j < k ==> !surrogate(#[trigger] utf16_unit(raw@, j)),
            out@ == Seq::new(k as nat, |j: int| utf16_unit(raw@, j) as char),
        decreases units - k,
    {
        let unit: u32 = raw[2 * k] as u32 + 256 * (raw[2 * k + 1] as u32);
        assert(unit == utf16_unit(raw@, k as int));
        if unit == 0 {
            return Some(out);
        }
        proof {
            lemma_utf16_stop(raw@, k as int + 1);
        }
        match char::from_u32(unit) {
            Some(c) => {
                out.push(c);
                assert(utf16_unit(raw@, k as int) as char == c) by {
                    vstd::utf8::char_u32_cast(c, unit);
                }
            },
            None => {
                return None;
            },
        }
        k += 1;
    }
    Some(out)
}

/// What a substitution table holds: byte patterns and their replacements,
/// in the order in which they are tried.
pub type TableModel = Seq<(Seq<u8>, Seq<char>)>;

/// A table is well formed when no pattern is empty and no pattern occurs
/// twice.
pub open spec fn table_wf(table: TableModel) -> bool {
    &&& forall|i: int| 0 <= i < table.len() ==> (#[trigger] table[i]).0.len() > 0
    &&& forall|i: int, j: int|
        0 <= i < j < table.len() ==> (#[trigger] table[i]).0 != (#[trigger] table[j]).0
}

/// The index of the entry of `table` with pattern `key`, if there is one.
pub open spec fn table_index(table: TableModel, key: Seq<u8>) -> Option<int> {
    if exists|i: int| 0 <= i < table.len() && (#[trigger] table[i]).0 == key {
        Some(choose|i: int| 0 <= i < table.len() && (#[trigger] table[i]).0 == key)
    } else {
        None
    }
}

/// `table` after `key` was given the replacement `value`: an entry with that
/// pattern keeps its place and gets the new replacement, a new pattern goes
/// to the end, and an empty pattern is not taken.
pub open spec fn table_insert(table: TableModel, key: Seq<u8>, value: Seq<char>) -> TableModel {
    if key.len() == 0 {
        table
    } else {
        match table_index(table, key) {
            Some(i) => table.update(i, (key, value)),
            None => table.push((key, value)),
        }
    }
}

/// A mapping from byte patterns to replacement strings, for text encodings
/// that no standard character set covers. Its entries are tried in the order
/// in which their patterns were first inserted.
pub struct SubstitutionTable {
    entries: Vec<(Vec<u8>, String)>,
}

impl View for SubstitutionTable {
    type V = TableModel;

    closed spec fn view(&self) -> TableModel {
        entries_model(self.entries@)
    }
}

/// The patterns and replacements of a list of entries.
pub open spec fn entries_model(entries: Seq<(Vec<u8>, String)>) -> TableModel {
    entries.map_values(|e: (Vec<u8>, String)| (e.0@, e.1@))
}

/// In a well-formed table, an entry with pattern `key` is the one that
/// `table_index` names.
pub proof fn lemma_table_index(table: TableModel, key: Seq<u8>, i: int)
    requires
        table_wf(table),
        0 <= i < table.len(),
        table[i].0 == key,
    ensures
        table_index(table, key) == Some(i),
{
    let c = choose|c: int| 0 <= c < table.len() && (#[trigger] table[c]).0 == key;
    assert(c == i);
}

impl SubstitutionTable {
    #[verifier::type_invariant]
    spec fn well_formed(&self) -> bool {
        table_wf(self@)
    }

    /// A table without entries.
    pub fn new() -> (table: Self)
        ensures
            table@ == Seq::<(Seq<u8>, Seq<char>)>::empty(),
    {
        SubstitutionTable { entries: Vec::new() }
    }

    /// The number of entries.
    pub fn len(&self) -> (n: usize)
        ensures
            n == self@.len(),
    {
        self.entries.len()
    }

    /// The position of the entry with pattern `key`.
    pub fn position(&self, key: &[u8]) -> (found: Option<usize>)
        ensures
            match found {
                Some(i) => table_index(self@, key@) == Some(i as int),
                None => table_index(self@, key@) is None,
            },
    {
        proof {
            use_type_invariant(self);
        }
        let mut i: usize = 0;
        while i < self.entries.len()
            invariant
                table_wf(self@),
                i <= self.entries.len(),
                forall|j: int| 0 <= j < i ==> (#[trigger] self@[j]).0 != key@,
            decreases self.entries.len() - i,
        {
            if same_bytes(self.entries[i].0.as_slice(), key) {
                proof {
                    lemma_table_index(self@, key@, i as int);
                }
                return Some(i);
            }
            i += 1;
        }
        None
    }

    /// Gives `key` the replacement `value`. An empty pattern is refused.
    pub fn insert(&mut self, key: Vec<u8>, value: String) -> (accepted: bool)
        ensures
            accepted == (key@.len() > 0),
            final(self)@ == table_insert(old(self)@, key@, value@),
    {
        if key.len() == 0 {
            return false;
        }
        proof {
            use_type_invariant(&*self);
        }
        let found = self.position(key.as_slice());
        let mut taken = SubstitutionTable::new();
        std::mem::swap(self, &mut taken);
        let SubstitutionTable { mut entries } = taken;
        match found {
            Some(i) => {
                entries.set(i, (key, value));
            },
            None => {
                entries.push((key, value));
            },
        }
        assert(entries_model(entries@) =~= table_insert(old(self)@, key@, value@));
        *self = SubstitutionTable { entries };
        true
    }
}

/// Tells whether two byte slices hold the same bytes.
pub fn same_bytes(a: &[u8], b: &[u8]) -> (same: bool)
    ensures
        same == (a@ == b@),
{
    if a.len() != b.len() {
        return false;
    }
    let mut i: usize = 0;
    while i < a.len()
        invariant
            a.len() == b.len(),
            i <= a.len(),
            forall|j: int| 0 <= j < i ==> a@[j] == b@[j],
        decreases a.len() - i,
    {
        if a[i] != b[i] {
            return false;
        }
        i += 1;
    }
    assert(a@ =~= b@);
    true
}

/// The pattern `key` stands in `raw` at offset `at`. An empty pattern stands
/// nowhere.
pub open spec fn key_matches_at(raw: Seq<u8>, at: int, key: Seq<u8>) -> bool {
    &&& 0 < key.len()
    &&& 0 <= at
    &&& at + key.len() <= raw.len()
    &&& raw.subrange(at, at + key.len()) == key
}

/// The first entry of `table`, at or after entry `from`, whose pattern stands
/// in `raw` at offset `at`.
pub open spec fn first_match(table: TableModel, raw: Seq<u8>, at: int, from: int) -> Option<int>
    decreases table.len() - from,
{
    if from < 0 || from >= table.len() {
        None
    } else if key_matches_at(raw, at, table[from].0) {
        Some(from)
    } else {
        first_match(table, raw, at, from + 1)
    }
}

/// What the table makes of the bytes at offset `at`, and how many bytes that
/// takes up: where the pattern of an entry stands, the replacement of the
/// first such entry and the length of its pattern; elsewhere nothing, and
/// one byte.
pub open spec fn table_step(table: TableModel, raw: Seq<u8>, at: int) -> (Seq<char>, int) {
    match first_match(table, raw, at, 0) {
        Some(i) => (table[i].1, table[i].0.len() as int),
        None => (Seq::<char>::empty(), 1),
    }
}

/// The pattern of the entry that `first_match` names stands at the offset,
/// and the entry is one of the table.
pub proof fn lemma_first_match_stands(table: TableModel, raw: Seq<u8>, at: int, from: int)
    requires
        0 <= from,
    ensures
        first_match(table, raw, at, from) matches Some(i) ==> from <= i < table.len()
            && key_matches_at(raw, at, table[i].0),
    decreases table.len() - from,
{
    if from < table.len() && !key_matches_at(raw, at, table[from].0) {
        lemma_first_match_stands(table, raw, at, from + 1);
    }
}

/// A step takes up at least one byte, and no more than are left.
pub proof fn lemma_table_step_stays_inside(table: TableModel, raw: Seq<u8>, at: int)
    requires
        0 <= at < raw.len(),
    ensures
        1 <= table_step(table, raw, at).1 <= raw.len() - at,
{
    lemma_first_match_stands(table, raw, at, 0);
}

/// What the table makes of `raw` from offset `at` on, step by step from left
/// to right.
pub open spec fn table_text(table: TableModel, raw: Seq<u8>, at: int) -> Seq<char>
    decreases raw.len() - at,
{
    if at < 0 || at >= raw.len() {
        Seq::<char>::empty()
    } else {
        let step = table_step(table, raw, at);
        proof {
            lemma_table_step_stays_inside(table, raw, at);
        }
        step.0 + table_text(table, raw, at + step.1)
    }
}

/// The reading of `raw` through a substitution table, if one is given.
pub open spec fn table_reading(raw: Seq<u8>, table: Option<TableModel>) -> Option<Seq<char>> {
    match table {
        Some(table) => kept(table_text(table, raw, 0)),
        None => None,
    }
}

/// Tells whether `key` stands in `raw` at offset `at`.
pub fn starts_with_at(raw: &[u8], at: usize, key: &[u8]) -> (yes: bool)
    ensures
        yes == key_matches_at(raw@, at as int, key@),
{
    if key.len() == 0 || at > raw.len() || key.len() > raw.len() - at {
        return false;
    }
    let mut i: usize = 0;
    while i < key.len()
        invariant
            at + key.len() <= raw.len(),
            i <= key.len(),
            forall|j: int| 0 <= j < i ==> raw@[at + j] == key@[j],
        decreases key.len() - i,
    {
        if raw[at + i] != key[i] {
            return false;
        }
        i += 1;
    }
    assert(raw@.subrange(at as int, at + key.len()) =~= key@);
    true
}

impl SubstitutionTable {
    /// The first entry whose pattern stands in `raw` at offset `at`.
    pub fn find_match(&self, raw: &[u8], at: usize) -> (found: Option<usize>)
        ensures
            match found {
                Some(i) => first_match(self@, raw@, at as int, 0) == Some(i as int) && i
                    < self@.len(),
                None => first_match(self@, raw@, at as int, 0) is None,
            },
    {
        let mut i: usize = 0;
        while i < self.entries.len()
            invariant
                i <= self.entries.len(),
                first_match(self@, raw@, at as int, 0) == first_match(
                    self@,
                    raw@,
                    at as int,
                    i as int,
                ),
            decreases self.entries.len() - i,
        {
            if starts_with_at(raw, at, self.entries[i].0.as_slice()) {
                return Some(i);
            }
            i += 1;
        }
        None
    }

    /// Replaces the patterns of the table in `raw`, from left to right, and
    /// leaves out the bytes where no pattern stands.
    pub fn substitute(&self, raw: &[u8]) -> (text: String)
        ensures
            text@ == table_text(self@, raw@, 0),
    {
        proof {
            use_type_invariant(self);
        }
        let mut out = String::new();
        let mut at: usize = 0;
        while at < raw.len()
            invariant
                table_wf(self@),
                at <= raw.len(),
                out@ + table_text(self@, raw@, at as int) == table_text(self@, raw@, 0),
            decreases raw.len() - at,
        {
            match self.find_match(raw, at) {
                Some(i) => {
                    let ghost before = out@;
                    out.append(self.entries[i].1.as_str());
                    proof {
                        lemma_first_match_stands(self@, raw@, at as int, 0);
                        assert(self@[i as int] == (
                            self.entries@[i as int].0@,
                            self.entries@[i as int].1@,
                        ));
                        assert(out@ + table_text(self@, raw@, at + self@[i as int].0.len())
                            =~= before + table_text(self@, raw@, at as int));
                    }
                    at += self.entries[i].0.len();
                },
                None => {
                    assert(out@ + table_text(self@, raw@, at + 1) =~= out@ + table_text(
                        self@,
                        raw@,
                        at as int,
                    ));
                    at += 1;
                },
            }
        }
        out
    }
}

/// The text that a lossy UTF-8 decoder makes of a byte sequence: the
/// characters that the well-formed parts encode, with the replacement
/// character in place of each ill-formed part.
pub uninterp spec fn utf8_lossy_text(bytes: Seq<u8>) -> Seq<char>;

/// What the Shift-JIS decoder makes of a byte sequence: the text, and
/// whether any part of the input was malformed.
pub uninterp spec fn shift_jis_decoding(bytes: Seq<u8>) -> (Seq<char>, bool);

/// A window of `len` bytes is short enough for the Shift-JIS decoder, which
/// sets aside three bytes for each byte of input, and three more.
pub open spec fn shift_jis_takes(len: nat) -> bool {
    3 * len + 3 <= isize::MAX
}

/// `String::from_utf8_lossy`. The result is a function of the bytes alone.
/// Of well-formed UTF-8 it is the text that the bytes encode.
#[verifier::external_body]
fn utf8_lossy(bytes: &[u8]) -> (text: String)
    ensures
        text@ == utf8_lossy_text(bytes@),
        valid_utf8(bytes@) ==> text@ == decode_utf8(bytes@),
{
    String::from_utf8_lossy(bytes).into_owned()
}

/// `encoding_rs::SHIFT_JIS.decode`, without the encoding that it reports to
/// have used. The text and the error flag are a function of the bytes alone.
/// The decoder panics where the buffer size it computes overflows, which the
/// bound on the length rules out.
#[verifier::external_body]
fn shift_jis_decode(bytes: &[u8]) -> (decoded: (String, bool))
    requires
        shift_jis_takes(bytes@.len()),
    ensures
        (decoded.0@, decoded.1) == shift_jis_decoding(bytes@),
{
    let (text, _, had_errors) = encoding_rs::SHIFT_JIS.decode(bytes);
    (text.into_owned(), had_errors)
}

/// The first reading: where the window is mostly text bytes, its lossy UTF-8
/// text `lossy` without trailing NULs and replacement characters, unless
/// nothing is left.
pub open spec fn lossy_reading(raw: Seq<u8>, lossy: Seq<char>) -> Option<Seq<char>> {
    if mostly_text(raw) {
        kept(trimmed(lossy, true))
    } else {
        None
    }
}

/// The third reading: where the decoder met no malformed input, its text
/// without trailing NULs, unless nothing is left.
pub open spec fn shift_jis_reading(decoding: (Seq<char>, bool)) -> Option<Seq<char>> {
    if decoding.1 {
        None
    } else {
        kept(trimmed(decoding.0, false))
    }
}

/// What the Shift-JIS decoder makes of a window, where the window is short
/// enough for it.
pub open spec fn shift_jis_attempt(raw: Seq<u8>) -> Option<(Seq<char>, bool)> {
    if shift_jis_takes(raw.len()) {
        Some(shift_jis_decoding(raw))
    } else {
        None
    }
}

/// The text of a window, given what the two outside decoders make of it: the
/// first of the four readings that there is. A window that the Shift-JIS
/// decoder was not given has no third reading.
pub open spec fn text_reading(
    raw: Seq<u8>,
    lossy: Seq<char>,
    shift_jis: Option<(Seq<char>, bool)>,
    table: Option<TableModel>,
) -> Option<Seq<char>> {
    if lossy_reading(raw, lossy) is Some {
        lossy_reading(raw, lossy)
    } else if utf16le_reading(raw) is Some {
        utf16le_reading(raw)
    } else if shift_jis matches Some(decoding) && shift_jis_reading(decoding) is Some {
        shift_jis_reading(shift_jis->0)
    } else {
        table_reading(raw, table)
    }
}

/// The text of a window.
pub open spec fn decoded_text(raw: Seq<u8>, table: Option<TableModel>) -> Option<Seq<char>> {
    text_reading(raw, utf8_lossy_text(raw), shift_jis_attempt(raw), table)
}

/// The patterns and replacements of an optional table.
pub open spec fn table_of(tbl: Option<&SubstitutionTable>) -> Option<TableModel> {
    match tbl {
        Some(t) => Some(t@),
        None => None,
    }
}

/// The first reading of `raw`, from its lossy UTF-8 text.
pub fn read_lossy(raw: &[u8], lossy: String) -> (text: Option<String>)
    ensures
        text_of(text) == lossy_reading(raw@, lossy@),
{
    if is_mostly_text(raw) {
        keep_text(lossy, true)
    } else {
        None
    }
}

/// The third reading, from what the Shift-JIS decoder returned.
pub fn read_shift_jis(text: String, had_errors: bool) -> (reading: Option<String>)
    ensures
        text_of(reading) == shift_jis_reading((text@, had_errors)),
{
    if had_errors {
        None
    } else {
        keep_text(text, false)
    }
}

/// The fourth reading, through the table if there is one.
pub fn read_table(raw: &[u8], tbl: Option<&SubstitutionTable>) -> (text: Option<String>)
    ensures
        text_of(text) == table_reading(raw@, table_of(tbl)),
{
    match tbl {
        Some(table) => {
            let out = table.substitute(raw);
            if out.as_str().is_empty() {
                None
            } else {
                Some(out)
            }
        },
        None => None,
    }
}

/// Tells whether a window of `len` bytes is short enough for the Shift-JIS
/// decoder.
pub fn fits_shift_jis(len: usize) -> (yes: bool)
    ensures
        yes == shift_jis_takes(len as nat),
{
    len <= (isize::MAX as usize - 3) / 3
}

/// Recovers the text of a window: the first of its four readings, or `None`
/// where there is none. A window too long for the Shift-JIS decoder is not
/// handed to it.
pub fn decode_text(raw: &[u8], tbl: Option<&SubstitutionTable>) -> (text: Option<String>)
    ensures
        text_of(text) == decoded_text(raw@, table_of(tbl)),
        forall|n: int| #[trigger]
            padded_graphic(raw@, n) ==> text_of(text) == Some(ascii_chars(raw@.take(n))),
{
    let first = read_lossy(raw, utf8_lossy(raw));
    proof {
        lemma_padded_graphic_is_utf8(raw@);
    }
    if first.is_some() {
        return first;
    }
    let second = decode_utf16_le(raw);
    if second.is_some() {
        return second;
    }
    if fits_shift_jis(raw.len()) {
        let (sjis, had_errors) = shift_jis_decode(raw);
        let third = read_shift_jis(sjis, had_errors);
        if third.is_some() {
            return third;
        }
    }
    read_table(raw, tbl)
}

/// Each byte of `bytes` as the character with that code.
pub open spec fn ascii_chars(bytes: Seq<u8>) -> Seq<char> {
    Seq::new(bytes.len(), |i: int| bytes[i] as char)
}

/// The first `n` bytes of `raw` are graphic ASCII, there is at least one of
/// them, and the rest of `raw` is NUL.
pub open spec fn padded_graphic(raw: Seq<u8>, n: int) -> bool {
    &&& 0 < n <= raw.len()
    &&& forall|i: int| 0 <= i < n ==> 0x21 <= #[trigger] raw[i] <= 0x7E
    &&& forall|i: int| n <= i < raw.len() ==> #[trigger] raw[i] == 0
}

/// Bytes below `0x80` are well-formed UTF-8, and encode one character each.
pub proof fn lemma_ascii_is_utf8(bytes: Seq<u8>)
    requires
        forall|i: int| 0 <= i < bytes.len() ==> #[trigger] bytes[i] < 0x80,
    ensures
        valid_utf8(bytes),
        decode_utf8(bytes) == ascii_chars(bytes),
    decreases bytes.len(),
{
    if bytes.len() > 0 {
        let b = bytes[0];
        assert(b & 0x7F == b) by (bit_vector)
            requires
                b < 0x80,
        ;
        lemma_ascii_is_utf8(vstd::utf8::pop_first_scalar(bytes));
    }
    assert(decode_utf8(bytes) =~= ascii_chars(bytes));
}

/// Where every byte is a text byte, the count of text bytes is the length.
pub proof fn lemma_all_text_bytes(raw: Seq<u8>)
    requires
        forall|i: int| 0 <= i < raw.len() ==> text_byte(#[trigger] raw[i]),
    ensures
        text_byte_count(raw) == raw.len(),
    decreases raw.len(),
{
    if raw.len() > 0 {
        lemma_all_text_bytes(raw.drop_last());
    }
}

/// Trimming takes off a tail of NULs, and stops at a character that is no
/// padding.
pub proof fn lemma_trim_nul_tail(text: Seq<char>, n: int, replacement: bool)
    requires
        0 <= n <= text.len(),
        forall|i: int| n <= i < text.len() ==> #[trigger] text[i] == '\0',
        n > 0 ==> !padding(text[n - 1], replacement),
    ensures
        trimmed(text, replacement) == text.take(n),
    decreases text.len() - n,
{
    if n < text.len() {
        lemma_trim_nul_tail(text.drop_last(), n, replacement);
    }
    assert(trimmed(text, replacement) =~= text.take(n));
}

/// A window of graphic ASCII with a tail of NULs is well-formed UTF-8, and
/// its first reading is the graphic part, one character to the byte.
pub proof fn lemma_padded_graphic_is_utf8(raw: Seq<u8>)
    ensures
        forall|n: int| #[trigger]
            padded_graphic(raw, n) ==> valid_utf8(raw) && lossy_reading(raw, decode_utf8(raw))
                == Some(ascii_chars(raw.take(n))),
{
    assert forall|n: int| #[trigger] padded_graphic(raw, n) implies valid_utf8(raw)
        && lossy_reading(raw, decode_utf8(raw)) == Some(ascii_chars(raw.take(n))) by {
        padded_graphic_reads_as_prefix(raw, n);
    }
}

/// A window that holds graphic ASCII and then only NULs reads, by the first
/// reading, as exactly its graphic part.
pub proof fn padded_graphic_reads_as_prefix(raw: Seq<u8>, n: int)
    requires
        padded_graphic(raw, n),
    ensures
        valid_utf8(raw),
        lossy_reading(raw, decode_utf8(raw)) == Some(ascii_chars(raw.take(n))),
{
    lemma_ascii_is_utf8(raw);
    lemma_all_text_bytes(raw);
    lemma_trim_nul_tail(ascii_chars(raw), n, true);
    assert(ascii_chars(raw).take(n) =~= ascii_chars(raw.take(n)));
}

} // verus!
