//! The pointer scanner and the pointer-table detector.
//!
//! A pointer is a little-endian 32-bit word, at an offset that is a multiple
//! of four, whose value lies in the address window of the ROM and addresses a
//! byte of the image. A pointer table is a run of at least four pointers in
//! consecutive words.

use vstd::prelude::*;
use crate::region::RomPointer;

verus! {

/// The address at which the ROM is mapped.
pub const ROM_BASE: u32 = 0x0800_0000;

/// The first address past the window in which the ROM is mapped.
pub const ROM_END: u32 = 0x0A00_0000;

/// A pointer table has at least this many entries.
pub const MIN_TABLE_ENTRIES: usize = 4;

/// The little-endian 32-bit word that `image` holds at offset `at`.
pub open spec fn le_word(image: Seq<u8>, at: int) -> int {
    image[at] + 0x100 * image[at + 1] + 0x1_0000 * image[at + 2] + 0x100_0000 * image[at + 3]
}

/// `value` is an address of the ROM window.
pub open spec fn in_rom_window(value: int) -> bool {
    ROM_BASE <= value < ROM_END
}

/// The scanner reads a word at offset `at`: the offset is a multiple of four
/// and the word ends before the last byte of the image.
pub open spec fn scanned(image: Seq<u8>, at: int) -> bool {
    &&& 0 <= at
    &&& at % 4 == 0
    &&& at + 4 < image.len()
}

/// The word at offset `at` is a pointer: the scanner reads it, its value is an
/// address of the ROM window, and that address is one of a byte of the image.
pub open spec fn points_into(image: Seq<u8>, at: int) -> bool {
    &&& scanned(image, at)
    &&& in_rom_window(le_word(image, at))
    &&& le_word(image, at) - ROM_BASE < image.len()
}

/// The pointer that the word at offset `at` is.
pub open spec fn pointer_at(image: Seq<u8>, at: int) -> RomPointer {
    RomPointer {
        from: at as usize,
        to: (le_word(image, at) - ROM_BASE) as usize,
        raw: le_word(image, at) as u32,
    }
}

/// The pointers among the first `words` words of `image`, by ascending offset.
pub open spec fn scan_words(image: Seq<u8>, words: nat) -> Seq<RomPointer>
    decreases words,
{
    if words == 0 {
        Seq::<RomPointer>::empty()
    } else {
        let before = scan_words(image, (words - 1) as nat);
        let at = 4 * (words - 1);
        if points_into(image, at) {
            before.push(pointer_at(image, at))
        } else {
            before
        }
    }
}

/// The pointers of `image`, by ascending offset.
pub open spec fn scan(image: Seq<u8>) -> Seq<RomPointer> {
    scan_words(image, image.len() / 4)
}

/// `pointers` holds each pointer of `image` once, by ascending offset, and
/// nothing else.
pub open spec fn is_scan_of(pointers: Seq<RomPointer>, image: Seq<u8>) -> bool {
    &&& forall|k: int|
        0 <= k < pointers.len() ==> points_into(image, (#[trigger] pointers[k]).from as int)
            && pointers[k] == pointer_at(image, pointers[k].from as int)
    &&& forall|j: int, k: int|
        0 <= j < k < pointers.len() ==> (#[trigger] pointers[j]).from < (
        #[trigger] pointers[k]).from
    &&& forall|at: int| #[trigger]
        points_into(image, at) ==> exists|k: int|
            0 <= k < pointers.len() && (#[trigger] pointers[k]).from == at
}

/// The pointers among the first `words` words are those of the image at
/// offsets below `4 * words`.
pub proof fn lemma_scan_words(image: Seq<u8>, words: nat)
    requires
        image.len() <= usize::MAX,
    ensures
        forall|k: int|
            0 <= k < scan_words(image, words).len() ==> {
                let p = #[trigger] scan_words(image, words)[k];
                &&& p.from < 4 * words
                &&& points_into(image, p.from as int)
                &&& p == pointer_at(image, p.from as int)
            },
        forall|j: int, k: int|
            0 <= j < k < scan_words(image, words).len() ==> (#[trigger] scan_words(
                image,
                words,
            )[j]).from < (#[trigger] scan_words(image, words)[k]).from,
        forall|at: int|
            at < 4 * words && #[trigger] points_into(image, at) ==> exists|k: int|
                0 <= k < scan_words(image, words).len() && (#[trigger] scan_words(
                    image,
                    words,
                )[k]).from == at,
    decreases words,
{
    if words > 0 {
        let before = scan_words(image, (words - 1) as nat);
        let now = scan_words(image, words);
        let last = 4 * (words - 1);
        lemma_scan_words(image, (words - 1) as nat);
        assert forall|at: int| at < 4 * words && #[trigger] points_into(image, at) implies exists|
            k: int,
        |
            0 <= k < now.len() && (#[trigger] now[k]).from == at by {
            if at == last {
                assert(now[now.len() - 1].from == at);
            } else {
                let k = choose|k: int| 0 <= k < before.len() && (#[trigger] before[k]).from == at;
                assert(now[k].from == at);
            }
        }
    }
}

/// Words that end at or after the last byte of the image hold no pointer, so
/// counting them in changes nothing.
pub proof fn lemma_scan_words_tail(image: Seq<u8>, from: nat, to: nat)
    requires
        from <= to,
        4 * from + 4 >= image.len(),
    ensures
        scan_words(image, to) == scan_words(image, from),
    decreases to - from,
{
    if from < to {
        lemma_scan_words_tail(image, from, (to - 1) as nat);
    }
}

/// The scan of an image holds each of its pointers once, by ascending offset.
pub proof fn lemma_scan_is_scan(image: Seq<u8>)
    requires
        image.len() <= usize::MAX,
    ensures
        is_scan_of(scan(image), image),
{
    lemma_scan_words(image, image.len() / 4);
}

/// For each offset that is a multiple of four, whose word ends before the
/// last byte of the image and holds an address of the ROM window that falls
/// into the image, a scan reports exactly one pointer, and that pointer leads
/// to the address less the ROM base.
pub proof fn scan_reports_each_pointer_once(image: Seq<u8>, pointers: Seq<RomPointer>, at: int)
    requires
        image.len() <= usize::MAX,
        is_scan_of(pointers, image),
        points_into(image, at),
    ensures
        exists|k: int|
            {
                &&& 0 <= k < pointers.len()
                &&& (#[trigger] pointers[k]).from == at
                &&& pointers[k].to == le_word(image, at) - ROM_BASE
                &&& pointers[k].raw == le_word(image, at)
                &&& forall|j: int|
                    0 <= j < pointers.len() && (#[trigger] pointers[j]).from == at ==> j == k
            },
{
    let k = choose|k: int| 0 <= k < pointers.len() && (#[trigger] pointers[k]).from == at;
    assert(pointers[k] == pointer_at(image, at));
}

/// Reads the little-endian 32-bit word at offset `at`.
pub fn read_word(image: &[u8], at: usize) -> (word: u32)
    requires
        at + 4 <= image@.len(),
    ensures
        word == le_word(image@, at as int),
{
    let b0: u32 = image[at] as u32;
    let b1: u32 = image[at + 1] as u32;
    let b2: u32 = image[at + 2] as u32;
    let b3: u32 = image[at + 3] as u32;
    b0 + 0x100 * b1 + 0x1_0000 * b2 + 0x100_0000 * b3
}

/// Tells whether `value` is an address of the ROM window.
pub fn is_rom_address(value: u32) -> (yes: bool)
    ensures
        yes == in_rom_window(value as int),
{
    ROM_BASE <= value && value < ROM_END
}

/// Scans `image` for pointers, word by word from offset 0.
pub fn scan_image(image: &[u8]) -> (pointers: Vec<RomPointer>)
    ensures
        pointers@ == scan(image@),
        is_scan_of(pointers@, image@),
{
    let mut found: Vec<RomPointer> = Vec::new();
    let mut at: usize = 0;
    while image.len() >= 4 && at < image.len() - 4
        invariant
            at % 4 == 0,
            at <= image.len(),
            found@ == scan_words(image@, (at / 4) as nat),
        decreases image.len() - at,
    {
        let raw = read_word(image, at);
        if is_rom_address(raw) {
            let target: usize = (raw - ROM_BASE) as usize;
            if target < image.len() {
                found.push(RomPointer { from: at, to: target, raw });
            }
        }
        at += 4;
    }
    proof {
        if at / 4 <= image.len() / 4 {
            lemma_scan_words_tail(image@, (at / 4) as nat, image@.len() / 4);
        } else {
            lemma_scan_words_tail(image@, image@.len() / 4, (at / 4) as nat);
        }
        lemma_scan_is_scan(image@);
    }
    found
}

/// The pointers stand by ascending offset.
pub open spec fn ascending(pointers: Seq<RomPointer>) -> bool {
    forall|j: int, k: int|
        0 <= j < k < pointers.len() ==> (#[trigger] pointers[j]).from <= (
        #[trigger] pointers[k]).from
}

/// Pointer `i` stands in the word right after that of the pointer before it.
pub open spec fn follows(pointers: Seq<RomPointer>, i: int) -> bool {
    &&& 0 < i < pointers.len()
    &&& pointers[i].from == pointers[i - 1].from + 4
}

/// The index past the last pointer of the run that pointer `i` belongs to.
pub open spec fn run_end(pointers: Seq<RomPointer>, i: int) -> int
    decreases pointers.len() - i,
{
    if 0 <= i && follows(pointers, i + 1) {
        run_end(pointers, i + 1)
    } else {
        i + 1
    }
}

/// The pointers with indices from `first` up to `end`, each as the pair of
/// the offset it stands at and the offset it leads to.
pub open spec fn slots(pointers: Seq<RomPointer>, first: int, end: int) -> Seq<(usize, usize)> {
    Seq::new((end - first) as nat, |k: int| (pointers[first + k].from, pointers[first + k].to))
}

/// The run of pointer `i`, from that pointer on.
pub open spec fn run_from(pointers: Seq<RomPointer>, i: int) -> Seq<(usize, usize)> {
    slots(pointers, i, run_end(pointers, i))
}

/// A pointer table begins with pointer `i`: a run begins there, and it has
/// at least four pointers.
pub open spec fn starts_table(pointers: Seq<RomPointer>, i: int) -> bool {
    &&& 0 <= i < pointers.len()
    &&& !follows(pointers, i)
    &&& run_end(pointers, i) - i >= MIN_TABLE_ENTRIES
}

/// The pointer tables that begin before pointer `n`, in order.
pub open spec fn tables_before(pointers: Seq<RomPointer>, n: nat) -> Seq<Seq<(usize, usize)>>
    decreases n,
{
    if n == 0 {
        Seq::<Seq<(usize, usize)>>::empty()
    } else {
        let i = n - 1;
        let before = tables_before(pointers, i as nat);
        if starts_table(pointers, i) {
            before.push(run_from(pointers, i))
        } else {
            before
        }
    }
}

/// The pointer tables of a pointer sequence: its maximal runs of pointers in
/// consecutive words that have at least four pointers, in order.
pub open spec fn pointer_tables(pointers: Seq<RomPointer>) -> Seq<Seq<(usize, usize)>> {
    tables_before(pointers, pointers.len())
}

/// The entries of each table of a list.
pub open spec fn table_views(tables: Seq<Vec<(usize, usize)>>) -> Seq<Seq<(usize, usize)>> {
    tables.map_values(|t: Vec<(usize, usize)>| t@)
}

/// A run that begins at `first`, goes on up to `end` and does not go on
/// there, ends at `end`.
pub proof fn lemma_run_end(pointers: Seq<RomPointer>, first: int, end: int)
    requires
        0 <= first < end <= pointers.len(),
        forall|k: int| first < k < end ==> follows(pointers, k),
        !follows(pointers, end),
    ensures
        run_end(pointers, first) == end,
    decreases end - first,
{
    if first + 1 < end {
        lemma_run_end(pointers, first + 1, end);
    }
}

/// No table begins inside a run.
pub proof fn lemma_no_table_inside_run(pointers: Seq<RomPointer>, first: int, end: int)
    requires
        0 <= first <= end <= pointers.len(),
        forall|k: int| first <= k < end ==> follows(pointers, k),
    ensures
        tables_before(pointers, end as nat) == tables_before(pointers, first as nat),
    decreases end - first,
{
    if first < end {
        lemma_no_table_inside_run(pointers, first, end - 1);
    }
}

/// The pointers of a run stand in consecutive words.
pub proof fn lemma_run_is_chained(pointers: Seq<RomPointer>, i: int)
    requires
        0 <= i < pointers.len(),
    ensures
        i < run_end(pointers, i) <= pointers.len(),
        forall|k: int| i < k < run_end(pointers, i) ==> follows(pointers, k),
        !follows(pointers, run_end(pointers, i)),
    decreases pointers.len() - i,
{
    if follows(pointers, i + 1) {
        lemma_run_is_chained(pointers, i + 1);
    }
}

/// Every pointer table has at least four entries, and each entry after the
/// first stands in the word right after that of the entry before it.
pub proof fn tables_are_runs_of_four_or_more(pointers: Seq<RomPointer>, n: nat)
    requires
        n <= pointers.len(),
    ensures
        forall|t: int|
            0 <= t < tables_before(pointers, n).len() ==> (#[trigger] tables_before(
                pointers,
                n,
            )[t]).len() >= MIN_TABLE_ENTRIES,
        forall|t: int, k: int|
            0 <= t < tables_before(pointers, n).len() && 0 < k < tables_before(
                pointers,
                n,
            )[t].len() ==> (#[trigger] tables_before(pointers, n)[t][k]).0 == tables_before(
                pointers,
                n,
            )[t][k - 1].0 + 4,
    decreases n,
{
    if n > 0 {
        let before = tables_before(pointers, (n - 1) as nat);
        let now = tables_before(pointers, n);
        tables_are_runs_of_four_or_more(pointers, (n - 1) as nat);
        lemma_run_is_chained(pointers, n - 1);
        let run = run_from(pointers, n - 1);
        assert forall|k: int| 0 < k < run.len() implies (#[trigger] run[k]).0 == run[k - 1].0
            + 4 by {
            assert(follows(pointers, n - 1 + k));
        }
        assert forall|t: int, k: int| 0 <= t < now.len() && 0 < k < now[t].len() implies (
        #[trigger] now[t][k]).0 == now[t][k - 1].0 + 4 by {
            if t < before.len() {
                assert(now[t] == before[t]);
            } else {
                assert(now[t] == run);
            }
        }
    }
}

/// `table` is the run of a pointer before pointer `n` at which a table
/// begins.
pub open spec fn is_long_run(pointers: Seq<RomPointer>, n: nat, table: Seq<(usize, usize)>) -> bool {
    exists|i: int|
        0 <= i < n && #[trigger] starts_table(pointers, i) && table == run_from(pointers, i)
}

/// The pointer tables are the runs of at least four pointers, one table for
/// each of them: every table is the run that begins at some pointer at which
/// a table begins, and every such run is a table.
pub proof fn tables_are_the_long_runs(pointers: Seq<RomPointer>, n: nat)
    requires
        n <= pointers.len(),
    ensures
        forall|t: int|
            0 <= t < tables_before(pointers, n).len() ==> is_long_run(
                pointers,
                n,
                #[trigger] tables_before(pointers, n)[t],
            ),
        forall|i: int|
            0 <= i < n && #[trigger] starts_table(pointers, i) ==> tables_before(
                pointers,
                n,
            ).contains(run_from(pointers, i)),
    decreases n,
{
    if n > 0 {
        let last = n - 1;
        let before = tables_before(pointers, last as nat);
        let now = tables_before(pointers, n);
        tables_are_the_long_runs(pointers, last as nat);
        assert forall|t: int| 0 <= t < now.len() implies is_long_run(
            pointers,
            n,
            #[trigger] now[t],
        ) by {
            if t < before.len() {
                assert(is_long_run(pointers, last as nat, before[t]));
                let i = choose|i: int|
                    0 <= i < last && #[trigger] starts_table(pointers, i) && before[t] == run_from(
                        pointers,
                        i,
                    );
                assert(starts_table(pointers, i));
            } else {
                assert(starts_table(pointers, last));
            }
        }
        assert forall|i: int| 0 <= i < n && #[trigger] starts_table(pointers, i) implies now.contains(
            run_from(pointers, i),
        ) by {
            if i < last {
                let t = before.index_of(run_from(pointers, i));
                assert(now[t] == run_from(pointers, i));
            } else {
                assert(now[now.len() - 1] == run_from(pointers, i));
            }
        }
    }
}

/// Groups pointers, given by ascending offset, into pointer tables.
pub fn find_pointer_tables(pointers: &[RomPointer]) -> (tables: Vec<Vec<(usize, usize)>>)
    requires
        ascending(pointers@),
    ensures
        table_views(tables@) == pointer_tables(pointers@),
        forall|t: int| 0 <= t < tables@.len() ==> (#[trigger] tables@[t])@.len() >= MIN_TABLE_ENTRIES,
{
    let mut tables: Vec<Vec<(usize, usize)>> = Vec::new();
    let mut current: Vec<(usize, usize)> = Vec::new();
    let ghost mut first: int = 0;
    let mut i: usize = 0;
    while i < pointers.len()
        invariant
            i <= pointers.len(),
            i == 0 ==> first == 0,
            i > 0 ==> 0 <= first < i && !follows(pointers@, first),
            forall|k: int| first < k < i ==> follows(pointers@, k),
            current@ == slots(pointers@, first, i as int),
            table_views(tables@) == tables_before(pointers@, first as nat),
        decreases pointers.len() - i,
    {
        let p = pointers[i];
        if current.len() == 0 {
            current.push((p.from, p.to));
        } else {
            let last = current[current.len() - 1];
            if p.from >= 4 && p.from - 4 == last.0 {
                current.push((p.from, p.to));
            } else {
                proof {
                    lemma_run_end(pointers@, first, i as int);
                    lemma_no_table_inside_run(pointers@, first + 1, i as int);
                }
                if current.len() >= MIN_TABLE_ENTRIES {
                    let ghost before = tables@;
                    tables.push(current);
                    assert(table_views(tables@) =~= table_views(before).push(current@));
                }
                current = Vec::new();
                current.push((p.from, p.to));
                proof {
                    first = i as int;
                }
            }
        }
        i += 1;
    }
    if i > 0 {
        proof {
            lemma_run_end(pointers@, first, i as int);
            lemma_no_table_inside_run(pointers@, first + 1, i as int);
        }
        if current.len() >= MIN_TABLE_ENTRIES {
            let ghost before = tables@;
            tables.push(current);
            assert(table_views(tables@) =~= table_views(before).push(current@));
        }
    }
    proof {
        tables_are_runs_of_four_or_more(pointers@, pointers@.len());
        assert forall|t: int| 0 <= t < tables@.len() implies (#[trigger] tables@[t])@.len()
            >= MIN_TABLE_ENTRIES by {
            assert(table_views(tables@)[t] == tables@[t]@);
        }
    }
    tables
}

} // verus!
