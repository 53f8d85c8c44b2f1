//! The region-size inferencer and the discovery pass.
//!
//! From a pointer target a window grows in steps of 32 bytes for as long as
//! its classification stays what it was; what it grows to is recorded as an
//! inferred region, unless a region already starts at the target.

use vstd::prelude::*;
use crate::classify::{classification, classify_window};
use crate::region::{region_models, RegionModel, RegionOrigin, RomPointer, RomRegion};
use crate::text::{table_of, SubstitutionTable, TableModel};

verus! {

/// The number of bytes by which a window grows.
pub const GROWTH_STEP: usize = 32;

/// The size that no inferred region exceeds.
pub const SIZE_CAP: usize = 1024;

/// The name that inferred regions are given.
pub open spec fn inferred_name() -> Seq<char> {
    "Discovered Data"@
}

/// The `size` bytes of `image` from offset `start`, or those that are left
/// of the image where it ends before; nothing where the image ends at or
/// before `start`.
pub open spec fn window(image: Seq<u8>, start: int, size: int) -> Seq<u8> {
    if start < 0 || size < 0 || start >= image.len() {
        Seq::<u8>::empty()
    } else if size <= image.len() - start {
        image.subrange(start, start + size)
    } else {
        image.subrange(start, image.len() as int)
    }
}

/// The window of `steps` steps from `start` lies inside the image and is
/// classified as the window of one step is.
pub open spec fn keeps_kind(
    image: Seq<u8>,
    start: int,
    table: Option<TableModel>,
    steps: int,
) -> bool {
    &&& GROWTH_STEP * steps <= image.len() - start
    &&& classification(window(image, start, GROWTH_STEP * steps), table) == classification(
        window(image, start, GROWTH_STEP as int),
        table,
    )
}

/// The number of steps that a window of `steps` steps grows to: it takes
/// one more step while it has not reached the cap and keeps its kind.
pub open spec fn stable_steps(
    image: Seq<u8>,
    start: int,
    table: Option<TableModel>,
    steps: int,
) -> int
    decreases SIZE_CAP / GROWTH_STEP - steps,
{
    if steps < SIZE_CAP / GROWTH_STEP && keeps_kind(image, start, table, steps + 1) {
        stable_steps(image, start, table, steps + 1)
    } else {
        steps
    }
}

/// The size inferred for a region that starts at `start`.
pub open spec fn inferred_size(image: Seq<u8>, start: int, table: Option<TableModel>) -> int {
    GROWTH_STEP * stable_steps(image, start, table, 1)
}

/// A window of `steps` steps grows to a whole number of steps, at most the
/// 32 that reach the cap; each window on the way keeps the kind, and the
/// next one does not, unless the cap is reached.
pub proof fn lemma_stable_steps(
    image: Seq<u8>,
    start: int,
    table: Option<TableModel>,
    steps: int,
)
    requires
        1 <= steps <= SIZE_CAP / GROWTH_STEP,
    ensures
        steps <= stable_steps(image, start, table, steps) <= SIZE_CAP / GROWTH_STEP,
        forall|k: int|
            steps < k <= stable_steps(image, start, table, steps) ==> keeps_kind(
                image,
                start,
                table,
                k,
            ),
        stable_steps(image, start, table, steps) < SIZE_CAP / GROWTH_STEP ==> !keeps_kind(
            image,
            start,
            table,
            stable_steps(image, start, table, steps) + 1,
        ),
    decreases SIZE_CAP / GROWTH_STEP - steps,
{
    if steps < SIZE_CAP / GROWTH_STEP && keeps_kind(image, start, table, steps + 1) {
        lemma_stable_steps(image, start, table, steps + 1);
    }
}

/// The inferred size is a multiple of 32 and at most 1024. Where at least 32
/// bytes are left of the image from `start`, it is at most what is left.
pub proof fn inferred_size_bounds(image: Seq<u8>, start: int, table: Option<TableModel>)
    ensures
        inferred_size(image, start, table) % GROWTH_STEP as int == 0,
        GROWTH_STEP <= inferred_size(image, start, table) <= SIZE_CAP,
        start + GROWTH_STEP <= image.len() ==> start + inferred_size(image, start, table)
            <= image.len(),
{
    lemma_stable_steps(image, start, table, 1);
    let steps = stable_steps(image, start, table, 1);
    if steps > 1 {
        assert(keeps_kind(image, start, table, steps));
    }
}

/// The inferred size is that of the largest window, of a whole number of
/// steps and within the cap, up to which every window lies inside the image
/// and is classified as the window of one step is.
pub proof fn inferred_size_is_largest_stable(
    image: Seq<u8>,
    start: int,
    table: Option<TableModel>,
)
    ensures
        ({
            let steps = inferred_size(image, start, table) / GROWTH_STEP as int;
            &&& inferred_size(image, start, table) == GROWTH_STEP * steps
            &&& 1 <= steps <= SIZE_CAP / GROWTH_STEP
            &&& forall|k: int| 1 < k <= steps ==> keeps_kind(image, start, table, k)
            &&& steps < SIZE_CAP / GROWTH_STEP ==> !keeps_kind(image, start, table, steps + 1)
        }),
{
    lemma_stable_steps(image, start, table, 1);
}

/// Infers the size of a region that starts at `start`.
pub fn infer_size(image: &[u8], start: usize, tbl: Option<&SubstitutionTable>) -> (size: usize)
    ensures
        size == inferred_size(image@, start as int, table_of(tbl)),
        size % GROWTH_STEP == 0,
        GROWTH_STEP <= size <= SIZE_CAP,
        start + GROWTH_STEP <= image@.len() ==> start + size <= image@.len(),
{
    let remaining: usize = bytes_left(image, start);
    let first_kind = classify_window(clamped_slice(image, start, GROWTH_STEP), tbl);
    let mut size: usize = GROWTH_STEP;
    let ghost mut steps: int = 1;
    loop
        invariant
            remaining == image@.len() - start || (remaining == 0 && start > image@.len()),
            first_kind == classification(
                window(image@, start as int, GROWTH_STEP as int),
                table_of(tbl),
            ),
            1 <= steps <= SIZE_CAP / GROWTH_STEP,
            size == GROWTH_STEP * steps,
            stable_steps(image@, start as int, table_of(tbl), steps) == stable_steps(
                image@,
                start as int,
                table_of(tbl),
                1,
            ),
        ensures
            size == inferred_size(image@, start as int, table_of(tbl)),
        decreases SIZE_CAP - size,
    {
        if size >= SIZE_CAP {
            break ;
        }
        let next: usize = size + GROWTH_STEP;
        if next > remaining {
            break ;
        }
        let next_kind = classify_window(slice_of(image, start, next), tbl);
        if next_kind != first_kind {
            break ;
        }
        size = next;
        proof {
            steps = steps + 1;
        }
    }
    proof {
        inferred_size_bounds(image@, start as int, table_of(tbl));
    }
    size
}

/// The number of bytes of `image` from offset `start` on.
pub fn bytes_left(image: &[u8], start: usize) -> (left: usize)
    ensures
        start <= image@.len() ==> left == image@.len() - start,
        start > image@.len() ==> left == 0,
{
    if start <= image.len() {
        image.len() - start
    } else {
        0
    }
}

/// The `size` bytes of `image` from offset `start`, or those that are left
/// of the image where it ends before.
pub fn clamped_slice(image: &[u8], start: usize, size: usize) -> (part: &[u8])
    ensures
        part@ == window(image@, start as int, size as int),
        part@.len() <= size,
{
    let left: usize = bytes_left(image, start);
    if left == 0 {
        slice_of(image, 0, 0)
    } else if size <= left {
        slice_of(image, start, size)
    } else {
        slice_of(image, start, left)
    }
}

/// The `size` bytes of `image` from offset `start`.
pub fn slice_of(image: &[u8], start: usize, size: usize) -> (part: &[u8])
    requires
        start + size <= image.len(),
    ensures
        part@ == window(image@, start as int, size as int),
        part@.len() == size,
{
    &image[start..start + size]
}

/// A region of `catalog` starts at `offset`.
pub open spec fn region_at(catalog: Seq<RegionModel>, offset: int) -> bool {
    exists|i: int| 0 <= i < catalog.len() && (#[trigger] catalog[i]).offset == offset
}

/// The region that is inferred at `offset`: of the inferred size, and of the
/// kind of what that size holds, or of what is left of the image.
pub open spec fn inferred_region(
    image: Seq<u8>,
    table: Option<TableModel>,
    offset: int,
) -> RegionModel {
    RegionModel {
        offset: offset as nat,
        size: inferred_size(image, offset, table) as nat,
        name: inferred_name(),
        kind: classification(window(image, offset, inferred_size(image, offset, table)), table),
        required: false,
        value_map: None,
        origin: RegionOrigin::Inferred,
    }
}

/// The regions found once the first `n` pointers were followed, in the order
/// given: `found` to begin with, and then one inferred region at the target
/// of each pointer at whose target no region started before, be it one of
/// `known` or one found so far.
pub open spec fn discovered(
    known: Seq<RegionModel>,
    found: Seq<RegionModel>,
    image: Seq<u8>,
    table: Option<TableModel>,
    pointers: Seq<RomPointer>,
    n: nat,
) -> Seq<RegionModel>
    decreases n,
{
    if n == 0 {
        found
    } else {
        let before = discovered(known, found, image, table, pointers, (n - 1) as nat);
        let target = pointers[n - 1].to as int;
        if region_at(known, target) || region_at(before, target) {
            before
        } else {
            before.push(inferred_region(image, table, target))
        }
    }
}

/// Discovery keeps what was found before, in its place.
pub proof fn lemma_discovery_keeps(
    known: Seq<RegionModel>,
    found: Seq<RegionModel>,
    image: Seq<u8>,
    table: Option<TableModel>,
    pointers: Seq<RomPointer>,
    n: nat,
)
    ensures
        found.len() <= discovered(known, found, image, table, pointers, n).len(),
        discovered(known, found, image, table, pointers, n).take(found.len() as int) == found,
    decreases n,
{
    if n > 0 {
        lemma_discovery_keeps(known, found, image, table, pointers, (n - 1) as nat);
    }
    let after = discovered(known, found, image, table, pointers, n);
    assert(after.take(found.len() as int) =~= found);
}

/// A region that starts at `offset` still does once another region is added.
pub proof fn lemma_region_at_grows(catalog: Seq<RegionModel>, added: RegionModel, offset: int)
    requires
        region_at(catalog, offset),
    ensures
        region_at(catalog.push(added), offset),
{
    let i = choose|i: int| 0 <= i < catalog.len() && (#[trigger] catalog[i]).offset == offset;
    assert(catalog.push(added)[i].offset == offset);
}

/// Once pointer `j` was followed, a region starts at its target.
pub proof fn lemma_discovery_covers(
    known: Seq<RegionModel>,
    found: Seq<RegionModel>,
    image: Seq<u8>,
    table: Option<TableModel>,
    pointers: Seq<RomPointer>,
    n: nat,
    j: int,
)
    requires
        0 <= j < n <= pointers.len(),
    ensures
        region_at(known, pointers[j].to as int) || region_at(
            discovered(known, found, image, table, pointers, n),
            pointers[j].to as int,
        ),
    decreases n,
{
    let after = discovered(known, found, image, table, pointers, n);
    let before = discovered(known, found, image, table, pointers, (n - 1) as nat);
    let last = pointers[n - 1].to as int;
    let target = pointers[j].to as int;
    let added = inferred_region(image, table, last);
    if j < n - 1 {
        lemma_discovery_covers(known, found, image, table, pointers, (n - 1) as nat, j);
        if region_at(before, target) && after != before {
            lemma_region_at_grows(before, added, target);
        }
    } else if !region_at(known, last) && !region_at(before, last) {
        assert(before.push(added)[before.len() as int].offset == last);
    }
}

/// A region that discovery added starts at the target of a pointer, where
/// no region of `known` starts and no region that stands before it, and is
/// the region inferred there.
pub proof fn lemma_discovery_adds_new(
    known: Seq<RegionModel>,
    found: Seq<RegionModel>,
    image: Seq<u8>,
    table: Option<TableModel>,
    pointers: Seq<RomPointer>,
    n: nat,
    a: int,
)
    requires
        n <= pointers.len(),
        found.len() <= a < discovered(known, found, image, table, pointers, n).len(),
    ensures
        ({
            let after = discovered(known, found, image, table, pointers, n);
            &&& !region_at(known, after[a].offset as int)
            &&& !region_at(after.take(a), after[a].offset as int)
            &&& after[a] == inferred_region(image, table, after[a].offset as int)
            &&& exists|j: int| 0 <= j < n && (#[trigger] pointers[j]).to == after[a].offset
        }),
    decreases n,
{
    let after = discovered(known, found, image, table, pointers, n);
    if n > 0 {
        let before = discovered(known, found, image, table, pointers, (n - 1) as nat);
        if a < before.len() {
            lemma_discovery_adds_new(known, found, image, table, pointers, (n - 1) as nat, a);
            assert(after.take(a) =~= before.take(a));
        } else {
            assert(after.take(a) =~= before);
        }
    }
}

/// Discovery only adds regions: what was found before stays, in its place.
/// After it a region starts at the target of every pointer followed. Each
/// region it adds starts where no region of `known` starts and no region
/// that stands before it, so that no two regions added start at one offset.
pub proof fn discovery_adds_one_region_per_target(
    known: Seq<RegionModel>,
    found: Seq<RegionModel>,
    image: Seq<u8>,
    table: Option<TableModel>,
    pointers: Seq<RomPointer>,
    n: nat,
)
    requires
        n <= pointers.len(),
    ensures
        ({
            let after = discovered(known, found, image, table, pointers, n);
            &&& found.len() <= after.len()
            &&& after.take(found.len() as int) == found
            &&& forall|j: int|
                0 <= j < n ==> region_at(known, (#[trigger] pointers[j]).to as int) || region_at(
                    after,
                    pointers[j].to as int,
                )
            &&& forall|a: int|
                found.len() <= a < after.len() ==> {
                    &&& !region_at(known, (#[trigger] after[a]).offset as int)
                    &&& !region_at(after.take(a), after[a].offset as int)
                    &&& after[a] == inferred_region(image, table, after[a].offset as int)
                    &&& exists|j: int| 0 <= j < n && (#[trigger] pointers[j]).to == after[a].offset
                }
        }),
{
    let after = discovered(known, found, image, table, pointers, n);
    lemma_discovery_keeps(known, found, image, table, pointers, n);
    assert forall|j: int| 0 <= j < n implies region_at(known, (#[trigger] pointers[j]).to as int)
        || region_at(after, pointers[j].to as int) by {
        lemma_discovery_covers(known, found, image, table, pointers, n, j);
    }
    assert forall|a: int| found.len() <= a < after.len() implies {
        &&& !region_at(known, (#[trigger] after[a]).offset as int)
        &&& !region_at(after.take(a), after[a].offset as int)
        &&& after[a] == inferred_region(image, table, after[a].offset as int)
        &&& exists|j: int| 0 <= j < n && (#[trigger] pointers[j]).to == after[a].offset
    } by {
        lemma_discovery_adds_new(known, found, image, table, pointers, n, a);
    }
}

/// Tells whether one of `regions` starts at `offset`.
pub fn starts_region(regions: &[RomRegion], offset: usize) -> (yes: bool)
    ensures
        yes == region_at(region_models(regions@), offset as int),
{
    let mut i: usize = 0;
    while i < regions.len()
        invariant
            i <= regions.len(),
            forall|j: int| 0 <= j < i ==> (#[trigger] region_models(regions@)[j]).offset != offset,
        decreases regions.len() - i,
    {
        if regions[i].offset == offset {
            assert(region_models(regions@)[i as int].offset == offset);
            return true;
        }
        i += 1;
    }
    false
}

/// Infers the region at `offset`.
pub fn infer_region(image: &[u8], offset: usize, tbl: Option<&SubstitutionTable>) -> (region:
    RomRegion)
    ensures
        region@ == inferred_region(image@, table_of(tbl), offset as int),
{
    let size = infer_size(image, offset, tbl);
    let kind = classify_window(clamped_slice(image, offset, size), tbl);
    RomRegion {
        offset,
        size,
        name: "Discovered Data",
        kind,
        required: false,
        value_map: None,
        origin: RegionOrigin::Inferred,
    }
}

/// Follows each pointer in turn and adds to `found` an inferred region at
/// its target, unless a region of `known` or of `found` starts there.
pub fn discover(
    image: &[u8],
    tbl: Option<&SubstitutionTable>,
    known: &[RomRegion],
    pointers: &[RomPointer],
    found: &mut Vec<RomRegion>,
)
    ensures
        region_models(final(found)@) == discovered(
            region_models(known@),
            region_models(old(found)@),
            image@,
            table_of(tbl),
            pointers@,
            pointers@.len(),
        ),
{
    let mut n: usize = 0;
    while n < pointers.len()
        invariant
            n <= pointers.len(),
            region_models(found@) == discovered(
                region_models(known@),
                region_models(old(found)@),
                image@,
                table_of(tbl),
                pointers@,
                n as nat,
            ),
        decreases pointers.len() - n,
    {
        let target = pointers[n].to;
        if !starts_region(known, target) && !starts_region(found.as_slice(), target) {
            found.push(infer_region(image, target, tbl));
        }
        n += 1;
    }
}

} // verus!
