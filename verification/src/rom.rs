//! A loaded ROM image and its catalog of regions.

use std::collections::HashMap;
use vstd::prelude::*;
use crate::classify::{classification, classify_window};
use crate::discovery::{
    discover, discovered, infer_size, inferred_size, region_at, slice_of, starts_region,
    GROWTH_STEP, SIZE_CAP,
};
use crate::family::{RomFamily, RomSpec};
use crate::pointer::{
    ascending, find_pointer_tables, is_scan_of, pointer_tables, scan, scan_image, table_views,
    MIN_TABLE_ENTRIES,
};
use crate::region::{
    filter_of, kind_allowed, kind_matches, region_models, MappingModel, RegionModel, RomPointer,
    RomRegion, RomRegionKind, RomValueMapping,
};
use crate::text::{decode_text, decoded_text, same_bytes, SubstitutionTable, TableModel};

verus! {

/// A ROM image in memory, the pointers found in it and the regions
/// discovered in it.
pub struct Rom<F: RomFamily> {
    pub name: String,
    pub family: F,
    /// The image. No analysis changes it.
    pub buffer: Vec<u8>,
    pub pointers: Vec<RomPointer>,
    /// The regions discovered or added, in the order in which they came.
    pub regions: Vec<RomRegion>,
    pub tbl: Option<SubstitutionTable>,
}

/// The bytes of `image` that `region` spans, where it lies inside the image.
pub open spec fn region_bytes(image: Seq<u8>, region: RegionModel) -> Option<Seq<u8>> {
    if region.fits(image.len()) {
        Some(image.subrange(region.offset as int, region.end() as int))
    } else {
        None
    }
}

/// The meaning of the first entry of `map`, at or after entry `from`, whose
/// byte pattern is exactly `raw`.
pub open spec fn first_meaning(map: Seq<MappingModel>, raw: Seq<u8>, from: int) -> Option<
    Seq<char>,
>
    decreases map.len() - from,
{
    if from < 0 || from >= map.len() {
        None
    } else if map[from].raw == raw {
        Some(map[from].meaning)
    } else {
        first_meaning(map, raw, from + 1)
    }
}

/// What the value of a region means: `-` for a region without a value table;
/// for one with a table, the meaning that the table gives to exactly the
/// bytes of the region, and `Unknown` where it gives none or the region does
/// not lie inside the image.
pub open spec fn interpretation(image: Seq<u8>, region: RegionModel) -> Seq<char> {
    match region.value_map {
        None => "-"@,
        Some(map) => match region_bytes(image, region) {
            Some(raw) => match first_meaning(map, raw, 0) {
                Some(meaning) => meaning,
                None => "Unknown"@,
            },
            None => "Unknown"@,
        },
    }
}

/// The text of a region: what the text decoder reads in its bytes, and
/// `Not decoded` where it reads nothing or the region does not lie inside
/// the image.
pub open spec fn region_text(
    image: Seq<u8>,
    region: RegionModel,
    table: Option<TableModel>,
) -> Seq<char> {
    match region_bytes(image, region) {
        Some(raw) => match decoded_text(raw, table) {
            Some(text) => text,
            None => "Not decoded"@,
        },
        None => "Not decoded"@,
    }
}

/// The plain values of the regions that a list of references leads to.
pub open spec fn models_of(list: Seq<&RomRegion>) -> Seq<RegionModel> {
    list.map_values(|r: &RomRegion| r@)
}

/// The regions of `catalog` that the kind filter lets through, in order.
pub open spec fn allowed_regions(
    catalog: Seq<RegionModel>,
    filter: Option<Seq<RomRegionKind>>,
) -> Seq<RegionModel> {
    catalog.filter(|r: RegionModel| kind_allowed(r.kind, filter))
}

/// The offsets that the pointers at offset `from` lead to, in order.
pub open spec fn targets_from(pointers: Seq<RomPointer>, from: usize) -> Seq<usize>
    decreases pointers.len(),
{
    if pointers.len() == 0 {
        Seq::<usize>::empty()
    } else {
        let before = targets_from(pointers.drop_last(), from);
        if pointers.last().from == from {
            before.push(pointers.last().to)
        } else {
            before
        }
    }
}

/// `graph` maps each offset at which a pointer stands to the offsets that
/// the pointers there lead to, and holds no other key.
pub open spec fn is_graph_of(graph: Map<usize, Vec<usize>>, pointers: Seq<RomPointer>) -> bool {
    forall|from: usize|
        {
            &&& #[trigger] graph.contains_key(from) <==> targets_from(pointers, from).len() > 0
            &&& graph.contains_key(from) ==> graph[from]@ == targets_from(pointers, from)
        }
}

/// Keeps the regions of `list` that the kind filter lets through.
pub fn retain_allowed<'a>(list: Vec<&'a RomRegion>, kind_filter: Option<&[RomRegionKind]>) -> (kept:
    Vec<&'a RomRegion>)
    ensures
        models_of(kept@) == allowed_regions(models_of(list@), filter_of(kind_filter)),
{
    let ghost allowed = |r: RegionModel| kind_allowed(r.kind, filter_of(kind_filter));
    let mut kept: Vec<&'a RomRegion> = Vec::new();
    let mut i: usize = 0;
    proof {
        reveal(Seq::filter);
    }
    while i < list.len()
        invariant
            i <= list.len(),
            allowed == |r: RegionModel| kind_allowed(r.kind, filter_of(kind_filter)),
            models_of(kept@) == models_of(list@).take(i as int).filter(allowed),
        decreases list.len() - i,
    {
        let region: &'a RomRegion = list[i];
        proof {
            reveal(Seq::filter);
            let now = models_of(list@).take(i + 1);
            assert(now.drop_last() =~= models_of(list@).take(i as int));
        }
        if kind_matches(region, kind_filter) {
            kept.push(region);
        }
        i += 1;
    }
    assert(models_of(list@).take(list@.len() as int) =~= models_of(list@));
    kept
}

impl<F: RomFamily> Rom<F> {
    /// The catalog: the regions that the family declares, and then those
    /// discovered or added.
    pub open spec fn catalog(&self) -> Seq<RegionModel> {
        self.family.region_table() + region_models(self.regions@)
    }

    /// The patterns and replacements of the substitution table, if the ROM
    /// has one.
    pub open spec fn table(&self) -> Option<TableModel> {
        match self.tbl {
            Some(t) => Some(t@),
            None => None,
        }
    }

    /// Takes an image into memory, scans it for pointers and discovers the
    /// regions that the pointers lead to.
    pub fn load(name: String, family: F, buffer: Vec<u8>, tbl: Option<SubstitutionTable>) -> (rom:
        Self)
        ensures
            rom.name == name,
            rom.family == family,
            rom.buffer == buffer,
            rom.tbl == tbl,
            rom.pointers@ == scan(buffer@),
            is_scan_of(rom.pointers@, buffer@),
            region_models(rom.regions@) == discovered(
                family.region_table(),
                Seq::<RegionModel>::empty(),
                buffer@,
                rom.table(),
                rom.pointers@,
                rom.pointers@.len(),
            ),
    {
        let mut rom = Rom { name, family, buffer, pointers: Vec::new(), regions: Vec::new(), tbl };
        rom.scan_pointers();
        assert(region_models(rom.regions@) =~= Seq::<RegionModel>::empty());
        rom.discover_regions();
        rom
    }

    /// The whole catalog, in order.
    pub fn all_regions(&self) -> (all: Vec<&RomRegion>)
        ensures
            models_of(all@) == self.catalog(),
    {
        let known = self.family.spec().regions();
        let mut all: Vec<&RomRegion> = Vec::new();
        let mut i: usize = 0;
        while i < known.len()
            invariant
                i <= known.len(),
                models_of(all@) == region_models(known@).take(i as int),
            decreases known.len() - i,
        {
            let ghost before = all@;
            all.push(&known[i]);
            assert(models_of(all@) =~= models_of(before).push(known@[i as int]@));
            i += 1;
        }
        let mut j: usize = 0;
        while j < self.regions.len()
            invariant
                j <= self.regions.len(),
                region_models(known@) == self.family.region_table(),
                models_of(all@) == region_models(known@) + region_models(self.regions@).take(
                    j as int,
                ),
            decreases self.regions.len() - j,
        {
            let ghost before = all@;
            all.push(&self.regions[j]);
            assert(models_of(all@) =~= models_of(before).push(self.regions@[j as int]@));
            assert(models_of(all@) =~= region_models(known@) + region_models(self.regions@).take(
                j + 1,
            ));
            j += 1;
        }
        all
    }

    /// The regions of the catalog that the kind filter lets through, in
    /// order.
    pub fn select_regions(&self, kind_filter: Option<&[RomRegionKind]>) -> (list: Vec<&RomRegion>)
        ensures
            models_of(list@) == allowed_regions(self.catalog(), filter_of(kind_filter)),
    {
        retain_allowed(self.all_regions(), kind_filter)
    }

    /// The regions that the family declares and the kind filter lets
    /// through, in order.
    pub fn select_family_regions(&self, kind_filter: Option<&[RomRegionKind]>) -> (list: Vec<
        &RomRegion,
    >)
        ensures
            models_of(list@) == allowed_regions(
                self.family.region_table(),
                filter_of(kind_filter),
            ),
    {
        let known = self.family.spec().regions();
        let mut all: Vec<&RomRegion> = Vec::new();
        let mut i: usize = 0;
        while i < known.len()
            invariant
                i <= known.len(),
                models_of(all@) == region_models(known@).take(i as int),
            decreases known.len() - i,
        {
            let ghost before = all@;
            all.push(&known[i]);
            assert(models_of(all@) =~= models_of(before).push(known@[i as int]@));
            i += 1;
        }
        assert(region_models(known@).take(known@.len() as int) =~= region_models(known@));
        retain_allowed(all, kind_filter)
    }

    /// Adds a region to the catalog. The regions already there stay as they
    /// are.
    pub fn add_region(&mut self, region: RomRegion)
        ensures
            final(self).regions@ == old(self).regions@.push(region),
            final(self).name == old(self).name,
            final(self).family == old(self).family,
            final(self).buffer == old(self).buffer,
            final(self).pointers == old(self).pointers,
            final(self).tbl == old(self).tbl,
    {
        self.regions.push(region);
    }

    /// Follows the pointers in turn and adds a region at the target of each,
    /// unless a region of the catalog starts there already.
    pub fn discover_regions(&mut self)
        ensures
            region_models(final(self).regions@) == discovered(
                old(self).family.region_table(),
                region_models(old(self).regions@),
                old(self).buffer@,
                old(self).table(),
                old(self).pointers@,
                old(self).pointers@.len(),
            ),
            final(self).name == old(self).name,
            final(self).family == old(self).family,
            final(self).buffer == old(self).buffer,
            final(self).pointers == old(self).pointers,
            final(self).tbl == old(self).tbl,
    {
        let known = self.family.spec().regions();
        discover(
            self.buffer.as_slice(),
            self.tbl.as_ref(),
            known,
            self.pointers.as_slice(),
            &mut self.regions,
        );
    }

    /// Tells whether a region of the catalog starts at `offset`.
    pub fn region_exists(&self, offset: usize) -> (yes: bool)
        ensures
            yes == region_at(self.catalog(), offset as int),
    {
        let known = self.family.spec().regions();
        let yes = starts_region(known, offset) || starts_region(self.regions.as_slice(), offset);
        proof {
            let declared = self.family.region_table();
            let found = region_models(self.regions@);
            if region_at(declared, offset as int) {
                let i = choose|i: int|
                    0 <= i < declared.len() && (#[trigger] declared[i]).offset == offset;
                assert(self.catalog()[i].offset == offset);
            }
            if region_at(found, offset as int) {
                let i = choose|i: int| 0 <= i < found.len() && (#[trigger] found[i]).offset == offset;
                assert(self.catalog()[declared.len() + i].offset == offset);
            }
            if region_at(self.catalog(), offset as int) {
                let i = choose|i: int|
                    0 <= i < self.catalog().len() && (#[trigger] self.catalog()[i]).offset
                        == offset;
                if i >= declared.len() {
                    assert(found[i - declared.len()].offset == offset);
                }
            }
        }
        yes
    }

    /// Infers the size of a region that starts at `start`.
    pub fn infer_region_size(&self, start: usize) -> (size: usize)
        ensures
            size == inferred_size(self.buffer@, start as int, self.table()),
            size % GROWTH_STEP == 0,
            GROWTH_STEP <= size <= SIZE_CAP,
            start + GROWTH_STEP <= self.buffer@.len() ==> start + size <= self.buffer@.len(),
    {
        infer_size(self.buffer.as_slice(), start, self.tbl.as_ref())
    }

    /// Classifies a byte window.
    pub fn classify_region(&self, raw: &[u8]) -> (kind: RomRegionKind)
        ensures
            kind == classification(raw@, self.table()),
            raw@.len() < 4 ==> kind == RomRegionKind::Unknown,
            kind == RomRegionKind::Text || kind == RomRegionKind::PointerTable || kind
                == RomRegionKind::Code || kind == RomRegionKind::Data || kind
                == RomRegionKind::Unknown,
    {
        classify_window(raw, self.tbl.as_ref())
    }

    /// Scans the image for pointers.
    pub fn scan_pointers(&mut self)
        ensures
            final(self).pointers@ == scan(old(self).buffer@),
            is_scan_of(final(self).pointers@, old(self).buffer@),
            final(self).name == old(self).name,
            final(self).family == old(self).family,
            final(self).buffer == old(self).buffer,
            final(self).regions == old(self).regions,
            final(self).tbl == old(self).tbl,
    {
        self.pointers = scan_image(self.buffer.as_slice());
    }

    /// Groups the pointers into pointer tables.
    pub fn detect_pointer_tables(&self) -> (tables: Vec<Vec<(usize, usize)>>)
        requires
            ascending(self.pointers@),
        ensures
            table_views(tables@) == pointer_tables(self.pointers@),
            forall|t: int|
                0 <= t < tables@.len() ==> (#[trigger] tables@[t])@.len() >= MIN_TABLE_ENTRIES,
    {
        find_pointer_tables(self.pointers.as_slice())
    }

    /// The bytes of `region`, or `None` where the region does not lie
    /// inside the image.
    pub fn bytes_region(&self, region: &RomRegion) -> (raw: Option<&[u8]>)
        ensures
            match raw {
                Some(bytes) => region_bytes(self.buffer@, region@) == Some(bytes@),
                None => region_bytes(self.buffer@, region@) is None,
            },
    {
        let len: usize = self.buffer.len();
        if region.size <= len && region.offset <= len - region.size {
            Some(slice_of(self.buffer.as_slice(), region.offset, region.size))
        } else {
            None
        }
    }

    /// What the value of `region` means, by its value table.
    pub fn interpret_region(&self, region: &RomRegion) -> (meaning: String)
        ensures
            meaning@ == interpretation(self.buffer@, region@),
    {
        match region.value_map {
            None => "-".to_owned(),
            Some(map) => {
                match self.bytes_region(region) {
                    Some(raw) => {
                        let mut i: usize = 0;
                        while i < map.len()
                            invariant
                                i <= map.len(),
                                region@.value_map == Some(
                                    map@.map_values(|e: RomValueMapping| e@),
                                ),
                                region_bytes(self.buffer@, region@) == Some(raw@),
                                first_meaning(region@.value_map->0, raw@, 0) == first_meaning(
                                    region@.value_map->0,
                                    raw@,
                                    i as int,
                                ),
                            decreases map.len() - i,
                        {
                            if same_bytes(map[i].raw, raw) {
                                return map[i].meaning.to_owned();
                            }
                            i += 1;
                        }
                        "Unknown".to_owned()
                    },
                    None => "Unknown".to_owned(),
                }
            },
        }
    }

    /// The text of `region`, for display.
    pub fn text_region(&self, region: &RomRegion) -> (text: String)
        ensures
            text@ == region_text(self.buffer@, region@, self.table()),
    {
        match self.bytes_region(region) {
            Some(raw) => match decode_text(raw, self.tbl.as_ref()) {
                Some(text) => text,
                None => "Not decoded".to_owned(),
            },
            None => "Not decoded".to_owned(),
        }
    }

    /// For each offset at which a pointer stands, the offsets that the
    /// pointers there lead to.
    pub fn pointer_graph(&self) -> (graph: HashMap<usize, Vec<usize>>)
        ensures
            is_graph_of(graph@, self.pointers@),
    {
        let mut graph: HashMap<usize, Vec<usize>> = HashMap::new();
        let mut i: usize = 0;
        while i < self.pointers.len()
            invariant
                i <= self.pointers.len(),
                is_graph_of(graph@, self.pointers@.take(i as int)),
            decreases self.pointers.len() - i,
        {
            let p = self.pointers[i];
            let ghost before = graph@;
            let mut targets: Vec<usize> = match graph.remove(&p.from) {
                Some(t) => t,
                None => Vec::new(),
            };
            targets.push(p.to);
            graph.insert(p.from, targets);
            proof {
                let now = self.pointers@.take(i + 1);
                assert(now.drop_last() =~= self.pointers@.take(i as int));
                assert forall|from: usize|
                    {
                        &&& #[trigger] graph@.contains_key(from) <==> targets_from(now, from).len()
                            > 0
                        &&& graph@.contains_key(from) ==> graph@[from]@ == targets_from(now, from)
                    } by {
                    if from != p.from {
                        assert(graph@.contains_key(from) == before.contains_key(from));
                    }
                }
            }
            i += 1;
        }
        assert(self.pointers@.take(self.pointers@.len() as int) =~= self.pointers@);
        graph
    }
}

} // verus!
