//! The region model: the data shared by every analysis pass.

use vstd::prelude::*;

verus! {

/// Coarse content category of a byte range.
#[derive(Debug, Clone, Copy, PartialEq, Eq, Structural)]
pub enum RomRegionKind {
    Header,
    Code,
    Data,
    Text,
    Pointer,
    PointerTable,
    Reserved,
    Unknown,
}

/// Where a region came from. It is fixed when the region is created.
#[derive(Debug, Clone, Copy, PartialEq, Eq, Structural)]
pub enum RegionOrigin {
    /// Declared by the static layout of a ROM family.
    Spec,
    /// Found by structural analysis.
    Discovered,
    /// Grown from a pointer target by the size inferencer.
    Inferred,
}

/// Text encodings a byte window may be read in.
#[derive(Debug, Clone, Copy, PartialEq, Eq, Structural)]
pub enum TextEncoding {
    Ascii,
    Utf8,
    Utf16LE,
    ShiftJis,
    Tbl,
}

/// One little-endian word of the image whose value addresses the image itself.
///
/// `from` is the offset the word was read at, `raw` its value and `to` the
/// offset it addresses (`raw` less the ROM base address).
#[derive(Debug, Clone, Copy, PartialEq, Eq, Structural)]
pub struct RomPointer {
    pub from: usize,
    pub to: usize,
    pub raw: u32,
}

/// One entry of a value table: an exact byte pattern and what it means.
#[derive(Debug, Clone, Copy)]
pub struct RomValueMapping {
    pub raw: &'static [u8],
    pub meaning: &'static str,
}

/// A named, typed byte range `[offset, offset + size)` of the image.
#[derive(Debug, Clone, Copy)]
pub struct RomRegion {
    pub offset: usize,
    pub size: usize,
    pub name: &'static str,
    pub kind: RomRegionKind,
    pub required: bool,
    pub value_map: Option<&'static [RomValueMapping]>,
    pub origin: RegionOrigin,
}

/// A header field by position alone.
#[derive(Debug, Clone, Copy)]
pub struct RomBinaryField {
    pub offset: usize,
    pub size: usize,
    pub name: &'static str,
    pub required: bool,
}

/// What a [`RomValueMapping`] holds, as plain values.
pub struct MappingModel {
    pub raw: Seq<u8>,
    pub meaning: Seq<char>,
}

/// What a [`RomRegion`] holds, as plain values.
pub struct RegionModel {
    pub offset: nat,
    pub size: nat,
    pub name: Seq<char>,
    pub kind: RomRegionKind,
    pub required: bool,
    pub value_map: Option<Seq<MappingModel>>,
    pub origin: RegionOrigin,
}

/// What a [`RomBinaryField`] holds, as plain values.
pub struct FieldModel {
    pub offset: nat,
    pub size: nat,
    pub name: Seq<char>,
    pub required: bool,
}

impl View for RomValueMapping {
    type V = MappingModel;

    open spec fn view(&self) -> MappingModel {
        MappingModel { raw: self.raw@, meaning: self.meaning@ }
    }
}

impl View for RomRegion {
    type V = RegionModel;

    open spec fn view(&self) -> RegionModel {
        RegionModel {
            offset: self.offset as nat,
            size: self.size as nat,
            name: self.name@,
            kind: self.kind,
            required: self.required,
            value_map: match self.value_map {
                Some(entries) => Some(entries@.map_values(|e: RomValueMapping| e@)),
                None => None,
            },
            origin: self.origin,
        }
    }
}

impl View for RomBinaryField {
    type V = FieldModel;

    open spec fn view(&self) -> FieldModel {
        FieldModel {
            offset: self.offset as nat,
            size: self.size as nat,
            name: self.name@,
            required: self.required,
        }
    }
}

/// The plain values of a list of regions, in order.
pub open spec fn region_models(list: Seq<RomRegion>) -> Seq<RegionModel> {
    list.map_values(|r: RomRegion| r@)
}

impl RegionModel {
    /// The first offset past the region.
    pub open spec fn end(self) -> nat {
        self.offset + self.size
    }

    /// The region lies inside an image of `len` bytes.
    pub open spec fn fits(self, len: nat) -> bool {
        self.end() <= len
    }
}

impl RomRegion {
    /// The position, name and required flag of the region, without its kind,
    /// value table and origin.
    pub fn field(&self) -> (f: RomBinaryField)
        ensures
            f@ == (FieldModel {
                offset: self@.offset,
                size: self@.size,
                name: self@.name,
                required: self@.required,
            }),
    {
        RomBinaryField {
            offset: self.offset,
            size: self.size,
            name: self.name,
            required: self.required,
        }
    }
}

/// A kind filter lets a region through: no filter lets every region through,
/// a list lets through the regions whose kind it holds.
pub open spec fn kind_allowed(kind: RomRegionKind, filter: Option<Seq<RomRegionKind>>) -> bool {
    match filter {
        None => true,
        Some(list) => list.contains(kind),
    }
}

/// The kinds of an optional filter list.
pub open spec fn filter_of(filter: Option<&[RomRegionKind]>) -> Option<Seq<RomRegionKind>> {
    match filter {
        Some(list) => Some(list@),
        None => None,
    }
}

/// Tells whether `region` passes the kind filter.
pub fn kind_matches(region: &RomRegion, filter: Option<&[RomRegionKind]>) -> (allowed: bool)
    ensures
        allowed == kind_allowed(region.kind, filter_of(filter)),
{
    match filter {
        None => true,
        Some(list) => {
            let mut i: usize = 0;
            while i < list.len()
                invariant
                    filter == Some(list),
                    i <= list.len(),
                    forall|j: int| 0 <= j < i ==> list@[j] != region.kind,
                decreases list.len() - i,
            {
                if list[i] == region.kind {
                    return true;
                }
                i += 1;
            }
            false
        },
    }
}

} // verus!
