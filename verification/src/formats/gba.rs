//! The Game Boy Advance cartridge header.
//!
//! The first 192 bytes of a cartridge hold the header proper; multiboot images
//! carry a few more entries after it.

use vstd::prelude::*;
use crate::family::{RomFamily, RomSpec};
use crate::region::{
    region_models, MappingModel, RegionModel, RegionOrigin, RomRegion, RomRegionKind,
    RomValueMapping,
};

verus! {

/// The header layout of Game Boy Advance cartridges.
pub struct GbaRomSpec;

/// The Game Boy Advance family.
pub struct Gba;

/// Number of bytes that the declared header fields span.
pub const GBA_HEADER_SPAN: usize = 0xE4;

/// A declared field without a value table.
pub open spec fn declared(
    offset: nat,
    size: nat,
    name: Seq<char>,
    kind: RomRegionKind,
    required: bool,
) -> RegionModel {
    RegionModel { offset, size, name, kind, required, value_map: None, origin: RegionOrigin::Spec }
}

/// A declared field whose values have listed meanings.
pub open spec fn enumerated(
    offset: nat,
    size: nat,
    name: Seq<char>,
    kind: RomRegionKind,
    required: bool,
    values: Seq<MappingModel>,
) -> RegionModel {
    RegionModel {
        offset,
        size,
        name,
        kind,
        required,
        value_map: Some(values),
        origin: RegionOrigin::Spec,
    }
}

/// One entry of a value table.
pub open spec fn meaning_of(raw: Seq<u8>, meaning: Seq<char>) -> MappingModel {
    MappingModel { raw, meaning }
}

/// What the first character of the game code stands for.
pub open spec fn unique_code_meanings() -> Seq<MappingModel> {
    seq![
        meaning_of(seq![0x41u8], "Normal game; Older titles (mainly 2001..2003)"@),
        meaning_of(seq![0x42u8], "Normal game; Newer titles (2003..)"@),
        meaning_of(seq![0x43u8], "Normal game; Not used yet, but might be used for even newer titles"@),
        meaning_of(seq![0x46u8], "Famicom/Classic NES Series (software emulated NES games)"@),
        meaning_of(seq![0x50u8], "e-Reader (dot-code scanner) (or NDS PassMe image when gamecode='PASS')"@),
        meaning_of(seq![0x52u8], "Warioware Twisted (cartridge with rumble and z-axis gyro sensor)"@),
        meaning_of(seq![0x55u8], "Boktai 1 and 2 (cartridge with RTC and solar sensor)"@),
        meaning_of(seq![0x56u8], "Drill Dozer (cartridge with rumble)"@),
    ]
}

/// What the fourth character of the game code stands for.
pub open spec fn destination_meanings() -> Seq<MappingModel> {
    seq![
        meaning_of(seq![0x4Au8], "Japan"@),
        meaning_of(seq![0x50u8], "Europe/Elsewhere"@),
        meaning_of(seq![0x46u8], "French"@),
        meaning_of(seq![0x53u8], "Spanish"@),
        meaning_of(seq![0x45u8], "USA/English"@),
        meaning_of(seq![0x44u8], "German"@),
        meaning_of(seq![0x49u8], "Italian"@),
    ]
}

/// The makers that are known by their code.
pub open spec fn maker_meanings() -> Seq<MappingModel> {
    seq![
        meaning_of(seq![0x30u8, 0x31u8], "Nintendo"@),
    ]
}

/// The declared fields of the header, in declaration order.
pub open spec fn gba_region_table() -> Seq<RegionModel> {
    seq![
        declared(0x00, 192, "GBA Complete Header"@, RomRegionKind::Header, false),
        declared(0x00, 4, "Entry Point"@, RomRegionKind::Reserved, false),
        declared(0x04, 156, "Entry Point"@, RomRegionKind::Reserved, true),
        declared(0xA0, 12, "Game Title"@, RomRegionKind::Text, false),
        declared(0xAC, 4, "Game Code"@, RomRegionKind::Text, false),
        enumerated(0xAC, 1, "Unique Code (U)"@, RomRegionKind::Text, false, unique_code_meanings()),
        declared(0xAD, 2, "Short Title (TT)"@, RomRegionKind::Text, false),
        enumerated(0xAF, 1, "Destination/Language (D)"@, RomRegionKind::Text, false, destination_meanings()),
        enumerated(0xB0, 2, "Maker Code"@, RomRegionKind::Text, false, maker_meanings()),
        declared(0xB2, 1, "Fixed value"@, RomRegionKind::Reserved, true),
        declared(0xB3, 1, "Main unit code"@, RomRegionKind::Reserved, false),
        declared(0xB4, 1, "Device type"@, RomRegionKind::Reserved, false),
        declared(0xB5, 7, "Reserved Area"@, RomRegionKind::Reserved, false),
        declared(0xBC, 1, "Software version"@, RomRegionKind::Reserved, false),
        declared(0xBD, 1, "Complement check"@, RomRegionKind::Reserved, true),
        declared(0xBE, 2, "Reserved Area"@, RomRegionKind::Reserved, false),
        declared(0xC0, 4, "RAM Entry Point"@, RomRegionKind::Reserved, false),
        declared(0xC4, 1, "Boot mode"@, RomRegionKind::Reserved, false),
        declared(0xC5, 1, "Slave ID Number"@, RomRegionKind::Reserved, false),
        declared(0xC6, 26, "Not used"@, RomRegionKind::Reserved, false),
        declared(0xE0, 4, "JOYBUS Entry Pt."@, RomRegionKind::Reserved, false),
    ]
}

/// Every declared field lies within the first `0xE4` bytes of the image and
/// is of origin `Spec`, and each pattern of a value table is as long as the
/// field it belongs to.
pub proof fn gba_fields_are_well_formed()
    ensures
        gba_region_table().len() == 21,
        forall|i: int|
            0 <= i < gba_region_table().len() ==> {
                let field = #[trigger] gba_region_table()[i];
                &&& field.end() <= GBA_HEADER_SPAN
                &&& field.origin == RegionOrigin::Spec
                &&& field.value_map matches Some(values) ==> forall|k: int|
                    0 <= k < values.len() ==> (#[trigger] values[k]).raw.len() == field.size
            },
{
}

impl RomSpec for GbaRomSpec {
    open spec fn region_table(&self) -> Seq<RegionModel> {
        gba_region_table()
    }

    fn regions(&self) -> (list: &'static [RomRegion])
        ensures
            region_models(list@) == gba_region_table(),
    {
        let list: &'static [RomRegion] = &[
            // The whole cartridge header.
            RomRegion {
                offset: 0x00,
                size: 192,
                name: "GBA Complete Header",
                kind: RomRegionKind::Header,
                required: false,
                value_map: None,
                origin: RegionOrigin::Spec,
            },
            // ROM entry point: a 32-bit ARM branch to the start of the program.
            RomRegion {
                offset: 0x00,
                size: 4,
                name: "Entry Point",
                kind: RomRegionKind::Reserved,
                required: false,
                value_map: None,
                origin: RegionOrigin::Spec,
            },
            // The compressed logo bitmap that the boot code checks.
            RomRegion {
                offset: 0x04,
                size: 156,
                name: "Entry Point",
                kind: RomRegionKind::Reserved,
                required: true,
                value_map: None,
                origin: RegionOrigin::Spec,
            },
            // Game title: upper-case ASCII, padded with zero bytes.
            RomRegion {
                offset: 0xA0,
                size: 12,
                name: "Game Title",
                kind: RomRegionKind::Text,
                required: false,
                value_map: None,
                origin: RegionOrigin::Spec,
            },
            // Game code: four upper-case ASCII characters, split up below.
            RomRegion {
                offset: 0xAC,
                size: 4,
                name: "Game Code",
                kind: RomRegionKind::Text,
                required: false,
                value_map: None,
                origin: RegionOrigin::Spec,
            },
            // First character of the game code: the kind of cartridge.
            RomRegion {
                offset: 0xAC,
                size: 1,
                name: "Unique Code (U)",
                kind: RomRegionKind::Text,
                required: false,
                value_map: Some(&[
                    RomValueMapping {
                        raw: &[0x41],
                        meaning: "Normal game; Older titles (mainly 2001..2003)",
                    },
                    RomValueMapping {
                        raw: &[0x42],
                        meaning: "Normal game; Newer titles (2003..)",
                    },
                    RomValueMapping {
                        raw: &[0x43],
                        meaning: "Normal game; Not used yet, but might be used for even newer titles",
                    },
                    RomValueMapping {
                        raw: &[0x46],
                        meaning: "Famicom/Classic NES Series (software emulated NES games)",
                    },
                    RomValueMapping {
                        raw: &[0x50],
                        meaning: "e-Reader (dot-code scanner) (or NDS PassMe image when gamecode='PASS')",
                    },
                    RomValueMapping {
                        raw: &[0x52],
                        meaning: "Warioware Twisted (cartridge with rumble and z-axis gyro sensor)",
                    },
                    RomValueMapping {
                        raw: &[0x55],
                        meaning: "Boktai 1 and 2 (cartridge with RTC and solar sensor)",
                    },
                    RomValueMapping {
                        raw: &[0x56],
                        meaning: "Drill Dozer (cartridge with rumble)",
                    },
                ]),
                origin: RegionOrigin::Spec,
            },
            // Second and third character of the game code: a short title.
            RomRegion {
                offset: 0xAD,
                size: 2,
                name: "Short Title (TT)",
                kind: RomRegionKind::Text,
                required: false,
                value_map: None,
                origin: RegionOrigin::Spec,
            },
            // Fourth character of the game code: destination or language.
            RomRegion {
                offset: 0xAF,
                size: 1,
                name: "Destination/Language (D)",
                kind: RomRegionKind::Text,
                required: false,
                value_map: Some(&[
                    RomValueMapping {
                        raw: &[0x4A],
                        meaning: "Japan",
                    },
                    RomValueMapping {
                        raw: &[0x50],
                        meaning: "Europe/Elsewhere",
                    },
                    RomValueMapping {
                        raw: &[0x46],
                        meaning: "French",
                    },
                    RomValueMapping {
                        raw: &[0x53],
                        meaning: "Spanish",
                    },
                    RomValueMapping {
                        raw: &[0x45],
                        meaning: "USA/English",
                    },
                    RomValueMapping {
                        raw: &[0x44],
                        meaning: "German",
                    },
                    RomValueMapping {
                        raw: &[0x49],
                        meaning: "Italian",
                    },
                ]),
                origin: RegionOrigin::Spec,
            },
            // Maker code: two upper-case ASCII characters.
            RomRegion {
                offset: 0xB0,
                size: 2,
                name: "Maker Code",
                kind: RomRegionKind::Text,
                required: false,
                value_map: Some(&[
                    RomValueMapping {
                        raw: &[0x30, 0x31],
                        meaning: "Nintendo",
                    },
                ]),
                origin: RegionOrigin::Spec,
            },
            // A fixed value that the boot code checks.
            RomRegion {
                offset: 0xB2,
                size: 1,
                name: "Fixed value",
                kind: RomRegionKind::Reserved,
                required: true,
                value_map: None,
                origin: RegionOrigin::Spec,
            },
            // Main unit code: the hardware the game needs.
            RomRegion {
                offset: 0xB3,
                size: 1,
                name: "Main unit code",
                kind: RomRegionKind::Reserved,
                required: false,
                value_map: None,
                origin: RegionOrigin::Spec,
            },
            // Device type: bit 7 selects the debugging handler.
            RomRegion {
                offset: 0xB4,
                size: 1,
                name: "Device type",
                kind: RomRegionKind::Reserved,
                required: false,
                value_map: None,
                origin: RegionOrigin::Spec,
            },
            // Reserved, zero filled.
            RomRegion {
                offset: 0xB5,
                size: 7,
                name: "Reserved Area",
                kind: RomRegionKind::Reserved,
                required: false,
                value_map: None,
                origin: RegionOrigin::Spec,
            },
            // Software version.
            RomRegion {
                offset: 0xBC,
                size: 1,
                name: "Software version",
                kind: RomRegionKind::Reserved,
                required: false,
                value_map: None,
                origin: RegionOrigin::Spec,
            },
            // Header checksum.
            RomRegion {
                offset: 0xBD,
                size: 1,
                name: "Complement check",
                kind: RomRegionKind::Reserved,
                required: true,
                value_map: None,
                origin: RegionOrigin::Spec,
            },
            // Reserved, zero filled.
            RomRegion {
                offset: 0xBE,
                size: 2,
                name: "Reserved Area",
                kind: RomRegionKind::Reserved,
                required: false,
                value_map: None,
                origin: RegionOrigin::Spec,
            },
            // RAM entry point, for multiboot images.
            RomRegion {
                offset: 0xC0,
                size: 4,
                name: "RAM Entry Point",
                kind: RomRegionKind::Reserved,
                required: false,
                value_map: None,
                origin: RegionOrigin::Spec,
            },
            // Boot mode, written by the boot code of a multiboot transfer.
            RomRegion {
                offset: 0xC4,
                size: 1,
                name: "Boot mode",
                kind: RomRegionKind::Reserved,
                required: false,
                value_map: None,
                origin: RegionOrigin::Spec,
            },
            // Slave id number, written by the boot code of a multiboot transfer.
            RomRegion {
                offset: 0xC5,
                size: 1,
                name: "Slave ID Number",
                kind: RomRegionKind::Reserved,
                required: false,
                value_map: None,
                origin: RegionOrigin::Spec,
            },
            // Unused.
            RomRegion {
                offset: 0xC6,
                size: 26,
                name: "Not used",
                kind: RomRegionKind::Reserved,
                required: false,
                value_map: None,
                origin: RegionOrigin::Spec,
            },
            // Joybus entry point, for multiboot images.
            RomRegion {
                offset: 0xE0,
                size: 4,
                name: "JOYBUS Entry Pt.",
                kind: RomRegionKind::Reserved,
                required: false,
                value_map: None,
                origin: RegionOrigin::Spec,
            },
        ];
        proof {
            let values = list@[5].value_map.unwrap()@;
            assert(values[0].raw@ =~= unique_code_meanings()[0].raw);
            assert(values[1].raw@ =~= unique_code_meanings()[1].raw);
            assert(values[2].raw@ =~= unique_code_meanings()[2].raw);
            assert(values[3].raw@ =~= unique_code_meanings()[3].raw);
            assert(values[4].raw@ =~= unique_code_meanings()[4].raw);
            assert(values[5].raw@ =~= unique_code_meanings()[5].raw);
            assert(values[6].raw@ =~= unique_code_meanings()[6].raw);
            assert(values[7].raw@ =~= unique_code_meanings()[7].raw);
            assert(values.map_values(|e: RomValueMapping| e@) =~= unique_code_meanings());
            let values = list@[7].value_map.unwrap()@;
            assert(values[0].raw@ =~= destination_meanings()[0].raw);
            assert(values[1].raw@ =~= destination_meanings()[1].raw);
            assert(values[2].raw@ =~= destination_meanings()[2].raw);
            assert(values[3].raw@ =~= destination_meanings()[3].raw);
            assert(values[4].raw@ =~= destination_meanings()[4].raw);
            assert(values[5].raw@ =~= destination_meanings()[5].raw);
            assert(values[6].raw@ =~= destination_meanings()[6].raw);
            assert(values.map_values(|e: RomValueMapping| e@) =~= destination_meanings());
            let values = list@[8].value_map.unwrap()@;
            assert(values[0].raw@ =~= maker_meanings()[0].raw);
            assert(values.map_values(|e: RomValueMapping| e@) =~= maker_meanings());
            assert(region_models(list@) =~= gba_region_table());
        }
        list
    }
}

impl RomFamily for Gba {
    type Spec = GbaRomSpec;

    open spec fn label(&self) -> Seq<char> {
        "Game Boy Advance"@
    }

    open spec fn region_table(&self) -> Seq<RegionModel> {
        gba_region_table()
    }

    fn name(&self) -> (n: &'static str)
        ensures
            n@ == "Game Boy Advance"@,
    {
        "Game Boy Advance"
    }

    fn spec(&self) -> (layout: GbaRomSpec)
        ensures
            layout.region_table() == gba_region_table(),
    {
        GbaRomSpec
    }
}

} // verus!
