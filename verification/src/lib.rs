//! Structural analysis of cartridge ROM images: known header fields, pointer
//! scanning, pointer-table detection, heuristic region discovery and text
//! recovery, each with a machine-checked contract.

pub mod classify;
pub mod discovery;
pub mod family;
pub mod formats;
pub mod header;
pub mod pointer;
pub mod region;
pub mod rom;
pub mod text;

pub use family::{RomFamily, RomSpec};
pub use formats::gba::{Gba, GbaRomSpec};
pub use region::{
    RegionOrigin, RomBinaryField, RomPointer, RomRegion, RomRegionKind, RomValueMapping,
    TextEncoding,
};
pub use rom::Rom;
pub use text::SubstitutionTable;
