//! Header layouts, one module for each ROM family.

pub mod gba;
