//! What a ROM family supplies: its name and the static layout of its header.

use vstd::prelude::*;
use crate::region::{region_models, RegionModel, RomRegion};

verus! {

/// The static layout of one family of ROM images: an ordered list of named,
/// offset-addressed header fields.
pub trait RomSpec {
    /// The declared regions, in declaration order.
    spec fn region_table(&self) -> Seq<RegionModel>;

    /// The declared regions, in declaration order.
    fn regions(&self) -> (list: &'static [RomRegion])
        ensures
            region_models(list@) == self.region_table(),
    ;
}

/// A family of ROM images (one console).
pub trait RomFamily {
    /// The type of the family's layout.
    type Spec: RomSpec;

    /// The family's display name.
    spec fn label(&self) -> Seq<char>;

    /// The regions that the family's layout declares.
    spec fn region_table(&self) -> Seq<RegionModel>;

    /// The family's display name.
    fn name(&self) -> (n: &'static str)
        ensures
            n@ == self.label(),
    ;

    /// The layout of the family's header.
    fn spec(&self) -> (layout: Self::Spec)
        ensures
            layout.region_table() == self.region_table(),
    ;
}

} // verus!
