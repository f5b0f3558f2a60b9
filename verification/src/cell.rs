//! One grid slot's physical state.

use vstd::prelude::*;
use crate::species::{subgrid_magnitude_of, Species};
use crate::vec2::{spec_cap_vec, spec_v2_scale, v2_ok, v2_zero, cap_vec, v2_scale, V2};

verus! {

/// Per-grid-point state: velocity persists across steps; motion is the
/// transient per-step displacement budget consumed by relocation.
#[derive(Clone, Copy, Debug, PartialEq, Eq, Structural)]
pub struct Cell {
    pub velocity: V2,
    pub motion: V2,
    pub species: Species,
}

/// Both vectors lie in the representable range.
pub open spec fn cell_ok(c: Cell) -> bool {
    v2_ok(c.velocity) && v2_ok(c.motion)
}

/// The default cell: air, at rest.
pub open spec fn default_cell() -> Cell {
    Cell { velocity: v2_zero(), motion: v2_zero(), species: Species::Air }
}

/// The sub-grid rendering offset: capped motion scaled by the species'
/// sub-grid magnitude.
pub open spec fn spec_subgrid_offset(c: Cell) -> V2 {
    spec_v2_scale(spec_cap_vec(c.motion), subgrid_magnitude_of(c.species))
}

impl Cell {
    pub fn get_subgrid_offset(&self) -> (r: V2)
        requires
            cell_ok(*self),
        ensures
            r == spec_subgrid_offset(*self),
            v2_ok(r),
    {
        v2_scale(cap_vec(self.motion), self.species.get_subgrid_magnitude())
    }
}

impl Default for Cell {
    fn default() -> (r: Self)
        ensures
            r == default_cell(),
    {
        Cell { velocity: V2 { x: 0, y: 0 }, motion: V2 { x: 0, y: 0 }, species: Species::Air }
    }
}

} // verus!
