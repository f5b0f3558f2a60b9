//! The closed set of materials and their constant physical parameters.
//!
//! All parameters are fixed-point ticks: 1000 ticks equal one unit.

use vstd::prelude::*;
use crate::vec2::{v2_ok, v2_zero, V2};

verus! {

/// A material a cell can hold.
#[derive(Clone, Copy, Debug, PartialEq, Eq, Structural)]
pub enum Species {
    Air,
    Sand,
    Water,
}

/// Display glyph, for rendering only.
pub open spec fn glyph_of(s: Species) -> char {
    match s {
        Species::Air => ' ',
        Species::Sand => '%',
        Species::Water => '.',
    }
}

/// How far capped motion displaces the sub-cell rendering offset.
pub open spec fn subgrid_magnitude_of(s: Species) -> i64 {
    match s {
        Species::Air => 0,
        Species::Sand => 200,
        Species::Water => 400,
    }
}

/// Resistance to displacement; multiplies mass during collisions only.
pub open spec fn solidity_of(s: Species) -> i64 {
    match s {
        Species::Air => 100,
        Species::Sand => 1000,
        Species::Water => 700,
    }
}

/// Inertia for momentum exchange.
pub open spec fn mass_of(s: Species) -> i64 {
    match s {
        Species::Air => 100,
        Species::Sand => 2500,
        Species::Water => 1000,
    }
}

/// Acceleration applied once per step.
pub open spec fn gravity_of(s: Species) -> V2 {
    match s {
        Species::Air => v2_zero(),
        Species::Sand => V2 { x: 0, y: 1900 },
        Species::Water => V2 { x: 0, y: 1900 },
    }
}

/// Fraction of velocity shed to the neighbors each velocity pass.
pub open spec fn friction_of(s: Species) -> i64 {
    match s {
        Species::Air => 200,
        Species::Sand => 80,
        Species::Water => 50,
    }
}

/// Fraction of collision energy retained.
pub open spec fn elasticity_of(s: Species) -> i64 {
    match s {
        Species::Air => 800,
        Species::Sand => 0,
        Species::Water => 200,
    }
}

impl Species {
    /// The visual representation of this species.
    pub fn get_char(&self) -> (r: char)
        ensures
            r == glyph_of(*self),
    {
        match self {
            Species::Air => ' ',
            Species::Sand => '%',
            Species::Water => '.',
        }
    }

    /// The factor applied to capped motion for the sub-grid offset.
    pub fn get_subgrid_magnitude(&self) -> (r: i64)
        ensures
            r == subgrid_magnitude_of(*self),
    {
        match self {
            Species::Air => 0,
            Species::Sand => 200,
            Species::Water => 400,
        }
    }

    /// How solid this material is.
    pub fn get_solidity(&self) -> (r: i64)
        ensures
            r == solidity_of(*self),
    {
        match self {
            Species::Air => 100,
            Species::Sand => 1000,
            Species::Water => 700,
        }
    }

    /// How heavy this material is.
    pub fn get_mass(&self) -> (r: i64)
        ensures
            r == mass_of(*self),
    {
        match self {
            Species::Air => 100,
            Species::Sand => 2500,
            Species::Water => 1000,
        }
    }

    /// The acceleration applied to cells of this species each step.
    pub fn get_gravity(&self) -> (r: V2)
        ensures
            r == gravity_of(*self),
            v2_ok(r),
    {
        match self {
            Species::Air => V2 { x: 0, y: 0 },
            Species::Sand => V2 { x: 0, y: 1900 },
            Species::Water => V2 { x: 0, y: 1900 },
        }
    }

    /// The fraction of velocity given to the neighbors each velocity pass.
    pub fn get_friction_coeff(&self) -> (r: i64)
        ensures
            r == friction_of(*self),
    {
        match self {
            Species::Air => 200,
            Species::Sand => 80,
            Species::Water => 50,
        }
    }

    /// How much collision energy is maintained.
    pub fn get_elasticity(&self) -> (r: i64)
        ensures
            r == elasticity_of(*self),
    {
        match self {
            Species::Air => 800,
            Species::Sand => 0,
            Species::Water => 200,
        }
    }
}

impl Default for Species {
    fn default() -> (r: Self)
        ensures
            r == Species::Air,
    {
        Species::Air
    }
}

/// Every species has positive mass and parameters inside their stated ranges.
pub proof fn lemma_species_ranges(s: Species)
    ensures
        100 <= mass_of(s) <= 2500,
        100 <= solidity_of(s) <= 1000,
        0 <= friction_of(s) <= 1000,
        0 <= elasticity_of(s) <= 1000,
        0 <= subgrid_magnitude_of(s) < 500,
        v2_ok(gravity_of(s)),
{
}

} // verus!
