//! The simulation engine: a board of cells advanced by the step pipeline of
//! gravity, velocity resolution, motion accumulation and discrete relocation.

use vstd::prelude::*;
use crate::cell::{cell_ok, default_cell, spec_subgrid_offset, Cell};
use crate::fx::{
    div_trunc, div_trunc_exec, fx_add, fx_mul, neg64, spec_fx_add, spec_fx_mul, FX_ONE, FX_ONE_SQ,
};
use crate::gridstore::{grid_init, grid_read, grid_seq, grid_width, grid_write};
use crate::species::{
    elasticity_of, friction_of, gravity_of, lemma_species_ranges, mass_of, solidity_of, Species,
};
use crate::vec2::{
    spec_cap_vec, spec_v2_add, spec_v2_div, spec_v2_dot, spec_v2_norm, spec_v2_scale, spec_v2_sub,
    spec_velocity_to_offset, sqlen_raw, v2_add, v2_div, v2_dot, v2_normalized, v2_ok, v2_scale,
    v2_sub, v2_zero, cap_vec, square_len_raw, velocity_to_offset, V2,
};

verus! {

/// The effective collision mass of a species: mass scaled by solidity.
pub open spec fn eff_mass(s: Species) -> i64 {
    spec_fx_mul(mass_of(s), solidity_of(s))
}

/// Effective masses lie well inside the fixed-point range.
pub proof fn lemma_eff_mass(s: Species)
    ensures
        10 <= eff_mass(s) <= 2500,
{
    match s {
        Species::Air => assert(eff_mass(s) == 10),
        Species::Sand => assert(eff_mass(s) == 2500),
        Species::Water => assert(eff_mass(s) == 700),
    }
}

/// A product of two sub-unit nonnegative factors stays sub-unit.
pub proof fn lemma_unit_product(a: i64, b: i64)
    requires
        0 <= a <= 1000,
        0 <= b <= 1000,
    ensures
        0 <= spec_fx_mul(a, b) <= 1000,
{
    assert(0 <= a * b <= 1_000_000) by (nonlinear_arith)
        requires
            0 <= a <= 1000,
            0 <= b <= 1000,
    ;
}

/// The pushing sub-step of one cell: project the relative velocity of the
/// cell and its push destination onto the impact direction and apply the
/// resulting impulse to both; an absent destination acts as a unit-mass,
/// zero-velocity wall with elasticity 0.2.
pub open spec fn push_cell(g: Seq<Cell>, cols: int, rows: int, x: int, y: int) -> Seq<Cell> {
    let i = slot(cols, x, y);
    let c = g[i];
    let off = spec_velocity_to_offset(c.velocity);
    let nx = x + off.0;
    let ny = y + off.1;
    let present = in_grid(cols, rows, nx, ny);
    let j = slot(cols, nx, ny);
    let our_mass = eff_mass(c.species);
    let their_mass = if present {
        eff_mass(g[j].species)
    } else {
        1000i64
    };
    let their_momentum = if present {
        spec_v2_scale(g[j].velocity, their_mass)
    } else {
        v2_zero()
    };
    let sys_momentum = spec_v2_add(spec_v2_scale(c.velocity, our_mass), their_momentum);
    let total = spec_fx_add(our_mass, their_mass);
    let sys_vel = spec_v2_div(sys_momentum, total);
    let rel = V2 { x: (off.0 * 1000) as i64, y: (off.1 * 1000) as i64 };
    let sub = spec_v2_sub(
        if present {
            spec_subgrid_offset(g[j])
        } else {
            v2_zero()
        },
        spec_subgrid_offset(c),
    );
    let dir = spec_v2_norm(spec_v2_add(rel, sub));
    let elast = spec_fx_mul(
        elasticity_of(c.species),
        if present {
            elasticity_of(g[j].species)
        } else {
            200i64
        },
    );
    let factor = (-(1000 + elast)) as i64;
    let our_imp = spec_v2_scale(
        dir,
        spec_fx_mul(spec_v2_dot(dir, spec_v2_sub(c.velocity, sys_vel)), factor),
    );
    let g1 = g.update(i, Cell { velocity: spec_v2_add(c.velocity, our_imp), ..c });
    if present {
        let their_imp = spec_v2_scale(
            dir,
            spec_fx_mul(spec_v2_dot(dir, spec_v2_sub(g[j].velocity, sys_vel)), factor),
        );
        g1.update(j, Cell { velocity: spec_v2_add(g[j].velocity, their_imp), ..g[j] })
    } else {
        g1
    }
}

/// Add one neighbor's share of friction heat, scaled down by its mass;
/// an absent neighbor receives nothing and its share is lost.
pub open spec fn heat_at(g: Seq<Cell>, cols: int, rows: int, nx: int, ny: int, heat: V2) -> Seq<
    Cell,
> {
    if in_grid(cols, rows, nx, ny) {
        let j = slot(cols, nx, ny);
        let o = g[j];
        g.update(
            j,
            Cell { velocity: spec_v2_add(o.velocity, spec_v2_div(heat, mass_of(o.species))), ..o },
        )
    } else {
        g
    }
}

/// The friction sub-step of one cell: shed a fraction of its velocity and
/// hand the heat to the 4-connected neighbors, in the order +x, +y, -x, -y.
pub open spec fn friction_cell(g: Seq<Cell>, cols: int, rows: int, x: int, y: int) -> Seq<Cell> {
    let i = slot(cols, x, y);
    let c = g[i];
    let f = friction_of(c.species);
    let heat = spec_v2_scale(
        c.velocity,
        div_trunc(spec_fx_mul(f, mass_of(c.species)) as int, 4) as i64,
    );
    let g1 = g.update(i, Cell { velocity: spec_v2_scale(c.velocity, (1000 - f) as i64), ..c });
    let g2 = heat_at(g1, cols, rows, x + 1, y, heat);
    let g3 = heat_at(g2, cols, rows, x, y + 1, heat);
    let g4 = heat_at(g3, cols, rows, x - 1, y, heat);
    heat_at(g4, cols, rows, x, y - 1, heat)
}

/// One cell of the velocity pass: pushing, then friction, each with
/// immediate effect on the grid.
pub open spec fn vel_cell(g: Seq<Cell>, cols: int, rows: int, x: int, y: int) -> Seq<Cell> {
    friction_cell(push_cell(g, cols, rows, x, y), cols, rows, x, y)
}

/// The first `k` slots of one velocity pass, row-major, each acting on the
/// grid the earlier slots left behind.
pub open spec fn vel_pass(g: Seq<Cell>, cols: int, rows: int, k: int) -> Seq<Cell>
    decreases k,
{
    if k <= 0 {
        g
    } else {
        let g1 = vel_pass(g, cols, rows, k - 1);
        vel_cell(g1, cols, rows, (k - 1) % cols, (k - 1) / cols)
    }
}

/// The flat position of the newline ending row `y` in a rendering.
pub open spec fn row_break(cols: int, y: int) -> int {
    y * (cols + 1) + cols
}

/// Positions inside earlier rows of a rendering lie before the current row.
proof fn lemma_render_index(cols: int, j: int, i: int, y: int)
    requires
        0 <= i <= cols,
        0 <= j < y,
    ensures
        0 <= j * (cols + 1) + i < y * (cols + 1),
{
    assert(0 <= j * (cols + 1) + i < y * (cols + 1)) by (nonlinear_arith)
        requires
            0 <= i <= cols,
            0 <= j < y,
    ;
}

/// The species at every slot, row-major.
pub open spec fn species_seq(g: Seq<Cell>) -> Seq<crate::species::Species> {
    g.map_values(|c: Cell| c.species)
}

/// The gravity pass, applied to every cell independently.
pub open spec fn grav_pass(g: Seq<Cell>) -> Seq<Cell> {
    Seq::new(g.len(), |i: int| grav_cell(g[i]))
}

/// The motion-accumulation pass, applied to every cell independently.
pub open spec fn motion_reset_pass(g: Seq<Cell>) -> Seq<Cell> {
    Seq::new(g.len(), |i: int| motion_reset_cell(g[i]))
}

/// `t` velocity passes, each over the whole grid.
pub open spec fn vel_rounds(g: Seq<Cell>, cols: int, rows: int, t: int) -> Seq<Cell>
    decreases t,
{
    if t <= 0 {
        g
    } else {
        vel_pass(vel_rounds(g, cols, rows, t - 1), cols, rows, rows * cols)
    }
}

/// Up to `fuel` relocation passes, stopping after the first quiet pass.
pub open spec fn motion_rounds(g: Seq<Cell>, cols: int, rows: int, fuel: int) -> Seq<Cell>
    decreases fuel,
{
    if fuel <= 0 {
        g
    } else {
        let g2 = motion_pass(g, cols, rows, rows * cols);
        if motion_pass_quiet(g, cols, rows, rows * cols) {
            g2
        } else {
            motion_rounds(g2, cols, rows, fuel - 1)
        }
    }
}

/// One whole simulation step: gravity, four velocity passes, motion
/// accumulation, then up to ten relocation passes with early exit.
pub open spec fn spec_step(g: Seq<Cell>, cols: int, rows: int) -> Seq<Cell> {
    let g1 = grav_pass(g);
    let g2 = vel_rounds(g1, cols, rows, 4);
    let g3 = motion_reset_pass(g2);
    motion_rounds(g3, cols, rows, 10)
}

/// For a head-on collision of a cell with its push destination, where the
/// two cells hold the same species, exactly opposite velocities and no
/// motion, pushing applies exactly equal and opposite impulses: the
/// mass-weighted momentum of the pair is conserved with no delta at all.
/// (In general truncation may leak a few ticks per operation; the symmetric
/// case shows the exchange itself is exactly balanced.)
#[verifier::rlimit(100)]
pub proof fn lemma_push_conserves_momentum_symmetric(
    g: Seq<Cell>,
    cols: int,
    rows: int,
    x: int,
    y: int,
)
    requires
        1 <= cols,
        1 <= rows,
        g.len() == rows * cols,
        in_grid(cols, rows, x, y),
        cell_ok(g[slot(cols, x, y)]),
        ({
            let i = slot(cols, x, y);
            let off = spec_velocity_to_offset(g[i].velocity);
            let j = slot(cols, x + off.0, y + off.1);
            &&& in_grid(cols, rows, x + off.0, y + off.1)
            &&& g[j].species == g[i].species
            &&& g[j].velocity == crate::vec2::v2_neg(g[i].velocity)
            &&& g[i].motion == v2_zero()
            &&& g[j].motion == v2_zero()
        }),
    ensures
        ({
            let i = slot(cols, x, y);
            let off = spec_velocity_to_offset(g[i].velocity);
            let j = slot(cols, x + off.0, y + off.1);
            let g2 = push_cell(g, cols, rows, x, y);
            let m = mass_of(g[i].species) as int;
            &&& g2[j].velocity == crate::vec2::v2_neg(g2[i].velocity)
            &&& m * (g2[i].velocity.x as int) + m * (g2[j].velocity.x as int) == m * (
            g[i].velocity.x as int) + m * (g[j].velocity.x as int)
            &&& m * (g2[i].velocity.y as int) + m * (g2[j].velocity.y as int) == m * (
            g[i].velocity.y as int) + m * (g[j].velocity.y as int)
        }),
{
    let i = slot(cols, x, y);
    let c = g[i];
    let off = spec_velocity_to_offset(c.velocity);
    let nx = x + off.0;
    let ny = y + off.1;
    let j = slot(cols, nx, ny);
    lemma_slot_bounds(cols, rows, x, y);
    lemma_slot_bounds(cols, rows, nx, ny);
    assert(off == (1i64, 0i64) || off == (-1i64, 0i64) || off == (0i64, 1i64) || off == (
    0i64,
    -1i64,
    ));
    lemma_slot_injective(cols, x, y, nx, ny);
    let o = g[j];
    let v = c.velocity;
    let m = eff_mass(c.species);
    lemma_eff_mass(c.species);

    // The system momentum of exact opposites cancels, so the system velocity
    // is exactly zero.
    crate::vec2::lemma_scale_neg_vec(v, m);
    let sys_momentum = spec_v2_add(spec_v2_scale(v, m), spec_v2_scale(o.velocity, m));
    assert(sys_momentum == v2_zero());
    let total = spec_fx_add(m, m);
    let sys_vel = spec_v2_div(sys_momentum, total);
    assert(sys_vel == v2_zero());

    // Both cells project onto the same impact direction with exactly
    // opposite coefficients.
    let rel = V2 { x: (off.0 * 1000) as i64, y: (off.1 * 1000) as i64 };
    let sub = spec_v2_sub(spec_subgrid_offset(o), spec_subgrid_offset(c));
    assert(spec_subgrid_offset(c) == v2_zero());
    assert(spec_subgrid_offset(o) == v2_zero());
    let dir = spec_v2_norm(spec_v2_add(rel, sub));
    assert(v2_ok(dir));
    assert(spec_v2_sub(v, sys_vel) == v);
    assert(spec_v2_sub(o.velocity, sys_vel) == o.velocity);
    crate::vec2::lemma_dot_neg_right(dir, v);
    let d1 = spec_v2_dot(dir, v);
    let d2 = spec_v2_dot(dir, o.velocity);
    assert(d2 == neg64(d1));
    let elast = spec_fx_mul(elasticity_of(c.species), elasticity_of(o.species));
    lemma_unit_product(elasticity_of(c.species), elasticity_of(o.species));
    let factor = (-(1000 + elast)) as i64;
    crate::fx::lemma_fx_mul_neg_left(d1, factor);
    let t1 = spec_fx_mul(d1, factor);
    assert(spec_fx_mul(d2, factor) == neg64(t1));
    crate::vec2::lemma_scale_neg(dir, t1);
    let imp1 = spec_v2_scale(dir, t1);
    let imp2 = spec_v2_scale(dir, neg64(t1));
    assert(imp2 == crate::vec2::v2_neg(imp1));

    // Saturated addition is odd, so the updated velocities are exact
    // negations of one another.
    let g2 = push_cell(g, cols, rows, x, y);
    assert(g2[i].velocity == spec_v2_add(v, imp1));
    assert(g2[j].velocity == spec_v2_add(o.velocity, imp2));
    crate::fx::lemma_clamp_odd(v.x + imp1.x);
    crate::fx::lemma_clamp_odd(v.y + imp1.y);
    assert(g2[j].velocity == crate::vec2::v2_neg(g2[i].velocity));
    assert(mass_of(c.species) * (g2[i].velocity.x as int) + mass_of(c.species) * (
    g2[j].velocity.x as int) == 0) by (nonlinear_arith)
        requires
            g2[j].velocity.x as int == -(g2[i].velocity.x as int),
    ;
    assert(mass_of(c.species) * (g2[i].velocity.y as int) + mass_of(c.species) * (
    g2[j].velocity.y as int) == 0) by (nonlinear_arith)
        requires
            g2[j].velocity.y as int == -(g2[i].velocity.y as int),
    ;
    assert(mass_of(c.species) * (v.x as int) + mass_of(c.species) * (o.velocity.x as int) == 0)
        by (nonlinear_arith)
        requires
            o.velocity.x as int == -(v.x as int),
    ;
    assert(mass_of(c.species) * (v.y as int) + mass_of(c.species) * (o.velocity.y as int) == 0)
        by (nonlinear_arith)
        requires
            o.velocity.y as int == -(v.y as int),
    ;
}

/// On a settled board, where every cell's motion is below one unit, a
/// relocation pass does nothing and reports no work.
pub proof fn lemma_settled_pass(g: Seq<Cell>, cols: int, rows: int, k: int)
    requires
        1 <= cols,
        1 <= rows,
        g.len() == rows * cols,
        forall|i: int| 0 <= i < g.len() ==> sqlen_raw(#[trigger] g[i].motion) < 1_000_000,
        0 <= k <= g.len(),
    ensures
        motion_pass(g, cols, rows, k) == g,
        motion_pass_quiet(g, cols, rows, k),
    decreases k,
{
    if k > 0 {
        lemma_settled_pass(g, cols, rows, k - 1);
        lemma_row_bound(k - 1, cols, rows);
        lemma_slot_bounds(cols, rows, (k - 1) % cols, (k - 1) / cols);
    }
}

/// Consuming one unit of motion along the dominant axis strictly shrinks the
/// squared motion length by a fixed margin. This is why repeated relocation
/// passes settle: each relocation spends at least 0.416 of a squared unit of
/// the finite motion budget. The margin away from saturation keeps the
/// decrement exact.
pub proof fn lemma_motion_consumption(m: V2)
    requires
        sqlen_raw(m) >= 1_000_000,
        -1_999_999_000 <= m.x <= 1_999_999_000,
        -1_999_999_000 <= m.y <= 1_999_999_000,
    ensures
        ({
            let off = spec_velocity_to_offset(m);
            let rel = V2 { x: (off.0 * 1000) as i64, y: (off.1 * 1000) as i64 };
            sqlen_raw(spec_v2_sub(m, rel)) <= sqlen_raw(m) - 416_000
        }),
{
    let off = spec_velocity_to_offset(m);
    let rel = V2 { x: (off.0 * 1000) as i64, y: (off.1 * 1000) as i64 };
    let s = sqlen_raw(m);
    if crate::vec2::abs_i(m.x as int) > crate::vec2::abs_i(m.y as int) {
        assert(m.x * m.x >= 500_000 && m.y * m.y <= m.x * m.x) by (nonlinear_arith)
            requires
                m.x * m.x + m.y * m.y >= 1_000_000,
                crate::vec2::abs_i(m.x as int) > crate::vec2::abs_i(m.y as int),
                crate::vec2::abs_i(m.x as int) == if m.x >= 0 { m.x as int } else { -(m.x as int) },
                crate::vec2::abs_i(m.y as int) == if m.y >= 0 { m.y as int } else { -(m.y as int) },
        ;
        assert(m.x >= 708 || m.x <= -708) by (nonlinear_arith)
            requires
                m.x * m.x >= 500_000,
        ;
        if m.x > 0 {
            assert(rel == (V2 { x: 1000i64, y: 0i64 }));
            let d = spec_v2_sub(m, rel);
            assert(d.x == m.x - 1000 && d.y == m.y);
            assert(d.x * d.x + d.y * d.y <= s - 416_000) by (nonlinear_arith)
                requires
                    d.x == m.x - 1000,
                    d.y == m.y,
                    s == m.x * m.x + m.y * m.y,
                    m.x >= 708,
            ;
        } else {
            assert(rel == (V2 { x: -1000i64, y: 0i64 }));
            let d = spec_v2_sub(m, rel);
            assert(d.x == m.x + 1000 && d.y == m.y);
            assert(d.x * d.x + d.y * d.y <= s - 416_000) by (nonlinear_arith)
                requires
                    d.x == m.x + 1000,
                    d.y == m.y,
                    s == m.x * m.x + m.y * m.y,
                    m.x <= -708,
            ;
        }
    } else {
        assert(m.y * m.y >= 500_000) by (nonlinear_arith)
            requires
                m.x * m.x + m.y * m.y >= 1_000_000,
                !(crate::vec2::abs_i(m.x as int) > crate::vec2::abs_i(m.y as int)),
                crate::vec2::abs_i(m.x as int) == if m.x >= 0 { m.x as int } else { -(m.x as int) },
                crate::vec2::abs_i(m.y as int) == if m.y >= 0 { m.y as int } else { -(m.y as int) },
        ;
        assert(m.y >= 708 || m.y <= -708) by (nonlinear_arith)
            requires
                m.y * m.y >= 500_000,
        ;
        if m.y > 0 {
            assert(rel == (V2 { x: 0i64, y: 1000i64 }));
            let d = spec_v2_sub(m, rel);
            assert(d.x == m.x && d.y == m.y - 1000);
            assert(d.x * d.x + d.y * d.y <= s - 416_000) by (nonlinear_arith)
                requires
                    d.x == m.x,
                    d.y == m.y - 1000,
                    s == m.x * m.x + m.y * m.y,
                    m.y >= 708,
            ;
        } else {
            assert(rel == (V2 { x: 0i64, y: -1000i64 }));
            let d = spec_v2_sub(m, rel);
            assert(d.x == m.x && d.y == m.y + 1000);
            assert(d.x * d.x + d.y * d.y <= s - 416_000) by (nonlinear_arith)
                requires
                    d.x == m.x,
                    d.y == m.y + 1000,
                    s == m.x * m.x + m.y * m.y,
                    m.y <= -708,
            ;
        }
    }
}

/// The cell at (x, y) wants to relocate: its motion is at least a whole unit.
pub open spec fn motion_cell_acts(g: Seq<Cell>, cols: int, x: int, y: int) -> bool {
    sqlen_raw(g[slot(cols, x, y)].motion) >= 1_000_000
}

/// Relocation of the single cell at (x, y): if its motion budget reaches a
/// whole unit, one unit along the dominant axis is consumed, and the cell
/// swaps with its destination when that lies on the grid; an off-grid
/// destination leaves the cell in place, decrement preserved.
pub open spec fn motion_cell(g: Seq<Cell>, cols: int, rows: int, x: int, y: int) -> Seq<Cell> {
    let i = slot(cols, x, y);
    let c = g[i];
    if sqlen_raw(c.motion) < 1_000_000 {
        g
    } else {
        let off = spec_velocity_to_offset(c.motion);
        let rel = V2 { x: (off.0 * 1000) as i64, y: (off.1 * 1000) as i64 };
        let c1 = Cell { motion: spec_v2_sub(c.motion, rel), ..c };
        let nx = x + off.0;
        let ny = y + off.1;
        if in_grid(cols, rows, nx, ny) {
            let j = slot(cols, nx, ny);
            g.update(i, g[j]).update(j, c1)
        } else {
            g.update(i, c1)
        }
    }
}

/// The first `k` slots of one relocation pass, in row-major order, each
/// acting on the grid the earlier slots left behind.
pub open spec fn motion_pass(g: Seq<Cell>, cols: int, rows: int, k: int) -> Seq<Cell>
    decreases k,
{
    if k <= 0 {
        g
    } else {
        let g1 = motion_pass(g, cols, rows, k - 1);
        motion_cell(g1, cols, rows, (k - 1) % cols, (k - 1) / cols)
    }
}

/// No slot among the first `k` relocated during the pass.
pub open spec fn motion_pass_quiet(g: Seq<Cell>, cols: int, rows: int, k: int) -> bool
    decreases k,
{
    if k <= 0 {
        true
    } else {
        motion_pass_quiet(g, cols, rows, k - 1) && !motion_cell_acts(
            motion_pass(g, cols, rows, k - 1),
            cols,
            (k - 1) % cols,
            (k - 1) / cols,
        )
    }
}

/// Exchanging two slots of a sequence leaves its multiset unchanged.
pub proof fn lemma_swap_multiset<A>(s: Seq<A>, i: int, j: int)
    requires
        0 <= i < s.len(),
        0 <= j < s.len(),
        i != j,
    ensures
        s.update(i, s[j]).update(j, s[i]).to_multiset() == s.to_multiset(),
{
    broadcast use vstd::multiset::group_multiset_axioms;
    broadcast use vstd::seq_lib::group_to_multiset_ensures;

    let s1 = s.update(i, s[j]);
    vstd::seq_lib::to_multiset_update(s, i, s[j]);
    vstd::seq_lib::to_multiset_update(s1, j, s[i]);
    assert(s.contains(s[i]));
    assert(s1.contains(s1[j]));
    assert(s1[j] == s[j]);
    assert(s1.update(j, s[i]).to_multiset() =~= s.to_multiset());
}

/// Updating one slot without changing its species keeps the species row.
proof fn lemma_update_same_species(g: Seq<Cell>, i: int, c: Cell)
    requires
        0 <= i < g.len(),
        c.species == g[i].species,
    ensures
        species_seq(g.update(i, c)) == species_seq(g),
{
    assert(species_seq(g.update(i, c)) =~= species_seq(g));
}

/// One relocation never creates or destroys material: the multiset of
/// species across the grid is unchanged.
pub proof fn lemma_motion_cell_species(g: Seq<Cell>, cols: int, rows: int, x: int, y: int)
    requires
        1 <= cols,
        1 <= rows,
        g.len() == rows * cols,
        in_grid(cols, rows, x, y),
    ensures
        motion_cell(g, cols, rows, x, y).len() == g.len(),
        species_seq(motion_cell(g, cols, rows, x, y)).to_multiset() == species_seq(
            g,
        ).to_multiset(),
{
    let i = slot(cols, x, y);
    lemma_slot_bounds(cols, rows, x, y);
    let c = g[i];
    if sqlen_raw(c.motion) >= 1_000_000 {
        let off = spec_velocity_to_offset(c.motion);
        let rel = V2 { x: (off.0 * 1000) as i64, y: (off.1 * 1000) as i64 };
        let c1 = Cell { motion: spec_v2_sub(c.motion, rel), ..c };
        let nx = x + off.0;
        let ny = y + off.1;
        assert(off == (1i64, 0i64) || off == (-1i64, 0i64) || off == (0i64, 1i64) || off == (
        0i64,
        -1i64,
        ));
        if in_grid(cols, rows, nx, ny) {
            let j = slot(cols, nx, ny);
            lemma_slot_bounds(cols, rows, nx, ny);
            lemma_slot_injective(cols, x, y, nx, ny);
            let sp = species_seq(g);
            assert(species_seq(g.update(i, g[j]).update(j, c1)) =~= sp.update(i, sp[j]).update(
                j,
                sp[i],
            ));
            lemma_swap_multiset(sp, i, j);
        } else {
            lemma_update_same_species(g, i, c1);
        }
    }
}

/// One cell after the gravity pass: its species' gravity added to velocity.
pub open spec fn grav_cell(c: Cell) -> Cell {
    Cell { velocity: spec_v2_add(c.velocity, gravity_of(c.species)), ..c }
}

/// One cell after motion accumulation: capped residual motion plus velocity,
/// except that air is damped to no motion at all.
pub open spec fn motion_reset_cell(c: Cell) -> Cell {
    if c.species == Species::Air {
        Cell { motion: v2_zero(), ..c }
    } else {
        Cell { motion: spec_v2_add(spec_cap_vec(c.motion), c.velocity), ..c }
    }
}

/// The lattice point (x, y) lies on a cols x rows grid.
pub open spec fn in_grid(cols: int, rows: int, x: int, y: int) -> bool {
    0 <= x < cols && 0 <= y < rows
}

/// The flat row-major slot of the lattice point (x, y).
pub open spec fn slot(cols: int, x: int, y: int) -> int {
    y * cols + x
}

/// An in-grid lattice point names a slot inside the flat sequence.
pub proof fn lemma_slot_bounds(cols: int, rows: int, x: int, y: int)
    requires
        in_grid(cols, rows, x, y),
    ensures
        0 <= slot(cols, x, y) < rows * cols,
{
    assert(0 <= y * cols + x < rows * cols) by (nonlinear_arith)
        requires
            0 <= x < cols,
            0 <= y < rows,
    ;
}

/// Distinct in-grid lattice points name distinct slots.
pub proof fn lemma_slot_injective(cols: int, x1: int, y1: int, x2: int, y2: int)
    requires
        0 <= x1 < cols,
        0 <= x2 < cols,
        0 <= y1,
        0 <= y2,
        !(x1 == x2 && y1 == y2),
    ensures
        slot(cols, x1, y1) != slot(cols, x2, y2),
{
    assert(y1 * cols + x1 != y2 * cols + x2) by (nonlinear_arith)
        requires
            0 <= x1 < cols,
            0 <= x2 < cols,
            0 <= y1,
            0 <= y2,
            !(x1 == x2 && y1 == y2),
    ;
}

/// Split a flat slot into its (row, column) pair.
pub(crate) fn split_slot(k: usize, cols: usize) -> (rc: (usize, usize))
    requires
        1 <= cols,
    ensures
        rc.0 == k as int / cols as int,
        rc.1 == k as int % cols as int,
        rc.0 * cols + rc.1 == k,
        rc.1 < cols,
{
    let row: usize = k / cols;
    let col: usize = k % cols;
    proof {
        vstd::arithmetic::div_mod::lemma_fundamental_div_mod(k as int, cols as int);
        assert((k as int / cols as int) * cols == cols * (k as int / cols as int))
            by (nonlinear_arith);
    }
    (row, col)
}

/// A flat slot below `rows * cols` lies in a row below `rows`.
pub proof fn lemma_row_bound(k: int, cols: int, rows: int)
    requires
        1 <= cols,
        0 <= k < rows * cols,
    ensures
        k / cols < rows,
        0 <= k / cols,
        0 <= k % cols < cols,
{
    vstd::arithmetic::div_mod::lemma_fundamental_div_mod(k, cols);
    assert(k / cols < rows) by (nonlinear_arith)
        requires
            1 <= cols,
            0 <= k < rows * cols,
            k == cols * (k / cols) + k % cols,
            0 <= k % cols < cols,
    ;
}

/// The simulation board: a fixed-size grid of cells.
pub struct Board {
    grid: grid::Grid<Cell>,
    rows: usize,
    cols: usize,
}

impl Board {
    /// The cells, row-major.
    pub closed spec fn cells(&self) -> Seq<Cell> {
        grid_seq(self.grid)
    }

    /// Dimensions agree with the storage and every cell is in range.
    pub closed spec fn wf(&self) -> bool {
        &&& 1 <= self.rows <= 4096
        &&& 1 <= self.cols <= 4096
        &&& grid_width(self.grid) == self.cols as nat
        &&& self.cells().len() == (self.rows as int) * (self.cols as int)
        &&& forall|i: int| 0 <= i < self.cells().len() ==> cell_ok(#[trigger] self.cells()[i])
    }

    /// Creates an empty board: all air, at rest.
    pub fn new(cols: usize, rows: usize) -> (r: Board)
        requires
            1 <= cols <= 4096,
            1 <= rows <= 4096,
        ensures
            r.wf(),
            r.num_cols() == cols,
            r.num_rows() == rows,
            r.cells().len() == rows * cols,
            forall|i: int| 0 <= i < r.cells().len() ==> r.cells()[i] == default_cell(),
    {
        let grid = grid_init(rows, cols, Cell::default());
        Board { grid, rows, cols }
    }

    /// The number of columns.
    pub fn cols(&self) -> (r: usize)
        ensures
            r == self.num_cols(),
    {
        self.cols
    }

    /// The number of rows.
    pub fn rows(&self) -> (r: usize)
        ensures
            r == self.num_rows(),
    {
        self.rows
    }

    pub closed spec fn num_cols(&self) -> usize {
        self.cols
    }

    pub closed spec fn num_rows(&self) -> usize {
        self.rows
    }

    /// Read the cell at (x, y).
    pub fn get_cell(&self, x: usize, y: usize) -> (c: Cell)
        requires
            self.wf(),
            x < self.num_cols(),
            y < self.num_rows(),
        ensures
            c == self.cells()[slot(self.num_cols() as int, x as int, y as int)],
    {
        proof {
            lemma_slot_bounds(self.cols as int, self.rows as int, x as int, y as int);
        }
        grid_read(&self.grid, y, x)
    }

    /// Write the cell at (x, y); the driver's mutation surface.
    pub fn set_cell(&mut self, x: usize, y: usize, c: Cell)
        requires
            old(self).wf(),
            x < old(self).num_cols(),
            y < old(self).num_rows(),
            cell_ok(c),
        ensures
            final(self).wf(),
            final(self).num_cols() == old(self).num_cols(),
            final(self).num_rows() == old(self).num_rows(),
            final(self).cells() == old(self).cells().update(
                slot(old(self).num_cols() as int, x as int, y as int),
                c,
            ),
    {
        proof {
            lemma_slot_bounds(self.cols as int, self.rows as int, x as int, y as int);
        }
        grid_write(&mut self.grid, y, x, c);
    }

    /// Set the species of a whole column; the driver's column-indexed
    /// mutation surface. Everything else about every cell is untouched.
    pub fn set_column_species(&mut self, x: usize, s: Species)
        requires
            old(self).wf(),
            x < old(self).num_cols(),
        ensures
            final(self).wf(),
            final(self).num_cols() == old(self).num_cols(),
            final(self).num_rows() == old(self).num_rows(),
            final(self).cells().len() == old(self).cells().len(),
            forall|yy: int|
                0 <= yy < old(self).num_rows() ==> final(self).cells()[slot(
                    old(self).num_cols() as int,
                    x as int,
                    yy,
                )] == (Cell {
                    species: s,
                    ..(#[trigger] old(self).cells()[slot(old(self).num_cols() as int, x as int, yy)])
                }),
            forall|i: int|
                0 <= i < old(self).cells().len() && i % (old(self).num_cols() as int) != x as int
                    ==> final(self).cells()[i] == old(self).cells()[i],
    {
        let rows: usize = self.rows;
        let cols: usize = self.cols;
        let mut y: usize = 0;
        while y < rows
            invariant
                self.wf(),
                self.rows == old(self).rows,
                self.cols == old(self).cols,
                rows == self.rows,
                cols == self.cols,
                x < cols,
                y <= rows,
                self.cells().len() == old(self).cells().len(),
                forall|yy: int|
                    0 <= yy < y ==> self.cells()[slot(cols as int, x as int, yy)] == (Cell {
                        species: s,
                        ..(#[trigger] old(self).cells()[slot(cols as int, x as int, yy)])
                    }),
                forall|yy: int|
                    y <= yy < rows ==> #[trigger] self.cells()[slot(cols as int, x as int, yy)]
                        == old(self).cells()[slot(cols as int, x as int, yy)],
                forall|i: int|
                    0 <= i < self.cells().len() && i % (cols as int) != x as int ==> self.cells()[i]
                        == old(self).cells()[i],
            decreases rows - y,
        {
            proof {
                lemma_slot_bounds(cols as int, rows as int, x as int, y as int);
                vstd::arithmetic::div_mod::lemma_fundamental_div_mod_converse(
                    slot(cols as int, x as int, y as int),
                    cols as int,
                    y as int,
                    x as int,
                );
            }
            let ghost g_pre = self.cells();
            let c = grid_read(&self.grid, y, x);
            let c2 = Cell { species: s, ..c };
            grid_write(&mut self.grid, y, x, c2);
            proof {
                assert forall|yy: int| 0 <= yy < rows && yy != y implies #[trigger] self.cells()[slot(
                    cols as int,
                    x as int,
                    yy,
                )] == g_pre[slot(cols as int, x as int, yy)] by {
                    lemma_slot_bounds(cols as int, rows as int, x as int, yy);
                    lemma_slot_injective(cols as int, x as int, yy, x as int, y as int);
                }
                assert forall|i: int|
                    0 <= i < self.cells().len() && i % (cols as int) != x as int implies self.cells()[i]
                    == g_pre[i] by {
                    vstd::arithmetic::div_mod::lemma_fundamental_div_mod_converse(
                        slot(cols as int, x as int, y as int),
                        cols as int,
                        y as int,
                        x as int,
                    );
                }
            }
            y = y + 1;
        }
    }

    /// Look up a signed lattice point; absent exactly when it falls off the
    /// grid. Absence is a normal outcome, not an error.
    pub fn probe(&self, x: i64, y: i64) -> (r: Option<Cell>)
        requires
            self.wf(),
        ensures
            in_grid(self.num_cols() as int, self.num_rows() as int, x as int, y as int)
                ==> r == Some(self.cells()[slot(self.num_cols() as int, x as int, y as int)]),
            !in_grid(self.num_cols() as int, self.num_rows() as int, x as int, y as int)
                ==> r is None,
    {
        if 0 <= x && x < self.cols as i64 && 0 <= y && y < self.rows as i64 {
            proof {
                lemma_slot_bounds(self.cols as int, self.rows as int, x as int, y as int);
            }
            Some(grid_read(&self.grid, y as usize, x as usize))
        } else {
            None
        }
    }

    /// Apply each species' gravity to every cell's velocity, once.
    pub fn gravity_step(&mut self)
        requires
            old(self).wf(),
        ensures
            final(self).wf(),
            final(self).num_cols() == old(self).num_cols(),
            final(self).num_rows() == old(self).num_rows(),
            final(self).cells().len() == old(self).cells().len(),
            forall|i: int|
                0 <= i < old(self).cells().len() ==> final(self).cells()[i] == grav_cell(
                    #[trigger] old(self).cells()[i],
                ),
    {
        proof {
            assert(self.rows * self.cols <= 4096 * 4096) by (nonlinear_arith)
                requires
                    1 <= self.rows <= 4096,
                    1 <= self.cols <= 4096,
            ;
        }
        let n: usize = self.rows * self.cols;
        let cols: usize = self.cols;
        let mut k: usize = 0;
        while k < n
            invariant
                self.wf(),
                self.rows == old(self).rows,
                self.cols == old(self).cols,
                cols == self.cols,
                n == self.rows * self.cols,
                k <= n,
                self.cells().len() == old(self).cells().len() == n,
                forall|i: int|
                    0 <= i < k ==> self.cells()[i] == grav_cell(#[trigger] old(self).cells()[i]),
                forall|i: int| k <= i < n ==> self.cells()[i] == old(self).cells()[i],
            decreases n - k,
        {
            let (row, col) = split_slot(k, cols);
            let c = grid_read(&self.grid, row, col);
            let c2 = Cell { velocity: v2_add(c.velocity, c.species.get_gravity()), ..c };
            grid_write(&mut self.grid, row, col, c2);
            k = k + 1;
        }
    }

    /// Reset each cell's motion budget from its velocity, carrying a capped
    /// residual; air is damped to no motion.
    pub fn copy_velocity_to_motion(&mut self)
        requires
            old(self).wf(),
        ensures
            final(self).wf(),
            final(self).num_cols() == old(self).num_cols(),
            final(self).num_rows() == old(self).num_rows(),
            final(self).cells().len() == old(self).cells().len(),
            forall|i: int|
                0 <= i < old(self).cells().len() ==> final(self).cells()[i] == motion_reset_cell(
                    #[trigger] old(self).cells()[i],
                ),
    {
        proof {
            assert(self.rows * self.cols <= 4096 * 4096) by (nonlinear_arith)
                requires
                    1 <= self.rows <= 4096,
                    1 <= self.cols <= 4096,
            ;
        }
        let n: usize = self.rows * self.cols;
        let cols: usize = self.cols;
        let mut k: usize = 0;
        while k < n
            invariant
                self.wf(),
                self.rows == old(self).rows,
                self.cols == old(self).cols,
                cols == self.cols,
                n == self.rows * self.cols,
                k <= n,
                self.cells().len() == old(self).cells().len() == n,
                forall|i: int|
                    0 <= i < k ==> self.cells()[i] == motion_reset_cell(
                        #[trigger] old(self).cells()[i],
                    ),
                forall|i: int| k <= i < n ==> self.cells()[i] == old(self).cells()[i],
            decreases n - k,
        {
            let (row, col) = split_slot(k, cols);
            let c = grid_read(&self.grid, row, col);
            let m = v2_add(cap_vec(c.motion), c.velocity);
            let c2 = if c.species == Species::Air {
                Cell { motion: V2 { x: 0, y: 0 }, ..c }
            } else {
                Cell { motion: m, ..c }
            };
            grid_write(&mut self.grid, row, col, c2);
            k = k + 1;
        }
    }

    /// One relocation pass over the whole grid in row-major order, with
    /// immediate effect: a relocated cell can act again later in the same
    /// pass. Returns true exactly when the pass relocated nothing; material
    /// is never created or lost.
    pub fn motion_step(&mut self) -> (quiet: bool)
        requires
            old(self).wf(),
        ensures
            final(self).wf(),
            final(self).num_cols() == old(self).num_cols(),
            final(self).num_rows() == old(self).num_rows(),
            final(self).cells() == motion_pass(
                old(self).cells(),
                old(self).num_cols() as int,
                old(self).num_rows() as int,
                old(self).cells().len() as int,
            ),
            quiet == motion_pass_quiet(
                old(self).cells(),
                old(self).num_cols() as int,
                old(self).num_rows() as int,
                old(self).cells().len() as int,
            ),
            quiet ==> final(self).cells() == old(self).cells(),
            species_seq(final(self).cells()).to_multiset() == species_seq(
                old(self).cells(),
            ).to_multiset(),
    {
        proof {
            assert(self.rows * self.cols <= 4096 * 4096) by (nonlinear_arith)
                requires
                    1 <= self.rows <= 4096,
                    1 <= self.cols <= 4096,
            ;
        }
        let n: usize = self.rows * self.cols;
        let cols: usize = self.cols;
        let rows: usize = self.rows;
        let mut no_work: bool = true;
        let mut k: usize = 0;
        while k < n
            invariant
                self.wf(),
                self.rows == old(self).rows,
                self.cols == old(self).cols,
                cols == self.cols,
                rows == self.rows,
                n == self.rows * self.cols,
                k <= n,
                self.cells().len() == old(self).cells().len() == n,
                self.cells() == motion_pass(
                    old(self).cells(),
                    cols as int,
                    rows as int,
                    k as int,
                ),
                no_work == motion_pass_quiet(
                    old(self).cells(),
                    cols as int,
                    rows as int,
                    k as int,
                ),
                no_work ==> self.cells() == old(self).cells(),
                species_seq(self.cells()).to_multiset() == species_seq(
                    old(self).cells(),
                ).to_multiset(),
            decreases n - k,
        {
            let ghost g_pre = self.cells();
            let (row, col) = split_slot(k, cols);
            proof {
                assert(slot(cols as int, col as int, row as int) == k);
                lemma_row_bound(k as int, cols as int, rows as int);
            }
            let c = grid_read(&self.grid, row, col);
            let sq: i64 = square_len_raw(c.motion);
            if sq >= FX_ONE_SQ {
                no_work = false;
                let off = velocity_to_offset(c.motion);
                proof {
                    assert(off == (1i64, 0i64) || off == (-1i64, 0i64) || off == (0i64, 1i64)
                        || off == (0i64, -1i64));
                }
                let rel = V2 { x: off.0 * 1000, y: off.1 * 1000 };
                let c1 = Cell { motion: v2_sub(c.motion, rel), ..c };
                let nxi: i64 = col as i64 + off.0;
                let nyi: i64 = row as i64 + off.1;
                if 0 <= nxi && nxi < cols as i64 && 0 <= nyi && nyi < rows as i64 {
                    proof {
                        lemma_slot_bounds(cols as int, rows as int, nxi as int, nyi as int);
                        lemma_slot_injective(
                            cols as int,
                            col as int,
                            row as int,
                            nxi as int,
                            nyi as int,
                        );
                    }
                    let other = grid_read(&self.grid, nyi as usize, nxi as usize);
                    grid_write(&mut self.grid, row, col, other);
                    grid_write(&mut self.grid, nyi as usize, nxi as usize, c1);
                } else {
                    grid_write(&mut self.grid, row, col, c1);
                }
                proof {
                    assert(self.cells() =~= motion_cell(
                        g_pre,
                        cols as int,
                        rows as int,
                        col as int,
                        row as int,
                    ));
                }
            } else {
                proof {
                    assert(motion_cell(g_pre, cols as int, rows as int, col as int, row as int)
                        == g_pre);
                }
            }
            proof {
                lemma_motion_cell_species(g_pre, cols as int, rows as int, col as int, row as int);
                assert(self.cells() == motion_pass(
                    old(self).cells(),
                    cols as int,
                    rows as int,
                    k + 1,
                ));
            }
            k = k + 1;
        }
        no_work
    }

    /// Hand one neighbor its share of friction heat, if it exists.
    fn apply_heat(&mut self, nxi: i64, nyi: i64, heat: V2)
        requires
            old(self).wf(),
            v2_ok(heat),
        ensures
            final(self).wf(),
            final(self).num_cols() == old(self).num_cols(),
            final(self).num_rows() == old(self).num_rows(),
            final(self).cells() == heat_at(
                old(self).cells(),
                old(self).num_cols() as int,
                old(self).num_rows() as int,
                nxi as int,
                nyi as int,
                heat,
            ),
            species_seq(final(self).cells()) == species_seq(old(self).cells()),
    {
        if 0 <= nxi && nxi < self.cols as i64 && 0 <= nyi && nyi < self.rows as i64 {
            proof {
                lemma_slot_bounds(self.cols as int, self.rows as int, nxi as int, nyi as int);
            }
            let o = grid_read(&self.grid, nyi as usize, nxi as usize);
            proof {
                lemma_species_ranges(o.species);
            }
            let o2 = Cell { velocity: v2_add(o.velocity, v2_div(heat, o.species.get_mass())), ..o };
            grid_write(&mut self.grid, nyi as usize, nxi as usize, o2);
            proof {
                lemma_update_same_species(
                    old(self).cells(),
                    slot(self.cols as int, nxi as int, nyi as int),
                    o2,
                );
            }
        }
    }

    /// The pushing sub-step of one cell, written back immediately.
    #[verifier::rlimit(100)]
    fn push_step(&mut self, col: usize, row: usize)
        requires
            old(self).wf(),
            col < old(self).num_cols(),
            row < old(self).num_rows(),
        ensures
            final(self).wf(),
            final(self).num_cols() == old(self).num_cols(),
            final(self).num_rows() == old(self).num_rows(),
            final(self).cells() == push_cell(
                old(self).cells(),
                old(self).num_cols() as int,
                old(self).num_rows() as int,
                col as int,
                row as int,
            ),
            species_seq(final(self).cells()) == species_seq(old(self).cells()),
    {
        let cols: usize = self.cols;
        let rows: usize = self.rows;
        proof {
            lemma_slot_bounds(cols as int, rows as int, col as int, row as int);
        }
        let ghost g0 = self.cells();
        let c = grid_read(&self.grid, row, col);
        let off = velocity_to_offset(c.velocity);
        proof {
            assert(off == (1i64, 0i64) || off == (-1i64, 0i64) || off == (0i64, 1i64) || off == (
            0i64,
            -1i64,
            ));
        }
        let nxi: i64 = col as i64 + off.0;
        let nyi: i64 = row as i64 + off.1;
        let present: bool = 0 <= nxi && nxi < cols as i64 && 0 <= nyi && nyi < rows as i64;
        proof {
            if present {
                lemma_slot_bounds(cols as int, rows as int, nxi as int, nyi as int);
                lemma_slot_injective(cols as int, col as int, row as int, nxi as int, nyi as int);
            }
        }
        let other_opt: Option<Cell> = if present {
            Some(grid_read(&self.grid, nyi as usize, nxi as usize))
        } else {
            None
        };
        proof {
            lemma_eff_mass(c.species);
            if let Some(o) = other_opt {
                lemma_eff_mass(o.species);
                lemma_species_ranges(o.species);
            }
            lemma_species_ranges(c.species);
        }
        let our_mass = fx_mul(c.species.get_mass(), c.species.get_solidity());
        let their_mass = match &other_opt {
            Some(o) => fx_mul(o.species.get_mass(), o.species.get_solidity()),
            None => FX_ONE,
        };
        let their_momentum = match &other_opt {
            Some(o) => v2_scale(o.velocity, their_mass),
            None => V2 { x: 0, y: 0 },
        };
        let sys_momentum = v2_add(v2_scale(c.velocity, our_mass), their_momentum);
        let total = fx_add(our_mass, their_mass);
        let sys_vel = v2_div(sys_momentum, total);
        let rel = V2 { x: off.0 * 1000, y: off.1 * 1000 };
        let their_sub = match &other_opt {
            Some(o) => o.get_subgrid_offset(),
            None => V2 { x: 0, y: 0 },
        };
        let sub = v2_sub(their_sub, c.get_subgrid_offset());
        let dir = v2_normalized(v2_add(rel, sub));
        let their_elast = match &other_opt {
            Some(o) => o.species.get_elasticity(),
            None => 200,
        };
        let elast = fx_mul(c.species.get_elasticity(), their_elast);
        proof {
            lemma_unit_product(elasticity_of(c.species), if let Some(o) = other_opt {
                elasticity_of(o.species)
            } else {
                200i64
            });
        }
        let factor: i64 = -(1000 + elast);
        let our_imp = v2_scale(dir, fx_mul(v2_dot(dir, v2_sub(c.velocity, sys_vel)), factor));
        let c_new = Cell { velocity: v2_add(c.velocity, our_imp), ..c };
        grid_write(&mut self.grid, row, col, c_new);
        proof {
            lemma_update_same_species(g0, slot(cols as int, col as int, row as int), c_new);
        }
        if let Some(o) = other_opt {
            let their_imp = v2_scale(
                dir,
                fx_mul(v2_dot(dir, v2_sub(o.velocity, sys_vel)), factor),
            );
            let o_new = Cell { velocity: v2_add(o.velocity, their_imp), ..o };
            proof {
                lemma_update_same_species(
                    self.cells(),
                    slot(cols as int, nxi as int, nyi as int),
                    o_new,
                );
            }
            grid_write(&mut self.grid, nyi as usize, nxi as usize, o_new);
        }
        proof {
            assert(self.cells() =~= push_cell(g0, cols as int, rows as int, col as int, row as int));
        }
    }

    /// The friction sub-step of one cell, written back immediately.
    #[verifier::rlimit(100)]
    fn friction_step(&mut self, col: usize, row: usize)
        requires
            old(self).wf(),
            col < old(self).num_cols(),
            row < old(self).num_rows(),
        ensures
            final(self).wf(),
            final(self).num_cols() == old(self).num_cols(),
            final(self).num_rows() == old(self).num_rows(),
            final(self).cells() == friction_cell(
                old(self).cells(),
                old(self).num_cols() as int,
                old(self).num_rows() as int,
                col as int,
                row as int,
            ),
            species_seq(final(self).cells()) == species_seq(old(self).cells()),
    {
        let cols: usize = self.cols;
        let rows: usize = self.rows;
        proof {
            lemma_slot_bounds(cols as int, rows as int, col as int, row as int);
        }
        let ghost g1 = self.cells();
        let c2 = grid_read(&self.grid, row, col);
        proof {
            lemma_species_ranges(c2.species);
        }
        let f = c2.species.get_friction_coeff();
        let q = fx_mul(f, c2.species.get_mass());
        let qq = div_trunc_exec(q, 4);
        let heat = v2_scale(c2.velocity, qq);
        let c2_new = Cell { velocity: v2_scale(c2.velocity, 1000 - f), ..c2 };
        grid_write(&mut self.grid, row, col, c2_new);
        proof {
            lemma_update_same_species(g1, slot(cols as int, col as int, row as int), c2_new);
        }
        self.apply_heat(col as i64 + 1, row as i64, heat);
        self.apply_heat(col as i64, row as i64 + 1, heat);
        self.apply_heat(col as i64 - 1, row as i64, heat);
        self.apply_heat(col as i64, row as i64 - 1, heat);
        proof {
            assert(self.cells() == friction_cell(
                g1,
                cols as int,
                rows as int,
                col as int,
                row as int,
            ));
        }
    }

    /// Resolve one cell: pushing, then friction, written back immediately.
    fn velocity_cell(&mut self, col: usize, row: usize)
        requires
            old(self).wf(),
            col < old(self).num_cols(),
            row < old(self).num_rows(),
        ensures
            final(self).wf(),
            final(self).num_cols() == old(self).num_cols(),
            final(self).num_rows() == old(self).num_rows(),
            final(self).cells() == vel_cell(
                old(self).cells(),
                old(self).num_cols() as int,
                old(self).num_rows() as int,
                col as int,
                row as int,
            ),
            species_seq(final(self).cells()) == species_seq(old(self).cells()),
    {
        self.push_step(col, row);
        self.friction_step(col, row);
    }

    /// One velocity-resolution pass over the whole grid in row-major order,
    /// with immediate effect: later cells see the updated velocities of
    /// earlier ones. Species and motion of every cell are untouched.
    pub fn velocity_step(&mut self)
        requires
            old(self).wf(),
        ensures
            final(self).wf(),
            final(self).num_cols() == old(self).num_cols(),
            final(self).num_rows() == old(self).num_rows(),
            final(self).cells() == vel_pass(
                old(self).cells(),
                old(self).num_cols() as int,
                old(self).num_rows() as int,
                old(self).cells().len() as int,
            ),
            species_seq(final(self).cells()) == species_seq(old(self).cells()),
    {
        proof {
            assert(self.rows * self.cols <= 4096 * 4096) by (nonlinear_arith)
                requires
                    1 <= self.rows <= 4096,
                    1 <= self.cols <= 4096,
            ;
        }
        let n: usize = self.rows * self.cols;
        let cols: usize = self.cols;
        let rows: usize = self.rows;
        let mut k: usize = 0;
        while k < n
            invariant
                self.wf(),
                self.rows == old(self).rows,
                self.cols == old(self).cols,
                cols == self.cols,
                rows == self.rows,
                n == self.rows * self.cols,
                k <= n,
                self.cells().len() == old(self).cells().len() == n,
                self.cells() == vel_pass(old(self).cells(), cols as int, rows as int, k as int),
                species_seq(self.cells()) == species_seq(old(self).cells()),
            decreases n - k,
        {
            let (row, col) = split_slot(k, cols);
            proof {
                lemma_row_bound(k as int, cols as int, rows as int);
            }
            self.velocity_cell(col, row);
            proof {
                assert(self.cells() == vel_pass(
                    old(self).cells(),
                    cols as int,
                    rows as int,
                    k + 1,
                ));
            }
            k = k + 1;
        }
    }

    /// Single-steps the simulation: gravity, four velocity passes, motion
    /// accumulation, then up to ten relocation passes with early exit on the
    /// first quiet pass. Material is never created or lost.
    pub fn step(&mut self)
        requires
            old(self).wf(),
        ensures
            final(self).wf(),
            final(self).num_cols() == old(self).num_cols(),
            final(self).num_rows() == old(self).num_rows(),
            final(self).cells() == spec_step(
                old(self).cells(),
                old(self).num_cols() as int,
                old(self).num_rows() as int,
            ),
            species_seq(final(self).cells()).to_multiset() == species_seq(
                old(self).cells(),
            ).to_multiset(),
    {
        let ghost cols = self.cols as int;
        let ghost rows = self.rows as int;
        let ghost g0 = self.cells();
        self.gravity_step();
        proof {
            assert(self.cells() =~= grav_pass(g0));
            assert(species_seq(self.cells()) =~= species_seq(g0));
        }
        let ghost g1 = self.cells();
        let mut t: usize = 0;
        while t < 4
            invariant
                self.wf(),
                self.rows == old(self).rows,
                self.cols == old(self).cols,
                cols == self.cols as int,
                rows == self.rows as int,
                t <= 4,
                self.cells().len() == g1.len() == rows * cols,
                self.cells() == vel_rounds(g1, cols, rows, t as int),
                species_seq(self.cells()) == species_seq(g1),
            decreases 4 - t,
        {
            self.velocity_step();
            t = t + 1;
        }
        proof {
            assert(self.cells() == vel_rounds(g1, cols, rows, 4));
        }
        let ghost g2 = self.cells();
        self.copy_velocity_to_motion();
        proof {
            assert(self.cells() =~= motion_reset_pass(g2));
            assert(species_seq(self.cells()) =~= species_seq(g2));
        }
        let ghost g3 = self.cells();
        let mut i: usize = 0;
        let mut done: bool = false;
        while i < 10 && !done
            invariant
                self.wf(),
                self.rows == old(self).rows,
                self.cols == old(self).cols,
                cols == self.cols as int,
                rows == self.rows as int,
                i <= 10,
                self.cells().len() == g3.len() == rows * cols,
                motion_rounds(g3, cols, rows, 10) == if done {
                    self.cells()
                } else {
                    motion_rounds(self.cells(), cols, rows, 10 - i)
                },
                species_seq(self.cells()).to_multiset() == species_seq(g3).to_multiset(),
            decreases 10 - i,
        {
            let ghost g_here = self.cells();
            let quiet = self.motion_step();
            if quiet {
                done = true;
            }
            i = i + 1;
            proof {
                assert(motion_rounds(g_here, cols, rows, 10 - (i - 1)) == if quiet {
                    motion_pass(g_here, cols, rows, rows * cols)
                } else {
                    motion_rounds(motion_pass(g_here, cols, rows, rows * cols), cols, rows, 10 - i)
                });
            }
        }
        proof {
            assert(self.cells() == motion_rounds(g3, cols, rows, 10));
            assert(species_seq(self.cells()).to_multiset() == species_seq(g0).to_multiset());
        }
    }

    /// The board rendered row by row: one glyph per cell and a newline after
    /// each row.
    pub fn render(&self) -> (r: Vec<char>)
        requires
            self.wf(),
        ensures
            r@.len() == self.num_rows() * (self.num_cols() + 1),
            forall|y: int, x: int|
                0 <= y < self.num_rows() && 0 <= x < self.num_cols() ==> r@[y * (
                self.num_cols() + 1) + x] == crate::species::glyph_of(
                    #[trigger] self.cells()[slot(self.num_cols() as int, x, y)].species,
                ),
            forall|y: int|
                0 <= y < self.num_rows() ==> #[trigger] r@[row_break(
                    self.num_cols() as int,
                    y,
                )] == '\n',
    {
        let rows: usize = self.rows;
        let cols: usize = self.cols;
        proof {
            assert(rows * (cols + 1) <= 4096 * 4097) by (nonlinear_arith)
                requires
                    1 <= rows <= 4096,
                    1 <= cols <= 4096,
            ;
        }
        let mut r: Vec<char> = Vec::new();
        let mut y: usize = 0;
        while y < rows
            invariant
                self.wf(),
                rows == self.rows,
                cols == self.cols,
                y <= rows,
                r@.len() == y * (cols + 1),
                rows * (cols + 1) <= 4096 * 4097,
                forall|j: int, i: int|
                    0 <= j < y && 0 <= i < cols ==> r@[j * (cols + 1) + i] == crate::species::glyph_of(
                        #[trigger] self.cells()[slot(cols as int, i, j)].species,
                    ),
                forall|j: int|
                    0 <= j < y ==> #[trigger] r@[row_break(cols as int, j)] == '\n',
            decreases rows - y,
        {
            proof {
                assert((y + 1) * (cols + 1) <= rows * (cols + 1)) by (nonlinear_arith)
                    requires
                        y < rows,
                ;
                assert((y + 1) * (cols + 1) == y * (cols + 1) + (cols + 1)) by (nonlinear_arith);
            }
            let mut x: usize = 0;
            while x < cols
                invariant
                    self.wf(),
                    rows == self.rows,
                    cols == self.cols,
                    y < rows,
                    x <= cols,
                    r@.len() == y * (cols + 1) + x,
                    y * (cols + 1) + (cols + 1) <= rows * (cols + 1) <= 4096 * 4097,
                    forall|j: int, i: int|
                        0 <= j < y && 0 <= i < cols ==> r@[j * (cols + 1) + i]
                            == crate::species::glyph_of(
                            #[trigger] self.cells()[slot(cols as int, i, j)].species,
                        ),
                    forall|j: int|
                        0 <= j < y ==> #[trigger] r@[row_break(cols as int, j)] == '\n',
                    forall|i: int|
                        0 <= i < x ==> r@[y * (cols + 1) + i] == crate::species::glyph_of(
                            #[trigger] self.cells()[slot(cols as int, i, y as int)].species,
                        ),
                decreases cols - x,
            {
                let c = self.get_cell(x, y);
                r.push(c.species.get_char());
                x = x + 1;
                proof {
                    assert forall|j: int, i: int| 0 <= j < y && 0 <= i < cols implies r@[j * (cols
                        + 1) + i] == crate::species::glyph_of(
                        #[trigger] self.cells()[slot(cols as int, i, j)].species,
                    ) by {
                        lemma_render_index(cols as int, j, i, y as int);
                    }
                    assert forall|j: int| 0 <= j < y implies #[trigger] r@[row_break(
                        cols as int,
                        j,
                    )] == '\n' by {
                        lemma_render_index(cols as int, j, cols as int, y as int);
                    }
                }
            }
            let ghost r0 = r@;
            r.push('\n');
            y = y + 1;
            proof {
                assert(r@ == r0.push('\n'));
                assert forall|j: int, i: int| 0 <= j < y && 0 <= i < cols implies r@[j * (cols + 1)
                    + i] == crate::species::glyph_of(
                    #[trigger] self.cells()[slot(cols as int, i, j)].species,
                ) by {
                    lemma_render_index(cols as int, j, i, y as int);
                    if j < y - 1 {
                        lemma_render_index(cols as int, j, i, y as int - 1);
                    }
                    assert(r@[j * (cols as int + 1) + i] == r0[j * (cols as int + 1) + i]);
                }
                assert forall|j: int| 0 <= j < y implies #[trigger] r@[row_break(cols as int, j)]
                    == '\n' by {
                    if j < y - 1 {
                        lemma_render_index(cols as int, j, cols as int, y as int - 1);
                        assert(r@[row_break(cols as int, j)] == r0[row_break(cols as int, j)]);
                    } else {
                        assert(row_break(cols as int, j) == r0.len());
                    }
                }
            }
        }
        r
    }
}

} // verus!
