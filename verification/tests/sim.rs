use sandsim::board::Board;
use sandsim::cell::Cell;
use sandsim::fx::{fx_add, fx_div, fx_mul, isqrt, FX_MAX, FX_MIN, FX_ONE};
use sandsim::species::Species;
use sandsim::vec2::{
    cap_vec, neighbor_offset_at, square_len_raw, v2_clamped, v2_normalized, velocity_to_offset, V2,
};

fn sand_cell(vx: i64, vy: i64, mx: i64, my: i64) -> Cell {
    Cell { velocity: v2_clamped(vx, vy), motion: v2_clamped(mx, my), species: Species::Sand }
}

#[test]
fn fixed_point_ops_exact() {
    assert_eq!(fx_mul(1500, 2000), 3000);
    assert_eq!(fx_mul(-1500, 2000), -3000);
    // Truncation is toward zero on both sides.
    assert_eq!(fx_mul(-1, 999), 0);
    assert_eq!(fx_mul(1, 999), 0);
    assert_eq!(fx_div(1, 3), 333);
    assert_eq!(fx_div(-1000, 3), -333333);
    assert_eq!(fx_add(500, 700), 1200);
    // Saturation instead of overflow.
    assert_eq!(fx_add(FX_MAX, FX_MAX), FX_MAX);
    assert_eq!(fx_add(FX_MIN, FX_MIN), FX_MIN);
    assert_eq!(fx_mul(FX_MAX, FX_MAX), FX_MAX);
}

#[test]
fn isqrt_exact() {
    assert_eq!(isqrt(0), 0);
    assert_eq!(isqrt(1), 1);
    assert_eq!(isqrt(2), 1);
    assert_eq!(isqrt(25_000_000), 5000);
    assert_eq!(isqrt(999_999), 999);
    assert_eq!(isqrt(1_000_000), 1000);
}

#[test]
fn cap_vec_normalizes_long_vectors() {
    // A 3-4-5 triangle: exact unit result.
    let r = cap_vec(V2 { x: 3000, y: 4000 });
    assert_eq!(r, V2 { x: 600, y: 800 });
    assert_eq!(square_len_raw(r), 1_000_000);
    // len = isqrt(2_740_000) = 1655; components truncate.
    let r2 = cap_vec(V2 { x: 1500, y: 700 });
    assert_eq!(r2, V2 { x: 906, y: 422 });
    assert!(square_len_raw(r2) <= 1_002_000);
}

#[test]
fn cap_vec_keeps_short_vectors() {
    let v = V2 { x: 300, y: -400 };
    assert_eq!(cap_vec(v), v);
    let u = V2 { x: 600, y: 800 };
    assert_eq!(cap_vec(u), u);
    assert_eq!(cap_vec(V2 { x: 0, y: 0 }), V2 { x: 0, y: 0 });
}

#[test]
fn normalized_zero_is_zero() {
    assert_eq!(v2_normalized(V2 { x: 0, y: 0 }), V2 { x: 0, y: 0 });
}

#[test]
fn offset_picks_dominant_axis() {
    assert_eq!(velocity_to_offset(V2 { x: 5, y: 3 }), (1, 0));
    assert_eq!(velocity_to_offset(V2 { x: -5, y: 3 }), (-1, 0));
    assert_eq!(velocity_to_offset(V2 { x: 3, y: -5 }), (0, -1));
    assert_eq!(velocity_to_offset(V2 { x: 3, y: 5 }), (0, 1));
    // Exact ties go to the y axis.
    assert_eq!(velocity_to_offset(V2 { x: 3, y: 3 }), (0, 1));
    assert_eq!(velocity_to_offset(V2 { x: 0, y: 0 }), (0, -1));
}

#[test]
fn neighbor_order_is_fixed() {
    assert_eq!(neighbor_offset_at(0), (1, 0));
    assert_eq!(neighbor_offset_at(1), (0, 1));
    assert_eq!(neighbor_offset_at(2), (-1, 0));
    assert_eq!(neighbor_offset_at(3), (0, -1));
}

#[test]
fn new_board_is_all_air_at_rest() {
    let b = Board::new(3, 2);
    assert_eq!(b.cols(), 3);
    assert_eq!(b.rows(), 2);
    for y in 0..2 {
        for x in 0..3 {
            let c = b.get_cell(x, y);
            assert_eq!(c.species, Species::Air);
            assert_eq!(c.velocity, V2 { x: 0, y: 0 });
            assert_eq!(c.motion, V2 { x: 0, y: 0 });
        }
    }
}

#[test]
fn column_setter_touches_one_column() {
    let mut b = Board::new(3, 2);
    b.set_cell(1, 1, sand_cell(7, 8, 9, 10));
    b.set_column_species(1, Species::Water);
    for y in 0..2 {
        assert_eq!(b.get_cell(0, y).species, Species::Air);
        assert_eq!(b.get_cell(1, y).species, Species::Water);
        assert_eq!(b.get_cell(2, y).species, Species::Air);
    }
    // Only the species changes; the rest of the cell is kept.
    assert_eq!(b.get_cell(1, 1).velocity, V2 { x: 7, y: 8 });
    assert_eq!(b.get_cell(1, 1).motion, V2 { x: 9, y: 10 });
}

#[test]
fn probe_is_absent_off_grid() {
    let b = Board::new(3, 2);
    assert!(b.probe(-1, 0).is_none());
    assert!(b.probe(0, -1).is_none());
    assert!(b.probe(3, 0).is_none());
    assert!(b.probe(0, 2).is_none());
    assert!(b.probe(2, 1).is_some());
}

#[test]
fn render_draws_glyphs_and_newlines() {
    let mut b = Board::new(3, 2);
    b.set_cell(1, 0, sand_cell(0, 0, 0, 0));
    b.set_cell(2, 1, Cell {
        velocity: v2_clamped(0, 0),
        motion: v2_clamped(0, 0),
        species: Species::Water,
    });
    let r = b.render();
    let expected: Vec<char> = vec![' ', '%', ' ', '\n', ' ', ' ', '.', '\n'];
    assert_eq!(r, expected);
}

#[test]
fn gravity_adds_species_acceleration() {
    let mut b = Board::new(2, 1);
    b.set_cell(0, 0, sand_cell(100, 200, 0, 0));
    b.gravity_step();
    let s = b.get_cell(0, 0);
    assert_eq!(s.velocity, V2 { x: 100, y: 2100 });
    // Air has zero gravity.
    let a = b.get_cell(1, 0);
    assert_eq!(a.velocity, V2 { x: 0, y: 0 });
}

#[test]
fn motion_accumulates_and_damps_air() {
    let mut b = Board::new(2, 1);
    b.set_cell(0, 0, sand_cell(0, 1900, 3000, 4000));
    let mut air = b.get_cell(1, 0);
    air.velocity = v2_clamped(500, 0);
    b.set_cell(1, 0, air);
    b.copy_velocity_to_motion();
    // Sand: capped residual (600, 800) plus velocity (0, 1900).
    assert_eq!(b.get_cell(0, 0).motion, V2 { x: 600, y: 2700 });
    // Air is damped to no motion at all.
    assert_eq!(b.get_cell(1, 0).motion, V2 { x: 0, y: 0 });
}

#[test]
fn relocation_swaps_and_consumes_motion() {
    let mut b = Board::new(2, 1);
    b.set_cell(0, 0, sand_cell(0, 0, 2000, 0));
    let quiet = b.motion_step();
    assert!(!quiet);
    // The sand moved right, consuming one unit; at its new slot it acted
    // again in the same pass (cascading), consuming the rest against the
    // right wall.
    assert_eq!(b.get_cell(0, 0).species, Species::Air);
    let s = b.get_cell(1, 0);
    assert_eq!(s.species, Species::Sand);
    assert_eq!(s.motion, V2 { x: 0, y: 0 });
    // A settled board reports no work and stays put.
    let quiet2 = b.motion_step();
    assert!(quiet2);
    assert_eq!(b.get_cell(1, 0).species, Species::Sand);
}

#[test]
fn boundary_motion_is_safe_and_still_consumed() {
    let mut b = Board::new(1, 1);
    b.set_cell(0, 0, sand_cell(0, 0, 0, 2500));
    let quiet = b.motion_step();
    assert!(!quiet);
    // Destination is off the grid: the cell stays, its decrement preserved.
    let c = b.get_cell(0, 0);
    assert_eq!(c.species, Species::Sand);
    assert_eq!(c.motion, V2 { x: 0, y: 1500 });
    let quiet2 = b.motion_step();
    assert!(!quiet2);
    assert_eq!(b.get_cell(0, 0).motion, V2 { x: 0, y: 500 });
    assert!(b.motion_step());
}

#[test]
fn sub_threshold_motion_never_relocates() {
    let mut b = Board::new(2, 1);
    b.set_cell(0, 0, sand_cell(0, 0, 999, 0));
    assert!(b.motion_step());
    assert_eq!(b.get_cell(0, 0).species, Species::Sand);
    assert_eq!(b.get_cell(0, 0).motion, V2 { x: 999, y: 0 });
}

#[test]
fn relocation_settles_from_random_motions() {
    // Pseudo-random motions in a bounded range must settle within the cap.
    let mut seed: u64 = 0x2545F4914F6CDD1D;
    let mut b = Board::new(4, 4);
    for y in 0..4 {
        for x in 0..4 {
            seed = seed.wrapping_mul(6364136223846793005).wrapping_add(1442695040888963407);
            let mx = (seed >> 33) as i64 % 2500;
            seed = seed.wrapping_mul(6364136223846793005).wrapping_add(1442695040888963407);
            let my = (seed >> 33) as i64 % 2500;
            let sign_x = if seed & 1 == 0 { 1 } else { -1 };
            let sign_y = if seed & 2 == 0 { 1 } else { -1 };
            b.set_cell(x, y, sand_cell(0, 0, sign_x * mx, sign_y * my));
        }
    }
    let mut settled = false;
    for _ in 0..10 {
        if b.motion_step() {
            settled = true;
            break;
        }
    }
    assert!(settled);
}

#[test]
fn relocation_preserves_material() {
    let mut b = Board::new(3, 3);
    b.set_cell(1, 1, sand_cell(0, 0, 2500, 1000));
    b.set_cell(0, 0, Cell {
        velocity: v2_clamped(0, 0),
        motion: v2_clamped(0, 1800),
        species: Species::Water,
    });
    for _ in 0..10 {
        if b.motion_step() {
            break;
        }
    }
    let mut sand = 0;
    let mut water = 0;
    let mut air = 0;
    for y in 0..3 {
        for x in 0..3 {
            match b.get_cell(x, y).species {
                Species::Sand => sand += 1,
                Species::Water => water += 1,
                Species::Air => air += 1,
            }
        }
    }
    assert_eq!(sand, 1);
    assert_eq!(water, 1);
    assert_eq!(air, 7);
}

#[test]
fn collision_transfers_momentum() {
    // A sand cell pushing right into air: after one velocity pass the sand
    // has shed speed and the air ahead of it has picked some up.
    let mut b = Board::new(3, 1);
    b.set_cell(0, 0, sand_cell(2000, 0, 0, 0));
    b.velocity_step();
    let left = b.get_cell(0, 0);
    let mid = b.get_cell(1, 0);
    assert!(left.velocity.x < 2000);
    assert!(left.velocity.x > 0);
    assert!(mid.velocity.x > 0);
    // Species are untouched by velocity resolution.
    assert_eq!(left.species, Species::Sand);
    assert_eq!(mid.species, Species::Air);
}

#[test]
fn friction_dissipates_momentum() {
    // Mass-weighted momentum never grows across a velocity pass here: the
    // collision exchanges it and friction only sheds it.
    let mut b = Board::new(2, 1);
    b.set_cell(0, 0, sand_cell(2000, 0, 0, 0));
    let before = 2500 * 2000;
    b.velocity_step();
    let left = b.get_cell(0, 0);
    let right = b.get_cell(1, 0);
    let after = 2500 * left.velocity.x + 100 * right.velocity.x;
    assert!(after.abs() <= before);
}

#[test]
fn full_step_drops_a_sand_grain() {
    // A single grain over empty air falls under gravity within one step.
    let mut b = Board::new(1, 4);
    b.set_cell(0, 0, sand_cell(0, 0, 0, 0));
    b.step();
    let mut sand_row = None;
    for y in 0..4 {
        if b.get_cell(0, y).species == Species::Sand {
            assert!(sand_row.is_none());
            sand_row = Some(y);
        }
    }
    let row = sand_row.expect("the grain must still exist");
    assert!(row >= 1);
    // It keeps downward velocity for the steps to come.
    assert!(b.get_cell(0, row).velocity.y > 0);
}
