use platformer_core::grid::Level;
use platformer_core::markers::{Markers, Tag};
use platformer_core::movement::{
    apply_speed, step_count, Gravity, IVec2, Position, Speed, StepError,
};
use platformer_core::{DEFAULT_FRICTION, FRAC_ONE};

fn empty_level(width: usize, height: usize) -> Level {
    Level {
        origin: IVec2 { x: 0, y: 0 },
        width,
        height,
        solid: vec![false; width * height],
    }
}

fn with_solid(mut level: Level, x: usize, y: usize) -> Level {
    let w = level.width;
    level.solid[y * w + x] = true;
    level
}

fn pos(cx: i64, cy: i64, fx: i64, fy: i64) -> Position {
    Position {
        cell: IVec2 { x: cx, y: cy },
        fraction: IVec2 { x: fx, y: fy },
    }
}

fn speed(vx: i64, vy: i64) -> Speed {
    Speed {
        velocity: IVec2 { x: vx, y: vy },
        friction: DEFAULT_FRICTION,
    }
}

#[test]
fn normalize_carries_overflow_into_cell() {
    let mut p = pos(3, 4, 12_500, 0);
    p.normalize();
    assert_eq!(p.cell, IVec2 { x: 4, y: 4 });
    assert_eq!(p.fraction, IVec2 { x: 2_500, y: 0 });
}

#[test]
fn normalize_borrows_for_negative_fraction() {
    let mut p = pos(3, 4, -2_500, -10_000);
    p.normalize();
    assert_eq!(p.cell, IVec2 { x: 2, y: 3 });
    assert_eq!(p.fraction, IVec2 { x: 7_500, y: 0 });
}

#[test]
fn normalize_twice_equals_once() {
    let mut once = pos(-7, 9, 23_456, -1);
    once.normalize();
    let mut twice = once;
    twice.normalize();
    assert_eq!(once, twice);
}

#[test]
fn from_units_splits_cell_and_fraction() {
    let p = Position::from_units(IVec2 { x: 25_000, y: -5_000 });
    assert_eq!(p.cell, IVec2 { x: 2, y: -1 });
    assert_eq!(p.fraction, IVec2 { x: 5_000, y: 5_000 });
    assert_eq!(p.total_position(), IVec2 { x: 25_000, y: -5_000 });
}

#[test]
fn world_px_scales_and_rounds() {
    // 2.5 cells * 18 px = 45 px; 1 cell * 18 px = 18 px.
    let p = pos(2, 1, 5_000, 0);
    assert_eq!(p.world_px(), IVec2 { x: 45, y: 18 });
    // 0.25 cells * 18 px = 4.5 px, halves round away from zero.
    let q = pos(0, 0, 2_500, 0);
    assert_eq!(q.world_px(), IVec2 { x: 5, y: 0 });
    // -1 cell * 18 px = -18 px.
    let r = pos(-1, 0, 0, 0);
    assert_eq!(r.world_px(), IVec2 { x: -18, y: 0 });
    // -0.25 cells * 18 px = -4.5 px, rounding away from zero.
    let n = pos(-1, 0, 7_500, 0);
    assert_eq!(n.world_px(), IVec2 { x: -5, y: 0 });
}

#[test]
fn friction_damps_both_axes() {
    let mut s = speed(10_000, -10_000);
    s.apply_friction();
    assert_eq!(s.velocity, IVec2 { x: 8_500, y: -8_500 });
}

#[test]
fn friction_snaps_tiny_velocity_to_zero() {
    // 5 * 0.85 rounds down to 4, below the snap epsilon of 5.
    let mut s = speed(5, -5);
    s.apply_friction();
    assert_eq!(s.velocity, IVec2 { x: 0, y: 0 });
}

#[test]
fn friction_reaches_exactly_zero_in_finitely_many_steps() {
    let mut s = speed(20_000, 0);
    let mut last = 20_000i64;
    let mut iterations = 0u64;
    while s.velocity.x != 0 {
        s.apply_friction();
        assert!(s.velocity.x.abs() < last, "magnitude must strictly decrease");
        last = s.velocity.x.abs().max(1);
        iterations += 1;
        assert!(iterations <= 20_000, "must converge within |v| applications");
    }
    assert_eq!(s.velocity.x, 0);
}

#[test]
fn friction_truncates_toward_zero_on_both_signs() {
    // 99 * 0.85 = 84.15: both signs truncate to magnitude 84.
    let mut s = speed(99, -99);
    s.apply_friction();
    assert_eq!(s.velocity, IVec2 { x: 84, y: -84 });
}

#[test]
fn default_speed_uses_default_friction() {
    let s = Speed::default();
    assert_eq!(s.velocity, IVec2 { x: 0, y: 0 });
    assert_eq!(s.friction, DEFAULT_FRICTION);
    assert_eq!(s.total_speed(), IVec2 { x: 0, y: 0 });
}

#[test]
fn boundary_cells_are_solid_on_all_four_sides() {
    let level = empty_level(10, 8);
    for y in 0..8 {
        assert!(level.is_solid(-1, y));
        assert!(level.is_solid(10, y));
    }
    for x in 0..10 {
        assert!(level.is_solid(x, -1));
        assert!(level.is_solid(x, 8));
    }
    for x in 0..10 {
        for y in 0..8 {
            assert!(!level.is_solid(x, y));
        }
    }
}

#[test]
fn stored_solidity_flag_is_reported() {
    let level = with_solid(empty_level(10, 10), 6, 5);
    assert!(level.is_solid(6, 5));
    assert!(!level.is_solid(5, 5));
}

#[test]
fn solidity_respects_level_origin() {
    let mut level = empty_level(4, 4);
    level.origin = IVec2 { x: 100, y: 200 };
    level.solid[0] = true;
    assert!(level.is_solid(100, 200));
    assert!(!level.is_solid(101, 200));
    assert!(level.is_solid(99, 200), "outside the translated bounds is solid");
}

#[test]
fn substep_count_weights_vertical_speed_five_times() {
    // 3 cells/step horizontally: ceil(3) = 3 sub-steps.
    assert_eq!(step_count(IVec2 { x: 30_000, y: 0 }), 3);
    // 2 cells/step vertically: ceil(2 * 5) = 10 sub-steps.
    assert_eq!(step_count(IVec2 { x: 0, y: 20_000 }), 10);
    // Half a cell horizontally still sub-steps once.
    assert_eq!(step_count(IVec2 { x: 5_000, y: 0 }), 1);
    assert_eq!(step_count(IVec2 { x: 0, y: 0 }), 0);
}

#[test]
fn wall_stop_clamps_fraction_and_zeroes_velocity() {
    // Entity at cell (5,5), fraction 0.75, moving right at 0.5 cells/step,
    // with cell (6,5) solid.
    let levels = vec![with_solid(empty_level(20, 20), 6, 5)];
    let mut p = pos(5, 5, 7_500, 0);
    let mut s = speed(5_000, 0);
    let mut m = Markers::new();
    let r = apply_speed(&mut p, &mut s, None, &mut m, &levels, 0);
    assert_eq!(r, Ok(()));
    assert_eq!(s.velocity.x, 0);
    assert_eq!(p.fraction.x, 8_000, "clamped to the 0.8 threshold");
    assert_eq!(p.cell, IVec2 { x: 5, y: 5 }, "0.8 < 1.0, so no cell carry");
}

#[test]
fn left_wall_stop_clamps_to_low_threshold() {
    // Moving left at 0.5 cells/step with the cell to the left solid.
    let levels = vec![with_solid(empty_level(20, 20), 4, 5)];
    let mut p = pos(5, 5, 2_500, 0);
    let mut s = speed(-5_000, 0);
    let mut m = Markers::new();
    let r = apply_speed(&mut p, &mut s, None, &mut m, &levels, 0);
    assert_eq!(r, Ok(()));
    assert_eq!(s.velocity.x, 0);
    assert_eq!(p.fraction.x, 2_000, "clamped to the 0.2 threshold");
    assert_eq!(p.cell, IVec2 { x: 5, y: 5 });
}

#[test]
fn landing_clamps_to_ground_and_arms_marker() {
    // Entity at cell (5,10), fraction.y 0.1, falling at 0.5 cells/step,
    // with cell (5,9) solid below.
    let levels = vec![with_solid(empty_level(20, 20), 5, 9)];
    let mut p = pos(5, 10, 0, 1_000);
    let mut s = speed(0, -5_000);
    let mut m = Markers::new();
    let now = 1_000;
    let r = apply_speed(&mut p, &mut s, None, &mut m, &levels, now);
    assert_eq!(r, Ok(()));
    assert_eq!(s.velocity.y, 0);
    assert_eq!(p.fraction.y, 0);
    assert_eq!(p.cell, IVec2 { x: 5, y: 10 });
    assert!(m.contains(Tag::OnGround, now), "on-ground marker present");
    assert!(m.contains(Tag::OnGround, now + 49), "still armed 49 ms later");
    assert!(!m.contains(Tag::OnGround, now + 50), "expired after 50 ms");
}

#[test]
fn ceiling_bump_clamps_head_margin() {
    // Moving up at 0.5 cells/step with the cell above solid.
    let levels = vec![with_solid(empty_level(20, 20), 5, 6)];
    let mut p = pos(5, 5, 0, 5_000);
    let mut s = speed(0, 5_000);
    let mut m = Markers::new();
    let r = apply_speed(&mut p, &mut s, None, &mut m, &levels, 0);
    assert_eq!(r, Ok(()));
    assert_eq!(s.velocity.y, 0);
    assert_eq!(p.fraction.y, 2_000, "clamped to the 0.2 head margin");
    assert_eq!(p.cell, IVec2 { x: 5, y: 5 });
}

#[test]
fn gravity_suppressed_while_grounded() {
    let levels = vec![empty_level(20, 20)];
    let gravity = Gravity(IVec2 { x: 0, y: -200 });
    let now = 10;

    // Grounded: the on-ground marker is live, so gravity adds nothing and
    // a resting entity stays exactly put.
    let mut p = pos(5, 5, 0, 0);
    let mut s = speed(0, 0);
    let mut m = Markers::new();
    m.add_marker_for(Tag::OnGround, 50, now);
    let r = apply_speed(&mut p, &mut s, Some(&gravity), &mut m, &levels, now);
    assert_eq!(r, Ok(()));
    assert_eq!(s.velocity, IVec2 { x: 0, y: 0 });
    assert_eq!(p, pos(5, 5, 0, 0));

    // Airborne: gravity accelerates, the entity falls, friction damps.
    let mut p2 = pos(5, 5, 0, 0);
    let mut s2 = speed(0, 0);
    let mut m2 = Markers::new();
    let r2 = apply_speed(&mut p2, &mut s2, Some(&gravity), &mut m2, &levels, now);
    assert_eq!(r2, Ok(()));
    assert_eq!(s2.velocity.y, -170, "one gravity tick, then friction");
    assert_eq!(p2.cell.y, 4, "fell below the cell boundary");
    assert_eq!(p2.fraction.y, FRAC_ONE - 200);
}

#[test]
fn expired_ground_marker_no_longer_suppresses_gravity() {
    let levels = vec![empty_level(20, 20)];
    let gravity = Gravity(IVec2 { x: 0, y: -200 });
    let mut p = pos(5, 5, 0, 0);
    let mut s = speed(0, 0);
    let mut m = Markers::new();
    m.add_marker_for(Tag::OnGround, 50, 0);
    let r = apply_speed(&mut p, &mut s, Some(&gravity), &mut m, &levels, 60);
    assert_eq!(r, Ok(()));
    assert_eq!(s.velocity.y, -170);
}

#[test]
fn entity_outside_every_level_is_skipped_untouched() {
    let levels = vec![empty_level(10, 10)];
    let mut p = pos(50, 50, 1_234, 0);
    let mut s = speed(5_000, -5_000);
    let mut m = Markers::new();
    let r = apply_speed(&mut p, &mut s, None, &mut m, &levels, 0);
    assert_eq!(r, Err(StepError::NoLevel));
    assert_eq!(p, pos(50, 50, 1_234, 0));
    assert_eq!(s.velocity, IVec2 { x: 5_000, y: -5_000 });
}

#[test]
fn first_matching_level_wins() {
    let mut far = empty_level(10, 10);
    far.origin = IVec2 { x: 100, y: 0 };
    let levels = vec![far, empty_level(10, 10)];
    let mut p = pos(5, 5, 0, 0);
    let mut s = speed(1_000, 0);
    let mut m = Markers::new();
    // The second level contains cell (5,5); the entity moves freely there.
    let r = apply_speed(&mut p, &mut s, None, &mut m, &levels, 0);
    assert_eq!(r, Ok(()));
    assert_eq!(p.fraction.x, 1_000);
}

#[test]
fn fast_fall_cannot_tunnel_through_floor() {
    // 3 cells/step straight down sub-steps 15 times and still lands on the
    // floor instead of passing through it.
    let levels = vec![with_solid(empty_level(20, 20), 5, 9)];
    let mut p = pos(5, 12, 0, 0);
    let mut s = speed(0, -30_000);
    let mut m = Markers::new();
    let r = apply_speed(&mut p, &mut s, None, &mut m, &levels, 0);
    assert_eq!(r, Ok(()));
    assert_eq!(s.velocity.y, 0);
    assert_eq!(p.cell.y, 10, "rests on top of the solid cell");
    assert_eq!(p.fraction.y, 0);
    assert!(m.contains(Tag::OnGround, 0));
}
