use schotter::capture::{frame_path, should_capture_this_tick, Capture, FRAME_CAP};
use schotter::field::{random_color_index, random_draw, Field};
use schotter::params::{parse_seed, Params, CERTAIN, DEFAULT_MOTION, DEFAULT_SCALE};
use schotter::random::{random_rgb, random_seed};
use schotter::stone::{
    scale_by_depth, Draw, Stone, EIGHTH_TURN, HALF_CELL, MAX_CYCLES, MIN_CYCLES, PALETTE_LEN,
};

fn params(seed: u64, displacement: i32, rotation: i32, motion: u32) -> Params {
    Params { displacement, rotation, motion, seed }
}

#[test]
fn new_field_is_a_row_major_grid_at_rest() {
    let field = Field::new(22, 12);
    assert_eq!(field.stones.len(), 264);
    for (i, s) in field.stones.iter().enumerate() {
        assert_eq!(s.grid_x as usize, i % 12);
        assert_eq!(s.grid_y as usize, i / 12);
        assert_eq!((s.offset_x, s.offset_y, s.rotation), (0, 0, 0));
        assert_eq!(s.cycles_remaining, 0);
        assert!(s.color < PALETTE_LEN);
    }
}

#[test]
fn zero_scales_give_a_perfect_grid() {
    let mut field = Field::new(22, 12);
    field.scatter(&params(42, 0, 0, DEFAULT_MOTION));
    assert_eq!(field.stones.len(), 22 * 12);
    for (i, s) in field.stones.iter().enumerate() {
        assert_eq!(s.grid_x as usize, i % 12);
        assert_eq!(s.grid_y as usize, i / 12);
        assert_eq!(s.offset_x, 0);
        assert_eq!(s.offset_y, 0);
        assert_eq!(s.rotation, 0);
    }
}

#[test]
fn zero_displacement_keeps_rotation_alone() {
    let mut field = Field::new(22, 12);
    field.scatter(&params(7, 0, 3000, DEFAULT_MOTION));
    assert!(field.stones.iter().all(|s| s.offset_x == 0 && s.offset_y == 0));
    assert!(field.stones.iter().any(|s| s.rotation != 0));
    let mut field = Field::new(22, 12);
    field.scatter(&params(7, 3000, 0, DEFAULT_MOTION));
    assert!(field.stones.iter().all(|s| s.rotation == 0));
    assert!(field.stones.iter().any(|s| s.offset_x != 0));
}

#[test]
fn same_seed_same_arrangement() {
    let p = params(42, 1000, 1000, DEFAULT_MOTION);
    let mut a = Field::new(22, 12);
    let mut b = Field::new(22, 12);
    a.scatter(&p);
    b.scatter(&p);
    for (x, y) in a.stones.iter().zip(b.stones.iter()) {
        assert_eq!((x.offset_x, x.offset_y, x.rotation), (y.offset_x, y.offset_y, y.rotation));
    }
    let first: Vec<(i64, i64, i64)> =
        a.stones.iter().map(|s| (s.offset_x, s.offset_y, s.rotation)).collect();
    a.scatter(&p);
    let second: Vec<(i64, i64, i64)> =
        a.stones.iter().map(|s| (s.offset_x, s.offset_y, s.rotation)).collect();
    assert_eq!(first, second);
}

#[test]
fn scatter_perturbs_lower_rows_within_reach() {
    let mut field = Field::new(22, 12);
    field.scatter(&params(42, 1000, 1000, DEFAULT_MOTION));
    assert!(field.stones.iter().any(|s| s.offset_x != 0));
    for s in &field.stones {
        if s.grid_y == 0 {
            assert_eq!((s.offset_x, s.offset_y, s.rotation), (0, 0, 0));
        }
        let reach = HALF_CELL * s.grid_y as i64 / 22;
        assert!(s.offset_x.abs() <= reach && s.offset_y.abs() <= reach);
        assert!(s.rotation.abs() <= EIGHTH_TURN * s.grid_y as i64 / 22);
    }
}

#[test]
fn scatter_with_places_each_stone_by_its_draws() {
    let mut field = Field::new(2, 2);
    let draws = vec![
        1, 2, 3, 4, 5, 6, 400_000, -300_000, 785_398, -500_000, 499_999, -785_398,
    ];
    field.scatter_with(&params(0, 1000, 2000, DEFAULT_MOTION), &draws);
    let placed: Vec<(i64, i64, i64)> =
        field.stones.iter().map(|s| (s.offset_x, s.offset_y, s.rotation)).collect();
    assert_eq!(
        placed,
        vec![(0, 0, 0), (0, 0, 0), (200_000, -150_000, 785_398), (-250_000, 249_999, -785_398)]
    );
    assert!(field.stones.iter().all(|s| s.cycles_remaining == 0 && s.velocity_x == 0));
}

#[test]
fn depth_scaling_values() {
    assert_eq!(scale_by_depth(500_000, 11, 22, 1000), 250_000);
    assert_eq!(scale_by_depth(-300_001, 1, 22, 1000), -13_636);
    assert_eq!(scale_by_depth(1000, 21, 22, -2000), -1909);
    assert_eq!(scale_by_depth(-785_398, 22, 22, 1500), -1_178_097);
    assert_eq!(scale_by_depth(123_456, 0, 22, 5000), 0);
    assert_eq!(scale_by_depth(123_456, 13, 22, 0), 0);
}

#[test]
fn depth_scaling_grows_with_depth() {
    for draw in [-785_398i64, -250_000, -1, 0, 1, 333_333, 785_398] {
        for scale in [-5000i32, -100, 0, 100, 1000, 5000] {
            let mut last = 0i64;
            for y in 0..=22u32 {
                let v = scale_by_depth(draw, y, 22, scale).abs();
                assert!(v >= last);
                last = v;
            }
        }
    }
}

fn moving_draw(cycles: u32) -> Draw {
    Draw { chance: 0, cycles, x: 400_000, y: -200_000, rotation: 700_000 }
}

#[test]
fn decision_sets_velocity_toward_target() {
    let p = params(0, 1000, 1000, CERTAIN);
    let mut s = Stone::new(3, 11, 2);
    s.step(22, &p, &moving_draw(50));
    assert_eq!((s.offset_x, s.offset_y, s.rotation), (0, 0, 0));
    assert_eq!((s.velocity_x, s.velocity_y, s.velocity_rotation), (4000, -2000, 7000));
    assert_eq!(s.cycles_remaining, 50);
}

#[test]
fn hold_reaches_target_after_its_cycles() {
    let p = params(0, 1000, 1000, CERTAIN);
    let mut s = Stone::new(3, 11, 2);
    s.step(22, &p, &moving_draw(50));
    for k in 0..50 {
        assert!(s.cycles_remaining > 0, "tick {}", k);
        s.step(22, &p, &moving_draw(50));
    }
    assert_eq!(s.cycles_remaining, 0);
    assert_eq!((s.offset_x, s.offset_y, s.rotation), (200_000, -100_000, 350_000));
}

#[test]
fn hold_ends_within_a_unit_per_tick() {
    let p = params(0, 1000, 1000, CERTAIN);
    let mut s = Stone::new(0, 11, 0);
    s.step(22, &p, &moving_draw(300));
    assert_eq!(s.velocity_x, 666);
    for _ in 0..300 {
        s.step(22, &p, &moving_draw(300));
    }
    assert_eq!(s.cycles_remaining, 0);
    assert_eq!(s.offset_x, 199_800);
    assert!((200_000 - s.offset_x).abs() < 300);
    assert!((-100_000 - s.offset_y).abs() < 300);
    assert!((350_000 - s.rotation).abs() < 300);
}

#[test]
fn dormant_decision_holds_still() {
    let p = params(0, 1000, 1000, DEFAULT_MOTION);
    let mut s = Stone::new(4, 20, 1);
    let mut d = moving_draw(80);
    s.step(22, &p, &d);
    while s.cycles_remaining > 0 {
        s.step(22, &p, &d);
    }
    let (x, y, r) = (s.offset_x, s.offset_y, s.rotation);
    assert_ne!((x, y, r), (0, 0, 0));
    d.chance = 600_000;
    d.cycles = 120;
    s.step(22, &p, &d);
    assert_eq!((s.velocity_x, s.velocity_y, s.velocity_rotation), (0, 0, 0));
    assert_eq!(s.cycles_remaining, 120);
    for _ in 0..120 {
        s.step(22, &p, &d);
        assert_eq!((s.offset_x, s.offset_y, s.rotation), (x, y, r));
    }
    assert_eq!(s.cycles_remaining, 0);
}

#[test]
fn top_row_never_moves() {
    let p = params(0, 5000, 5000, CERTAIN);
    let mut s = Stone::new(5, 0, 0);
    let draws = [
        Draw { chance: 0, cycles: 50, x: 499_999, y: -500_000, rotation: -785_398 },
        Draw { chance: 10, cycles: 300, x: -1, y: 1, rotation: 785_397 },
    ];
    for d in draws.iter().cycle().take(800) {
        s.step(22, &p, d);
        assert_eq!((s.offset_x, s.offset_y, s.rotation), (0, 0, 0));
        assert_eq!((s.velocity_x, s.velocity_y, s.velocity_rotation), (0, 0, 0));
    }
}

#[test]
fn animate_starts_holds_without_moving() {
    let mut field = Field::new(22, 12);
    let p = params(0, 1000, 1000, DEFAULT_MOTION);
    field.animate(&p);
    for s in &field.stones {
        assert!(MIN_CYCLES <= s.cycles_remaining && s.cycles_remaining <= MAX_CYCLES);
        assert_eq!((s.offset_x, s.offset_y, s.rotation), (0, 0, 0));
    }
    let before: Vec<Stone> = field.stones.clone();
    field.animate(&p);
    for (a, b) in before.iter().zip(field.stones.iter()) {
        assert_eq!(b.offset_x, a.offset_x + a.velocity_x);
        assert_eq!(b.cycles_remaining, a.cycles_remaining - 1);
    }
}

#[test]
fn random_values_stay_in_range() {
    for _ in 0..200 {
        let d = random_draw();
        assert!(d.chance < CERTAIN);
        assert!(MIN_CYCLES <= d.cycles && d.cycles <= MAX_CYCLES);
        assert!(-HALF_CELL <= d.x && d.x < HALF_CELL);
        assert!(-EIGHTH_TURN <= d.rotation && d.rotation < EIGHTH_TURN);
        assert!(random_seed() < 1_000_000);
        assert!(random_color_index() < PALETTE_LEN);
        let _ = random_rgb();
    }
}

#[test]
fn capture_alternate_ticks_only() {
    assert!(should_capture_this_tick(0));
    assert!(!should_capture_this_tick(1));
    assert!(should_capture_this_tick(10));
    let mut c = Capture::new();
    assert_eq!(c.tick(0), None);
    c.toggle(String::from("session"));
    assert!(c.recording);
    assert_eq!(c.tick(1), None);
    assert_eq!(c.tick(2), Some(1));
    assert_eq!(c.tick(3), None);
    assert_eq!(c.tick(4), Some(2));
    c.toggle(String::from("other"));
    assert!(!c.recording);
    assert_eq!(c.session, "session");
    assert_eq!(c.tick(6), None);
}

#[test]
fn capture_stops_past_the_cap() {
    let mut c = Capture::new();
    c.toggle(String::from("s"));
    for k in 1..=FRAME_CAP {
        assert_eq!(c.tick(2 * k as u64), Some(k));
        assert!(c.recording);
    }
    assert_eq!(c.tick(0), None);
    assert!(!c.recording);
    assert_eq!(c.tick(2), None);
}

#[test]
fn frame_paths_are_zero_padded() {
    assert_eq!(frame_path("assets/recordings/t", 7), "assets/recordings/t/0007.png");
    assert_eq!(frame_path("r", 42), "r/0042.png");
    assert_eq!(frame_path("r", 999), "r/0999.png");
    assert_eq!(frame_path("r", 9999), "r/9999.png");
    assert_eq!(frame_path("r", 12345), "r/12345.png");
    assert_eq!(frame_path("", 0), "/0000.png");
}

#[test]
fn seed_text() {
    assert_eq!(parse_seed("42"), 42);
    assert_eq!(parse_seed("+7"), 7);
    assert_eq!(parse_seed("007"), 7);
    assert_eq!(parse_seed(""), 0);
    assert_eq!(parse_seed("+"), 0);
    assert_eq!(parse_seed("abc"), 0);
    assert_eq!(parse_seed("12a"), 0);
    assert_eq!(parse_seed("-1"), 0);
    assert_eq!(parse_seed("18446744073709551615"), u64::MAX);
    assert_eq!(parse_seed("18446744073709551616"), 0);
    assert_eq!(parse_seed("99999999999999999999x"), 0);
    let mut p = Params::new(5);
    p.set_seed_text("123456");
    assert_eq!(p.seed, 123_456);
    p.set_seed_text("12 3");
    assert_eq!(p.seed, 0);
}

#[test]
fn adjusting_scales() {
    let mut p = Params::new(1);
    assert_eq!((p.displacement, p.rotation, p.motion), (DEFAULT_SCALE, DEFAULT_SCALE, DEFAULT_MOTION));
    p.raise_displacement();
    assert_eq!(p.displacement, 1100);
    p.raise_rotation();
    p.raise_rotation();
    assert_eq!(p.rotation, 1200);
    p.displacement = 50;
    p.lower_displacement();
    assert_eq!(p.displacement, 0);
    p.lower_displacement();
    assert_eq!(p.displacement, 0);
    p.rotation = 250;
    p.lower_rotation();
    assert_eq!(p.rotation, 150);
    p.rotation = i32::MAX - 10;
    p.raise_rotation();
    assert_eq!(p.rotation, i32::MAX);
    p.reseed();
    assert!(p.seed < 1_000_000);
    assert_eq!(p.rotation, i32::MAX);
}
