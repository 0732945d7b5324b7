use firework::arg::{
    BIG_ROCKET_SPEED_X_MAX, BIG_ROCKET_SPEED_X_MIN, BIG_ROCKET_SPEED_Y_MAX,
    BIG_ROCKET_SPEED_Y_MIN, EXPLODE_ROCKET_CNT, PARTICLE_AGE, SMALL_ROCKET_SPEED_MAX,
    SMALL_ROCKET_SPEED_MIN,
};
use firework::color::Hsl;
use firework::rocket::{BigRocket, Glitters, Particle, SmallRocket};
use firework::time::{Ticker, Timer};
use firework::{CanvasSize, Vec2};

const SIZE: CanvasSize = CanvasSize { width: 80, height: 24 };

fn amber() -> Hsl {
    Hsl { h: 45000, s: 90000, l: 50000 }
}

/// A shell climbing at exactly 20 m/s under g = 9.8 and dt = 0.1 s loses
/// 0.98 m/s a frame: it still climbs after 20 frames and explodes on the
/// 21st, the frame its integrated vertical speed first reaches zero or less.
#[test]
fn shell_explodes_on_frame_twenty_one() {
    let mut g = Glitters::new_seeded(7);
    g.launch_big_rocket(BigRocket::new(Vec2(5000, 0), Vec2(0, 20000), amber()));
    for frame in 1..=20u32 {
        g.update_rockets(100);
        assert_eq!(g.cnt_big_rocket(), 1, "frame {frame}");
        assert_eq!(g.cnt_small_rocket(), 0, "frame {frame}");
        assert_eq!(g.big_rockets[0].vel.1, 20000 - 980 * frame as i64);
    }
    g.update_rockets(100);
    assert_eq!(g.cnt_big_rocket(), 0);
    assert_eq!(g.cnt_small_rocket(), EXPLODE_ROCKET_CNT);
}

/// A still-climbing shell is never exploded, whatever the delta, as long as
/// its integrated vertical speed stays positive; with a zero delta it never
/// changes at all.
#[test]
fn climbing_shell_is_not_exploded() {
    let mut g = Glitters::new_seeded(8);
    g.launch_big_rocket(BigRocket::new(Vec2(5000, 0), Vec2(1000, 24000), amber()));
    for _ in 0..100 {
        g.update_rockets(0);
    }
    assert_eq!(g.cnt_big_rocket(), 1);
    assert_eq!(g.cnt_small_rocket(), 0);
    assert_eq!(g.big_rockets[0].vel.1, 24000);
}

/// Spark directions, sampled over thousands of explosions, never fall in
/// the excluded wedge centered on straight down, and spark speeds stay in
/// the configured band.
#[test]
fn spark_directions_avoid_the_downward_wedge() {
    let mut g = Glitters::new_seeded(99);
    for k in 0..200u32 {
        g.launch_big_rocket(BigRocket::new(Vec2(5000, 10000), Vec2(0, 0), amber()));
        g.update_rockets(0);
        assert_eq!(g.cnt_small_rocket(), (k + 1) * EXPLODE_ROCKET_CNT);
    }
    let down = -std::f64::consts::FRAC_PI_2;
    let half_wedge = std::f64::consts::PI / 16.0;
    for s in &g.small_rockets {
        let vx = s.vel.0 as f64;
        let vy = s.vel.1 as f64;
        let angle = vy.atan2(vx);
        assert!((angle - down).abs() >= half_wedge, "direction {angle} in the wedge");
        let speed = (vx * vx + vy * vy).sqrt();
        assert!(speed > (SMALL_ROCKET_SPEED_MIN - 20) as f64);
        assert!(speed < (SMALL_ROCKET_SPEED_MAX + 20) as f64);
    }
}

/// A spark's lifespan never grows from frame to frame, and the frame it
/// reaches zero the spark is gone, never to return.
#[test]
fn spark_lifespan_shrinks_until_removal() {
    let mut g = Glitters::new_seeded(3);
    g.launch_big_rocket(BigRocket::new(Vec2(5000, 10000), Vec2(0, 0), amber()));
    g.update_rockets(0);
    assert_eq!(g.cnt_small_rocket(), EXPLODE_ROCKET_CNT);
    let mut frames = 0u32;
    while g.cnt_small_rocket() > 0 {
        let before = g.small_rockets.clone();
        g.update_rockets(50);
        // survivors are exactly the integrated sparks with budget left,
        // kept in order, and integration never grows a lifespan
        let expected: Vec<_> = before.iter().map(|s| s.step(50)).filter(|s| s.age > 0).collect();
        assert_eq!(g.small_rockets.len(), expected.len());
        for (k, s) in g.small_rockets.iter().enumerate() {
            assert_eq!(s.age, expected[k].age);
            assert!(s.age > 0, "a dead spark survived");
        }
        for (s, s2) in before.iter().zip(before.iter().map(|s| s.step(50)).collect::<Vec<_>>().iter()) {
            assert!(s2.age <= s.age, "lifespan grew");
        }
        frames += 1;
        assert!(frames < 10000, "sparks never burned out");
    }
    for _ in 0..10 {
        g.update_rockets(50);
        assert_eq!(g.cnt_small_rocket(), 0);
    }
}

/// Writing a particle onto an occupied cell replaces the stored entry
/// rather than duplicating it, and the store never holds two entries with
/// the same cell.
#[test]
fn store_replaces_on_the_same_cell() {
    let mut g = Glitters::new_seeded(1);
    let first = Particle::new(Vec2(5, 5), Hsl { h: 0, s: 100000, l: 90000 }, 1000);
    let second = Particle::new(Vec2(5, 5), Hsl { h: 240000, s: 100000, l: 50000 }, 400);
    g.insert_particle(first);
    assert_eq!(g.cnt_particle(), 1);
    g.insert_particle(second);
    assert_eq!(g.cnt_particle(), 1);
    assert_eq!(g.particles[0].age, 400);
    assert_eq!(g.particles[0].color.h, 240000);
    g.insert_particle(Particle::new(Vec2(6, 5), amber(), 1000));
    assert_eq!(g.cnt_particle(), 2);
}

/// After any generation pass the store holds at most one entry per cell.
#[test]
fn generation_never_duplicates_a_cell() {
    let mut g = Glitters::new_seeded(5);
    for _ in 0..30 {
        g.launch(&SIZE);
    }
    for _ in 0..40 {
        g.update_rockets(30);
        g.gen_glitters(&SIZE);
        let mut seen = std::collections::HashSet::new();
        for p in &g.particles {
            assert!(seen.insert((p.pos.0, p.pos.1)), "two entries on one cell");
        }
        g.update_glitters(30);
    }
}

/// When a spark's sample and a shell's sample land on the same cell in one
/// generation pass, the shell's wins: the spark pass runs first and the
/// shell pass overwrites. Motionless rockets take no trail offset, so both
/// samples land exactly on the rocket cell.
#[test]
fn shell_sample_overwrites_spark_sample_on_a_shared_cell() {
    let mut g = Glitters::new_seeded(6);
    g.small_rockets.push(SmallRocket::new(Vec2(20000, 12000), Vec2(0, 0), amber(), 1500));
    g.launch_big_rocket(BigRocket::new(
        Vec2(20000, 12000),
        Vec2(0, 0),
        Hsl { h: 200000, s: 70000, l: 50000 },
    ));
    g.gen_glitters(&SIZE);
    assert_eq!(g.cnt_particle(), 1);
    assert_eq!((g.particles[0].pos.0, g.particles[0].pos.1), (40, 12));
    // the stored entry carries the shell's hue and bright trail lightness
    assert_eq!(g.particles[0].color.h, 200000);
    assert_eq!(g.particles[0].color.l, 90000);
}

/// One decay step takes the documented exponential bite out of the
/// lightness: with lightness 90%, a full second of life and dt = 0.1 s the
/// lightness falls by 6.105% exactly, and the lifespan by the delta.
#[test]
fn particle_decays_by_the_exponential_term() {
    let mut g = Glitters::new_seeded(2);
    g.insert_particle(Particle::new(Vec2(5, 5), Hsl { h: 120000, s: 80000, l: 90000 }, 1000));
    g.update_glitters(100);
    assert_eq!(g.cnt_particle(), 1);
    assert_eq!(g.particles[0].age, 900);
    assert_eq!(g.particles[0].color.l, 83895);
}

/// Lightness is clamped at zero rather than going negative, and a particle
/// whose lifespan is spent leaves the store the same frame.
#[test]
fn particle_lightness_never_goes_negative() {
    let mut g = Glitters::new_seeded(2);
    g.insert_particle(Particle::new(Vec2(5, 5), Hsl { h: 120000, s: 80000, l: 3000 }, 1000));
    g.update_glitters(500);
    assert_eq!(g.cnt_particle(), 1);
    assert_eq!(g.particles[0].age, 500);
    assert_eq!(g.particles[0].color.l, 0);
    g.update_glitters(600);
    assert_eq!(g.cnt_particle(), 0);
}

/// Launching draws position, velocity and color from the configured bands,
/// and different frames draw different values.
#[test]
fn launch_draws_from_the_configured_bands() {
    let mut g = Glitters::new_seeded(11);
    for _ in 0..100 {
        g.launch(&SIZE);
    }
    assert_eq!(g.cnt_big_rocket(), 100);
    let mut distinct = false;
    for b in &g.big_rockets {
        assert_eq!(b.pos.1, 0);
        assert!(0 <= b.pos.0 && b.pos.0 < SIZE.phy_width());
        assert!(BIG_ROCKET_SPEED_X_MIN <= b.vel.0 && b.vel.0 < BIG_ROCKET_SPEED_X_MAX);
        assert!(BIG_ROCKET_SPEED_Y_MIN <= b.vel.1 && b.vel.1 < BIG_ROCKET_SPEED_Y_MAX);
        assert!(0 <= b.color.h && b.color.h < 360000);
        assert!(0 <= b.color.s && b.color.s <= 100000);
        assert_eq!(b.color.l, 50000);
        if b.pos.0 != g.big_rockets[0].pos.0 {
            distinct = true;
        }
    }
    assert!(distinct, "every draw came out identical");
}

/// The same seed replays the same show; the draws are deterministic.
#[test]
fn seeded_runs_replay_exactly() {
    let mut a = Glitters::new_seeded(123);
    let mut b = Glitters::new_seeded(123);
    for _ in 0..10 {
        a.launch(&SIZE);
        b.launch(&SIZE);
    }
    for k in 0..10 {
        assert_eq!(a.big_rockets[k].pos.0, b.big_rockets[k].pos.0);
        assert_eq!(a.big_rockets[k].vel.0, b.big_rockets[k].vel.0);
        assert_eq!(a.big_rockets[k].color.h, b.big_rockets[k].color.h);
    }
}

/// A shell over the middle of the canvas leaves exactly one bright trail
/// sample per generation pass; its fuzz is too narrow to push it off
/// screen.
#[test]
fn shell_trail_lands_on_screen() {
    let mut g = Glitters::new_seeded(17);
    g.launch_big_rocket(BigRocket::new(Vec2(20000, 12000), Vec2(0, 22000), amber()));
    g.gen_glitters(&SIZE);
    assert_eq!(g.cnt_particle(), 1);
    let p = g.particles[0];
    assert_eq!(p.age, PARTICLE_AGE);
    assert_eq!(p.color.h, 45000);
    assert_eq!(p.color.s, 90000);
    assert_eq!(p.color.l, 90000);
    assert_eq!(p.pos.1, 12);
}

/// The deterministic trail core: a given crosswise offset lands a sample on
/// the exact cell the mapping gives, displaced crosswise to the motion, and
/// an off-screen sample is dropped.
#[test]
fn trail_offset_displaces_crosswise() {
    let b = BigRocket::new(Vec2(20000, 12000), Vec2(0, 10000), amber());
    let center = Particle::from_big_rocket_at(&b, 0, &SIZE).unwrap();
    assert_eq!((center.pos.0, center.pos.1), (40, 12));
    // motion is straight up, so the offset moves the sample along x
    let shifted = Particle::from_big_rocket_at(&b, 2000, &SIZE).unwrap();
    assert_eq!((shifted.pos.0, shifted.pos.1), (44, 12));
    let far = Particle::from_big_rocket_at(&b, 100000, &SIZE);
    assert!(far.is_none());
}

/// A fresh spark's trail is at the bright end of the band; interpolation
/// dims it as the burn budget runs out.
#[test]
fn spark_trail_lightness_interpolates() {
    let fresh = SmallRocket::new(Vec2(20000, 12000), Vec2(0, 5000), amber(), 1500);
    let p = Particle::from_small_rocket_at(&fresh, 0, &SIZE).unwrap();
    assert_eq!(p.color.l, 95000);
    let tired = SmallRocket::new(Vec2(20000, 12000), Vec2(0, 5000), amber(), 750);
    let q = Particle::from_small_rocket_at(&tired, 0, &SIZE).unwrap();
    assert_eq!(q.color.l, 77500);
}

/// Sparks near burnout generate fewer trail samples than fresh ones: the
/// emission probability is the square root of the remaining budget.
#[test]
fn trail_density_drops_near_burnout() {
    let mut fresh_hits = 0u32;
    let mut tired_hits = 0u32;
    for seed in 0..300u64 {
        let mut g = Glitters::new_seeded(seed);
        g.small_rockets.push(SmallRocket::new(Vec2(20000, 12000), Vec2(0, 5000), amber(), 1500));
        g.gen_glitters(&SIZE);
        fresh_hits += g.cnt_particle();
        let mut h = Glitters::new_seeded(seed);
        h.small_rockets.push(SmallRocket::new(Vec2(20000, 12000), Vec2(0, 5000), amber(), 40));
        h.gen_glitters(&SIZE);
        tired_hits += h.cnt_particle();
    }
    assert_eq!(fresh_hits, 300, "a fresh spark always emits");
    assert!(tired_hits < 150, "a near-dead spark should rarely emit");
}

/// The render snapshot pairs every stored cell with its RGB color.
#[test]
fn snapshot_matches_the_store() {
    let mut g = Glitters::new_seeded(4);
    g.insert_particle(Particle::new(Vec2(1, 2), Hsl { h: 0, s: 100000, l: 50000 }, 1000));
    g.insert_particle(Particle::new(Vec2(3, 4), Hsl { h: 120000, s: 100000, l: 50000 }, 1000));
    let v = g.iter();
    assert_eq!(v.len(), 2);
    assert_eq!((v[0].0 .0, v[0].0 .1), (1, 2));
    assert_eq!((v[0].1.r, v[0].1.g, v[0].1.b), (255, 0, 0));
    assert_eq!((v[1].0 .0, v[1].0 .1), (3, 4));
    assert_eq!((v[1].1.r, v[1].1.g, v[1].1.b), (0, 255, 0));
}

/// A whole show, headless: launches on a one-second cadence, generation at
/// fifty hertz, frames at sixteen milliseconds, in the fixed frame order -
/// launch, rocket physics, glow generation, glow decay. The show stays
/// consistent throughout and burns itself out once launches stop.
#[test]
fn a_headless_show_burns_itself_out() {
    const SHOW: CanvasSize = CanvasSize { width: 120, height: 40 };
    let mut g = Glitters::new_seeded(2024);
    let mut timer = Timer::new();
    let mut launch_ticker = Ticker::new(1);
    let mut glitter_ticker = Ticker::new(50);
    let mut now: u64 = 0;
    for _ in 0..600 {
        now += 16;
        let dt = timer.mark_frame(now) as i64;
        if launch_ticker.ticker(now).is_some() {
            g.launch(&SHOW);
        }
        g.update_rockets(dt);
        if glitter_ticker.ticker(now).is_some() {
            g.gen_glitters(&SHOW);
        }
        g.update_glitters(dt);
    }
    assert!(g.cnt_particle() > 0, "a running show should be glowing");
    // stop launching; everything alive burns out within a few seconds
    for _ in 0..2000 {
        now += 16;
        let dt = timer.mark_frame(now) as i64;
        g.update_rockets(dt);
        g.update_glitters(dt);
    }
    assert_eq!(g.cnt_big_rocket(), 0);
    assert_eq!(g.cnt_small_rocket(), 0);
    assert_eq!(g.cnt_particle(), 0);
}

/// Drag slows a spark relative to pure gravity: after one frame a
/// horizontally launched spark's horizontal speed has lost its drag share.
#[test]
fn drag_bleeds_horizontal_speed() {
    let s = SmallRocket::new(Vec2(0, 10000), Vec2(8000, 0), amber(), 1500);
    let s2 = s.step(100);
    // drag coefficient is -0.1/1 kg/s; one tenth of a second costs 1 percent
    assert_eq!(s2.vel.0, 8000 - 80);
    // gravity pulls the vertical speed down by 0.98 m/s
    assert_eq!(s2.vel.1, -980);
    // the position advanced along the old velocity
    assert_eq!(s2.pos.0, 800);
    assert_eq!(s2.pos.1, 10000);
    // the burn budget paid for the speed flown
    assert!(s2.age < 1500);
}
