//! The entities of the display and their per-frame rules: ascending shells,
//! the sparks they explode into, the glow particles their trails leave, and
//! the manager that owns and updates all of them.

use vstd::prelude::*;

use rand::rngs::StdRng;

use crate::arg::{
    BIG_ROCKET_MASS, BIG_ROCKET_SPEED_X_MAX, BIG_ROCKET_SPEED_X_MIN, BIG_ROCKET_SPEED_Y_MAX,
    BIG_ROCKET_SPEED_Y_MIN, BIG_ROCKET_TRAIL_SPREAD, BIG_TRAIL_LIGHTNESS, DRAG_PHY,
    EXPLODE_ANGLE_MAX, EXPLODE_ANGLE_MIN, EXPLODE_EXCLUDE_ANGLE, EXPLODE_ROCKET_CNT, G_PHY,
    GLOW_FADE_RATE, LAUNCH_LIGHTNESS, LIFE_BURN_RATE, PARTICLE_AGE, SMALL_ROCKET_AGE,
    SMALL_ROCKET_MASS, SMALL_ROCKET_SPEED_MAX, SMALL_ROCKET_SPEED_MIN,
    SMALL_ROCKET_TRAIL_SPREAD, SMALL_TRAIL_LIGHTNESS_MAX, SMALL_TRAIL_LIGHTNESS_MIN,
};
use crate::color::{hsl_to_rgb, rgb_of_hsl, Hsl, Rgb};
use crate::num::{
    cos_milli, cos_spec, exp_neg_milli, exp_neg_spec, fp_add, fp_add_spec, fp_in_range,
    fp_mul_div, fp_mul_div_spec, fp_mul_milli, fp_mul_milli_spec, fp_sub, fp_sub_spec,
    isqrt_u128, lemma_fp_mul_milli_nonneg, lemma_sqrt_floor_exists, sin_milli, sin_spec,
    speed_milli, speed_spec, trunc_div, FP_SCALE, HALF_PI_MRAD,
};
use crate::rng::{rand_in_range, rng_from_seed};
use crate::{CanvasSize, col_of, row_of, Vec2};

verus! {

/// An ascending shell: launched from the ground, integrated under gravity
/// alone, and replaced by a batch of sparks the frame its climb ends.
#[derive(Clone, Copy, Debug)]
pub struct BigRocket {
    /// Position in physical space, milli-meters.
    pub pos: Vec2<i64>,
    /// Mass, grams; always `BIG_ROCKET_MASS`.
    pub mas: i64,
    /// Velocity, milli-(m/s).
    pub vel: Vec2<i64>,
    /// The color of every spark and trail sample this shell produces.
    pub color: Hsl,
    /// Half-width of the perpendicular trail fuzz, milli-meters.
    pub spread: i64,
}

/// A spark flying out of an explosion: integrated under gravity and linear
/// drag, burning through its lifespan the faster the quicker it moves.
#[derive(Clone, Copy, Debug)]
pub struct SmallRocket {
    /// Position in physical space, milli-meters.
    pub pos: Vec2<i64>,
    /// Mass, grams; always `SMALL_ROCKET_MASS`.
    pub mas: i64,
    /// Velocity, milli-(m/s).
    pub vel: Vec2<i64>,
    /// The color inherited from the exploding shell.
    pub color: Hsl,
    /// Half-width of the perpendicular trail fuzz, milli-meters.
    pub spread: i64,
    /// Remaining lifespan: a burn budget in milli-units, not wall-clock time.
    pub age: i64,
}

impl BigRocket {
    /// Fields hold representable fixed-point values and the constants of
    /// this rocket kind.
    pub open spec fn wf(&self) -> bool {
        &&& fp_in_range(self.pos.0 as int) && fp_in_range(self.pos.1 as int)
        &&& fp_in_range(self.vel.0 as int) && fp_in_range(self.vel.1 as int)
        &&& self.color.wf()
        &&& self.mas == BIG_ROCKET_MASS
        &&& self.spread == BIG_ROCKET_TRAIL_SPREAD
    }

    /// A shell assembled by hand; `Glitters::launch` draws one at random.
    pub fn new(pos: Vec2<i64>, vel: Vec2<i64>, color: Hsl) -> (b: BigRocket)
        requires
            fp_in_range(pos.0 as int) && fp_in_range(pos.1 as int),
            fp_in_range(vel.0 as int) && fp_in_range(vel.1 as int),
            color.wf(),
        ensures
            b == (BigRocket {
                pos,
                mas: BIG_ROCKET_MASS,
                vel,
                color,
                spread: BIG_ROCKET_TRAIL_SPREAD,
            }),
            b.wf(),
    {
        BigRocket { pos, mas: BIG_ROCKET_MASS, vel, color, spread: BIG_ROCKET_TRAIL_SPREAD }
    }

    /// One frame of motion: the position advances along the velocity and
    /// gravity pulls the vertical speed down; a shell feels no drag.
    pub open spec fn step_spec(self, dt: int) -> BigRocket {
        BigRocket {
            pos: Vec2(
                fp_add_spec(self.pos.0 as int, fp_mul_milli_spec(self.vel.0 as int, dt)) as i64,
                fp_add_spec(self.pos.1 as int, fp_mul_milli_spec(self.vel.1 as int, dt)) as i64,
            ),
            mas: self.mas,
            vel: Vec2(
                self.vel.0,
                fp_sub_spec(self.vel.1 as int, fp_mul_milli_spec(G_PHY as int, dt)) as i64,
            ),
            color: self.color,
            spread: self.spread,
        }
    }

    /// Integrate one frame of `dt` milliseconds, exactly per [`Self::step_spec`].
    pub fn step(&self, dt: i64) -> (b: BigRocket)
        requires
            dt >= 0,
        ensures
            b == self.step_spec(dt as int),
            self.wf() ==> b.wf(),
    {
        BigRocket {
            pos: self.pos.add(self.vel.mul(dt)),
            mas: self.mas,
            vel: Vec2(self.vel.0, fp_sub(self.vel.1, fp_mul_milli(G_PHY, dt))),
            color: self.color,
            spread: self.spread,
        }
    }

    /// Test the shell at apex and spawn its sparks: if the vertical speed
    /// has dropped to or below zero the shell explodes, appending `cnt`
    /// sparks at its position and color onto `dst`, and the result says so.
    /// A still-climbing shell leaves `dst` alone.
    pub fn explode(&self, cnt: u32, dst: &mut Vec<SmallRocket>, rng: &mut StdRng) -> (b: bool)
        requires
            self.wf(),
        ensures
            b == (self.vel.1 <= 0),
            b ==> final(dst)@.len() == old(dst)@.len() + cnt,
            !b ==> final(dst)@ == old(dst)@,
            forall|i: int| 0 <= i < old(dst)@.len() ==> final(dst)@[i] == old(dst)@[i],
            forall|i: int|
                old(dst)@.len() <= i < final(dst)@.len()
                    ==> is_spark_of(#[trigger] final(dst)@[i], *self) && final(dst)@[i].wf(),
    {
        if self.vel.1 > 0 {
            return false;
        }
        let mut k: u32 = 0;
        while k < cnt
            invariant
                k <= cnt,
                self.wf(),
                dst@.len() == old(dst)@.len() + k,
                forall|i: int| 0 <= i < old(dst)@.len() ==> dst@[i] == old(dst)@[i],
                forall|i: int|
                    old(dst)@.len() <= i < dst@.len() ==> is_spark_of(#[trigger] dst@[i], *self)
                        && dst@[i].wf(),
            decreases cnt - k,
        {
            let s = SmallRocket::from_big_rocket(self, rng);
            dst.push(s);
            k = k + 1;
        }
        true
    }
}

/// The velocity a spark gets from a direction angle (milliradians) and a
/// speed (milli-(m/s)), through the fixed-point trigonometry.
pub open spec fn spark_vel_spec(theta: int, vn: int) -> (int, int) {
    (fp_mul_milli_spec(cos_spec(theta), vn), fp_mul_milli_spec(sin_spec(theta), vn))
}

/// The velocity arises from some draw inside the configured bands: a speed
/// from the spark speed range and a direction from the full circle less the
/// excluded downward wedge.
pub open spec fn spark_vel_ok(v: Vec2<i64>) -> bool {
    exists|theta: int, vn: int|
        {
            &&& EXPLODE_ANGLE_MIN <= theta < EXPLODE_ANGLE_MAX
            &&& SMALL_ROCKET_SPEED_MIN <= vn < SMALL_ROCKET_SPEED_MAX
            &&& v.0 == #[trigger] spark_vel_spec(theta, vn).0
            &&& v.1 == spark_vel_spec(theta, vn).1
        }
}

/// What an explosion at `b` leaves in a spark: the parent's position and
/// color, spark constants, a full burn budget, and a velocity drawn from the
/// configured bands.
pub open spec fn is_spark_of(s: SmallRocket, b: BigRocket) -> bool {
    &&& s.pos == b.pos
    &&& s.color == b.color
    &&& s.mas == SMALL_ROCKET_MASS
    &&& s.spread == SMALL_ROCKET_TRAIL_SPREAD
    &&& s.age == SMALL_ROCKET_AGE
    &&& spark_vel_ok(s.vel)
}

impl SmallRocket {
    /// Fields hold representable fixed-point values, the constants of this
    /// rocket kind, and at most a full burn budget.
    pub open spec fn wf(&self) -> bool {
        &&& fp_in_range(self.pos.0 as int) && fp_in_range(self.pos.1 as int)
        &&& fp_in_range(self.vel.0 as int) && fp_in_range(self.vel.1 as int)
        &&& self.color.wf()
        &&& self.mas == SMALL_ROCKET_MASS
        &&& self.spread == SMALL_ROCKET_TRAIL_SPREAD
        &&& fp_in_range(self.age as int)
        &&& self.age <= SMALL_ROCKET_AGE
    }

    /// A spark assembled by hand, for scripted scenarios.
    pub fn new(pos: Vec2<i64>, vel: Vec2<i64>, color: Hsl, age: i64) -> (s: SmallRocket)
        requires
            fp_in_range(pos.0 as int) && fp_in_range(pos.1 as int),
            fp_in_range(vel.0 as int) && fp_in_range(vel.1 as int),
            color.wf(),
            fp_in_range(age as int),
            age <= SMALL_ROCKET_AGE,
        ensures
            s == (SmallRocket {
                pos,
                mas: SMALL_ROCKET_MASS,
                vel,
                color,
                spread: SMALL_ROCKET_TRAIL_SPREAD,
                age,
            }),
            s.wf(),
    {
        SmallRocket {
            pos,
            mas: SMALL_ROCKET_MASS,
            vel,
            color,
            spread: SMALL_ROCKET_TRAIL_SPREAD,
            age,
        }
    }

    /// A fresh spark of the exploding shell: its position and color, a full
    /// burn budget, and a velocity drawn uniformly as a speed from the spark
    /// band and a direction from the circle minus the downward wedge.
    pub fn from_big_rocket(big_rocket: &BigRocket, rng: &mut StdRng) -> (s: SmallRocket)
        requires
            big_rocket.wf(),
        ensures
            is_spark_of(s, *big_rocket),
            s.wf(),
    {
        let vn = rand_in_range(rng, SMALL_ROCKET_SPEED_MIN, SMALL_ROCKET_SPEED_MAX - 1);
        let th = rand_in_range(rng, EXPLODE_ANGLE_MIN, EXPLODE_ANGLE_MAX - 1);
        let c = cos_milli(th);
        let sn = sin_milli(th);
        let s = SmallRocket {
            pos: big_rocket.pos,
            mas: SMALL_ROCKET_MASS,
            vel: Vec2(fp_mul_milli(c, vn), fp_mul_milli(sn, vn)),
            color: big_rocket.color,
            spread: SMALL_ROCKET_TRAIL_SPREAD,
            age: SMALL_ROCKET_AGE,
        };
        proof {
            assert(s.vel.0 == spark_vel_spec(th as int, vn as int).0 && s.vel.1 == spark_vel_spec(
                th as int, vn as int).1);
        }
        s
    }

    /// The drag acceleration coefficient `-DRAG_PHY / mass`, fixed point.
    pub open spec fn drag_coef_spec(m: int) -> int
        recommends
            m >= 1,
    {
        fp_mul_div_spec(-DRAG_PHY as int, 1000, m)
    }

    /// One frame of motion: the position advances along the velocity; the
    /// velocity feels gravity and a drag acceleration of `-(DRAG_PHY/mass)`
    /// times itself; and the burn budget shrinks by `LIFE_BURN_RATE` per
    /// meter of path the new velocity covers in `dt` - the faster and hotter
    /// the spark, the sooner it burns out.
    pub open spec fn step_spec(self, dt: int) -> SmallRocket {
        let coef = Self::drag_coef_spec(self.mas as int);
        let ax = fp_mul_milli_spec(self.vel.0 as int, coef);
        let ay = fp_mul_milli_spec(self.vel.1 as int, coef);
        let vx2 = fp_add_spec(self.vel.0 as int, fp_mul_milli_spec(ax, dt));
        let vy2 = fp_add_spec(
            self.vel.1 as int,
            fp_mul_milli_spec(fp_add_spec(-G_PHY as int, ay), dt),
        );
        let burn = fp_mul_milli_spec(
            LIFE_BURN_RATE as int,
            fp_mul_milli_spec(speed_spec(vx2, vy2), dt),
        );
        SmallRocket {
            pos: Vec2(
                fp_add_spec(self.pos.0 as int, fp_mul_milli_spec(self.vel.0 as int, dt)) as i64,
                fp_add_spec(self.pos.1 as int, fp_mul_milli_spec(self.vel.1 as int, dt)) as i64,
            ),
            mas: self.mas,
            vel: Vec2(vx2 as i64, vy2 as i64),
            color: self.color,
            spread: self.spread,
            age: fp_sub_spec(self.age as int, burn) as i64,
        }
    }

    /// Integrate one frame of `dt` milliseconds, exactly per [`Self::step_spec`].
    pub fn step(&self, dt: i64) -> (s: SmallRocket)
        requires
            dt >= 0,
            self.mas >= 1,
        ensures
            s == self.step_spec(dt as int),
            self.wf() ==> (s.wf() && s.age <= self.age),
    {
        let pos2 = self.pos.add(self.vel.mul(dt));
        let coef = fp_mul_div(-DRAG_PHY, 1000, self.mas);
        let ax = fp_mul_milli(self.vel.0, coef);
        let ay = fp_mul_milli(self.vel.1, coef);
        let vx2 = fp_add(self.vel.0, fp_mul_milli(ax, dt));
        let vy2 = fp_add(self.vel.1, fp_mul_milli(fp_add(-G_PHY, ay), dt));
        let sp = speed_milli(vx2, vy2);
        let burn = fp_mul_milli(LIFE_BURN_RATE, fp_mul_milli(sp, dt));
        let age2 = fp_sub(self.age, burn);
        proof {
            assert(burn >= 0) by {
                assert(fp_mul_milli_spec(sp as int, dt as int) >= 0) by {
                    assert(sp >= 0 && dt >= 0);
                    assert(trunc_div(sp as int * dt as int, 1000) >= 0) by (nonlinear_arith)
                        requires
                            sp >= 0,
                            dt >= 0,
                    ;
                }
                assert(trunc_div(
                    LIFE_BURN_RATE as int * fp_mul_milli_spec(sp as int, dt as int),
                    1000,
                ) >= 0) by (nonlinear_arith)
                    requires
                        fp_mul_milli_spec(sp as int, dt as int) >= 0,
                ;
            }
        }
        SmallRocket {
            pos: pos2,
            mas: self.mas,
            vel: Vec2(vx2, vy2),
            color: self.color,
            spread: self.spread,
            age: age2,
        }
    }
}

/// A glowing trail sample at a display cell, with its own fade clock.
#[derive(Clone, Copy, Debug)]
pub struct Particle {
    /// The display cell the sample lights up, as column and row.
    pub pos: Vec2<u32>,
    /// The sample's color; its lightness fades frame by frame.
    pub color: Hsl,
    /// Remaining lifespan, milliseconds.
    pub age: i64,
}

/// The physical point a trail sample lands on: the rocket position pushed
/// crosswise to its motion (along the velocity turned a quarter turn) by
/// `off` milli-meters; a motionless rocket takes no offset.
pub open spec fn trail_point_spec(pos: Vec2<i64>, vel: Vec2<i64>, off: int) -> (int, int) {
    let norm = speed_spec(vel.0 as int, vel.1 as int);
    if norm == 0 {
        (pos.0 as int, pos.1 as int)
    } else {
        (
            fp_add_spec(pos.0 as int, fp_mul_div_spec(vel.1 as int, off, norm)),
            fp_add_spec(pos.1 as int, fp_mul_div_spec(fp_sub_spec(0, vel.0 as int), off, norm)),
        )
    }
}

/// The display cell of a trail sample: the offset point through the
/// coordinate mapping, or `None` off screen.
pub open spec fn trail_cell_spec(
    pos: Vec2<i64>,
    vel: Vec2<i64>,
    off: int,
    size: CanvasSize,
) -> Option<Vec2<u32>> {
    let p = trail_point_spec(pos, vel, off);
    let c = col_of(p.0);
    let w = row_of(p.1, size.height as int);
    if 0 <= c <= size.width - 1 && 0 <= w <= size.height - 1 {
        Some(Vec2(c as u32, w as u32))
    } else {
        None
    }
}

/// Compute the display cell of a trail sample, exactly per
/// [`trail_cell_spec`].
pub fn trail_cell(pos: Vec2<i64>, vel: Vec2<i64>, off: i64, size: &CanvasSize) -> (r: Option<
    Vec2<u32>,
>)
    ensures
        r == trail_cell_spec(pos, vel, off as int, *size),
{
    let norm = speed_milli(vel.0, vel.1);
    let p: Vec2<i64> = if norm == 0 {
        pos
    } else {
        Vec2(
            fp_add(pos.0, fp_mul_div(vel.1, off, norm)),
            fp_add(pos.1, fp_mul_div(fp_sub(0, vel.0), off, norm)),
        )
    };
    assert(p.0 == trail_point_spec(pos, vel, off as int).0 && p.1 == trail_point_spec(
        pos,
        vel,
        off as int,
    ).1);
    size.to_col_and_row(&p)
}

/// The lightness of a spark's trail sample: interpolated linearly between
/// the dim and bright bounds by the remaining fraction of the burn budget.
pub open spec fn small_trail_lightness_spec(age: int) -> int {
    SMALL_TRAIL_LIGHTNESS_MIN + trunc_div(
        (SMALL_TRAIL_LIGHTNESS_MAX - SMALL_TRAIL_LIGHTNESS_MIN) * age,
        SMALL_ROCKET_AGE as int,
    )
}

/// The trail sample a shell leaves for a given crosswise offset: its hue and
/// saturation at a fixed bright lightness, with a full particle lifespan;
/// nothing when the sample falls off screen.
pub open spec fn big_trail_spec(b: BigRocket, off: int, size: CanvasSize) -> Option<Particle> {
    match trail_cell_spec(b.pos, b.vel, off, size) {
        Some(cell) => Some(
            Particle {
                pos: cell,
                color: Hsl { h: b.color.h, s: b.color.s, l: BIG_TRAIL_LIGHTNESS },
                age: PARTICLE_AGE,
            },
        ),
        None => None,
    }
}

/// The trail sample a spark leaves for a given crosswise offset: its hue and
/// saturation, dimmed as the burn budget runs out, with a full particle
/// lifespan; nothing when the sample falls off screen.
pub open spec fn small_trail_spec(s: SmallRocket, off: int, size: CanvasSize) -> Option<
    Particle,
> {
    match trail_cell_spec(s.pos, s.vel, off, size) {
        Some(cell) => Some(
            Particle {
                pos: cell,
                color: Hsl {
                    h: s.color.h,
                    s: s.color.s,
                    l: small_trail_lightness_spec(s.age as int) as i64,
                },
                age: PARTICLE_AGE,
            },
        ),
        None => None,
    }
}

impl Particle {
    /// The color is well formed and the fade clock holds a representable
    /// value of at most a full lifespan.
    pub open spec fn wf(&self) -> bool {
        &&& self.color.wf()
        &&& fp_in_range(self.age as int)
        &&& self.age <= PARTICLE_AGE
    }

    /// A particle assembled by hand, for scripted scenarios.
    pub fn new(pos: Vec2<u32>, color: Hsl, age: i64) -> (p: Particle)
        requires
            color.wf(),
            fp_in_range(age as int),
            age <= PARTICLE_AGE,
        ensures
            p == (Particle { pos, color, age }),
            p.wf(),
    {
        Particle { pos, color, age }
    }

    /// The display cell this particle lights up.
    pub fn pos(&self) -> (p: Vec2<u32>)
        ensures
            p == self.pos,
    {
        self.pos
    }

    /// The particle's color, rendered to RGB.
    pub fn color(&self) -> (c: Rgb)
        requires
            self.color.wf(),
        ensures
            c == rgb_of_hsl(self.color),
    {
        hsl_to_rgb(&self.color)
    }

    /// The shell's trail sample for an already drawn offset, exactly per
    /// [`big_trail_spec`].
    pub fn from_big_rocket_at(big_rocket: &BigRocket, off: i64, size: &CanvasSize) -> (r: Option<
        Particle,
    >)
        ensures
            r == big_trail_spec(*big_rocket, off as int, *size),
            big_rocket.wf() ==> (r matches Some(p) ==> p.wf()),
    {
        match trail_cell(big_rocket.pos, big_rocket.vel, off, size) {
            Some(cell) => Some(
                Particle {
                    pos: cell,
                    color: Hsl {
                        h: big_rocket.color.h,
                        s: big_rocket.color.s,
                        l: BIG_TRAIL_LIGHTNESS,
                    },
                    age: PARTICLE_AGE,
                },
            ),
            None => None,
        }
    }

    /// Draw the crosswise offset and emit the shell's trail sample for this
    /// frame, if it lands on screen.
    pub fn try_from_big_rocket(big_rocket: &BigRocket, size: &CanvasSize, rng: &mut StdRng) -> (r:
        Option<Particle>)
        requires
            big_rocket.wf(),
        ensures
            exists|off: int|
                -BIG_ROCKET_TRAIL_SPREAD <= off < BIG_ROCKET_TRAIL_SPREAD && r
                    == #[trigger] big_trail_spec(*big_rocket, off, *size),
            r matches Some(p) ==> p.wf() && p.age == PARTICLE_AGE,
    {
        let off = rand_in_range(rng, -big_rocket.spread, big_rocket.spread - 1);
        let r = Self::from_big_rocket_at(big_rocket, off, size);
        proof {
            assert(r == big_trail_spec(*big_rocket, off as int, *size));
        }
        r
    }

    /// The spark's trail sample for an already drawn offset, exactly per
    /// [`small_trail_spec`].
    pub fn from_small_rocket_at(small_rocket: &SmallRocket, off: i64, size: &CanvasSize) -> (r:
        Option<Particle>)
        requires
            0 < small_rocket.age <= SMALL_ROCKET_AGE,
        ensures
            r == small_trail_spec(*small_rocket, off as int, *size),
            small_rocket.wf() ==> (r matches Some(p) ==> p.wf()),
    {
        let span: i64 = SMALL_TRAIL_LIGHTNESS_MAX - SMALL_TRAIL_LIGHTNESS_MIN;
        let num: i64 = span * small_rocket.age;
        let lerp: i64 = ((num as u64) / (SMALL_ROCKET_AGE as u64)) as i64;
        proof {
            vstd::arithmetic::div_mod::lemma_div_is_ordered(
                num as int,
                (span * SMALL_ROCKET_AGE) as int,
                SMALL_ROCKET_AGE as int,
            );
            vstd::arithmetic::div_mod::lemma_div_by_multiple(span as int, SMALL_ROCKET_AGE as int);
        }
        let l: i64 = SMALL_TRAIL_LIGHTNESS_MIN + lerp;
        assert(l == small_trail_lightness_spec(small_rocket.age as int));
        match trail_cell(small_rocket.pos, small_rocket.vel, off, size) {
            Some(cell) => Some(
                Particle {
                    pos: cell,
                    color: Hsl { h: small_rocket.color.h, s: small_rocket.color.s, l },
                    age: PARTICLE_AGE,
                },
            ),
            None => None,
        }
    }

    /// Draw the crosswise offset and emit the spark's trail sample for this
    /// frame, if it lands on screen.
    pub fn try_from_small_rocket(small_rocket: &SmallRocket, size: &CanvasSize, rng: &mut StdRng)
        -> (r: Option<Particle>)
        requires
            small_rocket.wf(),
            0 < small_rocket.age,
        ensures
            exists|off: int|
                -SMALL_ROCKET_TRAIL_SPREAD <= off < SMALL_ROCKET_TRAIL_SPREAD && r
                    == #[trigger] small_trail_spec(*small_rocket, off, *size),
            r matches Some(p) ==> p.wf() && p.age == PARTICLE_AGE,
    {
        let off = rand_in_range(rng, -small_rocket.spread, small_rocket.spread - 1);
        let r = Self::from_small_rocket_at(small_rocket, off, size);
        proof {
            assert(r == small_trail_spec(*small_rocket, off as int, *size));
        }
        r
    }
}

/// The shells that remain after one frame: each integrated, keeping those
/// still climbing, in order.
pub open spec fn step_bigs_spec(bigs: Seq<BigRocket>, dt: int) -> Seq<BigRocket>
    decreases bigs.len(),
{
    if bigs.len() == 0 {
        Seq::empty()
    } else {
        let pre = step_bigs_spec(bigs.drop_last(), dt);
        let b = bigs.last().step_spec(dt);
        if b.vel.1 > 0 {
            pre.push(b)
        } else {
            pre
        }
    }
}

/// The shells whose climb ends this frame: each integrated, keeping those
/// with no upward speed left, in order. These explode and leave the live
/// set, so no shell can ever explode twice.
pub open spec fn exploded_bigs_spec(bigs: Seq<BigRocket>, dt: int) -> Seq<BigRocket>
    decreases bigs.len(),
{
    if bigs.len() == 0 {
        Seq::empty()
    } else {
        let pre = exploded_bigs_spec(bigs.drop_last(), dt);
        let b = bigs.last().step_spec(dt);
        if b.vel.1 <= 0 {
            pre.push(b)
        } else {
            pre
        }
    }
}

/// The sparks that remain after one frame: each integrated, keeping those
/// with burn budget left, in order. A spark whose budget runs out is gone
/// the same frame and can never return.
pub open spec fn step_smalls_spec(smalls: Seq<SmallRocket>, dt: int) -> Seq<SmallRocket>
    decreases smalls.len(),
{
    if smalls.len() == 0 {
        Seq::empty()
    } else {
        let pre = step_smalls_spec(smalls.drop_last(), dt);
        let s = smalls.last().step_spec(dt);
        if s.age > 0 {
            pre.push(s)
        } else {
            pre
        }
    }
}

/// `spawned` is the concatenation of one explosion batch per parent, in
/// order: `EXPLODE_ROCKET_CNT` sparks each, every one a spark of its parent.
pub open spec fn is_spawn_of(spawned: Seq<SmallRocket>, parents: Seq<BigRocket>) -> bool {
    &&& spawned.len() == parents.len() * (EXPLODE_ROCKET_CNT as int)
    &&& forall|k: int|
        0 <= k < spawned.len() ==> is_spark_of(
            #[trigger] spawned[k],
            parents[k / (EXPLODE_ROCKET_CNT as int)],
        )
}

/// One frame of fading for a stored particle: the lifespan shrinks by the
/// delta, and the lightness falls by `GLOW_FADE_RATE` scaled by the
/// exponential of the remaining lifespan - an accelerating fade - clamped
/// at zero so it never goes negative. A lifespan already spent counts as
/// zero in the exponential; such a particle leaves the store this frame.
pub open spec fn decay_spec(p: Particle, dt: int) -> Particle {
    let age2 = fp_sub_spec(p.age as int, dt);
    let e = exp_neg_spec(
        if age2 < 0 {
            0
        } else {
            age2
        },
    );
    let fade = fp_mul_milli_spec(fp_mul_milli_spec(GLOW_FADE_RATE as int, e), dt);
    let l2 = if fade < p.color.l {
        p.color.l - fade
    } else {
        0
    };
    Particle {
        pos: p.pos,
        color: Hsl { h: p.color.h, s: p.color.s, l: l2 as i64 },
        age: age2 as i64,
    }
}

/// One frame of fading for one particle, exactly per [`decay_spec`].
fn decay_particle(p: &Particle, dt: i64) -> (q: Particle)
    requires
        dt >= 0,
        p.wf(),
    ensures
        q == decay_spec(*p, dt as int),
        q.wf(),
        q.age <= p.age,
        q.pos == p.pos,
{
    let age2 = fp_sub(p.age, dt);
    let earg: i64 = if age2 < 0 {
        0
    } else {
        age2
    };
    let e = exp_neg_milli(earg);
    let f1 = fp_mul_milli(GLOW_FADE_RATE, e);
    proof {
        lemma_fp_mul_milli_nonneg(GLOW_FADE_RATE as int, e as int);
    }
    let fade = fp_mul_milli(f1, dt);
    proof {
        lemma_fp_mul_milli_nonneg(f1 as int, dt as int);
    }
    let l2: i64 = if fade < p.color.l {
        p.color.l - fade
    } else {
        0
    };
    Particle { pos: p.pos, color: Hsl { h: p.color.h, s: p.color.s, l: l2 }, age: age2 }
}

/// The glow store after one frame: every particle faded per [`decay_spec`],
/// keeping those still alive, in order.
pub open spec fn step_glitters_spec(ps: Seq<Particle>, dt: int) -> Seq<Particle>
    decreases ps.len(),
{
    if ps.len() == 0 {
        Seq::empty()
    } else {
        let pre = step_glitters_spec(ps.drop_last(), dt);
        let p = decay_spec(ps.last(), dt);
        if p.age > 0 {
            pre.push(p)
        } else {
            pre
        }
    }
}

/// Some stored particle lights the cell `c`.
pub open spec fn has_coord(ps: Seq<Particle>, c: Vec2<u32>) -> bool {
    exists|i: int| 0 <= i < ps.len() && (#[trigger] ps[i]).pos == c
}

/// No two stored particles share a display cell.
pub open spec fn coords_distinct(ps: Seq<Particle>) -> bool {
    forall|i: int, j: int|
        0 <= i < j < ps.len() ==> (#[trigger] ps[i]).pos != (#[trigger] ps[j]).pos
}

/// `p` is one of the stored particles.
pub open spec fn contains_particle(ps: Seq<Particle>, p: Particle) -> bool {
    exists|i: int| 0 <= i < ps.len() && #[trigger] ps[i] == p
}

/// `p` is the trail sample of one of the listed sparks, for some crosswise
/// offset within the spark trail spread.
pub open spec fn is_fresh_small_sample(p: Particle, smalls: Seq<SmallRocket>, size: CanvasSize) -> bool {
    exists|k: int, off: int|
        0 <= k < smalls.len() && -SMALL_ROCKET_TRAIL_SPREAD <= off < SMALL_ROCKET_TRAIL_SPREAD
            && Some(p) == #[trigger] small_trail_spec(smalls[k], off, size)
}

/// `p` is the trail sample of one of the listed shells, for some crosswise
/// offset within the shell trail spread.
pub open spec fn is_fresh_big_sample(p: Particle, bigs: Seq<BigRocket>, size: CanvasSize) -> bool {
    exists|k: int, off: int|
        0 <= k < bigs.len() && -BIG_ROCKET_TRAIL_SPREAD <= off < BIG_ROCKET_TRAIL_SPREAD && Some(
            p,
        ) == #[trigger] big_trail_spec(bigs[k], off, size)
}

/// `p` is a trail sample that some listed rocket can emit this frame.
pub open spec fn is_fresh_sample(
    p: Particle,
    smalls: Seq<SmallRocket>,
    bigs: Seq<BigRocket>,
    size: CanvasSize,
) -> bool {
    ||| is_fresh_small_sample(p, smalls, size)
    ||| is_fresh_big_sample(p, bigs, size)
}

/// The index of the entry on cell `c`, where the store has one.
pub open spec fn index_of_coord(ps: Seq<Particle>, c: Vec2<u32>) -> int {
    choose|i: int| 0 <= i < ps.len() && (#[trigger] ps[i]).pos == c
}

/// The store after one write: a write to an occupied cell replaces the
/// entry in place, a write to a dark cell appends.
pub open spec fn insert_particle_spec(ps: Seq<Particle>, p: Particle) -> Seq<Particle> {
    if has_coord(ps, p.pos) {
        ps.update(index_of_coord(ps, p.pos), p)
    } else {
        ps.push(p)
    }
}

/// The store after a series of writes, applied first to last: at a cell
/// written more than once, the latest write is what remains.
pub open spec fn insert_all_spec(ps: Seq<Particle>, es: Seq<Particle>) -> Seq<Particle>
    decreases es.len(),
{
    if es.len() == 0 {
        ps
    } else {
        insert_particle_spec(insert_all_spec(ps, es.drop_last()), es.last())
    }
}

/// The store lights the cell of the trail sample `b` emits for some offset
/// within its spread; an off-screen sample asks for nothing.
pub open spec fn lights_big_sample(ps: Seq<Particle>, b: BigRocket, size: CanvasSize) -> bool {
    exists|off: int|
        #![trigger big_trail_spec(b, off, size)]
        -BIG_ROCKET_TRAIL_SPREAD <= off < BIG_ROCKET_TRAIL_SPREAD && match big_trail_spec(
            b,
            off,
            size,
        ) {
            Some(p) => has_coord(ps, p.pos),
            None => true,
        }
}

/// The store lights the cell of the trail sample `s` emits for some offset
/// within its spread; an off-screen sample asks for nothing.
pub open spec fn lights_small_sample(ps: Seq<Particle>, s: SmallRocket, size: CanvasSize) -> bool {
    exists|off: int|
        #![trigger small_trail_spec(s, off, size)]
        -SMALL_ROCKET_TRAIL_SPREAD <= off < SMALL_ROCKET_TRAIL_SPREAD && match small_trail_spec(
            s,
            off,
            size,
        ) {
            Some(p) => has_coord(ps, p.pos),
            None => true,
        }
}

/// A lit sample cell stays lit in any store that keeps every lit cell.
proof fn lemma_lights_big_preserved(
    ps1: Seq<Particle>,
    ps2: Seq<Particle>,
    b: BigRocket,
    size: CanvasSize,
)
    requires
        lights_big_sample(ps1, b, size),
        forall|c: Vec2<u32>| has_coord(ps1, c) ==> has_coord(ps2, c),
    ensures
        lights_big_sample(ps2, b, size),
{
    let off = choose|off: int|
        #![trigger big_trail_spec(b, off, size)]
        -BIG_ROCKET_TRAIL_SPREAD <= off < BIG_ROCKET_TRAIL_SPREAD && match big_trail_spec(
            b,
            off,
            size,
        ) {
            Some(p) => has_coord(ps1, p.pos),
            None => true,
        };
    match big_trail_spec(b, off, size) {
        Some(p) => {
            assert(has_coord(ps2, p.pos));
        },
        None => {},
    }
}

/// A lit sample cell stays lit in any store that keeps every lit cell.
proof fn lemma_lights_small_preserved(
    ps1: Seq<Particle>,
    ps2: Seq<Particle>,
    s: SmallRocket,
    size: CanvasSize,
)
    requires
        lights_small_sample(ps1, s, size),
        forall|c: Vec2<u32>| has_coord(ps1, c) ==> has_coord(ps2, c),
    ensures
        lights_small_sample(ps2, s, size),
{
    let off = choose|off: int|
        #![trigger small_trail_spec(s, off, size)]
        -SMALL_ROCKET_TRAIL_SPREAD <= off < SMALL_ROCKET_TRAIL_SPREAD && match small_trail_spec(
            s,
            off,
            size,
        ) {
            Some(p) => has_coord(ps1, p.pos),
            None => true,
        };
    match small_trail_spec(s, off, size) {
        Some(p) => {
            assert(has_coord(ps2, p.pos));
        },
        None => {},
    }
}

/// What a freshly launched shell looks like: on the ground somewhere across
/// the physical width, drifting slightly sideways, climbing at an ascent
/// speed from the configured band, in a color drawn from the full hue and
/// saturation bands at the fixed launch lightness.
pub open spec fn is_launch_of(b: BigRocket, size: CanvasSize) -> bool {
    &&& b.pos.1 == 0 && 0 <= b.pos.0 < size.spec_phy_width()
    &&& BIG_ROCKET_SPEED_X_MIN <= b.vel.0 < BIG_ROCKET_SPEED_X_MAX
    &&& BIG_ROCKET_SPEED_Y_MIN <= b.vel.1 < BIG_ROCKET_SPEED_Y_MAX
    &&& b.mas == BIG_ROCKET_MASS && b.spread == BIG_ROCKET_TRAIL_SPREAD
    &&& 0 <= b.color.h < 360000 && 0 <= b.color.s <= 100000 && b.color.l == LAUNCH_LIGHTNESS
}

/// Owns every live entity - shells, sparks and glow particles - and runs
/// the per-frame passes in the driver's fixed order: launch, rocket physics
/// and explosion, glow generation, glow decay. Nothing outside it holds a
/// reference to any entity.
pub struct Glitters {
    /// The shells currently climbing.
    pub big_rockets: Vec<BigRocket>,
    /// The sparks currently burning.
    pub small_rockets: Vec<SmallRocket>,
    /// The glow store: at most one entry per display cell; a later write to
    /// an occupied cell replaces the stored entry.
    pub particles: Vec<Particle>,
    /// The one pseudo-random generator every draw goes through.
    pub rng: StdRng,
}

impl Glitters {
    /// Every entity is well formed, live rockets and particles have life
    /// left, and no two particles share a display cell.
    pub open spec fn wf(&self) -> bool {
        &&& forall|i: int|
            0 <= i < self.big_rockets@.len() ==> (#[trigger] self.big_rockets@[i]).wf()
        &&& forall|i: int|
            0 <= i < self.small_rockets@.len() ==> (#[trigger] self.small_rockets@[i]).wf()
                && self.small_rockets@[i].age > 0
        &&& forall|i: int|
            0 <= i < self.particles@.len() ==> (#[trigger] self.particles@[i]).wf()
                && self.particles@[i].age > 0
        &&& coords_distinct(self.particles@)
    }

    /// An empty display with a default-seeded generator; a driver that
    /// wants a different show each run seeds through [`Self::new_seeded`].
    pub fn new() -> (g: Glitters)
        ensures
            g.wf(),
            g.big_rockets@.len() == 0,
            g.small_rockets@.len() == 0,
            g.particles@.len() == 0,
    {
        Self::new_seeded(0)
    }

    /// An empty display drawing every random value from a generator seeded
    /// with `seed`, so scripted runs can be replayed.
    pub fn new_seeded(seed: u64) -> (g: Glitters)
        ensures
            g.wf(),
            g.big_rockets@.len() == 0,
            g.small_rockets@.len() == 0,
            g.particles@.len() == 0,
    {
        Glitters {
            big_rockets: Vec::new(),
            small_rockets: Vec::new(),
            particles: Vec::new(),
            rng: rng_from_seed(seed),
        }
    }

    /// How many sparks are live, saturating at the counter's top.
    pub fn cnt_small_rocket(&self) -> (c: u32)
        ensures
            c == if self.small_rockets@.len() <= u32::MAX {
                self.small_rockets@.len() as int
            } else {
                u32::MAX as int
            },
    {
        let n: usize = self.small_rockets.len();
        if n <= u32::MAX as usize {
            n as u32
        } else {
            u32::MAX
        }
    }

    /// How many shells are live, saturating at the counter's top.
    pub fn cnt_big_rocket(&self) -> (c: u32)
        ensures
            c == if self.big_rockets@.len() <= u32::MAX {
                self.big_rockets@.len() as int
            } else {
                u32::MAX as int
            },
    {
        let n: usize = self.big_rockets.len();
        if n <= u32::MAX as usize {
            n as u32
        } else {
            u32::MAX
        }
    }

    /// How many glow particles are stored, saturating at the counter's top.
    pub fn cnt_particle(&self) -> (c: u32)
        ensures
            c == if self.particles@.len() <= u32::MAX {
                self.particles@.len() as int
            } else {
                u32::MAX as int
            },
    {
        let n: usize = self.particles.len();
        if n <= u32::MAX as usize {
            n as u32
        } else {
            u32::MAX
        }
    }

    /// Launch one shell from the ground, drawing its position, velocity and
    /// color from the configured bands. A zero-width canvas leaves no room
    /// to launch from and is ruled out as a configuration fault.
    pub fn launch(&mut self, size: &CanvasSize)
        requires
            old(self).wf(),
            size.width >= 1,
        ensures
            final(self).wf(),
            final(self).small_rockets@ == old(self).small_rockets@,
            final(self).particles@ == old(self).particles@,
            final(self).big_rockets@.len() == old(self).big_rockets@.len() + 1,
            forall|i: int|
                0 <= i < old(self).big_rockets@.len() ==> final(self).big_rockets@[i] == old(
                    self,
                ).big_rockets@[i],
            is_launch_of(final(self).big_rockets@.last(), *size),
    {
        let pw = size.phy_width();
        assert(1 <= pw <= 0xFFFF_FFFFi64 * 500);
        let px = rand_in_range(&mut self.rng, 0, pw - 1);
        let vx = rand_in_range(&mut self.rng, BIG_ROCKET_SPEED_X_MIN, BIG_ROCKET_SPEED_X_MAX - 1);
        let vy = rand_in_range(&mut self.rng, BIG_ROCKET_SPEED_Y_MIN, BIG_ROCKET_SPEED_Y_MAX - 1);
        let h = rand_in_range(&mut self.rng, 0, 359999);
        let s = rand_in_range(&mut self.rng, 0, 100000);
        let b = BigRocket::new(Vec2(px, 0), Vec2(vx, vy), Hsl { h, s, l: LAUNCH_LIGHTNESS });
        self.big_rockets.push(b);
    }

    /// One frame for the rockets: every rocket integrates by `dt`
    /// milliseconds; each shell whose climb has just ended explodes exactly
    /// once, atomically leaving the live set and appending its spark batch;
    /// each spark whose burn budget ran out leaves the set the same frame.
    /// Glow particles are untouched. The spark batches are pinned down up
    /// to the random draws inside them by the `is_spawn_of` witness.
    pub fn update_rockets(&mut self, dt: i64)
        requires
            old(self).wf(),
            dt >= 0,
        ensures
            final(self).wf(),
            final(self).particles@ == old(self).particles@,
            final(self).big_rockets@ == step_bigs_spec(old(self).big_rockets@, dt as int),
            exists|spawned: Seq<SmallRocket>|
                #[trigger] is_spawn_of(
                    spawned,
                    exploded_bigs_spec(old(self).big_rockets@, dt as int),
                ) && final(self).small_rockets@ == step_smalls_spec(
                    old(self).small_rockets@ + spawned,
                    dt as int,
                ),
    {
        let ghost obigs = self.big_rockets@;
        let ghost osmalls = self.small_rockets@;
        let ghost oparts = self.particles@;
        let ghost mut spawned: Seq<SmallRocket> = Seq::empty();
        let mut kept: Vec<BigRocket> = Vec::new();
        let n: usize = self.big_rockets.len();
        proof {
            assert(obigs.take(0) =~= Seq::<BigRocket>::empty());
            assert(osmalls + spawned =~= osmalls);
        }
        let mut i: usize = 0;
        while i < n
            invariant
                0 <= i <= n,
                n == obigs.len(),
                self.big_rockets@ == obigs,
                self.particles@ == oparts,
                dt >= 0,
                forall|k: int| 0 <= k < obigs.len() ==> (#[trigger] obigs[k]).wf(),
                kept@ == step_bigs_spec(obigs.take(i as int), dt as int),
                forall|k: int| 0 <= k < kept@.len() ==> (#[trigger] kept@[k]).wf(),
                is_spawn_of(spawned, exploded_bigs_spec(obigs.take(i as int), dt as int)),
                self.small_rockets@ == osmalls + spawned,
                forall|k: int| 0 <= k < spawned.len() ==> (#[trigger] spawned[k]).wf(),
            decreases n - i,
        {
            let b2 = self.big_rockets[i].step(dt);
            proof {
                assert(obigs.take(i as int + 1).drop_last() =~= obigs.take(i as int));
                assert(obigs.take(i as int + 1).last() == obigs[i as int]);
            }
            if b2.vel.1 > 0 {
                kept.push(b2);
            } else {
                let ghost pre_smalls = self.small_rockets@;
                let ghost parents_pre = exploded_bigs_spec(obigs.take(i as int), dt as int);
                let _ = b2.explode(EXPLODE_ROCKET_CNT, &mut self.small_rockets, &mut self.rng);
                proof {
                    let cc = EXPLODE_ROCKET_CNT as int;
                    let pp = parents_pre.len() as int;
                    let batch = self.small_rockets@.subrange(
                        pre_smalls.len() as int,
                        self.small_rockets@.len() as int,
                    );
                    assert(self.small_rockets@ =~= pre_smalls + batch);
                    let spawned2 = spawned + batch;
                    assert(self.small_rockets@ =~= osmalls + spawned2);
                    let parents2 = exploded_bigs_spec(obigs.take(i as int + 1), dt as int);
                    assert(parents2 == parents_pre.push(b2));
                    assert(spawned2.len() == (pp + 1) * cc) by {
                        assert(spawned.len() == pp * cc);
                        assert(batch.len() == cc);
                        assert(pp * cc + cc == (pp + 1) * cc) by (nonlinear_arith);
                    }
                    assert forall|k: int| 0 <= k < spawned2.len() implies is_spark_of(
                        #[trigger] spawned2[k],
                        parents2[k / cc],
                    ) by {
                        vstd::arithmetic::div_mod::lemma_div_pos_is_pos(k, cc);
                        if k < spawned.len() {
                            assert(pp * cc - 1 == cc * (pp - 1) + (cc - 1)) by (nonlinear_arith);
                            vstd::arithmetic::div_mod::lemma_div_is_ordered(k, pp * cc - 1, cc);
                            vstd::arithmetic::div_mod::lemma_div_multiples_vanish_fancy(
                                pp - 1,
                                cc - 1,
                                cc,
                            );
                            assert(k / cc < pp);
                            assert(is_spark_of(spawned[k], parents_pre[k / cc]));
                        } else {
                            assert(pp * cc == cc * pp) by (nonlinear_arith);
                            vstd::arithmetic::div_mod::lemma_div_multiples_vanish_fancy(
                                pp,
                                k - pp * cc,
                                cc,
                            );
                            assert(k / cc == pp);
                            assert(spawned2[k] == batch[k - pp * cc]);
                            assert(is_spark_of(batch[k - pp * cc], b2));
                        }
                    }
                    assert(is_spawn_of(spawned2, parents2));
                    spawned = spawned2;
                }
            }
            i = i + 1;
        }
        proof {
            assert(obigs.take(n as int) =~= obigs);
        }
        self.big_rockets = kept;
        let ghost allsmalls = self.small_rockets@;
        let mut kept_s: Vec<SmallRocket> = Vec::new();
        proof {
            assert(allsmalls.take(0) =~= Seq::<SmallRocket>::empty());
            assert(forall|k: int|
                0 <= k < allsmalls.len() ==> (#[trigger] allsmalls[k]).wf());
        }
        let m: usize = self.small_rockets.len();
        let mut j: usize = 0;
        while j < m
            invariant
                0 <= j <= m,
                m == allsmalls.len(),
                self.small_rockets@ == allsmalls,
                dt >= 0,
                forall|k: int| 0 <= k < allsmalls.len() ==> (#[trigger] allsmalls[k]).wf(),
                kept_s@ == step_smalls_spec(allsmalls.take(j as int), dt as int),
                forall|k: int|
                    0 <= k < kept_s@.len() ==> (#[trigger] kept_s@[k]).wf() && kept_s@[k].age > 0,
            decreases m - j,
        {
            let s2 = self.small_rockets[j].step(dt);
            proof {
                assert(allsmalls.take(j as int + 1).drop_last() =~= allsmalls.take(j as int));
                assert(allsmalls.take(j as int + 1).last() == allsmalls[j as int]);
            }
            if s2.age > 0 {
                kept_s.push(s2);
            }
            j = j + 1;
        }
        proof {
            assert(allsmalls.take(m as int) =~= allsmalls);
        }
        self.small_rockets = kept_s;
        proof {
            assert(is_spawn_of(spawned, exploded_bigs_spec(obigs, dt as int)));
            assert(self.small_rockets@ == step_smalls_spec(osmalls + spawned, dt as int));
        }
    }

    /// One frame of fading for the glow store: every particle decays per
    /// [`decay_spec`] - lifespan down by `dt`, lightness down by the
    /// accelerating exponential term, never below zero - and particles
    /// whose lifespan is spent leave the store the same frame. Rockets are
    /// untouched.
    pub fn update_glitters(&mut self, dt: i64)
        requires
            old(self).wf(),
            dt >= 0,
        ensures
            final(self).wf(),
            final(self).big_rockets@ == old(self).big_rockets@,
            final(self).small_rockets@ == old(self).small_rockets@,
            final(self).particles@ == step_glitters_spec(old(self).particles@, dt as int),
    {
        let ghost oparts = self.particles@;
        let mut kept: Vec<Particle> = Vec::new();
        proof {
            assert(oparts.take(0) =~= Seq::<Particle>::empty());
        }
        let m: usize = self.particles.len();
        let mut j: usize = 0;
        while j < m
            invariant
                0 <= j <= m,
                m == oparts.len(),
                self.particles@ == oparts,
                dt >= 0,
                forall|k: int|
                    0 <= k < oparts.len() ==> (#[trigger] oparts[k]).wf() && oparts[k].age > 0,
                coords_distinct(oparts),
                kept@ == step_glitters_spec(oparts.take(j as int), dt as int),
                forall|k: int|
                    0 <= k < kept@.len() ==> (#[trigger] kept@[k]).wf() && kept@[k].age > 0,
                forall|k: int|
                    0 <= k < kept@.len() ==> exists|i0: int|
                        0 <= i0 < j && (#[trigger] kept@[k]).pos == oparts[i0].pos,
                coords_distinct(kept@),
            decreases m - j,
        {
            let pj = self.particles[j];
            let p2 = decay_particle(&pj, dt);
            proof {
                assert(oparts.take(j as int + 1).drop_last() =~= oparts.take(j as int));
                assert(oparts.take(j as int + 1).last() == oparts[j as int]);
            }
            if p2.age > 0 {
                proof {
                    assert forall|k: int| 0 <= k < kept@.len() implies (#[trigger] kept@[k]).pos
                        != p2.pos by {
                        let i0 = choose|i0: int|
                            0 <= i0 < j && kept@[k].pos == oparts[i0].pos;
                        assert(oparts[i0].pos != oparts[j as int].pos);
                    }
                }
                kept.push(p2);
            }
            j = j + 1;
        }
        proof {
            assert(oparts.take(m as int) =~= oparts);
        }
        self.particles = kept;
    }

    /// Store a trail sample: a sample on an already lit cell replaces the
    /// stored entry - the newest write wins, by design - and a sample on a
    /// dark cell is appended. The store never ends up with two entries on
    /// one cell.
    pub fn insert_particle(&mut self, p: Particle)
        requires
            old(self).wf(),
            p.wf(),
            p.age > 0,
        ensures
            final(self).wf(),
            final(self).big_rockets@ == old(self).big_rockets@,
            final(self).small_rockets@ == old(self).small_rockets@,
            has_coord(final(self).particles@, p.pos),
            final(self).particles@ == insert_particle_spec(old(self).particles@, p),
            ({
                if has_coord(old(self).particles@, p.pos) {
                    &&& final(self).particles@.len() == old(self).particles@.len()
                    &&& forall|i: int|
                        0 <= i < old(self).particles@.len() && (#[trigger] old(
                            self,
                        ).particles@[i]).pos != p.pos ==> final(self).particles@[i] == old(
                            self,
                        ).particles@[i]
                    &&& forall|i: int|
                        0 <= i < old(self).particles@.len() && (#[trigger] old(
                            self,
                        ).particles@[i]).pos == p.pos ==> final(self).particles@[i] == p
                } else {
                    final(self).particles@ == old(self).particles@.push(p)
                }
            }),
    {
        let n: usize = self.particles.len();
        let mut i: usize = 0;
        while i < n
            invariant
                0 <= i <= n,
                n == self.particles@.len(),
                self == old(self),
                old(self).wf(),
                p.wf(),
                p.age > 0,
                forall|k: int| 0 <= k < i ==> (#[trigger] self.particles@[k]).pos != p.pos,
            decreases n - i,
        {
            let q = self.particles[i];
            if q.pos.0 == p.pos.0 && q.pos.1 == p.pos.1 {
                assert(q.pos == p.pos);
                self.particles[i] = p;
                proof {
                    let ps0 = old(self).particles@;
                    let ps1 = self.particles@;
                    assert(ps1 == ps0.update(i as int, p));
                    assert(ps1[i as int] == p);
                    assert(has_coord(ps0, p.pos));
                    assert(has_coord(ps1, p.pos));
                    assert forall|a: int, b: int| 0 <= a < b < ps1.len() implies (
                    #[trigger] ps1[a]).pos != (#[trigger] ps1[b]).pos by {
                        assert(ps0[a].pos != ps0[b].pos);
                        if a == i as int {
                            assert(ps1[a].pos == ps0[a].pos && ps1[b] == ps0[b]);
                        } else if b == i as int {
                            assert(ps1[b].pos == ps0[b].pos && ps1[a] == ps0[a]);
                        }
                    }
                    assert forall|k: int|
                        0 <= k < ps0.len() && (#[trigger] ps0[k]).pos == p.pos implies ps1[k]
                        == p by {
                        if k < i as int {
                            assert(ps0[k].pos != p.pos);
                        } else if k > i as int {
                            assert(ps0[i as int].pos != ps0[k].pos);
                        }
                    }
                    let i0 = index_of_coord(ps0, p.pos);
                    assert(0 <= i0 < ps0.len() && ps0[i0].pos == p.pos);
                    if i0 < i as int {
                        assert(ps0[i0].pos != ps0[i as int].pos);
                    } else if i0 > i as int {
                        assert(ps0[i as int].pos != ps0[i0].pos);
                    }
                    assert(i0 == i as int);
                    assert(ps1 == insert_particle_spec(ps0, p));
                }
                return;
            }
            i = i + 1;
        }
        self.particles.push(p);
        proof {
            assert(!has_coord(old(self).particles@, p.pos));
            assert(self.particles@[old(self).particles@.len() as int] == p);
            assert(has_coord(self.particles@, p.pos));
            assert(self.particles@ == insert_particle_spec(old(self).particles@, p));
        }
    }

    /// One frame of trail generation: every spark emits a sample with
    /// probability `sqrt(lifespan)` clamped at one - so trails thin out as
    /// a spark burns down - and every shell emits one unconditionally.
    /// Samples landing off screen are dropped; each landed sample goes
    /// through [`Self::insert_particle`], overwriting whatever its cell
    /// held. Rockets are read, never changed. The store afterwards is the
    /// old store with the pass's samples written in order - the spark pass
    /// first, the shell pass second, so at a cell written twice the later
    /// write is what remains - every previously lit cell stays lit, every
    /// shell's sample cell is lit where the sample landed on screen, and so
    /// is every spark's whose burn budget still holds a whole unit (its
    /// emission probability has reached one).
    pub fn gen_glitters(&mut self, size: &CanvasSize)
        requires
            old(self).wf(),
        ensures
            final(self).wf(),
            final(self).big_rockets@ == old(self).big_rockets@,
            final(self).small_rockets@ == old(self).small_rockets@,
            forall|c: Vec2<u32>|
                has_coord(old(self).particles@, c) ==> has_coord(final(self).particles@, c),
            forall|i: int|
                0 <= i < final(self).particles@.len() ==> contains_particle(
                    old(self).particles@,
                    #[trigger] final(self).particles@[i],
                ) || is_fresh_sample(
                    final(self).particles@[i],
                    old(self).small_rockets@,
                    old(self).big_rockets@,
                    *size,
                ),
            forall|k: int|
                0 <= k < old(self).small_rockets@.len() && (#[trigger] old(
                    self,
                ).small_rockets@[k]).age >= FP_SCALE ==> lights_small_sample(
                    final(self).particles@,
                    old(self).small_rockets@[k],
                    *size,
                ),
            forall|k: int|
                0 <= k < old(self).big_rockets@.len() ==> lights_big_sample(
                    final(self).particles@,
                    #[trigger] old(self).big_rockets@[k],
                    *size,
                ),
            exists|es: Seq<Particle>, eb: Seq<Particle>|
                {
                    &&& forall|e: int|
                        0 <= e < es.len() ==> is_fresh_small_sample(
                            #[trigger] es[e],
                            old(self).small_rockets@,
                            *size,
                        )
                    &&& forall|e: int|
                        0 <= e < eb.len() ==> is_fresh_big_sample(
                            #[trigger] eb[e],
                            old(self).big_rockets@,
                            *size,
                        )
                    &&& final(self).particles@ == #[trigger] insert_all_spec(
                        old(self).particles@,
                        es + eb,
                    )
                },
    {
        let ghost oparts = self.particles@;
        let ghost obigs = self.big_rockets@;
        let ghost osmalls = self.small_rockets@;
        let ghost mut emitted_s: Seq<Particle> = Seq::empty();
        proof {
            assert(insert_all_spec(oparts, emitted_s) == oparts);
        }
        let ns: usize = self.small_rockets.len();
        let mut i: usize = 0;
        while i < ns
            invariant
                0 <= i <= ns,
                ns == osmalls.len(),
                self.wf(),
                self.big_rockets@ == obigs,
                self.small_rockets@ == osmalls,
                self.particles@ == insert_all_spec(oparts, emitted_s),
                forall|e: int|
                    0 <= e < emitted_s.len() ==> is_fresh_small_sample(
                        #[trigger] emitted_s[e],
                        osmalls,
                        *size,
                    ),
                forall|c: Vec2<u32>|
                    has_coord(oparts, c) ==> has_coord(self.particles@, c),
                forall|k: int|
                    0 <= k < self.particles@.len() ==> contains_particle(
                        oparts,
                        #[trigger] self.particles@[k],
                    ) || is_fresh_sample(self.particles@[k], osmalls, obigs, *size),
                forall|k: int|
                    0 <= k < i && (#[trigger] osmalls[k]).age >= FP_SCALE
                        ==> lights_small_sample(self.particles@, osmalls[k], *size),
            decreases ns - i,
        {
            let s = self.small_rockets[i];
            let ghost pre = self.particles@;
            let sq = isqrt_u128((s.age as u128) * 1000);
            let prob: i64 = if sq > 1000 {
                1000
            } else {
                proof {
                    assert(sq * sq <= (s.age as u128) * 1000);
                    assert(sq <= 1000);
                }
                sq as i64
            };
            let u = rand_in_range(&mut self.rng, 0, 999);
            if u < prob {
                let emitted = Particle::try_from_small_rocket(&s, size, &mut self.rng);
                match emitted {
                    Some(part) => {
                        proof {
                            let off = choose|off: int|
                                -SMALL_ROCKET_TRAIL_SPREAD <= off < SMALL_ROCKET_TRAIL_SPREAD
                                    && emitted == #[trigger] small_trail_spec(s, off, *size);
                            assert(osmalls[i as int] == s);
                            assert(Some(part) == small_trail_spec(osmalls[i as int], off, *size));
                            assert(is_fresh_small_sample(part, osmalls, *size));
                            assert(is_fresh_sample(part, osmalls, obigs, *size));
                        }
                        self.insert_here(part, Ghost(oparts), Ghost(osmalls), Ghost(obigs),
                            Ghost(*size));
                        proof {
                            let off = choose|off: int|
                                -SMALL_ROCKET_TRAIL_SPREAD <= off < SMALL_ROCKET_TRAIL_SPREAD
                                    && emitted == #[trigger] small_trail_spec(s, off, *size);
                            assert(has_coord(self.particles@, part.pos));
                            assert(lights_small_sample(self.particles@, s, *size));
                            assert((emitted_s.push(part)).drop_last() =~= emitted_s);
                            assert((emitted_s.push(part)).last() == part);
                            assert(self.particles@ == insert_all_spec(
                                oparts,
                                emitted_s.push(part),
                            ));
                            emitted_s = emitted_s.push(part);
                        }
                    },
                    None => {
                        proof {
                            let off = choose|off: int|
                                -SMALL_ROCKET_TRAIL_SPREAD <= off < SMALL_ROCKET_TRAIL_SPREAD
                                    && emitted == #[trigger] small_trail_spec(s, off, *size);
                            assert(small_trail_spec(s, off, *size) is None);
                            assert(lights_small_sample(self.particles@, s, *size));
                        }
                    },
                }
            } else {
                proof {
                    // a spark with a whole unit of budget always attempts:
                    // its probability gate is fully open
                    if s.age >= FP_SCALE {
                        assert((s.age as u128) * 1000 >= 1000000) by (nonlinear_arith)
                            requires
                                s.age >= 1000,
                        ;
                        let sqi = sq as int;
                        assert((sqi + 1) * (sqi + 1) > 1000000);
                        assert(sqi >= 1000) by (nonlinear_arith)
                            requires
                                (sqi + 1) * (sqi + 1) > 1000000,
                                sqi >= 0,
                        ;
                        assert(false);
                    }
                }
            }
            proof {
                assert forall|k: int|
                    0 <= k < i + 1 && (#[trigger] osmalls[k]).age >= FP_SCALE
                        implies lights_small_sample(self.particles@, osmalls[k], *size) by {
                    if k < i {
                        lemma_lights_small_preserved(pre, self.particles@, osmalls[k], *size);
                    } else {
                        assert(osmalls[k] == s);
                    }
                }
            }
            i = i + 1;
        }
        let ghost mut emitted_b: Seq<Particle> = Seq::empty();
        proof {
            assert(emitted_s + emitted_b =~= emitted_s);
        }
        let nb: usize = self.big_rockets.len();
        let mut j: usize = 0;
        while j < nb
            invariant
                0 <= j <= nb,
                nb == obigs.len(),
                self.wf(),
                self.big_rockets@ == obigs,
                self.small_rockets@ == osmalls,
                self.particles@ == insert_all_spec(oparts, emitted_s + emitted_b),
                forall|e: int|
                    0 <= e < emitted_s.len() ==> is_fresh_small_sample(
                        #[trigger] emitted_s[e],
                        osmalls,
                        *size,
                    ),
                forall|e: int|
                    0 <= e < emitted_b.len() ==> is_fresh_big_sample(
                        #[trigger] emitted_b[e],
                        obigs,
                        *size,
                    ),
                forall|c: Vec2<u32>|
                    has_coord(oparts, c) ==> has_coord(self.particles@, c),
                forall|k: int|
                    0 <= k < self.particles@.len() ==> contains_particle(
                        oparts,
                        #[trigger] self.particles@[k],
                    ) || is_fresh_sample(self.particles@[k], osmalls, obigs, *size),
                forall|k: int|
                    0 <= k < osmalls.len() && (#[trigger] osmalls[k]).age >= FP_SCALE
                        ==> lights_small_sample(self.particles@, osmalls[k], *size),
                forall|k: int|
                    0 <= k < j ==> lights_big_sample(
                        self.particles@,
                        #[trigger] obigs[k],
                        *size,
                    ),
            decreases nb - j,
        {
            let b = self.big_rockets[j];
            let ghost pre = self.particles@;
            let emitted = Particle::try_from_big_rocket(&b, size, &mut self.rng);
            match emitted {
                Some(part) => {
                    proof {
                        let off = choose|off: int|
                            -BIG_ROCKET_TRAIL_SPREAD <= off < BIG_ROCKET_TRAIL_SPREAD && emitted
                                == #[trigger] big_trail_spec(b, off, *size);
                        assert(obigs[j as int] == b);
                        assert(Some(part) == big_trail_spec(obigs[j as int], off, *size));
                        assert(is_fresh_big_sample(part, obigs, *size));
                        assert(is_fresh_sample(part, osmalls, obigs, *size));
                    }
                    self.insert_here(part, Ghost(oparts), Ghost(osmalls), Ghost(obigs),
                        Ghost(*size));
                    proof {
                        let off = choose|off: int|
                            -BIG_ROCKET_TRAIL_SPREAD <= off < BIG_ROCKET_TRAIL_SPREAD && emitted
                                == #[trigger] big_trail_spec(b, off, *size);
                        assert(has_coord(self.particles@, part.pos));
                        assert(lights_big_sample(self.particles@, b, *size));
                        assert(emitted_s + emitted_b.push(part) =~= (emitted_s
                            + emitted_b).push(part));
                        assert(((emitted_s + emitted_b).push(part)).drop_last() =~= emitted_s
                            + emitted_b);
                        assert(((emitted_s + emitted_b).push(part)).last() == part);
                        assert(self.particles@ == insert_all_spec(
                            oparts,
                            emitted_s + emitted_b.push(part),
                        ));
                        emitted_b = emitted_b.push(part);
                    }
                },
                None => {
                    proof {
                        let off = choose|off: int|
                            -BIG_ROCKET_TRAIL_SPREAD <= off < BIG_ROCKET_TRAIL_SPREAD && emitted
                                == #[trigger] big_trail_spec(b, off, *size);
                        assert(big_trail_spec(b, off, *size) is None);
                        assert(lights_big_sample(self.particles@, b, *size));
                    }
                },
            }
            proof {
                assert forall|k: int|
                    0 <= k < osmalls.len() && (#[trigger] osmalls[k]).age >= FP_SCALE
                        implies lights_small_sample(self.particles@, osmalls[k], *size) by {
                    lemma_lights_small_preserved(pre, self.particles@, osmalls[k], *size);
                }
                assert forall|k: int| 0 <= k < j + 1 implies lights_big_sample(
                    self.particles@,
                    #[trigger] obigs[k],
                    *size,
                ) by {
                    if k < j {
                        lemma_lights_big_preserved(pre, self.particles@, obigs[k], *size);
                    } else {
                        assert(obigs[k] == b);
                    }
                }
            }
            j = j + 1;
        }
    }

    /// Store one freshly emitted sample during a generation pass, keeping
    /// the pass's bookkeeping: every lit cell stays lit, the sample's own
    /// cell is lit afterwards, the store advances by exactly one write of
    /// the fold, and every entry is an original or a sample some live
    /// rocket can emit.
    fn insert_here(
        &mut self,
        p: Particle,
        Ghost(oparts): Ghost<Seq<Particle>>,
        Ghost(osmalls): Ghost<Seq<SmallRocket>>,
        Ghost(obigs): Ghost<Seq<BigRocket>>,
        Ghost(size): Ghost<CanvasSize>,
    )
        requires
            old(self).wf(),
            p.wf(),
            p.age > 0,
            is_fresh_sample(p, osmalls, obigs, size),
            forall|k: int|
                0 <= k < old(self).particles@.len() ==> contains_particle(
                    oparts,
                    #[trigger] old(self).particles@[k],
                ) || is_fresh_sample(old(self).particles@[k], osmalls, obigs, size),
        ensures
            final(self).wf(),
            final(self).big_rockets@ == old(self).big_rockets@,
            final(self).small_rockets@ == old(self).small_rockets@,
            final(self).particles@ == insert_particle_spec(old(self).particles@, p),
            has_coord(final(self).particles@, p.pos),
            forall|c: Vec2<u32>|
                has_coord(old(self).particles@, c) ==> has_coord(final(self).particles@, c),
            forall|k: int|
                0 <= k < final(self).particles@.len() ==> contains_particle(
                    oparts,
                    #[trigger] final(self).particles@[k],
                ) || is_fresh_sample(final(self).particles@[k], osmalls, obigs, size),
    {
        let ghost pre = self.particles@;
        self.insert_particle(p);
        proof {
            if has_coord(pre, p.pos) {
                assert forall|c: Vec2<u32>| has_coord(pre, c) implies has_coord(
                    self.particles@,
                    c,
                ) by {
                    let i0 = choose|i0: int| 0 <= i0 < pre.len() && (#[trigger] pre[i0]).pos == c;
                    if pre[i0].pos == p.pos {
                        assert(self.particles@[i0] == p);
                        assert(self.particles@[i0].pos == c);
                    } else {
                        assert(self.particles@[i0] == pre[i0]);
                    }
                }
                assert forall|k: int| 0 <= k < self.particles@.len() implies contains_particle(
                    oparts,
                    #[trigger] self.particles@[k],
                ) || is_fresh_sample(self.particles@[k], osmalls, obigs, size) by {
                    if pre[k].pos == p.pos {
                        assert(self.particles@[k] == p);
                    } else {
                        assert(self.particles@[k] == pre[k]);
                    }
                }
            } else {
                assert forall|c: Vec2<u32>| has_coord(pre, c) implies has_coord(
                    self.particles@,
                    c,
                ) by {
                    let i0 = choose|i0: int| 0 <= i0 < pre.len() && (#[trigger] pre[i0]).pos == c;
                    assert(self.particles@[i0] == pre[i0]);
                }
                assert forall|k: int| 0 <= k < self.particles@.len() implies contains_particle(
                    oparts,
                    #[trigger] self.particles@[k],
                ) || is_fresh_sample(self.particles@[k], osmalls, obigs, size) by {
                    if k < pre.len() {
                        assert(self.particles@[k] == pre[k]);
                    } else {
                        assert(self.particles@[k] == p);
                    }
                }
            }
        }
    }

    /// A snapshot for the renderer: every stored particle's display cell
    /// paired with its color rendered to RGB, in store order.
    pub fn iter(&self) -> (v: Vec<(Vec2<u32>, Rgb)>)
        requires
            self.wf(),
        ensures
            v@.len() == self.particles@.len(),
            forall|i: int|
                0 <= i < v@.len() ==> (#[trigger] v@[i]).0 == self.particles@[i].pos && v@[i].1
                    == rgb_of_hsl(self.particles@[i].color),
    {
        let mut v: Vec<(Vec2<u32>, Rgb)> = Vec::new();
        let n: usize = self.particles.len();
        let mut i: usize = 0;
        while i < n
            invariant
                0 <= i <= n,
                n == self.particles@.len(),
                self.wf(),
                v@.len() == i,
                forall|k: int|
                    0 <= k < i ==> (#[trigger] v@[k]).0 == self.particles@[k].pos && v@[k].1
                        == rgb_of_hsl(self.particles@[k].color),
            decreases n - i,
        {
            let p = self.particles[i];
            let c = hsl_to_rgb(&p.color);
            v.push((p.pos, c));
            i = i + 1;
        }
        v
    }

    /// Add a shell assembled by hand, for scripted scenarios.
    pub fn launch_big_rocket(&mut self, b: BigRocket)
        requires
            old(self).wf(),
            b.wf(),
        ensures
            final(self).wf(),
            final(self).big_rockets@ == old(self).big_rockets@.push(b),
            final(self).small_rockets@ == old(self).small_rockets@,
            final(self).particles@ == old(self).particles@,
    {
        self.big_rockets.push(b);
    }
}

/// Law: one update pass sorts every shell into exactly one of two sets -
/// still climbing and kept, or out of climb and exploded - and each set
/// holds only what its test admits.
pub proof fn lemma_step_bigs_partition(bigs: Seq<BigRocket>, dt: int)
    ensures
        step_bigs_spec(bigs, dt).len() + exploded_bigs_spec(bigs, dt).len() == bigs.len(),
        forall|i: int|
            0 <= i < step_bigs_spec(bigs, dt).len() ==> (#[trigger] step_bigs_spec(
                bigs,
                dt,
            )[i]).vel.1 > 0,
        forall|i: int|
            0 <= i < exploded_bigs_spec(bigs, dt).len() ==> (#[trigger] exploded_bigs_spec(
                bigs,
                dt,
            )[i]).vel.1 <= 0,
    decreases bigs.len(),
{
    if bigs.len() > 0 {
        lemma_step_bigs_partition(bigs.drop_last(), dt);
    }
}

/// Law: for any frame delta, a shell that still climbs once integrated is
/// not exploded - it stays in the live set - while a shell whose vertical
/// speed has run out leaves the live set and explodes, appearing among the
/// exploded shells; it can do neither twice, since the two sets exclude
/// each other and the next frame only ever sees the live set.
pub proof fn lemma_shell_explodes_exactly_once(bigs: Seq<BigRocket>, dt: int, k: int)
    requires
        0 <= k < bigs.len(),
    ensures
        bigs[k].step_spec(dt).vel.1 > 0 ==> step_bigs_spec(bigs, dt).contains(
            bigs[k].step_spec(dt),
        ) && !exploded_bigs_spec(bigs, dt).contains(bigs[k].step_spec(dt)),
        bigs[k].step_spec(dt).vel.1 <= 0 ==> exploded_bigs_spec(bigs, dt).contains(
            bigs[k].step_spec(dt),
        ) && !step_bigs_spec(bigs, dt).contains(bigs[k].step_spec(dt)),
    decreases bigs.len(),
{
    lemma_step_bigs_partition(bigs, dt);
    let b = bigs[k].step_spec(dt);
    let live = step_bigs_spec(bigs, dt);
    let gone = exploded_bigs_spec(bigs, dt);
    if k == bigs.len() - 1 {
        assert(bigs.last() == bigs[k]);
        if b.vel.1 > 0 {
            assert(live.last() == b);
            assert(live.contains(b));
        } else {
            assert(gone.last() == b);
            assert(gone.contains(b));
        }
    } else {
        let pre = bigs.drop_last();
        lemma_shell_explodes_exactly_once(pre, dt, k);
        assert(pre[k] == bigs[k]);
        let lb = bigs.last().step_spec(dt);
        if b.vel.1 > 0 {
            let i0 = choose|i0: int|
                0 <= i0 < step_bigs_spec(pre, dt).len() && step_bigs_spec(pre, dt)[i0] == b;
            assert(live[i0] == b);
            assert(live.contains(b));
        } else {
            let i0 = choose|i0: int|
                0 <= i0 < exploded_bigs_spec(pre, dt).len() && exploded_bigs_spec(pre, dt)[i0]
                    == b;
            assert(gone[i0] == b);
            assert(gone.contains(b));
        }
    }
    if b.vel.1 > 0 && gone.contains(b) {
        let i0 = choose|i0: int| 0 <= i0 < gone.len() && gone[i0] == b;
        assert(gone[i0].vel.1 <= 0);
    }
    if b.vel.1 <= 0 && live.contains(b) {
        let i0 = choose|i0: int| 0 <= i0 < live.len() && live[i0] == b;
        assert(live[i0].vel.1 > 0);
    }
}

/// Law: a spark's lifespan never grows in a frame; the burn term is
/// non-negative whatever the velocity, so integration only spends budget.
pub proof fn lemma_spark_lifespan_monotone(s: SmallRocket, dt: int)
    requires
        fp_in_range(s.age as int),
        dt >= 0,
    ensures
        s.step_spec(dt).age <= s.age,
{
    let coef = SmallRocket::drag_coef_spec(s.mas as int);
    let ax = fp_mul_milli_spec(s.vel.0 as int, coef);
    let ay = fp_mul_milli_spec(s.vel.1 as int, coef);
    let vx2 = fp_add_spec(s.vel.0 as int, fp_mul_milli_spec(ax, dt));
    let vy2 = fp_add_spec(s.vel.1 as int, fp_mul_milli_spec(fp_add_spec(-G_PHY as int, ay), dt));
    assert(vx2 * vx2 + vy2 * vy2 >= 0) by (nonlinear_arith);
    lemma_sqrt_floor_exists(vx2 * vx2 + vy2 * vy2);
    let sp = speed_spec(vx2, vy2);
    assert(sp >= 0);
    lemma_fp_mul_milli_nonneg(sp, dt);
    lemma_fp_mul_milli_nonneg(LIFE_BURN_RATE as int, fp_mul_milli_spec(sp, dt));
}

/// Law: every spark that survives an update pass has burn budget left.
pub proof fn lemma_step_smalls_alive(smalls: Seq<SmallRocket>, dt: int)
    ensures
        forall|i: int|
            0 <= i < step_smalls_spec(smalls, dt).len() ==> (#[trigger] step_smalls_spec(
                smalls,
                dt,
            )[i]).age > 0,
    decreases smalls.len(),
{
    if smalls.len() > 0 {
        lemma_step_smalls_alive(smalls.drop_last(), dt);
        let pre = step_smalls_spec(smalls.drop_last(), dt);
        let live = step_smalls_spec(smalls, dt);
        let l2 = smalls.last().step_spec(dt);
        assert forall|i: int| 0 <= i < live.len() implies (#[trigger] live[i]).age > 0 by {
            if i < pre.len() {
                assert(live[i] == pre[i]);
            } else {
                assert(live[i] == l2);
            }
        }
    }
}

/// Law: a spark whose budget is spent after integration is not among the
/// survivors - it is removed the very frame it dies, and the next frame
/// only ever sees the survivors - while a spark with budget left stays.
pub proof fn lemma_spent_spark_removed(smalls: Seq<SmallRocket>, dt: int, k: int)
    requires
        0 <= k < smalls.len(),
    ensures
        smalls[k].step_spec(dt).age > 0 ==> step_smalls_spec(smalls, dt).contains(
            smalls[k].step_spec(dt),
        ),
        smalls[k].step_spec(dt).age <= 0 ==> !step_smalls_spec(smalls, dt).contains(
            smalls[k].step_spec(dt),
        ),
    decreases smalls.len(),
{
    lemma_step_smalls_alive(smalls, dt);
    let s2 = smalls[k].step_spec(dt);
    let live = step_smalls_spec(smalls, dt);
    if k == smalls.len() - 1 {
        if s2.age > 0 {
            assert(live.last() == s2);
            assert(live.contains(s2));
        }
    } else {
        lemma_spent_spark_removed(smalls.drop_last(), dt, k);
        assert(smalls.drop_last()[k] == smalls[k]);
        if s2.age > 0 {
            let pre = step_smalls_spec(smalls.drop_last(), dt);
            let i0 = choose|i0: int| 0 <= i0 < pre.len() && pre[i0] == s2;
            assert(live[i0] == s2);
            assert(live.contains(s2));
        }
    }
    if s2.age <= 0 && live.contains(s2) {
        let i0 = choose|i0: int| 0 <= i0 < live.len() && live[i0] == s2;
        assert(live[i0].age > 0);
    }
}

/// Law: the glow store never holds two entries on the same display cell;
/// the manager's invariant says so, and every update and insert keeps it.
pub proof fn lemma_store_cells_unique(g: Glitters, i: int, j: int)
    requires
        g.wf(),
        0 <= i < g.particles@.len(),
        0 <= j < g.particles@.len(),
        i != j,
    ensures
        g.particles@[i].pos != g.particles@[j].pos,
{
}

/// Law: every angle in the spark sampling band keeps more than half the
/// excluded wedge away from straight down, whether the downward vertical is
/// written as a quarter turn below zero or three quarter turns above it -
/// no spark direction is ever drawn inside the wedge.
pub proof fn lemma_sample_band_avoids_wedge(theta: int)
    requires
        EXPLODE_ANGLE_MIN <= theta < EXPLODE_ANGLE_MAX,
    ensures
        2 * (theta - (-HALF_PI_MRAD)) > EXPLODE_EXCLUDE_ANGLE,
        2 * (3 * HALF_PI_MRAD - theta) > EXPLODE_EXCLUDE_ANGLE,
{
}

} // verus!
