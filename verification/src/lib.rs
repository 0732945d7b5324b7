//! A terminal fireworks simulation engine.
//!
//! Rockets launch, arc under gravity, explode at apex into sparks, and sparks
//! paint fading glow trails onto a discrete character grid. The engine is the
//! verified part: entity physics, the explosion and trail-generation rules,
//! the deduplicating particle store, and the mapping from continuous physical
//! space to display cells. Terminal input and output live outside it.
//!
//! All continuous quantities are fixed-point integers in milli-units (see
//! [`num`]), so each frame step is a total, exactly specified function of the
//! previous state, the frame delta, and the random draws made during it.

use vstd::prelude::*;

pub mod arg;
pub mod color;
pub mod num;
pub mod rng;
pub mod rocket;
pub mod time;

use crate::num::{fp_add, fp_add_spec, fp_mul_milli, fp_mul_milli_spec};

verus! {

/// A two-component vector; `Vec2<i64>` is a fixed-point point or velocity in
/// physical space, `Vec2<u32>` a display cell as column and row.
#[derive(Clone, Copy, Debug)]
pub struct Vec2<T>(pub T, pub T);

impl Vec2<i64> {
    /// Component-wise saturating sum.
    pub fn add(self, rhs: Vec2<i64>) -> (r: Vec2<i64>)
        ensures
            r.0 == fp_add_spec(self.0 as int, rhs.0 as int),
            r.1 == fp_add_spec(self.1 as int, rhs.1 as int),
    {
        Vec2(fp_add(self.0, rhs.0), fp_add(self.1, rhs.1))
    }

    /// Scale by a fixed-point factor, saturating.
    pub fn mul(self, rhs: i64) -> (r: Vec2<i64>)
        ensures
            r.0 == fp_mul_milli_spec(self.0 as int, rhs as int),
            r.1 == fp_mul_milli_spec(self.1 as int, rhs as int),
    {
        Vec2(fp_mul_milli(self.0, rhs), fp_mul_milli(self.1, rhs))
    }

    /// Component-wise saturating sum, in place.
    pub fn add_assign(&mut self, rhs: Vec2<i64>)
        ensures
            final(self).0 == fp_add_spec(old(self).0 as int, rhs.0 as int),
            final(self).1 == fp_add_spec(old(self).1 as int, rhs.1 as int),
    {
        *self = self.add(rhs);
    }
}

/// Round a milli-unit value to the nearest whole unit, ties away from zero.
pub open spec fn round_milli(v: int) -> int {
    if v >= 0 {
        (v + 500) / 1000
    } else {
        -((-v + 500) / 1000)
    }
}

/// The display column a physical x-coordinate falls on. A character cell is
/// half as wide as it is tall, so physical space is stretched by two.
pub open spec fn col_of(x: int) -> int {
    round_milli(2 * x)
}

/// The display row a physical y-coordinate falls on. The physical origin is
/// at the bottom left, the display origin at the top left, so y is flipped.
pub open spec fn row_of(y: int, height: int) -> int {
    height - round_milli(y)
}

/// The size of the display surface, in character cells. The driver queries
/// the terminal each frame and hands the current size in; nothing is cached,
/// so a resize simply shows up in the next call.
#[derive(Clone, Copy, Debug)]
pub struct CanvasSize {
    pub width: u32,
    pub height: u32,
}

impl CanvasSize {
    /// The physical width, in milli-meters: one meter spans two columns.
    pub open spec fn spec_phy_width(&self) -> int {
        self.width * 500
    }

    /// The physical height, in milli-meters: one meter spans one row.
    pub open spec fn spec_phy_height(&self) -> int {
        self.height * 1000
    }

    /// The physical width of the canvas.
    pub fn phy_width(&self) -> (w: i64)
        ensures
            w == self.spec_phy_width(),
    {
        (self.width as i64) * 500
    }

    /// The physical height of the canvas.
    pub fn phy_height(&self) -> (h: i64)
        ensures
            h == self.spec_phy_height(),
    {
        (self.height as i64) * 1000
    }

    /// Map a physical position to the display cell it falls on, or `None` if
    /// it lies off screen; off-screen samples are dropped, never clamped.
    pub fn to_col_and_row(&self, pos: &Vec2<i64>) -> (r: Option<Vec2<u32>>)
        ensures
            ({
                let c = col_of(pos.0 as int);
                let w = row_of(pos.1 as int, self.height as int);
                if 0 <= c <= self.width - 1 && 0 <= w <= self.height - 1 {
                    r == Some(Vec2(c as u32, w as u32))
                } else {
                    r is None
                }
            }),
    {
        let c: i128 = round_milli_i128(2 * (pos.0 as i128));
        if !(0 <= c && c <= self.width as i128 - 1) {
            return None;
        }
        let w: i128 = self.height as i128 - round_milli_i128(pos.1 as i128);
        if !(0 <= w && w <= self.height as i128 - 1) {
            return None;
        }
        Some(Vec2(c as u32, w as u32))
    }
}

/// Round a milli-unit value to the nearest whole unit, ties away from zero.
fn round_milli_i128(v: i128) -> (r: i128)
    requires
        -0x4000_0000_0000_0000_0000_0000_0000_0000 < v,
        v < 0x4000_0000_0000_0000_0000_0000_0000_0000,
    ensures
        r == round_milli(v as int),
{
    if v >= 0 {
        (((v as u128) + 500) / 1000) as i128
    } else {
        let m: i128 = -v;
        -((((m as u128) + 500) / 1000) as i128)
    }
}

} // verus!
