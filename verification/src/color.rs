//! Color arithmetic: HSL, the working space of the simulation, and RGB,
//! what the renderer consumes.
//!
//! Hue is held in milli-degrees (`0..360000`), saturation and lightness in
//! milli-percent (`0..=100000`). The conversion to RGB is the usual
//! hue-sextant construction, carried out in integers with each division
//! rounding down, and is specified exactly by [`rgb_of_hsl`].

use vstd::prelude::*;

verus! {

/// The magnitude of an integer.
pub open spec fn iabs(x: int) -> int {
    if x >= 0 {
        x
    } else {
        -x
    }
}

/// A color as hue, saturation and lightness.
#[derive(Clone, Copy, Debug)]
pub struct Hsl {
    /// Hue, milli-degrees in `0..360000`.
    pub h: i64,
    /// Saturation, milli-percent in `0..=100000`.
    pub s: i64,
    /// Lightness, milli-percent in `0..=100000`.
    pub l: i64,
}

impl Hsl {
    /// The components lie in their documented ranges.
    pub open spec fn wf(&self) -> bool {
        &&& 0 <= self.h < 360000
        &&& 0 <= self.s <= 100000
        &&& 0 <= self.l <= 100000
    }
}

/// A color as one byte per red, green and blue channel.
#[derive(Clone, Copy, Debug, PartialEq, Eq, Structural)]
pub struct Rgb {
    pub r: u8,
    pub g: u8,
    pub b: u8,
}

/// The RGB rendering of an HSL color: chroma from saturation and lightness,
/// a secondary channel from the position within the hue sextant, and the
/// lightness remainder added onto every channel.
pub open spec fn rgb_of_hsl(c: Hsl) -> Rgb {
    let s1 = c.s / 100;
    let l1 = c.l / 100;
    let ch = ((1000 - iabs(2 * l1 - 1000)) * s1) / 1000;
    let xv = (ch * (1000 - iabs((c.h / 60) % 2000 - 1000))) / 1000;
    let m = l1 - ch / 2;
    let sext = c.h / 60000;
    let base = if sext == 0 {
        (ch, xv, 0int)
    } else if sext == 1 {
        (xv, ch, 0int)
    } else if sext == 2 {
        (0int, ch, xv)
    } else if sext == 3 {
        (0int, xv, ch)
    } else if sext == 4 {
        (xv, 0int, ch)
    } else {
        (ch, 0int, xv)
    };
    Rgb {
        r: (((base.0 + m) * 255) / 1000) as u8,
        g: (((base.1 + m) * 255) / 1000) as u8,
        b: (((base.2 + m) * 255) / 1000) as u8,
    }
}

fn channel_byte(v: u64, m: u64) -> (b: u8)
    requires
        v + m <= 1000,
    ensures
        b == ((v + m) * 255) / 1000,
{
    proof {
        assert((v + m) * 255 <= 255000) by (nonlinear_arith)
            requires
                v + m <= 1000,
        ;
        vstd::arithmetic::div_mod::lemma_div_is_ordered((v + m) * 255, 255000, 1000);
    }
    (((v + m) * 255) / 1000) as u8
}

/// Convert an HSL color to RGB, exactly as [`rgb_of_hsl`] states.
pub fn hsl_to_rgb(c: &Hsl) -> (r: Rgb)
    requires
        c.wf(),
    ensures
        r == rgb_of_hsl(*c),
{
    let s1: u64 = (c.s as u64) / 100;
    let l1: u64 = (c.l as u64) / 100;
    proof {
        vstd::arithmetic::div_mod::lemma_div_is_ordered(c.s as int, 100000, 100);
        vstd::arithmetic::div_mod::lemma_div_is_ordered(c.l as int, 100000, 100);
    }
    let a: u64 = if 2 * l1 >= 1000 {
        2 * l1 - 1000
    } else {
        1000 - 2 * l1
    };
    assert(a == iabs(2 * l1 - 1000) && a <= 1000);
    proof {
        assert((1000 - a) * s1 <= (1000 - a) * 1000) by (nonlinear_arith)
            requires
                0 <= a <= 1000,
                0 <= s1 <= 1000,
        ;
        vstd::arithmetic::div_mod::lemma_div_is_ordered(
            ((1000 - a) * s1) as int, ((1000 - a) * 1000) as int, 1000);
        vstd::arithmetic::div_mod::lemma_div_by_multiple((1000 - a) as int, 1000);
    }
    let ch: u64 = ((1000 - a) * s1) / 1000;
    assert(ch <= 1000 - a);
    let hs: u64 = (c.h as u64) / 60;
    let hm: u64 = hs % 2000;
    proof {
        vstd::arithmetic::div_mod::lemma_mod_division_less_than_divisor(hs as int, 2000);
    }
    let b2: u64 = if hm >= 1000 {
        hm - 1000
    } else {
        1000 - hm
    };
    assert(b2 == iabs(hm - 1000) && b2 <= 1000);
    proof {
        assert(ch * (1000 - b2) <= ch * 1000) by (nonlinear_arith)
            requires
                0 <= b2 <= 1000,
                0 <= ch,
        ;
        vstd::arithmetic::div_mod::lemma_div_is_ordered(
            (ch * (1000 - b2)) as int, (ch * 1000) as int, 1000);
        vstd::arithmetic::div_mod::lemma_div_by_multiple(ch as int, 1000);
    }
    let xv: u64 = (ch * (1000 - b2)) / 1000;
    assert(xv <= ch);
    proof {
        // ch / 2 never exceeds the lightness, so the remainder m is a sum
        // that keeps every channel at or under one.
        if 2 * l1 >= 1000 {
            assert(1000 - a == 2 * (1000 - l1));
            vstd::arithmetic::div_mod::lemma_div_is_ordered(
                ch as int, (2 * (1000 - l1)) as int, 2);
            vstd::arithmetic::div_mod::lemma_div_multiples_vanish((1000 - l1) as int, 2);
        } else {
            assert(1000 - a == 2 * l1);
            vstd::arithmetic::div_mod::lemma_div_is_ordered(ch as int, (2 * l1) as int, 2);
            vstd::arithmetic::div_mod::lemma_div_multiples_vanish(l1 as int, 2);
        }
        assert(ch / 2 <= l1);
        vstd::arithmetic::div_mod::lemma_fundamental_div_mod(ch as int, 2);
        vstd::arithmetic::div_mod::lemma_mod_division_less_than_divisor(ch as int, 2);
        assert(ch + l1 - ch / 2 <= 1000);
    }
    let m: u64 = l1 - ch / 2;
    assert(ch + m <= 1000 && xv + m <= 1000 && m <= 1000);
    let sext: u64 = (c.h as u64) / 60000;
    let (c0, c1, c2): (u64, u64, u64) = if sext == 0 {
        (ch, xv, 0)
    } else if sext == 1 {
        (xv, ch, 0)
    } else if sext == 2 {
        (0, ch, xv)
    } else if sext == 3 {
        (0, xv, ch)
    } else if sext == 4 {
        (xv, 0, ch)
    } else {
        (ch, 0, xv)
    };
    Rgb { r: channel_byte(c0, m), g: channel_byte(c1, m), b: channel_byte(c2, m) }
}

} // verus!
