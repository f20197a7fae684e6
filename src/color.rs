//! 8-bit RGBA colors and fixed-point fractions.
use vstd::prelude::*;

verus! {

/// The value of 1.0 in fixed-point fractions (alpha, filter amounts, matrix
/// coefficients).
pub const UNIT: i64 = 10000;

#[derive(Clone, Copy, Debug, PartialEq, Eq, Structural)]
pub struct Rgba {
    pub r: u8,
    pub g: u8,
    pub b: u8,
    pub a: u8,
}

/// A fraction in `0..=UNIT`.
pub open spec fn is_fraction(f: int) -> bool {
    0 <= f <= UNIT
}

/// `c` with its alpha scaled by the fraction `alpha`, rounded down.
pub open spec fn scaled_alpha(c: Rgba, alpha: int) -> Rgba {
    Rgba { r: c.r, g: c.g, b: c.b, a: ((c.a as int * alpha) / UNIT as int) as u8 }
}

impl Rgba {
    pub fn new(r: u8, g: u8, b: u8, a: u8) -> (c: Rgba)
        ensures
            c == (Rgba { r, g, b, a }),
    {
        Rgba { r, g, b, a }
    }

    pub fn black() -> (c: Rgba)
        ensures
            c == (Rgba { r: 0, g: 0, b: 0, a: 255 }),
    {
        Rgba { r: 0, g: 0, b: 0, a: 255 }
    }

    pub fn transparent() -> (c: Rgba)
        ensures
            c == (Rgba { r: 0, g: 0, b: 0, a: 0 }),
    {
        Rgba { r: 0, g: 0, b: 0, a: 0 }
    }

    /// This color with its alpha multiplied by the fraction `alpha`.
    pub fn with_alpha(&self, alpha: i64) -> (c: Rgba)
        requires
            is_fraction(alpha as int),
        ensures
            c == scaled_alpha(*self, alpha as int),
            alpha == UNIT ==> c == *self,
            alpha == 0 ==> c.a == 0,
    {
        assert(0 <= self.a as int * alpha <= 255 * UNIT) by (nonlinear_arith)
            requires
                0 <= self.a <= 255,
                0 <= alpha <= UNIT,
        ;
        let a = self.a as i64 * alpha;
        let scaled = a / UNIT;
        assert(0 <= scaled <= 255) by (nonlinear_arith)
            requires
                scaled == a / UNIT,
                0 <= a <= 255 * UNIT,
        ;
        proof {
            if alpha == 0 {
                assert(self.a as int * 0 == 0);
            }
            if alpha == UNIT {
                assert((self.a as int * UNIT) / UNIT as int == self.a) by (nonlinear_arith);
            }
        }
        Rgba { r: self.r, g: self.g, b: self.b, a: scaled as u8 }
    }
}

} // verus!
