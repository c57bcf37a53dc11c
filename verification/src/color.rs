//! Colors as fixed-point red/green/blue triples.
//!
//! A channel value of `SCALE` stands for full intensity 1.0; values are
//! unclamped until tone mapping.

use vstd::prelude::*;

verus! {

use crate::fx::{fx_mul, fx_mul_spec, iabs, SCALE};

/// Mathematical model of a color: three unbounded integers.
pub ghost struct C3 {
    pub r: int,
    pub g: int,
    pub b: int,
}

impl C3 {
    pub open spec fn add(self, o: C3) -> C3 {
        C3 { r: self.r + o.r, g: self.g + o.g, b: self.b + o.b }
    }

    pub open spec fn sub(self, o: C3) -> C3 {
        C3 { r: self.r - o.r, g: self.g - o.g, b: self.b - o.b }
    }

    /// Componentwise fixed-point product (attenuation).
    pub open spec fn mul(self, o: C3) -> C3 {
        C3 {
            r: fx_mul_spec(self.r, o.r),
            g: fx_mul_spec(self.g, o.g),
            b: fx_mul_spec(self.b, o.b),
        }
    }

    pub open spec fn scale(self, s: int) -> C3 {
        C3 {
            r: fx_mul_spec(s, self.r),
            g: fx_mul_spec(s, self.g),
            b: fx_mul_spec(s, self.b),
        }
    }

    pub open spec fn black() -> C3 {
        C3 { r: 0, g: 0, b: 0 }
    }

    pub open spec fn white() -> C3 {
        C3 { r: SCALE as int, g: SCALE as int, b: SCALE as int }
    }

    pub open spec fn nonneg(self) -> bool {
        self.r >= 0 && self.g >= 0 && self.b >= 0
    }

    pub open spec fn bounded(self, b: int) -> bool {
        iabs(self.r) <= b && iabs(self.g) <= b && iabs(self.b) <= b
    }
}

/// Attenuating a nonnegative bounded radiance by a unit-range color keeps it
/// nonnegative and within the same bound.
pub proof fn lemma_attenuate(att: C3, rec: C3, b: int)
    requires
        att.nonneg(),
        att.bounded(SCALE as int),
        rec.nonneg(),
        rec.bounded(b),
        0 <= b <= 0x1_0000_0000_0000_0000,
    ensures
        att.mul(rec).nonneg(),
        att.mul(rec).bounded(b),
        iabs(att.r) * iabs(rec.r) < i128::MAX,
        iabs(att.g) * iabs(rec.g) < i128::MAX,
        iabs(att.b) * iabs(rec.b) < i128::MAX,
{
    crate::fx::lemma_fx_mul_unit_range(att.r, rec.r);
    crate::fx::lemma_fx_mul_unit_range(att.g, rec.g);
    crate::fx::lemma_fx_mul_unit_range(att.b, rec.b);
    crate::fx::lemma_abs_mul_bound(att.r, rec.r, SCALE as int, b);
    crate::fx::lemma_abs_mul_bound(att.g, rec.g, SCALE as int, b);
    crate::fx::lemma_abs_mul_bound(att.b, rec.b, SCALE as int, b);
    assert((SCALE as int) * b < i128::MAX) by (nonlinear_arith)
        requires
            0 <= b <= 0x1_0000_0000_0000_0000,
    ;
}

/// An executable color.
#[derive(Clone, Copy, Debug, PartialEq, Eq, Structural)]
pub struct Color {
    pub r: i128,
    pub g: i128,
    pub b: i128,
}

impl View for Color {
    type V = C3;

    open spec fn view(&self) -> C3 {
        C3 { r: self.r as int, g: self.g as int, b: self.b as int }
    }
}

impl Color {
    pub fn new(r: i128, g: i128, b: i128) -> (c: Color)
        ensures
            c@ == (C3 { r: r as int, g: g as int, b: b as int }),
    {
        Self { r, g, b }
    }

    pub fn black() -> (c: Color)
        ensures
            c@ == C3::black(),
    {
        Self { r: 0, g: 0, b: 0 }
    }

    pub fn white() -> (c: Color)
        ensures
            c@ == C3::white(),
    {
        Self { r: SCALE, g: SCALE, b: SCALE }
    }

    pub fn red() -> (c: Color)
        ensures
            c@ == (C3 { r: SCALE as int, g: 0, b: 0 }),
    {
        Self { r: SCALE, g: 0, b: 0 }
    }

    pub fn green() -> (c: Color)
        ensures
            c@ == (C3 { r: 0, g: SCALE as int, b: 0 }),
    {
        Self { r: 0, g: SCALE, b: 0 }
    }

    pub fn blue() -> (c: Color)
        ensures
            c@ == (C3 { r: 0, g: 0, b: SCALE as int }),
    {
        Self { r: 0, g: 0, b: SCALE }
    }

    pub fn add(&self, o: &Color) -> (c: Color)
        requires
            iabs(self@.r + o@.r) <= i128::MAX,
            iabs(self@.g + o@.g) <= i128::MAX,
            iabs(self@.b + o@.b) <= i128::MAX,
        ensures
            c@ == self@.add(o@),
    {
        Color { r: self.r + o.r, g: self.g + o.g, b: self.b + o.b }
    }

    pub fn sub(&self, o: &Color) -> (c: Color)
        requires
            iabs(self@.r - o@.r) <= i128::MAX,
            iabs(self@.g - o@.g) <= i128::MAX,
            iabs(self@.b - o@.b) <= i128::MAX,
        ensures
            c@ == self@.sub(o@),
    {
        Color { r: self.r - o.r, g: self.g - o.g, b: self.b - o.b }
    }

    pub fn mul(&self, o: &Color) -> (c: Color)
        requires
            iabs(self@.r) * iabs(o@.r) < i128::MAX,
            iabs(self@.g) * iabs(o@.g) < i128::MAX,
            iabs(self@.b) * iabs(o@.b) < i128::MAX,
        ensures
            c@ == self@.mul(o@),
    {
        Color { r: fx_mul(self.r, o.r), g: fx_mul(self.g, o.g), b: fx_mul(self.b, o.b) }
    }

    pub fn scale(&self, s: i128) -> (c: Color)
        requires
            iabs(s as int) * iabs(self@.r) < i128::MAX,
            iabs(s as int) * iabs(self@.g) < i128::MAX,
            iabs(s as int) * iabs(self@.b) < i128::MAX,
        ensures
            c@ == self@.scale(s as int),
    {
        Color { r: fx_mul(s, self.r), g: fx_mul(s, self.g), b: fx_mul(s, self.b) }
    }
}

} // verus!
