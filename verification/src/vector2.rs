//! Immutable 2D points and direction vectors over exact rational
//! coordinates.

use vstd::prelude::*;
use crate::rational::{Rat, Ratio, rat_wf, rat_add_s, rat_sub_s, rat_mul_s, rat_neg_s,
    rat_div_s, rat_eq_s, rat_sqrt_s, lemma_rat_sqrt_pos, lemma_pos_mul};

verus! {

/// Ghost model of a 2D point: a pair of fractions.
pub ghost struct PointV {
    pub x: Ratio,
    pub y: Ratio,
}

pub open spec fn pv_wf(p: PointV) -> bool {
    rat_wf(p.x) && rat_wf(p.y)
}

pub open spec fn pv_add_s(a: PointV, b: PointV) -> PointV {
    PointV { x: rat_add_s(a.x, b.x), y: rat_add_s(a.y, b.y) }
}

pub open spec fn pv_sub_s(a: PointV, b: PointV) -> PointV {
    PointV { x: rat_sub_s(a.x, b.x), y: rat_sub_s(a.y, b.y) }
}

pub open spec fn pv_neg_s(a: PointV) -> PointV {
    PointV { x: rat_neg_s(a.x), y: rat_neg_s(a.y) }
}

/// Both components scaled by the fraction `k`.
pub open spec fn pv_scale_s(a: PointV, k: Ratio) -> PointV {
    PointV { x: rat_mul_s(a.x, k), y: rat_mul_s(a.y, k) }
}

/// Both components divided by the fraction `k`.
pub open spec fn pv_div_s(a: PointV, k: Ratio) -> PointV {
    PointV { x: rat_div_s(a.x, k), y: rat_div_s(a.y, k) }
}

/// Left perpendicular: a quarter turn counter-clockwise.
pub open spec fn pv_left_s(a: PointV) -> PointV {
    PointV { x: rat_neg_s(a.y), y: a.x }
}

/// Right perpendicular: a quarter turn clockwise.
pub open spec fn pv_right_s(a: PointV) -> PointV {
    PointV { x: a.y, y: rat_neg_s(a.x) }
}

pub open spec fn pv_dot_s(a: PointV, b: PointV) -> Ratio {
    rat_add_s(rat_mul_s(a.x, b.x), rat_mul_s(a.y, b.y))
}

pub open spec fn pv_cross_s(a: PointV, b: PointV) -> Ratio {
    rat_sub_s(rat_mul_s(a.x, b.y), rat_mul_s(a.y, b.x))
}

/// Componentwise equality of values.
pub open spec fn pv_eq_s(a: PointV, b: PointV) -> bool {
    rat_eq_s(a.x, b.x) && rat_eq_s(a.y, b.y)
}

/// The squared Euclidean norm, an exact fraction.
pub open spec fn pv_mag_sq_s(a: PointV) -> Ratio {
    rat_add_s(rat_mul_s(a.x, a.x), rat_mul_s(a.y, a.y))
}

/// The approximate Euclidean norm: [`rat_sqrt_s`] of the exact square.
pub open spec fn pv_mag_s(a: PointV) -> Ratio {
    rat_sqrt_s(pv_mag_sq_s(a))
}

/// The squared Euclidean distance between two points, an exact fraction.
pub open spec fn pv_dist_sq_s(a: PointV, b: PointV) -> Ratio {
    pv_mag_sq_s(pv_sub_s(b, a))
}

/// The approximate Euclidean distance between two points.
pub open spec fn pv_dist_s(a: PointV, b: PointV) -> Ratio {
    rat_sqrt_s(pv_dist_sq_s(a, b))
}

/// The approximately unit-length vector along `a`.
pub open spec fn pv_unit_s(a: PointV) -> PointV {
    pv_div_s(a, pv_mag_s(a))
}

/// A squared norm is non-negative, well-formed, and zero exactly when both
/// components are zero.
pub proof fn lemma_mag_sq_shape(a: PointV)
    requires
        pv_wf(a),
    ensures
        rat_wf(pv_mag_sq_s(a)),
        pv_mag_sq_s(a).num >= 0,
        pv_mag_sq_s(a).num == 0 <==> a.x.num == 0 && a.y.num == 0,
{
    let q = pv_mag_sq_s(a);
    assert(rat_wf(q) && q.num >= 0 && (q.num == 0 <==> a.x.num == 0 && a.y.num == 0))
        by (nonlinear_arith)
        requires
            a.x.den > 0,
            a.y.den > 0,
            q == pv_mag_sq_s(a),
    ;
}

/// The measured distance between two well-formed points is a well-formed,
/// non-negative fraction.
pub proof fn lemma_dist_shape(a: PointV, b: PointV)
    requires
        pv_wf(a),
        pv_wf(b),
    ensures
        rat_wf(pv_dist_s(a, b)),
        pv_dist_s(a, b).num >= 0,
{
    crate::rational::lemma_ops_wf(b.x, a.x);
    crate::rational::lemma_ops_wf(b.y, a.y);
    lemma_mag_sq_shape(pv_sub_s(b, a));
    crate::rational::lemma_rat_sqrt_shape(pv_dist_sq_s(a, b));
}

/// A 2D point or direction with exact rational coordinates.
#[derive(Debug)]
pub struct Vector2 {
    pub x: Rat,
    pub y: Rat,
}

impl View for Vector2 {
    type V = PointV;

    open spec fn view(&self) -> PointV {
        PointV { x: self.x@, y: self.y@ }
    }
}

impl Vector2 {
    pub open spec fn valid(&self) -> bool {
        pv_wf(self@)
    }

    pub fn new(x: Rat, y: Rat) -> (r: Vector2)
        ensures
            r@ == (PointV { x: x@, y: y@ }),
    {
        Vector2 { x, y }
    }

    pub fn dup(&self) -> (r: Vector2)
        ensures
            r@ == self@,
    {
        Vector2 { x: self.x.dup(), y: self.y.dup() }
    }

    pub fn add(&self, other: &Vector2) -> (r: Vector2)
        ensures
            r@ == pv_add_s(self@, other@),
            self.valid() && other.valid() ==> r.valid(),
    {
        Vector2 { x: self.x.add(&other.x), y: self.y.add(&other.y) }
    }

    pub fn sub(&self, other: &Vector2) -> (r: Vector2)
        ensures
            r@ == pv_sub_s(self@, other@),
            self.valid() && other.valid() ==> r.valid(),
    {
        Vector2 { x: self.x.sub(&other.x), y: self.y.sub(&other.y) }
    }

    pub fn neg(&self) -> (r: Vector2)
        ensures
            r@ == pv_neg_s(self@),
            self.valid() ==> r.valid(),
    {
        Vector2 { x: self.x.neg(), y: self.y.neg() }
    }

    /// Scales both components by the fraction `k`.
    pub fn mul(&self, k: &Rat) -> (r: Vector2)
        ensures
            r@ == pv_scale_s(self@, k@),
            self.valid() && k.valid() ==> r.valid(),
    {
        Vector2 { x: self.x.mul(k), y: self.y.mul(k) }
    }

    /// Divides both components by the fraction `k`.
    pub fn div(&self, k: &Rat) -> (r: Vector2)
        ensures
            r@ == pv_div_s(self@, k@),
            self.valid() && k.valid() && k@.num != 0 ==> r.valid(),
    {
        Vector2 { x: self.x.div(k), y: self.y.div(k) }
    }

    pub fn left(&self) -> (r: Vector2)
        ensures
            r@ == pv_left_s(self@),
            self.valid() ==> r.valid(),
    {
        Vector2 { x: self.y.neg(), y: self.x.dup() }
    }

    pub fn right(&self) -> (r: Vector2)
        ensures
            r@ == pv_right_s(self@),
            self.valid() ==> r.valid(),
    {
        Vector2 { x: self.y.dup(), y: self.x.neg() }
    }

    pub fn dot(&self, other: &Vector2) -> (r: Rat)
        ensures
            r@ == pv_dot_s(self@, other@),
            self.valid() && other.valid() ==> r.valid(),
    {
        self.x.mul(&other.x).add(&self.y.mul(&other.y))
    }

    pub fn cross(&self, other: &Vector2) -> (r: Rat)
        ensures
            r@ == pv_cross_s(self@, other@),
            self.valid() && other.valid() ==> r.valid(),
    {
        self.x.mul(&other.y).sub(&self.y.mul(&other.x))
    }

    /// The exact squared Euclidean norm.
    pub fn magnitude_squared(&self) -> (r: Rat)
        ensures
            r@ == pv_mag_sq_s(self@),
            self.valid() ==> r.valid(),
    {
        self.x.mul(&self.x).add(&self.y.mul(&self.y))
    }

    /// The approximate Euclidean norm [`pv_mag_s`].
    pub fn magnitude(&self) -> (r: Rat)
        requires
            self.valid(),
        ensures
            r@ == pv_mag_s(self@),
            r.valid(),
            r@.num >= 0,
    {
        proof {
            lemma_mag_sq_shape(self@);
        }
        self.magnitude_squared().sqrt()
    }

    /// The approximate Euclidean distance to `other`.
    pub fn distance_to(&self, other: &Vector2) -> (r: Rat)
        requires
            self.valid(),
            other.valid(),
        ensures
            r@ == pv_dist_s(self@, other@),
            r.valid(),
            r@.num >= 0,
    {
        other.sub(self).magnitude()
    }

    /// The approximately unit-length vector along `self`; demands a vector
    /// with at least one non-zero component.
    pub fn unit(&self) -> (r: Vector2)
        requires
            self.valid(),
            self@.x.num != 0 || self@.y.num != 0,
        ensures
            r@ == pv_unit_s(self@),
            r.valid(),
    {
        proof {
            lemma_mag_sq_shape(self@);
            lemma_rat_sqrt_pos(pv_mag_sq_s(self@));
        }
        let m = self.magnitude();
        self.div(&m)
    }
}

impl PartialEq for Vector2 {
    fn eq(&self, other: &Vector2) -> bool {
        self.x == other.x && self.y == other.y
    }
}

impl vstd::std_specs::cmp::PartialEqSpecImpl for Vector2 {
    open spec fn obeys_eq_spec() -> bool {
        true
    }

    open spec fn eq_spec(&self, other: &Vector2) -> bool {
        pv_eq_s(self@, other@)
    }
}

} // verus!
