//! A directed line piece `a -> b` carrying its measured length, and the
//! segment-intersection primitive.

use vstd::prelude::*;
use crate::rational::{Rat, Ratio, rat_wf, rat_add_s, rat_sub_s, rat_mul_s, rat_div_s,
    rat_neg_s, rat_eq_s, lemma_ops_wf, lemma_req_trans, lemma_add_congr, lemma_mul_congr,
    lemma_mul_comm, lemma_mul_rotate, lemma_mul_assoc, lemma_add_comm, lemma_mul_neg_right,
    lemma_mul_distrib_sub, lemma_mul_distrib_add_right, lemma_mul_distrib_sub_right,
    lemma_sub_chain, lemma_sub_sub, lemma_sub_flip, lemma_add_to_sub, lemma_div_mul,
    lemma_mul_cancel};
use crate::vector2::{Vector2, PointV, pv_wf, pv_sub_s, pv_add_s, pv_scale_s, pv_cross_s,
    pv_eq_s};

verus! {

/// Ghost model of a measured segment.
pub ghost struct SegmentV {
    pub a: PointV,
    pub b: PointV,
    pub mag: Ratio,
}

pub open spec fn seg_wf(s: SegmentV) -> bool {
    pv_wf(s.a) && pv_wf(s.b) && rat_wf(s.mag)
}

/// Componentwise equality of values.
pub open spec fn seg_eq_s(s: SegmentV, o: SegmentV) -> bool {
    pv_eq_s(s.a, o.a) && pv_eq_s(s.b, o.b) && rat_eq_s(s.mag, o.mag)
}

/// The direction vector `b - a` of a segment.
pub open spec fn seg_delta_s(s: SegmentV) -> PointV {
    pv_sub_s(s.b, s.a)
}

/// The cross product of the two segments' direction vectors; zero exactly
/// when the carrying lines are parallel (or one segment is degenerate).
pub open spec fn seg_cross_s(s: SegmentV, o: SegmentV) -> Ratio {
    pv_cross_s(seg_delta_s(s), seg_delta_s(o))
}

/// The parameter along `s` of the intersection of the two carrying lines.
pub open spec fn seg_time_ab_s(s: SegmentV, o: SegmentV) -> Ratio {
    rat_div_s(pv_cross_s(pv_sub_s(o.a, s.a), seg_delta_s(o)), seg_cross_s(s, o))
}

/// The parameter along `o` of the intersection of the two carrying lines.
pub open spec fn seg_time_cd_s(s: SegmentV, o: SegmentV) -> Ratio {
    rat_div_s(rat_neg_s(pv_cross_s(seg_delta_s(s), pv_sub_s(o.a, s.a))), seg_cross_s(s, o))
}

/// The intersection point of the two carrying lines: `s.a` advanced by
/// `seg_time_ab_s` along `s`'s direction.
pub open spec fn seg_point_s(s: SegmentV, o: SegmentV) -> PointV {
    pv_add_s(s.a, pv_scale_s(seg_delta_s(s), seg_time_ab_s(s, o)))
}

/// Cramer's rule for the two-line system, one coordinate at a time: for
/// direction vectors `(p, q)` and `(r2, s2)` and offset `(u, w)` between
/// the two base points, the offset times the system determinant equals the
/// matching combination of the two solution numerators.
proof fn lemma_cramer_core(p: Ratio, q: Ratio, r2: Ratio, s2: Ratio, u: Ratio, w: Ratio)
    requires
        rat_wf(p),
        rat_wf(q),
        rat_wf(r2),
        rat_wf(s2),
        rat_wf(u),
        rat_wf(w),
    ensures
        rat_eq_s(
            rat_mul_s(u, rat_sub_s(rat_mul_s(p, s2), rat_mul_s(q, r2))),
            rat_add_s(
                rat_mul_s(p, rat_sub_s(rat_mul_s(u, s2), rat_mul_s(w, r2))),
                rat_mul_s(r2, rat_sub_s(rat_mul_s(p, w), rat_mul_s(q, u))),
            ),
        ),
        rat_eq_s(
            rat_mul_s(w, rat_sub_s(rat_mul_s(p, s2), rat_mul_s(q, r2))),
            rat_add_s(
                rat_mul_s(q, rat_sub_s(rat_mul_s(u, s2), rat_mul_s(w, r2))),
                rat_mul_s(s2, rat_sub_s(rat_mul_s(p, w), rat_mul_s(q, u))),
            ),
        ),
{
    let dd = rat_sub_s(rat_mul_s(p, s2), rat_mul_s(q, r2));
    let cx1 = rat_sub_s(rat_mul_s(u, s2), rat_mul_s(w, r2));
    let cx2 = rat_sub_s(rat_mul_s(p, w), rat_mul_s(q, u));
    lemma_ops_wf(p, s2);
    lemma_ops_wf(q, r2);
    lemma_ops_wf(u, s2);
    lemma_ops_wf(w, r2);
    lemma_ops_wf(p, w);
    lemma_ops_wf(q, u);
    lemma_ops_wf(rat_mul_s(p, s2), rat_mul_s(q, r2));
    lemma_ops_wf(rat_mul_s(u, s2), rat_mul_s(w, r2));
    lemma_ops_wf(rat_mul_s(p, w), rat_mul_s(q, u));
    // The first coordinate.
    let x1 = rat_mul_s(u, rat_mul_s(p, s2));
    let yy = rat_mul_s(r2, rat_mul_s(p, w));
    let zz = rat_mul_s(u, rat_mul_s(q, r2));
    lemma_ops_wf(u, rat_mul_s(p, s2));
    lemma_ops_wf(r2, rat_mul_s(p, w));
    lemma_ops_wf(u, rat_mul_s(q, r2));
    lemma_ops_wf(x1, yy);
    lemma_ops_wf(yy, zz);
    lemma_ops_wf(x1, zz);
    lemma_mul_distrib_sub(u, rat_mul_s(p, s2), rat_mul_s(q, r2));
    lemma_mul_distrib_sub(p, rat_mul_s(u, s2), rat_mul_s(w, r2));
    lemma_mul_rotate(p, u, s2);
    lemma_mul_comm(w, r2);
    lemma_mul_rotate(p, r2, w);
    assert(rat_eq_s(rat_mul_s(p, cx1), rat_sub_s(x1, yy)));
    lemma_mul_distrib_sub(r2, rat_mul_s(p, w), rat_mul_s(q, u));
    lemma_mul_comm(q, u);
    lemma_mul_rotate(r2, u, q);
    lemma_mul_comm(r2, q);
    assert(rat_eq_s(rat_mul_s(r2, cx2), rat_sub_s(yy, zz)));
    lemma_sub_chain(x1, yy, zz);
    lemma_ops_wf(p, cx1);
    lemma_ops_wf(r2, cx2);
    lemma_add_congr(rat_mul_s(p, cx1), rat_sub_s(x1, yy), rat_mul_s(r2, cx2), rat_sub_s(yy, zz));
    lemma_ops_wf(rat_sub_s(x1, yy), rat_sub_s(yy, zz));
    lemma_ops_wf(rat_mul_s(p, cx1), rat_mul_s(r2, cx2));
    lemma_req_trans(
        rat_add_s(rat_mul_s(p, cx1), rat_mul_s(r2, cx2)),
        rat_add_s(rat_sub_s(x1, yy), rat_sub_s(yy, zz)),
        rat_sub_s(x1, zz),
    );
    lemma_req_trans(
        rat_mul_s(u, dd),
        rat_sub_s(x1, zz),
        rat_add_s(rat_mul_s(p, cx1), rat_mul_s(r2, cx2)),
    );
    // The second coordinate.
    let x2 = rat_mul_s(w, rat_mul_s(p, s2));
    let kk = rat_mul_s(s2, rat_mul_s(q, u));
    let z2 = rat_mul_s(w, rat_mul_s(q, r2));
    lemma_ops_wf(w, rat_mul_s(p, s2));
    lemma_ops_wf(s2, rat_mul_s(q, u));
    lemma_ops_wf(w, rat_mul_s(q, r2));
    lemma_ops_wf(x2, kk);
    lemma_ops_wf(kk, z2);
    lemma_ops_wf(x2, z2);
    lemma_mul_distrib_sub(w, rat_mul_s(p, s2), rat_mul_s(q, r2));
    lemma_mul_distrib_sub(q, rat_mul_s(u, s2), rat_mul_s(w, r2));
    lemma_mul_rotate(q, w, r2);
    lemma_mul_comm(u, s2);
    lemma_mul_rotate(q, s2, u);
    assert(rat_eq_s(rat_mul_s(q, cx1), rat_sub_s(kk, z2)));
    lemma_mul_distrib_sub(s2, rat_mul_s(p, w), rat_mul_s(q, u));
    lemma_mul_comm(p, w);
    lemma_mul_rotate(s2, w, p);
    lemma_mul_comm(s2, p);
    assert(rat_eq_s(rat_mul_s(s2, cx2), rat_sub_s(x2, kk)));
    lemma_ops_wf(q, cx1);
    lemma_ops_wf(s2, cx2);
    lemma_add_congr(rat_mul_s(q, cx1), rat_sub_s(kk, z2), rat_mul_s(s2, cx2), rat_sub_s(x2, kk));
    lemma_add_comm(rat_sub_s(kk, z2), rat_sub_s(x2, kk));
    lemma_sub_chain(x2, kk, z2);
    lemma_ops_wf(rat_sub_s(kk, z2), rat_sub_s(x2, kk));
    lemma_ops_wf(rat_mul_s(q, cx1), rat_mul_s(s2, cx2));
    lemma_req_trans(
        rat_add_s(rat_mul_s(q, cx1), rat_mul_s(s2, cx2)),
        rat_add_s(rat_sub_s(x2, kk), rat_sub_s(kk, z2)),
        rat_sub_s(x2, z2),
    );
    lemma_req_trans(
        rat_mul_s(w, dd),
        rat_sub_s(x2, z2),
        rat_add_s(rat_mul_s(q, cx1), rat_mul_s(s2, cx2)),
    );
}

/// Assembling one coordinate of the line equation: when the two parameters
/// solve the system, the point reached along the first line equals the
/// point reached along the second.
proof fn lemma_line_component(
    ax: Ratio,
    cx: Ratio,
    pp: Ratio,
    rr: Ratio,
    t1: Ratio,
    t2: Ratio,
    dd: Ratio,
    cx1: Ratio,
    cx2: Ratio,
)
    requires
        rat_wf(ax),
        rat_wf(cx),
        rat_wf(pp),
        rat_wf(rr),
        rat_wf(t1),
        rat_wf(t2),
        rat_wf(dd),
        rat_wf(cx1),
        rat_wf(cx2),
        dd.num != 0,
        rat_eq_s(rat_mul_s(t1, dd), cx1),
        rat_eq_s(rat_mul_s(t2, dd), rat_neg_s(cx2)),
        rat_eq_s(
            rat_mul_s(rat_sub_s(cx, ax), dd),
            rat_add_s(rat_mul_s(pp, cx1), rat_mul_s(rr, cx2)),
        ),
    ensures
        rat_eq_s(rat_add_s(ax, rat_mul_s(pp, t1)), rat_add_s(cx, rat_mul_s(rr, t2))),
{
    let l = rat_add_s(ax, rat_mul_s(pp, t1));
    let r = rat_add_s(cx, rat_mul_s(rr, t2));
    let av = rat_mul_s(ax, dd);
    let cv = rat_mul_s(cx, dd);
    let xv = rat_mul_s(pp, cx1);
    let yv = rat_mul_s(rr, cx2);
    lemma_ops_wf(pp, t1);
    lemma_ops_wf(rr, t2);
    lemma_ops_wf(ax, rat_mul_s(pp, t1));
    lemma_ops_wf(cx, rat_mul_s(rr, t2));
    lemma_ops_wf(ax, dd);
    lemma_ops_wf(cx, dd);
    lemma_ops_wf(pp, cx1);
    lemma_ops_wf(rr, cx2);
    lemma_ops_wf(t1, dd);
    lemma_ops_wf(t2, dd);
    // The first line, scaled by the determinant.
    lemma_mul_distrib_add_right(ax, rat_mul_s(pp, t1), dd);
    lemma_mul_assoc(pp, t1, dd);
    lemma_mul_congr(pp, pp, rat_mul_s(t1, dd), cx1);
    lemma_ops_wf(pp, rat_mul_s(t1, dd));
    lemma_ops_wf(rat_mul_s(pp, t1), dd);
    lemma_add_congr(av, av, rat_mul_s(rat_mul_s(pp, t1), dd), xv);
    lemma_ops_wf(av, rat_mul_s(rat_mul_s(pp, t1), dd));
    lemma_ops_wf(av, xv);
    lemma_ops_wf(l, dd);
    lemma_req_trans(
        rat_mul_s(l, dd),
        rat_add_s(av, rat_mul_s(rat_mul_s(pp, t1), dd)),
        rat_add_s(av, xv),
    );
    // The second line, scaled by the determinant.
    lemma_mul_distrib_add_right(cx, rat_mul_s(rr, t2), dd);
    lemma_mul_assoc(rr, t2, dd);
    lemma_mul_congr(rr, rr, rat_mul_s(t2, dd), rat_neg_s(cx2));
    lemma_mul_neg_right(rr, cx2);
    lemma_ops_wf(rr, rat_mul_s(t2, dd));
    lemma_ops_wf(rat_mul_s(rr, t2), dd);
    assert((-yv.num) * cv.den == -(yv.num * cv.den)) by (nonlinear_arith);
    assert(rat_add_s(cv, rat_neg_s(yv)) == rat_sub_s(cv, yv));
    lemma_add_congr(cv, cv, rat_mul_s(rat_mul_s(rr, t2), dd), rat_neg_s(yv));
    lemma_ops_wf(cv, rat_mul_s(rat_mul_s(rr, t2), dd));
    lemma_ops_wf(cv, yv);
    lemma_ops_wf(r, dd);
    lemma_req_trans(
        rat_mul_s(r, dd),
        rat_add_s(cv, rat_mul_s(rat_mul_s(rr, t2), dd)),
        rat_sub_s(cv, yv),
    );
    // The system: the offset scaled by the determinant is the combination
    // of the two numerators, so the two scaled lines agree.
    lemma_mul_distrib_sub_right(cx, ax, dd);
    lemma_ops_wf(cx, ax);
    lemma_ops_wf(rat_sub_s(cx, ax), dd);
    lemma_ops_wf(xv, yv);
    lemma_req_trans(
        rat_add_s(xv, yv),
        rat_mul_s(rat_sub_s(cx, ax), dd),
        rat_sub_s(cv, av),
    );
    lemma_ops_wf(cv, av);
    lemma_add_to_sub(rat_sub_s(cv, av), xv, yv);
    lemma_sub_sub(cv, av, xv);
    lemma_ops_wf(rat_sub_s(cv, av), xv);
    lemma_ops_wf(av, xv);
    lemma_ops_wf(cv, rat_add_s(av, xv));
    lemma_req_trans(
        yv,
        rat_sub_s(rat_sub_s(cv, av), xv),
        rat_sub_s(cv, rat_add_s(av, xv)),
    );
    lemma_sub_flip(cv, rat_add_s(av, xv), yv);
    // Chain both lines through the shared value and cancel the
    // determinant.
    lemma_ops_wf(cv, yv);
    lemma_req_trans(rat_mul_s(l, dd), rat_add_s(av, xv), rat_sub_s(cv, yv));
    lemma_req_trans(rat_mul_s(l, dd), rat_sub_s(cv, yv), rat_mul_s(r, dd));
    lemma_mul_cancel(l, r, dd);
}

/// The intersection law: the point [`seg_point_s`], defined by advancing
/// along the first carrying line by [`seg_time_ab_s`], also lies on the
/// second carrying line at parameter [`seg_time_cd_s`].
pub proof fn lemma_intersection_on_both_lines(s: SegmentV, o: SegmentV)
    requires
        seg_wf(s),
        seg_wf(o),
        seg_cross_s(s, o).num != 0,
    ensures
        pv_eq_s(
            seg_point_s(s, o),
            pv_add_s(o.a, pv_scale_s(seg_delta_s(o), seg_time_cd_s(s, o))),
        ),
{
    let p = seg_delta_s(s).x;
    let q = seg_delta_s(s).y;
    let r2 = seg_delta_s(o).x;
    let s2 = seg_delta_s(o).y;
    let u = rat_sub_s(o.a.x, s.a.x);
    let w = rat_sub_s(o.a.y, s.a.y);
    let dd = seg_cross_s(s, o);
    let cx1 = pv_cross_s(pv_sub_s(o.a, s.a), seg_delta_s(o));
    let cx2 = pv_cross_s(seg_delta_s(s), pv_sub_s(o.a, s.a));
    let t1 = seg_time_ab_s(s, o);
    let t2 = seg_time_cd_s(s, o);
    lemma_ops_wf(s.b.x, s.a.x);
    lemma_ops_wf(s.b.y, s.a.y);
    lemma_ops_wf(o.b.x, o.a.x);
    lemma_ops_wf(o.b.y, o.a.y);
    lemma_ops_wf(o.a.x, s.a.x);
    lemma_ops_wf(o.a.y, s.a.y);
    lemma_ops_wf(p, s2);
    lemma_ops_wf(q, r2);
    lemma_ops_wf(u, s2);
    lemma_ops_wf(w, r2);
    lemma_ops_wf(p, w);
    lemma_ops_wf(q, u);
    lemma_ops_wf(rat_mul_s(p, s2), rat_mul_s(q, r2));
    lemma_ops_wf(rat_mul_s(u, s2), rat_mul_s(w, r2));
    lemma_ops_wf(rat_mul_s(p, w), rat_mul_s(q, u));
    lemma_ops_wf(cx1, dd);
    lemma_ops_wf(rat_neg_s(cx2), dd);
    lemma_div_mul(cx1, dd);
    lemma_div_mul(rat_neg_s(cx2), dd);
    lemma_cramer_core(p, q, r2, s2, u, w);
    lemma_line_component(s.a.x, o.a.x, p, r2, t1, t2, dd, cx1, cx2);
    lemma_line_component(s.a.y, o.a.y, q, s2, t1, t2, dd, cx1, cx2);
}

/// A directed line piece `a -> b` with its measured length.
#[derive(Debug)]
pub struct LineSegmentMeasured {
    pub a: Vector2,
    pub b: Vector2,
    pub mag: Rat,
}

impl View for LineSegmentMeasured {
    type V = SegmentV;

    open spec fn view(&self) -> SegmentV {
        SegmentV { a: self.a@, b: self.b@, mag: self.mag@ }
    }
}

impl LineSegmentMeasured {
    pub open spec fn valid(&self) -> bool {
        seg_wf(self@)
    }

    pub fn dup(&self) -> (r: LineSegmentMeasured)
        ensures
            r@ == self@,
    {
        LineSegmentMeasured { a: self.a.dup(), b: self.b.dup(), mag: self.mag.dup() }
    }

    /// Intersects the carrying lines of `self` and `other`.
    ///
    /// Returns `None` exactly when the cross product of the two direction
    /// vectors is zero (parallel or degenerate); otherwise the intersection
    /// point of the two infinite lines together with its parameter along
    /// each segment, where parameters outside `[0, 1]` mark a point on the
    /// line's extension beyond the finite segment.
    pub fn intersect(&self, other: &LineSegmentMeasured) -> (r: Option<(Vector2, Rat, Rat)>)
        requires
            self.valid(),
            other.valid(),
        ensures
            r.is_some() <==> seg_cross_s(self@, other@).num != 0,
            r.is_some() ==> ({
                let (p, time_ab, time_cd) = r.unwrap();
                &&& p@ == seg_point_s(self@, other@)
                &&& time_ab@ == seg_time_ab_s(self@, other@)
                &&& time_cd@ == seg_time_cd_s(self@, other@)
                &&& p.valid()
                &&& time_ab.valid()
                &&& time_cd.valid()
            }),
    {
        let ab = self.b.sub(&self.a);
        let cd = other.b.sub(&other.a);
        let ab_cross_cd = ab.cross(&cd);
        if ab_cross_cd.is_zero() {
            return None;
        }
        let ac = other.a.sub(&self.a);
        let time_ab = ac.cross(&cd).div(&ab_cross_cd);
        let time_cd = ab.cross(&ac).neg().div(&ab_cross_cd);
        Some((self.a.add(&ab.mul(&time_ab)), time_ab, time_cd))
    }
}

impl PartialEq for LineSegmentMeasured {
    fn eq(&self, other: &LineSegmentMeasured) -> bool {
        self.a == other.a && self.b == other.b && self.mag == other.mag
    }
}

impl vstd::std_specs::cmp::PartialEqSpecImpl for LineSegmentMeasured {
    open spec fn obeys_eq_spec() -> bool {
        true
    }

    open spec fn eq_spec(&self, other: &LineSegmentMeasured) -> bool {
        seg_eq_s(self@, other@)
    }
}

} // verus!
