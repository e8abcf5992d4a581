//! The measured-linestring engine: an ordered sequence of measured segments
//! with its total length, offering length, fractional cuts, interpolation,
//! direction sampling and the offset-and-rejoin algorithm.

use vstd::prelude::*;
use crate::rational::{Rat, Ratio, rat_wf, rat_int, rat_add_s, rat_sub_s, rat_mul_s,
    rat_div_s, rat_eq_s, rat_le_s, rat_lt_s, lemma_req_trans, lemma_add_congr,
    lemma_sub_congr, lemma_mul_congr, lemma_le_congr, lemma_ops_wf, lemma_sub_sub,
    lemma_add_sub, lemma_add_zero, lemma_add_sub_swap, lemma_sub_zero, lemma_add_to_sub, lemma_lt_pos, lemma_add_assoc, lemma_pos_mul};
use crate::rational::{rat_neg_s, lemma_mul_pos_pos, lemma_mul_lt_one, lemma_lt_trans,
    lemma_le_trans, lemma_mul_zero_right, lemma_sub_val_zero, lemma_add_pos,
    lemma_sub_antitone, lemma_mul_mono_left};
use crate::vector2::{Vector2, PointV, pv_wf, pv_add_s, pv_sub_s, pv_scale_s, pv_div_s,
    pv_eq_s, pv_dist_s, pv_left_s, pv_mag_sq_s, pv_unit_s, lemma_dist_shape};
use crate::line_segment_measured::{LineSegmentMeasured, SegmentV, seg_wf, seg_eq_s,
    seg_cross_s, seg_time_ab_s, seg_time_cd_s, seg_point_s};

verus! {

/// The ghost views of a sequence of executable segments.
pub open spec fn segs_view(s: Seq<LineSegmentMeasured>) -> Seq<SegmentV> {
    s.map_values(|x: LineSegmentMeasured| x@)
}

/// The ghost views of a sequence of executable points.
pub open spec fn points_view(s: Seq<Vector2>) -> Seq<PointV> {
    s.map_values(|x: Vector2| x@)
}

/// Ghost model of a measured linestring.
#[verifier::ext_equal]
pub ghost struct PathV {
    pub segments: Seq<SegmentV>,
    pub mag: Ratio,
}

/// The accumulated length of the first `i` segments, summed left to right.
pub open spec fn sum_at(segs: Seq<SegmentV>, i: int) -> Ratio
    decreases i,
{
    if i <= 0 {
        rat_int(0)
    } else {
        rat_add_s(sum_at(segs, i - 1), segs[i - 1].mag)
    }
}

/// The accumulated length of all segments.
pub open spec fn seg_sum(segs: Seq<SegmentV>) -> Ratio {
    sum_at(segs, segs.len() as int)
}

/// A well-formed path: every segment is well-formed with a non-negative
/// length, consecutive segments share their junction point, and the cached
/// total equals the sum of the segment lengths.
pub open spec fn path_wf(p: PathV) -> bool {
    &&& (forall|i: int| 0 <= i < p.segments.len() ==> seg_wf(#[trigger] p.segments[i]))
    &&& (forall|i: int| 0 <= i < p.segments.len() ==> (#[trigger] p.segments[i]).mag.num >= 0)
    &&& (forall|i: int|
        0 <= i < p.segments.len() - 1 ==> (#[trigger] p.segments[i]).b == p.segments[i + 1].a)
    &&& rat_wf(p.mag)
    &&& rat_eq_s(p.mag, seg_sum(p.segments))
}

/// The segments measured over a point sequence: one per consecutive pair,
/// carrying the measured distance.
pub open spec fn measure_segs_s(pts: Seq<PointV>) -> Seq<SegmentV> {
    if pts.len() < 2 {
        Seq::empty()
    } else {
        Seq::new(
            (pts.len() - 1) as nat,
            |i: int| SegmentV { a: pts[i], b: pts[i + 1], mag: pv_dist_s(pts[i], pts[i + 1]) },
        )
    }
}

/// The measured path over a point sequence.
pub open spec fn measure_s(pts: Seq<PointV>) -> PathV {
    PathV { segments: measure_segs_s(pts), mag: seg_sum(measure_segs_s(pts)) }
}

/// The point sequence of a path: every segment start, then the last end.
pub open spec fn path_points_s(p: PathV) -> Seq<PointV> {
    if p.segments.len() == 0 {
        Seq::empty()
    } else {
        Seq::new(
            (p.segments.len() + 1) as nat,
            |i: int|
                if i < p.segments.len() {
                    p.segments[i].a
                } else {
                    p.segments.last().b
                },
        )
    }
}

/// Partial sums of well-formed segment lengths are well-formed.
pub proof fn lemma_sum_at_wf(segs: Seq<SegmentV>, i: int)
    requires
        i <= segs.len(),
        forall|k: int| 0 <= k < segs.len() ==> rat_wf((#[trigger] segs[k]).mag),
    ensures
        rat_wf(sum_at(segs, i)),
    decreases i,
{
    if i > 0 {
        lemma_sum_at_wf(segs, i - 1);
        lemma_pos_mul(sum_at(segs, i - 1).den, segs[i - 1].mag.den);
    }
}

/// Partial sums of non-negative lengths are non-negative in value.
pub proof fn lemma_sum_at_nonneg(segs: Seq<SegmentV>, i: int)
    requires
        i <= segs.len(),
        forall|k: int| 0 <= k < segs.len() ==> rat_wf((#[trigger] segs[k]).mag),
        forall|k: int| 0 <= k < segs.len() ==> (#[trigger] segs[k]).mag.num >= 0,
    ensures
        rat_wf(sum_at(segs, i)),
        sum_at(segs, i).num >= 0,
    decreases i,
{
    lemma_sum_at_wf(segs, i);
    if i > 0 {
        lemma_sum_at_nonneg(segs, i - 1);
        let s = sum_at(segs, i - 1);
        let m = segs[i - 1].mag;
        assert(sum_at(segs, i).num >= 0) by (nonlinear_arith)
            requires
                sum_at(segs, i) == rat_add_s(s, m),
                s.num >= 0,
                s.den > 0,
                m.num >= 0,
                m.den > 0,
        ;
    }
}

/// A partial sum only reads the segments before its bound, so pushing one
/// more segment leaves it unchanged.
pub proof fn lemma_sum_at_push(segs: Seq<SegmentV>, x: SegmentV, i: int)
    requires
        0 <= i <= segs.len(),
    ensures
        sum_at(segs.push(x), i) == sum_at(segs, i),
    decreases i,
{
    if i > 0 {
        lemma_sum_at_push(segs, x, i - 1);
    }
}

/// A partial sum agrees with the partial sum of any prefix that covers it.
pub proof fn lemma_sum_at_prefix(segs: Seq<SegmentV>, pre: Seq<SegmentV>, i: int)
    requires
        0 <= i <= pre.len() <= segs.len(),
        forall|k: int| 0 <= k < pre.len() ==> pre[k] == segs[k],
    ensures
        sum_at(pre, i) == sum_at(segs, i),
    decreases i,
{
    if i > 0 {
        lemma_sum_at_prefix(segs, pre, i - 1);
    }
}

/// A measured linestring: an ordered sequence of measured segments plus the
/// cached total length.
#[derive(Debug)]
pub struct LineStringMeasured {
    pub segments: Vec<LineSegmentMeasured>,
    pub mag: Rat,
}

impl View for LineStringMeasured {
    type V = PathV;

    open spec fn view(&self) -> PathV {
        PathV { segments: segs_view(self.segments@), mag: self.mag@ }
    }
}

impl LineStringMeasured {
    pub open spec fn valid(&self) -> bool {
        path_wf(self@)
    }

    pub fn dup(&self) -> (r: LineStringMeasured)
        ensures
            r@ == self@,
    {
        let mut segments: Vec<LineSegmentMeasured> = Vec::new();
        let mut i: usize = 0;
        while i < self.segments.len()
            invariant
                i <= self.segments@.len(),
                segments@.len() == i,
                forall|k: int| 0 <= k < i ==> segments@[k]@ == self.segments@[k]@,
            decreases self.segments@.len() - i,
        {
            segments.push(self.segments[i].dup());
            i += 1;
        }
        let r = LineStringMeasured { segments, mag: self.mag.dup() };
        proof {
            assert(segs_view(r.segments@) =~= segs_view(self.segments@));
            assert(r@ =~= self@);
        }
        r
    }

    /// Builds the measured path over a point sequence: fewer than two
    /// points yield the empty path of length zero.
    pub fn from_vec(points: &Vec<Vector2>) -> (r: LineStringMeasured)
        requires
            forall|i: int| 0 <= i < points@.len() ==> (#[trigger] points@[i]).valid(),
        ensures
            r@ == measure_s(points_view(points@)),
            r.valid(),
    {
        let ghost pts = points_view(points@);
        if points.len() < 2 {
            let r = LineStringMeasured { segments: Vec::new(), mag: Rat::from_i64(0) };
            proof {
                assert(segs_view(r.segments@) =~= measure_segs_s(pts));
                assert(r@ =~= measure_s(pts));
            }
            return r;
        }
        let n = points.len();
        let ghost msegs = measure_segs_s(pts);
        let mut segments: Vec<LineSegmentMeasured> = Vec::new();
        let mut mag = Rat::from_i64(0);
        let mut i: usize = 0;
        while i < n - 1
            invariant
                n == points@.len(),
                2 <= n,
                forall|k: int| 0 <= k < points@.len() ==> (#[trigger] points@[k]).valid(),
                pts == points_view(points@),
                msegs == measure_segs_s(pts),
                i <= n - 1,
                segments@.len() == i,
                forall|k: int| 0 <= k < i ==> segments@[k]@ == msegs[k],
                mag@ == sum_at(msegs, i as int),
                mag.valid(),
            decreases n - 1 - i,
        {
            let a = points[i].dup();
            let b = points[i + 1].dup();
            let d = a.distance_to(&b);
            mag = mag.add(&d);
            segments.push(LineSegmentMeasured { a, b, mag: d });
            proof {
                assert forall|k: int|
                    0 <= k < msegs.len() implies rat_wf((#[trigger] msegs[k]).mag) by {
                    lemma_dist_shape(pts[k], pts[k + 1]);
                }
                lemma_sum_at_wf(msegs, (i + 1) as int);
            }
            i += 1;
        }
        let r = LineStringMeasured { segments, mag };
        proof {
            assert(segs_view(r.segments@) =~= msegs);
            assert(r@ =~= measure_s(pts));
            assert forall|k: int| 0 <= k < msegs.len() implies seg_wf(#[trigger] msegs[k])
                && msegs[k].mag.num >= 0 by {
                lemma_dist_shape(pts[k], pts[k + 1]);
            }
            lemma_sum_at_wf(msegs, msegs.len() as int);
        }
        r
    }

    /// The cached total length.
    pub fn magnitude(&self) -> (r: Rat)
        ensures
            r@ == self@.mag,
    {
        self.mag.dup()
    }

    /// The point sequence of the path: every segment start, then the final
    /// end point.  Empty for the empty path.
    pub fn into_vector2(&self) -> (r: Vec<Vector2>)
        ensures
            points_view(r@) == path_points_s(self@),
            self.valid() ==> forall|i: int| 0 <= i < r@.len() ==> (#[trigger] r@[i]).valid(),
    {
        let mut result: Vec<Vector2> = Vec::new();
        let mut i: usize = 0;
        while i < self.segments.len()
            invariant
                i <= self.segments@.len(),
                result@.len() == i,
                forall|k: int| 0 <= k < i ==> result@[k]@ == self.segments@[k]@.a,
            decreases self.segments@.len() - i,
        {
            result.push(self.segments[i].a.dup());
            i += 1;
        }
        if self.segments.len() > 0 {
            result.push(self.segments[self.segments.len() - 1].b.dup());
        }
        proof {
            assert(points_view(result@) =~= path_points_s(self@));
            if self.valid() {
                assert forall|k: int| 0 <= k < result@.len() implies
                    (#[trigger] result@[k]).valid() by {
                    let segs = self@.segments;
                    if k < segs.len() {
                        assert(seg_wf(segs[k]));
                    } else {
                        assert(seg_wf(segs[segs.len() - 1]));
                    }
                }
            }
        }
        result
    }
}

/// The distance still to walk when the cut walk stands before segment `i`:
/// the target distance less the lengths already passed, subtracted one
/// segment at a time exactly as the walk computes it.
pub open spec fn rem_at(segs: Seq<SegmentV>, dist: Ratio, i: int) -> Ratio
    decreases i,
{
    if i <= 0 {
        dist
    } else {
        rat_sub_s(rem_at(segs, dist, i - 1), segs[i - 1].mag)
    }
}

pub proof fn lemma_rem_wf(segs: Seq<SegmentV>, dist: Ratio, i: int)
    requires
        i <= segs.len(),
        rat_wf(dist),
        forall|k: int| 0 <= k < segs.len() ==> rat_wf((#[trigger] segs[k]).mag),
    ensures
        rat_wf(rem_at(segs, dist, i)),
    decreases i,
{
    if i > 0 {
        lemma_rem_wf(segs, dist, i - 1);
        lemma_pos_mul(rem_at(segs, dist, i - 1).den, segs[i - 1].mag.den);
    }
}

/// The walk's remaining distance has the value of the target distance less
/// the partial sum.
pub proof fn lemma_rem_sum(segs: Seq<SegmentV>, dist: Ratio, i: int)
    requires
        0 <= i <= segs.len(),
        rat_wf(dist),
        forall|k: int| 0 <= k < segs.len() ==> rat_wf((#[trigger] segs[k]).mag),
    ensures
        rat_eq_s(rem_at(segs, dist, i), rat_sub_s(dist, sum_at(segs, i))),
    decreases i,
{
    lemma_rem_wf(segs, dist, i);
    lemma_sum_at_wf(segs, i);
    if i == 0 {
        assert(rat_eq_s(dist, rat_sub_s(dist, rat_int(0)))) by (nonlinear_arith)
            requires
                rat_wf(dist),
        ;
    } else {
        lemma_rem_sum(segs, dist, i - 1);
        let rp = rem_at(segs, dist, i - 1);
        let sp = sum_at(segs, i - 1);
        let m = segs[i - 1].mag;
        lemma_rem_wf(segs, dist, i - 1);
        lemma_sum_at_wf(segs, i - 1);
        lemma_ops_wf(dist, sp);
        lemma_ops_wf(sp, m);
        lemma_sub_congr(rp, rat_sub_s(dist, sp), m, m);
        lemma_sub_sub(dist, sp, m);
        lemma_ops_wf(rat_sub_s(dist, sp), m);
        lemma_req_trans(
            rat_sub_s(rp, m),
            rat_sub_s(rat_sub_s(dist, sp), m),
            rat_sub_s(dist, rat_add_s(sp, m)),
        );
    }
}

/// The total is the partial sum up to `i` plus the sum of the rest.
pub proof fn lemma_sum_decompose(segs: Seq<SegmentV>, i: int)
    requires
        0 <= i <= segs.len(),
        forall|k: int| 0 <= k < segs.len() ==> rat_wf((#[trigger] segs[k]).mag),
    ensures
        rat_eq_s(
            seg_sum(segs),
            rat_add_s(sum_at(segs, i), seg_sum(segs.subrange(i, segs.len() as int))),
        ),
        rat_wf(seg_sum(segs)),
        rat_wf(seg_sum(segs.subrange(i, segs.len() as int))),
    decreases segs.len(),
{
    let n = segs.len() as int;
    let tail = segs.subrange(i, n);
    lemma_sum_at_wf(segs, n);
    assert(forall|k: int| 0 <= k < tail.len() ==> rat_wf((#[trigger] tail[k]).mag));
    lemma_sum_at_wf(tail, tail.len() as int);
    lemma_sum_at_wf(segs, i);
    if i == n {
        assert(tail =~= Seq::<SegmentV>::empty());
        lemma_add_zero(seg_sum(segs));
        assert(rat_eq_s(rat_add_s(sum_at(segs, i), rat_int(0)), sum_at(segs, i)));
    } else {
        let pre = segs.drop_last();
        assert(pre =~= segs.subrange(0, n - 1));
        assert(forall|k: int| 0 <= k < pre.len() ==> pre[k] == segs[k]);
        lemma_sum_decompose(pre, i);
        let pretail = pre.subrange(i, n - 1);
        assert(pretail =~= tail.drop_last());
        lemma_sum_at_prefix(segs, pre, i);
        // seg_sum(segs) unfolds onto the prefix: sum_at(segs, n) =
        // add(sum_at(segs, n - 1), last) and sum_at(segs, n - 1) =
        // sum_at(pre, n - 1) = seg_sum(pre).
        lemma_sum_at_prefix(segs, pre, n - 1);
        let last = segs[n - 1].mag;
        let a = sum_at(segs, i);
        let b = seg_sum(pretail);
        lemma_sum_at_wf(pre, n - 1);
        lemma_sum_at_wf(pretail, pretail.len() as int);
        // seg_sum(segs) = add(seg_sum(pre), last) ~ add(add(a, b), last)
        lemma_ops_wf(a, b);
        lemma_add_congr(seg_sum(pre), rat_add_s(a, b), last, last);
        lemma_add_assoc(a, b, last);
        lemma_ops_wf(b, last);
        lemma_ops_wf(rat_add_s(a, b), last);
        lemma_req_trans(
            seg_sum(segs),
            rat_add_s(rat_add_s(a, b), last),
            rat_add_s(a, rat_add_s(b, last)),
        );
        // and add(b, last) is exactly seg_sum(tail) since tail's last is
        // segs' last.
        assert(sum_at(tail, tail.len() as int) == rat_add_s(sum_at(tail, tail.len() as int - 1), last));
        lemma_sum_at_prefix(tail, pretail, tail.len() as int - 1);
        assert(seg_sum(tail) == rat_add_s(b, last));
    }
}

/// The cut walk from index `i` on: the two output paths, mirroring the
/// executable walk.  When the remaining distance is spent exactly at a
/// segment boundary the split is a clean partition; when it ends strictly
/// inside a segment that segment is split at the interpolated point, the
/// two halves carrying the remaining distance and the rest of the segment's
/// length.  Output totals are the target distance and the total less the
/// target, not re-summed.
pub open spec fn cut_walk_s(p: PathV, dist: Ratio, i: int) -> (PathV, PathV)
    decreases p.segments.len() - i,
{
    let n = p.segments.len() as int;
    if i < 0 || i >= n {
        (
            PathV { segments: Seq::empty(), mag: rat_int(0) },
            PathV { segments: Seq::empty(), mag: rat_int(0) },
        )
    } else {
        let rem = rem_at(p.segments, dist, i);
        let seg = p.segments[i];
        if rat_le_s(rem, rat_int(0)) {
            (
                PathV { segments: p.segments.subrange(0, i), mag: dist },
                PathV { segments: p.segments.subrange(i, n), mag: rat_sub_s(p.mag, dist) },
            )
        } else if rat_lt_s(rem, seg.mag) {
            let mid = pv_add_s(
                seg.a,
                pv_scale_s(pv_div_s(pv_sub_s(seg.b, seg.a), seg.mag), rem),
            );
            (
                PathV {
                    segments: p.segments.subrange(0, i).push(
                        SegmentV { a: seg.a, b: mid, mag: rem },
                    ),
                    mag: rat_add_s(sum_at(p.segments, i), rem),
                },
                PathV {
                    segments: seq![SegmentV { a: mid, b: seg.b, mag: rat_sub_s(seg.mag, rem) }]
                        + p.segments.subrange(i + 1, n),
                    mag: rat_sub_s(rat_sub_s(p.mag, sum_at(p.segments, i)), rem),
                },
            )
        } else {
            cut_walk_s(p, dist, i + 1)
        }
    }
}

/// The cut of a path at a length fraction.  At or below fraction zero
/// nothing is cut off the front; at or beyond the full length nothing
/// remains behind; otherwise the walk splits the path at the target
/// distance.
pub open spec fn cut_s(p: PathV, f: Ratio) -> (Option<PathV>, Option<PathV>) {
    let dist = rat_mul_s(p.mag, f);
    if rat_le_s(dist, rat_int(0)) {
        (None, Some(p))
    } else if rat_le_s(p.mag, dist) {
        (Some(p), None)
    } else {
        (Some(cut_walk_s(p, dist, 0).0), Some(cut_walk_s(p, dist, 0).1))
    }
}

/// What the cut walk produces when the target distance falls strictly
/// inside the path: two well-formed, non-empty parts whose totals have
/// exactly the value of the target distance and of the rest, which share
/// their junction point and keep the path's end points.
pub proof fn lemma_cut_walk_props(p: PathV, dist: Ratio, i: int)
    requires
        path_wf(p),
        rat_wf(dist),
        0 <= i < p.segments.len(),
        rat_le_s(rat_int(0), rem_at(p.segments, dist, i)),
        i == 0 ==> rat_lt_s(rat_int(0), rem_at(p.segments, dist, i)),
        rat_lt_s(dist, p.mag),
    ensures
        ({
            let (x, y) = cut_walk_s(p, dist, i);
            &&& path_wf(x)
            &&& path_wf(y)
            &&& x.segments.len() >= 1
            &&& y.segments.len() >= 1
            &&& rat_eq_s(x.mag, dist)
            &&& rat_eq_s(y.mag, rat_sub_s(p.mag, dist))
            &&& x.segments.last().b == y.segments[0].a
            &&& x.segments[0].a == p.segments[0].a
            &&& y.segments.last().b == p.segments.last().b
        }),
    decreases p.segments.len() - i,
{
    let segs = p.segments;
    let n = segs.len() as int;
    assert forall|k: int| 0 <= k < n implies rat_wf((#[trigger] segs[k]).mag) by {
        assert(seg_wf(segs[k]));
    }
    lemma_rem_wf(segs, dist, i);
    lemma_rem_sum(segs, dist, i);
    lemma_sum_at_wf(segs, i);
    lemma_ops_wf(dist, sum_at(segs, i));
    let rem = rem_at(segs, dist, i);
    let seg = segs[i];
    let a = sum_at(segs, i);
    let m = p.mag;
    let big = seg_sum(segs);
    assert(seg_wf(seg));
    if rat_le_s(rem, rat_int(0)) {
        // Boundary split: the remainder's value is exactly zero, so the
        // target distance equals the length walked so far.
        assert(rem.num == 0);
        assert(rat_eq_s(rem, rat_int(0)));
        lemma_req_trans(rat_sub_s(dist, a), rem, rat_int(0));
        lemma_sub_zero(dist, a);
        let x = cut_walk_s(p, dist, i).0;
        let y = cut_walk_s(p, dist, i).1;
        assert(x.segments == segs.subrange(0, i));
        assert(y.segments == segs.subrange(i, n));
        // The walk cannot stop at the very first segment boundary.
        assert(i >= 1);
        // Totals: the first part carries the target distance, which equals
        // the sum of the segments it keeps.
        lemma_sum_at_prefix(segs, segs.subrange(0, i), i);
        assert(seg_sum(x.segments) == a);
        lemma_sum_decompose(segs, i);
        let tail_sum = seg_sum(segs.subrange(i, n));
        lemma_add_to_sub(big, a, tail_sum);
        lemma_ops_wf(m, dist);
        lemma_ops_wf(big, a);
        lemma_sub_congr(m, big, dist, a);
        lemma_req_trans(rat_sub_s(m, dist), rat_sub_s(big, a), tail_sum);
        assert(path_wf(x)) by {
            assert forall|k: int| 0 <= k < x.segments.len() implies seg_wf(
                #[trigger] x.segments[k],
            ) && x.segments[k].mag.num >= 0 by {
                assert(x.segments[k] == segs[k]);
                assert(seg_wf(segs[k]));
            }
        }
        assert(path_wf(y)) by {
            assert forall|k: int| 0 <= k < y.segments.len() implies seg_wf(
                #[trigger] y.segments[k],
            ) && y.segments[k].mag.num >= 0 by {
                assert(y.segments[k] == segs[i + k]);
                assert(seg_wf(segs[i + k]));
            }
            assert forall|k: int| 0 <= k < y.segments.len() - 1 implies (
            #[trigger] y.segments[k]).b == y.segments[k + 1].a by {
                assert(y.segments[k] == segs[i + k]);
                assert(y.segments[k + 1] == segs[i + k + 1]);
            }
        }
        assert(x.segments.last() == segs[i - 1]);
        assert(y.segments[0] == segs[i]);
        assert(segs[i - 1].b == segs[i].a);
        assert(y.segments.last() == segs[n - 1]);
    } else if rat_lt_s(rem, seg.mag) {
        // Split strictly inside segment `i` at the interpolated point.
        assert(rem.num > 0);
        lemma_lt_pos(rem, seg.mag);
        let delta = pv_sub_s(seg.b, seg.a);
        lemma_ops_wf(seg.b.x, seg.a.x);
        lemma_ops_wf(seg.b.y, seg.a.y);
        let unitish = pv_div_s(delta, seg.mag);
        lemma_ops_wf(delta.x, seg.mag);
        lemma_ops_wf(delta.y, seg.mag);
        let scaled = pv_scale_s(unitish, rem);
        lemma_ops_wf(unitish.x, rem);
        lemma_ops_wf(unitish.y, rem);
        let mid = pv_add_s(seg.a, scaled);
        lemma_ops_wf(seg.a.x, scaled.x);
        lemma_ops_wf(seg.a.y, scaled.y);
        assert(pv_wf(mid));
        let x = cut_walk_s(p, dist, i).0;
        let y = cut_walk_s(p, dist, i).1;
        let ns = SegmentV { a: seg.a, b: mid, mag: rem };
        let ms = SegmentV { a: mid, b: seg.b, mag: rat_sub_s(seg.mag, rem) };
        assert(x.segments == segs.subrange(0, i).push(ns));
        assert(y.segments == seq![ms] + segs.subrange(i + 1, n));
        lemma_ops_wf(seg.mag, rem);
        lemma_sub_zero(rem, seg.mag);
        // x's total has the value of the target distance.
        lemma_ops_wf(a, rem);
        lemma_sub_congr(dist, dist, a, a);
        lemma_add_congr(a, a, rem, rat_sub_s(dist, a));
        lemma_add_sub(dist, a);
        lemma_ops_wf(a, rat_sub_s(dist, a));
        lemma_req_trans(rat_add_s(a, rem), rat_add_s(a, rat_sub_s(dist, a)), dist);
        assert(rat_eq_s(x.mag, dist));
        // x's total is the sum of its segments.
        lemma_sum_at_push(segs.subrange(0, i), ns, i);
        lemma_sum_at_prefix(segs, segs.subrange(0, i), i);
        assert(seg_sum(x.segments) == rat_add_s(a, rem));
        assert(path_wf(x)) by {
            assert forall|k: int| 0 <= k < x.segments.len() implies seg_wf(
                #[trigger] x.segments[k],
            ) && x.segments[k].mag.num >= 0 by {
                if k < i {
                    assert(x.segments[k] == segs[k]);
                    assert(seg_wf(segs[k]));
                }
            }
            assert forall|k: int| 0 <= k < x.segments.len() - 1 implies (
            #[trigger] x.segments[k]).b == x.segments[k + 1].a by {
                if k < i - 1 {
                    assert(x.segments[k] == segs[k]);
                    assert(x.segments[k + 1] == segs[k + 1]);
                } else {
                    assert(x.segments[k] == segs[i - 1]);
                    assert(x.segments[k + 1] == ns);
                    assert(segs[i - 1].b == segs[i].a);
                }
            }
        }
        // y's total has the value of the total less the target distance:
        // (m - a) - rem where rem has the value dist - a.
        lemma_ops_wf(m, a);
        lemma_sub_congr(m, m, a, a);
        lemma_sub_congr(rat_sub_s(m, a), rat_sub_s(m, a), rem, rat_sub_s(dist, a));
        lemma_sub_sub(m, a, rat_sub_s(dist, a));
        lemma_ops_wf(rat_sub_s(m, a), rat_sub_s(dist, a));
        lemma_ops_wf(a, rat_sub_s(dist, a));
        // m - (a + (dist - a)) has the value m - dist.
        lemma_sub_congr(m, m, rat_add_s(a, rat_sub_s(dist, a)), dist);
        lemma_ops_wf(m, rat_add_s(a, rat_sub_s(dist, a)));
        lemma_req_trans(
            rat_sub_s(rat_sub_s(m, a), rat_sub_s(dist, a)),
            rat_sub_s(m, rat_add_s(a, rat_sub_s(dist, a))),
            rat_sub_s(m, dist),
        );
        lemma_req_trans(
            rat_sub_s(rat_sub_s(m, a), rem),
            rat_sub_s(rat_sub_s(m, a), rat_sub_s(dist, a)),
            rat_sub_s(m, dist),
        );
        assert(rat_eq_s(y.mag, rat_sub_s(m, dist)));
        // y's total is the sum of its segments.
        let tail = segs.subrange(i + 1, n);
        let ys = y.segments;
        lemma_sum_decompose(segs, i + 1);
        let b2 = seg_sum(tail);
        assert(sum_at(segs, i + 1) == rat_add_s(a, seg.mag));
        lemma_ops_wf(a, seg.mag);
        lemma_add_to_sub(big, rat_add_s(a, seg.mag), b2);
        lemma_sum_decompose(ys, 1);
        assert(ys.subrange(1, ys.len() as int) =~= tail);
        assert(ys[0] == ms);
        assert(sum_at(ys, 0) == rat_int(0));
        assert(sum_at(ys, 1) == rat_add_s(sum_at(ys, 0), ms.mag));
        lemma_ops_wf(sum_at(ys, 0), ms.mag);
        lemma_add_zero(ms.mag);
        lemma_ops_wf(big, rat_add_s(a, seg.mag));
        lemma_ops_wf(a, seg.mag);
        lemma_ops_wf(sum_at(ys, 1), b2);
        lemma_ops_wf(ms.mag, b2);
        lemma_add_congr(sum_at(ys, 1), ms.mag, b2, b2);
        lemma_req_trans(
            seg_sum(ys),
            rat_add_s(sum_at(ys, 1), b2),
            rat_add_s(ms.mag, b2),
        );
        // b2 has the value (m' - a) - M for m' the segment sum.
        lemma_sub_sub(big, a, seg.mag);
        lemma_ops_wf(big, a);
        lemma_ops_wf(rat_sub_s(big, a), seg.mag);
        lemma_req_trans(
            b2,
            rat_sub_s(big, rat_add_s(a, seg.mag)),
            rat_sub_s(rat_sub_s(big, a), seg.mag),
        );
        lemma_add_congr(ms.mag, ms.mag, b2, rat_sub_s(rat_sub_s(big, a), seg.mag));
        lemma_ops_wf(ms.mag, rat_sub_s(rat_sub_s(big, a), seg.mag));
        // (M - rem) + ((m' - a) - M)  ~  ((M + ((m' - a) - M)) - rem  ~  (m' - a) - rem
        lemma_add_sub_swap(seg.mag, rem, rat_sub_s(rat_sub_s(big, a), seg.mag));
        lemma_add_sub(rat_sub_s(big, a), seg.mag);
        lemma_ops_wf(seg.mag, rat_sub_s(rat_sub_s(big, a), seg.mag));
        lemma_sub_congr(
            rat_add_s(seg.mag, rat_sub_s(rat_sub_s(big, a), seg.mag)),
            rat_sub_s(big, a),
            rem,
            rem,
        );
        lemma_ops_wf(rat_add_s(seg.mag, rat_sub_s(rat_sub_s(big, a), seg.mag)), rem);
        lemma_req_trans(
            rat_add_s(ms.mag, rat_sub_s(rat_sub_s(big, a), seg.mag)),
            rat_sub_s(rat_add_s(seg.mag, rat_sub_s(rat_sub_s(big, a), seg.mag)), rem),
            rat_sub_s(rat_sub_s(big, a), rem),
        );
        lemma_req_trans(
            rat_add_s(ms.mag, b2),
            rat_add_s(ms.mag, rat_sub_s(rat_sub_s(big, a), seg.mag)),
            rat_sub_s(rat_sub_s(big, a), rem),
        );
        lemma_req_trans(
            seg_sum(ys),
            rat_add_s(ms.mag, b2),
            rat_sub_s(rat_sub_s(big, a), rem),
        );
        // and (m' - a) - rem has the value of y's total (m - a) - rem.
        lemma_sub_congr(m, big, a, a);
        lemma_sub_congr(rat_sub_s(m, a), rat_sub_s(big, a), rem, rem);
        lemma_ops_wf(rat_sub_s(big, a), rem);
        lemma_ops_wf(rat_sub_s(m, a), rem);
        lemma_req_trans(
            y.mag,
            rat_sub_s(rat_sub_s(big, a), rem),
            seg_sum(ys),
        );
        assert(rat_eq_s(y.mag, seg_sum(ys)));
        assert(path_wf(y)) by {
            assert forall|k: int| 0 <= k < ys.len() implies seg_wf(#[trigger] ys[k])
                && ys[k].mag.num >= 0 by {
                if k >= 1 {
                    assert(ys[k] == segs[i + k]);
                    assert(seg_wf(segs[i + k]));
                }
            }
            assert forall|k: int| 0 <= k < ys.len() - 1 implies (#[trigger] ys[k]).b
                == ys[k + 1].a by {
                if k == 0 {
                    assert(ys[1] == segs[i + 1]);
                    assert(segs[i].b == segs[i + 1].a);
                } else {
                    assert(ys[k] == segs[i + k]);
                    assert(ys[k + 1] == segs[i + k + 1]);
                }
            }
        }
        assert(x.segments.last() == ns);
        assert(y.segments[0] == ms);
        if i + 1 < n {
            assert(y.segments.last() == segs[n - 1]);
        } else {
            assert(y.segments.last() == ms);
        }
        if i >= 1 {
            assert(x.segments[0] == segs[0]);
        }
    } else {
        // No stop here: the remainder covers this whole segment, so the
        // walk moves on, and it cannot move past the final segment because
        // the target distance is below the total.
        assert(rat_le_s(seg.mag, rem));
        lemma_ops_wf(rem, seg.mag);
        lemma_sub_zero(rem, seg.mag);
        assert(rat_le_s(rat_int(0), rem_at(segs, dist, i + 1)));
        if i + 1 == n {
            lemma_rem_sum(segs, dist, n);
            lemma_rem_wf(segs, dist, n);
            lemma_sum_at_wf(segs, n);
            lemma_ops_wf(dist, sum_at(segs, n));
            lemma_le_congr(
                rat_int(0),
                rat_int(0),
                rem_at(segs, dist, n),
                rat_sub_s(dist, sum_at(segs, n)),
            );
            lemma_sub_zero(dist, sum_at(segs, n));
            lemma_le_congr(m, big, dist, dist);
            assert(false);
        } else {
            lemma_cut_walk_props(p, dist, i + 1);
        }
    }
}

pub open spec fn opt_path_view(o: Option<LineStringMeasured>) -> Option<PathV> {
    match o {
        Option::None => None,
        Option::Some(p) => Some(p@),
    }
}

/// The double cut: cut at the start fraction, then cut the remainder at
/// the end fraction re-normalized against the remainder's share of the
/// length, so that both fractions are read against the original total.  A
/// remainder whose share of the length is zero is not cut again.
pub open spec fn cut_twice_s(p: PathV, fs: Ratio, fe: Ratio) -> (
    Option<PathV>,
    Option<PathV>,
    Option<PathV>,
) {
    let first = cut_s(p, fs);
    match first.1 {
        None => (first.0, None, None),
        Some(bc) => {
            let s1 = if rat_le_s(rat_int(0), fs) {
                fs
            } else {
                rat_int(0)
            };
            let den = rat_sub_s(rat_int(1), s1);
            if den.num == 0 {
                (first.0, None, None)
            } else {
                let second = cut_s(bc, rat_div_s(rat_sub_s(fe, s1), den));
                (first.0, second.0, second.1)
            }
        },
    }
}

/// The parts of a cut are valid paths: a boundary cut returns the path
/// itself, and an inner cut returns the two walk parts, which
/// [`lemma_cut_walk_props`] shows well-formed.
pub proof fn lemma_cut_valid(p: PathV, f: Ratio)
    requires
        path_wf(p),
        rat_wf(f),
    ensures
        cut_s(p, f).0 is Some ==> path_wf(cut_s(p, f).0.unwrap()),
        cut_s(p, f).1 is Some ==> path_wf(cut_s(p, f).1.unwrap()),
    {
    let dist = rat_mul_s(p.mag, f);
    lemma_ops_wf(p.mag, f);
    if !rat_le_s(dist, rat_int(0)) && !rat_le_s(p.mag, dist) {
        assert forall|k: int| 0 <= k < p.segments.len() implies rat_wf(
            (#[trigger] p.segments[k]).mag,
        ) by {
            assert(seg_wf(p.segments[k]));
        }
        if p.segments.len() == 0 {
            // An empty path has value zero, which the two excluded branches
            // leave no room for.
            assert(seg_sum(p.segments) == rat_int(0));
            lemma_le_congr(p.mag, rat_int(0), dist, dist);
            assert(false);
        }
        lemma_cut_walk_props(p, dist, 0);
    }
}

impl LineStringMeasured {
    /// Cuts at `fraction_start`, then cuts the remainder so that
    /// `fraction_end` is still read against the original total length.
    pub fn cut_twice(&self, fraction_start: &Rat, fraction_end: &Rat) -> (r: (
        Option<LineStringMeasured>,
        Option<LineStringMeasured>,
        Option<LineStringMeasured>,
    ))
        requires
            self.valid(),
            fraction_start.valid(),
            fraction_end.valid(),
        ensures
            (opt_path_view(r.0), opt_path_view(r.1), opt_path_view(r.2)) == cut_twice_s(
                self@,
                fraction_start@,
                fraction_end@,
            ),
    {
        let (a, bc) = self.cut(fraction_start);
        match bc {
            Some(bc) => {
                proof {
                    lemma_cut_valid(self@, fraction_start@);
                }
                let zero = Rat::from_i64(0);
                let one = Rat::from_i64(1);
                let a_fraction = if zero.le(fraction_start) {
                    fraction_start.dup()
                } else {
                    zero
                };
                let bc_fraction = one.sub(&a_fraction);
                if bc_fraction.is_zero() {
                    return (a, None, None);
                }
                let f2 = fraction_end.sub(&a_fraction).div(&bc_fraction);
                let (b, c) = bc.cut(&f2);
                (a, b, c)
            },
            None => (a, None, None),
        }
    }
}

/// The interpolation walk from index `i`: the point on the first segment
/// at which the accumulated length reaches the target distance,
/// interpolated linearly backward from that segment's end point; past the
/// final segment, the final end point.  A zero-length segment that is
/// reached contributes its end point.
pub open spec fn interp_walk_s(p: PathV, dist: Ratio, i: int) -> PointV
    decreases p.segments.len() - i,
{
    if i < 0 || i >= p.segments.len() {
        p.segments.last().b
    } else {
        let seg = p.segments[i];
        let acc = sum_at(p.segments, i + 1);
        if rat_le_s(dist, acc) {
            if seg.mag.num == 0 {
                seg.b
            } else {
                pv_sub_s(
                    seg.b,
                    pv_scale_s(
                        pv_div_s(pv_sub_s(seg.b, seg.a), seg.mag),
                        rat_sub_s(acc, dist),
                    ),
                )
            }
        } else {
            interp_walk_s(p, dist, i + 1)
        }
    }
}

/// The interpolated point at a length fraction: `None` only for the empty
/// path; the first point for any fraction at or below zero; otherwise the
/// walk's point, which clamps to the final point past the end.
pub open spec fn interpolate_s(p: PathV, f: Ratio) -> Option<PointV> {
    if p.segments.len() == 0 {
        None
    } else if rat_le_s(f, rat_int(0)) {
        Some(p.segments[0].a)
    } else {
        Some(interp_walk_s(p, rat_mul_s(p.mag, f), 0))
    }
}

pub open spec fn opt_point_view(o: Option<Vector2>) -> Option<PointV> {
    match o {
        Option::None => None,
        Option::Some(v) => Some(v@),
    }
}

/// The direction walk: the direction vector `b - a` of the first segment
/// at which the accumulated length reaches the target distance; the zero
/// vector past the final segment.
pub open spec fn direction_walk_s(p: PathV, dist: Ratio, i: int) -> PointV
    decreases p.segments.len() - i,
{
    if i < 0 || i >= p.segments.len() {
        PointV { x: rat_int(0), y: rat_int(0) }
    } else {
        let seg = p.segments[i];
        if rat_le_s(dist, sum_at(p.segments, i + 1)) {
            pv_sub_s(seg.b, seg.a)
        } else {
            direction_walk_s(p, dist, i + 1)
        }
    }
}

/// The direction of a path at a length fraction: the direction vector of
/// the segment holding the target distance, or the zero vector when no
/// segment does (the empty path included).
pub open spec fn direction_s(p: PathV, f: Ratio) -> PointV {
    direction_walk_s(p, rat_mul_s(p.mag, f), 0)
}

impl LineStringMeasured {
    /// The point at the arc-length distance `total * fraction`.
    ///
    /// `None` only for a path of zero segments.  At or below fraction zero
    /// the first point is returned; past the end, the final point.
    pub fn interpolate(&self, fraction_of_length: &Rat) -> (r: Option<Vector2>)
        requires
            self.valid(),
            fraction_of_length.valid(),
        ensures
            opt_point_view(r) == interpolate_s(self@, fraction_of_length@),
            r is Some ==> r.unwrap().valid(),
    {
        let ghost p = self@;
        let ghost f = fraction_of_length@;
        if self.segments.len() == 0 {
            return None;
        }
        let zero = Rat::from_i64(0);
        if fraction_of_length.le(&zero) {
            proof {
                assert(seg_wf(p.segments[0]));
            }
            return Some(self.segments[0].a.dup());
        }
        let de_normalised_distance_along = self.mag.mul(fraction_of_length);
        let ghost dist = de_normalised_distance_along@;
        let n = self.segments.len();
        let mut len_so_far = Rat::from_i64(0);
        let mut i: usize = 0;
        while i < n
            invariant
                self.valid(),
                fraction_of_length.valid(),
                p == self@,
                f == fraction_of_length@,
                n == self.segments@.len(),
                n > 0,
                !rat_le_s(f, rat_int(0)),
                dist == rat_mul_s(p.mag, f),
                dist == de_normalised_distance_along@,
                de_normalised_distance_along.valid(),
                len_so_far.valid(),
                i <= n,
                len_so_far@ == sum_at(p.segments, i as int),
                interp_walk_s(p, dist, 0) == interp_walk_s(p, dist, i as int),
            decreases n - i,
        {
            proof {
                assert(seg_wf(p.segments[i as int]));
            }
            let seg = &self.segments[i];
            len_so_far = len_so_far.add(&seg.mag);
            if de_normalised_distance_along.le(&len_so_far) {
                if seg.mag.is_zero() {
                    return Some(seg.b.dup());
                }
                let back = seg.b.sub(&seg.a).div(&seg.mag).mul(
                    &len_so_far.sub(&de_normalised_distance_along),
                );
                return Some(seg.b.sub(&back));
            }
            i += 1;
        }
        proof {
            assert(seg_wf(p.segments[n - 1]));
        }
        Some(self.segments[n - 1].b.dup())
    }

    /// The direction vector of the segment holding the arc-length distance
    /// `total * fraction`, or the zero vector when no segment does (the
    /// empty path included).
    pub fn direction(&self, fraction_of_length: &Rat) -> (r: Vector2)
        requires
            self.valid(),
            fraction_of_length.valid(),
        ensures
            r@ == direction_s(self@, fraction_of_length@),
            r.valid(),
    {
        let ghost p = self@;
        let ghost f = fraction_of_length@;
        let de_normalised_distance_along = self.mag.mul(fraction_of_length);
        let ghost dist = de_normalised_distance_along@;
        let n = self.segments.len();
        let mut len_so_far = Rat::from_i64(0);
        let mut i: usize = 0;
        while i < n
            invariant
                self.valid(),
                fraction_of_length.valid(),
                p == self@,
                f == fraction_of_length@,
                n == self.segments@.len(),
                dist == rat_mul_s(p.mag, f),
                dist == de_normalised_distance_along@,
                i <= n,
                len_so_far@ == sum_at(p.segments, i as int),
                direction_walk_s(p, dist, 0) == direction_walk_s(p, dist, i as int),
            decreases n - i,
        {
            proof {
                assert(seg_wf(p.segments[i as int]));
            }
            let seg = &self.segments[i];
            len_so_far = len_so_far.add(&seg.mag);
            if de_normalised_distance_along.le(&len_so_far) {
                return seg.b.sub(&seg.a);
            }
            i += 1;
        }
        Vector2::new(Rat::from_i64(0), Rat::from_i64(0))
    }
}

/// A segment whose direction vector has a squared norm of zero offers no
/// normal to offset along.
pub open spec fn seg_degenerate_s(s: SegmentV) -> bool {
    pv_mag_sq_s(pv_sub_s(s.b, s.a)).num == 0
}

/// A segment shifted by `d` along the unit left normal of its direction; a
/// pure translation, so the measured length is carried unchanged.
pub open spec fn seg_offset_s(s: SegmentV, d: Ratio) -> SegmentV {
    let ov = pv_scale_s(pv_unit_s(pv_left_s(pv_sub_s(s.b, s.a))), d);
    SegmentV { a: pv_add_s(s.a, ov), b: pv_add_s(s.b, ov), mag: s.mag }
}

pub open spec fn offset_segs_s(segs: Seq<SegmentV>, d: Ratio) -> Seq<SegmentV> {
    segs.map_values(|s: SegmentV| seg_offset_s(s, d))
}

/// The join between two consecutive offset segments, classified by the
/// intersection parameters of their carrying lines:
/// parallel lines are treated as already joined (the first end point);
/// an intersection inside both segments is a concave corner (one sharp
/// vertex); one outside both segments on the positive side of the first is
/// a convex corner (one projected vertex); every other case is a bevel of
/// the two facing end points.  No miter limit is enforced.
pub open spec fn join_points_s(s1: SegmentV, s2: SegmentV) -> Seq<PointV> {
    if seg_cross_s(s1, s2).num == 0 {
        seq![s1.b]
    } else {
        let tab = seg_time_ab_s(s1, s2);
        let tcd = seg_time_cd_s(s1, s2);
        let tip_ab = rat_le_s(rat_int(0), tab) && rat_le_s(tab, rat_int(1));
        let tip_cd = rat_le_s(rat_int(0), tcd) && rat_le_s(tcd, rat_int(1));
        if tip_ab && tip_cd {
            seq![seg_point_s(s1, s2)]
        } else if !tip_ab && !tip_cd {
            if rat_lt_s(rat_int(0), tab) {
                seq![seg_point_s(s1, s2)]
            } else {
                seq![s1.b, s2.a]
            }
        } else {
            seq![s1.b, s2.a]
        }
    }
}

/// The offset point sequence up to and including the join before segment
/// `k`: the first offset start point, then the joins of the consecutive
/// pairs.
pub open spec fn offset_joins_s(offs: Seq<SegmentV>, k: int) -> Seq<PointV>
    decreases k,
{
    if k <= 0 {
        seq![offs[0].a]
    } else {
        offset_joins_s(offs, k - 1) + join_points_s(offs[k - 1], offs[k])
    }
}

/// The full offset point sequence: all joins, then the last offset end
/// point.
pub open spec fn offset_points_s(offs: Seq<SegmentV>) -> Seq<PointV> {
    offset_joins_s(offs, offs.len() - 1).push(offs.last().b)
}

/// The offset-and-rejoin result: `None` for the empty path and for a path
/// with a degenerate segment; otherwise the rejoined points of the offset
/// segments.
pub open spec fn offset_basic_s(p: PathV, d: Ratio) -> Option<Seq<PointV>> {
    if p.segments.len() == 0 || (exists|i: int|
        0 <= i < p.segments.len() && seg_degenerate_s(#[trigger] p.segments[i])) {
        None
    } else {
        Some(offset_points_s(offset_segs_s(p.segments, d)))
    }
}

impl LineStringMeasured {
    /// One offset segment per input segment, each shifted by `distance`
    /// along its unit left normal; lengths are carried unchanged.  Demands
    /// a path with no degenerate segment.
    pub fn offset_segments(&self, distance: &Rat) -> (r: Vec<LineSegmentMeasured>)
        requires
            self.valid(),
            distance.valid(),
            forall|i: int|
                0 <= i < self@.segments.len() ==> !seg_degenerate_s(#[trigger] self@.segments[i]),
        ensures
            segs_view(r@) == offset_segs_s(self@.segments, distance@),
            forall|i: int| 0 <= i < r@.len() ==> (#[trigger] r@[i]).valid(),
    {
        let ghost p = self@;
        let n = self.segments.len();
        let mut r: Vec<LineSegmentMeasured> = Vec::new();
        let mut i: usize = 0;
        while i < n
            invariant
                self.valid(),
                distance.valid(),
                p == self@,
                n == self.segments@.len(),
                forall|k: int|
                    0 <= k < p.segments.len() ==> !seg_degenerate_s(#[trigger] p.segments[k]),
                i <= n,
                r@.len() == i,
                forall|k: int| 0 <= k < i ==> r@[k]@ == seg_offset_s(p.segments[k], distance@),
                forall|k: int| 0 <= k < i ==> (#[trigger] r@[k]).valid(),
            decreases n - i,
        {
            proof {
                assert(seg_wf(p.segments[i as int]));
                assert(!seg_degenerate_s(p.segments[i as int]));
            }
            let seg = &self.segments[i];
            let delta = seg.b.sub(&seg.a);
            proof {
                crate::vector2::lemma_mag_sq_shape(delta@);
                crate::vector2::lemma_mag_sq_shape(pv_left_s(delta@));
                assert(pv_mag_sq_s(pv_left_s(delta@)).num != 0) by (nonlinear_arith)
                    requires
                        delta@.x.den > 0,
                        delta@.y.den > 0,
                        pv_mag_sq_s(delta@).num != 0,
                        pv_mag_sq_s(delta@) == rat_add_s(
                            rat_mul_s(delta@.x, delta@.x),
                            rat_mul_s(delta@.y, delta@.y),
                        ),
                        pv_mag_sq_s(pv_left_s(delta@)) == rat_add_s(
                            rat_mul_s(rat_neg_s(delta@.y), rat_neg_s(delta@.y)),
                            rat_mul_s(delta@.x, delta@.x),
                        ),
                ;
            }
            let offset_vector = delta.left().unit().mul(distance);
            r.push(
                LineSegmentMeasured {
                    a: seg.a.add(&offset_vector),
                    b: seg.b.add(&offset_vector),
                    mag: seg.mag.dup(),
                },
            );
            i += 1;
        }
        proof {
            assert(segs_view(r@) =~= offset_segs_s(p.segments, distance@));
        }
        r
    }

    /// The offset-and-rejoin algorithm: offsets every segment, then walks
    /// consecutive offset pairs through the intersection primitive to
    /// classify and join each corner.  Returns `None` for the empty path
    /// and for a path holding a segment with a zero direction vector,
    /// whose normal is undefined.
    #[verifier::rlimit(60)]
    pub fn offset_basic(&self, distance: &Rat) -> (r: Option<Vec<Vector2>>)
        requires
            self.valid(),
            distance.valid(),
        ensures
            r is Some <==> offset_basic_s(self@, distance@) is Some,
            r is Some ==> points_view(r.unwrap()@) == offset_basic_s(self@, distance@).unwrap(),
            r is Some ==> forall|i: int|
                0 <= i < r.unwrap()@.len() ==> (#[trigger] r.unwrap()@[i]).valid(),
    {
        let ghost p = self@;
        let n = self.segments.len();
        if n == 0 {
            return None;
        }
        let mut k: usize = 0;
        while k < n
            invariant
                self.valid(),
                p == self@,
                n == self.segments@.len(),
                k <= n,
                forall|j: int| 0 <= j < k ==> !seg_degenerate_s(#[trigger] p.segments[j]),
            decreases n - k,
        {
            let seg = &self.segments[k];
            if seg.b.sub(&seg.a).magnitude_squared().is_zero() {
                proof {
                    assert(seg_degenerate_s(p.segments[k as int]));
                }
                return None;
            }
            k += 1;
        }
        let offs = self.offset_segments(distance);
        let ghost ov = segs_view(offs@);
        proof {
            assert(ov.len() == n);
        }
        let mut points: Vec<Vector2> = Vec::new();
        points.push(offs[0].a.dup());
        let zero = Rat::from_i64(0);
        let one = Rat::from_i64(1);
        let mut i: usize = 0;
        while i < n - 1
            invariant
                self.valid(),
                distance.valid(),
                p == self@,
                n == self.segments@.len(),
                n >= 1,
                offs@.len() == n,
                ov == segs_view(offs@),
                ov == offset_segs_s(p.segments, distance@),
                forall|j: int| 0 <= j < n ==> (#[trigger] offs@[j]).valid(),
                zero@ == rat_int(0),
                one@ == rat_int(1),
                i <= n - 1,
                points_view(points@) == offset_joins_s(ov, i as int),
                forall|j: int| 0 <= j < points@.len() ==> (#[trigger] points@[j]).valid(),
            decreases n - 1 - i,
        {
            let seg1 = &offs[i];
            let seg2 = &offs[i + 1];
            let ab = seg1.b.sub(&seg1.a);
            let cd = seg2.b.sub(&seg2.a);
            let cross = ab.cross(&cd);
            if cross.is_zero() {
                points.push(seg1.b.dup());
            } else {
                match seg1.intersect(seg2) {
                    Some(hit) => {
                        let (intersection_point, time_ab, time_cd) = hit;
                        let tip_ab = zero.le(&time_ab) && time_ab.le(&one);
                        let tip_cd = zero.le(&time_cd) && time_cd.le(&one);
                        if tip_ab && tip_cd {
                            points.push(intersection_point);
                        } else if !tip_ab && !tip_cd {
                            if zero.lt(&time_ab) {
                                points.push(intersection_point);
                            } else {
                                points.push(seg1.b.dup());
                                points.push(seg2.a.dup());
                            }
                        } else {
                            points.push(seg1.b.dup());
                            points.push(seg2.a.dup());
                        }
                    },
                    None => {
                        proof {
                            assert(false);
                        }
                    },
                }
            }
            proof {
                assert(points_view(points@) =~= offset_joins_s(ov, i + 1));
            }
            i += 1;
        }
        points.push(offs[n - 1].b.dup());
        proof {
            assert(points_view(points@) =~= offset_points_s(ov));
        }
        Some(points)
    }
}

/// The cumulative distance of point `i`, re-scaled to an external distance
/// domain: `start_offset` plus the walked share of the length scaled onto
/// `total_length - start_offset`.
pub open spec fn scaled_cum_s(p: PathV, start: Ratio, total: Ratio, i: int) -> Ratio {
    rat_add_s(
        start,
        rat_mul_s(rat_div_s(sum_at(p.segments, i), p.mag), rat_sub_s(total, start)),
    )
}

impl LineStringMeasured {
    /// The points as `(x, y)` pairs.
    pub fn into_tuples(&self) -> (r: Vec<(Rat, Rat)>)
        ensures
            r@.len() == path_points_s(self@).len(),
            forall|i: int|
                0 <= i < r@.len() ==> (#[trigger] r@[i]).0@ == path_points_s(self@)[i].x
                    && r@[i].1@ == path_points_s(self@)[i].y,
    {
        let pts = self.into_vector2();
        let mut r: Vec<(Rat, Rat)> = Vec::new();
        let mut i: usize = 0;
        while i < pts.len()
            invariant
                i <= pts@.len(),
                r@.len() == i,
                forall|k: int|
                    0 <= k < i ==> (#[trigger] r@[k]).0@ == pts@[k]@.x && r@[k].1@ == pts@[k]@.y,
            decreases pts@.len() - i,
        {
            r.push((pts[i].x.dup(), pts[i].y.dup()));
            i += 1;
        }
        proof {
            assert(points_view(pts@) =~= path_points_s(self@));
        }
        r
    }

    /// The points as `(x, y, cumulative_distance)` triples, with the
    /// cumulative distance re-parameterized against an external distance
    /// domain running from `start_offset` to `total_length`.  Demands a
    /// path of non-zero total length.
    pub fn into_tuples_measured(&self, start_offset: &Rat, total_length: &Rat) -> (r: Vec<
        (Rat, Rat, Rat),
    >)
        requires
            self.valid(),
            start_offset.valid(),
            total_length.valid(),
            self@.mag.num != 0,
        ensures
            r@.len() == path_points_s(self@).len(),
            forall|i: int|
                0 <= i < r@.len() ==> (#[trigger] r@[i]).0@ == path_points_s(self@)[i].x
                    && r@[i].1@ == path_points_s(self@)[i].y && r@[i].2@ == scaled_cum_s(
                    self@,
                    start_offset@,
                    total_length@,
                    i,
                ),
    {
        let ghost p = self@;
        let n = self.segments.len();
        let mut r: Vec<(Rat, Rat, Rat)> = Vec::new();
        if n == 0 {
            return r;
        }
        let span = total_length.sub(start_offset);
        let mut cum = Rat::from_i64(0);
        let mut i: usize = 0;
        while i < n
            invariant
                self.valid(),
                start_offset.valid(),
                total_length.valid(),
                p == self@,
                p.mag.num != 0,
                n == self.segments@.len(),
                span@ == rat_sub_s(total_length@, start_offset@),
                i <= n,
                r@.len() == i,
                cum@ == sum_at(p.segments, i as int),
                forall|k: int|
                    0 <= k < i ==> (#[trigger] r@[k]).0@ == p.segments[k].a.x && r@[k].1@
                        == p.segments[k].a.y && r@[k].2@ == scaled_cum_s(
                        p,
                        start_offset@,
                        total_length@,
                        k,
                    ),
            decreases n - i,
        {
            let seg = &self.segments[i];
            let d = start_offset.add(&cum.div(&self.mag).mul(&span));
            r.push((seg.a.x.dup(), seg.a.y.dup(), d));
            cum = cum.add(&seg.mag);
            i += 1;
        }
        let d = start_offset.add(&cum.div(&self.mag).mul(&span));
        let last = &self.segments[n - 1];
        r.push((last.b.x.dup(), last.b.y.dup(), d));
        r
    }
}

/// Copies the segments of `v` with indices in `from..to`.
fn clone_range(v: &Vec<LineSegmentMeasured>, from: usize, to: usize) -> (r: Vec<
    LineSegmentMeasured,
>)
    requires
        from <= to <= v@.len(),
    ensures
        segs_view(r@) == segs_view(v@).subrange(from as int, to as int),
        r@.len() == to - from,
{
    let mut r: Vec<LineSegmentMeasured> = Vec::new();
    let mut i: usize = from;
    while i < to
        invariant
            from <= i <= to <= v@.len(),
            r@.len() == i - from,
            forall|k: int| 0 <= k < r@.len() ==> r@[k]@ == v@[from + k]@,
        decreases to - i,
    {
        r.push(v[i].dup());
        i += 1;
    }
    proof {
        assert(segs_view(r@) =~= segs_view(v@).subrange(from as int, to as int));
    }
    r
}

impl LineStringMeasured {
    /// Splits the path at the arc-length distance `total * fraction`.
    ///
    /// A fraction at or below zero returns the whole path in the second
    /// slot; a target distance at or beyond the total returns it in the
    /// first; otherwise both slots hold a part, split per [`cut_s`].
    pub fn cut(&self, fraction_of_length: &Rat) -> (r: (
        Option<LineStringMeasured>,
        Option<LineStringMeasured>,
    ))
        requires
            self.valid(),
            fraction_of_length.valid(),
        ensures
            (opt_path_view(r.0), opt_path_view(r.1)) == cut_s(self@, fraction_of_length@),
    {
        let ghost p = self@;
        let ghost f = fraction_of_length@;
        let distance_along = self.mag.mul(fraction_of_length);
        let ghost dist = distance_along@;
        let zero = Rat::from_i64(0);
        if distance_along.le(&zero) {
            return (None, Some(self.dup()));
        } else if self.mag.le(&distance_along) {
            return (Some(self.dup()), None);
        }
        let n = self.segments.len();
        let mut distance_so_far = Rat::from_i64(0);
        let mut distance_remaining = distance_along.dup();
        let mut index: usize = 0;
        while index < n
            invariant
                self.valid(),
                p == self@,
                n == self.segments@.len(),
                rat_wf(dist),
                dist == distance_along@,
                dist == rat_mul_s(p.mag, fraction_of_length@),
                !rat_le_s(dist, rat_int(0)),
                !rat_le_s(p.mag, dist),
                index <= n,
                distance_so_far@ == sum_at(p.segments, index as int),
                distance_remaining@ == rem_at(p.segments, dist, index as int),
                rat_le_s(rat_int(0), rem_at(p.segments, dist, index as int)),
                cut_walk_s(p, dist, 0) == cut_walk_s(p, dist, index as int),
                zero@ == rat_int(0),
            decreases n - index,
        {
            proof {
                assert(seg_wf(p.segments[index as int]));
            }
            let seg = &self.segments[index];
            if distance_remaining.le(&zero) {
                let part1 = clone_range(&self.segments, 0, index);
                let part2 = clone_range(&self.segments, index, n);
                let second = LineStringMeasured {
                    segments: part2,
                    mag: self.mag.sub(&distance_along),
                };
                let first = LineStringMeasured { segments: part1, mag: distance_along };
                proof {
                    assert(first@ =~= cut_walk_s(p, dist, index as int).0);
                    assert(second@ =~= cut_walk_s(p, dist, index as int).1);
                }
                return (Some(first), Some(second));
            } else if distance_remaining.lt(&seg.mag) {
                proof {
                    assert forall|k: int|
                        0 <= k < p.segments.len() implies rat_wf(
                        (#[trigger] p.segments[k]).mag,
                    ) by {
                        assert(seg_wf(p.segments[k]));
                    }
                    lemma_rem_wf(p.segments, dist, index as int);
                    lemma_lt_pos(distance_remaining@, seg@.mag);
                }
                let ab_unit = seg.b.sub(&seg.a).div(&seg.mag);
                let intermediate = seg.a.add(&ab_unit.mul(&distance_remaining));
                let mut part1 = clone_range(&self.segments, 0, index);
                part1.push(
                    LineSegmentMeasured {
                        a: seg.a.dup(),
                        b: intermediate.dup(),
                        mag: distance_remaining.dup(),
                    },
                );
                let mut part2: Vec<LineSegmentMeasured> = Vec::new();
                part2.push(
                    LineSegmentMeasured {
                        a: intermediate,
                        b: seg.b.dup(),
                        mag: seg.mag.sub(&distance_remaining),
                    },
                );
                let mut tail = clone_range(&self.segments, index + 1, n);
                part2.append(&mut tail);
                let first = LineStringMeasured {
                    segments: part1,
                    mag: distance_so_far.add(&distance_remaining),
                };
                let second = LineStringMeasured {
                    segments: part2,
                    mag: self.mag.sub(&distance_so_far).sub(&distance_remaining),
                };
                proof {
                    assert(segs_view(first.segments@) =~= cut_walk_s(
                        p,
                        dist,
                        index as int,
                    ).0.segments);
                    assert(segs_view(second.segments@) =~= cut_walk_s(
                        p,
                        dist,
                        index as int,
                    ).1.segments);
                    assert(first@ =~= cut_walk_s(p, dist, index as int).0);
                    assert(second@ =~= cut_walk_s(p, dist, index as int).1);
                }
                return (Some(first), Some(second));
            }
            distance_so_far = distance_so_far.add(&seg.mag);
            distance_remaining = distance_remaining.sub(&seg.mag);
            proof {
                let i = index as int;
                let rem = rem_at(p.segments, dist, i);
                let m = p.segments[i].mag;
                lemma_rem_wf(p.segments, dist, i);
                lemma_ops_wf(rem, m);
                lemma_sub_zero(rem, m);
            }
            index += 1;
        }
        proof {
            // The walk cannot pass the final segment: a non-negative
            // remainder past the end would mean the target distance reaches
            // the total, which the branch above excluded.
            let n2 = p.segments.len() as int;
            lemma_rem_sum(p.segments, dist, n2);
            lemma_rem_wf(p.segments, dist, n2);
            lemma_sum_at_wf(p.segments, n2);
            lemma_ops_wf(dist, sum_at(p.segments, n2));
            lemma_le_congr(
                rat_int(0),
                rat_int(0),
                rem_at(p.segments, dist, n2),
                rat_sub_s(dist, sum_at(p.segments, n2)),
            );
            lemma_sub_zero(dist, sum_at(p.segments, n2));
            lemma_le_congr(p.mag, seg_sum(p.segments), dist, dist);
            assert(false);
        }
        (None, None)
    }
}

/// The sum of the measured distances of a point sequence's consecutive
/// pairs.
pub open spec fn distance_sum_s(pts: Seq<PointV>) -> Ratio
    decreases pts.len(),
{
    if pts.len() < 2 {
        rat_int(0)
    } else {
        rat_add_s(
            distance_sum_s(pts.drop_last()),
            pv_dist_s(pts[pts.len() - 2], pts[pts.len() - 1]),
        )
    }
}

/// The total length of the path measured over a point sequence is exactly
/// the sum of the measured distances of its consecutive points.
pub proof fn lemma_magnitude_is_distance_sum(pts: Seq<PointV>)
    ensures
        measure_s(pts).mag == distance_sum_s(pts),
    decreases pts.len(),
{
    let n = pts.len() as int;
    if n >= 2 {
        lemma_magnitude_is_distance_sum(pts.drop_last());
        let ms = measure_segs_s(pts);
        let ms2 = measure_segs_s(pts.drop_last());
        assert forall|k: int| 0 <= k < ms2.len() implies ms2[k] == ms[k] by {
            assert(pts.drop_last()[k] == pts[k]);
            if k + 1 < n - 1 {
                assert(pts.drop_last()[k + 1] == pts[k + 1]);
            }
        }
        lemma_sum_at_prefix(ms, ms2, n - 2);
        assert(seg_sum(ms) == rat_add_s(sum_at(ms, n - 2), ms[n - 2].mag));
    }
}

/// Cutting at a fraction of value zero keeps the whole path behind the
/// cut; cutting at a fraction of value one, on a path of positive length,
/// keeps the whole path before it.
pub proof fn lemma_cut_at_ends(p: PathV, f: Ratio)
    requires
        path_wf(p),
        rat_wf(f),
    ensures
        rat_eq_s(f, rat_int(0)) ==> cut_s(p, f) == (None::<PathV>, Some(p)),
        rat_eq_s(f, rat_int(1)) && rat_lt_s(rat_int(0), p.mag) ==> cut_s(p, f) == (
            Some(p),
            None::<PathV>,
        ),
{
    let dist = rat_mul_s(p.mag, f);
    lemma_ops_wf(p.mag, f);
    if rat_eq_s(f, rat_int(0)) {
        assert(f.num == 0);
        assert(dist.num == 0) by (nonlinear_arith)
            requires
                f.num == 0,
                dist == rat_mul_s(p.mag, f),
        ;
        assert(rat_le_s(dist, rat_int(0)));
    }
    if rat_eq_s(f, rat_int(1)) && rat_lt_s(rat_int(0), p.mag) {
        lemma_mul_congr(p.mag, p.mag, f, rat_int(1));
        assert(rat_mul_s(p.mag, rat_int(1)) == p.mag);
        lemma_le_congr(rat_int(0), rat_int(0), dist, p.mag);
        assert(!rat_le_s(dist, rat_int(0)));
        assert(rat_le_s(p.mag, dist));
    }
}

/// The two parts of any cut have lengths summing exactly to the total.
pub proof fn lemma_cut_total(p: PathV, f: Ratio)
    requires
        path_wf(p),
        rat_wf(f),
    ensures
        rat_eq_s(
            rat_add_s(opt_mag_s(cut_s(p, f).0), opt_mag_s(cut_s(p, f).1)),
            p.mag,
        ),
{
    let dist = rat_mul_s(p.mag, f);
    lemma_ops_wf(p.mag, f);
    if rat_le_s(dist, rat_int(0)) {
        lemma_add_zero(p.mag);
        assert(rat_eq_s(rat_add_s(rat_int(0), p.mag), p.mag));
    } else if rat_le_s(p.mag, dist) {
        lemma_add_zero(p.mag);
    } else {
        assert forall|k: int| 0 <= k < p.segments.len() implies rat_wf(
            (#[trigger] p.segments[k]).mag,
        ) by {
            assert(seg_wf(p.segments[k]));
        }
        if p.segments.len() == 0 {
            assert(seg_sum(p.segments) == rat_int(0));
            lemma_le_congr(p.mag, rat_int(0), dist, dist);
            assert(false);
        }
        lemma_cut_walk_props(p, dist, 0);
        let x = cut_walk_s(p, dist, 0).0;
        let y = cut_walk_s(p, dist, 0).1;
        lemma_ops_wf(p.mag, dist);
        lemma_add_congr(x.mag, dist, y.mag, rat_sub_s(p.mag, dist));
        lemma_add_sub(p.mag, dist);
        lemma_ops_wf(dist, rat_sub_s(p.mag, dist));
        lemma_req_trans(
            rat_add_s(x.mag, y.mag),
            rat_add_s(dist, rat_sub_s(p.mag, dist)),
            p.mag,
        );
    }
}

/// Cutting strictly inside a path of positive length yields two parts
/// whose lengths sum exactly to the total, and whose facing end points
/// coincide; the outer end points are kept.
pub proof fn lemma_cut_middle(p: PathV, f: Ratio)
    requires
        path_wf(p),
        rat_wf(f),
        rat_lt_s(rat_int(0), f),
        rat_lt_s(f, rat_int(1)),
        rat_lt_s(rat_int(0), p.mag),
    ensures
        ({
            let (x, y) = cut_s(p, f);
            &&& x is Some && y is Some
            &&& rat_eq_s(rat_add_s(x.unwrap().mag, y.unwrap().mag), p.mag)
            &&& x.unwrap().segments.len() >= 1 && y.unwrap().segments.len() >= 1
            &&& x.unwrap().segments.last().b == y.unwrap().segments[0].a
            &&& x.unwrap().segments[0].a == p.segments[0].a
            &&& y.unwrap().segments.last().b == p.segments.last().b
            &&& path_wf(x.unwrap()) && path_wf(y.unwrap())
        }),
{
    let dist = rat_mul_s(p.mag, f);
    lemma_ops_wf(p.mag, f);
    lemma_mul_pos_pos(p.mag, f);
    lemma_mul_lt_one(p.mag, f);
    assert(!rat_le_s(dist, rat_int(0)));
    assert(!rat_le_s(p.mag, dist));
    assert forall|k: int| 0 <= k < p.segments.len() implies rat_wf(
        (#[trigger] p.segments[k]).mag,
    ) by {
        assert(seg_wf(p.segments[k]));
    }
    if p.segments.len() == 0 {
        assert(seg_sum(p.segments) == rat_int(0));
        lemma_le_congr(p.mag, rat_int(0), dist, dist);
        assert(false);
    }
    lemma_cut_walk_props(p, dist, 0);
    let x = cut_walk_s(p, dist, 0).0;
    let y = cut_walk_s(p, dist, 0).1;
    lemma_ops_wf(p.mag, dist);
    lemma_add_congr(x.mag, dist, y.mag, rat_sub_s(p.mag, dist));
    lemma_add_sub(p.mag, dist);
    lemma_ops_wf(dist, rat_sub_s(p.mag, dist));
    lemma_req_trans(
        rat_add_s(x.mag, y.mag),
        rat_add_s(dist, rat_sub_s(p.mag, dist)),
        p.mag,
    );
}

pub open spec fn opt_mag_s(o: Option<PathV>) -> Ratio {
    match o {
        Option::None => rat_int(0),
        Option::Some(x) => x.mag,
    }
}

/// A double cut with ordered fractions in `[0, 1]` yields parts whose
/// lengths sum exactly to the total.
pub proof fn lemma_cut_twice_total(p: PathV, fs: Ratio, fe: Ratio)
    requires
        path_wf(p),
        rat_wf(fs),
        rat_wf(fe),
        rat_le_s(rat_int(0), fs),
        rat_le_s(fs, fe),
        rat_le_s(fe, rat_int(1)),
    ensures
        ({
            let (a, b, c) = cut_twice_s(p, fs, fe);
            rat_eq_s(rat_add_s(rat_add_s(opt_mag_s(a), opt_mag_s(b)), opt_mag_s(c)), p.mag)
        }),
{
    let first = cut_s(p, fs);
    let oa = opt_mag_s(first.0);
    lemma_cut_total(p, fs);
    lemma_cut_valid(p, fs);
    let dist1 = rat_mul_s(p.mag, fs);
    lemma_ops_wf(p.mag, fs);
    assert(rat_wf(oa)) by {
        if first.0 is Some {
            assert(path_wf(first.0.unwrap()));
        }
    }
    match first.1 {
        None => {
            // total = (oa + 0) + 0, and oa + 0 already has the total's
            // value.
            lemma_ops_wf(oa, rat_int(0));
            lemma_add_zero(rat_add_s(oa, rat_int(0)));
            lemma_add_zero(oa);
            lemma_add_congr(rat_add_s(oa, rat_int(0)), oa, rat_int(0), rat_int(0));
            lemma_ops_wf(rat_add_s(oa, rat_int(0)), rat_int(0));
            lemma_req_trans(
                rat_add_s(rat_add_s(oa, rat_int(0)), rat_int(0)),
                rat_add_s(oa, rat_int(0)),
                p.mag,
            );
        },
        Some(bc) => {
            assert(path_wf(bc));
            let s1 = fs;
            let den = rat_sub_s(rat_int(1), s1);
            lemma_ops_wf(rat_int(1), s1);
            if den.num == 0 {
                // The start fraction has value one, so the whole length
                // was already consumed: the path's length must be zero.
                assert(rat_eq_s(den, rat_int(0)));
                lemma_sub_zero(rat_int(1), s1);
                assert(rat_eq_s(rat_int(1), s1));
                lemma_mul_congr(p.mag, p.mag, fs, rat_int(1));
                assert(p.mag.num * 1 == p.mag.num);
                assert(p.mag.den * 1 == p.mag.den);
                assert(rat_mul_s(p.mag, rat_int(1)) == p.mag);
                assert(rat_eq_s(dist1, p.mag));
                assert forall|k: int| 0 <= k < p.segments.len() implies rat_wf(
                    (#[trigger] p.segments[k]).mag,
                ) && (#[trigger] p.segments[k]).mag.num >= 0 by {
                    assert(seg_wf(p.segments[k]));
                }
                lemma_sum_at_nonneg(p.segments, p.segments.len() as int);
                lemma_le_congr(rat_int(0), rat_int(0), p.mag, seg_sum(p.segments));
                assert(rat_le_s(rat_int(0), p.mag));
                // The first slot must be empty: a cut that returned a
                // remainder either consumed nothing or split inside.
                if !rat_le_s(dist1, rat_int(0)) {
                    lemma_le_congr(p.mag, dist1, dist1, dist1);
                    assert(rat_le_s(p.mag, dist1));
                    assert(false);
                }
                lemma_le_congr(dist1, p.mag, rat_int(0), rat_int(0));
                assert(rat_le_s(p.mag, rat_int(0)));
                assert(p.mag.num == 0) by (nonlinear_arith)
                    requires
                        rat_le_s(p.mag, rat_int(0)),
                        rat_le_s(rat_int(0), p.mag),
                        rat_wf(p.mag),
                ;
                assert(rat_eq_s(rat_add_s(rat_add_s(rat_int(0), rat_int(0)), rat_int(0)), p.mag));
            } else {
                let f2 = rat_div_s(rat_sub_s(fe, s1), den);
                lemma_ops_wf(fe, s1);
                lemma_ops_wf(rat_sub_s(fe, s1), den);
                lemma_cut_total(bc, f2);
                lemma_cut_valid(p, fs);
                let second = cut_s(bc, f2);
                let ob = opt_mag_s(second.0);
                let oc = opt_mag_s(second.1);
                lemma_cut_valid(bc, f2);
                assert(rat_wf(ob)) by {
                    if second.0 is Some {
                        assert(path_wf(second.0.unwrap()));
                    }
                }
                assert(rat_wf(oc)) by {
                    if second.1 is Some {
                        assert(path_wf(second.1.unwrap()));
                    }
                }
                lemma_add_assoc(oa, ob, oc);
                lemma_ops_wf(ob, oc);
                lemma_add_congr(oa, oa, rat_add_s(ob, oc), bc.mag);
                lemma_ops_wf(oa, rat_add_s(ob, oc));
                lemma_ops_wf(oa, bc.mag);
                lemma_ops_wf(oa, ob);
                lemma_ops_wf(rat_add_s(oa, ob), oc);
                lemma_req_trans(
                    rat_add_s(rat_add_s(oa, ob), oc),
                    rat_add_s(oa, rat_add_s(ob, oc)),
                    rat_add_s(oa, bc.mag),
                );
                lemma_req_trans(
                    rat_add_s(rat_add_s(oa, ob), oc),
                    rat_add_s(oa, bc.mag),
                    p.mag,
                );
            }
        },
    }
}

/// Componentwise value equality of paths.
pub open spec fn path_eq_s(p: PathV, q: PathV) -> bool {
    &&& p.segments.len() == q.segments.len()
    &&& (forall|i: int|
        0 <= i < p.segments.len() ==> seg_eq_s(#[trigger] p.segments[i], q.segments[i]))
    &&& rat_eq_s(p.mag, q.mag)
}

impl PartialEq for LineStringMeasured {
    fn eq(&self, other: &LineStringMeasured) -> bool {
        if self.segments.len() != other.segments.len() {
            return false;
        }
        if !(self.mag == other.mag) {
            return false;
        }
        let mut i: usize = 0;
        while i < self.segments.len()
            invariant
                i <= self.segments@.len(),
                self.segments@.len() == other.segments@.len(),
                forall|k: int|
                    0 <= k < i ==> seg_eq_s(
                        segs_view(self.segments@)[k],
                        segs_view(other.segments@)[k],
                    ),
            decreases self.segments@.len() - i,
        {
            if !(self.segments[i].eq(&other.segments[i])) {
                proof {
                    assert(self@.segments[i as int] == self.segments@[i as int]@);
                    assert(other@.segments[i as int] == other.segments@[i as int]@);
                }
                return false;
            }
            i += 1;
        }
        true
    }
}

impl vstd::std_specs::cmp::PartialEqSpecImpl for LineStringMeasured {
    open spec fn obeys_eq_spec() -> bool {
        true
    }

    open spec fn eq_spec(&self, other: &LineStringMeasured) -> bool {
        path_eq_s(self@, other@)
    }
}

/// Interpolating at a fraction of value zero gives the first point.
pub proof fn lemma_interpolate_at_zero(p: PathV, f: Ratio)
    requires
        path_wf(p),
        rat_wf(f),
        rat_eq_s(f, rat_int(0)),
        p.segments.len() > 0,
    ensures
        interpolate_s(p, f) == Some(p.segments[0].a),
{
    assert(f.num == 0);
    assert(rat_le_s(f, rat_int(0)));
}

/// Partial sums over positive lengths grow strictly.
pub proof fn lemma_sum_lt_pos(segs: Seq<SegmentV>, j: int, k: int)
    requires
        0 <= j < k <= segs.len(),
        forall|i: int| 0 <= i < segs.len() ==> rat_wf((#[trigger] segs[i]).mag),
        forall|i: int| 0 <= i < segs.len() ==> (#[trigger] segs[i]).mag.num > 0,
    ensures
        rat_lt_s(sum_at(segs, j), sum_at(segs, k)),
    decreases k - j,
{
    lemma_sum_at_wf(segs, j);
    lemma_sum_at_wf(segs, k);
    lemma_sum_at_wf(segs, k - 1);
    lemma_add_pos(sum_at(segs, k - 1), segs[k - 1].mag);
    if j < k - 1 {
        lemma_sum_lt_pos(segs, j, k - 1);
        lemma_lt_trans(sum_at(segs, j), sum_at(segs, k - 1), sum_at(segs, k));
    }
}

/// Interpolating at a fraction of value one, on a path whose segments all
/// have positive length, gives the last point.
pub proof fn lemma_interpolate_at_one(p: PathV)
    requires
        path_wf(p),
        p.segments.len() > 0,
        forall|i: int| 0 <= i < p.segments.len() ==> (#[trigger] p.segments[i]).mag.num > 0,
    ensures
        interpolate_s(p, rat_int(1)) is Some,
        pv_eq_s(interpolate_s(p, rat_int(1)).unwrap(), p.segments.last().b),
{
    let one = rat_int(1);
    assert(!rat_le_s(one, rat_int(0)));
    let dist = rat_mul_s(p.mag, one);
    assert(p.mag.num * 1 == p.mag.num);
    assert(p.mag.den * 1 == p.mag.den);
    assert(dist == p.mag);
    lemma_interp_walk_at_one(p, 0);
}

/// The interpolation walk for a target distance with the value of the
/// total ends at the last point, provided every segment length is
/// positive.
proof fn lemma_interp_walk_at_one(p: PathV, i: int)
    requires
        path_wf(p),
        0 <= i < p.segments.len(),
        forall|k: int| 0 <= k < p.segments.len() ==> (#[trigger] p.segments[k]).mag.num > 0,
    ensures
        pv_eq_s(interp_walk_s(p, p.mag, i), p.segments.last().b),
    decreases p.segments.len() - i,
{
    let segs = p.segments;
    let n = segs.len() as int;
    assert forall|k: int| 0 <= k < n implies rat_wf((#[trigger] segs[k]).mag) by {
        assert(seg_wf(segs[k]));
    }
    let seg = segs[i];
    assert(seg_wf(seg));
    let acc = sum_at(segs, i + 1);
    lemma_sum_at_wf(segs, i + 1);
    lemma_sum_at_wf(segs, n);
    if i < n - 1 {
        // The accumulated length is still strictly below the total, so
        // the walk moves on.
        lemma_sum_lt_pos(segs, i + 1, n);
        lemma_le_congr(p.mag, seg_sum(segs), acc, acc);
        assert(!rat_le_s(p.mag, acc));
        lemma_interp_walk_at_one(p, i + 1);
    } else {
        // The final segment absorbs the whole remaining distance, and the
        // backward offset has value zero.
        lemma_le_congr(p.mag, seg_sum(segs), acc, acc);
        assert(rat_le_s(p.mag, acc));
        let delta = pv_sub_s(seg.b, seg.a);
        lemma_ops_wf(seg.b.x, seg.a.x);
        lemma_ops_wf(seg.b.y, seg.a.y);
        lemma_ops_wf(delta.x, seg.mag);
        lemma_ops_wf(delta.y, seg.mag);
        let u = pv_div_s(delta, seg.mag);
        let z = rat_sub_s(acc, p.mag);
        lemma_ops_wf(acc, p.mag);
        lemma_sub_zero(acc, p.mag);
        assert(rat_eq_s(z, rat_int(0))) by {
            // acc and the total share a value: acc == seg_sum here.
            assert(acc == seg_sum(segs));
        }
        lemma_mul_zero_right(u.x, z);
        lemma_mul_zero_right(u.y, z);
        lemma_ops_wf(u.x, z);
        lemma_ops_wf(u.y, z);
        lemma_sub_val_zero(seg.b.x, rat_mul_s(u.x, z));
        lemma_sub_val_zero(seg.b.y, rat_mul_s(u.y, z));
    }
}

/// The index of the segment on which the interpolation walk stops, or the
/// segment count when it walks past the end.
pub open spec fn interp_hit_s(p: PathV, dist: Ratio, i: int) -> int
    decreases p.segments.len() - i,
{
    if i < 0 || i >= p.segments.len() {
        p.segments.len() as int
    } else if rat_le_s(dist, sum_at(p.segments, i + 1)) {
        i
    } else {
        interp_hit_s(p, dist, i + 1)
    }
}

pub proof fn lemma_interp_hit_bounds(p: PathV, dist: Ratio, i: int)
    requires
        0 <= i <= p.segments.len(),
    ensures
        i <= interp_hit_s(p, dist, i) <= p.segments.len(),
    decreases p.segments.len() - i,
{
    if i < p.segments.len() && !rat_le_s(dist, sum_at(p.segments, i + 1)) {
        lemma_interp_hit_bounds(p, dist, i + 1);
    }
}

/// A larger target distance never stops on an earlier segment.
pub proof fn lemma_interp_hit_monotone(p: PathV, d1: Ratio, d2: Ratio, i: int)
    requires
        path_wf(p),
        rat_wf(d1),
        rat_wf(d2),
        rat_le_s(d1, d2),
        0 <= i,
    ensures
        interp_hit_s(p, d1, i) <= interp_hit_s(p, d2, i),
    decreases p.segments.len() - i,
{
    let segs = p.segments;
    if i < segs.len() {
        assert forall|k: int| 0 <= k < segs.len() implies rat_wf((#[trigger] segs[k]).mag) by {
            assert(seg_wf(segs[k]));
        }
        lemma_sum_at_wf(segs, i + 1);
        if rat_le_s(d2, sum_at(segs, i + 1)) {
            lemma_le_trans(d1, d2, sum_at(segs, i + 1));
        } else if rat_le_s(d1, sum_at(segs, i + 1)) {
            lemma_interp_hit_bounds(p, d2, i);
        } else {
            lemma_interp_hit_monotone(p, d1, d2, i + 1);
        }
    }
}

/// Interpolation is monotonic in arc length: a larger fraction maps to a
/// larger target distance, the walk stops at the same segment or a later
/// one, and on a shared segment the backward offset from the segment's end
/// is smaller, so the interpolated point lies at the same arc position or
/// beyond it.
pub proof fn lemma_interpolate_monotonic(p: PathV, f1: Ratio, f2: Ratio)
    requires
        path_wf(p),
        rat_wf(f1),
        rat_wf(f2),
        rat_le_s(f1, f2),
        p.mag.num >= 0,
    ensures
        rat_le_s(rat_mul_s(p.mag, f1), rat_mul_s(p.mag, f2)),
        interp_hit_s(p, rat_mul_s(p.mag, f1), 0) <= interp_hit_s(p, rat_mul_s(p.mag, f2), 0),
        ({
            let d1 = rat_mul_s(p.mag, f1);
            let d2 = rat_mul_s(p.mag, f2);
            let hit = interp_hit_s(p, d2, 0);
            hit < p.segments.len() ==> rat_le_s(
                rat_sub_s(sum_at(p.segments, hit + 1), d2),
                rat_sub_s(sum_at(p.segments, hit + 1), d1),
            )
        }),
{
    let d1 = rat_mul_s(p.mag, f1);
    let d2 = rat_mul_s(p.mag, f2);
    lemma_mul_mono_left(p.mag, f1, f2);
    lemma_ops_wf(p.mag, f1);
    lemma_ops_wf(p.mag, f2);
    lemma_interp_hit_monotone(p, d1, d2, 0);
    assert forall|k: int| 0 <= k < p.segments.len() implies rat_wf(
        (#[trigger] p.segments[k]).mag,
    ) by {
        assert(seg_wf(p.segments[k]));
    }
    lemma_interp_hit_bounds(p, d2, 0);
    if interp_hit_s(p, d2, 0) < p.segments.len() {
        lemma_sum_at_wf(p.segments, interp_hit_s(p, d2, 0) + 1);
        lemma_sub_antitone(sum_at(p.segments, interp_hit_s(p, d2, 0) + 1), d1, d2);
    }
}

} // verus!
