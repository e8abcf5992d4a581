use linestring2d::line_segment_measured::LineSegmentMeasured;
use linestring2d::line_string_measured::LineStringMeasured;
use linestring2d::linestring::LineString;
use linestring2d::rational::Rat;
use linestring2d::vector2::Vector2;
use num_traits::cast::ToPrimitive;

fn r(n: i64) -> Rat {
    Rat::from_i64(n)
}

fn rq(n: i64, d: i64) -> Rat {
    Rat::new(n, d)
}

fn v(x: i64, y: i64) -> Vector2 {
    Vector2::new(r(x), r(y))
}

fn approx(x: &Rat) -> f64 {
    let n = x.numer().to_f64().unwrap();
    let d = x.denom().to_f64().unwrap();
    n / d
}

#[test]
fn rational_arithmetic() {
    assert_eq!(r(2).add(&r(3)), r(5));
    assert_eq!(r(2).sub(&r(3)), r(-1));
    assert_eq!(r(2).mul(&r(3)), r(6));
    assert_eq!(r(3).div(&r(2)), rq(3, 2));
    assert_eq!(r(3).div(&r(-2)), rq(-3, 2));
    assert_eq!(r(5).neg(), r(-5));
    assert_eq!(rq(1, 3).add(&rq(1, 6)), rq(1, 2));
    assert!(rq(1, 3).lt(&rq(1, 2)));
    assert!(rq(1, 2).le(&rq(2, 4)));
    assert!(!rq(1, 2).lt(&rq(2, 4)));
    assert!(r(0).is_zero());
    assert!(!rq(-1, 7).is_zero());
    assert_ne!(r(2), r(3));
}

#[test]
fn square_root_is_exact_on_perfect_squares() {
    assert_eq!(r(49).sqrt(), r(7));
    assert_eq!(rq(9, 4).sqrt(), rq(3, 2));
    assert_eq!(r(0).sqrt(), r(0));
}

#[test]
fn square_root_approximates_irrationals() {
    let root = r(2).sqrt();
    let square = root.mul(&root);
    assert!((approx(&square) - 2.0).abs() < 1e-14);
    assert!((approx(&root) - 1.4142135623730951).abs() < 1e-12);
}

#[test]
fn magnitude_is_sum_of_point_distances() {
    let a = v(0, 0);
    let b = v(3, 1);
    let c = v(5, -2);
    let first = a.distance_to(&b);
    let second = b.distance_to(&c);
    let ls = LineStringMeasured::from_vec(&vec![a, b, c]);
    assert_eq!(ls.magnitude(), first.add(&second));
}

#[test]
fn cut_parts_share_the_junction_and_the_total() {
    let ls = LineStringMeasured::from_vec(&vec![v(0, 0), v(2, 0), v(2, 2), v(0, 2)]);
    let (a, b) = ls.cut(&rq(1, 3));
    let a = a.expect("an inner cut keeps a front part");
    let b = b.expect("an inner cut keeps a back part");
    assert_eq!(a.magnitude().add(&b.magnitude()), ls.magnitude());
    let a_last = &a.segments[a.segments.len() - 1];
    let b_first = &b.segments[0];
    assert_eq!(a_last.b, b_first.a);
}

#[test]
fn double_cut_parts_sum_to_the_total() {
    let ls = LineStringMeasured::from_vec(&vec![v(0, 0), v(2, 0), v(2, 2), v(0, 2)]);
    let (a, b, c) = ls.cut_twice(&rq(1, 4), &rq(3, 4));
    let total = a.unwrap().magnitude().add(&b.unwrap().magnitude()).add(
        &c.unwrap().magnitude(),
    );
    assert_eq!(total, ls.magnitude());
}

#[test]
fn double_cut_at_the_ends() {
    let ls = LineStringMeasured::from_vec(&vec![v(0, 0), v(1, 0), v(1, 1)]);
    let (a, b, c) = ls.cut_twice(&r(0), &r(1));
    assert_eq!(a, None);
    assert_eq!(b, Some(ls.dup()));
    assert_eq!(c, None);
}

#[test]
fn interpolate_endpoints_and_monotonic_walk() {
    let ls = LineStringMeasured::from_vec(&vec![v(0, 0), v(2, 0), v(2, 2)]);
    assert_eq!(ls.interpolate(&r(0)), Some(v(0, 0)));
    assert_eq!(ls.interpolate(&r(1)), Some(v(2, 2)));
    let quarter = ls.interpolate(&rq(1, 4)).unwrap();
    let half = ls.interpolate(&rq(1, 2)).unwrap();
    let three_quarters = ls.interpolate(&rq(3, 4)).unwrap();
    assert_eq!(quarter, v(1, 0));
    assert_eq!(half, v(2, 0));
    assert_eq!(three_quarters, v(2, 1));
    assert!(quarter.x.le(&half.x));
    assert!(half.y.le(&three_quarters.y));
}

#[test]
fn direction_picks_the_holding_segment() {
    let ls = LineStringMeasured::from_vec(&vec![v(0, 0), v(1, 0), v(1, 1)]);
    assert_eq!(ls.direction(&rq(1, 4)), v(1, 0));
    assert_eq!(ls.direction(&rq(3, 4)), v(0, 1));
    let empty = LineStringMeasured::from_vec(&vec![]);
    assert_eq!(empty.direction(&rq(1, 2)), v(0, 0));
}

#[test]
fn empty_path_has_no_offset_or_interpolation() {
    let empty = LineStringMeasured::from_vec(&vec![]);
    assert_eq!(empty.interpolate(&rq(1, 2)), None);
    assert_eq!(empty.offset_basic(&rq(1, 2)), None);
    let single = LineStringMeasured::from_vec(&vec![v(3, 4)]);
    assert_eq!(single.interpolate(&rq(1, 2)), None);
    assert_eq!(single.offset_basic(&rq(1, 2)), None);
}

#[test]
fn degenerate_segment_has_no_offset() {
    let ls = LineStringMeasured::from_vec(&vec![v(0, 0), v(0, 0), v(1, 0)]);
    assert_eq!(ls.offset_basic(&r(1)), None);
}

#[test]
fn offset_of_a_straight_line_is_parallel() {
    let ls = LineStringMeasured::from_vec(&vec![v(0, 0), v(2, 0), v(5, 0)]);
    let points = ls.offset_basic(&r(1)).unwrap();
    assert_eq!(points, vec![v(0, 1), v(2, 1), v(5, 1)]);
}

#[test]
fn intersection_of_perpendicular_segments_at_origin() {
    let s1 = LineSegmentMeasured { a: v(0, 0), b: v(1, 0), mag: r(1) };
    let s2 = LineSegmentMeasured { a: v(0, 0), b: v(0, 1), mag: r(1) };
    let ab = s1.b.sub(&s1.a);
    let cd = s2.b.sub(&s2.a);
    assert!(!ab.cross(&cd).is_zero());
    let (point, time_ab, time_cd) = s1.intersect(&s2).expect("non-parallel lines intersect");
    assert_eq!(point, v(0, 0));
    assert_eq!(time_ab, r(0));
    assert_eq!(time_cd, r(0));
}

#[test]
fn intersection_of_parallel_segments_is_none() {
    let s1 = LineSegmentMeasured { a: v(0, 0), b: v(1, 0), mag: r(1) };
    let s2 = LineSegmentMeasured { a: v(0, 1), b: v(1, 1), mag: r(1) };
    assert!(s1.intersect(&s2).is_none());
}

#[test]
fn intersection_point_lies_on_both_lines() {
    let s1 = LineSegmentMeasured { a: v(0, 0), b: v(4, 4), mag: r(4).mul(&r(2).sqrt()) };
    let s2 = LineSegmentMeasured { a: v(0, 4), b: v(4, 0), mag: r(4).mul(&r(2).sqrt()) };
    let (point, time_ab, time_cd) = s1.intersect(&s2).expect("non-parallel lines intersect");
    assert_eq!(point, v(2, 2));
    assert_eq!(time_ab, rq(1, 2));
    assert_eq!(time_cd, rq(1, 2));
    let on_first = s1.a.add(&s1.b.sub(&s1.a).mul(&time_ab));
    let on_second = s2.a.add(&s2.b.sub(&s2.a).mul(&time_cd));
    assert_eq!(on_first, point);
    assert_eq!(on_second, point);
}

#[test]
fn plain_linestring_delegates_to_the_measured_engine() {
    let ls = LineString { points: vec![v(0, 0), v(1, 0), v(1, 1)] };
    assert_eq!(ls.magnitude(), r(2));
    let measured = ls.measured_segments();
    assert_eq!(measured.magnitude(), r(2));
    let (a, b) = ls.cut(&rq(1, 2));
    assert_eq!(a.unwrap().magnitude(), r(1));
    assert_eq!(b.unwrap().magnitude(), r(1));
    assert_eq!(ls.interpolate(&rq(1, 2)), Some(v(1, 0)));
    assert_eq!(ls.direction(&rq(3, 4)), v(0, 1));
    let back = measured.to_line_string();
    assert_eq!(back.points, vec![v(0, 0), v(1, 0), v(1, 1)]);
}

#[test]
fn measured_tuples_need_points() {
    let ls = LineStringMeasured::from_vec(&vec![v(0, 0), v(3, 4)]);
    assert_eq!(ls.into_tuples(), vec![(r(0), r(0)), (r(3), r(4))]);
    assert_eq!(
        ls.into_tuples_measured(&r(0), &r(5)),
        vec![(r(0), r(0), r(0)), (r(3), r(4), r(5))]
    );
}

#[test]
fn offset_concave_corner_gets_one_sharp_vertex() {
    let ls = LineStringMeasured::from_vec(&vec![v(0, 0), v(2, 0), v(2, 2)]);
    let points = ls.offset_basic(&r(1)).unwrap();
    assert_eq!(points, vec![v(0, 1), v(1, 1), v(1, 2)]);
}

#[test]
fn offset_convex_corner_gets_one_projected_vertex() {
    let ls = LineStringMeasured::from_vec(&vec![v(0, 0), v(2, 0), v(2, 2)]);
    let points = ls.offset_basic(&r(-1)).unwrap();
    assert_eq!(points, vec![v(0, -1), v(3, -1), v(3, 2)]);
}
