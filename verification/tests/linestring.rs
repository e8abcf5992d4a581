use linestring2d::line_segment_measured::LineSegmentMeasured;
use linestring2d::line_string_measured::LineStringMeasured;
use linestring2d::rational::Rat;
use linestring2d::vector2::Vector2;
use num_traits::cast::ToPrimitive;

fn r(n: i64) -> Rat {
    Rat::from_i64(n)
}

fn rq(n: i64, d: i64) -> Rat {
    Rat::new(n, d)
}

fn v(x: i64, y: i64) -> Vector2 {
    Vector2::new(r(x), r(y))
}

fn vq(xn: i64, xd: i64, yn: i64, yd: i64) -> Vector2 {
    Vector2::new(rq(xn, xd), rq(yn, yd))
}

fn seg(a: Vector2, b: Vector2, mag: Rat) -> LineSegmentMeasured {
    LineSegmentMeasured { a, b, mag }
}

fn approx(x: &Rat) -> f64 {
    let n = x.numer().to_f64().unwrap();
    let d = x.denom().to_f64().unwrap();
    n / d
}

#[test]
fn test_linestring_length() {
    let ls = LineStringMeasured::from_vec(&vec![v(0, 0), v(1, 0), v(1, 1)]);
    assert_eq!(ls.magnitude(), r(2));
}

#[test]
fn test_offset_segments() {
    let ls = LineStringMeasured::from_vec(&vec![v(0, 0), v(1, 0), v(1, 1)]);
    assert_eq!(
        ls.offset_segments(&r(1)),
        vec![
            seg(v(0, 1), v(1, 1), r(1)),
            seg(v(0, 0), v(0, 1), r(1)),
        ]
    );
}

#[test]
fn test_measured() {
    let ls_m = LineStringMeasured::from_vec(&vec![v(0, 0), v(1, 0), v(1, 1)]);
    assert_eq!(
        ls_m,
        LineStringMeasured {
            segments: vec![
                seg(v(0, 0), v(1, 0), r(1)),
                seg(v(1, 0), v(1, 1), r(1)),
            ],
            mag: r(2),
        }
    );
}

#[test]
fn test_cut() {
    let ls = LineStringMeasured::from_vec(&vec![v(0, 0), v(1, 0), v(1, 1), v(0, 1)]);
    let ls_c = ls.cut(&rq(1, 2));
    assert_eq!(
        ls_c,
        (
            Some(LineStringMeasured {
                segments: vec![
                    seg(v(0, 0), v(1, 0), r(1)),
                    seg(v(1, 0), vq(1, 1, 1, 2), rq(1, 2)),
                ],
                mag: rq(3, 2),
            }),
            Some(LineStringMeasured {
                segments: vec![
                    seg(vq(1, 1, 1, 2), v(1, 1), rq(1, 2)),
                    seg(v(1, 1), v(0, 1), r(1)),
                ],
                mag: rq(3, 2),
            })
        )
    );

    let ls_c = ls.cut(&r(0));
    assert_eq!(ls_c, (None, Some(ls.dup())));

    let ls_c = ls.cut(&r(1));
    assert_eq!(ls_c, (Some(ls), None));

    let ls = LineStringMeasured::from_vec(&vec![v(0, 0), v(1, 0), v(1, 1), v(0, 1), v(0, 2)]);
    let (a, b) = ls.cut(&rq(1, 2));
    assert_eq!(
        b,
        Some(LineStringMeasured {
            segments: vec![
                seg(v(1, 1), v(0, 1), r(1)),
                seg(v(0, 1), v(0, 2), r(1)),
            ],
            mag: r(2),
        })
    );
    assert_eq!(
        a,
        Some(LineStringMeasured {
            segments: vec![
                seg(v(0, 0), v(1, 0), r(1)),
                seg(v(1, 0), v(1, 1), r(1)),
            ],
            mag: r(2),
        })
    );
}

#[test]
fn test_double_cut() {
    let ls = LineStringMeasured::from_vec(&vec![v(0, 0), v(1, 0), v(1, 1), v(0, 1), v(0, 2)]);
    let (a, b, c) = ls.cut_twice(&rq(1, 2), &rq(3, 4));
    assert_eq!(
        a,
        Some(LineStringMeasured {
            segments: vec![
                seg(v(0, 0), v(1, 0), r(1)),
                seg(v(1, 0), v(1, 1), r(1)),
            ],
            mag: r(2),
        })
    );
    assert_eq!(
        b,
        Some(LineStringMeasured {
            segments: vec![seg(v(1, 1), v(0, 1), r(1))],
            mag: r(1),
        })
    );
    assert_eq!(
        c,
        Some(LineStringMeasured {
            segments: vec![seg(v(0, 1), v(0, 2), r(1))],
            mag: r(1),
        })
    );
}

#[test]
fn test_interpolate() {
    let ls = LineStringMeasured::from_vec(&vec![
        v(0, 0),
        v(1, 0),
        v(1, 1),
        v(0, 1),
        v(0, 2),
    ]);
    assert_eq!(Some(v(1, 1)), ls.interpolate(&rq(1, 2)));
    assert_eq!(Some(v(1, 0)), ls.interpolate(&rq(1, 4)));
    assert_eq!(Some(vq(1, 2, 0, 1)), ls.interpolate(&rq(1, 8)));
    assert_eq!(Some(v(0, 0)), ls.interpolate(&r(-1)));
    assert_eq!(Some(v(0, 0)), ls.interpolate(&r(0)));
    assert_eq!(Some(v(0, 2)), ls.interpolate(&r(2)));

    let ls2 = LineStringMeasured::from_vec(&vec![]);
    assert_eq!(None, ls2.interpolate(&rq(1, 2)));
}

#[test]
fn test_linestring_basic_offset() {
    let ls = LineStringMeasured::from_vec(&vec![
        v(0, 0),
        v(1, 1),
        vq(3, 2, 2, 1),
        v(1, 3),
    ]);
    let lsbo = ls.offset_basic(&rq(-1, 2));
    let points = lsbo.expect("a non-degenerate path offsets to a point list");
    let expected = [
        (0.35355339059327373, -0.35355339059327373),
        (1.4109272075633472, 0.7038204263767998),
        (2.0590169943749475, 2.0),
        (1.4472135954999579, 3.223606797749979),
    ];
    assert_eq!(points.len(), expected.len());
    for (p, (ex, ey)) in points.iter().zip(expected.iter()) {
        assert!((approx(&p.x) - ex).abs() < 1e-9);
        assert!((approx(&p.y) - ey).abs() < 1e-9);
    }
}

#[test]
fn test_linestring_conversion_to_vec() {
    let ls = LineStringMeasured::from_vec(&vec![
        v(0, 0),
        v(1, 1),
        vq(3, 2, 2, 1),
        v(1, 3),
    ]);
    assert_eq!(
        ls.into_vector2(),
        vec![v(0, 0), v(1, 1), vq(3, 2, 2, 1), v(1, 3)]
    );
}

#[test]
fn test_multilinestring_conversion_to_tuples() {
    let ls = LineStringMeasured::from_vec(&vec![
        v(0, 0),
        v(1, 1),
        vq(3, 2, 2, 1),
        v(1, 3),
    ]);
    assert_eq!(
        ls.into_tuples(),
        vec![
            (r(0), r(0)),
            (r(1), r(1)),
            (rq(3, 2), r(2)),
            (r(1), r(3)),
        ]
    );
}

#[test]
fn test_multilinestring_conversion_to_measured_tuples() {
    let ls = LineStringMeasured::from_vec(&vec![v(0, 0), v(0, 2), v(4, 2), v(4, 10)]);
    assert_eq!(
        ls.into_tuples_measured(&r(0), &r(14)),
        vec![
            (r(0), r(0), r(0)),
            (r(0), r(2), r(2)),
            (r(4), r(2), r(6)),
            (r(4), r(10), r(14)),
        ]
    );

    assert_eq!(
        ls.into_tuples_measured(&r(2), &r(30)),
        vec![
            (r(0), r(0), r(2)),
            (r(0), r(2), r(6)),
            (r(4), r(2), r(14)),
            (r(4), r(10), r(30)),
        ]
    );
}
