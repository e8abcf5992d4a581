//! The raw point-list view of a path, convertible to and from the
//! measured form; its operations measure the points and delegate to the
//! measured engine.

use vstd::prelude::*;
use crate::rational::Rat;
use crate::vector2::Vector2;
use crate::line_string_measured::{LineStringMeasured, points_view, path_points_s,
    measure_s, cut_s, cut_twice_s, direction_s, offset_basic_s, opt_path_view,
    opt_point_view, interpolate_s};

verus! {

/// A raw ordered sequence of points describing a polyline.
#[derive(Debug)]
pub struct LineString {
    pub points: Vec<Vector2>,
}

impl View for LineString {
    type V = Seq<crate::vector2::PointV>;

    open spec fn view(&self) -> Seq<crate::vector2::PointV> {
        points_view(self.points@)
    }
}

impl LineString {
    pub open spec fn valid(&self) -> bool {
        forall|i: int| 0 <= i < self.points@.len() ==> (#[trigger] self.points@[i]).valid()
    }

    /// Measures every consecutive pair into a measured path.
    pub fn measured_segments(&self) -> (r: LineStringMeasured)
        requires
            self.valid(),
        ensures
            r@ == measure_s(self@),
            r.valid(),
    {
        LineStringMeasured::from_vec(&self.points)
    }

    /// The summed length of the measured segments.
    pub fn magnitude(&self) -> (r: Rat)
        requires
            self.valid(),
        ensures
            r@ == measure_s(self@).mag,
    {
        self.measured_segments().magnitude()
    }

    /// The cut of the measured path; see [`LineStringMeasured::cut`].
    pub fn cut(&self, fraction_of_length: &Rat) -> (r: (
        Option<LineStringMeasured>,
        Option<LineStringMeasured>,
    ))
        requires
            self.valid(),
            fraction_of_length.valid(),
        ensures
            (opt_path_view(r.0), opt_path_view(r.1)) == cut_s(
                measure_s(self@),
                fraction_of_length@,
            ),
    {
        self.measured_segments().cut(fraction_of_length)
    }

    /// The double cut of the measured path; see
    /// [`LineStringMeasured::cut_twice`].
    pub fn cut_twice(&self, fraction_start: &Rat, fraction_end: &Rat) -> (r: (
        Option<LineStringMeasured>,
        Option<LineStringMeasured>,
        Option<LineStringMeasured>,
    ))
        requires
            self.valid(),
            fraction_start.valid(),
            fraction_end.valid(),
        ensures
            (opt_path_view(r.0), opt_path_view(r.1), opt_path_view(r.2)) == cut_twice_s(
                measure_s(self@),
                fraction_start@,
                fraction_end@,
            ),
    {
        self.measured_segments().cut_twice(fraction_start, fraction_end)
    }

    /// The interpolated point of the measured path; see
    /// [`LineStringMeasured::interpolate`].
    pub fn interpolate(&self, fraction_of_length: &Rat) -> (r: Option<Vector2>)
        requires
            self.valid(),
            fraction_of_length.valid(),
        ensures
            opt_point_view(r) == interpolate_s(measure_s(self@), fraction_of_length@),
    {
        self.measured_segments().interpolate(fraction_of_length)
    }

    /// The direction vector of the measured path; see
    /// [`LineStringMeasured::direction`].
    pub fn direction(&self, fraction_of_length: &Rat) -> (r: Vector2)
        requires
            self.valid(),
            fraction_of_length.valid(),
        ensures
            r@ == direction_s(measure_s(self@), fraction_of_length@),
    {
        self.measured_segments().direction(fraction_of_length)
    }

    /// The offset-and-rejoin of the measured path; see
    /// [`LineStringMeasured::offset_basic`].
    pub fn offset_basic(&self, distance: &Rat) -> (r: Option<Vec<Vector2>>)
        requires
            self.valid(),
            distance.valid(),
        ensures
            r is Some <==> offset_basic_s(measure_s(self@), distance@) is Some,
            r is Some ==> points_view(r.unwrap()@) == offset_basic_s(
                measure_s(self@),
                distance@,
            ).unwrap(),
    {
        self.measured_segments().offset_basic(distance)
    }
}

impl LineStringMeasured {
    /// Collapses back to the raw point list, discarding the length cache.
    /// Demands a non-empty path.
    pub fn to_line_string(&self) -> (r: LineString)
        requires
            self.valid(),
            self@.segments.len() > 0,
        ensures
            r@ == path_points_s(self@),
            r.valid(),
    {
        let points = self.into_vector2();
        LineString { points }
    }
}

} // verus!
