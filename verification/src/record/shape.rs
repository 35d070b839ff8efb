//! `Shape`, the enum of all the shapes, and the reading of shapes from their records.
use vstd::prelude::*;
use crate::bytes::{i32_le_at, read_i32_le};
use crate::error::Error;
use crate::shape_type::{spec_from_code, ShapeType};
use super::multipatch::{Multipatch, MultipatchView};
use super::multipoint::{Multipoint, MultipointM, MultipointView, MultipointZ};
use super::point::{Point, PointM, PointZ};
use super::polygon::{
    classifier_total, polygon_of_polyline, read_polygon_shape, GenericPolygon, Polygon,
    PolygonM, PolygonView, PolygonZ, RingType,
};
use super::polyline::{spec_read_polyline_view, Polyline, PolylineM, PolylineView, PolylineZ};
use super::bbox::flatten_parts;
use super::multipatch::{lemma_multipatch_content_roundtrip, patches_points};
use super::multipoint::lemma_multipoint_content_roundtrip;
use super::point::lemma_point_roundtrip;
use super::polygon::{lemma_polygon_content_roundtrip, rings_follow_classifier, rings_points};
use super::polyline::lemma_polyline_content_roundtrip;
use super::readback::{lemma_even_len, lemma_stands_split, measures_kept, stands_at};
use super::traits::CoordinatePoint;
use super::{ConcreteReadableShape, EsriShape, HasShapeType, WritableShape};

verus! {

/// All the shapes that can be read from or written to a shapefile.
#[derive(Debug, Clone)]
pub enum Shape {
    NullShape,
    Point(Point),
    PointM(PointM),
    PointZ(PointZ),
    Polyline(Polyline),
    PolylineM(PolylineM),
    PolylineZ(PolylineZ),
    Polygon(Polygon),
    PolygonM(PolygonM),
    PolygonZ(PolygonZ),
    Multipoint(Multipoint),
    MultipointM(MultipointM),
    MultipointZ(MultipointZ),
    Multipatch(Multipatch),
}

/// What a shape is: the variant and the view of the shape it holds.
pub enum ShapeView {
    NullShape,
    Point(Point),
    PointM(PointM),
    PointZ(PointZ),
    Polyline(PolylineView<Point>),
    PolylineM(PolylineView<PointM>),
    PolylineZ(PolylineView<PointZ>),
    Polygon(PolygonView<Point>),
    PolygonM(PolygonView<PointM>),
    PolygonZ(PolygonView<PointZ>),
    Multipoint(MultipointView<Point>),
    MultipointM(MultipointView<PointM>),
    MultipointZ(MultipointView<PointZ>),
    Multipatch(MultipatchView),
}

impl View for Shape {
    type V = ShapeView;

    open spec fn view(&self) -> ShapeView {
        match self {
            Shape::NullShape => ShapeView::NullShape,
            Shape::Point(s) => ShapeView::Point(s@),
            Shape::PointM(s) => ShapeView::PointM(s@),
            Shape::PointZ(s) => ShapeView::PointZ(s@),
            Shape::Polyline(s) => ShapeView::Polyline(s@),
            Shape::PolylineM(s) => ShapeView::PolylineM(s@),
            Shape::PolylineZ(s) => ShapeView::PolylineZ(s@),
            Shape::Polygon(s) => ShapeView::Polygon(s@),
            Shape::PolygonM(s) => ShapeView::PolygonM(s@),
            Shape::PolygonZ(s) => ShapeView::PolygonZ(s@),
            Shape::Multipoint(s) => ShapeView::Multipoint(s@),
            Shape::MultipointM(s) => ShapeView::MultipointM(s@),
            Shape::MultipointZ(s) => ShapeView::MultipointZ(s@),
            Shape::Multipatch(s) => ShapeView::Multipatch(s@),
        }
    }
}

/// The shape type a shape reports: that of its variant.
pub open spec fn spec_shape_type(s: ShapeView) -> ShapeType {
    match s {
        ShapeView::NullShape => ShapeType::NullShape,
        ShapeView::Point(_) => ShapeType::Point,
        ShapeView::PointM(_) => ShapeType::PointM,
        ShapeView::PointZ(_) => ShapeType::PointZ,
        ShapeView::Polyline(_) => ShapeType::Polyline,
        ShapeView::PolylineM(_) => ShapeType::PolylineM,
        ShapeView::PolylineZ(_) => ShapeType::PolylineZ,
        ShapeView::Polygon(_) => ShapeType::Polygon,
        ShapeView::PolygonM(_) => ShapeType::PolygonM,
        ShapeView::PolygonZ(_) => ShapeType::PolygonZ,
        ShapeView::Multipoint(_) => ShapeType::Multipoint,
        ShapeView::MultipointM(_) => ShapeType::MultipointM,
        ShapeView::MultipointZ(_) => ShapeType::MultipointZ,
        ShapeView::Multipatch(_) => ShapeType::Multipatch,
    }
}

impl Shape {
    /// Returns the shape type of the shape: that of its variant.
    pub fn shapetype(&self) -> (r: ShapeType)
        ensures
            r == spec_shape_type(self@),
    {
        match self {
            Shape::Polyline(_) => ShapeType::Polyline,
            Shape::PolylineM(_) => ShapeType::PolylineM,
            Shape::PolylineZ(_) => ShapeType::PolylineZ,
            Shape::Point(_) => ShapeType::Point,
            Shape::PointM(_) => ShapeType::PointM,
            Shape::PointZ(_) => ShapeType::PointZ,
            Shape::Polygon(_) => ShapeType::Polygon,
            Shape::PolygonM(_) => ShapeType::PolygonM,
            Shape::PolygonZ(_) => ShapeType::PolygonZ,
            Shape::Multipoint(_) => ShapeType::Multipoint,
            Shape::MultipointM(_) => ShapeType::MultipointM,
            Shape::MultipointZ(_) => ShapeType::MultipointZ,
            Shape::Multipatch(_) => ShapeType::Multipatch,
            Shape::NullShape => ShapeType::NullShape,
        }
    }
}

/// The type-level shape type of `Shape` is `Point`.
impl HasShapeType for Shape {
    open spec fn spec_shapetype() -> ShapeType {
        ShapeType::Point
    }

    fn shapetype() -> (r: ShapeType) {
        ShapeType::Point
    }
}

/// A read result seen through the view of the shape.
pub open spec fn outcome_view<S: View>(r: Result<(S, usize), Error>) -> Result<(S::V, int), Error> {
    match r {
        Ok((s, n)) => Ok((s@, n as int)),
        Err(e) => Err(e),
    }
}

/// Shapes that can be read from a record.
pub trait ReadableShape<F: Fn(Vec<u64>) -> RingType>: Sized + View {
    /// Whether `r` may be what reading, as this type, the content at `pos` of a record
    /// of shape type `t` and content size `record_size` gives, with ring kinds given by
    /// `classify`.
    spec fn typed_outcome(
        classify: F,
        t: ShapeType,
        s: Seq<u8>,
        pos: int,
        record_size: i32,
        r: Result<(Self::V, int), Error>,
    ) -> bool;

    /// Reads, as this type, the content at `pos` of a record of shape type `t`; returns
    /// the shape and the number of bytes consumed.
    fn read_typed_content(
        t: ShapeType,
        data: &[u8],
        pos: usize,
        record_size: i32,
        classify: &F,
    ) -> (r: Result<(Self, usize), Error>)
        requires
            pos <= data@.len(),
            classifier_total(*classify),
        ensures
            Self::typed_outcome(*classify, t, data@, pos as int, record_size, outcome_view(r)),
            r matches Ok((_, n)) ==> pos + n <= data@.len(),
    ;
}

/// Whether `r` may be what reading a record (its shape type code, then its content) of
/// `record_size` bytes at `pos` as the type `S` gives: the data ending before the code,
/// an invalid code, or what reading the content gives (counting the code's 4 bytes).
pub open spec fn record_outcome<F: Fn(Vec<u64>) -> RingType, S: ReadableShape<F>>(
    classify: F,
    s: Seq<u8>,
    pos: int,
    record_size: i32,
    r: Result<(S::V, int), Error>,
) -> bool {
    if pos + 4 > s.len() {
        r == Err::<(S::V, int), Error>(Error::UnexpectedEof)
    } else {
        match spec_from_code(i32_le_at(s, pos)) {
            None => r == Err::<(S::V, int), Error>(Error::InvalidShapeType(i32_le_at(s, pos))),
            Some(t) => S::typed_outcome(
                classify,
                t,
                s,
                pos + 4,
                (record_size - 4) as i32,
                match r {
                    Ok((v, n)) => Ok((v, n - 4)),
                    Err(e) => Err(e),
                },
            ),
        }
    }
}

/// Reads a record as the type `S`: its shape type code, then its content. Returns the
/// shape and the number of bytes consumed.
pub fn read_from<F: Fn(Vec<u64>) -> RingType, S: ReadableShape<F>>(
    data: &[u8],
    pos: usize,
    record_size: i32,
    classify: &F,
) -> (r: Result<(S, usize), Error>)
    requires
        pos <= data@.len(),
        record_size >= i32::MIN + 4,
        classifier_total(*classify),
    ensures
        record_outcome::<F, S>(*classify, data@, pos as int, record_size, outcome_view(r)),
        r matches Ok((_, n)) ==> pos + n <= data@.len(),
{
    if data.len() - pos < 4 {
        return Err(Error::UnexpectedEof);
    }
    let code = read_i32_le(data, pos);
    match ShapeType::from(code) {
        None => Err(Error::InvalidShapeType(code)),
        Some(t) => {
            let content = S::read_typed_content(t, data, pos + 4, record_size - 4, classify);
            match content {
                Ok((shape, n)) => Ok((shape, n + 4)),
                Err(e) => Err(e),
            }
        },
    }
}

/// What reading a record content of shape type `t` as the concrete type `S` gives: a
/// mismatch error when `t` is not `S`'s type, else what `S` reads.
pub open spec fn exact_outcome<S: ConcreteReadableShape>(
    t: ShapeType,
    s: Seq<u8>,
    pos: int,
    record_size: i32,
) -> Result<(S::V, int), Error> {
    if t != S::spec_shapetype() {
        Err(Error::MismatchShapeType { requested: S::spec_shapetype(), actual: t })
    } else {
        S::spec_read_content(s, pos, record_size)
    }
}

/// What reading a record content of shape type `t` as a `Shape` gives, for the types
/// whose reading needs no classifier: nothing for a null shape, else the content read as
/// that type. `None` for the polygon types, whose reading needs one.
pub open spec fn exact_shape_outcome(
    t: ShapeType,
    s: Seq<u8>,
    pos: int,
    record_size: i32,
) -> Option<Result<(ShapeView, int), Error>> {
    match t {
        ShapeType::NullShape => Some(Ok((ShapeView::NullShape, 0))),
        ShapeType::Point => Some(
            match exact_outcome::<Point>(t, s, pos, record_size) {
                Ok((v, n)) => Ok((ShapeView::Point(v), n)),
                Err(e) => Err(e),
            },
        ),
        ShapeType::PointM => Some(
            match exact_outcome::<PointM>(t, s, pos, record_size) {
                Ok((v, n)) => Ok((ShapeView::PointM(v), n)),
                Err(e) => Err(e),
            },
        ),
        ShapeType::PointZ => Some(
            match exact_outcome::<PointZ>(t, s, pos, record_size) {
                Ok((v, n)) => Ok((ShapeView::PointZ(v), n)),
                Err(e) => Err(e),
            },
        ),
        ShapeType::Polyline => Some(
            match exact_outcome::<Polyline>(t, s, pos, record_size) {
                Ok((v, n)) => Ok((ShapeView::Polyline(v), n)),
                Err(e) => Err(e),
            },
        ),
        ShapeType::PolylineM => Some(
            match exact_outcome::<PolylineM>(t, s, pos, record_size) {
                Ok((v, n)) => Ok((ShapeView::PolylineM(v), n)),
                Err(e) => Err(e),
            },
        ),
        ShapeType::PolylineZ => Some(
            match exact_outcome::<PolylineZ>(t, s, pos, record_size) {
                Ok((v, n)) => Ok((ShapeView::PolylineZ(v), n)),
                Err(e) => Err(e),
            },
        ),
        ShapeType::Multipoint => Some(
            match exact_outcome::<Multipoint>(t, s, pos, record_size) {
                Ok((v, n)) => Ok((ShapeView::Multipoint(v), n)),
                Err(e) => Err(e),
            },
        ),
        ShapeType::MultipointM => Some(
            match exact_outcome::<MultipointM>(t, s, pos, record_size) {
                Ok((v, n)) => Ok((ShapeView::MultipointM(v), n)),
                Err(e) => Err(e),
            },
        ),
        ShapeType::MultipointZ => Some(
            match exact_outcome::<MultipointZ>(t, s, pos, record_size) {
                Ok((v, n)) => Ok((ShapeView::MultipointZ(v), n)),
                Err(e) => Err(e),
            },
        ),
        ShapeType::Multipatch => Some(
            match exact_outcome::<Multipatch>(t, s, pos, record_size) {
                Ok((v, n)) => Ok((ShapeView::Multipatch(v), n)),
                Err(e) => Err(e),
            },
        ),
        ShapeType::Polygon => None,
        ShapeType::PolygonM => None,
        ShapeType::PolygonZ => None,
    }
}

/// Reading a record as a `Shape` reads the code, then, for a type whose reading needs no
/// classifier, gives exactly what `exact_shape_outcome` says, whatever the classifier:
/// an unknown code is `InvalidShapeType`, a null shape takes the 4 bytes of its code,
/// and any other type is its content read as that type.
pub proof fn lemma_shape_record_outcome<F: Fn(Vec<u64>) -> RingType>(
    classify: F,
    s: Seq<u8>,
    pos: int,
    record_size: i32,
    r: Result<(ShapeView, int), Error>,
)
    requires
        pos + 4 <= s.len(),
    ensures
        spec_from_code(i32_le_at(s, pos)) is None ==> (record_outcome::<F, Shape>(
            classify,
            s,
            pos,
            record_size,
            r,
        ) <==> r == Err::<(ShapeView, int), Error>(Error::InvalidShapeType(i32_le_at(s, pos)))),
        spec_from_code(i32_le_at(s, pos)) matches Some(t) ==> (exact_shape_outcome(
            t,
            s,
            pos + 4,
            (record_size - 4) as i32,
        ) matches Some(o) ==> (record_outcome::<F, Shape>(classify, s, pos, record_size, r) <==> r
            == match o {
            Ok((v, n)) => Ok((v, n + 4)),
            Err(e) => Err(e),
        })),
{
}

/// Reads a record content of shape type `t` as the concrete type `S`.
pub fn read_exact<S: ConcreteReadableShape>(t: ShapeType, data: &[u8], pos: usize, record_size: i32) -> (r: Result<
    (S, usize),
    Error,
>)
    requires
        pos <= data@.len(),
    ensures
        outcome_view(r) == exact_outcome::<S>(t, data@, pos as int, record_size),
        r matches Ok((_, n)) ==> pos + n <= data@.len(),
{
    let requested = S::shapetype();
    if t != requested {
        Err(Error::MismatchShapeType { requested, actual: t })
    } else {
        S::read_shape_content(data, pos, record_size)
    }
}

/// Whether `r` may be what reading a polygon record content as polygons of `P` gives.
pub open spec fn polygon_outcome<P: CoordinatePoint, F: Fn(Vec<u64>) -> RingType>(
    classify: F,
    requested: ShapeType,
    t: ShapeType,
    s: Seq<u8>,
    pos: int,
    record_size: i32,
    r: Result<(PolygonView<P>, int), Error>,
) -> bool {
    if t != requested {
        r == Err::<(PolygonView<P>, int), Error>(Error::MismatchShapeType { requested, actual: t })
    } else {
        match r {
            Ok((v, n)) => spec_read_polyline_view::<P>(s, pos, record_size) matches Ok((pl, m)) && m
                == n && polygon_of_polyline(classify, pl, v),
            Err(e) => spec_read_polyline_view::<P>(s, pos, record_size) == Err::<
                (PolylineView<P>, int),
                Error,
            >(e),
        }
    }
}

/// Reads a polygon record content of shape type `t` as polygons of `P`, whose type is
/// `requested`.
pub fn read_polygon_typed<P: CoordinatePoint, F: Fn(Vec<u64>) -> RingType>(
    requested: ShapeType,
    t: ShapeType,
    data: &[u8],
    pos: usize,
    record_size: i32,
    classify: &F,
) -> (r: Result<(GenericPolygon<P>, usize), Error>)
    requires
        pos <= data@.len(),
        classifier_total(*classify),
    ensures
        polygon_outcome::<P, F>(*classify, requested, t, data@, pos as int, record_size, outcome_view(r)),
        r matches Ok((_, n)) ==> pos + n <= data@.len(),
{
    if t != requested {
        Err(Error::MismatchShapeType { requested, actual: t })
    } else {
        read_polygon_shape::<P, F>(data, pos, record_size, classify)
    }
}

impl<F: Fn(Vec<u64>) -> RingType> ReadableShape<F> for Point {
    open spec fn typed_outcome(
        classify: F,
        t: ShapeType,
        s: Seq<u8>,
        pos: int,
        record_size: i32,
        r: Result<(Point, int), Error>,
    ) -> bool {
        r == exact_outcome::<Point>(t, s, pos, record_size)
    }

    fn read_typed_content(t: ShapeType, data: &[u8], pos: usize, record_size: i32, classify: &F) -> (r: Result<(Self, usize), Error>) {
        read_exact::<Point>(t, data, pos, record_size)
    }
}

impl<F: Fn(Vec<u64>) -> RingType> ReadableShape<F> for PointM {
    open spec fn typed_outcome(
        classify: F,
        t: ShapeType,
        s: Seq<u8>,
        pos: int,
        record_size: i32,
        r: Result<(PointM, int), Error>,
    ) -> bool {
        r == exact_outcome::<PointM>(t, s, pos, record_size)
    }

    fn read_typed_content(t: ShapeType, data: &[u8], pos: usize, record_size: i32, classify: &F) -> (r: Result<(Self, usize), Error>) {
        read_exact::<PointM>(t, data, pos, record_size)
    }
}

impl<F: Fn(Vec<u64>) -> RingType> ReadableShape<F> for PointZ {
    open spec fn typed_outcome(
        classify: F,
        t: ShapeType,
        s: Seq<u8>,
        pos: int,
        record_size: i32,
        r: Result<(PointZ, int), Error>,
    ) -> bool {
        r == exact_outcome::<PointZ>(t, s, pos, record_size)
    }

    fn read_typed_content(t: ShapeType, data: &[u8], pos: usize, record_size: i32, classify: &F) -> (r: Result<(Self, usize), Error>) {
        read_exact::<PointZ>(t, data, pos, record_size)
    }
}

impl<F: Fn(Vec<u64>) -> RingType> ReadableShape<F> for Polyline {
    open spec fn typed_outcome(
        classify: F,
        t: ShapeType,
        s: Seq<u8>,
        pos: int,
        record_size: i32,
        r: Result<(PolylineView<Point>, int), Error>,
    ) -> bool {
        r == exact_outcome::<Polyline>(t, s, pos, record_size)
    }

    fn read_typed_content(t: ShapeType, data: &[u8], pos: usize, record_size: i32, classify: &F) -> (r: Result<(Self, usize), Error>) {
        read_exact::<Polyline>(t, data, pos, record_size)
    }
}

impl<F: Fn(Vec<u64>) -> RingType> ReadableShape<F> for PolylineM {
    open spec fn typed_outcome(
        classify: F,
        t: ShapeType,
        s: Seq<u8>,
        pos: int,
        record_size: i32,
        r: Result<(PolylineView<PointM>, int), Error>,
    ) -> bool {
        r == exact_outcome::<PolylineM>(t, s, pos, record_size)
    }

    fn read_typed_content(t: ShapeType, data: &[u8], pos: usize, record_size: i32, classify: &F) -> (r: Result<(Self, usize), Error>) {
        read_exact::<PolylineM>(t, data, pos, record_size)
    }
}

impl<F: Fn(Vec<u64>) -> RingType> ReadableShape<F> for PolylineZ {
    open spec fn typed_outcome(
        classify: F,
        t: ShapeType,
        s: Seq<u8>,
        pos: int,
        record_size: i32,
        r: Result<(PolylineView<PointZ>, int), Error>,
    ) -> bool {
        r == exact_outcome::<PolylineZ>(t, s, pos, record_size)
    }

    fn read_typed_content(t: ShapeType, data: &[u8], pos: usize, record_size: i32, classify: &F) -> (r: Result<(Self, usize), Error>) {
        read_exact::<PolylineZ>(t, data, pos, record_size)
    }
}

impl<F: Fn(Vec<u64>) -> RingType> ReadableShape<F> for Multipoint {
    open spec fn typed_outcome(
        classify: F,
        t: ShapeType,
        s: Seq<u8>,
        pos: int,
        record_size: i32,
        r: Result<(MultipointView<Point>, int), Error>,
    ) -> bool {
        r == exact_outcome::<Multipoint>(t, s, pos, record_size)
    }

    fn read_typed_content(t: ShapeType, data: &[u8], pos: usize, record_size: i32, classify: &F) -> (r: Result<(Self, usize), Error>) {
        read_exact::<Multipoint>(t, data, pos, record_size)
    }
}

impl<F: Fn(Vec<u64>) -> RingType> ReadableShape<F> for MultipointM {
    open spec fn typed_outcome(
        classify: F,
        t: ShapeType,
        s: Seq<u8>,
        pos: int,
        record_size: i32,
        r: Result<(MultipointView<PointM>, int), Error>,
    ) -> bool {
        r == exact_outcome::<MultipointM>(t, s, pos, record_size)
    }

    fn read_typed_content(t: ShapeType, data: &[u8], pos: usize, record_size: i32, classify: &F) -> (r: Result<(Self, usize), Error>) {
        read_exact::<MultipointM>(t, data, pos, record_size)
    }
}

impl<F: Fn(Vec<u64>) -> RingType> ReadableShape<F> for MultipointZ {
    open spec fn typed_outcome(
        classify: F,
        t: ShapeType,
        s: Seq<u8>,
        pos: int,
        record_size: i32,
        r: Result<(MultipointView<PointZ>, int), Error>,
    ) -> bool {
        r == exact_outcome::<MultipointZ>(t, s, pos, record_size)
    }

    fn read_typed_content(t: ShapeType, data: &[u8], pos: usize, record_size: i32, classify: &F) -> (r: Result<(Self, usize), Error>) {
        read_exact::<MultipointZ>(t, data, pos, record_size)
    }
}

impl<F: Fn(Vec<u64>) -> RingType> ReadableShape<F> for Multipatch {
    open spec fn typed_outcome(
        classify: F,
        t: ShapeType,
        s: Seq<u8>,
        pos: int,
        record_size: i32,
        r: Result<(MultipatchView, int), Error>,
    ) -> bool {
        r == exact_outcome::<Multipatch>(t, s, pos, record_size)
    }

    fn read_typed_content(t: ShapeType, data: &[u8], pos: usize, record_size: i32, classify: &F) -> (r: Result<(Self, usize), Error>) {
        read_exact::<Multipatch>(t, data, pos, record_size)
    }
}

impl<F: Fn(Vec<u64>) -> RingType> ReadableShape<F> for Polygon {
    open spec fn typed_outcome(
        classify: F,
        t: ShapeType,
        s: Seq<u8>,
        pos: int,
        record_size: i32,
        r: Result<(PolygonView<Point>, int), Error>,
    ) -> bool {
        polygon_outcome::<Point, F>(classify, ShapeType::Polygon, t, s, pos, record_size, r)
    }

    fn read_typed_content(t: ShapeType, data: &[u8], pos: usize, record_size: i32, classify: &F) -> (r: Result<(Self, usize), Error>) {
        read_polygon_typed::<Point, F>(ShapeType::Polygon, t, data, pos, record_size, classify)
    }
}

impl<F: Fn(Vec<u64>) -> RingType> ReadableShape<F> for PolygonM {
    open spec fn typed_outcome(
        classify: F,
        t: ShapeType,
        s: Seq<u8>,
        pos: int,
        record_size: i32,
        r: Result<(PolygonView<PointM>, int), Error>,
    ) -> bool {
        polygon_outcome::<PointM, F>(classify, ShapeType::PolygonM, t, s, pos, record_size, r)
    }

    fn read_typed_content(t: ShapeType, data: &[u8], pos: usize, record_size: i32, classify: &F) -> (r: Result<(Self, usize), Error>) {
        read_polygon_typed::<PointM, F>(ShapeType::PolygonM, t, data, pos, record_size, classify)
    }
}

impl<F: Fn(Vec<u64>) -> RingType> ReadableShape<F> for PolygonZ {
    open spec fn typed_outcome(
        classify: F,
        t: ShapeType,
        s: Seq<u8>,
        pos: int,
        record_size: i32,
        r: Result<(PolygonView<PointZ>, int), Error>,
    ) -> bool {
        polygon_outcome::<PointZ, F>(classify, ShapeType::PolygonZ, t, s, pos, record_size, r)
    }

    fn read_typed_content(t: ShapeType, data: &[u8], pos: usize, record_size: i32, classify: &F) -> (r: Result<(Self, usize), Error>) {
        read_polygon_typed::<PointZ, F>(ShapeType::PolygonZ, t, data, pos, record_size, classify)
    }
}

impl<F: Fn(Vec<u64>) -> RingType> ReadableShape<F> for Shape {
    /// A shape of any type is read as the shape of the record's type; a null shape has
    /// no content.
    open spec fn typed_outcome(
        classify: F,
        t: ShapeType,
        s: Seq<u8>,
        pos: int,
        record_size: i32,
        r: Result<(ShapeView, int), Error>,
    ) -> bool {
        match t {
            ShapeType::NullShape => r == Ok::<(ShapeView, int), Error>((ShapeView::NullShape, 0)),
            ShapeType::Point => match r {
                Ok((ShapeView::Point(v), n)) => <Point as ReadableShape<F>>::typed_outcome(
                    classify,
                    t,
                    s,
                    pos,
                    record_size,
                    Ok((v, n)),
                ),
                Ok(_) => false,
                Err(e) => <Point as ReadableShape<F>>::typed_outcome(classify, t, s, pos, record_size, Err(e)),
            },
            ShapeType::PointM => match r {
                Ok((ShapeView::PointM(v), n)) => <PointM as ReadableShape<F>>::typed_outcome(
                    classify,
                    t,
                    s,
                    pos,
                    record_size,
                    Ok((v, n)),
                ),
                Ok(_) => false,
                Err(e) => <PointM as ReadableShape<F>>::typed_outcome(classify, t, s, pos, record_size, Err(e)),
            },
            ShapeType::PointZ => match r {
                Ok((ShapeView::PointZ(v), n)) => <PointZ as ReadableShape<F>>::typed_outcome(
                    classify,
                    t,
                    s,
                    pos,
                    record_size,
                    Ok((v, n)),
                ),
                Ok(_) => false,
                Err(e) => <PointZ as ReadableShape<F>>::typed_outcome(classify, t, s, pos, record_size, Err(e)),
            },
            ShapeType::Polyline => match r {
                Ok((ShapeView::Polyline(v), n)) => <Polyline as ReadableShape<F>>::typed_outcome(
                    classify,
                    t,
                    s,
                    pos,
                    record_size,
                    Ok((v, n)),
                ),
                Ok(_) => false,
                Err(e) => <Polyline as ReadableShape<F>>::typed_outcome(classify, t, s, pos, record_size, Err(e)),
            },
            ShapeType::PolylineM => match r {
                Ok((ShapeView::PolylineM(v), n)) => <PolylineM as ReadableShape<F>>::typed_outcome(
                    classify,
                    t,
                    s,
                    pos,
                    record_size,
                    Ok((v, n)),
                ),
                Ok(_) => false,
                Err(e) => <PolylineM as ReadableShape<F>>::typed_outcome(classify, t, s, pos, record_size, Err(e)),
            },
            ShapeType::PolylineZ => match r {
                Ok((ShapeView::PolylineZ(v), n)) => <PolylineZ as ReadableShape<F>>::typed_outcome(
                    classify,
                    t,
                    s,
                    pos,
                    record_size,
                    Ok((v, n)),
                ),
                Ok(_) => false,
                Err(e) => <PolylineZ as ReadableShape<F>>::typed_outcome(classify, t, s, pos, record_size, Err(e)),
            },
            ShapeType::Polygon => match r {
                Ok((ShapeView::Polygon(v), n)) => <Polygon as ReadableShape<F>>::typed_outcome(
                    classify,
                    t,
                    s,
                    pos,
                    record_size,
                    Ok((v, n)),
                ),
                Ok(_) => false,
                Err(e) => <Polygon as ReadableShape<F>>::typed_outcome(classify, t, s, pos, record_size, Err(e)),
            },
            ShapeType::PolygonM => match r {
                Ok((ShapeView::PolygonM(v), n)) => <PolygonM as ReadableShape<F>>::typed_outcome(
                    classify,
                    t,
                    s,
                    pos,
                    record_size,
                    Ok((v, n)),
                ),
                Ok(_) => false,
                Err(e) => <PolygonM as ReadableShape<F>>::typed_outcome(classify, t, s, pos, record_size, Err(e)),
            },
            ShapeType::PolygonZ => match r {
                Ok((ShapeView::PolygonZ(v), n)) => <PolygonZ as ReadableShape<F>>::typed_outcome(
                    classify,
                    t,
                    s,
                    pos,
                    record_size,
                    Ok((v, n)),
                ),
                Ok(_) => false,
                Err(e) => <PolygonZ as ReadableShape<F>>::typed_outcome(classify, t, s, pos, record_size, Err(e)),
            },
            ShapeType::Multipoint => match r {
                Ok((ShapeView::Multipoint(v), n)) => <Multipoint as ReadableShape<F>>::typed_outcome(
                    classify,
                    t,
                    s,
                    pos,
                    record_size,
                    Ok((v, n)),
                ),
                Ok(_) => false,
                Err(e) => <Multipoint as ReadableShape<F>>::typed_outcome(classify, t, s, pos, record_size, Err(e)),
            },
            ShapeType::MultipointM => match r {
                Ok((ShapeView::MultipointM(v), n)) => <MultipointM as ReadableShape<F>>::typed_outcome(
                    classify,
                    t,
                    s,
                    pos,
                    record_size,
                    Ok((v, n)),
                ),
                Ok(_) => false,
                Err(e) => <MultipointM as ReadableShape<F>>::typed_outcome(classify, t, s, pos, record_size, Err(e)),
            },
            ShapeType::MultipointZ => match r {
                Ok((ShapeView::MultipointZ(v), n)) => <MultipointZ as ReadableShape<F>>::typed_outcome(
                    classify,
                    t,
                    s,
                    pos,
                    record_size,
                    Ok((v, n)),
                ),
                Ok(_) => false,
                Err(e) => <MultipointZ as ReadableShape<F>>::typed_outcome(classify, t, s, pos, record_size, Err(e)),
            },
            ShapeType::Multipatch => match r {
                Ok((ShapeView::Multipatch(v), n)) => <Multipatch as ReadableShape<F>>::typed_outcome(
                    classify,
                    t,
                    s,
                    pos,
                    record_size,
                    Ok((v, n)),
                ),
                Ok(_) => false,
                Err(e) => <Multipatch as ReadableShape<F>>::typed_outcome(classify, t, s, pos, record_size, Err(e)),
            },
        }
    }

    fn read_typed_content(t: ShapeType, data: &[u8], pos: usize, record_size: i32, classify: &F) -> (r: Result<(Self, usize), Error>) {
        match t {
            ShapeType::NullShape => Ok((Shape::NullShape, 0)),
            ShapeType::Point => match <Point as ReadableShape<F>>::read_typed_content(t, data, pos, record_size, classify) {
                Ok((v, n)) => Ok((Shape::Point(v), n)),
                Err(e) => Err(e),
            },
            ShapeType::PointM => match <PointM as ReadableShape<F>>::read_typed_content(t, data, pos, record_size, classify) {
                Ok((v, n)) => Ok((Shape::PointM(v), n)),
                Err(e) => Err(e),
            },
            ShapeType::PointZ => match <PointZ as ReadableShape<F>>::read_typed_content(t, data, pos, record_size, classify) {
                Ok((v, n)) => Ok((Shape::PointZ(v), n)),
                Err(e) => Err(e),
            },
            ShapeType::Polyline => match <Polyline as ReadableShape<F>>::read_typed_content(t, data, pos, record_size, classify) {
                Ok((v, n)) => Ok((Shape::Polyline(v), n)),
                Err(e) => Err(e),
            },
            ShapeType::PolylineM => match <PolylineM as ReadableShape<F>>::read_typed_content(t, data, pos, record_size, classify) {
                Ok((v, n)) => Ok((Shape::PolylineM(v), n)),
                Err(e) => Err(e),
            },
            ShapeType::PolylineZ => match <PolylineZ as ReadableShape<F>>::read_typed_content(t, data, pos, record_size, classify) {
                Ok((v, n)) => Ok((Shape::PolylineZ(v), n)),
                Err(e) => Err(e),
            },
            ShapeType::Polygon => match <Polygon as ReadableShape<F>>::read_typed_content(t, data, pos, record_size, classify) {
                Ok((v, n)) => Ok((Shape::Polygon(v), n)),
                Err(e) => Err(e),
            },
            ShapeType::PolygonM => match <PolygonM as ReadableShape<F>>::read_typed_content(t, data, pos, record_size, classify) {
                Ok((v, n)) => Ok((Shape::PolygonM(v), n)),
                Err(e) => Err(e),
            },
            ShapeType::PolygonZ => match <PolygonZ as ReadableShape<F>>::read_typed_content(t, data, pos, record_size, classify) {
                Ok((v, n)) => Ok((Shape::PolygonZ(v), n)),
                Err(e) => Err(e),
            },
            ShapeType::Multipoint => match <Multipoint as ReadableShape<F>>::read_typed_content(t, data, pos, record_size, classify) {
                Ok((v, n)) => Ok((Shape::Multipoint(v), n)),
                Err(e) => Err(e),
            },
            ShapeType::MultipointM => match <MultipointM as ReadableShape<F>>::read_typed_content(t, data, pos, record_size, classify) {
                Ok((v, n)) => Ok((Shape::MultipointM(v), n)),
                Err(e) => Err(e),
            },
            ShapeType::MultipointZ => match <MultipointZ as ReadableShape<F>>::read_typed_content(t, data, pos, record_size, classify) {
                Ok((v, n)) => Ok((Shape::MultipointZ(v), n)),
                Err(e) => Err(e),
            },
            ShapeType::Multipatch => match <Multipatch as ReadableShape<F>>::read_typed_content(t, data, pos, record_size, classify) {
                Ok((v, n)) => Ok((Shape::Multipatch(v), n)),
                Err(e) => Err(e),
            },
        }
    }
}

/// The concrete shapes, each a variant of `Shape`.
pub trait ShapeVariant: HasShapeType + View + Sized {
    /// The shape holding `v`.
    spec fn spec_wrap(v: Self::V) -> ShapeView;

    /// What the shape holds, when it is of this variant.
    spec fn spec_unwrap(s: ShapeView) -> Option<Self::V>;

    /// Taking a shape out of the variant it was put in gives it back, and a shape of
    /// this variant is the variant of what it holds.
    proof fn lemma_wrap_unwrap(v: Self::V, s: ShapeView)
        ensures
            Self::spec_unwrap(Self::spec_wrap(v)) == Some(v),
            Self::spec_unwrap(s) matches Some(u) ==> Self::spec_wrap(u) == s,
    ;

    /// Puts the shape in its variant of `Shape`.
    fn into_shape(self) -> (r: Shape)
        ensures
            r@ == Self::spec_wrap(self@),
    ;

    /// Takes the shape out of `Shape` when it is of this variant; otherwise the error
    /// gives the requested and the actual shape types.
    fn try_from_shape(shape: Shape) -> (r: Result<Self, Error>)
        ensures
            match r {
                Ok(v) => Self::spec_unwrap(shape@) == Some(v@),
                Err(e) => Self::spec_unwrap(shape@) is None && e == (Error::MismatchShapeType {
                    requested: Self::spec_shapetype(),
                    actual: spec_shape_type(shape@),
                }),
            },
    ;
}

impl ShapeVariant for Point {
    open spec fn spec_wrap(v: Self::V) -> ShapeView {
        ShapeView::Point(v)
    }

    open spec fn spec_unwrap(s: ShapeView) -> Option<Self::V> {
        match s {
            ShapeView::Point(v) => Some(v),
            _ => None,
        }
    }

    proof fn lemma_wrap_unwrap(v: Self::V, s: ShapeView) {
    }

    fn into_shape(self) -> (r: Shape) {
        Shape::Point(self)
    }

    fn try_from_shape(shape: Shape) -> (r: Result<Self, Error>) {
        match shape {
            Shape::Point(v) => Ok(v),
            _ => Err(Error::MismatchShapeType { requested: ShapeType::Point, actual: shape.shapetype() }),
        }
    }
}

impl ShapeVariant for PointM {
    open spec fn spec_wrap(v: Self::V) -> ShapeView {
        ShapeView::PointM(v)
    }

    open spec fn spec_unwrap(s: ShapeView) -> Option<Self::V> {
        match s {
            ShapeView::PointM(v) => Some(v),
            _ => None,
        }
    }

    proof fn lemma_wrap_unwrap(v: Self::V, s: ShapeView) {
    }

    fn into_shape(self) -> (r: Shape) {
        Shape::PointM(self)
    }

    fn try_from_shape(shape: Shape) -> (r: Result<Self, Error>) {
        match shape {
            Shape::PointM(v) => Ok(v),
            _ => Err(Error::MismatchShapeType { requested: ShapeType::PointM, actual: shape.shapetype() }),
        }
    }
}

impl ShapeVariant for PointZ {
    open spec fn spec_wrap(v: Self::V) -> ShapeView {
        ShapeView::PointZ(v)
    }

    open spec fn spec_unwrap(s: ShapeView) -> Option<Self::V> {
        match s {
            ShapeView::PointZ(v) => Some(v),
            _ => None,
        }
    }

    proof fn lemma_wrap_unwrap(v: Self::V, s: ShapeView) {
    }

    fn into_shape(self) -> (r: Shape) {
        Shape::PointZ(self)
    }

    fn try_from_shape(shape: Shape) -> (r: Result<Self, Error>) {
        match shape {
            Shape::PointZ(v) => Ok(v),
            _ => Err(Error::MismatchShapeType { requested: ShapeType::PointZ, actual: shape.shapetype() }),
        }
    }
}

impl ShapeVariant for Polyline {
    open spec fn spec_wrap(v: Self::V) -> ShapeView {
        ShapeView::Polyline(v)
    }

    open spec fn spec_unwrap(s: ShapeView) -> Option<Self::V> {
        match s {
            ShapeView::Polyline(v) => Some(v),
            _ => None,
        }
    }

    proof fn lemma_wrap_unwrap(v: Self::V, s: ShapeView) {
    }

    fn into_shape(self) -> (r: Shape) {
        Shape::Polyline(self)
    }

    fn try_from_shape(shape: Shape) -> (r: Result<Self, Error>) {
        match shape {
            Shape::Polyline(v) => Ok(v),
            _ => Err(Error::MismatchShapeType { requested: ShapeType::Polyline, actual: shape.shapetype() }),
        }
    }
}

impl ShapeVariant for PolylineM {
    open spec fn spec_wrap(v: Self::V) -> ShapeView {
        ShapeView::PolylineM(v)
    }

    open spec fn spec_unwrap(s: ShapeView) -> Option<Self::V> {
        match s {
            ShapeView::PolylineM(v) => Some(v),
            _ => None,
        }
    }

    proof fn lemma_wrap_unwrap(v: Self::V, s: ShapeView) {
    }

    fn into_shape(self) -> (r: Shape) {
        Shape::PolylineM(self)
    }

    fn try_from_shape(shape: Shape) -> (r: Result<Self, Error>) {
        match shape {
            Shape::PolylineM(v) => Ok(v),
            _ => Err(Error::MismatchShapeType { requested: ShapeType::PolylineM, actual: shape.shapetype() }),
        }
    }
}

impl ShapeVariant for PolylineZ {
    open spec fn spec_wrap(v: Self::V) -> ShapeView {
        ShapeView::PolylineZ(v)
    }

    open spec fn spec_unwrap(s: ShapeView) -> Option<Self::V> {
        match s {
            ShapeView::PolylineZ(v) => Some(v),
            _ => None,
        }
    }

    proof fn lemma_wrap_unwrap(v: Self::V, s: ShapeView) {
    }

    fn into_shape(self) -> (r: Shape) {
        Shape::PolylineZ(self)
    }

    fn try_from_shape(shape: Shape) -> (r: Result<Self, Error>) {
        match shape {
            Shape::PolylineZ(v) => Ok(v),
            _ => Err(Error::MismatchShapeType { requested: ShapeType::PolylineZ, actual: shape.shapetype() }),
        }
    }
}

impl ShapeVariant for Polygon {
    open spec fn spec_wrap(v: Self::V) -> ShapeView {
        ShapeView::Polygon(v)
    }

    open spec fn spec_unwrap(s: ShapeView) -> Option<Self::V> {
        match s {
            ShapeView::Polygon(v) => Some(v),
            _ => None,
        }
    }

    proof fn lemma_wrap_unwrap(v: Self::V, s: ShapeView) {
    }

    fn into_shape(self) -> (r: Shape) {
        Shape::Polygon(self)
    }

    fn try_from_shape(shape: Shape) -> (r: Result<Self, Error>) {
        match shape {
            Shape::Polygon(v) => Ok(v),
            _ => Err(Error::MismatchShapeType { requested: ShapeType::Polygon, actual: shape.shapetype() }),
        }
    }
}

impl ShapeVariant for PolygonM {
    open spec fn spec_wrap(v: Self::V) -> ShapeView {
        ShapeView::PolygonM(v)
    }

    open spec fn spec_unwrap(s: ShapeView) -> Option<Self::V> {
        match s {
            ShapeView::PolygonM(v) => Some(v),
            _ => None,
        }
    }

    proof fn lemma_wrap_unwrap(v: Self::V, s: ShapeView) {
    }

    fn into_shape(self) -> (r: Shape) {
        Shape::PolygonM(self)
    }

    fn try_from_shape(shape: Shape) -> (r: Result<Self, Error>) {
        match shape {
            Shape::PolygonM(v) => Ok(v),
            _ => Err(Error::MismatchShapeType { requested: ShapeType::PolygonM, actual: shape.shapetype() }),
        }
    }
}

impl ShapeVariant for PolygonZ {
    open spec fn spec_wrap(v: Self::V) -> ShapeView {
        ShapeView::PolygonZ(v)
    }

    open spec fn spec_unwrap(s: ShapeView) -> Option<Self::V> {
        match s {
            ShapeView::PolygonZ(v) => Some(v),
            _ => None,
        }
    }

    proof fn lemma_wrap_unwrap(v: Self::V, s: ShapeView) {
    }

    fn into_shape(self) -> (r: Shape) {
        Shape::PolygonZ(self)
    }

    fn try_from_shape(shape: Shape) -> (r: Result<Self, Error>) {
        match shape {
            Shape::PolygonZ(v) => Ok(v),
            _ => Err(Error::MismatchShapeType { requested: ShapeType::PolygonZ, actual: shape.shapetype() }),
        }
    }
}

impl ShapeVariant for Multipoint {
    open spec fn spec_wrap(v: Self::V) -> ShapeView {
        ShapeView::Multipoint(v)
    }

    open spec fn spec_unwrap(s: ShapeView) -> Option<Self::V> {
        match s {
            ShapeView::Multipoint(v) => Some(v),
            _ => None,
        }
    }

    proof fn lemma_wrap_unwrap(v: Self::V, s: ShapeView) {
    }

    fn into_shape(self) -> (r: Shape) {
        Shape::Multipoint(self)
    }

    fn try_from_shape(shape: Shape) -> (r: Result<Self, Error>) {
        match shape {
            Shape::Multipoint(v) => Ok(v),
            _ => Err(Error::MismatchShapeType { requested: ShapeType::Multipoint, actual: shape.shapetype() }),
        }
    }
}

impl ShapeVariant for MultipointM {
    open spec fn spec_wrap(v: Self::V) -> ShapeView {
        ShapeView::MultipointM(v)
    }

    open spec fn spec_unwrap(s: ShapeView) -> Option<Self::V> {
        match s {
            ShapeView::MultipointM(v) => Some(v),
            _ => None,
        }
    }

    proof fn lemma_wrap_unwrap(v: Self::V, s: ShapeView) {
    }

    fn into_shape(self) -> (r: Shape) {
        Shape::MultipointM(self)
    }

    fn try_from_shape(shape: Shape) -> (r: Result<Self, Error>) {
        match shape {
            Shape::MultipointM(v) => Ok(v),
            _ => Err(Error::MismatchShapeType { requested: ShapeType::MultipointM, actual: shape.shapetype() }),
        }
    }
}

impl ShapeVariant for MultipointZ {
    open spec fn spec_wrap(v: Self::V) -> ShapeView {
        ShapeView::MultipointZ(v)
    }

    open spec fn spec_unwrap(s: ShapeView) -> Option<Self::V> {
        match s {
            ShapeView::MultipointZ(v) => Some(v),
            _ => None,
        }
    }

    proof fn lemma_wrap_unwrap(v: Self::V, s: ShapeView) {
    }

    fn into_shape(self) -> (r: Shape) {
        Shape::MultipointZ(self)
    }

    fn try_from_shape(shape: Shape) -> (r: Result<Self, Error>) {
        match shape {
            Shape::MultipointZ(v) => Ok(v),
            _ => Err(Error::MismatchShapeType { requested: ShapeType::MultipointZ, actual: shape.shapetype() }),
        }
    }
}

impl ShapeVariant for Multipatch {
    open spec fn spec_wrap(v: Self::V) -> ShapeView {
        ShapeView::Multipatch(v)
    }

    open spec fn spec_unwrap(s: ShapeView) -> Option<Self::V> {
        match s {
            ShapeView::Multipatch(v) => Some(v),
            _ => None,
        }
    }

    proof fn lemma_wrap_unwrap(v: Self::V, s: ShapeView) {
    }

    fn into_shape(self) -> (r: Shape) {
        Shape::Multipatch(self)
    }

    fn try_from_shape(shape: Shape) -> (r: Result<Self, Error>) {
        match shape {
            Shape::Multipatch(v) => Ok(v),
            _ => Err(Error::MismatchShapeType { requested: ShapeType::Multipatch, actual: shape.shapetype() }),
        }
    }
}

/// The views of the shapes.
pub open spec fn shape_views(shapes: Seq<Shape>) -> Seq<ShapeView> {
    Seq::new(shapes.len(), |k: int| shapes[k]@)
}

/// The vector in reverse order.
pub fn reverse_vec<T>(v: Vec<T>) -> (r: Vec<T>)
    ensures
        r@ == v@.reverse(),
{
    let ghost orig = v@;
    let mut rest = v;
    let mut out: Vec<T> = Vec::new();
    while rest.len() > 0
        invariant
            rest@.len() + out@.len() == orig.len(),
            rest@ == orig.take(rest@.len() as int),
            out@ == orig.skip(rest@.len() as int).reverse(),
        decreases rest@.len(),
    {
        let ghost k = rest@.len() - 1;
        match rest.pop() {
            Some(x) => {
                out.push(x);
                assert(orig.skip(k).reverse() =~= orig.skip(k + 1).reverse().push(orig[k]));
            },
            None => {},
        }
        assert(rest@ =~= orig.take(rest@.len() as int));
    }
    assert(orig.skip(0) == orig);
    out
}

/// Whether `e` is the error of converting the shapes to `S`: the mismatch of the first
/// shape of another variant.
pub open spec fn first_mismatch<S: ShapeVariant>(shapes: Seq<ShapeView>, e: Error) -> bool {
    exists|k: int|
        {
            &&& 0 <= k < shapes.len()
            &&& S::spec_unwrap(#[trigger] shapes[k]) is None
            &&& forall|j: int| 0 <= j < k ==> S::spec_unwrap(#[trigger] shapes[j]) is Some
            &&& e == (Error::MismatchShapeType {
                requested: S::spec_shapetype(),
                actual: spec_shape_type(shapes[k]),
            })
        }
}

/// Converts all the shapes to the concrete type `S`, when they are all of that
/// variant; otherwise the error is that of the first shape of another variant.
pub fn convert_shapes_to_vec_of<S: ShapeVariant>(shapes: Vec<Shape>) -> (r: Result<Vec<S>, Error>)
    ensures
        r matches Ok(v) ==> v@.len() == shapes@.len() && forall|k: int|
            0 <= k < shapes@.len() ==> S::spec_unwrap(shapes@[k]@) == Some((#[trigger] v@[k])@),
        r matches Err(e) ==> first_mismatch::<S>(shape_views(shapes@), e),
{
    let ghost orig = shapes@;
    let n = shapes.len();
    let mut rev = reverse_vec(shapes);
    let mut out: Vec<S> = Vec::new();
    while rev.len() > 0
        invariant
            out@.len() + rev@.len() == n,
            n == orig.len(),
            orig == shapes@,
            rev@ == orig.skip(out@.len() as int).reverse(),
            forall|k: int| 0 <= k < out@.len() ==> S::spec_unwrap(orig[k]@) == Some((#[trigger] out@[k])@),
        decreases rev@.len(),
    {
        let ghost k = out@.len() as int;
        let popped = rev.pop();
        match popped {
            Some(shape) => {
                assert(shape == orig[k]);
                assert(rev@ =~= orig.skip(k + 1).reverse());
                match S::try_from_shape(shape) {
                    Ok(v) => {
                        out.push(v);
                    },
                    Err(e) => {
                        assert forall|j: int| 0 <= j < k implies S::spec_unwrap(
                            #[trigger] orig[j]@,
                        ) is Some by {
                            assert(S::spec_unwrap(orig[j]@) == Some(out@[j]@));
                        }
                        assert(S::spec_unwrap(orig[k]@) is None);
                        assert(shape_views(orig)[k] == orig[k]@);
                        assert forall|j: int| 0 <= j < k implies S::spec_unwrap(
                            #[trigger] shape_views(orig)[j],
                        ) is Some by {
                            assert(shape_views(orig)[j] == orig[j]@);
                        }
                        assert(e == (Error::MismatchShapeType {
                            requested: S::spec_shapetype(),
                            actual: spec_shape_type(shape_views(orig)[k]),
                        }));
                        return Err(e);
                    },
                }
            },
            None => {},
        }
    }
    Ok(out)
}

/// Shapes that read back as they were written.
pub trait ReadBack<F: Fn(Vec<u64>) -> RingType>: EsriShape + ReadableShape<F> {
    /// Whether the shape reads back as written: its measures are kept by reading (none
    /// below `NO_DATA`, none NaN), and for polygons each ring is of the kind the
    /// classifier gives for its points.
    spec fn reads_back(&self, classify: F) -> bool;

    /// Reading the content of a shape where it stands can only give the shape back,
    /// with the content's length as the number of bytes read; the content's length is
    /// even.
    proof fn lemma_reads_back(&self, classify: F, s: Seq<u8>, pos: int)
        requires
            self.reads_back(classify),
            self.spec_size_fits(),
            stands_at(s, pos, self.spec_content()),
        ensures
            self.spec_content().len() % 2 == 0,
            forall|r: Result<(Self::V, int), Error>|
                #[trigger] Self::typed_outcome(
                    classify,
                    Self::spec_shapetype(),
                    s,
                    pos,
                    self.spec_content().len() as i32,
                    r,
                ) ==> r == Ok::<(Self::V, int), Error>((self@, self.spec_content().len() as int)),
    ;
}

impl<F: Fn(Vec<u64>) -> RingType> ReadBack<F> for Point {
    open spec fn reads_back(&self, classify: F) -> bool {
        true
    }

    proof fn lemma_reads_back(&self, classify: F, s: Seq<u8>, pos: int) {
        lemma_stands_split(s, pos, self.spec_content());
        let pre = s.take(pos);
        let post = s.skip(pos + self.spec_content().len());
        crate::bytes::lemma_encoding_lengths(0, self.x);
        crate::bytes::lemma_encoding_lengths(0, self.y);
        assert(self.spec_content().len() == 16);
        lemma_point_roundtrip(*self, PointZ { x: 0, y: 0, z: 0, m: 0 }, PointM { x: 0, y: 0, m: 0 }, pre, post);
    }
}

impl<F: Fn(Vec<u64>) -> RingType> ReadBack<F> for PointM {
    open spec fn reads_back(&self, classify: F) -> bool {
        true
    }

    proof fn lemma_reads_back(&self, classify: F, s: Seq<u8>, pos: int) {
        lemma_stands_split(s, pos, self.spec_content());
        let pre = s.take(pos);
        let post = s.skip(pos + self.spec_content().len());
        crate::bytes::lemma_encoding_lengths(0, self.x);
        crate::bytes::lemma_encoding_lengths(0, self.y);
        crate::bytes::lemma_encoding_lengths(0, self.m);
        assert(self.spec_content().len() == 24);
        lemma_point_roundtrip(Point { x: 0, y: 0 }, PointZ { x: 0, y: 0, z: 0, m: 0 }, *self, pre, post);
    }
}

impl<F: Fn(Vec<u64>) -> RingType> ReadBack<F> for PointZ {
    open spec fn reads_back(&self, classify: F) -> bool {
        true
    }

    proof fn lemma_reads_back(&self, classify: F, s: Seq<u8>, pos: int) {
        lemma_stands_split(s, pos, self.spec_content());
        let pre = s.take(pos);
        let post = s.skip(pos + self.spec_content().len());
        crate::bytes::lemma_encoding_lengths(0, self.x);
        crate::bytes::lemma_encoding_lengths(0, self.y);
        crate::bytes::lemma_encoding_lengths(0, self.z);
        crate::bytes::lemma_encoding_lengths(0, self.m);
        assert(self.spec_content().len() == 32);
        lemma_point_roundtrip(Point { x: 0, y: 0 }, *self, PointM { x: 0, y: 0, m: 0 }, pre, post);
    }
}

impl<F: Fn(Vec<u64>) -> RingType> ReadBack<F> for Multipoint {
    open spec fn reads_back(&self, classify: F) -> bool {
        measures_kept(self@.points)
    }

    proof fn lemma_reads_back(&self, classify: F, s: Seq<u8>, pos: int) {
        lemma_stands_split(s, pos, self.spec_content());
        let pre = s.take(pos);
        let post = s.skip(pos + self.spec_content().len());
        lemma_multipoint_content_roundtrip::<Point>(*self, pre, post);
        super::io::lemma_columns_len(self@.bbox, self@.points);
        crate::bytes::lemma_encoding_lengths(self@.points.len() as i32, self@.bbox.min.x);
        crate::bytes::lemma_encoding_lengths(0, self@.bbox.min.y);
        crate::bytes::lemma_encoding_lengths(0, self@.bbox.max.x);
        crate::bytes::lemma_encoding_lengths(0, self@.bbox.max.y);
        let n = self@.points.len() as int;
        lemma_even_len(self.spec_content().len() as int, 18 + 8 * n + (if Point::spec_has_z() { 8 + 4 * n } else { 0 }) + (if Point::spec_has_m() { 8 + 4 * n } else { 0 }));
    }
}

impl<F: Fn(Vec<u64>) -> RingType> ReadBack<F> for MultipointM {
    open spec fn reads_back(&self, classify: F) -> bool {
        measures_kept(self@.points)
    }

    proof fn lemma_reads_back(&self, classify: F, s: Seq<u8>, pos: int) {
        lemma_stands_split(s, pos, self.spec_content());
        let pre = s.take(pos);
        let post = s.skip(pos + self.spec_content().len());
        lemma_multipoint_content_roundtrip::<PointM>(*self, pre, post);
        super::io::lemma_columns_len(self@.bbox, self@.points);
        crate::bytes::lemma_encoding_lengths(self@.points.len() as i32, self@.bbox.min.x);
        crate::bytes::lemma_encoding_lengths(0, self@.bbox.min.y);
        crate::bytes::lemma_encoding_lengths(0, self@.bbox.max.x);
        crate::bytes::lemma_encoding_lengths(0, self@.bbox.max.y);
        let n = self@.points.len() as int;
        lemma_even_len(self.spec_content().len() as int, 18 + 8 * n + (if PointM::spec_has_z() { 8 + 4 * n } else { 0 }) + (if PointM::spec_has_m() { 8 + 4 * n } else { 0 }));
    }
}

impl<F: Fn(Vec<u64>) -> RingType> ReadBack<F> for MultipointZ {
    open spec fn reads_back(&self, classify: F) -> bool {
        measures_kept(self@.points)
    }

    proof fn lemma_reads_back(&self, classify: F, s: Seq<u8>, pos: int) {
        lemma_stands_split(s, pos, self.spec_content());
        let pre = s.take(pos);
        let post = s.skip(pos + self.spec_content().len());
        lemma_multipoint_content_roundtrip::<PointZ>(*self, pre, post);
        super::io::lemma_columns_len(self@.bbox, self@.points);
        crate::bytes::lemma_encoding_lengths(self@.points.len() as i32, self@.bbox.min.x);
        crate::bytes::lemma_encoding_lengths(0, self@.bbox.min.y);
        crate::bytes::lemma_encoding_lengths(0, self@.bbox.max.x);
        crate::bytes::lemma_encoding_lengths(0, self@.bbox.max.y);
        let n = self@.points.len() as int;
        lemma_even_len(self.spec_content().len() as int, 18 + 8 * n + (if PointZ::spec_has_z() { 8 + 4 * n } else { 0 }) + (if PointZ::spec_has_m() { 8 + 4 * n } else { 0 }));
    }
}

impl<F: Fn(Vec<u64>) -> RingType> ReadBack<F> for Polyline {
    open spec fn reads_back(&self, classify: F) -> bool {
        measures_kept(flatten_parts(self@.parts))
    }

    proof fn lemma_reads_back(&self, classify: F, s: Seq<u8>, pos: int) {
        lemma_stands_split(s, pos, self.spec_content());
        let pre = s.take(pos);
        let post = s.skip(pos + self.spec_content().len());
        lemma_polyline_content_roundtrip::<Point>(*self, pre, post);
        super::polyline::lemma_multipart_content_len(self@.bbox, self@.parts);
        let np = self@.parts.len() as int;
        let n = flatten_parts(self@.parts).len() as int;
        lemma_even_len(self.spec_content().len() as int, 20 + 2 * np + 8 * n + (if Point::spec_has_z() { 8 + 4 * n } else { 0 }) + (if Point::spec_has_m() { 8 + 4 * n } else { 0 }));
    }
}

impl<F: Fn(Vec<u64>) -> RingType> ReadBack<F> for PolylineM {
    open spec fn reads_back(&self, classify: F) -> bool {
        measures_kept(flatten_parts(self@.parts))
    }

    proof fn lemma_reads_back(&self, classify: F, s: Seq<u8>, pos: int) {
        lemma_stands_split(s, pos, self.spec_content());
        let pre = s.take(pos);
        let post = s.skip(pos + self.spec_content().len());
        lemma_polyline_content_roundtrip::<PointM>(*self, pre, post);
        super::polyline::lemma_multipart_content_len(self@.bbox, self@.parts);
        let np = self@.parts.len() as int;
        let n = flatten_parts(self@.parts).len() as int;
        lemma_even_len(self.spec_content().len() as int, 20 + 2 * np + 8 * n + (if PointM::spec_has_z() { 8 + 4 * n } else { 0 }) + (if PointM::spec_has_m() { 8 + 4 * n } else { 0 }));
    }
}

impl<F: Fn(Vec<u64>) -> RingType> ReadBack<F> for PolylineZ {
    open spec fn reads_back(&self, classify: F) -> bool {
        measures_kept(flatten_parts(self@.parts))
    }

    proof fn lemma_reads_back(&self, classify: F, s: Seq<u8>, pos: int) {
        lemma_stands_split(s, pos, self.spec_content());
        let pre = s.take(pos);
        let post = s.skip(pos + self.spec_content().len());
        lemma_polyline_content_roundtrip::<PointZ>(*self, pre, post);
        super::polyline::lemma_multipart_content_len(self@.bbox, self@.parts);
        let np = self@.parts.len() as int;
        let n = flatten_parts(self@.parts).len() as int;
        lemma_even_len(self.spec_content().len() as int, 20 + 2 * np + 8 * n + (if PointZ::spec_has_z() { 8 + 4 * n } else { 0 }) + (if PointZ::spec_has_m() { 8 + 4 * n } else { 0 }));
    }
}

impl<F: Fn(Vec<u64>) -> RingType> ReadBack<F> for Polygon {
    open spec fn reads_back(&self, classify: F) -> bool {
        measures_kept(flatten_parts(rings_points(self@.rings))) && rings_follow_classifier(
            classify,
            self@.rings,
        )
    }

    proof fn lemma_reads_back(&self, classify: F, s: Seq<u8>, pos: int) {
        lemma_stands_split(s, pos, self.spec_content());
        let pre = s.take(pos);
        let post = s.skip(pos + self.spec_content().len());
        lemma_polygon_content_roundtrip::<Point, F>(*self, classify, pre, post);
        super::polyline::lemma_multipart_content_len(self@.bbox, rings_points(self@.rings));
        let np = rings_points(self@.rings).len() as int;
        let n = flatten_parts(rings_points(self@.rings)).len() as int;
        lemma_even_len(self.spec_content().len() as int, 20 + 2 * np + 8 * n + (if Point::spec_has_z() { 8 + 4 * n } else { 0 }) + (if Point::spec_has_m() { 8 + 4 * n } else { 0 }));
    }
}

impl<F: Fn(Vec<u64>) -> RingType> ReadBack<F> for PolygonM {
    open spec fn reads_back(&self, classify: F) -> bool {
        measures_kept(flatten_parts(rings_points(self@.rings))) && rings_follow_classifier(
            classify,
            self@.rings,
        )
    }

    proof fn lemma_reads_back(&self, classify: F, s: Seq<u8>, pos: int) {
        lemma_stands_split(s, pos, self.spec_content());
        let pre = s.take(pos);
        let post = s.skip(pos + self.spec_content().len());
        lemma_polygon_content_roundtrip::<PointM, F>(*self, classify, pre, post);
        super::polyline::lemma_multipart_content_len(self@.bbox, rings_points(self@.rings));
        let np = rings_points(self@.rings).len() as int;
        let n = flatten_parts(rings_points(self@.rings)).len() as int;
        lemma_even_len(self.spec_content().len() as int, 20 + 2 * np + 8 * n + (if PointM::spec_has_z() { 8 + 4 * n } else { 0 }) + (if PointM::spec_has_m() { 8 + 4 * n } else { 0 }));
    }
}

impl<F: Fn(Vec<u64>) -> RingType> ReadBack<F> for PolygonZ {
    open spec fn reads_back(&self, classify: F) -> bool {
        measures_kept(flatten_parts(rings_points(self@.rings))) && rings_follow_classifier(
            classify,
            self@.rings,
        )
    }

    proof fn lemma_reads_back(&self, classify: F, s: Seq<u8>, pos: int) {
        lemma_stands_split(s, pos, self.spec_content());
        let pre = s.take(pos);
        let post = s.skip(pos + self.spec_content().len());
        lemma_polygon_content_roundtrip::<PointZ, F>(*self, classify, pre, post);
        super::polyline::lemma_multipart_content_len(self@.bbox, rings_points(self@.rings));
        let np = rings_points(self@.rings).len() as int;
        let n = flatten_parts(rings_points(self@.rings)).len() as int;
        lemma_even_len(self.spec_content().len() as int, 20 + 2 * np + 8 * n + (if PointZ::spec_has_z() { 8 + 4 * n } else { 0 }) + (if PointZ::spec_has_m() { 8 + 4 * n } else { 0 }));
    }
}

impl<F: Fn(Vec<u64>) -> RingType> ReadBack<F> for Multipatch {
    open spec fn reads_back(&self, classify: F) -> bool {
        measures_kept(flatten_parts(patches_points(self@.patches)))
    }

    proof fn lemma_reads_back(&self, classify: F, s: Seq<u8>, pos: int) {
        lemma_stands_split(s, pos, self.spec_content());
        let pre = s.take(pos);
        let post = s.skip(pos + self.spec_content().len());
        lemma_multipatch_content_roundtrip(*self, pre, post);
        super::multipatch::lemma_multipatch_content_len(self@.bbox, self@.patches);
        let np = self@.patches.len() as int;
        let n = flatten_parts(patches_points(self@.patches)).len() as int;
        lemma_even_len(self.spec_content().len() as int, 20 + 4 * np + 16 * n + 16);
    }
}

} // verus!
