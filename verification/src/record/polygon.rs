//! Polygons: `Polygon`, `PolygonM` and `PolygonZ`, shapes made of closed rings.
//!
//! In a shapefile the order of a ring's points says whether the ring is an outer ring
//! (clockwise) or an inner ring, a hole (counterclockwise). That order is found from
//! the sign of a floating-point area; the library leaves that computation to a
//! classifier given by the caller, which receives the ring's x/y values (the bit
//! patterns of each point's x and y, one point after the other) and answers the
//! ring type they describe.
use vstd::prelude::*;
use crate::text::{counted, spec_counted};
use crate::shape_type::spec_name;
use crate::error::Error;
use crate::shape_type::ShapeType;
use super::bbox::{flatten_parts, spec_bbox_of, vec_seqs, GenericBBox};
use super::io::{
    bbox_xy_bytes, columns_bytes, columns_len, content_fits, i32s_bytes, lemma_columns_len_min,
    lemma_flatten_prefix_len, part_starts, write_bbox_xy,
    write_part_starts, write_parts_columns,
};
use super::multipoint::{bbox_m_range, bbox_m_range_exec, bbox_z_range, bbox_z_range_exec};
use super::point::{Point, PointM, PointZ};
use crate::float_bits::f64_eq;
use super::polyline::{
    lemma_multipart_content_len, multipart_content, multipart_content_len, read_polyline_shape,
    spec_read_polyline_view, GenericPolyline, PolylineView,
};
use crate::bytes::push_i32_le;
use super::polyline::lemma_multipart_content_is_record;
use super::readback::{lemma_multipart_readback, lemma_stands_between, measures_kept};
use super::traits::{CoordinatePoint, HasXY};
use super::{ConcreteShape, EsriShape, HasShapeType, WritableShape};

verus! {

/// The two kinds of rings, as told by the order of their points.
#[derive(Debug, PartialEq, Eq, Structural, Copy, Clone)]
pub enum RingType {
    /// Points in clockwise order.
    OuterRing,
    /// Points in counterclockwise order.
    InnerRing,
}

/// A ring of a polygon: the outer ring, or an inner ring defining a hole.
#[derive(Debug, Clone)]
pub enum PolygonRing<PointType> {
    /// The outer ring of a polygon.
    Outer(Vec<PointType>),
    /// Defines a hole in a polygon.
    Inner(Vec<PointType>),
}

/// What a ring is: its kind and its points.
pub enum RingView<P> {
    Outer(Seq<P>),
    Inner(Seq<P>),
}

impl<P> View for PolygonRing<P> {
    type V = RingView<P>;

    open spec fn view(&self) -> RingView<P> {
        match self {
            PolygonRing::Outer(points) => RingView::Outer(points@),
            PolygonRing::Inner(points) => RingView::Inner(points@),
        }
    }
}

/// The points of a ring.
pub open spec fn ring_points<P>(r: RingView<P>) -> Seq<P> {
    match r {
        RingView::Outer(p) => p,
        RingView::Inner(p) => p,
    }
}

/// The ring of the given kind with these points.
pub open spec fn ring_of_kind<P>(t: RingType, points: Seq<P>) -> RingView<P> {
    match t {
        RingType::OuterRing => RingView::Outer(points),
        RingType::InnerRing => RingView::Inner(points),
    }
}

/// The x/y values of the points, one point after the other: what a classifier receives.
pub open spec fn ring_xy<P: HasXY>(points: Seq<P>) -> Seq<u64>
    decreases points.len(),
{
    if points.len() == 0 {
        Seq::empty()
    } else {
        ring_xy(points.drop_last()) + seq![points.last().spec_x(), points.last().spec_y()]
    }
}

/// Whether the classifier may answer `t` for these points.
pub open spec fn classified_as<P: HasXY, F: Fn(Vec<u64>) -> RingType>(
    classify: F,
    points: Seq<P>,
    t: RingType,
) -> bool {
    exists|v: Vec<u64>| v@ == ring_xy(points) && call_ensures(classify, (v,), t)
}

/// Whether the classifier accepts every input.
pub open spec fn classifier_total<F: Fn(Vec<u64>) -> RingType>(classify: F) -> bool {
    forall|v: Vec<u64>| call_requires(classify, (v,))
}

/// Whether the first and last points are equal (as floating-point coordinates).
pub open spec fn spec_is_closed<P: CoordinatePoint>(points: Seq<P>) -> bool {
    points.len() > 0 && points[0].spec_same(&points.last())
}

/// The points, closed by repeating the first point when the last one differs.
pub open spec fn spec_closed<P: CoordinatePoint>(points: Seq<P>) -> Seq<P> {
    if points.len() > 0 && !spec_is_closed(points) {
        points.push(points[0])
    } else {
        points
    }
}

/// The ring, closed by repeating its first point when its last point differs.
pub open spec fn ring_closed<P: CoordinatePoint>(ring: RingView<P>) -> RingView<P> {
    match ring {
        RingView::Outer(p) => RingView::Outer(spec_closed(p)),
        RingView::Inner(p) => RingView::Inner(spec_closed(p)),
    }
}

/// The ring, with its points reversed when their order does not match its kind.
pub open spec fn spec_reordered<P>(ring: RingView<P>, actual: RingType) -> RingView<P> {
    match (ring, actual) {
        (RingView::Outer(p), RingType::InnerRing) => RingView::Outer(p.reverse()),
        (RingView::Inner(p), RingType::OuterRing) => RingView::Inner(p.reverse()),
        (r, _) => r,
    }
}

/// Whether `after` is `before` closed, then ordered to match its kind by a kind the
/// classifier may answer for the closed points.
pub open spec fn normalized_as<P: CoordinatePoint, F: Fn(Vec<u64>) -> RingType>(
    classify: F,
    before: RingView<P>,
    after: RingView<P>,
) -> bool {
    exists|t: RingType|
        #[trigger] classified_as(classify, spec_closed(ring_points(before)), t) && after
            == spec_reordered(ring_closed(before), t)
}

/// Whether `ring` holds `points` as the kind of ring the classifier may answer for them.
pub open spec fn kind_classified<P: HasXY, F: Fn(Vec<u64>) -> RingType>(
    classify: F,
    points: Seq<P>,
    ring: RingView<P>,
) -> bool {
    exists|t: RingType| #[trigger] classified_as(classify, points, t) && ring == ring_of_kind(t, points)
}

/// The views of the rings.
pub open spec fn ring_views<P>(rings: Seq<PolygonRing<P>>) -> Seq<RingView<P>> {
    Seq::new(rings.len(), |k: int| rings[k]@)
}

/// The points of each ring.
pub open spec fn rings_points<P>(rings: Seq<RingView<P>>) -> Seq<Seq<P>> {
    Seq::new(rings.len(), |k: int| ring_points(rings[k]))
}

/// Points closed by `spec_closed` are closed: their first and last points are equal, as
/// floating-point coordinates or as the same values.
pub proof fn lemma_closed_points<P: CoordinatePoint>(points: Seq<P>)
    requires
        points.len() > 0,
    ensures
        spec_closed(points).len() > 0,
        spec_closed(points)[0].spec_same(&spec_closed(points).last()) || spec_closed(points)[0]
            == spec_closed(points).last(),
{
}

/// Returns whether the first and last points are equal; false when there is no point.
pub fn is_part_closed<P: CoordinatePoint>(points: &[P]) -> (r: bool)
    ensures
        r == spec_is_closed(points@),
{
    let n = points.len();
    if n == 0 {
        false
    } else {
        points[0].same(&points[n - 1])
    }
}

/// Closes the points by repeating the first one when the last one differs.
pub fn close_points_if_not_already<P: CoordinatePoint>(points: &mut Vec<P>)
    ensures
        final(points)@ == spec_closed(old(points)@),
{
    if !is_part_closed(points.as_slice()) {
        if points.len() > 0 {
            let first = points[0];
            points.push(first);
        }
    }
}

/// The points in reverse order.
pub fn reversed<P: Copy>(points: &Vec<P>) -> (r: Vec<P>)
    ensures
        r@ == points@.reverse(),
{
    let n = points.len();
    let mut out: Vec<P> = Vec::new();
    let mut i: usize = 0;
    while i < n
        invariant
            0 <= i <= n,
            n == points@.len(),
            out@.len() == i,
            forall|k: int| 0 <= k < i ==> out@[k] == points@[n - 1 - k],
        decreases n - i,
    {
        out.push(points[n - 1 - i]);
        i = i + 1;
    }
    assert(out@ =~= points@.reverse());
    out
}

/// The x/y values of the points, one point after the other.
pub fn ring_xy_values<P: HasXY>(points: &[P]) -> (r: Vec<u64>)
    ensures
        r@ == ring_xy(points@),
{
    let n = points.len();
    let mut out: Vec<u64> = Vec::new();
    let mut i: usize = 0;
    while i < n
        invariant
            0 <= i <= n,
            n == points@.len(),
            out@ == ring_xy(points@.take(i as int)),
        decreases n - i,
    {
        out.push(points[i].x());
        out.push(points[i].y());
        proof {
            assert(points@.take(i + 1).drop_last() == points@.take(i as int));
            assert(out@ =~= ring_xy(points@.take(i + 1)));
        }
        i = i + 1;
    }
    assert(points@.take(n as int) == points@);
    out
}

/// Asks the classifier for the kind of ring the points describe.
pub fn classify_points<P: HasXY, F: Fn(Vec<u64>) -> RingType>(points: &[P], classify: &F) -> (r: RingType)
    requires
        classifier_total(*classify),
    ensures
        classified_as(*classify, points@, r),
{
    let xy = ring_xy_values(points);
    classify(xy)
}

impl<P> PolygonRing<P> {
    /// Returns the number of points of the ring.
    pub fn len(&self) -> (r: usize)
        ensures
            r == ring_points(self@).len(),
    {
        self.points().len()
    }

    /// Returns whether the ring has no point.
    pub fn is_empty(&self) -> (r: bool)
        ensures
            r == (ring_points(self@).len() == 0),
    {
        self.points().len() == 0
    }

    /// Returns the points of the ring.
    pub fn points(&self) -> (r: &[P])
        ensures
            r@ == ring_points(self@),
    {
        match self {
            PolygonRing::Outer(points) => points.as_slice(),
            PolygonRing::Inner(points) => points.as_slice(),
        }
    }

    /// Consumes the ring and returns its points.
    pub fn into_inner(self) -> (r: Vec<P>)
        ensures
            r@ == ring_points(self@),
    {
        match self {
            PolygonRing::Outer(points) => points,
            PolygonRing::Inner(points) => points,
        }
    }
}

impl<P: CoordinatePoint> PolygonRing<P> {
    /// The ring of the kind the classifier gives for the points (the points are kept
    /// in their order).
    pub fn from_points<F: Fn(Vec<u64>) -> RingType>(points: Vec<P>, classify: &F) -> (r: Self)
        requires
            classifier_total(*classify),
        ensures
            kind_classified(*classify, points@, r@),
    {
        let t = classify_points(points.as_slice(), classify);
        let ghost pts = points@;
        let r = match t {
            RingType::OuterRing => PolygonRing::Outer(points),
            RingType::InnerRing => PolygonRing::Inner(points),
        };
        assert(classified_as(*classify, pts, t) && r@ == ring_of_kind(t, pts));
        r
    }

    /// Closes the ring by repeating its first point when its last point differs.
    pub fn close_if_not_already_closed(&mut self)
        ensures
            final(self)@ == ring_closed(old(self)@),
    {
        match self {
            PolygonRing::Outer(points) => close_points_if_not_already(points),
            PolygonRing::Inner(points) => close_points_if_not_already(points),
        }
    }

    /// Reverses the ring's points when the order the classifier finds does not match
    /// the ring's kind.
    pub fn correctly_order_points<F: Fn(Vec<u64>) -> RingType>(&mut self, classify: &F)
        requires
            classifier_total(*classify),
        ensures
            exists|t: RingType|
                classified_as(*classify, ring_points(old(self)@), t) && final(self)@
                    == spec_reordered(old(self)@, t),
    {
        let ghost before = self@;
        let actual = classify_points(self.points(), classify);
        self.reorder_as(actual);
        assert(classified_as(*classify, ring_points(before), actual) && self@ == spec_reordered(
            before,
            actual,
        ));
    }

    /// Reverses the ring's points when `actual`, the kind their order describes, is
    /// not the ring's kind.
    fn reorder_as(&mut self, actual: RingType)
        ensures
            final(self)@ == spec_reordered(old(self)@, actual),
    {
        match (&*self, actual) {
            (PolygonRing::Outer(points), RingType::InnerRing) => {
                let r = reversed(points);
                *self = PolygonRing::Outer(r);
            },
            (PolygonRing::Inner(points), RingType::OuterRing) => {
                let r = reversed(points);
                *self = PolygonRing::Inner(r);
            },
            _ => {},
        }
    }

    /// Closes the ring, then orders its points to match its kind.
    pub fn close_and_reorder<F: Fn(Vec<u64>) -> RingType>(&mut self, classify: &F)
        requires
            classifier_total(*classify),
        ensures
            normalized_as(*classify, old(self)@, final(self)@),
    {
        let ghost before = self@;
        self.close_if_not_already_closed();
        let ghost closed = self@;
        assert(ring_points(closed) == spec_closed(ring_points(before)));
        let actual = classify_points(self.points(), classify);
        self.reorder_as(actual);
        assert(classified_as(*classify, ring_points(closed), actual) && self@ == spec_reordered(
            closed,
            actual,
        ));
    }
}

/// A shape made of rings, with the box that contains them. The rings of a polygon built
/// by `new` or `with_rings` are closed and their points are ordered to match their kind.
#[derive(Debug, Clone)]
pub struct GenericPolygon<PointType> {
    pub(crate) bbox: GenericBBox<PointType>,
    pub(crate) rings: Vec<PolygonRing<PointType>>,
}

/// What a polygon is: its bounding box and its rings.
pub struct PolygonView<P> {
    pub bbox: GenericBBox<P>,
    pub rings: Seq<RingView<P>>,
}

impl<P> View for GenericPolygon<P> {
    type V = PolygonView<P>;

    closed spec fn view(&self) -> PolygonView<P> {
        PolygonView { bbox: self.bbox, rings: ring_views(self.rings@) }
    }
}

/// A polygon of `Point`s.
pub type Polygon = GenericPolygon<Point>;

/// A polygon of `PointM`s.
pub type PolygonM = GenericPolygon<PointM>;

/// A polygon of `PointZ`s.
pub type PolygonZ = GenericPolygon<PointZ>;

/// Copies the points.
pub fn copy_points<P: Copy>(pts: &[P]) -> (r: Vec<P>)
    ensures
        r@ == pts@,
{
    let m = pts.len();
    let mut copy: Vec<P> = Vec::new();
    let mut j: usize = 0;
    while j < m
        invariant
            0 <= j <= m,
            m == pts@.len(),
            copy@ == pts@.take(j as int),
        decreases m - j,
    {
        copy.push(pts[j]);
        assert(pts@.take(j + 1) == pts@.take(j as int).push(pts@[j as int]));
        j = j + 1;
    }
    assert(pts@.take(m as int) == pts@);
    copy
}

/// Copies the points of each ring.
pub fn ring_point_vecs<P: Copy>(rings: &Vec<PolygonRing<P>>) -> (r: Vec<Vec<P>>)
    ensures
        vec_seqs(r@) == rings_points(ring_views(rings@)),
{
    let n = rings.len();
    let mut out: Vec<Vec<P>> = Vec::new();
    let mut i: usize = 0;
    while i < n
        invariant
            0 <= i <= n,
            n == rings@.len(),
            out@.len() == i,
            forall|k: int| 0 <= k < i ==> (#[trigger] out@[k])@ == ring_points(rings@[k]@),
        decreases n - i,
    {
        let copy = copy_points(rings[i].points());
        out.push(copy);
        i = i + 1;
    }
    assert(vec_seqs(out@) =~= rings_points(ring_views(rings@)));
    out
}

impl<P: CoordinatePoint> GenericPolygon<P> {
    /// Creates a polygon with one ring. The ring is closed and ordered (see
    /// `PolygonRing::close_and_reorder`), then the polygon is made by `with_rings`,
    /// which closes and orders it again. The ring must have points.
    pub fn new<F: Fn(Vec<u64>) -> RingType>(ring: PolygonRing<P>, classify: &F) -> (r: Self)
        requires
            classifier_total(*classify),
            ring_points(ring@).len() > 0,
        ensures
            r@.rings.len() == 1,
            exists|mid: RingView<P>|
                normalized_as(*classify, ring@, mid) && #[trigger] normalized_as(
                    *classify,
                    mid,
                    r@.rings[0],
                ),
            r@.bbox == spec_bbox_of(ring_points(r@.rings[0])),
    {
        let ghost before = ring@;
        let mut ring = ring;
        ring.close_and_reorder(classify);
        let ghost mid = ring@;
        proof {
            lemma_normalized_len(*classify, before, mid);
        }
        let mut rings: Vec<PolygonRing<P>> = Vec::new();
        rings.push(ring);
        let r = Self::with_rings(rings, classify);
        proof {
            let pts = rings_points(r@.rings);
            assert(pts.len() == 1);
            assert(pts.drop_last() =~= Seq::<Seq<P>>::empty());
            assert(flatten_parts(pts.drop_last()) =~= Seq::<P>::empty());
            assert(flatten_parts(pts) =~= pts[0]);
        }
        r
    }

    /// Creates a polygon with several rings: each ring is closed and its points ordered
    /// to match its kind; the bounding box covers all the rings. There must be a ring,
    /// and the first ring must have points.
    pub fn with_rings<F: Fn(Vec<u64>) -> RingType>(rings: Vec<PolygonRing<P>>, classify: &F) -> (r: Self)
        requires
            classifier_total(*classify),
            rings@.len() > 0,
            ring_points(rings@[0]@).len() > 0,
        ensures
            r@.rings.len() == rings@.len(),
            forall|k: int|
                0 <= k < rings@.len() ==> normalized_as(*classify, rings@[k]@, #[trigger] r@.rings[k]),
            r@.bbox == spec_bbox_of(flatten_parts(rings_points(r@.rings))),
    {
        let ghost orig = rings@;
        let mut rings = rings;
        let n = rings.len();
        let mut i: usize = 0;
        while i < n
            invariant
                0 <= i <= n,
                n == rings@.len(),
                n == orig.len(),
                classifier_total(*classify),
                forall|k: int| 0 <= k < i ==> normalized_as(*classify, orig[k]@, #[trigger] rings@[k]@),
                forall|k: int| i <= k < n ==> #[trigger] rings@[k] == orig[k],
            decreases n - i,
        {
            rings[i].close_and_reorder(classify);
            i = i + 1;
        }
        proof {
            lemma_normalized_len(*classify, orig[0]@, rings@[0]@);
        }
        let pts = ring_point_vecs(&rings);
        assert(vec_seqs(pts@).len() == pts@.len());
        assert(rings_points(ring_views(rings@)).len() == n);
        assert(vec_seqs(pts@)[0] == pts@[0]@);
        assert(rings_points(ring_views(rings@))[0] == ring_points(rings@[0]@));
        let bbox = GenericBBox::from_parts(&pts);
        let r = Self { bbox, rings };
        assert(r@.rings =~= ring_views(rings@));
        r
    }
}

/// Closing and ordering a ring keeps its points and may add one.
pub proof fn lemma_normalized_len<P: CoordinatePoint, F: Fn(Vec<u64>) -> RingType>(
    classify: F,
    before: RingView<P>,
    after: RingView<P>,
)
    requires
        normalized_as(classify, before, after),
    ensures
        ring_points(after).len() >= ring_points(before).len(),
{
    let t = choose|t: RingType|
        #[trigger] classified_as(classify, spec_closed(ring_points(before)), t) && after
            == spec_reordered(ring_closed(before), t);
    assert(ring_points(ring_closed(before)) == spec_closed(ring_points(before)));
}

impl<P> GenericPolygon<P> {
    /// Returns the bounding box.
    pub fn bbox(&self) -> (r: &GenericBBox<P>)
        ensures
            *r == self@.bbox,
    {
        &self.bbox
    }

    /// Returns the rings.
    pub fn rings(&self) -> (r: &[PolygonRing<P>])
        ensures
            ring_views(r@) == self@.rings,
    {
        self.rings.as_slice()
    }

    /// Returns the ring at `index`, if there is one.
    pub fn ring(&self, index: usize) -> (r: Option<&PolygonRing<P>>)
        ensures
            index < self@.rings.len() ==> (r matches Some(ring) && ring@ == self@.rings[index as int]),
            index >= self@.rings.len() ==> r is None,
    {
        if index < self.rings.len() {
            Some(&self.rings[index])
        } else {
            None
        }
    }

    /// Consumes the polygon and returns its rings.
    pub fn into_inner(self) -> (r: Vec<PolygonRing<P>>)
        ensures
            ring_views(r@) == self@.rings,
    {
        self.rings
    }

    /// Returns the number of points of all the rings.
    pub fn total_point_count(&self) -> (r: usize)
        requires
            flatten_parts(rings_points(self@.rings)).len() <= usize::MAX,
        ensures
            r == flatten_parts(rings_points(self@.rings)).len(),
    {
        let ghost pts = rings_points(ring_views(self.rings@));
        let np = self.rings.len();
        let mut total: usize = 0;
        let mut i: usize = 0;
        while i < np
            invariant
                0 <= i <= np,
                np == self.rings@.len(),
                pts == rings_points(ring_views(self.rings@)),
                flatten_parts(pts).len() <= usize::MAX,
                total == flatten_parts(pts.take(i as int)).len(),
            decreases np - i,
        {
            proof {
                assert(pts.take(i + 1).drop_last() == pts.take(i as int));
                super::io::lemma_flatten_prefix_len(pts, i + 1);
                assert(pts[i as int] == ring_points(self.rings@[i as int]@));
            }
            total = total + self.rings[i].len();
            i = i + 1;
        }
        assert(pts.take(np as int) == pts);
        total
    }
}

/// Whether `polygon` is `polyline` with each part made a ring of the kind the
/// classifier may answer for its points.
pub open spec fn polygon_of_polyline<P: CoordinatePoint, F: Fn(Vec<u64>) -> RingType>(
    classify: F,
    polyline: PolylineView<P>,
    polygon: PolygonView<P>,
) -> bool {
    &&& polygon.bbox == polyline.bbox
    &&& polygon.rings.len() == polyline.parts.len()
    &&& forall|k: int|
        0 <= k < polyline.parts.len() ==> kind_classified(
            classify,
            polyline.parts[k],
            #[trigger] polygon.rings[k],
        )
}

impl<P: CoordinatePoint> GenericPolygon<P> {
    /// The polygon whose rings are the polyline's parts, each of the kind the classifier
    /// gives for its points; the points are kept as they are.
    pub fn from_polyline<F: Fn(Vec<u64>) -> RingType>(polyline: GenericPolyline<P>, classify: &F) -> (r: Self)
        requires
            classifier_total(*classify),
        ensures
            polygon_of_polyline(*classify, polyline@, r@),
    {
        let ghost pl = polyline@;
        let parts = polyline.parts();
        let n = parts.len();
        let mut rings: Vec<PolygonRing<P>> = Vec::new();
        let mut i: usize = 0;
        while i < n
            invariant
                0 <= i <= n,
                n == parts@.len(),
                vec_seqs(parts@) == pl.parts,
                classifier_total(*classify),
                rings@.len() == i,
                forall|k: int|
                    0 <= k < i ==> kind_classified(*classify, pl.parts[k], (#[trigger] rings@[k])@),
            decreases n - i,
        {
            let pts = copy_points(parts[i].as_slice());
            assert(pts@ == pl.parts[i as int]);
            let ring = PolygonRing::from_points(pts, classify);
            rings.push(ring);
            i = i + 1;
        }
        let r = Self { bbox: *polyline.bbox(), rings };
        assert(r@.rings =~= ring_views(rings@));
        r
    }
}

/// Reads a polygon record content: a polyline record whose parts become rings of the
/// kind the classifier gives for their points.
pub fn read_polygon_shape<P: CoordinatePoint, F: Fn(Vec<u64>) -> RingType>(
    data: &[u8],
    pos: usize,
    record_size: i32,
    classify: &F,
) -> (r: Result<(GenericPolygon<P>, usize), Error>)
    requires
        pos <= data@.len(),
        classifier_total(*classify),
    ensures
        r matches Ok((shape, n)) ==> spec_read_polyline_view::<P>(data@, pos as int, record_size) matches Ok(
            (pl, m),
        ) && m == n && polygon_of_polyline(*classify, pl, shape@),
        r matches Err(e) ==> spec_read_polyline_view::<P>(data@, pos as int, record_size)
            == Err::<(PolylineView<P>, int), Error>(e),
{
    match read_polyline_shape::<P>(data, pos, record_size) {
        Ok((polyline, n)) => Ok((GenericPolygon::from_polyline(polyline, classify), n)),
        Err(e) => Err(e),
    }
}

impl HasShapeType for Polygon {
    open spec fn spec_shapetype() -> ShapeType {
        ShapeType::Polygon
    }

    fn shapetype() -> (r: ShapeType) {
        ShapeType::Polygon
    }
}

impl HasShapeType for PolygonM {
    open spec fn spec_shapetype() -> ShapeType {
        ShapeType::PolygonM
    }

    fn shapetype() -> (r: ShapeType) {
        ShapeType::PolygonM
    }
}

impl HasShapeType for PolygonZ {
    open spec fn spec_shapetype() -> ShapeType {
        ShapeType::PolygonZ
    }

    fn shapetype() -> (r: ShapeType) {
        ShapeType::PolygonZ
    }
}

impl ConcreteShape for Polygon {}

impl ConcreteShape for PolygonM {}

impl ConcreteShape for PolygonZ {}

impl<P: CoordinatePoint> GenericPolygon<P> where Self: HasShapeType {
    /// Describes the polygon by its type and its number of rings (`Polygon(2 rings)`).
    pub fn description(&self) -> (r: String)
        ensures
            r@ == spec_counted(spec_name(Self::spec_shapetype()), self@.rings.len(), "rings"@),
    {
        counted(Self::shapetype().name(), self.rings.len(), "rings")
    }
}

impl<P: CoordinatePoint> WritableShape for GenericPolygon<P> {
    open spec fn spec_content(&self) -> Seq<u8> {
        multipart_content(self@.bbox, rings_points(self@.rings))
    }

    open spec fn spec_size_fits(&self) -> bool {
        multipart_content_len::<P>(rings_points(self@.rings)) <= i32::MAX
    }

    fn size_fits(&self) -> (r: bool) {
        let ghost parts = rings_points(self@.rings);
        let nr = self.rings.len();
        let mut total: u64 = 0;
        let mut i: usize = 0;
        while i < nr
            invariant
                0 <= i <= nr,
                nr == parts.len(),
                parts == rings_points(ring_views(self.rings@)),
                total == flatten_parts(parts.take(i as int)).len(),
                total <= i32::MAX,
            decreases nr - i,
        {
            proof {
                assert(parts.take(i + 1).drop_last() == parts.take(i as int));
                assert(parts.take(i + 1).last() == ring_points(self.rings@[i as int]@));
            }
            let len = self.rings[i].len();
            if len as u64 > i32::MAX as u64 - total {
                proof {
                    lemma_flatten_prefix_len(parts, i + 1);
                    lemma_columns_len_min::<P>(flatten_parts(parts).len() as int);
                }
                return false;
            }
            total = total + len as u64;
            i = i + 1;
        }
        assert(parts.take(nr as int) == parts);
        content_fits::<P>(40 + 4 * (nr as u128), total)
    }

    fn size_in_bytes(&self) -> (r: usize) {
        proof {
            lemma_multipart_content_len(self@.bbox, rings_points(self@.rings));
        }
        let n = self.total_point_count();
        let mut size: usize = 40 + 4 * self.rings.len() + 16 * n;
        if P::has_z() {
            size = size + 16 + 8 * n;
        }
        if P::has_m() {
            size = size + 16 + 8 * n;
        }
        size
    }

    fn write_to(&self, dest: &mut Vec<u8>) {
        proof {
            lemma_multipart_content_len(self@.bbox, rings_points(self@.rings));
        }
        let n = self.total_point_count();
        let parts = ring_point_vecs(&self.rings);
        write_bbox_xy(&self.bbox, dest);
        push_i32_le(dest, self.rings.len() as i32);
        push_i32_le(dest, n as i32);
        write_part_starts(&parts, dest);
        write_parts_columns(&self.bbox, &parts, dest);
        assert(dest@ =~= old(dest)@ + self.spec_content());
    }
}

impl<P: CoordinatePoint> EsriShape for GenericPolygon<P> where Self: HasShapeType {
    open spec fn spec_x_range(&self) -> (u64, u64) {
        (self@.bbox.min.spec_x(), self@.bbox.max.spec_x())
    }

    open spec fn spec_y_range(&self) -> (u64, u64) {
        (self@.bbox.min.spec_y(), self@.bbox.max.spec_y())
    }

    open spec fn spec_z_range(&self) -> (u64, u64) {
        bbox_z_range(self@.bbox)
    }

    open spec fn spec_m_range(&self) -> (u64, u64) {
        bbox_m_range(self@.bbox)
    }

    fn x_range(&self) -> (r: [u64; 2]) {
        self.bbox.x_range()
    }

    fn y_range(&self) -> (r: [u64; 2]) {
        self.bbox.y_range()
    }

    fn z_range(&self) -> (r: [u64; 2]) {
        bbox_z_range_exec(&self.bbox)
    }

    fn m_range(&self) -> (r: [u64; 2]) {
        bbox_m_range_exec(&self.bbox)
    }
}

/// Whether the classifier answers by the orientation of the points: one answer for
/// given points, and the other answer for the same points in reverse order.
pub open spec fn answers_by_orientation<P: HasXY, F: Fn(Vec<u64>) -> RingType>(classify: F) -> bool {
    &&& forall|p: Seq<P>, t1: RingType, t2: RingType|
        #[trigger] classified_as(classify, p, t1) && #[trigger] classified_as(classify, p, t2)
            ==> t1 == t2
    &&& forall|p: Seq<P>, t1: RingType, t2: RingType|
        #[trigger] classified_as(classify, p, t1) && #[trigger] classified_as(
            classify,
            p.reverse(),
            t2,
        ) ==> t1 != t2
}

/// A ring closed and ordered by `close_and_reorder` (every ring of a polygon made by
/// `new` or `with_rings` is one) has its points in the order of its kind: a classifier
/// that answers by orientation answers the ring's own kind for the ring's points.
pub proof fn lemma_ring_order_matches_kind<P: CoordinatePoint, F: Fn(Vec<u64>) -> RingType>(
    classify: F,
    before: RingView<P>,
    after: RingView<P>,
    t: RingType,
)
    requires
        normalized_as(classify, before, after),
        answers_by_orientation::<P, F>(classify),
        classified_as(classify, ring_points(after), t),
    ensures
        after == ring_of_kind(t, ring_points(after)),
{
    let t0 = choose|t0: RingType|
        #[trigger] classified_as(classify, spec_closed(ring_points(before)), t0) && after
            == spec_reordered(ring_closed(before), t0);
    let cp = spec_closed(ring_points(before));
    assert(ring_points(ring_closed(before)) == cp);
    match (ring_closed(before), t0) {
        (RingView::Outer(p), RingType::InnerRing) => {
            assert(ring_points(after) == cp.reverse());
        },
        (RingView::Inner(p), RingType::OuterRing) => {
            assert(ring_points(after) == cp.reverse());
        },
        _ => {
            assert(ring_points(after) == cp);
        },
    }
}

/// A ring closed and ordered by `close_and_reorder` is closed: its first and last points
/// are equal, as floating-point coordinates or as the same values.
pub proof fn lemma_ring_is_closed<P: CoordinatePoint, F: Fn(Vec<u64>) -> RingType>(
    classify: F,
    before: RingView<P>,
    after: RingView<P>,
)
    requires
        normalized_as(classify, before, after),
        ring_points(before).len() > 0,
    ensures
        ring_points(after).len() > 0,
        ring_points(after)[0].spec_same(&ring_points(after).last()) || ring_points(after)[0]
            == ring_points(after).last(),
{
    let t0 = choose|t0: RingType|
        #[trigger] classified_as(classify, spec_closed(ring_points(before)), t0) && after
            == spec_reordered(ring_closed(before), t0);
    let bp = ring_points(before);
    let cp = spec_closed(bp);
    assert(ring_points(ring_closed(before)) == cp);
    assert(cp.len() > 0);
    assert(cp[0].spec_same(&cp.last()) || cp[0] == cp.last());
    P::lemma_same_symmetric(cp[0], cp.last());
    let ap = ring_points(after);
    if ap == cp.reverse() {
        assert(ap[0] == cp.last());
        assert(ap.last() == cp[0]);
    } else {
        assert(ap == cp) by {
            match (ring_closed(before), t0) {
                (RingView::Outer(p), RingType::InnerRing) => {},
                (RingView::Inner(p), RingType::OuterRing) => {},
                _ => {},
            }
        }
    }
}

/// One polygon of a collection of polygons, given by the indices of its rings (or
/// patches): its exterior (`None` for an empty exterior) and its holes.
#[derive(Debug, Clone)]
pub struct PolygonGroup {
    pub exterior: Option<usize>,
    pub interiors: Vec<usize>,
}

impl View for PolygonGroup {
    type V = (Option<usize>, Seq<usize>);

    open spec fn view(&self) -> (Option<usize>, Seq<usize>) {
        (self.exterior, self.interiors@)
    }
}

/// The views of the groups.
pub open spec fn group_views(groups: Seq<PolygonGroup>) -> Seq<(Option<usize>, Seq<usize>)> {
    Seq::new(groups.len(), |k: int| groups[k]@)
}

/// The polygons made of the rings so far: those finished, and the one being filled.
/// An outer ring starts a new polygon; an inner ring is a hole of the polygon being
/// filled, or, when there is none, a polygon of its own with an empty exterior.
pub open spec fn ring_groups_upto<P>(rings: Seq<RingView<P>>) -> (
    Seq<(Option<usize>, Seq<usize>)>,
    Option<(Option<usize>, Seq<usize>)>,
)
    decreases rings.len(),
{
    if rings.len() == 0 {
        (Seq::empty(), None)
    } else {
        let (done, cur) = ring_groups_upto(rings.drop_last());
        let k = (rings.len() - 1) as usize;
        match rings.last() {
            RingView::Outer(_) => (
                match cur {
                    Some(g) => done.push(g),
                    None => done,
                },
                Some((Some(k), Seq::empty())),
            ),
            RingView::Inner(_) => match cur {
                Some(g) => (done, Some((g.0, g.1.push(k)))),
                None => (done.push((None, seq![k])), None),
            },
        }
    }
}

/// Whether the polygon holds the ring or patch `k`, as its exterior or as one of its
/// holes.
pub open spec fn group_has(g: (Option<usize>, Seq<usize>), k: int) -> bool {
    g.0 == Some(k as usize) || g.1.contains(k as usize)
}

/// Whether one of the polygons holds the ring or patch `k`.
pub open spec fn groups_have(groups: Seq<(Option<usize>, Seq<usize>)>, k: int) -> bool {
    exists|j: int| 0 <= j < groups.len() && #[trigger] group_has(groups[j], k)
}

/// The finished polygons, then the one being filled if there is one.
pub open spec fn with_open(
    done: Seq<(Option<usize>, Seq<usize>)>,
    cur: Option<(Option<usize>, Seq<usize>)>,
) -> Seq<(Option<usize>, Seq<usize>)> {
    match cur {
        Some(g) => done.push(g),
        None => done,
    }
}

/// Whether the ring or patch `k` is the exterior of one of the polygons.
pub open spec fn exterior_in(groups: Seq<(Option<usize>, Seq<usize>)>, k: int) -> bool {
    exists|j: int| 0 <= j < groups.len() && (#[trigger] groups[j]).0 == Some(k as usize)
}

/// The polygons of the rings so far hold each of them, and each outer ring is the
/// exterior of one of them.
proof fn lemma_ring_groups_cover<P>(rings: Seq<RingView<P>>)
    requires
        rings.len() <= usize::MAX + 1,
    ensures
        forall|k: int|
            0 <= k < rings.len() ==> #[trigger] groups_have(
                with_open(ring_groups_upto(rings).0, ring_groups_upto(rings).1),
                k,
            ) && (rings[k] is Outer ==> exterior_in(
                with_open(ring_groups_upto(rings).0, ring_groups_upto(rings).1),
                k,
            )),
    decreases rings.len(),
{
    if rings.len() > 0 {
        let init = rings.drop_last();
        lemma_ring_groups_cover(init);
        let (done0, cur0) = ring_groups_upto(init);
        let (done, cur) = ring_groups_upto(rings);
        let all0 = with_open(done0, cur0);
        let all = with_open(done, cur);
        let n: int = init.len() as int;
        assert forall|k: int| 0 <= k < rings.len() implies #[trigger] groups_have(all, k) && (rings[k] is Outer
            ==> exterior_in(all, k)) by {
            if k < n {
                assert(rings[k] == init[k]);
                assert(groups_have(all0, k));
                let j = choose|j: int| 0 <= j < all0.len() && #[trigger] group_has(all0[j], k);
                let g0 = all0[j];
                let g = all[j];
                assert(g.0 == g0.0);
                assert(g0.1.is_prefix_of(g.1));
                if g0.1.contains(k as usize) {
                    let i = choose|i: int| 0 <= i < g0.1.len() && g0.1[i] == k as usize;
                    assert(g.1[i] == k as usize);
                }
                assert(group_has(all[j], k));
                if rings[k] is Outer {
                    let jj = choose|jj: int| 0 <= jj < all0.len() && (#[trigger] all0[jj]).0 == Some(k as usize);
                    assert(all[jj].0 == all0[jj].0);
                }
            } else {
                let jk = all.len() - 1;
                if !(all[jk].0 == Some(k as usize)) {
                    assert(all[jk].1.last() == k as usize);
                    assert(all[jk].1.contains(k as usize));
                }
                assert(group_has(all[jk], k));
            }
        }
    }
}

/// No ring is dropped: each ring of the polygon is held by one of the polygons that
/// `polygon_groups` makes, as its exterior or as a hole, and each outer ring is the
/// exterior of one of them.
pub proof fn lemma_no_ring_dropped<P>(rings: Seq<RingView<P>>)
    requires
        rings.len() <= usize::MAX + 1,
    ensures
        forall|k: int| 0 <= k < rings.len() ==> #[trigger] groups_have(spec_ring_groups(rings), k),
        forall|k: int| 0 <= k < rings.len() && (#[trigger] rings[k]) is Outer ==> exterior_in(
            spec_ring_groups(rings),
            k,
        ),
{
    lemma_ring_groups_cover(rings);
    let all = with_open(ring_groups_upto(rings).0, ring_groups_upto(rings).1);
    assert(spec_ring_groups(rings) == all);
    assert forall|k: int| 0 <= k < rings.len() implies #[trigger] groups_have(spec_ring_groups(rings), k) by {
        assert(groups_have(all, k));
    }
    assert forall|k: int| 0 <= k < rings.len() && (#[trigger] rings[k]) is Outer implies exterior_in(
        spec_ring_groups(rings),
        k,
    ) by {
        assert(groups_have(all, k));
    }
}

/// The polygons made of all the rings.
pub open spec fn spec_ring_groups<P>(rings: Seq<RingView<P>>) -> Seq<(Option<usize>, Seq<usize>)> {
    let (done, cur) = ring_groups_upto(rings);
    match cur {
        Some(g) => done.push(g),
        None => done,
    }
}

impl<P> GenericPolygon<P> {
    /// Splits the rings into polygons of one exterior and its holes, as a collection of
    /// polygons holds them: each outer ring starts a polygon, and the inner rings that
    /// follow it are its holes; an inner ring before any outer ring makes a polygon with
    /// an empty exterior.
    pub fn polygon_groups(&self) -> (r: Vec<PolygonGroup>)
        ensures
            group_views(r@) == spec_ring_groups(self@.rings),
    {
        let ghost rings = ring_views(self.rings@);
        let n = self.rings.len();
        let mut done: Vec<PolygonGroup> = Vec::new();
        let mut cur: Option<PolygonGroup> = None;
        let mut i: usize = 0;
        while i < n
            invariant
                0 <= i <= n,
                n == self.rings@.len(),
                rings == ring_views(self.rings@),
                ring_groups_upto(rings.take(i as int)) == (group_views(done@), match cur {
                    Some(g) => Some(g@),
                    None => None,
                }),
            decreases n - i,
        {
            proof {
                assert(rings.take(i + 1).drop_last() == rings.take(i as int));
                assert(rings.take(i + 1).last() == self.rings@[i as int]@);
            }
            let ghost before_done = done@;
            match &self.rings[i] {
                PolygonRing::Outer(_) => {
                    let prev = cur;
                    match prev {
                        Some(g) => {
                            done.push(g);
                        },
                        None => {},
                    }
                    cur = Some(PolygonGroup { exterior: Some(i), interiors: Vec::new() });
                },
                PolygonRing::Inner(_) => {
                    let prev = cur;
                    match prev {
                        Some(g) => {
                            let mut g = g;
                            g.interiors.push(i);
                            cur = Some(g);
                        },
                        None => {
                            let mut ints: Vec<usize> = Vec::new();
                            ints.push(i);
                            done.push(PolygonGroup { exterior: None, interiors: ints });
                            cur = None;
                        },
                    }
                },
            }
            proof {
                assert(group_views(done@) =~= ring_groups_upto(rings.take(i + 1)).0);
            }
            i = i + 1;
        }
        assert(rings.take(n as int) == rings);
        let mut out = done;
        match cur {
            Some(g) => {
                out.push(g);
            },
            None => {},
        }
        assert(group_views(out@) =~= spec_ring_groups(rings));
        out
    }
}

/// Whether each ring is of the kind the classifier answers for its points.
pub open spec fn rings_follow_classifier<P: CoordinatePoint, F: Fn(Vec<u64>) -> RingType>(
    classify: F,
    rings: Seq<RingView<P>>,
) -> bool {
    forall|k: int, t: RingType|
        0 <= k < rings.len() && #[trigger] classified_as(classify, ring_points(rings[k]), t) ==> rings[k]
            == ring_of_kind(t, ring_points(rings[k]))
}

/// Rings closed and ordered by `close_and_reorder` (those of a polygon made by `new` or
/// `with_rings`) are each of the kind a classifier that answers by orientation gives
/// for their points.
pub proof fn lemma_normalized_rings_follow_classifier<P: CoordinatePoint, F: Fn(Vec<u64>) -> RingType>(
    classify: F,
    before: Seq<RingView<P>>,
    after: Seq<RingView<P>>,
)
    requires
        before.len() == after.len(),
        forall|k: int| 0 <= k < before.len() ==> normalized_as(classify, before[k], #[trigger] after[k]),
        answers_by_orientation::<P, F>(classify),
    ensures
        rings_follow_classifier(classify, after),
{
    assert forall|k: int, t: RingType|
        0 <= k < after.len() && #[trigger] classified_as(classify, ring_points(after[k]), t) implies after[k]
        == ring_of_kind(t, ring_points(after[k])) by {
        lemma_ring_order_matches_kind(classify, before[k], after[k], t);
    }
}

/// A polygon written reads back as the same polygon, wherever its content stands, when
/// its measures are kept by reading (none below `NO_DATA`, none NaN) and each ring is of
/// the kind the classifier gives for its points: reading finds the polyline of its box
/// and rings' points, and the only polygon the classifier can make of it is the polygon
/// written.
pub proof fn lemma_polygon_content_roundtrip<P: CoordinatePoint, F: Fn(Vec<u64>) -> RingType>(
    pg: GenericPolygon<P>,
    classify: F,
    pre: Seq<u8>,
    post: Seq<u8>,
)
    requires
        pg.spec_size_fits(),
        measures_kept(flatten_parts(rings_points(pg@.rings))),
        rings_follow_classifier(classify, pg@.rings),
    ensures
        spec_read_polyline_view::<P>(
            pre + pg.spec_content() + post,
            pre.len() as int,
            pg.spec_content().len() as i32,
        ) == Ok::<(PolylineView<P>, int), Error>(
            (
                PolylineView { bbox: pg@.bbox, parts: rings_points(pg@.rings) },
                pg.spec_content().len() as int,
            ),
        ),
        forall|v: PolygonView<P>|
            #[trigger] polygon_of_polyline(
                classify,
                PolylineView { bbox: pg@.bbox, parts: rings_points(pg@.rings) },
                v,
            ) ==> v == pg@,
{
    let parts = rings_points(pg@.rings);
    lemma_multipart_content_len(pg@.bbox, parts);
    lemma_multipart_content_is_record(pg@.bbox, parts);
    lemma_stands_between(pre, pg.spec_content(), post);
    lemma_multipart_readback(
        pre + pg.spec_content() + post,
        pre.len() as int,
        pg@.bbox,
        parts,
        false,
        Seq::empty(),
    );
    let pl = PolylineView { bbox: pg@.bbox, parts };
    assert forall|v: PolygonView<P>| #[trigger] polygon_of_polyline(classify, pl, v) implies v == pg@ by {
        assert forall|k: int| 0 <= k < v.rings.len() implies v.rings[k] == pg@.rings[k] by {
            assert(kind_classified(classify, parts[k], v.rings[k]));
            let t = choose|t: RingType|
                #[trigger] classified_as(classify, parts[k], t) && v.rings[k] == ring_of_kind(
                    t,
                    parts[k],
                );
            assert(parts[k] == ring_points(pg@.rings[k]));
        }
        assert(v.rings =~= pg@.rings);
    }
}

/// Closing the points of a ring of `Point`s: they stay as they are when the last point
/// has the first point's x and y (as floating-point values), and the first point is
/// appended otherwise.
pub proof fn lemma_closing_points_xy(points: Seq<Point>)
    requires
        points.len() > 0,
    ensures
        f64_eq(points[0].x, points.last().x) && f64_eq(points[0].y, points.last().y)
            ==> spec_closed(points) == points,
        !(f64_eq(points[0].x, points.last().x) && f64_eq(points[0].y, points.last().y))
            ==> spec_closed(points) == points.push(points[0]),
{
}

/// Closing the points of a ring of `PointM`s: they stay as they are when the last point
/// has the first point's x, y and measure (as floating-point values), and the first
/// point is appended otherwise.
pub proof fn lemma_closing_points_xym(points: Seq<PointM>)
    requires
        points.len() > 0,
    ensures
        f64_eq(points[0].x, points.last().x) && f64_eq(points[0].y, points.last().y) && f64_eq(
            points[0].m,
            points.last().m,
        ) ==> spec_closed(points) == points,
        !(f64_eq(points[0].x, points.last().x) && f64_eq(points[0].y, points.last().y) && f64_eq(
            points[0].m,
            points.last().m,
        )) ==> spec_closed(points) == points.push(points[0]),
{
}

/// Closing the points of a ring of `PointZ`s: they stay as they are when the last point
/// has the first point's x, y, z and measure (as floating-point values), and the first
/// point is appended otherwise.
pub proof fn lemma_closing_points_xyzm(points: Seq<PointZ>)
    requires
        points.len() > 0,
    ensures
        f64_eq(points[0].x, points.last().x) && f64_eq(points[0].y, points.last().y) && f64_eq(
            points[0].z,
            points.last().z,
        ) && f64_eq(points[0].m, points.last().m) ==> spec_closed(points) == points,
        !(f64_eq(points[0].x, points.last().x) && f64_eq(points[0].y, points.last().y) && f64_eq(
            points[0].z,
            points.last().z,
        ) && f64_eq(points[0].m, points.last().m)) ==> spec_closed(points) == points.push(points[0]),
{
}

/// A ring of a polygon of `PointM`s built by `new` or `with_rings` ends with its first
/// point: the last point is the first one, or has its x, y and measure as
/// floating-point values.
pub proof fn lemma_ring_is_closed_xym<F: Fn(Vec<u64>) -> RingType>(
    classify: F,
    before: RingView<PointM>,
    after: RingView<PointM>,
)
    requires
        normalized_as(classify, before, after),
        ring_points(before).len() > 0,
    ensures
        ring_points(after).len() > 0,
        ring_points(after)[0] == ring_points(after).last() || (f64_eq(
            ring_points(after)[0].x,
            ring_points(after).last().x,
        ) && f64_eq(ring_points(after)[0].y, ring_points(after).last().y) && f64_eq(
            ring_points(after)[0].m,
            ring_points(after).last().m,
        )),
{
    lemma_ring_is_closed(classify, before, after);
}

/// A ring of a polygon of `PointZ`s built by `new` or `with_rings` ends with its first
/// point: the last point is the first one, or has its x, y, z and measure as
/// floating-point values.
pub proof fn lemma_ring_is_closed_xyzm<F: Fn(Vec<u64>) -> RingType>(
    classify: F,
    before: RingView<PointZ>,
    after: RingView<PointZ>,
)
    requires
        normalized_as(classify, before, after),
        ring_points(before).len() > 0,
    ensures
        ring_points(after).len() > 0,
        ring_points(after)[0] == ring_points(after).last() || (f64_eq(
            ring_points(after)[0].x,
            ring_points(after).last().x,
        ) && f64_eq(ring_points(after)[0].y, ring_points(after).last().y) && f64_eq(
            ring_points(after)[0].z,
            ring_points(after).last().z,
        ) && f64_eq(ring_points(after)[0].m, ring_points(after).last().m)),
{
    lemma_ring_is_closed(classify, before, after);
}

} // verus!
