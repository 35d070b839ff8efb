//! Multipoints: `Multipoint`, `MultipointM` and `MultipointZ`, collections of points
//! with their bounding box.
use vstd::prelude::*;
use crate::text::{counted, spec_counted};
use crate::shape_type::spec_name;
use crate::bytes::{i32_le_bytes, lemma_encoding_lengths, push_i32_le};
use crate::error::Error;
use crate::float_bits::ZERO;
use crate::shape_type::ShapeType;
use super::bbox::{spec_bbox_of, GenericBBox};
use super::io::{
    bbox_xy_bytes, columns_bytes, columns_len, content_fits, lemma_columns_len, read_multipoint,
    spec_read_multipoint, write_bbox_xy, write_columns,
};
use super::point::{Point, PointM, PointZ};
use super::readback::{lemma_multipoint_readback, lemma_stands_between, measures_kept};
use super::traits::{CoordinatePoint, HasXY};
use super::{ConcreteReadableShape, ConcreteShape, EsriShape, HasShapeType, WritableShape};

verus! {

/// A collection of points with the box that contains them.
#[derive(Debug, Clone)]
pub struct GenericMultipoint<PointType> {
    pub(crate) bbox: GenericBBox<PointType>,
    pub(crate) points: Vec<PointType>,
}

/// What a multipoint is: its bounding box and its points.
pub struct MultipointView<P> {
    pub bbox: GenericBBox<P>,
    pub points: Seq<P>,
}

impl<P> View for GenericMultipoint<P> {
    type V = MultipointView<P>;

    closed spec fn view(&self) -> MultipointView<P> {
        MultipointView { bbox: self.bbox, points: self.points@ }
    }
}

/// A multipoint of `Point`s.
pub type Multipoint = GenericMultipoint<Point>;

/// A multipoint of `PointM`s.
pub type MultipointM = GenericMultipoint<PointM>;

/// A multipoint of `PointZ`s.
pub type MultipointZ = GenericMultipoint<PointZ>;

impl<P: CoordinatePoint> GenericMultipoint<P> {
    /// Creates a multipoint; its bounding box is computed from the points, of which there
    /// must be at least one.
    pub fn new(points: Vec<P>) -> (r: Self)
        requires
            points@.len() > 0,
        ensures
            r@ == (MultipointView { bbox: spec_bbox_of(points@), points: points@ }),
    {
        let bbox = GenericBBox::from_points(points.as_slice());
        Self { bbox, points }
    }
}

impl<P> GenericMultipoint<P> {
    /// Returns the bounding box.
    pub fn bbox(&self) -> (r: &GenericBBox<P>)
        ensures
            *r == self@.bbox,
    {
        &self.bbox
    }

    /// Returns the points.
    pub fn points(&self) -> (r: &[P])
        ensures
            r@ == self@.points,
    {
        self.points.as_slice()
    }

    /// Returns the point at `index`, if there is one.
    pub fn point(&self, index: usize) -> (r: Option<&P>)
        ensures
            index < self@.points.len() ==> r == Some(&self@.points[index as int]),
            index >= self@.points.len() ==> r is None,
    {
        if index < self.points.len() {
            Some(&self.points[index])
        } else {
            None
        }
    }

    /// Consumes the multipoint and returns its points.
    pub fn into_points(self) -> (r: Vec<P>)
        ensures
            r@ == self@.points,
    {
        self.points
    }
}

/// What reading a multipoint record gives, seen as a multipoint.
pub open spec fn spec_read_multipoint_view<P: CoordinatePoint>(s: Seq<u8>, pos: int, record_size: i32) -> Result<
    (MultipointView<P>, int),
    Error,
> {
    match spec_read_multipoint::<P>(s, pos, record_size) {
        Ok((bbox, points, n)) => Ok((MultipointView { bbox, points }, n)),
        Err(e) => Err(e),
    }
}

/// Reads a multipoint record content.
fn read_multipoint_shape<P: CoordinatePoint>(data: &[u8], pos: usize, record_size: i32) -> (r: Result<
    (GenericMultipoint<P>, usize),
    Error,
>)
    requires
        pos <= data@.len(),
    ensures
        r matches Ok((shape, n)) ==> spec_read_multipoint_view::<P>(data@, pos as int, record_size)
            == Ok::<(MultipointView<P>, int), Error>((shape@, n as int)),
        r matches Err(e) ==> spec_read_multipoint_view::<P>(data@, pos as int, record_size)
            == Err::<(MultipointView<P>, int), Error>(e),
{
    match read_multipoint::<P>(data, pos, record_size) {
        Ok((bbox, points, n)) => Ok((GenericMultipoint { bbox, points }, n)),
        Err(e) => Err(e),
    }
}

impl HasShapeType for Multipoint {
    open spec fn spec_shapetype() -> ShapeType {
        ShapeType::Multipoint
    }

    fn shapetype() -> (r: ShapeType) {
        ShapeType::Multipoint
    }
}

impl HasShapeType for MultipointM {
    open spec fn spec_shapetype() -> ShapeType {
        ShapeType::MultipointM
    }

    fn shapetype() -> (r: ShapeType) {
        ShapeType::MultipointM
    }
}

impl HasShapeType for MultipointZ {
    open spec fn spec_shapetype() -> ShapeType {
        ShapeType::MultipointZ
    }

    fn shapetype() -> (r: ShapeType) {
        ShapeType::MultipointZ
    }
}

impl ConcreteShape for Multipoint {}

impl ConcreteReadableShape for Multipoint {
    open spec fn spec_read_content(s: Seq<u8>, pos: int, record_size: i32) -> Result<(Self::V, int), Error> {
        spec_read_multipoint_view::<Point>(s, pos, record_size)
    }

    fn read_shape_content(data: &[u8], pos: usize, record_size: i32) -> (r: Result<(Self, usize), Error>) {
        read_multipoint_shape::<Point>(data, pos, record_size)
    }
}

impl ConcreteShape for MultipointM {}

impl ConcreteReadableShape for MultipointM {
    open spec fn spec_read_content(s: Seq<u8>, pos: int, record_size: i32) -> Result<(Self::V, int), Error> {
        spec_read_multipoint_view::<PointM>(s, pos, record_size)
    }

    fn read_shape_content(data: &[u8], pos: usize, record_size: i32) -> (r: Result<(Self, usize), Error>) {
        read_multipoint_shape::<PointM>(data, pos, record_size)
    }
}

impl ConcreteShape for MultipointZ {}

impl ConcreteReadableShape for MultipointZ {
    open spec fn spec_read_content(s: Seq<u8>, pos: int, record_size: i32) -> Result<(Self::V, int), Error> {
        spec_read_multipoint_view::<PointZ>(s, pos, record_size)
    }

    fn read_shape_content(data: &[u8], pos: usize, record_size: i32) -> (r: Result<(Self, usize), Error>) {
        read_multipoint_shape::<PointZ>(data, pos, record_size)
    }
}

impl<P: CoordinatePoint> GenericMultipoint<P> where Self: HasShapeType {
    /// Describes the multipoint by its type and its number of points
    /// (`Multipoint(3 points)`).
    pub fn description(&self) -> (r: String)
        ensures
            r@ == spec_counted(spec_name(Self::spec_shapetype()), self@.points.len(), "points"@),
    {
        counted(Self::shapetype().name(), self.points.len(), "points")
    }
}

impl<P: CoordinatePoint> WritableShape for GenericMultipoint<P> {
    /// The bounding box x/y range, the number of points, then the point columns.
    open spec fn spec_content(&self) -> Seq<u8> {
        bbox_xy_bytes(self@.bbox) + i32_le_bytes(self@.points.len() as i32) + columns_bytes(
            self@.bbox,
            self@.points,
        )
    }

    open spec fn spec_size_fits(&self) -> bool {
        36 + columns_len::<P>(self@.points.len() as int) <= i32::MAX
    }

    fn size_fits(&self) -> (r: bool) {
        content_fits::<P>(36, self.points.len() as u64)
    }

    fn size_in_bytes(&self) -> (r: usize) {
        proof {
            lemma_columns_len(self.bbox, self.points@);
            lemma_encoding_lengths(self.points@.len() as i32, 0);
            lemma_encoding_lengths(0, self.bbox.min.spec_x());
            lemma_encoding_lengths(0, self.bbox.min.spec_y());
            lemma_encoding_lengths(0, self.bbox.max.spec_x());
            lemma_encoding_lengths(0, self.bbox.max.spec_y());
        }
        let n = self.points.len();
        let mut size: usize = 36 + 16 * n;
        if P::has_z() {
            size = size + 16 + 8 * n;
        }
        if P::has_m() {
            size = size + 16 + 8 * n;
        }
        size
    }

    fn write_to(&self, dest: &mut Vec<u8>) {
        write_bbox_xy(&self.bbox, dest);
        push_i32_le(dest, self.points.len() as i32);
        write_columns(&self.bbox, self.points.as_slice(), dest);
        assert(dest@ =~= old(dest)@ + self.spec_content());
    }
}

/// The z range of a bounding box, `(0.0, 0.0)` for types without z.
pub open spec fn bbox_z_range<P: CoordinatePoint>(b: GenericBBox<P>) -> (u64, u64) {
    if P::spec_has_z() {
        (b.min.spec_z_or_zero(), b.max.spec_z_or_zero())
    } else {
        (ZERO, ZERO)
    }
}

/// The m range of a bounding box, `(0.0, 0.0)` for types without measures.
pub open spec fn bbox_m_range<P: CoordinatePoint>(b: GenericBBox<P>) -> (u64, u64) {
    if P::spec_has_m() {
        (b.min.spec_m_or_no_data(), b.max.spec_m_or_no_data())
    } else {
        (ZERO, ZERO)
    }
}

/// The z range of a bounding box, `[0.0, 0.0]` for types without z.
pub fn bbox_z_range_exec<P: CoordinatePoint>(b: &GenericBBox<P>) -> (r: [u64; 2])
    ensures
        r[0] == bbox_z_range(*b).0,
        r[1] == bbox_z_range(*b).1,
{
    if P::has_z() {
        [b.min.z_or_zero(), b.max.z_or_zero()]
    } else {
        [ZERO, ZERO]
    }
}

/// The m range of a bounding box, `[0.0, 0.0]` for types without measures.
pub fn bbox_m_range_exec<P: CoordinatePoint>(b: &GenericBBox<P>) -> (r: [u64; 2])
    ensures
        r[0] == bbox_m_range(*b).0,
        r[1] == bbox_m_range(*b).1,
{
    if P::has_m() {
        [b.min.m_or_no_data(), b.max.m_or_no_data()]
    } else {
        [ZERO, ZERO]
    }
}

impl<P: CoordinatePoint> EsriShape for GenericMultipoint<P> where Self: HasShapeType {
    open spec fn spec_x_range(&self) -> (u64, u64) {
        (self@.bbox.min.spec_x(), self@.bbox.max.spec_x())
    }

    open spec fn spec_y_range(&self) -> (u64, u64) {
        (self@.bbox.min.spec_y(), self@.bbox.max.spec_y())
    }

    open spec fn spec_z_range(&self) -> (u64, u64) {
        bbox_z_range(self@.bbox)
    }

    open spec fn spec_m_range(&self) -> (u64, u64) {
        bbox_m_range(self@.bbox)
    }

    fn x_range(&self) -> (r: [u64; 2]) {
        self.bbox.x_range()
    }

    fn y_range(&self) -> (r: [u64; 2]) {
        self.bbox.y_range()
    }

    fn z_range(&self) -> (r: [u64; 2]) {
        bbox_z_range_exec(&self.bbox)
    }

    fn m_range(&self) -> (r: [u64; 2]) {
        bbox_m_range_exec(&self.bbox)
    }
}

/// A multipoint written reads back as the same multipoint, wherever its content stands,
/// when its measures are kept by reading (none below `NO_DATA`, none NaN).
pub proof fn lemma_multipoint_content_roundtrip<P: CoordinatePoint>(
    m: GenericMultipoint<P>,
    pre: Seq<u8>,
    post: Seq<u8>,
)
    requires
        m.spec_size_fits(),
        measures_kept(m@.points),
    ensures
        spec_read_multipoint_view::<P>(
            pre + m.spec_content() + post,
            pre.len() as int,
            m.spec_content().len() as i32,
        ) == Ok::<(MultipointView<P>, int), Error>((m@, m.spec_content().len() as int)),
{
    let b = m@.bbox;
    let pts = m@.points;
    lemma_columns_len(b, pts);
    lemma_encoding_lengths(pts.len() as i32, b.min.spec_x());
    lemma_encoding_lengths(0, b.min.spec_y());
    lemma_encoding_lengths(0, b.max.spec_x());
    lemma_encoding_lengths(0, b.max.spec_y());
    lemma_stands_between(pre, m.spec_content(), post);
    lemma_multipoint_readback(pre + m.spec_content() + post, pre.len() as int, b, pts);
}

} // verus!
