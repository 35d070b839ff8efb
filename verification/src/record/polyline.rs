//! Polylines: `Polyline`, `PolylineM` and `PolylineZ`, shapes made of one or more parts,
//! each a sequence of at least two points.
use vstd::prelude::*;
use crate::text::{counted, spec_counted};
use crate::shape_type::spec_name;
use crate::bytes::{i32_le_bytes, lemma_encoding_lengths, push_i32_le};
use crate::error::Error;
use crate::shape_type::ShapeType;
use super::bbox::{flatten_parts, spec_bbox_of, vec_seqs, GenericBBox};
use super::io::{
    bbox_xy_bytes, columns_bytes, columns_len, content_fits, i32s_bytes, lemma_columns_len,
    lemma_columns_len_min, lemma_flatten_prefix_len,
    lemma_i32s_bytes_len, part_starts, read_multipart, spec_read_multipart, write_bbox_xy,
    write_part_starts, write_parts_columns,
};
use super::multipoint::{bbox_m_range, bbox_m_range_exec, bbox_z_range, bbox_z_range_exec};
use super::point::{Point, PointM, PointZ};
use super::readback::{
    lemma_multipart_readback, lemma_stands_between, measures_kept, multipart_record,
    multipart_record_len,
};
use super::traits::{CoordinatePoint, HasXY};
use super::{ConcreteReadableShape, ConcreteShape, EsriShape, HasShapeType, WritableShape};

verus! {

/// A shape made of parts, each a sequence of points, with the box that contains them.
#[derive(Debug, Clone)]
pub struct GenericPolyline<PointType> {
    pub(crate) bbox: GenericBBox<PointType>,
    pub(crate) parts: Vec<Vec<PointType>>,
}

/// What a polyline is: its bounding box and its parts.
pub struct PolylineView<P> {
    pub bbox: GenericBBox<P>,
    pub parts: Seq<Seq<P>>,
}

impl<P> View for GenericPolyline<P> {
    type V = PolylineView<P>;

    closed spec fn view(&self) -> PolylineView<P> {
        PolylineView { bbox: self.bbox, parts: vec_seqs(self.parts@) }
    }
}

/// A polyline of `Point`s.
pub type Polyline = GenericPolyline<Point>;

/// A polyline of `PointM`s.
pub type PolylineM = GenericPolyline<PointM>;

/// A polyline of `PointZ`s.
pub type PolylineZ = GenericPolyline<PointZ>;

/// Whether every part has at least two points (what the constructors require).
pub open spec fn parts_have_two_points<P>(parts: Seq<Seq<P>>) -> bool {
    forall|k: int| 0 <= k < parts.len() ==> #[trigger] parts[k].len() >= 2
}

impl<P: CoordinatePoint> GenericPolyline<P> {
    /// Creates a polyline with a single part, which must have at least two points.
    pub fn new(points: Vec<P>) -> (r: Self)
        requires
            points@.len() >= 2,
        ensures
            r@ == (PolylineView { bbox: spec_bbox_of(points@), parts: seq![points@] }),
    {
        let bbox = GenericBBox::from_points(points.as_slice());
        let mut parts: Vec<Vec<P>> = Vec::new();
        parts.push(points);
        let r = Self { bbox, parts };
        proof {
            assert(vec_seqs(r.parts@) =~= seq![r.parts@[0]@]);
        }
        r
    }

    /// Creates a polyline with several parts. There must be a part, and each part must
    /// have at least two points.
    pub fn with_parts(parts: Vec<Vec<P>>) -> (r: Self)
        requires
            parts@.len() > 0,
            parts_have_two_points(vec_seqs(parts@)),
        ensures
            r@ == (PolylineView {
                bbox: spec_bbox_of(flatten_parts(vec_seqs(parts@))),
                parts: vec_seqs(parts@),
            }),
    {
        assert(vec_seqs(parts@)[0].len() >= 2);
        let bbox = GenericBBox::from_parts(&parts);
        Self { bbox, parts }
    }
}

impl<P> GenericPolyline<P> {
    /// Returns the bounding box.
    pub fn bbox(&self) -> (r: &GenericBBox<P>)
        ensures
            *r == self@.bbox,
    {
        &self.bbox
    }

    /// Returns all the parts.
    pub fn parts(&self) -> (r: &Vec<Vec<P>>)
        ensures
            vec_seqs(r@) == self@.parts,
    {
        &self.parts
    }

    /// Returns the part at `index`, if there is one.
    pub fn part(&self, index: usize) -> (r: Option<&Vec<P>>)
        ensures
            index < self@.parts.len() ==> (r matches Some(p) && p@ == self@.parts[index as int]),
            index >= self@.parts.len() ==> r is None,
    {
        if index < self.parts.len() {
            Some(&self.parts[index])
        } else {
            None
        }
    }

    /// Consumes the polyline and returns its parts.
    pub fn into_inner(self) -> (r: Vec<Vec<P>>)
        ensures
            vec_seqs(r@) == self@.parts,
    {
        self.parts
    }

    /// Returns the number of points of all the parts.
    pub fn total_point_count(&self) -> (r: usize)
        requires
            flatten_parts(self@.parts).len() <= usize::MAX,
        ensures
            r == flatten_parts(self@.parts).len(),
    {
        let np = self.parts.len();
        let mut total: usize = 0;
        let mut i: usize = 0;
        while i < np
            invariant
                0 <= i <= np,
                np == self.parts@.len(),
                flatten_parts(vec_seqs(self.parts@)).len() <= usize::MAX,
                total == flatten_parts(vec_seqs(self.parts@).take(i as int)).len(),
            decreases np - i,
        {
            proof {
                assert(vec_seqs(self.parts@).take(i + 1).drop_last() == vec_seqs(self.parts@).take(i as int));
                super::io::lemma_flatten_prefix_len(vec_seqs(self.parts@), i + 1);
            }
            total = total + self.parts[i].len();
            i = i + 1;
        }
        assert(vec_seqs(self.parts@).take(np as int) == vec_seqs(self.parts@));
        total
    }
}

/// What reading a polyline record gives, seen as a polyline.
pub open spec fn spec_read_polyline_view<P: CoordinatePoint>(s: Seq<u8>, pos: int, record_size: i32) -> Result<
    (PolylineView<P>, int),
    Error,
> {
    match spec_read_multipart::<P>(s, pos, record_size, false) {
        Ok((v, n)) => Ok((PolylineView { bbox: v.bbox, parts: v.parts }, n)),
        Err(e) => Err(e),
    }
}

/// Reads a polyline record content.
pub fn read_polyline_shape<P: CoordinatePoint>(data: &[u8], pos: usize, record_size: i32) -> (r: Result<
    (GenericPolyline<P>, usize),
    Error,
>)
    requires
        pos <= data@.len(),
    ensures
        r matches Ok((shape, n)) ==> spec_read_polyline_view::<P>(data@, pos as int, record_size)
            == Ok::<(PolylineView<P>, int), Error>((shape@, n as int)),
        r matches Err(e) ==> spec_read_polyline_view::<P>(data@, pos as int, record_size)
            == Err::<(PolylineView<P>, int), Error>(e),
{
    match read_multipart::<P>(data, pos, record_size, false) {
        Ok((bbox, parts, _codes, n)) => {
            let shape = GenericPolyline { bbox, parts };
            proof {
                let v = spec_read_multipart::<P>(data@, pos as int, record_size, false)->Ok_0.0;
                assert(vec_seqs(shape.parts@) =~= v.parts);
            }
            Ok((shape, n))
        },
        Err(e) => Err(e),
    }
}

impl HasShapeType for Polyline {
    open spec fn spec_shapetype() -> ShapeType {
        ShapeType::Polyline
    }

    fn shapetype() -> (r: ShapeType) {
        ShapeType::Polyline
    }
}

impl HasShapeType for PolylineM {
    open spec fn spec_shapetype() -> ShapeType {
        ShapeType::PolylineM
    }

    fn shapetype() -> (r: ShapeType) {
        ShapeType::PolylineM
    }
}

impl HasShapeType for PolylineZ {
    open spec fn spec_shapetype() -> ShapeType {
        ShapeType::PolylineZ
    }

    fn shapetype() -> (r: ShapeType) {
        ShapeType::PolylineZ
    }
}

impl ConcreteShape for Polyline {}

impl ConcreteReadableShape for Polyline {
    open spec fn spec_read_content(s: Seq<u8>, pos: int, record_size: i32) -> Result<(Self::V, int), Error> {
        spec_read_polyline_view::<Point>(s, pos, record_size)
    }

    fn read_shape_content(data: &[u8], pos: usize, record_size: i32) -> (r: Result<(Self, usize), Error>) {
        read_polyline_shape::<Point>(data, pos, record_size)
    }
}

impl ConcreteShape for PolylineM {}

impl ConcreteReadableShape for PolylineM {
    open spec fn spec_read_content(s: Seq<u8>, pos: int, record_size: i32) -> Result<(Self::V, int), Error> {
        spec_read_polyline_view::<PointM>(s, pos, record_size)
    }

    fn read_shape_content(data: &[u8], pos: usize, record_size: i32) -> (r: Result<(Self, usize), Error>) {
        read_polyline_shape::<PointM>(data, pos, record_size)
    }
}

impl ConcreteShape for PolylineZ {}

impl ConcreteReadableShape for PolylineZ {
    open spec fn spec_read_content(s: Seq<u8>, pos: int, record_size: i32) -> Result<(Self::V, int), Error> {
        spec_read_polyline_view::<PointZ>(s, pos, record_size)
    }

    fn read_shape_content(data: &[u8], pos: usize, record_size: i32) -> (r: Result<(Self, usize), Error>) {
        read_polyline_shape::<PointZ>(data, pos, record_size)
    }
}

/// The content of a multipart record: the bounding box x/y range, the number of parts
/// and of points, where each part starts, then the point columns.
pub open spec fn multipart_content<P: CoordinatePoint>(bbox: GenericBBox<P>, parts: Seq<Seq<P>>) -> Seq<u8> {
    bbox_xy_bytes(bbox) + i32_le_bytes(parts.len() as i32) + i32_le_bytes(
        flatten_parts(parts).len() as i32,
    ) + i32s_bytes(part_starts(parts)) + columns_bytes(bbox, flatten_parts(parts))
}

/// The length of the content of a multipart record.
pub open spec fn multipart_content_len<P: CoordinatePoint>(parts: Seq<Seq<P>>) -> int {
    40 + 4 * parts.len() + columns_len::<P>(flatten_parts(parts).len() as int)
}

pub proof fn lemma_multipart_content_len<P: CoordinatePoint>(bbox: GenericBBox<P>, parts: Seq<Seq<P>>)
    ensures
        multipart_content(bbox, parts).len() == multipart_content_len::<P>(parts),
{
    lemma_columns_len(bbox, flatten_parts(parts));
    lemma_i32s_bytes_len(part_starts(parts));
    lemma_encoding_lengths(parts.len() as i32, bbox.min.spec_x());
    lemma_encoding_lengths(flatten_parts(parts).len() as i32, bbox.min.spec_y());
    lemma_encoding_lengths(0, bbox.max.spec_x());
    lemma_encoding_lengths(0, bbox.max.spec_y());
    assert(part_starts(parts).len() == parts.len());
}

impl<P: CoordinatePoint> GenericPolyline<P> where Self: HasShapeType {
    /// Describes the polyline by its type and its number of parts (`Polyline(2 parts)`).
    pub fn description(&self) -> (r: String)
        ensures
            r@ == spec_counted(spec_name(Self::spec_shapetype()), self@.parts.len(), "parts"@),
    {
        counted(Self::shapetype().name(), self.parts.len(), "parts")
    }
}

impl<P: CoordinatePoint> WritableShape for GenericPolyline<P> {
    open spec fn spec_content(&self) -> Seq<u8> {
        multipart_content(self@.bbox, self@.parts)
    }

    open spec fn spec_size_fits(&self) -> bool {
        multipart_content_len::<P>(self@.parts) <= i32::MAX
    }

    fn size_fits(&self) -> (r: bool) {
        let ghost parts = self@.parts;
        let np = self.parts.len();
        let mut total: u64 = 0;
        let mut i: usize = 0;
        while i < np
            invariant
                0 <= i <= np,
                np == parts.len(),
                parts == vec_seqs(self.parts@),
                total == flatten_parts(parts.take(i as int)).len(),
                total <= i32::MAX,
            decreases np - i,
        {
            proof {
                assert(parts.take(i + 1).drop_last() == parts.take(i as int));
                assert(parts.take(i + 1).last() == self.parts@[i as int]@);
            }
            let len = self.parts[i].len();
            if len as u64 > i32::MAX as u64 - total {
                proof {
                    lemma_flatten_prefix_len(parts, i + 1);
                    lemma_columns_len_min::<P>(flatten_parts(parts).len() as int);
                }
                return false;
            }
            total = total + len as u64;
            i = i + 1;
        }
        assert(parts.take(np as int) == parts);
        content_fits::<P>(40 + 4 * (np as u128), total)
    }

    fn size_in_bytes(&self) -> (r: usize) {
        proof {
            lemma_multipart_content_len(self@.bbox, self@.parts);
        }
        let n = self.total_point_count();
        let mut size: usize = 40 + 4 * self.parts.len() + 16 * n;
        if P::has_z() {
            size = size + 16 + 8 * n;
        }
        if P::has_m() {
            size = size + 16 + 8 * n;
        }
        size
    }

    fn write_to(&self, dest: &mut Vec<u8>) {
        proof {
            lemma_multipart_content_len(self@.bbox, self@.parts);
        }
        let n = self.total_point_count();
        write_bbox_xy(&self.bbox, dest);
        push_i32_le(dest, self.parts.len() as i32);
        push_i32_le(dest, n as i32);
        write_part_starts(&self.parts, dest);
        write_parts_columns(&self.bbox, &self.parts, dest);
        assert(dest@ =~= old(dest)@ + self.spec_content());
    }
}

impl<P: CoordinatePoint> EsriShape for GenericPolyline<P> where Self: HasShapeType {
    open spec fn spec_x_range(&self) -> (u64, u64) {
        (self@.bbox.min.spec_x(), self@.bbox.max.spec_x())
    }

    open spec fn spec_y_range(&self) -> (u64, u64) {
        (self@.bbox.min.spec_y(), self@.bbox.max.spec_y())
    }

    open spec fn spec_z_range(&self) -> (u64, u64) {
        bbox_z_range(self@.bbox)
    }

    open spec fn spec_m_range(&self) -> (u64, u64) {
        bbox_m_range(self@.bbox)
    }

    fn x_range(&self) -> (r: [u64; 2]) {
        self.bbox.x_range()
    }

    fn y_range(&self) -> (r: [u64; 2]) {
        self.bbox.y_range()
    }

    fn z_range(&self) -> (r: [u64; 2]) {
        bbox_z_range_exec(&self.bbox)
    }

    fn m_range(&self) -> (r: [u64; 2]) {
        bbox_m_range_exec(&self.bbox)
    }
}

/// The content of a polyline is the multipart record of its box and parts, without
/// patch codes.
pub proof fn lemma_multipart_content_is_record<P: CoordinatePoint>(bbox: GenericBBox<P>, parts: Seq<Seq<P>>)
    ensures
        multipart_content(bbox, parts) == multipart_record(bbox, parts, false, Seq::empty()),
        multipart_content_len::<P>(parts) == multipart_record_len::<P>(parts, false),
{
    assert(multipart_content(bbox, parts) =~= multipart_record(bbox, parts, false, Seq::empty()));
}

/// A polyline written reads back as the same polyline, wherever its content stands,
/// when its measures are kept by reading (none below `NO_DATA`, none NaN).
pub proof fn lemma_polyline_content_roundtrip<P: CoordinatePoint>(
    pl: GenericPolyline<P>,
    pre: Seq<u8>,
    post: Seq<u8>,
)
    requires
        pl.spec_size_fits(),
        measures_kept(flatten_parts(pl@.parts)),
    ensures
        spec_read_polyline_view::<P>(
            pre + pl.spec_content() + post,
            pre.len() as int,
            pl.spec_content().len() as i32,
        ) == Ok::<(PolylineView<P>, int), Error>((pl@, pl.spec_content().len() as int)),
{
    lemma_multipart_content_len(pl@.bbox, pl@.parts);
    lemma_multipart_content_is_record(pl@.bbox, pl@.parts);
    lemma_stands_between(pre, pl.spec_content(), post);
    lemma_multipart_readback(
        pre + pl.spec_content() + post,
        pre.len() as int,
        pl@.bbox,
        pl@.parts,
        false,
        Seq::empty(),
    );
}

} // verus!
