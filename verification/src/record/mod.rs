//! Shape records: the shapes themselves and the traits they share.
use vstd::prelude::*;
use crate::bytes::{
    i32_be_at, i32_be_bytes, lemma_encoding_lengths, lemma_encoding_roundtrip, push_i32_be,
    read_i32_be,
};
use crate::error::Error;
use crate::shape_type::ShapeType;

pub mod bbox;
pub mod io;
pub mod multipatch;
pub mod multipoint;
pub mod point;
pub mod polygon;
pub mod polyline;
pub mod readback;
pub mod shape;
pub mod traits;

pub use bbox::GenericBBox;
pub use multipatch::{Multipatch, Patch, PatchType};
pub use multipoint::{GenericMultipoint, Multipoint, MultipointM, MultipointZ};
pub use point::{Point, PointM, PointZ};
pub use polygon::{GenericPolygon, Polygon, PolygonM, PolygonRing, PolygonZ, RingType};
pub use polyline::{GenericPolyline, Polyline, PolylineM, PolylineZ};
pub use shape::{ReadableShape, Shape};


verus! {

/// Types that know the shape type they are stored as.
pub trait HasShapeType {
    /// The shape type.
    spec fn spec_shapetype() -> ShapeType;

    /// Returns the shape type.
    fn shapetype() -> (r: ShapeType)
        ensures
            r == Self::spec_shapetype(),
    ;
}

/// Shapes that are one of the concrete shape types of the format.
pub trait ConcreteShape: Sized + HasShapeType {}

/// Shapes that can be written: their content is the record after the shape type code.
pub trait WritableShape {
    /// The bytes of the shape's content in a record (without the shape type code).
    spec fn spec_content(&self) -> Seq<u8>;

    /// Whether the content's length fits the record size field of the format.
    spec fn spec_size_fits(&self) -> bool;

    /// Returns whether the content's length fits the record size field.
    fn size_fits(&self) -> (r: bool)
        ensures
            r == self.spec_size_fits(),
    ;

    /// Returns the size in bytes that the shape takes once written (without the shape
    /// type code).
    fn size_in_bytes(&self) -> (r: usize)
        requires
            self.spec_size_fits(),
        ensures
            r == self.spec_content().len(),
            r <= i32::MAX,
    ;

    /// Appends the shape's content to `dest`.
    fn write_to(&self, dest: &mut Vec<u8>)
        requires
            self.spec_size_fits(),
        ensures
            final(dest)@ == old(dest)@ + self.spec_content(),
    ;
}

/// Shapes as the writer sees them: a type, a content, and the ranges of their values.
pub trait EsriShape: HasShapeType + WritableShape {
    /// The x range (min, max).
    spec fn spec_x_range(&self) -> (u64, u64);

    /// The y range (min, max).
    spec fn spec_y_range(&self) -> (u64, u64);

    /// The z range (min, max); `(0.0, 0.0)` for shapes without z.
    spec fn spec_z_range(&self) -> (u64, u64);

    /// The m range (min, max); `(0.0, 0.0)` for shapes without measures.
    spec fn spec_m_range(&self) -> (u64, u64);

    /// Returns the x range.
    fn x_range(&self) -> (r: [u64; 2])
        ensures
            r[0] == self.spec_x_range().0,
            r[1] == self.spec_x_range().1,
    ;

    /// Returns the y range.
    fn y_range(&self) -> (r: [u64; 2])
        ensures
            r[0] == self.spec_y_range().0,
            r[1] == self.spec_y_range().1,
    ;

    /// Returns the z range.
    fn z_range(&self) -> (r: [u64; 2])
        ensures
            r[0] == self.spec_z_range().0,
            r[1] == self.spec_z_range().1,
    ;

    /// Returns the m range.
    fn m_range(&self) -> (r: [u64; 2])
        ensures
            r[0] == self.spec_m_range().0,
            r[1] == self.spec_m_range().1,
    ;
}

/// Concrete shapes that can read their content from a record.
pub trait ConcreteReadableShape: ConcreteShape + View {
    /// What reading the content at `pos` gives for a record content of `record_size`
    /// bytes: the shape (seen through its view) and the number of bytes consumed, or
    /// the error.
    spec fn spec_read_content(s: Seq<u8>, pos: int, record_size: i32) -> Result<(Self::V, int), Error>;

    /// Reads the content of a record at `pos`; returns the shape and the number of bytes
    /// consumed.
    fn read_shape_content(data: &[u8], pos: usize, record_size: i32) -> (r: Result<(Self, usize), Error>)
        requires
            pos <= data@.len(),
        ensures
            r matches Ok((shape, n)) ==> Self::spec_read_content(data@, pos as int, record_size)
                == Ok::<(Self::V, int), Error>((shape@, n as int)),
            r matches Err(e) ==> Self::spec_read_content(data@, pos as int, record_size)
                == Err::<(Self::V, int), Error>(e),
            r matches Ok((_, n)) ==> pos + n <= data@.len(),
    ;
}

/// The header of a shape record, before the record's content: the record's number and
/// its size in 16-bit words (the shape type code and the content).
#[derive(Debug, Copy, Clone, PartialEq, Eq, Structural)]
pub struct RecordHeader {
    pub record_number: i32,
    pub record_size: i32,
}

/// The 8 bytes of a record header: both values big endian.
pub open spec fn record_header_bytes(h: RecordHeader) -> Seq<u8> {
    i32_be_bytes(h.record_number) + i32_be_bytes(h.record_size)
}

/// What reading a record header at `pos` gives.
pub open spec fn spec_read_record_header(s: Seq<u8>, pos: int) -> Result<RecordHeader, Error> {
    if pos + 8 > s.len() {
        Err(Error::UnexpectedEof)
    } else {
        Ok(RecordHeader { record_number: i32_be_at(s, pos), record_size: i32_be_at(s, pos + 4) })
    }
}

impl RecordHeader {
    /// The size of a record header in bytes.
    pub const SIZE: usize = 8;

    /// Reads the record header at `pos`.
    pub fn read_from(data: &[u8], pos: usize) -> (r: Result<RecordHeader, Error>)
        requires
            pos <= data@.len(),
        ensures
            r == spec_read_record_header(data@, pos as int),
    {
        if data.len() - pos < 8 {
            return Err(Error::UnexpectedEof);
        }
        let record_number = read_i32_be(data, pos);
        let record_size = read_i32_be(data, pos + 4);
        Ok(RecordHeader { record_number, record_size })
    }

    /// Appends the record header.
    pub fn write_to(&self, dest: &mut Vec<u8>)
        ensures
            final(dest)@ == old(dest)@ + record_header_bytes(*self),
    {
        push_i32_be(dest, self.record_number);
        push_i32_be(dest, self.record_size);
        assert(dest@ =~= old(dest)@ + record_header_bytes(*self));
    }
}

/// A record header reads back as written, wherever it stands.
pub proof fn lemma_record_header_roundtrip(pre: Seq<u8>, h: RecordHeader, post: Seq<u8>)
    ensures
        record_header_bytes(h).len() == 8,
        spec_read_record_header(pre + record_header_bytes(h) + post, pre.len() as int) == Ok::<
            RecordHeader,
            Error,
        >(h),
{
    lemma_encoding_lengths(h.record_number, 0);
    lemma_encoding_lengths(h.record_size, 0);
    let a = i32_be_bytes(h.record_number);
    let b = i32_be_bytes(h.record_size);
    lemma_encoding_roundtrip(pre, h.record_number, 0, b + post);
    lemma_encoding_roundtrip(pre + a, h.record_size, 0, post);
    assert(pre + record_header_bytes(h) + post == pre + a + (b + post));
    assert(pre + record_header_bytes(h) + post == (pre + a) + b + post);
}

/// A record header reads back where it stands.
pub proof fn lemma_read_record_header_at(s: Seq<u8>, at: int, h: RecordHeader)
    requires
        readback::stands_at(s, at, record_header_bytes(h)),
    ensures
        spec_read_record_header(s, at) == Ok::<RecordHeader, Error>(h),
{
    readback::lemma_stands_split(s, at, record_header_bytes(h));
    lemma_record_header_roundtrip(s.take(at), h, s.skip(at + record_header_bytes(h).len()));
}

} // verus!
