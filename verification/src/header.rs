//! The 100-byte header that starts both the `.shp` and the `.shx` file.
use vstd::prelude::*;
use crate::bytes::{
    i32_be_at, i32_be_bytes, i32_le_at, i32_le_bytes, lemma_encoding_lengths,
    lemma_encoding_roundtrip, push_i32_be, push_i32_le, push_u64_le, read_i32_be, read_i32_le,
    read_u64_le, u64_le_at, u64_le_bytes,
};
use crate::error::Error;
use crate::float_bits::{NO_DATA, ZERO};
use crate::record::bbox::GenericBBox;
use crate::record::point::PointZ;
use crate::shape_type::{spec_code, spec_from_code, lemma_code_roundtrip, ShapeType};

verus! {

/// Size of the header in bytes.
pub const HEADER_SIZE: i32 = 100;

/// The file code that starts every shapefile.
pub const FILE_CODE: i32 = 9994;

/// The bounding box type of the header: all four dimensions.
pub type BBoxZ = GenericBBox<PointZ>;

/// The header of a shapefile.
#[derive(Debug, Copy, Clone)]
pub struct Header {
    /// Total file length (header and records) in 16-bit words.
    pub file_length: i32,
    /// The box containing all the shapes of the file; for shapes without `m` or `z`
    /// the corresponding ranges are zeros.
    pub bbox: BBoxZ,
    /// The type of all the shapes in the file.
    pub shape_type: ShapeType,
    /// The version of the file format.
    pub version: i32,
}

/// The default header: no shape yet, only the header's own length.
pub open spec fn spec_default_header() -> Header {
    Header {
        bbox: GenericBBox {
            max: PointZ { x: ZERO, y: ZERO, z: ZERO, m: NO_DATA },
            min: PointZ { x: ZERO, y: ZERO, z: ZERO, m: NO_DATA },
        },
        shape_type: ShapeType::NullShape,
        file_length: 50,
        version: 1000,
    }
}

impl Default for Header {
    fn default() -> (r: Self)
        ensures
            r == spec_default_header(),
    {
        Header {
            bbox: GenericBBox {
                max: PointZ { x: ZERO, y: ZERO, z: ZERO, m: NO_DATA },
                min: PointZ { x: ZERO, y: ZERO, z: ZERO, m: NO_DATA },
            },
            shape_type: ShapeType::NullShape,
            file_length: 50,
            version: 1000,
        }
    }
}

/// The 20 reserved bytes of the header.
pub open spec fn reserved_bytes() -> Seq<u8> {
    Seq::new(20, |i: int| 0u8)
}

/// The 64 bytes of the header's bounding box, in the order of the format.
pub open spec fn bbox_bytes(b: BBoxZ) -> Seq<u8> {
    u64_le_bytes(b.min.x) + u64_le_bytes(b.min.y) + u64_le_bytes(b.max.x) + u64_le_bytes(b.max.y)
        + u64_le_bytes(b.min.z) + u64_le_bytes(b.max.z) + u64_le_bytes(b.min.m)
        + u64_le_bytes(b.max.m)
}

/// The 100 bytes that encode a header.
pub open spec fn header_bytes(h: Header) -> Seq<u8> {
    i32_be_bytes(FILE_CODE) + reserved_bytes() + i32_be_bytes(h.file_length) + i32_le_bytes(
        h.version,
    ) + i32_le_bytes(spec_code(h.shape_type)) + bbox_bytes(h.bbox)
}

/// What reading a header from the start of `s` gives.
pub open spec fn spec_parse_header(s: Seq<u8>) -> Result<Header, Error> {
    if s.len() < 4 {
        Err(Error::UnexpectedEof)
    } else if i32_be_at(s, 0) != FILE_CODE {
        Err(Error::InvalidFileCode(i32_be_at(s, 0)))
    } else if s.len() < 36 {
        Err(Error::UnexpectedEof)
    } else {
        match spec_from_code(i32_le_at(s, 32)) {
            None => Err(Error::InvalidShapeType(i32_le_at(s, 32))),
            Some(t) => if s.len() < 100 {
                Err(Error::UnexpectedEof)
            } else {
                Ok(
                    Header {
                        file_length: i32_be_at(s, 24),
                        version: i32_le_at(s, 28),
                        shape_type: t,
                        bbox: GenericBBox {
                            min: PointZ {
                                x: u64_le_at(s, 36),
                                y: u64_le_at(s, 44),
                                z: u64_le_at(s, 68),
                                m: u64_le_at(s, 84),
                            },
                            max: PointZ {
                                x: u64_le_at(s, 52),
                                y: u64_le_at(s, 60),
                                z: u64_le_at(s, 76),
                                m: u64_le_at(s, 92),
                            },
                        },
                    },
                )
            },
        }
    }
}

impl Header {
    /// Reads a header from the start of `data`.
    pub fn read_from(data: &[u8]) -> (r: Result<Header, Error>)
        ensures
            r == spec_parse_header(data@),
    {
        let len = data.len();
        if len < 4 {
            return Err(Error::UnexpectedEof);
        }
        let file_code = read_i32_be(data, 0);
        if file_code != FILE_CODE {
            return Err(Error::InvalidFileCode(file_code));
        }
        if len < 36 {
            return Err(Error::UnexpectedEof);
        }
        let file_length = read_i32_be(data, 24);
        let version = read_i32_le(data, 28);
        let code = read_i32_le(data, 32);
        let shape_type = match ShapeType::from(code) {
            Some(t) => t,
            None => {
                return Err(Error::InvalidShapeType(code));
            },
        };
        if len < 100 {
            return Err(Error::UnexpectedEof);
        }
        let min = PointZ {
            x: read_u64_le(data, 36),
            y: read_u64_le(data, 44),
            z: read_u64_le(data, 68),
            m: read_u64_le(data, 84),
        };
        let max = PointZ {
            x: read_u64_le(data, 52),
            y: read_u64_le(data, 60),
            z: read_u64_le(data, 76),
            m: read_u64_le(data, 92),
        };
        Ok(Header { file_length, version, shape_type, bbox: GenericBBox { min, max } })
    }

    /// Appends the 100 bytes of the header to `dest`.
    pub fn write_to(&self, dest: &mut Vec<u8>)
        ensures
            final(dest)@ == old(dest)@ + header_bytes(*self),
    {
        push_i32_be(dest, FILE_CODE);
        let ghost start = dest@;
        let mut i: usize = 0;
        while i < 20
            invariant
                0 <= i <= 20,
                dest@ == start + Seq::new(i as nat, |k: int| 0u8),
            decreases 20 - i,
        {
            dest.push(0u8);
            i = i + 1;
        }
        push_i32_be(dest, self.file_length);
        push_i32_le(dest, self.version);
        push_i32_le(dest, self.shape_type.code());
        push_u64_le(dest, self.bbox.min.x);
        push_u64_le(dest, self.bbox.min.y);
        push_u64_le(dest, self.bbox.max.x);
        push_u64_le(dest, self.bbox.max.y);
        push_u64_le(dest, self.bbox.min.z);
        push_u64_le(dest, self.bbox.max.z);
        push_u64_le(dest, self.bbox.min.m);
        push_u64_le(dest, self.bbox.max.m);
        proof {
            assert(dest@ =~= old(dest)@ + header_bytes(*self));
        }
    }
}

/// The encoding of a header has 100 bytes.
pub proof fn lemma_header_bytes_len(h: Header)
    ensures
        header_bytes(h).len() == 100,
        bbox_bytes(h.bbox).len() == 64,
{
    lemma_encoding_lengths(FILE_CODE, h.bbox.min.x);
    lemma_encoding_lengths(h.file_length, h.bbox.min.y);
    lemma_encoding_lengths(h.version, h.bbox.max.x);
    lemma_encoding_lengths(spec_code(h.shape_type), h.bbox.max.y);
    lemma_encoding_lengths(0, h.bbox.min.z);
    lemma_encoding_lengths(0, h.bbox.max.z);
    lemma_encoding_lengths(0, h.bbox.min.m);
    lemma_encoding_lengths(0, h.bbox.max.m);
}

/// A written header reads back as the same header, whatever follows it.
pub proof fn lemma_header_roundtrip(h: Header, rest: Seq<u8>)
    ensures
        spec_parse_header(header_bytes(h) + rest) == Ok::<Header, Error>(h),
{
    lemma_header_bytes_len(h);
    lemma_code_roundtrip(h.shape_type, 0);
    lemma_encoding_lengths(FILE_CODE, 0);
    lemma_encoding_lengths(h.file_length, 0);
    lemma_encoding_lengths(h.version, 0);
    lemma_encoding_lengths(spec_code(h.shape_type), 0);
    lemma_encoding_lengths(0, h.bbox.min.x);
    lemma_encoding_lengths(0, h.bbox.min.y);
    lemma_encoding_lengths(0, h.bbox.max.x);
    lemma_encoding_lengths(0, h.bbox.max.y);
    lemma_encoding_lengths(0, h.bbox.min.z);
    lemma_encoding_lengths(0, h.bbox.max.z);
    lemma_encoding_lengths(0, h.bbox.min.m);
    lemma_encoding_lengths(0, h.bbox.max.m);
    let s = header_bytes(h) + rest;
    let b = h.bbox;
    let e0 = i32_be_bytes(FILE_CODE);
    let e1 = reserved_bytes();
    let e2 = i32_be_bytes(h.file_length);
    let e3 = i32_le_bytes(h.version);
    let e4 = i32_le_bytes(spec_code(h.shape_type));
    let f0 = u64_le_bytes(b.min.x);
    let f1 = u64_le_bytes(b.min.y);
    let f2 = u64_le_bytes(b.max.x);
    let f3 = u64_le_bytes(b.max.y);
    let f4 = u64_le_bytes(b.min.z);
    let f5 = u64_le_bytes(b.max.z);
    let f6 = u64_le_bytes(b.min.m);
    let f7 = u64_le_bytes(b.max.m);
    let p1 = e0 + e1;
    let p2 = p1 + e2;
    let p3 = p2 + e3;
    let p4 = p3 + e4;
    let q0 = p4 + f0;
    let q1 = q0 + f1;
    let q2 = q1 + f2;
    let q3 = q2 + f3;
    let q4 = q3 + f4;
    let q5 = q4 + f5;
    let q6 = q5 + f6;
    assert(e1.len() == 20);
    assert(p1.len() == 24 && p2.len() == 28 && p3.len() == 32 && p4.len() == 36);
    assert(header_bytes(h) == p4 + bbox_bytes(b));
    assert(bbox_bytes(b) == f0 + f1 + f2 + f3 + f4 + f5 + f6 + f7);
    assert(header_bytes(h) =~= q6 + f7);
    assert(s.subrange(0, 4) =~= e0);
    lemma_encoding_roundtrip(Seq::empty(), FILE_CODE, 0, s.subrange(4, s.len() as int));
    assert(s =~= Seq::<u8>::empty() + e0 + s.subrange(4, s.len() as int));
    lemma_encoding_roundtrip(p1, h.file_length, 0, s.subrange(28, s.len() as int));
    assert(s =~= p1 + e2 + s.subrange(28, s.len() as int));
    lemma_encoding_roundtrip(p2, h.version, 0, s.subrange(32, s.len() as int));
    assert(s =~= p2 + e3 + s.subrange(32, s.len() as int));
    lemma_encoding_roundtrip(p3, spec_code(h.shape_type), 0, s.subrange(36, s.len() as int));
    assert(s =~= p3 + e4 + s.subrange(36, s.len() as int));
    lemma_encoding_roundtrip(p4, 0, b.min.x, s.subrange(44, s.len() as int));
    assert(s =~= p4 + f0 + s.subrange(44, s.len() as int));
    lemma_encoding_roundtrip(q0, 0, b.min.y, s.subrange(52, s.len() as int));
    assert(s =~= q0 + f1 + s.subrange(52, s.len() as int));
    lemma_encoding_roundtrip(q1, 0, b.max.x, s.subrange(60, s.len() as int));
    assert(s =~= q1 + f2 + s.subrange(60, s.len() as int));
    lemma_encoding_roundtrip(q2, 0, b.max.y, s.subrange(68, s.len() as int));
    assert(s =~= q2 + f3 + s.subrange(68, s.len() as int));
    lemma_encoding_roundtrip(q3, 0, b.min.z, s.subrange(76, s.len() as int));
    assert(s =~= q3 + f4 + s.subrange(76, s.len() as int));
    lemma_encoding_roundtrip(q4, 0, b.max.z, s.subrange(84, s.len() as int));
    assert(s =~= q4 + f5 + s.subrange(84, s.len() as int));
    lemma_encoding_roundtrip(q5, 0, b.min.m, s.subrange(92, s.len() as int));
    assert(s =~= q5 + f6 + s.subrange(92, s.len() as int));
    lemma_encoding_roundtrip(q6, 0, b.max.m, s.subrange(100, s.len() as int));
    assert(s =~= q6 + f7 + s.subrange(100, s.len() as int));
}

} // verus!
