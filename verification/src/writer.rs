//! Writing shapes to the bytes of a `.shp` file, and of its `.shx` index when asked.
use vstd::prelude::*;
use crate::bytes::{i32_be_at, i32_be_bytes, i32_le_bytes};
use crate::error::Error;
use crate::float_bits::{
    eq, f64_eq, f64_le, f64_max, f64_min, is_nan, lemma_min_max, lemma_order, spec_max, spec_min,
    F64_MAX, F64_MIN, ZERO,
};
use crate::header::{
    header_bytes, lemma_header_bytes_len, lemma_header_roundtrip, spec_default_header,
    spec_parse_header, BBoxZ, Header,
};
use crate::reader::{
    index_entry_at, index_entry_count, record_at_outcome, seek_target, spec_read_index_file, sat_add, shape_index_bytes, shape_seq_view, shapes_outcome, valid_record_size,
    ShapeIndex,
};
use crate::record::polygon::RingType;
use crate::record::readback::{
    lemma_read_i32, lemma_read_i32_be, lemma_stands_concat, lemma_stands_within, stands_at,
};
use crate::record::shape::{record_outcome, ReadBack, ReadableShape};
use crate::record::{lemma_read_record_header_at, spec_read_record_header};
use crate::shape_type::{lemma_code_roundtrip, spec_from_code};
use crate::record::bbox::GenericBBox;
use crate::record::point::PointZ;
use crate::record::{record_header_bytes, EsriShape, RecordHeader};
use crate::shape_type::{spec_code, ShapeType};

verus! {

/// The box `b` grown by the ranges of a shape of type `t`: x and y always, the
/// measures when `t` has them, z when `t` has it.
pub open spec fn spec_grow_by_ranges(
    b: BBoxZ,
    t: ShapeType,
    x: (u64, u64),
    y: (u64, u64),
    z: (u64, u64),
    m: (u64, u64),
) -> BBoxZ {
    GenericBBox {
        min: PointZ {
            x: spec_min(x.0, b.min.x),
            y: spec_min(y.0, b.min.y),
            z: if t.spec_has_z() {
                spec_min(z.0, b.min.z)
            } else {
                b.min.z
            },
            m: if t.spec_has_m() {
                spec_min(m.0, b.min.m)
            } else {
                b.min.m
            },
        },
        max: PointZ {
            x: spec_max(x.1, b.max.x),
            y: spec_max(y.1, b.max.y),
            z: if t.spec_has_z() {
                spec_max(z.1, b.max.z)
            } else {
                b.max.z
            },
            m: if t.spec_has_m() {
                spec_max(m.1, b.max.m)
            } else {
                b.max.m
            },
        },
    }
}

/// The box grown by a shape's ranges.
pub open spec fn spec_grown_by_shape<S: EsriShape>(b: BBoxZ, shape: S) -> BBoxZ {
    spec_grow_by_ranges(
        b,
        S::spec_shapetype(),
        shape.spec_x_range(),
        shape.spec_y_range(),
        shape.spec_z_range(),
        shape.spec_m_range(),
    )
}

impl GenericBBox<PointZ> {
    /// Grows the box so that it covers the shape's ranges (z and the measures only for
    /// shape types that have them).
    pub fn grow_from_shape<S: EsriShape>(&mut self, shape: &S)
        ensures
            *final(self) == spec_grown_by_shape(*old(self), *shape),
    {
        let x_range = shape.x_range();
        let y_range = shape.y_range();
        let z_range = shape.z_range();
        let m_range = shape.m_range();
        self.min.x = f64_min(x_range[0], self.min.x);
        self.max.x = f64_max(x_range[1], self.max.x);
        self.min.y = f64_min(y_range[0], self.min.y);
        self.max.y = f64_max(y_range[1], self.max.y);
        if S::shapetype().has_m() {
            self.min.m = f64_min(m_range[0], self.min.m);
            self.max.m = f64_max(m_range[1], self.max.m);
        }
        if S::shapetype().has_z() {
            self.min.z = f64_min(z_range[0], self.min.z);
            self.max.z = f64_max(z_range[1], self.max.z);
        }
    }
}

/// The box a file's header starts with at its first shape, which any shape's ranges
/// replace: the largest values as minimums and the smallest as maximums.
pub open spec fn initial_bbox() -> BBoxZ {
    GenericBBox {
        max: PointZ { x: F64_MIN, y: F64_MIN, z: F64_MIN, m: F64_MIN },
        min: PointZ { x: F64_MAX, y: F64_MAX, z: F64_MAX, m: F64_MAX },
    }
}

/// What the writer is: the bytes written to the `.shp` destination and to the `.shx`
/// destination when there is one, the header as it stands, the number of the next
/// record, and whether the header must still be written back.
pub struct ShapeWriterView {
    pub shp: Seq<u8>,
    pub shx: Option<Seq<u8>>,
    pub header: Header,
    pub rec_num: u32,
    pub dirty: bool,
}

/// Writes shapes to a `.shp` destination, and their index entries to a `.shx`
/// destination when it has one; `finalize` writes the headers back at the start of
/// both.
pub struct ShapeWriter {
    shp_dest: Vec<u8>,
    shx_dest: Option<Vec<u8>>,
    header: Header,
    rec_num: u32,
    dirty: bool,
}

impl View for ShapeWriter {
    type V = ShapeWriterView;

    closed spec fn view(&self) -> ShapeWriterView {
        ShapeWriterView {
            shp: self.shp_dest@,
            shx: match self.shx_dest {
                Some(v) => Some(v@),
                None => None,
            },
            header: self.header,
            rec_num: self.rec_num,
            dirty: self.dirty,
        }
    }
}

/// The writer's invariant: a record number from 1, and a file length that counts the
/// header and at least 4 words per record written.
pub open spec fn writer_inv(w: ShapeWriterView) -> bool {
    w.rec_num >= 1 && w.header.file_length >= 50 + 4 * (w.rec_num - 1)
}

/// The size in 16-bit words of the record of a shape whose content has `len` bytes
/// (the content and the shape type code).
pub open spec fn record_words(len: int) -> int {
    (len + 4) / 2
}

/// Whether the writer takes shapes of `S`'s type: it has no type yet, or that one.
pub open spec fn accepts<S: EsriShape>(w: ShapeWriterView) -> bool {
    w.header.shape_type == ShapeType::NullShape || w.header.shape_type == S::spec_shapetype()
}

/// Whether writing the shape keeps the record number and the file length in range.
pub open spec fn write_fits<S: EsriShape>(w: ShapeWriterView, shape: S) -> bool {
    &&& shape.spec_size_fits()
    &&& w.rec_num < u32::MAX
    &&& w.header.file_length + record_words(shape.spec_content().len() as int) + 4 <= i32::MAX
}

/// What writing a shape gives: the new state of the writer, and the result. The first
/// shape sets the file's shape type and writes the header (to reserve its place) to
/// both destinations; a shape of another type than the file's is
/// `MismatchShapeType`, and changes nothing.
pub open spec fn spec_write_shape<S: EsriShape>(w: ShapeWriterView, shape: S) -> (ShapeWriterView, Result<(), Error>) {
    let t = S::spec_shapetype();
    let h0 = w.header;
    if h0.shape_type != ShapeType::NullShape && h0.shape_type != t {
        (w, Err(Error::MismatchShapeType { requested: h0.shape_type, actual: t }))
    } else {
        let first = h0.shape_type == ShapeType::NullShape;
        let h1 = if first {
            Header { shape_type: t, bbox: initial_bbox(), ..h0 }
        } else {
            h0
        };
        let rs = record_words(shape.spec_content().len() as int) as i32;
        let shp0 = if first {
            w.shp + header_bytes(h1)
        } else {
            w.shp
        };
        let shp = shp0 + record_header_bytes(RecordHeader { record_number: w.rec_num as i32, record_size: rs })
            + i32_le_bytes(spec_code(h1.shape_type)) + shape.spec_content();
        let shx = match w.shx {
            None => None,
            Some(x) => Some(
                (if first {
                    x + header_bytes(h1)
                } else {
                    x
                }) + shape_index_bytes(ShapeIndex { offset: h0.file_length, record_size: rs }),
            ),
        };
        (
            ShapeWriterView {
                shp,
                shx,
                header: Header {
                    file_length: (h0.file_length + rs + 4) as i32,
                    bbox: spec_grown_by_shape(h1.bbox, shape),
                    ..h1
                },
                rec_num: (w.rec_num + 1) as u32,
                dirty: true,
            },
            Ok(()),
        )
    }
}

/// The bytes with their first 100 bytes replaced by the header's.
pub open spec fn with_header_at_start(bytes: Seq<u8>, h: Header) -> Seq<u8> {
    header_bytes(h) + if bytes.len() >= 100 {
        bytes.skip(100)
    } else {
        Seq::empty()
    }
}

/// The header as finalized: a z or m range that no shape grew is set to zeros, and so
/// are both when no shape was written.
pub open spec fn finalized_header(h: Header) -> Header {
    let none_written = h.shape_type == ShapeType::NullShape;
    let m_unset = none_written || (f64_eq(h.bbox.max.m, F64_MIN) && f64_eq(h.bbox.min.m, F64_MAX));
    let z_unset = none_written || (f64_eq(h.bbox.max.z, F64_MIN) && f64_eq(h.bbox.min.z, F64_MAX));
    Header {
        bbox: GenericBBox {
            max: PointZ {
                m: if m_unset {
                    ZERO
                } else {
                    h.bbox.max.m
                },
                z: if z_unset {
                    ZERO
                } else {
                    h.bbox.max.z
                },
                ..h.bbox.max
            },
            min: PointZ {
                m: if m_unset {
                    ZERO
                } else {
                    h.bbox.min.m
                },
                z: if z_unset {
                    ZERO
                } else {
                    h.bbox.min.z
                },
                ..h.bbox.min
            },
        },
        ..h
    }
}

/// The header of the index file: the `.shp` header with the index file's length, the
/// header and one entry of 4 words per record.
pub open spec fn index_header(h: Header, rec_num: u32) -> Header {
    Header { file_length: (50 + 4 * (rec_num - 1)) as i32, ..h }
}

/// What finalizing gives: nothing changes when the header is written back already;
/// else the header is finalized and written at the start of both destinations.
pub open spec fn spec_finalize(w: ShapeWriterView) -> ShapeWriterView {
    if !w.dirty {
        w
    } else {
        let h = finalized_header(w.header);
        ShapeWriterView {
            shp: with_header_at_start(w.shp, h),
            shx: match w.shx {
                None => None,
                Some(x) => Some(with_header_at_start(x, index_header(h, w.rec_num))),
            },
            header: h,
            rec_num: w.rec_num,
            dirty: false,
        }
    }
}

/// Replaces the first 100 bytes of `bytes` with the header's (or all of them, when
/// there are fewer).
fn put_header_at_start(bytes: &Vec<u8>, h: &Header) -> (r: Vec<u8>)
    ensures
        r@ == with_header_at_start(bytes@, *h),
{
    let mut out: Vec<u8> = Vec::new();
    h.write_to(&mut out);
    let n = bytes.len();
    if n >= 100 {
        let mut i: usize = 100;
        while i < n
            invariant
                100 <= i <= n,
                n == bytes@.len(),
                out@ == header_bytes(*h) + bytes@.subrange(100, i as int),
            decreases n - i,
        {
            out.push(bytes[i]);
            assert(bytes@.subrange(100, i + 1) == bytes@.subrange(100, i as int).push(bytes@[i as int]));
            i = i + 1;
        }
        assert(bytes@.subrange(100, n as int) == bytes@.skip(100));
    } else {
        assert(out@ =~= header_bytes(*h) + Seq::<u8>::empty());
    }
    out
}

impl ShapeWriter {
    /// Creates a writer of a `.shp` destination only; the destination is empty, as the
    /// file is written from its start.
    pub fn new(shp_dest: Vec<u8>) -> (r: ShapeWriter)
        requires
            shp_dest@.len() == 0,
        ensures
            r@ == (ShapeWriterView {
                shp: shp_dest@,
                shx: None,
                header: spec_default_header(),
                rec_num: 1,
                dirty: true,
            }),
    {
        ShapeWriter { shp_dest, shx_dest: None, header: Header::default(), rec_num: 1, dirty: true }
    }

    /// Creates a writer of a `.shp` destination and of its `.shx` index destination; both
    /// are empty, as the files are written from their start.
    pub fn with_shx(shp_dest: Vec<u8>, shx_dest: Vec<u8>) -> (r: ShapeWriter)
        requires
            shp_dest@.len() == 0,
            shx_dest@.len() == 0,
        ensures
            r@ == (ShapeWriterView {
                shp: shp_dest@,
                shx: Some(shx_dest@),
                header: spec_default_header(),
                rec_num: 1,
                dirty: true,
            }),
    {
        ShapeWriter {
            shp_dest,
            shx_dest: Some(shx_dest),
            header: Header::default(),
            rec_num: 1,
            dirty: true,
        }
    }

    /// Returns the header as it stands.
    pub fn header(&self) -> (r: &Header)
        ensures
            *r == self@.header,
    {
        &self.header
    }

    /// Returns the number the next record will have.
    pub fn record_number(&self) -> (r: u32)
        ensures
            r == self@.rec_num,
    {
        self.rec_num
    }

    /// Returns what was written to the `.shp` destination.
    pub fn shp_bytes(&self) -> (r: &[u8])
        ensures
            r@ == self@.shp,
    {
        self.shp_dest.as_slice()
    }

    /// Returns what was written to the `.shx` destination, when there is one.
    pub fn shx_bytes(&self) -> (r: Option<&[u8]>)
        ensures
            match r {
                Some(b) => self@.shx == Some(b@),
                None => self@.shx is None,
            },
    {
        match &self.shx_dest {
            Some(v) => Some(v.as_slice()),
            None => None,
        }
    }

    /// Consumes the writer and returns what was written to the `.shp` destination and
    /// to the `.shx` destination.
    pub fn into_dests(self) -> (r: (Vec<u8>, Option<Vec<u8>>))
        ensures
            r.0@ == self@.shp,
            match r.1 {
                Some(v) => self@.shx == Some(v@),
                None => self@.shx is None,
            },
    {
        (self.shp_dest, self.shx_dest)
    }

    /// Writes a shape: its record to the `.shp` destination and its index entry to the
    /// `.shx` destination (see `spec_write_shape`). When the writer takes the shape's
    /// type, the record number and the file length must stay in range (`write_fits`).
    pub fn write_shape<S: EsriShape>(&mut self, shape: &S) -> (r: Result<(), Error>)
        requires
            writer_inv(old(self)@),
            accepts::<S>(old(self)@) ==> write_fits(old(self)@, *shape),
        ensures
            (final(self)@, r) == spec_write_shape(old(self)@, *shape),
            writer_inv(final(self)@),
    {
        let t = S::shapetype();
        if self.header.shape_type == ShapeType::NullShape {
            self.header.shape_type = t;
            self.header.bbox = GenericBBox {
                max: PointZ { x: F64_MIN, y: F64_MIN, z: F64_MIN, m: F64_MIN },
                min: PointZ { x: F64_MAX, y: F64_MAX, z: F64_MAX, m: F64_MAX },
            };
            self.header.write_to(&mut self.shp_dest);
            match &mut self.shx_dest {
                Some(shx_dest) => {
                    self.header.write_to(shx_dest);
                },
                None => {},
            }
        } else if self.header.shape_type != t {
            return Err(Error::MismatchShapeType { requested: self.header.shape_type, actual: t });
        }
        let size = shape.size_in_bytes();
        let record_size = (size + 4) / 2;
        let rh = RecordHeader { record_number: self.rec_num as i32, record_size: record_size as i32 };
        rh.write_to(&mut self.shp_dest);
        crate::bytes::push_i32_le(&mut self.shp_dest, self.header.shape_type.code());
        shape.write_to(&mut self.shp_dest);
        match &mut self.shx_dest {
            Some(shx_dest) => {
                let entry = ShapeIndex { offset: self.header.file_length, record_size: record_size as i32 };
                entry.write_to(shx_dest);
            },
            None => {},
        }
        self.header.file_length = self.header.file_length + record_size as i32 + 4;
        self.header.bbox.grow_from_shape(shape);
        self.rec_num = self.rec_num + 1;
        self.dirty = true;
        Ok(())
    }

    /// Writes the header back at the start of the destinations (see `spec_finalize`);
    /// nothing happens when it is written back already.
    pub fn finalize(&mut self)
        requires
            writer_inv(old(self)@),
        ensures
            final(self)@ == spec_finalize(old(self)@),
            writer_inv(final(self)@),
    {
        if !self.dirty {
            return;
        }
        let none_written = self.header.shape_type == ShapeType::NullShape;
        if none_written || (eq(self.header.bbox.max.m, F64_MIN) && eq(self.header.bbox.min.m, F64_MAX)) {
            self.header.bbox.max.m = ZERO;
            self.header.bbox.min.m = ZERO;
        }
        if none_written || (eq(self.header.bbox.max.z, F64_MIN) && eq(self.header.bbox.min.z, F64_MAX)) {
            self.header.bbox.max.z = ZERO;
            self.header.bbox.min.z = ZERO;
        }
        let shp = put_header_at_start(&self.shp_dest, &self.header);
        self.shp_dest = shp;
        let new_shx = match &self.shx_dest {
            Some(shx_dest) => {
                let shx_header = Header {
                    file_length: 50 + (self.rec_num - 1) as i32 * 4,
                    ..self.header
                };
                Some(put_header_at_start(shx_dest, &shx_header))
            },
            None => None,
        };
        self.shx_dest = new_shx;
        self.dirty = false;
    }

    /// Writes the shapes one after the other until one fails, then writes the header
    /// back (see `spec_write_all` and `spec_finalize`).
    pub fn write_shapes<S: EsriShape>(&mut self, shapes: &[S]) -> (r: Result<(), Error>)
        requires
            writer_inv(old(self)@),
            writes_fit(old(self)@, shapes@),
        ensures
            final(self)@ == spec_finalize(spec_write_all(old(self)@, shapes@).0),
            r == spec_write_all(old(self)@, shapes@).1,
            writer_inv(final(self)@),
    {
        let n = shapes.len();
        let mut i: usize = 0;
        proof {
            assert(shapes@.skip(0) == shapes@);
        }
        while i < n
            invariant
                0 <= i <= n,
                n == shapes@.len(),
                writer_inv(self@),
                spec_write_all(old(self)@, shapes@) == spec_write_all(self@, shapes@.skip(i as int)),
                writes_fit(self@, shapes@.skip(i as int)),
            decreases n - i,
        {
            proof {
                assert(shapes@.skip(i as int)[0] == shapes@[i as int]);
                assert(shapes@.skip(i as int).drop_first() == shapes@.skip(i + 1));
            }
            let r = self.write_shape(&shapes[i]);
            if r.is_err() {
                self.finalize();
                return r;
            }
            i = i + 1;
        }
        proof {
            assert(shapes@.skip(n as int) =~= Seq::<S>::empty());
        }
        self.finalize();
        Ok(())
    }
}

/// Finalizing twice is finalizing once: the second time the header is written back
/// already, so nothing changes (dropping a writer that was finalized leaves its files as
/// they are).
pub proof fn lemma_finalize_idempotent(w: ShapeWriterView)
    ensures
        spec_finalize(spec_finalize(w)) == spec_finalize(w),
{
}

/// Whether each shape's measure range is an ordered pair of finite values.
pub open spec fn m_ranges_ordered<S: EsriShape>(shapes: Seq<S>) -> bool {
    forall|j: int|
        0 <= j < shapes.len() ==> {
            let r = (#[trigger] shapes[j]).spec_m_range();
            &&& !is_nan(r.0)
            &&& !is_nan(r.1)
            &&& f64_le(F64_MIN, r.0)
            &&& f64_le(r.0, r.1)
            &&& f64_le(r.1, F64_MAX)
        }
}

/// Writing shapes of the writer's type, when that type has measures, brings the
/// header's measure range over every shape's: its minimum ends at most the one it had and
/// each shape's, and is the one it had or a shape's; the same upwards for its maximum.
proof fn lemma_written_m_range<S: EsriShape>(w: ShapeWriterView, shapes: Seq<S>)
    requires
        w.header.shape_type == S::spec_shapetype(),
        S::spec_shapetype().spec_has_m(),
        !is_nan(w.header.bbox.min.m),
        !is_nan(w.header.bbox.max.m),
        m_ranges_ordered(shapes),
    ensures
        ({
            let h = spec_write_all(w, shapes).0.header;
            &&& spec_write_all(w, shapes).1 is Ok
            &&& h.shape_type == S::spec_shapetype()
            &&& !is_nan(h.bbox.min.m)
            &&& !is_nan(h.bbox.max.m)
            &&& f64_le(h.bbox.min.m, w.header.bbox.min.m)
            &&& f64_le(w.header.bbox.max.m, h.bbox.max.m)
            &&& forall|j: int|
                0 <= j < shapes.len() ==> f64_le(h.bbox.min.m, (#[trigger] shapes[j]).spec_m_range().0)
                    && f64_le(shapes[j].spec_m_range().1, h.bbox.max.m)
            &&& (h.bbox.min.m == w.header.bbox.min.m || exists|j: int|
                0 <= j < shapes.len() && h.bbox.min.m == (#[trigger] shapes[j]).spec_m_range().0)
            &&& (h.bbox.max.m == w.header.bbox.max.m || exists|j: int|
                0 <= j < shapes.len() && h.bbox.max.m == (#[trigger] shapes[j]).spec_m_range().1)
        }),
    decreases shapes.len(),
{
    if shapes.len() > 0 {
        let s0 = shapes[0];
        let r0 = s0.spec_m_range();
        let rest = shapes.drop_first();
        let w1 = spec_write_shape(w, s0).0;
        assert(spec_write_shape(w, s0).1 is Ok);
        let lo1 = w1.header.bbox.min.m;
        let hi1 = w1.header.bbox.max.m;
        assert(lo1 == spec_min(r0.0, w.header.bbox.min.m));
        assert(hi1 == spec_max(r0.1, w.header.bbox.max.m));
        lemma_min_max(r0.0, w.header.bbox.min.m);
        lemma_min_max(r0.1, w.header.bbox.max.m);
        assert(m_ranges_ordered(rest)) by {
            assert forall|j: int| 0 <= j < rest.len() implies #[trigger] rest[j] == shapes[j + 1] by {}
        }
        lemma_written_m_range(w1, rest);
        assert(spec_write_all(w, shapes) == spec_write_all(w1, rest));
        let h = spec_write_all(w, shapes).0.header;
        lemma_order(h.bbox.min.m, lo1, w.header.bbox.min.m);
        lemma_order(w.header.bbox.max.m, hi1, h.bbox.max.m);
        lemma_order(h.bbox.min.m, lo1, r0.0);
        lemma_order(r0.1, hi1, h.bbox.max.m);
        assert forall|j: int| 0 <= j < shapes.len() implies f64_le(h.bbox.min.m, (#[trigger] shapes[j]).spec_m_range().0)
            && f64_le(shapes[j].spec_m_range().1, h.bbox.max.m) by {
            if j > 0 {
                assert(shapes[j] == rest[j - 1]);
            }
        }
        if h.bbox.min.m != w.header.bbox.min.m {
            if h.bbox.min.m == lo1 {
                assert(h.bbox.min.m == shapes[0].spec_m_range().0);
            } else {
                let j = choose|j: int| 0 <= j < rest.len() && h.bbox.min.m == (#[trigger] rest[j]).spec_m_range().0;
                assert(shapes[j + 1] == rest[j]);
            }
        }
        if h.bbox.max.m != w.header.bbox.max.m {
            if h.bbox.max.m == hi1 {
                assert(h.bbox.max.m == shapes[0].spec_m_range().1);
            } else {
                let j = choose|j: int| 0 <= j < rest.len() && h.bbox.max.m == (#[trigger] rest[j]).spec_m_range().1;
                assert(shapes[j + 1] == rest[j]);
            }
        }
    } else {
        lemma_order(w.header.bbox.min.m, w.header.bbox.min.m, w.header.bbox.min.m);
        lemma_order(w.header.bbox.max.m, w.header.bbox.max.m, w.header.bbox.max.m);
    }
}

/// The header's measure range covers the shapes': once shapes of a type with measures
/// are written by a fresh writer and the writer is finalized, the header's minimum
/// measure is the smallest of the shapes' minimum measures and its maximum measure the
/// largest of their maximum measures (each shape's range being finite and ordered).
pub proof fn lemma_header_m_range<S: EsriShape>(shx: Option<Seq<u8>>, shapes: Seq<S>)
    requires
        S::spec_shapetype().spec_has_m(),
        shapes.len() > 0,
        m_ranges_ordered(shapes),
    ensures
        ({
            let h = spec_finalize(spec_write_all(fresh_writer(shx), shapes).0).header;
            &&& forall|j: int|
                0 <= j < shapes.len() ==> f64_le(h.bbox.min.m, (#[trigger] shapes[j]).spec_m_range().0)
                    && f64_le(shapes[j].spec_m_range().1, h.bbox.max.m)
            &&& exists|j: int| 0 <= j < shapes.len() && h.bbox.min.m == (#[trigger] shapes[j]).spec_m_range().0
            &&& exists|j: int| 0 <= j < shapes.len() && h.bbox.max.m == (#[trigger] shapes[j]).spec_m_range().1
        }),
{
    let w0 = fresh_writer(shx);
    let s0 = shapes[0];
    let r0 = s0.spec_m_range();
    let rest = shapes.drop_first();
    let w1 = spec_write_shape(w0, s0).0;
    assert(spec_write_shape(w0, s0).1 is Ok);
    assert(!is_nan(r0.0) && !is_nan(r0.1) && f64_le(F64_MIN, r0.0) && f64_le(r0.0, r0.1) && f64_le(r0.1, F64_MAX));
    assert(w1.header.bbox.min.m == spec_min(r0.0, F64_MAX));
    assert(w1.header.bbox.max.m == spec_max(r0.1, F64_MIN));
    lemma_order(r0.0, r0.1, F64_MAX);
    lemma_order(F64_MIN, r0.0, r0.1);
    assert(w1.header.bbox.min.m == r0.0);
    assert(w1.header.bbox.max.m == r0.1);
    assert(m_ranges_ordered(rest)) by {
        assert forall|j: int| 0 <= j < rest.len() implies #[trigger] rest[j] == shapes[j + 1] by {}
    }
    lemma_written_m_range(w1, rest);
    assert(spec_write_all(w0, shapes) == spec_write_all(w1, rest));
    let w = spec_write_all(w0, shapes).0;
    let h = w.header;
    assert forall|j: int| 0 <= j < shapes.len() implies f64_le(h.bbox.min.m, (#[trigger] shapes[j]).spec_m_range().0)
        && f64_le(shapes[j].spec_m_range().1, h.bbox.max.m) by {
        if j > 0 {
            assert(shapes[j] == rest[j - 1]);
        } else {
            lemma_order(h.bbox.min.m, h.bbox.min.m, r0.0);
            lemma_order(r0.1, r0.1, h.bbox.max.m);
        }
    }
    if h.bbox.min.m == r0.0 {
        assert(h.bbox.min.m == shapes[0].spec_m_range().0);
    } else {
        let j = choose|j: int| 0 <= j < rest.len() && h.bbox.min.m == (#[trigger] rest[j]).spec_m_range().0;
        assert(shapes[j + 1] == rest[j]);
    }
    if h.bbox.max.m == r0.1 {
        assert(h.bbox.max.m == shapes[0].spec_m_range().1);
    } else {
        let j = choose|j: int| 0 <= j < rest.len() && h.bbox.max.m == (#[trigger] rest[j]).spec_m_range().1;
        assert(shapes[j + 1] == rest[j]);
    }
    // the measure range is set, so finalizing keeps it
    lemma_order(h.bbox.min.m, r0.0, r0.1);
    lemma_order(h.bbox.min.m, r0.1, h.bbox.max.m);
    assert(!(f64_eq(h.bbox.max.m, F64_MIN) && f64_eq(h.bbox.min.m, F64_MAX))) by {
        if f64_eq(h.bbox.max.m, F64_MIN) && f64_eq(h.bbox.min.m, F64_MAX) {
            assert(h.bbox.max.m == F64_MIN);
            assert(h.bbox.min.m == F64_MAX);
            assert(!f64_le(F64_MAX, F64_MIN));
        }
    }
    assert(h.shape_type != ShapeType::NullShape);
}

/// Whether each shape's z range is an ordered pair of finite values.
pub open spec fn z_ranges_ordered<S: EsriShape>(shapes: Seq<S>) -> bool {
    forall|j: int|
        0 <= j < shapes.len() ==> {
            let r = (#[trigger] shapes[j]).spec_z_range();
            &&& !is_nan(r.0)
            &&& !is_nan(r.1)
            &&& f64_le(F64_MIN, r.0)
            &&& f64_le(r.0, r.1)
            &&& f64_le(r.1, F64_MAX)
        }
}

/// Writing shapes of the writer's type, when that type has z values, brings the
/// header's z range over every shape's: its minimum ends at most the one it had and
/// each shape's, and is the one it had or a shape's; the same upwards for its maximum.
proof fn lemma_written_z_range<S: EsriShape>(w: ShapeWriterView, shapes: Seq<S>)
    requires
        w.header.shape_type == S::spec_shapetype(),
        S::spec_shapetype().spec_has_z(),
        !is_nan(w.header.bbox.min.z),
        !is_nan(w.header.bbox.max.z),
        z_ranges_ordered(shapes),
    ensures
        ({
            let h = spec_write_all(w, shapes).0.header;
            &&& spec_write_all(w, shapes).1 is Ok
            &&& h.shape_type == S::spec_shapetype()
            &&& !is_nan(h.bbox.min.z)
            &&& !is_nan(h.bbox.max.z)
            &&& f64_le(h.bbox.min.z, w.header.bbox.min.z)
            &&& f64_le(w.header.bbox.max.z, h.bbox.max.z)
            &&& forall|j: int|
                0 <= j < shapes.len() ==> f64_le(h.bbox.min.z, (#[trigger] shapes[j]).spec_z_range().0)
                    && f64_le(shapes[j].spec_z_range().1, h.bbox.max.z)
            &&& (h.bbox.min.z == w.header.bbox.min.z || exists|j: int|
                0 <= j < shapes.len() && h.bbox.min.z == (#[trigger] shapes[j]).spec_z_range().0)
            &&& (h.bbox.max.z == w.header.bbox.max.z || exists|j: int|
                0 <= j < shapes.len() && h.bbox.max.z == (#[trigger] shapes[j]).spec_z_range().1)
        }),
    decreases shapes.len(),
{
    if shapes.len() > 0 {
        let s0 = shapes[0];
        let r0 = s0.spec_z_range();
        let rest = shapes.drop_first();
        let w1 = spec_write_shape(w, s0).0;
        assert(spec_write_shape(w, s0).1 is Ok);
        let lo1 = w1.header.bbox.min.z;
        let hi1 = w1.header.bbox.max.z;
        assert(lo1 == spec_min(r0.0, w.header.bbox.min.z));
        assert(hi1 == spec_max(r0.1, w.header.bbox.max.z));
        lemma_min_max(r0.0, w.header.bbox.min.z);
        lemma_min_max(r0.1, w.header.bbox.max.z);
        assert(z_ranges_ordered(rest)) by {
            assert forall|j: int| 0 <= j < rest.len() implies #[trigger] rest[j] == shapes[j + 1] by {}
        }
        lemma_written_z_range(w1, rest);
        assert(spec_write_all(w, shapes) == spec_write_all(w1, rest));
        let h = spec_write_all(w, shapes).0.header;
        lemma_order(h.bbox.min.z, lo1, w.header.bbox.min.z);
        lemma_order(w.header.bbox.max.z, hi1, h.bbox.max.z);
        lemma_order(h.bbox.min.z, lo1, r0.0);
        lemma_order(r0.1, hi1, h.bbox.max.z);
        assert forall|j: int| 0 <= j < shapes.len() implies f64_le(h.bbox.min.z, (#[trigger] shapes[j]).spec_z_range().0)
            && f64_le(shapes[j].spec_z_range().1, h.bbox.max.z) by {
            if j > 0 {
                assert(shapes[j] == rest[j - 1]);
            }
        }
        if h.bbox.min.z != w.header.bbox.min.z {
            if h.bbox.min.z == lo1 {
                assert(h.bbox.min.z == shapes[0].spec_z_range().0);
            } else {
                let j = choose|j: int| 0 <= j < rest.len() && h.bbox.min.z == (#[trigger] rest[j]).spec_z_range().0;
                assert(shapes[j + 1] == rest[j]);
            }
        }
        if h.bbox.max.z != w.header.bbox.max.z {
            if h.bbox.max.z == hi1 {
                assert(h.bbox.max.z == shapes[0].spec_z_range().1);
            } else {
                let j = choose|j: int| 0 <= j < rest.len() && h.bbox.max.z == (#[trigger] rest[j]).spec_z_range().1;
                assert(shapes[j + 1] == rest[j]);
            }
        }
    } else {
        lemma_order(w.header.bbox.min.z, w.header.bbox.min.z, w.header.bbox.min.z);
        lemma_order(w.header.bbox.max.z, w.header.bbox.max.z, w.header.bbox.max.z);
    }
}

/// The header's z range covers the shapes': once shapes of a type with z values are
/// written by a fresh writer and the writer is finalized, the header's minimum z is the
/// smallest of the shapes' minimum z values and its maximum z the largest of their
/// maximum z values (each shape's range being finite and ordered).
pub proof fn lemma_header_z_range<S: EsriShape>(shx: Option<Seq<u8>>, shapes: Seq<S>)
    requires
        S::spec_shapetype().spec_has_z(),
        shapes.len() > 0,
        z_ranges_ordered(shapes),
    ensures
        ({
            let h = spec_finalize(spec_write_all(fresh_writer(shx), shapes).0).header;
            &&& forall|j: int|
                0 <= j < shapes.len() ==> f64_le(h.bbox.min.z, (#[trigger] shapes[j]).spec_z_range().0)
                    && f64_le(shapes[j].spec_z_range().1, h.bbox.max.z)
            &&& exists|j: int| 0 <= j < shapes.len() && h.bbox.min.z == (#[trigger] shapes[j]).spec_z_range().0
            &&& exists|j: int| 0 <= j < shapes.len() && h.bbox.max.z == (#[trigger] shapes[j]).spec_z_range().1
        }),
{
    let w0 = fresh_writer(shx);
    let s0 = shapes[0];
    let r0 = s0.spec_z_range();
    let rest = shapes.drop_first();
    let w1 = spec_write_shape(w0, s0).0;
    assert(spec_write_shape(w0, s0).1 is Ok);
    assert(!is_nan(r0.0) && !is_nan(r0.1) && f64_le(F64_MIN, r0.0) && f64_le(r0.0, r0.1) && f64_le(r0.1, F64_MAX));
    assert(w1.header.bbox.min.z == spec_min(r0.0, F64_MAX));
    assert(w1.header.bbox.max.z == spec_max(r0.1, F64_MIN));
    lemma_order(r0.0, r0.1, F64_MAX);
    lemma_order(F64_MIN, r0.0, r0.1);
    assert(w1.header.bbox.min.z == r0.0);
    assert(w1.header.bbox.max.z == r0.1);
    assert(z_ranges_ordered(rest)) by {
        assert forall|j: int| 0 <= j < rest.len() implies #[trigger] rest[j] == shapes[j + 1] by {}
    }
    lemma_written_z_range(w1, rest);
    assert(spec_write_all(w0, shapes) == spec_write_all(w1, rest));
    let w = spec_write_all(w0, shapes).0;
    let h = w.header;
    assert forall|j: int| 0 <= j < shapes.len() implies f64_le(h.bbox.min.z, (#[trigger] shapes[j]).spec_z_range().0)
        && f64_le(shapes[j].spec_z_range().1, h.bbox.max.z) by {
        if j > 0 {
            assert(shapes[j] == rest[j - 1]);
        } else {
            lemma_order(h.bbox.min.z, h.bbox.min.z, r0.0);
            lemma_order(r0.1, r0.1, h.bbox.max.z);
        }
    }
    if h.bbox.min.z == r0.0 {
        assert(h.bbox.min.z == shapes[0].spec_z_range().0);
    } else {
        let j = choose|j: int| 0 <= j < rest.len() && h.bbox.min.z == (#[trigger] rest[j]).spec_z_range().0;
        assert(shapes[j + 1] == rest[j]);
    }
    if h.bbox.max.z == r0.1 {
        assert(h.bbox.max.z == shapes[0].spec_z_range().1);
    } else {
        let j = choose|j: int| 0 <= j < rest.len() && h.bbox.max.z == (#[trigger] rest[j]).spec_z_range().1;
        assert(shapes[j + 1] == rest[j]);
    }
    // the z range is set, so finalizing keeps it
    lemma_order(h.bbox.min.z, r0.0, r0.1);
    lemma_order(h.bbox.min.z, r0.1, h.bbox.max.z);
    assert(!(f64_eq(h.bbox.max.z, F64_MIN) && f64_eq(h.bbox.min.z, F64_MAX))) by {
        if f64_eq(h.bbox.max.z, F64_MIN) && f64_eq(h.bbox.min.z, F64_MAX) {
            assert(h.bbox.max.z == F64_MIN);
            assert(h.bbox.min.z == F64_MAX);
            assert(!f64_le(F64_MAX, F64_MIN));
        }
    }
    assert(h.shape_type != ShapeType::NullShape);
}

/// What writing the shapes one after the other gives, stopping at the first error.
pub open spec fn spec_write_all<S: EsriShape>(w: ShapeWriterView, shapes: Seq<S>) -> (
    ShapeWriterView,
    Result<(), Error>,
)
    decreases shapes.len(),
{
    if shapes.len() == 0 {
        (w, Ok(()))
    } else {
        let (w1, r1) = spec_write_shape(w, shapes[0]);
        if r1 is Err {
            (w1, r1)
        } else {
            spec_write_all(w1, shapes.drop_first())
        }
    }
}

/// Whether writing the shapes one after the other keeps the record numbers and the
/// file length in range, until a shape the writer does not take.
pub open spec fn writes_fit<S: EsriShape>(w: ShapeWriterView, shapes: Seq<S>) -> bool
    decreases shapes.len(),
{
    shapes.len() == 0 || !accepts::<S>(w) || (write_fits(w, shapes[0]) && writes_fit(
        spec_write_shape(w, shapes[0]).0,
        shapes.drop_first(),
    ))
}

/// The record of a shape numbered `num`: its record header, the shape type code, then
/// the content.
pub open spec fn record_bytes<S: EsriShape>(shape: S, num: u32) -> Seq<u8> {
    record_header_bytes(
        RecordHeader {
            record_number: num as i32,
            record_size: record_words(shape.spec_content().len() as int) as i32,
        },
    ) + i32_le_bytes(spec_code(S::spec_shapetype())) + shape.spec_content()
}

/// The records of the shapes, numbered from 1, one after the other.
pub open spec fn records_bytes<S: EsriShape>(shapes: Seq<S>) -> Seq<u8>
    decreases shapes.len(),
{
    if shapes.len() == 0 {
        Seq::empty()
    } else {
        records_bytes(shapes.drop_last()) + record_bytes(shapes.last(), shapes.len() as u32)
    }
}

/// The size in 16-bit words of the records of the shapes.
pub open spec fn records_words<S: EsriShape>(shapes: Seq<S>) -> int
    decreases shapes.len(),
{
    if shapes.len() == 0 {
        0
    } else {
        records_words(shapes.drop_last()) + record_words(shapes.last().spec_content().len() as int)
            + 4
    }
}

/// The records of the shapes take at least 6 words each.
pub proof fn lemma_records_words_nonneg<S: EsriShape>(shapes: Seq<S>)
    ensures
        records_words(shapes) >= 6 * shapes.len(),
    decreases shapes.len(),
{
    if shapes.len() > 0 {
        lemma_records_words_nonneg(shapes.drop_last());
    }
}

/// Whether all the shapes have contents of even length.
pub open spec fn even_contents<S: EsriShape>(shapes: Seq<S>) -> bool {
    forall|k: int| 0 <= k < shapes.len() ==> (#[trigger] shapes[k]).spec_content().len() % 2 == 0
}

/// A record has 12 bytes more than the content: twice its size in words, plus the 8
/// bytes of the record header.
pub proof fn lemma_record_len<S: EsriShape>(shape: S, num: u32)
    requires
        shape.spec_content().len() % 2 == 0,
    ensures
        record_bytes(shape, num).len() == 12 + shape.spec_content().len(),
        record_bytes(shape, num).len() == 2 * (record_words(shape.spec_content().len() as int) + 4),
{
    crate::bytes::lemma_encoding_lengths(num as i32, 0);
    crate::bytes::lemma_encoding_lengths(record_words(shape.spec_content().len() as int) as i32, 0);
    crate::bytes::lemma_encoding_lengths(spec_code(S::spec_shapetype()), 0);
}

/// The records of shapes of even content lengths take twice their size in words.
pub proof fn lemma_records_len<S: EsriShape>(shapes: Seq<S>)
    requires
        even_contents(shapes),
    ensures
        records_bytes(shapes).len() == 2 * records_words(shapes),
    decreases shapes.len(),
{
    if shapes.len() > 0 {
        let init = shapes.drop_last();
        assert(even_contents(init)) by {
            assert forall|k: int| 0 <= k < init.len() implies (#[trigger] init[k]).spec_content().len()
                % 2 == 0 by {
                assert(init[k] == shapes[k]);
            }
        }
        lemma_records_len(init);
        lemma_record_len(shapes.last(), shapes.len() as u32);
    }
}

/// The records of the first shapes stand at the start of the records of all the
/// shapes, and the record of shape `k` right after them.
pub proof fn lemma_records_prefix<S: EsriShape>(shapes: Seq<S>, k: int)
    requires
        0 <= k < shapes.len(),
    ensures
        records_bytes(shapes.take(k + 1)) == records_bytes(shapes.take(k)) + record_bytes(
            shapes[k],
            (k + 1) as u32,
        ),
        crate::record::readback::stands_at(
            records_bytes(shapes),
            records_bytes(shapes.take(k)).len() as int,
            record_bytes(shapes[k], (k + 1) as u32),
        ),
{
    let a = records_bytes(shapes.take(k));
    let rec = record_bytes(shapes[k], (k + 1) as u32);
    assert(shapes.take(k + 1).drop_last() == shapes.take(k));
    assert(shapes.take(k + 1).last() == shapes[k]);
    assert(records_bytes(shapes.take(k + 1)) == a + rec);
    if k + 1 == shapes.len() {
        assert(shapes.take(k + 1) == shapes);
        assert((a + rec).subrange(a.len() as int, (a.len() + rec.len()) as int) =~= rec);
    } else {
        let ab = records_bytes(shapes.take(k + 1));
        let all = records_bytes(shapes);
        lemma_records_is_prefix(shapes, k + 1);
        assert(all.subrange(0, ab.len() as int) == ab);
        assert(all.subrange(a.len() as int, (a.len() + rec.len()) as int) =~= ab.subrange(
            a.len() as int,
            (a.len() + rec.len()) as int,
        ));
        assert(ab.subrange(a.len() as int, (a.len() + rec.len()) as int) =~= rec);
    }
}

/// The records of the first shapes are the start of the records of all the shapes.
pub proof fn lemma_records_is_prefix<S: EsriShape>(shapes: Seq<S>, j: int)
    requires
        0 <= j <= shapes.len(),
    ensures
        records_bytes(shapes.take(j)).len() <= records_bytes(shapes).len(),
        records_bytes(shapes).subrange(0, records_bytes(shapes.take(j)).len() as int)
            == records_bytes(shapes.take(j)),
    decreases shapes.len() - j,
{
    if j == shapes.len() {
        assert(shapes.take(j) == shapes);
        assert(records_bytes(shapes).subrange(0, records_bytes(shapes).len() as int) =~= records_bytes(
            shapes,
        ));
    } else {
        lemma_records_is_prefix(shapes, j + 1);
        let a = records_bytes(shapes.take(j));
        let ab = records_bytes(shapes.take(j + 1));
        assert(shapes.take(j + 1).drop_last() == shapes.take(j));
        assert(ab == a + record_bytes(shapes[j], (j + 1) as u32));
        assert(records_bytes(shapes).subrange(0, a.len() as int) =~= ab.subrange(0, a.len() as int));
        assert(ab.subrange(0, a.len() as int) =~= a);
    }
}

/// The header written to reserve its place at the first shape, of type `t`.
pub open spec fn first_header(t: ShapeType) -> Header {
    Header { shape_type: t, bbox: initial_bbox(), ..spec_default_header() }
}

/// Whether the writer, created with nothing written, has written the shapes `done` (of
/// the type of `S`): the header reserved at the first shape then their records, the
/// record number and file length that follow them.
pub open spec fn wrote<S: EsriShape>(w: ShapeWriterView, done: Seq<S>) -> bool {
    &&& w.rec_num == done.len() + 1
    &&& w.header.file_length == 50 + records_words(done)
    &&& w.dirty
    &&& if done.len() == 0 {
        w.header == spec_default_header() && w.shp == Seq::<u8>::empty()
    } else {
        w.header.shape_type == S::spec_shapetype() && w.shp == header_bytes(
            first_header(S::spec_shapetype()),
        ) + records_bytes(done)
    }
}

/// Writing the rest of the shapes, once the first `k` are written, succeeds and writes
/// them all.
pub proof fn lemma_write_all_wrote<S: EsriShape>(w: ShapeWriterView, shapes: Seq<S>, k: int)
    requires
        0 <= k <= shapes.len(),
        wrote(w, shapes.take(k)),
        writes_fit(w, shapes.skip(k)),
        S::spec_shapetype() != ShapeType::NullShape,
    ensures
        spec_write_all(w, shapes.skip(k)).1 is Ok,
        wrote(spec_write_all(w, shapes.skip(k)).0, shapes),
    decreases shapes.len() - k,
{
    if k == shapes.len() {
        assert(shapes.skip(k) =~= Seq::<S>::empty());
        assert(shapes.take(k) == shapes);
    } else {
        let x = shapes[k];
        assert(shapes.skip(k)[0] == x);
        assert(shapes.skip(k).drop_first() == shapes.skip(k + 1));
        assert(write_fits(w, x));
        lemma_write_one_wrote(w, shapes, k);
        let w1 = spec_write_shape(w, x).0;
        lemma_write_all_wrote(w1, shapes, k + 1);
    }
}

/// Where the record of shape `k` starts in a file of the shapes: after the 100 bytes of
/// the header and the records before it.
pub open spec fn record_pos<S: EsriShape>(shapes: Seq<S>, k: int) -> int {
    100 + records_bytes(shapes.take(k)).len() as int
}

/// Whether each shape reads back as written and fits a record whose size in bytes fits
/// an `i32`.
pub open spec fn all_read_back<F: Fn(Vec<u64>) -> RingType, S: ReadBack<F>>(classify: F, shapes: Seq<S>) -> bool {
    forall|j: int|
        0 <= j < shapes.len() ==> {
            &&& (#[trigger] shapes[j]).reads_back(classify)
            &&& shapes[j].spec_size_fits()
            &&& shapes[j].spec_content().len() + 4 <= i32::MAX
        }
}

/// Whether a record read is the record of `v` of `len` bytes, whose size in words
/// counts all but the 8 bytes of the record header.
pub open spec fn reads_record<V>(one: Result<(RecordHeader, V, int), Error>, v: V, len: int) -> bool {
    match one {
        Ok((h, w, n)) => w == v && n == len && h.record_size >= 0 && 8 + 2 * h.record_size == n,
        Err(_) => false,
    }
}

/// Reading the record of shape `k` where it stands gives the shape back, with the
/// record's length as the number of bytes read.
pub proof fn lemma_read_one_record<F: Fn(Vec<u64>) -> RingType, S: ReadBack<F>>(
    classify: F,
    bytes: Seq<u8>,
    shapes: Seq<S>,
    k: int,
)
    requires
        0 <= k < shapes.len(),
        stands_at(bytes, 100, records_bytes(shapes)),
        all_read_back(classify, shapes),
    ensures
        forall|one: Result<(RecordHeader, S::V, int), Error>|
            #[trigger] record_at_outcome::<F, S>(classify, bytes, record_pos(shapes, k), one)
                ==> reads_record(one, shapes[k]@, record_bytes(shapes[k], (k + 1) as u32).len() as int),
{
    let x = shapes[k];
    let p = record_pos(shapes, k);
    let len = x.spec_content().len();
    let rs = record_words(len as int) as i32;
    let t = S::spec_shapetype();
    let h = RecordHeader { record_number: ((k + 1) as u32) as i32, record_size: rs };
    let rh = record_header_bytes(h);
    let code = i32_le_bytes(spec_code(t));
    let rec = record_bytes(x, (k + 1) as u32);
    assert(rec == rh + code + x.spec_content());
    lemma_records_prefix(shapes, k);
    lemma_stands_within(bytes, 100, records_bytes(shapes), records_bytes(shapes.take(k)).len() as int, rec);
    lemma_stands_concat(bytes, p, rh + code, x.spec_content());
    lemma_stands_concat(bytes, p, rh, code);
    crate::bytes::lemma_encoding_lengths(h.record_number, 0);
    crate::bytes::lemma_encoding_lengths(rs, 0);
    crate::bytes::lemma_encoding_lengths(spec_code(t), 0);
    assert(rh.len() == 8);
    lemma_read_record_header_at(bytes, p, h);
    lemma_read_i32(bytes, p + 8, spec_code(t));
    lemma_code_roundtrip(t, 0);
    x.lemma_reads_back(classify, bytes, p + 12);
    lemma_record_len(x, (k + 1) as u32);
    assert(valid_record_size(rs));
    assert(((2 * rs) as i32 - 4) as i32 == len as i32);
    assert forall|one: Result<(RecordHeader, S::V, int), Error>|
        #[trigger] record_at_outcome::<F, S>(classify, bytes, p, one) implies reads_record(
        one,
        x@,
        rec.len() as int,
    ) by {
        match one {
            Ok((hh, v, n)) => {
                assert(record_outcome::<F, S>(classify, bytes, p + 8, (2 * rs) as i32, Ok((v, n - 8))));
                assert(S::typed_outcome(
                    classify,
                    t,
                    bytes,
                    p + 12,
                    ((2 * rs) as i32 - 4) as i32,
                    Ok((v, n - 12)),
                ));
            },
            Err(e) => {
                assert(record_outcome::<F, S>(classify, bytes, p + 8, (2 * rs) as i32, Err(e)));
                assert(S::typed_outcome(
                    classify,
                    t,
                    bytes,
                    p + 12,
                    ((2 * rs) as i32 - 4) as i32,
                    Err(e),
                ));
            },
        }
    }
}

/// Reading the records of the shapes from that of shape `k` on, until the file's end,
/// can only give the shapes from `k` on.
#[verifier::spinoff_prover]
pub proof fn lemma_read_records<F: Fn(Vec<u64>) -> RingType, S: ReadBack<F>>(
    classify: F,
    bytes: Seq<u8>,
    shapes: Seq<S>,
    k: int,
)
    requires
        0 <= k <= shapes.len(),
        stands_at(bytes, 100, records_bytes(shapes)),
        100 + records_bytes(shapes).len() <= u64::MAX,
        all_read_back(classify, shapes),
    ensures
        forall|r: Result<Seq<S::V>, Error>|
            #[trigger] shapes_outcome::<F, S>(
                classify,
                bytes,
                record_pos(shapes, k),
                record_pos(shapes, k) as u64,
                (100 + records_bytes(shapes).len()) as u64,
                r,
            ) ==> r == Ok::<Seq<S::V>, Error>(shape_seq_view(shapes.skip(k))),
    decreases shapes.len() - k,
{
    let end = (100 + records_bytes(shapes).len()) as u64;
    let p = record_pos(shapes, k);
    if k == shapes.len() {
        assert(shapes.take(k) == shapes);
        assert(shape_seq_view(shapes.skip(k)) =~= Seq::<S::V>::empty());
    } else {
        let x = shapes[k];
        let rec = record_bytes(x, (k + 1) as u32);
        lemma_read_one_record(classify, bytes, shapes, k);
        lemma_read_records(classify, bytes, shapes, k + 1);
        lemma_records_prefix(shapes, k);
        lemma_records_is_prefix(shapes, k + 1);
        assert(shapes.take(k + 1).drop_last() == shapes.take(k));
        let p1 = record_pos(shapes, k + 1);
        crate::bytes::lemma_encoding_lengths(((k + 1) as u32) as i32, 0);
        crate::bytes::lemma_encoding_lengths(record_words(x.spec_content().len() as int) as i32, 0);
        crate::bytes::lemma_encoding_lengths(spec_code(S::spec_shapetype()), 0);
        assert(rec.len() >= 12);
        assert(p1 == p + rec.len());
        assert(p1 <= end);
        assert forall|r: Result<Seq<S::V>, Error>|
            #[trigger] shapes_outcome::<F, S>(classify, bytes, p, p as u64, end, r) implies r == Ok::<
                Seq<S::V>,
                Error,
            >(shape_seq_view(shapes.skip(k))) by {
            assert((p as u64) < end);
            let one = choose|one: Result<(RecordHeader, S::V, int), Error>|
                #[trigger] record_at_outcome::<F, S>(classify, bytes, p, one) && match one {
                    Err(e) => r == Err::<Seq<S::V>, Error>(e),
                    Ok((h, v, n)) => if h.record_size < 0 {
                        r == Err::<Seq<S::V>, Error>(Error::InvalidShapeRecordSize)
                    } else {
                        match r {
                            Ok(vs) => vs.len() > 0 && vs[0] == v && shapes_outcome::<F, S>(
                                classify,
                                bytes,
                                p + n,
                                sat_add(p as u64, 8 + 2 * h.record_size),
                                end,
                                Ok(vs.drop_first()),
                            ),
                            Err(e) => shapes_outcome::<F, S>(
                                classify,
                                bytes,
                                p + n,
                                sat_add(p as u64, 8 + 2 * h.record_size),
                                end,
                                Err(e),
                            ),
                        }
                    },
                };
            assert(reads_record(one, x@, rec.len() as int));
            match one {
                Ok((h, v, n)) => {
                    assert(h.record_size >= 0);
                    assert(sat_add(p as u64, 8 + 2 * h.record_size) == p1 as u64);
                    match r {
                        Ok(vs) => {
                            assert(vs.len() > 0 && vs[0] == v && shapes_outcome::<F, S>(
                                classify,
                                bytes,
                                p + n,
                                sat_add(p as u64, 8 + 2 * h.record_size),
                                end,
                                Ok(vs.drop_first()),
                            ));
                            let want = shape_seq_view(shapes.skip(k));
                            assert(p + n == record_pos(shapes, k + 1));
                            assert(shapes_outcome::<F, S>(
                                classify,
                                bytes,
                                record_pos(shapes, k + 1),
                                record_pos(shapes, k + 1) as u64,
                                end,
                                Ok(vs.drop_first()),
                            ));
                            assert(vs.drop_first() == shape_seq_view(shapes.skip(k + 1)));
                            assert forall|i: int| 0 <= i < vs.len() implies vs[i] == want[i] by {
                                if i > 0 {
                                    assert(vs[i] == vs.drop_first()[i - 1]);
                                    assert(shapes.skip(k)[i] == shapes.skip(k + 1)[i - 1]);
                                }
                            }
                            assert(vs =~= want);
                        },
                        Err(e) => {},
                    }
                },
                Err(e) => {},
            }
        }
    }
}

/// A writer created with an empty `.shp` destination (and `shx` as its `.shx`
/// destination).
pub open spec fn fresh_writer(shx: Option<Seq<u8>>) -> ShapeWriterView {
    ShapeWriterView { shp: Seq::empty(), shx, header: spec_default_header(), rec_num: 1, dirty: true }
}

/// Shapes of one type written by a writer created with an empty `.shp` destination,
/// then finalized, read back as the same shapes: writing succeeds, the file starts with
/// the writer's header, whose length (in 16-bit words) is the file's, and reading all
/// its records as the shapes' type can only give the shapes, in order.
pub proof fn lemma_write_read_roundtrip<F: Fn(Vec<u64>) -> RingType, S: ReadBack<F>>(
    classify: F,
    shx: Option<Seq<u8>>,
    shapes: Seq<S>,
)
    requires
        S::spec_shapetype() != ShapeType::NullShape,
        writes_fit(fresh_writer(shx), shapes),
        all_read_back(classify, shapes),
    ensures
        spec_write_all(fresh_writer(shx), shapes).1 is Ok,
        spec_parse_header(spec_finalize(spec_write_all(fresh_writer(shx), shapes).0).shp) == Ok::<
            Header,
            Error,
        >(spec_finalize(spec_write_all(fresh_writer(shx), shapes).0).header),
        spec_finalize(spec_write_all(fresh_writer(shx), shapes).0).shp.len() == 2 * spec_finalize(
            spec_write_all(fresh_writer(shx), shapes).0,
        ).header.file_length,
        forall|res: Result<Seq<S::V>, Error>|
            #[trigger] shapes_outcome::<F, S>(
                classify,
                spec_finalize(spec_write_all(fresh_writer(shx), shapes).0).shp,
                100,
                100,
                (2 * spec_finalize(spec_write_all(fresh_writer(shx), shapes).0).header.file_length) as u64,
                res,
            ) ==> res == Ok::<Seq<S::V>, Error>(shape_seq_view(shapes)),
{
    let w0 = fresh_writer(shx);
    assert(shapes.take(0) =~= Seq::<S>::empty());
    assert(shapes.skip(0) == shapes);
    lemma_write_all_wrote(w0, shapes, 0);
    let w = spec_write_all(w0, shapes).0;
    let f = spec_finalize(w);
    let h = f.header;
    let recs = records_bytes(shapes);
    lemma_header_bytes_len(h);
    lemma_header_bytes_len(first_header(S::spec_shapetype()));
    if shapes.len() == 0 {
        assert(recs =~= Seq::<u8>::empty());
        assert(f.shp =~= header_bytes(h) + recs);
    } else {
        assert(w.shp.skip(100) =~= recs);
        assert(f.shp =~= header_bytes(h) + recs);
    }
    lemma_header_roundtrip(h, recs);
    assert forall|j: int| 0 <= j < shapes.len() implies (#[trigger] shapes[j]).spec_content().len() % 2
        == 0 by {
        let c = shapes[j].spec_content();
        assert(c.subrange(0, c.len() as int) =~= c);
        shapes[j].lemma_reads_back(classify, c, 0);
    }
    lemma_records_len(shapes);
    assert(f.shp.subrange(100, 100 + recs.len() as int) =~= recs);
    assert(shapes.take(0) =~= Seq::<S>::empty());
    assert(record_pos(shapes, 0) == 100);
    lemma_read_records(classify, f.shp, shapes, 0);
    assert(shapes.skip(0) == shapes);
    let end = (2 * h.file_length) as u64;
    assert(end == (100 + recs.len()) as u64);
    assert forall|res: Result<Seq<S::V>, Error>|
        #[trigger] shapes_outcome::<F, S>(classify, f.shp, 100, 100, end, res) implies res == Ok::<
            Seq<S::V>,
            Error,
        >(shape_seq_view(shapes)) by {
        assert(shapes_outcome::<F, S>(
            classify,
            f.shp,
            record_pos(shapes, 0),
            record_pos(shapes, 0) as u64,
            (100 + recs.len()) as u64,
            res,
        ));
    }
}

/// The index entry of shape `k` of the shapes: where its record starts and its size,
/// in 16-bit words.
pub open spec fn index_entry_of<S: EsriShape>(shapes: Seq<S>, k: int) -> ShapeIndex {
    ShapeIndex {
        offset: (50 + records_words(shapes.take(k))) as i32,
        record_size: record_words(shapes[k].spec_content().len() as int) as i32,
    }
}

/// The index entries of the shapes, one after the other.
pub open spec fn index_entries<S: EsriShape>(shapes: Seq<S>) -> Seq<u8>
    decreases shapes.len(),
{
    if shapes.len() == 0 {
        Seq::empty()
    } else {
        index_entries(shapes.drop_last()) + shape_index_bytes(
            index_entry_of(shapes, shapes.len() - 1),
        )
    }
}

/// Whether the writer's `.shx` destination, created empty, holds the header reserved at
/// the first shape then the index entries of the shapes `done`.
pub open spec fn wrote_index<S: EsriShape>(w: ShapeWriterView, done: Seq<S>) -> bool {
    w.shx == Some(
        if done.len() == 0 {
            Seq::<u8>::empty()
        } else {
            header_bytes(first_header(S::spec_shapetype())) + index_entries(done)
        },
    )
}

/// Writing the rest of the shapes, once the first `k` are written, writes their index
/// entries.
pub proof fn lemma_write_all_index<S: EsriShape>(w: ShapeWriterView, shapes: Seq<S>, k: int)
    requires
        0 <= k <= shapes.len(),
        wrote(w, shapes.take(k)),
        wrote_index(w, shapes.take(k)),
        writes_fit(w, shapes.skip(k)),
        S::spec_shapetype() != ShapeType::NullShape,
    ensures
        wrote_index(spec_write_all(w, shapes.skip(k)).0, shapes),
    decreases shapes.len() - k,
{
    if k == shapes.len() {
        assert(shapes.skip(k) =~= Seq::<S>::empty());
        assert(shapes.take(k) == shapes);
    } else {
        let x = shapes[k];
        assert(shapes.skip(k)[0] == x);
        assert(shapes.skip(k).drop_first() == shapes.skip(k + 1));
        let w1 = spec_write_shape(w, x).0;
        let done = shapes.take(k + 1);
        assert(done.drop_last() == shapes.take(k));
        assert(done.last() == x);
        assert(write_fits(w, x));
        lemma_records_words_nonneg(shapes.take(k));
        let entry = index_entry_of(done, k);
        assert(done.take(k) == shapes.take(k));
        assert(entry == (ShapeIndex {
            offset: w.header.file_length,
            record_size: record_words(x.spec_content().len() as int) as i32,
        }));
        if k == 0 {
            assert(done.drop_last() =~= Seq::<S>::empty());
            assert(index_entries(done.drop_last()) == Seq::<u8>::empty());
            assert(index_entries(done) =~= shape_index_bytes(entry));
        }
        assert(w1.shx == Some(header_bytes(first_header(S::spec_shapetype())) + index_entries(done)));
        lemma_write_one_wrote(w, shapes, k);
        lemma_write_all_index(w1, shapes, k + 1);
    }
}

/// Writing shape `k` once the first `k` are written writes the first `k + 1`.
pub proof fn lemma_write_one_wrote<S: EsriShape>(w: ShapeWriterView, shapes: Seq<S>, k: int)
    requires
        0 <= k < shapes.len(),
        wrote(w, shapes.take(k)),
        write_fits(w, shapes[k]),
        S::spec_shapetype() != ShapeType::NullShape,
    ensures
        wrote(spec_write_shape(w, shapes[k]).0, shapes.take(k + 1)),
        spec_write_shape(w, shapes[k]).1 is Ok,
{
    let x = shapes[k];
    let w1 = spec_write_shape(w, x).0;
    let t = S::spec_shapetype();
    let done = shapes.take(k + 1);
    assert(done.drop_last() == shapes.take(k));
    assert(done.last() == x);
    let rs = record_words(x.spec_content().len() as int) as i32;
    let rh = record_header_bytes(RecordHeader { record_number: w.rec_num as i32, record_size: rs });
    let code = i32_le_bytes(spec_code(t));
    assert(record_bytes(x, done.len() as u32) == rh + code + x.spec_content());
    if k == 0 {
        assert(shapes.take(k) =~= Seq::<S>::empty());
        assert(done.drop_last() =~= Seq::<S>::empty());
        assert(records_bytes(done.drop_last()) == Seq::<u8>::empty());
        assert(records_bytes(done) =~= rh + code + x.spec_content());
        assert(w1.shp =~= header_bytes(first_header(t)) + records_bytes(done));
    } else {
        assert(w1.shp =~= header_bytes(first_header(t)) + records_bytes(done));
    }
    lemma_records_words_nonneg(shapes.take(k));
    let rw = record_words(x.spec_content().len() as int);
    assert(rs as int == rw);
    assert(records_words(done) == records_words(shapes.take(k)) + rw + 4);
}

/// The index entries of the shapes read back where they stand.
pub proof fn lemma_read_index_entries<S: EsriShape>(s: Seq<u8>, at: int, shapes: Seq<S>)
    requires
        stands_at(s, at, index_entries(shapes)),
    ensures
        index_entries(shapes).len() == 8 * shapes.len(),
        forall|k: int|
            0 <= k < shapes.len() ==> i32_be_at_pair(s, at + 8 * k) == #[trigger] index_entry_of(
                shapes,
                k,
            ),
    decreases shapes.len(),
{
    if shapes.len() > 0 {
        let init = shapes.drop_last();
        let n = shapes.len() - 1;
        let e = index_entry_of(shapes, n);
        let eb = shape_index_bytes(e);
        lemma_stands_concat(s, at, index_entries(init), eb);
        lemma_read_index_entries(s, at, init);
        crate::bytes::lemma_encoding_lengths(e.offset, 0);
        crate::bytes::lemma_encoding_lengths(e.record_size, 0);
        lemma_stands_concat(s, at + 8 * n, i32_be_bytes(e.offset), i32_be_bytes(e.record_size));
        lemma_read_i32_be(s, at + 8 * n, e.offset);
        lemma_read_i32_be(s, at + 8 * n + 4, e.record_size);
        assert forall|k: int| 0 <= k < shapes.len() implies i32_be_at_pair(s, at + 8 * k)
            == #[trigger] index_entry_of(shapes, k) by {
            if k < n {
                assert(index_entry_of(init, k) == index_entry_of(shapes, k)) by {
                    assert(init.take(k) == shapes.take(k));
                    assert(init[k] == shapes[k]);
                }
            }
        }
    }
}

/// The two big-endian `i32` values at `at`, as an index entry.
pub open spec fn i32_be_at_pair(s: Seq<u8>, at: int) -> ShapeIndex {
    ShapeIndex { offset: i32_be_at(s, at), record_size: i32_be_at(s, at + 4) }
}

/// With the `.shx` index written beside the `.shp` file, the index entry `k` leads to
/// the record of shape `k`: the index reads back with one entry per shape, and reading
/// the record where entry `k` points can only give shape `k` back.
pub proof fn lemma_write_read_nth<F: Fn(Vec<u64>) -> RingType, S: ReadBack<F>>(
    classify: F,
    shapes: Seq<S>,
    k: int,
)
    requires
        S::spec_shapetype() != ShapeType::NullShape,
        writes_fit(fresh_writer(Some(Seq::empty())), shapes),
        all_read_back(classify, shapes),
        0 <= k < shapes.len(),
    ensures
        spec_finalize(spec_write_all(fresh_writer(Some(Seq::empty())), shapes).0).shx matches Some(shx)
            && spec_read_index_file(shx) matches Ok(entries) && entries.len() == shapes.len()
            && forall|one: Result<(RecordHeader, S::V, int), Error>|
            #[trigger] record_at_outcome::<F, S>(
                classify,
                spec_finalize(spec_write_all(fresh_writer(Some(Seq::empty())), shapes).0).shp,
                seek_target(entries[k].offset) as int,
                one,
            ) ==> reads_record(one, shapes[k]@, record_bytes(shapes[k], (k + 1) as u32).len() as int),
{
    let w0 = fresh_writer(Some(Seq::empty()));
    assert(shapes.take(0) =~= Seq::<S>::empty());
    assert(shapes.skip(0) == shapes);
    lemma_write_all_wrote(w0, shapes, 0);
    lemma_write_all_index(w0, shapes, 0);
    lemma_write_read_roundtrip(classify, Some(Seq::empty()), shapes);
    let w = spec_write_all(w0, shapes).0;
    let f = spec_finalize(w);
    let n = shapes.len();
    let ih = index_header(f.header, w.rec_num);
    let entries = index_entries(shapes);
    let shx = f.shx->Some_0;
    lemma_header_bytes_len(ih);
    lemma_header_bytes_len(first_header(S::spec_shapetype()));
    if n == 0 {
        assert(entries =~= Seq::<u8>::empty());
    }
    assert(w.shx->Some_0.skip(100) =~= entries);
    assert(shx =~= header_bytes(ih) + entries);
    lemma_header_roundtrip(ih, entries);
    assert(stands_at(shx, 100, entries)) by {
        assert(shx.subrange(100, 100 + entries.len() as int) =~= entries);
    }
    lemma_read_index_entries(shx, 100, shapes);
    lemma_records_words_nonneg(shapes);
    assert(w.rec_num == n + 1);
    assert(w.header.file_length == 50 + records_words(shapes));
    assert(ih.file_length == 50 + 4 * n);
    assert(index_entry_count(ih) == n) by {
        if n > 0 {
            assert((2 * (50 + 4 * n) - 100) / 8 == n);
        }
    }
    let parsed = spec_read_index_file(shx)->Ok_0;
    assert(parsed[k] == index_entry_at(shx, k));
    assert(index_entry_at(shx, k) == i32_be_at_pair(shx, 100 + 8 * k));
    let e = index_entry_of(shapes, k);
    assert(parsed[k] == e);
    assert forall|j: int| 0 <= j < shapes.len() implies (#[trigger] shapes[j]).spec_content().len() % 2
        == 0 by {
        let c = shapes[j].spec_content();
        assert(c.subrange(0, c.len() as int) =~= c);
        shapes[j].lemma_reads_back(classify, c, 0);
    }
    assert(even_contents(shapes.take(k))) by {
        assert forall|j: int| 0 <= j < shapes.take(k).len() implies (#[trigger] shapes.take(
            k,
        )[j]).spec_content().len() % 2 == 0 by {
            assert(shapes.take(k)[j] == shapes[j]);
        }
    }
    lemma_records_len(shapes.take(k));
    lemma_records_is_prefix(shapes, k);
    lemma_records_len(shapes);
    assert(seek_target(e.offset) as int == record_pos(shapes, k));
    let recs = records_bytes(shapes);
    assert(f.shp =~= header_bytes(f.header) + recs) by {
        lemma_header_bytes_len(f.header);
        if n == 0 {
            assert(recs =~= Seq::<u8>::empty());
        } else {
            assert(w.shp.skip(100) =~= recs);
        }
    }
    lemma_header_bytes_len(f.header);
    assert(stands_at(f.shp, 100, recs)) by {
        assert(f.shp.subrange(100, 100 + recs.len() as int) =~= recs);
    }
    lemma_read_one_record(classify, f.shp, shapes, k);
}

} // verus!
