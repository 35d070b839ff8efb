//! Reading the shapes of a `.shp` file, and its `.shx` index when there is one, from
//! their bytes.
//!
//! A `.shp` file is the 100-byte header followed by the records; each record is a
//! record header (its number and its size in 16-bit words), the shape type code and
//! the shape's content. A `.shx` file is the same header followed by one entry per
//! record: the record's offset in the `.shp` file and its size, both in 16-bit words.
use vstd::prelude::*;
use crate::bytes::{i32_be_at, i32_be_bytes, push_i32_be, read_i32_be};
use crate::error::Error;
use crate::header::{spec_parse_header, Header};
use crate::record::polygon::{classifier_total, RingType};
use crate::record::shape::{outcome_view, read_from, record_outcome, ReadableShape, Shape};
use crate::record::{spec_read_record_header, RecordHeader};

verus! {

/// The size in bytes of an entry of the index file.
pub const INDEX_RECORD_SIZE: usize = 8;

/// An entry of the index file: where a record starts in the `.shp` file and its size,
/// both in 16-bit words.
#[derive(Debug, Copy, Clone, PartialEq, Eq, Structural)]
pub struct ShapeIndex {
    pub offset: i32,
    pub record_size: i32,
}

/// The 8 bytes of an index entry: both values big endian.
pub open spec fn shape_index_bytes(i: ShapeIndex) -> Seq<u8> {
    i32_be_bytes(i.offset) + i32_be_bytes(i.record_size)
}

impl ShapeIndex {
    /// Appends the entry.
    pub fn write_to(&self, dest: &mut Vec<u8>)
        ensures
            final(dest)@ == old(dest)@ + shape_index_bytes(*self),
    {
        push_i32_be(dest, self.offset);
        push_i32_be(dest, self.record_size);
        assert(dest@ =~= old(dest)@ + shape_index_bytes(*self));
    }
}

/// The number of entries an index file's header announces: the file's length past its
/// header, in entries (none when that length is not positive).
pub open spec fn index_entry_count(h: Header) -> int {
    let bytes = 2 * h.file_length - 100;
    if bytes <= 0 {
        0
    } else {
        bytes / 8
    }
}

/// The index entry `k` of an index file.
pub open spec fn index_entry_at(s: Seq<u8>, k: int) -> ShapeIndex {
    ShapeIndex { offset: i32_be_at(s, 100 + 8 * k), record_size: i32_be_at(s, 104 + 8 * k) }
}

/// What reading an index file gives: its entries, or the error met first.
pub open spec fn spec_read_index_file(s: Seq<u8>) -> Result<Seq<ShapeIndex>, Error> {
    match spec_parse_header(s) {
        Err(e) => Err(e),
        Ok(h) => if 100 + 8 * index_entry_count(h) > s.len() {
            Err(Error::UnexpectedEof)
        } else {
            Ok(Seq::new(index_entry_count(h) as nat, |k: int| index_entry_at(s, k)))
        },
    }
}

/// Reads the content of an index (`.shx`) file.
pub fn read_index_file(data: &[u8]) -> (r: Result<Vec<ShapeIndex>, Error>)
    ensures
        match r {
            Ok(v) => spec_read_index_file(data@) == Ok::<Seq<ShapeIndex>, Error>(v@),
            Err(e) => spec_read_index_file(data@) == Err::<Seq<ShapeIndex>, Error>(e),
        },
{
    let header = match Header::read_from(data) {
        Ok(h) => h,
        Err(e) => {
            return Err(e);
        },
    };
    let bytes: i64 = (header.file_length as i64) * 2 - 100;
    let count: u64 = if bytes <= 0 {
        0
    } else {
        (bytes / 8) as u64
    };
    if (data.len() as u64) < 100 || ((data.len() as u64) - 100) / 8 < count {
        return Err(Error::UnexpectedEof);
    }
    let n = count as usize;
    let mut entries: Vec<ShapeIndex> = Vec::new();
    let mut k: usize = 0;
    while k < n
        invariant
            0 <= k <= n,
            n == index_entry_count(header),
            100 + 8 * n <= data@.len(),
            entries@.len() == k,
            forall|j: int| 0 <= j < k ==> #[trigger] entries@[j] == index_entry_at(data@, j),
        decreases n - k,
    {
        let offset = read_i32_be(data, 100 + 8 * k);
        let record_size = read_i32_be(data, 104 + 8 * k);
        entries.push(ShapeIndex { offset, record_size });
        k = k + 1;
    }
    assert(entries@ =~= Seq::new(index_entry_count(header) as nat, |j: int| index_entry_at(data@, j)));
    Ok(entries)
}

/// Whether the record size (in 16-bit words) of a record header can be read: its size
/// in bytes, and that size less the 4 bytes of the shape type code, fit an `i32`.
pub open spec fn valid_record_size(size: i32) -> bool {
    i32::MIN / 2 + 2 <= size <= i32::MAX / 2
}

/// Whether `r` may be what reading the record at `pos` as `S` gives: the record header,
/// the shape and the number of bytes consumed; or the error. A record size whose size in
/// bytes does not fit an `i32` is `InvalidShapeRecordSize`.
pub open spec fn record_at_outcome<F: Fn(Vec<u64>) -> RingType, S: ReadableShape<F>>(
    classify: F,
    s: Seq<u8>,
    pos: int,
    r: Result<(RecordHeader, S::V, int), Error>,
) -> bool {
    match spec_read_record_header(s, pos) {
        Err(e) => r == Err::<(RecordHeader, S::V, int), Error>(e),
        Ok(h) => if !valid_record_size(h.record_size) {
            r == Err::<(RecordHeader, S::V, int), Error>(Error::InvalidShapeRecordSize)
        } else {
            match r {
                Ok((rh, v, n)) => rh == h && record_outcome::<F, S>(
                    classify,
                    s,
                    pos + 8,
                    (2 * h.record_size) as i32,
                    Ok((v, n - 8)),
                ),
                Err(e) => record_outcome::<F, S>(
                    classify,
                    s,
                    pos + 8,
                    (2 * h.record_size) as i32,
                    Err(e),
                ),
            }
        },
    }
}

/// The sum, saturated at the largest `u64`.
pub open spec fn sat_add(a: u64, b: int) -> u64 {
    if a + b > u64::MAX {
        u64::MAX
    } else {
        (a + b) as u64
    }
}

/// Whether `r` may be what reading the records from `pos` as `S` gives, where `cur` is
/// the position (in bytes) that the records read so far account for and `end` the
/// file's length: the shapes read until `cur` reaches `end`, or the first error. A record
/// read with a negative size cannot be accounted for: `InvalidShapeRecordSize`.
pub open spec fn shapes_outcome<F: Fn(Vec<u64>) -> RingType, S: ReadableShape<F>>(
    classify: F,
    s: Seq<u8>,
    pos: int,
    cur: u64,
    end: u64,
    r: Result<Seq<S::V>, Error>,
) -> bool
    decreases u64::MAX - cur,
{
    if cur >= end {
        r == Ok::<Seq<S::V>, Error>(Seq::empty())
    } else {
        exists|one: Result<(RecordHeader, S::V, int), Error>|
            #[trigger] record_at_outcome::<F, S>(classify, s, pos, one) && match one {
                Err(e) => r == Err::<Seq<S::V>, Error>(e),
                Ok((h, v, n)) => if h.record_size < 0 {
                    r == Err::<Seq<S::V>, Error>(Error::InvalidShapeRecordSize)
                } else {
                    match r {
                        Ok(vs) => vs.len() > 0 && vs[0] == v && shapes_outcome::<F, S>(
                            classify,
                            s,
                            pos + n,
                            sat_add(cur, 8 + 2 * h.record_size),
                            end,
                            Ok(vs.drop_first()),
                        ),
                        Err(e) => shapes_outcome::<F, S>(
                            classify,
                            s,
                            pos + n,
                            sat_add(cur, 8 + 2 * h.record_size),
                            end,
                            Err(e),
                        ),
                    }
                },
            }
    }
}

/// Whether reading the record at `pos` may give the shape `v`, moving the reader to
/// `new_pos` and the records' account from `cur` to `new_cur`.
pub open spec fn read_next_ok<F: Fn(Vec<u64>) -> RingType, S: ReadableShape<F>>(
    classify: F,
    s: Seq<u8>,
    pos: u64,
    cur: u64,
    v: S::V,
    new_pos: u64,
    new_cur: u64,
) -> bool {
    exists|h: RecordHeader, n: int|
        #[trigger] record_at_outcome::<F, S>(classify, s, pos as int, Ok((h, v, n))) && new_pos == pos
            + n && h.record_size >= 0 && new_cur == sat_add(cur, 8 + 2 * h.record_size)
}

/// Whether reading the next record at `pos` may end in the error `e`, moving the reader
/// to `new_pos`: reading the record fails and the reader stays; or the record is read but
/// its size is negative, `InvalidShapeRecordSize`, and the reader is past it.
pub open spec fn read_next_err<F: Fn(Vec<u64>) -> RingType, S: ReadableShape<F>>(
    classify: F,
    s: Seq<u8>,
    pos: u64,
    e: Error,
    new_pos: u64,
) -> bool {
    ||| record_at_outcome::<F, S>(classify, s, pos as int, Err(e)) && new_pos == pos
    ||| e == Error::InvalidShapeRecordSize && exists|h: RecordHeader, v: S::V, n: int|
        #[trigger] record_at_outcome::<F, S>(classify, s, pos as int, Ok((h, v, n))) && h.record_size < 0
            && new_pos == pos + n
}

/// Whether reading the record at `pos` may give the shape `v`.
pub open spec fn record_read_ok<F: Fn(Vec<u64>) -> RingType, S: ReadableShape<F>>(
    classify: F,
    s: Seq<u8>,
    pos: int,
    v: S::V,
) -> bool {
    exists|h: RecordHeader, n: int| #[trigger] record_at_outcome::<F, S>(classify, s, pos, Ok((h, v, n)))
}

/// The shapes read so far put before what reading the rest gives.
pub open spec fn prepend_outcome<V>(read: Seq<V>, rest: Result<Seq<V>, Error>) -> Result<Seq<V>, Error> {
    match rest {
        Ok(vs) => Ok(read + vs),
        Err(e) => Err(e),
    }
}

/// What the reader is: the bytes of the `.shp` file, its header, the entries of the
/// index when there is one, and the position of the next read.
pub struct ShapeReaderView {
    pub data: Seq<u8>,
    pub header: Header,
    pub index: Option<Seq<ShapeIndex>>,
    pub pos: u64,
}

/// Reads the shapes of a `.shp` file, and uses its `.shx` index when it has one.
pub struct ShapeReader {
    data: Vec<u8>,
    header: Header,
    shapes_index: Option<Vec<ShapeIndex>>,
    pos: u64,
}

impl View for ShapeReader {
    type V = ShapeReaderView;

    closed spec fn view(&self) -> ShapeReaderView {
        ShapeReaderView {
            data: self.data@,
            header: self.header,
            index: match self.shapes_index {
                Some(v) => Some(v@),
                None => None,
            },
            pos: self.pos,
        }
    }
}

/// Where seeking to a record of this offset (in 16-bit words) puts the reader.
pub open spec fn seek_target(offset: i32) -> u64 {
    (2 * offset) as u64
}

/// Iterates over the records of a reader: `current_pos` is the position (in bytes) that
/// the records read so far account for, starting after the header, and `file_length`
/// the file's length in bytes as its header gives it.
pub struct ShapeIterator {
    pub current_pos: u64,
    pub file_length: u64,
}

impl ShapeIterator {
    /// Reads the next shape as `S`: `None` once the records read account for the whole
    /// file, else the shape or the error met reading it. When reading the record fails,
    /// the reader stays at the record's start (see `read_one_shape_as`); a record read
    /// with a negative size, which cannot be accounted for, is `InvalidShapeRecordSize`.
    pub fn next_shape<F: Fn(Vec<u64>) -> RingType, S: ReadableShape<F>>(
        &mut self,
        reader: &mut ShapeReader,
        classify: &F,
    ) -> (r: Option<Result<S, Error>>)
        requires
            classifier_total(*classify),
        ensures
            old(self).current_pos >= old(self).file_length ==> r is None && *final(self) == *old(self)
                && final(reader)@ == old(reader)@,
            old(self).current_pos < old(self).file_length ==> r is Some,
            final(self).file_length == old(self).file_length,
            final(reader)@.data == old(reader)@.data,
            final(reader)@.header == old(reader)@.header,
            final(reader)@.index == old(reader)@.index,
            r matches Some(Err(e)) ==> read_next_err::<F, S>(
                *classify,
                old(reader)@.data,
                old(reader)@.pos,
                e,
                final(reader)@.pos,
            ) && *final(self) == *old(self),
            r matches Some(Ok(shape)) ==> read_next_ok::<F, S>(
                *classify,
                old(reader)@.data,
                old(reader)@.pos,
                old(self).current_pos,
                shape@,
                final(reader)@.pos,
                final(self).current_pos,
            ),
    {
        if self.current_pos >= self.file_length {
            return None;
        }
        match reader.read_one_shape_as::<F, S>(classify) {
            Err(e) => Some(Err(e)),
            Ok((hdr, shape, n)) => {
                if hdr.record_size < 0 {
                    assert(record_at_outcome::<F, S>(
                        *classify,
                        old(reader)@.data,
                        old(reader)@.pos as int,
                        Ok((hdr, shape@, n as int)),
                    ));
                    return Some(Err(Error::InvalidShapeRecordSize));
                }
                let step: u64 = 8 + 2 * (hdr.record_size as u64);
                self.current_pos = if self.current_pos > u64::MAX - step {
                    u64::MAX
                } else {
                    self.current_pos + step
                };
                proof {
                    assert(record_at_outcome::<F, S>(
                        *classify,
                        old(reader)@.data,
                        old(reader)@.pos as int,
                        Ok((hdr, shape@, n as int)),
                    ));
                    assert(read_next_ok::<F, S>(
                        *classify,
                        old(reader)@.data,
                        old(reader)@.pos,
                        old(self).current_pos,
                        shape@,
                        reader@.pos,
                        self.current_pos,
                    ));
                }
                Some(Ok(shape))
            },
        }
    }
}

impl ShapeReader {
    /// Creates a reader of the `.shp` file's bytes; its header is read now.
    pub fn new(data: Vec<u8>) -> (r: Result<ShapeReader, Error>)
        ensures
            match r {
                Ok(reader) => spec_parse_header(data@) == Ok::<Header, Error>(reader@.header)
                    && reader@.data == data@ && reader@.index is None && reader@.pos == 100,
                Err(e) => spec_parse_header(data@) == Err::<Header, Error>(e),
            },
    {
        match Header::read_from(data.as_slice()) {
            Ok(header) => Ok(ShapeReader { data, header, shapes_index: None, pos: 100 }),
            Err(e) => Err(e),
        }
    }

    /// Creates a reader of the `.shp` file's bytes with its `.shx` index; the index is
    /// read first, then the `.shp` header.
    pub fn with_shx(data: Vec<u8>, shx: Vec<u8>) -> (r: Result<ShapeReader, Error>)
        ensures
            match r {
                Ok(reader) => spec_read_index_file(shx@) matches Ok(index) && spec_parse_header(
                    data@,
                ) == Ok::<Header, Error>(reader@.header) && reader@.data == data@ && reader@.index
                    == Some(index) && reader@.pos == 100,
                Err(e) => spec_read_index_file(shx@) == Err::<Seq<ShapeIndex>, Error>(e) || (
                spec_read_index_file(shx@) is Ok && spec_parse_header(data@) == Err::<
                    Header,
                    Error,
                >(e)),
            },
    {
        let index = match read_index_file(shx.as_slice()) {
            Ok(v) => v,
            Err(e) => {
                return Err(e);
            },
        };
        match Header::read_from(data.as_slice()) {
            Ok(header) => Ok(ShapeReader { data, header, shapes_index: Some(index), pos: 100 }),
            Err(e) => Err(e),
        }
    }

    /// Returns the header of the `.shp` file.
    pub fn header(&self) -> (r: &Header)
        ensures
            *r == self@.header,
    {
        &self.header
    }

    /// Returns the number of shapes the index gives; `MissingIndexFile` without index.
    pub fn shape_count(&self) -> (r: Result<usize, Error>)
        ensures
            match self@.index {
                Some(index) => r == Ok::<usize, Error>(index.len() as usize),
                None => r == Err::<usize, Error>(Error::MissingIndexFile),
            },
    {
        match &self.shapes_index {
            Some(index) => Ok(index.len()),
            None => Err(Error::MissingIndexFile),
        }
    }

    /// Reads the record at the current position as `S`; on success the position moves
    /// past what was read (for a null shape, its record header and its code only). On
    /// error the position stays at the record's start, so that the record can be read
    /// again; the bytes that a failed read went through are not skipped.
    pub fn read_one_shape_as<F: Fn(Vec<u64>) -> RingType, S: ReadableShape<F>>(
        &mut self,
        classify: &F,
    ) -> (r: Result<(RecordHeader, S, usize), Error>)
        requires
            classifier_total(*classify),
        ensures
            record_at_outcome::<F, S>(
                *classify,
                old(self)@.data,
                old(self)@.pos as int,
                match r {
                    Ok((h, shape, n)) => Ok((h, shape@, n as int)),
                    Err(e) => Err(e),
                },
            ),
            final(self)@.data == old(self)@.data,
            final(self)@.header == old(self)@.header,
            final(self)@.index == old(self)@.index,
            r matches Ok((_, _, n)) ==> final(self)@.pos == old(self)@.pos + n,
            r is Err ==> final(self)@.pos == old(self)@.pos,
    {
        let len = self.data.len();
        if self.pos > len as u64 {
            return Err(Error::UnexpectedEof);
        }
        let pos = self.pos as usize;
        let hdr = match RecordHeader::read_from(self.data.as_slice(), pos) {
            Ok(h) => h,
            Err(e) => {
                return Err(e);
            },
        };
        if hdr.record_size < i32::MIN / 2 + 2 || hdr.record_size > i32::MAX / 2 {
            return Err(Error::InvalidShapeRecordSize);
        }
        match read_from::<F, S>(self.data.as_slice(), pos + 8, hdr.record_size * 2, classify) {
            Err(e) => Err(e),
            Ok((shape, n)) => {
                self.pos = self.pos + 8 + n as u64;
                Ok((hdr, shape, n + 8))
            },
        }
    }

    /// Starts iterating over the records from the current position.
    pub fn iter_shapes_as(&self) -> (r: ShapeIterator)
        ensures
            r.current_pos == 100,
            r.file_length == (2 * self@.header.file_length) as u64,
    {
        let file_length = (self.header.file_length as i64) * 2;
        ShapeIterator { current_pos: 100, file_length: file_length as u64 }
    }

    /// Starts iterating over the records as `Shape`s (see `iter_shapes_as`).
    pub fn iter_shapes(&self) -> (r: ShapeIterator)
        ensures
            r.current_pos == 100,
            r.file_length == (2 * self@.header.file_length) as u64,
    {
        self.iter_shapes_as()
    }

    /// Reads all the records from the current position as `S`, until the records read
    /// account for the file's length as its header gives it; stops at the first error.
    pub fn read_as<F: Fn(Vec<u64>) -> RingType, S: ReadableShape<F>>(self, classify: &F) -> (r: Result<
        Vec<S>,
        Error,
    >)
        requires
            classifier_total(*classify),
        ensures
            shapes_outcome::<F, S>(
                *classify,
                self@.data,
                self@.pos as int,
                100,
                (2 * self@.header.file_length) as u64,
                match r {
                    Ok(v) => Ok(shape_seq_view(v@)),
                    Err(e) => Err(e),
                },
            ),
    {
        let ghost start = self@;
        let mut reader = self;
        let mut iter = reader.iter_shapes_as();
        let mut out: Vec<S> = Vec::new();
        let ghost end = iter.file_length;
        loop
            invariant
                classifier_total(*classify),
                start == self@,
                iter.file_length == end,
                end == (2 * start.header.file_length) as u64,
                reader@.data == start.data,
                forall|rest: Result<Seq<S::V>, Error>|
                    #[trigger] shapes_outcome::<F, S>(
                        *classify,
                        start.data,
                        reader@.pos as int,
                        iter.current_pos,
                        end,
                        rest,
                    ) ==> shapes_outcome::<F, S>(
                        *classify,
                        start.data,
                        start.pos as int,
                        100,
                        end,
                        prepend_outcome(shape_seq_view(out@), rest),
                    ),
            decreases u64::MAX - iter.current_pos,
        {
            let ghost before = reader@;
            let ghost it0 = iter;
            match iter.next_shape::<F, S>(&mut reader, classify) {
                None => {
                    proof {
                        let empty = Seq::<S::V>::empty();
                        assert(shapes_outcome::<F, S>(
                            *classify,
                            start.data,
                            before.pos as int,
                            it0.current_pos,
                            end,
                            Ok(empty),
                        ));
                        assert(shape_seq_view(out@) + empty =~= shape_seq_view(out@));
                    }
                    return Ok(out);
                },
                Some(Err(e)) => {
                    proof {
                        if record_at_outcome::<F, S>(*classify, start.data, before.pos as int, Err(e)) {
                            let one = Err::<(RecordHeader, S::V, int), Error>(e);
                            assert(record_at_outcome::<F, S>(*classify, start.data, before.pos as int, one));
                        } else {
                            let (h, v, n) = choose|h: RecordHeader, v: S::V, n: int|
                                #[trigger] record_at_outcome::<F, S>(
                                    *classify,
                                    start.data,
                                    before.pos as int,
                                    Ok((h, v, n)),
                                ) && h.record_size < 0 && reader@.pos == before.pos + n;
                            let one = Ok::<(RecordHeader, S::V, int), Error>((h, v, n));
                            assert(record_at_outcome::<F, S>(*classify, start.data, before.pos as int, one));
                        }
                        assert(shapes_outcome::<F, S>(
                            *classify,
                            start.data,
                            before.pos as int,
                            it0.current_pos,
                            end,
                            Err(e),
                        ));
                    }
                    return Err(e);
                },
                Some(Ok(shape)) => {
                    let ghost v = shape@;
                    let ghost old_out = shape_seq_view(out@);
                    out.push(shape);
                    proof {
                        let (h, n) = choose|h: RecordHeader, n: int|
                            #[trigger] record_at_outcome::<F, S>(
                                *classify,
                                start.data,
                                before.pos as int,
                                Ok((h, v, n)),
                            ) && reader@.pos == before.pos + n && h.record_size >= 0
                                && iter.current_pos == sat_add(it0.current_pos, 8 + 2 * h.record_size);
                        assert(record_at_outcome::<F, S>(
                            *classify,
                            start.data,
                            before.pos as int,
                            Ok((h, v, n)),
                        ));
                        let one = Ok::<(RecordHeader, S::V, int), Error>((h, v, n));
                        assert(shape_seq_view(out@) =~= old_out.push(v));
                        assert forall|rest: Result<Seq<S::V>, Error>|
                            #[trigger] shapes_outcome::<F, S>(
                                *classify,
                                start.data,
                                reader@.pos as int,
                                iter.current_pos,
                                end,
                                rest,
                            ) implies shapes_outcome::<F, S>(
                                *classify,
                                start.data,
                                start.pos as int,
                                100,
                                end,
                                prepend_outcome(shape_seq_view(out@), rest),
                            ) by {
                            let whole = match rest {
                                Ok(vs) => Ok(seq![v] + vs),
                                Err(e) => Err(e),
                            };
                            match rest {
                                Ok(vs) => {
                                    assert((seq![v] + vs).drop_first() =~= vs);
                                },
                                Err(e) => {},
                            }
                            assert(record_at_outcome::<F, S>(*classify, start.data, before.pos as int, one));
                            assert(shapes_outcome::<F, S>(
                                *classify,
                                start.data,
                                before.pos as int,
                                it0.current_pos,
                                end,
                                whole,
                            ));
                            match rest {
                                Ok(vs) => {
                                    assert(old_out + (seq![v] + vs) =~= shape_seq_view(out@) + vs);
                                },
                                Err(e) => {},
                            }
                        }
                    }
                },
            }
        }
    }

    /// Reads all the records from the current position as `Shape`s (see `read_as`).
    pub fn read<F: Fn(Vec<u64>) -> RingType>(self, classify: &F) -> (r: Result<Vec<Shape>, Error>)
        requires
            classifier_total(*classify),
        ensures
            shapes_outcome::<F, Shape>(
                *classify,
                self@.data,
                self@.pos as int,
                100,
                (2 * self@.header.file_length) as u64,
                match r {
                    Ok(v) => Ok(shape_seq_view(v@)),
                    Err(e) => Err(e),
                },
            ),
    {
        self.read_as::<F, Shape>(classify)
    }

    /// Moves to the start of the record `index` of the index file (to the end of the
    /// data when there is no such record); `MissingIndexFile` without index.
    pub fn seek(&mut self, index: usize) -> (r: Result<(), Error>)
        ensures
            final(self)@.data == old(self)@.data,
            final(self)@.header == old(self)@.header,
            final(self)@.index == old(self)@.index,
            match old(self)@.index {
                None => r == Err::<(), Error>(Error::MissingIndexFile) && final(self)@.pos == old(self)@.pos,
                Some(entries) => r is Ok && final(self)@.pos == if index < entries.len() {
                    seek_target(entries[index as int].offset)
                } else {
                    old(self)@.data.len() as u64
                },
            },
    {
        match &self.shapes_index {
            None => Err(Error::MissingIndexFile),
            Some(entries) => {
                if index < entries.len() {
                    let offset = entries[index].offset;
                    self.pos = ((offset as i64) * 2) as u64;
                } else {
                    self.pos = self.data.len() as u64;
                }
                Ok(())
            },
        }
    }

    /// Reads the record `index` of the index file as `S`, then moves back to the first
    /// record: `None` when the index has no such record, `MissingIndexFile` without
    /// index. After an error the reader stays at the record.
    pub fn read_nth_shape_as<F: Fn(Vec<u64>) -> RingType, S: ReadableShape<F>>(
        &mut self,
        index: usize,
        classify: &F,
    ) -> (r: Option<Result<S, Error>>)
        requires
            classifier_total(*classify),
        ensures
            final(self)@.data == old(self)@.data,
            final(self)@.header == old(self)@.header,
            final(self)@.index == old(self)@.index,
            match old(self)@.index {
                None => r == Some(Err::<S, Error>(Error::MissingIndexFile)) && final(self)@.pos
                    == old(self)@.pos,
                Some(entries) => if index >= entries.len() {
                    r is None && final(self)@.pos == old(self)@.pos
                } else {
                    let at = seek_target(entries[index as int].offset) as int;
                    match r {
                        Some(Ok(shape)) => record_read_ok::<F, S>(*classify, old(self)@.data, at, shape@)
                            && final(self)@.pos == 100,
                        Some(Err(e)) => record_at_outcome::<F, S>(
                            *classify,
                            old(self)@.data,
                            at,
                            Err(e),
                        ) && final(self)@.pos == at,
                        None => false,
                    }
                },
            },
    {
        match &self.shapes_index {
            None => {
                return Some(Err(Error::MissingIndexFile));
            },
            Some(entries) => {
                if index >= entries.len() {
                    return None;
                }
            },
        }
        let _ = self.seek(index);
        let ghost at = self@.pos;
        match self.read_one_shape_as::<F, S>(classify) {
            Err(e) => Some(Err(e)),
            Ok((h, shape, n)) => {
                self.pos = 100;
                assert(record_at_outcome::<F, S>(
                    *classify,
                    old(self)@.data,
                    at as int,
                    Ok((h, shape@, n as int)),
                ));
                assert(record_read_ok::<F, S>(*classify, old(self)@.data, at as int, shape@));
                Some(Ok(shape))
            },
        }
    }

    /// Reads the record `index` of the index file as a `Shape` (see
    /// `read_nth_shape_as`).
    pub fn read_nth_shape<F: Fn(Vec<u64>) -> RingType>(&mut self, index: usize, classify: &F) -> (r: Option<
        Result<Shape, Error>,
    >)
        requires
            classifier_total(*classify),
        ensures
            final(self)@.data == old(self)@.data,
            final(self)@.header == old(self)@.header,
            final(self)@.index == old(self)@.index,
            match old(self)@.index {
                None => r == Some(Err::<Shape, Error>(Error::MissingIndexFile)),
                Some(entries) => if index >= entries.len() {
                    r is None
                } else {
                    let at = seek_target(entries[index as int].offset) as int;
                    match r {
                        Some(Ok(shape)) => record_read_ok::<F, Shape>(*classify, old(self)@.data, at, shape@),
                        Some(Err(e)) => record_at_outcome::<F, Shape>(
                            *classify,
                            old(self)@.data,
                            at,
                            Err(e),
                        ),
                        None => false,
                    }
                },
            },
    {
        self.read_nth_shape_as::<F, Shape>(index, classify)
    }
}

/// The views of the shapes.
pub open spec fn shape_seq_view<S: View>(v: Seq<S>) -> Seq<S::V> {
    Seq::new(v.len(), |k: int| v[k]@)
}

} // verus!
