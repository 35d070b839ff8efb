//! Reading and writing the point columns shared by the multipart shapes
//! (polylines, polygons, multipatches) and the multipoints.
//!
//! A multipart record holds a bounding box, the number of parts and of points, the
//! index where each part starts, then all the x/y values, then (for shapes with z) the
//! z range and all the z values, then (when present) the m range and all the measures.
//! Each part's points are read one part after the other: part `k` has
//! `end_k - start_k` points, where `start_k` is its index and `end_k` the next part's
//! index (the number of points for the last part).
use vstd::prelude::*;
use crate::bytes::{
    i32_le_at, i32_le_bytes, lemma_encoding_lengths, push_i32_le, push_u64_le, read_i32_le,
    read_u64_le, u64_le_at, u64_le_bytes,
};
use crate::error::Error;
use crate::float_bits::{clamp_measure, spec_clamp_measure, NO_DATA};
use super::bbox::{flatten_parts, vec_seqs, GenericBBox};
use super::traits::{CoordinatePoint, HasXY};

verus! {

/// The `count` little-endian `i32` values stored from `at`.
pub open spec fn i32s_at(s: Seq<u8>, at: int, count: int) -> Seq<i32> {
    Seq::new(count as nat, |k: int| i32_le_at(s, at + 4 * k))
}

/// Where part `k` ends: the start of the next part, or the number of points.
pub open spec fn part_end(parts: Seq<i32>, num_points: i32, k: int) -> int {
    if k + 1 < parts.len() {
        parts[k + 1] as int
    } else {
        num_points as int
    }
}

/// Whether part `k` announces a negative number of points, or one that overflows.
pub open spec fn bad_part(parts: Seq<i32>, num_points: i32, k: int) -> bool {
    let count = part_end(parts, num_points, k) - parts[k];
    count < 0 || count > i32::MAX
}

/// The first part from `k` on that is bad, or the number of parts.
pub open spec fn first_bad_part(parts: Seq<i32>, num_points: i32, k: int) -> int
    decreases parts.len() - k,
{
    if k >= parts.len() {
        parts.len() as int
    } else if bad_part(parts, num_points, k) {
        k
    } else {
        first_bad_part(parts, num_points, k + 1)
    }
}

/// The number of points read before part `j` (or all of them when `j` is the number of
/// parts), when no part before `j` is bad.
pub open spec fn points_upto(parts: Seq<i32>, num_points: i32, j: int) -> int {
    if parts.len() == 0 {
        0
    } else if j < parts.len() {
        parts[j] - parts[0]
    } else {
        num_points - parts[0]
    }
}

/// The parts cut out of the points read one after the other.
pub open spec fn spec_split<P>(flat: Seq<P>, parts: Seq<i32>, num_points: i32) -> Seq<Seq<P>> {
    Seq::new(
        parts.len(),
        |k: int| flat.subrange(parts[k] - parts[0], part_end(parts, num_points, k) - parts[0]),
    )
}

/// The `count` points whose x/y values are stored from `xy`, whose z values (if the
/// type has them) are stored from `zp`, and whose measures (if present) are stored from
/// `mp`; measures below `NO_DATA` become `NO_DATA`.
pub open spec fn spec_points_at<P: CoordinatePoint>(
    s: Seq<u8>,
    xy: int,
    zp: int,
    m_used: bool,
    mp: int,
    count: int,
) -> Seq<P> {
    Seq::new(
        count as nat,
        |j: int|
            P::spec_from_coords(
                u64_le_at(s, xy + 16 * j),
                u64_le_at(s, xy + 16 * j + 8),
                if P::spec_has_z() {
                    u64_le_at(s, zp + 8 * j)
                } else {
                    0u64
                },
                if m_used {
                    spec_clamp_measure(u64_le_at(s, mp + 8 * j))
                } else {
                    NO_DATA
                },
            ),
    )
}

/// Whether a size computed by the format matches a record size, as the comparison of
/// the size converted to `i32` does.
pub open spec fn size_matches(size: int, record_size: i32) -> bool {
    size % 0x1_0000_0000 == (if record_size < 0 {
        record_size + 0x1_0000_0000
    } else {
        record_size as int
    })
}

/// Reads `count` little-endian `i32` values from `at`.
pub fn read_i32s(data: &[u8], at: usize, count: usize) -> (r: Vec<i32>)
    requires
        at + 4 * count <= data@.len(),
    ensures
        r@ == i32s_at(data@, at as int, count as int),
{
    let mut v: Vec<i32> = Vec::new();
    let len = data.len();
    let mut k: usize = 0;
    while k < count
        invariant
            0 <= k <= count,
            len == data@.len(),
            at + 4 * count <= data@.len(),
            v@ == i32s_at(data@, at as int, k as int),
        decreases count - k,
    {
        let x = read_i32_le(data, at + 4 * k);
        v.push(x);
        proof {
            assert(v@ =~= i32s_at(data@, at as int, k + 1));
        }
        k = k + 1;
    }
    v
}

/// Reads `count` points: x/y from `xy`, z from `zp` (for types with z), measures from
/// `mp` when `m_used`.
pub fn read_points<P: CoordinatePoint>(
    data: &[u8],
    xy: usize,
    zp: usize,
    m_used: bool,
    mp: usize,
    count: usize,
) -> (r: Vec<P>)
    requires
        xy + 16 * count <= data@.len(),
        P::spec_has_z() ==> zp + 8 * count <= data@.len(),
        m_used ==> mp + 8 * count <= data@.len(),
    ensures
        r@ == spec_points_at::<P>(data@, xy as int, zp as int, m_used, mp as int, count as int),
{
    let mut v: Vec<P> = Vec::new();
    let has_z = P::has_z();
    let len = data.len();
    let mut j: usize = 0;
    while j < count
        invariant
            0 <= j <= count,
            len == data@.len(),
            has_z == P::spec_has_z(),
            xy + 16 * count <= data@.len(),
            P::spec_has_z() ==> zp + 8 * count <= data@.len(),
            m_used ==> mp + 8 * count <= data@.len(),
            v@ == spec_points_at::<P>(data@, xy as int, zp as int, m_used, mp as int, j as int),
        decreases count - j,
    {
        let x = read_u64_le(data, xy + 16 * j);
        let y = read_u64_le(data, xy + 16 * j + 8);
        let z = if has_z {
            read_u64_le(data, zp + 8 * j)
        } else {
            0u64
        };
        let m = if m_used {
            clamp_measure(read_u64_le(data, mp + 8 * j))
        } else {
            NO_DATA
        };
        let p = P::from_coords(x, y, z, m);
        v.push(p);
        proof {
            assert(v@ =~= spec_points_at::<P>(data@, xy as int, zp as int, m_used, mp as int, j + 1));
        }
        j = j + 1;
    }
    v
}

/// The index of the first bad part, or the number of parts.
pub fn find_first_bad_part(parts: &Vec<i32>, num_points: i32) -> (r: usize)
    ensures
        r == first_bad_part(parts@, num_points, 0),
{
    let n = parts.len();
    let mut k: usize = 0;
    while k < n
        invariant
            0 <= k <= n,
            n == parts@.len(),
            first_bad_part(parts@, num_points, k as int) == first_bad_part(parts@, num_points, 0),
        decreases n - k,
    {
        let end: i64 = if k + 1 < n {
            parts[k + 1] as i64
        } else {
            num_points as i64
        };
        let count: i64 = end - parts[k] as i64;
        if count < 0 || count > i32::MAX as i64 {
            return k;
        }
        k = k + 1;
    }
    k
}

/// When no part before `j` is bad, the part starts and ends lie between the first
/// start and `points_upto(j)` and follow each other.
pub proof fn lemma_parts_ordered(parts: Seq<i32>, num_points: i32, j: int, k: int)
    requires
        0 <= j <= parts.len(),
        forall|i: int| 0 <= i < j ==> !bad_part(parts, num_points, i),
        0 <= k < j,
    ensures
        0 <= parts[k] - parts[0] <= part_end(parts, num_points, k) - parts[0] <= points_upto(
            parts,
            num_points,
            j,
        ),
    decreases k,
{
    assert(!bad_part(parts, num_points, k));
    if k > 0 {
        lemma_parts_ordered(parts, num_points, j, k - 1);
        assert(!bad_part(parts, num_points, k - 1));
        assert(part_end(parts, num_points, k - 1) == parts[k]);
    }
    lemma_part_end_below(parts, num_points, j, k);
}

/// The end of a part before `j` is at most `points_upto(j)`.
proof fn lemma_part_end_below(parts: Seq<i32>, num_points: i32, j: int, k: int)
    requires
        0 <= j <= parts.len(),
        forall|i: int| 0 <= i < j ==> !bad_part(parts, num_points, i),
        0 <= k < j,
    ensures
        part_end(parts, num_points, k) - parts[0] <= points_upto(parts, num_points, j),
    decreases j - k,
{
    if k + 1 < j {
        lemma_part_end_below(parts, num_points, j, k + 1);
        assert(!bad_part(parts, num_points, k + 1));
    }
}

/// The first bad part from `k` on has no bad part before it (from `k`).
pub proof fn lemma_first_bad_part(parts: Seq<i32>, num_points: i32, k: int)
    requires
        0 <= k <= parts.len(),
    ensures
        k <= first_bad_part(parts, num_points, k) <= parts.len(),
        forall|i: int|
            k <= i < first_bad_part(parts, num_points, k) ==> !bad_part(parts, num_points, i),
        first_bad_part(parts, num_points, k) < parts.len() ==> bad_part(
            parts,
            num_points,
            first_bad_part(parts, num_points, k),
        ),
    decreases parts.len() - k,
{
    if k < parts.len() && !bad_part(parts, num_points, k) {
        lemma_first_bad_part(parts, num_points, k + 1);
    }
}

/// Cuts the points read one after the other into the parts.
pub fn split_parts<P: Copy>(flat: &Vec<P>, parts: &Vec<i32>, num_points: i32) -> (r: Vec<Vec<P>>)
    requires
        first_bad_part(parts@, num_points, 0) == parts@.len(),
        flat@.len() == points_upto(parts@, num_points, parts@.len() as int),
    ensures
        r@.len() == parts@.len(),
        forall|k: int| 0 <= k < parts@.len() ==> (#[trigger] r@[k])@ == spec_split(flat@, parts@, num_points)[k],
{
    proof {
        lemma_first_bad_part(parts@, num_points, 0);
    }
    let np = parts.len();
    let mut out: Vec<Vec<P>> = Vec::new();
    let mut k: usize = 0;
    while k < np
        invariant
            0 <= k <= np,
            np == parts@.len(),
            forall|i: int| 0 <= i < np ==> !bad_part(parts@, num_points, i),
            flat@.len() == points_upto(parts@, num_points, np as int),
            out@.len() == k,
            forall|i: int| 0 <= i < k ==> (#[trigger] out@[i])@ == spec_split(flat@, parts@, num_points)[i],
        decreases np - k,
    {
        proof {
            lemma_parts_ordered(parts@, num_points, np as int, k as int);
        }
        let lo: usize = (parts[k] as i64 - parts[0] as i64) as usize;
        let end: i64 = if k + 1 < np {
            parts[k + 1] as i64
        } else {
            num_points as i64
        };
        let hi: usize = (end - parts[0] as i64) as usize;
        let mut part: Vec<P> = Vec::new();
        let mut j: usize = lo;
        while j < hi
            invariant
                lo <= j <= hi,
                hi <= flat@.len(),
                part@ == flat@.subrange(lo as int, j as int),
            decreases hi - j,
        {
            part.push(flat[j]);
            proof {
                assert(part@ =~= flat@.subrange(lo as int, j + 1));
            }
            j = j + 1;
        }
        out.push(part);
        k = k + 1;
    }
    out
}

} // verus!

verus! {

/// Whether a patch type code is one of the six defined by the format.
pub open spec fn valid_patch_code(code: i32) -> bool {
    0 <= code <= 5
}

/// The first error met when reading the patch types from `k` on: the data ending, or
/// an invalid code.
pub open spec fn first_patch_error(s: Seq<u8>, t0: int, num_parts: int, k: int) -> Option<Error>
    decreases num_parts - k,
{
    if k >= num_parts {
        None
    } else if t0 + 4 * k + 4 > s.len() {
        Some(Error::UnexpectedEof)
    } else if !valid_patch_code(i32_le_at(s, t0 + 4 * k)) {
        Some(Error::InvalidPatchType(i32_le_at(s, t0 + 4 * k)))
    } else {
        first_patch_error(s, t0, num_parts, k + 1)
    }
}

/// The size a multipart record announces without measures.
pub open spec fn multipart_base_size(num_parts: int, num_points: int, with_patches: bool, has_z: bool) -> int {
    40 + 4 * num_parts + (if with_patches {
        4 * num_parts
    } else {
        0
    }) + 16 * num_points + (if has_z {
        16 + 8 * num_points
    } else {
        0
    })
}

/// What a multipart record holds: its bounding box, its parts, and (for multipatches)
/// the code of each part's type.
pub struct MultipartView<P> {
    pub bbox: GenericBBox<P>,
    pub parts: Seq<Seq<P>>,
    pub patch_codes: Seq<i32>,
}

/// The bounding box stored in a multipart or multipoint record: x/y at `pos`, the z
/// range at `z0` (for types with z), the m range at `m0` when measures are present.
pub open spec fn spec_record_bbox<P: CoordinatePoint>(
    s: Seq<u8>,
    pos: int,
    z0: int,
    m_used: bool,
    m0: int,
) -> GenericBBox<P> {
    GenericBBox {
        min: P::spec_from_coords(
            u64_le_at(s, pos),
            u64_le_at(s, pos + 8),
            if P::spec_has_z() {
                u64_le_at(s, z0)
            } else {
                0u64
            },
            if m_used {
                u64_le_at(s, m0)
            } else {
                NO_DATA
            },
        ),
        max: P::spec_from_coords(
            u64_le_at(s, pos + 16),
            u64_le_at(s, pos + 24),
            if P::spec_has_z() {
                u64_le_at(s, z0 + 8)
            } else {
                0u64
            },
            if m_used {
                u64_le_at(s, m0 + 8)
            } else {
                NO_DATA
            },
        ),
    }
}

/// What reading the points section of a multipart record gives, once the parts and
/// whether measures are present are known: the x/y values start at `x0`.
pub open spec fn spec_multipart_body<P: CoordinatePoint>(
    s: Seq<u8>,
    pos: int,
    x0: int,
    parts: Seq<i32>,
    n: i32,
    m_used: bool,
) -> Result<(GenericBBox<P>, Seq<Seq<P>>, int), Error> {
    let np = parts.len() as int;
    let j = first_bad_part(parts, n, 0);
    let t = points_upto(parts, n, j);
    if x0 + 16 * t > s.len() {
        Err(Error::UnexpectedEof)
    } else if j < np {
        Err(Error::MalformedShape)
    } else {
        let z0 = x0 + 16 * t;
        let m0 = if P::spec_has_z() {
            z0 + 16 + 8 * t
        } else {
            z0
        };
        let end = if m_used {
            m0 + 16 + 8 * t
        } else {
            m0
        };
        if end > s.len() {
            Err(Error::UnexpectedEof)
        } else {
            let zp = if P::spec_has_z() {
                z0 + 16
            } else {
                0
            };
            let mp = if m_used {
                m0 + 16
            } else {
                0
            };
            let flat = spec_points_at::<P>(s, x0, zp, m_used, mp, t);
            Ok((spec_record_bbox::<P>(s, pos, z0, m_used, m0), spec_split(flat, parts, n), end))
        }
    }
}

/// Whether a multipart record of `np` parts and `n` points matches `record_size`, and
/// if so whether it holds measures.
pub open spec fn spec_multipart_sizes<P: CoordinatePoint>(
    np: int,
    n: int,
    record_size: i32,
    with_patches: bool,
) -> Option<bool> {
    let base = multipart_base_size(np, n, with_patches, P::spec_has_z());
    let with_m = base + 16 + 8 * n;
    if size_matches(base, record_size) || (P::spec_has_m() && size_matches(with_m, record_size)) {
        Some(P::spec_has_m() && size_matches(with_m, record_size))
    } else {
        None
    }
}

/// What reading a multipart record content of `record_size` bytes at `pos` gives: the
/// content and the number of bytes consumed, or the error met first.
///
/// A negative number of parts or points, or a part announcing a negative number of
/// points, is reported as `MalformedShape`.
pub open spec fn spec_read_multipart<P: CoordinatePoint>(
    s: Seq<u8>,
    pos: int,
    record_size: i32,
    with_patches: bool,
) -> Result<(MultipartView<P>, int), Error> {
    if pos + 40 > s.len() {
        Err(Error::UnexpectedEof)
    } else {
        let np = i32_le_at(s, pos + 32) as int;
        let n = i32_le_at(s, pos + 36);
        if np < 0 {
            Err(Error::MalformedShape)
        } else if pos + 40 + 4 * np > s.len() {
            Err(Error::UnexpectedEof)
        } else if n < 0 {
            Err(Error::MalformedShape)
        } else {
            match spec_multipart_sizes::<P>(np, n as int, record_size, with_patches) {
                None => Err(Error::InvalidShapeRecordSize),
                Some(m_used) => {
                    let t0 = pos + 40 + 4 * np;
                    let perr = if with_patches {
                        first_patch_error(s, t0, np, 0)
                    } else {
                        None
                    };
                    if perr is Some {
                        Err(perr->0)
                    } else {
                        let x0 = t0 + (if with_patches {
                            4 * np
                        } else {
                            0
                        });
                        match spec_multipart_body::<P>(s, pos, x0, i32s_at(s, pos + 40, np), n, m_used) {
                            Err(e) => Err(e),
                            Ok((bbox, parts, end)) => Ok(
                                (
                                    MultipartView {
                                        bbox,
                                        parts,
                                        patch_codes: if with_patches {
                                            i32s_at(s, t0, np)
                                        } else {
                                            Seq::empty()
                                        },
                                    },
                                    end - pos,
                                ),
                            ),
                        }
                    }
                },
            }
        }
    }
}

/// `size_matches` computed on a size that fits in 64 bits.
pub fn size_matches_exec(size: u64, record_size: i32) -> (r: bool)
    ensures
        r == size_matches(size as int, record_size),
{
    let rs: u64 = if record_size < 0 {
        (record_size as i64 + 0x1_0000_0000i64) as u64
    } else {
        record_size as u64
    };
    size % 0x1_0000_0000u64 == rs
}

/// Reads the bounding box of a record (see `spec_record_bbox`).
pub fn read_record_bbox<P: CoordinatePoint>(
    data: &[u8],
    pos: usize,
    z0: usize,
    m_used: bool,
    m0: usize,
) -> (r: GenericBBox<P>)
    requires
        pos + 32 <= data@.len(),
        P::spec_has_z() ==> z0 + 16 <= data@.len(),
        m_used ==> m0 + 16 <= data@.len(),
    ensures
        r == spec_record_bbox::<P>(data@, pos as int, z0 as int, m_used, m0 as int),
{
    let _len = data.len();
    let (zmin, zmax) = if P::has_z() {
        (read_u64_le(data, z0), read_u64_le(data, z0 + 8))
    } else {
        (0u64, 0u64)
    };
    let (mmin, mmax) = if m_used {
        (read_u64_le(data, m0), read_u64_le(data, m0 + 8))
    } else {
        (NO_DATA, NO_DATA)
    };
    let min = P::from_coords(read_u64_le(data, pos), read_u64_le(data, pos + 8), zmin, mmin);
    let max = P::from_coords(read_u64_le(data, pos + 16), read_u64_le(data, pos + 24), zmax, mmax);
    GenericBBox { min, max }
}

/// Checks the size announced by a multipart record (see `spec_multipart_sizes`).
pub fn multipart_sizes<P: CoordinatePoint>(np: i32, n: i32, record_size: i32, with_patches: bool) -> (r: Option<bool>)
    requires
        np >= 0,
        n >= 0,
    ensures
        r == spec_multipart_sizes::<P>(np as int, n as int, record_size, with_patches),
{
    let npu = np as u64;
    let nu = n as u64;
    let base: u64 = 40 + 4 * npu + (if with_patches { 4 * npu } else { 0 }) + 16 * nu + (if P::has_z() {
        16 + 8 * nu
    } else {
        0
    });
    let with_m: u64 = base + 16 + 8 * nu;
    let base_ok = size_matches_exec(base, record_size);
    let m_ok = P::has_m() && size_matches_exec(with_m, record_size);
    if base_ok || m_ok {
        Some(m_ok)
    } else {
        None
    }
}

/// Reads the `np` patch type codes from `t0` (see `first_patch_error`).
pub fn read_patch_codes(data: &[u8], t0: usize, np: usize) -> (r: Result<Vec<i32>, Error>)
    requires
        t0 <= data@.len(),
    ensures
        match r {
            Ok(codes) => first_patch_error(data@, t0 as int, np as int, 0) is None
                && codes@ == i32s_at(data@, t0 as int, np as int),
            Err(e) => first_patch_error(data@, t0 as int, np as int, 0) == Some(e),
        },
{
    let len = data.len();
    let mut codes: Vec<i32> = Vec::new();
    let mut k: usize = 0;
    while k < np
        invariant
            0 <= k <= np,
            len == data@.len(),
            t0 <= len,
            codes@ == i32s_at(data@, t0 as int, k as int),
            first_patch_error(data@, t0 as int, np as int, k as int) == first_patch_error(
                data@,
                t0 as int,
                np as int,
                0,
            ),
        decreases np - k,
    {
        if (len - t0) / 4 < k + 1 {
            return Err(Error::UnexpectedEof);
        }
        let code = read_i32_le(data, t0 + 4 * k);
        if code < 0 || code > 5 {
            return Err(Error::InvalidPatchType(code));
        }
        codes.push(code);
        proof {
            assert(codes@ =~= i32s_at(data@, t0 as int, k + 1));
        }
        k = k + 1;
    }
    Ok(codes)
}

/// Reads the points section of a multipart record (see `spec_multipart_body`).
pub fn read_multipart_body<P: CoordinatePoint>(
    data: &[u8],
    pos: usize,
    x0: u64,
    parts: &Vec<i32>,
    n: i32,
    m_used: bool,
) -> (r: Result<(GenericBBox<P>, Vec<Vec<P>>, usize), Error>)
    requires
        pos + 40 <= x0,
        x0 <= data@.len(),
        m_used ==> P::spec_has_m(),
    ensures
        match r {
            Ok((bbox, out, end)) => {
                &&& spec_multipart_body::<P>(data@, pos as int, x0 as int, parts@, n, m_used) matches Ok((b, ps, e))
                &&& b == bbox
                &&& e == end
                &&& x0 <= end <= data@.len()
                &&& out@.len() == ps.len()
                &&& forall|k: int| 0 <= k < out@.len() ==> (#[trigger] out@[k])@ == ps[k]
            },
            Err(e) => spec_multipart_body::<P>(data@, pos as int, x0 as int, parts@, n, m_used) == Err::<(GenericBBox<P>, Seq<Seq<P>>, int), Error>(e),
        },
{
    let len = data.len();
    let np = parts.len();
    let j = find_first_bad_part(parts, n);
    proof {
        lemma_first_bad_part(parts@, n, 0);
        if j > 0 {
            lemma_parts_ordered(parts@, n, j as int, 0);
            lemma_parts_ordered(parts@, n, j as int, j - 1);
        }
    }
    let t: u64 = if np == 0 {
        0
    } else if j < np {
        (parts[j] as i64 - parts[0] as i64) as u64
    } else {
        (n as i64 - parts[0] as i64) as u64
    };
    if ((len as u64) - x0) / 16 < t {
        return Err(Error::UnexpectedEof);
    }
    if j < np {
        return Err(Error::MalformedShape);
    }
    let has_z = P::has_z();
    let z0: u64 = x0 + 16 * t;
    let zsize: u64 = if has_z { 16 + 8 * t } else { 0 };
    let msize: u64 = if m_used { 16 + 8 * t } else { 0 };
    if (len as u64) - z0 < zsize + msize {
        return Err(Error::UnexpectedEof);
    }
    let m0: u64 = z0 + zsize;
    let end: u64 = m0 + msize;
    let zp: usize = if has_z { (z0 + 16) as usize } else { 0 };
    let mp: usize = if m_used { (m0 + 16) as usize } else { 0 };
    let flat: Vec<P> = read_points(data, x0 as usize, zp, m_used, mp, t as usize);
    let bbox = read_record_bbox::<P>(data, pos, z0 as usize, m_used, m0 as usize);
    let out = split_parts(&flat, parts, n);
    Ok((bbox, out, end as usize))
}

/// Reads a multipart record content at `pos` (see `spec_read_multipart`): the bounding
/// box, the parts, the patch type codes and the number of bytes consumed.
pub fn read_multipart<P: CoordinatePoint>(
    data: &[u8],
    pos: usize,
    record_size: i32,
    with_patches: bool,
) -> (r: Result<(GenericBBox<P>, Vec<Vec<P>>, Vec<i32>, usize), Error>)
    requires
        pos <= data@.len(),
    ensures
        match r {
            Ok((bbox, parts, codes, used)) => {
                &&& spec_read_multipart::<P>(data@, pos as int, record_size, with_patches) matches Ok((v, u))
                &&& v.bbox == bbox
                &&& v.patch_codes == codes@
                &&& u == used
                &&& parts@.len() == v.parts.len()
                &&& forall|k: int| 0 <= k < parts@.len() ==> (#[trigger] parts@[k])@ == v.parts[k]
            },
            Err(e) => spec_read_multipart::<P>(data@, pos as int, record_size, with_patches) == Err::<(MultipartView<P>, int), Error>(e),
        },
{
    let len = data.len();
    if len - pos < 40 {
        return Err(Error::UnexpectedEof);
    }
    let np = read_i32_le(data, pos + 32);
    let n = read_i32_le(data, pos + 36);
    if np < 0 {
        return Err(Error::MalformedShape);
    }
    if ((len - pos) as u64) < 40 + 4 * (np as u64) {
        return Err(Error::UnexpectedEof);
    }
    if n < 0 {
        return Err(Error::MalformedShape);
    }
    let parts = read_i32s(data, pos + 40, np as usize);
    let m_used = match multipart_sizes::<P>(np, n, record_size, with_patches) {
        None => {
            return Err(Error::InvalidShapeRecordSize);
        },
        Some(m) => m,
    };
    let t0: usize = pos + 40 + 4 * (np as usize);
    let codes: Vec<i32> = if with_patches {
        match read_patch_codes(data, t0, np as usize) {
            Ok(c) => c,
            Err(e) => {
                return Err(e);
            },
        }
    } else {
        Vec::new()
    };
    proof {
        if with_patches {
            lemma_patch_codes_fit(data@, t0 as int, np as int, 0);
        }
    }
    let x0: u64 = (t0 as u64) + (if with_patches { 4 * (np as u64) } else { 0 });
    proof {
        if with_patches {
            assert(codes@ =~= i32s_at(data@, t0 as int, np as int));
        } else {
            assert(codes@ =~= Seq::<i32>::empty());
        }
    }
    match read_multipart_body::<P>(data, pos, x0, &parts, n, m_used) {
        Err(e) => Err(e),
        Ok((bbox, out, end)) => Ok((bbox, out, codes, end - pos)),
    }
}

/// When no patch type error is met, every code from `k` on is a valid one.
pub proof fn lemma_patch_codes_valid(s: Seq<u8>, t0: int, np: int, k: int)
    requires
        0 <= k <= np,
        first_patch_error(s, t0, np, k) is None,
    ensures
        forall|j: int| k <= j < np ==> valid_patch_code(#[trigger] i32_le_at(s, t0 + 4 * j)),
    decreases np - k,
{
    if k < np {
        lemma_patch_codes_valid(s, t0, np, k + 1);
    }
}

/// When no patch type error is met, all the codes lie within the data.
proof fn lemma_patch_codes_fit(s: Seq<u8>, t0: int, np: int, k: int)
    requires
        0 <= k <= np,
        first_patch_error(s, t0, np, k) is None,
    ensures
        t0 + 4 * np <= s.len() || k == np,
    decreases np - k,
{
    if k < np {
        lemma_patch_codes_fit(s, t0, np, k + 1);
    }
}

} // verus!

verus! {

/// What reading a multipoint record content of `record_size` bytes at `pos` gives: the
/// bounding box, the points and the number of bytes consumed, or the error met first.
/// A negative number of points is reported as `MalformedShape`.
pub open spec fn spec_read_multipoint<P: CoordinatePoint>(
    s: Seq<u8>,
    pos: int,
    record_size: i32,
) -> Result<(GenericBBox<P>, Seq<P>, int), Error> {
    if pos + 36 > s.len() {
        Err(Error::UnexpectedEof)
    } else {
        let n = i32_le_at(s, pos + 32) as int;
        if n < 0 {
            Err(Error::MalformedShape)
        } else {
            let base = 36 + 16 * n + (if P::spec_has_z() {
                16 + 8 * n
            } else {
                0
            });
            let with_m = base + 16 + 8 * n;
            if !(size_matches(base, record_size) || (P::spec_has_m() && size_matches(
                with_m,
                record_size,
            ))) {
                Err(Error::InvalidShapeRecordSize)
            } else {
                let m_used = P::spec_has_m() && size_matches(with_m, record_size);
                let x0 = pos + 36;
                let z0 = x0 + 16 * n;
                let m0 = if P::spec_has_z() {
                    z0 + 16 + 8 * n
                } else {
                    z0
                };
                let end = if m_used {
                    m0 + 16 + 8 * n
                } else {
                    m0
                };
                if end > s.len() {
                    Err(Error::UnexpectedEof)
                } else {
                    let zp = if P::spec_has_z() {
                        z0 + 16
                    } else {
                        0
                    };
                    let mp = if m_used {
                        m0 + 16
                    } else {
                        0
                    };
                    Ok(
                        (
                            spec_record_bbox::<P>(s, pos, z0, m_used, m0),
                            spec_points_at::<P>(s, x0, zp, m_used, mp, n),
                            end - pos,
                        ),
                    )
                }
            }
        }
    }
}

/// Reads a multipoint record content at `pos` (see `spec_read_multipoint`).
pub fn read_multipoint<P: CoordinatePoint>(data: &[u8], pos: usize, record_size: i32) -> (r: Result<
    (GenericBBox<P>, Vec<P>, usize),
    Error,
>)
    requires
        pos <= data@.len(),
    ensures
        match r {
            Ok((bbox, points, used)) => spec_read_multipoint::<P>(data@, pos as int, record_size)
                == Ok::<(GenericBBox<P>, Seq<P>, int), Error>((bbox, points@, used as int)),
            Err(e) => spec_read_multipoint::<P>(data@, pos as int, record_size) == Err::<
                (GenericBBox<P>, Seq<P>, int),
                Error,
            >(e),
        },
{
    let len = data.len();
    if len - pos < 36 {
        return Err(Error::UnexpectedEof);
    }
    let n = read_i32_le(data, pos + 32);
    if n < 0 {
        return Err(Error::MalformedShape);
    }
    let has_z = P::has_z();
    let nu = n as u64;
    let zsize: u64 = if has_z { 16 + 8 * nu } else { 0 };
    let base: u64 = 36 + 16 * nu + zsize;
    let with_m: u64 = base + 16 + 8 * nu;
    let base_ok = size_matches_exec(base, record_size);
    let m_ok = P::has_m() && size_matches_exec(with_m, record_size);
    if !base_ok && !m_ok {
        return Err(Error::InvalidShapeRecordSize);
    }
    let m_used = m_ok;
    let msize: u64 = if m_used { 16 + 8 * nu } else { 0 };
    if (((len - pos) as u64) < 36 + 16 * nu + zsize + msize) {
        return Err(Error::UnexpectedEof);
    }
    let x0: usize = pos + 36;
    let z0: usize = x0 + 16 * (n as usize);
    let m0: usize = z0 + zsize as usize;
    let end: usize = m0 + msize as usize;
    let zp: usize = if has_z { z0 + 16 } else { 0 };
    let mp: usize = if m_used { m0 + 16 } else { 0 };
    let points: Vec<P> = read_points(data, x0, zp, m_used, mp, n as usize);
    let bbox = read_record_bbox::<P>(data, pos, z0, m_used, m0);
    Ok((bbox, points, end - pos))
}

} // verus!

verus! {

/// The x/y values of the points, one point after the other.
pub open spec fn xy_bytes<P: HasXY>(pts: Seq<P>) -> Seq<u8>
    decreases pts.len(),
{
    if pts.len() == 0 {
        Seq::empty()
    } else {
        xy_bytes(pts.drop_last()) + u64_le_bytes(pts.last().spec_x()) + u64_le_bytes(
            pts.last().spec_y(),
        )
    }
}

/// The z values of the points.
pub open spec fn z_bytes<P: CoordinatePoint>(pts: Seq<P>) -> Seq<u8>
    decreases pts.len(),
{
    if pts.len() == 0 {
        Seq::empty()
    } else {
        z_bytes(pts.drop_last()) + u64_le_bytes(pts.last().spec_z_or_zero())
    }
}

/// The measures of the points.
pub open spec fn m_bytes<P: CoordinatePoint>(pts: Seq<P>) -> Seq<u8>
    decreases pts.len(),
{
    if pts.len() == 0 {
        Seq::empty()
    } else {
        m_bytes(pts.drop_last()) + u64_le_bytes(pts.last().spec_m_or_no_data())
    }
}

/// A sequence of little-endian `i32` values.
pub open spec fn i32s_bytes(v: Seq<i32>) -> Seq<u8>
    decreases v.len(),
{
    if v.len() == 0 {
        Seq::empty()
    } else {
        i32s_bytes(v.drop_last()) + i32_le_bytes(v.last())
    }
}

/// The x/y range of a bounding box as stored in a record.
pub open spec fn bbox_xy_bytes<P: HasXY>(b: GenericBBox<P>) -> Seq<u8> {
    u64_le_bytes(b.min.spec_x()) + u64_le_bytes(b.min.spec_y()) + u64_le_bytes(b.max.spec_x())
        + u64_le_bytes(b.max.spec_y())
}

/// The point columns of a record: all x/y values, then (for types with z) the z range
/// and the z values, then (for types with measures) the m range and the measures.
pub open spec fn columns_bytes<P: CoordinatePoint>(b: GenericBBox<P>, pts: Seq<P>) -> Seq<u8> {
    xy_bytes(pts) + (if P::spec_has_z() {
        u64_le_bytes(b.min.spec_z_or_zero()) + u64_le_bytes(b.max.spec_z_or_zero()) + z_bytes(pts)
    } else {
        Seq::empty()
    }) + (if P::spec_has_m() {
        u64_le_bytes(b.min.spec_m_or_no_data()) + u64_le_bytes(b.max.spec_m_or_no_data())
            + m_bytes(pts)
    } else {
        Seq::empty()
    })
}

/// The number of bytes of the point columns of `n` points.
pub open spec fn columns_len<P: CoordinatePoint>(n: int) -> int {
    16 * n + (if P::spec_has_z() {
        16 + 8 * n
    } else {
        0
    }) + (if P::spec_has_m() {
        16 + 8 * n
    } else {
        0
    })
}

/// The index where each part starts when the parts are stored one after the other.
pub open spec fn part_starts<P>(parts: Seq<Seq<P>>) -> Seq<i32> {
    Seq::new(parts.len(), |k: int| flatten_parts(parts.take(k)).len() as i32)
}

pub proof fn lemma_xy_bytes_len<P: HasXY>(pts: Seq<P>)
    ensures
        xy_bytes(pts).len() == 16 * pts.len(),
    decreases pts.len(),
{
    if pts.len() > 0 {
        lemma_xy_bytes_len(pts.drop_last());
        lemma_encoding_lengths(0, pts.last().spec_x());
        lemma_encoding_lengths(0, pts.last().spec_y());
    }
}

pub proof fn lemma_zm_bytes_len<P: CoordinatePoint>(pts: Seq<P>)
    ensures
        z_bytes(pts).len() == 8 * pts.len(),
        m_bytes(pts).len() == 8 * pts.len(),
    decreases pts.len(),
{
    if pts.len() > 0 {
        lemma_zm_bytes_len(pts.drop_last());
        lemma_encoding_lengths(0, pts.last().spec_z_or_zero());
        lemma_encoding_lengths(0, pts.last().spec_m_or_no_data());
    }
}

pub proof fn lemma_i32s_bytes_len(v: Seq<i32>)
    ensures
        i32s_bytes(v).len() == 4 * v.len(),
    decreases v.len(),
{
    if v.len() > 0 {
        lemma_i32s_bytes_len(v.drop_last());
        lemma_encoding_lengths(v.last(), 0);
    }
}

pub proof fn lemma_columns_len<P: CoordinatePoint>(b: GenericBBox<P>, pts: Seq<P>)
    ensures
        columns_bytes(b, pts).len() == columns_len::<P>(pts.len() as int),
{
    lemma_xy_bytes_len(pts);
    lemma_zm_bytes_len(pts);
    lemma_encoding_lengths(0, b.min.spec_z_or_zero());
    lemma_encoding_lengths(0, b.max.spec_z_or_zero());
    lemma_encoding_lengths(0, b.min.spec_m_or_no_data());
    lemma_encoding_lengths(0, b.max.spec_m_or_no_data());
}

/// Appends the x/y values of the points.
pub fn write_xy<P: HasXY>(pts: &[P], dest: &mut Vec<u8>)
    ensures
        final(dest)@ == old(dest)@ + xy_bytes(pts@),
{
    let n = pts.len();
    let mut i: usize = 0;
    while i < n
        invariant
            0 <= i <= n,
            n == pts@.len(),
            dest@ == old(dest)@ + xy_bytes(pts@.take(i as int)),
        decreases n - i,
    {
        push_u64_le(dest, pts[i].x());
        push_u64_le(dest, pts[i].y());
        proof {
            assert(pts@.take(i + 1).drop_last() == pts@.take(i as int));
            assert(dest@ =~= old(dest)@ + xy_bytes(pts@.take(i + 1)));
        }
        i = i + 1;
    }
    assert(pts@.take(n as int) == pts@);
}

/// Appends the z values of the points.
pub fn write_zs<P: CoordinatePoint>(pts: &[P], dest: &mut Vec<u8>)
    ensures
        final(dest)@ == old(dest)@ + z_bytes(pts@),
{
    let n = pts.len();
    let mut i: usize = 0;
    while i < n
        invariant
            0 <= i <= n,
            n == pts@.len(),
            dest@ == old(dest)@ + z_bytes(pts@.take(i as int)),
        decreases n - i,
    {
        push_u64_le(dest, pts[i].z_or_zero());
        proof {
            assert(pts@.take(i + 1).drop_last() == pts@.take(i as int));
            assert(dest@ =~= old(dest)@ + z_bytes(pts@.take(i + 1)));
        }
        i = i + 1;
    }
    assert(pts@.take(n as int) == pts@);
}

/// Appends the measures of the points.
pub fn write_ms<P: CoordinatePoint>(pts: &[P], dest: &mut Vec<u8>)
    ensures
        final(dest)@ == old(dest)@ + m_bytes(pts@),
{
    let n = pts.len();
    let mut i: usize = 0;
    while i < n
        invariant
            0 <= i <= n,
            n == pts@.len(),
            dest@ == old(dest)@ + m_bytes(pts@.take(i as int)),
        decreases n - i,
    {
        push_u64_le(dest, pts[i].m_or_no_data());
        proof {
            assert(pts@.take(i + 1).drop_last() == pts@.take(i as int));
            assert(dest@ =~= old(dest)@ + m_bytes(pts@.take(i + 1)));
        }
        i = i + 1;
    }
    assert(pts@.take(n as int) == pts@);
}

/// Appends the x/y range of the bounding box.
pub fn write_bbox_xy<P: HasXY>(b: &GenericBBox<P>, dest: &mut Vec<u8>)
    ensures
        final(dest)@ == old(dest)@ + bbox_xy_bytes(*b),
{
    push_u64_le(dest, b.min.x());
    push_u64_le(dest, b.min.y());
    push_u64_le(dest, b.max.x());
    push_u64_le(dest, b.max.y());
    assert(dest@ =~= old(dest)@ + bbox_xy_bytes(*b));
}

/// Appends the point columns of a single sequence of points.
pub fn write_columns<P: CoordinatePoint>(b: &GenericBBox<P>, pts: &[P], dest: &mut Vec<u8>)
    ensures
        final(dest)@ == old(dest)@ + columns_bytes(*b, pts@),
{
    write_xy(pts, dest);
    let ghost after_xy = dest@;
    if P::has_z() {
        push_u64_le(dest, b.min.z_or_zero());
        push_u64_le(dest, b.max.z_or_zero());
        write_zs(pts, dest);
    }
    let ghost after_z = dest@;
    if P::has_m() {
        push_u64_le(dest, b.min.m_or_no_data());
        push_u64_le(dest, b.max.m_or_no_data());
        write_ms(pts, dest);
    }
    assert(dest@ =~= old(dest)@ + columns_bytes(*b, pts@));
}

/// The x/y values of two sequences of points are those of their concatenation.
pub proof fn lemma_xy_bytes_append<P: HasXY>(a: Seq<P>, b: Seq<P>)
    ensures
        xy_bytes(a) + xy_bytes(b) == xy_bytes(a + b),
    decreases b.len(),
{
    if b.len() == 0 {
        assert(a + b == a);
    } else {
        lemma_xy_bytes_append(a, b.drop_last());
        assert((a + b).drop_last() == a + b.drop_last());
        assert((a + b).last() == b.last());
    }
}

/// The z values and measures of two sequences of points are those of their
/// concatenation.
pub proof fn lemma_zm_bytes_append<P: CoordinatePoint>(a: Seq<P>, b: Seq<P>)
    ensures
        z_bytes(a) + z_bytes(b) == z_bytes(a + b),
        m_bytes(a) + m_bytes(b) == m_bytes(a + b),
    decreases b.len(),
{
    if b.len() == 0 {
        assert(a + b == a);
    } else {
        lemma_zm_bytes_append(a, b.drop_last());
        assert((a + b).drop_last() == a + b.drop_last());
        assert((a + b).last() == b.last());
    }
}

/// Appends the point columns of the parts' points, one part after the other.
pub fn write_parts_columns<P: CoordinatePoint>(b: &GenericBBox<P>, parts: &Vec<Vec<P>>, dest: &mut Vec<u8>)
    ensures
        final(dest)@ == old(dest)@ + columns_bytes(*b, flatten_parts(vec_seqs(parts@))),
{
    let np = parts.len();
    let mut i: usize = 0;
    while i < np
        invariant
            0 <= i <= np,
            np == parts@.len(),
            dest@ == old(dest)@ + xy_bytes(flatten_parts(vec_seqs(parts@).take(i as int))),
        decreases np - i,
    {
        write_xy(parts[i].as_slice(), dest);
        proof {
            assert(vec_seqs(parts@).take(i + 1).drop_last() == vec_seqs(parts@).take(i as int));
            lemma_xy_bytes_append(flatten_parts(vec_seqs(parts@).take(i as int)), parts@[i as int]@);
        }
        i = i + 1;
    }
    assert(vec_seqs(parts@).take(np as int) == vec_seqs(parts@));
    let ghost after_xy = dest@;
    if P::has_z() {
        push_u64_le(dest, b.min.z_or_zero());
        push_u64_le(dest, b.max.z_or_zero());
        let ghost start = dest@;
        let mut i: usize = 0;
        while i < np
            invariant
                0 <= i <= np,
                np == parts@.len(),
                dest@ == start + z_bytes(flatten_parts(vec_seqs(parts@).take(i as int))),
            decreases np - i,
        {
            write_zs(parts[i].as_slice(), dest);
            proof {
                assert(vec_seqs(parts@).take(i + 1).drop_last() == vec_seqs(parts@).take(i as int));
                lemma_zm_bytes_append(flatten_parts(vec_seqs(parts@).take(i as int)), parts@[i as int]@);
            }
            i = i + 1;
        }
    }
    let ghost after_z = dest@;
    if P::has_m() {
        push_u64_le(dest, b.min.m_or_no_data());
        push_u64_le(dest, b.max.m_or_no_data());
        let ghost start = dest@;
        let mut i: usize = 0;
        while i < np
            invariant
                0 <= i <= np,
                np == parts@.len(),
                dest@ == start + m_bytes(flatten_parts(vec_seqs(parts@).take(i as int))),
            decreases np - i,
        {
            write_ms(parts[i].as_slice(), dest);
            proof {
                assert(vec_seqs(parts@).take(i + 1).drop_last() == vec_seqs(parts@).take(i as int));
                lemma_zm_bytes_append(flatten_parts(vec_seqs(parts@).take(i as int)), parts@[i as int]@);
            }
            i = i + 1;
        }
    }
    assert(dest@ =~= old(dest)@ + columns_bytes(*b, flatten_parts(vec_seqs(parts@))));
}

/// Appends the index where each part starts; the parts hold at most `i32::MAX` points
/// in all.
pub fn write_part_starts<P>(parts: &Vec<Vec<P>>, dest: &mut Vec<u8>)
    requires
        flatten_parts(vec_seqs(parts@)).len() <= i32::MAX,
    ensures
        final(dest)@ == old(dest)@ + i32s_bytes(part_starts(vec_seqs(parts@))),
{
    let np = parts.len();
    let mut sum: i32 = 0;
    let mut i: usize = 0;
    proof {
        assert(vec_seqs(parts@).take(0) =~= Seq::<Seq<P>>::empty());
        assert(part_starts(vec_seqs(parts@)).take(0) =~= Seq::<i32>::empty());
    }
    while i < np
        invariant
            0 <= i <= np,
            np == parts@.len(),
            flatten_parts(vec_seqs(parts@)).len() <= i32::MAX,
            sum == flatten_parts(vec_seqs(parts@).take(i as int)).len(),
            dest@ == old(dest)@ + i32s_bytes(part_starts(vec_seqs(parts@)).take(i as int)),
        decreases np - i,
    {
        push_i32_le(dest, sum);
        proof {
            assert(vec_seqs(parts@).take(i + 1).drop_last() == vec_seqs(parts@).take(i as int));
            lemma_flatten_prefix_len(vec_seqs(parts@), i + 1);
            assert(part_starts(vec_seqs(parts@)).take(i + 1).drop_last() == part_starts(vec_seqs(parts@)).take(i as int));
        }
        let len_i = parts[i].len();
        sum = sum + len_i as i32;
        i = i + 1;
    }
    assert(part_starts(vec_seqs(parts@)).take(np as int) == part_starts(vec_seqs(parts@)));
}

/// The points of a prefix of the parts are no more than all the points.
pub proof fn lemma_flatten_prefix_len<P>(parts: Seq<Seq<P>>, k: int)
    requires
        0 <= k <= parts.len(),
    ensures
        flatten_parts(parts.take(k)).len() <= flatten_parts(parts).len(),
    decreases parts.len() - k,
{
    if k < parts.len() {
        lemma_flatten_prefix_len(parts, k + 1);
        assert(parts.take(k + 1).drop_last() == parts.take(k));
    } else {
        assert(parts.take(k) == parts);
    }
}

/// Returns whether `base` bytes followed by the columns of `n` points fit an `i32`.
pub fn content_fits<P: CoordinatePoint>(base: u128, n: u64) -> (r: bool)
    requires
        base <= 0x10_0000_0000_0000_0000,
    ensures
        r == (base + columns_len::<P>(n as int) <= i32::MAX),
{
    let mut size: u128 = base + 16 * (n as u128);
    if P::has_z() {
        size = size + 16 + 8 * (n as u128);
    }
    if P::has_m() {
        size = size + 16 + 8 * (n as u128);
    }
    size <= i32::MAX as u128
}

/// Points columns are at least 16 bytes per point.
pub proof fn lemma_columns_len_min<P: CoordinatePoint>(n: int)
    requires
        n >= 0,
    ensures
        columns_len::<P>(n) >= 16 * n,
{
}

} // verus!
