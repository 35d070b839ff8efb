//! What reading gives back of what was written: the encodings of values, of value
//! columns and of whole shape contents, read where they stand.
use vstd::prelude::*;
use vstd::bytes::*;
use crate::bytes::{
    i32_be_at, i32_be_bytes, i32_le_at, i32_le_bytes, lemma_encoding_lengths, u64_le_at,
    u64_le_bytes,
};
use crate::error::Error;
use crate::float_bits::{spec_clamp_measure, NO_DATA};
use super::bbox::{flatten_parts, GenericBBox};
use super::io::{
    bad_part, bbox_xy_bytes, columns_bytes, columns_len, first_bad_part, first_patch_error,
    i32s_at, i32s_bytes, lemma_columns_len, lemma_first_bad_part, lemma_flatten_prefix_len,
    lemma_i32s_bytes_len, lemma_xy_bytes_len, lemma_zm_bytes_len, m_bytes, part_end,
    part_starts, points_upto, size_matches, spec_multipart_body, spec_multipart_sizes,
    spec_points_at, spec_read_multipart, spec_read_multipoint, spec_record_bbox, spec_split,
    valid_patch_code, xy_bytes, z_bytes, MultipartView,
};
use super::traits::{CoordinatePoint, HasXY};

verus! {

/// Whether the bytes `x` stand in `s` from `at`.
pub open spec fn stands_at(s: Seq<u8>, at: int, x: Seq<u8>) -> bool {
    &&& 0 <= at
    &&& at + x.len() <= s.len()
    &&& s.subrange(at, at + x.len()) == x
}

/// Bytes that stand somewhere stand there in two pieces.
pub proof fn lemma_stands_concat(s: Seq<u8>, at: int, a: Seq<u8>, b: Seq<u8>)
    requires
        stands_at(s, at, a + b),
    ensures
        stands_at(s, at, a),
        stands_at(s, at + a.len(), b),
{
    let w = s.subrange(at, at + (a + b).len());
    assert(w == a + b);
    assert forall|i: int| 0 <= i < a.len() implies #[trigger] s.subrange(at, at + a.len())[i]
        == a[i] by {
        assert(w[i] == s[at + i]);
        assert((a + b)[i] == a[i]);
    }
    assert(s.subrange(at, at + a.len()) =~= a);
    assert forall|i: int| 0 <= i < b.len() implies #[trigger] s.subrange(
        at + a.len(),
        at + a.len() + b.len(),
    )[i] == b[i] by {
        assert(w[a.len() + i] == s[at + a.len() + i]);
        assert((a + b)[a.len() + i] == b[i]);
    }
    assert(s.subrange(at + a.len(), at + a.len() + b.len()) =~= b);
}

/// Bytes that stand somewhere stand between what comes before and what comes after.
pub proof fn lemma_stands_split(s: Seq<u8>, at: int, x: Seq<u8>)
    requires
        stands_at(s, at, x),
    ensures
        s == s.take(at) + x + s.skip(at + x.len()),
        s.take(at).len() == at,
{
    assert(s =~= s.take(at) + x + s.skip(at + x.len()));
}

/// Bytes that stand within bytes that stand somewhere stand there too.
pub proof fn lemma_stands_within(s: Seq<u8>, at: int, outer: Seq<u8>, inner_at: int, inner: Seq<u8>)
    requires
        stands_at(s, at, outer),
        stands_at(outer, inner_at, inner),
    ensures
        stands_at(s, at + inner_at, inner),
{
    assert forall|i: int| 0 <= i < inner.len() implies #[trigger] s.subrange(
        at + inner_at,
        at + inner_at + inner.len(),
    )[i] == inner[i] by {
        assert(outer.subrange(inner_at, inner_at + inner.len())[i] == outer[inner_at + i]);
        assert(s.subrange(at, at + outer.len())[inner_at + i] == s[at + inner_at + i]);
    }
    assert(s.subrange(at + inner_at, at + inner_at + inner.len()) =~= inner);
}

/// A length that is twice a number is even.
pub proof fn lemma_even_len(len: int, half: int)
    requires
        len == 2 * half,
    ensures
        len % 2 == 0,
{
    vstd::arithmetic::div_mod::lemma_mod_multiples_basic(half, 2);
    assert(half * 2 == len);
}

/// Bytes put between two others stand after the first.
pub proof fn lemma_stands_between(pre: Seq<u8>, x: Seq<u8>, post: Seq<u8>)
    ensures
        stands_at(pre + x + post, pre.len() as int, x),
{
    assert((pre + x + post).subrange(pre.len() as int, (pre.len() + x.len()) as int) =~= x);
}

/// A little-endian `i32` reads back where it stands.
pub proof fn lemma_read_i32(s: Seq<u8>, at: int, v: i32)
    requires
        stands_at(s, at, i32_le_bytes(v)),
    ensures
        i32_le_at(s, at) == v,
{
    lemma_encoding_lengths(v, 0);
    lemma_auto_spec_u32_to_from_le_bytes();
    let u = v as u32;
    assert(u as i32 == v) by (bit_vector)
        requires
            u == v as u32,
    ;
}

/// A big-endian `i32` reads back where it stands.
pub proof fn lemma_read_i32_be(s: Seq<u8>, at: int, v: i32)
    requires
        stands_at(s, at, i32_be_bytes(v)),
    ensures
        i32_be_at(s, at) == v,
{
    lemma_encoding_lengths(v, 0);
    lemma_auto_spec_u32_to_from_le_bytes();
    let u = v as u32;
    assert(u as i32 == v) by (bit_vector)
        requires
            u == v as u32,
    ;
    assert(i32_be_bytes(v).reverse() =~= spec_u32_to_le_bytes(u));
}

/// A little-endian `u64` reads back where it stands.
pub proof fn lemma_read_u64(s: Seq<u8>, at: int, x: u64)
    requires
        stands_at(s, at, u64_le_bytes(x)),
    ensures
        u64_le_at(s, at) == x,
{
    lemma_encoding_lengths(0, x);
    lemma_auto_spec_u64_to_from_le_bytes();
}

/// A sequence of little-endian `i32` values reads back where it stands.
pub proof fn lemma_read_i32s(s: Seq<u8>, at: int, v: Seq<i32>)
    requires
        stands_at(s, at, i32s_bytes(v)),
    ensures
        i32s_at(s, at, v.len() as int) == v,
    decreases v.len(),
{
    if v.len() > 0 {
        let init = v.drop_last();
        lemma_stands_concat(s, at, i32s_bytes(init), i32_le_bytes(v.last()));
        lemma_read_i32s(s, at, init);
        lemma_i32s_bytes_len(init);
        lemma_read_i32(s, at + 4 * init.len(), v.last());
        assert forall|k: int| 0 <= k < v.len() implies #[trigger] i32s_at(s, at, v.len() as int)[k]
            == v[k] by {
            if k < init.len() {
                assert(i32s_at(s, at, init.len() as int)[k] == init[k]);
            }
        }
        assert(i32s_at(s, at, v.len() as int) =~= v);
    } else {
        assert(i32s_at(s, at, 0) =~= v);
    }
}

/// The x/y values of points read back where they stand.
pub proof fn lemma_read_xy<P: HasXY>(s: Seq<u8>, at: int, pts: Seq<P>)
    requires
        stands_at(s, at, xy_bytes(pts)),
    ensures
        forall|j: int|
            0 <= j < pts.len() ==> u64_le_at(s, at + 16 * j) == (#[trigger] pts[j]).spec_x() && u64_le_at(
                s,
                at + 16 * j + 8,
            ) == pts[j].spec_y(),
    decreases pts.len(),
{
    if pts.len() > 0 {
        let init = pts.drop_last();
        let p = pts.last();
        let last = u64_le_bytes(p.spec_x()) + u64_le_bytes(p.spec_y());
        assert(xy_bytes(pts) == xy_bytes(init) + last);
        lemma_stands_concat(s, at, xy_bytes(init), last);
        lemma_read_xy(s, at, init);
        lemma_xy_bytes_len(init);
        lemma_encoding_lengths(0, p.spec_x());
        lemma_stands_concat(s, at + 16 * init.len(), u64_le_bytes(p.spec_x()), u64_le_bytes(p.spec_y()));
        lemma_read_u64(s, at + 16 * init.len(), p.spec_x());
        lemma_read_u64(s, at + 16 * init.len() + 8, p.spec_y());
        assert forall|j: int| 0 <= j < pts.len() implies u64_le_at(s, at + 16 * j) == (
        #[trigger] pts[j]).spec_x() && u64_le_at(s, at + 16 * j + 8) == pts[j].spec_y() by {
            if j < init.len() {
                assert(pts[j] == init[j]);
            }
        }
    }
}

/// The z values of points read back where they stand.
pub proof fn lemma_read_zs<P: CoordinatePoint>(s: Seq<u8>, at: int, pts: Seq<P>)
    requires
        stands_at(s, at, z_bytes(pts)),
    ensures
        forall|j: int|
            0 <= j < pts.len() ==> u64_le_at(s, at + 8 * j) == (#[trigger] pts[j]).spec_z_or_zero(),
    decreases pts.len(),
{
    if pts.len() > 0 {
        let init = pts.drop_last();
        let p = pts.last();
        lemma_stands_concat(s, at, z_bytes(init), u64_le_bytes(p.spec_z_or_zero()));
        lemma_read_zs(s, at, init);
        lemma_zm_bytes_len(init);
        lemma_read_u64(s, at + 8 * init.len(), p.spec_z_or_zero());
        assert forall|j: int| 0 <= j < pts.len() implies u64_le_at(s, at + 8 * j) == (
        #[trigger] pts[j]).spec_z_or_zero() by {
            if j < init.len() {
                assert(pts[j] == init[j]);
            }
        }
    }
}

/// The measures of points read back where they stand.
pub proof fn lemma_read_ms<P: CoordinatePoint>(s: Seq<u8>, at: int, pts: Seq<P>)
    requires
        stands_at(s, at, m_bytes(pts)),
    ensures
        forall|j: int|
            0 <= j < pts.len() ==> u64_le_at(s, at + 8 * j) == (#[trigger] pts[j]).spec_m_or_no_data(),
    decreases pts.len(),
{
    if pts.len() > 0 {
        let init = pts.drop_last();
        let p = pts.last();
        lemma_stands_concat(s, at, m_bytes(init), u64_le_bytes(p.spec_m_or_no_data()));
        lemma_read_ms(s, at, init);
        lemma_zm_bytes_len(init);
        lemma_read_u64(s, at + 8 * init.len(), p.spec_m_or_no_data());
        assert forall|j: int| 0 <= j < pts.len() implies u64_le_at(s, at + 8 * j) == (
        #[trigger] pts[j]).spec_m_or_no_data() by {
            if j < init.len() {
                assert(pts[j] == init[j]);
            }
        }
    }
}

/// Whether reading the points' measures keeps them: the type has no measures, or no
/// measure is below `NO_DATA` or NaN (reading raises those to `NO_DATA`).
pub open spec fn measures_kept<P: CoordinatePoint>(pts: Seq<P>) -> bool {
    P::spec_has_m() ==> forall|j: int|
        0 <= j < pts.len() ==> spec_clamp_measure((#[trigger] pts[j]).spec_m_or_no_data())
            == pts[j].spec_m_or_no_data()
}

/// Points read back from their columns.
pub proof fn lemma_read_points<P: CoordinatePoint>(s: Seq<u8>, xy: int, zp: int, mp: int, pts: Seq<P>)
    requires
        stands_at(s, xy, xy_bytes(pts)),
        P::spec_has_z() ==> stands_at(s, zp, z_bytes(pts)),
        P::spec_has_m() ==> stands_at(s, mp, m_bytes(pts)),
        measures_kept(pts),
    ensures
        spec_points_at::<P>(s, xy, zp, P::spec_has_m(), mp, pts.len() as int) == pts,
{
    lemma_read_xy(s, xy, pts);
    if P::spec_has_z() {
        lemma_read_zs(s, zp, pts);
    }
    if P::spec_has_m() {
        lemma_read_ms(s, mp, pts);
    }
    let r = spec_points_at::<P>(s, xy, zp, P::spec_has_m(), mp, pts.len() as int);
    assert forall|j: int| 0 <= j < pts.len() implies r[j] == pts[j] by {
        let p = pts[j];
        P::lemma_coords(p, 0, 0, 0, 0);
        assert(u64_le_at(s, xy + 16 * j) == p.spec_x());
        assert(u64_le_at(s, xy + 16 * j + 8) == p.spec_y());
        let q = P::spec_from_coords(p.spec_x(), p.spec_y(), p.spec_z_or_zero(), p.spec_m_or_no_data());
        P::lemma_coords(q, p.spec_x(), p.spec_y(), p.spec_z_or_zero(), p.spec_m_or_no_data());
        if P::spec_has_z() {
            assert(u64_le_at(s, zp + 8 * j) == p.spec_z_or_zero());
        }
        if P::spec_has_m() {
            assert(u64_le_at(s, mp + 8 * j) == p.spec_m_or_no_data());
        }
    }
    assert(r =~= pts);
}

/// The x/y range of a bounding box reads back where it stands.
pub proof fn lemma_read_bbox_xy<P: HasXY>(s: Seq<u8>, at: int, b: GenericBBox<P>)
    requires
        stands_at(s, at, bbox_xy_bytes(b)),
    ensures
        u64_le_at(s, at) == b.min.spec_x(),
        u64_le_at(s, at + 8) == b.min.spec_y(),
        u64_le_at(s, at + 16) == b.max.spec_x(),
        u64_le_at(s, at + 24) == b.max.spec_y(),
{
    let e0 = u64_le_bytes(b.min.spec_x());
    let e1 = u64_le_bytes(b.min.spec_y());
    let e2 = u64_le_bytes(b.max.spec_x());
    let e3 = u64_le_bytes(b.max.spec_y());
    lemma_encoding_lengths(0, b.min.spec_x());
    lemma_encoding_lengths(0, b.min.spec_y());
    lemma_encoding_lengths(0, b.max.spec_x());
    lemma_encoding_lengths(0, b.max.spec_y());
    lemma_stands_concat(s, at, e0 + e1 + e2, e3);
    lemma_stands_concat(s, at, e0 + e1, e2);
    lemma_stands_concat(s, at, e0, e1);
    lemma_read_u64(s, at, b.min.spec_x());
    lemma_read_u64(s, at + 8, b.min.spec_y());
    lemma_read_u64(s, at + 16, b.max.spec_x());
    lemma_read_u64(s, at + 24, b.max.spec_y());
}

/// Where the z range stands after the x/y values of `n` points from `at`.
pub open spec fn z_range_at(at: int, n: int) -> int {
    at + 16 * n
}

/// Where the m range stands after the x/y values (and the z values) of `n` points.
pub open spec fn m_range_at<P: CoordinatePoint>(at: int, n: int) -> int {
    at + 16 * n + if P::spec_has_z() {
        16 + 8 * n
    } else {
        0
    }
}

/// The point columns read back where they stand: the points, and the z and m ranges
/// of the box.
pub proof fn lemma_read_columns<P: CoordinatePoint>(s: Seq<u8>, at: int, b: GenericBBox<P>, pts: Seq<P>)
    requires
        stands_at(s, at, columns_bytes(b, pts)),
        measures_kept(pts),
    ensures
        spec_points_at::<P>(
            s,
            at,
            if P::spec_has_z() {
                z_range_at(at, pts.len() as int) + 16
            } else {
                0
            },
            P::spec_has_m(),
            if P::spec_has_m() {
                m_range_at::<P>(at, pts.len() as int) + 16
            } else {
                0
            },
            pts.len() as int,
        ) == pts,
        P::spec_has_z() ==> u64_le_at(s, z_range_at(at, pts.len() as int)) == b.min.spec_z_or_zero()
            && u64_le_at(s, z_range_at(at, pts.len() as int) + 8) == b.max.spec_z_or_zero(),
        P::spec_has_m() ==> u64_le_at(s, m_range_at::<P>(at, pts.len() as int))
            == b.min.spec_m_or_no_data() && u64_le_at(s, m_range_at::<P>(at, pts.len() as int) + 8)
            == b.max.spec_m_or_no_data(),
{
    let n = pts.len() as int;
    lemma_xy_bytes_len(pts);
    lemma_zm_bytes_len(pts);
    lemma_encoding_lengths(0, b.min.spec_z_or_zero());
    lemma_encoding_lengths(0, b.max.spec_z_or_zero());
    lemma_encoding_lengths(0, b.min.spec_m_or_no_data());
    lemma_encoding_lengths(0, b.max.spec_m_or_no_data());
    let zs = if P::spec_has_z() {
        u64_le_bytes(b.min.spec_z_or_zero()) + u64_le_bytes(b.max.spec_z_or_zero()) + z_bytes(pts)
    } else {
        Seq::empty()
    };
    let ms = if P::spec_has_m() {
        u64_le_bytes(b.min.spec_m_or_no_data()) + u64_le_bytes(b.max.spec_m_or_no_data()) + m_bytes(
            pts,
        )
    } else {
        Seq::empty()
    };
    assert(columns_bytes(b, pts) == xy_bytes(pts) + zs + ms);
    lemma_stands_concat(s, at, xy_bytes(pts) + zs, ms);
    lemma_stands_concat(s, at, xy_bytes(pts), zs);
    let z0 = z_range_at(at, n);
    let m0 = m_range_at::<P>(at, n);
    if P::spec_has_z() {
        let zmin = u64_le_bytes(b.min.spec_z_or_zero());
        let zmax = u64_le_bytes(b.max.spec_z_or_zero());
        lemma_stands_concat(s, z0, zmin + zmax, z_bytes(pts));
        lemma_stands_concat(s, z0, zmin, zmax);
        lemma_read_u64(s, z0, b.min.spec_z_or_zero());
        lemma_read_u64(s, z0 + 8, b.max.spec_z_or_zero());
    }
    if P::spec_has_m() {
        let mmin = u64_le_bytes(b.min.spec_m_or_no_data());
        let mmax = u64_le_bytes(b.max.spec_m_or_no_data());
        lemma_stands_concat(s, m0, mmin + mmax, m_bytes(pts));
        lemma_stands_concat(s, m0, mmin, mmax);
        lemma_read_u64(s, m0, b.min.spec_m_or_no_data());
        lemma_read_u64(s, m0 + 8, b.max.spec_m_or_no_data());
    }
    lemma_read_points(
        s,
        at,
        if P::spec_has_z() {
            z0 + 16
        } else {
            0
        },
        if P::spec_has_m() {
            m0 + 16
        } else {
            0
        },
        pts,
    );
}

/// The bounding box stored in a record reads back as the box written, when its z and m
/// ranges stand where the record keeps them.
pub proof fn lemma_read_record_bbox<P: CoordinatePoint>(s: Seq<u8>, pos: int, z0: int, m0: int, b: GenericBBox<P>)
    requires
        stands_at(s, pos, bbox_xy_bytes(b)),
        P::spec_has_z() ==> u64_le_at(s, z0) == b.min.spec_z_or_zero() && u64_le_at(s, z0 + 8)
            == b.max.spec_z_or_zero(),
        P::spec_has_m() ==> u64_le_at(s, m0) == b.min.spec_m_or_no_data() && u64_le_at(s, m0 + 8)
            == b.max.spec_m_or_no_data(),
    ensures
        spec_record_bbox::<P>(s, pos, z0, P::spec_has_m(), m0) == b,
{
    lemma_read_bbox_xy(s, pos, b);
    P::lemma_coords(
        b.min,
        b.min.spec_x(),
        b.min.spec_y(),
        b.min.spec_z_or_zero(),
        b.min.spec_m_or_no_data(),
    );
    P::lemma_coords(
        b.max,
        b.max.spec_x(),
        b.max.spec_y(),
        b.max.spec_z_or_zero(),
        b.max.spec_m_or_no_data(),
    );
}

/// A size that fits an `i32` matches itself as a record size.
pub proof fn lemma_size_matches_itself(size: int)
    requires
        0 <= size <= i32::MAX,
    ensures
        size_matches(size, size as i32),
{
}

/// The content of a multipoint record reads back as the box and the points written.
pub proof fn lemma_multipoint_readback<P: CoordinatePoint>(s: Seq<u8>, pos: int, b: GenericBBox<P>, pts: Seq<P>)
    requires
        stands_at(s, pos, bbox_xy_bytes(b) + i32_le_bytes(pts.len() as i32) + columns_bytes(b, pts)),
        36 + columns_len::<P>(pts.len() as int) <= i32::MAX,
        measures_kept(pts),
    ensures
        spec_read_multipoint::<P>(s, pos, (36 + columns_len::<P>(pts.len() as int)) as i32) == Ok::<
            (GenericBBox<P>, Seq<P>, int),
            Error,
        >((b, pts, 36 + columns_len::<P>(pts.len() as int))),
{
    let n = pts.len() as int;
    let len = 36 + columns_len::<P>(n);
    lemma_encoding_lengths(n as i32, b.min.spec_x());
    lemma_encoding_lengths(0, b.min.spec_y());
    lemma_encoding_lengths(0, b.max.spec_x());
    lemma_encoding_lengths(0, b.max.spec_y());
    lemma_columns_len(b, pts);
    let head = bbox_xy_bytes(b) + i32_le_bytes(n as i32);
    lemma_stands_concat(s, pos, head, columns_bytes(b, pts));
    lemma_stands_concat(s, pos, bbox_xy_bytes(b), i32_le_bytes(n as i32));
    lemma_read_i32(s, pos + 32, n as i32);
    lemma_read_columns(s, pos + 36, b, pts);
    lemma_read_record_bbox(
        s,
        pos,
        z_range_at(pos + 36, n),
        m_range_at::<P>(pos + 36, n),
        b,
    );
    lemma_size_matches_itself(len);
    assert(n as i32 as int == n);
}

/// The points of the first parts stand at the start of all the points.
pub proof fn lemma_flatten_take_prefix<P>(parts: Seq<Seq<P>>, j: int)
    requires
        0 <= j <= parts.len(),
    ensures
        flatten_parts(parts.take(j)).len() <= flatten_parts(parts).len(),
        flatten_parts(parts).subrange(0, flatten_parts(parts.take(j)).len() as int) == flatten_parts(
            parts.take(j),
        ),
    decreases parts.len() - j,
{
    if j == parts.len() {
        assert(parts.take(j) == parts);
        assert(flatten_parts(parts).subrange(0, flatten_parts(parts).len() as int) =~= flatten_parts(
            parts,
        ));
    } else {
        lemma_flatten_take_prefix(parts, j + 1);
        let a = flatten_parts(parts.take(j));
        let ab = flatten_parts(parts.take(j + 1));
        assert(parts.take(j + 1).drop_last() == parts.take(j));
        assert(ab == a + parts[j]);
        assert(flatten_parts(parts).subrange(0, a.len() as int) =~= ab.subrange(0, a.len() as int));
        assert(ab.subrange(0, a.len() as int) =~= a);
    }
}

/// Part `k` stands in all the points between the points of the parts before it and
/// those of the parts up to it.
pub proof fn lemma_flatten_part<P>(parts: Seq<Seq<P>>, k: int)
    requires
        0 <= k < parts.len(),
    ensures
        flatten_parts(parts.take(k + 1)).len() == flatten_parts(parts.take(k)).len() + parts[k].len(),
        flatten_parts(parts).subrange(
            flatten_parts(parts.take(k)).len() as int,
            flatten_parts(parts.take(k + 1)).len() as int,
        ) == parts[k],
{
    lemma_flatten_take_prefix(parts, k + 1);
    let a = flatten_parts(parts.take(k));
    let ab = flatten_parts(parts.take(k + 1));
    assert(parts.take(k + 1).drop_last() == parts.take(k));
    assert(ab == a + parts[k]);
    let f = flatten_parts(parts);
    assert(f.subrange(a.len() as int, ab.len() as int) =~= ab.subrange(a.len() as int, ab.len() as int));
    assert(ab.subrange(a.len() as int, ab.len() as int) =~= parts[k]);
}

/// The part starts of parts holding at most `i32::MAX` points describe the parts:
/// no part is bad, all the points are read, and the parts cut out are the parts.
pub proof fn lemma_part_starts_describe<P>(parts: Seq<Seq<P>>)
    requires
        flatten_parts(parts).len() <= i32::MAX,
    ensures
        part_starts(parts).len() == parts.len(),
        first_bad_part(part_starts(parts), flatten_parts(parts).len() as i32, 0) == parts.len(),
        points_upto(part_starts(parts), flatten_parts(parts).len() as i32, parts.len() as int)
            == flatten_parts(parts).len(),
        spec_split(flatten_parts(parts), part_starts(parts), flatten_parts(parts).len() as i32)
            == parts,
{
    let starts = part_starts(parts);
    let f = flatten_parts(parts);
    let n = f.len() as i32;
    assert forall|k: int| 0 <= k <= parts.len() implies #[trigger] flatten_parts(parts.take(k)).len()
        <= f.len() by {
        lemma_flatten_take_prefix(parts, k);
    }
    assert forall|k: int| 0 <= k < parts.len() implies starts[k] as int == flatten_parts(
        parts.take(k),
    ).len() && part_end(starts, n, k) == flatten_parts(parts.take(k + 1)).len() by {
        assert(flatten_parts(parts.take(k)).len() <= f.len());
        assert(flatten_parts(parts.take(k + 1)).len() <= f.len());
        if k + 1 == parts.len() {
            assert(parts.take(k + 1) == parts);
        }
    }
    assert forall|k: int| 0 <= k < parts.len() implies !bad_part(starts, n, k) by {
        lemma_flatten_part(parts, k);
    }
    lemma_first_bad_part(starts, n, 0);
    if parts.len() > 0 {
        assert(parts.take(0) =~= Seq::<Seq<P>>::empty());
        assert(starts[0] == 0);
    } else {
        assert(f =~= Seq::<P>::empty());
    }
    let split = spec_split(f, starts, n);
    assert forall|k: int| 0 <= k < parts.len() implies #[trigger] split[k] == parts[k] by {
        lemma_flatten_part(parts, k);
    }
    assert(split =~= parts);
}

/// With every code valid, reading the patch codes meets no error.
pub proof fn lemma_no_patch_error(s: Seq<u8>, t0: int, codes: Seq<i32>, k: int)
    requires
        0 <= k <= codes.len(),
        t0 + 4 * codes.len() <= s.len(),
        i32s_at(s, t0, codes.len() as int) == codes,
        forall|j: int| 0 <= j < codes.len() ==> valid_patch_code(#[trigger] codes[j]),
    ensures
        first_patch_error(s, t0, codes.len() as int, k) is None,
    decreases codes.len() - k,
{
    if k < codes.len() {
        assert(i32s_at(s, t0, codes.len() as int)[k] == i32_le_at(s, t0 + 4 * k));
        lemma_no_patch_error(s, t0, codes, k + 1);
    }
}

/// The bytes of a multipart record's content: the x/y range of the box, the number of
/// parts and of points, the part starts, the patch codes (for multipatches), then the
/// point columns.
pub open spec fn multipart_record<P: CoordinatePoint>(
    b: GenericBBox<P>,
    parts: Seq<Seq<P>>,
    with_patches: bool,
    codes: Seq<i32>,
) -> Seq<u8> {
    bbox_xy_bytes(b) + i32_le_bytes(parts.len() as i32) + i32_le_bytes(
        flatten_parts(parts).len() as i32,
    ) + i32s_bytes(part_starts(parts)) + (if with_patches {
        i32s_bytes(codes)
    } else {
        Seq::empty()
    }) + columns_bytes(b, flatten_parts(parts))
}

/// The length of a multipart record's content.
pub open spec fn multipart_record_len<P: CoordinatePoint>(parts: Seq<Seq<P>>, with_patches: bool) -> int {
    40 + 4 * parts.len() + (if with_patches {
        4 * parts.len()
    } else {
        0
    }) + columns_len::<P>(flatten_parts(parts).len() as int)
}

/// The points section of a multipart record reads back as the box and the parts
/// written, when the part starts are those of the parts.
pub proof fn lemma_multipart_body_readback<P: CoordinatePoint>(
    s: Seq<u8>,
    pos: int,
    x0: int,
    b: GenericBBox<P>,
    parts: Seq<Seq<P>>,
)
    requires
        stands_at(s, pos, bbox_xy_bytes(b)),
        stands_at(s, x0, columns_bytes(b, flatten_parts(parts))),
        flatten_parts(parts).len() <= i32::MAX,
        measures_kept(flatten_parts(parts)),
    ensures
        spec_multipart_body::<P>(
            s,
            pos,
            x0,
            part_starts(parts),
            flatten_parts(parts).len() as i32,
            P::spec_has_m(),
        ) == Ok::<(GenericBBox<P>, Seq<Seq<P>>, int), Error>(
            (b, parts, x0 + columns_len::<P>(flatten_parts(parts).len() as int)),
        ),
{
    let flat = flatten_parts(parts);
    let n = flat.len() as int;
    lemma_columns_len(b, flat);
    lemma_part_starts_describe(parts);
    lemma_read_columns(s, x0, b, flat);
    lemma_read_record_bbox(s, pos, z_range_at(x0, n), m_range_at::<P>(x0, n), b);
    assert(n as i32 as int == n);
}

/// The content of a multipart record reads back as the box, the parts and the patch
/// codes written.
#[verifier::rlimit(40)]
pub proof fn lemma_multipart_readback<P: CoordinatePoint>(
    s: Seq<u8>,
    pos: int,
    b: GenericBBox<P>,
    parts: Seq<Seq<P>>,
    with_patches: bool,
    codes: Seq<i32>,
)
    requires
        stands_at(s, pos, multipart_record(b, parts, with_patches, codes)),
        multipart_record_len::<P>(parts, with_patches) <= i32::MAX,
        measures_kept(flatten_parts(parts)),
        with_patches ==> codes.len() == parts.len(),
        with_patches ==> forall|k: int| 0 <= k < codes.len() ==> valid_patch_code(#[trigger] codes[k]),
    ensures
        spec_read_multipart::<P>(s, pos, multipart_record_len::<P>(parts, with_patches) as i32, with_patches)
            == Ok::<(MultipartView<P>, int), Error>(
            (
                MultipartView {
                    bbox: b,
                    parts,
                    patch_codes: if with_patches {
                        codes
                    } else {
                        Seq::empty()
                    },
                },
                multipart_record_len::<P>(parts, with_patches),
            ),
        ),
{
    let np = parts.len() as int;
    let flat = flatten_parts(parts);
    let n = flat.len() as int;
    let len = multipart_record_len::<P>(parts, with_patches);
    let starts = part_starts(parts);
    let pc = if with_patches {
        i32s_bytes(codes)
    } else {
        Seq::empty()
    };
    lemma_columns_len(b, flat);
    lemma_i32s_bytes_len(starts);
    lemma_i32s_bytes_len(codes);
    lemma_flatten_prefix_len(parts, 0);
    lemma_encoding_lengths(np as i32, b.min.spec_x());
    lemma_encoding_lengths(n as i32, b.min.spec_y());
    lemma_encoding_lengths(0, b.max.spec_x());
    lemma_encoding_lengths(0, b.max.spec_y());
    lemma_part_starts_describe(parts);
    let e0 = bbox_xy_bytes(b);
    let e1 = i32_le_bytes(np as i32);
    let e2 = i32_le_bytes(n as i32);
    let e3 = i32s_bytes(starts);
    let cols = columns_bytes(b, flat);
    assert(multipart_record(b, parts, with_patches, codes) == e0 + e1 + e2 + e3 + pc + cols);
    lemma_stands_concat(s, pos, e0 + e1 + e2 + e3 + pc, cols);
    lemma_stands_concat(s, pos, e0 + e1 + e2 + e3, pc);
    lemma_stands_concat(s, pos, e0 + e1 + e2, e3);
    lemma_stands_concat(s, pos, e0 + e1, e2);
    lemma_stands_concat(s, pos, e0, e1);
    lemma_read_i32(s, pos + 32, np as i32);
    lemma_read_i32(s, pos + 36, n as i32);
    lemma_read_i32s(s, pos + 40, starts);
    let t0 = pos + 40 + 4 * np;
    if with_patches {
        lemma_read_i32s(s, t0, codes);
        lemma_no_patch_error(s, t0, codes, 0);
    }
    let x0 = t0 + (if with_patches {
        4 * np
    } else {
        0
    });
    lemma_multipart_body_readback(s, pos, x0, b, parts);
    lemma_size_matches_itself(len);
    assert(np as i32 as int == np);
    assert(n as i32 as int == n);
    assert(spec_multipart_sizes::<P>(np, n, len as i32, with_patches) == Some(P::spec_has_m()));
    assert(i32s_at(s, pos + 40, np) == starts);
    assert(spec_multipart_body::<P>(s, pos, x0, starts, n as i32, P::spec_has_m()) == Ok::<
        (GenericBBox<P>, Seq<Seq<P>>, int),
        Error,
    >((b, parts, pos + len)));
}

} // verus!
