//! Bounding boxes.
use vstd::prelude::*;
use crate::float_bits::{f64_le, is_nan, lemma_min_max, lemma_order, spec_max, spec_min};
use super::point::{Point, PointM, PointZ};
use super::traits::{CoordinatePoint, GrowablePoint, HasM, HasXY, HasZ, ShrinkablePoint};
use crate::float_bits::{NO_DATA, ZERO};

verus! {

/// The bounding box of a collection of points: `min` holds the smallest value of each
/// coordinate, `max` the largest.
#[derive(Debug, Copy, Clone)]
pub struct GenericBBox<PointType> {
    pub max: PointType,
    pub min: PointType,
}

/// `start` shrunk by each of `points` in turn.
pub open spec fn shrink_all<P: ShrinkablePoint>(start: P, points: Seq<P>) -> P
    decreases points.len(),
{
    if points.len() == 0 {
        start
    } else {
        shrink_all(start, points.drop_last()).spec_shrink(points.last())
    }
}

/// `start` grown by each of `points` in turn.
pub open spec fn grow_all<P: GrowablePoint>(start: P, points: Seq<P>) -> P
    decreases points.len(),
{
    if points.len() == 0 {
        start
    } else {
        grow_all(start, points.drop_last()).spec_grow(points.last())
    }
}

/// The bounding box of a non-empty sequence of points.
pub open spec fn spec_bbox_of<P: ShrinkablePoint + GrowablePoint>(points: Seq<P>) -> GenericBBox<P> {
    GenericBBox {
        min: shrink_all(points[0], points.drop_first()),
        max: grow_all(points[0], points.drop_first()),
    }
}

/// The bounding box grown by each of `points` in turn.
pub open spec fn spec_grown_by<P: ShrinkablePoint + GrowablePoint>(
    bbox: GenericBBox<P>,
    points: Seq<P>,
) -> GenericBBox<P> {
    GenericBBox { min: shrink_all(bbox.min, points), max: grow_all(bbox.max, points) }
}

/// The points of all the parts, one part after the other.
pub open spec fn flatten_parts<P>(parts: Seq<Seq<P>>) -> Seq<P>
    decreases parts.len(),
{
    if parts.len() == 0 {
        Seq::empty()
    } else {
        flatten_parts(parts.drop_last()) + parts.last()
    }
}

/// The contents of vectors.
pub open spec fn vec_seqs<P>(v: Seq<Vec<P>>) -> Seq<Seq<P>> {
    Seq::new(v.len(), |k: int| v[k]@)
}

/// Shrinking by two sequences in turn is shrinking by their concatenation.
pub proof fn lemma_shrink_all_append<P: ShrinkablePoint>(start: P, a: Seq<P>, b: Seq<P>)
    ensures
        shrink_all(shrink_all(start, a), b) == shrink_all(start, a + b),
    decreases b.len(),
{
    if b.len() == 0 {
        assert(a + b == a);
    } else {
        lemma_shrink_all_append(start, a, b.drop_last());
        assert((a + b).drop_last() == a + b.drop_last());
        assert((a + b).last() == b.last());
    }
}

/// Growing by two sequences in turn is growing by their concatenation.
pub proof fn lemma_grow_all_append<P: GrowablePoint>(start: P, a: Seq<P>, b: Seq<P>)
    ensures
        grow_all(grow_all(start, a), b) == grow_all(start, a + b),
    decreases b.len(),
{
    if b.len() == 0 {
        assert(a + b == a);
    } else {
        lemma_grow_all_append(start, a, b.drop_last());
        assert((a + b).drop_last() == a + b.drop_last());
        assert((a + b).last() == b.last());
    }
}

/// Growing a box by two sequences in turn is growing it by their concatenation.
pub proof fn lemma_grown_by_append<P: ShrinkablePoint + GrowablePoint>(
    bbox: GenericBBox<P>,
    a: Seq<P>,
    b: Seq<P>,
)
    ensures
        spec_grown_by(spec_grown_by(bbox, a), b) == spec_grown_by(bbox, a + b),
{
    lemma_shrink_all_append(bbox.min, a, b);
    lemma_grow_all_append(bbox.max, a, b);
}

impl<PointType> GenericBBox<PointType> {
    /// The bounding box of the points, of which there must be at least one.
    pub fn from_points(points: &[PointType]) -> (r: Self)
        where
            PointType: Copy + ShrinkablePoint + GrowablePoint,
        requires
            points@.len() > 0,
        ensures
            r == spec_bbox_of(points@),
    {
        let mut min_point = points[0];
        let mut max_point = points[0];
        let n = points.len();
        let mut i: usize = 1;
        while i < n
            invariant
                1 <= i <= n,
                n == points@.len(),
                min_point == shrink_all(points@[0], points@.subrange(1, i as int)),
                max_point == grow_all(points@[0], points@.subrange(1, i as int)),
            decreases n - i,
        {
            min_point.shrink(&points[i]);
            max_point.grow(&points[i]);
            assert(points@.subrange(1, i + 1).drop_last() == points@.subrange(1, i as int));
            i = i + 1;
        }
        assert(points@.subrange(1, n as int) == points@.drop_first());
        Self { max: max_point, min: min_point }
    }

    /// Grows the bounding box so that it also covers the points.
    pub fn grow_from_points(&mut self, points: &[PointType])
        where
            PointType: ShrinkablePoint + GrowablePoint,
        ensures
            *final(self) == spec_grown_by(*old(self), points@),
    {
        let n = points.len();
        let mut i: usize = 0;
        while i < n
            invariant
                0 <= i <= n,
                n == points@.len(),
                *self == spec_grown_by(*old(self), points@.subrange(0, i as int)),
            decreases n - i,
        {
            self.min.shrink(&points[i]);
            self.max.grow(&points[i]);
            assert(points@.subrange(0, i + 1).drop_last() == points@.subrange(0, i as int));
            i = i + 1;
        }
        assert(points@.subrange(0, n as int) == points@);
    }

    /// The bounding box of all the points of all the parts. There must be a part, and
    /// the first part must have points.
    pub fn from_parts(parts: &Vec<Vec<PointType>>) -> (r: Self)
        where
            PointType: ShrinkablePoint + GrowablePoint + Copy,
        requires
            parts@.len() > 0,
            parts@[0]@.len() > 0,
        ensures
            r == spec_bbox_of(flatten_parts(vec_seqs(parts@))),
    {
        let mut bbox = Self::from_points(parts[0].as_slice());
        let n = parts.len();
        let mut i: usize = 1;
        proof {
            assert(vec_seqs(parts@).subrange(0, 1).drop_last() == Seq::<Seq<PointType>>::empty());
            assert(flatten_parts(Seq::<Seq<PointType>>::empty()) == Seq::<PointType>::empty());
            assert(vec_seqs(parts@).subrange(0, 1).last() == parts@[0]@);
            assert(Seq::<PointType>::empty() + parts@[0]@ == parts@[0]@);
            assert(flatten_parts(vec_seqs(parts@).subrange(0, 1)) == parts@[0]@);
        }
        while i < n
            invariant
                1 <= i <= n,
                n == parts@.len(),
                parts@[0]@.len() > 0,
                bbox == spec_grown_by(
                    GenericBBox { min: parts@[0]@[0], max: parts@[0]@[0] },
                    flatten_parts(vec_seqs(parts@).subrange(0, i as int)).drop_first(),
                ),
                flatten_parts(vec_seqs(parts@).subrange(0, i as int)).len() > 0,
                flatten_parts(vec_seqs(parts@).subrange(0, i as int))[0] == parts@[0]@[0],
            decreases n - i,
        {
            let ghost before = bbox;
            bbox.grow_from_points(parts[i].as_slice());
            proof {
                let prev = flatten_parts(vec_seqs(parts@).subrange(0, i as int));
                let next = flatten_parts(vec_seqs(parts@).subrange(0, i + 1));
                assert(parts@.subrange(0, i + 1).drop_last() == parts@.subrange(0, i as int));
                let x = vec_seqs(parts@).subrange(0, i + 1);
                assert(x.len() > 0);
                assert(next == flatten_parts(x.drop_last()) + x.last());
                assert(x.drop_last() =~= vec_seqs(parts@).subrange(0, i as int));
                assert(x.last() == parts@[i as int]@);
                assert(next == prev + parts@[i as int]@);
                lemma_grown_by_append(
                    GenericBBox { min: parts@[0]@[0], max: parts@[0]@[0] },
                    prev.drop_first(),
                    parts@[i as int]@,
                );
                assert(prev.drop_first() + parts@[i as int]@ == next.drop_first());
            }
            i = i + 1;
        }
        assert(vec_seqs(parts@).subrange(0, n as int) == vec_seqs(parts@));
        bbox
    }
}

impl<PointType: HasXY> GenericBBox<PointType> {
    /// The x range of the box: `[min.x, max.x]`.
    pub fn x_range(&self) -> (r: [u64; 2])
        ensures
            r[0] == self.min.spec_x(),
            r[1] == self.max.spec_x(),
    {
        [self.min.x(), self.max.x()]
    }

    /// The y range of the box: `[min.y, max.y]`.
    pub fn y_range(&self) -> (r: [u64; 2])
        ensures
            r[0] == self.min.spec_y(),
            r[1] == self.max.spec_y(),
    {
        [self.min.y(), self.max.y()]
    }
}

impl<PointType: HasZ> GenericBBox<PointType> {
    /// The z range of the box: `[min.z, max.z]`.
    pub fn z_range(&self) -> (r: [u64; 2])
        ensures
            r[0] == self.min.spec_z(),
            r[1] == self.max.spec_z(),
    {
        [self.min.z(), self.max.z()]
    }
}

impl<PointType: HasM> GenericBBox<PointType> {
    /// The m range of the box: `[min.m, max.m]`.
    pub fn m_range(&self) -> (r: [u64; 2])
        ensures
            r[0] == self.min.spec_m(),
            r[1] == self.max.spec_m(),
    {
        [self.min.m(), self.max.m()]
    }
}

/// Whether no x or y value of the points is NaN.
pub open spec fn xy_not_nan<P: HasXY>(pts: Seq<P>) -> bool {
    forall|j: int| 0 <= j < pts.len() ==> !is_nan((#[trigger] pts[j]).spec_x()) && !is_nan(pts[j].spec_y())
}

/// Shrinking a point by points lowers its x and y values below those of all of them,
/// and growing it raises them above, when none is NaN.
pub proof fn lemma_shrink_grow_all_xy<P: CoordinatePoint>(start: P, pts: Seq<P>)
    requires
        !is_nan(start.spec_x()),
        !is_nan(start.spec_y()),
        xy_not_nan(pts),
    ensures
        !is_nan(shrink_all(start, pts).spec_x()),
        !is_nan(shrink_all(start, pts).spec_y()),
        !is_nan(grow_all(start, pts).spec_x()),
        !is_nan(grow_all(start, pts).spec_y()),
        f64_le(shrink_all(start, pts).spec_x(), start.spec_x()),
        f64_le(shrink_all(start, pts).spec_y(), start.spec_y()),
        f64_le(start.spec_x(), grow_all(start, pts).spec_x()),
        f64_le(start.spec_y(), grow_all(start, pts).spec_y()),
        forall|j: int|
            0 <= j < pts.len() ==> f64_le(shrink_all(start, pts).spec_x(), (#[trigger] pts[j]).spec_x())
                && f64_le(shrink_all(start, pts).spec_y(), pts[j].spec_y()) && f64_le(
                pts[j].spec_x(),
                grow_all(start, pts).spec_x(),
            ) && f64_le(pts[j].spec_y(), grow_all(start, pts).spec_y()),
    decreases pts.len(),
{
    if pts.len() == 0 {
        lemma_order(start.spec_x(), start.spec_x(), start.spec_x());
        lemma_order(start.spec_y(), start.spec_y(), start.spec_y());
    } else {
        let init = pts.drop_last();
        let p = pts.last();
        assert(xy_not_nan(init)) by {
            assert forall|j: int| 0 <= j < init.len() implies !is_nan((#[trigger] init[j]).spec_x())
                && !is_nan(init[j].spec_y()) by {
                assert(init[j] == pts[j]);
            }
        }
        assert(!is_nan(p.spec_x()) && !is_nan(p.spec_y())) by {
            assert(pts[pts.len() - 1] == p);
        }
        lemma_shrink_grow_all_xy(start, init);
        let lo = shrink_all(start, init);
        let hi = grow_all(start, init);
        P::lemma_shrink_grow_xy(lo, p);
        P::lemma_shrink_grow_xy(hi, p);
        lemma_min_max(lo.spec_x(), p.spec_x());
        lemma_min_max(lo.spec_y(), p.spec_y());
        lemma_min_max(hi.spec_x(), p.spec_x());
        lemma_min_max(hi.spec_y(), p.spec_y());
        let lo2 = shrink_all(start, pts);
        let hi2 = grow_all(start, pts);
        assert(lo2 == lo.spec_shrink(p));
        assert(hi2 == hi.spec_grow(p));
        lemma_order(lo2.spec_x(), lo.spec_x(), start.spec_x());
        lemma_order(lo2.spec_y(), lo.spec_y(), start.spec_y());
        lemma_order(start.spec_x(), hi.spec_x(), hi2.spec_x());
        lemma_order(start.spec_y(), hi.spec_y(), hi2.spec_y());
        assert forall|j: int| 0 <= j < pts.len() implies f64_le(lo2.spec_x(), (#[trigger] pts[j]).spec_x())
            && f64_le(lo2.spec_y(), pts[j].spec_y()) && f64_le(pts[j].spec_x(), hi2.spec_x()) && f64_le(
            pts[j].spec_y(),
            hi2.spec_y(),
        ) by {
            if j < init.len() {
                let q = pts[j];
                assert(q == init[j]);
                lemma_order(lo2.spec_x(), lo.spec_x(), q.spec_x());
                lemma_order(lo2.spec_y(), lo.spec_y(), q.spec_y());
                lemma_order(q.spec_x(), hi.spec_x(), hi2.spec_x());
                lemma_order(q.spec_y(), hi.spec_y(), hi2.spec_y());
            }
        }
    }
}

/// The bounding box of points holds them all: its minimum x and y values are at most
/// every point's, its maximum ones at least, when no x or y value is NaN.
pub proof fn lemma_bbox_contains_xy<P: CoordinatePoint>(pts: Seq<P>)
    requires
        pts.len() > 0,
        xy_not_nan(pts),
    ensures
        forall|j: int|
            0 <= j < pts.len() ==> f64_le(spec_bbox_of(pts).min.spec_x(), (#[trigger] pts[j]).spec_x())
                && f64_le(spec_bbox_of(pts).min.spec_y(), pts[j].spec_y()) && f64_le(
                pts[j].spec_x(),
                spec_bbox_of(pts).max.spec_x(),
            ) && f64_le(pts[j].spec_y(), spec_bbox_of(pts).max.spec_y()),
{
    let rest = pts.drop_first();
    assert(xy_not_nan(rest)) by {
        assert forall|j: int| 0 <= j < rest.len() implies !is_nan((#[trigger] rest[j]).spec_x()) && !is_nan(
            rest[j].spec_y(),
        ) by {
            assert(rest[j] == pts[j + 1]);
        }
    }
    assert(!is_nan(pts[0].spec_x()) && !is_nan(pts[0].spec_y()));
    lemma_shrink_grow_all_xy(pts[0], rest);
    assert forall|j: int| 0 <= j < pts.len() implies f64_le(spec_bbox_of(pts).min.spec_x(), (
    #[trigger] pts[j]).spec_x()) && f64_le(spec_bbox_of(pts).min.spec_y(), pts[j].spec_y()) && f64_le(
        pts[j].spec_x(),
        spec_bbox_of(pts).max.spec_x(),
    ) && f64_le(pts[j].spec_y(), spec_bbox_of(pts).max.spec_y()) by {
        if j > 0 {
            assert(pts[j] == rest[j - 1]);
        }
    }
}

/// The smallest of `start` and the values, folded from the first value on.
pub open spec fn fold_min(start: u64, vals: Seq<u64>) -> u64
    decreases vals.len(),
{
    if vals.len() == 0 {
        start
    } else {
        spec_min(fold_min(start, vals.drop_last()), vals.last())
    }
}

/// The largest of `start` and the values, folded from the first value on.
pub open spec fn fold_max(start: u64, vals: Seq<u64>) -> u64
    decreases vals.len(),
{
    if vals.len() == 0 {
        start
    } else {
        spec_max(fold_max(start, vals.drop_last()), vals.last())
    }
}

/// Folding the minimum over values that are not NaN gives one of them (or `start`),
/// at most each of them and at most `start`; folding the maximum, the same upwards.
proof fn lemma_folds(start: u64, vals: Seq<u64>)
    requires
        !is_nan(start),
        forall|j: int| 0 <= j < vals.len() ==> !is_nan(#[trigger] vals[j]),
    ensures
        !is_nan(fold_min(start, vals)),
        !is_nan(fold_max(start, vals)),
        f64_le(fold_min(start, vals), start),
        f64_le(start, fold_max(start, vals)),
        forall|j: int| 0 <= j < vals.len() ==> f64_le(fold_min(start, vals), #[trigger] vals[j])
            && f64_le(vals[j], fold_max(start, vals)),
        fold_min(start, vals) == start || exists|j: int| 0 <= j < vals.len() && fold_min(start, vals) == #[trigger] vals[j],
        fold_max(start, vals) == start || exists|j: int| 0 <= j < vals.len() && fold_max(start, vals) == #[trigger] vals[j],
    decreases vals.len(),
{
    if vals.len() > 0 {
        let init = vals.drop_last();
        let v = vals.last();
        assert(v == vals[vals.len() - 1]);
        assert forall|j: int| 0 <= j < init.len() implies !is_nan(#[trigger] init[j]) by {
            assert(init[j] == vals[j]);
        }
        lemma_folds(start, init);
        let lo = fold_min(start, init);
        let hi = fold_max(start, init);
        lemma_min_max(lo, v);
        lemma_min_max(hi, v);
        let lo2 = fold_min(start, vals);
        let hi2 = fold_max(start, vals);
        lemma_order(lo2, lo, start);
        lemma_order(start, hi, hi2);
        assert forall|j: int| 0 <= j < vals.len() implies f64_le(lo2, #[trigger] vals[j]) && f64_le(vals[j], hi2) by {
            if j < init.len() {
                assert(vals[j] == init[j]);
                lemma_order(lo2, lo, vals[j]);
                lemma_order(vals[j], hi, hi2);
            }
        }
        if lo2 != start && lo2 != v {
            assert(lo2 == lo);
            let j = choose|j: int| 0 <= j < init.len() && lo == #[trigger] init[j];
            assert(vals[j] == init[j]);
        }
        if hi2 != start && hi2 != v {
            assert(hi2 == hi);
            let j = choose|j: int| 0 <= j < init.len() && hi == #[trigger] init[j];
            assert(vals[j] == init[j]);
        }
    }
}

/// The measures of the points.
pub open spec fn measures_of(pts: Seq<PointM>) -> Seq<u64> {
    Seq::new(pts.len(), |j: int| pts[j].m)
}

/// The z values of the points.
pub open spec fn zs_of(pts: Seq<PointZ>) -> Seq<u64> {
    Seq::new(pts.len(), |j: int| pts[j].z)
}

/// The measures of the points.
pub open spec fn zms_of(pts: Seq<PointZ>) -> Seq<u64> {
    Seq::new(pts.len(), |j: int| pts[j].m)
}

proof fn lemma_pointm_folds(start: PointM, pts: Seq<PointM>)
    ensures
        shrink_all(start, pts).m == fold_min(start.m, measures_of(pts)),
        grow_all(start, pts).m == fold_max(start.m, measures_of(pts)),
    decreases pts.len(),
{
    if pts.len() > 0 {
        lemma_pointm_folds(start, pts.drop_last());
        assert(measures_of(pts).drop_last() =~= measures_of(pts.drop_last()));
    }
}

proof fn lemma_pointz_folds(start: PointZ, pts: Seq<PointZ>)
    ensures
        shrink_all(start, pts).z == fold_min(start.z, zs_of(pts)),
        grow_all(start, pts).z == fold_max(start.z, zs_of(pts)),
        shrink_all(start, pts).m == fold_min(start.m, zms_of(pts)),
        grow_all(start, pts).m == fold_max(start.m, zms_of(pts)),
    decreases pts.len(),
{
    if pts.len() > 0 {
        lemma_pointz_folds(start, pts.drop_last());
        assert(zs_of(pts).drop_last() =~= zs_of(pts.drop_last()));
        assert(zms_of(pts).drop_last() =~= zms_of(pts.drop_last()));
    }
}

/// The bounding box of points with measures holds their measures: its minimum measure
/// is at most every point's and is one of them, its maximum measure is at least every
/// point's and is one of them, when no measure is NaN.
pub proof fn lemma_bbox_measures(pts: Seq<PointM>)
    requires
        pts.len() > 0,
        forall|j: int| 0 <= j < pts.len() ==> !is_nan((#[trigger] pts[j]).m),
    ensures
        forall|j: int|
            0 <= j < pts.len() ==> f64_le(spec_bbox_of(pts).min.m, (#[trigger] pts[j]).m) && f64_le(
                pts[j].m,
                spec_bbox_of(pts).max.m,
            ),
        exists|j: int| 0 <= j < pts.len() && spec_bbox_of(pts).min.m == (#[trigger] pts[j]).m,
        exists|j: int| 0 <= j < pts.len() && spec_bbox_of(pts).max.m == (#[trigger] pts[j]).m,
{
    let rest = pts.drop_first();
    let vals = measures_of(rest);
    lemma_pointm_folds(pts[0], rest);
    assert forall|j: int| 0 <= j < vals.len() implies !is_nan(#[trigger] vals[j]) by {
        assert(vals[j] == pts[j + 1].m);
    }
    lemma_folds(pts[0].m, vals);
    let lo = spec_bbox_of(pts).min.m;
    let hi = spec_bbox_of(pts).max.m;
    assert forall|j: int| 0 <= j < pts.len() implies f64_le(lo, (#[trigger] pts[j]).m) && f64_le(pts[j].m, hi) by {
        if j > 0 {
            assert(pts[j].m == vals[j - 1]);
        }
    }
    if lo == pts[0].m {
        assert(pts[0].m == lo);
    } else {
        let j = choose|j: int| 0 <= j < vals.len() && lo == #[trigger] vals[j];
        assert(pts[j + 1].m == lo);
    }
    if hi == pts[0].m {
        assert(pts[0].m == hi);
    } else {
        let j = choose|j: int| 0 <= j < vals.len() && hi == #[trigger] vals[j];
        assert(pts[j + 1].m == hi);
    }
}

/// The bounding box of points with z values and measures holds them: its minimum z and
/// measure are at most every point's and are among them, its maximum z and measure at
/// least every point's and among them, when no z value or measure is NaN.
pub proof fn lemma_bbox_z_measures(pts: Seq<PointZ>)
    requires
        pts.len() > 0,
        forall|j: int| 0 <= j < pts.len() ==> !is_nan((#[trigger] pts[j]).z) && !is_nan(pts[j].m),
    ensures
        forall|j: int|
            0 <= j < pts.len() ==> f64_le(spec_bbox_of(pts).min.z, (#[trigger] pts[j]).z) && f64_le(
                pts[j].z,
                spec_bbox_of(pts).max.z,
            ) && f64_le(spec_bbox_of(pts).min.m, pts[j].m) && f64_le(pts[j].m, spec_bbox_of(pts).max.m),
        exists|j: int| 0 <= j < pts.len() && spec_bbox_of(pts).min.z == (#[trigger] pts[j]).z,
        exists|j: int| 0 <= j < pts.len() && spec_bbox_of(pts).max.z == (#[trigger] pts[j]).z,
        exists|j: int| 0 <= j < pts.len() && spec_bbox_of(pts).min.m == (#[trigger] pts[j]).m,
        exists|j: int| 0 <= j < pts.len() && spec_bbox_of(pts).max.m == (#[trigger] pts[j]).m,
{
    let rest = pts.drop_first();
    let zv = zs_of(rest);
    let mv = zms_of(rest);
    lemma_pointz_folds(pts[0], rest);
    assert forall|j: int| 0 <= j < zv.len() implies !is_nan(#[trigger] zv[j]) by {
        assert(zv[j] == pts[j + 1].z);
    }
    assert forall|j: int| 0 <= j < mv.len() implies !is_nan(#[trigger] mv[j]) by {
        assert(mv[j] == pts[j + 1].m);
    }
    lemma_folds(pts[0].z, zv);
    lemma_folds(pts[0].m, mv);
    let b = spec_bbox_of(pts);
    assert forall|j: int| 0 <= j < pts.len() implies f64_le(b.min.z, (#[trigger] pts[j]).z) && f64_le(pts[j].z, b.max.z)
        && f64_le(b.min.m, pts[j].m) && f64_le(pts[j].m, b.max.m) by {
        if j > 0 {
            assert(pts[j].z == zv[j - 1]);
            assert(pts[j].m == mv[j - 1]);
        }
    }
    if b.min.z != pts[0].z {
        let j = choose|j: int| 0 <= j < zv.len() && b.min.z == #[trigger] zv[j];
        assert(pts[j + 1].z == b.min.z);
    } else {
        assert(pts[0].z == b.min.z);
    }
    if b.max.z != pts[0].z {
        let j = choose|j: int| 0 <= j < zv.len() && b.max.z == #[trigger] zv[j];
        assert(pts[j + 1].z == b.max.z);
    } else {
        assert(pts[0].z == b.max.z);
    }
    if b.min.m != pts[0].m {
        let j = choose|j: int| 0 <= j < mv.len() && b.min.m == #[trigger] mv[j];
        assert(pts[j + 1].m == b.min.m);
    } else {
        assert(pts[0].m == b.min.m);
    }
    if b.max.m != pts[0].m {
        let j = choose|j: int| 0 <= j < mv.len() && b.max.m == #[trigger] mv[j];
        assert(pts[j + 1].m == b.max.m);
    } else {
        assert(pts[0].m == b.max.m);
    }
}

/// The x values of the points.
pub open spec fn xs_of<P: HasXY>(pts: Seq<P>) -> Seq<u64> {
    Seq::new(pts.len(), |j: int| pts[j].spec_x())
}

/// The y values of the points.
pub open spec fn ys_of<P: HasXY>(pts: Seq<P>) -> Seq<u64> {
    Seq::new(pts.len(), |j: int| pts[j].spec_y())
}

proof fn lemma_xy_folds<P: CoordinatePoint>(start: P, pts: Seq<P>)
    ensures
        shrink_all(start, pts).spec_x() == fold_min(start.spec_x(), xs_of(pts)),
        grow_all(start, pts).spec_x() == fold_max(start.spec_x(), xs_of(pts)),
        shrink_all(start, pts).spec_y() == fold_min(start.spec_y(), ys_of(pts)),
        grow_all(start, pts).spec_y() == fold_max(start.spec_y(), ys_of(pts)),
    decreases pts.len(),
{
    if pts.len() > 0 {
        lemma_xy_folds(start, pts.drop_last());
        P::lemma_shrink_grow_xy(shrink_all(start, pts.drop_last()), pts.last());
        P::lemma_shrink_grow_xy(grow_all(start, pts.drop_last()), pts.last());
        assert(xs_of(pts).drop_last() =~= xs_of(pts.drop_last()));
        assert(ys_of(pts).drop_last() =~= ys_of(pts.drop_last()));
    }
}

/// The corners of the bounding box of points are made of the points' values: its
/// minimum and maximum x are x values of some points, and so are its minimum and maximum
/// y of y values, when no x or y value is NaN.
pub proof fn lemma_bbox_xy_among_points<P: CoordinatePoint>(pts: Seq<P>)
    requires
        pts.len() > 0,
        xy_not_nan(pts),
    ensures
        exists|j: int| 0 <= j < pts.len() && spec_bbox_of(pts).min.spec_x() == (#[trigger] pts[j]).spec_x(),
        exists|j: int| 0 <= j < pts.len() && spec_bbox_of(pts).max.spec_x() == (#[trigger] pts[j]).spec_x(),
        exists|j: int| 0 <= j < pts.len() && spec_bbox_of(pts).min.spec_y() == (#[trigger] pts[j]).spec_y(),
        exists|j: int| 0 <= j < pts.len() && spec_bbox_of(pts).max.spec_y() == (#[trigger] pts[j]).spec_y(),
{
    let rest = pts.drop_first();
    let xv = xs_of(rest);
    let yv = ys_of(rest);
    lemma_xy_folds(pts[0], rest);
    assert forall|j: int| 0 <= j < xv.len() implies !is_nan(#[trigger] xv[j]) by {
        assert(xv[j] == pts[j + 1].spec_x());
    }
    assert forall|j: int| 0 <= j < yv.len() implies !is_nan(#[trigger] yv[j]) by {
        assert(yv[j] == pts[j + 1].spec_y());
    }
    assert(!is_nan(pts[0].spec_x()) && !is_nan(pts[0].spec_y()));
    lemma_folds(pts[0].spec_x(), xv);
    lemma_folds(pts[0].spec_y(), yv);
    let b = spec_bbox_of(pts);
    if b.min.spec_x() != pts[0].spec_x() {
        let j = choose|j: int| 0 <= j < xv.len() && b.min.spec_x() == #[trigger] xv[j];
        assert(pts[j + 1].spec_x() == b.min.spec_x());
    } else {
        assert(pts[0].spec_x() == b.min.spec_x());
    }
    if b.max.spec_x() != pts[0].spec_x() {
        let j = choose|j: int| 0 <= j < xv.len() && b.max.spec_x() == #[trigger] xv[j];
        assert(pts[j + 1].spec_x() == b.max.spec_x());
    } else {
        assert(pts[0].spec_x() == b.max.spec_x());
    }
    if b.min.spec_y() != pts[0].spec_y() {
        let j = choose|j: int| 0 <= j < yv.len() && b.min.spec_y() == #[trigger] yv[j];
        assert(pts[j + 1].spec_y() == b.min.spec_y());
    } else {
        assert(pts[0].spec_y() == b.min.spec_y());
    }
    if b.max.spec_y() != pts[0].spec_y() {
        let j = choose|j: int| 0 <= j < yv.len() && b.max.spec_y() == #[trigger] yv[j];
        assert(pts[j + 1].spec_y() == b.max.spec_y());
    } else {
        assert(pts[0].spec_y() == b.max.spec_y());
    }
}

impl Default for GenericBBox<Point> {
    /// The box whose corners are both the default point.
    fn default() -> (r: Self)
        ensures
            r.min == (Point { x: ZERO, y: ZERO }),
            r.max == (Point { x: ZERO, y: ZERO }),
    {
        GenericBBox { max: Point::default(), min: Point::default() }
    }
}

impl Default for GenericBBox<PointM> {
    /// The box whose corners are both the default point.
    fn default() -> (r: Self)
        ensures
            r.min == (PointM { x: ZERO, y: ZERO, m: NO_DATA }),
            r.max == (PointM { x: ZERO, y: ZERO, m: NO_DATA }),
    {
        GenericBBox { max: PointM::default(), min: PointM::default() }
    }
}

impl Default for GenericBBox<PointZ> {
    /// The box whose corners are both the default point.
    fn default() -> (r: Self)
        ensures
            r.min == (PointZ { x: ZERO, y: ZERO, z: ZERO, m: NO_DATA }),
            r.max == (PointZ { x: ZERO, y: ZERO, z: ZERO, m: NO_DATA }),
    {
        GenericBBox { max: PointZ::default(), min: PointZ::default() }
    }
}

} // verus!
