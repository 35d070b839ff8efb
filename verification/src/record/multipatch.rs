//! Multipatches: shapes made of patches of `PointZ`s, each a strip or fan of triangles
//! or a ring.
use vstd::prelude::*;
use crate::text::{counted, spec_counted};
use crate::bytes::{i32_le_at, i32_le_bytes, lemma_encoding_lengths, push_i32_le};
use crate::error::Error;
use crate::shape_type::ShapeType;
use super::bbox::{flatten_parts, spec_bbox_of, vec_seqs, GenericBBox};
use super::io::{
    bbox_xy_bytes, columns_bytes, columns_len, content_fits, first_patch_error, i32s_at, i32s_bytes,
    lemma_columns_len_min, lemma_flatten_prefix_len,
    lemma_columns_len, lemma_i32s_bytes_len, lemma_patch_codes_valid, part_starts,
    read_multipart, spec_read_multipart, valid_patch_code, write_bbox_xy, write_part_starts,
    write_parts_columns, MultipartView,
};
use super::point::PointZ;
use super::readback::{
    lemma_multipart_readback, lemma_stands_between, measures_kept, multipart_record,
    multipart_record_len,
};
use super::polygon::{
    classifier_total, close_points_if_not_already, copy_points, group_has, group_views,
    groups_have, lemma_closed_points, with_open,
    classified_as, normalized_as, ring_closed, ring_points, spec_closed, spec_reordered,
    PolygonGroup, PolygonRing, RingType, RingView,
};
use super::traits::CoordinatePoint;
use super::{ConcreteReadableShape, ConcreteShape, EsriShape, HasShapeType, WritableShape};

verus! {

/// The kinds of patches, stored in a multipatch record by their code (0 to 5).
#[derive(Debug, PartialEq, Eq, Structural, Copy, Clone)]
pub enum PatchType {
    TriangleStrip,
    TriangleFan,
    OuterRing,
    InnerRing,
    FirstRing,
    Ring,
}

/// The patch type a code stands for, if any.
pub open spec fn spec_patch_type_from(code: i32) -> Option<PatchType> {
    if code == 0 {
        Some(PatchType::TriangleStrip)
    } else if code == 1 {
        Some(PatchType::TriangleFan)
    } else if code == 2 {
        Some(PatchType::OuterRing)
    } else if code == 3 {
        Some(PatchType::InnerRing)
    } else if code == 4 {
        Some(PatchType::FirstRing)
    } else if code == 5 {
        Some(PatchType::Ring)
    } else {
        None
    }
}

/// The code of a patch type.
pub open spec fn spec_patch_code(t: PatchType) -> i32 {
    match t {
        PatchType::TriangleStrip => 0,
        PatchType::TriangleFan => 1,
        PatchType::OuterRing => 2,
        PatchType::InnerRing => 3,
        PatchType::FirstRing => 4,
        PatchType::Ring => 5,
    }
}

/// Whether patches of this type are rings (and so must be closed).
pub open spec fn is_ring_type(t: PatchType) -> bool {
    !(t is TriangleStrip || t is TriangleFan)
}

impl PatchType {
    /// Returns the patch type corresponding to the code, if the code is valid.
    pub fn from(code: i32) -> (r: Option<PatchType>)
        ensures
            r == spec_patch_type_from(code),
    {
        match code {
            0 => Some(PatchType::TriangleStrip),
            1 => Some(PatchType::TriangleFan),
            2 => Some(PatchType::OuterRing),
            3 => Some(PatchType::InnerRing),
            4 => Some(PatchType::FirstRing),
            5 => Some(PatchType::Ring),
            _ => None,
        }
    }

    /// Returns the code of the patch type.
    pub fn code(self) -> (r: i32)
        ensures
            r == spec_patch_code(self),
    {
        match self {
            PatchType::TriangleStrip => 0,
            PatchType::TriangleFan => 1,
            PatchType::OuterRing => 2,
            PatchType::InnerRing => 3,
            PatchType::FirstRing => 4,
            PatchType::Ring => 5,
        }
    }
}

/// Reading a code back gives the patch type it was written from, and the valid codes
/// are exactly those of the patch types.
pub proof fn lemma_patch_code_roundtrip(t: PatchType, code: i32)
    ensures
        spec_patch_type_from(spec_patch_code(t)) == Some(t),
        spec_patch_type_from(code) is Some <==> valid_patch_code(code),
        spec_patch_type_from(code) matches Some(u) ==> spec_patch_code(u) == code,
{
}

/// A patch of a multipatch: its kind and its points.
#[derive(Debug, Clone)]
pub enum Patch {
    /// A linked strip of triangles: every point after the first two completes a triangle
    /// with its two predecessors.
    TriangleStrip(Vec<PointZ>),
    /// A linked fan of triangles: every point after the first two completes a triangle
    /// with its predecessor and the first point.
    TriangleFan(Vec<PointZ>),
    /// The outer ring of a polygon.
    OuterRing(Vec<PointZ>),
    /// A hole of a polygon.
    InnerRing(Vec<PointZ>),
    /// The first ring of a polygon of an unspecified type.
    FirstRing(Vec<PointZ>),
    /// A ring of a polygon of an unspecified type.
    Ring(Vec<PointZ>),
}

impl View for Patch {
    type V = (PatchType, Seq<PointZ>);

    open spec fn view(&self) -> (PatchType, Seq<PointZ>) {
        match self {
            Patch::TriangleStrip(p) => (PatchType::TriangleStrip, p@),
            Patch::TriangleFan(p) => (PatchType::TriangleFan, p@),
            Patch::OuterRing(p) => (PatchType::OuterRing, p@),
            Patch::InnerRing(p) => (PatchType::InnerRing, p@),
            Patch::FirstRing(p) => (PatchType::FirstRing, p@),
            Patch::Ring(p) => (PatchType::Ring, p@),
        }
    }
}

/// The patch with its points closed when it is a ring.
pub open spec fn spec_closed_patch(p: (PatchType, Seq<PointZ>)) -> (PatchType, Seq<PointZ>) {
    if is_ring_type(p.0) {
        (p.0, spec_closed(p.1))
    } else {
        p
    }
}

/// The ring patches of a multipatch made by `new` or `with_parts` are closed: a patch
/// closed by `close_if_ring` that is a ring with points has its first and last points
/// equal, as floating-point coordinates or as the same values.
pub proof fn lemma_ring_patch_closed(p: (PatchType, Seq<PointZ>))
    requires
        is_ring_type(p.0),
        p.1.len() > 0,
    ensures
        spec_closed_patch(p).1.len() > 0,
        spec_closed_patch(p).1[0].spec_same(&spec_closed_patch(p).1.last()) || spec_closed_patch(
            p,
        ).1[0] == spec_closed_patch(p).1.last(),
{
    lemma_closed_points(p.1);
}

impl Patch {
    /// Returns the points of the patch.
    pub fn points(&self) -> (r: &[PointZ])
        ensures
            r@ == self@.1,
    {
        match self {
            Patch::TriangleStrip(points) => points.as_slice(),
            Patch::TriangleFan(points) => points.as_slice(),
            Patch::OuterRing(points) => points.as_slice(),
            Patch::InnerRing(points) => points.as_slice(),
            Patch::FirstRing(points) => points.as_slice(),
            Patch::Ring(points) => points.as_slice(),
        }
    }

    /// Returns the kind of the patch.
    pub fn patch_type(&self) -> (r: PatchType)
        ensures
            r == self@.0,
    {
        match self {
            Patch::TriangleStrip(_) => PatchType::TriangleStrip,
            Patch::TriangleFan(_) => PatchType::TriangleFan,
            Patch::OuterRing(_) => PatchType::OuterRing,
            Patch::InnerRing(_) => PatchType::InnerRing,
            Patch::FirstRing(_) => PatchType::FirstRing,
            Patch::Ring(_) => PatchType::Ring,
        }
    }

    /// The patch of the given kind with these points.
    pub fn of_type(t: PatchType, points: Vec<PointZ>) -> (r: Patch)
        ensures
            r@ == (t, points@),
    {
        match t {
            PatchType::TriangleStrip => Patch::TriangleStrip(points),
            PatchType::TriangleFan => Patch::TriangleFan(points),
            PatchType::OuterRing => Patch::OuterRing(points),
            PatchType::InnerRing => Patch::InnerRing(points),
            PatchType::FirstRing => Patch::FirstRing(points),
            PatchType::Ring => Patch::Ring(points),
        }
    }

    /// Closes the patch's points when it is a ring.
    pub fn close_if_ring(&mut self)
        ensures
            final(self)@ == spec_closed_patch(old(self)@),
    {
        match self {
            Patch::TriangleStrip(_) => {},
            Patch::TriangleFan(_) => {},
            Patch::OuterRing(points) => close_points_if_not_already(points),
            Patch::InnerRing(points) => close_points_if_not_already(points),
            Patch::FirstRing(points) => close_points_if_not_already(points),
            Patch::Ring(points) => close_points_if_not_already(points),
        }
    }
}

/// A multipatch: its patches and the box that contains them. The ring patches of a
/// multipatch built by `new` or `with_parts` are closed.
#[derive(Debug, Clone)]
pub struct Multipatch {
    pub(crate) bbox: GenericBBox<PointZ>,
    pub(crate) patches: Vec<Patch>,
}

/// What a multipatch is: its bounding box and its patches.
pub struct MultipatchView {
    pub bbox: GenericBBox<PointZ>,
    pub patches: Seq<(PatchType, Seq<PointZ>)>,
}

/// The views of the patches.
pub open spec fn patch_views(patches: Seq<Patch>) -> Seq<(PatchType, Seq<PointZ>)> {
    Seq::new(patches.len(), |k: int| patches[k]@)
}

/// The points of each patch.
pub open spec fn patches_points(patches: Seq<(PatchType, Seq<PointZ>)>) -> Seq<Seq<PointZ>> {
    Seq::new(patches.len(), |k: int| patches[k].1)
}

/// The code of each patch's type.
pub open spec fn patch_codes(patches: Seq<(PatchType, Seq<PointZ>)>) -> Seq<i32> {
    Seq::new(patches.len(), |k: int| spec_patch_code(patches[k].0))
}

impl View for Multipatch {
    type V = MultipatchView;

    closed spec fn view(&self) -> MultipatchView {
        MultipatchView { bbox: self.bbox, patches: patch_views(self.patches@) }
    }
}

/// Copies the points of each patch.
pub fn patch_point_vecs(patches: &Vec<Patch>) -> (r: Vec<Vec<PointZ>>)
    ensures
        vec_seqs(r@) == patches_points(patch_views(patches@)),
{
    let n = patches.len();
    let mut out: Vec<Vec<PointZ>> = Vec::new();
    let mut i: usize = 0;
    while i < n
        invariant
            0 <= i <= n,
            n == patches@.len(),
            out@.len() == i,
            forall|k: int| 0 <= k < i ==> (#[trigger] out@[k])@ == patches@[k]@.1,
        decreases n - i,
    {
        let copy = copy_points(patches[i].points());
        out.push(copy);
        i = i + 1;
    }
    assert(vec_seqs(out@) =~= patches_points(patch_views(patches@)));
    out
}

/// The patches of each multipatch.
pub open spec fn multipatches_patches(mps: Seq<Multipatch>) -> Seq<Seq<(PatchType, Seq<PointZ>)>> {
    Seq::new(mps.len(), |k: int| mps[k]@.patches)
}

/// A copy of the patch.
fn copy_patch(p: &Patch) -> (r: Patch)
    ensures
        r@ == p@,
{
    Patch::of_type(p.patch_type(), copy_points(p.points()))
}

/// The patch a ring becomes: an outer ring patch for an outer ring, an inner ring patch
/// for an inner one, with the ring's points.
pub open spec fn ring_patch(ring: RingView<PointZ>) -> (PatchType, Seq<PointZ>) {
    match ring {
        RingView::Outer(p) => (PatchType::OuterRing, p),
        RingView::Inner(p) => (PatchType::InnerRing, p),
    }
}

/// Whether `patch` is the patch of the ring `before` once closed and ordered to match its
/// kind by a kind the classifier may answer.
pub open spec fn patch_normalized<F: Fn(Vec<u64>) -> RingType>(
    classify: F,
    before: RingView<PointZ>,
    patch: (PatchType, Seq<PointZ>),
) -> bool {
    exists|mid: RingView<PointZ>| #[trigger] normalized_as(classify, before, mid) && patch == ring_patch(mid)
}

/// Closing and ordering a ring keeps its kind and gives it points.
proof fn lemma_normalized_keeps_kind<F: Fn(Vec<u64>) -> RingType>(
    classify: F,
    before: RingView<PointZ>,
    after: RingView<PointZ>,
)
    requires
        normalized_as(classify, before, after),
    ensures
        before is Outer <==> after is Outer,
        ring_points(before).len() > 0 ==> ring_points(after).len() > 0,
        patch_normalized(classify, before, ring_patch(after)),
{
    let t = choose|t: RingType|
        #[trigger] classified_as(classify, spec_closed(ring_points(before)), t) && after
            == spec_reordered(ring_closed(before), t);
    assert(spec_closed(ring_points(before)).len() >= ring_points(before).len());
}

/// The patch of the ring's kind with the ring's points.
fn ring_into_patch(ring: PolygonRing<PointZ>) -> (r: Patch)
    ensures
        r@ == ring_patch(ring@),
{
    match ring {
        PolygonRing::Outer(points) => Patch::OuterRing(points),
        PolygonRing::Inner(points) => Patch::InnerRing(points),
    }
}

impl Multipatch {
    /// Creates a multipatch with one patch, closed when it is a ring. The patch must
    /// have points.
    pub fn new(patch: Patch) -> (r: Self)
        requires
            patch@.1.len() > 0,
        ensures
            r@.patches == seq![spec_closed_patch(patch@)],
            r@.bbox == spec_bbox_of(spec_closed_patch(patch@).1),
    {
        let mut patches: Vec<Patch> = Vec::new();
        patches.push(patch);
        let r = Self::with_parts(patches);
        proof {
            assert(r@.patches =~= seq![spec_closed_patch(patch@)]);
            let pts = patches_points(r@.patches);
            assert(pts.len() == 1);
            assert(pts.drop_last() =~= Seq::<Seq<PointZ>>::empty());
            assert(flatten_parts(pts.drop_last()) =~= Seq::<PointZ>::empty());
            assert(flatten_parts(pts) =~= pts[0]);
        }
        r
    }

    /// Creates a multipatch with several patches, closing the rings; the bounding box
    /// covers all the patches. There must be a patch, and the first one must have
    /// points.
    pub fn with_parts(patches: Vec<Patch>) -> (r: Self)
        requires
            patches@.len() > 0,
            patches@[0]@.1.len() > 0,
        ensures
            r@.patches.len() == patches@.len(),
            forall|k: int|
                0 <= k < patches@.len() ==> #[trigger] r@.patches[k] == spec_closed_patch(
                    patches@[k]@,
                ),
            r@.bbox == spec_bbox_of(flatten_parts(patches_points(r@.patches))),
    {
        let ghost orig = patches@;
        let mut patches = patches;
        let n = patches.len();
        let mut i: usize = 0;
        while i < n
            invariant
                0 <= i <= n,
                n == patches@.len(),
                n == orig.len(),
                forall|k: int| 0 <= k < i ==> #[trigger] patches@[k]@ == spec_closed_patch(orig[k]@),
                forall|k: int| i <= k < n ==> #[trigger] patches@[k] == orig[k],
            decreases n - i,
        {
            patches[i].close_if_ring();
            i = i + 1;
        }
        let pts = patch_point_vecs(&patches);
        assert(vec_seqs(pts@).len() == pts@.len());
        assert(patches_points(patch_views(patches@)).len() == n);
        assert(vec_seqs(pts@)[0] == pts@[0]@);
        assert(patches_points(patch_views(patches@))[0] == patches@[0]@.1);
        let bbox = GenericBBox::from_parts(&pts);
        let r = Self { bbox, patches };
        assert(r@.patches =~= patch_views(patches@));
        r
    }

    /// Creates the multipatch of a polygon: an outer ring patch made of the exterior, then
    /// an inner ring patch made of each interior, in order. Each ring is closed, then its
    /// points are ordered to match its kind as the classifier tells it (see
    /// `normalized_as`); the bounding box covers all the patches. The exterior must have
    /// points.
    pub fn from_polygon_rings<F: Fn(Vec<u64>) -> RingType>(
        exterior: Vec<PointZ>,
        interiors: Vec<Vec<PointZ>>,
        classify: &F,
    ) -> (r: Self)
        requires
            classifier_total(*classify),
            exterior@.len() > 0,
        ensures
            r@.patches.len() == interiors@.len() + 1,
            patch_normalized(*classify, RingView::Outer(exterior@), r@.patches[0]),
            forall|k: int|
                0 <= k < interiors@.len() ==> patch_normalized(
                    *classify,
                    RingView::Inner(interiors@[k]@),
                    #[trigger] r@.patches[k + 1],
                ),
            r@.patches[0].0 == PatchType::OuterRing,
            forall|k: int| 1 <= k < r@.patches.len() ==> (#[trigger] r@.patches[k]).0 == PatchType::InnerRing,
            r@.bbox == spec_bbox_of(flatten_parts(patches_points(r@.patches))),
    {
        let mut patches: Vec<Patch> = Vec::new();
        let mut outer = PolygonRing::Outer(exterior);
        outer.close_and_reorder(classify);
        proof {
            lemma_normalized_keeps_kind(*classify, RingView::Outer(exterior@), outer@);
        }
        patches.push(ring_into_patch(outer));
        let n = interiors.len();
        let mut i: usize = 0;
        while i < n
            invariant
                0 <= i <= n,
                n == interiors@.len(),
                classifier_total(*classify),
                patches@.len() == i + 1,
                patch_normalized(*classify, RingView::Outer(exterior@), patches@[0]@),
                patches@[0]@.0 == PatchType::OuterRing,
                patches@[0]@.1.len() > 0,
                forall|k: int|
                    0 <= k < i ==> patch_normalized(
                        *classify,
                        RingView::Inner(interiors@[k]@),
                        #[trigger] patches@[k + 1]@,
                    ),
                forall|k: int| 1 <= k < patches@.len() ==> (#[trigger] patches@[k]@).0 == PatchType::InnerRing,
            decreases n - i,
        {
            let mut inner = PolygonRing::Inner(copy_points(interiors[i].as_slice()));
            let ghost before = inner@;
            inner.close_and_reorder(classify);
            proof {
                lemma_normalized_keeps_kind(*classify, before, inner@);
            }
            patches.push(ring_into_patch(inner));
            i = i + 1;
        }
        let pts = patch_point_vecs(&patches);
        assert(vec_seqs(pts@).len() == pts@.len());
        assert(patches_points(patch_views(patches@)).len() == n + 1);
        assert(vec_seqs(pts@)[0] == pts@[0]@);
        assert(patches_points(patch_views(patches@))[0] == patches@[0]@.1);
        let bbox = GenericBBox::from_parts(&pts);
        let r = Self { bbox, patches };
        assert(r@.patches =~= patch_views(patches@));
        assert forall|k: int|
            0 <= k < interiors@.len() implies patch_normalized(
                *classify,
                RingView::Inner(interiors@[k]@),
                #[trigger] r@.patches[k + 1],
            ) by {
            assert(r@.patches[k + 1] == patches@[k + 1]@);
        }
        assert forall|k: int| 1 <= k < r@.patches.len() implies (#[trigger] r@.patches[k]).0
            == PatchType::InnerRing by {
            assert(r@.patches[k] == patches@[k]@);
        }
        r
    }

    /// Creates the multipatch of all the patches of the multipatches, one after the other
    /// (as they are, rings already closed); the bounding box covers all the patches. The
    /// first patch must have points.
    pub fn concat(multipatches: Vec<Multipatch>) -> (r: Self)
        requires
            multipatches@.len() > 0,
            multipatches@[0]@.patches.len() > 0,
            multipatches@[0]@.patches[0].1.len() > 0,
        ensures
            r@.patches == flatten_parts(multipatches_patches(multipatches@)),
            r@.bbox == spec_bbox_of(flatten_parts(patches_points(r@.patches))),
    {
        let ghost parts = multipatches_patches(multipatches@);
        let ghost first = multipatches@[0]@.patches[0];
        let mut all: Vec<Patch> = Vec::new();
        let n = multipatches.len();
        let mut i: usize = 0;
        proof {
            assert(parts.take(0) =~= Seq::<Seq<(PatchType, Seq<PointZ>)>>::empty());
            assert(patch_views(all@) =~= Seq::<(PatchType, Seq<PointZ>)>::empty());
        }
        while i < n
            invariant
                0 <= i <= n,
                n == multipatches@.len(),
                parts == multipatches_patches(multipatches@),
                first == multipatches@[0]@.patches[0],
                multipatches@[0]@.patches.len() > 0,
                patch_views(all@) == flatten_parts(parts.take(i as int)),
                i > 0 ==> all@.len() > 0 && all@[0]@ == first,
            decreases n - i,
        {
            let ps = &multipatches[i].patches;
            let m = ps.len();
            let mut j: usize = 0;
            proof {
                assert(patch_views(ps@) == multipatches@[i as int]@.patches);
                assert(patch_views(ps@).take(0) =~= Seq::<(PatchType, Seq<PointZ>)>::empty());
                assert(flatten_parts(parts.take(i as int)) + patch_views(ps@).take(0)
                    =~= flatten_parts(parts.take(i as int)));
            }
            while j < m
                invariant
                    0 <= j <= m,
                    m == ps@.len(),
                    0 <= i < n,
                    n == multipatches@.len(),
                    ps == multipatches@[i as int].patches,
                    first == multipatches@[0]@.patches[0],
                    multipatches@[0]@.patches.len() > 0,
                    patch_views(all@) == flatten_parts(parts.take(i as int)) + patch_views(ps@).take(j as int),
                    i > 0 || j > 0 ==> all@.len() > 0 && all@[0]@ == first,
                decreases m - j,
            {
                let ghost before = all@;
                all.push(copy_patch(&ps[j]));
                proof {
                    assert(patch_views(all@) =~= patch_views(before).push(ps@[j as int]@));
                    assert(patch_views(ps@).take(j + 1) =~= patch_views(ps@).take(j as int).push(
                        ps@[j as int]@,
                    ));
                    if i == 0 && j == 0 {
                        assert(ps@[0]@ == patch_views(ps@)[0]);
                    } else {
                        assert(all@[0] == before[0]);
                    }
                }
                j = j + 1;
            }
            proof {
                assert(patch_views(ps@).take(m as int) =~= patch_views(ps@));
                assert(parts.take(i + 1).drop_last() =~= parts.take(i as int));
                assert(parts.take(i + 1).last() == patch_views(ps@));
            }
            i = i + 1;
        }
        assert(parts.take(n as int) =~= parts);
        let pts = patch_point_vecs(&all);
        assert(vec_seqs(pts@).len() == pts@.len());
        assert(patches_points(patch_views(all@)).len() == all@.len());
        assert(vec_seqs(pts@)[0] == pts@[0]@);
        assert(patches_points(patch_views(all@))[0] == all@[0]@.1);
        let bbox = GenericBBox::from_parts(&pts);
        let r = Self { bbox, patches: all };
        assert(r@.patches =~= patch_views(all@));
        r
    }

    /// Returns the patches.
    pub fn patches(&self) -> (r: &Vec<Patch>)
        ensures
            patch_views(r@) == self@.patches,
    {
        &self.patches
    }

    /// Returns the patch at `index`, if there is one.
    pub fn patch(&self, index: usize) -> (r: Option<&Patch>)
        ensures
            index < self@.patches.len() ==> (r matches Some(p) && p@ == self@.patches[index as int]),
            index >= self@.patches.len() ==> r is None,
    {
        if index < self.patches.len() {
            Some(&self.patches[index])
        } else {
            None
        }
    }

    /// Returns the bounding box.
    pub fn bbox(&self) -> (r: &GenericBBox<PointZ>)
        ensures
            *r == self@.bbox,
    {
        &self.bbox
    }

    /// Returns the number of points of all the patches.
    pub fn total_point_count(&self) -> (r: usize)
        requires
            flatten_parts(patches_points(self@.patches)).len() <= usize::MAX,
        ensures
            r == flatten_parts(patches_points(self@.patches)).len(),
    {
        let ghost pts = patches_points(patch_views(self.patches@));
        let np = self.patches.len();
        let mut total: usize = 0;
        let mut i: usize = 0;
        while i < np
            invariant
                0 <= i <= np,
                np == self.patches@.len(),
                pts == patches_points(patch_views(self.patches@)),
                flatten_parts(pts).len() <= usize::MAX,
                total == flatten_parts(pts.take(i as int)).len(),
            decreases np - i,
        {
            proof {
                assert(pts.take(i + 1).drop_last() == pts.take(i as int));
                super::io::lemma_flatten_prefix_len(pts, i + 1);
                assert(pts[i as int] == self.patches@[i as int]@.1);
            }
            total = total + self.patches[i].points().len();
            i = i + 1;
        }
        assert(pts.take(np as int) == pts);
        total
    }
}

/// The multipatch a multipart record read with patch types describes: each part becomes
/// a patch of the type its code stands for.
pub open spec fn multipatch_of_record(v: MultipartView<PointZ>) -> MultipatchView {
    MultipatchView {
        bbox: v.bbox,
        patches: Seq::new(
            v.parts.len(),
            |k: int| (spec_patch_type_from(v.patch_codes[k])->Some_0, v.parts[k]),
        ),
    }
}

impl HasShapeType for Multipatch {
    open spec fn spec_shapetype() -> ShapeType {
        ShapeType::Multipatch
    }

    fn shapetype() -> (r: ShapeType) {
        ShapeType::Multipatch
    }
}

impl ConcreteShape for Multipatch {}

impl ConcreteReadableShape for Multipatch {
    open spec fn spec_read_content(s: Seq<u8>, pos: int, record_size: i32) -> Result<(MultipatchView, int), Error> {
        match spec_read_multipart::<PointZ>(s, pos, record_size, true) {
            Ok((v, n)) => Ok((multipatch_of_record(v), n)),
            Err(e) => Err(e),
        }
    }

    fn read_shape_content(data: &[u8], pos: usize, record_size: i32) -> (r: Result<(Self, usize), Error>) {
        match read_multipart::<PointZ>(data, pos, record_size, true) {
            Err(e) => Err(e),
            Ok((bbox, parts, codes, used)) => {
                let ghost v = spec_read_multipart::<PointZ>(data@, pos as int, record_size, true)->Ok_0.0;
                proof {
                    let np = i32_le_at(data@, pos + 32) as int;
                    let t0 = pos + 40 + 4 * np;
                    lemma_patch_codes_valid(data@, t0, np, 0);
                    assert(v.patch_codes == i32s_at(data@, t0, np));
                }
                let n = parts.len();
                let mut patches: Vec<Patch> = Vec::new();
                let mut i: usize = 0;
                while i < n
                    invariant
                        0 <= i <= n,
                        n == parts@.len(),
                        n == v.parts.len(),
                        n == codes@.len(),
                        codes@ == v.patch_codes,
                        forall|k: int| 0 <= k < n ==> (#[trigger] parts@[k])@ == v.parts[k],
                        forall|k: int| 0 <= k < n ==> valid_patch_code(#[trigger] codes@[k]),
                        patches@.len() == i,
                        forall|k: int|
                            0 <= k < i ==> (#[trigger] patches@[k])@ == (
                                spec_patch_type_from(codes@[k])->Some_0,
                                v.parts[k],
                            ),
                    decreases n - i,
                {
                    let t = match PatchType::from(codes[i]) {
                        Some(t) => t,
                        None => PatchType::Ring,
                    };
                    let pts = copy_points(parts[i].as_slice());
                    patches.push(Patch::of_type(t, pts));
                    i = i + 1;
                }
                let shape = Multipatch { bbox, patches };
                assert(shape@.patches =~= multipatch_of_record(v).patches);
                Ok((shape, used))
            },
        }
    }
}

/// The content of a multipatch record: the bounding box x/y range, the number of parts
/// and of points, where each part starts, each part's type code, then the point columns.
pub open spec fn multipatch_content(bbox: GenericBBox<PointZ>, patches: Seq<(PatchType, Seq<PointZ>)>) -> Seq<u8> {
    let parts = patches_points(patches);
    bbox_xy_bytes(bbox) + i32_le_bytes(parts.len() as i32) + i32_le_bytes(
        flatten_parts(parts).len() as i32,
    ) + i32s_bytes(part_starts(parts)) + i32s_bytes(patch_codes(patches)) + columns_bytes(
        bbox,
        flatten_parts(parts),
    )
}

/// The length of the content of a multipatch record.
pub open spec fn multipatch_content_len(patches: Seq<(PatchType, Seq<PointZ>)>) -> int {
    40 + 8 * patches.len() + columns_len::<PointZ>(flatten_parts(patches_points(patches)).len() as int)
}

pub proof fn lemma_multipatch_content_len(bbox: GenericBBox<PointZ>, patches: Seq<(PatchType, Seq<PointZ>)>)
    ensures
        multipatch_content(bbox, patches).len() == multipatch_content_len(patches),
{
    let parts = patches_points(patches);
    lemma_columns_len(bbox, flatten_parts(parts));
    lemma_i32s_bytes_len(part_starts(parts));
    lemma_i32s_bytes_len(patch_codes(patches));
    lemma_encoding_lengths(parts.len() as i32, bbox.min.x);
    lemma_encoding_lengths(flatten_parts(parts).len() as i32, bbox.min.y);
    lemma_encoding_lengths(0, bbox.max.x);
    lemma_encoding_lengths(0, bbox.max.y);
    assert(part_starts(parts).len() == parts.len());
    assert(patch_codes(patches).len() == patches.len());
}

/// Appends the code of each patch's type.
fn write_patch_codes(patches: &Vec<Patch>, dest: &mut Vec<u8>)
    ensures
        final(dest)@ == old(dest)@ + i32s_bytes(patch_codes(patch_views(patches@))),
{
    let n = patches.len();
    let ghost codes = patch_codes(patch_views(patches@));
    let mut i: usize = 0;
    while i < n
        invariant
            0 <= i <= n,
            n == patches@.len(),
            codes == patch_codes(patch_views(patches@)),
            dest@ == old(dest)@ + i32s_bytes(codes.take(i as int)),
        decreases n - i,
    {
        let code = patches[i].patch_type().code();
        push_i32_le(dest, code);
        proof {
            assert(codes.take(i + 1).drop_last() == codes.take(i as int));
            assert(codes.take(i + 1).last() == code);
        }
        i = i + 1;
    }
    assert(codes.take(n as int) == codes);
}

impl Multipatch {
    /// Describes the multipatch by its number of patches (`Multipatch(2 patches)`).
    pub fn description(&self) -> (r: String)
        ensures
            r@ == spec_counted("Multipatch"@, self@.patches.len(), "patches"@),
    {
        counted("Multipatch", self.patches.len(), "patches")
    }
}

impl WritableShape for Multipatch {
    open spec fn spec_content(&self) -> Seq<u8> {
        multipatch_content(self@.bbox, self@.patches)
    }

    open spec fn spec_size_fits(&self) -> bool {
        multipatch_content_len(self@.patches) <= i32::MAX
    }

    fn size_fits(&self) -> (r: bool) {
        let ghost parts = patches_points(self@.patches);
        let np = self.patches.len();
        let mut total: u64 = 0;
        let mut i: usize = 0;
        while i < np
            invariant
                0 <= i <= np,
                np == parts.len(),
                parts == patches_points(patch_views(self.patches@)),
                total == flatten_parts(parts.take(i as int)).len(),
                total <= i32::MAX,
            decreases np - i,
        {
            proof {
                assert(parts.take(i + 1).drop_last() == parts.take(i as int));
                assert(parts.take(i + 1).last() == self.patches@[i as int]@.1);
            }
            let len = self.patches[i].points().len();
            if len as u64 > i32::MAX as u64 - total {
                proof {
                    lemma_flatten_prefix_len(parts, i + 1);
                    lemma_columns_len_min::<PointZ>(flatten_parts(parts).len() as int);
                }
                return false;
            }
            total = total + len as u64;
            i = i + 1;
        }
        assert(parts.take(np as int) == parts);
        content_fits::<PointZ>(40 + 8 * (np as u128), total)
    }

    fn size_in_bytes(&self) -> (r: usize) {
        proof {
            lemma_multipatch_content_len(self@.bbox, self@.patches);
        }
        let n = self.total_point_count();
        40 + 8 * self.patches.len() + 32 * n + 32
    }

    fn write_to(&self, dest: &mut Vec<u8>) {
        proof {
            lemma_multipatch_content_len(self@.bbox, self@.patches);
        }
        let n = self.total_point_count();
        let parts = patch_point_vecs(&self.patches);
        write_bbox_xy(&self.bbox, dest);
        push_i32_le(dest, self.patches.len() as i32);
        push_i32_le(dest, n as i32);
        write_part_starts(&parts, dest);
        write_patch_codes(&self.patches, dest);
        write_parts_columns(&self.bbox, &parts, dest);
        assert(dest@ =~= old(dest)@ + self.spec_content());
    }
}

impl EsriShape for Multipatch {
    open spec fn spec_x_range(&self) -> (u64, u64) {
        (self@.bbox.min.x, self@.bbox.max.x)
    }

    open spec fn spec_y_range(&self) -> (u64, u64) {
        (self@.bbox.min.y, self@.bbox.max.y)
    }

    open spec fn spec_z_range(&self) -> (u64, u64) {
        (self@.bbox.min.z, self@.bbox.max.z)
    }

    open spec fn spec_m_range(&self) -> (u64, u64) {
        (self@.bbox.min.m, self@.bbox.max.m)
    }

    fn x_range(&self) -> (r: [u64; 2]) {
        self.bbox.x_range()
    }

    fn y_range(&self) -> (r: [u64; 2]) {
        self.bbox.y_range()
    }

    fn z_range(&self) -> (r: [u64; 2]) {
        self.bbox.z_range()
    }

    fn m_range(&self) -> (r: [u64; 2]) {
        self.bbox.m_range()
    }
}

/// The polygons made of the patches so far, those finished and the one being filled,
/// or the error met. A triangle strip or fan is a polygon of its own; an outer ring or
/// a first ring finishes the polygon being filled, if there is one, and starts a new one
/// with its points as exterior; an inner ring is a hole of the polygon being filled, and
/// an error without one; a ring is a hole of the polygon being filled, or else a polygon
/// of its own. No patch is dropped.
pub open spec fn patch_groups_upto(kinds: Seq<PatchType>) -> Result<
    (Seq<(Option<usize>, Seq<usize>)>, Option<(Option<usize>, Seq<usize>)>),
    Error,
>
    decreases kinds.len(),
{
    if kinds.len() == 0 {
        Ok((Seq::empty(), None))
    } else {
        match patch_groups_upto(kinds.drop_last()) {
            Err(e) => Err(e),
            Ok((done, cur)) => {
                let k = (kinds.len() - 1) as usize;
                let alone = (Some(k), Seq::<usize>::empty());
                match kinds.last() {
                    PatchType::TriangleStrip => Ok((done.push(alone), cur)),
                    PatchType::TriangleFan => Ok((done.push(alone), cur)),
                    PatchType::OuterRing => match cur {
                        Some(g) => Ok((done.push(g), Some(alone))),
                        None => Ok((done, Some(alone))),
                    },
                    PatchType::InnerRing => match cur {
                        Some(g) => Ok((done, Some((g.0, g.1.push(k))))),
                        None => Err(Error::OrphanInnerRing),
                    },
                    PatchType::FirstRing => match cur {
                        Some(g) => Ok((done.push(g), Some(alone))),
                        None => Ok((done, Some(alone))),
                    },
                    PatchType::Ring => match cur {
                        Some(g) => Ok((done, Some((g.0, g.1.push(k))))),
                        None => Ok((done.push(alone), None)),
                    },
                }
            },
        }
    }
}

/// The polygons made of all the patches, or the error met.
pub open spec fn spec_patch_groups(kinds: Seq<PatchType>) -> Result<Seq<(Option<usize>, Seq<usize>)>, Error> {
    match patch_groups_upto(kinds) {
        Err(e) => Err(e),
        Ok((done, cur)) => Ok(
            match cur {
                Some(g) => done.push(g),
                None => done,
            },
        ),
    }
}

/// The polygons of the patches so far hold each of them, finished or being filled.
proof fn lemma_groups_upto_cover(kinds: Seq<PatchType>)
    requires
        kinds.len() <= usize::MAX + 1,
    ensures
        patch_groups_upto(kinds) matches Ok((done, cur)) ==> forall|k: int|
            0 <= k < kinds.len() ==> #[trigger] groups_have(with_open(done, cur), k),
    decreases kinds.len(),
{
    if kinds.len() > 0 {
        let init = kinds.drop_last();
        lemma_groups_upto_cover(init);
        if let Ok((done0, cur0)) = patch_groups_upto(init) {
            if let Ok((done, cur)) = patch_groups_upto(kinds) {
                let all0 = with_open(done0, cur0);
                let all = with_open(done, cur);
                let n: int = init.len() as int;
                // `all` keeps each polygon of `all0` at a known place, grown at most by
                // the new patch, and holds the new patch.
                let shift: int = match kinds.last() {
                    PatchType::TriangleStrip | PatchType::TriangleFan => if cur0 is Some {
                        1int
                    } else {
                        0int
                    },
                    _ => 0int,
                };
                assert forall|k: int| 0 <= k < n implies #[trigger] groups_have(all, k) by {
                    assert(groups_have(all0, k));
                    let j = choose|j: int| 0 <= j < all0.len() && #[trigger] group_has(all0[j], k);
                    let g0 = all0[j];
                    let jn = if j == done0.len() {
                        j + shift
                    } else {
                        j
                    };
                    let g = all[jn];
                    assert(g.0 == g0.0);
                    assert(g0.1.is_prefix_of(g.1));
                    if g0.1.contains(k as usize) {
                        let i = choose|i: int| 0 <= i < g0.1.len() && g0.1[i] == k as usize;
                        assert(g.1[i] == k as usize);
                    }
                    assert(group_has(all[jn], k));
                }
                let jk: int = match kinds.last() {
                    PatchType::TriangleStrip | PatchType::TriangleFan => done0.len() as int,
                    _ => all.len() - 1,
                };
                assert(group_has(all[jk], n)) by {
                    if !(all[jk].0 == Some(n as usize)) {
                        assert(all[jk].1.last() == n as usize);
                        assert(all[jk].1.contains(n as usize));
                    }
                }
            }
        }
    }
}

/// No patch is dropped: when the patches split into polygons, each patch is held by one
/// of the polygons, as its exterior or as a hole.
pub proof fn lemma_no_patch_dropped(kinds: Seq<PatchType>)
    requires
        kinds.len() <= usize::MAX + 1,
    ensures
        spec_patch_groups(kinds) matches Ok(groups) ==> forall|k: int|
            0 <= k < kinds.len() ==> #[trigger] groups_have(groups, k),
{
    lemma_groups_upto_cover(kinds);
    if let Ok((done, cur)) = patch_groups_upto(kinds) {
        assert(spec_patch_groups(kinds) == Ok::<Seq<(Option<usize>, Seq<usize>)>, Error>(with_open(done, cur)));
    }
}

/// The type of each patch.
pub open spec fn patch_kinds(patches: Seq<(PatchType, Seq<PointZ>)>) -> Seq<PatchType> {
    Seq::new(patches.len(), |k: int| patches[k].0)
}

/// A polygon made of one patch.
fn alone(k: usize) -> (r: PolygonGroup)
    ensures
        r@ == (Some(k), Seq::<usize>::empty()),
{
    PolygonGroup { exterior: Some(k), interiors: Vec::new() }
}

impl Multipatch {
    /// Splits the patches into polygons of one exterior and its holes, as a collection
    /// of polygons holds them (see `patch_groups_upto`); an inner ring with no polygon
    /// to belong to is `OrphanInnerRing`.
    pub fn polygon_groups(&self) -> (r: Result<Vec<PolygonGroup>, Error>)
        ensures
            match r {
                Ok(groups) => spec_patch_groups(patch_kinds(self@.patches)) == Ok::<
                    Seq<(Option<usize>, Seq<usize>)>,
                    Error,
                >(group_views(groups@)),
                Err(e) => spec_patch_groups(patch_kinds(self@.patches)) == Err::<
                    Seq<(Option<usize>, Seq<usize>)>,
                    Error,
                >(e),
            },
    {
        let ghost kinds = patch_kinds(patch_views(self.patches@));
        let n = self.patches.len();
        let mut done: Vec<PolygonGroup> = Vec::new();
        let mut cur: Option<PolygonGroup> = None;
        let mut i: usize = 0;
        proof {
            assert(kinds.take(0) =~= Seq::<PatchType>::empty());
            assert(group_views(done@) =~= Seq::<(Option<usize>, Seq<usize>)>::empty());
        }
        while i < n
            invariant
                0 <= i <= n,
                n == self.patches@.len(),
                kinds == patch_kinds(patch_views(self.patches@)),
                patch_groups_upto(kinds.take(i as int)) == Ok::<
                    (Seq<(Option<usize>, Seq<usize>)>, Option<(Option<usize>, Seq<usize>)>),
                    Error,
                >(
                    (group_views(done@), match cur {
                        Some(g) => Some(g@),
                        None => None,
                    }),
                ),
            decreases n - i,
        {
            proof {
                assert(kinds.take(i + 1).drop_last() == kinds.take(i as int));
                assert(kinds.take(i + 1).last() == self.patches@[i as int]@.0);
            }
            let prev = cur;
            match self.patches[i].patch_type() {
                PatchType::TriangleStrip | PatchType::TriangleFan => {
                    done.push(alone(i));
                    cur = prev;
                },
                PatchType::OuterRing | PatchType::FirstRing => {
                    match prev {
                        Some(g) => {
                            done.push(g);
                        },
                        None => {},
                    }
                    cur = Some(alone(i));
                },
                PatchType::InnerRing => {
                    match prev {
                        Some(g) => {
                            let mut g = g;
                            g.interiors.push(i);
                            cur = Some(g);
                        },
                        None => {
                            proof {
                                lemma_patch_groups_err_stays(kinds, i + 1);
                            }
                            return Err(Error::OrphanInnerRing);
                        },
                    }
                },
                PatchType::Ring => {
                    match prev {
                        Some(g) => {
                            let mut g = g;
                            g.interiors.push(i);
                            cur = Some(g);
                        },
                        None => {
                            done.push(alone(i));
                            cur = None;
                        },
                    }
                },
            }
            proof {
                assert(patch_groups_upto(kinds.take(i + 1)) is Ok);
                assert(group_views(done@) =~= patch_groups_upto(kinds.take(i + 1))->Ok_0.0);
            }
            i = i + 1;
        }
        assert(kinds.take(n as int) == kinds);
        let mut out = done;
        match cur {
            Some(g) => {
                out.push(g);
            },
            None => {},
        }
        assert(group_views(out@) =~= spec_patch_groups(kinds)->Ok_0);
        Ok(out)
    }
}

/// Once the patches so far give an error, all the patches give it.
proof fn lemma_patch_groups_err_stays(kinds: Seq<PatchType>, i: int)
    requires
        0 <= i <= kinds.len(),
        patch_groups_upto(kinds.take(i)) is Err,
    ensures
        patch_groups_upto(kinds) == patch_groups_upto(kinds.take(i)),
    decreases kinds.len() - i,
{
    if i < kinds.len() {
        assert(kinds.take(i + 1).drop_last() == kinds.take(i));
        lemma_patch_groups_err_stays(kinds, i + 1);
    } else {
        assert(kinds.take(i) == kinds);
    }
}

/// A multipatch written reads back as the same multipatch, wherever its content
/// stands, when its measures are kept by reading (none below `NO_DATA`, none NaN).
pub proof fn lemma_multipatch_content_roundtrip(mp: Multipatch, pre: Seq<u8>, post: Seq<u8>)
    requires
        mp.spec_size_fits(),
        measures_kept(flatten_parts(patches_points(mp@.patches))),
    ensures
        Multipatch::spec_read_content(
            pre + mp.spec_content() + post,
            pre.len() as int,
            mp.spec_content().len() as i32,
        ) == Ok::<(MultipatchView, int), Error>((mp@, mp.spec_content().len() as int)),
{
    let patches = mp@.patches;
    let pp = patches_points(patches);
    let codes = patch_codes(patches);
    lemma_multipatch_content_len(mp@.bbox, patches);
    assert(mp.spec_content() =~= multipart_record(mp@.bbox, pp, true, codes));
    assert(multipatch_content_len(patches) == multipart_record_len::<PointZ>(pp, true));
    assert forall|k: int| 0 <= k < codes.len() implies valid_patch_code(#[trigger] codes[k]) by {
        lemma_patch_code_roundtrip(patches[k].0, codes[k]);
    }
    lemma_stands_between(pre, mp.spec_content(), post);
    lemma_multipart_readback(
        pre + mp.spec_content() + post,
        pre.len() as int,
        mp@.bbox,
        pp,
        true,
        codes,
    );
    let v = MultipartView { bbox: mp@.bbox, parts: pp, patch_codes: codes };
    assert forall|k: int| 0 <= k < patches.len() implies #[trigger] multipatch_of_record(v).patches[k]
        == patches[k] by {
        lemma_patch_code_roundtrip(patches[k].0, codes[k]);
    }
    assert(multipatch_of_record(v).patches =~= patches);
}

} // verus!
