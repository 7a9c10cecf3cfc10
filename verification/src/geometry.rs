//! Tangent-space synthesis: the per-triangle/per-vertex accumulation that
//! equips a model's vertices with tangent and bitangent vectors.

use vstd::prelude::*;
use crate::fixed::{Fx2, Fx3, SCALE, div_trunc, div_trunc_i128, lemma_div_trunc_bound};

verus! {

/// Largest magnitude (in millionths) a position or texture coordinate may
/// have; keeps every intermediate product inside `i128`.
pub const COORD_LIMIT: i64 = 20_000_000_000;

/// Largest magnitude of one per-triangle tangent contribution:
/// `8 * COORD_LIMIT^2 * SCALE`.
pub open spec fn contrib_bound() -> int {
    3_200_000_000_000_000_000_000_000_000
}

/// A vertex of the normalized model representation.  Tangent and bitangent
/// start at zero and are populated by `compute_tangents`; they are carried
/// in wide integers because a contribution divides by a UV determinant
/// that may be small.
#[derive(Clone, Copy, Debug, PartialEq, Eq, Structural)]
pub struct ModelVertex {
    pub position: Fx3,
    pub tex_coords: Fx2,
    pub normal: Fx3,
    pub tangent: Wide3,
    pub bitangent: Wide3,
}

/// A wide fixed-point 3-vector (tangents and bitangents).
#[derive(Clone, Copy, Debug, PartialEq, Eq, Structural)]
pub struct Wide3 {
    pub x: i128,
    pub y: i128,
    pub z: i128,
}

/// Failure of tangent synthesis.
#[derive(Clone, Copy, Debug, PartialEq, Eq, Structural)]
pub enum GeometryError {
    /// The triangle's texture coordinates span a zero-area UV triangle, so
    /// the tangent contribution is undefined.
    DegenerateUv { triangle: usize },
}

impl ModelVertex {
    /// A vertex with zeroed tangent space.
    pub fn new(position: Fx3, tex_coords: Fx2, normal: Fx3) -> (r: ModelVertex)
        ensures
            r == (ModelVertex {
                position,
                tex_coords,
                normal,
                tangent: Wide3 { x: 0, y: 0, z: 0 },
                bitangent: Wide3 { x: 0, y: 0, z: 0 },
            }),
    {
        ModelVertex {
            position,
            tex_coords,
            normal,
            tangent: Wide3 { x: 0, y: 0, z: 0 },
            bitangent: Wide3 { x: 0, y: 0, z: 0 },
        }
    }
}

/// A 3-vector within the coordinate range.
pub open spec fn fx3_ok(v: Fx3) -> bool {
    &&& -COORD_LIMIT <= v.x <= COORD_LIMIT
    &&& -COORD_LIMIT <= v.y <= COORD_LIMIT
    &&& -COORD_LIMIT <= v.z <= COORD_LIMIT
}

/// A 2-vector within the coordinate range.
pub open spec fn fx2_ok(v: Fx2) -> bool {
    &&& -COORD_LIMIT <= v.u <= COORD_LIMIT
    &&& -COORD_LIMIT <= v.v <= COORD_LIMIT
}

/// Position and texture coordinates small enough for exact synthesis.
pub open spec fn in_coord_range(v: ModelVertex) -> bool {
    &&& -COORD_LIMIT <= v.position.x <= COORD_LIMIT
    &&& -COORD_LIMIT <= v.position.y <= COORD_LIMIT
    &&& -COORD_LIMIT <= v.position.z <= COORD_LIMIT
    &&& -COORD_LIMIT <= v.tex_coords.u <= COORD_LIMIT
    &&& -COORD_LIMIT <= v.tex_coords.v <= COORD_LIMIT
}

/// The UV determinant of a triangle: the quantity whose reciprocal scales
/// both tangent and bitangent contributions.
pub open spec fn tri_det_v(va: ModelVertex, vb: ModelVertex, vc: ModelVertex) -> int {
    let d1u = vb.tex_coords.u - va.tex_coords.u;
    let d1v = vb.tex_coords.v - va.tex_coords.v;
    let d2u = vc.tex_coords.u - va.tex_coords.u;
    let d2v = vc.tex_coords.v - va.tex_coords.v;
    d1u * d2v - d1v * d2u
}

/// One scalar contribution: `(e1*db - e2*da) * SCALE / det`, truncated.
pub open spec fn contrib_scalar(e1: int, e2: int, da: int, db: int, det: int) -> int
    recommends
        det != 0,
{
    div_trunc((e1 * db - e2 * da) * SCALE, det)
}

/// The difference `q - p` along one axis (0 = x, 1 = y, 2 = z).
pub open spec fn axis_delta(p: Fx3, q: Fx3, axis: int) -> int {
    if axis == 0 {
        q.x - p.x
    } else if axis == 1 {
        q.y - p.y
    } else {
        q.z - p.z
    }
}

/// Component `k` of a triangle's contribution: components 0..3 are the
/// tangent's x, y, z; components 3..6 are the bitangent's.  The tangent
/// uses the V deltas, the bitangent the U deltas, both over the same
/// determinant (the sign flip of the original `-r` formulation is folded
/// into the operand order).
pub open spec fn tri_comp_v(va: ModelVertex, vb: ModelVertex, vc: ModelVertex, k: int) -> int
    recommends
        0 <= k < 6,
        tri_det_v(va, vb, vc) != 0,
{
    let det = tri_det_v(va, vb, vc);
    let axis = if k < 3 { k } else { k - 3 };
    let e1 = axis_delta(va.position, vb.position, axis);
    let e2 = axis_delta(va.position, vc.position, axis);
    let d1u = vb.tex_coords.u - va.tex_coords.u;
    let d1v = vb.tex_coords.v - va.tex_coords.v;
    let d2u = vc.tex_coords.u - va.tex_coords.u;
    let d2v = vc.tex_coords.v - va.tex_coords.v;
    if k < 3 {
        contrib_scalar(e1, e2, d1v, d2v, det)
    } else {
        contrib_scalar(e1, e2, d1u, d2u, det)
    }
}

/// The three vertex indices of triangle `t`.
pub open spec fn tri_a(idx: Seq<u32>, t: int) -> int {
    idx[3 * t] as int
}

pub open spec fn tri_b(idx: Seq<u32>, t: int) -> int {
    idx[3 * t + 1] as int
}

pub open spec fn tri_c(idx: Seq<u32>, t: int) -> int {
    idx[3 * t + 2] as int
}

/// The UV determinant of triangle `t` of an indexed mesh.
pub open spec fn tri_det(vs: Seq<ModelVertex>, idx: Seq<u32>, t: int) -> int {
    tri_det_v(vs[tri_a(idx, t)], vs[tri_b(idx, t)], vs[tri_c(idx, t)])
}

/// Component `k` of triangle `t`'s contribution.
pub open spec fn tri_comp(vs: Seq<ModelVertex>, idx: Seq<u32>, t: int, k: int) -> int {
    tri_comp_v(vs[tri_a(idx, t)], vs[tri_b(idx, t)], vs[tri_c(idx, t)], k)
}

/// How many of the three slots name vertex `v`.
pub open spec fn occ(a: int, b: int, c: int, v: int) -> int {
    (if a == v { 1int } else { 0int }) + (if b == v { 1int } else { 0int })
        + (if c == v { 1int } else { 0int })
}

/// How many slots of triangle `t` name vertex `v`.
pub open spec fn occ_in_tri(idx: Seq<u32>, t: int, v: int) -> int {
    occ(tri_a(idx, t), tri_b(idx, t), tri_c(idx, t), v)
}

/// Number of triangle slots among the first `t` triangles that name `v`:
/// the vertex's contributing-triangle counter.
pub open spec fn count_sum(idx: Seq<u32>, t: int, v: int) -> int
    decreases t,
{
    if t <= 0 {
        0
    } else {
        count_sum(idx, t - 1, v) + occ_in_tri(idx, t - 1, v)
    }
}

/// The unaveraged sum of component `k` over the first `t` triangles'
/// contributions to vertex `v`, each weighted by how often the triangle
/// names `v`.
pub open spec fn comp_sum(vs: Seq<ModelVertex>, idx: Seq<u32>, t: int, v: int, k: int) -> int
    decreases t,
{
    if t <= 0 {
        0
    } else {
        comp_sum(vs, idx, t - 1, v, k) + occ_in_tri(idx, t - 1, v) * tri_comp(vs, idx, t - 1, k)
    }
}

/// Position, texture coordinates and normal agree.
pub open spec fn same_base(a: ModelVertex, b: ModelVertex) -> bool {
    &&& a.position == b.position
    &&& a.tex_coords == b.tex_coords
    &&& a.normal == b.normal
}

/// Running accumulator for one vertex: six component sums and the
/// contributing-triangle counter.
#[derive(Clone, Copy, Debug, PartialEq, Eq, Structural)]
struct Accum {
    tx: i128,
    ty: i128,
    tz: i128,
    bx: i128,
    by: i128,
    bz: i128,
    count: u64,
}

/// One triangle's six contribution components.
#[derive(Clone, Copy, Debug, PartialEq, Eq, Structural)]
struct TriContrib {
    tx: i128,
    ty: i128,
    tz: i128,
    bx: i128,
    by: i128,
    bz: i128,
}

/// Products of two coordinate deltas are bounded by `4 * COORD_LIMIT^2`.
proof fn lemma_delta_mul_bound(a: int, b: int) by (nonlinear_arith)
    requires
        -40_000_000_000 <= a <= 40_000_000_000,
        -40_000_000_000 <= b <= 40_000_000_000,
    ensures
        -1_600_000_000_000_000_000_000 <= a * b <= 1_600_000_000_000_000_000_000,
{
}

/// One scalar contribution, computed exactly.
fn contrib_axis(e1: i64, e2: i64, da: i64, db: i64, det: i128) -> (c: i128)
    requires
        det != 0,
        -2 * COORD_LIMIT <= e1 <= 2 * COORD_LIMIT,
        -2 * COORD_LIMIT <= e2 <= 2 * COORD_LIMIT,
        -2 * COORD_LIMIT <= da <= 2 * COORD_LIMIT,
        -2 * COORD_LIMIT <= db <= 2 * COORD_LIMIT,
    ensures
        c == contrib_scalar(e1 as int, e2 as int, da as int, db as int, det as int),
        -contrib_bound() <= c <= contrib_bound(),
{
    proof {
        lemma_delta_mul_bound(e1 as int, db as int);
        lemma_delta_mul_bound(e2 as int, da as int);
    }
    let p1: i128 = e1 as i128 * db as i128;
    let p2: i128 = e2 as i128 * da as i128;
    let num: i128 = (p1 - p2) * 1_000_000i128;
    proof {
        assert(SCALE == 1_000_000);
        assert(num == (p1 as int - p2 as int) * (SCALE as int));
        lemma_div_trunc_bound(num as int, det as int);
    }
    div_trunc_i128(num, det)
}

/// The six contribution components of one triangle, or `None` when its UV
/// triangle is degenerate.
fn tri_contribs(va: &ModelVertex, vb: &ModelVertex, vc: &ModelVertex) -> (r: Option<
    TriContrib,
>)
    requires
        in_coord_range(*va),
        in_coord_range(*vb),
        in_coord_range(*vc),
    ensures
        r is None <==> tri_det_v(*va, *vb, *vc) == 0,
        r matches Some(c) ==> {
            &&& c.tx == tri_comp_v(*va, *vb, *vc, 0)
            &&& c.ty == tri_comp_v(*va, *vb, *vc, 1)
            &&& c.tz == tri_comp_v(*va, *vb, *vc, 2)
            &&& c.bx == tri_comp_v(*va, *vb, *vc, 3)
            &&& c.by == tri_comp_v(*va, *vb, *vc, 4)
            &&& c.bz == tri_comp_v(*va, *vb, *vc, 5)
            &&& -contrib_bound() <= c.tx <= contrib_bound()
            &&& -contrib_bound() <= c.ty <= contrib_bound()
            &&& -contrib_bound() <= c.tz <= contrib_bound()
            &&& -contrib_bound() <= c.bx <= contrib_bound()
            &&& -contrib_bound() <= c.by <= contrib_bound()
            &&& -contrib_bound() <= c.bz <= contrib_bound()
        },
{
    let d1u: i64 = vb.tex_coords.u - va.tex_coords.u;
    let d1v: i64 = vb.tex_coords.v - va.tex_coords.v;
    let d2u: i64 = vc.tex_coords.u - va.tex_coords.u;
    let d2v: i64 = vc.tex_coords.v - va.tex_coords.v;
    proof {
        lemma_delta_mul_bound(d1u as int, d2v as int);
        lemma_delta_mul_bound(d1v as int, d2u as int);
    }
    let det: i128 = d1u as i128 * d2v as i128 - d1v as i128 * d2u as i128;
    if det == 0 {
        return None;
    }
    let e1x: i64 = vb.position.x - va.position.x;
    let e1y: i64 = vb.position.y - va.position.y;
    let e1z: i64 = vb.position.z - va.position.z;
    let e2x: i64 = vc.position.x - va.position.x;
    let e2y: i64 = vc.position.y - va.position.y;
    let e2z: i64 = vc.position.z - va.position.z;
    Some(TriContrib {
        tx: contrib_axis(e1x, e2x, d1v, d2v, det),
        ty: contrib_axis(e1y, e2y, d1v, d2v, det),
        tz: contrib_axis(e1z, e2z, d1v, d2v, det),
        bx: contrib_axis(e1x, e2x, d1u, d2u, det),
        by: contrib_axis(e1y, e2y, d1u, d2u, det),
        bz: contrib_axis(e1z, e2z, d1u, d2u, det),
    })
}


/// A weighted contribution (weight at most 3) stays within three times the
/// per-triangle bound.
proof fn lemma_occ_mul_bound(o: int, c: int) by (nonlinear_arith)
    requires
        0 <= o <= 3,
        -3_200_000_000_000_000_000_000_000_000 <= c <= 3_200_000_000_000_000_000_000_000_000,
    ensures
        -9_600_000_000_000_000_000_000_000_000 <= o * c <= 9_600_000_000_000_000_000_000_000_000,
{
}

/// Multiplication distributes over the three occurrence indicators.
proof fn lemma_indicator_mul(i1: int, i2: int, i3: int, c: int) by (nonlinear_arith)
    ensures
        (i1 + i2 + i3) * c == i1 * c + i2 * c + i3 * c,
        1 * c == c,
        0 * c == 0,
{
}

/// One triangle's contribution components are bounded when its UV triangle
/// is not degenerate.
proof fn lemma_tri_comp_bound(vs: Seq<ModelVertex>, idx: Seq<u32>, t: int, k: int)
    requires
        0 <= t,
        3 * t + 3 <= idx.len(),
        forall|j: int| 0 <= j < idx.len() ==> (#[trigger] idx[j]) < vs.len(),
        forall|v: int| 0 <= v < vs.len() ==> in_coord_range(#[trigger] vs[v]),
        0 <= k < 6,
        tri_det(vs, idx, t) != 0,
    ensures
        -contrib_bound() <= tri_comp(vs, idx, t, k) <= contrib_bound(),
{
    let va = vs[tri_a(idx, t)];
    let vb = vs[tri_b(idx, t)];
    let vc = vs[tri_c(idx, t)];
    let det = tri_det_v(va, vb, vc);
    let axis = if k < 3 { k } else { k - 3 };
    let e1 = axis_delta(va.position, vb.position, axis);
    let e2 = axis_delta(va.position, vc.position, axis);
    let d1u = vb.tex_coords.u - va.tex_coords.u;
    let d1v = vb.tex_coords.v - va.tex_coords.v;
    let d2u = vc.tex_coords.u - va.tex_coords.u;
    let d2v = vc.tex_coords.v - va.tex_coords.v;
    let da = if k < 3 { d1v } else { d1u };
    let db = if k < 3 { d2v } else { d2u };
    lemma_delta_mul_bound(e1, db);
    lemma_delta_mul_bound(e2, da);
    let n0 = e1 * db - e2 * da;
    assert(SCALE == 1_000_000);
    assert(n0 * (SCALE as int) == n0 * 1_000_000);
    lemma_div_trunc_bound(n0 * (SCALE as int), det);
}

/// The running sums grow at most linearly in the number of triangles.
proof fn lemma_sums_bounded(vs: Seq<ModelVertex>, idx: Seq<u32>, t: int)
    requires
        0 <= t,
        3 * t <= idx.len(),
        forall|j: int| 0 <= j < idx.len() ==> (#[trigger] idx[j]) < vs.len(),
        forall|v: int| 0 <= v < vs.len() ==> in_coord_range(#[trigger] vs[v]),
        forall|t2: int| 0 <= t2 < t ==> tri_det(vs, idx, t2) != 0,
    ensures
        forall|v: int| 0 <= #[trigger] count_sum(idx, t, v) <= 3 * t,
        forall|v: int, k: int| 0 <= k < 6 ==> -(t * 9_600_000_000_000_000_000_000_000_000)
            <= #[trigger] comp_sum(vs, idx, t, v, k)
            <= t * 9_600_000_000_000_000_000_000_000_000,
    decreases t,
{
    if t > 0 {
        lemma_sums_bounded(vs, idx, t - 1);
        assert(tri_det(vs, idx, t - 1) != 0);
        assert forall|v: int| 0 <= #[trigger] count_sum(idx, t, v) <= 3 * t by {
            assert(count_sum(idx, t, v) == count_sum(idx, t - 1, v) + occ_in_tri(idx, t - 1, v));
        }
        assert forall|v: int, k: int| 0 <= k < 6 implies -(t
            * 9_600_000_000_000_000_000_000_000_000) <= #[trigger] comp_sum(vs, idx, t, v, k) <= t
            * 9_600_000_000_000_000_000_000_000_000 by {
            lemma_tri_comp_bound(vs, idx, t - 1, k);
            lemma_occ_mul_bound(occ_in_tri(idx, t - 1, v), tri_comp(vs, idx, t - 1, k));
            assert(comp_sum(vs, idx, t, v, k) == comp_sum(vs, idx, t - 1, v, k) + occ_in_tri(
                idx,
                t - 1,
                v,
            ) * tri_comp(vs, idx, t - 1, k));
        }
    }
}

/// Synthesizes tangent-space data: every triangle accumulates its tangent
/// and bitangent contribution (and a counter increment) into its three
/// vertices, and each touched vertex then stores the mean of what it
/// accumulated.
///
/// Law: after synthesis, each touched vertex's tangent and bitangent equal
/// the unaveraged per-triangle contribution sums divided by the vertex's
/// contributing-triangle counter, exactly; untouched vertices are left
/// unchanged.  A triangle with a zero-area UV mapping is reported as
/// `DegenerateUv` (the leftmost such triangle), and nothing is modified.
///
/// Returns the contributing-triangle counters.
#[verifier::rlimit(100)]
pub fn compute_tangents(vertices: &mut Vec<ModelVertex>, indices: &Vec<u32>) -> (r: Result<
    Vec<u64>,
    GeometryError,
>)
    requires
        indices@.len() <= 0x3000_0000,
        forall|j: int| 0 <= j < indices@.len() ==> (#[trigger] indices@[j])
            < old(vertices)@.len(),
        forall|v: int| 0 <= v < old(vertices)@.len() ==> in_coord_range(
            #[trigger] old(vertices)@[v],
        ),
    ensures
        ({
            let vs0 = old(vertices)@;
            let idx = indices@;
            let nt = idx.len() as int / 3;
            match r {
                Result::Err(e) => {
                    &&& final(vertices)@ == vs0
                    &&& e matches GeometryError::DegenerateUv { triangle } && {
                        &&& 0 <= triangle < nt
                        &&& tri_det(vs0, idx, triangle as int) == 0
                        &&& forall|t: int| 0 <= t < triangle ==> tri_det(vs0, idx, t) != 0
                    }
                },
                Result::Ok(counts) => {
                    &&& forall|t: int| 0 <= t < nt ==> tri_det(vs0, idx, t) != 0
                    &&& counts@.len() == vs0.len()
                    &&& final(vertices)@.len() == vs0.len()
                    &&& forall|v: int| 0 <= v < vs0.len() ==> counts@[v] == count_sum(idx, nt, v)
                    &&& forall|v: int| 0 <= v < vs0.len() ==> same_base(
                        #[trigger] final(vertices)@[v],
                        vs0[v],
                    )
                    &&& forall|v: int| 0 <= v < vs0.len() && count_sum(idx, nt, v) == 0
                        ==> #[trigger] final(vertices)@[v] == vs0[v]
                    &&& forall|v: int| 0 <= v < vs0.len() && count_sum(idx, nt, v) > 0 ==> {
                        let n = count_sum(idx, nt, v);
                        let fv = #[trigger] final(vertices)@[v];
                        &&& fv.tangent.x == div_trunc(comp_sum(vs0, idx, nt, v, 0), n)
                        &&& fv.tangent.y == div_trunc(comp_sum(vs0, idx, nt, v, 1), n)
                        &&& fv.tangent.z == div_trunc(comp_sum(vs0, idx, nt, v, 2), n)
                        &&& fv.bitangent.x == div_trunc(comp_sum(vs0, idx, nt, v, 3), n)
                        &&& fv.bitangent.y == div_trunc(comp_sum(vs0, idx, nt, v, 4), n)
                        &&& fv.bitangent.z == div_trunc(comp_sum(vs0, idx, nt, v, 5), n)
                    }
                },
            }
        }),
{
    let nv: usize = vertices.len();
    let num_tris: usize = indices.len() / 3;
    proof {
        vstd::arithmetic::div_mod::lemma_fundamental_div_mod(indices@.len() as int, 3);
    }
    assert(3 * (num_tris as int) <= indices@.len());
    assert(num_tris <= 0x1000_0000);

    let mut acc: Vec<Accum> = Vec::new();
    let mut i: usize = 0;
    while i < nv
        invariant
            0 <= i <= nv,
            acc@.len() == i,
            forall|v: int| 0 <= v < i ==> #[trigger] acc@[v] == (Accum {
                tx: 0,
                ty: 0,
                tz: 0,
                bx: 0,
                by: 0,
                bz: 0,
                count: 0,
            }),
        decreases nv - i,
    {
        acc.push(Accum { tx: 0, ty: 0, tz: 0, bx: 0, by: 0, bz: 0, count: 0 });
        i = i + 1;
    }

    let mut t: usize = 0;
    while t < num_tris
        invariant
            num_tris == indices@.len() / 3,
            indices@.len() <= 0x3000_0000,
            3 * (num_tris as int) <= indices@.len(),
            num_tris <= 0x1000_0000,
            0 <= t <= num_tris,
            vertices@ == old(vertices)@,
            nv == vertices@.len(),
            acc@.len() == nv,
            forall|j: int| 0 <= j < indices@.len() ==> (#[trigger] indices@[j])
                < vertices@.len(),
            forall|v: int| 0 <= v < vertices@.len() ==> in_coord_range(
                #[trigger] vertices@[v],
            ),
            forall|t2: int| 0 <= t2 < t ==> tri_det(vertices@, indices@, t2) != 0,
            forall|v: int| 0 <= v < nv ==> {
                let a = #[trigger] acc@[v];
                &&& a.count == count_sum(indices@, t as int, v)
                &&& a.tx == comp_sum(vertices@, indices@, t as int, v, 0)
                &&& a.ty == comp_sum(vertices@, indices@, t as int, v, 1)
                &&& a.tz == comp_sum(vertices@, indices@, t as int, v, 2)
                &&& a.bx == comp_sum(vertices@, indices@, t as int, v, 3)
                &&& a.by == comp_sum(vertices@, indices@, t as int, v, 4)
                &&& a.bz == comp_sum(vertices@, indices@, t as int, v, 5)
            },
        decreases num_tris - t,
    {
        assert(3 * (t as int) + 3 <= 3 * (num_tris as int));
        assert(3 * (t as int) + 2 < indices@.len());
        let base: usize = 3 * t;
        let ia: usize = indices[base] as usize;
        let ib: usize = indices[base + 1] as usize;
        let ic: usize = indices[base + 2] as usize;
        let va: ModelVertex = vertices[ia];
        let vb: ModelVertex = vertices[ib];
        let vc: ModelVertex = vertices[ic];
        match tri_contribs(&va, &vb, &vc) {
            None => {
                return Err(GeometryError::DegenerateUv { triangle: t });
            },
            Some(c) => {
                proof {
                    lemma_sums_bounded(vertices@, indices@, t as int);
                }
                let a0 = acc[ia];
                acc.set(
                    ia,
                    Accum {
                        tx: a0.tx + c.tx,
                        ty: a0.ty + c.ty,
                        tz: a0.tz + c.tz,
                        bx: a0.bx + c.bx,
                        by: a0.by + c.by,
                        bz: a0.bz + c.bz,
                        count: a0.count + 1,
                    },
                );
                let a1 = acc[ib];
                acc.set(
                    ib,
                    Accum {
                        tx: a1.tx + c.tx,
                        ty: a1.ty + c.ty,
                        tz: a1.tz + c.tz,
                        bx: a1.bx + c.bx,
                        by: a1.by + c.by,
                        bz: a1.bz + c.bz,
                        count: a1.count + 1,
                    },
                );
                let a2 = acc[ic];
                acc.set(
                    ic,
                    Accum {
                        tx: a2.tx + c.tx,
                        ty: a2.ty + c.ty,
                        tz: a2.tz + c.tz,
                        bx: a2.bx + c.bx,
                        by: a2.by + c.by,
                        bz: a2.bz + c.bz,
                        count: a2.count + 1,
                    },
                );
                proof {
                    let idx = indices@;
                    let vs = vertices@;
                    let ti = t as int;
                    assert(tri_a(idx, ti) == ia as int && tri_b(idx, ti) == ib as int
                        && tri_c(idx, ti) == ic as int);
                    assert(tri_det(vs, idx, ti) != 0);
                    assert forall|v: int| 0 <= v < nv implies {
                        let a = #[trigger] acc@[v];
                        &&& a.count == count_sum(idx, ti + 1, v)
                        &&& a.tx == comp_sum(vs, idx, ti + 1, v, 0)
                        &&& a.ty == comp_sum(vs, idx, ti + 1, v, 1)
                        &&& a.tz == comp_sum(vs, idx, ti + 1, v, 2)
                        &&& a.bx == comp_sum(vs, idx, ti + 1, v, 3)
                        &&& a.by == comp_sum(vs, idx, ti + 1, v, 4)
                        &&& a.bz == comp_sum(vs, idx, ti + 1, v, 5)
                    } by {
                        let i1: int = if ia as int == v { 1 } else { 0 };
                        let i2: int = if ib as int == v { 1 } else { 0 };
                        let i3: int = if ic as int == v { 1 } else { 0 };
                        lemma_indicator_mul(i1, i2, i3, tri_comp_v(va, vb, vc, 0));
                        lemma_indicator_mul(i1, i2, i3, tri_comp_v(va, vb, vc, 1));
                        lemma_indicator_mul(i1, i2, i3, tri_comp_v(va, vb, vc, 2));
                        lemma_indicator_mul(i1, i2, i3, tri_comp_v(va, vb, vc, 3));
                        lemma_indicator_mul(i1, i2, i3, tri_comp_v(va, vb, vc, 4));
                        lemma_indicator_mul(i1, i2, i3, tri_comp_v(va, vb, vc, 5));
                    }
                }
                t = t + 1;
            },
        }
    }

    proof {
        lemma_sums_bounded(vertices@, indices@, num_tris as int);
    }

    let mut counts: Vec<u64> = Vec::new();
    let mut v: usize = 0;
    while v < nv
        invariant
            0 <= v <= nv,
            nv == vertices@.len(),
            num_tris == indices@.len() / 3,
            num_tris <= 0x1000_0000,
            acc@.len() == nv,
            counts@.len() == v,
            vertices@.len() == old(vertices)@.len(),
            forall|w: int| 0 <= w < nv ==> {
                let a = #[trigger] acc@[w];
                &&& a.count == count_sum(indices@, num_tris as int, w)
                &&& a.tx == comp_sum(old(vertices)@, indices@, num_tris as int, w, 0)
                &&& a.ty == comp_sum(old(vertices)@, indices@, num_tris as int, w, 1)
                &&& a.tz == comp_sum(old(vertices)@, indices@, num_tris as int, w, 2)
                &&& a.bx == comp_sum(old(vertices)@, indices@, num_tris as int, w, 3)
                &&& a.by == comp_sum(old(vertices)@, indices@, num_tris as int, w, 4)
                &&& a.bz == comp_sum(old(vertices)@, indices@, num_tris as int, w, 5)
            },
            forall|w: int| 0 <= w < v ==> counts@[w] == count_sum(
                indices@,
                num_tris as int,
                w,
            ),
            forall|w: int| v <= w < nv ==> #[trigger] vertices@[w] == old(vertices)@[w],
            forall|w: int| 0 <= w < v ==> same_base(#[trigger] vertices@[w], old(vertices)@[w]),
            forall|w: int| 0 <= w < v && count_sum(indices@, num_tris as int, w) == 0
                ==> #[trigger] vertices@[w] == old(vertices)@[w],
            forall|w: int| 0 <= w < v && count_sum(indices@, num_tris as int, w) > 0 ==> {
                let n = count_sum(indices@, num_tris as int, w);
                let fv = #[trigger] vertices@[w];
                &&& fv.tangent.x == div_trunc(
                    comp_sum(old(vertices)@, indices@, num_tris as int, w, 0),
                    n,
                )
                &&& fv.tangent.y == div_trunc(
                    comp_sum(old(vertices)@, indices@, num_tris as int, w, 1),
                    n,
                )
                &&& fv.tangent.z == div_trunc(
                    comp_sum(old(vertices)@, indices@, num_tris as int, w, 2),
                    n,
                )
                &&& fv.bitangent.x == div_trunc(
                    comp_sum(old(vertices)@, indices@, num_tris as int, w, 3),
                    n,
                )
                &&& fv.bitangent.y == div_trunc(
                    comp_sum(old(vertices)@, indices@, num_tris as int, w, 4),
                    n,
                )
                &&& fv.bitangent.z == div_trunc(
                    comp_sum(old(vertices)@, indices@, num_tris as int, w, 5),
                    n,
                )
            },
            forall|w: int| 0 <= w < nv ==> 0 <= #[trigger] count_sum(
                indices@,
                num_tris as int,
                w,
            ) <= 3 * (num_tris as int),
            forall|w: int, k: int| 0 <= k < 6 ==> -((num_tris as int)
                * 9_600_000_000_000_000_000_000_000_000) <= #[trigger] comp_sum(
                old(vertices)@,
                indices@,
                num_tris as int,
                w,
                k,
            ) <= (num_tris as int) * 9_600_000_000_000_000_000_000_000_000,
        decreases nv - v,
    {
        let a = acc[v];
        counts.push(a.count);
        if a.count > 0 {
            let n: i128 = a.count as i128;
            let mv = vertices[v];
            let updated = ModelVertex {
                tangent: Wide3 {
                    x: div_trunc_i128(a.tx, n),
                    y: div_trunc_i128(a.ty, n),
                    z: div_trunc_i128(a.tz, n),
                },
                bitangent: Wide3 {
                    x: div_trunc_i128(a.bx, n),
                    y: div_trunc_i128(a.by, n),
                    z: div_trunc_i128(a.bz, n),
                },
                ..mv
            };
            vertices.set(v, updated);
        }
        v = v + 1;
    }
    Ok(counts)
}


/// Sum of a sequence of contribution counters.
pub open spec fn sum_counts(counts: Seq<u64>) -> int
    decreases counts.len(),
{
    if counts.len() == 0 {
        0
    } else {
        sum_counts(counts.drop_last()) + counts.last()
    }
}

/// Sum of the contributing-triangle counters of vertices `0..nv` after the
/// first `t` triangles.
spec fn total_counts(idx: Seq<u32>, t: int, nv: int) -> int
    decreases nv,
{
    if nv <= 0 {
        0
    } else {
        total_counts(idx, t, nv - 1) + count_sum(idx, t, nv - 1)
    }
}

/// Sum over vertices `0..nv` of how often triangle `t` names each.
spec fn occ_total(idx: Seq<u32>, t: int, nv: int) -> int
    decreases nv,
{
    if nv <= 0 {
        0
    } else {
        occ_total(idx, t, nv - 1) + occ_in_tri(idx, t, nv - 1)
    }
}

/// A triangle's occurrences over all vertices total one per slot that
/// falls inside the range.
proof fn lemma_occ_total(idx: Seq<u32>, t: int, nv: int)
    requires
        0 <= nv,
    ensures
        occ_total(idx, t, nv) == (if 0 <= tri_a(idx, t) < nv { 1int } else { 0int }) + (
        if 0 <= tri_b(idx, t) < nv { 1int } else { 0int }) + (
        if 0 <= tri_c(idx, t) < nv { 1int } else { 0int }),
    decreases nv,
{
    if nv > 0 {
        lemma_occ_total(idx, t, nv - 1);
    }
}

/// Before any triangle is processed every counter is zero.
proof fn lemma_total_counts_zero(idx: Seq<u32>, nv: int)
    requires
        0 <= nv,
    ensures
        total_counts(idx, 0, nv) == 0,
    decreases nv,
{
    if nv > 0 {
        lemma_total_counts_zero(idx, nv - 1);
    }
}

/// Processing one more triangle adds its occurrence total.
proof fn lemma_total_counts_step(idx: Seq<u32>, t: int, nv: int)
    requires
        1 <= t,
        0 <= nv,
    ensures
        total_counts(idx, t, nv) == total_counts(idx, t - 1, nv) + occ_total(idx, t - 1, nv),
    decreases nv,
{
    if nv > 0 {
        lemma_total_counts_step(idx, t, nv - 1);
    }
}

/// Each processed triangle contributes exactly three counter increments.
proof fn lemma_total_counts(idx: Seq<u32>, t: int, nv: int)
    requires
        0 <= t,
        3 * t <= idx.len(),
        0 <= nv,
        forall|j: int| 0 <= j < idx.len() ==> (#[trigger] idx[j]) < nv,
    ensures
        total_counts(idx, t, nv) == 3 * t,
    decreases t,
{
    if t == 0 {
        lemma_total_counts_zero(idx, nv);
    } else {
        lemma_total_counts(idx, t - 1, nv);
        lemma_total_counts_step(idx, t, nv);
        lemma_occ_total(idx, t - 1, nv);
        assert(idx[3 * (t - 1)] < nv);
        assert(idx[3 * (t - 1) + 1] < nv);
        assert(idx[3 * (t - 1) + 2] < nv);
    }
}

/// The flat sum of a counter prefix equals the per-vertex total.
proof fn lemma_sum_counts_matches(counts: Seq<u64>, idx: Seq<u32>, nt: int, nv: int)
    requires
        0 <= nv <= counts.len(),
        forall|v: int| 0 <= v < counts.len() ==> counts[v] == count_sum(idx, nt, v),
    ensures
        sum_counts(counts.take(nv)) == total_counts(idx, nt, nv),
    decreases nv,
{
    if nv > 0 {
        lemma_sum_counts_matches(counts, idx, nt, nv - 1);
        assert(counts.take(nv).drop_last() =~= counts.take(nv - 1));
        assert(counts.take(nv).last() == counts[nv - 1]);
    }
}

/// Law: a model of `nt` triangles, each of which touches three vertex
/// slots, produces contributing-triangle counters that sum to exactly
/// `3 * nt` (the counters are those `compute_tangents` returns).
pub proof fn lemma_counts_sum_to_three_per_triangle(counts: Seq<u64>, idx: Seq<u32>, nt: int)
    requires
        0 <= nt,
        3 * nt <= idx.len(),
        forall|j: int| 0 <= j < idx.len() ==> (#[trigger] idx[j]) < counts.len(),
        forall|v: int| 0 <= v < counts.len() ==> counts[v] == count_sum(idx, nt, v),
    ensures
        sum_counts(counts) == 3 * nt,
{
    lemma_sum_counts_matches(counts, idx, nt, counts.len() as int);
    assert(counts.take(counts.len() as int) =~= counts);
    lemma_total_counts(idx, nt, counts.len() as int);
}


/// Multiplication distributes over a sum of counts.
proof fn lemma_mul_distrib_add(a: int, b: int, c: int) by (nonlinear_arith)
    ensures
        (a + b) * c == a * c + b * c,
        0 * c == 0,
{
}

/// When every triangle touching vertex `v` contributes the same value to
/// component `k`, the running sum is that value times the counter.
proof fn lemma_uniform_comp_sum(
    vs: Seq<ModelVertex>,
    idx: Seq<u32>,
    t: int,
    v: int,
    k: int,
    c: int,
)
    requires
        0 <= t,
        forall|t2: int| 0 <= t2 < t && occ_in_tri(idx, t2, v) > 0 ==> #[trigger] tri_comp(
            vs,
            idx,
            t2,
            k,
        ) == c,
    ensures
        comp_sum(vs, idx, t, v, k) == count_sum(idx, t, v) * c,
    decreases t,
{
    if t > 0 {
        lemma_uniform_comp_sum(vs, idx, t - 1, v, k, c);
        let o = occ_in_tri(idx, t - 1, v);
        lemma_mul_distrib_add(count_sum(idx, t - 1, v), o, c);
        if o > 0 {
            assert(tri_comp(vs, idx, t - 1, k) == c);
        } else {
            assert(o == 0);
            assert(o * tri_comp(vs, idx, t - 1, k) == 0) by (nonlinear_arith)
                requires
                    o == 0,
            ;
            assert(o * c == 0) by (nonlinear_arith)
                requires
                    o == 0,
            ;
        }
    } else {
        lemma_mul_distrib_add(0, 0, c);
    }
}

/// Law (shared-edge averaging): when every triangle that touches a vertex
/// contributes the same value to a tangent or bitangent component — as on
/// a flat quad whose two triangles share an edge — the synthesized
/// average equals that shared value exactly; in particular it is non-zero
/// whenever the shared contribution is.  (With differing contributions
/// the mean can be anything, including zero, so no more is claimed.)
pub proof fn lemma_uniform_contributions_average(
    vs: Seq<ModelVertex>,
    idx: Seq<u32>,
    nt: int,
    v: int,
    k: int,
    c: int,
)
    requires
        0 <= nt,
        forall|t: int| 0 <= t < nt && occ_in_tri(idx, t, v) > 0 ==> #[trigger] tri_comp(
            vs,
            idx,
            t,
            k,
        ) == c,
        count_sum(idx, nt, v) > 0,
    ensures
        div_trunc(comp_sum(vs, idx, nt, v, k), count_sum(idx, nt, v)) == c,
{
    lemma_uniform_comp_sum(vs, idx, nt, v, k, c);
    let n = count_sum(idx, nt, v);
    if c >= 0 {
        assert(n * c >= 0) by (nonlinear_arith)
            requires
                n > 0,
                c >= 0,
        ;
        vstd::arithmetic::div_mod::lemma_div_multiples_vanish(c, n);
    } else {
        assert(n * c < 0 && n * c * -1 == n * (c * -1) && c * -1 > 0) by (nonlinear_arith)
            requires
                n > 0,
                c < 0,
        ;
        vstd::arithmetic::div_mod::lemma_div_multiples_vanish(c * -1, n);
        assert(div_trunc(n * c, n) == ((n * c * -1) / n) * -1);
    }
}

} // verus!
