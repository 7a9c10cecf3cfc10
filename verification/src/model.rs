//! The normalized model representation and per-instance transforms.
//!
//! Meshes and materials here carry the exact data a renderer uploads: the
//! GPU buffer and texture objects themselves stay with the embedding
//! program, which converts these fixed-point values to its float layout.

use vstd::prelude::*;
use crate::fixed::{Fx2, Fx3, SCALE, div_trunc, div_trunc_i128, lemma_div_trunc_bound};
use crate::geometry::{
    fx3_ok,
    fx2_ok,
    ModelVertex,
    Wide3,
    GeometryError,
    COORD_LIMIT,
    in_coord_range,
    same_base,
    tri_det,
    count_sum,
    comp_sum,
    compute_tangents,
};
use crate::obj::{RawObj, RawObjView, TriRefView, VertexRefView, TriRef, VertexRef, opt_bytes};
use crate::mtl::{MaterialDef, MaterialDefView};

verus! {

/// Largest magnitude (in millionths) a quaternion component may have:
/// ten times unit scale, ample for any normalized rotation.
pub const QUAT_LIMIT: i64 = 10_000_000;

/// A rotation quaternion in fixed point (w + xi + yj + zk).
#[derive(Clone, Copy, Debug, PartialEq, Eq, Structural)]
pub struct Quat {
    pub w: i64,
    pub x: i64,
    pub y: i64,
    pub z: i64,
}

impl Quat {
    /// The identity rotation.
    pub fn identity() -> (r: Quat)
        ensures
            r == (Quat { w: SCALE, x: 0, y: 0, z: 0 }),
    {
        Quat { w: SCALE, x: 0, y: 0, z: 0 }
    }
}

/// All components within `QUAT_LIMIT`.
pub open spec fn quat_in_range(q: Quat) -> bool {
    &&& -QUAT_LIMIT <= q.w <= QUAT_LIMIT
    &&& -QUAT_LIMIT <= q.x <= QUAT_LIMIT
    &&& -QUAT_LIMIT <= q.y <= QUAT_LIMIT
    &&& -QUAT_LIMIT <= q.z <= QUAT_LIMIT
}

/// Entry (`col`, `row`) of the rotation-only 3x3 matrix of a quaternion,
/// in fixed point: the standard unit-quaternion formula with every product
/// rescaled by one division by `SCALE`.
pub open spec fn rot_entry(q: Quat, col: int, row: int) -> int
    recommends
        0 <= col < 3,
        0 <= row < 3,
{
    let xx2 = 2 * (q.x * q.x);
    let yy2 = 2 * (q.y * q.y);
    let zz2 = 2 * (q.z * q.z);
    let xy2 = 2 * (q.x * q.y);
    let xz2 = 2 * (q.x * q.z);
    let yz2 = 2 * (q.y * q.z);
    let wx2 = 2 * (q.w * q.x);
    let wy2 = 2 * (q.w * q.y);
    let wz2 = 2 * (q.w * q.z);
    if col == 0 {
        if row == 0 {
            SCALE - div_trunc(yy2 + zz2, SCALE as int)
        } else if row == 1 {
            div_trunc(xy2 + wz2, SCALE as int)
        } else {
            div_trunc(xz2 - wy2, SCALE as int)
        }
    } else if col == 1 {
        if row == 0 {
            div_trunc(xy2 - wz2, SCALE as int)
        } else if row == 1 {
            SCALE - div_trunc(xx2 + zz2, SCALE as int)
        } else {
            div_trunc(yz2 + wx2, SCALE as int)
        }
    } else {
        if row == 0 {
            div_trunc(xz2 + wy2, SCALE as int)
        } else if row == 1 {
            div_trunc(yz2 - wx2, SCALE as int)
        } else {
            SCALE - div_trunc(xx2 + yy2, SCALE as int)
        }
    }
}

/// One column of a 4x4 matrix (column-major, like the GPU layout).
#[derive(Clone, Copy, Debug, PartialEq, Eq, Structural)]
pub struct Col4 {
    pub x: i64,
    pub y: i64,
    pub z: i64,
    pub w: i64,
}

/// One column of a 3x3 matrix.
#[derive(Clone, Copy, Debug, PartialEq, Eq, Structural)]
pub struct Col3 {
    pub x: i64,
    pub y: i64,
    pub z: i64,
}

/// One placement of the shared mesh: a position and an orientation.
#[derive(Clone, Copy, Debug, PartialEq, Eq, Structural)]
pub struct Instance {
    pub position: Fx3,
    pub rotation: Quat,
}

/// The packed, GPU-ready projection of an `Instance`: a column-major model
/// matrix (translation times rotation) and the rotation-only normal
/// matrix.  Recomputed whenever the instance changes.
#[derive(Clone, Copy, Debug, PartialEq, Eq, Structural)]
pub struct InstanceRaw {
    pub model_c0: Col4,
    pub model_c1: Col4,
    pub model_c2: Col4,
    pub model_c3: Col4,
    pub normal_c0: Col3,
    pub normal_c1: Col3,
    pub normal_c2: Col3,
}

/// Products of two quaternion components are bounded.
proof fn lemma_quat_mul_bound(a: int, b: int) by (nonlinear_arith)
    requires
        -10_000_000 <= a <= 10_000_000,
        -10_000_000 <= b <= 10_000_000,
    ensures
        -100_000_000_000_000 <= a * b <= 100_000_000_000_000,
{
}

/// Twice the product of two quaternion components.
fn qprod2(a: i64, b: i64) -> (r: i64)
    requires
        -QUAT_LIMIT <= a <= QUAT_LIMIT,
        -QUAT_LIMIT <= b <= QUAT_LIMIT,
    ensures
        r == 2 * (a * b),
        -200_000_000_000_000 <= r <= 200_000_000_000_000,
{
    proof {
        lemma_quat_mul_bound(a as int, b as int);
    }
    2 * (a * b)
}

/// `n / SCALE`, truncated.
fn div_scale(n: i64) -> (r: i64)
    requires
        -400_000_000_000_000 <= n <= 400_000_000_000_000,
    ensures
        r == div_trunc(n as int, SCALE as int),
{
    proof {
        assert(SCALE == 1_000_000);
        lemma_div_trunc_bound(n as int, SCALE as int);
    }
    let wide: i128 = div_trunc_i128(n as i128, SCALE as i128);
    wide as i64
}

impl Instance {
    /// Packs this placement for GPU consumption: the model matrix is
    /// translation times rotation (rotation in the upper-left block, the
    /// position in the last column), the normal matrix is the rotation
    /// alone — no translation and no scale.  Pure: no state, no failure;
    /// a non-unit quaternion simply yields the matrix its components give.
    pub fn to_raw(&self) -> (r: InstanceRaw)
        requires
            quat_in_range(self.rotation),
        ensures
            r.model_c0 == (Col4 {
                x: rot_entry(self.rotation, 0, 0) as i64,
                y: rot_entry(self.rotation, 0, 1) as i64,
                z: rot_entry(self.rotation, 0, 2) as i64,
                w: 0,
            }),
            r.model_c1 == (Col4 {
                x: rot_entry(self.rotation, 1, 0) as i64,
                y: rot_entry(self.rotation, 1, 1) as i64,
                z: rot_entry(self.rotation, 1, 2) as i64,
                w: 0,
            }),
            r.model_c2 == (Col4 {
                x: rot_entry(self.rotation, 2, 0) as i64,
                y: rot_entry(self.rotation, 2, 1) as i64,
                z: rot_entry(self.rotation, 2, 2) as i64,
                w: 0,
            }),
            r.model_c3 == (Col4 {
                x: self.position.x,
                y: self.position.y,
                z: self.position.z,
                w: SCALE,
            }),
            r.normal_c0 == (Col3 {
                x: rot_entry(self.rotation, 0, 0) as i64,
                y: rot_entry(self.rotation, 0, 1) as i64,
                z: rot_entry(self.rotation, 0, 2) as i64,
            }),
            r.normal_c1 == (Col3 {
                x: rot_entry(self.rotation, 1, 0) as i64,
                y: rot_entry(self.rotation, 1, 1) as i64,
                z: rot_entry(self.rotation, 1, 2) as i64,
            }),
            r.normal_c2 == (Col3 {
                x: rot_entry(self.rotation, 2, 0) as i64,
                y: rot_entry(self.rotation, 2, 1) as i64,
                z: rot_entry(self.rotation, 2, 2) as i64,
            }),
    {
        let q = self.rotation;
        let xx2 = qprod2(q.x, q.x);
        let yy2 = qprod2(q.y, q.y);
        let zz2 = qprod2(q.z, q.z);
        let xy2 = qprod2(q.x, q.y);
        let xz2 = qprod2(q.x, q.z);
        let yz2 = qprod2(q.y, q.z);
        let wx2 = qprod2(q.w, q.x);
        let wy2 = qprod2(q.w, q.y);
        let wz2 = qprod2(q.w, q.z);

        let m00 = SCALE - div_scale(yy2 + zz2);
        let m01 = div_scale(xy2 + wz2);
        let m02 = div_scale(xz2 - wy2);
        let m10 = div_scale(xy2 - wz2);
        let m11 = SCALE - div_scale(xx2 + zz2);
        let m12 = div_scale(yz2 + wx2);
        let m20 = div_scale(xz2 + wy2);
        let m21 = div_scale(yz2 - wx2);
        let m22 = SCALE - div_scale(xx2 + yy2);

        InstanceRaw {
            model_c0: Col4 { x: m00, y: m01, z: m02, w: 0 },
            model_c1: Col4 { x: m10, y: m11, z: m12, w: 0 },
            model_c2: Col4 { x: m20, y: m21, z: m22, w: 0 },
            model_c3: Col4 { x: self.position.x, y: self.position.y, z: self.position.z, w: SCALE },
            normal_c0: Col3 { x: m00, y: m01, z: m02 },
            normal_c1: Col3 { x: m10, y: m11, z: m12 },
            normal_c2: Col3 { x: m20, y: m21, z: m22 },
        }
    }
}


/// A material of the finished model: its name and the texture file names
/// its bind group is built from (the texture and bind-group objects stay
/// with the embedding program).
#[derive(Debug, PartialEq, Eq)]
pub struct Material {
    pub name: Vec<u8>,
    pub diffuse_texture: Vec<u8>,
    pub normal_texture: Vec<u8>,
}

pub ghost struct MaterialView {
    pub name: Seq<u8>,
    pub diffuse_texture: Seq<u8>,
    pub normal_texture: Seq<u8>,
}

impl View for Material {
    type V = MaterialView;

    open spec fn view(&self) -> MaterialView {
        MaterialView {
            name: self.name@,
            diffuse_texture: self.diffuse_texture@,
            normal_texture: self.normal_texture@,
        }
    }
}

/// A mesh of the finished model: the vertex and index data a renderer
/// uploads, and the index of its material.
#[derive(Debug, PartialEq, Eq)]
pub struct Mesh {
    pub name: Vec<u8>,
    pub vertices: Vec<ModelVertex>,
    pub indices: Vec<u32>,
    pub num_elements: u32,
    pub material: usize,
}

pub ghost struct MeshView {
    pub name: Seq<u8>,
    pub vertices: Seq<ModelVertex>,
    pub indices: Seq<u32>,
    pub num_elements: u32,
    pub material: int,
}

impl View for Mesh {
    type V = MeshView;

    open spec fn view(&self) -> MeshView {
        MeshView {
            name: self.name@,
            vertices: self.vertices@,
            indices: self.indices@,
            num_elements: self.num_elements,
            material: self.material as int,
        }
    }
}

/// The finished model: meshes and the materials they index into.
#[derive(Debug, PartialEq, Eq)]
pub struct Model {
    pub meshes: Vec<Mesh>,
    pub materials: Vec<Material>,
}

pub ghost struct ModelView {
    pub meshes: Seq<MeshView>,
    pub materials: Seq<MaterialView>,
}

impl View for Model {
    type V = ModelView;

    open spec fn view(&self) -> ModelView {
        ModelView {
            meshes: self.meshes@.map_values(|m: Mesh| m@),
            materials: self.materials@.map_values(|m: Material| m@),
        }
    }
}

/// Failure of model import.
#[derive(Clone, Copy, Debug, PartialEq, Eq, Structural)]
pub enum ImportError {
    /// More triangles than the exact arithmetic is sized for.
    TooLarge,
    /// A face names an attribute index outside its table, or a flipped
    /// texture coordinate leaves the coordinate range.
    IndexOutOfRange,
    /// A triangle's texture coordinates span a zero-area UV triangle.
    DegenerateUv,
    /// A mesh selects a material the material list does not supply.
    InvalidMaterialIndex,
}

/// The bytes of `default_diffuse.qoi`, the fallback diffuse texture name.
pub open spec fn default_diffuse() -> Seq<u8> {
    seq![
        100u8, 101u8, 102u8, 97u8, 117u8, 108u8, 116u8, 95u8, 100u8, 105u8, 102u8, 102u8, 117u8,
        115u8, 101u8, 46u8, 113u8, 111u8, 105u8,
    ]
}

/// The bytes of `default_normal.qoi`, the fallback normal texture name.
pub open spec fn default_normal() -> Seq<u8> {
    seq![
        100u8, 101u8, 102u8, 97u8, 117u8, 108u8, 116u8, 95u8, 110u8, 111u8, 114u8, 109u8, 97u8,
        108u8, 46u8, 113u8, 111u8, 105u8,
    ]
}

/// Builds `default_diffuse.qoi` as bytes.
pub fn default_diffuse_vec() -> (r: Vec<u8>)
    ensures
        r@ == default_diffuse(),
{
    let mut v: Vec<u8> = Vec::new();
    v.push(100);
    v.push(101);
    v.push(102);
    v.push(97);
    v.push(117);
    v.push(108);
    v.push(116);
    v.push(95);
    v.push(100);
    v.push(105);
    v.push(102);
    v.push(102);
    v.push(117);
    v.push(115);
    v.push(101);
    v.push(46);
    v.push(113);
    v.push(111);
    v.push(105);
    proof {
        assert(v@ =~= default_diffuse());
    }
    v
}

/// Builds `default_normal.qoi` as bytes.
pub fn default_normal_vec() -> (r: Vec<u8>)
    ensures
        r@ == default_normal(),
{
    let mut v: Vec<u8> = Vec::new();
    v.push(100);
    v.push(101);
    v.push(102);
    v.push(97);
    v.push(117);
    v.push(108);
    v.push(116);
    v.push(95);
    v.push(110);
    v.push(111);
    v.push(114);
    v.push(109);
    v.push(97);
    v.push(108);
    v.push(46);
    v.push(113);
    v.push(111);
    v.push(105);
    proof {
        assert(v@ =~= default_normal());
    }
    v
}

/// Law (fallback): a material definition that names no diffuse or normal
/// texture receives the fixed default names verbatim.
pub open spec fn resolved_texture(given: Option<Seq<u8>>, fallback: Seq<u8>) -> Seq<u8> {
    match given {
        Option::Some(v) => v,
        Option::None => fallback,
    }
}

/// Resolves one optional texture name against a fallback.
pub fn texture_or(given: &Option<Vec<u8>>, fallback: Vec<u8>) -> (r: Vec<u8>)
    ensures
        r@ == resolved_texture(opt_bytes(*given), fallback@),
{
    match given {
        Some(v) => crate::text::subvec(v, 0, v.len()),
        None => fallback,
    }
}

/// The corner at slot `j` of a face list (three slots per triangle).
pub open spec fn corner(faces: Seq<TriRefView>, j: int) -> VertexRefView {
    let t = j / 3;
    if j % 3 == 0 {
        faces[t].a
    } else if j % 3 == 1 {
        faces[t].b
    } else {
        faces[t].c
    }
}

/// All corner slots of a face list, in order.
pub open spec fn corners(faces: Seq<TriRefView>) -> Seq<VertexRefView> {
    Seq::new((3 * faces.len()) as nat, |j: int| corner(faces, j))
}

/// The distinct corners among the first `i` slots, in first-appearance
/// order: the single-index vertex table.
pub open spec fn uniq(cs: Seq<VertexRefView>, i: int) -> Seq<VertexRefView>
    decreases i,
{
    if i <= 0 {
        Seq::empty()
    } else {
        let p = uniq(cs, i - 1);
        if p.contains(cs[i - 1]) {
            p
        } else {
            p.push(cs[i - 1])
        }
    }
}

/// A corner names indices inside the tables, and its flipped texture
/// coordinate stays within the coordinate range.
pub open spec fn corner_ok(
    pos: Seq<Fx3>,
    uvs: Seq<Fx2>,
    nors: Seq<Fx3>,
    r: VertexRefView,
) -> bool {
    &&& 0 <= r.p < pos.len()
    &&& r.t == -1 || (0 <= r.t < uvs.len() && -COORD_LIMIT <= SCALE - uvs[r.t].v <= COORD_LIMIT)
    &&& r.n == -1 || 0 <= r.n < nors.len()
}

/// The vertex a corner denotes: its position, its texture coordinate with
/// V flipped (`v' = 1 - v`), its normal (zero when the source supplies
/// none), and zeroed tangent space.
pub open spec fn vertex_from(
    pos: Seq<Fx3>,
    uvs: Seq<Fx2>,
    nors: Seq<Fx3>,
    r: VertexRefView,
) -> ModelVertex {
    ModelVertex {
        position: pos[r.p],
        tex_coords: if r.t >= 0 {
            Fx2 { u: uvs[r.t].u, v: (SCALE - uvs[r.t].v) as i64 }
        } else {
            Fx2 { u: 0, v: SCALE as i64 }
        },
        normal: if r.n >= 0 {
            nors[r.n]
        } else {
            Fx3 { x: 0, y: 0, z: 0 }
        },
        tangent: Wide3 { x: 0, y: 0, z: 0 },
        bitangent: Wide3 { x: 0, y: 0, z: 0 },
    }
}

/// What `build_mesh` guarantees of a finished mesh: the indices walk the
/// corner slots through the deduplicated corner table, every base
/// attribute comes from `vertex_from`, every triangle's UV determinant is
/// non-zero, and each touched vertex carries the mean of its triangles'
/// tangent and bitangent contributions.
pub open spec fn mesh_geometry_ok(
    faces: Seq<TriRefView>,
    pos: Seq<Fx3>,
    uvs: Seq<Fx2>,
    nors: Seq<Fx3>,
    verts: Seq<ModelVertex>,
    idxs: Seq<u32>,
) -> bool {
    let cs = corners(faces);
    let seen = uniq(cs, cs.len() as int);
    let base = Seq::new(seen.len(), |k: int| vertex_from(pos, uvs, nors, seen[k]));
    let nt = idxs.len() as int / 3;
    &&& idxs.len() == cs.len()
    &&& forall|j: int| 0 <= j < cs.len() ==> 0 <= #[trigger] idxs[j] < seen.len() && seen[idxs[j] as int] == cs[j]
    &&& verts.len() == seen.len()
    &&& forall|k: int| 0 <= k < verts.len() ==> same_base(#[trigger] verts[k], base[k])
    &&& forall|t: int| 0 <= t < nt ==> tri_det(base, idxs, t) != 0
    &&& forall|k: int| 0 <= k < verts.len() && count_sum(idxs, nt, k) == 0 ==> #[trigger] verts[k]
        == base[k]
    &&& forall|k: int| 0 <= k < verts.len() && count_sum(idxs, nt, k) > 0 ==> {
        let n = count_sum(idxs, nt, k);
        let fv = #[trigger] verts[k];
        &&& fv.tangent.x == div_trunc(comp_sum(base, idxs, nt, k, 0), n)
        &&& fv.tangent.y == div_trunc(comp_sum(base, idxs, nt, k, 1), n)
        &&& fv.tangent.z == div_trunc(comp_sum(base, idxs, nt, k, 2), n)
        &&& fv.bitangent.x == div_trunc(comp_sum(base, idxs, nt, k, 3), n)
        &&& fv.bitangent.y == div_trunc(comp_sum(base, idxs, nt, k, 4), n)
        &&& fv.bitangent.z == div_trunc(comp_sum(base, idxs, nt, k, 5), n)
    }
}


/// Law (single-index dedup): the deduplicated corner table holds no
/// duplicates, so the index `mesh_geometry_ok` associates with each
/// corner slot is the unique position of that corner in the table.
pub proof fn lemma_uniq_distinct(cs: Seq<VertexRefView>, i: int)
    ensures
        forall|a: int, b: int| 0 <= a < b < uniq(cs, i).len() ==> uniq(cs, i)[a] != uniq(
            cs,
            i,
        )[b],
    decreases i,
{
    if i > 0 {
        lemma_uniq_distinct(cs, i - 1);
        let p = uniq(cs, i - 1);
        if !p.contains(cs[i - 1]) {
            assert forall|a: int, b: int|
                0 <= a < b < uniq(cs, i).len() implies uniq(cs, i)[a] != uniq(cs, i)[b] by {
                if b == p.len() {
                    if p[a] == cs[i - 1] {
                        assert(p.contains(cs[i - 1]));
                    }
                }
            }
        }
    }
}

/// Index of the first occurrence of a corner in a table (the table's
/// length when absent).
pub open spec fn idx_in(s: Seq<VertexRefView>, x: VertexRefView) -> int
    decreases s.len(),
{
    if s.len() == 0 {
        0
    } else if s[0] == x {
        0
    } else {
        1 + idx_in(s.skip(1), x)
    }
}

proof fn lemma_idx_in_at(s: Seq<VertexRefView>, x: VertexRefView, k: int)
    requires
        0 <= k < s.len(),
        s[k] == x,
        forall|q: int| 0 <= q < k ==> s[q] != x,
    ensures
        idx_in(s, x) == k,
    decreases k,
{
    if k > 0 {
        assert(forall|q: int| 0 <= q < k - 1 ==> s.skip(1)[q] != x);
        assert(s.skip(1)[k - 1] == x);
        lemma_idx_in_at(s.skip(1), x, k - 1);
    }
}

/// The single-index corner table of a face list: its distinct corners in
/// first-appearance order.
pub open spec fn corner_table(faces: Seq<TriRefView>) -> Seq<VertexRefView> {
    let cs = corners(faces);
    uniq(cs, cs.len() as int)
}

/// The vertices the corner table denotes, before tangent synthesis.
pub open spec fn base_vertices(
    faces: Seq<TriRefView>,
    pos: Seq<Fx3>,
    uvs: Seq<Fx2>,
    nors: Seq<Fx3>,
) -> Seq<ModelVertex> {
    let seen = corner_table(faces);
    Seq::new(seen.len(), |k: int| vertex_from(pos, uvs, nors, seen[k]))
}

/// The index list of the single-index mesh: each corner slot mapped to
/// its corner's position in the corner table.
pub open spec fn canon_indices(faces: Seq<TriRefView>) -> Seq<u32> {
    let cs = corners(faces);
    Seq::new(cs.len(), |j: int| idx_in(corner_table(faces), cs[j]) as u32)
}

/// Every corner of the face list passes `corner_ok`.
pub open spec fn all_corners_ok(
    faces: Seq<TriRefView>,
    pos: Seq<Fx3>,
    uvs: Seq<Fx2>,
    nors: Seq<Fx3>,
) -> bool {
    forall|j: int| 0 <= j < corners(faces).len() ==> corner_ok(
        pos,
        uvs,
        nors,
        #[trigger] corners(faces)[j],
    )
}

/// Some triangle of the single-index mesh has a zero-area UV triangle.
pub open spec fn has_degenerate_uv(
    faces: Seq<TriRefView>,
    pos: Seq<Fx3>,
    uvs: Seq<Fx2>,
    nors: Seq<Fx3>,
) -> bool {
    exists|t: int| 0 <= t < faces.len() && tri_det(
        base_vertices(faces, pos, uvs, nors),
        canon_indices(faces),
        t,
    ) == 0
}

/// When a face group builds into a mesh: it is within the triangle cap,
/// every corner is valid, and no triangle's UV mapping is degenerate.
pub open spec fn group_geometry_ok(
    faces: Seq<TriRefView>,
    pos: Seq<Fx3>,
    uvs: Seq<Fx2>,
    nors: Seq<Fx3>,
) -> bool {
    &&& faces.len() <= 0x1000_0000
    &&& all_corners_ok(faces, pos, uvs, nors)
    &&& !has_degenerate_uv(faces, pos, uvs, nors)
}

/// The corner tables distinct so far are prefix-stable: processing one
/// more slot keeps or extends them.
proof fn lemma_uniq_extends(cs: Seq<VertexRefView>, i: int, j: int)
    requires
        0 <= i <= j,
    ensures
        uniq(cs, i).len() <= uniq(cs, j).len(),
        forall|k: int| 0 <= k < uniq(cs, i).len() ==> uniq(cs, j)[k] == uniq(cs, i)[k],
    decreases j - i,
{
    if i < j {
        lemma_uniq_extends(cs, i, j - 1);
    }
}

/// Deduplicates one corner slot: returns the corner's index in the
/// single-index vertex table, appending a fresh vertex when the corner is
/// new, or fails when the corner points outside the tables.
fn push_corner(
    seen: &mut Vec<VertexRef>,
    verts: &mut Vec<ModelVertex>,
    positions: &Vec<Fx3>,
    texcoords: &Vec<Fx2>,
    normals: &Vec<Fx3>,
    r: VertexRef,
    Ghost(cs): Ghost<Seq<VertexRefView>>,
    Ghost(j): Ghost<int>,
) -> (res: Result<u32, ImportError>)
    requires
        forall|k: int| 0 <= k < texcoords@.len() ==> fx2_ok(#[trigger] texcoords@[k]),
        0 <= j < cs.len(),
        cs[j] == r@,
        old(seen)@.map_values(|x: VertexRef| x@) == uniq(cs, j),
        old(verts)@.len() == old(seen)@.len(),
        forall|k: int| 0 <= k < old(seen)@.len() ==> #[trigger] old(verts)@[k] == vertex_from(
            positions@,
            texcoords@,
            normals@,
            old(seen)@[k]@,
        ),
        forall|k: int| 0 <= k < old(seen)@.len() ==> corner_ok(
            positions@,
            texcoords@,
            normals@,
            (#[trigger] old(seen)@[k])@,
        ),
        old(seen)@.len() <= 0x3000_0000,
    ensures
        match res {
            Result::Ok(ix) => {
                &&& final(seen)@.map_values(|x: VertexRef| x@) == uniq(cs, j + 1)
                &&& final(verts)@.len() == final(seen)@.len()
                &&& final(seen)@.len() <= old(seen)@.len() + 1
                &&& forall|k: int| 0 <= k < final(seen)@.len() ==> #[trigger] final(verts)@[k]
                    == vertex_from(positions@, texcoords@, normals@, final(seen)@[k]@)
                &&& forall|k: int| 0 <= k < final(seen)@.len() ==> corner_ok(
                    positions@,
                    texcoords@,
                    normals@,
                    (#[trigger] final(seen)@[k])@,
                )
                &&& 0 <= ix < final(seen)@.len()
                &&& final(seen)@[ix as int]@ == cs[j]
                &&& forall|q: int| 0 <= q < ix ==> (#[trigger] final(seen)@[q])@ != cs[j]
            },
            Result::Err(e) => {
                &&& e == ImportError::IndexOutOfRange
                &&& !corner_ok(positions@, texcoords@, normals@, r@)
                &&& *final(seen) == *old(seen)
                &&& *final(verts) == *old(verts)
            },
        },
{
    let ghost seen0 = seen@.map_values(|x: VertexRef| x@);
    let n: usize = seen.len();
    let mut k: usize = 0;
    while k < n
        invariant
            n == seen@.len(),
            n <= 0x3000_0000,
            0 <= k <= n,
            0 <= j < cs.len(),
            cs[j] == r@,
            seen0 == seen@.map_values(|x: VertexRef| x@),
            seen0 == uniq(cs, j),
            verts@.len() == n,
            forall|q: int| 0 <= q < n ==> #[trigger] verts@[q] == vertex_from(
                positions@,
                texcoords@,
                normals@,
                seen@[q]@,
            ),
            forall|q: int| 0 <= q < n ==> corner_ok(
                positions@,
                texcoords@,
                normals@,
                (#[trigger] seen@[q])@,
            ),
            forall|q: int| 0 <= q < k ==> seen0[q] != r@,
        decreases n - k,
    {
        let hit: bool = seen[k] == r;
        if hit {
            proof {
                assert(seen0[k as int] == r@);
                assert(uniq(cs, j).contains(cs[j])) by {
                    assert(uniq(cs, j)[k as int] == cs[j]);
                }
                assert(uniq(cs, j + 1) == uniq(cs, j));
                assert forall|q: int| 0 <= q < k implies (#[trigger] seen@[q])@ != cs[j] by {
                    assert(seen@[q]@ == seen0[q]);
                }
            }
            return Ok(k as u32);
        }
        k = k + 1;
    }
    proof {
        assert(!uniq(cs, j).contains(cs[j])) by {
            if uniq(cs, j).contains(cs[j]) {
                let w = choose|w: int| 0 <= w < uniq(cs, j).len() && uniq(cs, j)[w] == cs[j];
                assert(seen0[w] == r@);
            }
        }
        assert(uniq(cs, j + 1) == uniq(cs, j).push(cs[j]));
    }
    let p: usize = r.p as usize;
    if p >= positions.len() {
        return Err(ImportError::IndexOutOfRange);
    }
    let tex: Fx2 = if r.t != -1 {
        if r.t < 0 || (r.t as u64) >= (texcoords.len() as u64) {
            return Err(ImportError::IndexOutOfRange);
        }
        let ti: usize = r.t as usize;
        let raw: Fx2 = texcoords[ti];
        let flipped: i64 = SCALE - raw.v;
        if flipped > COORD_LIMIT || flipped < -COORD_LIMIT {
            return Err(ImportError::IndexOutOfRange);
        }
        Fx2 { u: raw.u, v: flipped }
    } else {
        Fx2 { u: 0, v: SCALE }
    };
    let nor: Fx3 = if r.n != -1 {
        if r.n < 0 || (r.n as u64) >= (normals.len() as u64) {
            return Err(ImportError::IndexOutOfRange);
        }
        let ni: usize = r.n as usize;
        normals[ni]
    } else {
        Fx3 { x: 0, y: 0, z: 0 }
    };
    let vtx = ModelVertex {
        position: positions[p],
        tex_coords: tex,
        normal: nor,
        tangent: Wide3 { x: 0, y: 0, z: 0 },
        bitangent: Wide3 { x: 0, y: 0, z: 0 },
    };
    proof {
        assert(corner_ok(positions@, texcoords@, normals@, r@));
        assert(vtx == vertex_from(positions@, texcoords@, normals@, r@));
    }
    seen.push(r);
    verts.push(vtx);
    proof {
        assert(seen@.map_values(|x: VertexRef| x@) =~~= seen0.push(r@));
        assert forall|q: int| 0 <= q < n implies (#[trigger] seen@[q])@ != cs[j] by {
            assert(seen@[q]@ == seen0[q]);
        }
    }
    Ok(n as u32)
}

/// Builds one mesh's geometry from a group's faces: deduplicates the
/// corners into a single-index vertex table (first-appearance order),
/// builds each vertex with the texture V coordinate flipped and zero
/// default normals, and synthesizes the tangent space.
#[verifier::rlimit(100)]
pub fn build_mesh(
    faces: &Vec<TriRef>,
    positions: &Vec<Fx3>,
    texcoords: &Vec<Fx2>,
    normals: &Vec<Fx3>,
) -> (r: Result<(Vec<ModelVertex>, Vec<u32>), ImportError>)
    requires
        forall|k: int| 0 <= k < positions@.len() ==> fx3_ok(#[trigger] positions@[k]),
        forall|k: int| 0 <= k < texcoords@.len() ==> fx2_ok(#[trigger] texcoords@[k]),
        forall|k: int| 0 <= k < normals@.len() ==> fx3_ok(#[trigger] normals@[k]),
    ensures
        ({
            let facesv = faces@.map_values(|t: TriRef| t@);
            &&& r is Ok <==> group_geometry_ok(facesv, positions@, texcoords@, normals@)
            &&& match r {
                Result::Ok((verts, idxs)) => {
                    &&& idxs@ == canon_indices(facesv)
                    &&& mesh_geometry_ok(
                        facesv,
                        positions@,
                        texcoords@,
                        normals@,
                        verts@,
                        idxs@,
                    )
                },
                Result::Err(e) => {
                    &&& e == ImportError::TooLarge <==> faces@.len() > 0x1000_0000
                    &&& e == ImportError::IndexOutOfRange <==> faces@.len() <= 0x1000_0000
                        && !all_corners_ok(facesv, positions@, texcoords@, normals@)
                    &&& e == ImportError::DegenerateUv <==> faces@.len() <= 0x1000_0000
                        && all_corners_ok(facesv, positions@, texcoords@, normals@)
                        && has_degenerate_uv(facesv, positions@, texcoords@, normals@)
                },
            }
        }),
{
    let nf: usize = faces.len();
    if nf > 0x1000_0000 {
        return Err(ImportError::TooLarge);
    }
    let ghost facesv = faces@.map_values(|t: TriRef| t@);
    let ghost cs = corners(facesv);
    let mut seen: Vec<VertexRef> = Vec::new();
    let mut verts: Vec<ModelVertex> = Vec::new();
    let mut idxs: Vec<u32> = Vec::new();
    proof {
        assert(seen@.map_values(|x: VertexRef| x@) =~~= uniq(cs, 0));
    }
    let mut t: usize = 0;
    while t < nf
        invariant
            nf == faces@.len(),
            nf <= 0x1000_0000,
            0 <= t <= nf,
            facesv == faces@.map_values(|t2: TriRef| t2@),
            cs == corners(facesv),
            forall|k: int| 0 <= k < positions@.len() ==> fx3_ok(#[trigger] positions@[k]),
            forall|k: int| 0 <= k < texcoords@.len() ==> fx2_ok(#[trigger] texcoords@[k]),
            forall|k: int| 0 <= k < normals@.len() ==> fx3_ok(#[trigger] normals@[k]),
            seen@.map_values(|x: VertexRef| x@) == uniq(cs, 3 * t as int),
            seen@.len() <= 3 * t,
            verts@.len() == seen@.len(),
            forall|k: int| 0 <= k < seen@.len() ==> #[trigger] verts@[k] == vertex_from(
                positions@,
                texcoords@,
                normals@,
                seen@[k]@,
            ),
            forall|k: int| 0 <= k < seen@.len() ==> corner_ok(
                positions@,
                texcoords@,
                normals@,
                (#[trigger] seen@[k])@,
            ),
            idxs@.len() == 3 * t,
            forall|j: int| 0 <= j < idxs@.len() ==> 0 <= #[trigger] idxs@[j] < seen@.len()
                && seen@[idxs@[j] as int]@ == cs[j],
            forall|j: int, q: int| 0 <= j < idxs@.len() && 0 <= q < #[trigger] idxs@[j]
                ==> (#[trigger] seen@[q])@ != cs[j],
        decreases nf - t,
    {
        let f: TriRef = faces[t];
        proof {
            assert(facesv[t as int] == faces@[t as int]@);
            assert(cs[3 * t as int] == f.a@);
            assert(cs[3 * t as int + 1] == f.b@);
            assert(cs[3 * t as int + 2] == f.c@);
        }
        let ghost seen_pre = seen@.map_values(|x: VertexRef| x@);
        let ia: u32 = match push_corner(
            &mut seen,
            &mut verts,
            positions,
            texcoords,
            normals,
            f.a,
            Ghost(cs),
            Ghost(3 * t as int),
        ) {
            Ok(ix) => ix,
            Err(e) => {
                proof {
                    assert(!corner_ok(positions@, texcoords@, normals@, cs[3 * t as int]));
                    assert(corners(facesv).len() == 3 * facesv.len());
                    assert(!all_corners_ok(facesv, positions@, texcoords@, normals@));
                }
                return Err(e);
            },
        };
        let ghost seen_a = seen@.map_values(|x: VertexRef| x@);
        let ib: u32 = match push_corner(
            &mut seen,
            &mut verts,
            positions,
            texcoords,
            normals,
            f.b,
            Ghost(cs),
            Ghost(3 * t as int + 1),
        ) {
            Ok(ix) => ix,
            Err(e) => {
                proof {
                    assert(!corner_ok(positions@, texcoords@, normals@, cs[3 * t as int + 1]));
                    assert(corners(facesv).len() == 3 * facesv.len());
                    assert(!all_corners_ok(facesv, positions@, texcoords@, normals@));
                }
                return Err(e);
            },
        };
        let ghost seen_b = seen@.map_values(|x: VertexRef| x@);
        let ic: u32 = match push_corner(
            &mut seen,
            &mut verts,
            positions,
            texcoords,
            normals,
            f.c,
            Ghost(cs),
            Ghost(3 * t as int + 2),
        ) {
            Ok(ix) => ix,
            Err(e) => {
                proof {
                    assert(!corner_ok(positions@, texcoords@, normals@, cs[3 * t as int + 2]));
                    assert(corners(facesv).len() == 3 * facesv.len());
                    assert(!all_corners_ok(facesv, positions@, texcoords@, normals@));
                }
                return Err(e);
            },
        };
        let ghost idxs_old = idxs@;
        idxs.push(ia);
        idxs.push(ib);
        idxs.push(ic);
        proof {
            let seen_now = seen@.map_values(|x: VertexRef| x@);
            lemma_uniq_extends(cs, 3 * t as int, 3 * t as int + 3);
            lemma_uniq_extends(cs, 3 * t as int + 1, 3 * t as int + 3);
            lemma_uniq_extends(cs, 3 * t as int + 2, 3 * t as int + 3);
            assert(seen_a[ia as int] == cs[3 * t as int]);
            assert(seen_b[ib as int] == cs[3 * t as int + 1]);
            assert(seen_now[ic as int] == cs[3 * t as int + 2]);
            assert forall|j2: int| 0 <= j2 < idxs@.len() implies 0 <= #[trigger] idxs@[j2]
                < seen@.len() && seen@[idxs@[j2] as int]@ == cs[j2] by {
                assert(seen_now.len() == seen@.len());
                assert(seen@[idxs@[j2] as int]@ == seen_now[idxs@[j2] as int]);
                if j2 < 3 * t {
                    assert(idxs@[j2] == idxs_old[j2]);
                    assert(seen_pre[idxs_old[j2] as int] == cs[j2]);
                    assert(seen_now[idxs_old[j2] as int] == seen_pre[idxs_old[j2] as int]);
                } else if j2 == 3 * t {
                    assert(idxs@[j2] == ia);
                    assert(seen_now[ia as int] == seen_a[ia as int]);
                } else if j2 == 3 * t + 1 {
                    assert(idxs@[j2] == ib);
                    assert(seen_now[ib as int] == seen_b[ib as int]);
                } else {
                    assert(idxs@[j2] == ic);
                }
            }
            assert forall|j2: int, q: int|
                0 <= j2 < idxs@.len() && 0 <= q < #[trigger] idxs@[j2] implies (
            #[trigger] seen@[q])@ != cs[j2] by {
                assert(seen@[q]@ == seen_now[q]);
                if j2 < 3 * t {
                    assert(idxs@[j2] == idxs_old[j2]);
                    assert(seen_pre[q] != cs[j2]);
                    assert(seen_now[q] == seen_pre[q]);
                } else if j2 == 3 * t {
                    assert(idxs@[j2] == ia);
                    assert(seen_a[q] != cs[j2]);
                    assert(seen_now[q] == seen_a[q]);
                } else if j2 == 3 * t + 1 {
                    assert(idxs@[j2] == ib);
                    assert(seen_b[q] != cs[j2]);
                    assert(seen_now[q] == seen_b[q]);
                } else {
                    assert(seen_now[q] != cs[j2]);
                }
            }
        }
        t = t + 1;
    }
    let ghost seenv = seen@.map_values(|x: VertexRef| x@);
    let ghost base = Seq::new(
        seenv.len(),
        |k: int| vertex_from(positions@, texcoords@, normals@, seenv[k]),
    );
    proof {
        assert(verts@ =~= base);
        assert(idxs@.len() <= 0x3000_0000);
        assert(cs.len() == 3 * facesv.len());
        assert(seenv == corner_table(facesv));
        assert forall|j: int| 0 <= j < cs.len() implies #[trigger] canon_indices(facesv)[j]
            == idxs@[j] by {
            assert(seenv[idxs@[j] as int] == cs[j]);
            assert forall|q: int| 0 <= q < idxs@[j] as int implies seenv[q] != cs[j] by {
                assert(seen@[q]@ != cs[j]);
            }
            lemma_idx_in_at(seenv, cs[j], idxs@[j] as int);
        }
        assert(idxs@ =~= canon_indices(facesv));
        assert(base =~= base_vertices(facesv, positions@, texcoords@, normals@));
        assert forall|j: int| 0 <= j < idxs@.len() implies (#[trigger] idxs@[j]) < verts@.len() by {}
        assert forall|v: int| 0 <= v < verts@.len() implies in_coord_range(
            #[trigger] verts@[v],
        ) by {
            assert(verts@[v] == vertex_from(positions@, texcoords@, normals@, seenv[v]));
            assert(corner_ok(positions@, texcoords@, normals@, seenv[v]));
        }
    }
    proof {
        vstd::arithmetic::div_mod::lemma_div_multiples_vanish(nf as int, 3);
        assert(idxs@.len() as int / 3 == nf as int);
    }
    match compute_tangents(&mut verts, &idxs) {
        Ok(_counts) => {
            proof {
                assert forall|j: int| 0 <= j < corners(facesv).len() implies corner_ok(
                    positions@,
                    texcoords@,
                    normals@,
                    #[trigger] corners(facesv)[j],
                ) by {
                    assert(seenv[idxs@[j] as int] == corners(facesv)[j]);
                }
                assert(all_corners_ok(facesv, positions@, texcoords@, normals@));
                assert(!has_degenerate_uv(facesv, positions@, texcoords@, normals@)) by {
                    if has_degenerate_uv(facesv, positions@, texcoords@, normals@) {
                        let t2 = choose|t2: int|
                            0 <= t2 < facesv.len() && tri_det(
                                base_vertices(facesv, positions@, texcoords@, normals@),
                                canon_indices(facesv),
                                t2,
                            ) == 0;
                        assert(tri_det(base, idxs@, t2) != 0);
                    }
                }
            }
            Ok((verts, idxs))
        },
        Err(GeometryError::DegenerateUv { triangle }) => {
            proof {
                assert forall|j: int| 0 <= j < corners(facesv).len() implies corner_ok(
                    positions@,
                    texcoords@,
                    normals@,
                    #[trigger] corners(facesv)[j],
                ) by {
                    assert(seenv[idxs@[j] as int] == corners(facesv)[j]);
                }
                assert(all_corners_ok(facesv, positions@, texcoords@, normals@));
                assert(tri_det(
                    base_vertices(facesv, positions@, texcoords@, normals@),
                    canon_indices(facesv),
                    triangle as int,
                ) == 0);
                assert(0 <= triangle < facesv.len());
                assert(has_degenerate_uv(facesv, positions@, texcoords@, normals@));
            }
            Err(ImportError::DegenerateUv)
        },
    }
}


/// Index of the first definition with the given name, or -1.
pub open spec fn first_def(defs: Seq<MaterialDefView>, nm: Seq<u8>) -> int
    decreases defs.len(),
{
    if defs.len() == 0 {
        -1
    } else if defs[0].name == nm {
        0
    } else {
        let r = first_def(defs.skip(1), nm);
        if r < 0 {
            -1
        } else {
            r + 1
        }
    }
}

/// The material index a group resolves to: the first definition carrying
/// the selected name; a group that selected none uses index 0 (there must
/// then be at least one material).  -1 means the selection is invalid.
pub open spec fn mat_index(mat: Option<Seq<u8>>, defs: Seq<MaterialDefView>) -> int {
    match mat {
        Option::None => if defs.len() > 0 {
            0
        } else {
            -1
        },
        Option::Some(nm) => first_def(defs, nm),
    }
}

proof fn lemma_first_def_at(defs: Seq<MaterialDefView>, nm: Seq<u8>, j: int)
    requires
        0 <= j < defs.len(),
        defs[j].name == nm,
        forall|k: int| 0 <= k < j ==> defs[k].name != nm,
    ensures
        first_def(defs, nm) == j,
    decreases j,
{
    if j > 0 {
        assert(forall|k: int| 0 <= k < j - 1 ==> defs.skip(1)[k].name != nm);
        assert(defs.skip(1)[j - 1].name == nm);
        lemma_first_def_at(defs.skip(1), nm, j - 1);
    }
}

/// A found definition index lies inside the list.
proof fn lemma_first_def_range(defs: Seq<MaterialDefView>, nm: Seq<u8>)
    ensures
        first_def(defs, nm) < defs.len(),
    decreases defs.len(),
{
    if defs.len() > 0 {
        lemma_first_def_range(defs.skip(1), nm);
    }
}

proof fn lemma_first_def_none(defs: Seq<MaterialDefView>, nm: Seq<u8>)
    requires
        forall|k: int| 0 <= k < defs.len() ==> defs[k].name != nm,
    ensures
        first_def(defs, nm) == -1,
    decreases defs.len(),
{
    if defs.len() > 0 {
        assert(forall|k: int| 0 <= k < defs.len() - 1 ==> defs.skip(1)[k].name != nm);
        lemma_first_def_none(defs.skip(1), nm);
    }
}

/// Resolves a group's material selection to an index, -1 when invalid.
fn resolve_material(mat: &Option<Vec<u8>>, defs: &Vec<MaterialDef>) -> (r: i64)
    requires
        defs@.len() <= 0x1000_0000,
    ensures
        r == mat_index(opt_bytes(*mat), defs@.map_values(|m: MaterialDef| m@)),
{
    let ghost defsv = defs@.map_values(|m: MaterialDef| m@);
    match mat {
        None => {
            if defs.len() > 0 {
                0
            } else {
                -1
            }
        },
        Some(nm) => {
            let n: usize = defs.len();
            let mut k: usize = 0;
            while k < n
                invariant
                    n == defs@.len(),
                    n <= 0x1000_0000,
                    0 <= k <= n,
                    defsv == defs@.map_values(|m: MaterialDef| m@),
                    opt_bytes(*mat) == Option::Some(nm@),
                    forall|q: int| 0 <= q < k ==> defsv[q].name != nm@,
                decreases n - k,
            {
                if crate::mtl::bytes_eq(&defs[k].name, nm) {
                    proof {
                        assert(defsv[k as int].name == nm@);
                        lemma_first_def_at(defsv, nm@, k as int);
                    }
                    return k as i64;
                }
                k = k + 1;
            }
            proof {
                lemma_first_def_none(defsv, nm@);
            }
            -1
        },
    }
}

/// When an import is owed success: every group's material selection
/// resolves, and every group's faces build into a mesh.
pub open spec fn import_succeeds(rawv: RawObjView, defsv: Seq<MaterialDefView>) -> bool {
    &&& forall|k: int| 0 <= k < rawv.groups.len() ==> mat_index(
        (#[trigger] rawv.groups[k]).material,
        defsv,
    ) >= 0
    &&& forall|k: int| 0 <= k < rawv.groups.len() ==> group_geometry_ok(
        (#[trigger] rawv.groups[k]).faces,
        rawv.positions,
        rawv.texcoords,
        rawv.normals,
    )
}

/// What a successful import guarantees of the finished model: one
/// material per definition with the fixed fallback texture names, and one
/// mesh per face group with the model's name, a validated material index,
/// and geometry satisfying `mesh_geometry_ok`.
pub open spec fn import_ok(
    rawv: RawObjView,
    defsv: Seq<MaterialDefView>,
    namev: Seq<u8>,
    m: ModelView,
) -> bool {
    &&& m.materials.len() == defsv.len()
    &&& forall|j: int| 0 <= j < defsv.len() ==> {
        let mv = #[trigger] m.materials[j];
        &&& mv.name == defsv[j].name
        &&& mv.diffuse_texture == resolved_texture(defsv[j].diffuse, default_diffuse())
        &&& mv.normal_texture == resolved_texture(defsv[j].normal, default_normal())
    }
    &&& m.meshes.len() == rawv.groups.len()
    &&& forall|k: int| 0 <= k < rawv.groups.len() ==> {
        let mesh = #[trigger] m.meshes[k];
        &&& mesh.name == namev
        &&& mesh.material == mat_index(rawv.groups[k].material, defsv)
        &&& 0 <= mesh.material < m.materials.len()
        &&& mesh.num_elements == mesh.indices.len()
        &&& mesh_geometry_ok(
            rawv.groups[k].faces,
            rawv.positions,
            rawv.texcoords,
            rawv.normals,
            mesh.vertices,
            mesh.indices,
        )
    }
}

/// Imports a parsed model description and its material definitions into
/// the finished model: one material per definition (texture names falling
/// back to the fixed defaults), and one mesh per face group, each with
/// deduplicated vertices, flipped texture V, synthesized tangents, and a
/// validated material index.  `name` names the model and is given to
/// every mesh.
#[verifier::rlimit(100)]
pub fn import_model(raw: &RawObj, defs: &Vec<MaterialDef>, name: &Vec<u8>) -> (r: Result<
    Model,
    ImportError,
>)
    requires
        crate::obj::tables_ok(raw@),
        defs@.len() <= 0x1000_0000,
    ensures
        ({
            let rawv = raw@;
            let defsv = defs@.map_values(|m: MaterialDef| m@);
            &&& r is Ok <==> import_succeeds(rawv, defsv)
            &&& match r {
                Result::Ok(m) => import_ok(rawv, defsv, name@, m@),
                Result::Err(e) => {
                    &&& e == ImportError::InvalidMaterialIndex <==> exists|k: int|
                        0 <= k < rawv.groups.len() && mat_index(
                            (#[trigger] rawv.groups[k]).material,
                            defsv,
                        ) < 0
                    &&& e == ImportError::TooLarge ==> exists|k: int|
                        0 <= k < rawv.groups.len() && (#[trigger] rawv.groups[k]).faces.len()
                            > 0x1000_0000
                    &&& e == ImportError::IndexOutOfRange ==> exists|k: int|
                        0 <= k < rawv.groups.len() && !all_corners_ok(
                            (#[trigger] rawv.groups[k]).faces,
                            rawv.positions,
                            rawv.texcoords,
                            rawv.normals,
                        )
                    &&& e == ImportError::DegenerateUv ==> exists|k: int|
                        0 <= k < rawv.groups.len() && has_degenerate_uv(
                            (#[trigger] rawv.groups[k]).faces,
                            rawv.positions,
                            rawv.texcoords,
                            rawv.normals,
                        )
                },
            }
        }),
{
    let ghost rawv = raw@;
    let ghost defsv = defs@.map_values(|m: MaterialDef| m@);
    let ng: usize = raw.groups.len();

    let mut mat_ids: Vec<usize> = Vec::new();
    let mut k: usize = 0;
    while k < ng
        invariant
            ng == raw.groups@.len(),
            0 <= k <= ng,
            rawv == raw@,
            defsv == defs@.map_values(|m: MaterialDef| m@),
            defs@.len() <= 0x1000_0000,
            mat_ids@.len() == k,
            forall|q: int| 0 <= q < k ==> mat_ids@[q] == mat_index(
                (#[trigger] rawv.groups[q]).material,
                defsv,
            ) && 0 <= mat_ids@[q] < defsv.len(),
        decreases ng - k,
    {
        proof {
            assert(rawv.groups[k as int] == raw.groups@[k as int]@);
        }
        let mi: i64 = resolve_material(&raw.groups[k].material, defs);
        if mi < 0 {
            proof {
                assert(mat_index(rawv.groups[k as int].material, defsv) < 0);
                assert(!import_succeeds(rawv, defsv));
            }
            return Err(ImportError::InvalidMaterialIndex);
        }
        proof {
            match rawv.groups[k as int].material {
                Option::Some(nm) => {
                    lemma_first_def_range(defsv, nm);
                },
                Option::None => {},
            }
            assert(mat_index(rawv.groups[k as int].material, defsv) < defsv.len());
        }
        mat_ids.push(mi as usize);
        k = k + 1;
    }

    let mut materials: Vec<Material> = Vec::new();
    let nd: usize = defs.len();
    let mut j: usize = 0;
    while j < nd
        invariant
            nd == defs@.len(),
            0 <= j <= nd,
            defsv == defs@.map_values(|m: MaterialDef| m@),
            materials@.len() == j,
            forall|q: int| 0 <= q < j ==> {
                let mv = (#[trigger] materials@[q])@;
                &&& mv.name == defsv[q].name
                &&& mv.diffuse_texture == resolved_texture(defsv[q].diffuse, default_diffuse())
                &&& mv.normal_texture == resolved_texture(defsv[q].normal, default_normal())
            },
        decreases nd - j,
    {
        proof {
            assert(defsv[j as int] == defs@[j as int]@);
        }
        let d = &defs[j];
        let nm: Vec<u8> = crate::text::subvec(&d.name, 0, d.name.len());
        proof {
            assert(nm@ =~= defs@[j as int].name@);
        }
        let diffuse_texture: Vec<u8> = texture_or(&d.diffuse, default_diffuse_vec());
        let normal_texture: Vec<u8> = texture_or(&d.normal, default_normal_vec());
        materials.push(Material { name: nm, diffuse_texture, normal_texture });
        j = j + 1;
    }

    let mut meshes: Vec<Mesh> = Vec::new();
    let mut k2: usize = 0;
    while k2 < ng
        invariant
            ng == raw.groups@.len(),
            0 <= k2 <= ng,
            rawv == raw@,
            defsv == defs@.map_values(|m: MaterialDef| m@),
            crate::obj::tables_ok(rawv),
            mat_ids@.len() == ng,
            materials@.len() == defsv.len(),
            forall|q: int| 0 <= q < ng ==> mat_ids@[q] == mat_index(
                (#[trigger] rawv.groups[q]).material,
                defsv,
            ) && 0 <= mat_ids@[q] < defsv.len(),
            meshes@.len() == k2,
            forall|q: int| 0 <= q < k2 ==> group_geometry_ok(
                (#[trigger] rawv.groups[q]).faces,
                rawv.positions,
                rawv.texcoords,
                rawv.normals,
            ),
            forall|q: int| 0 <= q < k2 ==> {
                let mesh = (#[trigger] meshes@[q])@;
                &&& mesh.name == name@
                &&& mesh.material == mat_index(rawv.groups[q].material, defsv)
                &&& 0 <= mesh.material < materials@.len()
                &&& mesh.num_elements == mesh.indices.len()
                &&& mesh_geometry_ok(
                    rawv.groups[q].faces,
                    rawv.positions,
                    rawv.texcoords,
                    rawv.normals,
                    mesh.vertices,
                    mesh.indices,
                )
            },
        decreases ng - k2,
    {
        proof {
            assert(rawv.groups[k2 as int] == raw.groups@[k2 as int]@);
            assert(rawv.positions == raw.positions@);
            assert(rawv.texcoords == raw.texcoords@);
            assert(rawv.normals == raw.normals@);
            assert(forall|q: int| 0 <= q < raw.positions@.len() ==> fx3_ok(
                #[trigger] raw.positions@[q],
            ));
            assert(forall|q: int| 0 <= q < raw.texcoords@.len() ==> fx2_ok(
                #[trigger] raw.texcoords@[q],
            ));
            assert(forall|q: int| 0 <= q < raw.normals@.len() ==> fx3_ok(
                #[trigger] raw.normals@[q],
            ));
        }
        let g = &raw.groups[k2];
        let (vertices, indices): (Vec<ModelVertex>, Vec<u32>) = match build_mesh(
            &g.faces,
            &raw.positions,
            &raw.texcoords,
            &raw.normals,
        ) {
            Ok(pair) => pair,
            Err(e) => {
                proof {
                    let gf = rawv.groups[k2 as int].faces;
                    assert(gf == g.faces@.map_values(|t2: TriRef| t2@));
                    assert(!group_geometry_ok(gf, rawv.positions, rawv.texcoords, rawv.normals));
                    assert(!import_succeeds(rawv, defsv));
                    assert(e != ImportError::InvalidMaterialIndex);
                    assert(forall|q: int| 0 <= q < rawv.groups.len() ==> mat_index(
                        (#[trigger] rawv.groups[q]).material,
                        defsv,
                    ) >= 0);
                    if e == ImportError::TooLarge {
                        assert(gf.len() > 0x1000_0000);
                    } else if e == ImportError::IndexOutOfRange {
                        assert(!all_corners_ok(gf, rawv.positions, rawv.texcoords, rawv.normals));
                    } else {
                        assert(e == ImportError::DegenerateUv);
                        assert(has_degenerate_uv(gf, rawv.positions, rawv.texcoords, rawv.normals));
                    }
                }
                return Err(e);
            },
        };
        let ne: usize = indices.len();
        proof {
            assert(g.faces@.map_values(|t2: TriRef| t2@) == rawv.groups[k2 as int].faces);
            assert(indices@.len() == corners(rawv.groups[k2 as int].faces).len());
            assert(indices@.len() <= 0x3000_0000);
        }
        let mesh_name: Vec<u8> = crate::text::subvec(name, 0, name.len());
        proof {
            assert(mesh_name@ =~= name@);
        }
        meshes.push(
            Mesh {
                name: mesh_name,
                vertices,
                indices,
                num_elements: ne as u32,
                material: mat_ids[k2],
            },
        );
        k2 = k2 + 1;
    }
    proof {
        assert(import_succeeds(rawv, defsv)) by {
            assert(forall|q: int| 0 <= q < rawv.groups.len() ==> mat_index(
                (#[trigger] rawv.groups[q]).material,
                defsv,
            ) >= 0);
        }
    }
    Ok(Model { meshes, materials })
}


/// Failure of the whole text-to-model load.
#[derive(Clone, Copy, Debug, PartialEq, Eq, Structural)]
pub enum LoadError {
    /// The model or material text is malformed.
    Parse,
    /// More triangles or materials than the exact arithmetic is sized for.
    TooLarge,
    /// A face names an attribute index outside its table, or a flipped
    /// texture coordinate leaves the coordinate range.
    IndexOutOfRange,
    /// A triangle's texture coordinates span a zero-area UV triangle.
    DegenerateUv,
    /// A mesh selects a material the material list does not supply.
    InvalidMaterialIndex,
}

/// Loads a model from its fetched texts: parses the model description and
/// the material file, and imports them into the finished model.  The
/// retrieval of the two texts (and of the textures the material names
/// point at) stays with the embedding program.
pub fn load_model_from_text(obj_text: &Vec<u8>, mtl_text: &Vec<u8>, name: &Vec<u8>) -> (r:
    Result<Model, LoadError>)
    ensures
        r is Ok <==> ({
            let rawv = crate::obj::obj_of(obj_text@);
            let defsv = crate::mtl::mtl_of(mtl_text@);
            &&& rawv is Some
            &&& defsv is Some
            &&& defsv->Some_0.len() <= 0x1000_0000
            &&& import_succeeds(rawv->Some_0, defsv->Some_0)
        }),
        r is Err && r->Err_0 == LoadError::Parse <==> crate::obj::obj_of(obj_text@) is None
            || crate::mtl::mtl_of(mtl_text@) is None,
        r is Err && r->Err_0 == LoadError::InvalidMaterialIndex <==> ({
            let rawv = crate::obj::obj_of(obj_text@);
            let defsv = crate::mtl::mtl_of(mtl_text@);
            &&& rawv is Some
            &&& defsv is Some
            &&& defsv->Some_0.len() <= 0x1000_0000
            &&& exists|k: int|
                0 <= k < rawv->Some_0.groups.len() && mat_index(
                    (#[trigger] rawv->Some_0.groups[k]).material,
                    defsv->Some_0,
                ) < 0
        }),
        r matches Ok(m) ==> {
            let rawv = crate::obj::obj_of(obj_text@)->Some_0;
            let defsv = crate::mtl::mtl_of(mtl_text@)->Some_0;
            import_ok(rawv, defsv, name@, m@)
        },
{
    let raw: RawObj = match crate::obj::parse_obj(obj_text) {
        Ok(raw) => raw,
        Err(_) => {
            return Err(LoadError::Parse);
        },
    };
    let defs: Vec<MaterialDef> = match crate::mtl::parse_mtl(mtl_text) {
        Ok(defs) => defs,
        Err(_) => {
            return Err(LoadError::Parse);
        },
    };
    if defs.len() > 0x1000_0000 {
        return Err(LoadError::TooLarge);
    }
    proof {
        crate::obj::lemma_obj_of_ranges(obj_text@);
    }
    match import_model(&raw, &defs, name) {
        Ok(m) => {
            proof {
                let defsv = defs@.map_values(|x: MaterialDef| x@);
                assert forall|k: int| 0 <= k < raw@.groups.len() implies mat_index(
                    (#[trigger] raw@.groups[k]).material,
                    defsv,
                ) >= 0 by {
                    assert(m@.meshes[k].material == mat_index(raw@.groups[k].material, defsv));
                }
            }
            Ok(m)
        },
        Err(ImportError::TooLarge) => Err(LoadError::TooLarge),
        Err(ImportError::IndexOutOfRange) => Err(LoadError::IndexOutOfRange),
        Err(ImportError::DegenerateUv) => Err(LoadError::DegenerateUv),
        Err(ImportError::InvalidMaterialIndex) => Err(LoadError::InvalidMaterialIndex),
    }
}

} // verus!
