//! The model text format: positions, texture coordinates, normals and
//! faces in named groups, with references to a material file.  Faces are
//! triangulated as a fan and carried as raw one-based index triples;
//! only absolute (positive) references are supported.

use vstd::prelude::*;
use crate::fixed::{Fx2, Fx3};
use crate::mtl::{ParseError, bytes_eq};
use crate::text::{
    split_on,
    tokens_of,
    tokenize,
    split_bytes,
    subvec,
    is_digits,
    digits_value,
    is_fixed,
    fixed_value,
    parse_fixed,
    parse_u32,
};
use crate::geometry::COORD_LIMIT;

verus! {

/// One corner of a face: indices into the position, texture-coordinate
/// and normal tables (0-based; `-1` when the reference omits one).
#[derive(Clone, Copy, Debug, PartialEq, Eq, Structural)]
pub struct VertexRef {
    pub p: u32,
    pub t: i64,
    pub n: i64,
}

/// Mathematical image of a `VertexRef`.
#[derive(PartialEq, Eq, Structural)]
pub ghost struct VertexRefView {
    pub p: int,
    pub t: int,
    pub n: int,
}

impl View for VertexRef {
    type V = VertexRefView;

    open spec fn view(&self) -> VertexRefView {
        VertexRefView { p: self.p as int, t: self.t as int, n: self.n as int }
    }
}

/// One triangle of corners.
#[derive(Clone, Copy, Debug, PartialEq, Eq, Structural)]
pub struct TriRef {
    pub a: VertexRef,
    pub b: VertexRef,
    pub c: VertexRef,
}

#[derive(PartialEq, Eq, Structural)]
pub ghost struct TriRefView {
    pub a: VertexRefView,
    pub b: VertexRefView,
    pub c: VertexRefView,
}

impl View for TriRef {
    type V = TriRefView;

    open spec fn view(&self) -> TriRefView {
        TriRefView { a: self.a@, b: self.b@, c: self.c@ }
    }
}

/// A mesh group: a name, the material last selected for it, and its
/// triangles.
pub struct Group {
    pub name: Vec<u8>,
    pub material: Option<Vec<u8>>,
    pub faces: Vec<TriRef>,
}

pub ghost struct GroupView {
    pub name: Seq<u8>,
    pub material: Option<Seq<u8>>,
    pub faces: Seq<TriRefView>,
}

/// View of an optional byte string.
pub open spec fn opt_bytes(o: Option<Vec<u8>>) -> Option<Seq<u8>> {
    match o {
        Option::Some(v) => Option::Some(v@),
        Option::None => Option::None,
    }
}

impl View for Group {
    type V = GroupView;

    open spec fn view(&self) -> GroupView {
        GroupView {
            name: self.name@,
            material: opt_bytes(self.material),
            faces: self.faces@.map_values(|t: TriRef| t@),
        }
    }
}

/// A parsed model description: the shared attribute tables, the material
/// file reference, and the face groups.
pub struct RawObj {
    pub positions: Vec<Fx3>,
    pub texcoords: Vec<Fx2>,
    pub normals: Vec<Fx3>,
    pub mtllib: Option<Vec<u8>>,
    pub groups: Vec<Group>,
}

pub ghost struct RawObjView {
    pub positions: Seq<Fx3>,
    pub texcoords: Seq<Fx2>,
    pub normals: Seq<Fx3>,
    pub mtllib: Option<Seq<u8>>,
    pub groups: Seq<GroupView>,
}

impl View for RawObj {
    type V = RawObjView;

    open spec fn view(&self) -> RawObjView {
        RawObjView {
            positions: self.positions@,
            texcoords: self.texcoords@,
            normals: self.normals@,
            mtllib: opt_bytes(self.mtllib),
            groups: self.groups@.map_values(|g: Group| g@),
        }
    }
}

/// The meaning of one face corner token: `p`, `p/t`, `p//n` or `p/t/n`,
/// each a one-based absolute index no larger than `u32::MAX`.  Relative
/// references (negative indices counting back from the end of a table)
/// are not supported by this format and are rejected as malformed.
pub open spec fn ref_of(tok: Seq<u8>) -> Option<VertexRefView> {
    let parts = split_on(tok, 47);
    if parts.len() == 1 {
        if is_digits(parts[0]) && 1 <= digits_value(parts[0]) <= u32::MAX {
            Option::Some(VertexRefView { p: digits_value(parts[0]) - 1, t: -1, n: -1 })
        } else {
            Option::None
        }
    } else if parts.len() == 2 {
        if is_digits(parts[0]) && 1 <= digits_value(parts[0]) <= u32::MAX && is_digits(parts[1])
            && 1 <= digits_value(parts[1]) <= u32::MAX {
            Option::Some(
                VertexRefView {
                    p: digits_value(parts[0]) - 1,
                    t: digits_value(parts[1]) - 1,
                    n: -1,
                },
            )
        } else {
            Option::None
        }
    } else if parts.len() == 3 {
        if is_digits(parts[0]) && 1 <= digits_value(parts[0]) <= u32::MAX && is_digits(parts[2])
            && 1 <= digits_value(parts[2]) <= u32::MAX && (parts[1].len() == 0 || (is_digits(
            parts[1],
        ) && 1 <= digits_value(parts[1]) <= u32::MAX)) {
            Option::Some(
                VertexRefView {
                    p: digits_value(parts[0]) - 1,
                    t: if parts[1].len() == 0 {
                        -1
                    } else {
                        digits_value(parts[1]) - 1
                    },
                    n: digits_value(parts[2]) - 1,
                },
            )
        } else {
            Option::None
        }
    } else {
        Option::None
    }
}

/// Parses one face corner token.
pub fn parse_ref(tok: &Vec<u8>) -> (r: Option<VertexRef>)
    ensures
        r is Some <==> ref_of(tok@) is Some,
        r matches Some(v) ==> Option::Some(v@) == ref_of(tok@),
{
    let parts: Vec<Vec<u8>> = split_bytes(tok, 47);
    proof {
        assert(forall|k: int| 0 <= k < parts@.len() ==> parts@.map_values(|v: Vec<u8>| v@)[k]
            == parts@[k]@);
    }
    if parts.len() == 1 {
        match parse_u32(&parts[0]) {
            Some(d) => {
                if d >= 1 {
                    Some(VertexRef { p: d - 1, t: -1, n: -1 })
                } else {
                    None
                }
            },
            None => None,
        }
    } else if parts.len() == 2 {
        let d0 = parse_u32(&parts[0]);
        let d1 = parse_u32(&parts[1]);
        match (d0, d1) {
            (Some(p), Some(t)) => {
                if p >= 1 && t >= 1 {
                    Some(VertexRef { p: p - 1, t: (t - 1) as i64, n: -1 })
                } else {
                    None
                }
            },
            _ => None,
        }
    } else if parts.len() == 3 {
        let d0 = parse_u32(&parts[0]);
        let d2 = parse_u32(&parts[2]);
        let mid_empty: bool = parts[1].len() == 0;
        let d1 = if mid_empty {
            None
        } else {
            parse_u32(&parts[1])
        };
        match (d0, d2) {
            (Some(p), Some(n)) => {
                if p >= 1 && n >= 1 {
                    if mid_empty {
                        Some(VertexRef { p: p - 1, t: -1, n: (n - 1) as i64 })
                    } else {
                        match d1 {
                            Some(t) => {
                                if t >= 1 {
                                    Some(
                                        VertexRef {
                                            p: p - 1,
                                            t: (t - 1) as i64,
                                            n: (n - 1) as i64,
                                        },
                                    )
                                } else {
                                    None
                                }
                            },
                            None => None,
                        }
                    }
                } else {
                    None
                }
            },
            _ => None,
        }
    } else {
        None
    }
}


/// The bytes of the line tags.
pub open spec fn kw_v() -> Seq<u8> {
    seq![118u8]
}

pub open spec fn kw_vt() -> Seq<u8> {
    seq![118u8, 116u8]
}

pub open spec fn kw_vn() -> Seq<u8> {
    seq![118u8, 110u8]
}

pub open spec fn kw_f() -> Seq<u8> {
    seq![102u8]
}

pub open spec fn kw_o() -> Seq<u8> {
    seq![111u8]
}

pub open spec fn kw_g() -> Seq<u8> {
    seq![103u8]
}

pub open spec fn kw_usemtl() -> Seq<u8> {
    seq![117u8, 115u8, 101u8, 109u8, 116u8, 108u8]
}

pub open spec fn kw_mtllib() -> Seq<u8> {
    seq![109u8, 116u8, 108u8, 108u8, 105u8, 98u8]
}

/// A coordinate token that parses and lies within the coordinate range.
pub open spec fn fixed_ok(t: Seq<u8>) -> bool {
    is_fixed(t) && -COORD_LIMIT <= fixed_value(t) <= COORD_LIMIT
}

/// The corners named by face tokens `1..k`.
pub open spec fn refs_of(toks: Seq<Seq<u8>>, k: int) -> Option<Seq<VertexRefView>>
    decreases k,
{
    if k <= 1 {
        Option::Some(Seq::empty())
    } else {
        match refs_of(toks, k - 1) {
            Option::None => Option::None,
            Option::Some(rs) => match ref_of(toks[k - 1]) {
                Option::None => Option::None,
                Option::Some(r) => Option::Some(rs.push(r)),
            },
        }
    }
}

/// Fan triangulation: corner 0 with each pair of neighbours.
pub open spec fn fan(rs: Seq<VertexRefView>) -> Seq<TriRefView> {
    Seq::new((rs.len() - 2) as nat, |i: int| TriRefView { a: rs[0], b: rs[i + 1], c: rs[i + 2] })
}

/// The state before any line: empty tables and one unnamed group.
pub open spec fn obj_init() -> RawObjView {
    RawObjView {
        positions: Seq::empty(),
        texcoords: Seq::empty(),
        normals: Seq::empty(),
        mtllib: Option::None,
        groups: seq![
            GroupView { name: Seq::empty(), material: Option::None, faces: Seq::empty() },
        ],
    }
}

/// The meaning of one model line: `v`/`vt`/`vn` extend the attribute
/// tables, `f` triangulates a face into the current group, `usemtl`
/// selects the group's material, `mtllib` names the material file, `o`
/// and `g` open a new group (which inherits the selected material), and
/// comments, blank lines, `s` and unknown directives change nothing.  A
/// short or unparsable directive is an error.
pub open spec fn obj_step(st: RawObjView, line: Seq<u8>) -> Option<RawObjView> {
    let toks = tokens_of(line);
    if toks.len() == 0 {
        Option::Some(st)
    } else if toks[0].len() > 0 && toks[0][0] == 35 {
        Option::Some(st)
    } else if toks[0] == kw_v() {
        if toks.len() >= 4 && fixed_ok(toks[1]) && fixed_ok(toks[2]) && fixed_ok(toks[3]) {
            Option::Some(
                RawObjView {
                    positions: st.positions.push(
                        Fx3 {
                            x: fixed_value(toks[1]) as i64,
                            y: fixed_value(toks[2]) as i64,
                            z: fixed_value(toks[3]) as i64,
                        },
                    ),
                    ..st
                },
            )
        } else {
            Option::None
        }
    } else if toks[0] == kw_vt() {
        if toks.len() >= 3 && fixed_ok(toks[1]) && fixed_ok(toks[2]) {
            Option::Some(
                RawObjView {
                    texcoords: st.texcoords.push(
                        Fx2 { u: fixed_value(toks[1]) as i64, v: fixed_value(toks[2]) as i64 },
                    ),
                    ..st
                },
            )
        } else {
            Option::None
        }
    } else if toks[0] == kw_vn() {
        if toks.len() >= 4 && fixed_ok(toks[1]) && fixed_ok(toks[2]) && fixed_ok(toks[3]) {
            Option::Some(
                RawObjView {
                    normals: st.normals.push(
                        Fx3 {
                            x: fixed_value(toks[1]) as i64,
                            y: fixed_value(toks[2]) as i64,
                            z: fixed_value(toks[3]) as i64,
                        },
                    ),
                    ..st
                },
            )
        } else {
            Option::None
        }
    } else if toks[0] == kw_f() {
        match refs_of(toks, toks.len() as int) {
            Option::None => Option::None,
            Option::Some(rs) => if rs.len() >= 3 {
                Option::Some(
                    RawObjView {
                        groups: st.groups.update(
                            st.groups.len() - 1,
                            GroupView {
                                faces: st.groups.last().faces + fan(rs),
                                ..st.groups.last()
                            },
                        ),
                        ..st
                    },
                )
            } else {
                Option::None
            },
        }
    } else if toks[0] == kw_usemtl() {
        if toks.len() >= 2 {
            Option::Some(
                RawObjView {
                    groups: st.groups.update(
                        st.groups.len() - 1,
                        GroupView { material: Option::Some(toks[1]), ..st.groups.last() },
                    ),
                    ..st
                },
            )
        } else {
            Option::None
        }
    } else if toks[0] == kw_mtllib() {
        if toks.len() >= 2 {
            Option::Some(RawObjView { mtllib: Option::Some(toks[1]), ..st })
        } else {
            Option::None
        }
    } else if toks[0] == kw_o() || toks[0] == kw_g() {
        Option::Some(
            RawObjView {
                groups: st.groups.push(
                    GroupView {
                        name: if toks.len() >= 2 {
                            toks[1]
                        } else {
                            Seq::empty()
                        },
                        material: st.groups.last().material,
                        faces: Seq::empty(),
                    },
                ),
                ..st
            },
        )
    } else {
        Option::Some(st)
    }
}

/// The state after the first `i` lines.
pub open spec fn obj_fold(lines: Seq<Seq<u8>>, i: int) -> Option<RawObjView>
    decreases i,
{
    if i <= 0 {
        Option::Some(obj_init())
    } else {
        match obj_fold(lines, i - 1) {
            Option::None => Option::None,
            Option::Some(st) => obj_step(st, lines[i - 1]),
        }
    }
}

/// The whole model text's meaning: the folded state with the groups that
/// received no faces dropped.
pub open spec fn obj_of(text: Seq<u8>) -> Option<RawObjView> {
    let lines = split_on(text, 10);
    match obj_fold(lines, lines.len() as int) {
        Option::None => Option::None,
        Option::Some(st) => Option::Some(
            RawObjView { groups: st.groups.filter(|g: GroupView| g.faces.len() != 0), ..st },
        ),
    }
}

/// Once a line has failed, the whole text's meaning is failure.
pub proof fn lemma_obj_fold_none(lines: Seq<Seq<u8>>, i: int, j: int)
    requires
        0 <= i <= j,
        obj_fold(lines, i) is None,
    ensures
        obj_fold(lines, j) is None,
    decreases j - i,
{
    if i < j {
        lemma_obj_fold_none(lines, i, j - 1);
    }
}

/// A failed corner fails the whole face.
pub proof fn lemma_refs_none(toks: Seq<Seq<u8>>, i: int, j: int)
    requires
        1 <= i <= j,
        refs_of(toks, i) is None,
    ensures
        refs_of(toks, j) is None,
    decreases j - i,
{
    if i < j {
        lemma_refs_none(toks, i, j - 1);
    }
}

/// All attribute tables a fold produces stay within the coordinate range.
pub open spec fn tables_ok(st: RawObjView) -> bool {
    &&& forall|k: int| 0 <= k < st.positions.len() ==> crate::geometry::fx3_ok(
        #[trigger] st.positions[k],
    )
    &&& forall|k: int| 0 <= k < st.texcoords.len() ==> crate::geometry::fx2_ok(
        #[trigger] st.texcoords[k],
    )
    &&& forall|k: int| 0 <= k < st.normals.len() ==> crate::geometry::fx3_ok(
        #[trigger] st.normals[k],
    )
}

pub proof fn lemma_obj_fold_ranges(lines: Seq<Seq<u8>>, i: int)
    requires
        0 <= i,
    ensures
        obj_fold(lines, i) matches Option::Some(st) ==> tables_ok(st),
    decreases i,
{
    if i > 0 {
        lemma_obj_fold_ranges(lines, i - 1);
    }
}

/// A parsed model's attribute tables lie within the coordinate range.
pub proof fn lemma_obj_of_ranges(text: Seq<u8>)
    ensures
        obj_of(text) matches Option::Some(m) ==> tables_ok(m),
{
    let lines = split_on(text, 10);
    lemma_obj_fold_ranges(lines, lines.len() as int);
}



/// `t` equals the one-byte string `b0`.
fn tag_eq1(t: &Vec<u8>, b0: u8) -> (r: bool)
    ensures
        r == (t@ == seq![b0]),
{
    let r: bool = t.len() == 1 && t[0] == b0;
    proof {
        if r {
            assert(t@ =~= seq![b0]);
        }
        if t@ == seq![b0] {
            assert(t@.len() == 1 && t@[0] == b0);
        }
    }
    r
}

/// `t` equals the two-byte string `b0 b1`.
fn tag_eq2(t: &Vec<u8>, b0: u8, b1: u8) -> (r: bool)
    ensures
        r == (t@ == seq![b0, b1]),
{
    let r: bool = t.len() == 2 && t[0] == b0 && t[1] == b1;
    proof {
        if r {
            assert(t@ =~= seq![b0, b1]);
        }
        if t@ == seq![b0, b1] {
            assert(t@.len() == 2 && t@[0] == b0 && t@[1] == b1);
        }
    }
    r
}

/// Builds `usemtl` as bytes.
fn kw_usemtl_vec() -> (r: Vec<u8>)
    ensures
        r@ == kw_usemtl(),
{
    let mut v: Vec<u8> = Vec::new();
    v.push(117);
    v.push(115);
    v.push(101);
    v.push(109);
    v.push(116);
    v.push(108);
    proof {
        assert(v@ =~= kw_usemtl());
    }
    v
}

/// Builds `mtllib` as bytes.
fn kw_mtllib_vec() -> (r: Vec<u8>)
    ensures
        r@ == kw_mtllib(),
{
    let mut v: Vec<u8> = Vec::new();
    v.push(109);
    v.push(116);
    v.push(108);
    v.push(108);
    v.push(105);
    v.push(98);
    proof {
        assert(v@ =~= kw_mtllib());
    }
    v
}


/// Applies one face line to a group: parses the corner tokens and fans
/// the polygon into triangles.  Returns false when a corner is malformed
/// or fewer than three corners are named.
fn apply_face(g: &mut Group, toks: &Vec<Vec<u8>>) -> (ok: bool)
    requires
        toks@.len() >= 1,
    ensures
        ({
            let toksv = toks@.map_values(|v: Vec<u8>| v@);
            match refs_of(toksv, toksv.len() as int) {
                Option::None => !ok,
                Option::Some(rs) => {
                    &&& ok == (rs.len() >= 3)
                    &&& ok ==> final(g)@ == (GroupView {
                        faces: old(g)@.faces + fan(rs),
                        ..old(g)@
                    })
                },
            }
        }),
{
    let ghost toksv = toks@.map_values(|v: Vec<u8>| v@);
    let m: usize = toks.len();
    let mut refs: Vec<VertexRef> = Vec::new();
    let mut j: usize = 1;
    proof {
        assert(refs@.map_values(|x: VertexRef| x@) =~~= Seq::<VertexRefView>::empty());
    }
    while j < m
        invariant
            1 <= j <= m,
            m == toks@.len(),
            toksv == toks@.map_values(|v: Vec<u8>| v@),
            refs_of(toksv, j as int) == Option::Some(refs@.map_values(|x: VertexRef| x@)),
            refs@.len() == j - 1,
        decreases m - j,
    {
        proof {
            assert(toksv[j as int] == toks@[j as int]@);
        }
        let ghost rs0 = refs@.map_values(|x: VertexRef| x@);
        match parse_ref(&toks[j]) {
            None => {
                proof {
                    assert(refs_of(toksv, j as int + 1) is None);
                    lemma_refs_none(toksv, j as int + 1, m as int);
                }
                return false;
            },
            Some(vr) => {
                refs.push(vr);
                proof {
                    assert(refs@.map_values(|x: VertexRef| x@) =~~= rs0.push(vr@));
                }
            },
        }
        j = j + 1;
    }
    if refs.len() < 3 {
        return false;
    }
    let ghost rsv = refs@.map_values(|x: VertexRef| x@);
    let ghost gold = g@;
    let ghost faces0 = g@.faces;
    let r0: VertexRef = refs[0];
    let last: usize = refs.len() - 2;
    let mut k: usize = 0;
    proof {
        assert(g.faces@.map_values(|t: TriRef| t@) =~~= faces0 + fan(rsv).take(0));
    }
    while k < last
        invariant
            refs@.len() >= 3,
            last == refs@.len() - 2,
            0 <= k <= last,
            r0 == refs@[0],
            rsv == refs@.map_values(|x: VertexRef| x@),
            g@.name == gold.name,
            g@.material == gold.material,
            g.faces@.map_values(|t: TriRef| t@) =~~= faces0 + fan(rsv).take(k as int),
        decreases refs@.len() - k,
    {
        let ghost f0 = g.faces@.map_values(|t: TriRef| t@);
        let rl: usize = refs.len();
        proof {
            assert(k as int + 2 <= rl as int);
        }
        let tri = TriRef { a: r0, b: refs[k + 1], c: refs[k + 2] };
        g.faces.push(tri);
        proof {
            assert(tri@ == fan(rsv)[k as int]);
            assert(g.faces@.map_values(|t: TriRef| t@) =~~= f0.push(tri@));
            assert(f0.push(tri@) =~~= faces0 + fan(rsv).take(k as int + 1));
        }
        k = k + 1;
    }
    proof {
        assert(fan(rsv).take(k as int) =~~= fan(rsv));
        assert(g@ =~~= (GroupView { faces: gold.faces + fan(rsv), ..gold }));
    }
    true
}

/// Parses a model description: fails exactly on the lines `obj_step`
/// rejects, and otherwise returns the tables, the material file
/// reference, and the groups that received faces.
#[verifier::rlimit(100)]
pub fn parse_obj(text: &Vec<u8>) -> (r: Result<RawObj, ParseError>)
    ensures
        r is Ok <==> obj_of(text@) is Some,
        r matches Ok(m) ==> Option::Some(m@) == obj_of(text@),
{
    let kw_usemtl_b: Vec<u8> = kw_usemtl_vec();
    let kw_mtllib_b: Vec<u8> = kw_mtllib_vec();
    let lines: Vec<Vec<u8>> = split_bytes(text, 10);
    let n: usize = lines.len();
    let mut positions: Vec<Fx3> = Vec::new();
    let mut texcoords: Vec<Fx2> = Vec::new();
    let mut normals: Vec<Fx3> = Vec::new();
    let mut mtllib: Option<Vec<u8>> = None;
    let mut groups: Vec<Group> = Vec::new();
    groups.push(Group { name: Vec::new(), material: None, faces: Vec::new() });
    proof {
        assert(groups@[0]@.faces =~~= Seq::<TriRefView>::empty());
        assert(groups@.map_values(|g: Group| g@) =~~= obj_init().groups);
        assert(positions@ =~= obj_init().positions);
        assert(texcoords@ =~= obj_init().texcoords);
        assert(normals@ =~= obj_init().normals);
    }
    let mut i: usize = 0;
    while i < n
        invariant
            n == lines@.len(),
            0 <= i <= n,
            lines@.map_values(|v: Vec<u8>| v@) == split_on(text@, 10),
            kw_usemtl_b@ == kw_usemtl(),
            kw_mtllib_b@ == kw_mtllib(),
            groups@.len() >= 1,
            obj_fold(lines@.map_values(|v: Vec<u8>| v@), i as int) == Option::Some(
                RawObjView {
                    positions: positions@,
                    texcoords: texcoords@,
                    normals: normals@,
                    mtllib: opt_bytes(mtllib),
                    groups: groups@.map_values(|g: Group| g@),
                },
            ),
        decreases n - i,
    {
        let ghost linesv = lines@.map_values(|v: Vec<u8>| v@);
        let ghost st0 = RawObjView {
            positions: positions@,
            texcoords: texcoords@,
            normals: normals@,
            mtllib: opt_bytes(mtllib),
            groups: groups@.map_values(|g: Group| g@),
        };
        let toks: Vec<Vec<u8>> = tokenize(&lines[i]);
        proof {
            assert(linesv[i as int] == lines@[i as int]@);
            assert(toks@.map_values(|v: Vec<u8>| v@) == tokens_of(linesv[i as int]));
        }
        let ghost toksv = tokens_of(linesv[i as int]);
        if toks.len() == 0 {
            proof {
                assert(obj_step(st0, linesv[i as int]) == Option::Some(st0));
            }
        } else {
            proof {
                assert(toksv[0] == toks@[0]@);
                assert(toks@.len() >= 2 ==> toksv[1] == toks@[1]@);
                assert(toks@.len() >= 3 ==> toksv[2] == toks@[2]@);
                assert(toks@.len() >= 4 ==> toksv[3] == toks@[3]@);
            }
            let is_v: bool = tag_eq1(&toks[0], 118);
            let is_vt: bool = tag_eq2(&toks[0], 118, 116);
            let is_vn: bool = tag_eq2(&toks[0], 118, 110);
            let is_f: bool = tag_eq1(&toks[0], 102);
            let is_o: bool = tag_eq1(&toks[0], 111);
            let is_g: bool = tag_eq1(&toks[0], 103);
            let is_usemtl: bool = bytes_eq(&toks[0], &kw_usemtl_b);
            let is_mtllib: bool = bytes_eq(&toks[0], &kw_mtllib_b);
            let first_len: usize = toks[0].len();
            if first_len > 0 && toks[0][0] == 35 {
                proof {
                    assert(obj_step(st0, linesv[i as int]) == Option::Some(st0));
                }
            } else if is_v || is_vn {
                if toks.len() < 4 {
                    proof {
                        lemma_obj_fold_none(linesv, i as int + 1, linesv.len() as int);
                    }
                    return Err(ParseError::Malformed);
                }
                let x: i64 = match parse_fixed(&toks[1]) {
                    Some(v) => v,
                    None => {
                        proof {
                            lemma_obj_fold_none(linesv, i as int + 1, linesv.len() as int);
                        }
                        return Err(ParseError::Malformed);
                    },
                };
                let y: i64 = match parse_fixed(&toks[2]) {
                    Some(v) => v,
                    None => {
                        proof {
                            lemma_obj_fold_none(linesv, i as int + 1, linesv.len() as int);
                        }
                        return Err(ParseError::Malformed);
                    },
                };
                let z: i64 = match parse_fixed(&toks[3]) {
                    Some(v) => v,
                    None => {
                        proof {
                            lemma_obj_fold_none(linesv, i as int + 1, linesv.len() as int);
                        }
                        return Err(ParseError::Malformed);
                    },
                };
                if is_v {
                    positions.push(Fx3 { x, y, z });
                } else {
                    normals.push(Fx3 { x, y, z });
                }
            } else if is_vt {
                if toks.len() < 3 {
                    proof {
                        lemma_obj_fold_none(linesv, i as int + 1, linesv.len() as int);
                    }
                    return Err(ParseError::Malformed);
                }
                let u: i64 = match parse_fixed(&toks[1]) {
                    Some(v) => v,
                    None => {
                        proof {
                            lemma_obj_fold_none(linesv, i as int + 1, linesv.len() as int);
                        }
                        return Err(ParseError::Malformed);
                    },
                };
                let v: i64 = match parse_fixed(&toks[2]) {
                    Some(v) => v,
                    None => {
                        proof {
                            lemma_obj_fold_none(linesv, i as int + 1, linesv.len() as int);
                        }
                        return Err(ParseError::Malformed);
                    },
                };
                texcoords.push(Fx2 { u, v });
            } else if is_f {
                let mut g: Group = match groups.pop() {
                    Some(g) => g,
                    None => {
                        proof {
                            assert(false);
                        }
                        return Err(ParseError::Malformed);
                    },
                };
                proof {
                    assert(g@ == st0.groups[st0.groups.len() - 1]);
                    assert(groups@.map_values(|g2: Group| g2@) =~~= st0.groups.drop_last());
                }
                let ok: bool = apply_face(&mut g, &toks);
                if !ok {
                    proof {
                        lemma_obj_fold_none(linesv, i as int + 1, linesv.len() as int);
                    }
                    return Err(ParseError::Malformed);
                }
                let ghost rsv = match refs_of(toksv, toksv.len() as int) {
                    Option::Some(rs) => rs,
                    Option::None => Seq::empty(),
                };
                groups.push(g);
                proof {
                    assert(st0.groups.last() == st0.groups[st0.groups.len() - 1]);
                    assert(groups@.map_values(|g2: Group| g2@) =~~= st0.groups.drop_last().push(
                        g@,
                    ));
                    assert(g@ == (GroupView {
                        faces: st0.groups.last().faces + fan(rsv),
                        ..st0.groups.last()
                    }));
                    assert(st0.groups.update(st0.groups.len() - 1, g@) =~~=
                        st0.groups.drop_last().push(g@));
                    assert(groups@.map_values(|g2: Group| g2@) =~~= st0.groups.update(
                        st0.groups.len() - 1,
                        GroupView { faces: st0.groups.last().faces + fan(rsv), ..st0.groups.last() },
                    ));
                }
            } else if is_usemtl {
                if toks.len() < 2 {
                    proof {
                        lemma_obj_fold_none(linesv, i as int + 1, linesv.len() as int);
                    }
                    return Err(ParseError::Malformed);
                }
                let tex: Vec<u8> = subvec(&toks[1], 0, toks[1].len());
                proof {
                    assert(tex@ =~= toks@[1 as int]@);
                }
                let g: Group = match groups.pop() {
                    Some(g) => g,
                    None => {
                        proof {
                            assert(false);
                        }
                        return Err(ParseError::Malformed);
                    },
                };
                groups.push(Group { material: Some(tex), ..g });
                proof {
                    assert(groups@.map_values(|g2: Group| g2@) =~~= st0.groups.update(
                        st0.groups.len() - 1,
                        GroupView { material: Option::Some(toksv[1]), ..st0.groups.last() },
                    ));
                }
            } else if is_mtllib {
                if toks.len() < 2 {
                    proof {
                        lemma_obj_fold_none(linesv, i as int + 1, linesv.len() as int);
                    }
                    return Err(ParseError::Malformed);
                }
                let tex: Vec<u8> = subvec(&toks[1], 0, toks[1].len());
                proof {
                    assert(tex@ =~= toks@[1 as int]@);
                }
                mtllib = Some(tex);
            } else if is_o || is_g {
                let name: Vec<u8> = if toks.len() >= 2 {
                    subvec(&toks[1], 0, toks[1].len())
                } else {
                    Vec::new()
                };
                let last_idx: usize = groups.len() - 1;
                let mat: Option<Vec<u8>> = match &groups[last_idx].material {
                    Some(v) => Some(subvec(v, 0, v.len())),
                    None => None,
                };
                proof {
                    assert(opt_bytes(mat) == st0.groups.last().material);
                    assert(toks@.len() >= 2 ==> name@ =~= toksv[1]);
                }
                groups.push(Group { name, material: mat, faces: Vec::new() });
                proof {
                    assert(groups@[groups@.len() - 1]@.faces =~~= Seq::<TriRefView>::empty());
                    assert(groups@.map_values(|g2: Group| g2@) =~~= st0.groups.push(
                        GroupView {
                            name: if toksv.len() >= 2 {
                                toksv[1]
                            } else {
                                Seq::<u8>::empty()
                            },
                            material: st0.groups.last().material,
                            faces: Seq::empty(),
                        },
                    ));
                }
            } else {
                proof {
                    assert(obj_step(st0, linesv[i as int]) == Option::Some(st0));
                }
            }
        }
        i = i + 1;
    }
    let ghost allgroups = groups@.map_values(|g: Group| g@);
    let ghost pred = |g: GroupView| g.faces.len() != 0;
    let mut kept: Vec<Group> = Vec::new();
    proof {
        reveal(Seq::filter);
        assert(kept@.map_values(|g: Group| g@) =~~= allgroups.take(0).filter(pred));
    }
    while groups.len() > 0
        invariant
            groups@.len() <= allgroups.len(),
            groups@.map_values(|g: Group| g@) =~~= allgroups.skip(
                allgroups.len() - groups@.len(),
            ),
            kept@.map_values(|g: Group| g@) =~~= allgroups.take(
                allgroups.len() - groups@.len(),
            ).filter(|g: GroupView| g.faces.len() != 0),
        decreases groups@.len(),
    {
        let ghost kdone = allgroups.len() - groups@.len();
        let ghost kept0 = kept@.map_values(|g: Group| g@);
        let ghost gm0 = groups@.map_values(|g2: Group| g2@);
        let g: Group = groups.remove(0);
        proof {
            assert(gm0 == allgroups.skip(kdone));
            assert(gm0[0] == g@);
            assert(allgroups.skip(kdone)[0] == allgroups[kdone]);
            assert(g@ == allgroups[kdone]);
            assert(groups@.map_values(|g2: Group| g2@) =~~= gm0.skip(1));
            assert(allgroups.skip(kdone).skip(1) =~= allgroups.skip(kdone + 1));
            assert(groups@.map_values(|g2: Group| g2@) =~~= allgroups.skip(kdone + 1));
            assert(allgroups.take(kdone + 1).drop_last() =~~= allgroups.take(kdone));
            assert(allgroups.take(kdone + 1).last() == allgroups[kdone]);
            reveal(Seq::filter);
        }
        if g.faces.len() > 0 {
            kept.push(g);
            proof {
                assert(kept@.map_values(|g2: Group| g2@) =~~= kept0.push(allgroups[kdone]));
            }
        } else {
            proof {
                assert(g@.faces.len() == 0);
            }
        }
    }
    proof {
        assert(allgroups.take(allgroups.len() as int) =~~= allgroups);
    }
    Ok(RawObj { positions, texcoords, normals, mtllib, groups: kept })
}

} // verus!
