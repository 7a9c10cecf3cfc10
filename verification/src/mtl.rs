//! The material file format: named materials with optional diffuse and
//! normal texture file names.

use vstd::prelude::*;
use crate::text::{split_on, tokens_of, tokenize, split_bytes, subvec};

verus! {

/// A parsed material definition: its name and the optional texture file
/// names its lines supplied.
pub struct MaterialDef {
    pub name: Vec<u8>,
    pub diffuse: Option<Vec<u8>>,
    pub normal: Option<Vec<u8>>,
}

/// Mathematical image of a `MaterialDef`.
pub ghost struct MaterialDefView {
    pub name: Seq<u8>,
    pub diffuse: Option<Seq<u8>>,
    pub normal: Option<Seq<u8>>,
}

impl View for MaterialDef {
    type V = MaterialDefView;

    open spec fn view(&self) -> MaterialDefView {
        MaterialDefView {
            name: self.name@,
            diffuse: match self.diffuse {
                Option::Some(d) => Option::Some(d@),
                Option::None => Option::None,
            },
            normal: match self.normal {
                Option::Some(d) => Option::Some(d@),
                Option::None => Option::None,
            },
        }
    }
}

/// Malformed model or material text.
#[derive(Clone, Copy, Debug, PartialEq, Eq, Structural)]
pub enum ParseError {
    Malformed,
}

/// The bytes of `newmtl`.
pub open spec fn kw_newmtl() -> Seq<u8> {
    seq![110u8, 101u8, 119u8, 109u8, 116u8, 108u8]
}

/// The bytes of `map_Kd`.
pub open spec fn kw_map_kd() -> Seq<u8> {
    seq![109u8, 97u8, 112u8, 95u8, 75u8, 100u8]
}

/// The bytes of `map_Bump`.
pub open spec fn kw_map_bump() -> Seq<u8> {
    seq![109u8, 97u8, 112u8, 95u8, 66u8, 117u8, 109u8, 112u8]
}

/// The bytes of `bump`.
pub open spec fn kw_bump() -> Seq<u8> {
    seq![98u8, 117u8, 109u8, 112u8]
}

/// The bytes of `norm`.
pub open spec fn kw_norm() -> Seq<u8> {
    seq![110u8, 111u8, 114u8, 109u8]
}

/// Compares two byte strings.
pub fn bytes_eq(a: &Vec<u8>, b: &Vec<u8>) -> (r: bool)
    ensures
        r == (a@ == b@),
{
    let n: usize = a.len();
    if n != b.len() {
        proof {
            assert(a@.len() != b@.len());
        }
        return false;
    }
    let mut i: usize = 0;
    while i < n
        invariant
            n == a@.len(),
            n == b@.len(),
            0 <= i <= n,
            forall|k: int| 0 <= k < i ==> a@[k] == b@[k],
        decreases n - i,
    {
        if a[i] != b[i] {
            return false;
        }
        i = i + 1;
    }
    proof {
        assert(a@ =~= b@);
    }
    true
}

/// Builds `newmtl` as bytes.
fn kw_newmtl_vec() -> (r: Vec<u8>)
    ensures
        r@ == kw_newmtl(),
{
    let mut v: Vec<u8> = Vec::new();
    v.push(110);
    v.push(101);
    v.push(119);
    v.push(109);
    v.push(116);
    v.push(108);
    proof {
        assert(v@ =~= kw_newmtl());
    }
    v
}

/// Builds `map_Kd` as bytes.
fn kw_map_kd_vec() -> (r: Vec<u8>)
    ensures
        r@ == kw_map_kd(),
{
    let mut v: Vec<u8> = Vec::new();
    v.push(109);
    v.push(97);
    v.push(112);
    v.push(95);
    v.push(75);
    v.push(100);
    proof {
        assert(v@ =~= kw_map_kd());
    }
    v
}

/// Builds `map_Bump` as bytes.
fn kw_map_bump_vec() -> (r: Vec<u8>)
    ensures
        r@ == kw_map_bump(),
{
    let mut v: Vec<u8> = Vec::new();
    v.push(109);
    v.push(97);
    v.push(112);
    v.push(95);
    v.push(66);
    v.push(117);
    v.push(109);
    v.push(112);
    proof {
        assert(v@ =~= kw_map_bump());
    }
    v
}

/// Builds `bump` as bytes.
fn kw_bump_vec() -> (r: Vec<u8>)
    ensures
        r@ == kw_bump(),
{
    let mut v: Vec<u8> = Vec::new();
    v.push(98);
    v.push(117);
    v.push(109);
    v.push(112);
    proof {
        assert(v@ =~= kw_bump());
    }
    v
}

/// Builds `norm` as bytes.
fn kw_norm_vec() -> (r: Vec<u8>)
    ensures
        r@ == kw_norm(),
{
    let mut v: Vec<u8> = Vec::new();
    v.push(110);
    v.push(111);
    v.push(114);
    v.push(109);
    proof {
        assert(v@ =~= kw_norm());
    }
    v
}

/// The meaning of one material-file line applied to the definitions read
/// so far: `newmtl` opens a definition, `map_Kd` names its diffuse
/// texture, `map_Bump`/`bump`/`norm` its normal texture; comments, blank
/// lines and unknown directives change nothing; a texture directive
/// before any `newmtl`, or a directive missing its argument, is an
/// error.
pub open spec fn mtl_step(st: Seq<MaterialDefView>, line: Seq<u8>) -> Option<
    Seq<MaterialDefView>,
> {
    let toks = tokens_of(line);
    if toks.len() == 0 {
        Option::Some(st)
    } else if toks[0].len() > 0 && toks[0][0] == 35 {
        Option::Some(st)
    } else if toks[0] == kw_newmtl() {
        if toks.len() < 2 {
            Option::None
        } else {
            Option::Some(
                st.push(
                    MaterialDefView { name: toks[1], diffuse: Option::None, normal: Option::None },
                ),
            )
        }
    } else if toks[0] == kw_map_kd() {
        if toks.len() < 2 || st.len() == 0 {
            Option::None
        } else {
            Option::Some(
                st.update(
                    st.len() - 1,
                    MaterialDefView { diffuse: Option::Some(toks[1]), ..st.last() },
                ),
            )
        }
    } else if toks[0] == kw_map_bump() || toks[0] == kw_bump() || toks[0] == kw_norm() {
        if toks.len() < 2 || st.len() == 0 {
            Option::None
        } else {
            Option::Some(
                st.update(
                    st.len() - 1,
                    MaterialDefView { normal: Option::Some(toks[1]), ..st.last() },
                ),
            )
        }
    } else {
        Option::Some(st)
    }
}

/// The definitions after the first `i` lines.
pub open spec fn mtl_fold(lines: Seq<Seq<u8>>, i: int) -> Option<Seq<MaterialDefView>>
    decreases i,
{
    if i <= 0 {
        Option::Some(Seq::empty())
    } else {
        match mtl_fold(lines, i - 1) {
            Option::None => Option::None,
            Option::Some(st) => mtl_step(st, lines[i - 1]),
        }
    }
}

/// The whole material file's meaning.
pub open spec fn mtl_of(text: Seq<u8>) -> Option<Seq<MaterialDefView>> {
    let lines = split_on(text, 10);
    mtl_fold(lines, lines.len() as int)
}

/// Once a line has failed, the whole file's meaning is failure.
pub proof fn lemma_mtl_fold_none(lines: Seq<Seq<u8>>, i: int, j: int)
    requires
        0 <= i <= j,
        mtl_fold(lines, i) is None,
    ensures
        mtl_fold(lines, j) is None,
    decreases j - i,
{
    if i < j {
        lemma_mtl_fold_none(lines, i, j - 1);
    }
}

/// Parses a material file: fails exactly on the malformed lines
/// `mtl_step` rejects, and otherwise returns the definitions in file
/// order.
pub fn parse_mtl(text: &Vec<u8>) -> (r: Result<Vec<MaterialDef>, ParseError>)
    ensures
        r is Ok <==> mtl_of(text@) is Some,
        r matches Ok(defs) ==> Option::Some(defs@.map_values(|m: MaterialDef| m@)) == mtl_of(
            text@,
        ),
{
    let kw_newmtl_b: Vec<u8> = kw_newmtl_vec();
    let kw_map_kd_b: Vec<u8> = kw_map_kd_vec();
    let kw_map_bump_b: Vec<u8> = kw_map_bump_vec();
    let kw_bump_b: Vec<u8> = kw_bump_vec();
    let kw_norm_b: Vec<u8> = kw_norm_vec();

    let lines: Vec<Vec<u8>> = split_bytes(text, 10);
    let n: usize = lines.len();
    let mut defs: Vec<MaterialDef> = Vec::new();
    let mut i: usize = 0;
    proof {
        assert(defs@.map_values(|m: MaterialDef| m@) =~~= Seq::<MaterialDefView>::empty());
    }
    while i < n
        invariant
            n == lines@.len(),
            0 <= i <= n,
            lines@.map_values(|v: Vec<u8>| v@) == split_on(text@, 10),
            mtl_fold(lines@.map_values(|v: Vec<u8>| v@), i as int) == Option::Some(
                defs@.map_values(|m: MaterialDef| m@),
            ),
            kw_newmtl_b@ == kw_newmtl(),
            kw_map_kd_b@ == kw_map_kd(),
            kw_map_bump_b@ == kw_map_bump(),
            kw_bump_b@ == kw_bump(),
            kw_norm_b@ == kw_norm(),
        decreases n - i,
    {
        let ghost linesv = lines@.map_values(|v: Vec<u8>| v@);
        let ghost st0 = defs@.map_values(|m: MaterialDef| m@);
        let toks: Vec<Vec<u8>> = tokenize(&lines[i]);
        proof {
            assert(linesv[i as int] == lines@[i as int]@);
            assert(toks@.map_values(|v: Vec<u8>| v@) == tokens_of(linesv[i as int]));
        }
        let ghost toksv = tokens_of(linesv[i as int]);
        if toks.len() == 0 {
            proof {
                assert(mtl_step(st0, linesv[i as int]) == Option::Some(st0));
            }
        } else {
            proof {
                assert(toksv[0] == toks@[0]@);
                assert(toks@.len() >= 2 ==> toksv[1] == toks@[1]@);
            }
            let is_newmtl: bool = bytes_eq(&toks[0], &kw_newmtl_b);
            let is_kd: bool = bytes_eq(&toks[0], &kw_map_kd_b);
            let is_bump: bool = bytes_eq(&toks[0], &kw_map_bump_b) || bytes_eq(
                &toks[0],
                &kw_bump_b,
            ) || bytes_eq(&toks[0], &kw_norm_b);
            let first_len: usize = toks[0].len();
            if first_len > 0 && toks[0][0] == 35 {
                proof {
                    assert(mtl_step(st0, linesv[i as int]) == Option::Some(st0));
                }
            } else if is_newmtl {
                if toks.len() < 2 {
                    proof {
                        assert(mtl_fold(linesv, i as int + 1) is None);
                        lemma_mtl_fold_none(linesv, i as int + 1, linesv.len() as int);
                    }
                    return Err(ParseError::Malformed);
                }
                let name: Vec<u8> = subvec(&toks[1], 0, toks[1].len());
                proof {
                    assert(name@ =~= toks@[1 as int]@);
                }
                defs.push(MaterialDef { name, diffuse: None, normal: None });
                proof {
                    assert(defs@.map_values(|m: MaterialDef| m@) =~~= st0.push(
                        MaterialDefView {
                            name: toksv[1],
                            diffuse: Option::None,
                            normal: Option::None,
                        },
                    ));
                }
            } else if is_kd {
                if toks.len() < 2 || defs.len() == 0 {
                    proof {
                        assert(mtl_fold(linesv, i as int + 1) is None);
                        lemma_mtl_fold_none(linesv, i as int + 1, linesv.len() as int);
                    }
                    return Err(ParseError::Malformed);
                }
                let tex: Vec<u8> = subvec(&toks[1], 0, toks[1].len());
                proof {
                    assert(tex@ =~= toks@[1 as int]@);
                }
                let last = match defs.pop() {
                    Some(m) => m,
                    None => {
                        proof {
                            assert(false);
                        }
                        return Err(ParseError::Malformed);
                    },
                };
                defs.push(MaterialDef { diffuse: Some(tex), ..last });
                proof {
                    assert(defs@.map_values(|m: MaterialDef| m@) =~~= st0.update(
                        st0.len() - 1,
                        MaterialDefView { diffuse: Option::Some(toksv[1]), ..st0.last() },
                    ));
                }
            } else if is_bump {
                if toks.len() < 2 || defs.len() == 0 {
                    proof {
                        assert(mtl_fold(linesv, i as int + 1) is None);
                        lemma_mtl_fold_none(linesv, i as int + 1, linesv.len() as int);
                    }
                    return Err(ParseError::Malformed);
                }
                let tex: Vec<u8> = subvec(&toks[1], 0, toks[1].len());
                proof {
                    assert(tex@ =~= toks@[1 as int]@);
                }
                let last = match defs.pop() {
                    Some(m) => m,
                    None => {
                        proof {
                            assert(false);
                        }
                        return Err(ParseError::Malformed);
                    },
                };
                defs.push(MaterialDef { normal: Some(tex), ..last });
                proof {
                    assert(defs@.map_values(|m: MaterialDef| m@) =~~= st0.update(
                        st0.len() - 1,
                        MaterialDefView { normal: Option::Some(toksv[1]), ..st0.last() },
                    ));
                }
            } else {
                proof {
                    assert(mtl_step(st0, linesv[i as int]) == Option::Some(st0));
                }
            }
        }
        i = i + 1;
    }
    proof {
        assert(lines@.map_values(|v: Vec<u8>| v@).len() == split_on(text@, 10).len());
    }
    Ok(defs)
}

} // verus!
