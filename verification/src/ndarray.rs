//! The nested-array value and its mathematical model.
//!
//! A decoded array is a tagged tree: a scalar element, or a sequence of
//! subtrees, one per index of the leading dimension.  The model of a
//! tree is `ArrayModel`, a tree over `Seq`.  `conforms` says when a
//! model has a given shape, and `flatten_model` gives its flat
//! row-major element sequence.

use crate::errors::{FormatKind, NpyError};
use vstd::prelude::*;

verus! {

broadcast use vstd::seq::group_seq_axioms, vstd::std_specs::vec::group_vec_axioms;

/// One decoded element.  Floating-point payloads are carried as their
/// raw little-endian bit patterns, so that decoding stays exact.
#[derive(Clone, Copy, Debug, PartialEq, Eq, Structural)]
pub enum Elem {
    I8(i8),
    I16(i16),
    I32(i32),
    I64(i64),
    U8(u8),
    U16(u16),
    U32(u32),
    U64(u64),
    /// Bit pattern of a 32-bit IEEE-754 value.
    F32Bits(u32),
    /// Bit pattern of a 64-bit IEEE-754 value.
    F64Bits(u64),
    Bool(bool),
}

/// A decoded nested array: a scalar at rank 0, or a sequence of
/// subarrays along the leading dimension at rank one or more.
#[derive(Debug, PartialEq, Eq)]
pub enum NumpyArrayResult {
    Scalar(Elem),
    Array(Vec<NumpyArrayResult>),
}

/// The mathematical model of a nested array.
#[verifier::ext_equal]
pub enum ArrayModel {
    Scalar(Elem),
    Array(Seq<ArrayModel>),
}

impl View for NumpyArrayResult {
    type V = ArrayModel;

    open spec fn view(&self) -> ArrayModel
        decreases self,
    {
        match self {
            NumpyArrayResult::Scalar(e) => ArrayModel::Scalar(*e),
            NumpyArrayResult::Array(cs) => ArrayModel::Array(views_of(cs@)),
        }
    }
}

/// The models of a sequence of trees, in order.
pub open spec fn views_of(cs: Seq<NumpyArrayResult>) -> Seq<ArrayModel>
    decreases cs,
{
    if cs.len() == 0 {
        Seq::empty()
    } else {
        views_of(cs.drop_last()).push(cs.last()@)
    }
}

/// Product of the dimensions of a shape; the empty shape has product 1
/// (a scalar).
pub open spec fn shape_product(shape: Seq<usize>) -> nat
    decreases shape.len(),
{
    if shape.len() == 0 {
        1
    } else {
        shape[0] as nat * shape_product(shape.skip(1))
    }
}

/// Whether a model has exactly the given shape: a scalar for the empty
/// shape, else a sequence of `shape[0]` subtrees each of the tail shape.
pub open spec fn conforms(m: ArrayModel, shape: Seq<usize>) -> bool
    decreases shape.len(),
{
    if shape.len() == 0 {
        m is Scalar
    } else {
        match m {
            ArrayModel::Scalar(_) => false,
            ArrayModel::Array(cs) => {
                &&& cs.len() == shape[0]
                &&& forall|i: int|
                    0 <= i < cs.len() ==> conforms(#[trigger] cs[i], shape.skip(1))
            },
        }
    }
}

/// The flat row-major element sequence of a model: a scalar flattens to
/// itself, an array to the concatenation of its subtrees' flattenings.
pub open spec fn flatten_model(m: ArrayModel) -> Seq<Elem>
    decreases m,
{
    match m {
        ArrayModel::Scalar(e) => seq![e],
        ArrayModel::Array(cs) => flatten_children(cs),
    }
}

/// Concatenation of the flat sequences of a sequence of models.
pub open spec fn flatten_children(cs: Seq<ArrayModel>) -> Seq<Elem>
    decreases cs, cs.len(),
{
    if cs.len() == 0 {
        seq![]
    } else {
        flatten_model(cs[0]) + flatten_children(cs.skip(1))
    }
}

/// The model of shape `shape` whose row-major flattening is `buf`: a
/// scalar of the single element for the empty shape, else `shape[0]`
/// subtrees, each reshaped from one contiguous block of `buf`.
pub open spec fn reshape_model(buf: Seq<Elem>, shape: Seq<usize>) -> ArrayModel
    decreases shape.len(),
{
    if shape.len() == 0 {
        ArrayModel::Scalar(buf[0])
    } else {
        let sub = shape_product(shape.skip(1)) as int;
        ArrayModel::Array(
            Seq::new(
                shape[0] as nat,
                |i: int| reshape_model(buf.subrange(i * sub, (i + 1) * sub), shape.skip(1)),
            ),
        )
    }
}

/// A sequence of trees and the sequence of their models have equal
/// lengths and corresponding entries.
pub proof fn lemma_views_of(cs: Seq<NumpyArrayResult>)
    ensures
        views_of(cs).len() == cs.len(),
        forall|i: int| 0 <= i < cs.len() ==> views_of(cs)[i] == cs[i]@,
    decreases cs.len(),
{
    if cs.len() > 0 {
        let prev = cs.drop_last();
        lemma_views_of(prev);
        assert(views_of(cs) == views_of(prev).push(cs.last()@));
        assert forall|i: int| 0 <= i < cs.len() implies views_of(cs)[i] == cs[i]@ by {
            if i < cs.len() - 1 {
                assert(views_of(cs)[i] == views_of(prev)[i]);
                assert(prev[i] == cs[i]);
            }
        }
    }
}

/// Flattening distributes over appending one tree to a sequence.
pub proof fn lemma_flatten_children_push(cs: Seq<ArrayModel>, m: ArrayModel)
    ensures
        flatten_children(cs.push(m)) == flatten_children(cs) + flatten_model(m),
    decreases cs.len(),
{
    let ps = cs.push(m);
    if cs.len() == 0 {
        assert(ps[0] == m);
        assert(ps.skip(1) =~= Seq::<ArrayModel>::empty());
        assert(flatten_children(ps) == flatten_model(m) + flatten_children(ps.skip(1)));
        assert(flatten_children(ps) =~= flatten_children(cs) + flatten_model(m));
    } else {
        assert(ps[0] == cs[0]);
        assert(ps.skip(1) =~= cs.skip(1).push(m));
        lemma_flatten_children_push(cs.skip(1), m);
        assert(flatten_children(ps) == flatten_model(ps[0]) + flatten_children(ps.skip(1)));
        assert(flatten_children(cs) == flatten_model(cs[0]) + flatten_children(cs.skip(1)));
        assert(flatten_children(ps) =~= flatten_children(cs) + flatten_model(m));
    }
}

/// The flattening of a tree of shape `shape` has exactly
/// `product(shape)` elements.
pub proof fn lemma_flatten_len(m: ArrayModel, shape: Seq<usize>)
    requires
        conforms(m, shape),
    ensures
        flatten_model(m).len() == shape_product(shape),
    decreases shape.len(), 0nat,
{
    if shape.len() > 0 {
        let cs = m->Array_0;
        lemma_flatten_children_len(cs, shape.skip(1));
        assert(flatten_model(m) == flatten_children(cs));
        assert(shape[0] as nat * shape_product(shape.skip(1)) == shape_product(shape));
    }
}

/// The flattening of `cs.len()` trees of shape `shape` has
/// `cs.len() × product(shape)` elements.
pub proof fn lemma_flatten_children_len(cs: Seq<ArrayModel>, shape: Seq<usize>)
    requires
        forall|i: int| 0 <= i < cs.len() ==> conforms(#[trigger] cs[i], shape),
    ensures
        flatten_children(cs).len() == cs.len() * shape_product(shape),
    decreases shape.len(), cs.len() + 1,
{
    let p = shape_product(shape);
    if cs.len() == 0 {
    } else {
        let rest = cs.skip(1);
        lemma_flatten_len(cs[0], shape);
        assert forall|j: int| 0 <= j < rest.len() implies conforms(#[trigger] rest[j], shape) by {
            assert(rest[j] == cs[j + 1]);
        }
        lemma_flatten_children_len(rest, shape);
        assert(flatten_children(cs) == flatten_model(cs[0]) + flatten_children(rest));
        assert(p + (cs.len() - 1) * p == cs.len() * p) by (nonlinear_arith);
    }
}

/// One contiguous block of the flattening of a sequence of trees of
/// shape `shape` is the flattening of the corresponding tree.
proof fn lemma_flatten_children_slice(cs: Seq<ArrayModel>, shape: Seq<usize>, i: int)
    requires
        forall|j: int| 0 <= j < cs.len() ==> conforms(#[trigger] cs[j], shape),
        0 <= i < cs.len(),
    ensures
        flatten_children(cs).subrange(
            i * shape_product(shape),
            (i + 1) * shape_product(shape),
        ) == flatten_model(cs[i]),
    decreases i,
{
    let p = shape_product(shape) as int;
    let tailseq = cs.skip(1);
    let head = flatten_model(cs[0]);
    let rest = flatten_children(tailseq);
    lemma_flatten_len(cs[0], shape);
    assert forall|j: int| 0 <= j < tailseq.len() implies conforms(#[trigger] tailseq[j], shape) by {
        assert(tailseq[j] == cs[j + 1]);
    }
    lemma_flatten_children_len(cs, shape);
    lemma_flatten_children_len(tailseq, shape);
    assert(flatten_children(cs) == head + rest);
    if i == 0 {
        assert(flatten_children(cs).subrange(0, p) =~= head);
        assert(i * p == 0 && (i + 1) * p == p) by (nonlinear_arith)
            requires
                i == 0,
        ;
        assert(flatten_children(cs).subrange(i * p, (i + 1) * p) == flatten_model(cs[0]));
    } else {
        lemma_flatten_children_slice(tailseq, shape, i - 1);
        assert((i - 1) * p == i * p - p && (i + 1) * p == i * p + p) by (nonlinear_arith);
        assert(1 * p <= i * p && (i + 1) * p <= cs.len() * p) by (nonlinear_arith)
            requires
                p >= 0,
                1 <= i < cs.len(),
        ;
        assert(tailseq[i - 1] == cs[i]);
        assert(rest.subrange(i * p - p, i * p) == flatten_model(cs[i]));
        assert(flatten_children(cs).subrange(i * p, (i + 1) * p) =~= rest.subrange(
            i * p - p,
            i * p,
        ));
    }
}

/// Round-trip law: reshaping the flattening of a tree of shape `shape`
/// yields the tree itself.
pub proof fn lemma_reshape_flatten_roundtrip(m: ArrayModel, shape: Seq<usize>)
    requires
        conforms(m, shape),
    ensures
        reshape_model(flatten_model(m), shape) == m,
    decreases shape.len(),
{
    if shape.len() == 0 {
        let e = m->Scalar_0;
        assert(flatten_model(m) == seq![e]);
        assert(flatten_model(m)[0] == e);
    } else {
        let cs = m->Array_0;
        let tail = shape.skip(1);
        let p = shape_product(tail) as int;
        let buf = flatten_model(m);
        assert(buf == flatten_children(cs));
        let r = reshape_model(buf, shape);
        let rcs = r->Array_0;
        assert(rcs.len() == shape[0]);
        assert forall|i: int| 0 <= i < cs.len() implies rcs[i] == cs[i] by {
            assert(rcs[i] == reshape_model(buf.subrange(i * p, (i + 1) * p), tail));
            lemma_flatten_children_slice(cs, tail, i);
            assert(buf.subrange(i * p, (i + 1) * p) == flatten_model(cs[i]));
            lemma_reshape_flatten_roundtrip(cs[i], tail);
        }
        assert(rcs =~= cs);
        assert(r =~= m);
    }
}

/// Unfolding of the product of a shape suffix at its first dimension.
pub proof fn lemma_prod_skip_unfold(s: Seq<usize>, d: int)
    requires
        0 <= d < s.len(),
    ensures
        shape_product(s.skip(d)) == s[d] * shape_product(s.skip(d + 1)),
{
    assert(s.skip(d)[0] == s[d]);
    assert(s.skip(d).skip(1) =~= s.skip(d + 1));
}

/// A shape with a zero dimension has product zero.
pub proof fn lemma_prod_zero(s: Seq<usize>, i: int)
    requires
        0 <= i < s.len(),
        s[i] == 0,
    ensures
        shape_product(s) == 0,
    decreases i,
{
    if i == 0 {
        assert(shape_product(s) == s[0] as nat * shape_product(s.skip(1)));
    } else {
        assert(s.skip(1)[i - 1] == s[i]);
        lemma_prod_zero(s.skip(1), i - 1);
        assert(s[0] as nat * 0 == 0) by (nonlinear_arith);
    }
}

/// A shape all of whose dimensions are positive has positive product.
pub proof fn lemma_prod_pos(s: Seq<usize>)
    requires
        forall|i: int| 0 <= i < s.len() ==> s[i] >= 1,
    ensures
        shape_product(s) >= 1,
    decreases s.len(),
{
    if s.len() > 0 {
        assert forall|i: int| 0 <= i < s.skip(1).len() implies s.skip(1)[i] >= 1 by {
            assert(s.skip(1)[i] == s[i + 1]);
        }
        lemma_prod_pos(s.skip(1));
        assert(s[0] as nat * shape_product(s.skip(1)) >= 1) by (nonlinear_arith)
            requires
                s[0] >= 1,
                shape_product(s.skip(1)) >= 1,
        ;
    }
}

/// Skipping leading positive dimensions cannot increase the product.
pub proof fn lemma_prod_skip_le(s: Seq<usize>, d: int, e: int)
    requires
        0 <= d <= e <= s.len(),
        forall|j: int| d <= j < e ==> s[j] >= 1,
    ensures
        shape_product(s.skip(e)) <= shape_product(s.skip(d)),
    decreases e - d,
{
    if d < e {
        lemma_prod_skip_le(s, d + 1, e);
        lemma_prod_skip_unfold(s, d);
        assert(shape_product(s.skip(d + 1)) <= s[d] * shape_product(s.skip(d + 1)))
            by (nonlinear_arith)
            requires
                s[d] >= 1,
        ;
    }
}

/// Number of elements of an array of the given shape: `product(shape)`
/// when that fits in `usize`, else `None`.
pub fn element_count(shape: &Vec<usize>) -> (r: Option<usize>)
    ensures
        match r {
            Some(c) => c == shape_product(shape@),
            None => shape_product(shape@) > usize::MAX,
        },
{
    let mut k: usize = 0;
    while k < shape.len()
        invariant
            k <= shape@.len(),
            forall|j: int| 0 <= j < k ==> shape@[j] >= 1,
        decreases shape@.len() - k,
    {
        if shape[k] == 0 {
            proof {
                lemma_prod_zero(shape@, k as int);
            }
            return Some(0);
        }
        k = k + 1;
    }
    let mut i: usize = shape.len();
    let mut acc: usize = 1;
    proof {
        assert(shape@.skip(shape@.len() as int) =~= Seq::<usize>::empty());
    }
    while i > 0
        invariant
            i <= shape@.len(),
            acc == shape_product(shape@.skip(i as int)),
            forall|j: int| 0 <= j < shape@.len() ==> shape@[j] >= 1,
        decreases i,
    {
        proof {
            lemma_prod_skip_unfold(shape@, i - 1);
        }
        match shape[i - 1].checked_mul(acc) {
            Some(v) => {
                acc = v;
                i = i - 1;
            },
            None => {
                proof {
                    lemma_prod_skip_le(shape@, 0, i - 1);
                    assert(shape@.skip(0) =~= shape@);
                }
                return None;
            },
        }
    }
    proof {
        assert(shape@.skip(0) =~= shape@);
    }
    Some(acc)
}

/// Reconstructs the subtree over the dimensions from `d` on, consuming
/// elements of `buf` from position `pos` in row-major order; returns
/// the subtree and the position after the consumed block.
fn reshape_from(buf: &Vec<Elem>, shape: &Vec<usize>, d: usize, pos: usize) -> (r: (
    NumpyArrayResult,
    usize,
))
    requires
        d <= shape@.len(),
        pos + shape_product(shape@.skip(d as int)) <= buf@.len(),
    ensures
        r.1 == pos + shape_product(shape@.skip(d as int)),
        conforms(r.0@, shape@.skip(d as int)),
        flatten_model(r.0@) == buf@.subrange(pos as int, r.1 as int),
    decreases shape@.len() - d,
{
    if d == shape.len() {
        proof {
            assert(shape@.skip(d as int) =~= Seq::<usize>::empty());
            assert(shape_product(Seq::<usize>::empty()) == 1);
            assert(buf.len() == buf@.len());
            assert(pos + 1 <= buf@.len());
        }
        let e = buf[pos];
        let t = NumpyArrayResult::Scalar(e);
        proof {
            assert(flatten_model(t@) =~= buf@.subrange(pos as int, pos + 1));
        }
        (t, pos + 1)
    } else {
        let n = shape[d];
        let ghost sub = shape_product(shape@.skip(d as int + 1));
        proof {
            assert(shape.len() == shape@.len());
            lemma_prod_skip_unfold(shape@, d as int);
        }
        let mut children: Vec<NumpyArrayResult> = Vec::new();
        let mut cur: usize = pos;
        let mut i: usize = 0;
        while i < n
            invariant
                i <= n,
                d < shape@.len(),
                n == shape@[d as int],
                sub == shape_product(shape@.skip(d as int + 1)),
                shape_product(shape@.skip(d as int)) == n * sub,
                pos + shape_product(shape@.skip(d as int)) <= buf@.len(),
                cur == pos + i * sub,
                children@.len() == i,
                forall|j: int|
                    0 <= j < i ==> conforms(
                        #[trigger] children@[j]@,
                        shape@.skip(d as int + 1),
                    ),
                flatten_children(views_of(children@)) == buf@.subrange(pos as int, cur as int),
            decreases n - i,
        {
            proof {
                assert(shape.len() == shape@.len());
                assert((i + 1) * sub == i * sub + sub) by (nonlinear_arith);
                assert((i + 1) * sub <= n * sub) by (nonlinear_arith)
                    requires
                        i + 1 <= n,
                        sub >= 0,
                ;
            }
            let child_pair = reshape_from(buf, shape, d + 1, cur);
            let child = child_pair.0;
            let cur2 = child_pair.1;
            proof {
                lemma_flatten_children_push(views_of(children@), child@);
                assert(children@.push(child).drop_last() =~= children@);
                assert(views_of(children@.push(child)) == views_of(children@).push(child@));
                assert(buf@.subrange(pos as int, cur2 as int) =~= buf@.subrange(
                    pos as int,
                    cur as int,
                ) + buf@.subrange(cur as int, cur2 as int));
            }
            children.push(child);
            cur = cur2;
            i = i + 1;
        }
        let t = NumpyArrayResult::Array(children);
        proof {
            lemma_views_of(children@);
            assert(shape@.skip(d as int)[0] == shape@[d as int]);
            assert(shape@.skip(d as int).skip(1) =~= shape@.skip(d as int + 1));
            assert(conforms(t@, shape@.skip(d as int)));
            assert(flatten_model(t@) == flatten_children(views_of(children@)));
        }
        (t, cur)
    }
}

/// Reshapes a flat row-major element buffer into the nested array of
/// the given shape.  Fails with `ShapeMismatch` unless the buffer holds
/// exactly `product(shape)` elements.
pub fn reshape(buf: &Vec<Elem>, shape: &Vec<usize>) -> (r: Result<NumpyArrayResult, NpyError>)
    ensures
        buf@.len() == shape_product(shape@) ==> {
            &&& r is Ok
            &&& conforms(r->Ok_0@, shape@)
            &&& flatten_model(r->Ok_0@) == buf@
            &&& r->Ok_0@ == reshape_model(buf@, shape@)
        },
        buf@.len() != shape_product(shape@) ==> r == Result::<
            NumpyArrayResult,
            NpyError,
        >::Err(NpyError::FormatError(FormatKind::ShapeMismatch)),
{
    let count = element_count(shape);
    proof {
        assert(buf.len() == buf@.len());
    }
    match count {
        None => Err(NpyError::FormatError(FormatKind::ShapeMismatch)),
        Some(c) => {
            if c != buf.len() {
                Err(NpyError::FormatError(FormatKind::ShapeMismatch))
            } else {
                proof {
                    assert(shape@.skip(0) =~= shape@);
                }
                let r = reshape_from(buf, shape, 0, 0);
                let t = r.0;
                proof {
                    assert(buf@.subrange(0, buf@.len() as int) =~= buf@);
                    lemma_reshape_flatten_roundtrip(t@, shape@);
                }
                Ok(t)
            }
        },
    }
}

/// Appends the flat row-major element sequence of a tree to `out`.
#[verifier::loop_isolation(false)]
fn flatten_into(t: &NumpyArrayResult, out: &mut Vec<Elem>)
    ensures
        final(out)@ == old(out)@ + flatten_model(t@),
    decreases t,
{
    match t {
        NumpyArrayResult::Scalar(e) => {
            out.push(*e);
            assert(out@ =~= old(out)@ + flatten_model(t@));
        },
        NumpyArrayResult::Array(cs) => {
            let mut i: usize = 0;
            while i < cs.len()
                invariant
                    i <= cs@.len(),
                    out@ == old(out)@ + flatten_children(views_of(cs@.take(i as int))),
                decreases cs@.len() - i,
            {
                proof {
                    assert(decreases_to!(*t => (*t)->Array_0));
                    assert(decreases_to!((*t)->Array_0 => (*t)->Array_0@));
                    assert(decreases_to!((*t)->Array_0@ => (*t)->Array_0@[i as int]));
                    assert(decreases_to!(*t => cs@[i as int]));
                }
                flatten_into(&cs[i], out);
                proof {
                    assert(cs@.take(i + 1).drop_last() =~= cs@.take(i as int));
                    assert(cs@.take(i + 1).last() == cs@[i as int]);
                    assert(views_of(cs@.take(i + 1)) == views_of(cs@.take(i as int)).push(
                        cs@[i as int]@,
                    ));
                    lemma_flatten_children_push(views_of(cs@.take(i as int)), cs@[i as int]@);
                }
                i = i + 1;
            }
            proof {
                assert(cs@.take(cs@.len() as int) =~= cs@);
                assert(flatten_model(t@) == flatten_children(views_of(cs@)));
            }
        },
    }
}

impl NumpyArrayResult {
    /// Depth of the tree: for an array of positive element count this
    /// is its rank, the length of any shape it conforms to.
    pub fn depth(&self) -> (r: usize)
        ensures
            forall|shape: Seq<usize>|
                conforms(self@, shape) && shape_product(shape) > 0 && shape.len()
                    <= usize::MAX ==> r == shape.len(),
        decreases self,
    {
        match self {
            NumpyArrayResult::Scalar(_) => {
                proof {
                    assert forall|shape: Seq<usize>|
                        conforms(self@, shape) && shape_product(shape) > 0 && shape.len()
                            <= usize::MAX implies 0 == shape.len() by {
                        if shape.len() > 0 {
                            assert(!conforms(self@, shape));
                        }
                    }
                }
                0
            },
            NumpyArrayResult::Array(cs) => {
                if cs.len() == 0 {
                    proof {
                        assert forall|shape: Seq<usize>|
                            conforms(self@, shape) && shape_product(shape) > 0 && shape.len()
                                <= usize::MAX implies 1 == shape.len() by {
                            lemma_views_of(cs@);
                            if shape.len() > 0 {
                                lemma_prod_zero(shape, 0);
                            }
                        }
                    }
                    1
                } else {
                    proof {
                        assert(decreases_to!(*self => (*self)->Array_0));
                        assert(decreases_to!((*self)->Array_0 => (*self)->Array_0@));
                        assert(decreases_to!((*self)->Array_0@ => (*self)->Array_0@[0]));
                        assert(decreases_to!(*self => cs@[0]));
                    }
                    let d = cs[0].depth();
                    if d == usize::MAX {
                        proof {
                            assert forall|shape: Seq<usize>|
                                conforms(self@, shape) && shape_product(shape) > 0 && shape.len()
                                    <= usize::MAX implies usize::MAX == shape.len() by {
                                lemma_depth_child(self@, cs@, shape, d as int);
                            }
                        }
                        usize::MAX
                    } else {
                        proof {
                            assert forall|shape: Seq<usize>|
                                conforms(self@, shape) && shape_product(shape) > 0 && shape.len()
                                    <= usize::MAX implies d + 1 == shape.len() by {
                                lemma_depth_child(self@, cs@, shape, d as int);
                            }
                        }
                        d + 1
                    }
                }
            },
        }
    }
}

impl NumpyArrayResult {
    /// The shape of the tree, read down its leading children: for an
    /// array of positive element count this is the one shape it
    /// conforms to.
    pub fn shape_of(&self) -> (r: Vec<usize>)
        ensures
            forall|shape: Seq<usize>|
                conforms(self@, shape) && shape_product(shape) > 0 && shape.len()
                    <= usize::MAX ==> r@ == shape,
        decreases self,
    {
        match self {
            NumpyArrayResult::Scalar(_) => {
                let r: Vec<usize> = Vec::new();
                proof {
                    assert forall|shape: Seq<usize>|
                        conforms(self@, shape) && shape_product(shape) > 0 && shape.len()
                            <= usize::MAX implies r@ == shape by {
                        if shape.len() > 0 {
                            assert(!conforms(self@, shape));
                        }
                        assert(r@ =~= shape);
                    }
                }
                r
            },
            NumpyArrayResult::Array(cs) => {
                if cs.len() == 0 {
                    let r = vec![0usize];
                    proof {
                        assert forall|shape: Seq<usize>|
                            conforms(self@, shape) && shape_product(shape) > 0 && shape.len()
                                <= usize::MAX implies r@ == shape by {
                            lemma_views_of(cs@);
                            if shape.len() > 0 {
                                lemma_prod_zero(shape, 0);
                            }
                        }
                    }
                    r
                } else {
                    proof {
                        assert(decreases_to!(*self => (*self)->Array_0));
                        assert(decreases_to!((*self)->Array_0 => (*self)->Array_0@));
                        assert(decreases_to!((*self)->Array_0@ => (*self)->Array_0@[0]));
                        assert(decreases_to!(*self => cs@[0]));
                    }
                    let mut rest = cs[0].shape_of();
                    let ghost rest0 = rest@;
                    let mut r = vec![cs.len()];
                    r.append(&mut rest);
                    proof {
                        assert(r@ == seq![cs@.len() as usize] + rest0);
                        assert forall|shape: Seq<usize>|
                            conforms(self@, shape) && shape_product(shape) > 0 && shape.len()
                                <= usize::MAX implies r@ == shape by {
                            lemma_views_of(cs@);
                            assert(shape.len() > 0);
                            assert(conforms(views_of(cs@)[0], shape.skip(1)));
                            assert(views_of(cs@)[0] == cs@[0]@);
                            assert(shape_product(shape) == shape[0] as nat * shape_product(
                                shape.skip(1),
                            ));
                            assert(shape_product(shape.skip(1)) > 0) by (nonlinear_arith)
                                requires
                                    shape[0] as nat * shape_product(shape.skip(1)) > 0,
                            ;
                            assert(rest0 == shape.skip(1));
                            assert(r@ =~= shape);
                        }
                    }
                    r
                }
            },
        }
    }
}

/// For a conforming nonempty array whose first child's depth equals the
/// tail rank, the array's rank is one more.
proof fn lemma_depth_child(
    m: ArrayModel,
    cs: Seq<NumpyArrayResult>,
    shape: Seq<usize>,
    d: int,
)
    requires
        m == ArrayModel::Array(views_of(cs)),
        cs.len() > 0,
        conforms(m, shape),
        shape_product(shape) > 0,
        shape.len() <= usize::MAX,
        forall|tail: Seq<usize>|
            conforms(#[trigger] cs[0]@, tail) && shape_product(tail) > 0 && tail.len()
                <= usize::MAX ==> d == tail.len(),
    ensures
        d + 1 == shape.len(),
{
    lemma_views_of(cs);
    assert(shape.len() > 0);
    assert(conforms(views_of(cs)[0], shape.skip(1)));
    assert(views_of(cs)[0] == cs[0]@);
    assert(shape_product(shape) == shape[0] as nat * shape_product(shape.skip(1)));
    assert(shape_product(shape.skip(1)) > 0) by (nonlinear_arith)
        requires
            shape[0] as nat * shape_product(shape.skip(1)) > 0,
    ;
}

/// Storage offset, in a column-major buffer of shape `shape`, of the
/// element at row-major position `p`.
pub open spec fn cm_offset(p: int, shape: Seq<usize>) -> int
    decreases shape.len(),
{
    if shape.len() == 0 {
        0
    } else {
        let rest = shape_product(shape.skip(1)) as int;
        p / rest + shape[0] * cm_offset(p % rest, shape.skip(1))
    }
}

/// The row-major reading of a column-major buffer: entry `p` is the
/// element at storage offset `cm_offset(p, shape)`.
pub open spec fn col_to_row(buf: Seq<Elem>, shape: Seq<usize>) -> Seq<Elem> {
    Seq::new(buf.len(), |p: int| buf[cm_offset(p, shape)])
}

/// A column-major storage offset lies within the buffer.
pub proof fn lemma_cm_offset_bound(p: int, shape: Seq<usize>)
    requires
        0 <= p < shape_product(shape),
    ensures
        0 <= cm_offset(p, shape) < shape_product(shape),
    decreases shape.len(),
{
    if shape.len() > 0 {
        let n0 = shape[0] as int;
        let rest = shape_product(shape.skip(1)) as int;
        assert(shape_product(shape) == n0 * rest);
        assert(rest > 0 && n0 > 0 && p < rest * n0) by (nonlinear_arith)
            requires
                n0 >= 0,
                rest >= 0,
                n0 * rest > p,
                p >= 0,
        ;
        vstd::arithmetic::div_mod::lemma_mod_pos_bound(p, rest);
        vstd::arithmetic::div_mod::lemma_multiply_divide_lt(p, rest, n0);
        vstd::arithmetic::div_mod::lemma_div_pos_is_pos(p, rest);
        lemma_cm_offset_bound(p % rest, shape.skip(1));
        let i0 = p / rest;
        let c = cm_offset(p % rest, shape.skip(1));
        assert(0 <= i0 + n0 * c < n0 * rest) by (nonlinear_arith)
            requires
                0 <= i0 < n0,
                0 <= c < rest,
        ;
    }
}

/// Product of the dimensions from `d` on, as a machine integer.
fn suffix_product(shape: &Vec<usize>, d: usize) -> (r: usize)
    requires
        d <= shape@.len(),
        shape_product(shape@.skip(d as int)) <= usize::MAX,
        forall|j: int| d <= j < shape@.len() ==> shape@[j] >= 1,
    ensures
        r == shape_product(shape@.skip(d as int)),
{
    let mut i: usize = shape.len();
    let mut acc: usize = 1;
    proof {
        assert(shape@.skip(shape@.len() as int) =~= Seq::<usize>::empty());
    }
    while i > d
        invariant
            d <= i <= shape@.len(),
            acc == shape_product(shape@.skip(i as int)),
            shape_product(shape@.skip(d as int)) <= usize::MAX,
            forall|j: int| d <= j < shape@.len() ==> shape@[j] >= 1,
        decreases i,
    {
        proof {
            lemma_prod_skip_unfold(shape@, i - 1);
            lemma_prod_skip_le(shape@, d as int, i - 1);
        }
        acc = shape[i - 1] * acc;
        i = i - 1;
    }
    acc
}

/// Column-major storage offset of the row-major position `p` within the
/// dimensions from `d` on.
fn cm_offset_at(shape: &Vec<usize>, d: usize, p: usize) -> (r: usize)
    requires
        d <= shape@.len(),
        forall|j: int| 0 <= j < shape@.len() ==> shape@[j] >= 1,
        shape_product(shape@.skip(d as int)) <= usize::MAX,
        p < shape_product(shape@.skip(d as int)),
    ensures
        r == cm_offset(p as int, shape@.skip(d as int)),
        r < shape_product(shape@.skip(d as int)),
    decreases shape@.len() - d,
{
    proof {
        assert(shape.len() == shape@.len());
        lemma_cm_offset_bound(p as int, shape@.skip(d as int));
    }
    if d == shape.len() {
        proof {
            assert(shape@.skip(d as int) =~= Seq::<usize>::empty());
        }
        0
    } else {
        proof {
            lemma_prod_skip_unfold(shape@, d as int);
            lemma_prod_skip_le(shape@, d as int, d + 1);
            lemma_prod_pos(shape@.skip(d as int + 1));
            assert(shape@.skip(d as int)[0] == shape@[d as int]);
            assert(shape@.skip(d as int).skip(1) =~= shape@.skip(d as int + 1));
        }
        let rest = suffix_product(shape, d + 1);
        let i0 = p / rest;
        let r2 = p % rest;
        proof {
            vstd::arithmetic::div_mod::lemma_mod_pos_bound(p as int, rest as int);
            vstd::arithmetic::div_mod::lemma_div_pos_is_pos(p as int, rest as int);
            assert(p < rest * shape@[d as int]) by (nonlinear_arith)
                requires
                    p < shape@[d as int] * rest,
            ;
            vstd::arithmetic::div_mod::lemma_multiply_divide_lt(
                p as int,
                rest as int,
                shape@[d as int] as int,
            );
        }
        let c = cm_offset_at(shape, d + 1, r2);
        proof {
            let n0 = shape@[d as int] as int;
            let restg = shape_product(shape@.skip(d as int + 1)) as int;
            assert(0 <= i0 + n0 * c && i0 + n0 * c < n0 * restg) by (nonlinear_arith)
                requires
                    0 <= (i0 as int) && (i0 as int) < n0,
                    0 <= (c as int) && (c as int) < restg,
            ;
        }
        i0 + shape[d] * c
    }
}

/// Reorders a column-major element buffer into row-major order for its
/// shape.
pub fn column_to_row_major(buf: &Vec<Elem>, shape: &Vec<usize>) -> (r: Vec<Elem>)
    requires
        buf@.len() == shape_product(shape@),
    ensures
        r@ == col_to_row(buf@, shape@),
{
    let n = buf.len();
    let mut out: Vec<Elem> = Vec::new();
    if n == 0 {
        proof {
            assert(out@ =~= col_to_row(buf@, shape@));
        }
        return out;
    }
    proof {
        assert forall|j: int| 0 <= j < shape@.len() implies shape@[j] >= 1 by {
            if shape@[j] == 0 {
                lemma_prod_zero(shape@, j);
            }
        }
        assert(shape@.skip(0) =~= shape@);
    }
    let mut p: usize = 0;
    while p < n
        invariant
            p <= n,
            n == buf@.len(),
            buf@.len() == shape_product(shape@),
            shape@.skip(0) == shape@,
            forall|j: int| 0 <= j < shape@.len() ==> shape@[j] >= 1,
            out@.len() == p,
            forall|q: int| 0 <= q < p ==> out@[q] == buf@[cm_offset(q, shape@)],
        decreases n - p,
    {
        proof {
            assert(buf.len() == buf@.len());
        }
        let off = cm_offset_at(shape, 0, p);
        out.push(buf[off]);
        p = p + 1;
    }
    proof {
        assert(out@ =~= col_to_row(buf@, shape@));
    }
    out
}

/// Reshapes a flat element buffer, stored in row-major order when
/// `fortran_order` is false and in column-major order when it is true,
/// into the nested array of the given shape.  Fails with
/// `ShapeMismatch` unless the buffer holds exactly `product(shape)`
/// elements.
pub fn reshape_ordered(buf: &Vec<Elem>, shape: &Vec<usize>, fortran_order: bool) -> (r: Result<
    NumpyArrayResult,
    NpyError,
>)
    ensures
        buf@.len() != shape_product(shape@) ==> r == Result::<
            NumpyArrayResult,
            NpyError,
        >::Err(NpyError::FormatError(FormatKind::ShapeMismatch)),
        buf@.len() == shape_product(shape@) ==> {
            &&& r is Ok
            &&& conforms(r->Ok_0@, shape@)
            &&& flatten_model(r->Ok_0@) == if fortran_order {
                col_to_row(buf@, shape@)
            } else {
                buf@
            }
            &&& r->Ok_0@ == reshape_model(
                if fortran_order {
                    col_to_row(buf@, shape@)
                } else {
                    buf@
                },
                shape@,
            )
        },
{
    if fortran_order {
        let count = element_count(shape);
        proof {
            assert(buf.len() == buf@.len());
        }
        match count {
            None => Err(NpyError::FormatError(FormatKind::ShapeMismatch)),
            Some(c) => {
                if c != buf.len() {
                    Err(NpyError::FormatError(FormatKind::ShapeMismatch))
                } else {
                    let permuted = column_to_row_major(buf, shape);
                    reshape(&permuted, shape)
                }
            },
        }
    } else {
        reshape(buf, shape)
    }
}

/// The flat row-major element buffer of a nested array.
pub fn flatten(t: &NumpyArrayResult) -> (r: Vec<Elem>)
    ensures
        r@ == flatten_model(t@),
{
    let mut out: Vec<Elem> = Vec::new();
    flatten_into(t, &mut out);
    proof {
        assert(Seq::<Elem>::empty() + flatten_model(t@) =~= flatten_model(t@));
    }
    out
}

} // verus!
