//! The laws the library promises, stated over the mathematical model that
//! the function contracts use. Each is proved here once and for all; the
//! function contracts in `infer` and `ty` supply their hypotheses.

use crate::infer::{
    graph_wf, lemma_unify_outcome_symmetric, terminal, unify_outcome, NodeV, Unify, UnifyError,
};
use crate::ty::{int_compatible, spec_concrete_node, ty_kinds_match, Int, IntTy, StructTyV, Ty};
use vstd::prelude::*;

verus! {

/// Propagation: once two nodes resolve to terminals with the same content —
/// which `unify` ensures whenever it succeeds — concretizing either node
/// yields the same result. Together with the exact contract of
/// `TyCtx::concretize`, the two concretizations agree whenever both are
/// defined.
pub proof fn lemma_propagation(
    tg: Seq<NodeV<Ty>>,
    ig: Seq<NodeV<IntTy>>,
    sg: Seq<NodeV<StructTyV>>,
    a: int,
    b: int,
    fuel: nat,
)
    requires
        terminal(tg, a) == terminal(tg, b),
    ensures
        spec_concrete_node(tg, ig, sg, a, fuel) == spec_concrete_node(tg, ig, sg, b, fuel),
{
}

/// Unresolved failure: a node whose terminal is still unconstrained — as it
/// is after any number of unifications of unconstrained nodes with each
/// other — cannot be concretized, at any recursion budget.
pub proof fn lemma_unresolved_fails(
    tg: Seq<NodeV<Ty>>,
    ig: Seq<NodeV<IntTy>>,
    sg: Seq<NodeV<StructTyV>>,
    a: int,
    fuel: nat,
)
    requires
        terminal(tg, a) is Any,
    ensures
        spec_concrete_node(tg, ig, sg, a, fuel) is None,
{
}

/// Symmetry of the integer merge: merging two integer payloads does not
/// depend on their order.
pub proof fn lemma_int_merge_symmetric(a: IntTy, b: IntTy)
    ensures
        IntTy::spec_merge(a, b) == IntTy::spec_merge(b, a),
{
}

/// Exactness of the integer merge on fixed types: equal fixed integer types
/// merge to themselves, different ones fail with `IntMismatch`.
pub proof fn lemma_int_merge_exact(a: Int, b: Int)
    ensures
        a == b ==> IntTy::spec_merge(IntTy::Int(a), IntTy::Int(b)) == Ok::<IntTy, UnifyError>(
            IntTy::Int(a),
        ),
        a != b ==> IntTy::spec_merge(IntTy::Int(a), IntTy::Int(b)) == Err::<IntTy, UnifyError>(
            UnifyError::IntMismatch,
        ),
{
}

/// Symmetry of integer node unification: from the same starting graph,
/// unifying two integer nodes in either order leaves the same graph behind.
/// Integer payloads carry no child arguments, so `unify`'s contract pins the
/// whole outcome (`unify_outcome`), and the integer merge does not depend on
/// the order of its operands.
pub proof fn lemma_int_unify_symmetric(g: Seq<NodeV<IntTy>>, a: int, b: int)
    requires
        graph_wf(g),
        0 <= a < g.len(),
        0 <= b < g.len(),
    ensures
        unify_outcome::<IntTy>(g, a, b) == unify_outcome::<IntTy>(g, b, a),
{
    assert forall|x: IntTy, y: IntTy| #[trigger] IntTy::spec_merge(x, y) == IntTy::spec_merge(
        y,
        x,
    ) by {
        lemma_int_merge_symmetric(x, y);
    }
    lemma_unify_outcome_symmetric::<IntTy>(g, a, b);
}

/// Symmetry of integer node compatibility: whether two integer nodes can
/// unify does not depend on their order.
pub proof fn lemma_int_compatible_symmetric(g: Seq<NodeV<IntTy>>, i: int, j: int)
    ensures
        int_compatible(g, i, j) == int_compatible(g, j, i),
{
    match (
        crate::infer::terminal_payload(g, i),
        crate::infer::terminal_payload(g, j),
    ) {
        (Some(x), Some(y)) => {
            lemma_int_merge_symmetric(x, y);
        }
        _ => {}
    }
}

/// Symmetry of top-level kind compatibility: whether two type payloads are
/// of a unifiable kind does not depend on their order.
pub proof fn lemma_ty_kinds_match_symmetric(x: Ty, y: Ty)
    ensures
        ty_kinds_match(x, y) == ty_kinds_match(y, x),
{
}

} // verus!
