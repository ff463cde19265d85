//! The generic unification engine: a graph of mutable type-variable cells and
//! a unification algorithm parameterized over any payload type that knows how
//! to merge two instances of itself.
//!
//! Nodes live in an arena (`InferCtx`) and are addressed by index
//! (`InferTyRef`); mutation through any handle is visible to every holder of
//! the same index, which is the point of the representation: a type
//! variable's refinement must be observed everywhere it was used.

use vstd::pervasive::unreached;
use vstd::prelude::*;

verus! {

/// Why a unification attempt failed.
#[derive(Clone, Copy, PartialEq, Eq, Structural, Debug)]
pub enum UnifyError {
    /// Two structurally different type constructors were required to be equal.
    IncompatibleKinds,
    /// Fixed integer signedness or width disagree.
    IntMismatch,
    /// Two different declared structs were required to be equal.
    StructNameMismatch,
    /// A required field does not exist on the concrete struct it is unified
    /// against.
    MissingField,
    /// Constructor argument counts disagree: an internal invariant violation,
    /// not a user type error.
    ArityMismatch,
    /// The recursion budget ran out: a cycle among constructor arguments, or
    /// pathologically deep nesting. An internal, unrecoverable condition.
    DepthLimit,
}

/// Concretization was asked of a node that never received enough constraints
/// to pin a concrete type.
#[derive(Clone, Copy, PartialEq, Eq, Structural, Debug)]
pub struct UnresolvedError;

/// A shareable handle to one unification node: an index into an `InferCtx`.
#[derive(Clone, Copy, PartialEq, Eq, Structural, Debug)]
pub struct InferTyRef {
    pub idx: usize,
}

/// The state of one unification node.
pub enum InferTy<T> {
    /// No constraint yet.
    Any,
    /// This node has been identified with another node; resolving follows the
    /// link.
    Equal(InferTyRef),
    /// A type constructor applied to zero or more child nodes.
    Known { ty: T, args: Vec<InferTyRef> },
}

/// The mathematical shape of one node: indices in place of handles, a `Seq`
/// in place of the argument vector, and the payload's own view in place of
/// the payload.
#[verifier::ext_equal]
pub enum NodeV<TV> {
    Any,
    Equal(int),
    Known { ty: TV, args: Seq<int> },
}

/// A payload that can be stored in the engine's nodes: it has a mathematical
/// view and can be duplicated without loss (both ends of a unification are
/// rewritten to the same shape, which takes two copies of it).
pub trait Payload: View + Sized {
    /// An exact copy: the duplicate has the same view as the original.
    fn duplicate(&self) -> (r: Self)
        ensures
            r@ == self@,
    ;
}

/// A payload whose instances can be merged into one, or fail. The merge is a
/// pure function of the two payload views; the engine itself unifies the
/// nodes' child arguments.
pub trait Unify: Payload {
    /// What `merge` returns, as a function of the payload views.
    spec fn spec_merge(a: Self::V, b: Self::V) -> Result<Self::V, UnifyError>;

    /// Merging succeeds symmetrically: if `a` and `b` merge, so do `b` and
    /// `a`.
    proof fn lemma_merge_symmetric(a: Self::V, b: Self::V)
        ensures
            (Self::spec_merge(a, b) is Ok) == (Self::spec_merge(b, a) is Ok),
    ;

    /// Combine two payloads into one, or fail.
    fn merge(a: &Self, b: &Self) -> (r: Result<Self, UnifyError>)
        ensures
            (match (r, Self::spec_merge(a@, b@)) {
                (Ok(m), Ok(v)) => m@ == v,
                (Err(e), Err(v)) => e == v,
                _ => false,
            }),
    ;
}

/// The indices of a sequence of node handles.
pub open spec fn ref_ids(rs: Seq<InferTyRef>) -> Seq<int> {
    Seq::new(rs.len(), |i: int| rs[i].idx as int)
}

impl<T: Payload> View for InferTy<T> {
    type V = NodeV<T::V>;

    open spec fn view(&self) -> NodeV<T::V> {
        match self {
            InferTy::Any => NodeV::Any,
            InferTy::Equal(r) => NodeV::Equal(r.idx as int),
            InferTy::Known { ty, args } => NodeV::Known { ty: ty@, args: ref_ids(args@) },
        }
    }
}

/// Whether one node's outgoing references are in order for a graph of `len`
/// nodes: an alias points strictly forward (so alias chains are finite), and
/// constructor arguments are in bounds.
pub open spec fn node_wf<TV>(n: NodeV<TV>, i: int, len: int) -> bool {
    match n {
        NodeV::Any => true,
        NodeV::Equal(j) => i < j < len,
        NodeV::Known { ty, args } => forall|k: int|
            0 <= k < args.len() ==> 0 <= #[trigger] args[k] < len,
    }
}

/// Every node of the graph is well-formed.
pub open spec fn graph_wf<TV>(g: Seq<NodeV<TV>>) -> bool {
    forall|i: int| 0 <= i < g.len() ==> node_wf(#[trigger] g[i], i, g.len() as int)
}

/// The index of the terminal (`Any` or `Known`) node that `i` resolves to,
/// following alias links. Total on well-formed graphs, where every alias
/// points strictly forward.
pub open spec fn chase<TV>(g: Seq<NodeV<TV>>, i: int) -> int
    decreases g.len() - i
        when graph_wf(g) && 0 <= i < g.len()
{
    match g[i] {
        NodeV::Equal(j) => chase(g, j),
        _ => i,
    }
}

/// The content of the terminal node that `i` resolves to.
pub open spec fn terminal<TV>(g: Seq<NodeV<TV>>, i: int) -> NodeV<TV> {
    g[chase(g, i)]
}

/// The payload of the terminal node that `i` resolves to, if it is resolved.
pub open spec fn terminal_payload<TV>(g: Seq<NodeV<TV>>, i: int) -> Option<TV> {
    match terminal(g, i) {
        NodeV::Known { ty, args } => Some(ty),
        _ => Option::<TV>::None,
    }
}

/// Two nodes are joined: they resolve to the same terminal node, or both are
/// resolved. Unification leaves every pair it worked on joined, and the
/// property survives any later rewriting (aliases are never overwritten and
/// resolved nodes stay resolved).
pub open spec fn joined<TV>(g: Seq<NodeV<TV>>, i: int, j: int) -> bool {
    chase(g, i) == chase(g, j) || (terminal(g, i) is Known && terminal(g, j) is Known)
}

/// Chasing lands on a terminal node, in bounds.
pub proof fn lemma_chase_terminal<TV>(g: Seq<NodeV<TV>>, i: int)
    requires
        graph_wf(g),
        0 <= i < g.len(),
    ensures
        0 <= chase(g, i) < g.len(),
        !(g[chase(g, i)] is Equal),
    decreases g.len() - i,
{
    match g[i] {
        NodeV::Equal(j) => lemma_chase_terminal(g, j),
        _ => {}
    }
}

/// In a graph `g2` that grew out of `g` without touching any of `g`'s alias
/// nodes, resolving a node of `g` first to its old terminal and then onward
/// is the same as resolving it directly.
pub proof fn lemma_chase_extend<TV>(g: Seq<NodeV<TV>>, g2: Seq<NodeV<TV>>, i: int)
    requires
        graph_wf(g),
        graph_wf(g2),
        0 <= i < g.len(),
        g.len() <= g2.len(),
        forall|k: int| 0 <= k < g.len() && g[k] is Equal ==> g2[k] == #[trigger] g[k],
    ensures
        chase(g2, i) == chase(g2, chase(g, i)),
    decreases g.len() - i,
{
    match g[i] {
        NodeV::Equal(j) => {
            assert(g2[i] == g[i]);
            lemma_chase_extend(g, g2, j);
        }
        _ => {}
    }
}

/// Once two nodes are joined, they stay joined in any graph that grew out of
/// this one without overwriting alias nodes or unresolving resolved nodes.
pub proof fn lemma_joined_persists<TV>(g: Seq<NodeV<TV>>, g2: Seq<NodeV<TV>>, i: int, j: int)
    requires
        graph_wf(g),
        graph_wf(g2),
        0 <= i < g.len(),
        0 <= j < g.len(),
        g.len() <= g2.len(),
        forall|k: int| 0 <= k < g.len() && (#[trigger] g[k]) is Equal ==> g2[k] == g[k],
        forall|k: int| 0 <= k < g.len() && (#[trigger] g[k]) is Known ==> g2[k] is Known,
        joined(g, i, j),
    ensures
        joined(g2, i, j),
{
    lemma_chase_terminal(g, i);
    lemma_chase_terminal(g, j);
    lemma_chase_extend(g, g2, i);
    lemma_chase_extend(g, g2, j);
    let ti = chase(g, i);
    let tj = chase(g, j);
    if ti == tj {
    } else {
        assert(g[ti] is Known && g[tj] is Known);
        assert(g2[ti] is Known && g2[tj] is Known);
        assert(chase(g2, ti) == ti);
        assert(chase(g2, tj) == tj);
    }
}

/// The arena that owns the unification nodes of one constraint graph.
pub struct InferCtx<T> {
    nodes: Vec<InferTy<T>>,
}

impl<T: Payload> View for InferCtx<T> {
    type V = Seq<NodeV<T::V>>;

    closed spec fn view(&self) -> Seq<NodeV<T::V>> {
        Seq::new(self.nodes@.len(), |i: int| self.nodes@[i]@)
    }
}

impl<T: Payload> InferCtx<T> {
    /// The arena's alias links point strictly forward and its argument lists
    /// are in bounds.
    pub open spec fn wf(&self) -> bool {
        graph_wf(self@)
    }

    /// An empty arena.
    pub fn new() -> (r: InferCtx<T>)
        ensures
            r@.len() == 0,
            r.wf(),
    {
        let r = InferCtx { nodes: Vec::new() };
        proof {
            assert(r@.len() == 0);
        }
        r
    }

    /// Read one node.
    pub fn get(&self, r: InferTyRef) -> (n: &InferTy<T>)
        requires
            r.idx < self@.len(),
        ensures
            n@ == self@[r.idx as int],
    {
        &self.nodes[r.idx]
    }

    /// Overwrite one node.
    pub(crate) fn set(&mut self, r: InferTyRef, n: InferTy<T>)
        requires
            r.idx < old(self)@.len(),
        ensures
            final(self)@ == old(self)@.update(r.idx as int, n@),
    {
        let ghost target = self@.update(r.idx as int, n@);
        self.nodes.set(r.idx, n);
        proof {
            assert(final(self)@ =~= target);
        }
    }

    /// Append one node, returning its handle.
    pub(crate) fn push(&mut self, n: InferTy<T>) -> (r: InferTyRef)
        ensures
            final(self)@ == old(self)@.push(n@),
            r.idx == old(self)@.len(),
    {
        let ghost target = self@.push(n@);
        let idx = self.nodes.len();
        self.nodes.push(n);
        proof {
            assert(final(self)@ =~= target);
        }
        InferTyRef { idx }
    }
}

/// Growing a graph keeps every old node well-formed.
pub proof fn lemma_wf_grow<TV>(g: Seq<NodeV<TV>>, n: NodeV<TV>)
    requires
        graph_wf(g),
        node_wf(n, g.len() as int, g.len() as int + 1),
    ensures
        graph_wf(g.push(n)),
{
    let g2 = g.push(n);
    assert forall|i: int| 0 <= i < g2.len() implies node_wf(#[trigger] g2[i], i, g2.len() as int) by {
        if i < g.len() {
            assert(node_wf(g[i], i, g.len() as int));
            assert(g2[i] == g[i]);
        } else {
            assert(g2[i] == n);
        }
    }
}

impl InferTyRef {
    /// Allocate a fresh node with no constraint yet.
    pub fn any<T: Payload>(ctx: &mut InferCtx<T>) -> (r: InferTyRef)
        requires
            old(ctx).wf(),
        ensures
            final(ctx).wf(),
            final(ctx)@ == old(ctx)@.push(NodeV::Any),
            r.idx == old(ctx)@.len(),
    {
        proof {
            lemma_wf_grow(ctx@, NodeV::<T::V>::Any);
        }
        ctx.push(InferTy::Any)
    }

    /// Allocate a node already resolved to the constructor `ty` applied to
    /// the child nodes `args`.
    pub fn known_with_args<T: Payload>(ctx: &mut InferCtx<T>, ty: T, args: Vec<InferTyRef>) -> (r:
        InferTyRef)
        requires
            old(ctx).wf(),
            forall|k: int| 0 <= k < args@.len() ==> #[trigger] args@[k].idx < old(ctx)@.len(),
        ensures
            final(ctx).wf(),
            final(ctx)@ == old(ctx)@.push(NodeV::Known { ty: ty@, args: ref_ids(args@) }),
            r.idx == old(ctx)@.len(),
    {
        let n = InferTy::Known { ty, args };
        proof {
            lemma_wf_grow(ctx@, n@);
        }
        ctx.push(n)
    }

    /// Allocate a node already resolved to the argument-free constructor
    /// `ty`.
    pub fn known<T: Payload>(ctx: &mut InferCtx<T>, ty: T) -> (r: InferTyRef)
        requires
            old(ctx).wf(),
        ensures
            final(ctx).wf(),
            final(ctx)@ == old(ctx)@.push(
                NodeV::Known { ty: ty@, args: Seq::<int>::empty() },
            ),
            r.idx == old(ctx)@.len(),
    {
        let r = InferTyRef::known_with_args(ctx, ty, Vec::new());
        proof {
            assert(final(ctx)@ =~~= old(ctx)@.push(
                NodeV::Known { ty: ty@, args: Seq::<int>::empty() },
            ));
        }
        r
    }

    /// Read this node's current state.
    pub fn infer_ty<'a, T: Payload>(&self, ctx: &'a InferCtx<T>) -> (n: &'a InferTy<T>)
        requires
            self.idx < ctx@.len(),
        ensures
            n@ == ctx@[self.idx as int],
    {
        ctx.get(*self)
    }

    /// Resolve this node to its terminal and return that terminal's payload:
    /// the type constructor the node was pinned to, or `UnresolvedError` if
    /// inference never constrained it.
    pub fn concrete<T: Payload>(&self, ctx: &InferCtx<T>) -> (res: Result<T, UnresolvedError>)
        requires
            ctx.wf(),
            self.idx < ctx@.len(),
        ensures
            (match res {
                Ok(t) => terminal_payload(ctx@, self.idx as int) == Some(t@),
                Err(e) => terminal_payload(ctx@, self.idx as int) is None,
            }),
    {
        let t = resolve(ctx, *self);
        match ctx.get(t) {
            InferTy::Any => Err(UnresolvedError),
            InferTy::Known { ty, args } => Ok(ty.duplicate()),
            InferTy::Equal(_) => {
                proof {
                    assert(false);
                }
                Err(UnresolvedError)
            }
        }
    }
}

/// A node whose constructor has no child arguments.
pub open spec fn node_args_empty<TV>(n: NodeV<TV>) -> bool {
    match n {
        NodeV::Known { ty, args } => args.len() == 0,
        _ => true,
    }
}

/// No node of the graph has constructor child arguments.
pub open spec fn all_args_empty<TV>(g: Seq<NodeV<TV>>) -> bool {
    forall|i: int| 0 <= i < g.len() ==> node_args_empty(#[trigger] g[i])
}

/// Copy a vector of node handles.
fn dup_refs(v: &Vec<InferTyRef>) -> (r: Vec<InferTyRef>)
    ensures
        r@ == v@,
{
    let mut r: Vec<InferTyRef> = Vec::new();
    let mut k: usize = 0;
    while k < v.len()
        invariant
            k <= v@.len(),
            r@ == v@.subrange(0, k as int),
        decreases v@.len() - k,
    {
        r.push(v[k]);
        proof {
            assert(r@ =~= v@.subrange(0, k as int + 1));
        }
        k += 1;
    }
    proof {
        assert(r@ =~= v@);
    }
    r
}

/// Copy a node's state without loss: the copy has the same view.
pub(crate) fn dup_node<T: Payload>(n: &InferTy<T>) -> (r: InferTy<T>)
    ensures
        r@ == n@,
{
    match n {
        InferTy::Any => InferTy::Any,
        InferTy::Equal(x) => InferTy::Equal(*x),
        InferTy::Known { ty, args } => {
            let r = InferTy::Known { ty: ty.duplicate(), args: dup_refs(args) };
            proof {
                assert(r@ =~~= n@);
            }
            r
        }
    }
}

/// The graph that `unify` leaves behind, in every case its contract pins
/// completely: the two nodes already resolve to the same terminal, at least
/// one side is unconstrained, or both sides are resolved with argument-free
/// constructors. `None` where unification fails or recursion into child
/// arguments decides the outcome.
pub open spec fn unify_outcome<T: Unify>(g: Seq<NodeV<T::V>>, a: int, b: int) -> Option<
    Seq<NodeV<T::V>>,
> {
    let ca = chase(g, a);
    let cb = chase(g, b);
    if ca == cb {
        Some(g)
    } else {
        match (g[ca], g[cb]) {
            (NodeV::Any, NodeV::Any) => Some(
                g.push(NodeV::Any).update(ca, NodeV::Equal(g.len() as int)).update(
                    cb,
                    NodeV::Equal(g.len() as int),
                ),
            ),
            (NodeV::Any, NodeV::Known { .. }) => Some(g.update(ca, g[cb])),
            (NodeV::Known { .. }, NodeV::Any) => Some(g.update(cb, g[ca])),
            (NodeV::Known { ty: x, args: u }, NodeV::Known { ty: y, args: v }) => if u.len() == 0
                && v.len() == 0 {
                match T::spec_merge(x, y) {
                    Ok(m) => Some(
                        g.update(ca, NodeV::Known { ty: m, args: Seq::<int>::empty() }).update(
                            cb,
                            NodeV::Known { ty: m, args: Seq::<int>::empty() },
                        ),
                    ),
                    Err(e) => Option::<Seq<NodeV<T::V>>>::None,
                }
            } else {
                Option::<Seq<NodeV<T::V>>>::None
            },
            _ => Option::<Seq<NodeV<T::V>>>::None,
        }
    }
}

/// Symmetry of a pinned unification step: for a payload whose merge does not
/// depend on the order of its operands, unifying `(a, b)` and unifying
/// `(b, a)` from the same starting graph leave the same graph behind,
/// wherever the outcome is pinned at all.
pub proof fn lemma_unify_outcome_symmetric<T: Unify>(g: Seq<NodeV<T::V>>, a: int, b: int)
    requires
        graph_wf(g),
        0 <= a < g.len(),
        0 <= b < g.len(),
        forall|x: T::V, y: T::V| #[trigger] T::spec_merge(x, y) == T::spec_merge(y, x),
    ensures
        unify_outcome::<T>(g, a, b) == unify_outcome::<T>(g, b, a),
{
    let ca = chase(g, a);
    let cb = chase(g, b);
    lemma_chase_terminal(g, a);
    lemma_chase_terminal(g, b);
    if ca != cb {
        match (g[ca], g[cb]) {
            (NodeV::Any, NodeV::Any) => {
                let f = NodeV::<T::V>::Equal(g.len() as int);
                assert(g.push(NodeV::Any).update(ca, f).update(cb, f) =~= g.push(
                    NodeV::Any,
                ).update(cb, f).update(ca, f));
            }
            (NodeV::Known { ty: x, args: u }, NodeV::Known { ty: y, args: v }) => {
                if u.len() == 0 && v.len() == 0 {
                    assert(T::spec_merge(x, y) == T::spec_merge(y, x));
                    match T::spec_merge(x, y) {
                        Ok(m) => {
                            let n = NodeV::Known { ty: m, args: Seq::<int>::empty() };
                            assert(g.update(ca, n).update(cb, n) =~= g.update(cb, n).update(
                                ca,
                                n,
                            ));
                        }
                        Err(e) => {}
                    }
                }
            }
            _ => {}
        }
    }
}

/// Assert that two positions in the constraint graph have equal type: merge
/// their current knowledge, rewriting both resolved terminals to the unified
/// shape, or fail.
///
/// `fuel` bounds the recursion into constructor child arguments (not the
/// alias chains, which are finite by construction). Running out of it means a
/// cycle among child arguments or pathologically deep nesting: an internal,
/// unrecoverable condition reported as `DepthLimit`.
#[verifier::loop_isolation(false)]
pub fn unify<T: Unify>(ctx: &mut InferCtx<T>, a: InferTyRef, b: InferTyRef, fuel: u64) -> (res:
    Result<(), UnifyError>)
    requires
        old(ctx).wf(),
        a.idx < old(ctx)@.len(),
        b.idx < old(ctx)@.len(),
    ensures
        final(ctx).wf(),
        old(ctx)@.len() <= final(ctx)@.len(),
        forall|i: int|
            0 <= i < old(ctx)@.len() && (#[trigger] old(ctx)@[i]) is Equal ==> final(ctx)@[i]
                == old(ctx)@[i],
        forall|i: int|
            0 <= i < old(ctx)@.len() && (#[trigger] old(ctx)@[i]) is Known
                ==> final(ctx)@[i] is Known,
        all_args_empty(old(ctx)@) ==> all_args_empty(final(ctx)@),
        all_args_empty(old(ctx)@) ==> forall|i: int|
            0 <= i < old(ctx)@.len() && i != chase(old(ctx)@, a.idx as int) && i != chase(
                old(ctx)@,
                b.idx as int,
            ) ==> (#[trigger] final(ctx)@[i]) == old(ctx)@[i],
        chase(old(ctx)@, a.idx as int) == chase(old(ctx)@, b.idx as int)
            ==> res is Ok && final(ctx)@ == old(ctx)@,
        res is Ok ==> terminal(final(ctx)@, a.idx as int) == terminal(final(ctx)@, b.idx as int),
        res is Ok ==> joined(final(ctx)@, a.idx as int, b.idx as int),
        (chase(old(ctx)@, a.idx as int) != chase(old(ctx)@, b.idx as int) && terminal(
            old(ctx)@,
            a.idx as int,
        ) is Any && terminal(old(ctx)@, b.idx as int) is Any) ==> (res is Ok && final(ctx)@ == old(
            ctx,
        )@.push(NodeV::Any).update(
            chase(old(ctx)@, a.idx as int),
            NodeV::Equal(old(ctx)@.len() as int),
        ).update(chase(old(ctx)@, b.idx as int), NodeV::Equal(old(ctx)@.len() as int))),
        (chase(old(ctx)@, a.idx as int) != chase(old(ctx)@, b.idx as int) && terminal(
            old(ctx)@,
            a.idx as int,
        ) is Any && terminal(old(ctx)@, b.idx as int) is Known) ==> (res is Ok && final(ctx)@
            == old(ctx)@.update(chase(old(ctx)@, a.idx as int), terminal(old(ctx)@, b.idx as int))),
        (chase(old(ctx)@, a.idx as int) != chase(old(ctx)@, b.idx as int) && terminal(
            old(ctx)@,
            a.idx as int,
        ) is Known && terminal(old(ctx)@, b.idx as int) is Any) ==> (res is Ok && final(ctx)@
            == old(ctx)@.update(chase(old(ctx)@, b.idx as int), terminal(old(ctx)@, a.idx as int))),
        (chase(old(ctx)@, a.idx as int) != chase(old(ctx)@, b.idx as int) && terminal(
            old(ctx)@,
            a.idx as int,
        ) is Known && terminal(old(ctx)@, b.idx as int) is Known) ==> (match T::spec_merge(
            terminal(old(ctx)@, a.idx as int)->Known_ty,
            terminal(old(ctx)@, b.idx as int)->Known_ty,
        ) {
            Err(e) => res == Err::<(), UnifyError>(e) && final(ctx)@ == old(ctx)@,
            Ok(m) => {
                &&& (terminal(old(ctx)@, a.idx as int)->Known_args.len() != terminal(
                    old(ctx)@,
                    b.idx as int,
                )->Known_args.len() ==> res == Err::<(), UnifyError>(UnifyError::ArityMismatch)
                    && final(ctx)@ == old(ctx)@)
                &&& (res is Ok ==> final(ctx)@[chase(old(ctx)@, a.idx as int)] == (NodeV::Known {
                    ty: m,
                    args: terminal(old(ctx)@, a.idx as int)->Known_args,
                }) && final(ctx)@[chase(old(ctx)@, b.idx as int)] == final(ctx)@[chase(
                    old(ctx)@,
                    a.idx as int,
                )])
                &&& (terminal(old(ctx)@, a.idx as int)->Known_args.len() == 0 && terminal(
                    old(ctx)@,
                    b.idx as int,
                )->Known_args.len() == 0 ==> res is Ok)
                &&& (terminal(old(ctx)@, a.idx as int)->Known_args == terminal(
                    old(ctx)@,
                    b.idx as int,
                )->Known_args && fuel > 0 ==> res is Ok && final(ctx)@ == old(ctx)@.update(
                    chase(old(ctx)@, a.idx as int),
                    NodeV::Known {
                        ty: m,
                        args: terminal(old(ctx)@, a.idx as int)->Known_args,
                    },
                ).update(
                    chase(old(ctx)@, b.idx as int),
                    NodeV::Known {
                        ty: m,
                        args: terminal(old(ctx)@, a.idx as int)->Known_args,
                    },
                ))
                &&& (res is Ok ==> forall|k: int|
                    0 <= k < terminal(old(ctx)@, a.idx as int)->Known_args.len()
                        ==> #[trigger] joined(
                        final(ctx)@,
                        terminal(old(ctx)@, a.idx as int)->Known_args[k],
                        terminal(old(ctx)@, b.idx as int)->Known_args[k],
                    ))
            },
        }),
        unify_outcome::<T>(old(ctx)@, a.idx as int, b.idx as int) matches Some(g) ==> res is Ok
            && final(ctx)@ == g,
    decreases fuel,
{
    let ghost g0 = ctx@;
    if a.idx == b.idx {
        return Ok(());
    }
    let ra = resolve(ctx, a);
    let rb = resolve(ctx, b);
    proof {
        lemma_chase_terminal(g0, a.idx as int);
        lemma_chase_terminal(g0, b.idx as int);
    }
    if ra.idx == rb.idx {
        return Ok(());
    }
    let na = dup_node(ctx.get(ra));
    let nb = dup_node(ctx.get(rb));
    match (na, nb) {
        (InferTy::Equal(_), _) => unreached(),
        (_, InferTy::Equal(_)) => unreached(),
        (InferTy::Any, InferTy::Any) => {
            let f = InferTyRef::any(ctx);
            let ghost g1 = ctx@;
            proof {
                lemma_wf_update(g1, ra.idx as int, NodeV::Equal(f.idx as int));
            }
            ctx.set(ra, InferTy::Equal(f));
            let ghost g2 = ctx@;
            proof {
                lemma_wf_update(g2, rb.idx as int, NodeV::Equal(f.idx as int));
            }
            ctx.set(rb, InferTy::Equal(f));
            proof {
                let g3 = final(ctx)@;
                assert(graph_wf(g3));
                lemma_chase_extend(g0, g3, a.idx as int);
                lemma_chase_extend(g0, g3, b.idx as int);
                assert(g3[f.idx as int] == NodeV::<T::V>::Any);
                assert(chase(g3, f.idx as int) == f.idx as int);
                assert(g3[ra.idx as int] == NodeV::<T::V>::Equal(f.idx as int));
                assert(g3[rb.idx as int] == NodeV::<T::V>::Equal(f.idx as int));
                assert(chase(g3, ra.idx as int) == f.idx as int);
                assert(chase(g3, rb.idx as int) == f.idx as int);
            }
            Ok(())
        }
        (InferTy::Any, nb2) => {
            // `nb2` can only be `Known` here.
            proof {
                lemma_wf_update(ctx@, ra.idx as int, nb2@);
            }
            ctx.set(ra, nb2);
            proof {
                let g1 = final(ctx)@;
                lemma_chase_extend(g0, g1, a.idx as int);
                lemma_chase_extend(g0, g1, b.idx as int);
                assert(chase(g1, ra.idx as int) == ra.idx as int);
                assert(chase(g1, rb.idx as int) == rb.idx as int);
            }
            Ok(())
        }
        (na2, InferTy::Any) => {
            // `na2` can only be `Known` here.
            proof {
                lemma_wf_update(ctx@, rb.idx as int, na2@);
            }
            ctx.set(rb, na2);
            proof {
                let g1 = final(ctx)@;
                lemma_chase_extend(g0, g1, a.idx as int);
                lemma_chase_extend(g0, g1, b.idx as int);
                assert(chase(g1, ra.idx as int) == ra.idx as int);
                assert(chase(g1, rb.idx as int) == rb.idx as int);
            }
            Ok(())
        }
        (InferTy::Known { ty: ta, args: aa }, InferTy::Known { ty: tb, args: ab }) => {
            let m = match T::merge(&ta, &tb) {
                Ok(m) => m,
                Err(e) => {
                    return Err(e);
                }
            };
            if aa.len() != ab.len() {
                return Err(UnifyError::ArityMismatch);
            }
            if aa.len() > 0 && fuel == 0 {
                return Err(UnifyError::DepthLimit);
            }
            proof {
                assert(g0[ra.idx as int] == NodeV::Known { ty: ta@, args: ref_ids(aa@) });
                assert(g0[rb.idx as int] == NodeV::Known { ty: tb@, args: ref_ids(ab@) });
                assert(node_wf(g0[ra.idx as int], ra.idx as int, g0.len() as int));
                assert(node_wf(g0[rb.idx as int], rb.idx as int, g0.len() as int));
                assert forall|j: int| 0 <= j < aa@.len() implies (#[trigger] aa@[j]).idx
                    < g0.len() by {
                    assert(g0[ra.idx as int]->Known_args == ref_ids(aa@));
                    assert(0 <= g0[ra.idx as int]->Known_args[j] < g0.len());
                    assert(ref_ids(aa@)[j] == aa@[j].idx as int);
                }
                assert forall|j: int| 0 <= j < ab@.len() implies (#[trigger] ab@[j]).idx
                    < g0.len() by {
                    assert(g0[rb.idx as int]->Known_args == ref_ids(ab@));
                    assert(0 <= g0[rb.idx as int]->Known_args[j] < g0.len());
                    assert(ref_ids(ab@)[j] == ab@[j].idx as int);
                }
            }
            let mut k: usize = 0;
            while k < aa.len()
                invariant
                    ctx.wf(),
                    g0.len() <= ctx@.len(),
                    k <= aa@.len(),
                    aa@.len() == ab@.len(),
                    fuel > 0 || aa@.len() == 0,
                    ra.idx < g0.len(),
                    rb.idx < g0.len(),
                    forall|j: int| 0 <= j < aa@.len() ==> (#[trigger] aa@[j]).idx < g0.len(),
                    forall|j: int| 0 <= j < ab@.len() ==> (#[trigger] ab@[j]).idx < g0.len(),
                    forall|i: int|
                        0 <= i < g0.len() && (#[trigger] g0[i]) is Equal ==> ctx@[i] == g0[i],
                    forall|i: int|
                        0 <= i < g0.len() && (#[trigger] g0[i]) is Known ==> ctx@[i] is Known,
                    all_args_empty(g0) ==> all_args_empty(ctx@),
                    ref_ids(aa@) == ref_ids(ab@) ==> ctx@ == g0,
                    forall|k2: int|
                        0 <= k2 < k ==> #[trigger] joined(
                            ctx@,
                            aa@[k2].idx as int,
                            ab@[k2].idx as int,
                        ),
                decreases aa@.len() - k,
            {
                let ghost gpre = ctx@;
                proof {
                    if ref_ids(aa@) == ref_ids(ab@) {
                        assert(ref_ids(aa@)[k as int] == ref_ids(ab@)[k as int]);
                        assert(aa@[k as int].idx == ab@[k as int].idx);
                    }
                }
                match unify(ctx, aa[k], ab[k], fuel - 1) {
                    Ok(()) => {}
                    Err(e) => {
                        return Err(e);
                    }
                }
                proof {
                    assert forall|k2: int| 0 <= k2 < k + 1 implies #[trigger] joined(
                        ctx@,
                        aa@[k2].idx as int,
                        ab@[k2].idx as int,
                    ) by {
                        if k2 < k {
                            lemma_joined_persists(
                                gpre,
                                ctx@,
                                aa@[k2].idx as int,
                                ab@[k2].idx as int,
                            );
                        }
                    }
                }
                k += 1;
            }
            let ghost gl = ctx@;
            let new_a = InferTy::Known { ty: m.duplicate(), args: dup_refs(&aa) };
            let new_b = InferTy::Known { ty: m, args: aa };
            proof {
                assert(new_a@ =~~= new_b@);
                lemma_wf_update(gl, ra.idx as int, new_a@);
            }
            ctx.set(ra, new_a);
            proof {
                lemma_wf_update(ctx@, rb.idx as int, new_b@);
            }
            ctx.set(rb, new_b);
            proof {
                let g1 = final(ctx)@;
                lemma_chase_extend(g0, g1, a.idx as int);
                lemma_chase_extend(g0, g1, b.idx as int);
                assert(chase(g1, ra.idx as int) == ra.idx as int);
                assert(chase(g1, rb.idx as int) == rb.idx as int);
                if aa@.len() == 0 {
                    assert(ref_ids(aa@) =~= ref_ids(ab@));
                }
                if ref_ids(aa@) == ref_ids(ab@) {
                    let n = NodeV::Known { ty: m@, args: ref_ids(aa@) };
                    assert(g1 =~~= g0.update(ra.idx as int, n).update(rb.idx as int, n));
                    if aa@.len() == 0 {
                        assert(g1 =~~= g0.update(
                            ra.idx as int,
                            NodeV::Known { ty: m@, args: Seq::<int>::empty() },
                        ).update(rb.idx as int, NodeV::Known { ty: m@, args: Seq::<int>::empty() }));
                    }
                }
                assert(forall|i: int|
                    0 <= i < gl.len() && (#[trigger] gl[i]) is Equal ==> g1[i] == gl[i]);
                assert forall|i: int|
                    0 <= i < gl.len() && (#[trigger] gl[i]) is Known implies g1[i] is Known by {
                    if i != ra.idx as int && i != rb.idx as int {
                        assert(g1[i] == gl[i]);
                    }
                }
                assert forall|k2: int| 0 <= k2 < aa@.len() implies #[trigger] joined(
                    g1,
                    aa@[k2].idx as int,
                    ab@[k2].idx as int,
                ) by {
                    lemma_joined_persists(gl, g1, aa@[k2].idx as int, ab@[k2].idx as int);
                }
                assert forall|k2: int|
                    0 <= k2 < terminal(g0, a.idx as int)->Known_args.len() implies #[trigger] joined(
                    g1,
                    terminal(g0, a.idx as int)->Known_args[k2],
                    terminal(g0, b.idx as int)->Known_args[k2],
                ) by {
                    assert(terminal(g0, a.idx as int)->Known_args[k2] == aa@[k2].idx as int);
                    assert(terminal(g0, b.idx as int)->Known_args[k2] == ab@[k2].idx as int);
                }
            }
            Ok(())
        }
    }
}

/// Updating one node with well-formed content keeps the graph well-formed.
pub proof fn lemma_wf_update<TV>(g: Seq<NodeV<TV>>, i: int, n: NodeV<TV>)
    requires
        graph_wf(g),
        0 <= i < g.len(),
        node_wf(n, i, g.len() as int),
    ensures
        graph_wf(g.update(i, n)),
{
    let g2 = g.update(i, n);
    assert forall|j: int| 0 <= j < g2.len() implies node_wf(#[trigger] g2[j], j, g2.len() as int) by {
        if j != i {
            assert(g2[j] == g[j]);
            assert(node_wf(g[j], j, g.len() as int));
        }
    }
}

/// Follow alias links from `r` to the terminal node it resolves to.
pub(crate) fn resolve<T: Payload>(ctx: &InferCtx<T>, r: InferTyRef) -> (t: InferTyRef)
    requires
        ctx.wf(),
        r.idx < ctx@.len(),
    ensures
        t.idx as int == chase(ctx@, r.idx as int),
        t.idx < ctx@.len(),
        !(ctx@[t.idx as int] is Equal),
{
    let mut cur = r;
    loop
        invariant
            ctx.wf(),
            cur.idx < ctx@.len(),
            chase(ctx@, cur.idx as int) == chase(ctx@, r.idx as int),
        ensures
            !(ctx@[cur.idx as int] is Equal),
        decreases ctx@.len() - cur.idx,
    {
        let n = ctx.get(cur);
        match n {
            InferTy::Equal(next) => {
                proof {
                    assert(ctx@[cur.idx as int] == NodeV::<T::V>::Equal(next.idx as int));
                    assert(node_wf(ctx@[cur.idx as int], cur.idx as int, ctx@.len() as int));
                }
                cur = *next;
            }
            InferTy::Any => {
                proof {
                    assert(ctx@[cur.idx as int] == NodeV::<T::V>::Any);
                }
                break ;
            }
            InferTy::Known { .. } => {
                proof {
                    assert(ctx@[cur.idx as int] is Known);
                }
                break ;
            }
        }
    }
    proof {
        assert(chase(ctx@, cur.idx as int) == cur.idx as int);
    }
    cur
}

} // verus!
