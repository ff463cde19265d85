//! The type system built on the unification engine: boolean, reference,
//! sized-integer and struct types, the merge rules between them, and
//! resolution to fully concrete types.
//!
//! Three node arenas live side by side in a `TyCtx`: top-level type nodes,
//! integer nodes (a width and signedness still to be determined), and struct
//! nodes (a declared struct, or a row of required fields inferred from
//! usage).
//!
//! Integer payloads merge as a pure function of their two values, so integer
//! nodes unify through the generic engine (`IntTy` implements `Unify`).
//! Merging type and struct payloads must recursively unify child nodes held
//! inside the payloads — a reference's pointee, a struct field's type — which
//! a pure payload merge cannot do, so `Ty::unify` and `StructTy::unify` walk
//! the same node states (`Any`, `Equal`, `Known`) themselves, mutually
//! recursive with each other over the three arenas.

use crate::infer::{
    all_args_empty, chase, graph_wf, terminal, terminal_payload, InferCtx, InferTy, InferTyRef,
    NodeV, Payload, Unify, UnifyError, UnresolvedError,
};
use vstd::pervasive::unreached;
use vstd::prelude::*;

verus! {

/// A handle to a top-level type node.
pub type TyRef = InferTyRef;

/// A handle to an integer type node.
pub type IntTyRef = InferTyRef;

/// A handle to a struct type node.
pub type StructTyRef = InferTyRef;

/// An interned identifier: a struct name or a field name.
#[derive(Clone, Copy, PartialEq, Eq, Structural, Debug)]
pub struct Symbol(pub u64);

/// Signed or unsigned.
#[derive(Clone, Copy, PartialEq, Eq, Structural, Debug)]
pub enum Signedness {
    Signed,
    Unsigned,
}

/// The width of an integer type.
#[derive(Clone, Copy, PartialEq, Eq, Structural, Debug)]
pub enum Size {
    B8,
    B16,
    B32,
}

/// A fully determined integer type: signedness and width.
#[derive(Clone, Copy, PartialEq, Eq, Structural, Debug)]
pub struct Int {
    pub signedness: Signedness,
    pub size: Size,
}

/// The integer payload: a fixed integer type, or one not yet determined.
#[derive(Clone, Copy, PartialEq, Debug)]
pub enum IntTy {
    Int(Int),
    Any,
}

/// One named field.
#[derive(Clone, Copy, PartialEq, Debug)]
pub struct Field<T> {
    pub name: Symbol,
    pub ty: T,
}

/// A declared struct: a name and its ordered field list.
#[derive(PartialEq, Debug)]
pub struct KnownStruct<T> {
    pub name: Symbol,
    pub fields: Vec<Field<T>>,
}

/// The struct payload: a concrete declared struct, or a partial record shape
/// inferred from usage (a lower bound: the field names that must exist, each
/// with its required type).
#[derive(Debug)]
pub enum StructTy {
    Known(KnownStruct<TyRef>),
    WithFields(Vec<Field<TyRef>>),
}

/// The top-level type payload.
#[derive(Clone, Copy, Debug)]
pub enum Ty {
    Bool,
    Ref(TyRef),
    Int(IntTyRef),
    Struct(StructTyRef),
    Any,
}

/// A fully resolved type, with no unification nodes left in it.
#[derive(PartialEq, Debug)]
pub enum ConcreteTy {
    Bool,
    Ref(Box<ConcreteTy>),
    Int(Int),
    Struct(KnownStruct<ConcreteTy>),
}

/// The mathematical shape of one field of a struct payload: the type is a
/// node index.
#[verifier::ext_equal]
pub struct FieldV {
    pub name: Symbol,
    pub ty: int,
}

/// The mathematical shape of a struct payload.
#[verifier::ext_equal]
pub enum StructTyV {
    Known { name: Symbol, fields: Seq<FieldV> },
    WithFields { fields: Seq<FieldV> },
}

/// The shapes of a field list.
pub open spec fn field_views(fs: Seq<Field<InferTyRef>>) -> Seq<FieldV> {
    Seq::new(fs.len(), |i: int| FieldV { name: fs[i].name, ty: fs[i].ty.idx as int })
}

impl View for IntTy {
    type V = IntTy;

    open spec fn view(&self) -> IntTy {
        *self
    }
}

impl Payload for IntTy {
    fn duplicate(&self) -> (r: IntTy) {
        *self
    }
}

impl Unify for IntTy {
    /// An undetermined side yields the other side; two fixed integer types
    /// must agree exactly.
    open spec fn spec_merge(a: IntTy, b: IntTy) -> Result<IntTy, UnifyError> {
        match (a, b) {
            (IntTy::Any, x) => Ok(x),
            (x, IntTy::Any) => Ok(x),
            (IntTy::Int(ia), IntTy::Int(ib)) => if ia == ib {
                Ok(IntTy::Int(ia))
            } else {
                Err(UnifyError::IntMismatch)
            },
        }
    }

    proof fn lemma_merge_symmetric(a: IntTy, b: IntTy) {
    }

    fn merge(a: &IntTy, b: &IntTy) -> (r: Result<IntTy, UnifyError>) {
        match (a, b) {
            (IntTy::Any, x) => Ok(*x),
            (x, IntTy::Any) => Ok(*x),
            (IntTy::Int(ia), IntTy::Int(ib)) => {
                if ia.signedness == ib.signedness && ia.size == ib.size {
                    Ok(IntTy::Int(*ia))
                } else {
                    Err(UnifyError::IntMismatch)
                }
            }
        }
    }
}

impl View for Ty {
    type V = Ty;

    open spec fn view(&self) -> Ty {
        *self
    }
}

impl Payload for Ty {
    fn duplicate(&self) -> (r: Ty) {
        *self
    }
}

impl View for StructTy {
    type V = StructTyV;

    open spec fn view(&self) -> StructTyV {
        match self {
            StructTy::Known(ks) => StructTyV::Known {
                name: ks.name,
                fields: field_views(ks.fields@),
            },
            StructTy::WithFields(fs) => StructTyV::WithFields { fields: field_views(fs@) },
        }
    }
}

/// Copy a field list.
fn dup_fields(v: &Vec<Field<TyRef>>) -> (r: Vec<Field<TyRef>>)
    ensures
        r@ == v@,
{
    let mut r: Vec<Field<TyRef>> = Vec::new();
    let mut k: usize = 0;
    while k < v.len()
        invariant
            k <= v@.len(),
            r@ == v@.subrange(0, k as int),
        decreases v@.len() - k,
    {
        r.push(v[k]);
        proof {
            assert(r@ =~= v@.subrange(0, k as int + 1));
        }
        k += 1;
    }
    proof {
        assert(r@ =~= v@);
    }
    r
}

impl Payload for StructTy {
    fn duplicate(&self) -> (r: StructTy) {
        match self {
            StructTy::Known(ks) => StructTy::Known(
                KnownStruct { name: ks.name, fields: dup_fields(&ks.fields) },
            ),
            StructTy::WithFields(fs) => StructTy::WithFields(dup_fields(fs)),
        }
    }
}

/// Whether every field's type index is in bounds of a type arena of `tn`
/// nodes.
pub open spec fn fields_wf(fs: Seq<FieldV>, tn: int) -> bool {
    forall|k: int| 0 <= k < fs.len() ==> 0 <= (#[trigger] fs[k]).ty < tn
}

/// Whether the field names are pairwise distinct.
pub open spec fn unique_names(fs: Seq<FieldV>) -> bool {
    forall|j: int, k: int|
        0 <= j < k < fs.len() ==> (#[trigger] fs[j]).name != (#[trigger] fs[k]).name
}

/// Whether a type payload's node references are in bounds of the three
/// arenas.
pub open spec fn ty_payload_wf(t: Ty, tn: int, wn: int, sn: int) -> bool {
    match t {
        Ty::Bool => true,
        Ty::Any => true,
        Ty::Ref(r) => r.idx < tn,
        Ty::Int(r) => r.idx < wn,
        Ty::Struct(r) => r.idx < sn,
    }
}

/// Whether a struct payload's field types are in bounds of the type arena,
/// with distinct field names.
pub open spec fn struct_payload_wf(s: StructTyV, tn: int) -> bool {
    match s {
        StructTyV::Known { name, fields } => fields_wf(fields, tn) && unique_names(fields),
        StructTyV::WithFields { fields } => fields_wf(fields, tn) && unique_names(fields),
    }
}

/// The constraint graph of one compilation unit: the three node arenas that
/// the type system's unification works on.
pub struct TyCtx {
    tys: InferCtx<Ty>,
    ints: InferCtx<IntTy>,
    structs: InferCtx<StructTy>,
}

impl TyCtx {
    /// The type node graph.
    pub closed spec fn ty_graph(&self) -> Seq<NodeV<Ty>> {
        self.tys@
    }

    /// The integer node graph.
    pub closed spec fn int_graph(&self) -> Seq<NodeV<IntTy>> {
        self.ints@
    }

    /// The struct node graph.
    pub closed spec fn struct_graph(&self) -> Seq<NodeV<StructTyV>> {
        self.structs@
    }

    /// All three arenas are well-formed: alias links point strictly forward,
    /// nodes carry no engine-level child arguments (children live in the
    /// payloads), and every payload's node references are in bounds.
    pub open spec fn wf(&self) -> bool {
        &&& graph_wf(self.ty_graph())
        &&& graph_wf(self.int_graph())
        &&& graph_wf(self.struct_graph())
        &&& all_args_empty(self.ty_graph())
        &&& all_args_empty(self.int_graph())
        &&& all_args_empty(self.struct_graph())
        &&& forall|i: int|
            0 <= i < self.ty_graph().len() && (#[trigger] self.ty_graph()[i]) is Known
                ==> ty_payload_wf(
                self.ty_graph()[i]->Known_ty,
                self.ty_graph().len() as int,
                self.int_graph().len() as int,
                self.struct_graph().len() as int,
            )
        &&& forall|i: int|
            0 <= i < self.struct_graph().len() && (#[trigger] self.struct_graph()[i]) is Known
                ==> struct_payload_wf(
                self.struct_graph()[i]->Known_ty,
                self.ty_graph().len() as int,
            )
    }

    /// An empty constraint graph.
    pub fn new() -> (r: TyCtx)
        ensures
            r.wf(),
            r.ty_graph().len() == 0,
            r.int_graph().len() == 0,
            r.struct_graph().len() == 0,
    {
        TyCtx { tys: InferCtx::new(), ints: InferCtx::new(), structs: InferCtx::new() }
    }

    /// Allocate a fresh, unconstrained type node.
    pub fn fresh_any(&mut self) -> (r: TyRef)
        requires
            old(self).wf(),
        ensures
            final(self).wf(),
            final(self).ty_graph() == old(self).ty_graph().push(NodeV::Any),
            final(self).int_graph() == old(self).int_graph(),
            final(self).struct_graph() == old(self).struct_graph(),
            r.idx == old(self).ty_graph().len(),
    {
        InferTyRef::any(&mut self.tys)
    }

    /// Allocate a type node resolved to the payload `t`.
    pub fn ty_known(&mut self, t: Ty) -> (r: TyRef)
        requires
            old(self).wf(),
            ty_payload_wf(
                t,
                old(self).ty_graph().len() as int,
                old(self).int_graph().len() as int,
                old(self).struct_graph().len() as int,
            ),
        ensures
            final(self).wf(),
            final(self).ty_graph() == old(self).ty_graph().push(
                NodeV::Known { ty: t, args: Seq::<int>::empty() },
            ),
            final(self).int_graph() == old(self).int_graph(),
            final(self).struct_graph() == old(self).struct_graph(),
            r.idx == old(self).ty_graph().len(),
    {
        InferTyRef::known(&mut self.tys, t)
    }

    /// Allocate a fresh, unconstrained integer node.
    pub fn int_any(&mut self) -> (r: IntTyRef)
        requires
            old(self).wf(),
        ensures
            final(self).wf(),
            final(self).int_graph() == old(self).int_graph().push(NodeV::Any),
            final(self).ty_graph() == old(self).ty_graph(),
            final(self).struct_graph() == old(self).struct_graph(),
            r.idx == old(self).int_graph().len(),
    {
        InferTyRef::any(&mut self.ints)
    }

    /// Allocate an integer node resolved to the payload `t`.
    pub fn int_known(&mut self, t: IntTy) -> (r: IntTyRef)
        requires
            old(self).wf(),
        ensures
            final(self).wf(),
            final(self).int_graph() == old(self).int_graph().push(
                NodeV::Known { ty: t, args: Seq::<int>::empty() },
            ),
            final(self).ty_graph() == old(self).ty_graph(),
            final(self).struct_graph() == old(self).struct_graph(),
            r.idx == old(self).int_graph().len(),
    {
        InferTyRef::known(&mut self.ints, t)
    }

    /// Allocate a struct node resolved to the payload `s`.
    pub fn struct_known(&mut self, s: StructTy) -> (r: StructTyRef)
        requires
            old(self).wf(),
            struct_payload_wf(s@, old(self).ty_graph().len() as int),
        ensures
            final(self).wf(),
            final(self).struct_graph() == old(self).struct_graph().push(
                NodeV::Known { ty: s@, args: Seq::<int>::empty() },
            ),
            final(self).ty_graph() == old(self).ty_graph(),
            final(self).int_graph() == old(self).int_graph(),
            r.idx == old(self).struct_graph().len(),
    {
        InferTyRef::known(&mut self.structs, s)
    }
}

/// Whether some field of `fs` is named `n`.
pub open spec fn has_name(fs: Seq<FieldV>, n: Symbol) -> bool {
    exists|k: int| 0 <= k < fs.len() && (#[trigger] fs[k]).name == n
}

/// The first field of `fs` named `n` (meaningful only when one exists).
pub open spec fn find_named(fs: Seq<FieldV>, n: Symbol) -> FieldV
    decreases fs.len(),
{
    if fs.len() == 0 {
        arbitrary()
    } else if fs[0].name == n {
        fs[0]
    } else {
        find_named(fs.subrange(1, fs.len() as int), n)
    }
}

/// Where some field is named `n`, `find_named` returns one of the fields,
/// and it carries that name.
pub proof fn lemma_find_named_in_bounds(fs: Seq<FieldV>, n: Symbol)
    requires
        has_name(fs, n),
    ensures
        exists|k: int| 0 <= k < fs.len() && fs[k] == find_named(fs, n),
        find_named(fs, n).name == n,
    decreases fs.len(),
{
    if fs[0].name == n {
        assert(fs[0] == find_named(fs, n));
    } else {
        let rest = fs.subrange(1, fs.len() as int);
        let w = choose|k: int| 0 <= k < fs.len() && (#[trigger] fs[k]).name == n;
        assert(rest[w - 1] == fs[w]);
        assert(has_name(rest, n));
        lemma_find_named_in_bounds(rest, n);
        let k2 = choose|k: int| 0 <= k < rest.len() && (#[trigger] rest[k]) == find_named(rest, n);
        assert(fs[k2 + 1] == find_named(fs, n));
    }
}

/// The field at the first index whose name is `n` is what `find_named`
/// returns.
pub proof fn lemma_find_named(fs: Seq<FieldV>, n: Symbol, k: int)
    requires
        0 <= k < fs.len(),
        fs[k].name == n,
        forall|j: int| 0 <= j < k ==> (#[trigger] fs[j]).name != n,
    ensures
        has_name(fs, n),
        find_named(fs, n) == fs[k],
    decreases k,
{
    if fs[0].name == n {
        assert(k == 0);
    } else {
        let rest = fs.subrange(1, fs.len() as int);
        assert(rest[k - 1] == fs[k]);
        assert forall|j: int| 0 <= j < k - 1 implies (#[trigger] rest[j]).name != n by {
            assert(rest[j] == fs[j + 1]);
        }
        lemma_find_named(rest, n, k - 1);
    }
}

/// Whether two integer nodes can unify: they already resolve to the same
/// node, or at most one side is fixed, or both are fixed and agree.
pub open spec fn int_compatible(ig: Seq<NodeV<IntTy>>, i: int, j: int) -> bool {
    chase(ig, i) == chase(ig, j) || match (terminal_payload(ig, i), terminal_payload(ig, j)) {
        (Some(x), Some(y)) => IntTy::spec_merge(x, y) is Ok,
        _ => true,
    }
}

impl TyCtx {
    /// Rewrite a type node to a resolved payload.
    fn set_ty_known(&mut self, r: TyRef, t: Ty)
        requires
            old(self).wf(),
            r.idx < old(self).ty_graph().len(),
            !(old(self).ty_graph()[r.idx as int] is Equal),
            ty_payload_wf(
                t,
                old(self).ty_graph().len() as int,
                old(self).int_graph().len() as int,
                old(self).struct_graph().len() as int,
            ),
        ensures
            final(self).wf(),
            final(self).ty_graph() == old(self).ty_graph().update(
                r.idx as int,
                NodeV::Known { ty: t, args: Seq::<int>::empty() },
            ),
            final(self).int_graph() == old(self).int_graph(),
            final(self).struct_graph() == old(self).struct_graph(),
    {
        let n = InferTy::Known { ty: t, args: Vec::new() };
        proof {
            assert(n@ =~~= NodeV::Known { ty: t, args: Seq::<int>::empty() });
            crate::infer::lemma_wf_update(self.ty_graph(), r.idx as int, n@);
        }
        self.tys.set(r, n);
    }

    /// Rewrite a type node to an alias of a later node.
    fn set_ty_alias(&mut self, r: TyRef, target: TyRef)
        requires
            old(self).wf(),
            r.idx < target.idx < old(self).ty_graph().len(),
        ensures
            final(self).wf(),
            final(self).ty_graph() == old(self).ty_graph().update(
                r.idx as int,
                NodeV::Equal(target.idx as int),
            ),
            final(self).int_graph() == old(self).int_graph(),
            final(self).struct_graph() == old(self).struct_graph(),
    {
        let n = InferTy::Equal(target);
        proof {
            crate::infer::lemma_wf_update(self.ty_graph(), r.idx as int, n@);
        }
        self.tys.set(r, n);
    }

    /// Rewrite a struct node to a resolved payload.
    fn set_struct_known(&mut self, r: StructTyRef, s: StructTy)
        requires
            old(self).wf(),
            r.idx < old(self).struct_graph().len(),
            !(old(self).struct_graph()[r.idx as int] is Equal),
            struct_payload_wf(s@, old(self).ty_graph().len() as int),
        ensures
            final(self).wf(),
            final(self).struct_graph() == old(self).struct_graph().update(
                r.idx as int,
                NodeV::Known { ty: s@, args: Seq::<int>::empty() },
            ),
            final(self).ty_graph() == old(self).ty_graph(),
            final(self).int_graph() == old(self).int_graph(),
    {
        let ghost sv = s@;
        let n = InferTy::Known { ty: s, args: Vec::new() };
        proof {
            assert(n@ =~~= NodeV::Known { ty: sv, args: Seq::<int>::empty() });
            crate::infer::lemma_wf_update(self.struct_graph(), r.idx as int, n@);
        }
        self.structs.set(r, n);
    }

    /// Rewrite a struct node to an alias of a later node.
    fn set_struct_alias(&mut self, r: StructTyRef, target: StructTyRef)
        requires
            old(self).wf(),
            r.idx < target.idx < old(self).struct_graph().len(),
        ensures
            final(self).wf(),
            final(self).struct_graph() == old(self).struct_graph().update(
                r.idx as int,
                NodeV::Equal(target.idx as int),
            ),
            final(self).ty_graph() == old(self).ty_graph(),
            final(self).int_graph() == old(self).int_graph(),
    {
        let n = InferTy::Equal(target);
        proof {
            crate::infer::lemma_wf_update(self.struct_graph(), r.idx as int, n@);
        }
        self.structs.set(r, n);
    }

    /// Allocate a fresh, unconstrained struct node.
    fn struct_any(&mut self) -> (r: StructTyRef)
        requires
            old(self).wf(),
        ensures
            final(self).wf(),
            final(self).struct_graph() == old(self).struct_graph().push(NodeV::Any),
            final(self).ty_graph() == old(self).ty_graph(),
            final(self).int_graph() == old(self).int_graph(),
            r.idx == old(self).struct_graph().len(),
    {
        InferTyRef::any(&mut self.structs)
    }
}

/// Find the first field of `fields` named `name`.
fn find_in_fields(fields: &Vec<Field<TyRef>>, name: Symbol) -> (r: Option<usize>)
    ensures
        (match r {
            Some(k) => k < fields@.len() && field_views(fields@)[k as int].name == name && (forall|
                j: int,
            | 0 <= j < k ==> field_views(fields@)[j].name != name) && find_named(
                field_views(fields@),
                name,
            ) == field_views(fields@)[k as int] && has_name(field_views(fields@), name),
            None => !has_name(field_views(fields@), name),
        }),
{
    let mut k: usize = 0;
    while k < fields.len()
        invariant
            k <= fields@.len(),
            forall|j: int| 0 <= j < k ==> field_views(fields@)[j].name != name,
        decreases fields@.len() - k,
    {
        if fields[k].name.0 == name.0 {
            proof {
                assert(field_views(fields@)[k as int].name == name);
                lemma_find_named(field_views(fields@), name, k as int);
            }
            return Some(k);
        }
        proof {
            assert(field_views(fields@)[k as int].name != name);
        }
        k += 1;
    }
    None
}

impl IntTy {
    /// Assert that two integer nodes have equal type. Succeeds unless both
    /// sides are already fixed to different integer types, which fails with
    /// `IntMismatch`.
    pub fn unify(ctx: &mut TyCtx, a: IntTyRef, b: IntTyRef, fuel: u64) -> (res: Result<
        (),
        UnifyError,
    >)
        requires
            old(ctx).wf(),
            a.idx < old(ctx).int_graph().len(),
            b.idx < old(ctx).int_graph().len(),
        ensures
            final(ctx).wf(),
            final(ctx).ty_graph() == old(ctx).ty_graph(),
            final(ctx).struct_graph() == old(ctx).struct_graph(),
            old(ctx).int_graph().len() <= final(ctx).int_graph().len(),
            forall|i: int|
                0 <= i < old(ctx).int_graph().len() && (#[trigger] old(ctx).int_graph()[i]) is Equal
                    ==> final(ctx).int_graph()[i] == old(ctx).int_graph()[i],
            forall|i: int|
                0 <= i < old(ctx).int_graph().len() && (#[trigger] old(ctx).int_graph()[i]) is Known
                    ==> final(ctx).int_graph()[i] is Known,
            res is Ok <==> int_compatible(old(ctx).int_graph(), a.idx as int, b.idx as int),
            res is Err ==> res == Err::<(), UnifyError>(UnifyError::IntMismatch)
                && final(ctx).int_graph() == old(ctx).int_graph(),
            res is Ok ==> terminal(final(ctx).int_graph(), a.idx as int) == terminal(
                final(ctx).int_graph(),
                b.idx as int,
            ),
            res is Ok ==> crate::infer::joined(final(ctx).int_graph(), a.idx as int, b.idx as int),
            chase(old(ctx).int_graph(), a.idx as int) == chase(old(ctx).int_graph(), b.idx as int)
                ==> final(ctx).int_graph() == old(ctx).int_graph(),
            forall|i: int|
                0 <= i < old(ctx).int_graph().len() && i != chase(
                    old(ctx).int_graph(),
                    a.idx as int,
                ) && i != chase(old(ctx).int_graph(), b.idx as int)
                    ==> (#[trigger] final(ctx).int_graph()[i]) == old(ctx).int_graph()[i],
            (chase(old(ctx).int_graph(), a.idx as int) != chase(
                old(ctx).int_graph(),
                b.idx as int,
            ) && terminal(old(ctx).int_graph(), a.idx as int) is Any && terminal(
                old(ctx).int_graph(),
                b.idx as int,
            ) is Any) ==> final(ctx).int_graph() == old(ctx).int_graph().push(NodeV::Any).update(
                chase(old(ctx).int_graph(), a.idx as int),
                NodeV::Equal(old(ctx).int_graph().len() as int),
            ).update(
                chase(old(ctx).int_graph(), b.idx as int),
                NodeV::Equal(old(ctx).int_graph().len() as int),
            ),
            (chase(old(ctx).int_graph(), a.idx as int) != chase(
                old(ctx).int_graph(),
                b.idx as int,
            ) && terminal(old(ctx).int_graph(), a.idx as int) is Any && terminal(
                old(ctx).int_graph(),
                b.idx as int,
            ) is Known) ==> final(ctx).int_graph() == old(ctx).int_graph().update(
                chase(old(ctx).int_graph(), a.idx as int),
                terminal(old(ctx).int_graph(), b.idx as int),
            ),
            (chase(old(ctx).int_graph(), a.idx as int) != chase(
                old(ctx).int_graph(),
                b.idx as int,
            ) && terminal(old(ctx).int_graph(), a.idx as int) is Known && terminal(
                old(ctx).int_graph(),
                b.idx as int,
            ) is Any) ==> final(ctx).int_graph() == old(ctx).int_graph().update(
                chase(old(ctx).int_graph(), b.idx as int),
                terminal(old(ctx).int_graph(), a.idx as int),
            ),
            (terminal(old(ctx).int_graph(), a.idx as int) is Known && terminal(
                old(ctx).int_graph(),
                b.idx as int,
            ) is Known && res is Ok) ==> terminal_payload(final(ctx).int_graph(), a.idx as int)
                == (match IntTy::spec_merge(
                terminal(old(ctx).int_graph(), a.idx as int)->Known_ty,
                terminal(old(ctx).int_graph(), b.idx as int)->Known_ty,
            ) {
                Ok(m) => Some(m),
                Err(e) => Option::<IntTy>::None,
            }),
    {
        let ghost ig0 = ctx.int_graph();
        proof {
            crate::infer::lemma_chase_terminal(ig0, a.idx as int);
            crate::infer::lemma_chase_terminal(ig0, b.idx as int);
            assert(crate::infer::node_args_empty(ig0[chase(ig0, a.idx as int)]));
            assert(crate::infer::node_args_empty(ig0[chase(ig0, b.idx as int)]));
        }
        let res = crate::infer::unify(&mut ctx.ints, a, b, fuel);
        proof {
            let ig1 = final(ctx).int_graph();
            let ca = chase(ig0, a.idx as int);
            let cb = chase(ig0, b.idx as int);
            if res is Ok && ca != cb && ig0[ca] is Known && ig0[cb] is Known {
                crate::infer::lemma_chase_extend(ig0, ig1, a.idx as int);
                assert(ig1[ca] is Known);
                assert(chase(ig1, ca) == ca);
            }
            assert(final(ctx).wf());
        }
        res
    }
}

/// Whether two type payloads are of the same kind, so that merging them can
/// succeed: an undetermined side fits anything, and otherwise the
/// constructors must agree.
pub open spec fn ty_kinds_match(x: Ty, y: Ty) -> bool {
    ||| x is Any
    ||| y is Any
    ||| (x is Bool && y is Bool)
    ||| (x is Ref && y is Ref)
    ||| (x is Int && y is Int)
    ||| (x is Struct && y is Struct)
}

impl Ty {
    /// Assert that two type nodes have equal type: merge their current
    /// knowledge, rewriting both resolved terminals to the unified shape, or
    /// fail.
    ///
    /// `fuel` bounds the recursion into child nodes (reference pointees and
    /// struct fields); running out of it reports `DepthLimit`, an internal,
    /// unrecoverable condition.
    pub fn unify(ctx: &mut TyCtx, a: TyRef, b: TyRef, fuel: u64) -> (res: Result<(), UnifyError>)
        requires
            old(ctx).wf(),
            a.idx < old(ctx).ty_graph().len(),
            b.idx < old(ctx).ty_graph().len(),
        ensures
            final(ctx).wf(),
            old(ctx).ty_graph().len() <= final(ctx).ty_graph().len(),
            old(ctx).int_graph().len() <= final(ctx).int_graph().len(),
            old(ctx).struct_graph().len() <= final(ctx).struct_graph().len(),
            forall|i: int|
                0 <= i < old(ctx).ty_graph().len() && (#[trigger] old(ctx).ty_graph()[i]) is Equal
                    ==> final(ctx).ty_graph()[i] == old(ctx).ty_graph()[i],
            forall|i: int|
                0 <= i < old(ctx).ty_graph().len() && (#[trigger] old(ctx).ty_graph()[i]) is Known
                    ==> final(ctx).ty_graph()[i] is Known,
            forall|i: int|
                0 <= i < old(ctx).int_graph().len() && (#[trigger] old(ctx).int_graph()[i]) is Equal
                    ==> final(ctx).int_graph()[i] == old(ctx).int_graph()[i],
            forall|i: int|
                0 <= i < old(ctx).int_graph().len() && (#[trigger] old(ctx).int_graph()[i]) is Known
                    ==> final(ctx).int_graph()[i] is Known,
            forall|i: int|
                0 <= i < old(ctx).struct_graph().len() && (#[trigger] old(ctx).struct_graph()[i]) is Equal ==> final(ctx).struct_graph()[i] == old(ctx).struct_graph()[i],
            forall|i: int|
                0 <= i < old(ctx).struct_graph().len() && (#[trigger] old(ctx).struct_graph()[i]) is Known ==> final(ctx).struct_graph()[i] is Known,
            chase(old(ctx).ty_graph(), a.idx as int) == chase(old(ctx).ty_graph(), b.idx as int)
                ==> res is Ok && final(ctx).ty_graph() == old(ctx).ty_graph() && final(ctx).int_graph() == old(ctx).int_graph() && final(ctx).struct_graph() == old(ctx).struct_graph(),
            res is Ok ==> terminal(final(ctx).ty_graph(), a.idx as int) == terminal(
                final(ctx).ty_graph(),
                b.idx as int,
            ),
            res is Ok ==> crate::infer::joined(final(ctx).ty_graph(), a.idx as int, b.idx as int),
            (chase(old(ctx).ty_graph(), a.idx as int) != chase(old(ctx).ty_graph(), b.idx as int)
                && terminal(old(ctx).ty_graph(), a.idx as int) is Any && terminal(
                old(ctx).ty_graph(),
                b.idx as int,
            ) is Any) ==> (res is Ok && final(ctx).ty_graph() == old(ctx).ty_graph().push(
                NodeV::Any,
            ).update(
                chase(old(ctx).ty_graph(), a.idx as int),
                NodeV::Equal(old(ctx).ty_graph().len() as int),
            ).update(
                chase(old(ctx).ty_graph(), b.idx as int),
                NodeV::Equal(old(ctx).ty_graph().len() as int),
            ) && final(ctx).int_graph() == old(ctx).int_graph() && final(ctx).struct_graph() == old(ctx).struct_graph()),
            (chase(old(ctx).ty_graph(), a.idx as int) != chase(old(ctx).ty_graph(), b.idx as int)
                && terminal(old(ctx).ty_graph(), a.idx as int) is Any && terminal(
                old(ctx).ty_graph(),
                b.idx as int,
            ) is Known) ==> (res is Ok && final(ctx).ty_graph() == old(ctx).ty_graph().update(
                chase(old(ctx).ty_graph(), a.idx as int),
                terminal(old(ctx).ty_graph(), b.idx as int),
            ) && final(ctx).int_graph() == old(ctx).int_graph() && final(ctx).struct_graph() == old(ctx).struct_graph()),
            (chase(old(ctx).ty_graph(), a.idx as int) != chase(old(ctx).ty_graph(), b.idx as int)
                && terminal(old(ctx).ty_graph(), a.idx as int) is Known && terminal(
                old(ctx).ty_graph(),
                b.idx as int,
            ) is Any) ==> (res is Ok && final(ctx).ty_graph() == old(ctx).ty_graph().update(
                chase(old(ctx).ty_graph(), b.idx as int),
                terminal(old(ctx).ty_graph(), a.idx as int),
            ) && final(ctx).int_graph() == old(ctx).int_graph() && final(ctx).struct_graph() == old(ctx).struct_graph()),
            (chase(old(ctx).ty_graph(), a.idx as int) != chase(old(ctx).ty_graph(), b.idx as int)
                && terminal(old(ctx).ty_graph(), a.idx as int) is Known && terminal(
                old(ctx).ty_graph(),
                b.idx as int,
            ) is Known) ==> (match (
                terminal(old(ctx).ty_graph(), a.idx as int)->Known_ty,
                terminal(old(ctx).ty_graph(), b.idx as int)->Known_ty,
            ) {
                (x, y) => {
                    &&& (!ty_kinds_match(x, y) ==> res == Err::<(), UnifyError>(
                        UnifyError::IncompatibleKinds,
                    ) && final(ctx).ty_graph() == old(ctx).ty_graph() && final(ctx).int_graph()
                        == old(ctx).int_graph() && final(ctx).struct_graph() == old(ctx).struct_graph())
                    &&& (x is Any ==> res is Ok && final(ctx).ty_graph() == old(ctx).ty_graph().update(
                        chase(old(ctx).ty_graph(), a.idx as int),
                        NodeV::Known { ty: y, args: Seq::<int>::empty() },
                    ).update(
                        chase(old(ctx).ty_graph(), b.idx as int),
                        NodeV::Known { ty: y, args: Seq::<int>::empty() },
                    ) && final(ctx).int_graph() == old(ctx).int_graph() && final(ctx).struct_graph() == old(ctx).struct_graph())
                    &&& (!(x is Any) && y is Any ==> res is Ok && final(ctx).ty_graph() == old(ctx).ty_graph().update(
                        chase(old(ctx).ty_graph(), a.idx as int),
                        NodeV::Known { ty: x, args: Seq::<int>::empty() },
                    ).update(
                        chase(old(ctx).ty_graph(), b.idx as int),
                        NodeV::Known { ty: x, args: Seq::<int>::empty() },
                    ) && final(ctx).int_graph() == old(ctx).int_graph() && final(ctx).struct_graph() == old(ctx).struct_graph())
                    &&& (x is Bool && y is Bool ==> res is Ok && final(ctx).ty_graph() == old(ctx).ty_graph().update(
                        chase(old(ctx).ty_graph(), a.idx as int),
                        NodeV::Known { ty: x, args: Seq::<int>::empty() },
                    ).update(
                        chase(old(ctx).ty_graph(), b.idx as int),
                        NodeV::Known { ty: x, args: Seq::<int>::empty() },
                    ) && final(ctx).int_graph() == old(ctx).int_graph() && final(ctx).struct_graph() == old(ctx).struct_graph())
                    &&& (x is Ref && y is Ref && fuel == 0 ==> res == Err::<(), UnifyError>(
                        UnifyError::DepthLimit,
                    ) && final(ctx).ty_graph() == old(ctx).ty_graph() && final(ctx).int_graph()
                        == old(ctx).int_graph() && final(ctx).struct_graph() == old(ctx).struct_graph())
                    &&& (x is Ref && y is Ref && res is Ok ==> final(ctx).ty_graph()[chase(
                        old(ctx).ty_graph(),
                        a.idx as int,
                    )] == (NodeV::Known { ty: x, args: Seq::<int>::empty() }) && final(ctx).ty_graph()[chase(old(ctx).ty_graph(), b.idx as int)] == final(ctx).ty_graph()[chase(old(ctx).ty_graph(), a.idx as int)])
                    &&& (x is Ref && y is Ref && res is Ok ==> crate::infer::joined(
                        final(ctx).ty_graph(),
                        x->Ref_0.idx as int,
                        y->Ref_0.idx as int,
                    ))
                    &&& (x is Ref && y is Ref && fuel > 0 && (chase(
                        old(ctx).ty_graph(),
                        x->Ref_0.idx as int,
                    ) == chase(old(ctx).ty_graph(), y->Ref_0.idx as int) || terminal(
                        old(ctx).ty_graph(),
                        x->Ref_0.idx as int,
                    ) is Any || terminal(old(ctx).ty_graph(), y->Ref_0.idx as int) is Any)
                        ==> res is Ok)
                    &&& (x is Int && y is Int ==> (res is Ok <==> int_compatible(
                        old(ctx).int_graph(),
                        x->Int_0.idx as int,
                        y->Int_0.idx as int,
                    )) && (res is Err ==> res == Err::<(), UnifyError>(UnifyError::IntMismatch)
                        && final(ctx).ty_graph() == old(ctx).ty_graph() && final(ctx).int_graph()
                        == old(ctx).int_graph() && final(ctx).struct_graph() == old(ctx).struct_graph()) && (res is Ok ==> final(ctx).ty_graph()[chase(
                        old(ctx).ty_graph(),
                        a.idx as int,
                    )] == (NodeV::Known { ty: x, args: Seq::<int>::empty() }) && final(ctx).ty_graph() == old(ctx).ty_graph().update(
                        chase(old(ctx).ty_graph(), a.idx as int),
                        NodeV::Known { ty: x, args: Seq::<int>::empty() },
                    ).update(
                        chase(old(ctx).ty_graph(), b.idx as int),
                        NodeV::Known { ty: x, args: Seq::<int>::empty() },
                    ) && final(ctx).struct_graph() == old(ctx).struct_graph() && terminal(
                        final(ctx).int_graph(),
                        x->Int_0.idx as int,
                    ) == terminal(final(ctx).int_graph(), y->Int_0.idx as int)))
                    &&& (x is Struct && y is Struct && fuel == 0 ==> res == Err::<(), UnifyError>(
                        UnifyError::DepthLimit,
                    ) && final(ctx).ty_graph() == old(ctx).ty_graph() && final(ctx).int_graph()
                        == old(ctx).int_graph() && final(ctx).struct_graph() == old(ctx).struct_graph())
                    &&& (x is Struct && y is Struct && res is Ok ==> final(ctx).ty_graph()[chase(
                        old(ctx).ty_graph(),
                        a.idx as int,
                    )] == (NodeV::Known { ty: x, args: Seq::<int>::empty() }) && final(ctx).ty_graph()[chase(old(ctx).ty_graph(), b.idx as int)] == final(ctx).ty_graph()[chase(old(ctx).ty_graph(), a.idx as int)] && terminal(
                        final(ctx).struct_graph(),
                        x->Struct_0.idx as int,
                    ) == terminal(final(ctx).struct_graph(), y->Struct_0.idx as int))
                    &&& (x is Struct && y is Struct && fuel > 0 && (chase(
                        old(ctx).struct_graph(),
                        x->Struct_0.idx as int,
                    ) == chase(old(ctx).struct_graph(), y->Struct_0.idx as int) || terminal(
                        old(ctx).struct_graph(),
                        x->Struct_0.idx as int,
                    ) is Any || terminal(old(ctx).struct_graph(), y->Struct_0.idx as int) is Any)
                        ==> res is Ok)
                },
            }),
        decreases fuel, 0int,
    {
        let ghost tg0 = ctx.ty_graph();
        let ghost ig0 = ctx.int_graph();
        let ghost sg0 = ctx.struct_graph();
        let ra = crate::infer::resolve(&ctx.tys, a);
        let rb = crate::infer::resolve(&ctx.tys, b);
        proof {
            crate::infer::lemma_chase_terminal(tg0, a.idx as int);
            crate::infer::lemma_chase_terminal(tg0, b.idx as int);
        }
        if ra.idx == rb.idx {
            return Ok(());
        }
        let sa = match ctx.tys.get(ra) {
            InferTy::Any => None,
            InferTy::Known { ty, .. } => Some(*ty),
            InferTy::Equal(_) => unreached(),
        };
        let sb = match ctx.tys.get(rb) {
            InferTy::Any => None,
            InferTy::Known { ty, .. } => Some(*ty),
            InferTy::Equal(_) => unreached(),
        };
        proof {
            assert(crate::infer::node_args_empty(tg0[ra.idx as int]));
            assert(crate::infer::node_args_empty(tg0[rb.idx as int]));
        }
        match (sa, sb) {
            (None, None) => {
                let f = ctx.fresh_any();
                ctx.set_ty_alias(ra, f);
                ctx.set_ty_alias(rb, f);
                proof {
                    let tg1 = final(ctx).ty_graph();
                    crate::infer::lemma_chase_extend(tg0, tg1, a.idx as int);
                    crate::infer::lemma_chase_extend(tg0, tg1, b.idx as int);
                    assert(tg1[f.idx as int] == NodeV::<Ty>::Any);
                    assert(chase(tg1, f.idx as int) == f.idx as int);
                    assert(chase(tg1, ra.idx as int) == f.idx as int);
                    assert(chase(tg1, rb.idx as int) == f.idx as int);
                }
                Ok(())
            }
            (None, Some(t)) => {
                proof {
                    assert(ty_payload_wf(
                        t,
                        tg0.len() as int,
                        ig0.len() as int,
                        sg0.len() as int,
                    ));
                }
                ctx.set_ty_known(ra, t);
                proof {
                    let tg1 = final(ctx).ty_graph();
                    crate::infer::lemma_chase_extend(tg0, tg1, a.idx as int);
                    crate::infer::lemma_chase_extend(tg0, tg1, b.idx as int);
                    assert(chase(tg1, ra.idx as int) == ra.idx as int);
                    assert(chase(tg1, rb.idx as int) == rb.idx as int);
                    assert(tg1 =~~= tg0.update(ra.idx as int, terminal(tg0, b.idx as int)));
                }
                Ok(())
            }
            (Some(t), None) => {
                proof {
                    assert(ty_payload_wf(
                        t,
                        tg0.len() as int,
                        ig0.len() as int,
                        sg0.len() as int,
                    ));
                }
                ctx.set_ty_known(rb, t);
                proof {
                    let tg1 = final(ctx).ty_graph();
                    crate::infer::lemma_chase_extend(tg0, tg1, a.idx as int);
                    crate::infer::lemma_chase_extend(tg0, tg1, b.idx as int);
                    assert(chase(tg1, ra.idx as int) == ra.idx as int);
                    assert(chase(tg1, rb.idx as int) == rb.idx as int);
                    assert(tg1 =~~= tg0.update(rb.idx as int, terminal(tg0, a.idx as int)));
                }
                Ok(())
            }
            (Some(x), Some(y)) => {
                let merged: Ty = match (x, y) {
                    (Ty::Any, y2) => y2,
                    (x2, Ty::Any) => x2,
                    (Ty::Bool, Ty::Bool) => Ty::Bool,
                    (Ty::Ref(p1), Ty::Ref(p2)) => {
                        if fuel == 0 {
                            return Err(UnifyError::DepthLimit);
                        }
                        proof {
                            assert(ty_payload_wf(
                                x,
                                tg0.len() as int,
                                ig0.len() as int,
                                sg0.len() as int,
                            ));
                            assert(ty_payload_wf(
                                y,
                                tg0.len() as int,
                                ig0.len() as int,
                                sg0.len() as int,
                            ));
                            crate::infer::lemma_chase_terminal(tg0, p1.idx as int);
                            crate::infer::lemma_chase_terminal(tg0, p2.idx as int);
                        }
                        match Ty::unify(ctx, p1, p2, fuel - 1) {
                            Ok(()) => {}
                            Err(e) => {
                                return Err(e);
                            }
                        }
                        Ty::Ref(p1)
                    }
                    (Ty::Int(r1), Ty::Int(r2)) => {
                        match IntTy::unify(ctx, r1, r2, fuel) {
                            Ok(()) => {}
                            Err(e) => {
                                return Err(e);
                            }
                        }
                        Ty::Int(r1)
                    }
                    (Ty::Struct(s1), Ty::Struct(s2)) => {
                        if fuel == 0 {
                            return Err(UnifyError::DepthLimit);
                        }
                        proof {
                            assert(ty_payload_wf(
                                x,
                                tg0.len() as int,
                                ig0.len() as int,
                                sg0.len() as int,
                            ));
                            assert(ty_payload_wf(
                                y,
                                tg0.len() as int,
                                ig0.len() as int,
                                sg0.len() as int,
                            ));
                            crate::infer::lemma_chase_terminal(sg0, s1.idx as int);
                            crate::infer::lemma_chase_terminal(sg0, s2.idx as int);
                        }
                        match StructTy::unify(ctx, s1, s2, fuel - 1) {
                            Ok(()) => {}
                            Err(e) => {
                                return Err(e);
                            }
                        }
                        Ty::Struct(s1)
                    }
                    _ => {
                        return Err(UnifyError::IncompatibleKinds);
                    }
                };
                let ghost tgm = ctx.ty_graph();
                ctx.set_ty_known(ra, merged);
                ctx.set_ty_known(rb, merged);
                proof {
                    let tg1 = final(ctx).ty_graph();
                    crate::infer::lemma_chase_extend(tg0, tg1, a.idx as int);
                    crate::infer::lemma_chase_extend(tg0, tg1, b.idx as int);
                    assert(chase(tg1, ra.idx as int) == ra.idx as int);
                    assert(chase(tg1, rb.idx as int) == rb.idx as int);
                    assert(forall|i: int|
                        0 <= i < tgm.len() && (#[trigger] tgm[i]) is Equal ==> tg1[i] == tgm[i]);
                    assert forall|i: int|
                        0 <= i < tgm.len() && (#[trigger] tgm[i]) is Known implies tg1[i] is Known by {
                        if i != ra.idx as int && i != rb.idx as int {
                            assert(tg1[i] == tgm[i]);
                        }
                    }
                    if x is Ref && y is Ref {
                        assert(ty_payload_wf(
                            x,
                            tg0.len() as int,
                            ig0.len() as int,
                            sg0.len() as int,
                        ));
                        assert(ty_payload_wf(
                            y,
                            tg0.len() as int,
                            ig0.len() as int,
                            sg0.len() as int,
                        ));
                        crate::infer::lemma_joined_persists(
                            tgm,
                            tg1,
                            x->Ref_0.idx as int,
                            y->Ref_0.idx as int,
                        );
                    }
                    if x is Int && y is Int {
                        assert(tg1 =~~= tg0.update(
                            ra.idx as int,
                            NodeV::Known { ty: x, args: Seq::<int>::empty() },
                        ).update(
                            rb.idx as int,
                            NodeV::Known { ty: x, args: Seq::<int>::empty() },
                        ));
                    }
                }
                Ok(())
            }
        }
    }
}

/// The union of two rows of required fields: all of `af`, then those fields
/// of `bf` whose names `af` does not already require.
pub open spec fn union_fields(af: Seq<FieldV>, bf: Seq<FieldV>) -> Seq<FieldV>
    decreases bf.len(),
{
    if bf.len() == 0 {
        af
    } else {
        union_fields(
            if has_name(af, bf[0].name) {
                af
            } else {
                af.push(bf[0])
            },
            bf.subrange(1, bf.len() as int),
        )
    }
}

impl StructTy {
    /// Assert that two struct nodes have equal type.
    ///
    /// Two declared structs must have the same name (`StructNameMismatch`
    /// otherwise); a declared struct absorbs a row of required fields by
    /// unifying each required field's type with the declared field of the
    /// same name (`MissingField` if the struct has no such field); two rows
    /// merge into the union of their fields, unifying the types of the names
    /// they share.
    #[verifier::loop_isolation(false)]
    pub fn unify(ctx: &mut TyCtx, a: StructTyRef, b: StructTyRef, fuel: u64) -> (res: Result<
        (),
        UnifyError,
    >)
        requires
            old(ctx).wf(),
            a.idx < old(ctx).struct_graph().len(),
            b.idx < old(ctx).struct_graph().len(),
        ensures
            final(ctx).wf(),
            old(ctx).ty_graph().len() <= final(ctx).ty_graph().len(),
            old(ctx).int_graph().len() <= final(ctx).int_graph().len(),
            old(ctx).struct_graph().len() <= final(ctx).struct_graph().len(),
            forall|i: int|
                0 <= i < old(ctx).ty_graph().len() && (#[trigger] old(ctx).ty_graph()[i]) is Equal
                    ==> final(ctx).ty_graph()[i] == old(ctx).ty_graph()[i],
            forall|i: int|
                0 <= i < old(ctx).ty_graph().len() && (#[trigger] old(ctx).ty_graph()[i]) is Known
                    ==> final(ctx).ty_graph()[i] is Known,
            forall|i: int|
                0 <= i < old(ctx).int_graph().len() && (#[trigger] old(ctx).int_graph()[i]) is Equal
                    ==> final(ctx).int_graph()[i] == old(ctx).int_graph()[i],
            forall|i: int|
                0 <= i < old(ctx).int_graph().len() && (#[trigger] old(ctx).int_graph()[i]) is Known
                    ==> final(ctx).int_graph()[i] is Known,
            forall|i: int|
                0 <= i < old(ctx).struct_graph().len() && (#[trigger] old(ctx).struct_graph()[i]) is Equal ==> final(ctx).struct_graph()[i] == old(ctx).struct_graph()[i],
            forall|i: int|
                0 <= i < old(ctx).struct_graph().len() && (#[trigger] old(ctx).struct_graph()[i]) is Known ==> final(ctx).struct_graph()[i] is Known,
            chase(old(ctx).struct_graph(), a.idx as int) == chase(
                old(ctx).struct_graph(),
                b.idx as int,
            ) ==> res is Ok && final(ctx).ty_graph() == old(ctx).ty_graph() && final(ctx).int_graph() == old(ctx).int_graph() && final(ctx).struct_graph() == old(ctx).struct_graph(),
            res is Ok ==> terminal(final(ctx).struct_graph(), a.idx as int) == terminal(
                final(ctx).struct_graph(),
                b.idx as int,
            ),
            res is Ok ==> crate::infer::joined(
                final(ctx).struct_graph(),
                a.idx as int,
                b.idx as int,
            ),
            (chase(old(ctx).struct_graph(), a.idx as int) != chase(
                old(ctx).struct_graph(),
                b.idx as int,
            ) && terminal(old(ctx).struct_graph(), a.idx as int) is Any && terminal(
                old(ctx).struct_graph(),
                b.idx as int,
            ) is Any) ==> (res is Ok && final(ctx).struct_graph() == old(ctx).struct_graph().push(NodeV::Any).update(
                chase(old(ctx).struct_graph(), a.idx as int),
                NodeV::Equal(old(ctx).struct_graph().len() as int),
            ).update(
                chase(old(ctx).struct_graph(), b.idx as int),
                NodeV::Equal(old(ctx).struct_graph().len() as int),
            ) && final(ctx).ty_graph() == old(ctx).ty_graph() && final(ctx).int_graph() == old(ctx).int_graph()),
            (chase(old(ctx).struct_graph(), a.idx as int) != chase(
                old(ctx).struct_graph(),
                b.idx as int,
            ) && terminal(old(ctx).struct_graph(), a.idx as int) is Any && terminal(
                old(ctx).struct_graph(),
                b.idx as int,
            ) is Known) ==> (res is Ok && final(ctx).struct_graph() == old(ctx).struct_graph().update(
                chase(old(ctx).struct_graph(), a.idx as int),
                terminal(old(ctx).struct_graph(), b.idx as int),
            ) && final(ctx).ty_graph() == old(ctx).ty_graph() && final(ctx).int_graph() == old(ctx).int_graph()),
            (chase(old(ctx).struct_graph(), a.idx as int) != chase(
                old(ctx).struct_graph(),
                b.idx as int,
            ) && terminal(old(ctx).struct_graph(), a.idx as int) is Known && terminal(
                old(ctx).struct_graph(),
                b.idx as int,
            ) is Any) ==> (res is Ok && final(ctx).struct_graph() == old(ctx).struct_graph().update(
                chase(old(ctx).struct_graph(), b.idx as int),
                terminal(old(ctx).struct_graph(), a.idx as int),
            ) && final(ctx).ty_graph() == old(ctx).ty_graph() && final(ctx).int_graph() == old(ctx).int_graph()),
            (chase(old(ctx).struct_graph(), a.idx as int) != chase(
                old(ctx).struct_graph(),
                b.idx as int,
            ) && terminal(old(ctx).struct_graph(), a.idx as int) is Known && terminal(
                old(ctx).struct_graph(),
                b.idx as int,
            ) is Known) ==> (match (
                terminal(old(ctx).struct_graph(), a.idx as int)->Known_ty,
                terminal(old(ctx).struct_graph(), b.idx as int)->Known_ty,
            ) {
                (StructTyV::Known { name: n1, fields: f1 }, StructTyV::Known {
                    name: n2,
                    fields: f2,
                }) => {
                    &&& (n1 != n2 ==> res == Err::<(), UnifyError>(UnifyError::StructNameMismatch)
                        && final(ctx).ty_graph() == old(ctx).ty_graph() && final(ctx).int_graph()
                        == old(ctx).int_graph() && final(ctx).struct_graph() == old(ctx).struct_graph())
                    &&& (n1 == n2 ==> res is Ok && final(ctx).ty_graph() == old(ctx).ty_graph()
                        && final(ctx).int_graph() == old(ctx).int_graph() && final(ctx).struct_graph() == old(ctx).struct_graph().update(
                        chase(old(ctx).struct_graph(), a.idx as int),
                        NodeV::Known {
                            ty: terminal(old(ctx).struct_graph(), a.idx as int)->Known_ty,
                            args: Seq::<int>::empty(),
                        },
                    ).update(
                        chase(old(ctx).struct_graph(), b.idx as int),
                        NodeV::Known {
                            ty: terminal(old(ctx).struct_graph(), a.idx as int)->Known_ty,
                            args: Seq::<int>::empty(),
                        },
                    ))
                },
                (StructTyV::Known { name: n1, fields: f1 }, StructTyV::WithFields {
                    fields: req,
                }) => {
                    &&& (res is Ok ==> final(ctx).struct_graph()[chase(
                        old(ctx).struct_graph(),
                        a.idx as int,
                    )] == (NodeV::Known {
                        ty: terminal(old(ctx).struct_graph(), a.idx as int)->Known_ty,
                        args: Seq::<int>::empty(),
                    }) && final(ctx).struct_graph()[chase(old(ctx).struct_graph(), b.idx as int)]
                        == final(ctx).struct_graph()[chase(old(ctx).struct_graph(), a.idx as int)])
                    &&& (req.len() > 0 && !has_name(f1, req[0].name) ==> res == Err::<
                        (),
                        UnifyError,
                    >(UnifyError::MissingField))
                    &&& ((exists|k: int| 0 <= k < req.len() && !has_name(f1, (#[trigger] req[k]).name))
                        ==> res is Err)
                    &&& (fuel > 0 && (exists|k: int|
                        0 <= k < req.len() && !has_name(f1, (#[trigger] req[k]).name) && (forall|
                            k2: int,
                        |
                            0 <= k2 < k ==> has_name(f1, (#[trigger] req[k2]).name) && chase(
                                old(ctx).ty_graph(),
                                find_named(f1, req[k2].name).ty,
                            ) == chase(old(ctx).ty_graph(), req[k2].ty))) ==> res == Err::<
                        (),
                        UnifyError,
                    >(UnifyError::MissingField))
                    &&& (req.len() == 0 ==> res is Ok)
                    &&& (fuel > 0 && (forall|k: int|
                        0 <= k < req.len() ==> has_name(f1, (#[trigger] req[k]).name) && chase(
                            old(ctx).ty_graph(),
                            find_named(f1, req[k].name).ty,
                        ) == chase(old(ctx).ty_graph(), req[k].ty)) ==> res is Ok)
                    &&& (res is Ok ==> forall|k: int|
                        0 <= k < req.len() ==> has_name(f1, (#[trigger] req[k]).name)
                            && crate::infer::joined(
                            final(ctx).ty_graph(),
                            find_named(f1, req[k].name).ty,
                            req[k].ty,
                        ))
                },
                (StructTyV::WithFields { fields: req }, StructTyV::Known {
                    name: n2,
                    fields: f2,
                }) => {
                    &&& (res is Ok ==> final(ctx).struct_graph()[chase(
                        old(ctx).struct_graph(),
                        a.idx as int,
                    )] == (NodeV::Known {
                        ty: terminal(old(ctx).struct_graph(), b.idx as int)->Known_ty,
                        args: Seq::<int>::empty(),
                    }) && final(ctx).struct_graph()[chase(old(ctx).struct_graph(), b.idx as int)]
                        == final(ctx).struct_graph()[chase(old(ctx).struct_graph(), a.idx as int)])
                    &&& (req.len() > 0 && !has_name(f2, req[0].name) ==> res == Err::<
                        (),
                        UnifyError,
                    >(UnifyError::MissingField))
                    &&& ((exists|k: int| 0 <= k < req.len() && !has_name(f2, (#[trigger] req[k]).name))
                        ==> res is Err)
                    &&& (fuel > 0 && (exists|k: int|
                        0 <= k < req.len() && !has_name(f2, (#[trigger] req[k]).name) && (forall|
                            k2: int,
                        |
                            0 <= k2 < k ==> has_name(f2, (#[trigger] req[k2]).name) && chase(
                                old(ctx).ty_graph(),
                                find_named(f2, req[k2].name).ty,
                            ) == chase(old(ctx).ty_graph(), req[k2].ty))) ==> res == Err::<
                        (),
                        UnifyError,
                    >(UnifyError::MissingField))
                    &&& (req.len() == 0 ==> res is Ok)
                    &&& (fuel > 0 && (forall|k: int|
                        0 <= k < req.len() ==> has_name(f2, (#[trigger] req[k]).name) && chase(
                            old(ctx).ty_graph(),
                            find_named(f2, req[k].name).ty,
                        ) == chase(old(ctx).ty_graph(), req[k].ty)) ==> res is Ok)
                    &&& (res is Ok ==> forall|k: int|
                        0 <= k < req.len() ==> has_name(f2, (#[trigger] req[k]).name)
                            && crate::infer::joined(
                            final(ctx).ty_graph(),
                            find_named(f2, req[k].name).ty,
                            req[k].ty,
                        ))
                },
                (StructTyV::WithFields { fields: fa }, StructTyV::WithFields { fields: fb }) => {
                    &&& (res is Ok ==> final(ctx).struct_graph()[chase(
                        old(ctx).struct_graph(),
                        a.idx as int,
                    )] == (NodeV::Known {
                        ty: StructTyV::WithFields { fields: union_fields(fa, fb) },
                        args: Seq::<int>::empty(),
                    }) && final(ctx).struct_graph()[chase(old(ctx).struct_graph(), b.idx as int)]
                        == final(ctx).struct_graph()[chase(old(ctx).struct_graph(), a.idx as int)])
                    &&& ((forall|k: int| 0 <= k < fb.len() ==> !has_name(fa, (#[trigger] fb[k]).name))
                        ==> res is Ok)
                    &&& (fuel > 0 && (forall|k: int|
                        0 <= k < fb.len() ==> (has_name(fa, (#[trigger] fb[k]).name) ==> chase(
                            old(ctx).ty_graph(),
                            find_named(fa, fb[k].name).ty,
                        ) == chase(old(ctx).ty_graph(), fb[k].ty))) ==> res is Ok)
                    &&& (res is Ok ==> forall|k: int|
                        0 <= k < fb.len() && has_name(fa, (#[trigger] fb[k]).name)
                            ==> crate::infer::joined(
                            final(ctx).ty_graph(),
                            find_named(fa, fb[k].name).ty,
                            fb[k].ty,
                        ))
                },
            }),
        decreases fuel, 2int,
    {
        let ghost tg0 = ctx.ty_graph();
        let ghost ig0 = ctx.int_graph();
        let ghost sg0 = ctx.struct_graph();
        let ra = crate::infer::resolve(&ctx.structs, a);
        let rb = crate::infer::resolve(&ctx.structs, b);
        proof {
            crate::infer::lemma_chase_terminal(sg0, a.idx as int);
            crate::infer::lemma_chase_terminal(sg0, b.idx as int);
        }
        if ra.idx == rb.idx {
            return Ok(());
        }
        let sa = match crate::infer::dup_node(ctx.structs.get(ra)) {
            InferTy::Any => None,
            InferTy::Known { ty, .. } => Some(ty),
            InferTy::Equal(_) => unreached(),
        };
        let sb = match crate::infer::dup_node(ctx.structs.get(rb)) {
            InferTy::Any => None,
            InferTy::Known { ty, .. } => Some(ty),
            InferTy::Equal(_) => unreached(),
        };
        proof {
            assert(crate::infer::node_args_empty(sg0[ra.idx as int]));
            assert(crate::infer::node_args_empty(sg0[rb.idx as int]));
        }
        match (sa, sb) {
            (None, None) => {
                let f = ctx.struct_any();
                ctx.set_struct_alias(ra, f);
                ctx.set_struct_alias(rb, f);
                proof {
                    let sg1 = final(ctx).struct_graph();
                    crate::infer::lemma_chase_extend(sg0, sg1, a.idx as int);
                    crate::infer::lemma_chase_extend(sg0, sg1, b.idx as int);
                    assert(sg1[f.idx as int] == NodeV::<StructTyV>::Any);
                    assert(chase(sg1, f.idx as int) == f.idx as int);
                    assert(chase(sg1, ra.idx as int) == f.idx as int);
                    assert(chase(sg1, rb.idx as int) == f.idx as int);
                }
                Ok(())
            }
            (None, Some(s)) => {
                proof {
                    assert(struct_payload_wf(s@, tg0.len() as int));
                }
                ctx.set_struct_known(ra, s);
                proof {
                    let sg1 = final(ctx).struct_graph();
                    crate::infer::lemma_chase_extend(sg0, sg1, a.idx as int);
                    crate::infer::lemma_chase_extend(sg0, sg1, b.idx as int);
                    assert(chase(sg1, ra.idx as int) == ra.idx as int);
                    assert(chase(sg1, rb.idx as int) == rb.idx as int);
                    assert(final(ctx).struct_graph() =~~= sg0.update(
                        ra.idx as int,
                        terminal(sg0, b.idx as int),
                    ));
                }
                Ok(())
            }
            (Some(s), None) => {
                proof {
                    assert(struct_payload_wf(s@, tg0.len() as int));
                }
                ctx.set_struct_known(rb, s);
                proof {
                    let sg1 = final(ctx).struct_graph();
                    crate::infer::lemma_chase_extend(sg0, sg1, a.idx as int);
                    crate::infer::lemma_chase_extend(sg0, sg1, b.idx as int);
                    assert(chase(sg1, ra.idx as int) == ra.idx as int);
                    assert(chase(sg1, rb.idx as int) == rb.idx as int);
                    assert(final(ctx).struct_graph() =~~= sg0.update(
                        rb.idx as int,
                        terminal(sg0, a.idx as int),
                    ));
                }
                Ok(())
            }
            (Some(StructTy::Known(ka)), Some(StructTy::Known(kb))) => {
                if ka.name.0 != kb.name.0 {
                    return Err(UnifyError::StructNameMismatch);
                }
                let pa = StructTy::Known(ka);
                let pb = pa.duplicate();
                ctx.set_struct_known(ra, pa);
                ctx.set_struct_known(rb, pb);
                proof {
                    let sg1 = final(ctx).struct_graph();
                    crate::infer::lemma_chase_extend(sg0, sg1, a.idx as int);
                    crate::infer::lemma_chase_extend(sg0, sg1, b.idx as int);
                    assert(chase(sg1, ra.idx as int) == ra.idx as int);
                    assert(chase(sg1, rb.idx as int) == rb.idx as int);
                }
                Ok(())
            }
            (Some(StructTy::Known(ka)), Some(StructTy::WithFields(req))) => {
                match StructTy::unify_known_fields(ctx, &ka, &req, fuel) {
                    Ok(()) => {}
                    Err(e) => {
                        return Err(e);
                    }
                }
                let pa = StructTy::Known(ka);
                let pb = pa.duplicate();
                ctx.set_struct_known(ra, pa);
                ctx.set_struct_known(rb, pb);
                proof {
                    let sg1 = final(ctx).struct_graph();
                    crate::infer::lemma_chase_extend(sg0, sg1, a.idx as int);
                    crate::infer::lemma_chase_extend(sg0, sg1, b.idx as int);
                    assert(chase(sg1, ra.idx as int) == ra.idx as int);
                    assert(chase(sg1, rb.idx as int) == rb.idx as int);
                }
                Ok(())
            }
            (Some(StructTy::WithFields(req)), Some(StructTy::Known(kb))) => {
                match StructTy::unify_known_fields(ctx, &kb, &req, fuel) {
                    Ok(()) => {}
                    Err(e) => {
                        return Err(e);
                    }
                }
                let pb = StructTy::Known(kb);
                let pa = pb.duplicate();
                ctx.set_struct_known(ra, pa);
                ctx.set_struct_known(rb, pb);
                proof {
                    let sg1 = final(ctx).struct_graph();
                    crate::infer::lemma_chase_extend(sg0, sg1, a.idx as int);
                    crate::infer::lemma_chase_extend(sg0, sg1, b.idx as int);
                    assert(chase(sg1, ra.idx as int) == ra.idx as int);
                    assert(chase(sg1, rb.idx as int) == rb.idx as int);
                }
                Ok(())
            }
            (Some(StructTy::WithFields(fa)), Some(StructTy::WithFields(fb))) => {
                let merged = match StructTy::union_rows(ctx, fa, &fb, fuel) {
                    Ok(m) => m,
                    Err(e) => {
                        return Err(e);
                    }
                };
                let pa = StructTy::WithFields(merged);
                let pb = pa.duplicate();
                ctx.set_struct_known(ra, pa);
                ctx.set_struct_known(rb, pb);
                proof {
                    let sg1 = final(ctx).struct_graph();
                    crate::infer::lemma_chase_extend(sg0, sg1, a.idx as int);
                    crate::infer::lemma_chase_extend(sg0, sg1, b.idx as int);
                    assert(chase(sg1, ra.idx as int) == ra.idx as int);
                    assert(chase(sg1, rb.idx as int) == rb.idx as int);
                }
                Ok(())
            }
        }
    }

    /// Unify each required field's type with the declared field of the same
    /// name on `ks`, failing with `MissingField` where `ks` has no such
    /// field.
    #[verifier::loop_isolation(false)]
    fn unify_known_fields(
        ctx: &mut TyCtx,
        ks: &KnownStruct<TyRef>,
        req: &Vec<Field<TyRef>>,
        fuel: u64,
    ) -> (res: Result<(), UnifyError>)
        requires
            old(ctx).wf(),
            fields_wf(field_views(ks.fields@), old(ctx).ty_graph().len() as int),
            fields_wf(field_views(req@), old(ctx).ty_graph().len() as int),
        ensures
            final(ctx).wf(),
            old(ctx).ty_graph().len() <= final(ctx).ty_graph().len(),
            old(ctx).int_graph().len() <= final(ctx).int_graph().len(),
            old(ctx).struct_graph().len() <= final(ctx).struct_graph().len(),
            forall|i: int|
                0 <= i < old(ctx).ty_graph().len() && (#[trigger] old(ctx).ty_graph()[i]) is Equal
                    ==> final(ctx).ty_graph()[i] == old(ctx).ty_graph()[i],
            forall|i: int|
                0 <= i < old(ctx).ty_graph().len() && (#[trigger] old(ctx).ty_graph()[i]) is Known
                    ==> final(ctx).ty_graph()[i] is Known,
            forall|i: int|
                0 <= i < old(ctx).int_graph().len() && (#[trigger] old(ctx).int_graph()[i]) is Equal
                    ==> final(ctx).int_graph()[i] == old(ctx).int_graph()[i],
            forall|i: int|
                0 <= i < old(ctx).int_graph().len() && (#[trigger] old(ctx).int_graph()[i]) is Known
                    ==> final(ctx).int_graph()[i] is Known,
            forall|i: int|
                0 <= i < old(ctx).struct_graph().len() && (#[trigger] old(ctx).struct_graph()[i]) is Equal ==> final(ctx).struct_graph()[i] == old(ctx).struct_graph()[i],
            forall|i: int|
                0 <= i < old(ctx).struct_graph().len() && (#[trigger] old(ctx).struct_graph()[i]) is Known ==> final(ctx).struct_graph()[i] is Known,
            (req@.len() > 0 && !has_name(field_views(ks.fields@), field_views(req@)[0].name))
                ==> res == Err::<(), UnifyError>(UnifyError::MissingField),
            (exists|k: int|
                0 <= k < req@.len() && !has_name(
                    field_views(ks.fields@),
                    (#[trigger] field_views(req@)[k]).name,
                )) ==> res is Err,
            req@.len() == 0 ==> res is Ok && final(ctx).ty_graph() == old(ctx).ty_graph() && final(ctx).int_graph() == old(ctx).int_graph() && final(ctx).struct_graph() == old(ctx).struct_graph(),
            (fuel > 0 && forall|k: int|
                0 <= k < req@.len() ==> has_name(
                    field_views(ks.fields@),
                    (#[trigger] field_views(req@)[k]).name,
                ) && chase(
                    old(ctx).ty_graph(),
                    find_named(field_views(ks.fields@), field_views(req@)[k].name).ty,
                ) == chase(old(ctx).ty_graph(), field_views(req@)[k].ty)) ==> res is Ok && final(ctx).ty_graph() == old(ctx).ty_graph() && final(ctx).int_graph() == old(ctx).int_graph()
                && final(ctx).struct_graph() == old(ctx).struct_graph(),
            (fuel > 0 && exists|k: int|
                0 <= k < req@.len() && !has_name(
                    field_views(ks.fields@),
                    (#[trigger] field_views(req@)[k]).name,
                ) && (forall|k2: int|
                    0 <= k2 < k ==> has_name(
                        field_views(ks.fields@),
                        (#[trigger] field_views(req@)[k2]).name,
                    ) && chase(
                        old(ctx).ty_graph(),
                        find_named(field_views(ks.fields@), field_views(req@)[k2].name).ty,
                    ) == chase(old(ctx).ty_graph(), field_views(req@)[k2].ty))) ==> res == Err::<
                (),
                UnifyError,
            >(UnifyError::MissingField),
            res is Ok ==> forall|k: int|
                0 <= k < req@.len() ==> has_name(
                    field_views(ks.fields@),
                    (#[trigger] field_views(req@)[k]).name,
                ) && crate::infer::joined(
                    final(ctx).ty_graph(),
                    find_named(field_views(ks.fields@), field_views(req@)[k].name).ty,
                    field_views(req@)[k].ty,
                ),
        decreases fuel, 1int,
    {
        let ghost f1v = field_views(ks.fields@);
        let ghost reqv = field_views(req@);
        let mut j: usize = 0;
        while j < req.len()
            invariant
                ctx.wf(),
                j <= req@.len(),
                old(ctx).ty_graph().len() <= ctx.ty_graph().len(),
                old(ctx).int_graph().len() <= ctx.int_graph().len(),
                old(ctx).struct_graph().len() <= ctx.struct_graph().len(),
                forall|i: int|
                    0 <= i < old(ctx).ty_graph().len() && (#[trigger] old(ctx).ty_graph()[i]) is Equal ==> ctx.ty_graph()[i] == old(ctx).ty_graph()[i],
                forall|i: int|
                    0 <= i < old(ctx).ty_graph().len() && (#[trigger] old(ctx).ty_graph()[i]) is Known ==> ctx.ty_graph()[i] is Known,
                forall|i: int|
                    0 <= i < old(ctx).int_graph().len() && (#[trigger] old(ctx).int_graph()[i]) is Equal ==> ctx.int_graph()[i] == old(ctx).int_graph()[i],
                forall|i: int|
                    0 <= i < old(ctx).int_graph().len() && (#[trigger] old(ctx).int_graph()[i]) is Known ==> ctx.int_graph()[i] is Known,
                forall|i: int|
                    0 <= i < old(ctx).struct_graph().len() && (#[trigger] old(ctx).struct_graph()[i]) is Equal ==> ctx.struct_graph()[i] == old(ctx).struct_graph()[i],
                forall|i: int|
                    0 <= i < old(ctx).struct_graph().len() && (#[trigger] old(ctx).struct_graph()[i]) is Known ==> ctx.struct_graph()[i] is Known,
                (fuel > 0 && forall|k: int|
                    0 <= k < reqv.len() ==> has_name(f1v, (#[trigger] reqv[k]).name) && chase(
                        old(ctx).ty_graph(),
                        find_named(f1v, reqv[k].name).ty,
                    ) == chase(old(ctx).ty_graph(), reqv[k].ty)) ==> ctx.ty_graph() == old(ctx).ty_graph() && ctx.int_graph() == old(ctx).int_graph() && ctx.struct_graph()
                    == old(ctx).struct_graph(),
                reqv.len() == 0 ==> ctx.ty_graph() == old(ctx).ty_graph() && ctx.int_graph()
                    == old(ctx).int_graph() && ctx.struct_graph() == old(ctx).struct_graph(),
                (fuel > 0 && exists|k: int|
                    0 <= k < reqv.len() && !has_name(f1v, (#[trigger] reqv[k]).name) && (forall|
                        k2: int,
                    |
                        0 <= k2 < k ==> has_name(f1v, (#[trigger] reqv[k2]).name) && chase(
                            old(ctx).ty_graph(),
                            find_named(f1v, reqv[k2].name).ty,
                        ) == chase(old(ctx).ty_graph(), reqv[k2].ty))) ==> ctx.ty_graph() == old(ctx).ty_graph() && ctx.int_graph() == old(ctx).int_graph() && ctx.struct_graph()
                    == old(ctx).struct_graph(),
                forall|k: int|
                    0 <= k < j ==> has_name(f1v, (#[trigger] reqv[k]).name) && 0 <= find_named(
                        f1v,
                        reqv[k].name,
                    ).ty < old(ctx).ty_graph().len() && 0 <= reqv[k].ty < old(ctx).ty_graph().len() && crate::infer::joined(
                        ctx.ty_graph(),
                        find_named(f1v, reqv[k].name).ty,
                        reqv[k].ty,
                    ),
            decreases req@.len() - j,
        {
            let name = req[j].name;
            proof {
                assert(reqv[j as int].name == name);
            }
            match find_in_fields(&ks.fields, name) {
                Some(idx) => {
                    if fuel == 0 {
                        return Err(UnifyError::DepthLimit);
                    }
                    let ghost gpre = ctx.ty_graph();
                    proof {
                        assert(f1v[idx as int].ty == ks.fields@[idx as int].ty.idx as int);
                        assert(reqv[j as int].ty == req@[j as int].ty.idx as int);
                        assert(find_named(f1v, name) == f1v[idx as int]);
                        assert(0 <= f1v[idx as int].ty < old(ctx).ty_graph().len());
                        if fuel > 0 && exists|k: int|
                            0 <= k < reqv.len() && !has_name(f1v, (#[trigger] reqv[k]).name) && (
                            forall|k2: int|
                                0 <= k2 < k ==> has_name(f1v, (#[trigger] reqv[k2]).name) && chase(
                                    old(ctx).ty_graph(),
                                    find_named(f1v, reqv[k2].name).ty,
                                ) == chase(old(ctx).ty_graph(), reqv[k2].ty)) {
                            let kw = choose|k: int|
                                0 <= k < reqv.len() && !has_name(f1v, (#[trigger] reqv[k]).name)
                                    && (forall|k2: int|
                                    0 <= k2 < k ==> has_name(f1v, (#[trigger] reqv[k2]).name)
                                        && chase(
                                        old(ctx).ty_graph(),
                                        find_named(f1v, reqv[k2].name).ty,
                                    ) == chase(old(ctx).ty_graph(), reqv[k2].ty));
                            assert(j <= kw);
                            assert(has_name(f1v, reqv[j as int].name));
                            assert(j < kw);
                            assert(chase(old(ctx).ty_graph(), find_named(f1v, name).ty) == chase(
                                old(ctx).ty_graph(),
                                reqv[j as int].ty,
                            ));
                        }
                    }
                    match Ty::unify(ctx, ks.fields[idx].ty, req[j].ty, fuel - 1) {
                        Ok(()) => {}
                        Err(e) => {
                            return Err(e);
                        }
                    }
                    proof {
                        assert forall|k: int| 0 <= k < j + 1 implies has_name(
                            f1v,
                            (#[trigger] reqv[k]).name,
                        ) && 0 <= find_named(f1v, reqv[k].name).ty < old(ctx).ty_graph().len() && 0
                            <= reqv[k].ty < old(ctx).ty_graph().len() && crate::infer::joined(
                            ctx.ty_graph(),
                            find_named(f1v, reqv[k].name).ty,
                            reqv[k].ty,
                        ) by {
                            if k < j {
                                crate::infer::lemma_joined_persists(
                                    gpre,
                                    ctx.ty_graph(),
                                    find_named(f1v, reqv[k].name).ty,
                                    reqv[k].ty,
                                );
                            }
                        }
                    }
                }
                None => {
                    return Err(UnifyError::MissingField);
                }
            }
            j += 1;
        }
        Ok(())
    }

    /// Merge one row of required fields into another: unify the types of the
    /// names both rows share, and adopt the fields only `other` requires.
    #[verifier::loop_isolation(false)]
    fn union_rows(ctx: &mut TyCtx, base: Vec<Field<TyRef>>, other: &Vec<Field<TyRef>>, fuel: u64) -> (res:
        Result<Vec<Field<TyRef>>, UnifyError>)
        requires
            old(ctx).wf(),
            fields_wf(field_views(base@), old(ctx).ty_graph().len() as int),
            unique_names(field_views(base@)),
            fields_wf(field_views(other@), old(ctx).ty_graph().len() as int),
            unique_names(field_views(other@)),
        ensures
            final(ctx).wf(),
            old(ctx).ty_graph().len() <= final(ctx).ty_graph().len(),
            old(ctx).int_graph().len() <= final(ctx).int_graph().len(),
            old(ctx).struct_graph().len() <= final(ctx).struct_graph().len(),
            forall|i: int|
                0 <= i < old(ctx).ty_graph().len() && (#[trigger] old(ctx).ty_graph()[i]) is Equal
                    ==> final(ctx).ty_graph()[i] == old(ctx).ty_graph()[i],
            forall|i: int|
                0 <= i < old(ctx).ty_graph().len() && (#[trigger] old(ctx).ty_graph()[i]) is Known
                    ==> final(ctx).ty_graph()[i] is Known,
            forall|i: int|
                0 <= i < old(ctx).int_graph().len() && (#[trigger] old(ctx).int_graph()[i]) is Equal
                    ==> final(ctx).int_graph()[i] == old(ctx).int_graph()[i],
            forall|i: int|
                0 <= i < old(ctx).int_graph().len() && (#[trigger] old(ctx).int_graph()[i]) is Known
                    ==> final(ctx).int_graph()[i] is Known,
            forall|i: int|
                0 <= i < old(ctx).struct_graph().len() && (#[trigger] old(ctx).struct_graph()[i]) is Equal ==> final(ctx).struct_graph()[i] == old(ctx).struct_graph()[i],
            forall|i: int|
                0 <= i < old(ctx).struct_graph().len() && (#[trigger] old(ctx).struct_graph()[i]) is Known ==> final(ctx).struct_graph()[i] is Known,
            res matches Ok(m) ==> field_views(m@) == union_fields(
                field_views(base@),
                field_views(other@),
            ) && fields_wf(field_views(m@), final(ctx).ty_graph().len() as int) && unique_names(
                field_views(m@),
            ),
            (forall|k: int|
                0 <= k < field_views(other@).len() ==> !has_name(
                    field_views(base@),
                    (#[trigger] field_views(other@)[k]).name,
                )) ==> res is Ok && final(ctx).ty_graph() == old(ctx).ty_graph() && final(ctx).int_graph() == old(ctx).int_graph() && final(ctx).struct_graph() == old(ctx).struct_graph(),
            (fuel > 0 && forall|k: int|
                0 <= k < field_views(other@).len() ==> (has_name(
                    field_views(base@),
                    (#[trigger] field_views(other@)[k]).name,
                ) ==> chase(
                    old(ctx).ty_graph(),
                    find_named(field_views(base@), field_views(other@)[k].name).ty,
                ) == chase(old(ctx).ty_graph(), field_views(other@)[k].ty))) ==> res is Ok && final(ctx).ty_graph() == old(ctx).ty_graph() && final(ctx).int_graph() == old(ctx).int_graph()
                && final(ctx).struct_graph() == old(ctx).struct_graph(),
            res is Ok ==> forall|k: int|
                0 <= k < field_views(other@).len() && has_name(
                    field_views(base@),
                    (#[trigger] field_views(other@)[k]).name,
                ) ==> crate::infer::joined(
                    final(ctx).ty_graph(),
                    find_named(field_views(base@), field_views(other@)[k].name).ty,
                    field_views(other@)[k].ty,
                ),
        decreases fuel, 1int,
    {
        let mut merged = base;
        let ghost fva = field_views(merged@);
        let ghost fvb = field_views(other@);
        let mut j: usize = 0;
        proof {
            assert(fvb.subrange(0, fvb.len() as int) =~= fvb);
        }
        while j < other.len()
            invariant
                ctx.wf(),
                j <= other@.len(),
                old(ctx).ty_graph().len() <= ctx.ty_graph().len(),
                old(ctx).int_graph().len() <= ctx.int_graph().len(),
                old(ctx).struct_graph().len() <= ctx.struct_graph().len(),
                forall|i: int|
                    0 <= i < old(ctx).ty_graph().len() && (#[trigger] old(ctx).ty_graph()[i]) is Equal ==> ctx.ty_graph()[i] == old(ctx).ty_graph()[i],
                forall|i: int|
                    0 <= i < old(ctx).ty_graph().len() && (#[trigger] old(ctx).ty_graph()[i]) is Known ==> ctx.ty_graph()[i] is Known,
                forall|i: int|
                    0 <= i < old(ctx).int_graph().len() && (#[trigger] old(ctx).int_graph()[i]) is Equal ==> ctx.int_graph()[i] == old(ctx).int_graph()[i],
                forall|i: int|
                    0 <= i < old(ctx).int_graph().len() && (#[trigger] old(ctx).int_graph()[i]) is Known ==> ctx.int_graph()[i] is Known,
                forall|i: int|
                    0 <= i < old(ctx).struct_graph().len() && (#[trigger] old(ctx).struct_graph()[i]) is Equal ==> ctx.struct_graph()[i] == old(ctx).struct_graph()[i],
                forall|i: int|
                    0 <= i < old(ctx).struct_graph().len() && (#[trigger] old(ctx).struct_graph()[i]) is Known ==> ctx.struct_graph()[i] is Known,
                fields_wf(field_views(merged@), ctx.ty_graph().len() as int),
                unique_names(field_views(merged@)),
                union_fields(field_views(merged@), fvb.subrange(j as int, fvb.len() as int))
                    == union_fields(fva, fvb),
                fva.len() <= field_views(merged@).len(),
                field_views(merged@).subrange(0, fva.len() as int) == fva,
                forall|p: int|
                    fva.len() <= p < field_views(merged@).len() ==> exists|k2: int|
                        0 <= k2 < j && (#[trigger] field_views(merged@)[p]).name == fvb[k2].name,
                (forall|k: int| 0 <= k < fvb.len() ==> !has_name(fva, (#[trigger] fvb[k]).name))
                    ==> ctx.ty_graph() == old(ctx).ty_graph() && ctx.int_graph() == old(ctx).int_graph() && ctx.struct_graph() == old(ctx).struct_graph(),
                (fuel > 0 && forall|k: int|
                    0 <= k < fvb.len() ==> (has_name(fva, (#[trigger] fvb[k]).name) ==> chase(
                        old(ctx).ty_graph(),
                        find_named(fva, fvb[k].name).ty,
                    ) == chase(old(ctx).ty_graph(), fvb[k].ty))) ==> ctx.ty_graph() == old(ctx).ty_graph() && ctx.int_graph() == old(ctx).int_graph() && ctx.struct_graph()
                    == old(ctx).struct_graph(),
                forall|k2: int|
                    0 <= k2 < j && has_name(fva, (#[trigger] fvb[k2]).name)
                        ==> crate::infer::joined(
                        ctx.ty_graph(),
                        find_named(fva, fvb[k2].name).ty,
                        fvb[k2].ty,
                    ),
            decreases other@.len() - j,
        {
            let ghost fvm = field_views(merged@);
            let ghost rest = fvb.subrange(j as int, fvb.len() as int);
            proof {
                assert(rest[0] == fvb[j as int]);
                assert(rest.subrange(1, rest.len() as int) =~= fvb.subrange(
                    j as int + 1,
                    fvb.len() as int,
                ));
                assert(field_views(other@)[j as int].name == other@[j as int].name);
                assert(field_views(other@)[j as int].ty == other@[j as int].ty.idx as int);
            }
            match find_in_fields(&merged, other[j].name) {
                Some(idx) => {
                    if fuel == 0 {
                        return Err(UnifyError::DepthLimit);
                    }
                    let ghost gpre = ctx.ty_graph();
                    proof {
                        assert(has_name(fvm, fvb[j as int].name));
                        assert(fvm[idx as int].ty == merged@[idx as int].ty.idx as int);
                        // A match beyond the stable `fva` prefix would be a
                        // field adopted from an earlier element of `fvb`,
                        // whose names are pairwise distinct: impossible.
                        if idx >= fva.len() {
                            assert(exists|k2: int|
                                0 <= k2 < j && (#[trigger] fvm[idx as int]).name == fvb[k2].name);
                            assert(false);
                        }
                        assert(fvm[idx as int] == fvm.subrange(0, fva.len() as int)[idx as int]);
                        assert(fvm[idx as int] == fva[idx as int]);
                        assert forall|q: int| 0 <= q < idx implies (#[trigger] fva[q]).name
                            != fvb[j as int].name by {
                            assert(fva[q] == fvm.subrange(0, fva.len() as int)[q]);
                            assert(fvm[q].name != fvb[j as int].name);
                        }
                        lemma_find_named(fva, fvb[j as int].name, idx as int);
                        assert(has_name(fva, fvb[j as int].name));
                        assert(find_named(fva, fvb[j as int].name) == fva[idx as int]);
                        assert(0 <= fva[idx as int].ty < old(ctx).ty_graph().len());
                    }
                    match Ty::unify(ctx, merged[idx].ty, other[j].ty, fuel - 1) {
                        Ok(()) => {}
                        Err(e) => {
                            return Err(e);
                        }
                    }
                    proof {
                        assert forall|k2: int|
                            0 <= k2 < j + 1 && has_name(
                                fva,
                                (#[trigger] fvb[k2]).name,
                            ) implies crate::infer::joined(
                            ctx.ty_graph(),
                            find_named(fva, fvb[k2].name).ty,
                            fvb[k2].ty,
                        ) by {
                            if k2 < j {
                                assert(0 <= find_named(fva, fvb[k2].name).ty < gpre.len()) by {
                                    lemma_find_named_in_bounds(fva, fvb[k2].name);
                                    assert(fields_wf(fva, old(ctx).ty_graph().len() as int));
                                }
                                crate::infer::lemma_joined_persists(
                                    gpre,
                                    ctx.ty_graph(),
                                    find_named(fva, fvb[k2].name).ty,
                                    fvb[k2].ty,
                                );
                            }
                        }
                    }
                }
                None => {
                    proof {
                        assert(!has_name(fvm, fvb[j as int].name));
                        assert forall|n2: Symbol| has_name(fva, n2) implies has_name(fvm, n2) by {
                            let q = choose|q: int|
                                0 <= q < fva.len() && (#[trigger] fva[q]).name == n2;
                            assert(fvm.subrange(0, fva.len() as int)[q] == fvm[q]);
                            assert(fvm[q].name == n2);
                        }
                    }
                    merged.push(other[j]);
                    proof {
                        assert(field_views(merged@) =~= fvm.push(fvb[j as int]));
                        assert(field_views(merged@).subrange(0, fva.len() as int) =~= fvm.subrange(
                            0,
                            fva.len() as int,
                        ));
                        assert forall|p: int|
                            fva.len() <= p < field_views(merged@).len() implies exists|k2: int|
                            0 <= k2 < j + 1 && (#[trigger] field_views(merged@)[p]).name
                                == fvb[k2].name by {
                            if p < fvm.len() {
                                assert(exists|k2: int|
                                    0 <= k2 < j && (#[trigger] fvm[p]).name == fvb[k2].name);
                            } else {
                                assert(field_views(merged@)[p].name == fvb[j as int].name);
                            }
                        }
                        assert forall|p: int, q: int|
                            0 <= p < q < field_views(merged@).len() implies (#[trigger] field_views(
                            merged@,
                        )[p]).name != (#[trigger] field_views(merged@)[q]).name by {
                            if q < fvm.len() {
                            } else {
                                assert(field_views(merged@)[q] == fvb[j as int]);
                                if field_views(merged@)[p].name == fvb[j as int].name {
                                    assert(has_name(fvm, fvb[j as int].name));
                                }
                            }
                        }
                    }
                }
            }
            j += 1;
        }
        proof {
            assert(fvb.subrange(other@.len() as int, fvb.len() as int) =~= Seq::<FieldV>::empty());
            assert(union_fields(field_views(merged@), Seq::<FieldV>::empty()) == field_views(
                merged@,
            ));
        }
        Ok(merged)
    }
}

/// The default integer type: what an integer that no constraint ever fixed
/// concretizes to.
pub open spec fn default_int() -> Int {
    Int { signedness: Signedness::Signed, size: Size::B32 }
}

/// The mathematical shape of one field of a fully resolved struct.
#[verifier::ext_equal]
pub struct CFieldV {
    pub name: Symbol,
    pub ty: ConcreteTyV,
}

/// The mathematical shape of a fully resolved type.
#[verifier::ext_equal]
pub enum ConcreteTyV {
    Bool,
    Ref(Box<ConcreteTyV>),
    Int(Int),
    Struct { name: Symbol, fields: Seq<CFieldV> },
}

/// The shape of a fully resolved type value.
pub open spec fn concrete_ty_view(c: ConcreteTy) -> ConcreteTyV
    decreases c,
{
    match c {
        ConcreteTy::Bool => ConcreteTyV::Bool,
        ConcreteTy::Ref(p) => ConcreteTyV::Ref(Box::new(concrete_ty_view(*p))),
        ConcreteTy::Int(i) => ConcreteTyV::Int(i),
        ConcreteTy::Struct(ks) => ConcreteTyV::Struct {
            name: ks.name,
            fields: concrete_fields_view(ks.fields@),
        },
    }
}

/// The shapes of a list of fully resolved fields.
pub open spec fn concrete_fields_view(fs: Seq<Field<ConcreteTy>>) -> Seq<CFieldV>
    decreases fs,
{
    if fs.len() == 0 {
        Seq::<CFieldV>::empty()
    } else {
        concrete_fields_view(fs.subrange(0, fs.len() - 1)).push(
            CFieldV {
                name: fs[fs.len() - 1].name,
                ty: concrete_ty_view(fs[fs.len() - 1].ty),
            },
        )
    }
}

/// What concretizing a type node yields: follow the node to its terminal and
/// resolve the payload, recursing into child nodes. `None` where the node, or
/// a node it depends on, was never pinned down (or where `fuel` runs out on a
/// cyclic or pathologically deep type).
pub open spec fn spec_concrete_node(
    tg: Seq<NodeV<Ty>>,
    ig: Seq<NodeV<IntTy>>,
    sg: Seq<NodeV<StructTyV>>,
    i: int,
    fuel: nat,
) -> Option<ConcreteTyV>
    decreases fuel, 1int, 0int,
{
    match terminal(tg, i) {
        NodeV::Known { ty, args } => spec_concrete_payload(tg, ig, sg, ty, fuel),
        _ => Option::<ConcreteTyV>::None,
    }
}

/// What concretizing a resolved type payload yields.
pub open spec fn spec_concrete_payload(
    tg: Seq<NodeV<Ty>>,
    ig: Seq<NodeV<IntTy>>,
    sg: Seq<NodeV<StructTyV>>,
    t: Ty,
    fuel: nat,
) -> Option<ConcreteTyV>
    decreases fuel, 0int, 0int,
{
    match t {
        Ty::Bool => Some(ConcreteTyV::Bool),
        Ty::Any => Option::<ConcreteTyV>::None,
        Ty::Ref(p) => if fuel == 0 {
            Option::<ConcreteTyV>::None
        } else {
            match spec_concrete_node(tg, ig, sg, p.idx as int, (fuel - 1) as nat) {
                Some(c) => Some(ConcreteTyV::Ref(Box::new(c))),
                Option::<ConcreteTyV>::None => Option::<ConcreteTyV>::None,
            }
        },
        Ty::Int(r) => match terminal_payload(ig, r.idx as int) {
            Some(IntTy::Int(i)) => Some(ConcreteTyV::Int(i)),
            Some(IntTy::Any) => Some(ConcreteTyV::Int(default_int())),
            Option::<IntTy>::None => Option::<ConcreteTyV>::None,
        },
        Ty::Struct(r) => match terminal_payload(sg, r.idx as int) {
            Some(StructTyV::Known { name, fields }) => if fuel == 0 {
                Option::<ConcreteTyV>::None
            } else {
                match spec_concrete_fields(tg, ig, sg, fields, (fuel - 1) as nat) {
                    Some(fs) => Some(ConcreteTyV::Struct { name, fields: fs }),
                    Option::<Seq<CFieldV>>::None => Option::<ConcreteTyV>::None,
                }
            },
            _ => Option::<ConcreteTyV>::None,
        },
    }
}

/// What concretizing each field of a struct payload yields, in order; `None`
/// if any field fails.
pub open spec fn spec_concrete_fields(
    tg: Seq<NodeV<Ty>>,
    ig: Seq<NodeV<IntTy>>,
    sg: Seq<NodeV<StructTyV>>,
    fs: Seq<FieldV>,
    fuel: nat,
) -> Option<Seq<CFieldV>>
    decreases fuel, 2int, fs.len(),
{
    if fs.len() == 0 {
        Some(Seq::<CFieldV>::empty())
    } else {
        match (
            spec_concrete_fields(tg, ig, sg, fs.subrange(0, fs.len() - 1), fuel),
            spec_concrete_node(tg, ig, sg, fs[fs.len() - 1].ty, fuel),
        ) {
            (Some(rest), Some(c)) => Some(
                rest.push(CFieldV { name: fs[fs.len() - 1].name, ty: c }),
            ),
            _ => Option::<Seq<CFieldV>>::None,
        }
    }
}

impl TyCtx {
    /// Resolve a type node to a fully concrete type, with `UnresolvedError`
    /// where inference never pinned the node (or a node it depends on) down.
    ///
    /// `fuel` bounds the recursion into child nodes; it does not limit how
    /// long an alias chain may be followed.
    pub fn concretize(&self, r: TyRef, fuel: u64) -> (res: Result<ConcreteTy, UnresolvedError>)
        requires
            self.wf(),
            r.idx < self.ty_graph().len(),
        ensures
            (match res {
                Ok(c) => spec_concrete_node(
                    self.ty_graph(),
                    self.int_graph(),
                    self.struct_graph(),
                    r.idx as int,
                    fuel as nat,
                ) == Some(concrete_ty_view(c)),
                Err(e) => spec_concrete_node(
                    self.ty_graph(),
                    self.int_graph(),
                    self.struct_graph(),
                    r.idx as int,
                    fuel as nat,
                ) is None,
            }),
        decreases fuel, 1int, 0int,
    {
        let t = crate::infer::resolve(&self.tys, r);
        proof {
            assert(crate::infer::node_args_empty(self.ty_graph()[t.idx as int]));
        }
        match self.tys.get(t) {
            InferTy::Any => Err(UnresolvedError),
            InferTy::Known { ty, .. } => self.concretize_payload(*ty, fuel),
            InferTy::Equal(_) => unreached(),
        }
    }

    /// Resolve one resolved type payload to a concrete type.
    fn concretize_payload(&self, t: Ty, fuel: u64) -> (res: Result<ConcreteTy, UnresolvedError>)
        requires
            self.wf(),
            ty_payload_wf(
                t,
                self.ty_graph().len() as int,
                self.int_graph().len() as int,
                self.struct_graph().len() as int,
            ),
        ensures
            (match res {
                Ok(c) => spec_concrete_payload(
                    self.ty_graph(),
                    self.int_graph(),
                    self.struct_graph(),
                    t,
                    fuel as nat,
                ) == Some(concrete_ty_view(c)),
                Err(e) => spec_concrete_payload(
                    self.ty_graph(),
                    self.int_graph(),
                    self.struct_graph(),
                    t,
                    fuel as nat,
                ) is None,
            }),
        decreases fuel, 0int, 0int,
    {
        match t {
            Ty::Bool => Ok(ConcreteTy::Bool),
            Ty::Any => Err(UnresolvedError),
            Ty::Ref(p) => {
                if fuel == 0 {
                    return Err(UnresolvedError);
                }
                match self.concretize(p, fuel - 1) {
                    Ok(c) => Ok(ConcreteTy::Ref(Box::new(c))),
                    Err(e) => Err(e),
                }
            }
            Ty::Int(r) => {
                let ti = crate::infer::resolve(&self.ints, r);
                proof {
                    assert(crate::infer::node_args_empty(self.int_graph()[ti.idx as int]));
                }
                match self.ints.get(ti) {
                    InferTy::Any => Err(UnresolvedError),
                    InferTy::Known { ty: IntTy::Int(i), .. } => Ok(ConcreteTy::Int(*i)),
                    InferTy::Known { ty: IntTy::Any, .. } => Ok(
                        ConcreteTy::Int(Int { signedness: Signedness::Signed, size: Size::B32 }),
                    ),
                    InferTy::Equal(_) => unreached(),
                }
            }
            Ty::Struct(r) => {
                let ts = crate::infer::resolve(&self.structs, r);
                proof {
                    assert(crate::infer::node_args_empty(self.struct_graph()[ts.idx as int]));
                    assert(self.struct_graph()[ts.idx as int] is Known ==> struct_payload_wf(
                        self.struct_graph()[ts.idx as int]->Known_ty,
                        self.ty_graph().len() as int,
                    ));
                }
                match self.structs.get(ts) {
                    InferTy::Any => Err(UnresolvedError),
                    InferTy::Known { ty: StructTy::WithFields(_), .. } => Err(UnresolvedError),
                    InferTy::Known { ty: StructTy::Known(ks), .. } => {
                        if fuel == 0 {
                            return Err(UnresolvedError);
                        }
                        match self.concretize_fields(&ks.fields, fuel - 1) {
                            Ok(fs) => Ok(
                                ConcreteTy::Struct(KnownStruct { name: ks.name, fields: fs }),
                            ),
                            Err(e) => Err(e),
                        }
                    }
                    InferTy::Equal(_) => unreached(),
                }
            }
        }
    }

    /// Resolve each field of a declared struct to a concrete type, in order.
    #[verifier::loop_isolation(false)]
    fn concretize_fields(&self, fs: &Vec<Field<TyRef>>, fuel: u64) -> (res: Result<
        Vec<Field<ConcreteTy>>,
        UnresolvedError,
    >)
        requires
            self.wf(),
            fields_wf(field_views(fs@), self.ty_graph().len() as int),
        ensures
            (match res {
                Ok(v) => spec_concrete_fields(
                    self.ty_graph(),
                    self.int_graph(),
                    self.struct_graph(),
                    field_views(fs@),
                    fuel as nat,
                ) == Some(concrete_fields_view(v@)),
                Err(e) => spec_concrete_fields(
                    self.ty_graph(),
                    self.int_graph(),
                    self.struct_graph(),
                    field_views(fs@),
                    fuel as nat,
                ) is None,
            }),
        decreases fuel, 2int, 0int,
    {
        let ghost fvs = field_views(fs@);
        let mut out: Vec<Field<ConcreteTy>> = Vec::new();
        let mut j: usize = 0;
        proof {
            assert(fvs.subrange(0, 0) =~= Seq::<FieldV>::empty());
        }
        while j < fs.len()
            invariant
                j <= fs@.len(),
                spec_concrete_fields(
                    self.ty_graph(),
                    self.int_graph(),
                    self.struct_graph(),
                    fvs.subrange(0, j as int),
                    fuel as nat,
                ) == Some(concrete_fields_view(out@)),
            decreases fs@.len() - j,
        {
            proof {
                assert(field_views(fs@)[j as int].ty == fs@[j as int].ty.idx as int);
                assert(field_views(fs@)[j as int].name == fs@[j as int].name);
            }
            match self.concretize(fs[j].ty, fuel) {
                Ok(c) => {
                    let ghost prev = out@;
                    out.push(Field { name: fs[j].name, ty: c });
                    proof {
                        let pre = fvs.subrange(0, j as int);
                        let cur = fvs.subrange(0, j as int + 1);
                        assert(cur.subrange(0, cur.len() - 1) =~= pre);
                        assert(cur[cur.len() - 1] == fvs[j as int]);
                        assert(out@.subrange(0, out@.len() - 1) =~= prev);
                        assert(concrete_fields_view(out@) == concrete_fields_view(prev).push(
                            CFieldV { name: fvs[j as int].name, ty: concrete_ty_view(c) },
                        ));
                    }
                }
                Err(e) => {
                    proof {
                        lemma_concrete_fields_none(
                            self.ty_graph(),
                            self.int_graph(),
                            self.struct_graph(),
                            fvs,
                            fuel as nat,
                            j as int,
                        );
                    }
                    return Err(e);
                }
            }
            j += 1;
        }
        proof {
            assert(fvs.subrange(0, fs@.len() as int) =~= fvs);
        }
        Ok(out)
    }
}

/// If one field's node cannot be concretized, the whole field list cannot.
pub proof fn lemma_concrete_fields_none(
    tg: Seq<NodeV<Ty>>,
    ig: Seq<NodeV<IntTy>>,
    sg: Seq<NodeV<StructTyV>>,
    fs: Seq<FieldV>,
    fuel: nat,
    k: int,
)
    requires
        0 <= k < fs.len(),
        spec_concrete_node(tg, ig, sg, fs[k].ty, fuel) is None,
    ensures
        spec_concrete_fields(tg, ig, sg, fs, fuel) is None,
    decreases fs.len(),
{
    if k == fs.len() - 1 {
    } else {
        let pre = fs.subrange(0, fs.len() - 1);
        assert(pre[k] == fs[k]);
        lemma_concrete_fields_none(tg, ig, sg, pre, fuel, k);
    }
}

} // verus!
