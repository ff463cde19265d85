use tyinfer::infer::{unify, InferCtx, InferTy, InferTyRef, UnifyError, UnresolvedError};
use tyinfer::ty::{
    ConcreteTy, Field, Int, IntTy, KnownStruct, Signedness, Size, StructTy, Symbol, Ty, TyCtx,
};

const FUEL: u64 = 64;

fn i8_ty() -> Int {
    Int { signedness: Signedness::Signed, size: Size::B8 }
}

fn u8_ty() -> Int {
    Int { signedness: Signedness::Unsigned, size: Size::B8 }
}

fn i32_ty() -> Int {
    Int { signedness: Signedness::Signed, size: Size::B32 }
}

#[test]
fn unify_node_with_itself_is_a_noop() {
    let mut ctx = InferCtx::<IntTy>::new();
    let a = InferTyRef::known(&mut ctx, IntTy::Int(i8_ty()));
    assert!(unify(&mut ctx, a, a, FUEL).is_ok());
    assert_eq!(a.concrete(&ctx), Ok(IntTy::Int(i8_ty())));

    let mut tctx = TyCtx::new();
    let t = tctx.ty_known(Ty::Bool);
    assert!(Ty::unify(&mut tctx, t, t, FUEL).is_ok());
    assert_eq!(tctx.concretize(t, FUEL), Ok(ConcreteTy::Bool));
}

#[test]
fn unify_unknown_with_unknown_links_both_sides() {
    let mut ctx = InferCtx::<IntTy>::new();
    let a = InferTyRef::any(&mut ctx);
    let b = InferTyRef::any(&mut ctx);
    assert!(unify(&mut ctx, a, b, FUEL).is_ok());
    // Refining one side afterwards is seen through the other.
    let c = InferTyRef::known(&mut ctx, IntTy::Int(u8_ty()));
    assert!(unify(&mut ctx, a, c, FUEL).is_ok());
    assert_eq!(b.concrete(&ctx), Ok(IntTy::Int(u8_ty())));
}

#[test]
fn unknown_absorbs_resolved_in_either_order() {
    let mut ctx = InferCtx::<IntTy>::new();
    let a = InferTyRef::any(&mut ctx);
    let b = InferTyRef::known(&mut ctx, IntTy::Int(i32_ty()));
    assert!(unify(&mut ctx, a, b, FUEL).is_ok());
    assert_eq!(a.concrete(&ctx), Ok(IntTy::Int(i32_ty())));
    assert_eq!(b.concrete(&ctx), Ok(IntTy::Int(i32_ty())));

    let mut ctx2 = InferCtx::<IntTy>::new();
    let a2 = InferTyRef::known(&mut ctx2, IntTy::Int(i32_ty()));
    let b2 = InferTyRef::any(&mut ctx2);
    assert!(unify(&mut ctx2, a2, b2, FUEL).is_ok());
    assert_eq!(a2.concrete(&ctx2), Ok(IntTy::Int(i32_ty())));
    assert_eq!(b2.concrete(&ctx2), Ok(IntTy::Int(i32_ty())));
}

#[test]
fn engine_unifies_constructor_children_positionally() {
    let mut ctx = InferCtx::<IntTy>::new();
    let child_a = InferTyRef::any(&mut ctx);
    let child_b = InferTyRef::known(&mut ctx, IntTy::Int(u8_ty()));
    let a = InferTyRef::known_with_args(&mut ctx, IntTy::Any, vec![child_a]);
    let b = InferTyRef::known_with_args(&mut ctx, IntTy::Any, vec![child_b]);
    assert!(unify(&mut ctx, a, b, FUEL).is_ok());
    // The unknown child was refined by its positional partner.
    assert_eq!(child_a.concrete(&ctx), Ok(IntTy::Int(u8_ty())));
}

#[test]
fn engine_rejects_mismatched_child_counts() {
    let mut ctx = InferCtx::<IntTy>::new();
    let child = InferTyRef::any(&mut ctx);
    let a = InferTyRef::known_with_args(&mut ctx, IntTy::Any, vec![child]);
    let b = InferTyRef::known(&mut ctx, IntTy::Any);
    assert_eq!(unify(&mut ctx, a, b, FUEL), Err(UnifyError::ArityMismatch));
}

#[test]
fn engine_runs_out_of_fuel_on_children_without_budget() {
    let mut ctx = InferCtx::<IntTy>::new();
    let child_a = InferTyRef::any(&mut ctx);
    let child_b = InferTyRef::any(&mut ctx);
    let a = InferTyRef::known_with_args(&mut ctx, IntTy::Any, vec![child_a]);
    let b = InferTyRef::known_with_args(&mut ctx, IntTy::Any, vec![child_b]);
    assert_eq!(unify(&mut ctx, a, b, 0), Err(UnifyError::DepthLimit));
}

#[test]
fn engine_reports_payload_mismatch() {
    let mut ctx = InferCtx::<IntTy>::new();
    let a = InferTyRef::known(&mut ctx, IntTy::Int(i8_ty()));
    let b = InferTyRef::known(&mut ctx, IntTy::Int(u8_ty()));
    assert_eq!(unify(&mut ctx, a, b, FUEL), Err(UnifyError::IntMismatch));
}

#[test]
fn infer_ty_reads_the_current_node_state() {
    let mut ctx = InferCtx::<IntTy>::new();
    let a = InferTyRef::any(&mut ctx);
    assert!(matches!(a.infer_ty(&ctx), InferTy::Any));
    let b = InferTyRef::known(&mut ctx, IntTy::Int(i8_ty()));
    assert!(unify(&mut ctx, a, b, FUEL).is_ok());
    assert!(matches!(a.infer_ty(&ctx), InferTy::Known { .. }));
}

#[test]
fn unify_is_symmetric_on_independent_nodes() {
    // The same pair of initial states, unified in both orders, concretizes
    // to the same results on both sides.
    let mut c1 = TyCtx::new();
    let w1 = c1.int_known(IntTy::Any);
    let a1 = c1.ty_known(Ty::Int(w1));
    let w2 = c1.int_known(IntTy::Int(i8_ty()));
    let b1 = c1.ty_known(Ty::Int(w2));
    assert!(Ty::unify(&mut c1, a1, b1, FUEL).is_ok());

    let mut c2 = TyCtx::new();
    let v1 = c2.int_known(IntTy::Any);
    let a2 = c2.ty_known(Ty::Int(v1));
    let v2 = c2.int_known(IntTy::Int(i8_ty()));
    let b2 = c2.ty_known(Ty::Int(v2));
    assert!(Ty::unify(&mut c2, b2, a2, FUEL).is_ok());

    assert_eq!(c1.concretize(a1, FUEL), c2.concretize(a2, FUEL));
    assert_eq!(c1.concretize(b1, FUEL), c2.concretize(b2, FUEL));
    assert_eq!(c1.concretize(a1, FUEL), Ok(ConcreteTy::Int(i8_ty())));
}

#[test]
fn successful_unification_propagates_to_both_sides() {
    let mut ctx = TyCtx::new();
    let a = ctx.fresh_any();
    let inner = ctx.ty_known(Ty::Bool);
    let b = ctx.ty_known(Ty::Ref(inner));
    assert!(Ty::unify(&mut ctx, a, b, FUEL).is_ok());
    let ca = ctx.concretize(a, FUEL);
    let cb = ctx.concretize(b, FUEL);
    assert!(ca.is_ok());
    assert_eq!(ca, cb);
    assert_eq!(ca, Ok(ConcreteTy::Ref(Box::new(ConcreteTy::Bool))));
}

#[test]
fn fixed_int_mismatch_fails_and_match_succeeds() {
    let mut ctx = TyCtx::new();
    let s8 = ctx.int_known(IntTy::Int(i8_ty()));
    let u8n = ctx.int_known(IntTy::Int(u8_ty()));
    assert_eq!(IntTy::unify(&mut ctx, s8, u8n, FUEL), Err(UnifyError::IntMismatch));

    let s8a = ctx.int_known(IntTy::Int(i8_ty()));
    let s8b = ctx.int_known(IntTy::Int(i8_ty()));
    assert!(IntTy::unify(&mut ctx, s8a, s8b, FUEL).is_ok());
    let t = ctx.ty_known(Ty::Int(s8a));
    assert_eq!(ctx.concretize(t, FUEL), Ok(ConcreteTy::Int(i8_ty())));
}

#[test]
fn int_mismatch_surfaces_through_type_nodes() {
    let mut ctx = TyCtx::new();
    let s8 = ctx.int_known(IntTy::Int(i8_ty()));
    let u8n = ctx.int_known(IntTy::Int(u8_ty()));
    let a = ctx.ty_known(Ty::Int(s8));
    let b = ctx.ty_known(Ty::Int(u8n));
    assert_eq!(Ty::unify(&mut ctx, a, b, FUEL), Err(UnifyError::IntMismatch));
}

#[test]
fn incompatible_kinds_are_rejected() {
    let mut ctx = TyCtx::new();
    let a = ctx.ty_known(Ty::Bool);
    let w = ctx.int_known(IntTy::Int(i32_ty()));
    let b = ctx.ty_known(Ty::Int(w));
    assert_eq!(Ty::unify(&mut ctx, a, b, FUEL), Err(UnifyError::IncompatibleKinds));
}

#[test]
fn any_payload_yields_to_the_other_side() {
    let mut ctx = TyCtx::new();
    let a = ctx.ty_known(Ty::Any);
    let b = ctx.ty_known(Ty::Bool);
    assert!(Ty::unify(&mut ctx, a, b, FUEL).is_ok());
    assert_eq!(ctx.concretize(a, FUEL), Ok(ConcreteTy::Bool));
}

#[test]
fn undetermined_int_concretizes_to_signed_32() {
    let mut ctx = TyCtx::new();
    let w = ctx.int_known(IntTy::Any);
    let t = ctx.ty_known(Ty::Int(w));
    assert_eq!(ctx.concretize(t, FUEL), Ok(ConcreteTy::Int(i32_ty())));
}

#[test]
fn struct_row_inference_end_to_end() {
    let sym_x = Symbol(1);
    let sym_y = Symbol(2);
    let sym_point = Symbol(3);

    let mut ctx = TyCtx::new();
    // WithFields{ x: IntUnknown }
    let wx = ctx.int_known(IntTy::Any);
    let tx = ctx.ty_known(Ty::Int(wx));
    let row_x = ctx.struct_known(StructTy::WithFields(vec![Field { name: sym_x, ty: tx }]));

    // WithFields{ y: Fixed{Signed, 32} }
    let wy = ctx.int_known(IntTy::Int(i32_ty()));
    let ty_node = ctx.ty_known(Ty::Int(wy));
    let row_y = ctx.struct_known(StructTy::WithFields(vec![Field { name: sym_y, ty: ty_node }]));

    assert!(StructTy::unify(&mut ctx, row_x, row_y, FUEL).is_ok());

    // Known{ name: Point, fields: [(x, Fixed{Signed,32}), (y, Fixed{Signed,32})] }
    let wpx = ctx.int_known(IntTy::Int(i32_ty()));
    let tpx = ctx.ty_known(Ty::Int(wpx));
    let wpy = ctx.int_known(IntTy::Int(i32_ty()));
    let tpy = ctx.ty_known(Ty::Int(wpy));
    let point = ctx.struct_known(StructTy::Known(KnownStruct {
        name: sym_point,
        fields: vec![Field { name: sym_x, ty: tpx }, Field { name: sym_y, ty: tpy }],
    }));

    assert!(StructTy::unify(&mut ctx, row_x, point, FUEL).is_ok());

    // The original "x" node is now pinned to Fixed{Signed, 32}.
    assert_eq!(ctx.concretize(tx, FUEL), Ok(ConcreteTy::Int(i32_ty())));

    // A type node wrapping the struct concretizes to the declared struct.
    let st = ctx.ty_known(Ty::Struct(point));
    match ctx.concretize(st, FUEL) {
        Ok(ConcreteTy::Struct(ks)) => {
            assert_eq!(ks.name, sym_point);
            assert_eq!(ks.fields.len(), 2);
            assert_eq!(ks.fields[0].name, sym_x);
            assert_eq!(ks.fields[0].ty, ConcreteTy::Int(i32_ty()));
            assert_eq!(ks.fields[1].name, sym_y);
            assert_eq!(ks.fields[1].ty, ConcreteTy::Int(i32_ty()));
        }
        other => panic!("expected a concrete struct, got {:?}", other),
    }
}

#[test]
fn rows_merge_into_the_union_of_their_fields() {
    let sym_x = Symbol(1);
    let sym_y = Symbol(2);

    let mut ctx = TyCtx::new();
    let tx = ctx.ty_known(Ty::Bool);
    let row_a = ctx.struct_known(StructTy::WithFields(vec![Field { name: sym_x, ty: tx }]));
    let ty_node = ctx.fresh_any();
    let row_b = ctx.struct_known(StructTy::WithFields(vec![
        Field { name: sym_x, ty: ty_node },
        Field { name: sym_y, ty: ty_node },
    ]));
    assert!(StructTy::unify(&mut ctx, row_a, row_b, FUEL).is_ok());
    // The shared field "x" forced ty_node to Bool.
    assert_eq!(ctx.concretize(ty_node, FUEL), Ok(ConcreteTy::Bool));
}

#[test]
fn concretize_fails_on_a_never_constrained_node() {
    let mut ctx = TyCtx::new();
    let a = ctx.fresh_any();
    let b = ctx.fresh_any();
    let c = ctx.fresh_any();
    assert!(Ty::unify(&mut ctx, a, b, FUEL).is_ok());
    assert!(Ty::unify(&mut ctx, b, c, FUEL).is_ok());
    assert_eq!(ctx.concretize(a, FUEL), Err(UnresolvedError));
    assert_eq!(ctx.concretize(c, FUEL), Err(UnresolvedError));
}

#[test]
fn engine_concrete_fails_on_unresolved_node() {
    let mut ctx = InferCtx::<IntTy>::new();
    let a = InferTyRef::any(&mut ctx);
    let b = InferTyRef::any(&mut ctx);
    assert!(unify(&mut ctx, a, b, FUEL).is_ok());
    assert_eq!(a.concrete(&ctx), Err(UnresolvedError));
}

#[test]
fn different_struct_names_clash() {
    let sym_point = Symbol(10);
    let sym_vector = Symbol(11);

    let mut ctx = TyCtx::new();
    let a = ctx.struct_known(StructTy::Known(KnownStruct { name: sym_point, fields: vec![] }));
    let b = ctx.struct_known(StructTy::Known(KnownStruct { name: sym_vector, fields: vec![] }));
    assert_eq!(StructTy::unify(&mut ctx, a, b, FUEL), Err(UnifyError::StructNameMismatch));

    let c = ctx.struct_known(StructTy::Known(KnownStruct { name: sym_point, fields: vec![] }));
    assert!(StructTy::unify(&mut ctx, a, c, FUEL).is_ok());
}

#[test]
fn required_field_missing_from_declared_struct() {
    let sym_x = Symbol(1);
    let sym_z = Symbol(9);
    let sym_point = Symbol(10);

    let mut ctx = TyCtx::new();
    let tx = ctx.ty_known(Ty::Bool);
    let point = ctx.struct_known(StructTy::Known(KnownStruct {
        name: sym_point,
        fields: vec![Field { name: sym_x, ty: tx }],
    }));
    let tz = ctx.fresh_any();
    let row = ctx.struct_known(StructTy::WithFields(vec![Field { name: sym_z, ty: tz }]));
    assert_eq!(StructTy::unify(&mut ctx, point, row, FUEL), Err(UnifyError::MissingField));
}

#[test]
fn missing_field_after_an_agreeing_field() {
    let sym_x = Symbol(1);
    let sym_z = Symbol(9);
    let sym_point = Symbol(10);

    let mut ctx = TyCtx::new();
    let tx = ctx.ty_known(Ty::Bool);
    let point = ctx.struct_known(StructTy::Known(KnownStruct {
        name: sym_point,
        fields: vec![Field { name: sym_x, ty: tx }],
    }));
    let needed_x = ctx.fresh_any();
    let needed_z = ctx.fresh_any();
    let row = ctx.struct_known(StructTy::WithFields(vec![
        Field { name: sym_x, ty: needed_x },
        Field { name: sym_z, ty: needed_z },
    ]));
    // "x" unifies cleanly; "z" is then reported as the missing field.
    assert_eq!(StructTy::unify(&mut ctx, point, row, FUEL), Err(UnifyError::MissingField));
}

#[test]
fn disjoint_rows_always_merge() {
    let mut ctx = TyCtx::new();
    let t1 = ctx.ty_known(Ty::Bool);
    let row_a = ctx.struct_known(StructTy::WithFields(vec![Field { name: Symbol(1), ty: t1 }]));
    let t2 = ctx.fresh_any();
    let row_b = ctx.struct_known(StructTy::WithFields(vec![Field { name: Symbol(2), ty: t2 }]));
    assert!(StructTy::unify(&mut ctx, row_a, row_b, FUEL).is_ok());
}

#[test]
fn declared_struct_wins_over_row_in_either_order() {
    let sym_x = Symbol(1);
    let sym_point = Symbol(10);

    for known_first in [true, false] {
        let mut ctx = TyCtx::new();
        let tx = ctx.ty_known(Ty::Bool);
        let point = ctx.struct_known(StructTy::Known(KnownStruct {
            name: sym_point,
            fields: vec![Field { name: sym_x, ty: tx }],
        }));
        let needed = ctx.fresh_any();
        let row = ctx.struct_known(StructTy::WithFields(vec![Field { name: sym_x, ty: needed }]));
        let res = if known_first {
            StructTy::unify(&mut ctx, point, row, FUEL)
        } else {
            StructTy::unify(&mut ctx, row, point, FUEL)
        };
        assert!(res.is_ok());
        // The row's field type was unified with the declared field's type.
        assert_eq!(ctx.concretize(needed, FUEL), Ok(ConcreteTy::Bool));
        // Both struct nodes now resolve to the declared struct.
        let t = ctx.ty_known(Ty::Struct(row));
        match ctx.concretize(t, FUEL) {
            Ok(ConcreteTy::Struct(ks)) => assert_eq!(ks.name, sym_point),
            other => panic!("expected a concrete struct, got {:?}", other),
        }
    }
}

#[test]
fn reference_types_unify_through_their_pointees() {
    let mut ctx = TyCtx::new();
    let p1 = ctx.fresh_any();
    let a = ctx.ty_known(Ty::Ref(p1));
    let w = ctx.int_known(IntTy::Int(u8_ty()));
    let p2 = ctx.ty_known(Ty::Int(w));
    let b = ctx.ty_known(Ty::Ref(p2));
    assert!(Ty::unify(&mut ctx, a, b, FUEL).is_ok());
    assert_eq!(ctx.concretize(p1, FUEL), Ok(ConcreteTy::Int(u8_ty())));
    assert_eq!(
        ctx.concretize(a, FUEL),
        Ok(ConcreteTy::Ref(Box::new(ConcreteTy::Int(u8_ty()))))
    );
}

#[test]
fn reference_unification_without_budget_reports_depth_limit() {
    let mut ctx = TyCtx::new();
    let p1 = ctx.fresh_any();
    let a = ctx.ty_known(Ty::Ref(p1));
    let p2 = ctx.fresh_any();
    let b = ctx.ty_known(Ty::Ref(p2));
    assert_eq!(Ty::unify(&mut ctx, a, b, 0), Err(UnifyError::DepthLimit));
}

#[test]
fn self_referential_type_cannot_be_concretized() {
    // Absorbing a reference to oneself builds a cyclic type; resolving it
    // runs out of budget instead of diverging.
    let mut ctx = TyCtx::new();
    let x = ctx.fresh_any();
    let r = ctx.ty_known(Ty::Ref(x));
    assert!(Ty::unify(&mut ctx, x, r, FUEL).is_ok());
    assert_eq!(ctx.concretize(x, FUEL), Err(UnresolvedError));
}

#[test]
fn unifying_cyclic_types_reports_depth_limit() {
    let mut ctx = TyCtx::new();
    let x = ctx.fresh_any();
    let r = ctx.ty_known(Ty::Ref(x));
    assert!(Ty::unify(&mut ctx, x, r, FUEL).is_ok());
    let y = ctx.fresh_any();
    let s = ctx.ty_known(Ty::Ref(y));
    assert!(Ty::unify(&mut ctx, y, s, FUEL).is_ok());
    // Both sides are now infinite reference chains; unifying them would
    // recurse forever, so the budget stops it.
    assert_eq!(Ty::unify(&mut ctx, x, y, 8), Err(UnifyError::DepthLimit));
}

#[test]
fn concretize_row_constrained_struct_is_unresolved() {
    let sym_x = Symbol(1);
    let mut ctx = TyCtx::new();
    let tx = ctx.ty_known(Ty::Bool);
    let row = ctx.struct_known(StructTy::WithFields(vec![Field { name: sym_x, ty: tx }]));
    let t = ctx.ty_known(Ty::Struct(row));
    assert_eq!(ctx.concretize(t, FUEL), Err(UnresolvedError));
}
