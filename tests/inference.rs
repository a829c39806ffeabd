use mpc::defs::{LocalDef, LocalId};
use mpc::tctx::TVarCtx;
use mpc::ty::{copy_ty, ty_eq, Ty};

fn unit() -> Ty {
    Ty::Tuple(vec![])
}

#[test]
fn numeric_literal_defaults_to_int32() {
    let mut ctx = TVarCtx::new();
    let x = ctx.tvar(Ty::BoundNum);
    assert!(ty_eq(&ctx.lit_ty(&x), &Ty::Int32));
}

#[test]
fn bounds_default_to_literal_types() {
    let mut ctx = TVarCtx::new();
    assert!(ty_eq(&ctx.lit_ty(&Ty::BoundAny), &unit()));
    assert!(ty_eq(&ctx.lit_ty(&Ty::BoundInt), &Ty::Int32));
    assert!(ty_eq(&ctx.lit_ty(&Ty::BoundFlt), &Ty::Float));
    let p = Ty::Ptr(true, Box::new(Ty::BoundNum));
    assert!(ty_eq(&ctx.lit_ty(&p), &Ty::Ptr(true, Box::new(Ty::Int32))));
}

#[test]
fn lit_ty_follows_variables() {
    let mut ctx = TVarCtx::new();
    let a = ctx.tvar(Ty::BoundAny);
    let b = ctx.tvar(Ty::BoundFlt);
    assert!(ctx.unify(&a, &b).is_ok());
    assert!(ty_eq(&ctx.lit_ty(&a), &Ty::Float));
    let arr = Ty::Arr(3, Box::new(a));
    assert!(ty_eq(&ctx.lit_ty(&arr), &Ty::Arr(3, Box::new(Ty::Float))));
}

#[test]
fn tvar_returns_fresh_indices() {
    let mut ctx = TVarCtx::new();
    assert!(ty_eq(&ctx.tvar(Ty::BoundAny), &Ty::TVar(0)));
    assert!(ty_eq(&ctx.tvar(Ty::BoundAny), &Ty::TVar(1)));
}

#[test]
fn root_twice_gives_same_index() {
    let mut ctx = TVarCtx::new();
    let a = ctx.tvar(Ty::BoundAny);
    let b = ctx.tvar(Ty::BoundAny);
    let c = ctx.tvar(Ty::BoundAny);
    assert!(ctx.unify(&b, &c).is_ok());
    assert!(ctx.unify(&a, &b).is_ok());
    let r1 = ctx.root(2);
    let r2 = ctx.root(2);
    assert_eq!(r1, r2);
    assert_eq!(r1, ctx.root(0));
    assert_eq!(r1, ctx.root(1));
}

#[test]
fn unify_two_variables_merges_bounds() {
    let mut ctx = TVarCtx::new();
    let a = ctx.tvar(Ty::BoundNum);
    let b = ctx.tvar(Ty::BoundInt);
    let r = ctx.unify(&a, &b).ok().unwrap();
    assert!(ty_eq(&r, &Ty::TVar(0)));
    assert_eq!(ctx.root(1), 0);
    assert!(ty_eq(&ctx.lit_ty(&b), &Ty::Int32));
    let c = ctx.tvar(Ty::BoundAny);
    assert!(ctx.unify(&c, &Ty::Uint16).is_ok());
    assert!(ctx.unify(&a, &c).is_ok());
    assert!(ty_eq(&ctx.lit_ty(&a), &Ty::Uint16));
}

#[test]
fn unify_variable_with_incompatible_type_fails() {
    let mut ctx = TVarCtx::new();
    let a = ctx.tvar(Ty::BoundInt);
    assert!(ctx.unify(&a, &Ty::Double).is_err());
    assert!(ctx.unify(&Ty::Bool, &a).is_err());
    assert!(ctx.unify(&a, &Ty::Int64).is_ok());
    assert!(ty_eq(&ctx.lit_ty(&a), &Ty::Int64));
}

#[test]
fn unify_bounds_picks_more_specific() {
    let mut ctx = TVarCtx::new();
    let cases = vec![
        (Ty::BoundNum, Ty::Int8, Ty::Int8),
        (Ty::Int8, Ty::BoundNum, Ty::Int8),
        (Ty::BoundNum, Ty::BoundFlt, Ty::BoundFlt),
        (Ty::BoundFlt, Ty::BoundNum, Ty::BoundFlt),
        (Ty::BoundInt, Ty::Uintn, Ty::Uintn),
        (Ty::BoundFlt, Ty::Double, Ty::Double),
        (Ty::BoundAny, Ty::Bool, Ty::Bool),
        (Ty::Bool, Ty::BoundAny, Ty::Bool),
    ];
    for (a, b, want) in cases {
        let got = ctx.unify(&a, &b).ok().unwrap();
        assert!(ty_eq(&got, &want));
    }
}

#[test]
fn unify_is_symmetric_on_concrete_terms() {
    let mut ctx = TVarCtx::new();
    let a = Ty::Ptr(false, Box::new(Ty::BoundInt));
    let b = Ty::Ptr(false, Box::new(Ty::Uint32));
    let ab = ctx.unify(&a, &b).ok().unwrap();
    let ba = ctx.unify(&b, &a).ok().unwrap();
    assert!(ty_eq(&ab, &ba));
    assert!(ctx.unify(&Ty::BoundInt, &Ty::Float).is_err());
    assert!(ctx.unify(&Ty::Float, &Ty::BoundInt).is_err());
}

#[test]
fn unify_incompatible_terms_fails() {
    let mut ctx = TVarCtx::new();
    assert!(ctx.unify(&Ty::Int32, &Ty::Uint32).is_err());
    assert!(ctx.unify(&Ty::BoundInt, &Ty::BoundFlt).is_err());
    let p = Ty::Ptr(true, Box::new(Ty::Int8));
    let q = Ty::Ptr(false, Box::new(Ty::Int8));
    assert!(ctx.unify(&p, &q).is_err());
    let x = Ty::Arr(2, Box::new(Ty::Int8));
    let y = Ty::Arr(3, Box::new(Ty::Int8));
    assert!(ctx.unify(&x, &y).is_err());
}

#[test]
fn unify_tuples_requires_matching_names() {
    let mut ctx = TVarCtx::new();
    let a = Ty::Tuple(vec![(1, Ty::BoundNum), (2, Ty::Bool)]);
    let b = Ty::Tuple(vec![(1, Ty::Int16), (2, Ty::Bool)]);
    let c = Ty::Tuple(vec![(1, Ty::Int16), (3, Ty::Bool)]);
    let ab = ctx.unify(&a, &b).ok().unwrap();
    assert!(ty_eq(&ab, &Ty::Tuple(vec![(1, Ty::Int16), (2, Ty::Bool)])));
    assert!(ctx.unify(&a, &c).is_err());
    assert!(ctx.unify(&a, &Ty::Tuple(vec![(1, Ty::Int16)])).is_err());
}

#[test]
fn unify_functions_checks_variadic_flag() {
    let mut ctx = TVarCtx::new();
    let f = Ty::Func(vec![(7, Ty::BoundAny)], false, Box::new(Ty::BoundNum));
    let g = Ty::Func(vec![(7, Ty::Bool)], false, Box::new(Ty::Double));
    let h = Ty::Func(vec![(7, Ty::Bool)], true, Box::new(Ty::Double));
    let fg = ctx.unify(&f, &g).ok().unwrap();
    assert!(ty_eq(&fg, &g));
    assert!(ctx.unify(&f, &h).is_err());
}

#[test]
fn unify_nominal_references() {
    let mut ctx = TVarCtx::new();
    let a = Ty::StructRef(5, 10, vec![Ty::BoundNum]);
    let b = Ty::StructRef(5, 10, vec![Ty::Uint8]);
    let c = Ty::StructRef(6, 11, vec![Ty::Uint8]);
    let d = Ty::UnionRef(5, 10, vec![Ty::Uint8]);
    let ab = ctx.unify(&a, &b).ok().unwrap();
    assert!(ty_eq(&ab, &b));
    assert!(ctx.unify(&a, &c).is_err());
    assert!(ctx.unify(&b, &d).is_err());
    let e = Ty::EnumRef(1, 2, vec![]);
    assert!(ctx.unify(&e, &Ty::EnumRef(1, 2, vec![])).is_ok());
}

#[test]
fn unify_error_carries_both_terms() {
    let mut ctx = TVarCtx::new();
    let err = ctx.unify(&Ty::Bool, &Ty::Int8).err().unwrap();
    assert!(ty_eq(&err.0, &Ty::Bool));
    assert!(ty_eq(&err.1, &Ty::Int8));
}

#[test]
fn self_referential_bound_is_rejected_or_finite() {
    let mut ctx = TVarCtx::new();
    let a = ctx.tvar(Ty::BoundAny);
    let p = Ty::Ptr(false, Box::new(copy_ty(&a)));
    let _ = ctx.unify(&a, &p);
    let lit = ctx.lit_ty(&a);
    assert!(matches!(lit, Ty::Ptr(..)));
}

#[test]
fn local_def_name() {
    let p = LocalDef::Param { name: 3, ty: Ty::Int32, is_mut: false, index: 0 };
    let l = LocalDef::Let { name: 9, ty: Ty::Bool, is_mut: true };
    assert_eq!(p.name(), 3);
    assert_eq!(l.name(), 9);
    assert_eq!(LocalId(4), LocalId(4));
}

/// Without an occurs check, a bound that comes to refer to its own class
/// lets a successful unification leave two variables of one class under
/// different roots.
#[test]
fn self_referential_bound_can_split_a_class() {
    let mut ctx = TVarCtx::new();
    let v0 = ctx.tvar(Ty::BoundAny);
    let v1 = ctx.tvar(Ty::BoundAny);
    let v2 = ctx.tvar(Ty::BoundAny);
    let pair = Ty::Tuple(vec![(1, copy_ty(&v2)), (2, copy_ty(&v2))]);
    assert!(ctx.unify(&v0, &pair).is_ok());
    assert!(ctx.unify(&v0, &v1).is_ok());
    assert_eq!(ctx.root(1), ctx.root(0));
    let arg = Ty::Tuple(vec![(1, copy_ty(&v1)), (2, copy_ty(&v1))]);
    assert!(ctx.unify(&v0, &arg).is_ok());
    assert_ne!(ctx.root(1), ctx.root(0));
}
