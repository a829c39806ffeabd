use mpc::describe::{describe_ty, write_decimal};
use mpc::tctx::TVarCtx;
use mpc::ty::Ty;

fn names() -> Vec<String> {
    vec!["x".to_string(), "y".to_string(), "Point".to_string()]
}

#[test]
fn describes_scalars_and_bounds() {
    assert_eq!(describe_ty(&Ty::Int32, &names()), "Int32");
    assert_eq!(describe_ty(&Ty::Uintn, &names()), "Uintn");
    assert_eq!(describe_ty(&Ty::BoundNum, &names()), "Num");
    assert_eq!(describe_ty(&Ty::TVar(12), &names()), "'12");
}

#[test]
fn describes_constructed_types() {
    let p = Ty::Ptr(true, Box::new(Ty::Int8));
    assert_eq!(describe_ty(&p, &names()), "*mut Int8");
    let q = Ty::Ptr(false, Box::new(Ty::Int8));
    assert_eq!(describe_ty(&q, &names()), "*Int8");
    let a = Ty::Arr(4, Box::new(Ty::Int32));
    assert_eq!(describe_ty(&a, &names()), "[4]Int32");
    let t = Ty::Tuple(vec![(0, Ty::Bool), (1, Ty::Double)]);
    assert_eq!(describe_ty(&t, &names()), "(x: Bool, y: Double)");
    assert_eq!(describe_ty(&Ty::Tuple(vec![]), &names()), "()");
    let f = Ty::Func(vec![(0, Ty::Int32)], false, Box::new(Ty::Bool));
    assert_eq!(describe_ty(&f, &names()), "Function(x: Int32) -> Bool");
    assert_eq!(describe_ty(&Ty::StructRef(2, 7, vec![]), &names()), "Point");
    assert_eq!(describe_ty(&Ty::EnumRef(40, 7, vec![]), &names()), "40");
}

#[test]
fn decimal_digits() {
    let mut s = String::new();
    write_decimal(&mut s, 0);
    write_decimal(&mut s, 907);
    assert_eq!(s, "0907");
}

#[test]
fn unify_failure_message() {
    let mut ctx = TVarCtx::new();
    let err = ctx.unify(&Ty::Bool, &Ty::Arr(2, Box::new(Ty::Int8))).err().unwrap();
    assert_eq!(err.message(&names()), "Cannot unify types Bool and [2]Int8");
}
