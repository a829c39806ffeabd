use mpc::lowty::{lower_enum_fields, lower_func_ty, lower_lit_ty, lower_ty, lower_union_fields, LowTy};
use mpc::tctx::TVarCtx;
use mpc::ty::Ty;

#[test]
fn scalars_lower_by_width() {
    assert!(matches!(lower_lit_ty(&Ty::Bool), LowTy::I1));
    assert!(matches!(lower_lit_ty(&Ty::Uint8), LowTy::I8));
    assert!(matches!(lower_lit_ty(&Ty::Int16), LowTy::I16));
    assert!(matches!(lower_lit_ty(&Ty::Uint32), LowTy::I32));
    assert!(matches!(lower_lit_ty(&Ty::Intn), LowTy::I64));
    assert!(matches!(lower_lit_ty(&Ty::Uintn), LowTy::I64));
    assert!(matches!(lower_lit_ty(&Ty::Float), LowTy::F32));
    assert!(matches!(lower_lit_ty(&Ty::Double), LowTy::F64));
    assert!(matches!(lower_lit_ty(&Ty::Tuple(vec![])), LowTy::Void));
}

#[test]
fn aggregates_lower_structurally() {
    let arr = lower_lit_ty(&Ty::Arr(4, Box::new(Ty::Int32)));
    match arr {
        LowTy::Array(4, e) => assert!(matches!(*e, LowTy::I32)),
        _ => panic!("not an array"),
    }
    let tup = lower_lit_ty(&Ty::Tuple(vec![(1, Ty::Bool), (2, Ty::Ptr(false, Box::new(Ty::Int8)))]));
    match tup {
        LowTy::Struct(fs) => {
            assert_eq!(fs.len(), 2);
            assert!(matches!(fs[0], LowTy::I1));
            assert!(matches!(fs[1], LowTy::Ptr));
        },
        _ => panic!("not a struct"),
    }
    assert!(matches!(lower_lit_ty(&Ty::EnumRef(3, 9, vec![])), LowTy::Named(9, _)));
}

#[test]
fn lowering_resolves_variables() {
    let mut ctx = TVarCtx::new();
    let n = ctx.tvar(Ty::BoundNum);
    assert!(matches!(lower_ty(&mut ctx, &n), LowTy::I32));
    let a = ctx.tvar(Ty::BoundAny);
    assert!(matches!(lower_ty(&mut ctx, &a), LowTy::Void));
}

#[test]
fn aggregate_result_becomes_out_pointer() {
    let ret = Ty::Arr(4, Box::new(Ty::Int32));
    let f = lower_func_ty(&vec![], false, &ret).unwrap();
    assert_eq!(f.params.len(), 1);
    assert!(matches!(f.params[0], LowTy::Ptr));
    assert!(matches!(f.ret, LowTy::Void));
}

#[test]
fn parameters_by_semantics() {
    let params = vec![
        (1, Ty::Int64),
        (2, Ty::Tuple(vec![(0, Ty::Bool)])),
    ];
    let f = lower_func_ty(&params, true, &Ty::Int32).unwrap();
    assert!(f.variadic);
    assert_eq!(f.params.len(), 2);
    assert!(matches!(f.params[0], LowTy::I64));
    assert!(matches!(f.params[1], LowTy::Ptr));
    assert!(matches!(f.ret, LowTy::I32));
    let bad = vec![(1, Ty::Tuple(vec![]))];
    assert!(lower_func_ty(&bad, false, &Ty::Int32).is_none());
}

#[test]
fn union_fields_lead_with_most_aligned_member() {
    let fields = lower_union_fields(vec![LowTy::I8, LowTy::I64], &vec![1, 8], &vec![1, 8]);
    assert_eq!(fields.len(), 1);
    assert!(matches!(fields[0], LowTy::I64));
    let fields = lower_union_fields(
        vec![LowTy::I32, LowTy::Array(10, Box::new(LowTy::I8))],
        &vec![4, 10],
        &vec![4, 1],
    );
    assert_eq!(fields.len(), 2);
    assert!(matches!(fields[0], LowTy::I32));
    match &fields[1] {
        LowTy::Array(6, e) => assert!(matches!(**e, LowTy::I8)),
        _ => panic!("no padding"),
    }
    assert!(lower_union_fields(vec![], &vec![], &vec![]).is_empty());
}

#[test]
fn enum_fields_start_with_tag() {
    let payload = LowTy::Struct(vec![LowTy::I32]);
    let fields = lower_enum_fields(vec![payload], &vec![4], &vec![4]);
    assert_eq!(fields.len(), 2);
    assert!(matches!(fields[0], LowTy::I32));
    assert!(matches!(fields[1], LowTy::Struct(_)));
    let only_tag = lower_enum_fields(vec![], &vec![], &vec![]);
    assert_eq!(only_tag.len(), 1);
}
