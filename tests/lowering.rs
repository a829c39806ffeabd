use mpc::defs::{compile_to_of, CompileTo};
use mpc::layout::lower_union;
use mpc::lower::{
    bin_inst, build_bin, build_cast, build_un, cast_op, func_abi, lit_semantics, ty_semantics,
    un_inst, BinInst, BinOp, CastOp, IntPred, ParamPass, RealPred, Semantics, UnInst, UnOp,
};
use mpc::tctx::TVarCtx;
use mpc::ty::Ty;

#[test]
fn semantics_of_types() {
    assert_eq!(lit_semantics(&Ty::Tuple(vec![])), Semantics::Void);
    assert_eq!(lit_semantics(&Ty::Int32), Semantics::Value);
    assert_eq!(lit_semantics(&Ty::Ptr(false, Box::new(Ty::Int8))), Semantics::Value);
    assert_eq!(
        lit_semantics(&Ty::Func(vec![], false, Box::new(Ty::Int32))),
        Semantics::Value
    );
    assert_eq!(lit_semantics(&Ty::Arr(4, Box::new(Ty::Int32))), Semantics::Addr);
    assert_eq!(lit_semantics(&Ty::Tuple(vec![(0, Ty::Bool)])), Semantics::Addr);
    assert_eq!(lit_semantics(&Ty::EnumRef(1, 2, vec![])), Semantics::Addr);
}

#[test]
fn semantics_through_variables() {
    let mut ctx = TVarCtx::new();
    let a = ctx.tvar(Ty::BoundAny);
    let n = ctx.tvar(Ty::BoundNum);
    assert_eq!(ty_semantics(&mut ctx, &a), Semantics::Void);
    assert_eq!(ty_semantics(&mut ctx, &n), Semantics::Value);
}

#[test]
fn casts_between_integers() {
    assert_eq!(cast_op(&Ty::Int64, &Ty::Int32), Some(CastOp::SExt));
    assert_eq!(cast_op(&Ty::Uint64, &Ty::Int32), Some(CastOp::ZExt));
    assert_eq!(cast_op(&Ty::Int8, &Ty::Uint32), Some(CastOp::Trunc));
    assert_eq!(cast_op(&Ty::Uint32, &Ty::Int32), Some(CastOp::Identity));
    assert_eq!(cast_op(&Ty::Intn, &Ty::Uint64), Some(CastOp::Identity));
    assert_eq!(cast_op(&Ty::Int16, &Ty::Int16), Some(CastOp::Identity));
}

#[test]
fn casts_involving_floats_and_pointers() {
    let p = Ty::Ptr(false, Box::new(Ty::Int8));
    let q = Ty::Ptr(true, Box::new(Ty::Int32));
    let f = Ty::Func(vec![], false, Box::new(Ty::Int32));
    assert_eq!(cast_op(&p, &q), Some(CastOp::Identity));
    assert_eq!(cast_op(&f, &p), Some(CastOp::Identity));
    assert_eq!(cast_op(&Ty::Uintn, &p), Some(CastOp::PtrToInt));
    assert_eq!(cast_op(&p, &Ty::Uintn), Some(CastOp::IntToPtr));
    assert_eq!(cast_op(&Ty::Float, &Ty::Double), Some(CastOp::FpTrunc));
    assert_eq!(cast_op(&Ty::Double, &Ty::Float), Some(CastOp::FpExt));
    assert_eq!(cast_op(&Ty::Double, &Ty::Uint8), Some(CastOp::UiToFp));
    assert_eq!(cast_op(&Ty::Float, &Ty::Int8), Some(CastOp::SiToFp));
    assert_eq!(cast_op(&Ty::Uint16, &Ty::Float), Some(CastOp::FpToUi));
    assert_eq!(cast_op(&Ty::Int16, &Ty::Double), Some(CastOp::FpToSi));
    assert_eq!(cast_op(&Ty::Bool, &Ty::Int8), None);
    assert_eq!(cast_op(&Ty::Float, &p), None);
}

#[test]
fn cast_decided_on_literal_types() {
    let mut ctx = TVarCtx::new();
    let n = ctx.tvar(Ty::BoundNum);
    assert_eq!(build_cast(&mut ctx, &Ty::Int64, &n), Some(CastOp::SExt));
    assert_eq!(build_cast(&mut ctx, &n, &Ty::Int32), Some(CastOp::Identity));
}

#[test]
fn binary_instructions() {
    assert_eq!(bin_inst(BinOp::Div, &Ty::Int32), Some(BinInst::SDiv));
    assert_eq!(bin_inst(BinOp::Div, &Ty::Uint32), Some(BinInst::UDiv));
    assert_eq!(bin_inst(BinOp::Div, &Ty::Double), Some(BinInst::FDiv));
    assert_eq!(bin_inst(BinOp::Mod, &Ty::Int8), Some(BinInst::SRem));
    assert_eq!(bin_inst(BinOp::Mod, &Ty::Float), None);
    assert_eq!(bin_inst(BinOp::Rsh, &Ty::Intn), Some(BinInst::AShr));
    assert_eq!(bin_inst(BinOp::Rsh, &Ty::Uintn), Some(BinInst::LShr));
    assert_eq!(bin_inst(BinOp::Lsh, &Ty::Uint8), Some(BinInst::Shl));
    assert_eq!(bin_inst(BinOp::Add, &Ty::Float), Some(BinInst::FAdd));
    assert_eq!(bin_inst(BinOp::Mul, &Ty::Uint64), Some(BinInst::Mul));
    assert_eq!(bin_inst(BinOp::Xor, &Ty::Double), None);
    assert_eq!(bin_inst(BinOp::Lt, &Ty::Int16), Some(BinInst::ICmp(IntPred::Slt)));
    assert_eq!(bin_inst(BinOp::Ge, &Ty::Uint16), Some(BinInst::ICmp(IntPred::Uge)));
    assert_eq!(bin_inst(BinOp::Eq, &Ty::Double), Some(BinInst::FCmp(RealPred::Oeq)));
    assert_eq!(bin_inst(BinOp::Ne, &Ty::Float), Some(BinInst::FCmp(RealPred::One)));
    assert_eq!(bin_inst(BinOp::Eq, &Ty::Bool), None);
}

#[test]
fn unary_instructions() {
    assert_eq!(un_inst(UnOp::UPlus, &Ty::Double), Some(UnInst::Identity));
    assert_eq!(un_inst(UnOp::UMinus, &Ty::Int32), Some(UnInst::Neg));
    assert_eq!(un_inst(UnOp::UMinus, &Ty::Float), Some(UnInst::FNeg));
    assert_eq!(un_inst(UnOp::Not, &Ty::Uint8), Some(UnInst::Not));
    assert_eq!(un_inst(UnOp::Not, &Ty::Float), None);
}

#[test]
fn operations_decided_on_literal_types() {
    let mut ctx = TVarCtx::new();
    let n = ctx.tvar(Ty::BoundNum);
    let f = ctx.tvar(Ty::BoundFlt);
    assert_eq!(build_bin(&mut ctx, &n, BinOp::Div), Some(BinInst::SDiv));
    assert_eq!(build_bin(&mut ctx, &f, BinOp::Div), Some(BinInst::FDiv));
    assert_eq!(build_un(&mut ctx, &f, UnOp::UMinus), Some(UnInst::FNeg));
}

#[test]
fn union_layout_of_int8_and_int64() {
    let sizes = vec![1u64, 8];
    let aligns = vec![1u64, 8];
    let l = lower_union(&sizes, &aligns).unwrap();
    assert_eq!(l.field, 1);
    assert_eq!(l.padding, 0);
}

#[test]
fn union_layout_pads_to_largest_member() {
    let sizes = vec![4u64, 10, 2];
    let aligns = vec![4u64, 1, 4];
    let l = lower_union(&sizes, &aligns).unwrap();
    assert_eq!(l.field, 0);
    assert_eq!(l.padding, 6);
}

#[test]
fn aggregate_return_uses_out_pointer() {
    let abi = func_abi(&vec![], Semantics::Addr).unwrap();
    assert!(abi.out_pointer);
    assert!(!abi.returns_value);
    assert!(abi.params.is_empty());
    let abi = func_abi(&vec![Semantics::Value, Semantics::Addr], Semantics::Value).unwrap();
    assert!(!abi.out_pointer);
    assert!(abi.returns_value);
    assert_eq!(abi.params, vec![ParamPass::Value, ParamPass::Pointer]);
    assert!(func_abi(&vec![Semantics::Void], Semantics::Void).is_none());
}

#[test]
fn output_artifact_from_flags() {
    assert_eq!(compile_to_of(true, true), CompileTo::LLVMIr);
    assert_eq!(compile_to_of(false, true), CompileTo::Assembly);
    assert_eq!(compile_to_of(false, false), CompileTo::Object);
}

#[test]
fn empty_union_has_no_fields() {
    assert!(lower_union(&vec![], &vec![]).is_none());
}
