use vstd::prelude::*;
use crate::ty::{Ty, TyM, is_int, is_signed, is_float, is_int_ty, is_signed_ty, is_float_ty, ty_eq};
use crate::tctx::{TVarCtx, lit_of};

verus! {

/// How values of a type are handled in the lowered program.
#[derive(Clone, Copy, Debug, PartialEq, Eq, Structural)]
pub enum Semantics {
    /// No value at all: the unit type.
    Void,
    /// Held in a register: scalars, pointers and functions.
    Value,
    /// Handled through a pointer to its storage: arrays, tuples and nominal
    /// types.
    Addr,
}

/// Semantics of a literal type. Bounds and variables never reach this point
/// after `lit_ty`; they are classed with the aggregates.
pub open spec fn semantics_of(t: TyM) -> Semantics {
    match t {
        TyM::Tuple(ps) => if ps.len() == 0 {
            Semantics::Void
        } else {
            Semantics::Addr
        },
        TyM::Bool | TyM::Uint8 | TyM::Int8 | TyM::Uint16 | TyM::Int16 | TyM::Uint32 | TyM::Int32
        | TyM::Uint64 | TyM::Int64 | TyM::Uintn | TyM::Intn | TyM::Float | TyM::Double
        | TyM::Ptr(..) | TyM::Func(..) => Semantics::Value,
        _ => Semantics::Addr,
    }
}

/// Semantics of a type that is already literal.
pub fn lit_semantics(t: &Ty) -> (r: Semantics)
    ensures
        r == semantics_of(t@),
{
    match t {
        Ty::Tuple(ps) => {
            proof {
                crate::ty::lemma_fields_model(ps@);
            }
            if ps.len() == 0 {
                Semantics::Void
            } else {
                Semantics::Addr
            }
        },
        Ty::Bool | Ty::Uint8 | Ty::Int8 | Ty::Uint16 | Ty::Int16 | Ty::Uint32 | Ty::Int32
        | Ty::Uint64 | Ty::Int64 | Ty::Uintn | Ty::Intn | Ty::Float | Ty::Double | Ty::Ptr(..)
        | Ty::Func(..) => Semantics::Value,
        _ => Semantics::Addr,
    }
}

/// Semantics of a type: those of its literal type.
pub fn ty_semantics(tctx: &mut TVarCtx, ty: &Ty) -> (r: Semantics)
    requires
        old(tctx).wf(),
        old(tctx).valid(ty@),
    ensures
        TVarCtx::same_classes(*old(tctx), *final(tctx)),
        r == semantics_of(lit_of(old(tctx).classes(), ty@, old(tctx).len())),
{
    let lit = tctx.lit_ty(ty);
    lit_semantics(&lit)
}

/// Width in bits of an integer type; `Uintn` and `Intn` are 64 bits wide.
pub open spec fn int_bits(t: TyM) -> int {
    match t {
        TyM::Uint8 | TyM::Int8 => 8,
        TyM::Uint16 | TyM::Int16 => 16,
        TyM::Uint32 | TyM::Int32 => 32,
        _ => 64,
    }
}

pub fn int_bits_of(t: &Ty) -> (r: u32)
    ensures
        r == int_bits(t@),
{
    match t {
        Ty::Uint8 | Ty::Int8 => 8,
        Ty::Uint16 | Ty::Int16 => 16,
        Ty::Uint32 | Ty::Int32 => 32,
        _ => 64,
    }
}

/// Conversion instruction for a cast.
#[derive(Clone, Copy, Debug, PartialEq, Eq, Structural)]
pub enum CastOp {
    Identity,
    PtrToInt,
    IntToPtr,
    FpTrunc,
    FpExt,
    UiToFp,
    SiToFp,
    FpToUi,
    FpToSi,
    Trunc,
    ZExt,
    SExt,
}

pub open spec fn is_pointer_like(t: TyM) -> bool {
    t is Ptr || t is Func
}

/// The instruction that casts a value of literal type `src` to literal type
/// `dest`, or `None` for a combination that has no cast.
pub open spec fn cast_of(dest: TyM, src: TyM) -> Option<CastOp> {
    if dest == src {
        Some(CastOp::Identity)
    } else if is_pointer_like(dest) && is_pointer_like(src) {
        Some(CastOp::Identity)
    } else if is_int(dest) && src is Ptr {
        Some(CastOp::PtrToInt)
    } else if dest is Ptr && is_int(src) {
        Some(CastOp::IntToPtr)
    } else if dest is Float && src is Double {
        Some(CastOp::FpTrunc)
    } else if dest is Double && src is Float {
        Some(CastOp::FpExt)
    } else if is_float(dest) && is_int(src) {
        if is_signed(src) {
            Some(CastOp::SiToFp)
        } else {
            Some(CastOp::UiToFp)
        }
    } else if is_int(dest) && is_float(src) {
        if is_signed(dest) {
            Some(CastOp::FpToSi)
        } else {
            Some(CastOp::FpToUi)
        }
    } else if is_int(dest) && is_int(src) {
        if int_bits(dest) == int_bits(src) {
            Some(CastOp::Identity)
        } else if int_bits(dest) < int_bits(src) {
            Some(CastOp::Trunc)
        } else if is_signed(dest) {
            Some(CastOp::SExt)
        } else {
            Some(CastOp::ZExt)
        }
    } else {
        None
    }
}

/// The cast instruction between two literal types.
pub fn cast_op(dest: &Ty, src: &Ty) -> (r: Option<CastOp>)
    ensures
        r == cast_of(dest@, src@),
{
    let dest_ptr = matches!(dest, Ty::Ptr(..));
    let src_ptr = matches!(src, Ty::Ptr(..));
    let dest_fn = matches!(dest, Ty::Func(..));
    let src_fn = matches!(src, Ty::Func(..));
    if ty_eq(dest, src) {
        Some(CastOp::Identity)
    } else if (dest_ptr || dest_fn) && (src_ptr || src_fn) {
        Some(CastOp::Identity)
    } else if is_int_ty(dest) && src_ptr {
        Some(CastOp::PtrToInt)
    } else if dest_ptr && is_int_ty(src) {
        Some(CastOp::IntToPtr)
    } else if matches!(dest, Ty::Float) && matches!(src, Ty::Double) {
        Some(CastOp::FpTrunc)
    } else if matches!(dest, Ty::Double) && matches!(src, Ty::Float) {
        Some(CastOp::FpExt)
    } else if is_float_ty(dest) && is_int_ty(src) {
        if is_signed_ty(src) {
            Some(CastOp::SiToFp)
        } else {
            Some(CastOp::UiToFp)
        }
    } else if is_int_ty(dest) && is_float_ty(src) {
        if is_signed_ty(dest) {
            Some(CastOp::FpToSi)
        } else {
            Some(CastOp::FpToUi)
        }
    } else if is_int_ty(dest) && is_int_ty(src) {
        let db = int_bits_of(dest);
        let sb = int_bits_of(src);
        if db == sb {
            Some(CastOp::Identity)
        } else if db < sb {
            Some(CastOp::Trunc)
        } else if is_signed_ty(dest) {
            Some(CastOp::SExt)
        } else {
            Some(CastOp::ZExt)
        }
    } else {
        None
    }
}

/// The instruction for a cast from `src_ty` to `dest_ty`, decided on their
/// literal types.
pub fn build_cast(tctx: &mut TVarCtx, dest_ty: &Ty, src_ty: &Ty) -> (r: Option<CastOp>)
    requires
        old(tctx).wf(),
        old(tctx).valid(dest_ty@),
        old(tctx).valid(src_ty@),
    ensures
        TVarCtx::same_classes(*old(tctx), *final(tctx)),
        r == cast_of(
            lit_of(old(tctx).classes(), dest_ty@, old(tctx).len()),
            lit_of(old(tctx).classes(), src_ty@, old(tctx).len()),
        ),
{
    let dest = tctx.lit_ty(dest_ty);
    let src = tctx.lit_ty(src_ty);
    cast_op(&dest, &src)
}

/// Binary operators of the source language.
#[derive(Clone, Copy, Debug, PartialEq, Eq, Structural)]
pub enum BinOp {
    Mul,
    Div,
    Mod,
    Add,
    Sub,
    Lsh,
    Rsh,
    And,
    Xor,
    Or,
    Eq,
    Ne,
    Lt,
    Gt,
    Le,
    Ge,
}

/// Unary operators of the source language.
#[derive(Clone, Copy, Debug, PartialEq, Eq, Structural)]
pub enum UnOp {
    UPlus,
    UMinus,
    Not,
}

/// Integer comparison predicates.
#[derive(Clone, Copy, Debug, PartialEq, Eq, Structural)]
pub enum IntPred {
    Eq,
    Ne,
    Ult,
    Ugt,
    Ule,
    Uge,
    Slt,
    Sgt,
    Sle,
    Sge,
}

/// Ordered floating-point comparison predicates.
#[derive(Clone, Copy, Debug, PartialEq, Eq, Structural)]
pub enum RealPred {
    Oeq,
    One,
    Olt,
    Ogt,
    Ole,
    Oge,
}

/// Instruction for a binary operation.
#[derive(Clone, Copy, Debug, PartialEq, Eq, Structural)]
pub enum BinInst {
    Mul,
    FMul,
    UDiv,
    SDiv,
    FDiv,
    URem,
    SRem,
    Add,
    FAdd,
    Sub,
    FSub,
    Shl,
    LShr,
    AShr,
    And,
    Xor,
    Or,
    ICmp(IntPred),
    FCmp(RealPred),
}

/// Instruction for a unary operation.
#[derive(Clone, Copy, Debug, PartialEq, Eq, Structural)]
pub enum UnInst {
    /// The operand itself.
    Identity,
    Neg,
    FNeg,
    Not,
}

/// The instruction for `op` on operands of literal type `t`: integer or
/// floating point by the type, signed or unsigned for division, remainder,
/// right shift and ordering; `None` where the operator does not apply.
pub open spec fn bin_inst_of(op: BinOp, t: TyM) -> Option<BinInst> {
    let i = is_int(t);
    let f = is_float(t);
    let s = is_signed(t);
    match op {
        BinOp::Mul => if i { Some(BinInst::Mul) } else if f { Some(BinInst::FMul) } else { None },
        BinOp::Div => if i && s {
            Some(BinInst::SDiv)
        } else if i {
            Some(BinInst::UDiv)
        } else if f {
            Some(BinInst::FDiv)
        } else {
            None
        },
        BinOp::Mod => if i && s {
            Some(BinInst::SRem)
        } else if i {
            Some(BinInst::URem)
        } else {
            None
        },
        BinOp::Add => if i { Some(BinInst::Add) } else if f { Some(BinInst::FAdd) } else { None },
        BinOp::Sub => if i { Some(BinInst::Sub) } else if f { Some(BinInst::FSub) } else { None },
        BinOp::Lsh => if i { Some(BinInst::Shl) } else { None },
        BinOp::Rsh => if i && s {
            Some(BinInst::AShr)
        } else if i {
            Some(BinInst::LShr)
        } else {
            None
        },
        BinOp::And => if i { Some(BinInst::And) } else { None },
        BinOp::Xor => if i { Some(BinInst::Xor) } else { None },
        BinOp::Or => if i { Some(BinInst::Or) } else { None },
        BinOp::Eq => if i {
            Some(BinInst::ICmp(IntPred::Eq))
        } else if f {
            Some(BinInst::FCmp(RealPred::Oeq))
        } else {
            None
        },
        BinOp::Ne => if i {
            Some(BinInst::ICmp(IntPred::Ne))
        } else if f {
            Some(BinInst::FCmp(RealPred::One))
        } else {
            None
        },
        BinOp::Lt => if i && s {
            Some(BinInst::ICmp(IntPred::Slt))
        } else if i {
            Some(BinInst::ICmp(IntPred::Ult))
        } else if f {
            Some(BinInst::FCmp(RealPred::Olt))
        } else {
            None
        },
        BinOp::Gt => if i && s {
            Some(BinInst::ICmp(IntPred::Sgt))
        } else if i {
            Some(BinInst::ICmp(IntPred::Ugt))
        } else if f {
            Some(BinInst::FCmp(RealPred::Ogt))
        } else {
            None
        },
        BinOp::Le => if i && s {
            Some(BinInst::ICmp(IntPred::Sle))
        } else if i {
            Some(BinInst::ICmp(IntPred::Ule))
        } else if f {
            Some(BinInst::FCmp(RealPred::Ole))
        } else {
            None
        },
        BinOp::Ge => if i && s {
            Some(BinInst::ICmp(IntPred::Sge))
        } else if i {
            Some(BinInst::ICmp(IntPred::Uge))
        } else if f {
            Some(BinInst::FCmp(RealPred::Oge))
        } else {
            None
        },
    }
}

/// The instruction for a binary operation on operands of literal type `t`.
pub fn bin_inst(op: BinOp, t: &Ty) -> (r: Option<BinInst>)
    ensures
        r == bin_inst_of(op, t@),
{
    let i = is_int_ty(t);
    let f = is_float_ty(t);
    let s = is_signed_ty(t);
    match op {
        BinOp::Mul => if i { Some(BinInst::Mul) } else if f { Some(BinInst::FMul) } else { None },
        BinOp::Div => if i && s {
            Some(BinInst::SDiv)
        } else if i {
            Some(BinInst::UDiv)
        } else if f {
            Some(BinInst::FDiv)
        } else {
            None
        },
        BinOp::Mod => if i && s {
            Some(BinInst::SRem)
        } else if i {
            Some(BinInst::URem)
        } else {
            None
        },
        BinOp::Add => if i { Some(BinInst::Add) } else if f { Some(BinInst::FAdd) } else { None },
        BinOp::Sub => if i { Some(BinInst::Sub) } else if f { Some(BinInst::FSub) } else { None },
        BinOp::Lsh => if i { Some(BinInst::Shl) } else { None },
        BinOp::Rsh => if i && s {
            Some(BinInst::AShr)
        } else if i {
            Some(BinInst::LShr)
        } else {
            None
        },
        BinOp::And => if i { Some(BinInst::And) } else { None },
        BinOp::Xor => if i { Some(BinInst::Xor) } else { None },
        BinOp::Or => if i { Some(BinInst::Or) } else { None },
        BinOp::Eq => if i {
            Some(BinInst::ICmp(IntPred::Eq))
        } else if f {
            Some(BinInst::FCmp(RealPred::Oeq))
        } else {
            None
        },
        BinOp::Ne => if i {
            Some(BinInst::ICmp(IntPred::Ne))
        } else if f {
            Some(BinInst::FCmp(RealPred::One))
        } else {
            None
        },
        BinOp::Lt => if i && s {
            Some(BinInst::ICmp(IntPred::Slt))
        } else if i {
            Some(BinInst::ICmp(IntPred::Ult))
        } else if f {
            Some(BinInst::FCmp(RealPred::Olt))
        } else {
            None
        },
        BinOp::Gt => if i && s {
            Some(BinInst::ICmp(IntPred::Sgt))
        } else if i {
            Some(BinInst::ICmp(IntPred::Ugt))
        } else if f {
            Some(BinInst::FCmp(RealPred::Ogt))
        } else {
            None
        },
        BinOp::Le => if i && s {
            Some(BinInst::ICmp(IntPred::Sle))
        } else if i {
            Some(BinInst::ICmp(IntPred::Ule))
        } else if f {
            Some(BinInst::FCmp(RealPred::Ole))
        } else {
            None
        },
        BinOp::Ge => if i && s {
            Some(BinInst::ICmp(IntPred::Sge))
        } else if i {
            Some(BinInst::ICmp(IntPred::Uge))
        } else if f {
            Some(BinInst::FCmp(RealPred::Oge))
        } else {
            None
        },
    }
}

/// The instruction for `op` on an operand of literal type `t`: `+` is the
/// operand itself on numbers, `-` negates numbers, `~` complements integers.
pub open spec fn un_inst_of(op: UnOp, t: TyM) -> Option<UnInst> {
    match op {
        UnOp::UPlus => if is_int(t) || is_float(t) { Some(UnInst::Identity) } else { None },
        UnOp::UMinus => if is_int(t) {
            Some(UnInst::Neg)
        } else if is_float(t) {
            Some(UnInst::FNeg)
        } else {
            None
        },
        UnOp::Not => if is_int(t) { Some(UnInst::Not) } else { None },
    }
}

/// The instruction for a unary operation on an operand of literal type `t`.
pub fn un_inst(op: UnOp, t: &Ty) -> (r: Option<UnInst>)
    ensures
        r == un_inst_of(op, t@),
{
    match op {
        UnOp::UPlus => if is_int_ty(t) || is_float_ty(t) { Some(UnInst::Identity) } else { None },
        UnOp::UMinus => if is_int_ty(t) {
            Some(UnInst::Neg)
        } else if is_float_ty(t) {
            Some(UnInst::FNeg)
        } else {
            None
        },
        UnOp::Not => if is_int_ty(t) { Some(UnInst::Not) } else { None },
    }
}

/// The instruction for a binary operation, decided on the literal type of
/// its operands.
pub fn build_bin(tctx: &mut TVarCtx, ty: &Ty, op: BinOp) -> (r: Option<BinInst>)
    requires
        old(tctx).wf(),
        old(tctx).valid(ty@),
    ensures
        TVarCtx::same_classes(*old(tctx), *final(tctx)),
        r == bin_inst_of(op, lit_of(old(tctx).classes(), ty@, old(tctx).len())),
{
    let lit = tctx.lit_ty(ty);
    bin_inst(op, &lit)
}

/// The instruction for a unary operation, decided on the literal type of its
/// operand.
pub fn build_un(tctx: &mut TVarCtx, ty: &Ty, op: UnOp) -> (r: Option<UnInst>)
    requires
        old(tctx).wf(),
        old(tctx).valid(ty@),
    ensures
        TVarCtx::same_classes(*old(tctx), *final(tctx)),
        r == un_inst_of(op, lit_of(old(tctx).classes(), ty@, old(tctx).len())),
{
    let lit = tctx.lit_ty(ty);
    un_inst(op, &lit)
}

/// How a parameter is passed to a lowered function.
#[derive(Clone, Copy, Debug, PartialEq, Eq, Structural)]
pub enum ParamPass {
    /// The value itself.
    Value,
    /// A pointer to the value's storage.
    Pointer,
}

/// Calling convention of a lowered function.
pub struct FuncAbi {
    /// A hidden pointer to storage for the result comes first, and the
    /// function returns nothing.
    pub out_pointer: bool,
    /// How each declared parameter is passed, in order.
    pub params: Vec<ParamPass>,
    /// The function returns a value in the ordinary way.
    pub returns_value: bool,
}

pub open spec fn pass_of(s: Semantics) -> ParamPass {
    if s == Semantics::Value {
        ParamPass::Value
    } else {
        ParamPass::Pointer
    }
}

/// The calling convention for parameters and a result of the given
/// semantics: values are passed and returned as they are, aggregates by
/// pointer; an aggregate result is written through a hidden first pointer
/// parameter. A parameter without a value has no convention.
pub fn func_abi(params: &Vec<Semantics>, ret: Semantics) -> (r: Option<FuncAbi>)
    ensures
        r is None <==> exists|k: int| 0 <= k < params.len() && params@[k] == Semantics::Void,
        r matches Some(abi) ==> {
            &&& abi.out_pointer == (ret == Semantics::Addr)
            &&& abi.returns_value == (ret == Semantics::Value)
            &&& abi.params@.len() == params.len()
            &&& forall|k: int| 0 <= k < params.len() ==> abi.params@[k] == pass_of(#[trigger] params@[k])
        },
{
    let mut out: Vec<ParamPass> = Vec::new();
    let mut k: usize = 0;
    while k < params.len()
        invariant
            k <= params.len(),
            out@.len() == k,
            forall|j: int| 0 <= j < k ==> params@[j] != Semantics::Void,
            forall|j: int| 0 <= j < k ==> out@[j] == pass_of(#[trigger] params@[j]),
        decreases params.len() - k,
    {
        match params[k] {
            Semantics::Void => return None,
            Semantics::Value => out.push(ParamPass::Value),
            Semantics::Addr => out.push(ParamPass::Pointer),
        }
        k = k + 1;
    }
    Some(FuncAbi {
        out_pointer: ret == Semantics::Addr,
        params: out,
        returns_value: ret == Semantics::Value,
    })
}

/// How a value is read from storage.
#[derive(Clone, Copy, Debug, PartialEq, Eq, Structural)]
pub enum LoadKind {
    /// There is no value.
    Nothing,
    /// The value is the address of the storage itself; nothing is copied.
    Address,
    /// A scalar load.
    Scalar,
}

/// How a value is written to storage.
#[derive(Clone, Copy, Debug, PartialEq, Eq, Structural)]
pub enum StoreKind {
    /// Nothing to write.
    Nothing,
    /// An aligned copy of the type's store size from the source address.
    Copy,
    /// A scalar store.
    Scalar,
}

/// How a function returns a value.
#[derive(Clone, Copy, Debug, PartialEq, Eq, Structural)]
pub enum RetKind {
    /// A return without a value.
    Void,
    /// A return of the value.
    Value,
    /// The value is copied through the hidden out-pointer, then a return
    /// without a value.
    OutPointer,
}

pub open spec fn load_kind_of(s: Semantics) -> LoadKind {
    match s {
        Semantics::Void => LoadKind::Nothing,
        Semantics::Addr => LoadKind::Address,
        Semantics::Value => LoadKind::Scalar,
    }
}

pub open spec fn store_kind_of(s: Semantics) -> StoreKind {
    match s {
        Semantics::Void => StoreKind::Nothing,
        Semantics::Addr => StoreKind::Copy,
        Semantics::Value => StoreKind::Scalar,
    }
}

pub open spec fn ret_kind_of(s: Semantics) -> RetKind {
    match s {
        Semantics::Void => RetKind::Void,
        Semantics::Addr => RetKind::OutPointer,
        Semantics::Value => RetKind::Value,
    }
}

/// How a value of the given semantics is loaded.
pub fn load_kind(s: Semantics) -> (r: LoadKind)
    ensures
        r == load_kind_of(s),
{
    match s {
        Semantics::Void => LoadKind::Nothing,
        Semantics::Addr => LoadKind::Address,
        Semantics::Value => LoadKind::Scalar,
    }
}

/// How a value of the given semantics is stored.
pub fn store_kind(s: Semantics) -> (r: StoreKind)
    ensures
        r == store_kind_of(s),
{
    match s {
        Semantics::Void => StoreKind::Nothing,
        Semantics::Addr => StoreKind::Copy,
        Semantics::Value => StoreKind::Scalar,
    }
}

/// How a result of the given semantics is returned.
pub fn ret_kind(s: Semantics) -> (r: RetKind)
    ensures
        r == ret_kind_of(s),
{
    match s {
        Semantics::Void => RetKind::Void,
        Semantics::Addr => RetKind::OutPointer,
        Semantics::Value => RetKind::Value,
    }
}

/// Whether a local of the given semantics gets a stack slot: all but those
/// without a value.
pub fn needs_slot(s: Semantics) -> (r: bool)
    ensures
        r == (s != Semantics::Void),
{
    !matches!(s, Semantics::Void)
}

} // verus!
