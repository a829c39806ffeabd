use vstd::prelude::*;
use crate::ty::{Ty, Name, DefId};
use crate::lower::{BinOp, UnOp};

verus! {

/// Handle of a local storage slot: a parameter, a `let` or a binding.
#[derive(Clone, Copy, Debug, PartialEq, Eq, Hash, Structural)]
pub struct LocalId(pub usize);

/// Definition of a local.
pub enum LocalDef {
    Param { name: Name, ty: Ty, is_mut: bool, index: usize },
    Let { name: Name, ty: Ty, is_mut: bool },
}

impl LocalDef {
    pub open spec fn spec_name(&self) -> Name {
        match self {
            LocalDef::Param { name, .. } => *name,
            LocalDef::Let { name, .. } => *name,
        }
    }

    /// The name the local was declared with.
    pub fn name(&self) -> (r: Name)
        ensures
            r == self.spec_name(),
    {
        match self {
            LocalDef::Param { name, .. } => *name,
            LocalDef::Let { name, .. } => *name,
        }
    }
}

/// Variant of an enum definition.
pub enum Variant {
    Unit(Name),
    Struct(Name, Vec<(Name, Ty)>),
}

/// Choice of output artifact.
#[derive(Clone, Copy, Debug, PartialEq, Eq, Structural)]
pub enum CompileTo {
    LLVMIr,
    Assembly,
    Object,
}

/// The artifact asked for by the command line flags: textual IR wins over
/// assembly, and a native object is the default.
pub fn compile_to_of(llvm_ir: bool, assembly: bool) -> (r: CompileTo)
    ensures
        r == (if llvm_ir {
            CompileTo::LLVMIr
        } else if assembly {
            CompileTo::Assembly
        } else {
            CompileTo::Object
        }),
{
    if llvm_ir {
        CompileTo::LLVMIr
    } else if assembly {
        CompileTo::Assembly
    } else {
        CompileTo::Object
    }
}

/// Expressions that denote storage: each has a type and a mutability.
pub enum LValue {
    DataRef { ty: Ty, is_mut: bool, id: DefId },
    ParamRef { ty: Ty, is_mut: bool, id: LocalId },
    LetRef { ty: Ty, is_mut: bool, id: LocalId },
    BindingRef { ty: Ty, is_mut: bool, id: LocalId },
    StrLit { ty: Ty, is_mut: bool, val: Vec<u8> },
    ArrayLit { ty: Ty, is_mut: bool, elements: Vec<RValue> },
    UnionLit { ty: Ty, is_mut: bool, field: Name, val: Box<RValue> },
    StructLit { ty: Ty, is_mut: bool, fields: Vec<RValue> },
    UnitVariantLit { ty: Ty, is_mut: bool, index: usize },
    StructVariantLit { ty: Ty, is_mut: bool, index: usize, fields: Vec<RValue> },
    StruDot { ty: Ty, is_mut: bool, arg: Box<LValue>, idx: usize },
    UnionDot { ty: Ty, is_mut: bool, arg: Box<LValue> },
    Index { ty: Ty, is_mut: bool, arg: Box<LValue>, idx: Box<RValue> },
    Ind { ty: Ty, is_mut: bool, arg: Box<RValue> },
}

/// Expressions that denote values: each has a type.
pub enum RValue {
    Unit { ty: Ty },
    FuncRef { ty: Ty, id: DefId, args: Vec<Ty> },
    CStr { ty: Ty, val: Vec<u8> },
    Load { ty: Ty, arg: Box<LValue> },
    Nil { ty: Ty },
    Bool { ty: Ty, val: bool },
    Int { ty: Ty, val: usize },
    Flt { ty: Ty, bits: u64 },
    Call { ty: Ty, arg: Box<RValue>, args: Vec<RValue> },
    Adr { ty: Ty, arg: Box<LValue> },
    Un { ty: Ty, op: UnOp, arg: Box<RValue> },
    Cast { ty: Ty, arg: Box<RValue> },
    Bin { ty: Ty, op: BinOp, lhs: Box<RValue>, rhs: Box<RValue> },
    LNot { ty: Ty, arg: Box<RValue> },
    LAnd { ty: Ty, lhs: Box<RValue>, rhs: Box<RValue> },
    LOr { ty: Ty, lhs: Box<RValue>, rhs: Box<RValue> },
    Block { ty: Ty, body: Vec<RValue> },
    As { ty: Ty, lhs: Box<LValue>, rhs: Box<RValue> },
    Rmw { ty: Ty, op: BinOp, lhs: Box<LValue>, rhs: Box<RValue> },
    Continue { ty: Ty },
    Break { ty: Ty, arg: Box<RValue> },
    Return { ty: Ty, arg: Box<RValue> },
    Let { ty: Ty, id: LocalId, init: Option<Box<RValue>> },
    If { ty: Ty, cond: Box<RValue>, tbody: Box<RValue>, ebody: Box<RValue> },
    While { ty: Ty, cond: Box<RValue>, body: Box<RValue> },
    Loop { ty: Ty, body: Box<RValue> },
    Match { ty: Ty, cond: Box<LValue>, arms: Vec<(Option<LocalId>, RValue)> },
}

impl LValue {
    pub open spec fn spec_ty(&self) -> Ty {
        match self {
            LValue::DataRef { ty, .. } => *ty,
            LValue::ParamRef { ty, .. } => *ty,
            LValue::LetRef { ty, .. } => *ty,
            LValue::BindingRef { ty, .. } => *ty,
            LValue::StrLit { ty, .. } => *ty,
            LValue::ArrayLit { ty, .. } => *ty,
            LValue::UnionLit { ty, .. } => *ty,
            LValue::StructLit { ty, .. } => *ty,
            LValue::UnitVariantLit { ty, .. } => *ty,
            LValue::StructVariantLit { ty, .. } => *ty,
            LValue::StruDot { ty, .. } => *ty,
            LValue::UnionDot { ty, .. } => *ty,
            LValue::Index { ty, .. } => *ty,
            LValue::Ind { ty, .. } => *ty,
        }
    }

    /// The type of the storage.
    pub fn ty(&self) -> (r: &Ty)
        ensures
            *r == self.spec_ty(),
    {
        match self {
            LValue::DataRef { ty, .. } => ty,
            LValue::ParamRef { ty, .. } => ty,
            LValue::LetRef { ty, .. } => ty,
            LValue::BindingRef { ty, .. } => ty,
            LValue::StrLit { ty, .. } => ty,
            LValue::ArrayLit { ty, .. } => ty,
            LValue::UnionLit { ty, .. } => ty,
            LValue::StructLit { ty, .. } => ty,
            LValue::UnitVariantLit { ty, .. } => ty,
            LValue::StructVariantLit { ty, .. } => ty,
            LValue::StruDot { ty, .. } => ty,
            LValue::UnionDot { ty, .. } => ty,
            LValue::Index { ty, .. } => ty,
            LValue::Ind { ty, .. } => ty,
        }
    }

    pub open spec fn spec_is_mut(&self) -> bool {
        match self {
            LValue::DataRef { is_mut, .. } => *is_mut,
            LValue::ParamRef { is_mut, .. } => *is_mut,
            LValue::LetRef { is_mut, .. } => *is_mut,
            LValue::BindingRef { is_mut, .. } => *is_mut,
            LValue::StrLit { is_mut, .. } => *is_mut,
            LValue::ArrayLit { is_mut, .. } => *is_mut,
            LValue::UnionLit { is_mut, .. } => *is_mut,
            LValue::StructLit { is_mut, .. } => *is_mut,
            LValue::UnitVariantLit { is_mut, .. } => *is_mut,
            LValue::StructVariantLit { is_mut, .. } => *is_mut,
            LValue::StruDot { is_mut, .. } => *is_mut,
            LValue::UnionDot { is_mut, .. } => *is_mut,
            LValue::Index { is_mut, .. } => *is_mut,
            LValue::Ind { is_mut, .. } => *is_mut,
        }
    }

    /// Whether the storage may be assigned to.
    pub fn is_mut(&self) -> (r: bool)
        ensures
            r == self.spec_is_mut(),
    {
        match self {
            LValue::DataRef { is_mut, .. } => *is_mut,
            LValue::ParamRef { is_mut, .. } => *is_mut,
            LValue::LetRef { is_mut, .. } => *is_mut,
            LValue::BindingRef { is_mut, .. } => *is_mut,
            LValue::StrLit { is_mut, .. } => *is_mut,
            LValue::ArrayLit { is_mut, .. } => *is_mut,
            LValue::UnionLit { is_mut, .. } => *is_mut,
            LValue::StructLit { is_mut, .. } => *is_mut,
            LValue::UnitVariantLit { is_mut, .. } => *is_mut,
            LValue::StructVariantLit { is_mut, .. } => *is_mut,
            LValue::StruDot { is_mut, .. } => *is_mut,
            LValue::UnionDot { is_mut, .. } => *is_mut,
            LValue::Index { is_mut, .. } => *is_mut,
            LValue::Ind { is_mut, .. } => *is_mut,
        }
    }
}


impl RValue {
    pub open spec fn spec_ty(&self) -> Ty {
        match self {
            RValue::Unit { ty, .. } => *ty,
            RValue::FuncRef { ty, .. } => *ty,
            RValue::CStr { ty, .. } => *ty,
            RValue::Load { ty, .. } => *ty,
            RValue::Nil { ty, .. } => *ty,
            RValue::Bool { ty, .. } => *ty,
            RValue::Int { ty, .. } => *ty,
            RValue::Flt { ty, .. } => *ty,
            RValue::Call { ty, .. } => *ty,
            RValue::Adr { ty, .. } => *ty,
            RValue::Un { ty, .. } => *ty,
            RValue::Cast { ty, .. } => *ty,
            RValue::Bin { ty, .. } => *ty,
            RValue::LNot { ty, .. } => *ty,
            RValue::LAnd { ty, .. } => *ty,
            RValue::LOr { ty, .. } => *ty,
            RValue::Block { ty, .. } => *ty,
            RValue::As { ty, .. } => *ty,
            RValue::Rmw { ty, .. } => *ty,
            RValue::Continue { ty, .. } => *ty,
            RValue::Break { ty, .. } => *ty,
            RValue::Return { ty, .. } => *ty,
            RValue::Let { ty, .. } => *ty,
            RValue::If { ty, .. } => *ty,
            RValue::While { ty, .. } => *ty,
            RValue::Loop { ty, .. } => *ty,
            RValue::Match { ty, .. } => *ty,
        }
    }

    /// The type of the value.
    pub fn ty(&self) -> (r: &Ty)
        ensures
            *r == self.spec_ty(),
    {
        match self {
            RValue::Unit { ty, .. } => ty,
            RValue::FuncRef { ty, .. } => ty,
            RValue::CStr { ty, .. } => ty,
            RValue::Load { ty, .. } => ty,
            RValue::Nil { ty, .. } => ty,
            RValue::Bool { ty, .. } => ty,
            RValue::Int { ty, .. } => ty,
            RValue::Flt { ty, .. } => ty,
            RValue::Call { ty, .. } => ty,
            RValue::Adr { ty, .. } => ty,
            RValue::Un { ty, .. } => ty,
            RValue::Cast { ty, .. } => ty,
            RValue::Bin { ty, .. } => ty,
            RValue::LNot { ty, .. } => ty,
            RValue::LAnd { ty, .. } => ty,
            RValue::LOr { ty, .. } => ty,
            RValue::Block { ty, .. } => ty,
            RValue::As { ty, .. } => ty,
            RValue::Rmw { ty, .. } => ty,
            RValue::Continue { ty, .. } => ty,
            RValue::Break { ty, .. } => ty,
            RValue::Return { ty, .. } => ty,
            RValue::Let { ty, .. } => ty,
            RValue::If { ty, .. } => ty,
            RValue::While { ty, .. } => ty,
            RValue::Loop { ty, .. } => ty,
            RValue::Match { ty, .. } => ty,
        }
    }
}

} // verus!
