use vstd::prelude::*;
use crate::ty::{Ty, TyM, Name, DefId, fields_model, tys_model, lemma_fields_model, copy_tys};
use crate::tctx::{TVarCtx, lit_of};
use crate::lower::{Semantics, semantics_of, lit_semantics};
use crate::layout::{lower_union, first_max, seq_max, ints};

verus! {

broadcast use {
    vstd::std_specs::vec::group_vec_axioms,
    vstd::seq::group_seq_axioms,
};

/// Lowered types. `Named` stands for the lowered definition of a nominal
/// type, identified by its definition and literal type arguments.
pub enum LowTy {
    Void,
    I1,
    I8,
    I16,
    I32,
    I64,
    F32,
    F64,
    Ptr,
    Array(usize, Box<LowTy>),
    Struct(Vec<LowTy>),
    Named(DefId, Vec<Ty>),
}

/// Mathematical model of a lowered type.
pub enum LowM {
    Void,
    I1,
    I8,
    I16,
    I32,
    I64,
    F32,
    F64,
    Ptr,
    Array(usize, Box<LowM>),
    Struct(Seq<LowM>),
    Named(DefId, Seq<TyM>),
}

pub open spec fn low_model(t: LowTy) -> LowM
    decreases t,
{
    match t {
        LowTy::Void => LowM::Void,
        LowTy::I1 => LowM::I1,
        LowTy::I8 => LowM::I8,
        LowTy::I16 => LowM::I16,
        LowTy::I32 => LowM::I32,
        LowTy::I64 => LowM::I64,
        LowTy::F32 => LowM::F32,
        LowTy::F64 => LowM::F64,
        LowTy::Ptr => LowM::Ptr,
        LowTy::Array(n, e) => LowM::Array(n, Box::new(low_model(*e))),
        LowTy::Struct(fs) => LowM::Struct(lows_model(fs@)),
        LowTy::Named(id, a) => LowM::Named(id, tys_model(a@)),
    }
}

pub open spec fn lows_model(s: Seq<LowTy>) -> Seq<LowM>
    decreases s,
{
    if s.len() == 0 {
        Seq::empty()
    } else {
        lows_model(s.drop_last()).push(low_model(s.last()))
    }
}

impl View for LowTy {
    type V = LowM;

    open spec fn view(&self) -> LowM {
        low_model(*self)
    }
}

/// The lowered form of a literal type: the unit type is void; integers by
/// width (`Uintn` and `Intn` as 64 bits); pointers and functions are opaque
/// pointers; arrays are arrays of the lowered element; tuples are structs of
/// their lowered fields; nominal types refer to their lowered definition.
pub open spec fn lower_of(t: TyM) -> LowM
    decreases t,
{
    match t {
        TyM::Tuple(ps) => if ps.len() == 0 {
            LowM::Void
        } else {
            LowM::Struct(lower_fields(ps))
        },
        TyM::Bool => LowM::I1,
        TyM::Uint8 | TyM::Int8 => LowM::I8,
        TyM::Uint16 | TyM::Int16 => LowM::I16,
        TyM::Uint32 | TyM::Int32 => LowM::I32,
        TyM::Uint64 | TyM::Int64 | TyM::Uintn | TyM::Intn => LowM::I64,
        TyM::Float => LowM::F32,
        TyM::Double => LowM::F64,
        TyM::Ptr(..) | TyM::Func(..) => LowM::Ptr,
        TyM::Arr(n, e) => LowM::Array(n, Box::new(lower_of(*e))),
        TyM::StructRef(_, id, a) => LowM::Named(id, a),
        TyM::UnionRef(_, id, a) => LowM::Named(id, a),
        TyM::EnumRef(_, id, a) => LowM::Named(id, a),
        _ => LowM::Void,
    }
}

pub open spec fn lower_fields(ps: Seq<(Name, TyM)>) -> Seq<LowM>
    decreases ps,
{
    if ps.len() == 0 {
        Seq::empty()
    } else {
        lower_fields(ps.drop_last()).push(lower_of(ps.last().1))
    }
}

/// The lowered form of a literal type.
pub fn lower_lit_ty(t: &Ty) -> (r: LowTy)
    ensures
        r@ == lower_of(t@),
    decreases t,
{
    match t {
        Ty::Tuple(ps) => {
            proof {
                lemma_fields_model(ps@);
            }
            if ps.len() == 0 {
                LowTy::Void
            } else {
                LowTy::Struct(lower_field_list(ps))
            }
        },
        Ty::Bool => LowTy::I1,
        Ty::Uint8 | Ty::Int8 => LowTy::I8,
        Ty::Uint16 | Ty::Int16 => LowTy::I16,
        Ty::Uint32 | Ty::Int32 => LowTy::I32,
        Ty::Uint64 | Ty::Int64 | Ty::Uintn | Ty::Intn => LowTy::I64,
        Ty::Float => LowTy::F32,
        Ty::Double => LowTy::F64,
        Ty::Ptr(..) | Ty::Func(..) => LowTy::Ptr,
        Ty::Arr(n, e) => LowTy::Array(*n, Box::new(lower_lit_ty(e))),
        Ty::StructRef(_, id, a) => LowTy::Named(*id, copy_tys(a)),
        Ty::UnionRef(_, id, a) => LowTy::Named(*id, copy_tys(a)),
        Ty::EnumRef(_, id, a) => LowTy::Named(*id, copy_tys(a)),
        _ => LowTy::Void,
    }
}

fn lower_field_list(ps: &Vec<(Name, Ty)>) -> (r: Vec<LowTy>)
    ensures
        lows_model(r@) == lower_fields(fields_model(ps@)),
    decreases ps,
{
    let ghost pm = fields_model(ps@);
    proof {
        lemma_fields_model(ps@);
    }
    let mut out: Vec<LowTy> = Vec::new();
    let mut k: usize = 0;
    while k < ps.len()
        invariant
            k <= ps.len(),
            pm == fields_model(ps@),
            pm.len() == ps.len(),
            forall|j: int| 0 <= j < ps.len() ==> #[trigger] pm[j] == (ps@[j].0, ps@[j].1@),
            lows_model(out@) == lower_fields(pm.take(k as int)),
        decreases ps.len() - k,
    {
        let l = lower_lit_ty(&ps[k].1);
        let ghost prev = out@;
        out.push(l);
        proof {
            assert(out@.drop_last() =~= prev);
            assert(pm.take(k + 1).drop_last() =~= pm.take(k as int));
        }
        k = k + 1;
    }
    assert(pm.take(ps.len() as int) =~= pm);
    out
}

/// The lowered form of a type: that of its literal type.
pub fn lower_ty(tctx: &mut TVarCtx, ty: &Ty) -> (r: LowTy)
    requires
        old(tctx).wf(),
        old(tctx).valid(ty@),
    ensures
        TVarCtx::same_classes(*old(tctx), *final(tctx)),
        r@ == lower_of(lit_of(old(tctx).classes(), ty@, old(tctx).len())),
{
    let lit = tctx.lit_ty(ty);
    lower_lit_ty(&lit)
}

/// A lowered function type.
pub struct LowFunc {
    /// Parameter types, the hidden out-pointer first when there is one.
    pub params: Vec<LowTy>,
    pub variadic: bool,
    pub ret: LowTy,
}

/// How a parameter of a literal type is lowered: by value, or as a pointer
/// for an aggregate; a parameter without a value has no lowered form.
pub open spec fn lower_param_of(t: TyM) -> Option<LowM> {
    match semantics_of(t) {
        Semantics::Void => None,
        Semantics::Value => Some(lower_of(t)),
        Semantics::Addr => Some(LowM::Ptr),
    }
}

/// The lowered form of a function type with parameters and result of the
/// given literal types: an aggregate result becomes a leading pointer
/// parameter and the function returns void. `None` when a parameter has no
/// value.
pub fn lower_func_ty(params: &Vec<(Name, Ty)>, variadic: bool, ret: &Ty) -> (r: Option<LowFunc>)
    ensures
        r is None <==> exists|k: int| 0 <= k < params.len() && lower_param_of(#[trigger] params@[k].1@) is None,
        r matches Some(f) ==> {
            let out = semantics_of(ret@) == Semantics::Addr;
            let shift: int = if out { 1 } else { 0 };
            &&& f.variadic == variadic
            &&& f.params@.len() == params.len() + shift
            &&& out ==> f.params@[0]@ == LowM::Ptr && f.ret@ == LowM::Void
            &&& !out ==> f.ret@ == lower_of(ret@)
            &&& out ==> forall|k: int|
                0 <= k < params.len() ==> Some(#[trigger] f.params@[k + 1]@) == lower_param_of(
                    params@[k].1@,
                )
            &&& !out ==> forall|k: int|
                0 <= k < params.len() ==> Some(#[trigger] f.params@[k]@) == lower_param_of(
                    params@[k].1@,
                )
        },
{
    let out = lit_semantics(ret) == Semantics::Addr;
    let mut ps: Vec<LowTy> = Vec::new();
    if out {
        ps.push(LowTy::Ptr);
    }
    let ghost shift: int = if out { 1 } else { 0 };
    let mut k: usize = 0;
    while k < params.len()
        invariant
            k <= params.len(),
            shift == (if out { 1int } else { 0 }),
            out == (semantics_of(ret@) == Semantics::Addr),
            ps@.len() == k + shift,
            out ==> ps@[0]@ == LowM::Ptr,
            forall|j: int| 0 <= j < k ==> lower_param_of(#[trigger] params@[j].1@) is Some,
            out ==> forall|j: int|
                0 <= j < k ==> Some(#[trigger] ps@[j + 1]@) == lower_param_of(params@[j].1@),
            !out ==> forall|j: int|
                0 <= j < k ==> Some(#[trigger] ps@[j]@) == lower_param_of(params@[j].1@),
        decreases params.len() - k,
    {
        let t = &params[k].1;
        match lit_semantics(t) {
            Semantics::Void => return None,
            Semantics::Value => ps.push(lower_lit_ty(t)),
            Semantics::Addr => ps.push(LowTy::Ptr),
        }
        k = k + 1;
    }
    let r = if out { LowTy::Void } else { lower_lit_ty(ret) };
    Some(LowFunc { params: ps, variadic, ret: r })
}

/// `fields` are the fields of the lowered form of a union whose members
/// lower to `members` and have the given sizes and alignments.
pub open spec fn union_fields_of(
    members: Seq<LowTy>,
    sizes: Seq<u64>,
    aligns: Seq<u64>,
    fields: Seq<LowTy>,
) -> bool {
    &&& members.len() == 0 ==> fields.len() == 0
    &&& members.len() > 0 ==> {
        let i = first_max(ints(aligns));
        let pad = seq_max(ints(sizes)) - sizes[i];
        &&& 0 <= i < members.len()
        &&& pad > 0 ==> fields.len() == 2
        &&& pad <= 0 ==> fields.len() == 1
        &&& fields[0] == members[i]
        &&& pad > 0 ==> fields[1]@ == LowM::Array(pad as usize, Box::new(LowM::I8))
    }
}

/// Fields of the lowered form of a union whose members lower to `members`
/// and have the given sizes and alignments: the most aligned member (the
/// first among equals), then an array of padding bytes up to the size of the
/// largest member when it is bigger. A union without members has no fields.
pub fn lower_union_fields(members: Vec<LowTy>, sizes: &Vec<u64>, aligns: &Vec<u64>) -> (r: Vec<LowTy>)
    requires
        members.len() == sizes.len(),
        sizes.len() == aligns.len(),
        forall|k: int| 0 <= k < sizes.len() ==> sizes@[k] <= usize::MAX,
    ensures
        union_fields_of(members@, sizes@, aligns@, r@),
{
    let mut members = members;
    match lower_union(sizes, aligns) {
        None => Vec::new(),
        Some(l) => {
            let lead = members.remove(l.field);
            let mut out: Vec<LowTy> = Vec::new();
            out.push(lead);
            if l.padding > 0 {
                proof {
                    let si = ints(sizes@);
                    crate::layout::lemma_seq_max(si);
                    let k = choose|k: int| 0 <= k < si.len() && si[k] == seq_max(si);
                    assert(si[k] == sizes@[k]);
                }
                let byte = LowTy::I8;
                assert(byte@ == LowM::I8);
                let pad = LowTy::Array(l.padding as usize, Box::new(byte));
                assert(pad@ == LowM::Array(l.padding as usize, Box::new(LowM::I8)));
                out.push(pad);
            }
            out
        },
    }
}

/// Fields of the lowered form of an enum: an `i32` tag, then the fields of
/// the union of its struct variants' payloads, given as lowered structs
/// with their sizes and alignments. Unit variants carry no payload.
pub fn lower_enum_fields(payloads: Vec<LowTy>, sizes: &Vec<u64>, aligns: &Vec<u64>) -> (r: Vec<LowTy>)
    requires
        payloads.len() == sizes.len(),
        sizes.len() == aligns.len(),
        forall|k: int| 0 <= k < sizes.len() ==> sizes@[k] <= usize::MAX,
    ensures
        r.len() >= 1,
        r@[0]@ == LowM::I32,
        union_fields_of(payloads@, sizes@, aligns@, r@.drop_first()),
{
    let u = lower_union_fields(payloads, sizes, aligns);
    let mut out: Vec<LowTy> = Vec::new();
    out.push(LowTy::I32);
    let ghost um = u@;
    let mut u = u;
    out.append(&mut u);
    proof {
        assert(out@.drop_first() =~= um);
    }
    out
}

} // verus!
