use vstd::prelude::*;

verus! {

broadcast use {
    vstd::std_specs::vec::group_vec_axioms,
    vstd::seq::group_seq_axioms,
};

/// Handle of an interned identifier.
pub type Name = usize;

/// Opaque handle of a source-level definition.
pub type DefId = usize;

/// Type terms of the source language.
///
/// `Tuple` with no fields is the unit type. `StructRef`, `UnionRef` and
/// `EnumRef` name an instance of a nominal definition by its definition
/// handle and its type arguments. `TVar` refers to a type variable of a
/// `TVarCtx`; the four `Bound*` terms only appear as the bound stored for a
/// type variable.
pub enum Ty {
    Bool,
    Uint8,
    Int8,
    Uint16,
    Int16,
    Uint32,
    Int32,
    Uint64,
    Int64,
    Uintn,
    Intn,
    Float,
    Double,
    Ptr(bool, Box<Ty>),
    Func(Vec<(Name, Ty)>, bool, Box<Ty>),
    Arr(usize, Box<Ty>),
    Tuple(Vec<(Name, Ty)>),
    StructRef(Name, DefId, Vec<Ty>),
    UnionRef(Name, DefId, Vec<Ty>),
    EnumRef(Name, DefId, Vec<Ty>),
    TVar(usize),
    BoundAny,
    BoundNum,
    BoundInt,
    BoundFlt,
}

/// Mathematical model of a type term: `Ty` with its vectors as sequences.
pub enum TyM {
    Bool,
    Uint8,
    Int8,
    Uint16,
    Int16,
    Uint32,
    Int32,
    Uint64,
    Int64,
    Uintn,
    Intn,
    Float,
    Double,
    Ptr(bool, Box<TyM>),
    Func(Seq<(Name, TyM)>, bool, Box<TyM>),
    Arr(usize, Box<TyM>),
    Tuple(Seq<(Name, TyM)>),
    StructRef(Name, DefId, Seq<TyM>),
    UnionRef(Name, DefId, Seq<TyM>),
    EnumRef(Name, DefId, Seq<TyM>),
    TVar(usize),
    BoundAny,
    BoundNum,
    BoundInt,
    BoundFlt,
}

pub open spec fn ty_model(t: Ty) -> TyM
    decreases t,
{
    match t {
        Ty::Bool => TyM::Bool,
        Ty::Uint8 => TyM::Uint8,
        Ty::Int8 => TyM::Int8,
        Ty::Uint16 => TyM::Uint16,
        Ty::Int16 => TyM::Int16,
        Ty::Uint32 => TyM::Uint32,
        Ty::Int32 => TyM::Int32,
        Ty::Uint64 => TyM::Uint64,
        Ty::Int64 => TyM::Int64,
        Ty::Uintn => TyM::Uintn,
        Ty::Intn => TyM::Intn,
        Ty::Float => TyM::Float,
        Ty::Double => TyM::Double,
        Ty::Ptr(m, b) => TyM::Ptr(m, Box::new(ty_model(*b))),
        Ty::Func(ps, va, r) => TyM::Func(fields_model(ps@), va, Box::new(ty_model(*r))),
        Ty::Arr(n, e) => TyM::Arr(n, Box::new(ty_model(*e))),
        Ty::Tuple(ps) => TyM::Tuple(fields_model(ps@)),
        Ty::StructRef(n, id, a) => TyM::StructRef(n, id, tys_model(a@)),
        Ty::UnionRef(n, id, a) => TyM::UnionRef(n, id, tys_model(a@)),
        Ty::EnumRef(n, id, a) => TyM::EnumRef(n, id, tys_model(a@)),
        Ty::TVar(i) => TyM::TVar(i),
        Ty::BoundAny => TyM::BoundAny,
        Ty::BoundNum => TyM::BoundNum,
        Ty::BoundInt => TyM::BoundInt,
        Ty::BoundFlt => TyM::BoundFlt,
    }
}

pub open spec fn fields_model(s: Seq<(Name, Ty)>) -> Seq<(Name, TyM)>
    decreases s,
{
    if s.len() == 0 {
        Seq::empty()
    } else {
        fields_model(s.drop_last()).push((s.last().0, ty_model(s.last().1)))
    }
}

pub open spec fn tys_model(s: Seq<Ty>) -> Seq<TyM>
    decreases s,
{
    if s.len() == 0 {
        Seq::empty()
    } else {
        tys_model(s.drop_last()).push(ty_model(s.last()))
    }
}

impl View for Ty {
    type V = TyM;

    open spec fn view(&self) -> TyM {
        ty_model(*self)
    }
}

pub proof fn lemma_fields_model(s: Seq<(Name, Ty)>)
    ensures
        fields_model(s).len() == s.len(),
        forall|k: int|
            0 <= k < s.len() ==> #[trigger] fields_model(s)[k] == (s[k].0, ty_model(s[k].1)),
    decreases s.len(),
{
    if s.len() > 0 {
        lemma_fields_model(s.drop_last());
    }
}

pub proof fn lemma_tys_model(s: Seq<Ty>)
    ensures
        tys_model(s).len() == s.len(),
        forall|k: int| 0 <= k < s.len() ==> #[trigger] tys_model(s)[k] == ty_model(s[k]),
    decreases s.len(),
{
    if s.len() > 0 {
        lemma_tys_model(s.drop_last());
    }
}

/// The unit type: the tuple without fields.
pub fn unit_ty() -> (r: Ty)
    ensures
        r@ == TyM::Tuple(Seq::empty()),
{
    let v: Vec<(Name, Ty)> = Vec::new();
    assert(fields_model(v@) =~= Seq::empty());
    Ty::Tuple(v)
}

/// A deep copy of a type term.
pub fn copy_ty(t: &Ty) -> (r: Ty)
    ensures
        r@ == t@,
    decreases t,
{
    match t {
        Ty::Bool => Ty::Bool,
        Ty::Uint8 => Ty::Uint8,
        Ty::Int8 => Ty::Int8,
        Ty::Uint16 => Ty::Uint16,
        Ty::Int16 => Ty::Int16,
        Ty::Uint32 => Ty::Uint32,
        Ty::Int32 => Ty::Int32,
        Ty::Uint64 => Ty::Uint64,
        Ty::Int64 => Ty::Int64,
        Ty::Uintn => Ty::Uintn,
        Ty::Intn => Ty::Intn,
        Ty::Float => Ty::Float,
        Ty::Double => Ty::Double,
        Ty::Ptr(m, b) => Ty::Ptr(*m, Box::new(copy_ty(b))),
        Ty::Func(ps, va, rt) => Ty::Func(copy_fields(ps), *va, Box::new(copy_ty(rt))),
        Ty::Arr(n, e) => Ty::Arr(*n, Box::new(copy_ty(e))),
        Ty::Tuple(ps) => Ty::Tuple(copy_fields(ps)),
        Ty::StructRef(n, id, a) => Ty::StructRef(*n, *id, copy_tys(a)),
        Ty::UnionRef(n, id, a) => Ty::UnionRef(*n, *id, copy_tys(a)),
        Ty::EnumRef(n, id, a) => Ty::EnumRef(*n, *id, copy_tys(a)),
        Ty::TVar(i) => Ty::TVar(*i),
        Ty::BoundAny => Ty::BoundAny,
        Ty::BoundNum => Ty::BoundNum,
        Ty::BoundInt => Ty::BoundInt,
        Ty::BoundFlt => Ty::BoundFlt,
    }
}

/// A deep copy of a list of named type terms.
pub fn copy_fields(ps: &Vec<(Name, Ty)>) -> (r: Vec<(Name, Ty)>)
    ensures
        fields_model(r@) == fields_model(ps@),
    decreases ps,
{
    let mut out: Vec<(Name, Ty)> = Vec::new();
    let mut k: usize = 0;
    while k < ps.len()
        invariant
            k <= ps.len(),
            fields_model(out@) == fields_model(ps@.subrange(0, k as int)),
        decreases ps.len() - k,
    {
        let c = copy_ty(&ps[k].1);
        let ghost prev = out@;
        out.push((ps[k].0, c));
        assert(ps@.subrange(0, k + 1).drop_last() =~= ps@.subrange(0, k as int));
        assert(out@.drop_last() =~= prev);
        k = k + 1;
    }
    assert(ps@.subrange(0, ps.len() as int) =~= ps@);
    out
}

/// A deep copy of a list of type terms.
pub fn copy_tys(a: &Vec<Ty>) -> (r: Vec<Ty>)
    ensures
        tys_model(r@) == tys_model(a@),
    decreases a,
{
    let mut out: Vec<Ty> = Vec::new();
    let mut k: usize = 0;
    while k < a.len()
        invariant
            k <= a.len(),
            tys_model(out@) == tys_model(a@.subrange(0, k as int)),
        decreases a.len() - k,
    {
        let c = copy_ty(&a[k]);
        let ghost prev = out@;
        out.push(c);
        assert(a@.subrange(0, k + 1).drop_last() =~= a@.subrange(0, k as int));
        assert(out@.drop_last() =~= prev);
        k = k + 1;
    }
    assert(a@.subrange(0, a.len() as int) =~= a@);
    out
}

/// Structural equality of type terms.
pub fn ty_eq(a: &Ty, b: &Ty) -> (r: bool)
    ensures
        r == (a@ == b@),
    decreases a,
{
    match (a, b) {
        (Ty::Bool, Ty::Bool) | (Ty::Uint8, Ty::Uint8) | (Ty::Int8, Ty::Int8)
        | (Ty::Uint16, Ty::Uint16) | (Ty::Int16, Ty::Int16) | (Ty::Uint32, Ty::Uint32)
        | (Ty::Int32, Ty::Int32) | (Ty::Uint64, Ty::Uint64) | (Ty::Int64, Ty::Int64)
        | (Ty::Uintn, Ty::Uintn) | (Ty::Intn, Ty::Intn) | (Ty::Float, Ty::Float)
        | (Ty::Double, Ty::Double) | (Ty::BoundAny, Ty::BoundAny)
        | (Ty::BoundNum, Ty::BoundNum) | (Ty::BoundInt, Ty::BoundInt)
        | (Ty::BoundFlt, Ty::BoundFlt) => true,
        (Ty::TVar(i), Ty::TVar(j)) => *i == *j,
        (Ty::Ptr(m1, b1), Ty::Ptr(m2, b2)) => *m1 == *m2 && ty_eq(b1, b2),
        (Ty::Arr(n1, e1), Ty::Arr(n2, e2)) => *n1 == *n2 && ty_eq(e1, e2),
        (Ty::Func(fs1, v1, r1), Ty::Func(fs2, v2, r2)) => {
            *v1 == *v2 && fields_eq(fs1, fs2) && ty_eq(r1, r2)
        },
        (Ty::Tuple(fs1), Ty::Tuple(fs2)) => fields_eq(fs1, fs2),
        (Ty::StructRef(n1, i1, a1), Ty::StructRef(n2, i2, a2))
        | (Ty::UnionRef(n1, i1, a1), Ty::UnionRef(n2, i2, a2))
        | (Ty::EnumRef(n1, i1, a1), Ty::EnumRef(n2, i2, a2)) => {
            *n1 == *n2 && *i1 == *i2 && tys_eq(a1, a2)
        },
        _ => false,
    }
}

/// Element-wise equality of two lists of named type terms.
pub fn fields_eq(p: &Vec<(Name, Ty)>, q: &Vec<(Name, Ty)>) -> (r: bool)
    ensures
        r == (fields_model(p@) == fields_model(q@)),
    decreases p,
{
    proof {
        lemma_fields_model(p@);
        lemma_fields_model(q@);
    }
    if p.len() != q.len() {
        return false;
    }
    let mut k: usize = 0;
    while k < p.len()
        invariant
            k <= p.len() == q.len(),
            fields_model(p@).len() == p.len(),
            fields_model(q@).len() == q.len(),
            forall|j: int| 0 <= j < p.len() ==> #[trigger] fields_model(p@)[j] == (p@[j].0, ty_model(p@[j].1)),
            forall|j: int| 0 <= j < q.len() ==> #[trigger] fields_model(q@)[j] == (q@[j].0, ty_model(q@[j].1)),
            forall|j: int| 0 <= j < k ==> fields_model(p@)[j] == fields_model(q@)[j],
        decreases p.len() - k,
    {
        if p[k].0 != q[k].0 || !ty_eq(&p[k].1, &q[k].1) {
            assert(fields_model(p@)[k as int] != fields_model(q@)[k as int]);
            return false;
        }
        k = k + 1;
    }
    assert(fields_model(p@) =~= fields_model(q@));
    true
}

/// Element-wise equality of two lists of type terms.
pub fn tys_eq(p: &Vec<Ty>, q: &Vec<Ty>) -> (r: bool)
    ensures
        r == (tys_model(p@) == tys_model(q@)),
    decreases p,
{
    proof {
        lemma_tys_model(p@);
        lemma_tys_model(q@);
    }
    if p.len() != q.len() {
        return false;
    }
    let mut k: usize = 0;
    while k < p.len()
        invariant
            k <= p.len() == q.len(),
            tys_model(p@).len() == p.len(),
            tys_model(q@).len() == q.len(),
            forall|j: int| 0 <= j < p.len() ==> #[trigger] tys_model(p@)[j] == ty_model(p@[j]),
            forall|j: int| 0 <= j < q.len() ==> #[trigger] tys_model(q@)[j] == ty_model(q@[j]),
            forall|j: int| 0 <= j < k ==> tys_model(p@)[j] == tys_model(q@)[j],
        decreases p.len() - k,
    {
        if !ty_eq(&p[k], &q[k]) {
            assert(tys_model(p@)[k as int] != tys_model(q@)[k as int]);
            return false;
        }
        k = k + 1;
    }
    assert(tys_model(p@) =~= tys_model(q@));
    true
}

pub open spec fn is_int(t: TyM) -> bool {
    match t {
        TyM::Uint8 | TyM::Int8 | TyM::Uint16 | TyM::Int16 | TyM::Uint32 | TyM::Int32
        | TyM::Uint64 | TyM::Int64 | TyM::Uintn | TyM::Intn => true,
        _ => false,
    }
}

pub open spec fn is_signed(t: TyM) -> bool {
    match t {
        TyM::Int8 | TyM::Int16 | TyM::Int32 | TyM::Int64 | TyM::Intn => true,
        _ => false,
    }
}

pub open spec fn is_float(t: TyM) -> bool {
    t is Float || t is Double
}

pub open spec fn is_num(t: TyM) -> bool {
    is_int(t) || is_float(t)
}

/// Scalar types: `Bool` and the numeric types.
pub open spec fn is_prim(t: TyM) -> bool {
    t is Bool || is_num(t)
}

pub fn is_int_ty(t: &Ty) -> (r: bool)
    ensures
        r == is_int(t@),
{
    match t {
        Ty::Uint8 | Ty::Int8 | Ty::Uint16 | Ty::Int16 | Ty::Uint32 | Ty::Int32 | Ty::Uint64
        | Ty::Int64 | Ty::Uintn | Ty::Intn => true,
        _ => false,
    }
}

pub fn is_signed_ty(t: &Ty) -> (r: bool)
    ensures
        r == is_signed(t@),
{
    match t {
        Ty::Int8 | Ty::Int16 | Ty::Int32 | Ty::Int64 | Ty::Intn => true,
        _ => false,
    }
}

pub fn is_float_ty(t: &Ty) -> (r: bool)
    ensures
        r == is_float(t@),
{
    match t {
        Ty::Float | Ty::Double => true,
        _ => false,
    }
}

pub fn is_prim_ty(t: &Ty) -> (r: bool)
    ensures
        r == is_prim(t@),
{
    match t {
        Ty::Bool => true,
        _ => is_int_ty(t) || is_float_ty(t),
    }
}

} // verus!
