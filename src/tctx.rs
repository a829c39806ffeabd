use vstd::prelude::*;
use crate::ty::{
    Ty, TyM, Name, copy_ty, unit_ty, ty_eq, fields_model, tys_model, lemma_fields_model,
    lemma_tys_model, is_int, is_float, is_num, is_prim, is_int_ty, is_float_ty, is_prim_ty,
};

verus! {

broadcast use {
    vstd::std_specs::vec::group_vec_axioms,
    vstd::seq::group_seq_axioms,
};

pub open spec fn is_link(t: TyM) -> bool {
    t is TVar
}

/// Every type variable occurring in `t` has an index below `n`.
pub open spec fn tvars_below(t: TyM, n: nat) -> bool
    decreases t,
{
    match t {
        TyM::Ptr(_, b) => tvars_below(*b, n),
        TyM::Arr(_, e) => tvars_below(*e, n),
        TyM::Func(ps, _, r) => named_below(ps, n) && tvars_below(*r, n),
        TyM::Tuple(ps) => named_below(ps, n),
        TyM::StructRef(_, _, a) => seq_below(a, n),
        TyM::UnionRef(_, _, a) => seq_below(a, n),
        TyM::EnumRef(_, _, a) => seq_below(a, n),
        TyM::TVar(i) => i < n,
        _ => true,
    }
}

pub open spec fn named_below(ps: Seq<(Name, TyM)>, n: nat) -> bool
    decreases ps,
{
    ps.len() == 0 || (named_below(ps.drop_last(), n) && tvars_below(ps.last().1, n))
}

pub open spec fn seq_below(a: Seq<TyM>, n: nat) -> bool
    decreases a,
{
    a.len() == 0 || (seq_below(a.drop_last(), n) && tvars_below(a.last(), n))
}

/// No type variable occurs in `t`.
pub open spec fn is_ground(t: TyM) -> bool
    decreases t,
{
    match t {
        TyM::Ptr(_, b) => is_ground(*b),
        TyM::Arr(_, e) => is_ground(*e),
        TyM::Func(ps, _, r) => named_ground(ps) && is_ground(*r),
        TyM::Tuple(ps) => named_ground(ps),
        TyM::StructRef(_, _, a) => seq_ground(a),
        TyM::UnionRef(_, _, a) => seq_ground(a),
        TyM::EnumRef(_, _, a) => seq_ground(a),
        TyM::TVar(_) => false,
        _ => true,
    }
}

pub open spec fn named_ground(ps: Seq<(Name, TyM)>) -> bool
    decreases ps,
{
    ps.len() == 0 || (named_ground(ps.drop_last()) && is_ground(ps.last().1))
}

pub open spec fn seq_ground(a: Seq<TyM>) -> bool
    decreases a,
{
    a.len() == 0 || (seq_ground(a.drop_last()) && is_ground(a.last()))
}

pub proof fn lemma_named_below(ps: Seq<(Name, TyM)>, n: nat)
    ensures
        named_below(ps, n) <==> forall|k: int| 0 <= k < ps.len() ==> tvars_below(#[trigger] ps[k].1, n),
    decreases ps.len(),
{
    if ps.len() > 0 {
        lemma_named_below(ps.drop_last(), n);
        if named_below(ps, n) {
            assert forall|k: int| 0 <= k < ps.len() implies tvars_below(#[trigger] ps[k].1, n) by {
                if k < ps.len() - 1 {
                    assert(ps.drop_last()[k] == ps[k]);
                }
            }
        }
        if forall|k: int| 0 <= k < ps.len() ==> tvars_below(#[trigger] ps[k].1, n) {
            assert forall|k: int| 0 <= k < ps.drop_last().len() implies tvars_below(#[trigger] ps.drop_last()[k].1, n) by {
                assert(ps.drop_last()[k] == ps[k]);
            }
            assert(tvars_below(ps[ps.len() - 1].1, n));
        }
    }
}

pub proof fn lemma_seq_below(a: Seq<TyM>, n: nat)
    ensures
        seq_below(a, n) <==> forall|k: int| 0 <= k < a.len() ==> tvars_below(#[trigger] a[k], n),
    decreases a.len(),
{
    if a.len() > 0 {
        lemma_seq_below(a.drop_last(), n);
        if seq_below(a, n) {
            assert forall|k: int| 0 <= k < a.len() implies tvars_below(#[trigger] a[k], n) by {
                if k < a.len() - 1 {
                    assert(a.drop_last()[k] == a[k]);
                }
            }
        }
        if forall|k: int| 0 <= k < a.len() ==> tvars_below(#[trigger] a[k], n) {
            assert forall|k: int| 0 <= k < a.drop_last().len() implies tvars_below(#[trigger] a.drop_last()[k], n) by {
                assert(a.drop_last()[k] == a[k]);
            }
            assert(tvars_below(a[a.len() - 1], n));
        }
    }
}

pub proof fn lemma_named_ground(ps: Seq<(Name, TyM)>)
    ensures
        named_ground(ps) <==> forall|k: int| 0 <= k < ps.len() ==> is_ground(#[trigger] ps[k].1),
    decreases ps.len(),
{
    if ps.len() > 0 {
        lemma_named_ground(ps.drop_last());
        if named_ground(ps) {
            assert forall|k: int| 0 <= k < ps.len() implies is_ground(#[trigger] ps[k].1) by {
                if k < ps.len() - 1 {
                    assert(ps.drop_last()[k] == ps[k]);
                }
            }
        }
        if forall|k: int| 0 <= k < ps.len() ==> is_ground(#[trigger] ps[k].1) {
            assert forall|k: int| 0 <= k < ps.drop_last().len() implies is_ground(#[trigger] ps.drop_last()[k].1) by {
                assert(ps.drop_last()[k] == ps[k]);
            }
            assert(is_ground(ps[ps.len() - 1].1));
        }
    }
}

pub proof fn lemma_seq_ground(a: Seq<TyM>)
    ensures
        seq_ground(a) <==> forall|k: int| 0 <= k < a.len() ==> is_ground(#[trigger] a[k]),
    decreases a.len(),
{
    if a.len() > 0 {
        lemma_seq_ground(a.drop_last());
        if seq_ground(a) {
            assert forall|k: int| 0 <= k < a.len() implies is_ground(#[trigger] a[k]) by {
                if k < a.len() - 1 {
                    assert(a.drop_last()[k] == a[k]);
                }
            }
        }
        if forall|k: int| 0 <= k < a.len() ==> is_ground(#[trigger] a[k]) {
            assert forall|k: int| 0 <= k < a.drop_last().len() implies is_ground(#[trigger] a.drop_last()[k]) by {
                assert(a.drop_last()[k] == a[k]);
            }
            assert(is_ground(a[a.len() - 1]));
        }
    }
}

/// Validity of a list of named terms, element by element.
proof fn lemma_fields_below(ps: Seq<(Name, Ty)>, n: nat)
    ensures
        named_below(fields_model(ps), n) <==> forall|k: int| 0 <= k < ps.len() ==> tvars_below(#[trigger] ps[k].1@, n),
{
    lemma_fields_model(ps);
    lemma_named_below(fields_model(ps), n);
    if named_below(fields_model(ps), n) {
        assert forall|k: int| 0 <= k < ps.len() implies tvars_below(#[trigger] ps[k].1@, n) by {
            assert(fields_model(ps)[k].1 == ps[k].1@);
        }
    }
    if forall|k: int| 0 <= k < ps.len() ==> tvars_below(#[trigger] ps[k].1@, n) {
        assert forall|k: int| 0 <= k < fields_model(ps).len() implies tvars_below(#[trigger] fields_model(ps)[k].1, n) by {
            assert(fields_model(ps)[k].1 == ps[k].1@);
        }
    }
}

proof fn lemma_tys_below(a: Seq<Ty>, n: nat)
    ensures
        seq_below(tys_model(a), n) <==> forall|k: int| 0 <= k < a.len() ==> tvars_below(#[trigger] a[k]@, n),
{
    lemma_tys_model(a);
    lemma_seq_below(tys_model(a), n);
    if seq_below(tys_model(a), n) {
        assert forall|k: int| 0 <= k < a.len() implies tvars_below(#[trigger] a[k]@, n) by {
            assert(tys_model(a)[k] == a[k]@);
        }
    }
    if forall|k: int| 0 <= k < a.len() ==> tvars_below(#[trigger] a[k]@, n) {
        assert forall|k: int| 0 <= k < tys_model(a).len() implies tvars_below(#[trigger] tys_model(a)[k], n) by {
            assert(tys_model(a)[k] == a[k]@);
        }
    }
}

proof fn lemma_fields_ground(ps: Seq<(Name, Ty)>)
    ensures
        named_ground(fields_model(ps)) <==> forall|k: int| 0 <= k < ps.len() ==> is_ground(#[trigger] ps[k].1@),
{
    lemma_fields_model(ps);
    lemma_named_ground(fields_model(ps));
    if named_ground(fields_model(ps)) {
        assert forall|k: int| 0 <= k < ps.len() implies is_ground(#[trigger] ps[k].1@) by {
            assert(fields_model(ps)[k].1 == ps[k].1@);
        }
    }
    if forall|k: int| 0 <= k < ps.len() ==> is_ground(#[trigger] ps[k].1@) {
        assert forall|k: int| 0 <= k < fields_model(ps).len() implies is_ground(#[trigger] fields_model(ps)[k].1) by {
            assert(fields_model(ps)[k].1 == ps[k].1@);
        }
    }
}

proof fn lemma_tys_ground(a: Seq<Ty>)
    ensures
        seq_ground(tys_model(a)) <==> forall|k: int| 0 <= k < a.len() ==> is_ground(#[trigger] a[k]@),
{
    lemma_tys_model(a);
    lemma_seq_ground(tys_model(a));
    if seq_ground(tys_model(a)) {
        assert forall|k: int| 0 <= k < a.len() implies is_ground(#[trigger] a[k]@) by {
            assert(tys_model(a)[k] == a[k]@);
        }
    }
    if forall|k: int| 0 <= k < a.len() ==> is_ground(#[trigger] a[k]@) {
        assert forall|k: int| 0 <= k < tys_model(a).len() implies is_ground(#[trigger] tys_model(a)[k]) by {
            assert(tys_model(a)[k] == a[k]@);
        }
    }
}

/// Every parent link points to a variable of strictly lower rank.
pub open spec fn links_ranked(vars: Seq<TyM>, rank: Seq<nat>) -> bool {
    &&& rank.len() == vars.len()
    &&& forall|i: int|
        0 <= i < vars.len() && is_link(#[trigger] vars[i]) ==> {
            let j = vars[i]->TVar_0 as int;
            &&& j < vars.len()
            &&& rank[j] < rank[i]
        }
}

/// The root reached from `i` by following parent links.
pub open spec fn find_in(vars: Seq<TyM>, rank: Seq<nat>, i: int) -> int
    decreases rank[i],
{
    if 0 <= i < vars.len() && rank.len() == vars.len() && is_link(vars[i]) {
        let j = vars[i]->TVar_0 as int;
        if 0 <= j < vars.len() && rank[j] < rank[i] {
            find_in(vars, rank, j)
        } else {
            i
        }
    } else {
        i
    }
}

/// `k` lies on the chain of parent links from `i` to its root.
pub open spec fn on_chain(vars: Seq<TyM>, rank: Seq<nat>, i: int, k: int) -> bool
    decreases rank[i],
{
    if k == i {
        true
    } else if 0 <= i < vars.len() && rank.len() == vars.len() && is_link(vars[i]) {
        let j = vars[i]->TVar_0 as int;
        if 0 <= j < vars.len() && rank[j] < rank[i] {
            on_chain(vars, rank, j, k)
        } else {
            false
        }
    } else {
        false
    }
}

pub proof fn lemma_find(vars: Seq<TyM>, rank: Seq<nat>, i: int)
    requires
        links_ranked(vars, rank),
        0 <= i < vars.len(),
    ensures
        0 <= find_in(vars, rank, i) < vars.len(),
        !is_link(vars[find_in(vars, rank, i)]),
        rank[find_in(vars, rank, i)] <= rank[i],
        is_link(vars[i]) ==> rank[find_in(vars, rank, i)] < rank[i],
        is_link(vars[i]) ==> find_in(vars, rank, i) == find_in(vars, rank, vars[i]->TVar_0 as int),
        !is_link(vars[i]) ==> find_in(vars, rank, i) == i,
    decreases rank[i],
{
    if is_link(vars[i]) {
        lemma_find(vars, rank, vars[i]->TVar_0 as int);
    }
}

/// Pointing `i` straight at its root keeps the ranking and every root.
pub proof fn lemma_compress(vars: Seq<TyM>, rank: Seq<nat>, i: int, k: int)
    requires
        links_ranked(vars, rank),
        vars.len() <= usize::MAX,
        0 <= i < vars.len(),
        0 <= k < vars.len(),
        is_link(vars[i]),
    ensures
        links_ranked(vars.update(i, TyM::TVar(find_in(vars, rank, i) as usize)), rank),
        find_in(vars.update(i, TyM::TVar(find_in(vars, rank, i) as usize)), rank, k)
            == find_in(vars, rank, k),
    decreases rank[k],
{
    let r = find_in(vars, rank, i);
    let v2 = vars.update(i, TyM::TVar(r as usize));
    lemma_find(vars, rank, i);
    lemma_find(vars, rank, k);
    assert forall|x: int| 0 <= x < v2.len() && is_link(#[trigger] v2[x]) implies {
        let j = v2[x]->TVar_0 as int;
        &&& j < v2.len()
        &&& rank[j] < rank[x]
    } by {
        if x != i {
            assert(v2[x] == vars[x]);
        }
    }
    assert(links_ranked(v2, rank));
    if k == i {
        assert(v2[r] == vars[r]);
        assert(find_in(v2, rank, r) == r);
    } else if is_link(vars[k]) {
        lemma_compress(vars, rank, i, vars[k]->TVar_0 as int);
    }
}

/// The literal type of `t`: each bound is replaced by its default type
/// (`BoundAny` by the unit type, `BoundNum` and `BoundInt` by `Int32`,
/// `BoundFlt` by `Float`), and each variable by the literal type of the bound
/// of its class, `cls`, resolving at most `fuel` variables deep.
pub open spec fn lit_of(cls: Seq<TyM>, t: TyM, fuel: nat) -> TyM
    decreases fuel, t,
{
    match t {
        TyM::Ptr(m, b) => TyM::Ptr(m, Box::new(lit_of(cls, *b, fuel))),
        TyM::Func(ps, va, r) => TyM::Func(lit_fields(cls, ps, fuel), va, Box::new(lit_of(cls, *r, fuel))),
        TyM::Arr(n, e) => TyM::Arr(n, Box::new(lit_of(cls, *e, fuel))),
        TyM::Tuple(ps) => TyM::Tuple(lit_fields(cls, ps, fuel)),
        TyM::StructRef(n, id, a) => TyM::StructRef(n, id, lit_seq(cls, a, fuel)),
        TyM::UnionRef(n, id, a) => TyM::UnionRef(n, id, lit_seq(cls, a, fuel)),
        TyM::EnumRef(n, id, a) => TyM::EnumRef(n, id, lit_seq(cls, a, fuel)),
        TyM::TVar(i) => {
            if fuel == 0 || i >= cls.len() {
                TyM::Tuple(Seq::empty())
            } else {
                lit_of(cls, cls[i as int], (fuel - 1) as nat)
            }
        },
        TyM::BoundAny => TyM::Tuple(Seq::empty()),
        TyM::BoundNum => TyM::Int32,
        TyM::BoundInt => TyM::Int32,
        TyM::BoundFlt => TyM::Float,
        _ => t,
    }
}

pub open spec fn lit_fields(cls: Seq<TyM>, ps: Seq<(Name, TyM)>, fuel: nat) -> Seq<(Name, TyM)>
    decreases fuel, ps,
{
    if ps.len() == 0 {
        Seq::empty()
    } else {
        lit_fields(cls, ps.drop_last(), fuel).push((ps.last().0, lit_of(cls, ps.last().1, fuel)))
    }
}

pub open spec fn lit_seq(cls: Seq<TyM>, a: Seq<TyM>, fuel: nat) -> Seq<TyM>
    decreases fuel, a,
{
    if a.len() == 0 {
        Seq::empty()
    } else {
        lit_seq(cls, a.drop_last(), fuel).push(lit_of(cls, a.last(), fuel))
    }
}

/// Unification of two bounds, or of a bound with a type.
pub open spec fn unify_bounds(a: TyM, b: TyM) -> Option<TyM> {
    if a is BoundAny {
        Some(b)
    } else if b is BoundAny {
        Some(a)
    } else if a is BoundNum && (is_num(b) || b is BoundNum || b is BoundInt || b is BoundFlt) {
        Some(b)
    } else if b is BoundNum && (is_num(a) || a is BoundInt || a is BoundFlt) {
        Some(a)
    } else if a is BoundInt && (is_int(b) || b is BoundInt) {
        Some(b)
    } else if b is BoundInt && is_int(a) {
        Some(a)
    } else if a is BoundFlt && (is_float(b) || b is BoundFlt) {
        Some(b)
    } else if b is BoundFlt && is_float(a) {
        Some(a)
    } else {
        None
    }
}

/// Unification of two terms without type variables: the most specific term
/// that both describe, or `None` when they are incompatible.
pub open spec fn unify_ground(a: TyM, b: TyM) -> Option<TyM>
    decreases a,
{
    if a is TVar || b is TVar {
        None
    } else if is_prim(a) && a == b {
        Some(a)
    } else {
        match (a, b) {
            (TyM::StructRef(n, i, x), TyM::StructRef(_, j, y)) => {
                if i == j && x.len() == y.len() {
                    match unify_seqs(x, y) {
                        Some(z) => Some(TyM::StructRef(n, i, z)),
                        None => None,
                    }
                } else {
                    None
                }
            },
            (TyM::UnionRef(n, i, x), TyM::UnionRef(_, j, y)) => {
                if i == j && x.len() == y.len() {
                    match unify_seqs(x, y) {
                        Some(z) => Some(TyM::UnionRef(n, i, z)),
                        None => None,
                    }
                } else {
                    None
                }
            },
            (TyM::EnumRef(n, i, x), TyM::EnumRef(_, j, y)) => {
                if i == j && x.len() == y.len() {
                    match unify_seqs(x, y) {
                        Some(z) => Some(TyM::EnumRef(n, i, z)),
                        None => None,
                    }
                } else {
                    None
                }
            },
            (TyM::Func(p, va, r), TyM::Func(q, vb, s)) => {
                if p.len() == q.len() && va == vb {
                    match (unify_named(p, q), unify_ground(*r, *s)) {
                        (Some(f), Some(t)) => Some(TyM::Func(f, va, Box::new(t))),
                        _ => None,
                    }
                } else {
                    None
                }
            },
            (TyM::Ptr(m, x), TyM::Ptr(m2, y)) => {
                if m == m2 {
                    match unify_ground(*x, *y) {
                        Some(t) => Some(TyM::Ptr(m, Box::new(t))),
                        None => None,
                    }
                } else {
                    None
                }
            },
            (TyM::Arr(n, x), TyM::Arr(n2, y)) => {
                if n == n2 {
                    match unify_ground(*x, *y) {
                        Some(t) => Some(TyM::Arr(n, Box::new(t))),
                        None => None,
                    }
                } else {
                    None
                }
            },
            (TyM::Tuple(p), TyM::Tuple(q)) => {
                if p.len() == q.len() {
                    match unify_named(p, q) {
                        Some(f) => Some(TyM::Tuple(f)),
                        None => None,
                    }
                } else {
                    None
                }
            },
            _ => unify_bounds(a, b),
        }
    }
}

/// Pairwise unification of two lists of named terms: names must agree.
pub open spec fn unify_named(p: Seq<(Name, TyM)>, q: Seq<(Name, TyM)>) -> Option<Seq<(Name, TyM)>>
    decreases p,
{
    if p.len() != q.len() {
        None
    } else if p.len() == 0 {
        Some(Seq::empty())
    } else {
        match (unify_named(p.drop_last(), q.drop_last()), unify_ground(p.last().1, q.last().1)) {
            (Some(f), Some(t)) => if p.last().0 == q.last().0 {
                Some(f.push((p.last().0, t)))
            } else {
                None
            },
            _ => None,
        }
    }
}

/// Pairwise unification of two lists of terms.
pub open spec fn unify_seqs(x: Seq<TyM>, y: Seq<TyM>) -> Option<Seq<TyM>>
    decreases x,
{
    if x.len() != y.len() {
        None
    } else if x.len() == 0 {
        Some(Seq::empty())
    } else {
        match (unify_seqs(x.drop_last(), y.drop_last()), unify_ground(x.last(), y.last())) {
            (Some(z), Some(t)) => Some(z.push(t)),
            _ => None,
        }
    }
}

proof fn lemma_named_prefix_fail(p: Seq<(Name, TyM)>, q: Seq<(Name, TyM)>, k: int)
    requires
        p.len() == q.len(),
        0 <= k <= p.len(),
        unify_named(p.take(k), q.take(k)) is None,
    ensures
        unify_named(p, q) is None,
    decreases p.len() - k,
{
    if k == p.len() {
        assert(p.take(k) =~= p);
        assert(q.take(k) =~= q);
    } else {
        assert(p.take(k + 1).drop_last() =~= p.take(k));
        assert(q.take(k + 1).drop_last() =~= q.take(k));
        lemma_named_prefix_fail(p, q, k + 1);
    }
}

proof fn lemma_seqs_prefix_fail(x: Seq<TyM>, y: Seq<TyM>, k: int)
    requires
        x.len() == y.len(),
        0 <= k <= x.len(),
        unify_seqs(x.take(k), y.take(k)) is None,
    ensures
        unify_seqs(x, y) is None,
    decreases x.len() - k,
{
    if k == x.len() {
        assert(x.take(k) =~= x);
        assert(y.take(k) =~= y);
    } else {
        assert(x.take(k + 1).drop_last() =~= x.take(k));
        assert(y.take(k + 1).drop_last() =~= y.take(k));
        lemma_seqs_prefix_fail(x, y, k + 1);
    }
}

/// Nominal references that `a` and `b` hold at the same place and that name
/// the same definition carry the same name.
pub open spec fn names_agree(a: TyM, b: TyM) -> bool
    decreases a,
{
    match (a, b) {
        (TyM::StructRef(n1, i, x), TyM::StructRef(n2, j, y)) => i == j ==> n1 == n2 && seqs_agree(x, y),
        (TyM::UnionRef(n1, i, x), TyM::UnionRef(n2, j, y)) => i == j ==> n1 == n2 && seqs_agree(x, y),
        (TyM::EnumRef(n1, i, x), TyM::EnumRef(n2, j, y)) => i == j ==> n1 == n2 && seqs_agree(x, y),
        (TyM::Ptr(_, x), TyM::Ptr(_, y)) => names_agree(*x, *y),
        (TyM::Arr(_, x), TyM::Arr(_, y)) => names_agree(*x, *y),
        (TyM::Func(p, _, r), TyM::Func(q, _, t)) => named_agree(p, q) && names_agree(*r, *t),
        (TyM::Tuple(p), TyM::Tuple(q)) => named_agree(p, q),
        _ => true,
    }
}

pub open spec fn named_agree(p: Seq<(Name, TyM)>, q: Seq<(Name, TyM)>) -> bool
    decreases p,
{
    p.len() != q.len() || p.len() == 0 || (named_agree(p.drop_last(), q.drop_last()) && names_agree(
        p.last().1,
        q.last().1,
    ))
}

pub open spec fn seqs_agree(x: Seq<TyM>, y: Seq<TyM>) -> bool
    decreases x,
{
    x.len() != y.len() || x.len() == 0 || (seqs_agree(x.drop_last(), y.drop_last()) && names_agree(
        x.last(),
        y.last(),
    ))
}

/// Unification of terms without variables is symmetric: `unify(a, b)`
/// succeeds exactly when `unify(b, a)` does, and both give the same term
/// when the nominal references that they pair up carry the same names (the
/// result keeps the name written in the first argument).
pub proof fn lemma_unify_symmetric(a: TyM, b: TyM)
    ensures
        (unify_ground(a, b) is Some) == (unify_ground(b, a) is Some),
        names_agree(a, b) ==> unify_ground(a, b) == unify_ground(b, a),
    decreases a,
{
    match (a, b) {
        (TyM::StructRef(_, _, x), TyM::StructRef(_, _, y)) => lemma_seqs_symmetric(x, y),
        (TyM::UnionRef(_, _, x), TyM::UnionRef(_, _, y)) => lemma_seqs_symmetric(x, y),
        (TyM::EnumRef(_, _, x), TyM::EnumRef(_, _, y)) => lemma_seqs_symmetric(x, y),
        (TyM::Ptr(_, x), TyM::Ptr(_, y)) => lemma_unify_symmetric(*x, *y),
        (TyM::Arr(_, x), TyM::Arr(_, y)) => lemma_unify_symmetric(*x, *y),
        (TyM::Func(p, _, r), TyM::Func(q, _, t)) => {
            lemma_named_symmetric(p, q);
            lemma_unify_symmetric(*r, *t);
        },
        (TyM::Tuple(p), TyM::Tuple(q)) => lemma_named_symmetric(p, q),
        _ => {},
    }
}

proof fn lemma_named_symmetric(p: Seq<(Name, TyM)>, q: Seq<(Name, TyM)>)
    ensures
        (unify_named(p, q) is Some) == (unify_named(q, p) is Some),
        named_agree(p, q) ==> unify_named(p, q) == unify_named(q, p),
    decreases p,
{
    if p.len() == q.len() && p.len() > 0 {
        lemma_named_symmetric(p.drop_last(), q.drop_last());
        lemma_unify_symmetric(p.last().1, q.last().1);
    }
}

proof fn lemma_seqs_symmetric(x: Seq<TyM>, y: Seq<TyM>)
    ensures
        (unify_seqs(x, y) is Some) == (unify_seqs(y, x) is Some),
        seqs_agree(x, y) ==> unify_seqs(x, y) == unify_seqs(y, x),
    decreases x,
{
    if x.len() == y.len() && x.len() > 0 {
        lemma_seqs_symmetric(x.drop_last(), y.drop_last());
        lemma_unify_symmetric(x.last(), y.last());
    }
}

/// Unification of terms without variables is transitive where the outer
/// two terms are compatible: when `a` unifies with `b`, `b` with `c` and `a`
/// with `c`, unifying the first result with `c` and `a` with the second
/// result both succeed, with the same term.
pub proof fn lemma_unify_transitive(a: TyM, b: TyM, c: TyM)
    requires
        unify_ground(a, b) is Some,
        unify_ground(b, c) is Some,
        unify_ground(a, c) is Some,
    ensures
        unify_ground(unify_ground(a, b)->Some_0, c) is Some,
        unify_ground(a, unify_ground(b, c)->Some_0) is Some,
        unify_ground(unify_ground(a, b)->Some_0, c) == unify_ground(a, unify_ground(b, c)->Some_0),
    decreases a,
{
    match (a, b, c) {
        (TyM::StructRef(_, _, x), TyM::StructRef(_, _, y), TyM::StructRef(_, _, z)) => {
            lemma_seqs_transitive(x, y, z);
        },
        (TyM::UnionRef(_, _, x), TyM::UnionRef(_, _, y), TyM::UnionRef(_, _, z)) => {
            lemma_seqs_transitive(x, y, z);
        },
        (TyM::EnumRef(_, _, x), TyM::EnumRef(_, _, y), TyM::EnumRef(_, _, z)) => {
            lemma_seqs_transitive(x, y, z);
        },
        (TyM::Ptr(_, x), TyM::Ptr(_, y), TyM::Ptr(_, z)) => lemma_unify_transitive(*x, *y, *z),
        (TyM::Arr(_, x), TyM::Arr(_, y), TyM::Arr(_, z)) => lemma_unify_transitive(*x, *y, *z),
        (TyM::Func(p, _, r), TyM::Func(q, _, t), TyM::Func(u, _, v)) => {
            lemma_named_transitive(p, q, u);
            lemma_unify_transitive(*r, *t, *v);
        },
        (TyM::Tuple(p), TyM::Tuple(q), TyM::Tuple(u)) => lemma_named_transitive(p, q, u),
        _ => {},
    }
}

proof fn lemma_named_transitive(p: Seq<(Name, TyM)>, q: Seq<(Name, TyM)>, u: Seq<(Name, TyM)>)
    requires
        unify_named(p, q) is Some,
        unify_named(q, u) is Some,
        unify_named(p, u) is Some,
    ensures
        unify_named(unify_named(p, q)->Some_0, u) is Some,
        unify_named(p, unify_named(q, u)->Some_0) is Some,
        unify_named(unify_named(p, q)->Some_0, u) == unify_named(p, unify_named(q, u)->Some_0),
    decreases p,
{
    if p.len() > 0 {
        lemma_named_transitive(p.drop_last(), q.drop_last(), u.drop_last());
        lemma_unify_transitive(p.last().1, q.last().1, u.last().1);
        let pq = unify_named(p, q)->Some_0;
        let qu = unify_named(q, u)->Some_0;
        assert(pq.drop_last() =~= unify_named(p.drop_last(), q.drop_last())->Some_0);
        assert(qu.drop_last() =~= unify_named(q.drop_last(), u.drop_last())->Some_0);
    } else {
        assert(unify_named(p, q)->Some_0 =~= Seq::<(Name, TyM)>::empty());
        assert(unify_named(q, u)->Some_0 =~= Seq::<(Name, TyM)>::empty());
    }
}

proof fn lemma_seqs_transitive(x: Seq<TyM>, y: Seq<TyM>, z: Seq<TyM>)
    requires
        unify_seqs(x, y) is Some,
        unify_seqs(y, z) is Some,
        unify_seqs(x, z) is Some,
    ensures
        unify_seqs(unify_seqs(x, y)->Some_0, z) is Some,
        unify_seqs(x, unify_seqs(y, z)->Some_0) is Some,
        unify_seqs(unify_seqs(x, y)->Some_0, z) == unify_seqs(x, unify_seqs(y, z)->Some_0),
    decreases x,
{
    if x.len() > 0 {
        lemma_seqs_transitive(x.drop_last(), y.drop_last(), z.drop_last());
        lemma_unify_transitive(x.last(), y.last(), z.last());
        let xy = unify_seqs(x, y)->Some_0;
        let yz = unify_seqs(y, z)->Some_0;
        assert(xy.drop_last() =~= unify_seqs(x.drop_last(), y.drop_last())->Some_0);
        assert(yz.drop_last() =~= unify_seqs(y.drop_last(), z.drop_last())->Some_0);
    } else {
        assert(unify_seqs(x, y)->Some_0 =~= Seq::<TyM>::empty());
        assert(unify_seqs(y, z)->Some_0 =~= Seq::<TyM>::empty());
    }
}

/// Some position of two lists of named terms carries different names.
pub open spec fn names_differ(p: Seq<(Name, TyM)>, q: Seq<(Name, TyM)>) -> bool {
    exists|k: int| 0 <= k < p.len() && k < q.len() && p[k].0 != q[k].0
}

/// The outer constructors of `a` and `b` cannot be unified, whatever the
/// terms hold below them: different scalars, different constructors,
/// nominal references to different definitions or with different numbers
/// of arguments, pointers of different mutability, arrays of different
/// lengths, tuples or functions of different arity or parameter names,
/// functions with different variadic flags, or bounds that admit neither
/// side.
pub open spec fn clash(a: TyM, b: TyM) -> bool {
    &&& !(a is TVar)
    &&& !(b is TVar)
    &&& !(is_prim(a) && a == b)
    &&& match (a, b) {
        (TyM::StructRef(_, i, x), TyM::StructRef(_, j, y)) => i != j || x.len() != y.len(),
        (TyM::UnionRef(_, i, x), TyM::UnionRef(_, j, y)) => i != j || x.len() != y.len(),
        (TyM::EnumRef(_, i, x), TyM::EnumRef(_, j, y)) => i != j || x.len() != y.len(),
        (TyM::Func(p, va, _), TyM::Func(q, vb, _)) => p.len() != q.len() || va != vb
            || names_differ(p, q),
        (TyM::Ptr(m, _), TyM::Ptr(n, _)) => m != n,
        (TyM::Arr(m, _), TyM::Arr(n, _)) => m != n,
        (TyM::Tuple(p), TyM::Tuple(q)) => p.len() != q.len() || names_differ(p, q),
        _ => unify_bounds(a, b) is None,
    }
}

/// Ranks after linking a root under the variable `r1`: `r1` goes below all
/// others.
pub open spec fn lower_rank(rank: Seq<nat>, r1: int) -> Seq<nat> {
    Seq::new(rank.len(), |k: int| if k == r1 { 0 } else { rank[k] + 1 })
}

proof fn lemma_union_links(vars: Seq<TyM>, rank: Seq<nat>, r1: int, r2: int, t: TyM)
    requires
        links_ranked(vars, rank),
        vars.len() <= usize::MAX,
        0 <= r1 < vars.len(),
        0 <= r2 < vars.len(),
        r1 != r2,
        !is_link(t),
    ensures
        links_ranked(vars.update(r1, t).update(r2, TyM::TVar(r1 as usize)), lower_rank(rank, r1)),
{
    let v2 = vars.update(r1, t).update(r2, TyM::TVar(r1 as usize));
    let rk = lower_rank(rank, r1);
    assert forall|x: int| 0 <= x < v2.len() && is_link(#[trigger] v2[x]) implies {
        let j = v2[x]->TVar_0 as int;
        &&& j < v2.len()
        &&& rk[j] < rk[x]
    } by {
        if x != r1 && x != r2 {
            assert(v2[x] == vars[x]);
        }
    }
}

proof fn lemma_union_find(vars: Seq<TyM>, rank: Seq<nat>, r1: int, r2: int, t: TyM, k: int)
    requires
        links_ranked(vars, rank),
        vars.len() <= usize::MAX,
        0 <= r1 < vars.len(),
        0 <= r2 < vars.len(),
        r1 != r2,
        !is_link(t),
        !is_link(vars[r1]),
        !is_link(vars[r2]),
        0 <= k < vars.len(),
    ensures
        find_in(vars.update(r1, t).update(r2, TyM::TVar(r1 as usize)), lower_rank(rank, r1), k)
            == if find_in(vars, rank, k) == r2 {
            r1
        } else {
            find_in(vars, rank, k)
        },
    decreases rank[k],
{
    let v2 = vars.update(r1, t).update(r2, TyM::TVar(r1 as usize));
    let rk = lower_rank(rank, r1);
    lemma_union_links(vars, rank, r1, r2, t);
    lemma_find(vars, rank, k);
    if k == r1 {
    } else if k == r2 {
        assert(find_in(v2, rk, r1) == r1);
    } else {
        assert(v2[k] == vars[k]);
        if is_link(vars[k]) {
            lemma_union_find(vars, rank, r1, r2, t, vars[k]->TVar_0 as int);
        }
    }
}

proof fn lemma_set_bound(vars: Seq<TyM>, rank: Seq<nat>, r: int, t: TyM, k: int)
    requires
        links_ranked(vars, rank),
        0 <= r < vars.len(),
        0 <= k < vars.len(),
        !is_link(t),
    ensures
        links_ranked(vars.update(r, t), rank),
        !is_link(vars[r]) ==> find_in(vars.update(r, t), rank, k) == find_in(vars, rank, k),
    decreases rank[k],
{
    let v2 = vars.update(r, t);
    assert forall|x: int| 0 <= x < v2.len() && is_link(#[trigger] v2[x]) implies {
        let j = v2[x]->TVar_0 as int;
        &&& j < v2.len()
        &&& rank[j] < rank[x]
    } by {
        if x != r {
            assert(v2[x] == vars[x]);
        }
    }
    if k != r && is_link(vars[k]) {
        assert(v2[k] == vars[k]);
        lemma_set_bound(vars, rank, r, t, vars[k]->TVar_0 as int);
    }
}



pub open spec fn model_of(r: Result<Ty, CannotUnifyError>) -> Result<TyM, ()> {
    match r {
        Ok(t) => Ok(t@),
        Err(_) => Err(()),
    }
}

/// Two terms that cannot be unified.
pub struct CannotUnifyError(pub Ty, pub Ty);

fn cannot_unify(ty1: &Ty, ty2: &Ty) -> (r: Result<Ty, CannotUnifyError>)
    ensures
        r matches Err(e) && e.0@ == ty1@ && e.1@ == ty2@,
{
    Err(CannotUnifyError(copy_ty(ty1), copy_ty(ty2)))
}

/// Unification where neither term is a variable and the two are not built
/// by the same constructor.
fn unify_bound_terms(ty1: &Ty, ty2: &Ty) -> (r: Result<Ty, CannotUnifyError>)
    ensures
        r is Ok <==> unify_bounds(ty1@, ty2@) is Some,
        r is Ok ==> r->Ok_0@ == unify_bounds(ty1@, ty2@)->Some_0,
{
    let num_or_bound2 = is_int_ty(ty2) || is_float_ty(ty2) || matches!(ty2, Ty::BoundNum)
        || matches!(ty2, Ty::BoundInt) || matches!(ty2, Ty::BoundFlt);
    let num_or_bound1 = is_int_ty(ty1) || is_float_ty(ty1) || matches!(ty1, Ty::BoundInt)
        || matches!(ty1, Ty::BoundFlt);
    if matches!(ty1, Ty::BoundAny) {
        Ok(copy_ty(ty2))
    } else if matches!(ty2, Ty::BoundAny) {
        Ok(copy_ty(ty1))
    } else if matches!(ty1, Ty::BoundNum) && num_or_bound2 {
        Ok(copy_ty(ty2))
    } else if matches!(ty2, Ty::BoundNum) && num_or_bound1 {
        Ok(copy_ty(ty1))
    } else if matches!(ty1, Ty::BoundInt) && (is_int_ty(ty2) || matches!(ty2, Ty::BoundInt)) {
        Ok(copy_ty(ty2))
    } else if matches!(ty2, Ty::BoundInt) && is_int_ty(ty1) {
        Ok(copy_ty(ty1))
    } else if matches!(ty1, Ty::BoundFlt) && (is_float_ty(ty2) || matches!(ty2, Ty::BoundFlt)) {
        Ok(copy_ty(ty2))
    } else if matches!(ty2, Ty::BoundFlt) && is_float_ty(ty1) {
        Ok(copy_ty(ty1))
    } else {
        cannot_unify(ty1, ty2)
    }
}

/// Context of type variables: a disjoint-set forest over variables. The slot
/// of a variable holds either `TVar` of its parent, or, at a root, the bound
/// shared by its whole class.
pub struct TVarCtx {
    tvars: Vec<Ty>,
    rank: Ghost<Seq<nat>>,
}

impl TVarCtx {
    pub closed spec fn vars(&self) -> Seq<TyM> {
        Seq::new(self.tvars@.len(), |i: int| self.tvars@[i]@)
    }

    pub closed spec fn ranks(&self) -> Seq<nat> {
        self.rank@
    }

    pub open spec fn len(&self) -> nat {
        self.vars().len()
    }

    pub open spec fn wf(&self) -> bool {
        &&& self.len() <= usize::MAX
        &&& links_ranked(self.vars(), self.ranks())
        &&& forall|i: int| 0 <= i < self.len() ==> tvars_below(#[trigger] self.vars()[i], self.len())
    }

    /// The term `t` refers to variables of this context only.
    pub open spec fn valid(&self, t: TyM) -> bool {
        tvars_below(t, self.len())
    }

    /// Index of the root of variable `i`.
    pub open spec fn find(&self, i: int) -> int {
        find_in(self.vars(), self.ranks(), i)
    }

    /// For each variable, the bound stored at the root of its class.
    pub open spec fn classes(&self) -> Seq<TyM> {
        Seq::new(self.len(), |i: int| self.vars()[self.find(i)])
    }

    pub fn new() -> (r: Self)
        ensures
            r.wf(),
            r.len() == 0,
    {
        TVarCtx { tvars: Vec::new(), rank: Ghost(Seq::empty()) }
    }

    /// Appends a fresh variable with the given bound; returns `TVar` of it.
    pub fn tvar(&mut self, bound: Ty) -> (r: Ty)
        requires
            old(self).wf(),
            old(self).valid(bound@),
            !is_link(bound@),
            old(self).len() < usize::MAX,
        ensures
            final(self).wf(),
            final(self).vars() == old(self).vars().push(bound@),
            r@ == TyM::TVar(old(self).len() as usize),
            forall|i: int| 0 <= i < old(self).len() ==> final(self).find(i) == old(self).find(i),
            final(self).classes() == old(self).classes().push(bound@),
    {
        let ghost old_vars = self.vars();
        let ghost old_rank = self.rank@;
        let n = self.tvars.len();
        let ty = Ty::TVar(n);
        self.tvars.push(bound);
        self.rank = Ghost(self.rank@.push(0));
        proof {
            let v2 = self.vars();
            assert(v2 =~= old_vars.push(bound@));
            assert(self.rank@.subrange(0, n as int) =~= old_rank);
            assert(links_ranked(v2, self.rank@));
            assert forall|i: int| 0 <= i < self.len() implies tvars_below(#[trigger] self.vars()[i], self.len()) by {
                if i < n {
                    assert(self.vars()[i] == old_vars[i]);
                    lemma_tvars_below_mono(old_vars[i], n as nat, self.len());
                } else {
                    lemma_tvars_below_mono(bound@, n as nat, self.len());
                }
            }
            assert(self.rank@ == old_rank.push(0));
            assert forall|i: int| 0 <= i < n implies self.find(i) == find_in(old_vars, old_rank, i) by {
                lemma_find_extend(old_vars, old_rank, bound@, i);
            }
            lemma_find(v2, self.rank@, n as int);
            let c0 = Seq::new(n as nat, |i: int| old_vars[find_in(old_vars, old_rank, i)]);
            assert forall|i: int| 0 <= i < self.len() implies #[trigger] self.classes()[i] == c0.push(bound@)[i] by {
                if i < n {
                    lemma_find(old_vars, old_rank, i);
                    lemma_find_extend(old_vars, old_rank, bound@, i);
                }
            }
            assert(self.classes() =~= c0.push(bound@));
        }
        ty
    }

    /// The result of a search for the root of `idx`.
    pub open spec fn root_post(old_ctx: TVarCtx, new_ctx: TVarCtx, idx: int, r: int) -> bool {
        &&& new_ctx.wf()
        &&& new_ctx.len() == old_ctx.len()
        &&& new_ctx.ranks() == old_ctx.ranks()
        &&& r == old_ctx.find(idx)
        &&& forall|k: int| 0 <= k < old_ctx.len() ==> new_ctx.find(k) == old_ctx.find(k)
        &&& forall|k: int|
            0 <= k < old_ctx.len() && !is_link(old_ctx.vars()[k]) ==> #[trigger] new_ctx.vars()[k]
                == old_ctx.vars()[k]
        &&& forall|k: int|
            0 <= k < old_ctx.len() && is_link(old_ctx.vars()[k]) ==> is_link(
                #[trigger] new_ctx.vars()[k],
            )
        &&& new_ctx.classes() == old_ctx.classes()
        &&& new_ctx.vars()[idx] == TyM::TVar(r as usize) || (r == idx && new_ctx.vars()[idx]
            == old_ctx.vars()[idx])
        // Every link on the chain from `idx` now points straight at the root;
        // every other slot is as it was.
        &&& forall|k: int|
            0 <= k < old_ctx.len() ==> #[trigger] new_ctx.vars()[k] == if on_chain(
                old_ctx.vars(),
                old_ctx.ranks(),
                idx,
                k,
            ) && is_link(old_ctx.vars()[k]) {
                TyM::TVar(r as usize)
            } else {
                old_ctx.vars()[k]
            }
    }

    /// `new_ctx` holds the same classes with the same bounds as `old_ctx`.
    pub open spec fn same_classes(old_ctx: TVarCtx, new_ctx: TVarCtx) -> bool {
        &&& new_ctx.wf()
        &&& new_ctx.len() == old_ctx.len()
        &&& new_ctx.classes() == old_ctx.classes()
    }

    /// Finds the root of variable `idx`, pointing every variable on the way
    /// straight at it.
    pub fn root(&mut self, idx: usize) -> (r: usize)
        requires
            old(self).wf(),
            idx < old(self).len(),
        ensures
            Self::root_post(*old(self), *final(self), idx as int, r as int),
        decreases old(self).ranks()[idx as int],
    {
        let ghost vars0 = self.vars();
        let ghost rank0 = self.rank@;
        let ghost s0 = *self;
        proof {
            lemma_find(vars0, rank0, idx as int);
        }
        if let Ty::TVar(parent) = &self.tvars[idx] {
            let parent = *parent;
            assert(vars0[idx as int] == TyM::TVar(parent));
            let r = self.root(parent);
            let ghost vars1 = self.vars();
            let ghost s1 = *self;
            proof {
                assert(s1.find(idx as int) == s0.find(idx as int));
                assert(is_link(vars1[idx as int]));
                assert(find_in(vars1, rank0, idx as int) == r);
            }
            self.tvars.set(idx, Ty::TVar(r));
            proof {
                assert(self.vars() =~= vars1.update(idx as int, TyM::TVar(r)));
                assert forall|k: int| 0 <= k < self.len() implies self.find(k) == find_in(vars0, rank0, k) by {
                    lemma_compress(vars1, rank0, idx as int, k);
                    assert(s1.find(k) == s0.find(k));
                }
                lemma_compress(vars1, rank0, idx as int, 0);
                assert forall|k: int| 0 <= k < self.len() implies tvars_below(#[trigger] self.vars()[k], self.len()) by {
                    if k != idx {
                        assert(self.vars()[k] == vars1[k]);
                    }
                }
                assert forall|k: int| 0 <= k < self.len() && !is_link(vars0[k]) implies #[trigger] self.vars()[k] == vars0[k] by {
                    lemma_find(vars0, rank0, k);
                }
                assert forall|k: int| 0 <= k < self.len() implies self.vars()[self.find(k)] == vars0[find_in(vars0, rank0, k)] by {
                    lemma_find(vars0, rank0, k);
                }
                assert forall|k: int| 0 <= k < self.len() implies #[trigger] self.classes()[k] == s0.classes()[k] by {
                    lemma_find(vars0, rank0, k);
                }
                assert(self.classes() =~= s0.classes());
                assert forall|k: int| 0 <= k < self.len() implies #[trigger] self.vars()[k] == if on_chain(
                    vars0,
                    rank0,
                    idx as int,
                    k,
                ) && is_link(vars0[k]) {
                    TyM::TVar(r)
                } else {
                    vars0[k]
                } by {
                    if k != idx {
                        assert(on_chain(vars0, rank0, idx as int, k) == on_chain(vars0, rank0, parent as int, k));
                        assert(self.vars()[k] == vars1[k]);
                        assert(s1.vars()[k] == vars1[k]);
                    }
                }
            }
            r
        } else {
            proof {
                assert forall|k: int| 0 <= k < self.len() implies #[trigger] self.vars()[k] == if on_chain(
                    vars0,
                    rank0,
                    idx as int,
                    k,
                ) && is_link(vars0[k]) {
                    TyM::TVar(idx)
                } else {
                    vars0[k]
                } by {
                    if k != idx {
                        assert(!on_chain(vars0, rank0, idx as int, k));
                    }
                }
            }
            idx
        }
    }

    /// The literal type of `ty`: every bound replaced by its default type and
    /// every variable by the literal type of its class's bound.
    pub fn lit_ty(&mut self, ty: &Ty) -> (r: Ty)
        requires
            old(self).wf(),
            old(self).valid(ty@),
        ensures
            Self::same_classes(*old(self), *final(self)),
            r@ == lit_of(old(self).classes(), ty@, old(self).len()),
    {
        let n = self.tvars.len();
        self.lit_in(ty, n)
    }

    /// The literal type, resolving at most `fuel` variables deep. `lit_ty`
    /// passes the number of variables: every chain of bounds that never
    /// refers back to an earlier variable is resolved in full.
    fn lit_in(&mut self, ty: &Ty, fuel: usize) -> (r: Ty)
        requires
            old(self).wf(),
            old(self).valid(ty@),
        ensures
            Self::same_classes(*old(self), *final(self)),
            r@ == lit_of(old(self).classes(), ty@, fuel as nat),
        decreases fuel, ty,
    {
        match ty {
            Ty::Ptr(m, b) => {
                let b2 = self.lit_in(b, fuel);
                Ty::Ptr(*m, Box::new(b2))
            },
            Ty::Func(ps, va, rt) => {
                proof {
                    lemma_fields_below(ps@, self.len());
                }
                let ps2 = self.lit_fields_in(ps, fuel);
                let rt2 = self.lit_in(rt, fuel);
                Ty::Func(ps2, *va, Box::new(rt2))
            },
            Ty::Arr(n, e) => Ty::Arr(*n, Box::new(self.lit_in(e, fuel))),
            Ty::Tuple(ps) => {
                proof {
                    lemma_fields_below(ps@, self.len());
                }
                Ty::Tuple(self.lit_fields_in(ps, fuel))
            },
            Ty::StructRef(n, id, a) => {
                proof {
                    lemma_tys_below(a@, self.len());
                }
                Ty::StructRef(*n, *id, self.lit_tys_in(a, fuel))
            },
            Ty::UnionRef(n, id, a) => {
                proof {
                    lemma_tys_below(a@, self.len());
                }
                Ty::UnionRef(*n, *id, self.lit_tys_in(a, fuel))
            },
            Ty::EnumRef(n, id, a) => {
                proof {
                    lemma_tys_below(a@, self.len());
                }
                Ty::EnumRef(*n, *id, self.lit_tys_in(a, fuel))
            },
            Ty::TVar(i) => {
                if fuel == 0 {
                    unit_ty()
                } else {
                    let ghost s0 = *self;
                    let r = self.root(*i);
                    let b = copy_ty(&self.tvars[r]);
                    proof {
                        assert(self.classes()[*i as int] == s0.classes()[*i as int]);
                        assert(b@ == s0.classes()[*i as int]);
                        lemma_find(s0.vars(), s0.ranks(), *i as int);
                    }
                    self.lit_in(&b, fuel - 1)
                }
            },
            Ty::BoundAny => {
                unit_ty()
            },
            Ty::BoundNum => Ty::Int32,
            Ty::BoundInt => Ty::Int32,
            Ty::BoundFlt => Ty::Float,
            _ => {
                copy_ty(ty)
            },
        }
    }

    /// What a unification of `t1` and `t2` from `c0` guarantees of the context
    /// `c1` after it and of its outcome `r`.
    pub open spec fn unify_post(
        c0: TVarCtx,
        c1: TVarCtx,
        t1: TyM,
        t2: TyM,
        r: Result<TyM, ()>,
    ) -> bool {
        &&& c1.wf()
        &&& c1.len() == c0.len()
        &&& r is Ok ==> c1.valid(r->Ok_0)
        &&& !is_link(t1) && !is_link(t2) && r is Ok ==> !is_link(r->Ok_0)
        // Terms without variables: the context is untouched.
        &&& is_ground(t1) && is_ground(t2) ==> {
            &&& c1.vars() == c0.vars()
            &&& c1.ranks() == c0.ranks()
            &&& r is Ok <==> unify_ground(t1, t2) is Some
            &&& r is Ok ==> r->Ok_0 == unify_ground(t1, t2)->Some_0
        }
        // Outer constructors that cannot meet: failure, whatever lies below.
        &&& clash(t1, t2) ==> r is Err
    }

    /// What a successful unification involving a variable leaves at the
    /// roots: the result is `TVar` of the first variable's old root, that root
    /// holds a bound, and when two classes met, the old root of the second
    /// links straight to it.
    pub open spec fn unify_links_post(
        c0: TVarCtx,
        c1: TVarCtx,
        t1: TyM,
        t2: TyM,
        r: Result<TyM, ()>,
    ) -> bool {
        &&& t1 is TVar && r is Ok ==> {
            let r1 = c0.find(t1->TVar_0 as int);
            &&& r->Ok_0 == TyM::TVar(r1 as usize)
            &&& !is_link(c1.vars()[r1])
            &&& c1.find(r1) == r1
            &&& t2 is TVar ==> c1.find(c0.find(t2->TVar_0 as int)) == r1
            &&& t2 is TVar && c0.find(t2->TVar_0 as int) != r1 ==> c1.vars()[c0.find(
                t2->TVar_0 as int,
            )] == TyM::TVar(r1 as usize)
        }
        &&& !(t1 is TVar) && t2 is TVar && r is Ok ==> {
            let r2 = c0.find(t2->TVar_0 as int);
            &&& r->Ok_0 == TyM::TVar(r2 as usize)
            &&& !is_link(c1.vars()[r2])
            &&& c1.find(r2) == r2
        }
    }

    /// What a unification of a variable with a term guarantees when the
    /// bounds involved hold no variables.
    pub open spec fn unify_vars_post(
        c0: TVarCtx,
        c1: TVarCtx,
        t1: TyM,
        t2: TyM,
        r: Result<TyM, ()>,
    ) -> bool {
        // Two variables whose classes have bounds without variables: the
        // classes are merged under the root of the first.
        &&& t1 is TVar && t2 is TVar && is_ground(c0.classes()[t1->TVar_0 as int]) && is_ground(
            c0.classes()[t2->TVar_0 as int],
        ) ==> {
            let i = t1->TVar_0 as int;
            let j = t2->TVar_0 as int;
            let u = if c0.find(i) == c0.find(j) {
                Some(c0.classes()[i])
            } else {
                unify_ground(c0.classes()[i], c0.classes()[j])
            };
            &&& r is Ok <==> u is Some
            &&& r is Ok ==> {
                &&& r->Ok_0 == TyM::TVar(c0.find(i) as usize)
                &&& c1.find(i) == c0.find(i)
                &&& c1.find(j) == c0.find(i)
                &&& c1.classes()[i] == u->Some_0
            }
        }
        // A variable whose class has a bound without variables, and a term
        // without variables: the bound is narrowed.
        &&& t1 is TVar && !is_link(t2) && is_ground(t2) && is_ground(c0.classes()[t1->TVar_0 as int])
            ==> {
            let i = t1->TVar_0 as int;
            let u = unify_ground(c0.classes()[i], t2);
            &&& r is Ok <==> u is Some
            &&& r is Ok ==> {
                &&& r->Ok_0 == TyM::TVar(c0.find(i) as usize)
                &&& c1.find(i) == c0.find(i)
                &&& c1.classes()[i] == u->Some_0
            }
        }
        &&& t2 is TVar && !is_link(t1) && is_ground(t1) && is_ground(c0.classes()[t2->TVar_0 as int])
            ==> {
            let j = t2->TVar_0 as int;
            let u = unify_ground(c0.classes()[j], t1);
            &&& r is Ok <==> u is Some
            &&& r is Ok ==> {
                &&& r->Ok_0 == TyM::TVar(c0.find(j) as usize)
                &&& c1.find(j) == c0.find(j)
                &&& c1.classes()[j] == u->Some_0
            }
        }
    }

    /// Unifies `ty1` with `ty2`: returns the most specific term that both
    /// describe, merging variable classes and narrowing their bounds on the
    /// way, or fails when the two are incompatible.
    pub fn unify(&mut self, ty1: &Ty, ty2: &Ty) -> (r: Result<Ty, CannotUnifyError>)
        requires
            old(self).wf(),
            old(self).valid(ty1@),
            old(self).valid(ty2@),
        ensures
            Self::unify_post(*old(self), *final(self), ty1@, ty2@, model_of(r)),
            Self::unify_vars_post(*old(self), *final(self), ty1@, ty2@, model_of(r)),
            Self::unify_links_post(*old(self), *final(self), ty1@, ty2@, model_of(r)),
            r matches Err(e) ==> e.0@ == ty1@ && e.1@ == ty2@,
    {
        match self.unify_in(ty1, ty2, usize::MAX) {
            Ok(t) => Ok(t),
            Err(_) => cannot_unify(ty1, ty2),
        }
    }

    /// Unification that descends into the bounds of at most `fuel` variables
    /// along any path, failing beyond that. `unify` starts it at
    /// `usize::MAX`, a depth that no run reaches.
    #[verifier::rlimit(80)]
    fn unify_in(&mut self, ty1: &Ty, ty2: &Ty, fuel: usize) -> (r: Result<Ty, CannotUnifyError>)
        requires
            old(self).wf(),
            old(self).valid(ty1@),
            old(self).valid(ty2@),
        ensures
            Self::unify_post(*old(self), *final(self), ty1@, ty2@, model_of(r)),
            fuel > 0 ==> Self::unify_vars_post(*old(self), *final(self), ty1@, ty2@, model_of(r)),
            Self::unify_links_post(*old(self), *final(self), ty1@, ty2@, model_of(r)),
        decreases fuel, ty1,
    {
        let ghost s0 = *self;
        if is_prim_ty(ty1) && ty_eq(ty1, ty2) {
            return Ok(copy_ty(ty1));
        }
        match (ty1, ty2) {
            (Ty::StructRef(n, i1, a1), Ty::StructRef(n2, i2, a2)) => {
                proof {
                    lemma_tys_model(a1@);
                    lemma_tys_model(a2@);
                }
                if *i1 == *i2 && a1.len() == a2.len() {
                    proof {
                        assert(ty1@ == TyM::StructRef(*n, *i1, tys_model(a1@)));
                        assert(ty2@ == TyM::StructRef(*n2, *i2, tys_model(a2@)));
                        lemma_tys_below(a1@, self.len());
                        lemma_tys_below(a2@, self.len());
                        lemma_tys_model(a1@);
                        lemma_tys_model(a2@);
                        if is_ground(ty1@) && is_ground(ty2@) {
                            lemma_tys_ground(a1@);
                            lemma_tys_ground(a2@);
                        }
                    }
                    match self.unify_tys_in(a1, a2, fuel) {
                        Ok(a) => {
                            proof {
                                lemma_tys_model(a@);
                                lemma_tys_below(a@, self.len());
                            }
                            Ok(Ty::StructRef(*n, *i1, a))
                        },
                        Err(e) => Err(e),
                    }
                } else {
                    cannot_unify(ty1, ty2)
                }
            },
            (Ty::UnionRef(n, i1, a1), Ty::UnionRef(n2, i2, a2)) => {
                proof {
                    lemma_tys_model(a1@);
                    lemma_tys_model(a2@);
                }
                if *i1 == *i2 && a1.len() == a2.len() {
                    proof {
                        assert(ty1@ == TyM::UnionRef(*n, *i1, tys_model(a1@)));
                        assert(ty2@ == TyM::UnionRef(*n2, *i2, tys_model(a2@)));
                        lemma_tys_below(a1@, self.len());
                        lemma_tys_below(a2@, self.len());
                        lemma_tys_model(a1@);
                        lemma_tys_model(a2@);
                        if is_ground(ty1@) && is_ground(ty2@) {
                            lemma_tys_ground(a1@);
                            lemma_tys_ground(a2@);
                        }
                    }
                    match self.unify_tys_in(a1, a2, fuel) {
                        Ok(a) => {
                            proof {
                                lemma_tys_model(a@);
                                lemma_tys_below(a@, self.len());
                            }
                            Ok(Ty::UnionRef(*n, *i1, a))
                        },
                        Err(e) => Err(e),
                    }
                } else {
                    cannot_unify(ty1, ty2)
                }
            },
            (Ty::EnumRef(n, i1, a1), Ty::EnumRef(n2, i2, a2)) => {
                proof {
                    lemma_tys_model(a1@);
                    lemma_tys_model(a2@);
                }
                if *i1 == *i2 && a1.len() == a2.len() {
                    proof {
                        assert(ty1@ == TyM::EnumRef(*n, *i1, tys_model(a1@)));
                        assert(ty2@ == TyM::EnumRef(*n2, *i2, tys_model(a2@)));
                        lemma_tys_below(a1@, self.len());
                        lemma_tys_below(a2@, self.len());
                        lemma_tys_model(a1@);
                        lemma_tys_model(a2@);
                        if is_ground(ty1@) && is_ground(ty2@) {
                            lemma_tys_ground(a1@);
                            lemma_tys_ground(a2@);
                        }
                    }
                    match self.unify_tys_in(a1, a2, fuel) {
                        Ok(a) => {
                            proof {
                                lemma_tys_model(a@);
                                lemma_tys_below(a@, self.len());
                            }
                            Ok(Ty::EnumRef(*n, *i1, a))
                        },
                        Err(e) => Err(e),
                    }
                } else {
                    cannot_unify(ty1, ty2)
                }
            },
            (Ty::Func(fs1, v1, r1), Ty::Func(fs2, v2, r2)) => {
                proof {
                    lemma_fields_model(fs1@);
                    lemma_fields_model(fs2@);
                }
                if fs1.len() == fs2.len() && *v1 == *v2 {
                    proof {
                        lemma_fields_below(fs1@, self.len());
                        lemma_fields_below(fs2@, self.len());
                        lemma_fields_model(fs1@);
                        lemma_fields_model(fs2@);
                        if is_ground(ty1@) && is_ground(ty2@) {
                            lemma_fields_ground(fs1@);
                            lemma_fields_ground(fs2@);
                        }
                    }
                    match self.unify_fields_in(fs1, fs2, fuel) {
                        Ok(ps) => {
                            match self.unify_in(r1, r2, fuel) {
                                Ok(rt) => {
                                    proof {
                                        lemma_fields_model(ps@);
                                        lemma_fields_below(ps@, self.len());
                                    }
                                    Ok(Ty::Func(ps, *v1, Box::new(rt)))
                                },
                                Err(e) => Err(e),
                            }
                        },
                        Err(e) => Err(e),
                    }
                } else {
                    cannot_unify(ty1, ty2)
                }
            },
            (Ty::Ptr(m1, b1), Ty::Ptr(m2, b2)) => {
                if *m1 == *m2 {
                    match self.unify_in(b1, b2, fuel) {
                        Ok(b) => Ok(Ty::Ptr(*m1, Box::new(b))),
                        Err(e) => Err(e),
                    }
                } else {
                    cannot_unify(ty1, ty2)
                }
            },
            (Ty::Arr(n1, e1), Ty::Arr(n2, e2)) => {
                if *n1 == *n2 {
                    match self.unify_in(e1, e2, fuel) {
                        Ok(e) => Ok(Ty::Arr(*n1, Box::new(e))),
                        Err(e) => Err(e),
                    }
                } else {
                    cannot_unify(ty1, ty2)
                }
            },
            (Ty::Tuple(fs1), Ty::Tuple(fs2)) => {
                proof {
                    lemma_fields_model(fs1@);
                    lemma_fields_model(fs2@);
                }
                if fs1.len() == fs2.len() {
                    proof {
                        lemma_fields_below(fs1@, self.len());
                        lemma_fields_below(fs2@, self.len());
                        lemma_fields_model(fs1@);
                        lemma_fields_model(fs2@);
                        if is_ground(ty1@) && is_ground(ty2@) {
                            lemma_fields_ground(fs1@);
                            lemma_fields_ground(fs2@);
                        }
                    }
                    match self.unify_fields_in(fs1, fs2, fuel) {
                        Ok(ps) => {
                            proof {
                                lemma_fields_model(ps@);
                                lemma_fields_below(ps@, self.len());
                            }
                            Ok(Ty::Tuple(ps))
                        },
                        Err(e) => Err(e),
                    }
                } else {
                    cannot_unify(ty1, ty2)
                }
            },
            (Ty::TVar(i), Ty::TVar(j)) => {
                let root1 = self.root(*i);
                let ghost s1 = *self;
                let root2 = self.root(*j);
                let ghost s2 = *self;
                proof {
                    lemma_find(s0.vars(), s0.ranks(), *i as int);
                    lemma_find(s0.vars(), s0.ranks(), *j as int);
                    assert(s2.classes()[*i as int] == s0.classes()[*i as int]);
                    assert(s2.classes()[*j as int] == s0.classes()[*j as int]);
                    assert(s1.find(*j as int) == s0.find(*j as int));
                    assert(s2.find(*i as int) == s0.find(*i as int));
                }
                if root1 != root2 {
                    if fuel == 0 {
                        return cannot_unify(ty1, ty2);
                    }
                    let b1 = copy_ty(&self.tvars[root1]);
                    let b2 = copy_ty(&self.tvars[root2]);
                    match self.unify_in(&b1, &b2, fuel - 1) {
                        Ok(t) => {
                            let ghost s3 = *self;
                            self.tvars.set(root1, t);
                            self.tvars.set(root2, Ty::TVar(root1));
                            self.rank = Ghost(lower_rank(self.rank@, root1 as int));
                            proof {
                                let v3 = s3.vars();
                                let nv = v3.update(root1 as int, t@).update(root2 as int, TyM::TVar(root1));
                                assert(self.vars() =~= nv);
                                lemma_union_links(v3, s3.ranks(), root1 as int, root2 as int, t@);
                                assert forall|k: int| 0 <= k < self.len() implies tvars_below(#[trigger] self.vars()[k], self.len()) by {
                                    if k != root1 && k != root2 {
                                        assert(self.vars()[k] == v3[k]);
                                    }
                                }
                                if is_ground(s0.classes()[*i as int]) && is_ground(s0.classes()[*j as int]) {
                                    lemma_union_find(v3, s3.ranks(), root1 as int, root2 as int, t@, *i as int);
                                    lemma_union_find(v3, s3.ranks(), root1 as int, root2 as int, t@, *j as int);
                                    lemma_union_find(v3, s3.ranks(), root1 as int, root2 as int, t@, root1 as int);
                                    assert(self.classes()[*i as int] == t@);
                                }
                            }
                            Ok(Ty::TVar(root1))
                        },
                        Err(e) => Err(e),
                    }
                } else {
                    Ok(Ty::TVar(root1))
                }
            },
            (Ty::TVar(i), _) => {
                let root = self.root(*i);
                let ghost s2 = *self;
                proof {
                    lemma_find(s0.vars(), s0.ranks(), *i as int);
                    assert(s2.classes()[*i as int] == s0.classes()[*i as int]);
                }
                if fuel == 0 {
                    return cannot_unify(ty1, ty2);
                }
                let b = copy_ty(&self.tvars[root]);
                match self.unify_in(&b, ty2, fuel - 1) {
                    Ok(t) => {
                        let ghost s3 = *self;
                        self.tvars.set(root, t);
                        proof {
                            let v3 = s3.vars();
                            assert(self.vars() =~= v3.update(root as int, t@));
                            lemma_set_bound(v3, s3.ranks(), root as int, t@, 0);
                            assert forall|k: int| 0 <= k < self.len() implies tvars_below(#[trigger] self.vars()[k], self.len()) by {
                                if k != root {
                                    assert(self.vars()[k] == v3[k]);
                                }
                            }
                            if is_ground(s0.classes()[*i as int]) && is_ground(ty2@) {
                                lemma_set_bound(v3, s3.ranks(), root as int, t@, *i as int);
                            }
                        }
                        Ok(Ty::TVar(root))
                    },
                    Err(e) => Err(e),
                }
            },
            (_, Ty::TVar(j)) => {
                let root = self.root(*j);
                let ghost s2 = *self;
                proof {
                    lemma_find(s0.vars(), s0.ranks(), *j as int);
                    assert(s2.classes()[*j as int] == s0.classes()[*j as int]);
                }
                if fuel == 0 {
                    return cannot_unify(ty1, ty2);
                }
                let b = copy_ty(&self.tvars[root]);
                match self.unify_in(&b, ty1, fuel - 1) {
                    Ok(t) => {
                        let ghost s3 = *self;
                        self.tvars.set(root, t);
                        proof {
                            let v3 = s3.vars();
                            assert(self.vars() =~= v3.update(root as int, t@));
                            lemma_set_bound(v3, s3.ranks(), root as int, t@, 0);
                            assert forall|k: int| 0 <= k < self.len() implies tvars_below(#[trigger] self.vars()[k], self.len()) by {
                                if k != root {
                                    assert(self.vars()[k] == v3[k]);
                                }
                            }
                            if is_ground(s0.classes()[*j as int]) && is_ground(ty1@) {
                                lemma_set_bound(v3, s3.ranks(), root as int, t@, *j as int);
                            }
                        }
                        Ok(Ty::TVar(root))
                    },
                    Err(e) => Err(e),
                }
            },
            _ => unify_bound_terms(ty1, ty2),
        }
    }

    fn unify_fields_in(&mut self, fs1: &Vec<(Name, Ty)>, fs2: &Vec<(Name, Ty)>, fuel: usize) -> (r: Result<
        Vec<(Name, Ty)>,
        CannotUnifyError,
    >)
        requires
            old(self).wf(),
            fs1.len() == fs2.len(),
            forall|k: int| 0 <= k < fs1@.len() ==> old(self).valid(#[trigger] fs1@[k].1@),
            forall|k: int| 0 <= k < fs2@.len() ==> old(self).valid(#[trigger] fs2@[k].1@),
        ensures
            final(self).wf(),
            final(self).len() == old(self).len(),
            r is Ok ==> r->Ok_0.len() == fs1.len(),
            r is Ok ==> forall|k: int|
                0 <= k < r->Ok_0@.len() ==> final(self).valid(#[trigger] r->Ok_0@[k].1@),
            (forall|k: int| 0 <= k < fs1@.len() ==> is_ground(#[trigger] fs1@[k].1@)) && (forall|k: int|
                0 <= k < fs2@.len() ==> is_ground(#[trigger] fs2@[k].1@)) ==> {
                &&& final(self).vars() == old(self).vars()
                &&& final(self).ranks() == old(self).ranks()
                &&& r is Ok <==> unify_named(fields_model(fs1@), fields_model(fs2@)) is Some
                &&& r is Ok ==> fields_model(r->Ok_0@) == unify_named(
                    fields_model(fs1@),
                    fields_model(fs2@),
                )->Some_0
            },
            (exists|k: int| 0 <= k < fs1@.len() && #[trigger] fs1@[k].0 != fs2@[k].0) ==> r is Err,
        decreases fuel, fs1,
    {
        let ghost s0 = *self;
        let ghost m1 = fields_model(fs1@);
        let ghost m2 = fields_model(fs2@);
        let ghost ground = (forall|k: int| 0 <= k < fs1@.len() ==> is_ground(#[trigger] fs1@[k].1@))
            && (forall|k: int| 0 <= k < fs2@.len() ==> is_ground(#[trigger] fs2@[k].1@));
        proof {
            lemma_fields_model(fs1@);
            lemma_fields_model(fs2@);
        }
        let mut out: Vec<(Name, Ty)> = Vec::new();
        let mut k: usize = 0;
        while k < fs1.len()
            invariant
                k <= fs1.len() == fs2.len(),
                s0 == *old(self),
                self.wf(),
                self.len() == s0.len(),
                out.len() == k,
                m1 == fields_model(fs1@),
                m2 == fields_model(fs2@),
                m1.len() == fs1.len(),
                m2.len() == fs2.len(),
                forall|j: int| 0 <= j < fs1.len() ==> #[trigger] m1[j] == (fs1@[j].0, fs1@[j].1@),
                forall|j: int| 0 <= j < fs2.len() ==> #[trigger] m2[j] == (fs2@[j].0, fs2@[j].1@),
                forall|j: int| 0 <= j < fs1@.len() ==> s0.valid(#[trigger] fs1@[j].1@),
                forall|j: int| 0 <= j < fs2@.len() ==> s0.valid(#[trigger] fs2@[j].1@),
                forall|j: int| 0 <= j < out@.len() ==> self.valid(#[trigger] out@[j].1@),
                forall|j: int| 0 <= j < k ==> #[trigger] fs1@[j].0 == fs2@[j].0,
                ground == ((forall|j: int| 0 <= j < fs1@.len() ==> is_ground(#[trigger] fs1@[j].1@))
                    && (forall|j: int| 0 <= j < fs2@.len() ==> is_ground(#[trigger] fs2@[j].1@))),
                ground ==> {
                    &&& self.vars() == s0.vars()
                    &&& self.ranks() == s0.ranks()
                    &&& unify_named(m1.take(k as int), m2.take(k as int)) == Some(
                        fields_model(out@),
                    )
                },
            decreases fs1.len() - k,
        {
            proof {
                assert(m1.take(k + 1).drop_last() =~= m1.take(k as int));
                assert(m2.take(k + 1).drop_last() =~= m2.take(k as int));
            }
            if fs1[k].0 != fs2[k].0 {
                proof {
                    if ground {
                        lemma_named_prefix_fail(m1, m2, k + 1);
                    }
                }
                return Err(CannotUnifyError(copy_ty(&fs1[k].1), copy_ty(&fs2[k].1)));
            }
            match self.unify_in(&fs1[k].1, &fs2[k].1, fuel) {
                Ok(t) => {
                    let ghost prev = out@;
                    out.push((fs1[k].0, t));
                    proof {
                        assert(out@.drop_last() =~= prev);
                        lemma_fields_model(out@);
                    }
                },
                Err(e) => {
                    proof {
                        if ground {
                            lemma_named_prefix_fail(m1, m2, k + 1);
                        }
                    }
                    return Err(e);
                },
            }
            k = k + 1;
        }
        proof {
            assert(m1.take(fs1.len() as int) =~= m1);
            assert(m2.take(fs2.len() as int) =~= m2);
        }
        Ok(out)
    }

    fn unify_tys_in(&mut self, a1: &Vec<Ty>, a2: &Vec<Ty>, fuel: usize) -> (r: Result<
        Vec<Ty>,
        CannotUnifyError,
    >)
        requires
            old(self).wf(),
            a1.len() == a2.len(),
            forall|k: int| 0 <= k < a1@.len() ==> old(self).valid(#[trigger] a1@[k]@),
            forall|k: int| 0 <= k < a2@.len() ==> old(self).valid(#[trigger] a2@[k]@),
        ensures
            final(self).wf(),
            final(self).len() == old(self).len(),
            r is Ok ==> r->Ok_0.len() == a1.len(),
            r is Ok ==> forall|k: int|
                0 <= k < r->Ok_0@.len() ==> final(self).valid(#[trigger] r->Ok_0@[k]@),
            (forall|k: int| 0 <= k < a1@.len() ==> is_ground(#[trigger] a1@[k]@)) && (forall|k: int|
                0 <= k < a2@.len() ==> is_ground(#[trigger] a2@[k]@)) ==> {
                &&& final(self).vars() == old(self).vars()
                &&& final(self).ranks() == old(self).ranks()
                &&& r is Ok <==> unify_seqs(tys_model(a1@), tys_model(a2@)) is Some
                &&& r is Ok ==> tys_model(r->Ok_0@) == unify_seqs(
                    tys_model(a1@),
                    tys_model(a2@),
                )->Some_0
            },
        decreases fuel, a1,
    {
        let ghost s0 = *self;
        let ghost m1 = tys_model(a1@);
        let ghost m2 = tys_model(a2@);
        let ghost ground = (forall|k: int| 0 <= k < a1@.len() ==> is_ground(#[trigger] a1@[k]@))
            && (forall|k: int| 0 <= k < a2@.len() ==> is_ground(#[trigger] a2@[k]@));
        proof {
            lemma_tys_model(a1@);
            lemma_tys_model(a2@);
        }
        let mut out: Vec<Ty> = Vec::new();
        let mut k: usize = 0;
        while k < a1.len()
            invariant
                k <= a1.len() == a2.len(),
                s0 == *old(self),
                self.wf(),
                self.len() == s0.len(),
                out.len() == k,
                m1 == tys_model(a1@),
                m2 == tys_model(a2@),
                m1.len() == a1.len(),
                m2.len() == a2.len(),
                forall|j: int| 0 <= j < a1.len() ==> #[trigger] m1[j] == a1@[j]@,
                forall|j: int| 0 <= j < a2.len() ==> #[trigger] m2[j] == a2@[j]@,
                forall|j: int| 0 <= j < a1@.len() ==> s0.valid(#[trigger] a1@[j]@),
                forall|j: int| 0 <= j < a2@.len() ==> s0.valid(#[trigger] a2@[j]@),
                forall|j: int| 0 <= j < out@.len() ==> self.valid(#[trigger] out@[j]@),
                ground == ((forall|j: int| 0 <= j < a1@.len() ==> is_ground(#[trigger] a1@[j]@))
                    && (forall|j: int| 0 <= j < a2@.len() ==> is_ground(#[trigger] a2@[j]@))),
                ground ==> {
                    &&& self.vars() == s0.vars()
                    &&& self.ranks() == s0.ranks()
                    &&& unify_seqs(m1.take(k as int), m2.take(k as int)) == Some(tys_model(out@))
                },
            decreases a1.len() - k,
        {
            proof {
                assert(m1.take(k + 1).drop_last() =~= m1.take(k as int));
                assert(m2.take(k + 1).drop_last() =~= m2.take(k as int));
            }
            match self.unify_in(&a1[k], &a2[k], fuel) {
                Ok(t) => {
                    let ghost prev = out@;
                    out.push(t);
                    proof {
                        assert(out@.drop_last() =~= prev);
                        lemma_tys_model(out@);
                    }
                },
                Err(e) => {
                    proof {
                        if ground {
                            lemma_seqs_prefix_fail(m1, m2, k + 1);
                        }
                    }
                    return Err(e);
                },
            }
            k = k + 1;
        }
        proof {
            assert(m1.take(a1.len() as int) =~= m1);
            assert(m2.take(a2.len() as int) =~= m2);
        }
        Ok(out)
    }

    fn lit_fields_in(&mut self, ps: &Vec<(Name, Ty)>, fuel: usize) -> (r: Vec<(Name, Ty)>)
        requires
            old(self).wf(),
            forall|k: int| 0 <= k < ps@.len() ==> old(self).valid(#[trigger] ps@[k].1@),
        ensures
            Self::same_classes(*old(self), *final(self)),
            fields_model(r@) == lit_fields(old(self).classes(), fields_model(ps@), fuel as nat),
        decreases fuel, ps,
    {
        let ghost s0 = *self;
        let ghost pm = fields_model(ps@);
        proof {
            lemma_fields_model(ps@);
        }
        let mut out: Vec<(Name, Ty)> = Vec::new();
        let mut k: usize = 0;
        while k < ps.len()
            invariant
                k <= ps.len(),
                Self::same_classes(s0, *self),
                s0.wf(),
                pm == fields_model(ps@),
                pm.len() == ps.len(),
                forall|j: int| 0 <= j < ps.len() ==> #[trigger] pm[j] == (ps@[j].0, ps@[j].1@),
                forall|j: int| 0 <= j < ps@.len() ==> s0.valid(#[trigger] ps@[j].1@),
                fields_model(out@) == lit_fields(s0.classes(), pm.take(k as int), fuel as nat),
            decreases ps.len() - k,
        {
            let t = self.lit_in(&ps[k].1, fuel);
            let ghost prev = out@;
            out.push((ps[k].0, t));
            proof {
                assert(out@.drop_last() =~= prev);
                assert(pm.take(k + 1).drop_last() =~= pm.take(k as int));
            }
            k = k + 1;
        }
        assert(pm.take(ps.len() as int) =~= pm);
        out
    }

    fn lit_tys_in(&mut self, a: &Vec<Ty>, fuel: usize) -> (r: Vec<Ty>)
        requires
            old(self).wf(),
            forall|k: int| 0 <= k < a@.len() ==> old(self).valid(#[trigger] a@[k]@),
        ensures
            Self::same_classes(*old(self), *final(self)),
            tys_model(r@) == lit_seq(old(self).classes(), tys_model(a@), fuel as nat),
        decreases fuel, a,
    {
        let ghost s0 = *self;
        let ghost am = tys_model(a@);
        proof {
            lemma_tys_model(a@);
        }
        let mut out: Vec<Ty> = Vec::new();
        let mut k: usize = 0;
        while k < a.len()
            invariant
                k <= a.len(),
                Self::same_classes(s0, *self),
                s0.wf(),
                am == tys_model(a@),
                am.len() == a.len(),
                forall|j: int| 0 <= j < a.len() ==> #[trigger] am[j] == a@[j]@,
                forall|j: int| 0 <= j < a@.len() ==> s0.valid(#[trigger] a@[j]@),
                tys_model(out@) == lit_seq(s0.classes(), am.take(k as int), fuel as nat),
            decreases a.len() - k,
        {
            let t = self.lit_in(&a[k], fuel);
            let ghost prev = out@;
            out.push(t);
            proof {
                assert(out@.drop_last() =~= prev);
                assert(am.take(k + 1).drop_last() =~= am.take(k as int));
            }
            k = k + 1;
        }
        assert(am.take(a.len() as int) =~= am);
        out
    }
}

/// Searching for the root of a variable twice gives the same index, and after
/// the first search the variable's slot is `TVar` of that root, or the bound
/// of the class when the variable is the root itself.
pub proof fn lemma_root_twice(c0: TVarCtx, c1: TVarCtx, c2: TVarCtx, i: int, r1: int, r2: int)
    requires
        c0.wf(),
        0 <= i < c0.len(),
        TVarCtx::root_post(c0, c1, i, r1),
        TVarCtx::root_post(c1, c2, i, r2),
    ensures
        r1 == r2,
        c1.vars()[i] == TyM::TVar(r1 as usize) || !is_link(c1.vars()[i]),
        c2.vars() == c1.vars(),
        c2.ranks() == c1.ranks(),
{
    lemma_find(c0.vars(), c0.ranks(), i);
    lemma_find(c1.vars(), c1.ranks(), i);
    let v = c1.vars();
    let rk = c1.ranks();
    assert forall|k: int| 0 <= k < v.len() implies #[trigger] c2.vars()[k] == v[k] by {
        if on_chain(v, rk, i, k) && is_link(v[k]) && k != i {
            assert(v[i] == TyM::TVar(r1 as usize));
            lemma_find(v, rk, r1);
            assert(on_chain(v, rk, r1, k));
            assert(k == r1);
        }
    }
    assert(c2.vars() =~= c1.vars());
}




pub proof fn lemma_tvars_below_mono(t: TyM, n: nat, m: nat)
    requires
        tvars_below(t, n),
        n <= m,
    ensures
        tvars_below(t, m),
    decreases t,
{
    match t {
        TyM::Ptr(_, b) => lemma_tvars_below_mono(*b, n, m),
        TyM::Arr(_, e) => lemma_tvars_below_mono(*e, n, m),
        TyM::Func(ps, _, r) => {
            lemma_named_below_mono(ps, n, m);
            lemma_tvars_below_mono(*r, n, m);
        },
        TyM::Tuple(ps) => lemma_named_below_mono(ps, n, m),
        TyM::StructRef(_, _, a) => lemma_seq_below_mono(a, n, m),
        TyM::UnionRef(_, _, a) => lemma_seq_below_mono(a, n, m),
        TyM::EnumRef(_, _, a) => lemma_seq_below_mono(a, n, m),
        _ => {},
    }
}

proof fn lemma_named_below_mono(ps: Seq<(Name, TyM)>, n: nat, m: nat)
    requires
        named_below(ps, n),
        n <= m,
    ensures
        named_below(ps, m),
    decreases ps,
{
    if ps.len() > 0 {
        lemma_named_below_mono(ps.drop_last(), n, m);
        lemma_tvars_below_mono(ps.last().1, n, m);
    }
}

proof fn lemma_seq_below_mono(a: Seq<TyM>, n: nat, m: nat)
    requires
        seq_below(a, n),
        n <= m,
    ensures
        seq_below(a, m),
    decreases a,
{
    if a.len() > 0 {
        lemma_seq_below_mono(a.drop_last(), n, m);
        lemma_tvars_below_mono(a.last(), n, m);
    }
}

proof fn lemma_find_extend(vars: Seq<TyM>, rank: Seq<nat>, b: TyM, i: int)
    requires
        links_ranked(vars, rank),
        0 <= i < vars.len(),
    ensures
        find_in(vars.push(b), rank.push(0), i) == find_in(vars, rank, i),
    decreases rank[i],
{
    if is_link(vars[i]) {
        lemma_find_extend(vars, rank, b, vars[i]->TVar_0 as int);
    }
}

} // verus!
