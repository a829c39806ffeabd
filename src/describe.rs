use vstd::prelude::*;
use vstd::string::StringExecFns;
use crate::ty::{Ty, TyM, Name, fields_model, lemma_fields_model};
use crate::tctx::CannotUnifyError;

verus! {

broadcast use {
    vstd::std_specs::vec::group_vec_axioms,
    vstd::seq::group_seq_axioms,
};

pub open spec fn digit_text(d: nat) -> Seq<char> {
    if d == 0 {
        "0"@
    } else if d == 1 {
        "1"@
    } else if d == 2 {
        "2"@
    } else if d == 3 {
        "3"@
    } else if d == 4 {
        "4"@
    } else if d == 5 {
        "5"@
    } else if d == 6 {
        "6"@
    } else if d == 7 {
        "7"@
    } else if d == 8 {
        "8"@
    } else {
        "9"@
    }
}

/// Decimal digits of `n`.
pub open spec fn decimal(n: nat) -> Seq<char>
    decreases n,
{
    if n < 10 {
        digit_text(n)
    } else {
        decimal(n / 10) + digit_text(n % 10)
    }
}

/// Text of the identifier with handle `n`: its entry in `names`, or its
/// number when there is none.
pub open spec fn name_text(names: Seq<Seq<char>>, n: Name) -> Seq<char> {
    if n < names.len() {
        names[n as int]
    } else {
        decimal(n as nat)
    }
}

/// Human-readable description of a type: scalars by name, `*` and an
/// optional `mut ` before a pointer's base, `[n]` before an array's element,
/// tuples as `(name: type, ...)`, functions as `Function(name: type, ...) ->
/// type`, nominal types by name, variables as `'n` and bounds as `Any`,
/// `Num`, `Int` and `Flt`.
pub open spec fn describe(t: TyM, names: Seq<Seq<char>>) -> Seq<char>
    decreases t,
{
    match t {
        TyM::Bool => "Bool"@,
        TyM::Uint8 => "Uint8"@,
        TyM::Int8 => "Int8"@,
        TyM::Uint16 => "Uint16"@,
        TyM::Int16 => "Int16"@,
        TyM::Uint32 => "Uint32"@,
        TyM::Int32 => "Int32"@,
        TyM::Uint64 => "Uint64"@,
        TyM::Int64 => "Int64"@,
        TyM::Uintn => "Uintn"@,
        TyM::Intn => "Intn"@,
        TyM::Float => "Float"@,
        TyM::Double => "Double"@,
        TyM::StructRef(n, _, _) => name_text(names, n),
        TyM::UnionRef(n, _, _) => name_text(names, n),
        TyM::EnumRef(n, _, _) => name_text(names, n),
        TyM::Ptr(m, b) => "*"@ + (if m {
            "mut "@
        } else {
            ""@
        }) + describe(*b, names),
        TyM::Func(ps, _, r) => "Function"@ + "("@ + describe_fields(ps, names) + ")"@ + " -> "@
            + describe(*r, names),
        TyM::Arr(n, e) => "["@ + decimal(n as nat) + "]"@ + describe(*e, names),
        TyM::Tuple(ps) => "("@ + describe_fields(ps, names) + ")"@,
        TyM::TVar(i) => "'"@ + decimal(i as nat),
        TyM::BoundAny => "Any"@,
        TyM::BoundNum => "Num"@,
        TyM::BoundInt => "Int"@,
        TyM::BoundFlt => "Flt"@,
    }
}

/// `name: type` for each field, separated by `, `.
pub open spec fn describe_fields(ps: Seq<(Name, TyM)>, names: Seq<Seq<char>>) -> Seq<char>
    decreases ps,
{
    if ps.len() == 0 {
        Seq::empty()
    } else if ps.len() == 1 {
        name_text(names, ps[0].0) + ": "@ + describe(ps[0].1, names)
    } else {
        describe_fields(ps.drop_last(), names) + ", "@ + name_text(names, ps.last().0) + ": "@
            + describe(ps.last().1, names)
    }
}

pub open spec fn names_model(names: Seq<String>) -> Seq<Seq<char>> {
    Seq::new(names.len(), |i: int| names[i]@)
}

fn write_digit(out: &mut String, d: usize)
    requires
        d < 10,
    ensures
        final(out)@ == old(out)@ + digit_text(d as nat),
{
    if d == 0 {
        out.append("0");
    } else if d == 1 {
        out.append("1");
    } else if d == 2 {
        out.append("2");
    } else if d == 3 {
        out.append("3");
    } else if d == 4 {
        out.append("4");
    } else if d == 5 {
        out.append("5");
    } else if d == 6 {
        out.append("6");
    } else if d == 7 {
        out.append("7");
    } else if d == 8 {
        out.append("8");
    } else {
        out.append("9");
    }
}

/// Appends the decimal digits of `n`.
pub fn write_decimal(out: &mut String, n: usize)
    ensures
        final(out)@ == old(out)@ + decimal(n as nat),
    decreases n,
{
    if n < 10 {
        write_digit(out, n);
    } else {
        let ghost start = out@;
        write_decimal(out, n / 10);
        write_digit(out, n % 10);
        assert(out@ =~= start + decimal(n as nat));
    }
}

fn write_name(out: &mut String, n: Name, names: &Vec<String>)
    ensures
        final(out)@ == old(out)@ + name_text(names_model(names@), n),
{
    if n < names.len() {
        out.append(names[n].as_str());
    } else {
        write_decimal(out, n);
    }
}

/// Appends the description of `t`.
pub fn write_ty(out: &mut String, t: &Ty, names: &Vec<String>)
    ensures
        final(out)@ == old(out)@ + describe(t@, names_model(names@)),
    decreases t,
{
    let ghost start = out@;
    let ghost nm = names_model(names@);
    match t {
        Ty::Bool => out.append("Bool"),
        Ty::Uint8 => out.append("Uint8"),
        Ty::Int8 => out.append("Int8"),
        Ty::Uint16 => out.append("Uint16"),
        Ty::Int16 => out.append("Int16"),
        Ty::Uint32 => out.append("Uint32"),
        Ty::Int32 => out.append("Int32"),
        Ty::Uint64 => out.append("Uint64"),
        Ty::Int64 => out.append("Int64"),
        Ty::Uintn => out.append("Uintn"),
        Ty::Intn => out.append("Intn"),
        Ty::Float => out.append("Float"),
        Ty::Double => out.append("Double"),
        Ty::StructRef(n, _, _) => write_name(out, *n, names),
        Ty::UnionRef(n, _, _) => write_name(out, *n, names),
        Ty::EnumRef(n, _, _) => write_name(out, *n, names),
        Ty::Ptr(m, b) => {
            out.append("*");
            if *m {
                out.append("mut ");
            } else {
                out.append("");
            }
            write_ty(out, b, names);
            assert(out@ =~= start + describe(t@, nm));
        },
        Ty::Func(ps, _, r) => {
            out.append("Function");
            out.append("(");
            write_fields(out, ps, names);
            out.append(")");
            out.append(" -> ");
            write_ty(out, r, names);
            assert(out@ =~= start + describe(t@, nm));
        },
        Ty::Arr(n, e) => {
            out.append("[");
            write_decimal(out, *n);
            out.append("]");
            write_ty(out, e, names);
            assert(out@ =~= start + describe(t@, nm));
        },
        Ty::Tuple(ps) => {
            out.append("(");
            write_fields(out, ps, names);
            out.append(")");
            assert(out@ =~= start + describe(t@, nm));
        },
        Ty::TVar(i) => {
            out.append("'");
            write_decimal(out, *i);
            assert(out@ =~= start + describe(t@, nm));
        },
        Ty::BoundAny => out.append("Any"),
        Ty::BoundNum => out.append("Num"),
        Ty::BoundInt => out.append("Int"),
        Ty::BoundFlt => out.append("Flt"),
    }
}

fn write_fields(out: &mut String, ps: &Vec<(Name, Ty)>, names: &Vec<String>)
    ensures
        final(out)@ == old(out)@ + describe_fields(fields_model(ps@), names_model(names@)),
    decreases ps,
{
    let ghost start = out@;
    let ghost nm = names_model(names@);
    let ghost pm = fields_model(ps@);
    proof {
        lemma_fields_model(ps@);
    }
    let mut k: usize = 0;
    while k < ps.len()
        invariant
            k <= ps.len(),
            pm == fields_model(ps@),
            pm.len() == ps.len(),
            nm == names_model(names@),
            forall|j: int| 0 <= j < ps.len() ==> #[trigger] pm[j] == (ps@[j].0, ps@[j].1@),
            out@ == start + describe_fields(pm.take(k as int), nm),
        decreases ps.len() - k,
    {
        let ghost before = out@;
        if k > 0 {
            out.append(", ");
        }
        write_name(out, ps[k].0, names);
        out.append(": ");
        write_ty(out, &ps[k].1, names);
        proof {
            let pre = pm.take(k as int);
            let cur = pm.take(k + 1);
            assert(cur.drop_last() =~= pre);
            assert(cur.last() == pm[k as int]);
            if k == 0 {
                assert(pre =~= Seq::<(Name, TyM)>::empty());
                assert(cur[0] == pm[0]);
                assert(out@ =~= start + describe_fields(cur, nm));
            } else {
                assert(out@ =~= start + describe_fields(cur, nm));
            }
        }
        k = k + 1;
    }
    assert(pm.take(ps.len() as int) =~= pm);
}

/// Description of a type.
pub fn describe_ty(t: &Ty, names: &Vec<String>) -> (r: String)
    ensures
        r@ == describe(t@, names_model(names@)),
{
    let mut out = String::new();
    write_ty(&mut out, t, names);
    assert(out@ =~= describe(t@, names_model(names@)));
    out
}

impl CannotUnifyError {
    /// The diagnostic for this failure.
    pub fn message(&self, names: &Vec<String>) -> (r: String)
        ensures
            r@ == "Cannot unify types "@ + describe(self.0@, names_model(names@)) + " and "@
                + describe(self.1@, names_model(names@)),
    {
        let mut out = String::new();
        out.append("Cannot unify types ");
        write_ty(&mut out, &self.0, names);
        out.append(" and ");
        write_ty(&mut out, &self.1, names);
        assert(out@ =~= "Cannot unify types "@ + describe(self.0@, names_model(names@)) + " and "@
            + describe(self.1@, names_model(names@)));
        out
    }
}

} // verus!
