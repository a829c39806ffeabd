use vstd::prelude::*;
use crate::ty::{Ty, TyM, DefId, tys_model, tys_eq};
use crate::tctx::{TVarCtx, lit_seq};

verus! {

/// Table of instantiated definitions, keyed by a definition and the literal
/// types of its type arguments. Each key has at most one entry.
pub struct InstTable<T> {
    keys: Vec<(DefId, Vec<Ty>)>,
    insts: Vec<T>,
}

impl<T> InstTable<T> {
    /// The keys of the entries, in order of insertion.
    pub closed spec fn key_seq(&self) -> Seq<(DefId, Seq<TyM>)> {
        Seq::new(self.keys@.len(), |i: int| (self.keys@[i].0, tys_model(self.keys@[i].1@)))
    }

    /// The entries, in order of insertion.
    pub closed spec fn inst_seq(&self) -> Seq<T> {
        self.insts@
    }

    pub open spec fn wf(&self) -> bool {
        &&& self.key_seq().len() == self.inst_seq().len()
        &&& forall|i: int, j: int|
            0 <= i < j < self.key_seq().len() ==> #[trigger] self.key_seq()[i]
                != #[trigger] self.key_seq()[j]
    }

    pub fn new() -> (r: Self)
        ensures
            r.wf(),
            r.key_seq().len() == 0,
    {
        InstTable { keys: Vec::new(), insts: Vec::new() }
    }

    pub fn len(&self) -> (r: usize)
        requires
            self.wf(),
        ensures
            r == self.key_seq().len(),
    {
        self.keys.len()
    }

    /// Index of the entry for definition `id` at type arguments `args`.
    pub fn lookup(&self, id: DefId, args: &Vec<Ty>) -> (r: Option<usize>)
        requires
            self.wf(),
        ensures
            r matches Some(i) ==> i < self.key_seq().len() && self.key_seq()[i as int] == (
                id,
                tys_model(args@),
            ),
            r is None ==> forall|i: int|
                0 <= i < self.key_seq().len() ==> self.key_seq()[i] != (id, tys_model(args@)),
    {
        let mut k: usize = 0;
        while k < self.keys.len()
            invariant
                k <= self.keys.len(),
                forall|i: int| 0 <= i < k ==> self.key_seq()[i] != (id, tys_model(args@)),
            decreases self.keys.len() - k,
        {
            if self.keys[k].0 == id && tys_eq(&self.keys[k].1, args) {
                return Some(k);
            }
            k = k + 1;
        }
        None
    }

    /// Index of the entry for `id` at `args`, adding `shell` as that entry
    /// first when there is none; the flag says whether it was added.
    pub fn get_or_insert(&mut self, id: DefId, args: Vec<Ty>, shell: T) -> (r: (usize, bool))
        requires
            old(self).wf(),
        ensures
            final(self).wf(),
            r.0 < final(self).key_seq().len(),
            final(self).key_seq()[r.0 as int] == (id, tys_model(args@)),
            r.1 == (forall|i: int|
                0 <= i < old(self).key_seq().len() ==> old(self).key_seq()[i] != (
                    id,
                    tys_model(args@),
                )),
            r.1 ==> {
                &&& final(self).key_seq() == old(self).key_seq().push((id, tys_model(args@)))
                &&& final(self).inst_seq() == old(self).inst_seq().push(shell)
                &&& r.0 == old(self).key_seq().len()
            },
            !r.1 ==> *final(self) == *old(self),
    {
        match self.lookup(id, &args) {
            Some(i) => (i, false),
            None => {
                let ghost old_keys = self.key_seq();
                let n = self.keys.len();
                let ghost key = (id, tys_model(args@));
                self.keys.push((id, args));
                self.insts.push(shell);
                proof {
                    assert(self.key_seq() =~= old_keys.push(key));
                }
                (n, true)
            },
        }
    }

    /// The entry at `index`.
    pub fn get(&self, index: usize) -> (r: &T)
        requires
            self.wf(),
            index < self.key_seq().len(),
        ensures
            *r == self.inst_seq()[index as int],
    {
        &self.insts[index]
    }

    /// Replaces the entry at `index`, as when a shell is filled in.
    pub fn set(&mut self, index: usize, inst: T)
        requires
            old(self).wf(),
            index < old(self).key_seq().len(),
        ensures
            final(self).wf(),
            final(self).key_seq() == old(self).key_seq(),
            final(self).inst_seq() == old(self).inst_seq().update(index as int, inst),
    {
        self.insts.set(index, inst);
    }

    /// Index of the entry for definition `id` at the literal types of
    /// `args`, adding `shell` for it when there is none.
    pub fn instantiate(&mut self, tctx: &mut TVarCtx, id: DefId, args: &Vec<Ty>, shell: T) -> (r: (
        usize,
        bool,
    ))
        requires
            old(self).wf(),
            old(tctx).wf(),
            forall|k: int| 0 <= k < args@.len() ==> old(tctx).valid(#[trigger] args@[k]@),
        ensures
            final(self).wf(),
            TVarCtx::same_classes(*old(tctx), *final(tctx)),
            r.0 < final(self).key_seq().len(),
            final(self).key_seq()[r.0 as int] == (
                id,
                lit_seq(old(tctx).classes(), tys_model(args@), old(tctx).len()),
            ),
            r.1 == (forall|i: int|
                0 <= i < old(self).key_seq().len() ==> old(self).key_seq()[i] != (
                    id,
                    lit_seq(old(tctx).classes(), tys_model(args@), old(tctx).len()),
                )),
            !r.1 ==> *final(self) == *old(self),
            r.1 ==> {
                &&& final(self).key_seq() == old(self).key_seq().push(
                    (id, lit_seq(old(tctx).classes(), tys_model(args@), old(tctx).len())),
                )
                &&& final(self).inst_seq() == old(self).inst_seq().push(shell)
                &&& r.0 == old(self).key_seq().len()
            },
    {
        let lit = lit_args(tctx, args);
        self.get_or_insert(id, lit, shell)
    }
}

/// The literal types of a list of type arguments.
pub fn lit_args(tctx: &mut TVarCtx, args: &Vec<Ty>) -> (r: Vec<Ty>)
    requires
        old(tctx).wf(),
        forall|k: int| 0 <= k < args@.len() ==> old(tctx).valid(#[trigger] args@[k]@),
    ensures
        TVarCtx::same_classes(*old(tctx), *final(tctx)),
        tys_model(r@) == lit_seq(old(tctx).classes(), tys_model(args@), old(tctx).len()),
{
    let ghost s0 = *tctx;
    let ghost am = tys_model(args@);
    proof {
        crate::ty::lemma_tys_model(args@);
    }
    let mut out: Vec<Ty> = Vec::new();
    let mut k: usize = 0;
    while k < args.len()
        invariant
            k <= args.len(),
            s0 == *old(tctx),
            TVarCtx::same_classes(s0, *tctx),
            s0.wf(),
            am == tys_model(args@),
            am.len() == args.len(),
            forall|j: int| 0 <= j < args.len() ==> #[trigger] am[j] == args@[j]@,
            forall|j: int| 0 <= j < args@.len() ==> s0.valid(#[trigger] args@[j]@),
            tys_model(out@) == lit_seq(s0.classes(), am.take(k as int), s0.len()),
        decreases args.len() - k,
    {
        let t = tctx.lit_ty(&args[k]);
        let ghost prev = out@;
        out.push(t);
        proof {
            assert(out@.drop_last() =~= prev);
            assert(am.take(k + 1).drop_last() =~= am.take(k as int));
        }
        k = k + 1;
    }
    assert(am.take(args.len() as int) =~= am);
    out
}

/// The table holds at most one entry for each definition and list of
/// literal type arguments.
pub proof fn lemma_inst_unique<T>(t: InstTable<T>, i: int, j: int)
    requires
        t.wf(),
        0 <= i < t.key_seq().len(),
        0 <= j < t.key_seq().len(),
        t.key_seq()[i] == t.key_seq()[j],
    ensures
        i == j,
{
    if i < j {
        assert(t.key_seq()[i] != t.key_seq()[j]);
    } else if j < i {
        assert(t.key_seq()[j] != t.key_seq()[i]);
    }
}

/// Table of string literals, keyed by their bytes. The literal at index `n`
/// is emitted as the global `.str.<n>`.
pub struct StrTable {
    lits: Vec<Vec<u8>>,
}

impl StrTable {
    pub closed spec fn lit_seq(&self) -> Seq<Seq<u8>> {
        Seq::new(self.lits@.len(), |i: int| self.lits@[i]@)
    }

    pub open spec fn wf(&self) -> bool {
        forall|i: int, j: int|
            0 <= i < j < self.lit_seq().len() ==> #[trigger] self.lit_seq()[i]
                != #[trigger] self.lit_seq()[j]
    }

    pub fn new() -> (r: Self)
        ensures
            r.wf(),
            r.lit_seq().len() == 0,
    {
        StrTable { lits: Vec::new() }
    }

    pub fn len(&self) -> (r: usize)
        ensures
            r == self.lit_seq().len(),
    {
        self.lits.len()
    }

    /// Index of the global for `data`: the existing one when the same bytes
    /// were seen before, else a new one at the end; the flag says whether it
    /// is new.
    pub fn intern(&mut self, data: &Vec<u8>) -> (r: (usize, bool))
        requires
            old(self).wf(),
        ensures
            final(self).wf(),
            r.0 < final(self).lit_seq().len(),
            final(self).lit_seq()[r.0 as int] == data@,
            r.1 == (forall|i: int|
                0 <= i < old(self).lit_seq().len() ==> old(self).lit_seq()[i] != data@),
            r.1 ==> final(self).lit_seq() == old(self).lit_seq().push(data@) && r.0 == old(
                self,
            ).lit_seq().len(),
            !r.1 ==> final(self).lit_seq() == old(self).lit_seq(),
    {
        let mut k: usize = 0;
        while k < self.lits.len()
            invariant
                k <= self.lits.len(),
                self.wf(),
                *self == *old(self),
                forall|i: int| 0 <= i < k ==> self.lit_seq()[i] != data@,
            decreases self.lits.len() - k,
        {
            if bytes_eq(&self.lits[k], data) {
                assert(self.lit_seq()[k as int] == data@);
                return (k, false);
            }
            k = k + 1;
        }
        let ghost old_lits = self.lit_seq();
        let n = self.lits.len();
        let mut copy: Vec<u8> = Vec::new();
        let mut j: usize = 0;
        while j < data.len()
            invariant
                j <= data.len(),
                copy@ == data@.take(j as int),
            decreases data.len() - j,
        {
            copy.push(data[j]);
            j = j + 1;
        }
        assert(data@.take(data.len() as int) =~= data@);
        self.lits.push(copy);
        proof {
            assert(self.lit_seq() =~= old_lits.push(data@));
        }
        (n, true)
    }
}

/// Equality of two byte strings.
pub fn bytes_eq(a: &Vec<u8>, b: &Vec<u8>) -> (r: bool)
    ensures
        r == (a@ == b@),
{
    if a.len() != b.len() {
        return false;
    }
    let mut k: usize = 0;
    while k < a.len()
        invariant
            k <= a.len() == b.len(),
            forall|j: int| 0 <= j < k ==> a@[j] == b@[j],
        decreases a.len() - k,
    {
        if a[k] != b[k] {
            return false;
        }
        k = k + 1;
    }
    assert(a@ =~= b@);
    true
}

/// Contents of the global for a string literal: its bytes and a NUL.
pub fn nul_terminated(data: &Vec<u8>) -> (r: Vec<u8>)
    ensures
        r@ == data@.push(0u8),
{
    let mut out: Vec<u8> = Vec::new();
    let mut j: usize = 0;
    while j < data.len()
        invariant
            j <= data.len(),
            out@ == data@.take(j as int),
        decreases data.len() - j,
    {
        out.push(data[j]);
        j = j + 1;
    }
    assert(data@.take(data.len() as int) =~= data@);
    out.push(0u8);
    out
}

} // verus!
