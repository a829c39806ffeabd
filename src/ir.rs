use vstd::prelude::*;
use crate::ty::Ty;
use crate::lower::{Semantics, semantics_of, lit_semantics, BinInst, CastOp};
use crate::lowty::{LowTy, lower_of, lower_lit_ty};

verus! {

/// An operand of an instruction.
#[derive(Clone, Copy, Debug, PartialEq, Eq, Structural)]
pub enum Value {
    /// The result of the instruction at this position of the function.
    Instr(usize),
    /// The stack slot allocated at this position of the alloca block.
    Slot(usize),
    /// An incoming parameter, the hidden out-pointer first when there is one.
    Param(usize),
    /// The global at this index.
    Global(usize),
    Int(u64),
    Bool(bool),
    /// An undefined value.
    Undef,
    /// No value: the result of an operation on the unit type.
    Nothing,
}

/// Instructions of lowered code.
pub enum Instr {
    /// Read a scalar of the type from the address.
    Load(LowTy, Value),
    /// Write the value to the address: `Store(value, address)`.
    Store(Value, Value),
    /// Copy a value of the type between two addresses: `MemCpy(dst, src, ty)`.
    MemCpy(Value, Value, LowTy),
    /// Address of field `index` of the aggregate of the type at the address.
    Gep(LowTy, Value, u32),
    /// Address of element `index` of the array of the type at the address.
    Index(LowTy, Value, Value),
    /// Call of the function with the arguments.
    Call(Value, Vec<Value>),
    Bin(BinInst, Value, Value),
    Cast(CastOp, LowTy, Value),
    /// Merge of values by the block they come from.
    Phi(LowTy, Vec<(Value, usize)>),
}

/// How a block ends.
#[derive(Debug, PartialEq)]
pub enum Term {
    Br(usize),
    CondBr(Value, usize, usize),
    /// Jump by an `i32` value: to the block of the matching case, else to
    /// the default block.
    Switch(Value, usize, Vec<(u32, usize)>),
    Ret(Value),
    RetVoid,
}

/// Code of one function under construction: stack slots, instructions
/// tagged with their block, the end of each block, and the block being
/// filled. `out_pointer` says whether parameter 0 is the hidden pointer to
/// the result's storage.
pub struct FuncCode {
    pub slots: Vec<LowTy>,
    pub instrs: Vec<(usize, Instr)>,
    pub terms: Vec<Option<Term>>,
    pub cur: usize,
    pub out_pointer: bool,
}

impl FuncCode {
    pub open spec fn wf(&self) -> bool {
        &&& self.cur < self.terms.len()
        &&& self.instrs.len() < usize::MAX
        &&& self.slots.len() < usize::MAX
        &&& self.terms.len() < usize::MAX
    }

    /// Code with one open block, which is being filled.
    pub fn new(out_pointer: bool) -> (r: Self)
        ensures
            r.wf(),
            r.slots@.len() == 0,
            r.instrs@.len() == 0,
            r.terms@ == seq![None::<Term>],
            r.cur == 0,
            r.out_pointer == out_pointer,
    {
        let mut terms: Vec<Option<Term>> = Vec::new();
        terms.push(None);
        FuncCode { slots: Vec::new(), instrs: Vec::new(), terms, cur: 0, out_pointer }
    }

    /// Appends an instruction to the current block; returns its result.
    pub fn emit(&mut self, i: Instr) -> (r: Value)
        requires
            old(self).wf(),
            old(self).instrs.len() + 1 < usize::MAX,
        ensures
            final(self).wf(),
            final(self).instrs@ == old(self).instrs@.push((old(self).cur, i)),
            final(self).slots@ == old(self).slots@,
            final(self).terms@ == old(self).terms@,
            final(self).cur == old(self).cur,
            final(self).out_pointer == old(self).out_pointer,
            r == Value::Instr(old(self).instrs.len()),
    {
        let n = self.instrs.len();
        self.instrs.push((self.cur, i));
        Value::Instr(n)
    }

    /// Appends an open block; returns its index.
    pub fn new_block(&mut self) -> (r: usize)
        requires
            old(self).wf(),
            old(self).terms.len() + 1 < usize::MAX,
        ensures
            final(self).wf(),
            final(self).terms@ == old(self).terms@.push(None),
            final(self).instrs@ == old(self).instrs@,
            final(self).slots@ == old(self).slots@,
            final(self).cur == old(self).cur,
            final(self).out_pointer == old(self).out_pointer,
            r == old(self).terms.len(),
    {
        let n = self.terms.len();
        self.terms.push(None);
        n
    }

    /// Continues filling block `b`.
    pub fn enter_block(&mut self, b: usize)
        requires
            old(self).wf(),
            b < old(self).terms.len(),
        ensures
            final(self).wf(),
            final(self).cur == b,
            final(self).instrs@ == old(self).instrs@,
            final(self).slots@ == old(self).slots@,
            final(self).terms@ == old(self).terms@,
            final(self).out_pointer == old(self).out_pointer,
    {
        self.cur = b;
    }

    /// Ends the current block.
    pub fn terminate(&mut self, t: Term)
        requires
            old(self).wf(),
        ensures
            final(self).wf(),
            final(self).terms@ == old(self).terms@.update(old(self).cur as int, Some(t)),
            final(self).instrs@ == old(self).instrs@,
            final(self).slots@ == old(self).slots@,
            final(self).cur == old(self).cur,
            final(self).out_pointer == old(self).out_pointer,
    {
        self.terms.set(self.cur, Some(t));
    }

    /// A stack slot for a value of the literal type `ty`; none for a type
    /// without values.
    pub fn allocate_local(&mut self, ty: &Ty) -> (r: Value)
        requires
            old(self).wf(),
            old(self).slots.len() + 1 < usize::MAX,
        ensures
            final(self).wf(),
            final(self).instrs@ == old(self).instrs@,
            final(self).terms@ == old(self).terms@,
            final(self).cur == old(self).cur,
            final(self).out_pointer == old(self).out_pointer,
            semantics_of(ty@) == Semantics::Void ==> r == Value::Nothing && final(self).slots@
                == old(self).slots@,
            semantics_of(ty@) != Semantics::Void ==> {
                &&& r == Value::Slot(old(self).slots.len())
                &&& final(self).slots@.len() == old(self).slots@.len() + 1
                &&& final(self).slots@.drop_last() == old(self).slots@
                &&& final(self).slots@.last()@ == lower_of(ty@)
            },
    {
        match lit_semantics(ty) {
            Semantics::Void => Value::Nothing,
            _ => {
                let n = self.slots.len();
                let ghost before = self.slots@;
                self.slots.push(lower_lit_ty(ty));
                assert(self.slots@.drop_last() =~= before);
                Value::Slot(n)
            },
        }
    }

    /// Reads a value of the literal type `ty` from `ptr`: an aggregate is
    /// its address itself, with nothing emitted; a scalar is loaded.
    pub fn build_load(&mut self, ty: &Ty, ptr: Value) -> (r: Value)
        requires
            old(self).wf(),
            old(self).instrs.len() + 1 < usize::MAX,
        ensures
            final(self).wf(),
            final(self).terms@ == old(self).terms@,
            final(self).slots@ == old(self).slots@,
            final(self).cur == old(self).cur,
            final(self).out_pointer == old(self).out_pointer,
            semantics_of(ty@) == Semantics::Void ==> r == Value::Nothing && final(self).instrs@
                == old(self).instrs@,
            semantics_of(ty@) == Semantics::Addr ==> r == ptr && final(self).instrs@
                == old(self).instrs@,
            semantics_of(ty@) == Semantics::Value ==> {
                &&& r == Value::Instr(old(self).instrs.len())
                &&& final(self).instrs@.drop_last() == old(self).instrs@
                &&& final(self).instrs@.last().0 == old(self).cur
                &&& final(self).instrs@.last().1 matches Instr::Load(t, p) && t@ == lower_of(ty@)
                    && p == ptr
            },
    {
        match lit_semantics(ty) {
            Semantics::Void => Value::Nothing,
            Semantics::Addr => ptr,
            Semantics::Value => {
                let ghost before = self.instrs@;
                let r = self.emit(Instr::Load(lower_lit_ty(ty), ptr));
                assert(self.instrs@.drop_last() =~= before);
                r
            },
        }
    }

    /// Writes `src`, a value of the literal type `ty`, to `dst`: a copy of
    /// the whole storage for an aggregate, a scalar store otherwise, nothing
    /// for a type without values.
    pub fn build_store(&mut self, ty: &Ty, dst: Value, src: Value)
        requires
            old(self).wf(),
            old(self).instrs.len() + 1 < usize::MAX,
        ensures
            final(self).wf(),
            final(self).terms@ == old(self).terms@,
            final(self).slots@ == old(self).slots@,
            final(self).cur == old(self).cur,
            final(self).out_pointer == old(self).out_pointer,
            semantics_of(ty@) == Semantics::Void ==> final(self).instrs@ == old(self).instrs@,
            semantics_of(ty@) == Semantics::Addr ==> {
                &&& final(self).instrs@.drop_last() == old(self).instrs@
                &&& final(self).instrs@.last().0 == old(self).cur
                &&& final(self).instrs@.last().1 matches Instr::MemCpy(d, s, t) && d == dst && s
                    == src && t@ == lower_of(ty@)
            },
            semantics_of(ty@) == Semantics::Value ==> {
                &&& final(self).instrs@.drop_last() == old(self).instrs@
                &&& final(self).instrs@.last().0 == old(self).cur
                &&& final(self).instrs@.last().1 == Instr::Store(src, dst)
            },
    {
        let ghost before = self.instrs@;
        match lit_semantics(ty) {
            Semantics::Void => {},
            Semantics::Addr => {
                self.emit(Instr::MemCpy(dst, src, lower_lit_ty(ty)));
                assert(self.instrs@.drop_last() =~= before);
            },
            Semantics::Value => {
                self.emit(Instr::Store(src, dst));
                assert(self.instrs@.drop_last() =~= before);
            },
        }
    }

    /// Ends the current block by returning `val`, a value of the literal
    /// type `ty`: an aggregate is first copied through the hidden
    /// out-pointer, parameter 0, and the return carries no value.
    pub fn exit_block_ret(&mut self, ty: &Ty, val: Value)
        requires
            old(self).wf(),
            old(self).instrs.len() + 1 < usize::MAX,
        ensures
            final(self).wf(),
            final(self).slots@ == old(self).slots@,
            final(self).cur == old(self).cur,
            final(self).out_pointer == old(self).out_pointer,
            semantics_of(ty@) == Semantics::Void ==> final(self).instrs@ == old(self).instrs@
                && final(self).terms@ == old(self).terms@.update(
                old(self).cur as int,
                Some(Term::RetVoid),
            ),
            semantics_of(ty@) == Semantics::Value ==> final(self).instrs@ == old(self).instrs@
                && final(self).terms@ == old(self).terms@.update(
                old(self).cur as int,
                Some(Term::Ret(val)),
            ),
            semantics_of(ty@) == Semantics::Addr ==> {
                &&& final(self).instrs@.drop_last() == old(self).instrs@
                &&& final(self).instrs@.last().1 matches Instr::MemCpy(d, s, t) && d
                    == Value::Param(0) && s == val && t@ == lower_of(ty@)
                &&& final(self).terms@ == old(self).terms@.update(
                    old(self).cur as int,
                    Some(Term::RetVoid),
                )
            },
    {
        match lit_semantics(ty) {
            Semantics::Void => self.terminate(Term::RetVoid),
            Semantics::Value => self.terminate(Term::Ret(val)),
            Semantics::Addr => {
                self.build_store(ty, Value::Param(0), val);
                self.terminate(Term::RetVoid);
            },
        }
    }

    /// Calls `f`, a function of the literal type `func_ty`, with the lowered
    /// arguments. For an aggregate result a slot is allocated, its address
    /// passed first, and the slot is the call's value; otherwise the value is
    /// the call's own result, or nothing for a result without values.
    pub fn build_call(&mut self, ret_ty: &Ty, f: Value, args: Vec<Value>) -> (r: Value)
        requires
            old(self).wf(),
            old(self).instrs.len() + 1 < usize::MAX,
            old(self).slots.len() + 1 < usize::MAX,
        ensures
            final(self).wf(),
            final(self).terms@ == old(self).terms@,
            final(self).cur == old(self).cur,
            final(self).out_pointer == old(self).out_pointer,
            final(self).instrs@.drop_last() == old(self).instrs@,
            final(self).instrs@.last().0 == old(self).cur,
            semantics_of(ret_ty@) == Semantics::Addr ==> {
                &&& r == Value::Slot(old(self).slots.len())
                &&& final(self).slots@.drop_last() == old(self).slots@
                &&& final(self).slots@.last()@ == lower_of(ret_ty@)
                &&& final(self).instrs@.last().1 matches Instr::Call(g, a) && g == f && a@
                    == seq![r] + args@
            },
            semantics_of(ret_ty@) != Semantics::Addr ==> {
                &&& final(self).slots@ == old(self).slots@
                &&& final(self).instrs@.last().1 matches Instr::Call(g, a) && g == f && a@
                    == args@
                &&& r == if semantics_of(ret_ty@) == Semantics::Value {
                    Value::Instr(old(self).instrs.len())
                } else {
                    Value::Nothing
                }
            },
    {
        let ghost before = self.instrs@;
        match lit_semantics(ret_ty) {
            Semantics::Addr => {
                let slot = self.allocate_local(ret_ty);
                let mut call_args: Vec<Value> = Vec::new();
                call_args.push(slot);
                let ghost ra = args@;
                let mut args = args;
                call_args.append(&mut args);
                assert(call_args@ =~= seq![slot] + ra);
                self.emit(Instr::Call(f, call_args));
                assert(self.instrs@.drop_last() =~= before);
                slot
            },
            Semantics::Value => {
                let r = self.emit(Instr::Call(f, args));
                assert(self.instrs@.drop_last() =~= before);
                r
            },
            Semantics::Void => {
                self.emit(Instr::Call(f, args));
                assert(self.instrs@.drop_last() =~= before);
                Value::Nothing
            },
        }
    }

    /// Address of field `idx` of the aggregate of literal type `ty` at `ptr`.
    pub fn build_gep(&mut self, ty: &Ty, ptr: Value, idx: u32) -> (r: Value)
        requires
            old(self).wf(),
            old(self).instrs.len() + 1 < usize::MAX,
        ensures
            final(self).wf(),
            final(self).terms@ == old(self).terms@,
            final(self).slots@ == old(self).slots@,
            final(self).cur == old(self).cur,
            final(self).instrs@.drop_last() == old(self).instrs@,
            final(self).instrs@.last() matches (b, Instr::Gep(t, p, i)) && b == old(self).cur
                && t@ == lower_of(ty@) && p == ptr && i == idx,
            r == Value::Instr(old(self).instrs.len()),
    {
        let ghost before = self.instrs@;
        let r = self.emit(Instr::Gep(lower_lit_ty(ty), ptr, idx));
        assert(self.instrs@.drop_last() =~= before);
        r
    }

    /// Starts an `if` on `cond`: ends the current block with a branch to a
    /// new `then` block or a new `else` block, creates the `end` block, and
    /// continues in `then`. Returns `(then, else, end)`.
    pub fn begin_if(&mut self, cond: Value) -> (r: (usize, usize, usize))
        requires
            old(self).wf(),
            old(self).terms.len() + 4 < usize::MAX,
        ensures
            final(self).wf(),
            r.0 == old(self).terms.len() && r.1 == old(self).terms.len() + 1 && r.2 == old(self).terms.len() + 2,
            final(self).terms@ == old(self).terms@.update(
                old(self).cur as int,
                Some(Term::CondBr(cond, r.0, r.1)),
            ).push(None).push(None).push(None),
            final(self).cur == r.0,
            final(self).instrs@ == old(self).instrs@,
            final(self).slots@ == old(self).slots@,
            final(self).out_pointer == old(self).out_pointer,
    {
        let t = self.new_block();
        let e = self.new_block();
        let end = self.new_block();
        self.terminate(Term::CondBr(cond, t, e));
        proof {
            let start = old(self).terms@;
            assert(self.terms@ =~= start.update(old(self).cur as int, Some(Term::CondBr(cond, t, e))).push(None).push(None).push(None));
        }
        self.enter_block(t);
        (t, e, end)
    }

    /// Ends the arm of an `if` or a `match` that is being filled with a jump
    /// to `end`, and returns the block the arm finished in: the block its
    /// value comes from, wherever nested control flow has led.
    pub fn end_arm(&mut self, end: usize) -> (r: usize)
        requires
            old(self).wf(),
        ensures
            final(self).wf(),
            r == old(self).cur,
            final(self).terms@ == old(self).terms@.update(old(self).cur as int, Some(Term::Br(end))),
            final(self).cur == old(self).cur,
            final(self).instrs@ == old(self).instrs@,
            final(self).slots@ == old(self).slots@,
            final(self).out_pointer == old(self).out_pointer,
    {
        self.terminate(Term::Br(end));
        self.cur
    }

    /// Starts a `match` on the enum of literal type `enum_ty` stored at
    /// `discr`, with `n` variants: loads the `i32` tag from field 0, creates
    /// one block per variant, a default block and the end block, and ends
    /// the current block with a switch on the tag, case `k` going to the
    /// block of variant `k`. The default block jumps to the end block.
    /// Returns the first variant block, the default block and the end block.
    pub fn begin_match(&mut self, enum_ty: &Ty, discr: Value, n: usize) -> (r: (usize, usize, usize))
        requires
            old(self).wf(),
            old(self).terms.len() + n + 3 < usize::MAX,
            old(self).instrs.len() + 3 < usize::MAX,
            n < u32::MAX,
        ensures
            final(self).wf(),
            r.0 == old(self).terms.len(),
            r.1 == r.0 + n,
            r.2 == r.1 + 1,
            final(self).terms@.len() == old(self).terms@.len() + n + 2,
            final(self).instrs@.len() == old(self).instrs@.len() + 2,
            final(self).instrs@.subrange(0, old(self).instrs@.len() as int) == old(self).instrs@,
            final(self).instrs@[old(self).instrs@.len() as int] matches (b, Instr::Gep(t, p, 0))
                && b == old(self).cur && t@ == lower_of(enum_ty@) && p == discr,
            final(self).instrs@[old(self).instrs@.len() + 1int] matches (b, Instr::Load(LowTy::I32, p))
                && b == old(self).cur && p == Value::Instr(old(self).instrs.len()),
            final(self).terms@[old(self).cur as int] matches Some(
                Term::Switch(v, d, cases),
            ) && v == Value::Instr((old(self).instrs.len() + 1) as usize) && d == r.1 && cases@.len() == n
                && forall|k: int| 0 <= k < n ==> #[trigger] cases@[k] == (k as u32, (r.0 + k) as usize),
            final(self).terms@[r.1 as int] == Some(Term::Br(r.2)),
            final(self).cur == old(self).cur,
            final(self).slots@ == old(self).slots@,
            final(self).out_pointer == old(self).out_pointer,
    {
        let ghost i0 = self.instrs@;
        let start = self.cur;
        let tag_ptr = self.emit(Instr::Gep(lower_lit_ty(enum_ty), discr, 0));
        let tag = self.emit(Instr::Load(LowTy::I32, tag_ptr));
        proof {
            assert(self.instrs@.subrange(0, i0.len() as int) =~= i0);
        }
        let first = self.terms.len();
        let mut cases: Vec<(u32, usize)> = Vec::new();
        let mut k: usize = 0;
        while k < n
            invariant
                k <= n,
                n < u32::MAX,
                first == old(self).terms.len(),
                self.wf(),
                self.cur == old(self).cur,
                self.terms@.len() == first + k,
                first + n + 3 < usize::MAX,
                self.terms@[old(self).cur as int] == old(self).terms@[old(self).cur as int],
                self.terms@[self.cur as int] == old(self).terms@[old(self).cur as int],
                self.instrs@.len() == i0.len() + 2,
                self.instrs@.subrange(0, i0.len() as int) == i0,
                self.instrs@[i0.len() as int] matches (b, Instr::Gep(t, p, 0)) && b == old(self).cur
                    && t@ == lower_of(enum_ty@) && p == discr,
                self.instrs@[i0.len() + 1int] matches (b, Instr::Load(LowTy::I32, p)) && b
                    == old(self).cur && p == Value::Instr(i0.len() as usize),
                tag == Value::Instr((i0.len() + 1) as usize),
                self.slots@ == old(self).slots@,
                self.out_pointer == old(self).out_pointer,
                cases@.len() == k,
                forall|j: int| 0 <= j < k ==> #[trigger] cases@[j] == (j as u32, (first + j) as usize),
            decreases n - k,
        {
            let b = self.new_block();
            cases.push((k as u32, b));
            k = k + 1;
        }
        let default = self.new_block();
        let end = self.new_block();
        self.terminate(Term::Switch(tag, default, cases));
        self.enter_block(default);
        self.terminate(Term::Br(end));
        self.enter_block(start);
        (first, default, end)
    }

    /// Address of the payload of the enum of literal type `enum_ty` at
    /// `discr`: field 1, after the tag.
    pub fn variant_payload(&mut self, enum_ty: &Ty, discr: Value) -> (r: Value)
        requires
            old(self).wf(),
            old(self).instrs.len() + 1 < usize::MAX,
        ensures
            final(self).wf(),
            final(self).terms@ == old(self).terms@,
            final(self).slots@ == old(self).slots@,
            final(self).cur == old(self).cur,
            final(self).instrs@.drop_last() == old(self).instrs@,
            final(self).instrs@.last() matches (b, Instr::Gep(t, p, 1)) && b == old(self).cur
                && t@ == lower_of(enum_ty@) && p == discr,
            r == Value::Instr(old(self).instrs.len()),
    {
        self.build_gep(enum_ty, discr, 1)
    }

    /// Merges the values of the arms of a `match` at the current block, with
    /// an undefined value coming from the default block.
    pub fn match_phi(&mut self, ty: &Ty, arms: Vec<(Value, usize)>, default: usize) -> (r: Value)
        requires
            old(self).wf(),
            old(self).instrs.len() + 1 < usize::MAX,
        ensures
            final(self).wf(),
            final(self).terms@ == old(self).terms@,
            final(self).slots@ == old(self).slots@,
            final(self).cur == old(self).cur,
            final(self).instrs@.drop_last() == old(self).instrs@,
            final(self).instrs@.last() matches (b, Instr::Phi(t, inc)) && b == old(self).cur
                && t@ == lower_of(ty@) && inc@ == arms@.push((Value::Undef, default)),
            r == Value::Instr(old(self).instrs.len()),
    {
        let mut inc = arms;
        inc.push((Value::Undef, default));
        self.build_phi(ty, inc)
    }

    /// Merges `incoming`, values of the literal type `ty` each with the
    /// block it comes from, at the start of the current block.
    pub fn build_phi(&mut self, ty: &Ty, incoming: Vec<(Value, usize)>) -> (r: Value)
        requires
            old(self).wf(),
            old(self).instrs.len() + 1 < usize::MAX,
        ensures
            final(self).wf(),
            final(self).terms@ == old(self).terms@,
            final(self).slots@ == old(self).slots@,
            final(self).cur == old(self).cur,
            final(self).instrs@.drop_last() == old(self).instrs@,
            final(self).instrs@.last() matches (b, Instr::Phi(t, inc)) && b == old(self).cur
                && t@ == lower_of(ty@) && inc@ == incoming@,
            r == Value::Instr(old(self).instrs.len()),
    {
        let ghost before = self.instrs@;
        let r = self.emit(Instr::Phi(lower_lit_ty(ty), incoming));
        assert(self.instrs@.drop_last() =~= before);
        r
    }
}

/// Targets of `continue` and `break` in the loops being lowered, innermost
/// last.
pub struct LoopTargets {
    pub continue_to: Vec<usize>,
    pub break_to: Vec<usize>,
}

impl LoopTargets {
    pub fn new() -> (r: Self)
        ensures
            r.continue_to@.len() == 0,
            r.break_to@.len() == 0,
    {
        LoopTargets { continue_to: Vec::new(), break_to: Vec::new() }
    }

    /// Starts a `while`: jumps from the current block to a new test block,
    /// creates the body and end blocks, continues in the test block, and
    /// makes `continue` go to the test and `break` to the end. Returns
    /// `(test, body, end)`.
    pub fn begin_while(&mut self, code: &mut FuncCode) -> (r: (usize, usize, usize))
        requires
            old(code).wf(),
            old(code).terms.len() + 4 < usize::MAX,
        ensures
            final(code).wf(),
            r.0 == old(code).terms.len() && r.1 == old(code).terms.len() + 1 && r.2 == old(code).terms.len() + 2,
            final(code).terms@ == old(code).terms@.update(old(code).cur as int, Some(Term::Br(r.0))).push(
                None,
            ).push(None).push(None),
            final(code).cur == r.0,
            final(code).instrs@ == old(code).instrs@,
            final(code).slots@ == old(code).slots@,
            final(self).continue_to@ == old(self).continue_to@.push(r.0),
            final(self).break_to@ == old(self).break_to@.push(r.2),
    {
        let test = code.new_block();
        let body = code.new_block();
        let end = code.new_block();
        code.terminate(Term::Br(test));
        proof {
            assert(code.terms@ =~= old(code).terms@.update(old(code).cur as int, Some(Term::Br(test))).push(None).push(None).push(None));
        }
        code.enter_block(test);
        self.continue_to.push(test);
        self.break_to.push(end);
        (test, body, end)
    }

    /// Starts a `loop`: jumps from the current block to a new body block,
    /// creates the end block, continues in the body, and makes `continue` go
    /// to the body and `break` to the end. Returns `(body, end)`.
    pub fn begin_loop(&mut self, code: &mut FuncCode) -> (r: (usize, usize))
        requires
            old(code).wf(),
            old(code).terms.len() + 3 < usize::MAX,
        ensures
            final(code).wf(),
            r.0 == old(code).terms.len() && r.1 == old(code).terms.len() + 1,
            final(code).terms@ == old(code).terms@.update(old(code).cur as int, Some(Term::Br(r.0))).push(
                None,
            ).push(None),
            final(code).cur == r.0,
            final(code).instrs@ == old(code).instrs@,
            final(code).slots@ == old(code).slots@,
            final(self).continue_to@ == old(self).continue_to@.push(r.0),
            final(self).break_to@ == old(self).break_to@.push(r.1),
    {
        let body = code.new_block();
        let end = code.new_block();
        code.terminate(Term::Br(body));
        proof {
            assert(code.terms@ =~= old(code).terms@.update(old(code).cur as int, Some(Term::Br(body))).push(None).push(None));
        }
        code.enter_block(body);
        self.continue_to.push(body);
        self.break_to.push(end);
        (body, end)
    }

    /// Ends the innermost loop: the targets are those from before it began.
    pub fn end_loop(&mut self)
        requires
            old(self).continue_to@.len() > 0,
            old(self).break_to@.len() > 0,
        ensures
            final(self).continue_to@ == old(self).continue_to@.drop_last(),
            final(self).break_to@ == old(self).break_to@.drop_last(),
    {
        self.continue_to.pop();
        self.break_to.pop();
    }

    /// `break` (when `is_break`) or `continue`: jumps to the innermost
    /// loop's target, then continues in a new block that nothing reaches,
    /// so that code after it is built and never run.
    pub fn build_jump(&self, code: &mut FuncCode, is_break: bool) -> (r: usize)
        requires
            old(code).wf(),
            old(code).terms.len() + 2 < usize::MAX,
            self.continue_to@.len() > 0,
            self.break_to@.len() > 0,
        ensures
            final(code).wf(),
            r == old(code).terms.len(),
            final(code).terms@ == old(code).terms@.update(
                old(code).cur as int,
                Some(Term::Br(if is_break { self.break_to@.last() } else { self.continue_to@.last() })),
            ).push(None),
            final(code).cur == r,
            final(code).instrs@ == old(code).instrs@,
            final(code).slots@ == old(code).slots@,
    {
        let target = if is_break {
            self.break_to[self.break_to.len() - 1]
        } else {
            self.continue_to[self.continue_to.len() - 1]
        };
        let dead = code.new_block();
        code.terminate(Term::Br(target));
        proof {
            assert(code.terms@ =~= old(code).terms@.update(old(code).cur as int, Some(Term::Br(target))).push(None));
        }
        code.enter_block(dead);
        dead
    }
}

/// A boolean condition over values already computed: the operands of
/// `&&`, `||` and `!` down to the values that are tested.
pub enum BoolExpr {
    Test(Value),
    Not(Box<BoolExpr>),
    And(Box<BoolExpr>, Box<BoolExpr>),
    Or(Box<BoolExpr>, Box<BoolExpr>),
}

/// Truth of a condition when each tested value `v` is `truth(v)`.
pub open spec fn holds(c: BoolExpr, truth: spec_fn(Value) -> bool) -> bool
    decreases c,
{
    match c {
        BoolExpr::Test(v) => truth(v),
        BoolExpr::Not(a) => !holds(*a, truth),
        BoolExpr::And(l, r) => holds(*l, truth) && holds(*r, truth),
        BoolExpr::Or(l, r) => holds(*l, truth) || holds(*r, truth),
    }
}

/// The values that short-circuit evaluation tests, in order.
pub open spec fn tested(c: BoolExpr, truth: spec_fn(Value) -> bool) -> Seq<Value>
    decreases c,
{
    match c {
        BoolExpr::Test(v) => seq![v],
        BoolExpr::Not(a) => tested(*a, truth),
        BoolExpr::And(l, r) => tested(*l, truth) + if holds(*l, truth) {
            tested(*r, truth)
        } else {
            Seq::empty()
        },
        BoolExpr::Or(l, r) => tested(*l, truth) + if holds(*l, truth) {
            Seq::empty()
        } else {
            tested(*r, truth)
        },
    }
}

pub open spec fn tests(c: BoolExpr) -> nat
    decreases c,
{
    match c {
        BoolExpr::Test(_) => 1,
        BoolExpr::Not(a) => tests(*a),
        BoolExpr::And(l, r) => tests(*l) + tests(*r),
        BoolExpr::Or(l, r) => tests(*l) + tests(*r),
    }
}

pub open spec fn junctions(c: BoolExpr) -> nat
    decreases c,
{
    match c {
        BoolExpr::Test(_) => 0,
        BoolExpr::Not(a) => junctions(*a),
        BoolExpr::And(l, r) => 1 + junctions(*l) + junctions(*r),
        BoolExpr::Or(l, r) => 1 + junctions(*l) + junctions(*r),
    }
}

/// Follows conditional branches from block `b`, at most `fuel` of them,
/// with tested values given by `truth`: the first block reached that does
/// not end in a conditional branch, and the values tested on the way.
pub open spec fn follow(
    terms: Seq<Option<Term>>,
    b: int,
    truth: spec_fn(Value) -> bool,
    fuel: nat,
) -> Option<(int, Seq<Value>)>
    decreases fuel,
{
    if b < 0 || b >= terms.len() || !(terms[b] matches Some(Term::CondBr(_, _, _))) {
        Some((b, Seq::empty()))
    } else if fuel == 0 {
        None
    } else {
        let (v, x, y) = match terms[b] {
            Some(Term::CondBr(v, x, y)) => (v, x, y),
            _ => (Value::Undef, 0, 0),
        };
        let next = if truth(v) { x as int } else { y as int };
        match follow(terms, next, truth, (fuel - 1) as nat) {
            Some((e, tr)) => Some((e, seq![v].add(tr))),
            None => None,
        }
    }
}

/// From `cur`, the blocks test `c` with short circuits and reach `t` when it
/// holds, `f` when it does not, whatever the tested values are.
pub open spec fn branches_to(terms: Seq<Option<Term>>, c: BoolExpr, cur: int, t: int, f: int) -> bool {
    forall|truth: spec_fn(Value) -> bool|
        #[trigger] follow(terms, cur, truth, tests(c)) == Some(
            (if holds(c, truth) { t } else { f }, tested(c, truth)),
        )
}

proof fn lemma_follow_fuel(terms: Seq<Option<Term>>, b: int, truth: spec_fn(Value) -> bool, n: nat, m: nat)
    requires
        follow(terms, b, truth, n) is Some,
        n <= m,
    ensures
        follow(terms, b, truth, m) == follow(terms, b, truth, n),
    decreases n,
{
    if 0 <= b < terms.len() && n > 0 {
        if let Some(Term::CondBr(v, x, y)) = terms[b] {
            let next = if truth(v) { x as int } else { y as int };
            lemma_follow_fuel(terms, next, truth, (n - 1) as nat, (m - 1) as nat);
        }
    }
}

/// `big` keeps every ended block of `small`.
pub open spec fn keeps(small: Seq<Option<Term>>, big: Seq<Option<Term>>) -> bool {
    &&& small.len() <= big.len()
    &&& forall|b: int| 0 <= b < small.len() && small[b] is Some ==> #[trigger] big[b] == small[b]
}

proof fn lemma_follow_compose(
    small: Seq<Option<Term>>,
    big: Seq<Option<Term>>,
    b: int,
    truth: spec_fn(Value) -> bool,
    n: nat,
    m: nat,
)
    requires
        keeps(small, big),
        follow(small, b, truth, n) is Some,
        small[follow(small, b, truth, n)->Some_0.0] is None || follow(small, b, truth, n)->Some_0.0
            >= small.len() || follow(small, b, truth, n)->Some_0.0 < 0,
        follow(big, follow(small, b, truth, n)->Some_0.0, truth, m) is Some,
    ensures
        follow(big, b, truth, n + m) == Some(
            (
                follow(big, follow(small, b, truth, n)->Some_0.0, truth, m)->Some_0.0,
                follow(small, b, truth, n)->Some_0.1 + follow(
                    big,
                    follow(small, b, truth, n)->Some_0.0,
                    truth,
                    m,
                )->Some_0.1,
            ),
        ),
    decreases n,
{
    let e = follow(small, b, truth, n)->Some_0.0;
    if b < 0 || b >= small.len() || !(small[b] matches Some(Term::CondBr(_, _, _))) {
        assert(e == b);
        lemma_follow_fuel(big, b, truth, m, n + m);
        assert(Seq::<Value>::empty() + follow(big, b, truth, m)->Some_0.1 =~= follow(big, b, truth, m)->Some_0.1);
    } else {
        let (v, x, y) = match small[b] {
            Some(Term::CondBr(v, x, y)) => (v, x, y),
            _ => (Value::Undef, 0, 0),
        };
        assert(big[b] == small[b]);
        let next = if truth(v) { x as int } else { y as int };
        lemma_follow_compose(small, big, next, truth, (n - 1) as nat, m);
        let t1 = follow(small, next, truth, (n - 1) as nat)->Some_0.1;
        let t2 = follow(big, e, truth, m)->Some_0.1;
        assert(seq![v].add(t1) + t2 =~= seq![v].add(t1 + t2));
        assert((n + m - 1) as nat == (n - 1) as nat + m);
    }
}

impl FuncCode {
    /// Ends the current block with code that tests `c` and jumps to `t` when
    /// it holds and to `f` when it does not, creating a block for the right
    /// operand of each `&&` and `||`. No boolean is materialised, and a
    /// value is tested only when short-circuit evaluation needs it.
    pub fn lower_bool(&mut self, c: &BoolExpr, t: usize, f: usize)
        requires
            old(self).wf(),
            t < old(self).terms.len(),
            f < old(self).terms.len(),
            old(self).cur != t,
            old(self).cur != f,
            old(self).terms@[old(self).cur as int] is None,
            old(self).terms@[t as int] is None,
            old(self).terms@[f as int] is None,
            old(self).terms.len() + junctions(*c) + 1 < usize::MAX,
        ensures
            final(self).wf(),
            old(self).terms.len() <= final(self).terms.len() <= old(self).terms.len() + junctions(*c),
            forall|b: int|
                0 <= b < old(self).terms.len() && b != old(self).cur ==> #[trigger] final(self).terms@[b]
                    == old(self).terms@[b],
            final(self).instrs@ == old(self).instrs@,
            final(self).slots@ == old(self).slots@,
            final(self).out_pointer == old(self).out_pointer,
            branches_to(final(self).terms@, *c, old(self).cur as int, t as int, f as int),
        decreases c,
    {
        let cur = self.cur;
        match c {
            BoolExpr::Test(v) => {
                self.terminate(Term::CondBr(*v, t, f));
                proof {
                    assert forall|truth: spec_fn(Value) -> bool|
                        #[trigger] follow(self.terms@, cur as int, truth, tests(*c)) == Some(
                            (if holds(*c, truth) { t as int } else { f as int }, tested(*c, truth)),
                        ) by {
                        let next = if truth(*v) { t as int } else { f as int };
                        assert(follow(self.terms@, next, truth, 0) == Some((next, Seq::<Value>::empty())));
                        assert(seq![*v].add(Seq::<Value>::empty()) =~= seq![*v]);
                    }
                }
            },
            BoolExpr::Not(a) => {
                self.lower_bool(a, f, t);
            },
            BoolExpr::And(l, r) => {
                let mid = self.new_block();
                self.lower_bool(l, mid, f);
                let ghost code1 = self.terms@;
                self.enter_block(mid);
                self.lower_bool(r, t, f);
                proof {
                    let code2 = self.terms@;
                    assert(keeps(code1, code2));
                    assert forall|truth: spec_fn(Value) -> bool|
                        #[trigger] follow(code2, cur as int, truth, tests(*c)) == Some(
                            (if holds(*c, truth) { t as int } else { f as int }, tested(*c, truth)),
                        ) by {
                        let e = follow(code1, cur as int, truth, tests(**l))->Some_0.0;
                        if holds(**l, truth) {
                            assert(e == mid);
                        } else {
                            assert(e == f);
                            assert(code2[f as int] is None);
                            assert(follow(code2, f as int, truth, tests(**r)) == Some((f as int, Seq::<Value>::empty())));
                            assert(tested(**l, truth) + Seq::<Value>::empty() =~= tested(**l, truth));
                        }
                        lemma_follow_compose(code1, code2, cur as int, truth, tests(**l), tests(**r));
                    }
                }
            },
            BoolExpr::Or(l, r) => {
                let mid = self.new_block();
                self.lower_bool(l, t, mid);
                let ghost code1 = self.terms@;
                self.enter_block(mid);
                self.lower_bool(r, t, f);
                proof {
                    let code2 = self.terms@;
                    assert(keeps(code1, code2));
                    assert forall|truth: spec_fn(Value) -> bool|
                        #[trigger] follow(code2, cur as int, truth, tests(*c)) == Some(
                            (if holds(*c, truth) { t as int } else { f as int }, tested(*c, truth)),
                        ) by {
                        let e = follow(code1, cur as int, truth, tests(**l))->Some_0.0;
                        if holds(**l, truth) {
                            assert(e == t);
                            assert(code2[t as int] is None);
                            assert(follow(code2, t as int, truth, tests(**r)) == Some((t as int, Seq::<Value>::empty())));
                            assert(tested(**l, truth) + Seq::<Value>::empty() =~= tested(**l, truth));
                        } else {
                            assert(e == mid);
                        }
                        lemma_follow_compose(code1, code2, cur as int, truth, tests(**l), tests(**r));
                    }
                }
            },
        }
    }
}

/// Code lowered for `l && r` never tests a value of `r` when `l` is false:
/// it tests exactly the values that `l` tests and reaches the false target.
pub proof fn lemma_and_skips_right(
    terms: Seq<Option<Term>>,
    l: BoolExpr,
    r: BoolExpr,
    cur: int,
    t: int,
    f: int,
    truth: spec_fn(Value) -> bool,
)
    requires
        branches_to(terms, BoolExpr::And(Box::new(l), Box::new(r)), cur, t, f),
        !holds(l, truth),
    ensures
        follow(terms, cur, truth, tests(l) + tests(r)) == Some((f, tested(l, truth))),
{
    let c = BoolExpr::And(Box::new(l), Box::new(r));
    assert(follow(terms, cur, truth, tests(c)) == Some((f, tested(c, truth))));
    assert(tested(l, truth) + Seq::<Value>::empty() =~= tested(l, truth));
}

} // verus!
