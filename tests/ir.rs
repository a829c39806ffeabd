use mpc::ir::{FuncCode, Instr, LoopTargets, Term, Value};
use mpc::lowty::LowTy;
use mpc::ty::Ty;

fn arr4() -> Ty {
    Ty::Arr(4, Box::new(Ty::Int32))
}

#[test]
fn load_of_aggregate_is_its_address() {
    let mut code = FuncCode::new(false);
    let slot = code.allocate_local(&arr4());
    assert_eq!(slot, Value::Slot(0));
    assert_eq!(code.build_load(&arr4(), slot), slot);
    assert!(code.instrs.is_empty());
    let v = code.build_load(&Ty::Int32, Value::Param(0));
    assert_eq!(v, Value::Instr(0));
    assert!(matches!(code.instrs[0], (0, Instr::Load(LowTy::I32, Value::Param(0)))));
}

#[test]
fn store_copies_aggregates() {
    let mut code = FuncCode::new(false);
    code.build_store(&arr4(), Value::Slot(0), Value::Param(1));
    assert!(matches!(code.instrs[0].1, Instr::MemCpy(Value::Slot(0), Value::Param(1), LowTy::Array(4, _))));
    code.build_store(&Ty::Bool, Value::Slot(1), Value::Bool(true));
    assert!(matches!(code.instrs[1].1, Instr::Store(Value::Bool(true), Value::Slot(1))));
    code.build_store(&Ty::Tuple(vec![]), Value::Slot(2), Value::Nothing);
    assert_eq!(code.instrs.len(), 2);
}

#[test]
fn call_with_aggregate_result_passes_slot_first() {
    let mut code = FuncCode::new(false);
    let r = code.build_call(&arr4(), Value::Global(3), vec![Value::Int(7)]);
    assert_eq!(r, Value::Slot(0));
    assert_eq!(code.slots.len(), 1);
    match &code.instrs[0].1 {
        Instr::Call(f, args) => {
            assert_eq!(*f, Value::Global(3));
            assert_eq!(*args, vec![Value::Slot(0), Value::Int(7)]);
        },
        _ => panic!("not a call"),
    }
    let s = code.build_call(&Ty::Int32, Value::Global(4), vec![]);
    assert_eq!(s, Value::Instr(1));
    let u = code.build_call(&Ty::Tuple(vec![]), Value::Global(5), vec![]);
    assert_eq!(u, Value::Nothing);
}

#[test]
fn aggregate_return_goes_through_out_pointer() {
    let mut code = FuncCode::new(true);
    code.exit_block_ret(&arr4(), Value::Slot(0));
    assert!(matches!(code.instrs[0].1, Instr::MemCpy(Value::Param(0), Value::Slot(0), _)));
    assert_eq!(code.terms[0], Some(Term::RetVoid));
    let b = code.new_block();
    code.enter_block(b);
    code.exit_block_ret(&Ty::Int32, Value::Int(0));
    assert_eq!(code.terms[1], Some(Term::Ret(Value::Int(0))));
}

#[test]
fn phi_and_gep() {
    let mut code = FuncCode::new(false);
    let t = code.new_block();
    let e = code.new_block();
    let end = code.new_block();
    code.terminate(Term::CondBr(Value::Bool(true), t, e));
    code.enter_block(end);
    let p = code.build_phi(&Ty::Int32, vec![(Value::Int(1), t), (Value::Int(2), e)]);
    assert_eq!(p, Value::Instr(0));
    assert!(matches!(&code.instrs[0], (3, Instr::Phi(LowTy::I32, inc)) if inc.len() == 2));
    let g = code.build_gep(&Ty::EnumRef(0, 1, vec![]), Value::Slot(0), 1);
    assert_eq!(g, Value::Instr(1));
    assert!(matches!(code.instrs[1].1, Instr::Gep(LowTy::Named(1, _), Value::Slot(0), 1)));
}

#[test]
fn if_branches_and_records_final_blocks() {
    let mut code = FuncCode::new(false);
    let (t, e, end) = code.begin_if(Value::Bool(true));
    assert_eq!((t, e, end), (1, 2, 3));
    assert_eq!(code.terms[0], Some(Term::CondBr(Value::Bool(true), 1, 2)));
    assert_eq!(code.cur, 1);
    let (t2, _, end2) = code.begin_if(Value::Bool(false));
    let inner = code.end_arm(end2);
    assert_eq!(inner, t2);
    code.enter_block(end2);
    let from_then = code.end_arm(end);
    assert_eq!(from_then, end2);
    code.enter_block(e);
    let from_else = code.end_arm(end);
    assert_eq!(from_else, e);
}

#[test]
fn match_switches_on_tag() {
    let mut code = FuncCode::new(false);
    let enum_ty = Ty::EnumRef(0, 5, vec![]);
    let (first, default, end) = code.begin_match(&enum_ty, Value::Param(0), 2);
    assert_eq!((first, default, end), (1, 3, 4));
    assert!(matches!(code.instrs[0].1, Instr::Gep(LowTy::Named(5, _), Value::Param(0), 0)));
    assert!(matches!(code.instrs[1].1, Instr::Load(LowTy::I32, Value::Instr(0))));
    assert_eq!(code.terms[0], Some(Term::Switch(Value::Instr(1), 3, vec![(0, 1), (1, 2)])));
    assert_eq!(code.terms[3], Some(Term::Br(4)));
    code.enter_block(first + 1);
    let payload = code.variant_payload(&enum_ty, Value::Param(0));
    assert!(matches!(code.instrs[2].1, Instr::Gep(_, Value::Param(0), 1)));
    code.enter_block(end);
    code.match_phi(&Ty::Int32, vec![(Value::Int(0), 1), (payload, 2)], default);
    match &code.instrs[3].1 {
        Instr::Phi(_, inc) => assert_eq!(*inc, vec![(Value::Int(0), 1), (payload, 2), (Value::Undef, 3)]),
        _ => panic!("no phi"),
    }
}

#[test]
fn loops_restore_targets() {
    let mut code = FuncCode::new(false);
    let mut loops = LoopTargets::new();
    let (test, body, end) = loops.begin_while(&mut code);
    assert_eq!((test, body, end), (1, 2, 3));
    assert_eq!(code.cur, test);
    code.terminate(Term::CondBr(Value::Bool(true), body, end));
    code.enter_block(body);
    let (lbody, lend) = loops.begin_loop(&mut code);
    let dead = loops.build_jump(&mut code, true);
    assert_eq!(code.terms[lbody], Some(Term::Br(lend)));
    assert_eq!(code.cur, dead);
    loops.end_loop();
    let dead2 = loops.build_jump(&mut code, false);
    assert_eq!(code.terms[dead], Some(Term::Br(test)));
    assert_eq!(code.cur, dead2);
    loops.end_loop();
    assert!(loops.break_to.is_empty());
    assert!(loops.continue_to.is_empty());
}
