use mpc::ir::{BoolExpr, FuncCode, Term, Value};
use mpc::lower::{
    load_kind, needs_slot, ret_kind, store_kind, LoadKind, RetKind, Semantics, StoreKind,
};

fn tested_value(i: u64) -> Box<BoolExpr> {
    Box::new(BoolExpr::Test(Value::Int(i)))
}

/// Code with the current block 0 and targets 1 (true) and 2 (false).
fn code_with_targets() -> FuncCode {
    let mut code = FuncCode::new(false);
    code.new_block();
    code.new_block();
    code
}

/// Follows the conditional branches from block 0; `truth[i]` is the value of
/// `Value::Int(i)`. Returns the block reached and the values tested.
fn follow(code: &FuncCode, truth: &[bool]) -> (usize, Vec<u64>) {
    let mut b = 0;
    let mut tested = vec![];
    while let Some(Term::CondBr(Value::Int(i), x, y)) = code.terms[b] {
        tested.push(i);
        b = if truth[i as usize] { x } else { y };
    }
    (b, tested)
}

#[test]
fn and_skips_right_operand_when_left_is_false() {
    let mut code = code_with_targets();
    code.lower_bool(&BoolExpr::And(tested_value(0), tested_value(1)), 1, 2);
    assert_eq!(code.terms.len(), 4);
    assert_eq!(code.terms[0], Some(Term::CondBr(Value::Int(0), 3, 2)));
    assert_eq!(code.terms[3], Some(Term::CondBr(Value::Int(1), 1, 2)));
    assert_eq!(follow(&code, &[false, true]), (2, vec![0]));
    assert_eq!(follow(&code, &[true, true]), (1, vec![0, 1]));
    assert_eq!(follow(&code, &[true, false]), (2, vec![0, 1]));
}

#[test]
fn or_skips_right_operand_when_left_is_true() {
    let mut code = code_with_targets();
    code.lower_bool(&BoolExpr::Or(tested_value(0), tested_value(1)), 1, 2);
    assert_eq!(follow(&code, &[true, false]), (1, vec![0]));
    assert_eq!(follow(&code, &[false, true]), (1, vec![0, 1]));
    assert_eq!(follow(&code, &[false, false]), (2, vec![0, 1]));
}

#[test]
fn not_swaps_targets() {
    let mut code = code_with_targets();
    code.lower_bool(&BoolExpr::Not(tested_value(0)), 1, 2);
    assert_eq!(code.terms[0], Some(Term::CondBr(Value::Int(0), 2, 1)));
    assert_eq!(code.terms.len(), 3);
}

#[test]
fn nested_conditions() {
    let mut code = code_with_targets();
    let c = BoolExpr::Or(Box::new(BoolExpr::And(tested_value(0), tested_value(1))), Box::new(BoolExpr::Not(tested_value(2))));
    code.lower_bool(&c, 1, 2);
    assert_eq!(follow(&code, &[false, true, true]), (2, vec![0, 2]));
    assert_eq!(follow(&code, &[true, true, true]), (1, vec![0, 1]));
    assert_eq!(follow(&code, &[true, false, false]), (1, vec![0, 1, 2]));
}

#[test]
fn memory_access_by_semantics() {
    assert_eq!(load_kind(Semantics::Addr), LoadKind::Address);
    assert_eq!(load_kind(Semantics::Value), LoadKind::Scalar);
    assert_eq!(load_kind(Semantics::Void), LoadKind::Nothing);
    assert_eq!(store_kind(Semantics::Addr), StoreKind::Copy);
    assert_eq!(store_kind(Semantics::Value), StoreKind::Scalar);
    assert_eq!(store_kind(Semantics::Void), StoreKind::Nothing);
    assert_eq!(ret_kind(Semantics::Addr), RetKind::OutPointer);
    assert_eq!(ret_kind(Semantics::Value), RetKind::Value);
    assert_eq!(ret_kind(Semantics::Void), RetKind::Void);
    assert!(needs_slot(Semantics::Addr));
    assert!(!needs_slot(Semantics::Void));
}
