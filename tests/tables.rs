use mpc::lower::{func_abi, ParamPass, Semantics};
use mpc::tables::{bytes_eq, nul_terminated, InstTable, StrTable};
use mpc::tctx::TVarCtx;
use mpc::ty::Ty;

#[test]
fn string_literals_are_interned() {
    let mut t = StrTable::new();
    assert_eq!(t.intern(&b"hi".to_vec()), (0, true));
    assert_eq!(t.intern(&b"other".to_vec()), (1, true));
    assert_eq!(t.intern(&b"hi".to_vec()), (0, false));
    assert_eq!(t.len(), 2);
    assert_eq!(nul_terminated(&b"hi".to_vec()), b"hi\0".to_vec());
}

#[test]
fn empty_string_literal() {
    let mut t = StrTable::new();
    assert_eq!(t.intern(&vec![]), (0, true));
    assert_eq!(nul_terminated(&vec![]), vec![0u8]);
    assert!(bytes_eq(&vec![1, 2], &vec![1, 2]));
    assert!(!bytes_eq(&vec![1, 2], &vec![1]));
}

#[test]
fn generic_identity_instantiated_once() {
    let mut ctx = TVarCtx::new();
    let mut table: InstTable<u32> = InstTable::new();
    let t = ctx.tvar(Ty::BoundNum);
    let (i, added) = table.instantiate(&mut ctx, 1, &vec![t], 100);
    assert!(added);
    let (j, added2) = table.instantiate(&mut ctx, 1, &vec![Ty::Int32], 200);
    assert!(!added2);
    assert_eq!(i, j);
    assert_eq!(table.len(), 1);
    assert_eq!(*table.get(i), 100);
    assert_eq!(table.lookup(1, &vec![Ty::Int32]), Some(i));
}

#[test]
fn instance_table_keys_are_unique() {
    let mut table: InstTable<u32> = InstTable::new();
    assert_eq!(table.get_or_insert(7, vec![Ty::Bool], 1), (0, true));
    assert_eq!(table.get_or_insert(7, vec![Ty::Int8], 2), (1, true));
    assert_eq!(table.get_or_insert(8, vec![Ty::Bool], 3), (2, true));
    assert_eq!(table.get_or_insert(7, vec![Ty::Bool], 4), (0, false));
    assert_eq!(table.len(), 3);
    table.set(0, 5);
    assert_eq!(*table.get(0), 5);
    assert_eq!(table.lookup(9, &vec![]), None);
}

#[test]
fn hello_world_pieces() {
    let mut strings = StrTable::new();
    let (index, added) = strings.intern(&b"hi".to_vec());
    assert_eq!((index, added), (0, true));
    assert_eq!(nul_terminated(&b"hi".to_vec()), vec![b'h', b'i', 0]);
    let puts = func_abi(&vec![Semantics::Value], Semantics::Value).unwrap();
    assert!(!puts.out_pointer);
    assert!(puts.returns_value);
    assert_eq!(puts.params, vec![ParamPass::Value]);
}
