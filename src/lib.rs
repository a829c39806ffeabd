/// Type terms of the source language and their mathematical model.
pub mod ty;
/// Type variables, their bounds, and unification.
pub mod tctx;
/// Lowering decisions: semantics of types, casts, operators, calling
/// convention and memory access.
pub mod lower;
/// Layout of lowered structs, unions, enums and arrays.
pub mod layout;
/// The table of instantiated definitions and the table of string literals.
pub mod tables;
/// Local definitions, variants and the typed expression forms.
pub mod defs;
/// Lowered types and the lowering of types and function types.
pub mod lowty;
/// Human-readable descriptions of types for diagnostics.
pub mod describe;
/// Lowered code of a function: blocks, instructions and the builder steps
/// that lowering takes.
pub mod ir;
