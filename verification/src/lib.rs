//! The semantic analyzer of a hardware-description-language compiler:
//! a symbol table with scope resolution and memoized generics
//! instantiation, a constant evaluator with enum encoding checks, an
//! explicit suppression table, a three-pass analysis driver, and the
//! structural and flow handlers — most notably clock-domain ("power")
//! and reset-domain ("enable") correctness.

pub mod analyzer;
pub mod ast;
pub mod diag;
pub mod doc;
pub mod evaluator;
pub mod finder;
pub mod graph;
pub mod handlers;
pub mod last_token;
pub mod lint;
pub mod suppression;
pub mod symbol;
pub mod symbol_table;
pub mod token;
