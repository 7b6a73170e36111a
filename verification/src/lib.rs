//! Arithmetic over integers, from text to value: a scanner, a parser that
//! builds a syntax tree by precedence climbing, and visitors that evaluate the
//! tree or write it down. Every function carries a contract that Verus proves.

pub mod ast;
