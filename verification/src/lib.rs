//! An arithmetic expression engine.
//!
//! A line of text is read by a recursive-descent grammar built from small
//! parsing primitives. It becomes a flat sequence of tokens in which each
//! expression in parentheses is one group. Precedence resolution puts the
//! tokens into postfix order, and a stack machine evaluates that order over a
//! variable environment that the caller owns. A line of the form
//! `let name = expression;` binds the value of the expression to the name.
//!
//! Every function says what it returns in terms of a mathematical model, over
//! sequences of characters and the views of the tokens. What an expression
//! means is said once, in the module `meaning`: its value is that of its
//! operands under the operator that binds least, the rightmost of those. The
//! module proves that precedence resolution and the stack machine compute
//! this value. The modules `precedence`, `sums`, `shape` and `line` prove
//! what follows: that parentheses which change nothing change nothing, that
//! operators which bind equally are applied from left to right, that sums of
//! products have the value that arithmetic gives them, that a well-formed
//! expression never has a shape that the evaluator cannot walk, and that a
//! declared name has the value of its expression.
//!
//! Numbers are unsigned and signed 32-bit integers, whose arithmetic wraps
//! around, and 32-bit floating-point values. The engine decides the kind of
//! every result, and it does no floating-point arithmetic: a floating-point
//! value stands for the term that denotes it and holds the steps that
//! compute it, see [`float::Float`]. A caller that wants the variables to hold
//! computed values hands its arithmetic to [`eval_line_computing`].
pub mod chars;
pub mod common;
pub mod env;
pub mod error;
pub mod eval;
pub mod float;
pub mod grammar;
pub mod line;
pub mod math;
pub mod meaning;
pub mod postfix;
pub mod precedence;
pub mod shape;
pub mod sums;

pub use eval::eval_postfix;
pub use grammar::{take_atom, take_expr};
pub use line::{eval_expr, eval_line, eval_line_computing, take_decl, take_decl_head};
pub use postfix::into_postfix;
