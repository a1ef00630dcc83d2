//! A calculator of expressions over named values.
//!
//! An expression is built from literals, names and the four operations. A
//! name stands for the expression that an environment binds to it, which may
//! mention other names: ones bound later, or not at all, or ones that lead
//! back to the name itself. Such faults are found when an expression is
//! evaluated or displayed, not when it is bound.
//!
//! - [`ast`] holds expressions and statements, [`env`] the environment.
//! - [`execution`] evaluates: [`execution::resolve`] gives an expression's
//!   value or the reason why it has none, and
//!   [`execution::resolve_initial`] puts values in the place of the
//!   subexpressions that are marked for it.
//! - [`cycles`] states what evaluation does with names that lead back to
//!   themselves, and without them.
//! - [`visit`] is the walk over an expression that `resolve_initial` is made
//!   with.
//! - [`repr`] displays an expression, with each name shown as one of four
//!   policies says.
//! - [`lexer`] and [`calc`] read a line of text as a statement, and
//!   [`session`] carries a statement out.
//! - [`readback`] states that an expression, written as text, is read back
//!   as itself.

pub mod ast;
pub mod calc;
pub mod cycles;
pub mod env;
pub mod execution;
pub mod lexer;
pub mod readback;
pub mod repr;
pub mod session;
pub mod text;
pub mod visit;
