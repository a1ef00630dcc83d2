//! Carrying out statements, one after the other, on an environment.

use vstd::prelude::*;
use crate::ast::Statement;
use crate::env::Bindings;
use crate::env::Environment;
use crate::execution::resolve;
use crate::execution::resolve_initial;
use crate::execution::resolve_spec;
use crate::execution::resolved_initial;
use crate::repr::rendering;
use crate::repr::render;
use crate::text::decimal;
use crate::text::write_decimal;

verus! {

/// What a statement makes of an environment, and the line that it prints,
/// if it prints one.
///
/// - An assignment first puts values in the place of the marked parts of
///   its expression. Where that goes well, it binds the name to what the
///   expression has become and prints nothing; else it prints the error and
///   binds nothing.
/// - A print statement prints the value of its expression, or the error
///   that stands for it.
/// - A display statement prints the text of its expression under its policy.
pub open spec fn executed(statement: Statement, env: Bindings) -> (Bindings, Option<Seq<char>>) {
    match statement {
        Statement::Assign(name, expr) => match resolved_initial(expr, env) {
            (fixed, Ok(_)) => (env.insert(name@, fixed), None),
            (_, Err(e)) => (env, Some(e.text())),
        },
        Statement::Print(expr) => match resolve_spec(expr, env) {
            Ok(val) => (env, Some(decimal(val as int))),
            Err(e) => (env, Some(e.text())),
        },
        Statement::Repr(mode, expr) => (env, Some(rendering(expr, env, mode))),
    }
}

/// Carries out `statement` on `vars`, and returns the line to print, if
/// there is one.
pub fn interpret(statement: Statement, vars: &mut Environment) -> (output: Option<String>)
    ensures
        final(vars)@ == executed(statement, old(vars)@).0,
        match output {
            Some(line) => executed(statement, old(vars)@).1 == Some(line@),
            None => executed(statement, old(vars)@).1 is None,
        },
{
    match statement {
        Statement::Assign(name, mut expr) => match resolve_initial(&mut expr, &*vars) {
            Ok(_) => {
                vars.insert(name, expr);
                None
            },
            Err(e) => Some(e.to_string()),
        },
        Statement::Print(expr) => match resolve(&expr, &*vars) {
            Ok(val) => {
                let mut line = String::new();
                write_decimal(val, &mut line);
                assert(line@ == decimal(val as int));
                Some(line)
            },
            Err(e) => Some(e.to_string()),
        },
        Statement::Repr(mode, expr) => Some(render(&expr, &*vars, mode)),
    }
}

} // verus!
