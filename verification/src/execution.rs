//! Evaluation of expressions against an environment.

use vstd::prelude::*;
use vstd::hash_set::StringHashSet;
use vstd::string::StringExecFns;
use crate::ast::Expr;
use crate::ast::OpCode;
use crate::env::Bindings;
use crate::env::Environment;
use crate::env::Names;
use crate::env::lemma_pending_shrinks;
use crate::env::pending;
use crate::text::decimal;
use crate::text::write_decimal;
use crate::visit::ExprVisitor;
use crate::visit::super_expr;
use crate::visit::walk;
use crate::visit::walk_op;

verus! {

/// Why an expression has no value.
#[derive(Debug)]
pub enum ExecError {
    /// A name is mentioned that nothing is bound to.
    Name(String),
    /// The divisor of a division is zero; `dividend` is the value it would
    /// have divided.
    DivisionByZero { dividend: i32 },
    /// A name stands for an expression whose value needs the value of that
    /// same name; `expr` is what the name is bound to.
    Recursion { identifier: String, expr: Expr },
}

impl ExecError {
    /// The message that describes the error.
    pub open spec fn text(self) -> Seq<char> {
        match self {
            ExecError::Name(name) => "Identifier `"@ + name@ + "` not defined"@,
            ExecError::DivisionByZero { dividend } => "Tried to divide "@ + decimal(dividend as int)
                + " by zero"@,
            ExecError::Recursion { identifier, expr } => "Identifier `"@ + identifier@
                + "` is defined recursively as `"@ + expr.text() + "`"@,
        }
    }

    /// The message that describes the error, as a string.
    pub fn to_string(&self) -> (s: String)
        ensures
            s@ == self.text(),
    {
        let mut out = String::new();
        match self {
            ExecError::Name(name) => {
                out.append("Identifier `");
                out.append(name.as_str());
                out.append("` not defined");
                assert(out@ == "Identifier `"@ + name@ + "` not defined"@);
            },
            ExecError::DivisionByZero { dividend } => {
                out.append("Tried to divide ");
                write_decimal(*dividend, &mut out);
                out.append(" by zero");
                assert(out@ == "Tried to divide "@ + decimal(*dividend as int) + " by zero"@);
            },
            ExecError::Recursion { identifier, expr } => {
                out.append("Identifier `");
                out.append(identifier.as_str());
                out.append("` is defined recursively as `");
                expr.fmt(&mut out);
                out.append("`");
                assert(out@ == "Identifier `"@ + identifier@ + "` is defined recursively as `"@
                    + expr.text() + "`"@);
            },
        }
        out
    }
}

/// The quotient of `a` by `b`, rounded towards zero.
pub open spec fn quotient(a: int, b: int) -> int
    recommends
        b != 0,
{
    if a >= 0 && b > 0 {
        a / b
    } else if a < 0 && b < 0 {
        (-a) / (-b)
    } else if a < 0 {
        -((-a) / b)
    } else {
        -(a / (-b))
    }
}

/// What an operator makes of two values. Sums, differences and products wrap
/// around at the ends of the 32-bit range, and so does the one quotient that
/// leaves it, that of the least value by -1. A division by zero has no value.
pub open spec fn apply(op: OpCode, a: i32, b: i32) -> Result<i32, ExecError> {
    match op {
        OpCode::Add => Ok(a.wrapping_add(b)),
        OpCode::Sub => Ok(a.wrapping_sub(b)),
        OpCode::Mul => Ok(a.wrapping_mul(b)),
        OpCode::Div => if b == 0 {
            Err(ExecError::DivisionByZero { dividend: a })
        } else if quotient(a as int, b as int) > i32::MAX {
            Ok(i32::MIN)
        } else {
            Ok(quotient(a as int, b as int) as i32)
        },
    }
}

/// The value of `expr` in `env`, while the names in `busy` are being
/// evaluated further up: a reference to one of those has no value.
///
/// A literal is its own value. A reference to a name in `busy` is a
/// recursion error, one to an unbound name is a name error, and any other has
/// the value of what the name is bound to, with the name added to `busy`.
/// An operation has what its operator makes of the values of its operands,
/// the left one's error first. A marker has the value of what it holds.
pub open spec fn resolve_in(expr: Expr, env: Bindings, busy: Names) -> Result<i32, ExecError>
    decreases pending(env, busy), expr,
    when env.dom().finite()
{
    match expr {
        Expr::Num(n) => Ok(n),
        Expr::Ident(name) => {
            if busy.contains(name@) {
                Err(ExecError::Recursion { identifier: name, expr: env[name@] })
            } else if !env.contains_key(name@) {
                Err(ExecError::Name(name))
            } else {
                proof {
                    lemma_pending_shrinks(env, busy, name@);
                }
                resolve_in(env[name@], env, busy.insert(name@))
            }
        },
        Expr::Op(a, op, b) => match resolve_in(*a, env, busy) {
            Err(e) => Err(e),
            Ok(x) => match resolve_in(*b, env, busy) {
                Err(e) => Err(e),
                Ok(y) => apply(op, x, y),
            },
        },
        Expr::Resolve(inner) => resolve_in(*inner, env, busy),
    }
}

/// The value of `expr` in `env`.
pub open spec fn resolve_spec(expr: Expr, env: Bindings) -> Result<i32, ExecError> {
    resolve_in(expr, env, Names::empty())
}

/// Evaluates `expr` in `vars`.
///
/// The call stack grows with the depth of the expression and with the
/// number of names followed one from the other; nothing guards against its
/// exhaustion.
pub fn resolve(expr: &Expr, vars: &Environment) -> (value: Result<i32, ExecError>)
    ensures
        value == resolve_spec(*expr, vars@),
{
    let mut resolving = StringHashSet::new();
    resolve_inner(expr, vars, &mut resolving)
}

/// Evaluates `expr` in `vars`, while the names in `resolving` are being
/// evaluated by the callers; leaves `resolving` as it found it.
fn resolve_inner(expr: &Expr, vars: &Environment, resolving: &mut StringHashSet) -> (value:
    Result<i32, ExecError>)
    requires
        old(resolving)@.subset_of(vars@.dom()),
    ensures
        value == resolve_in(*expr, vars@, old(resolving)@),
        final(resolving)@ == old(resolving)@,
    decreases pending(vars@, old(resolving)@), *expr, 1int,
{
    proof {
        use_type_invariant(vars);
    }
    match expr {
        Expr::Num(n) => Ok(*n),
        Expr::Ident(name) => {
            let existed = resolving.contains(name.as_str());
            match vars.get(name.as_str()) {
                Some(bound) => {
                    if existed {
                        Err(ExecError::Recursion { identifier: name.clone(), expr: bound.clone() })
                    } else {
                        resolving.insert(name.clone());
                        proof {
                            lemma_pending_shrinks(vars@, old(resolving)@, name@);
                        }
                        let res = resolve_inner(bound, vars, resolving);
                        resolving.remove(name.as_str());
                        assert(resolving@ =~= old(resolving)@);
                        res
                    }
                },
                None => Err(ExecError::Name(name.clone())),
            }
        },
        Expr::Op(a, op, b) => resolve_binop(vars, resolving, a, *op, b),
        Expr::Resolve(inner) => resolve_inner(inner, vars, resolving),
    }
}

/// Evaluates the operation `op` on `a` and `b`.
fn resolve_binop(
    vars: &Environment,
    resolving: &mut StringHashSet,
    a: &Expr,
    op: OpCode,
    b: &Expr,
) -> (value: Result<i32, ExecError>)
    requires
        old(resolving)@.subset_of(vars@.dom()),
    ensures
        value == resolve_in(Expr::Op(Box::new(*a), op, Box::new(*b)), vars@, old(resolving)@),
        final(resolving)@ == old(resolving)@,
    decreases pending(vars@, old(resolving)@), Expr::Op(Box::new(*a), op, Box::new(*b)), 0int,
{
    proof {
        use_type_invariant(vars);
    }
    let a = match resolve_inner(a, vars, resolving) {
        Ok(x) => x,
        Err(e) => return Err(e),
    };
    let b = match resolve_inner(b, vars, resolving) {
        Ok(y) => y,
        Err(e) => return Err(e),
    };
    combine(op, a, b)
}

/// What `op` makes of `a` and `b`.
fn combine(op: OpCode, a: i32, b: i32) -> (value: Result<i32, ExecError>)
    ensures
        value == apply(op, a, b),
{
    match op {
        OpCode::Add => Ok(a.wrapping_add(b)),
        OpCode::Sub => Ok(a.wrapping_sub(b)),
        OpCode::Mul => Ok(a.wrapping_mul(b)),
        OpCode::Div => {
            if b == 0 {
                return Err(ExecError::DivisionByZero { dividend: a });
            }
            match a.checked_div(b) {
                Some(q) => Ok(q),
                None => Ok(i32::MIN),
            }
        },
    }
}

/// The expression that `expr` becomes, and whether that went well, when each
/// outermost marker in it gives way to the literal of its value in `env`,
/// from left to right. The first marker without a value stays, and so does
/// all that stands to the right of it; its error is the result.
pub open spec fn resolved_initial(expr: Expr, env: Bindings) -> (Expr, Result<(), ExecError>)
    decreases expr,
{
    match expr {
        Expr::Num(_) => (expr, Ok(())),
        Expr::Ident(_) => (expr, Ok(())),
        Expr::Op(a, op, b) => {
            let (a1, left) = resolved_initial(*a, env);
            if left is Err {
                (Expr::Op(Box::new(a1), op, b), left)
            } else {
                let (b1, right) = resolved_initial(*b, env);
                (Expr::Op(Box::new(a1), op, Box::new(b1)), right)
            }
        },
        Expr::Resolve(_) => match resolve_spec(expr, env) {
            Ok(val) => (Expr::Num(val), Ok(())),
            Err(e) => (expr, Err(e)),
        },
    }
}

/// Whether a marker occurs in `expr`.
pub open spec fn has_marker(expr: Expr) -> bool
    decreases expr,
{
    match expr {
        Expr::Num(_) => false,
        Expr::Ident(_) => false,
        Expr::Op(a, _, b) => has_marker(*a) || has_marker(*b),
        Expr::Resolve(_) => true,
    }
}

/// What the pass makes of an expression has, in the same environment, the
/// value that the expression had; and where the pass went well, no marker
/// is left in it.
pub proof fn law_initial_resolution_keeps_the_value(expr: Expr, env: Bindings)
    requires
        env.dom().finite(),
    ensures
        resolve_spec(resolved_initial(expr, env).0, env) == resolve_spec(expr, env),
        resolved_initial(expr, env).1 is Ok ==> !has_marker(resolved_initial(expr, env).0),
    decreases expr,
{
    match expr {
        Expr::Op(a, _, b) => {
            law_initial_resolution_keeps_the_value(*a, env);
            law_initial_resolution_keeps_the_value(*b, env);
        },
        _ => {},
    }
}

/// The visitor that puts the value of each marker in the marker's place,
/// and keeps the first error that it meets.
struct InitialResolver<'a> {
    vars: &'a Environment,
    result: Result<(), ExecError>,
}

impl<'a> ExprVisitor for InitialResolver<'a> {
    /// The walk goes on until a marker has no value.
    closed spec fn continues(&self) -> bool {
        self.result is Ok
    }

    /// A marker gives way to the literal of its value; where it has none,
    /// it stays, and the error is kept.
    closed spec fn resolve_step(self, expr: Expr) -> (Self, Option<Expr>) {
        match resolve_spec(expr, self.vars@) {
            Ok(val) => (self, Some(Expr::Num(val))),
            Err(e) => (InitialResolver { vars: self.vars, result: Err(e) }, Some(expr)),
        }
    }

    fn should_continue(&mut self) -> (go: bool) {
        self.result.is_ok()
    }

    fn visit_num(&mut self, num: &mut i32) {
    }

    fn visit_ident(&mut self, ident: &mut String) {
    }

    fn visit_opcode(&mut self, op: &mut OpCode) {
    }

    fn visit_op(&mut self, a: &mut Expr, op: &mut OpCode, b: &mut Expr) -> (descend: bool) {
        true
    }

    fn visit_resolve(&mut self, expr: &mut Expr) -> (descend: bool) {
        match resolve(expr, self.vars) {
            Ok(val) => {
                *expr = Expr::Num(val);
            },
            Err(e) => {
                self.result = Err(e);
            },
        }
        false
    }
}

/// A walk by the visitor that replaces markers does to an expression what
/// `resolved_initial` says, and leaves in the visitor the result that it says.
proof fn lemma_walk_resolves(resolver: InitialResolver, expr: Expr)
    requires
        resolver.result == Ok::<(), ExecError>(()),
    ensures
        resolved_initial(expr, resolver.vars@).1 is Ok ==> resolved_initial(
            expr,
            resolver.vars@,
        ).1 == Ok::<(), ExecError>(()),
        walk(resolver, expr) == (
            InitialResolver {
                vars: resolver.vars,
                result: resolved_initial(expr, resolver.vars@).1,
            },
            resolved_initial(expr, resolver.vars@).0,
        ),
    decreases expr,
{
    match expr {
        Expr::Num(_) => {},
        Expr::Ident(_) => {},
        Expr::Op(a, op, b) => {
            lemma_walk_resolves(resolver, *a);
            let (after, a1) = walk(resolver, *a);
            if after.result is Ok {
                lemma_walk_resolves(after, *b);
            }
            assert(walk(resolver, expr) == ({
                let (v2, (a2, op2, b2)) = walk_op(resolver, *a, op, *b);
                (v2, Expr::Op(Box::new(a2), op2, Box::new(b2)))
            }));
        },
        Expr::Resolve(_) => {},
    }
}

/// Puts, in `expr`, the literal of its value in `vars` in the place of each
/// outermost marker, from left to right, up to the first one that has no
/// value: then it stops with that marker's error, and what it replaced
/// before stays replaced.
pub fn resolve_initial(expr: &mut Expr, vars: &Environment) -> (result: Result<(), ExecError>)
    ensures
        (*final(expr), result) == resolved_initial(*old(expr), vars@),
{
    let mut resolver = InitialResolver { vars, result: Ok(()) };
    proof {
        lemma_walk_resolves(resolver, *expr);
    }
    super_expr(&mut resolver, expr);
    resolver.result
}

} // verus!
