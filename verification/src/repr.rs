//! The text of an expression, with its names shown as a display policy says.

use vstd::prelude::*;
use vstd::hash_set::StringHashSet;
use vstd::string::StringExecFns;
use crate::ast::Expr;
use crate::ast::IdentReprMode;
use crate::env::Bindings;
use crate::env::Environment;
use crate::env::Names;
use crate::env::lemma_pending_shrinks;
use crate::env::pending;
use crate::text::decimal;
use crate::text::write_decimal;

verus! {

/// The text that stands for `name` under `mode`, while the names in `busy`
/// are being shown further up.
///
/// - `Mixed`: the name, then in square brackets what it is bound to, shown
///   in the same way; `<recursive>` in the brackets where the name is in
///   `busy`, `?` where it is unbound.
/// - `Eager`: what the name is bound to, shown in the same way; the bare
///   name where it is in `busy` or unbound.
/// - `Lazy`: what the name is bound to, as written; the bare name where it
///   is unbound.
/// - `LazyInner`: the bare name.
pub open spec fn name_rendering(
    name: Seq<char>,
    env: Bindings,
    mode: IdentReprMode,
    busy: Names,
) -> Seq<char>
    decreases pending(env, busy), 0nat,
    when env.dom().finite()
{
    match mode {
        IdentReprMode::Mixed => {
            if busy.contains(name) {
                name + "[<recursive>]"@
            } else if !env.contains_key(name) {
                name + "[?]"@
            } else {
                proof {
                    lemma_pending_shrinks(env, busy, name);
                }
                name + "["@ + rendering_in(env[name], env, mode, busy.insert(name)) + "]"@
            }
        },
        IdentReprMode::Eager => {
            if busy.contains(name) || !env.contains_key(name) {
                name
            } else {
                proof {
                    lemma_pending_shrinks(env, busy, name);
                }
                rendering_in(env[name], env, mode, busy.insert(name))
            }
        },
        IdentReprMode::Lazy => {
            if env.contains_key(name) {
                env[name].text()
            } else {
                name
            }
        },
        IdentReprMode::LazyInner => name,
    }
}

/// The text of `expr` under `mode`, while the names in `busy` are being
/// shown further up: numbers in decimal, operations in parentheses with
/// both operands shown under `mode`, markers with the word `resolve` in
/// front, and each name as `name_rendering` says.
pub open spec fn rendering_in(
    expr: Expr,
    env: Bindings,
    mode: IdentReprMode,
    busy: Names,
) -> Seq<char>
    decreases pending(env, busy), expr.size(),
    when env.dom().finite()
{
    match expr {
        Expr::Num(n) => decimal(n as int),
        Expr::Ident(name) => name_rendering(name@, env, mode, busy),
        Expr::Op(a, op, b) => "("@ + rendering_in(*a, env, mode, busy) + " "@ + op.symbol() + " "@
            + rendering_in(*b, env, mode, busy) + ")"@,
        Expr::Resolve(inner) => "resolve "@ + rendering_in(*inner, env, mode, busy),
    }
}

/// The text of `expr` under `mode`.
pub open spec fn rendering(expr: Expr, env: Bindings, mode: IdentReprMode) -> Seq<char> {
    rendering_in(expr, env, mode, Names::empty())
}

/// An expression to be shown, with the environment that gives its names a
/// meaning and the policy for showing them.
pub struct ReprExpr<'a, 'b> {
    expr: &'a Expr,
    vars: &'b Environment,
    display_mode: IdentReprMode,
}

impl<'a, 'b> View for ReprExpr<'a, 'b> {
    type V = Seq<char>;

    /// The text that the value displays.
    closed spec fn view(&self) -> Seq<char> {
        rendering(*self.expr, self.vars@, self.display_mode)
    }
}

/// Appends to `out` the text for `name` in `Mixed` mode. `existed` tells
/// whether the name is being shown further up.
fn fmt_ident_mixed(
    name: &str,
    vars: &Environment,
    existed: bool,
    printing: &mut StringHashSet,
    out: &mut String,
)
    requires
        existed == old(printing)@.contains(name@),
    ensures
        final(out)@ == old(out)@ + name_rendering(
            name@,
            vars@,
            IdentReprMode::Mixed,
            old(printing)@,
        ),
        final(printing)@ == old(printing)@,
    decreases pending(vars@, old(printing)@), 0nat,
{
    proof {
        use_type_invariant(vars);
    }
    out.append(name);
    if existed {
        out.append("[<recursive>]");
    } else {
        match vars.get(name) {
            Some(e) => {
                out.append("[");
                printing.insert(String::from_str(name));
                proof {
                    lemma_pending_shrinks(vars@, old(printing)@, name@);
                }
                let inner = ReprExpr { expr: e, vars: vars, display_mode: IdentReprMode::Mixed };
                inner.fmt(printing, out);
                printing.remove(name);
                out.append("]");
                assert(printing@ =~= old(printing)@);
                assert(out@ == old(out)@ + (name@ + "["@ + rendering_in(
                    *e,
                    vars@,
                    IdentReprMode::Mixed,
                    old(printing)@.insert(name@),
                ) + "]"@));
            },
            None => out.append("[?]"),
        }
    }
}

/// Appends to `out` the text for `name` in `Eager` mode. `existed` tells
/// whether the name is being shown further up.
fn fmt_ident_eager(
    name: &str,
    vars: &Environment,
    existed: bool,
    printing: &mut StringHashSet,
    out: &mut String,
)
    requires
        existed == old(printing)@.contains(name@),
    ensures
        final(out)@ == old(out)@ + name_rendering(
            name@,
            vars@,
            IdentReprMode::Eager,
            old(printing)@,
        ),
        final(printing)@ == old(printing)@,
    decreases pending(vars@, old(printing)@), 0nat,
{
    proof {
        use_type_invariant(vars);
    }
    if existed {
        out.append(name);
    } else {
        match vars.get(name) {
            Some(e) => {
                printing.insert(String::from_str(name));
                proof {
                    lemma_pending_shrinks(vars@, old(printing)@, name@);
                }
                let inner = ReprExpr { expr: e, vars: vars, display_mode: IdentReprMode::Eager };
                inner.fmt(printing, out);
                printing.remove(name);
                assert(printing@ =~= old(printing)@);
            },
            None => out.append(name),
        }
    }
}

/// Appends the bare `name` to `out`.
fn fmt_ident_lazy(name: &str, out: &mut String)
    ensures
        final(out)@ == old(out)@ + name@,
{
    out.append(name);
}

impl<'a, 'b> ReprExpr<'a, 'b> {
    /// Appends the text to `out`, while the names in `printing` are being
    /// shown by the callers; leaves `printing` as it found it.
    fn fmt(&self, printing: &mut StringHashSet, out: &mut String)
        ensures
            final(out)@ == old(out)@ + rendering_in(
                *self.expr,
                self.vars@,
                self.display_mode,
                old(printing)@,
            ),
            final(printing)@ == old(printing)@,
        decreases pending(self.vars@, old(printing)@), self.expr.size(),
    {
        proof {
            use_type_invariant(self.vars);
        }
        match self.expr {
            Expr::Num(n) => write_decimal(*n, out),
            Expr::Ident(name) => {
                let existed = printing.contains(name.as_str());
                match self.display_mode {
                    IdentReprMode::Eager => fmt_ident_eager(
                        name.as_str(),
                        self.vars,
                        existed,
                        printing,
                        out,
                    ),
                    IdentReprMode::Lazy => {
                        match self.vars.get(name.as_str()) {
                            Some(e) => e.fmt(out),
                            None => fmt_ident_lazy(name.as_str(), out),
                        }
                        assert(out@ == old(out)@ + name_rendering(
                            name@,
                            self.vars@,
                            IdentReprMode::Lazy,
                            old(printing)@,
                        ));
                    },
                    IdentReprMode::LazyInner => {
                        fmt_ident_lazy(name.as_str(), out);
                        assert(out@ == old(out)@ + name_rendering(
                            name@,
                            self.vars@,
                            IdentReprMode::LazyInner,
                            old(printing)@,
                        ));
                    },
                    IdentReprMode::Mixed => fmt_ident_mixed(
                        name.as_str(),
                        self.vars,
                        existed,
                        printing,
                        out,
                    ),
                }
            },
            Expr::Op(a, op, b) => {
                let left = ReprExpr { expr: a, vars: self.vars, display_mode: self.display_mode };
                let right = ReprExpr { expr: b, vars: self.vars, display_mode: self.display_mode };
                out.append("(");
                left.fmt(printing, out);
                out.append(" ");
                op.fmt(out);
                out.append(" ");
                right.fmt(printing, out);
                out.append(")");
                assert(out@ == old(out)@ + ("("@ + rendering_in(
                    **a,
                    self.vars@,
                    self.display_mode,
                    old(printing)@,
                ) + " "@ + op.symbol() + " "@ + rendering_in(
                    **b,
                    self.vars@,
                    self.display_mode,
                    old(printing)@,
                ) + ")"@));
            },
            Expr::Resolve(e) => {
                let inner = ReprExpr { expr: e, vars: self.vars, display_mode: self.display_mode };
                out.append("resolve ");
                inner.fmt(printing, out);
                assert(out@ == old(out)@ + ("resolve "@ + rendering_in(
                    **e,
                    self.vars@,
                    self.display_mode,
                    old(printing)@,
                )));
            },
        }
    }

    /// The text, as a string. There is one for every expression and every
    /// environment: a name that leads back to itself, or to nothing, is
    /// shown as `name_rendering` says.
    ///
    /// The call stack grows with the depth of the expression and with the
    /// number of names followed one from the other; nothing guards against
    /// its exhaustion.
    pub fn to_string(&self) -> (s: String)
        ensures
            s@ == self@,
    {
        let mut printing = StringHashSet::new();
        let mut out = String::new();
        self.fmt(&mut printing, &mut out);
        assert(out@ == self@);
        out
    }
}

/// `expr`, to be shown under `display_mode` with the names that `vars` binds.
pub fn repr_expr<'a, 'b>(expr: &'a Expr, vars: &'b Environment, display_mode: IdentReprMode) -> (r:
    ReprExpr<'a, 'b>)
    ensures
        r@ == rendering(*expr, vars@, display_mode),
{
    ReprExpr { expr, vars, display_mode }
}


/// The text of `expr` under `display_mode`, with the names that `vars` binds.
pub fn render(expr: &Expr, vars: &Environment, display_mode: IdentReprMode) -> (text: String)
    ensures
        text@ == rendering(*expr, vars@, display_mode),
{
    repr_expr(expr, vars, display_mode).to_string()
}

} // verus!
