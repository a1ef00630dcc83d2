//! The expression model: statements, expressions, operators, and their plain text.
//!
//! The walk over expressions and their display are modules of their own;
//! their entry points are found here as well.

pub use crate::repr::render;
pub use crate::repr::repr_expr;
pub use crate::repr::ReprExpr;
pub use crate::visit::ExprVisitor;

use vstd::prelude::*;
use vstd::string::StringExecFns;
use crate::text::decimal;
use crate::text::write_decimal;

verus! {

/// One line of input, once parsed.
pub enum Statement {
    /// Bind a name to an expression.
    Assign(String, Expr),
    /// Evaluate an expression and show its value.
    Print(Expr),
    /// Show an expression as text, under a display policy for names.
    Repr(IdentReprMode, Expr),
}

/// A statement, with each name in it as the sequence of its characters.
pub enum StatementView {
    Assign(Seq<char>, ExprView),
    Print(ExprView),
    Repr(IdentReprMode, ExprView),
}

impl View for Statement {
    type V = StatementView;

    open spec fn view(&self) -> StatementView {
        match self {
            Statement::Assign(name, expr) => StatementView::Assign(name@, expr@),
            Statement::Print(expr) => StatementView::Print(expr@),
            Statement::Repr(mode, expr) => StatementView::Repr(*mode, expr@),
        }
    }
}

/// The four binary operators.
#[derive(Debug, Clone, Copy)]
pub enum OpCode {
    Add,
    Sub,
    Mul,
    Div,
}

impl OpCode {
    /// The operator's symbol.
    pub open spec fn symbol(self) -> Seq<char> {
        match self {
            OpCode::Add => "+"@,
            OpCode::Sub => "-"@,
            OpCode::Mul => "*"@,
            OpCode::Div => "/"@,
        }
    }

    /// Appends the operator's symbol to `out`.
    pub fn fmt(&self, out: &mut String)
        ensures
            final(out)@ == old(out)@ + self.symbol(),
    {
        let st = match self {
            OpCode::Add => "+",
            OpCode::Sub => "-",
            OpCode::Mul => "*",
            OpCode::Div => "/",
        };
        out.append(st);
    }

    /// The operator's symbol as a string.
    pub fn to_string(&self) -> (s: String)
        ensures
            s@ == self.symbol(),
    {
        let mut out = String::new();
        self.fmt(&mut out);
        assert(out@ == self.symbol());
        out
    }
}

/// An arithmetic expression whose leaves are literals or names.
#[derive(Debug)]
pub enum Expr {
    /// A literal value.
    Num(i32),
    /// A reference to the expression bound to a name.
    Ident(String),
    /// A binary operation on two operands.
    Op(Box<Expr>, OpCode, Box<Expr>),
    /// A marker: this subtree is to be collapsed to its value before the
    /// expression that holds it is stored.
    Resolve(Box<Expr>),
}

/// An expression, with each name in it as the sequence of its characters.
pub enum ExprView {
    Num(i32),
    Ident(Seq<char>),
    Op(Box<ExprView>, OpCode, Box<ExprView>),
    Resolve(Box<ExprView>),
}

impl View for Expr {
    type V = ExprView;

    open spec fn view(&self) -> ExprView
        decreases self,
    {
        match self {
            Expr::Num(n) => ExprView::Num(*n),
            Expr::Ident(name) => ExprView::Ident(name@),
            Expr::Op(a, op, b) => ExprView::Op(Box::new((**a).view()), *op, Box::new((**b).view())),
            Expr::Resolve(inner) => ExprView::Resolve(Box::new((**inner).view())),
        }
    }
}

impl Clone for Expr {
    fn clone(&self) -> (copy: Self)
        ensures
            copy == *self,
        decreases *self,
    {
        match self {
            Expr::Num(n) => Expr::Num(*n),
            Expr::Ident(name) => Expr::Ident(name.clone()),
            Expr::Op(a, op, b) => {
                let left = (&**a).clone();
                let right = (&**b).clone();
                Expr::Op(Box::new(left), *op, Box::new(right))
            },
            Expr::Resolve(inner) => {
                let copy = (&**inner).clone();
                Expr::Resolve(Box::new(copy))
            },
        }
    }
}

impl Expr {
    /// A binary operation on `a` and `b`.
    pub fn new_op(a: Expr, op: OpCode, b: Expr) -> (e: Expr)
        ensures
            e == Expr::Op(Box::new(a), op, Box::new(b)),
    {
        Expr::Op(Box::new(a), op, Box::new(b))
    }

    /// The number of nodes of the expression.
    pub open spec fn size(self) -> nat
        decreases self,
    {
        match self {
            Expr::Num(_) => 1,
            Expr::Ident(_) => 1,
            Expr::Op(a, _, b) => 1 + a.size() + b.size(),
            Expr::Resolve(inner) => 1 + inner.size(),
        }
    }

    /// The expression as written: numbers in decimal, names bare, operations
    /// in parentheses, markers with the word `resolve` in front.
    pub open spec fn text(self) -> Seq<char>
        decreases self,
    {
        match self {
            Expr::Num(n) => decimal(n as int),
            Expr::Ident(name) => name@,
            Expr::Op(a, op, b) => "("@ + a.text() + " "@ + op.symbol() + " "@ + b.text() + ")"@,
            Expr::Resolve(inner) => "resolve "@ + inner.text(),
        }
    }

    /// Appends the expression as written to `out`.
    pub fn fmt(&self, out: &mut String)
        ensures
            final(out)@ == old(out)@ + self.text(),
        decreases *self,
    {
        match self {
            Expr::Num(n) => write_decimal(*n, out),
            Expr::Ident(name) => out.append(name.as_str()),
            Expr::Op(a, op, b) => {
                out.append("(");
                a.fmt(out);
                out.append(" ");
                op.fmt(out);
                out.append(" ");
                b.fmt(out);
                out.append(")");
                assert(out@ == old(out)@ + ("("@ + a.text() + " "@ + op.symbol() + " "@ + b.text()
                    + ")"@));
            },
            Expr::Resolve(inner) => {
                out.append("resolve ");
                inner.fmt(out);
                assert(out@ == old(out)@ + ("resolve "@ + inner.text()));
            },
        }
    }

    /// The expression as written, as a string.
    pub fn to_string(&self) -> (s: String)
        ensures
            s@ == self.text(),
    {
        let mut out = String::new();
        self.fmt(&mut out);
        assert(out@ == self.text());
        out
    }
}

/// An operation is larger than each of its operands.
pub proof fn lemma_operands_smaller(a: Expr, op: OpCode, b: Expr)
    ensures
        decreases_to!(Expr::Op(Box::new(a), op, Box::new(b)) => a),
        decreases_to!(Expr::Op(Box::new(a), op, Box::new(b)) => b),
{
    let e = Expr::Op(Box::new(a), op, Box::new(b));
    assert(*e->Op_0 == a && *e->Op_2 == b);
}

/// A marker node is larger than what it holds.
pub proof fn lemma_marked_smaller(inner: Expr)
    ensures
        decreases_to!(Expr::Resolve(Box::new(inner)) => inner),
{
    let e = Expr::Resolve(Box::new(inner));
    assert(*e->Resolve_0 == inner);
}

/// How a name is shown when an expression is displayed.
#[derive(Clone, Copy)]
pub enum IdentReprMode {
    /// The text of what the name stands for, in place of the name, all the
    /// way down.
    Eager,
    /// The text of what the name stands for, with the names in it left as
    /// they are.
    Lazy,
    /// The name itself.
    LazyInner,
    /// The name, then in square brackets the text of what it stands for, all
    /// the way down.
    Mixed,
}

} // verus!
