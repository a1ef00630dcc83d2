//! A depth-first walk over an expression that a visitor may rewrite in place.

use vstd::prelude::*;
use crate::ast::Expr;
use crate::ast::OpCode;
use crate::ast::lemma_marked_smaller;
use crate::ast::lemma_operands_smaller;

verus! {

/// What a walk calls on the nodes it comes to. Each handler may change the
/// visitor and replace what it is given; what it does is a function of the
/// visitor and of the node, which the implementation states.
///
/// A handler of a node with subtrees also decides whether the walk goes on
/// into them: it either hands back a node to stand in place of the old one,
/// which the walk then leaves alone, or leaves the node as it is. The walk
/// thus only ever goes into parts of the expression that it began with, and
/// ends.
///
/// A handler cannot itself call the walk on its own visitor. One that wants
/// the subtrees walked says so in what it returns.
pub trait ExprVisitor: Sized {
    /// Whether the walk may go on. Once this is false the walk changes
    /// nothing more and calls no handler. Unless an implementation says
    /// otherwise, it always may.
    open spec fn continues(&self) -> bool {
        true
    }

    /// What `visit_num` makes of the visitor and of a literal: unless an
    /// implementation says otherwise, what they were.
    open spec fn num_step(self, num: i32) -> (Self, i32) {
        (self, num)
    }

    /// What `visit_ident` makes of the visitor and of a name: unless an
    /// implementation says otherwise, what they were.
    open spec fn ident_step(self, ident: String) -> (Self, String) {
        (self, ident)
    }

    /// What `visit_opcode` makes of the visitor and of an operator: unless
    /// an implementation says otherwise, what they were.
    open spec fn opcode_step(self, op: OpCode) -> (Self, OpCode) {
        (self, op)
    }

    /// What `visit_op` makes of the visitor and of an operation: the parts
    /// of the operation that takes its place, or `None` to keep it and walk
    /// its operands, which is what it does unless an implementation says
    /// otherwise.
    open spec fn op_step(self, a: Expr, op: OpCode, b: Expr) -> (
        Self,
        Option<(Expr, OpCode, Expr)>,
    ) {
        (self, None)
    }

    /// What `visit_resolve` makes of the visitor and of a marker node: the
    /// node that takes its place, or `None` to keep it and walk what it
    /// holds, which is what it does unless an implementation says otherwise.
    open spec fn resolve_step(self, expr: Expr) -> (Self, Option<Expr>) {
        (self, None)
    }

    /// Tells whether the walk may go on, and leaves the visitor as it is.
    fn should_continue(&mut self) -> (go: bool)
        ensures
            go == old(self).continues(),
            *final(self) == *old(self),
    ;

    /// Called on each literal.
    fn visit_num(&mut self, num: &mut i32)
        ensures
            (*final(self), *final(num)) == old(self).num_step(*old(num)),
    ;

    /// Called on each name.
    fn visit_ident(&mut self, ident: &mut String)
        ensures
            (*final(self), *final(ident)) == old(self).ident_step(*old(ident)),
    ;

    /// Called on the operator of each operation whose operands are walked,
    /// between the two.
    fn visit_opcode(&mut self, op: &mut OpCode)
        ensures
            (*final(self), *final(op)) == old(self).opcode_step(*old(op)),
    ;

    /// Called on each operation, before its operands. Returns whether the
    /// walk is to go on into the operands, which are then as they were.
    fn visit_op(&mut self, a: &mut Expr, op: &mut OpCode, b: &mut Expr) -> (descend: bool)
        ensures
            *final(self) == old(self).op_step(*old(a), *old(op), *old(b)).0,
            match old(self).op_step(*old(a), *old(op), *old(b)).1 {
                Some(parts) => !descend && (*final(a), *final(op), *final(b)) == parts,
                None => descend && (*final(a), *final(op), *final(b)) == (*old(a), *old(op), *old(b)),
            },
    ;

    /// Called on each marker node, before what it holds. Returns whether the
    /// walk is to go on into what the marker holds, which is then as it was.
    fn visit_resolve(&mut self, expr: &mut Expr) -> (descend: bool)
        requires
            *old(expr) is Resolve,
        ensures
            *final(self) == old(self).resolve_step(*old(expr)).0,
            match old(self).resolve_step(*old(expr)).1 {
                Some(node) => !descend && *final(expr) == node,
                None => descend && *final(expr) == *old(expr),
            },
    ;
}

/// The visitor and the expression after a walk of `expr` by `v`.
///
/// Nothing happens once `v` no longer continues. Otherwise the node's own
/// handler runs. Where a handler of a node with subtrees keeps the node, the
/// subtrees are walked from left to right.
pub open spec fn walk<V: ExprVisitor>(v: V, expr: Expr) -> (V, Expr)
    decreases expr, 1int,
{
    if !v.continues() {
        (v, expr)
    } else {
        match expr {
            Expr::Num(num) => {
                let (v1, num1) = v.num_step(num);
                (v1, Expr::Num(num1))
            },
            Expr::Ident(ident) => {
                let (v1, ident1) = v.ident_step(ident);
                (v1, Expr::Ident(ident1))
            },
            Expr::Op(a, op, b) => {
                let (v1, parts) = v.op_step(*a, op, *b);
                let (v2, (a2, op2, b2)) = match parts {
                    Some(parts) => (v1, parts),
                    None => walk_op(v1, *a, op, *b),
                };
                (v2, Expr::Op(Box::new(a2), op2, Box::new(b2)))
            },
            Expr::Resolve(inner) => {
                let (v1, node) = v.resolve_step(expr);
                match node {
                    Some(node) => (v1, node),
                    None => walk_resolve(v1, *inner),
                }
            },
        }
    }
}

/// The visitor and the parts of an operation after a walk of its operands:
/// the left operand; then, if the visitor still continues, the operator and
/// the right operand.
pub open spec fn walk_op<V: ExprVisitor>(v: V, a: Expr, op: OpCode, b: Expr) -> (
    V,
    (Expr, OpCode, Expr),
)
    decreases Expr::Op(Box::new(a), op, Box::new(b)), 0int,
{
    proof {
        lemma_operands_smaller(a, op, b);
    }
    let (v1, a1) = walk(v, a);
    if !v1.continues() {
        (v1, (a1, op, b))
    } else {
        let (v2, op2) = v1.opcode_step(op);
        let (v3, b3) = walk(v2, b);
        (v3, (a1, op2, b3))
    }
}

/// The visitor and a marker node after a walk of what the marker holds.
pub open spec fn walk_resolve<V: ExprVisitor>(v: V, inner: Expr) -> (V, Expr)
    decreases Expr::Resolve(Box::new(inner)), 0int,
{
    proof {
        lemma_marked_smaller(inner);
    }
    let (v1, inner1) = walk(v, inner);
    (v1, Expr::Resolve(Box::new(inner1)))
}

/// Walks `expr`: does nothing unless the visitor continues, and else hands
/// the node to the handler for its kind and, where that handler keeps a node
/// with subtrees, walks those.
pub fn super_expr<V: ExprVisitor>(visitor: &mut V, expr: &mut Expr)
    ensures
        (*final(visitor), *final(expr)) == walk(*old(visitor), *old(expr)),
    decreases *old(expr), 1int,
{
    if !visitor.should_continue() {
        return ;
    }
    match expr {
        Expr::Num(num) => visitor.visit_num(num),
        Expr::Ident(ident) => visitor.visit_ident(ident),
        Expr::Op(a, op, b) => {
            if visitor.visit_op(&mut **a, op, &mut **b) {
                super_op(visitor, &mut **a, op, &mut **b);
            }
        },
        Expr::Resolve(_) => {
            if visitor.visit_resolve(expr) {
                super_resolve(visitor, expr);
            }
        },
    }
}

/// Walks the operands of an operation from left to right, with the operator
/// visited between them, and stops after the left one if the visitor no
/// longer continues.
pub fn super_op<V: ExprVisitor>(visitor: &mut V, a: &mut Expr, op: &mut OpCode, b: &mut Expr)
    ensures
        (*final(visitor), (*final(a), *final(op), *final(b))) == walk_op(
            *old(visitor),
            *old(a),
            *old(op),
            *old(b),
        ),
    decreases Expr::Op(Box::new(*old(a)), *old(op), Box::new(*old(b))), 0int,
{
    proof {
        lemma_operands_smaller(*old(a), *old(op), *old(b));
    }
    super_expr(visitor, a);
    if !visitor.should_continue() {
        return ;
    }
    visitor.visit_opcode(op);
    super_expr(visitor, b);
}

/// Walks what a marker node holds.
pub fn super_resolve<V: ExprVisitor>(visitor: &mut V, expr: &mut Expr)
    requires
        *old(expr) is Resolve,
    ensures
        (*final(visitor), *final(expr)) == walk_resolve(*old(visitor), *old(expr)->Resolve_0),
    decreases *old(expr), 0int,
{
    match expr {
        Expr::Resolve(inner) => super_expr(visitor, &mut **inner),
        _ => {},
    }
}

} // verus!
