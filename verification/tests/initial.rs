use symcalc::ast::Expr;
use symcalc::ast::OpCode;
use symcalc::env::Environment;
use symcalc::execution::resolve;
use symcalc::execution::resolve_initial;
use symcalc::execution::ExecError;
use symcalc::visit::super_expr;
use symcalc::visit::ExprVisitor;

fn name(s: &str) -> Expr {
    Expr::Ident(s.to_string())
}

fn op(a: Expr, code: OpCode, b: Expr) -> Expr {
    Expr::new_op(a, code, b)
}

fn marked(e: Expr) -> Expr {
    Expr::Resolve(Box::new(e))
}

fn env_of(bindings: Vec<(&str, Expr)>) -> Environment {
    let mut env = Environment::new();
    for (key, expr) in bindings {
        env.insert(key.to_string(), expr);
    }
    env
}

#[test]
fn markers_give_way_to_their_values() {
    let env = env_of(vec![("a", Expr::Num(5)), ("b", Expr::Num(7))]);
    let mut e = op(
        marked(name("a")),
        OpCode::Add,
        op(name("b"), OpCode::Mul, marked(op(name("b"), OpCode::Sub, Expr::Num(1)))),
    );
    assert!(resolve_initial(&mut e, &env).is_ok());
    assert_eq!(e.to_string(), "(5 + (b * 6))");
}

#[test]
fn expression_without_markers_stays() {
    let env = Environment::new();
    let mut e = op(name("missing"), OpCode::Div, Expr::Num(0));
    assert!(resolve_initial(&mut e, &env).is_ok());
    assert_eq!(e.to_string(), "(missing / 0)");
}

#[test]
fn marker_in_a_marker_goes_with_the_outer_one() {
    let env = env_of(vec![("a", Expr::Num(5))]);
    let mut e = marked(op(marked(name("a")), OpCode::Add, Expr::Num(1)));
    assert!(resolve_initial(&mut e, &env).is_ok());
    assert!(matches!(e, Expr::Num(6)));
}

#[test]
fn first_failure_stops_the_pass_and_earlier_values_stay() {
    let env = env_of(vec![("a", Expr::Num(5)), ("c", Expr::Num(9))]);
    let mut e = op(
        op(marked(name("a")), OpCode::Add, marked(name("b"))),
        OpCode::Add,
        marked(name("c")),
    );
    let r = resolve_initial(&mut e, &env);
    assert!(matches!(r, Err(ExecError::Name(n)) if n == "b"));
    assert_eq!(e.to_string(), "((5 + resolve b) + resolve c)");
}

#[test]
fn failure_of_the_first_marker_changes_nothing() {
    let env = env_of(vec![("a", Expr::Num(5))]);
    let mut e = op(
        marked(op(Expr::Num(1), OpCode::Div, Expr::Num(0))),
        OpCode::Add,
        marked(name("a")),
    );
    let r = resolve_initial(&mut e, &env);
    assert!(matches!(r, Err(ExecError::DivisionByZero { dividend: 1 })));
    assert_eq!(e.to_string(), "(resolve (1 / 0) + resolve a)");
}

#[test]
fn value_is_taken_when_the_pass_runs() {
    let mut env = env_of(vec![("a", Expr::Num(5))]);
    let mut fixed = op(marked(name("a")), OpCode::Add, Expr::Num(1));
    assert!(resolve_initial(&mut fixed, &env).is_ok());
    env.insert("late".to_string(), op(name("a"), OpCode::Add, Expr::Num(1)));
    env.insert("early".to_string(), fixed);
    env.insert("a".to_string(), Expr::Num(100));
    assert!(matches!(resolve(&name("early"), &env), Ok(6)));
    assert!(matches!(resolve(&name("late"), &env), Ok(101)));
}

/// Adds one to each literal until it has seen `budget` of them, and writes
/// down what it was shown, in order.
struct Bump {
    budget: u32,
    seen: Vec<String>,
}

impl ExprVisitor for Bump {
    fn should_continue(&mut self) -> bool {
        self.budget > 0
    }

    fn visit_num(&mut self, num: &mut i32) {
        self.seen.push(format!("num {}", num));
        *num += 1;
        self.budget -= 1;
    }

    fn visit_ident(&mut self, ident: &mut String) {
        self.seen.push(format!("ident {}", ident));
        ident.push('_');
    }

    fn visit_opcode(&mut self, op: &mut OpCode) {
        self.seen.push(format!("opcode {}", op.to_string()));
        *op = OpCode::Mul;
    }

    fn visit_op(&mut self, a: &mut Expr, _op: &mut OpCode, b: &mut Expr) -> bool {
        self.seen.push(format!("op {} {}", a.to_string(), b.to_string()));
        true
    }

    fn visit_resolve(&mut self, expr: &mut Expr) -> bool {
        self.seen.push(format!("marker {}", expr.to_string()));
        true
    }
}

#[test]
fn walk_goes_from_left_to_right_and_handlers_rewrite_in_place() {
    let mut e = op(
        op(Expr::Num(1), OpCode::Add, name("x")),
        OpCode::Sub,
        marked(Expr::Num(2)),
    );
    let mut v = Bump { budget: 10, seen: Vec::new() };
    super_expr(&mut v, &mut e);
    assert_eq!(
        v.seen,
        vec![
            "op (1 + x) resolve 2",
            "op 1 x",
            "num 1",
            "opcode +",
            "ident x",
            "opcode -",
            "marker resolve 2",
            "num 2",
        ]
    );
    assert_eq!(e.to_string(), "((2 * x_) * resolve 3)");
    assert_eq!(v.budget, 8);
}

#[test]
fn walk_stops_where_the_visitor_no_longer_continues() {
    let mut e = op(
        op(Expr::Num(1), OpCode::Add, name("x")),
        OpCode::Sub,
        marked(Expr::Num(2)),
    );
    let mut v = Bump { budget: 1, seen: Vec::new() };
    super_expr(&mut v, &mut e);
    assert_eq!(v.seen, vec!["op (1 + x) resolve 2", "op 1 x", "num 1"]);
    assert_eq!(e.to_string(), "((2 + x) - resolve 2)");

    let mut untouched = Expr::Num(7);
    let mut spent = Bump { budget: 0, seen: Vec::new() };
    super_expr(&mut spent, &mut untouched);
    assert!(spent.seen.is_empty());
    assert!(matches!(untouched, Expr::Num(7)));
}

/// Puts a zero in the place of each operation and each marker.
struct Flatten {
    replaced: u32,
}

impl ExprVisitor for Flatten {
    fn should_continue(&mut self) -> bool {
        true
    }

    fn visit_num(&mut self, _num: &mut i32) {}

    fn visit_ident(&mut self, _ident: &mut String) {}

    fn visit_opcode(&mut self, _op: &mut OpCode) {}

    fn visit_op(&mut self, a: &mut Expr, _op: &mut OpCode, b: &mut Expr) -> bool {
        *a = Expr::Num(0);
        *b = Expr::Num(0);
        self.replaced += 1;
        false
    }

    fn visit_resolve(&mut self, expr: &mut Expr) -> bool {
        *expr = Expr::Num(0);
        self.replaced += 1;
        false
    }
}

#[test]
fn replaced_node_is_not_walked_into() {
    let mut e = op(marked(name("a")), OpCode::Add, op(name("b"), OpCode::Mul, name("c")));
    let mut v = Flatten { replaced: 0 };
    super_expr(&mut v, &mut e);
    assert_eq!(e.to_string(), "(0 + 0)");
    assert_eq!(v.replaced, 1);

    let mut m = marked(op(name("b"), OpCode::Mul, name("c")));
    let mut w = Flatten { replaced: 0 };
    super_expr(&mut w, &mut m);
    assert!(matches!(m, Expr::Num(0)));
    assert_eq!(w.replaced, 1);
}
