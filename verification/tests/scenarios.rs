use symcalc::ast::Expr;
use symcalc::ast::IdentReprMode;
use symcalc::ast::OpCode;
use symcalc::env::Environment;
use symcalc::execution::resolve;
use symcalc::execution::ExecError;
use symcalc::ast::repr_expr;

fn name(s: &str) -> Expr {
    Expr::Ident(s.to_string())
}

fn env_of(bindings: Vec<(&str, Expr)>) -> Environment {
    let mut env = Environment::new();
    for (key, expr) in bindings {
        env.insert(key.to_string(), expr);
    }
    env
}

#[test]
fn assigned_literal_resolves_to_itself() {
    let mut env = Environment::new();
    env.insert("a".to_string(), Expr::Num(5));
    assert!(matches!(resolve(&name("a"), &env), Ok(5)));
}

#[test]
fn two_name_cycle_is_reported() {
    let env = env_of(vec![("a", name("b")), ("b", name("a"))]);
    match resolve(&name("a"), &env) {
        Err(ExecError::Recursion { identifier, expr }) => {
            assert_eq!(identifier, "a");
            assert_eq!(expr.to_string(), "b");
        }
        other => panic!("unexpected: {:?}", other),
    }
}

#[test]
fn reference_into_an_operation() {
    let env = env_of(vec![
        ("a", Expr::Num(5)),
        ("b", Expr::new_op(name("a"), OpCode::Add, Expr::Num(3))),
    ]);
    assert!(matches!(resolve(&name("b"), &env), Ok(8)));
}

#[test]
fn literal_division_by_zero() {
    let env = Environment::new();
    let e = Expr::new_op(Expr::Num(1), OpCode::Div, Expr::Num(0));
    assert!(matches!(
        resolve(&e, &env),
        Err(ExecError::DivisionByZero { dividend: 1 })
    ));
}

#[test]
fn render_modes_of_a_reference() {
    let env = env_of(vec![
        ("a", Expr::new_op(name("b"), OpCode::Add, Expr::Num(1))),
        ("b", Expr::Num(5)),
    ]);
    let e = name("a");
    assert_eq!(repr_expr(&e, &env, IdentReprMode::Mixed).to_string(), "a[(b[5] + 1)]");
    assert_eq!(repr_expr(&e, &env, IdentReprMode::Eager).to_string(), "(5 + 1)");
    assert_eq!(repr_expr(&e, &env, IdentReprMode::Lazy).to_string(), "(b + 1)");
}
