use symcalc::ast::Expr;
use symcalc::ast::OpCode;
use symcalc::env::Environment;
use symcalc::execution::resolve;
use symcalc::execution::ExecError;

fn name(s: &str) -> Expr {
    Expr::Ident(s.to_string())
}

fn op(a: Expr, code: OpCode, b: Expr) -> Expr {
    Expr::new_op(a, code, b)
}

fn env_of(bindings: Vec<(&str, Expr)>) -> Environment {
    let mut env = Environment::new();
    for (key, expr) in bindings {
        env.insert(key.to_string(), expr);
    }
    env
}

fn value(e: &Expr, env: &Environment) -> i32 {
    resolve(e, env).unwrap()
}

#[test]
fn literal_is_its_own_value() {
    let env = Environment::new();
    assert_eq!(value(&Expr::Num(-17), &env), -17);
    assert_eq!(value(&Expr::Num(i32::MIN), &env), i32::MIN);
}

#[test]
fn unbound_name_is_a_name_error() {
    let env = env_of(vec![("a", name("missing"))]);
    assert!(matches!(resolve(&name("x"), &env), Err(ExecError::Name(n)) if n == "x"));
    assert!(matches!(resolve(&name("a"), &env), Err(ExecError::Name(n)) if n == "missing"));
}

#[test]
fn name_bound_to_itself_is_a_recursion_error() {
    let env = env_of(vec![("a", name("a"))]);
    match resolve(&name("a"), &env) {
        Err(ExecError::Recursion { identifier, expr }) => {
            assert_eq!(identifier, "a");
            assert!(matches!(expr, Expr::Ident(n) if n == "a"));
        }
        other => panic!("unexpected: {:?}", other),
    }
}

#[test]
fn ring_of_three_names_is_a_recursion_error_at_the_first() {
    let env = env_of(vec![("a", name("b")), ("b", name("c")), ("c", name("a"))]);
    assert!(matches!(
        resolve(&name("a"), &env),
        Err(ExecError::Recursion { identifier, .. }) if identifier == "a"
    ));
    assert!(matches!(
        resolve(&name("c"), &env),
        Err(ExecError::Recursion { identifier, .. }) if identifier == "c"
    ));
}

#[test]
fn cycle_entered_from_outside_names_the_name_met_twice() {
    let env = env_of(vec![
        ("start", op(Expr::Num(1), OpCode::Add, name("a"))),
        ("a", name("b")),
        ("b", op(name("a"), OpCode::Mul, Expr::Num(2))),
    ]);
    match resolve(&name("start"), &env) {
        Err(ExecError::Recursion { identifier, expr }) => {
            assert_eq!(identifier, "a");
            assert_eq!(expr.to_string(), "b");
        }
        other => panic!("unexpected: {:?}", other),
    }
}

#[test]
fn name_used_on_two_branches_is_no_cycle() {
    let env = env_of(vec![
        ("shared", Expr::Num(21)),
        ("left", name("shared")),
        ("right", name("shared")),
    ]);
    let e = op(name("left"), OpCode::Add, name("right"));
    assert_eq!(value(&e, &env), 42);
    let twice = op(name("shared"), OpCode::Mul, name("shared"));
    assert_eq!(value(&twice, &env), 441);
}

#[test]
fn reference_has_the_value_of_its_binding() {
    let env = env_of(vec![
        ("a", op(name("b"), OpCode::Sub, name("c"))),
        ("b", op(Expr::Num(6), OpCode::Mul, Expr::Num(7))),
        ("c", Expr::Num(2)),
    ]);
    let bound = op(name("b"), OpCode::Sub, name("c"));
    assert_eq!(value(&name("a"), &env), value(&bound, &env));
    assert_eq!(value(&name("a"), &env), 40);
}

#[test]
fn binding_may_come_after_its_use() {
    let mut env = Environment::new();
    env.insert("a".to_string(), op(name("later"), OpCode::Add, Expr::Num(1)));
    assert!(matches!(resolve(&name("a"), &env), Err(ExecError::Name(n)) if n == "later"));
    env.insert("later".to_string(), Expr::Num(9));
    assert_eq!(value(&name("a"), &env), 10);
}

#[test]
fn marker_has_the_value_of_what_it_holds() {
    let env = env_of(vec![("a", Expr::Num(3))]);
    let e = Expr::Resolve(Box::new(op(name("a"), OpCode::Add, Expr::Num(4))));
    assert_eq!(value(&e, &env), 7);
}

#[test]
fn the_four_operators() {
    let env = Environment::new();
    assert_eq!(value(&op(Expr::Num(7), OpCode::Add, Expr::Num(5)), &env), 12);
    assert_eq!(value(&op(Expr::Num(7), OpCode::Sub, Expr::Num(5)), &env), 2);
    assert_eq!(value(&op(Expr::Num(7), OpCode::Mul, Expr::Num(5)), &env), 35);
    assert_eq!(value(&op(Expr::Num(7), OpCode::Div, Expr::Num(5)), &env), 1);
}

#[test]
fn division_rounds_towards_zero() {
    let env = Environment::new();
    assert_eq!(value(&op(Expr::Num(-7), OpCode::Div, Expr::Num(2)), &env), -3);
    assert_eq!(value(&op(Expr::Num(7), OpCode::Div, Expr::Num(-2)), &env), -3);
    assert_eq!(value(&op(Expr::Num(-7), OpCode::Div, Expr::Num(-2)), &env), 3);
    assert_eq!(value(&op(Expr::Num(0), OpCode::Div, Expr::Num(-2)), &env), 0);
    assert_eq!(value(&op(Expr::Num(i32::MIN), OpCode::Div, Expr::Num(2)), &env), -1073741824);
}

#[test]
fn arithmetic_wraps_around() {
    let env = Environment::new();
    assert_eq!(value(&op(Expr::Num(i32::MAX), OpCode::Add, Expr::Num(1)), &env), i32::MIN);
    assert_eq!(value(&op(Expr::Num(i32::MIN), OpCode::Sub, Expr::Num(1)), &env), i32::MAX);
    assert_eq!(value(&op(Expr::Num(65536), OpCode::Mul, Expr::Num(65536)), &env), 0);
    assert_eq!(value(&op(Expr::Num(i32::MAX), OpCode::Mul, Expr::Num(2)), &env), -2);
    assert_eq!(value(&op(Expr::Num(i32::MIN), OpCode::Div, Expr::Num(-1)), &env), i32::MIN);
}

#[test]
fn division_by_zero_carries_the_value_of_the_dividend() {
    let env = env_of(vec![
        ("n", op(Expr::Num(20), OpCode::Add, Expr::Num(22))),
        ("zero", op(Expr::Num(3), OpCode::Sub, Expr::Num(3))),
    ]);
    let e = op(name("n"), OpCode::Div, name("zero"));
    assert!(matches!(
        resolve(&e, &env),
        Err(ExecError::DivisionByZero { dividend: 42 })
    ));
}

#[test]
fn error_of_the_left_operand_comes_first() {
    let env = Environment::new();
    let e = op(
        op(Expr::Num(1), OpCode::Div, Expr::Num(0)),
        OpCode::Add,
        name("missing"),
    );
    assert!(matches!(
        resolve(&e, &env),
        Err(ExecError::DivisionByZero { dividend: 1 })
    ));
    let f = op(
        name("missing"),
        OpCode::Div,
        op(Expr::Num(1), OpCode::Div, Expr::Num(0)),
    );
    assert!(matches!(resolve(&f, &env), Err(ExecError::Name(n)) if n == "missing"));
    let g = op(name("missing"), OpCode::Div, Expr::Num(0));
    assert!(matches!(resolve(&g, &env), Err(ExecError::Name(n)) if n == "missing"));
}

#[test]
fn resolving_twice_gives_the_same_and_leaves_the_environment() {
    let env = env_of(vec![("a", name("b")), ("b", name("a")), ("c", Expr::Num(1))]);
    assert!(resolve(&name("a"), &env).is_err());
    assert!(resolve(&name("a"), &env).is_err());
    assert_eq!(value(&name("c"), &env), 1);
    assert_eq!(env.len(), 3);
}

#[test]
fn error_messages() {
    assert_eq!(
        ExecError::Name("x".to_string()).to_string(),
        "Identifier `x` not defined"
    );
    assert_eq!(
        ExecError::DivisionByZero { dividend: -12 }.to_string(),
        "Tried to divide -12 by zero"
    );
    let e = ExecError::Recursion {
        identifier: "a".to_string(),
        expr: op(name("a"), OpCode::Add, Expr::Num(1)),
    };
    assert_eq!(
        e.to_string(),
        "Identifier `a` is defined recursively as `(a + 1)`"
    );
}

#[test]
fn environment_keeps_the_last_binding_of_a_name() {
    let mut env = Environment::new();
    assert_eq!(env.len(), 0);
    assert!(env.get("a").is_none());
    env.insert("a".to_string(), Expr::Num(1));
    env.insert("a".to_string(), Expr::Num(2));
    env.insert("b".to_string(), Expr::Num(3));
    assert_eq!(env.len(), 2);
    assert!(matches!(env.get("a"), Some(Expr::Num(2))));
    assert!(matches!(env.get("b"), Some(Expr::Num(3))));
    assert!(env.get("c").is_none());
}
