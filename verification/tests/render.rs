use symcalc::ast::Expr;
use symcalc::ast::IdentReprMode;
use symcalc::ast::OpCode;
use symcalc::env::Environment;
use symcalc::lexer::ParseError;
use symcalc::repr::render;
use symcalc::repr::repr_expr;

fn name(s: &str) -> Expr {
    Expr::Ident(s.to_string())
}

fn op(a: Expr, code: OpCode, b: Expr) -> Expr {
    Expr::new_op(a, code, b)
}

fn env_of(bindings: Vec<(&str, Expr)>) -> Environment {
    let mut env = Environment::new();
    for (key, expr) in bindings {
        env.insert(key.to_string(), expr);
    }
    env
}

fn shown(e: &Expr, env: &Environment, mode: IdentReprMode) -> String {
    repr_expr(e, env, mode).to_string()
}

#[test]
fn numbers_in_decimal() {
    let env = Environment::new();
    for mode in [
        IdentReprMode::Eager,
        IdentReprMode::Lazy,
        IdentReprMode::LazyInner,
        IdentReprMode::Mixed,
    ] {
        assert_eq!(shown(&Expr::Num(0), &env, mode), "0");
        assert_eq!(shown(&Expr::Num(9), &env, mode), "9");
        assert_eq!(shown(&Expr::Num(10), &env, mode), "10");
        assert_eq!(shown(&Expr::Num(-5), &env, mode), "-5");
        assert_eq!(shown(&Expr::Num(1234567890), &env, mode), "1234567890");
        assert_eq!(shown(&Expr::Num(i32::MAX), &env, mode), "2147483647");
        assert_eq!(shown(&Expr::Num(i32::MIN), &env, mode), "-2147483648");
    }
    assert_eq!(Expr::Num(-40).to_string(), "-40");
}

#[test]
fn operations_in_parentheses_with_their_symbols() {
    let env = Environment::new();
    let e = op(
        op(Expr::Num(1), OpCode::Add, Expr::Num(2)),
        OpCode::Div,
        op(Expr::Num(3), OpCode::Sub, op(Expr::Num(4), OpCode::Mul, Expr::Num(5))),
    );
    assert_eq!(shown(&e, &env, IdentReprMode::Mixed), "((1 + 2) / (3 - (4 * 5)))");
    assert_eq!(shown(&e, &env, IdentReprMode::Eager), "((1 + 2) / (3 - (4 * 5)))");
    assert_eq!(shown(&e, &env, IdentReprMode::Lazy), "((1 + 2) / (3 - (4 * 5)))");
    assert_eq!(e.to_string(), "((1 + 2) / (3 - (4 * 5)))");
    assert_eq!(OpCode::Add.to_string(), "+");
    assert_eq!(OpCode::Sub.to_string(), "-");
    assert_eq!(OpCode::Mul.to_string(), "*");
    assert_eq!(OpCode::Div.to_string(), "/");
}

#[test]
fn markers_are_shown_with_the_word_resolve() {
    let env = env_of(vec![("a", Expr::Num(1))]);
    let e = Expr::Resolve(Box::new(op(name("a"), OpCode::Add, Expr::Num(2))));
    assert_eq!(shown(&e, &env, IdentReprMode::Mixed), "resolve (a[1] + 2)");
    assert_eq!(shown(&e, &env, IdentReprMode::Eager), "resolve (1 + 2)");
    assert_eq!(shown(&e, &env, IdentReprMode::Lazy), "resolve (1 + 2)");
    assert_eq!(shown(&e, &env, IdentReprMode::LazyInner), "resolve (a + 2)");
    assert_eq!(e.to_string(), "resolve (a + 2)");
}

#[test]
fn unbound_names() {
    let env = Environment::new();
    let e = op(name("x"), OpCode::Add, Expr::Num(1));
    assert_eq!(shown(&e, &env, IdentReprMode::Mixed), "(x[?] + 1)");
    assert_eq!(shown(&e, &env, IdentReprMode::Eager), "(x + 1)");
    assert_eq!(shown(&e, &env, IdentReprMode::Lazy), "(x + 1)");
    assert_eq!(shown(&e, &env, IdentReprMode::LazyInner), "(x + 1)");
}

#[test]
fn cycles_end_in_a_mark() {
    let env = env_of(vec![
        ("a", name("b")),
        ("b", op(name("a"), OpCode::Add, Expr::Num(1))),
        ("me", name("me")),
    ]);
    assert_eq!(
        shown(&name("a"), &env, IdentReprMode::Mixed),
        "a[b[(a[<recursive>] + 1)]]"
    );
    assert_eq!(shown(&name("a"), &env, IdentReprMode::Eager), "(a + 1)");
    assert_eq!(shown(&name("a"), &env, IdentReprMode::Lazy), "b");
    assert_eq!(shown(&name("me"), &env, IdentReprMode::Mixed), "me[me[<recursive>]]");
    assert_eq!(shown(&name("me"), &env, IdentReprMode::Eager), "me");
    assert_eq!(shown(&name("me"), &env, IdentReprMode::Lazy), "me");
}

#[test]
fn name_shown_twice_side_by_side_is_no_cycle() {
    let env = env_of(vec![("a", name("b")), ("b", Expr::Num(2))]);
    let e = op(name("a"), OpCode::Mul, name("a"));
    assert_eq!(shown(&e, &env, IdentReprMode::Mixed), "(a[b[2]] * a[b[2]])");
    assert_eq!(shown(&e, &env, IdentReprMode::Eager), "(2 * 2)");
}

#[test]
fn lazy_goes_one_level_down() {
    let env = env_of(vec![
        ("a", op(name("b"), OpCode::Add, name("nowhere"))),
        ("b", name("c")),
        ("c", Expr::Num(3)),
    ]);
    assert_eq!(shown(&name("a"), &env, IdentReprMode::Lazy), "(b + nowhere)");
    let e = op(name("a"), OpCode::Sub, name("b"));
    assert_eq!(shown(&e, &env, IdentReprMode::Lazy), "((b + nowhere) - c)");
    assert_eq!(shown(&e, &env, IdentReprMode::LazyInner), "(a - b)");
    assert_eq!(shown(&e, &env, IdentReprMode::Eager), "((3 + nowhere) - 3)");
    assert_eq!(
        shown(&e, &env, IdentReprMode::Mixed),
        "(a[(b[c[3]] + nowhere[?])] - b[c[3]])"
    );
}

#[test]
fn render_is_the_text_of_the_value_to_show() {
    let env = env_of(vec![("a", op(name("b"), OpCode::Add, Expr::Num(1))), ("b", name("a"))]);
    let e = op(name("a"), OpCode::Mul, name("c"));
    for mode in [
        IdentReprMode::Eager,
        IdentReprMode::Lazy,
        IdentReprMode::LazyInner,
        IdentReprMode::Mixed,
    ] {
        assert_eq!(render(&e, &env, mode), repr_expr(&e, &env, mode).to_string());
    }
    assert_eq!(
        render(&e, &env, IdentReprMode::Mixed),
        "(a[(b[a[<recursive>]] + 1)] * c[?])"
    );
    assert_eq!(render(&e, &env, IdentReprMode::Eager), "((a + 1) * c)");
}

#[test]
fn showing_leaves_no_trace() {
    let env = env_of(vec![("a", name("a"))]);
    let e = name("a");
    let r = repr_expr(&e, &env, IdentReprMode::Mixed);
    assert_eq!(r.to_string(), "a[a[<recursive>]]");
    assert_eq!(r.to_string(), "a[a[<recursive>]]");
}

#[test]
fn parse_error_messages() {
    assert_eq!(
        ParseError::InvalidToken { location: 8 }.to_string(),
        "Invalid token at 8"
    );
    assert_eq!(
        ParseError::UnrecognizedEof { location: 12 }.to_string(),
        "Unrecognized EOF found at 12"
    );
    assert_eq!(
        ParseError::UnrecognizedToken { start: 6, end: 7 }.to_string(),
        "Unrecognized token found at 6:7"
    );
    assert_eq!(
        ParseError::ExtraToken { start: 100, end: 1005 }.to_string(),
        "Extra token found at 100:1005"
    );
    assert_eq!(
        ParseError::NumberTooLarge { start: 0, end: 10 }.to_string(),
        "Number too large at 0:10"
    );
}
