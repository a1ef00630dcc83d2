use symcalc::ast::Expr;
use symcalc::ast::IdentReprMode;
use symcalc::ast::OpCode;
use symcalc::ast::Statement;
use symcalc::calc::StatementParser;
use symcalc::calc::TermParser;
use symcalc::lexer::ParseError;

#[test]
fn calc() {
    assert!(TermParser::new().parse("22").is_ok());
    assert!(TermParser::new().parse("(22)").is_ok());
    assert!(TermParser::new().parse("((((22))))").is_ok());
    assert!(TermParser::new().parse("((22)").is_err());
}

fn term(input: &str) -> Expr {
    TermParser::new().parse(input).unwrap()
}

fn statement(input: &str) -> Statement {
    StatementParser::new().parse(input).unwrap()
}

fn printed(input: &str) -> String {
    match statement(input) {
        Statement::Print(expr) => expr.to_string(),
        _ => panic!("not a print statement"),
    }
}

#[test]
fn term_is_a_number_a_name_or_in_parentheses() {
    assert!(matches!(term("22"), Expr::Num(22)));
    assert!(matches!(term("  ( 22 )\t"), Expr::Num(22)));
    assert!(matches!(term("abc_1"), Expr::Ident(name) if name == "abc_1"));
    assert_eq!(term("(a+2)").to_string(), "(a + 2)");
    assert_eq!(term("resolve (a * b)").to_string(), "resolve (a * b)");
    assert_eq!(term("resolve resolve x").to_string(), "resolve resolve x");
}

#[test]
fn largest_number_is_read_and_the_next_is_too_large() {
    assert!(matches!(term("2147483647"), Expr::Num(2147483647)));
    assert!(matches!(term("0000000000000000000007"), Expr::Num(7)));
    assert!(matches!(
        TermParser::new().parse("2147483648"),
        Err(ParseError::NumberTooLarge { start: 0, end: 10 })
    ));
    assert!(matches!(
        TermParser::new().parse("(99999999999999999999999999)"),
        Err(ParseError::NumberTooLarge { start: 1, end: 27 })
    ));
}

#[test]
fn operators_group_to_the_left_and_products_bind_tighter() {
    assert_eq!(printed("print 1 - 2 - 3"), "((1 - 2) - 3)");
    assert_eq!(printed("print 1 + 2 * 3"), "(1 + (2 * 3))");
    assert_eq!(printed("print 8 / 4 / 2"), "((8 / 4) / 2)");
    assert_eq!(printed("print (1 + 2) * 3"), "((1 + 2) * 3)");
    assert_eq!(printed("print a*b+c*d"), "((a * b) + (c * d))");
    assert_eq!(printed("print resolve a + 1"), "(resolve a + 1)");
}

#[test]
fn statements_of_each_form() {
    match statement("a = b + 1") {
        Statement::Assign(name, expr) => {
            assert_eq!(name, "a");
            assert!(matches!(expr, Expr::Op(_, OpCode::Add, _)));
            assert_eq!(expr.to_string(), "(b + 1)");
        }
        _ => panic!("not an assignment"),
    }
    assert!(matches!(statement("print a"), Statement::Print(Expr::Ident(_))));
    assert!(matches!(
        statement("eager a"),
        Statement::Repr(IdentReprMode::Eager, Expr::Ident(_))
    ));
    assert!(matches!(
        statement("lazy a"),
        Statement::Repr(IdentReprMode::Lazy, Expr::Ident(_))
    ));
    assert!(matches!(
        statement("mixed a"),
        Statement::Repr(IdentReprMode::Mixed, Expr::Ident(_))
    ));
}

#[test]
fn keywords_are_whole_words() {
    assert!(matches!(term("printer"), Expr::Ident(name) if name == "printer"));
    assert!(matches!(term("resolved"), Expr::Ident(name) if name == "resolved"));
    assert!(matches!(
        TermParser::new().parse("print"),
        Err(ParseError::UnrecognizedToken { start: 0, end: 5 })
    ));
    assert!(matches!(
        StatementParser::new().parse("lazy = 1"),
        Err(ParseError::UnrecognizedToken { start: 5, end: 6 })
    ));
}

#[test]
fn each_parse_error() {
    let parser = StatementParser::new();
    assert!(matches!(
        parser.parse("print 1 $ 2"),
        Err(ParseError::InvalidToken { location: 8 })
    ));
    assert!(matches!(
        parser.parse("print (1 + 2"),
        Err(ParseError::UnrecognizedEof { location: 12 })
    ));
    assert!(matches!(parser.parse(""), Err(ParseError::UnrecognizedEof { location: 0 })));
    assert!(matches!(parser.parse("   "), Err(ParseError::UnrecognizedEof { location: 3 })));
    assert!(matches!(parser.parse("a"), Err(ParseError::UnrecognizedEof { location: 1 })));
    assert!(matches!(
        parser.parse("print + 2"),
        Err(ParseError::UnrecognizedToken { start: 6, end: 7 })
    ));
    assert!(matches!(
        parser.parse("a b"),
        Err(ParseError::UnrecognizedToken { start: 2, end: 3 })
    ));
    assert!(matches!(
        parser.parse("print 1 2"),
        Err(ParseError::ExtraToken { start: 8, end: 9 })
    ));
    assert!(matches!(
        parser.parse("print 1)"),
        Err(ParseError::ExtraToken { start: 7, end: 8 })
    ));
    assert!(matches!(
        parser.parse("print 4294967296"),
        Err(ParseError::NumberTooLarge { start: 6, end: 16 })
    ));
    assert!(matches!(
        TermParser::new().parse("((22)"),
        Err(ParseError::UnrecognizedEof { location: 5 })
    ));
}

#[test]
fn places_count_characters() {
    assert!(matches!(
        TermParser::new().parse("é"),
        Err(ParseError::InvalidToken { location: 0 })
    ));
    assert!(matches!(
        TermParser::new().parse("a é"),
        Err(ParseError::InvalidToken { location: 2 })
    ));
}

#[test]
fn written_expression_reads_back() {
    let e = Expr::new_op(
        Expr::Resolve(Box::new(Expr::new_op(
            Expr::Ident("rate_2".to_string()),
            OpCode::Mul,
            Expr::Num(2147483647),
        ))),
        OpCode::Sub,
        Expr::new_op(
            Expr::new_op(Expr::Num(0), OpCode::Div, Expr::Ident("_x".to_string())),
            OpCode::Add,
            Expr::Resolve(Box::new(Expr::Resolve(Box::new(Expr::Ident("printed".to_string()))))),
        ),
    );
    let written = e.to_string();
    assert_eq!(
        written,
        "(resolve (rate_2 * 2147483647) - ((0 / _x) + resolve resolve printed))"
    );
    let read = term(&written);
    assert_eq!(format!("{:?}", read), format!("{:?}", e));
    assert_eq!(read.to_string(), written);
}

#[test]
fn negative_literal_is_written_but_not_read_back() {
    let written = Expr::Num(-5).to_string();
    assert_eq!(written, "-5");
    assert!(matches!(
        TermParser::new().parse(&written),
        Err(ParseError::UnrecognizedToken { start: 0, end: 1 })
    ));
    assert_eq!(printed("print 0 - 5"), "(0 - 5)");
}
