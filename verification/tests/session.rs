use symcalc::calc::StatementParser;
use symcalc::env::Environment;
use symcalc::session::interpret;

/// Carries out the lines one after the other and collects what they print.
fn run(lines: Vec<&str>) -> Vec<String> {
    let parser = StatementParser::new();
    let mut vars = Environment::new();
    let mut printed = Vec::new();
    for line in lines {
        let statement = parser.parse(line).unwrap();
        if let Some(output) = interpret(statement, &mut vars) {
            printed.push(output);
        }
    }
    printed
}

#[test]
fn assignment_prints_nothing_and_binds() {
    assert_eq!(run(vec!["a = 5", "print a"]), vec!["5"]);
    assert_eq!(run(vec!["a = 5", "a = a + 1"]), Vec::<String>::new());
}

#[test]
fn print_shows_the_value_or_the_error() {
    assert_eq!(
        run(vec![
            "a = b + 1",
            "print a",
            "b = 0 - 6",
            "print a",
            "print a / (b + 6)",
            "b = a",
            "print b",
        ]),
        vec![
            "Identifier `b` not defined",
            "-5",
            "Tried to divide -5 by zero",
            "Identifier `b` is defined recursively as `a`",
        ]
    );
}

#[test]
fn display_statements_follow_their_policy() {
    assert_eq!(
        run(vec!["a = b + 1", "b = 5", "mixed a", "eager a", "lazy a"]),
        vec!["a[(b[5] + 1)]", "(5 + 1)", "(b + 1)"]
    );
}

#[test]
fn marked_parts_are_fixed_when_assigned() {
    assert_eq!(
        run(vec![
            "a = 5",
            "fixed = resolve a + 1",
            "loose = a + 1",
            "a = 100",
            "print fixed",
            "print loose",
            "lazy fixed",
            "lazy loose",
        ]),
        vec!["6", "101", "(5 + 1)", "(a + 1)"]
    );
}

#[test]
fn failed_assignment_prints_the_error_and_binds_nothing() {
    assert_eq!(
        run(vec![
            "a = 1",
            "a = resolve a + resolve missing",
            "print a",
            "b = resolve (1 / 0)",
            "mixed b",
        ]),
        vec![
            "Identifier `missing` not defined",
            "1",
            "Tried to divide 1 by zero",
            "b[?]",
        ]
    );
}
