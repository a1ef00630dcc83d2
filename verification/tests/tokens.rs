use symcalc::lexer::tokenize;
use symcalc::lexer::ParseError;
use symcalc::lexer::TokenKind;

fn kinds(text: &str) -> Vec<TokenKind> {
    tokenize(text).unwrap().iter().map(|t| t.kind).collect()
}

fn spans(text: &str) -> Vec<(usize, usize)> {
    tokenize(text).unwrap().iter().map(|t| (t.start, t.end)).collect()
}

#[test]
fn each_kind_of_token() {
    assert_eq!(
        kinds("12 ab + - * / ( ) = print eager lazy mixed resolve"),
        vec![
            TokenKind::Num,
            TokenKind::Ident,
            TokenKind::Plus,
            TokenKind::Minus,
            TokenKind::Star,
            TokenKind::Slash,
            TokenKind::LParen,
            TokenKind::RParen,
            TokenKind::Equals,
            TokenKind::Print,
            TokenKind::Eager,
            TokenKind::Lazy,
            TokenKind::Mixed,
            TokenKind::Resolve,
        ]
    );
}

#[test]
fn tokens_are_the_longest_and_need_no_space_between() {
    assert_eq!(
        kinds("a1=(22+b_2)*c"),
        vec![
            TokenKind::Ident,
            TokenKind::Equals,
            TokenKind::LParen,
            TokenKind::Num,
            TokenKind::Plus,
            TokenKind::Ident,
            TokenKind::RParen,
            TokenKind::Star,
            TokenKind::Ident,
        ]
    );
    assert_eq!(
        spans("a1=(22+b_2)*c"),
        vec![(0, 2), (2, 3), (3, 4), (4, 6), (6, 7), (7, 10), (10, 11), (11, 12), (12, 13)]
    );
    assert_eq!(kinds("12ab"), vec![TokenKind::Num, TokenKind::Ident]);
    assert_eq!(spans("12ab"), vec![(0, 2), (2, 4)]);
    assert_eq!(kinds("lazy1 _print Print"), vec![TokenKind::Ident; 3]);
}

#[test]
fn blanks_are_passed_over() {
    assert_eq!(spans("  a \t\r\n 7  "), vec![(2, 3), (8, 9)]);
    assert!(tokenize("").unwrap().is_empty());
    assert!(tokenize(" \t ").unwrap().is_empty());
}

#[test]
fn character_of_no_token_is_an_error_at_its_place() {
    assert!(matches!(tokenize("a ? b"), Err(ParseError::InvalidToken { location: 2 })));
    assert!(matches!(tokenize("1.5"), Err(ParseError::InvalidToken { location: 1 })));
    assert!(matches!(tokenize("ab\u{e9}"), Err(ParseError::InvalidToken { location: 2 })));
}
