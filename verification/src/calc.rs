//! The language of the calculator: terms, expressions and statements.
//!
//! ```text
//! Statement := Ident "=" Expr | "print" Expr | "eager" Expr | "lazy" Expr | "mixed" Expr
//! Expr      := Factor (("+" | "-") Factor)*
//! Factor    := Term (("*" | "/") Term)*
//! Term      := Num | Ident | "(" Expr ")" | "resolve" Term
//! ```
//!
//! Operators of one rank group to the left. `eager`, `lazy` and `mixed` ask
//! for the text of an expression under the display policy of that name.

use vstd::prelude::*;
use vstd::string::StrSliceExecFns;
use vstd::string::StringExecFns;
use crate::ast::Expr;
use crate::ast::ExprView;
use crate::ast::IdentReprMode;
use crate::ast::OpCode;
use crate::ast::Statement;
use crate::ast::StatementView;
use crate::lexer::ParseError;
use crate::lexer::Token;
use crate::lexer::TokenKind;
use crate::lexer::chars_of;
use crate::lexer::is_digit;
use crate::lexer::spans_within;
use crate::lexer::scan;
use crate::lexer::tokens_of;

verus! {

/// An expression that was read, and the place of the token after it.
pub type Parsed = Result<(ExprView, int), ParseError>;

/// What the digit `c` counts; zero for any other character.
pub open spec fn digit_value(c: char) -> nat {
    if is_digit(c) {
        (c as u32 - '0' as u32) as nat
    } else {
        0
    }
}

/// The number that a run of digits writes in decimal.
pub open spec fn number_value(digits: Seq<char>) -> nat
    decreases digits.len(),
{
    if digits.len() == 0 {
        0
    } else {
        number_value(digits.drop_last()) * 10 + digit_value(digits.last())
    }
}

/// The error for what stands at place `pos` where it cannot: the token
/// there, or the end of the line.
pub open spec fn unexpected(text: Seq<char>, tokens: Seq<Token>, pos: int) -> ParseError {
    if 0 <= pos < tokens.len() {
        ParseError::UnrecognizedToken { start: tokens[pos].start, end: tokens[pos].end }
    } else {
        ParseError::UnrecognizedEof { location: text.len() as usize }
    }
}

/// The characters that `token` spans.
pub open spec fn lexeme(text: Seq<char>, token: Token) -> Seq<char> {
    text.subrange(token.start as int, token.end as int)
}

/// The operator that a token of kind `kind` stands for between two factors.
pub open spec fn additive(kind: TokenKind) -> Option<OpCode> {
    match kind {
        TokenKind::Plus => Some(OpCode::Add),
        TokenKind::Minus => Some(OpCode::Sub),
        _ => None,
    }
}

/// The operator that a token of kind `kind` stands for between two terms.
pub open spec fn multiplicative(kind: TokenKind) -> Option<OpCode> {
    match kind {
        TokenKind::Star => Some(OpCode::Mul),
        TokenKind::Slash => Some(OpCode::Div),
        _ => None,
    }
}

/// The term that begins at place `pos`: a number, a name, an expression in
/// parentheses, or the word `resolve` before a term.
pub open spec fn term_at(text: Seq<char>, tokens: Seq<Token>, pos: int) -> Parsed
    decreases tokens.len() - pos, 0int,
{
    if pos < 0 || pos >= tokens.len() {
        Err(unexpected(text, tokens, pos))
    } else {
        let token = tokens[pos];
        match token.kind {
            TokenKind::Num => {
                let value = number_value(lexeme(text, token));
                if value > i32::MAX {
                    Err(ParseError::NumberTooLarge { start: token.start, end: token.end })
                } else {
                    Ok((ExprView::Num(value as i32), pos + 1))
                }
            },
            TokenKind::Ident => Ok((ExprView::Ident(lexeme(text, token)), pos + 1)),
            TokenKind::Resolve => match term_at(text, tokens, pos + 1) {
                Ok((inner, next)) => Ok((ExprView::Resolve(Box::new(inner)), next)),
                Err(e) => Err(e),
            },
            TokenKind::LParen => match expr_at(text, tokens, pos + 1) {
                Ok((inner, next)) => {
                    if 0 <= next < tokens.len() && tokens[next].kind == TokenKind::RParen {
                        Ok((inner, next + 1))
                    } else {
                        Err(unexpected(text, tokens, next))
                    }
                },
                Err(e) => Err(e),
            },
            _ => Err(unexpected(text, tokens, pos)),
        }
    }
}

/// What follows the factor `left`, which ended before place `pos`: as long
/// as a `*` or a `/` stands there, the term after it, joined to what was
/// read so far.
pub open spec fn factor_rest(text: Seq<char>, tokens: Seq<Token>, left: ExprView, pos: int) -> Parsed
    decreases tokens.len() - pos, 1int,
{
    if pos < 0 || pos >= tokens.len() {
        Ok((left, pos))
    } else {
        match multiplicative(tokens[pos].kind) {
            None => Ok((left, pos)),
            Some(op) => match term_at(text, tokens, pos + 1) {
                // a term ends past where it begins: `lemma_term_advances`
                Ok((right, next)) if pos < next <= tokens.len() => factor_rest(
                    text,
                    tokens,
                    ExprView::Op(Box::new(left), op, Box::new(right)),
                    next,
                ),
                Ok(_) => Err(unexpected(text, tokens, pos)),
                Err(e) => Err(e),
            },
        }
    }
}

/// The factor that begins at place `pos`: terms with `*` and `/` between them.
pub open spec fn factor_at(text: Seq<char>, tokens: Seq<Token>, pos: int) -> Parsed
    decreases tokens.len() - pos, 2int,
{
    match term_at(text, tokens, pos) {
        Ok((left, next)) if pos < next <= tokens.len() => factor_rest(text, tokens, left, next),
        Ok(_) => Err(unexpected(text, tokens, pos)),
        Err(e) => Err(e),
    }
}

/// What follows the expression `left`, which ended before place `pos`: as
/// long as a `+` or a `-` stands there, the factor after it, joined to what
/// was read so far.
pub open spec fn expr_rest(text: Seq<char>, tokens: Seq<Token>, left: ExprView, pos: int) -> Parsed
    decreases tokens.len() - pos, 3int,
{
    if pos < 0 || pos >= tokens.len() {
        Ok((left, pos))
    } else {
        match additive(tokens[pos].kind) {
            None => Ok((left, pos)),
            Some(op) => match factor_at(text, tokens, pos + 1) {
                Ok((right, next)) if pos < next <= tokens.len() => expr_rest(
                    text,
                    tokens,
                    ExprView::Op(Box::new(left), op, Box::new(right)),
                    next,
                ),
                Ok(_) => Err(unexpected(text, tokens, pos)),
                Err(e) => Err(e),
            },
        }
    }
}

/// The expression that begins at place `pos`: factors with `+` and `-`
/// between them.
pub open spec fn expr_at(text: Seq<char>, tokens: Seq<Token>, pos: int) -> Parsed
    decreases tokens.len() - pos, 4int,
{
    match factor_at(text, tokens, pos) {
        Ok((left, next)) if pos < next <= tokens.len() => expr_rest(text, tokens, left, next),
        Ok(_) => Err(unexpected(text, tokens, pos)),
        Err(e) => Err(e),
    }
}

/// A term ends past the place where it begins, and within the line: so the
/// guards of the grammar against a standstill never fail.
pub proof fn lemma_term_advances(text: Seq<char>, tokens: Seq<Token>, pos: int)
    requires
        0 <= pos,
    ensures
        term_at(text, tokens, pos) matches Ok((_, next)) ==> pos < next <= tokens.len(),
    decreases tokens.len() - pos, 0int,
{
    if pos < tokens.len() {
        match tokens[pos].kind {
            TokenKind::Resolve => lemma_term_advances(text, tokens, pos + 1),
            TokenKind::LParen => lemma_expr_advances(text, tokens, pos + 1),
            _ => {},
        }
    }
}

/// What follows a factor ends at or past the place where it begins, and
/// within the line.
pub proof fn lemma_factor_rest_advances(
    text: Seq<char>,
    tokens: Seq<Token>,
    left: ExprView,
    pos: int,
)
    requires
        0 <= pos <= tokens.len(),
    ensures
        factor_rest(text, tokens, left, pos) matches Ok((_, next)) ==> pos <= next <= tokens.len(),
    decreases tokens.len() - pos, 1int,
{
    if pos < tokens.len() {
        if let Some(op) = multiplicative(tokens[pos].kind) {
            lemma_term_advances(text, tokens, pos + 1);
            if let Ok((right, next)) = term_at(text, tokens, pos + 1) {
                lemma_factor_rest_advances(
                    text,
                    tokens,
                    ExprView::Op(Box::new(left), op, Box::new(right)),
                    next,
                );
            }
        }
    }
}

/// A factor ends past the place where it begins, and within the line.
pub proof fn lemma_factor_advances(text: Seq<char>, tokens: Seq<Token>, pos: int)
    requires
        0 <= pos,
    ensures
        factor_at(text, tokens, pos) matches Ok((_, next)) ==> pos < next <= tokens.len(),
    decreases tokens.len() - pos, 2int,
{
    lemma_term_advances(text, tokens, pos);
    if let Ok((left, next)) = term_at(text, tokens, pos) {
        lemma_factor_rest_advances(text, tokens, left, next);
    }
}

/// What follows an expression ends at or past the place where it begins,
/// and within the line.
pub proof fn lemma_expr_rest_advances(
    text: Seq<char>,
    tokens: Seq<Token>,
    left: ExprView,
    pos: int,
)
    requires
        0 <= pos <= tokens.len(),
    ensures
        expr_rest(text, tokens, left, pos) matches Ok((_, next)) ==> pos <= next <= tokens.len(),
    decreases tokens.len() - pos, 3int,
{
    if pos < tokens.len() {
        if let Some(op) = additive(tokens[pos].kind) {
            lemma_factor_advances(text, tokens, pos + 1);
            if let Ok((right, next)) = factor_at(text, tokens, pos + 1) {
                lemma_expr_rest_advances(
                    text,
                    tokens,
                    ExprView::Op(Box::new(left), op, Box::new(right)),
                    next,
                );
            }
        }
    }
}

/// An expression ends past the place where it begins, and within the line.
pub proof fn lemma_expr_advances(text: Seq<char>, tokens: Seq<Token>, pos: int)
    requires
        0 <= pos,
    ensures
        expr_at(text, tokens, pos) matches Ok((_, next)) ==> pos < next <= tokens.len(),
    decreases tokens.len() - pos, 4int,
{
    lemma_factor_advances(text, tokens, pos);
    if let Ok((left, next)) = factor_at(text, tokens, pos) {
        lemma_expr_rest_advances(text, tokens, left, next);
    }
}

/// What was read, where it is the whole line: else the token after it is
/// one too many.
pub open spec fn whole(tokens: Seq<Token>, parsed: Parsed) -> Result<ExprView, ParseError> {
    match parsed {
        Err(e) => Err(e),
        Ok((expr, next)) => {
            if 0 <= next < tokens.len() {
                Err(ParseError::ExtraToken { start: tokens[next].start, end: tokens[next].end })
            } else {
                Ok(expr)
            }
        },
    }
}

/// The term that `text` writes, or why it writes none.
pub open spec fn parsed_term(text: Seq<char>) -> Result<ExprView, ParseError> {
    match tokens_of(text) {
        Err(e) => Err(e),
        Ok(tokens) => whole(tokens, term_at(text, tokens, 0)),
    }
}

/// The display policy that the keyword of kind `kind` asks for.
pub open spec fn display_mode(kind: TokenKind) -> Option<IdentReprMode> {
    match kind {
        TokenKind::Eager => Some(IdentReprMode::Eager),
        TokenKind::Lazy => Some(IdentReprMode::Lazy),
        TokenKind::Mixed => Some(IdentReprMode::Mixed),
        _ => None,
    }
}

/// The statement that the tokens of a line write: a name, `=` and an
/// expression; or, after the keyword that says what to do with it, an
/// expression.
pub open spec fn statement_of(text: Seq<char>, tokens: Seq<Token>) -> Result<
    StatementView,
    ParseError,
> {
    if tokens.len() == 0 {
        Err(unexpected(text, tokens, 0))
    } else if tokens[0].kind == TokenKind::Print {
        match whole(tokens, expr_at(text, tokens, 1)) {
            Ok(expr) => Ok(StatementView::Print(expr)),
            Err(e) => Err(e),
        }
    } else if let Some(mode) = display_mode(tokens[0].kind) {
        match whole(tokens, expr_at(text, tokens, 1)) {
            Ok(expr) => Ok(StatementView::Repr(mode, expr)),
            Err(e) => Err(e),
        }
    } else if tokens[0].kind == TokenKind::Ident {
        if tokens.len() >= 2 && tokens[1].kind == TokenKind::Equals {
            match whole(tokens, expr_at(text, tokens, 2)) {
                Ok(expr) => Ok(StatementView::Assign(lexeme(text, tokens[0]), expr)),
                Err(e) => Err(e),
            }
        } else {
            Err(unexpected(text, tokens, 1))
        }
    } else {
        Err(unexpected(text, tokens, 0))
    }
}

/// The statement that `text` writes, or why it writes none.
pub open spec fn parsed_statement(text: Seq<char>) -> Result<StatementView, ParseError> {
    match tokens_of(text) {
        Err(e) => Err(e),
        Ok(tokens) => statement_of(text, tokens),
    }
}

/// A line with its characters and its tokens.
struct Source<'a> {
    text: &'a str,
    chars: Vec<char>,
    tokens: Vec<Token>,
}

/// The number that a prefix of a run of digits writes is at most the number
/// that the whole run writes.
proof fn lemma_prefix_is_less(digits: Seq<char>, k: int)
    requires
        0 <= k <= digits.len(),
    ensures
        number_value(digits.take(k)) <= number_value(digits),
    decreases digits.len() - k,
{
    if k < digits.len() {
        lemma_prefix_is_less(digits, k + 1);
        assert(digits.take(k + 1).drop_last() =~= digits.take(k));
    } else {
        assert(digits.take(k) =~= digits);
    }
}

impl<'a> Source<'a> {
    spec fn wf(&self) -> bool {
        &&& self.chars@ == self.text@
        &&& spans_within(self.tokens@, self.text@.len() as int)
    }

    /// Reads `text` into its characters and tokens.
    fn new(text: &'a str) -> (source: Result<Source<'a>, ParseError>)
        ensures
            match source {
                Ok(source) => source.wf() && source.text@ == text@ && tokens_of(text@) == Ok::<
                    Seq<Token>,
                    ParseError,
                >(source.tokens@),
                Err(e) => tokens_of(text@) == Err::<Seq<Token>, ParseError>(e),
            },
    {
        let chars = chars_of(text);
        match scan(text, &chars) {
            Ok(tokens) => Ok(Source { text, chars, tokens }),
            Err(e) => Err(e),
        }
    }

    /// The error for what stands at place `pos`.
    fn unexpected(&self, pos: usize) -> (e: ParseError)
        requires
            self.wf(),
        ensures
            e == unexpected(self.text@, self.tokens@, pos as int),
    {
        if pos < self.tokens.len() {
            ParseError::UnrecognizedToken {
                start: self.tokens[pos].start,
                end: self.tokens[pos].end,
            }
        } else {
            ParseError::UnrecognizedEof { location: self.chars.len() }
        }
    }

    /// The number that `token` writes, unless it is too large.
    fn number(&self, token: Token) -> (value: Option<i32>)
        requires
            self.wf(),
            token.start <= token.end <= self.text@.len(),
        ensures
            match value {
                Some(n) => number_value(lexeme(self.text@, token)) == n,
                None => number_value(lexeme(self.text@, token)) > i32::MAX,
            },
    {
        let ghost digits = lexeme(self.text@, token);
        let mut value: u64 = 0;
        let mut at = token.start;
        while at < token.end
            invariant
                self.wf(),
                token.start <= at <= token.end <= self.text@.len(),
                digits == lexeme(self.text@, token),
                value == number_value(digits.take(at - token.start)),
                value <= i32::MAX,
            decreases token.end - at,
        {
            let c = self.chars[at];
            let d: u64 = if '0' <= c && c <= '9' {
                (c as u32 - '0' as u32) as u64
            } else {
                0
            };
            proof {
                let k = at - token.start;
                assert(digits.take(k + 1).drop_last() =~= digits.take(k));
                assert(digits.take(k + 1).last() == c);
                lemma_prefix_is_less(digits, k + 1);
            }
            value = value * 10 + d;
            at += 1;
            if value > i32::MAX as u64 {
                return None;
            }
        }
        assert(digits.take(at - token.start) =~= digits);
        Some(value as i32)
    }

    /// Reads the term that begins at place `pos`.
    fn term(&self, pos: usize) -> (parsed: Result<(Expr, usize), ParseError>)
        requires
            self.wf(),
        ensures
            match parsed {
                Ok((expr, next)) => term_at(self.text@, self.tokens@, pos as int) == Ok::<
                    (ExprView, int),
                    ParseError,
                >((expr@, next as int)),
                Err(e) => term_at(self.text@, self.tokens@, pos as int) == Err::<
                    (ExprView, int),
                    ParseError,
                >(e),
            },
        decreases self.tokens.len() - pos, 0int,
    {
        if pos >= self.tokens.len() {
            return Err(self.unexpected(pos));
        }
        let token = self.tokens[pos];
        proof {
            lemma_term_advances(self.text@, self.tokens@, pos + 1);
            lemma_expr_advances(self.text@, self.tokens@, pos + 1);
        }
        match token.kind {
            TokenKind::Num => match self.number(token) {
                Some(n) => Ok((Expr::Num(n), pos + 1)),
                None => Err(ParseError::NumberTooLarge { start: token.start, end: token.end }),
            },
            TokenKind::Ident => {
                let name = String::from_str(self.text.substring_char(token.start, token.end));
                Ok((Expr::Ident(name), pos + 1))
            },
            TokenKind::Resolve => match self.term(pos + 1) {
                Ok((inner, next)) => Ok((Expr::Resolve(Box::new(inner)), next)),
                Err(e) => Err(e),
            },
            TokenKind::LParen => match self.expr(pos + 1) {
                Ok((inner, next)) => {
                    if next < self.tokens.len() && self.tokens[next].kind == TokenKind::RParen {
                        Ok((inner, next + 1))
                    } else {
                        Err(self.unexpected(next))
                    }
                },
                Err(e) => Err(e),
            },
            _ => Err(self.unexpected(pos)),
        }
    }

    /// Reads what follows the factor `left`, which ended before place `pos`.
    fn factor_rest(&self, left: Expr, pos: usize) -> (parsed: Result<(Expr, usize), ParseError>)
        requires
            self.wf(),
            pos <= self.tokens.len(),
        ensures
            match parsed {
                Ok((expr, next)) => factor_rest(self.text@, self.tokens@, left@, pos as int)
                    == Ok::<(ExprView, int), ParseError>((expr@, next as int)),
                Err(e) => factor_rest(self.text@, self.tokens@, left@, pos as int) == Err::<
                    (ExprView, int),
                    ParseError,
                >(e),
            },
        decreases self.tokens.len() - pos, 1int,
    {
        if pos >= self.tokens.len() {
            return Ok((left, pos));
        }
        let op = match self.tokens[pos].kind {
            TokenKind::Star => OpCode::Mul,
            TokenKind::Slash => OpCode::Div,
            _ => {
                return Ok((left, pos));
            },
        };
        proof {
            lemma_term_advances(self.text@, self.tokens@, pos + 1);
        }
        match self.term(pos + 1) {
            Ok((right, next)) => self.factor_rest(Expr::new_op(left, op, right), next),
            Err(e) => Err(e),
        }
    }

    /// Reads the factor that begins at place `pos`.
    fn factor(&self, pos: usize) -> (parsed: Result<(Expr, usize), ParseError>)
        requires
            self.wf(),
        ensures
            match parsed {
                Ok((expr, next)) => factor_at(self.text@, self.tokens@, pos as int) == Ok::<
                    (ExprView, int),
                    ParseError,
                >((expr@, next as int)),
                Err(e) => factor_at(self.text@, self.tokens@, pos as int) == Err::<
                    (ExprView, int),
                    ParseError,
                >(e),
            },
        decreases self.tokens.len() - pos, 2int,
    {
        proof {
            lemma_term_advances(self.text@, self.tokens@, pos as int);
        }
        match self.term(pos) {
            Ok((left, next)) => self.factor_rest(left, next),
            Err(e) => Err(e),
        }
    }

    /// Reads what follows the expression `left`, which ended before place `pos`.
    fn expr_rest(&self, left: Expr, pos: usize) -> (parsed: Result<(Expr, usize), ParseError>)
        requires
            self.wf(),
            pos <= self.tokens.len(),
        ensures
            match parsed {
                Ok((expr, next)) => expr_rest(self.text@, self.tokens@, left@, pos as int) == Ok::<
                    (ExprView, int),
                    ParseError,
                >((expr@, next as int)),
                Err(e) => expr_rest(self.text@, self.tokens@, left@, pos as int) == Err::<
                    (ExprView, int),
                    ParseError,
                >(e),
            },
        decreases self.tokens.len() - pos, 3int,
    {
        if pos >= self.tokens.len() {
            return Ok((left, pos));
        }
        let op = match self.tokens[pos].kind {
            TokenKind::Plus => OpCode::Add,
            TokenKind::Minus => OpCode::Sub,
            _ => {
                return Ok((left, pos));
            },
        };
        proof {
            lemma_factor_advances(self.text@, self.tokens@, pos + 1);
        }
        match self.factor(pos + 1) {
            Ok((right, next)) => self.expr_rest(Expr::new_op(left, op, right), next),
            Err(e) => Err(e),
        }
    }

    /// Reads the expression that begins at place `pos`.
    fn expr(&self, pos: usize) -> (parsed: Result<(Expr, usize), ParseError>)
        requires
            self.wf(),
        ensures
            match parsed {
                Ok((expr, next)) => expr_at(self.text@, self.tokens@, pos as int) == Ok::<
                    (ExprView, int),
                    ParseError,
                >((expr@, next as int)),
                Err(e) => expr_at(self.text@, self.tokens@, pos as int) == Err::<
                    (ExprView, int),
                    ParseError,
                >(e),
            },
        decreases self.tokens.len() - pos, 4int,
    {
        proof {
            lemma_factor_advances(self.text@, self.tokens@, pos as int);
        }
        match self.factor(pos) {
            Ok((left, next)) => self.expr_rest(left, next),
            Err(e) => Err(e),
        }
    }

    /// What was read, where it is the whole line.
    fn whole(&self, parsed: Result<(Expr, usize), ParseError>) -> (expr: Result<Expr, ParseError>)
        requires
            self.wf(),
        ensures
            match (parsed, expr) {
                (Ok((read, next)), Ok(expr)) => expr == read && whole(
                    self.tokens@,
                    Ok((read@, next as int)),
                ) == Ok::<ExprView, ParseError>(read@),
                (Ok((read, next)), Err(e)) => whole(self.tokens@, Ok((read@, next as int))) == Err::<
                    ExprView,
                    ParseError,
                >(e),
                (Err(found), Err(e)) => e == found,
                (Err(_), Ok(_)) => false,
            },
    {
        match parsed {
            Err(e) => Err(e),
            Ok((expr, next)) => {
                if next < self.tokens.len() {
                    Err(
                        ParseError::ExtraToken {
                            start: self.tokens[next].start,
                            end: self.tokens[next].end,
                        },
                    )
                } else {
                    Ok(expr)
                }
            },
        }
    }
}

/// The reader of terms.
pub struct TermParser {}

impl TermParser {
    /// A reader of terms.
    pub fn new() -> TermParser {
        TermParser {  }
    }

    /// Reads `input` as a term that fills the whole line.
    pub fn parse(&self, input: &str) -> (term: Result<Expr, ParseError>)
        ensures
            match term {
                Ok(expr) => parsed_term(input@) == Ok::<ExprView, ParseError>(expr@),
                Err(e) => parsed_term(input@) == Err::<ExprView, ParseError>(e),
            },
    {
        let source = match Source::new(input) {
            Ok(source) => source,
            Err(e) => {
                return Err(e);
            },
        };
        let parsed = source.term(0);
        source.whole(parsed)
    }
}

/// The display policy that the keyword of kind `kind` asks for.
fn mode_for(kind: TokenKind) -> (mode: Option<IdentReprMode>)
    ensures
        mode == display_mode(kind),
{
    match kind {
        TokenKind::Eager => Some(IdentReprMode::Eager),
        TokenKind::Lazy => Some(IdentReprMode::Lazy),
        TokenKind::Mixed => Some(IdentReprMode::Mixed),
        _ => None,
    }
}

/// The reader of statements.
pub struct StatementParser {}

impl StatementParser {
    /// A reader of statements.
    pub fn new() -> StatementParser {
        StatementParser {  }
    }

    /// Reads `input` as a statement that fills the whole line.
    pub fn parse(&self, input: &str) -> (statement: Result<Statement, ParseError>)
        ensures
            match statement {
                Ok(statement) => parsed_statement(input@) == Ok::<StatementView, ParseError>(
                    statement@,
                ),
                Err(e) => parsed_statement(input@) == Err::<StatementView, ParseError>(e),
            },
    {
        let source = match Source::new(input) {
            Ok(source) => source,
            Err(e) => {
                return Err(e);
            },
        };
        if source.tokens.len() == 0 {
            return Err(source.unexpected(0));
        }
        let first = source.tokens[0];
        match first.kind {
            TokenKind::Print => {
                let parsed = source.expr(1);
                match source.whole(parsed) {
                    Ok(expr) => Ok(Statement::Print(expr)),
                    Err(e) => Err(e),
                }
            },
            TokenKind::Ident => {
                if source.tokens.len() >= 2 && source.tokens[1].kind == TokenKind::Equals {
                    let name = String::from_str(
                        source.text.substring_char(first.start, first.end),
                    );
                    let parsed = source.expr(2);
                    match source.whole(parsed) {
                        Ok(expr) => Ok(Statement::Assign(name, expr)),
                        Err(e) => Err(e),
                    }
                } else {
                    Err(source.unexpected(1))
                }
            },
            kind => match mode_for(kind) {
                Some(mode) => {
                    let parsed = source.expr(1);
                    match source.whole(parsed) {
                        Ok(expr) => Ok(Statement::Repr(mode, expr)),
                        Err(e) => Err(e),
                    }
                },
                None => Err(source.unexpected(0)),
            },
        }
    }
}

} // verus!
