//! What the writer of expressions writes, the reader of terms reads back.

use vstd::prelude::*;
use crate::ast::Expr;
use crate::ast::ExprView;
use crate::ast::OpCode;
use crate::calc::additive;
use crate::calc::digit_value;
use crate::calc::expr_at;
use crate::calc::expr_rest;
use crate::calc::factor_at;
use crate::calc::factor_rest;
use crate::calc::lexeme;
use crate::calc::multiplicative;
use crate::calc::number_value;
use crate::calc::parsed_term;
use crate::calc::term_at;
use crate::lexer::ParseError;
use crate::lexer::Token;
use crate::lexer::TokenKind;
use crate::lexer::digits_end;
use crate::lexer::is_digit;
use crate::lexer::is_letter;
use crate::lexer::is_space;
use crate::lexer::symbol_kind;
use crate::lexer::tokens_from;
use crate::lexer::tokens_of;
use crate::lexer::word_end;
use crate::lexer::word_kind;
use crate::text::digit_text;
use crate::text::digits;

verus! {

/// The text of a digit is the one character that counts as much.
proof fn lemma_digit_text(d: int)
    requires
        0 <= d < 10,
    ensures
        digit_text(d).len() == 1,
        is_digit(digit_text(d)[0]),
        digit_value(digit_text(d)[0]) == d,
{
    reveal_strlit("0");
    reveal_strlit("1");
    reveal_strlit("2");
    reveal_strlit("3");
    reveal_strlit("4");
    reveal_strlit("5");
    reveal_strlit("6");
    reveal_strlit("7");
    reveal_strlit("8");
    reveal_strlit("9");
}

/// The digits of a number are digits, at least one of them, and write the
/// number.
proof fn lemma_digits_write(n: nat)
    ensures
        digits(n).len() > 0,
        forall|k: int| 0 <= k < digits(n).len() ==> is_digit(#[trigger] digits(n)[k]),
        number_value(digits(n)) == n,
    decreases n,
{
    if n < 10 {
        lemma_digit_text(n as int);
        assert(digits(n).drop_last() =~= Seq::<char>::empty());
        assert(number_value(digits(n).drop_last()) == 0);
    } else {
        lemma_digits_write(n / 10);
        lemma_digit_text((n % 10) as int);
        let front = digits(n / 10);
        let last = digit_text((n % 10) as int);
        assert(digits(n) == front + last);
        assert(digits(n).drop_last() =~= front);
        assert(digits(n).last() == last[0]);
        assert forall|k: int| 0 <= k < digits(n).len() implies is_digit(#[trigger] digits(n)[k]) by {
            if k < front.len() {
                assert(digits(n)[k] == front[k]);
            } else {
                assert(digits(n)[k] == last[0]);
            }
        }
    }
}

/// Whether `word` can stand as a name: it begins with a letter or an
/// underscore, goes on with letters, digits and underscores, and is no
/// keyword.
pub open spec fn is_name(word: Seq<char>) -> bool {
    &&& word.len() > 0
    &&& is_letter(word[0])
    &&& forall|k: int| 0 <= k < word.len() ==> is_letter(#[trigger] word[k]) || is_digit(word[k])
    &&& word_kind(word) == TokenKind::Ident
}

/// Whether `expr` can be written down and read again: its literals are not
/// negative, and its names can stand as names.
pub open spec fn writable(expr: Expr) -> bool
    decreases expr,
{
    match expr {
        Expr::Num(n) => n >= 0,
        Expr::Ident(name) => is_name(name@),
        Expr::Op(a, _, b) => writable(*a) && writable(*b),
        Expr::Resolve(inner) => writable(*inner),
    }
}

/// Whether `piece` stands in `text` from place `at` on, and what follows it
/// there, if anything does, is neither a letter nor a digit.
pub open spec fn stands(text: Seq<char>, at: int, piece: Seq<char>) -> bool {
    &&& 0 <= at
    &&& at + piece.len() <= text.len()
    &&& text.subrange(at, at + piece.len()) == piece
    &&& at + piece.len() < text.len() ==> !is_letter(text[at + piece.len()]) && !is_digit(
        text[at + piece.len()],
    )
}

/// The kind of the token that writes `op`.
pub open spec fn kind_of(op: OpCode) -> TokenKind {
    match op {
        OpCode::Add => TokenKind::Plus,
        OpCode::Sub => TokenKind::Minus,
        OpCode::Mul => TokenKind::Star,
        OpCode::Div => TokenKind::Slash,
    }
}

/// The token of kind `kind` from `start` to `end`.
pub open spec fn token(kind: TokenKind, start: int, end: int) -> Token {
    Token { kind, start: start as usize, end: end as usize }
}

/// The tokens of the text of `expr`, where that text begins at place `at`.
pub open spec fn written_tokens(expr: Expr, at: int) -> Seq<Token>
    decreases expr,
{
    match expr {
        Expr::Num(_) => seq![token(TokenKind::Num, at, at + expr.text().len())],
        Expr::Ident(_) => seq![token(TokenKind::Ident, at, at + expr.text().len())],
        Expr::Op(a, op, b) => {
            let op_at = at + 1 + a.text().len() + 1;
            seq![token(TokenKind::LParen, at, at + 1)] + written_tokens(*a, at + 1) + seq![
                token(kind_of(op), op_at, op_at + 1),
            ] + written_tokens(*b, op_at + 2) + seq![
                token(TokenKind::RParen, op_at + 2 + b.text().len(), op_at + 3 + b.text().len()),
            ]
        },
        Expr::Resolve(inner) => seq![token(TokenKind::Resolve, at, at + 7)] + written_tokens(
            *inner,
            at + 8,
        ),
    }
}

/// `tokens` before what the rest of a line gives.
pub open spec fn before(tokens: Seq<Token>, rest: Result<Seq<Token>, ParseError>) -> Result<
    Seq<Token>,
    ParseError,
> {
    match rest {
        Ok(rest) => Ok(tokens + rest),
        Err(e) => Err(e),
    }
}

/// A run of digits that stands in a text is one token.
proof fn lemma_number_token(text: Seq<char>, at: int, piece: Seq<char>)
    requires
        stands(text, at, piece),
        piece.len() > 0,
        forall|k: int| 0 <= k < piece.len() ==> is_digit(#[trigger] piece[k]),
    ensures
        tokens_from(text, at) == before(
            seq![token(TokenKind::Num, at, at + piece.len())],
            tokens_from(text, at + piece.len()),
        ),
{
    lemma_digits_run(text, at, piece, 0);
    assert(text[at] == text.subrange(at, at + piece.len())[0]);
}

/// From each place in a run of digits that stands in a text, the digits go
/// on to the end of the run.
proof fn lemma_digits_run(text: Seq<char>, at: int, piece: Seq<char>, k: int)
    requires
        stands(text, at, piece),
        0 <= k <= piece.len(),
        forall|k: int| 0 <= k < piece.len() ==> is_digit(#[trigger] piece[k]),
    ensures
        digits_end(text, at + k) == at + piece.len(),
    decreases piece.len() - k,
{
    if k < piece.len() {
        assert(text[at + k] == text.subrange(at, at + piece.len())[k]);
        lemma_digits_run(text, at, piece, k + 1);
    }
}

/// From each place in a word that stands in a text, the letters and digits
/// go on to the end of the word.
proof fn lemma_word_run(text: Seq<char>, at: int, piece: Seq<char>, k: int)
    requires
        stands(text, at, piece),
        0 <= k <= piece.len(),
        forall|k: int| 0 <= k < piece.len() ==> is_letter(#[trigger] piece[k]) || is_digit(piece[k]),
    ensures
        word_end(text, at + k) == at + piece.len(),
    decreases piece.len() - k,
{
    if k < piece.len() {
        assert(text[at + k] == text.subrange(at, at + piece.len())[k]);
        lemma_word_run(text, at, piece, k + 1);
    }
}

/// A word that stands in a text is one token, of the kind of the word.
proof fn lemma_word_token(text: Seq<char>, at: int, piece: Seq<char>)
    requires
        stands(text, at, piece),
        piece.len() > 0,
        is_letter(piece[0]),
        forall|k: int| 0 <= k < piece.len() ==> is_letter(#[trigger] piece[k]) || is_digit(piece[k]),
    ensures
        tokens_from(text, at) == before(
            seq![token(word_kind(piece), at, at + piece.len())],
            tokens_from(text, at + piece.len()),
        ),
{
    lemma_word_run(text, at, piece, 0);
    assert(text[at] == text.subrange(at, at + piece.len())[0]);
}

/// A character that is a token by itself is one token.
proof fn lemma_symbol_token(text: Seq<char>, at: int, kind: TokenKind)
    requires
        0 <= at < text.len(),
        symbol_kind(text[at]) == Some(kind),
    ensures
        tokens_from(text, at) == before(seq![token(kind, at, at + 1)], tokens_from(text, at + 1)),
{
}


/// The text of an operation, part by part.
proof fn lemma_text_of_op(a: Expr, op: OpCode, b: Expr)
    ensures
        ({
            let t = Expr::Op(Box::new(a), op, Box::new(b)).text();
            let la = a.text().len() as int;
            let lb = b.text().len() as int;
            &&& t.len() == la + lb + 5
            &&& t[0] == '('
            &&& t.subrange(1, 1 + la) == a.text()
            &&& t[1 + la] == ' '
            &&& symbol_kind(t[2 + la]) == Some(kind_of(op))
            &&& t[3 + la] == ' '
            &&& t.subrange(4 + la, 4 + la + lb) == b.text()
            &&& t[4 + la + lb] == ')'
        }),
{
    reveal_strlit("(");
    reveal_strlit(")");
    reveal_strlit(" ");
    reveal_strlit("+");
    reveal_strlit("-");
    reveal_strlit("*");
    reveal_strlit("/");
    let t = Expr::Op(Box::new(a), op, Box::new(b)).text();
    let la = a.text().len() as int;
    let lb = b.text().len() as int;
    assert(t == "("@ + a.text() + " "@ + op.symbol() + " "@ + b.text() + ")"@);
    assert(op.symbol().len() == 1);
    assert(symbol_kind(op.symbol()[0]) == Some(kind_of(op)));
    assert(t.subrange(1, 1 + la) =~= a.text());
    assert(t.subrange(4 + la, 4 + la + lb) =~= b.text());
}

/// The text of a marked expression, part by part.
proof fn lemma_text_of_marked(inner: Expr)
    ensures
        ({
            let t = Expr::Resolve(Box::new(inner)).text();
            &&& t.len() == inner.text().len() + 8
            &&& t.subrange(0, 7) == "resolve"@
            &&& "resolve"@.len() == 7
            &&& is_letter("resolve"@[0])
            &&& forall|k: int| 0 <= k < 7 ==> is_letter(#[trigger] "resolve"@[k])
            &&& word_kind("resolve"@) == TokenKind::Resolve
            &&& t[7] == ' '
            &&& t.subrange(8, t.len() as int) == inner.text()
        }),
{
    reveal_strlit("resolve ");
    reveal_strlit("resolve");
    reveal_strlit("print");
    reveal_strlit("eager");
    reveal_strlit("lazy");
    reveal_strlit("mixed");
    let t = Expr::Resolve(Box::new(inner)).text();
    assert(t == "resolve "@ + inner.text());
    assert(t.subrange(0, 7) =~= "resolve"@);
    assert(t.subrange(8, t.len() as int) =~= inner.text());
}

/// `before` takes tokens one run after the other.
proof fn lemma_before_before(
    first: Seq<Token>,
    second: Seq<Token>,
    rest: Result<Seq<Token>, ParseError>,
)
    ensures
        before(first, before(second, rest)) == before(first + second, rest),
{
    match rest {
        Ok(rest) => {
            assert(first + (second + rest) =~= (first + second) + rest);
        },
        Err(_) => {},
    }
}

/// Where a piece stands in a text, so does each part of it that ends with
/// the piece or before a character of it that is neither a letter nor a digit.
proof fn lemma_part_stands(
    text: Seq<char>,
    at: int,
    piece: Seq<char>,
    offset: int,
    part: Seq<char>,
)
    requires
        stands(text, at, piece),
        0 <= offset,
        offset + part.len() <= piece.len(),
        piece.subrange(offset, offset + part.len()) == part,
        offset + part.len() < piece.len() ==> !is_letter(piece[offset + part.len()]) && !is_digit(
            piece[offset + part.len()],
        ),
    ensures
        stands(text, at + offset, part),
{
    let found = text.subrange(at, at + piece.len());
    assert(text.subrange(at + offset, at + offset + part.len()) =~= found.subrange(
        offset,
        offset + part.len(),
    ));
    if offset + part.len() < piece.len() {
        assert(text[at + (offset + part.len())] == found[offset + part.len()]);
    }
}

/// Where an operation stands in a text, so do its operands, each at its
/// place.
proof fn lemma_operands_stand(a: Expr, op: OpCode, b: Expr, text: Seq<char>, at: int)
    requires
        stands(text, at, Expr::Op(Box::new(a), op, Box::new(b)).text()),
    ensures
        stands(text, at + 1, a.text()),
        stands(text, at + 4 + a.text().len(), b.text()),
{
    lemma_text_of_op(a, op, b);
    let t = Expr::Op(Box::new(a), op, Box::new(b)).text();
    let la = a.text().len() as int;
    lemma_part_stands(text, at, t, 1, a.text());
    lemma_part_stands(text, at, t, 4 + la, b.text());
}

/// The tokens of a text in which an operation stands, from the tokens of
/// its operands.
proof fn lemma_tokens_of_op(a: Expr, op: OpCode, b: Expr, text: Seq<char>, at: int)
    requires
        stands(text, at, Expr::Op(Box::new(a), op, Box::new(b)).text()),
        tokens_from(text, at + 1) == before(
            written_tokens(a, at + 1),
            tokens_from(text, at + 1 + a.text().len()),
        ),
        tokens_from(text, at + 4 + a.text().len()) == before(
            written_tokens(b, at + 4 + a.text().len()),
            tokens_from(text, at + 4 + a.text().len() + b.text().len()),
        ),
    ensures
        tokens_from(text, at) == before(
            written_tokens(Expr::Op(Box::new(a), op, Box::new(b)), at),
            tokens_from(text, at + Expr::Op(Box::new(a), op, Box::new(b)).text().len()),
        ),
{
    lemma_text_of_op(a, op, b);
    let expr = Expr::Op(Box::new(a), op, Box::new(b));
    let t = expr.text();
    let la = a.text().len() as int;
    let lb = b.text().len() as int;
    let found = text.subrange(at, at + t.len());
    assert(text[at + 0] == found[0]);
    assert(text[at + (1 + la)] == found[1 + la]);
    assert(text[at + (2 + la)] == found[2 + la]);
    assert(text[at + (3 + la)] == found[3 + la]);
    assert(text[at + (4 + la + lb)] == found[4 + la + lb]);
    let rest = tokens_from(text, at + t.len());
    let t1 = seq![token(TokenKind::LParen, at, at + 1)];
    let t2 = written_tokens(a, at + 1);
    let t3 = seq![token(kind_of(op), at + 2 + la, at + 3 + la)];
    let t4 = written_tokens(b, at + 4 + la);
    let t5 = seq![token(TokenKind::RParen, at + 4 + la + lb, at + 5 + la + lb)];
    assert(tokens_from(text, at + 4 + la + lb) == before(t5, rest)) by {
        lemma_symbol_token(text, at + 4 + la + lb, TokenKind::RParen);
    }
    assert(tokens_from(text, at + 3 + la) == tokens_from(text, at + 4 + la));
    assert(tokens_from(text, at + 2 + la) == before(t3, tokens_from(text, at + 3 + la))) by {
        lemma_symbol_token(text, at + 2 + la, kind_of(op));
    }
    assert(tokens_from(text, at + 1 + la) == tokens_from(text, at + 2 + la));
    assert(tokens_from(text, at) == before(t1, tokens_from(text, at + 1))) by {
        lemma_symbol_token(text, at, TokenKind::LParen);
    }
    lemma_before_before(t4, t5, rest);
    lemma_before_before(t3, t4 + t5, rest);
    lemma_before_before(t2, t3 + (t4 + t5), rest);
    lemma_before_before(t1, t2 + (t3 + (t4 + t5)), rest);
    assert(t1 + (t2 + (t3 + (t4 + t5))) =~= t1 + t2 + t3 + t4 + t5);
    assert(written_tokens(expr, at) == t1 + t2 + t3 + t4 + t5);
}

/// Where a marked expression stands in a text, so do the word `resolve`
/// and what is marked, each at its place.
proof fn lemma_marked_stands(inner: Expr, text: Seq<char>, at: int)
    requires
        stands(text, at, Expr::Resolve(Box::new(inner)).text()),
    ensures
        stands(text, at, "resolve"@),
        "resolve"@.len() == 7,
        is_space(text[at + 7]),
        stands(text, at + 8, inner.text()),
{
    lemma_text_of_marked(inner);
    let t = Expr::Resolve(Box::new(inner)).text();
    assert(text[at + 7] == text.subrange(at, at + t.len())[7]);
    lemma_part_stands(text, at, t, 0, "resolve"@);
    lemma_part_stands(text, at, t, 8, inner.text());
}

/// The tokens of a text in which a writable expression stands, from the
/// place where it stands, are the tokens of the expression and then those
/// of what follows it.
proof fn lemma_written_tokens(expr: Expr, text: Seq<char>, at: int)
    requires
        writable(expr),
        stands(text, at, expr.text()),
    ensures
        tokens_from(text, at) == before(
            written_tokens(expr, at),
            tokens_from(text, at + expr.text().len()),
        ),
    decreases expr,
{
    match expr {
        Expr::Num(n) => {
            lemma_digits_write(n as nat);
            lemma_number_token(text, at, digits(n as nat));
        },
        Expr::Ident(name) => {
            lemma_word_token(text, at, name@);
        },
        Expr::Op(a, op, b) => {
            lemma_operands_stand(*a, op, *b, text, at);
            lemma_written_tokens(*a, text, at + 1);
            lemma_written_tokens(*b, text, at + 4 + a.text().len());
            lemma_tokens_of_op(*a, op, *b, text, at);
        },
        Expr::Resolve(inner) => {
            lemma_marked_stands(*inner, text, at);
            lemma_text_of_marked(*inner);
            lemma_word_token(text, at, "resolve"@);
            assert(tokens_from(text, at + 7) == tokens_from(text, at + 8));
            lemma_written_tokens(*inner, text, at + 8);
            lemma_before_before(
                seq![token(TokenKind::Resolve, at, at + 7)],
                written_tokens(*inner, at + 8),
                tokens_from(text, at + expr.text().len()),
            );
        },
    }
}

/// Whether the tokens of `piece` stand in `tokens` from place `i` on.
pub open spec fn holds(tokens: Seq<Token>, i: int, piece: Seq<Token>) -> bool {
    &&& 0 <= i
    &&& i + piece.len() <= tokens.len()
    &&& tokens.subrange(i, i + piece.len()) == piece
}

/// An expression is written with at least one token.
proof fn lemma_written_is_not_empty(expr: Expr, at: int)
    ensures
        written_tokens(expr, at).len() > 0,
{
}

/// Between parentheses, where a term, an operator and a term stand and a
/// closing parenthesis follows, the expression is the operation on the two.
proof fn lemma_operation_in_parentheses(
    text: Seq<char>,
    tokens: Seq<Token>,
    i: int,
    a: ExprView,
    a_end: int,
    op: OpCode,
    b: ExprView,
    b_end: int,
)
    requires
        0 <= i < a_end,
        a_end + 1 < b_end < tokens.len(),
        term_at(text, tokens, i) == Ok::<(ExprView, int), ParseError>((a, a_end)),
        tokens[a_end].kind == kind_of(op),
        term_at(text, tokens, a_end + 1) == Ok::<(ExprView, int), ParseError>((b, b_end)),
        tokens[b_end].kind == TokenKind::RParen,
    ensures
        expr_at(text, tokens, i) == Ok::<(ExprView, int), ParseError>(
            (ExprView::Op(Box::new(a), op, Box::new(b)), b_end),
        ),
{
    let both = ExprView::Op(Box::new(a), op, Box::new(b));
    assert(factor_rest(text, tokens, both, b_end) == Ok::<(ExprView, int), ParseError>(
        (both, b_end),
    ));
    assert(factor_rest(text, tokens, b, b_end) == Ok::<(ExprView, int), ParseError>((b, b_end)));
    assert(expr_rest(text, tokens, both, b_end) == Ok::<(ExprView, int), ParseError>(
        (both, b_end),
    ));
    if multiplicative(kind_of(op)) is Some {
        assert(multiplicative(kind_of(op)) == Some(op));
        assert(factor_rest(text, tokens, a, a_end) == Ok::<(ExprView, int), ParseError>(
            (both, b_end),
        ));
        assert(factor_at(text, tokens, i) == Ok::<(ExprView, int), ParseError>((both, b_end)));
    } else {
        assert(additive(kind_of(op)) == Some(op));
        assert(factor_rest(text, tokens, a, a_end) == Ok::<(ExprView, int), ParseError>(
            (a, a_end),
        ));
        assert(factor_at(text, tokens, i) == Ok::<(ExprView, int), ParseError>((a, a_end)));
        assert(factor_at(text, tokens, a_end + 1) == Ok::<(ExprView, int), ParseError>(
            (b, b_end),
        ));
        assert(expr_rest(text, tokens, a, a_end) == Ok::<(ExprView, int), ParseError>(
            (both, b_end),
        ));
    }
}

/// Where the tokens of an operation stand, so do those of its parts.
proof fn lemma_parts_hold(a: Expr, op: OpCode, b: Expr, at: int, tokens: Seq<Token>, i: int)
    requires
        holds(tokens, i, written_tokens(Expr::Op(Box::new(a), op, Box::new(b)), at)),
    ensures
        ({
            let na = written_tokens(a, at + 1).len() as int;
            let nb = written_tokens(b, at + 4 + a.text().len()).len() as int;
            &&& written_tokens(Expr::Op(Box::new(a), op, Box::new(b)), at).len() == na + nb + 3
            &&& tokens[i].kind == TokenKind::LParen
            &&& holds(tokens, i + 1, written_tokens(a, at + 1))
            &&& tokens[i + 1 + na].kind == kind_of(op)
            &&& holds(tokens, i + 2 + na, written_tokens(b, at + 4 + a.text().len()))
            &&& tokens[i + 2 + na + nb].kind == TokenKind::RParen
        }),
{
    let la = a.text().len() as int;
    let lb = b.text().len() as int;
    let all = written_tokens(Expr::Op(Box::new(a), op, Box::new(b)), at);
    let t1 = seq![token(TokenKind::LParen, at, at + 1)];
    let t2 = written_tokens(a, at + 1);
    let t3 = seq![token(kind_of(op), at + 2 + la, at + 3 + la)];
    let t4 = written_tokens(b, at + 4 + la);
    let t5 = seq![token(TokenKind::RParen, at + 4 + la + lb, at + 5 + la + lb)];
    assert(all == t1 + t2 + t3 + t4 + t5);
    let na = t2.len() as int;
    let nb = t4.len() as int;
    let found = tokens.subrange(i, i + all.len());
    assert(tokens[i + 0] == found[0]);
    assert(tokens[i + (1 + na)] == found[1 + na]);
    assert(tokens[i + (2 + na + nb)] == found[2 + na + nb]);
    assert(tokens.subrange(i + 1, i + 1 + na) =~= found.subrange(1, 1 + na));
    assert(all.subrange(1, 1 + na) =~= t2);
    assert(tokens.subrange(i + 2 + na, i + 2 + na + nb) =~= found.subrange(
        2 + na,
        2 + na + nb,
    ));
    assert(all.subrange(2 + na, 2 + na + nb) =~= t4);
}

/// Where a writable expression stands in a text, and its tokens stand
/// among the tokens, the term at their place is the expression.
proof fn lemma_written_term(expr: Expr, text: Seq<char>, at: int, tokens: Seq<Token>, i: int)
    requires
        writable(expr),
        stands(text, at, expr.text()),
        text.len() <= usize::MAX,
        holds(tokens, i, written_tokens(expr, at)),
    ensures
        term_at(text, tokens, i) == Ok::<(ExprView, int), ParseError>(
            (expr@, i + written_tokens(expr, at).len()),
        ),
    decreases expr,
{
    let piece = written_tokens(expr, at);
    assert(tokens[i + 0] == tokens.subrange(i, i + piece.len())[0]);
    match expr {
        Expr::Num(n) => {
            lemma_digits_write(n as nat);
            assert(lexeme(text, tokens[i]) == digits(n as nat));
        },
        Expr::Ident(name) => {
            assert(lexeme(text, tokens[i]) == name@);
        },
        Expr::Op(a, op, b) => {
            let la = a.text().len() as int;
            lemma_operands_stand(*a, op, *b, text, at);
            lemma_parts_hold(*a, op, *b, at, tokens, i);
            lemma_written_is_not_empty(*a, at + 1);
            lemma_written_is_not_empty(*b, at + 4 + la);
            lemma_written_term(*a, text, at + 1, tokens, i + 1);
            let na = written_tokens(*a, at + 1).len() as int;
            lemma_written_term(*b, text, at + 4 + la, tokens, i + 2 + na);
            let nb = written_tokens(*b, at + 4 + la).len() as int;
            lemma_operation_in_parentheses(
                text,
                tokens,
                i + 1,
                a@,
                i + 1 + na,
                op,
                b@,
                i + 2 + na + nb,
            );
        },
        Expr::Resolve(inner) => {
            lemma_marked_stands(*inner, text, at);
            let rest = written_tokens(*inner, at + 8);
            let n = rest.len() as int;
            assert(piece == seq![token(TokenKind::Resolve, at, at + 7)] + rest);
            assert(tokens.subrange(i + 1, i + 1 + n) =~= tokens.subrange(
                i,
                i + piece.len(),
            ).subrange(1, 1 + n));
            assert(piece.subrange(1, 1 + n) =~= rest);
            lemma_written_term(*inner, text, at + 8, tokens, i + 1);
        },
    }
}

/// The text of a writable expression is read as a term, and the term is
/// the expression: what `Expr::to_string` writes, `TermParser::parse` reads
/// back. (The text must not be longer than the largest place that a token
/// can hold.)
pub proof fn law_written_term_reads_back(expr: Expr)
    requires
        writable(expr),
        expr.text().len() <= usize::MAX,
    ensures
        parsed_term(expr.text()) == Ok::<ExprView, ParseError>(expr@),
{
    let text = expr.text();
    let tokens = written_tokens(expr, 0);
    assert(text.subrange(0, text.len() as int) =~= text);
    lemma_written_tokens(expr, text, 0);
    assert(tokens_from(text, text.len() as int) == Ok::<Seq<Token>, ParseError>(Seq::empty()));
    assert(tokens + Seq::<Token>::empty() =~= tokens);
    assert(tokens_of(text) == Ok::<Seq<Token>, ParseError>(tokens));
    assert(tokens.subrange(0, tokens.len() as int) =~= tokens);
    lemma_written_term(expr, text, 0, tokens, 0);
}

} // verus!
