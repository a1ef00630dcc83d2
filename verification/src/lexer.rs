//! Cutting a line of text into tokens.

use vstd::prelude::*;
use vstd::string::StringExecFns;
use crate::text::digits;
use crate::text::write_digits;

verus! {

/// What a token is.
#[derive(Debug, Clone, Copy, PartialEq, Eq, Structural)]
pub enum TokenKind {
    /// A run of decimal digits.
    Num,
    /// A word that is no keyword.
    Ident,
    Plus,
    Minus,
    Star,
    Slash,
    LParen,
    RParen,
    Equals,
    /// The keyword `print`.
    Print,
    /// The keyword `eager`.
    Eager,
    /// The keyword `lazy`.
    Lazy,
    /// The keyword `mixed`.
    Mixed,
    /// The keyword `resolve`.
    Resolve,
}

/// A token: its kind, and the characters of the line that it spans, from
/// `start` up to `end`, counted in characters.
#[derive(Debug, Clone, Copy)]
pub struct Token {
    pub kind: TokenKind,
    pub start: usize,
    pub end: usize,
}

/// Why a line is none of the language. Places count characters from the
/// start of the line.
#[derive(Debug, Clone, Copy)]
pub enum ParseError {
    /// No token begins with the character at `location`.
    InvalidToken { location: usize },
    /// The line ends, at `location`, where more had to follow.
    UnrecognizedEof { location: usize },
    /// The token from `start` to `end` cannot stand where it is.
    UnrecognizedToken { start: usize, end: usize },
    /// The line was complete before the token from `start` to `end`.
    ExtraToken { start: usize, end: usize },
    /// The number from `start` to `end` is more than a 32-bit signed
    /// integer holds.
    NumberTooLarge { start: usize, end: usize },
}

impl ParseError {
    /// The message that describes the error.
    pub open spec fn text(self) -> Seq<char> {
        match self {
            ParseError::InvalidToken { location } => "Invalid token at "@ + digits(location as nat),
            ParseError::UnrecognizedEof { location } => "Unrecognized EOF found at "@ + digits(
                location as nat,
            ),
            ParseError::UnrecognizedToken { start, end } => "Unrecognized token found at "@
                + digits(start as nat) + ":"@ + digits(end as nat),
            ParseError::ExtraToken { start, end } => "Extra token found at "@ + digits(start as nat)
                + ":"@ + digits(end as nat),
            ParseError::NumberTooLarge { start, end } => "Number too large at "@ + digits(
                start as nat,
            ) + ":"@ + digits(end as nat),
        }
    }

    /// The message that describes the error, as a string.
    pub fn to_string(&self) -> (s: String)
        ensures
            s@ == self.text(),
    {
        let mut out = String::new();
        match self {
            ParseError::InvalidToken { location } => {
                out.append("Invalid token at ");
                write_digits(*location as u64, &mut out);
                assert(out@ == "Invalid token at "@ + digits(*location as nat));
            },
            ParseError::UnrecognizedEof { location } => {
                out.append("Unrecognized EOF found at ");
                write_digits(*location as u64, &mut out);
                assert(out@ == "Unrecognized EOF found at "@ + digits(*location as nat));
            },
            ParseError::UnrecognizedToken { start, end } => {
                out.append("Unrecognized token found at ");
                write_span(*start, *end, &mut out);
                assert(out@ == "Unrecognized token found at "@ + digits(*start as nat) + ":"@
                    + digits(*end as nat));
            },
            ParseError::ExtraToken { start, end } => {
                out.append("Extra token found at ");
                write_span(*start, *end, &mut out);
                assert(out@ == "Extra token found at "@ + digits(*start as nat) + ":"@ + digits(
                    *end as nat,
                ));
            },
            ParseError::NumberTooLarge { start, end } => {
                out.append("Number too large at ");
                write_span(*start, *end, &mut out);
                assert(out@ == "Number too large at "@ + digits(*start as nat) + ":"@ + digits(
                    *end as nat,
                ));
            },
        }
        out
    }
}

/// Appends `start`, a colon and `end` to `out`.
fn write_span(start: usize, end: usize, out: &mut String)
    ensures
        final(out)@ == old(out)@ + digits(start as nat) + ":"@ + digits(end as nat),
{
    write_digits(start as u64, out);
    out.append(":");
    write_digits(end as u64, out);
}

/// Whether `c` separates tokens: a space, a tab, a line feed or a carriage return.
pub open spec fn is_space(c: char) -> bool {
    c == ' ' || c == '\t' || c == '\n' || c == '\r'
}

/// Whether `c` is a decimal digit.
pub open spec fn is_digit(c: char) -> bool {
    '0' <= c && c <= '9'
}

/// Whether a word may begin with `c`: an ASCII letter or an underscore.
pub open spec fn is_letter(c: char) -> bool {
    ('a' <= c && c <= 'z') || ('A' <= c && c <= 'Z') || c == '_'
}

/// The end of the run of digits that begins at `pos`.
pub open spec fn digits_end(text: Seq<char>, pos: int) -> int
    decreases text.len() - pos,
{
    if 0 <= pos < text.len() && is_digit(text[pos]) {
        digits_end(text, pos + 1)
    } else {
        pos
    }
}

/// The end of the run of letters and digits that begins at `pos`.
pub open spec fn word_end(text: Seq<char>, pos: int) -> int
    decreases text.len() - pos,
{
    if 0 <= pos < text.len() && (is_letter(text[pos]) || is_digit(text[pos])) {
        word_end(text, pos + 1)
    } else {
        pos
    }
}

/// The kind of the token that is the one character `c`, if there is one.
pub open spec fn symbol_kind(c: char) -> Option<TokenKind> {
    if c == '+' {
        Some(TokenKind::Plus)
    } else if c == '-' {
        Some(TokenKind::Minus)
    } else if c == '*' {
        Some(TokenKind::Star)
    } else if c == '/' {
        Some(TokenKind::Slash)
    } else if c == '(' {
        Some(TokenKind::LParen)
    } else if c == ')' {
        Some(TokenKind::RParen)
    } else if c == '=' {
        Some(TokenKind::Equals)
    } else {
        None
    }
}

/// The kind of the token that is the word `word`: that of the keyword, or
/// `Ident` where the word is none.
pub open spec fn word_kind(word: Seq<char>) -> TokenKind {
    if word == "print"@ {
        TokenKind::Print
    } else if word == "eager"@ {
        TokenKind::Eager
    } else if word == "lazy"@ {
        TokenKind::Lazy
    } else if word == "mixed"@ {
        TokenKind::Mixed
    } else if word == "resolve"@ {
        TokenKind::Resolve
    } else {
        TokenKind::Ident
    }
}

/// The kind of the token that begins at `pos`, the longest there is, and
/// where it ends; `None` where no token begins with the character at `pos`.
pub open spec fn token_at(text: Seq<char>, pos: int) -> Option<(TokenKind, int)>
    recommends
        0 <= pos < text.len(),
{
    let c = text[pos];
    if is_digit(c) {
        Some((TokenKind::Num, digits_end(text, pos)))
    } else if is_letter(c) {
        Some((word_kind(text.subrange(pos, word_end(text, pos))), word_end(text, pos)))
    } else {
        match symbol_kind(c) {
            Some(kind) => Some((kind, pos + 1)),
            None => None,
        }
    }
}

/// A run ends between where it begins and the end of the text, and past its
/// first character where that belongs to it.
pub proof fn lemma_run_ends(text: Seq<char>, pos: int)
    requires
        0 <= pos <= text.len(),
    ensures
        pos <= digits_end(text, pos) <= text.len(),
        pos <= word_end(text, pos) <= text.len(),
        pos < text.len() && is_digit(text[pos]) ==> pos < digits_end(text, pos),
        pos < text.len() && is_letter(text[pos]) ==> pos < word_end(text, pos),
    decreases text.len() - pos,
{
    if pos < text.len() {
        lemma_run_ends(text, pos + 1);
    }
}

/// The tokens of `text` from `pos` on, or the first error: the characters
/// that separate tokens are passed over, and each token is the longest that
/// begins where the one before it ended.
pub open spec fn tokens_from(text: Seq<char>, pos: int) -> Result<Seq<Token>, ParseError>
    decreases text.len() - pos,
{
    if pos < 0 || pos >= text.len() {
        Ok(Seq::empty())
    } else if is_space(text[pos]) {
        tokens_from(text, pos + 1)
    } else {
        match token_at(text, pos) {
            None => Err(ParseError::InvalidToken { location: pos as usize }),
            Some((kind, end)) => {
                proof {
                    lemma_run_ends(text, pos);
                }
                match tokens_from(text, end) {
                    Ok(rest) => Ok(
                        seq![Token { kind, start: pos as usize, end: end as usize }] + rest,
                    ),
                    Err(e) => Err(e),
                }
            },
        }
    }
}

/// The tokens of `text`, or the first error.
pub open spec fn tokens_of(text: Seq<char>) -> Result<Seq<Token>, ParseError> {
    tokens_from(text, 0)
}

/// Whether each token spans at least one character of a text of `len`
/// characters.
pub open spec fn spans_within(tokens: Seq<Token>, len: int) -> bool {
    forall|i: int| 0 <= i < tokens.len() ==> (#[trigger] tokens[i]).start < tokens[i].end <= len
}

/// The characters of `text`.
pub(crate) fn chars_of(text: &str) -> (chars: Vec<char>)
    ensures
        chars@ == text@,
{
    let mut chars: Vec<char> = Vec::new();
    for c in it: text.chars()
        invariant
            chars@ == it.seq().take(it.index()),
            it.seq() == text@,
    {
        chars.push(c);
    }
    chars
}

/// Whether `c` separates tokens.
fn space(c: char) -> (b: bool)
    ensures
        b == is_space(c),
{
    c == ' ' || c == '\t' || c == '\n' || c == '\r'
}

/// Whether `c` is a decimal digit.
fn digit(c: char) -> (b: bool)
    ensures
        b == is_digit(c),
{
    '0' <= c && c <= '9'
}

/// Whether a word may begin with `c`.
fn letter(c: char) -> (b: bool)
    ensures
        b == is_letter(c),
{
    ('a' <= c && c <= 'z') || ('A' <= c && c <= 'Z') || c == '_'
}

/// The kind of the token that is the one character `c`, if there is one.
fn symbol(c: char) -> (kind: Option<TokenKind>)
    ensures
        kind == symbol_kind(c),
{
    if c == '+' {
        Some(TokenKind::Plus)
    } else if c == '-' {
        Some(TokenKind::Minus)
    } else if c == '*' {
        Some(TokenKind::Star)
    } else if c == '/' {
        Some(TokenKind::Slash)
    } else if c == '(' {
        Some(TokenKind::LParen)
    } else if c == ')' {
        Some(TokenKind::RParen)
    } else if c == '=' {
        Some(TokenKind::Equals)
    } else {
        None
    }
}

/// The kind of the token that is the word `word`.
fn kind_of_word(word: &str) -> (kind: TokenKind)
    ensures
        kind == word_kind(word@),
{
    let word = String::from_str(word);
    if word == String::from_str("print") {
        TokenKind::Print
    } else if word == String::from_str("eager") {
        TokenKind::Eager
    } else if word == String::from_str("lazy") {
        TokenKind::Lazy
    } else if word == String::from_str("mixed") {
        TokenKind::Mixed
    } else if word == String::from_str("resolve") {
        TokenKind::Resolve
    } else {
        TokenKind::Ident
    }
}

/// The end of the run of digits that begins at `pos`.
fn scan_digits(chars: &Vec<char>, pos: usize) -> (end: usize)
    requires
        pos <= chars.len(),
    ensures
        end == digits_end(chars@, pos as int),
        pos <= end <= chars.len(),
{
    let mut end = pos;
    while end < chars.len() && digit(chars[end])
        invariant
            pos <= end <= chars.len(),
            digits_end(chars@, pos as int) == digits_end(chars@, end as int),
        decreases chars.len() - end,
    {
        end += 1;
    }
    end
}

/// The end of the run of letters and digits that begins at `pos`.
fn scan_word(chars: &Vec<char>, pos: usize) -> (end: usize)
    requires
        pos <= chars.len(),
    ensures
        end == word_end(chars@, pos as int),
        pos <= end <= chars.len(),
{
    let mut end = pos;
    while end < chars.len() && (letter(chars[end]) || digit(chars[end]))
        invariant
            pos <= end <= chars.len(),
            word_end(chars@, pos as int) == word_end(chars@, end as int),
        decreases chars.len() - end,
    {
        end += 1;
    }
    end
}

/// Cuts `text` into its tokens.
pub fn tokenize(text: &str) -> (tokens: Result<Vec<Token>, ParseError>)
    ensures
        match tokens {
            Ok(tokens) => tokens_of(text@) == Ok::<Seq<Token>, ParseError>(tokens@) && spans_within(
                tokens@,
                text@.len() as int,
            ),
            Err(e) => tokens_of(text@) == Err::<Seq<Token>, ParseError>(e),
        },
{
    let chars = chars_of(text);
    scan(text, &chars)
}

/// Cuts `text`, whose characters are `chars`, into its tokens.
pub(crate) fn scan(text: &str, chars: &Vec<char>) -> (tokens: Result<Vec<Token>, ParseError>)
    requires
        chars@ == text@,
    ensures
        match tokens {
            Ok(tokens) => tokens_of(text@) == Ok::<Seq<Token>, ParseError>(tokens@) && spans_within(
                tokens@,
                text@.len() as int,
            ),
            Err(e) => tokens_of(text@) == Err::<Seq<Token>, ParseError>(e),
        },
{
    let mut tokens: Vec<Token> = Vec::new();
    let mut pos: usize = 0;
    while pos < chars.len()
        invariant
            chars@ == text@,
            pos <= chars.len(),
            spans_within(tokens@, chars@.len() as int),
            tokens_of(chars@) == match tokens_from(chars@, pos as int) {
                Ok(rest) => Ok::<Seq<Token>, ParseError>(tokens@ + rest),
                Err(e) => Err(e),
            },
        decreases chars.len() - pos,
    {
        let c = chars[pos];
        proof {
            lemma_run_ends(chars@, pos as int);
        }
        if space(c) {
            pos += 1;
        } else {
            let token = if digit(c) {
                Token { kind: TokenKind::Num, start: pos, end: scan_digits(chars, pos) }
            } else if letter(c) {
                let end = scan_word(chars, pos);
                Token { kind: kind_of_word(text.substring_char(pos, end)), start: pos, end }
            } else {
                match symbol(c) {
                    Some(kind) => Token { kind, start: pos, end: pos + 1 },
                    None => {
                        return Err(ParseError::InvalidToken { location: pos });
                    },
                }
            };
            assert(token_at(chars@, pos as int) == Some((token.kind, token.end as int)));
            proof {
                let ghost before = tokens@;
                match tokens_from(chars@, token.end as int) {
                    Ok(rest) => {
                        assert(before + (seq![token] + rest) =~= before.push(token) + rest);
                    },
                    Err(_) => {},
                }
            }
            tokens.push(token);
            pos = token.end;
        }
    }
    assert(tokens@ + Seq::<Token>::empty() =~= tokens@);
    Ok(tokens)
}

} // verus!
