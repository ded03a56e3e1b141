//! Tokens and the tokenizer.

use crate::float::{float_literal, parse_bits, MAX_LITERAL_LEN};
use crate::text::{
    byte_offset, byte_offsets, chars_of, is_digit, parse_i64, parsed_int, string_of,
};
use std::ops::Range;
use std::rc::Rc;
use vstd::prelude::*;
use vstd::string::StrSliceExecFns;

verus! {

/// Why a piece of the source is no token.
#[derive(Debug, PartialEq, Clone, Copy, Default)]
pub enum LexingError {
    NumberParseError,
    InvalidEscape(char),
    UnexpectedEof,
    #[default]
    Other,
}

/// One token. A float is held as the bits of its IEEE-754 double.
#[derive(Debug, PartialEq)]
pub enum Token {
    LBracket,
    RBracket,
    Begin,
    Define,
    Assign,
    Lambda,
    If,
    Do,
    StringLiteral(Rc<String>),
    Symbol(String),
    Int(i64),
    Float(u64),
    Bool(bool),
    WhiteSpace,
    Comment,
}

/// The mathematical value of a [`Token`].
pub enum TokenView {
    LBracket,
    RBracket,
    Begin,
    Define,
    Assign,
    Lambda,
    If,
    Do,
    StringLiteral(Seq<char>),
    Symbol(Seq<char>),
    Int(i64),
    Float(u64),
    Bool(bool),
    WhiteSpace,
    Comment,
}

impl View for Token {
    type V = TokenView;

    open spec fn view(&self) -> TokenView {
        match self {
            Token::LBracket => TokenView::LBracket,
            Token::RBracket => TokenView::RBracket,
            Token::Begin => TokenView::Begin,
            Token::Define => TokenView::Define,
            Token::Assign => TokenView::Assign,
            Token::Lambda => TokenView::Lambda,
            Token::If => TokenView::If,
            Token::Do => TokenView::Do,
            Token::StringLiteral(s) => TokenView::StringLiteral(s@),
            Token::Symbol(s) => TokenView::Symbol(s@),
            Token::Int(i) => TokenView::Int(*i),
            Token::Float(f) => TokenView::Float(*f),
            Token::Bool(b) => TokenView::Bool(*b),
            Token::WhiteSpace => TokenView::WhiteSpace,
            Token::Comment => TokenView::Comment,
        }
    }
}


/// Where a piece of the source stands: the byte offsets of its start and
/// of its end.
pub type Span = Range<usize>;

impl Clone for Token {
    fn clone(&self) -> (r: Token)
        ensures
            r@ == self@,
    {
        match self {
            Token::LBracket => Token::LBracket,
            Token::RBracket => Token::RBracket,
            Token::Begin => Token::Begin,
            Token::Define => Token::Define,
            Token::Assign => Token::Assign,
            Token::Lambda => Token::Lambda,
            Token::If => Token::If,
            Token::Do => Token::Do,
            Token::StringLiteral(s) => Token::StringLiteral(crate::value::share(s)),
            Token::Symbol(s) => Token::Symbol(s.clone()),
            Token::Int(i) => Token::Int(*i),
            Token::Float(f) => Token::Float(*f),
            Token::Bool(b) => Token::Bool(*b),
            Token::WhiteSpace => Token::WhiteSpace,
            Token::Comment => Token::Comment,
        }
    }
}

/// The classes of character that a run is made of.
#[derive(Clone, Copy, PartialEq, Eq, Structural)]
pub enum Class {
    /// A space, a tab, a line feed or a form feed.
    Blank,
    /// A letter of the ASCII alphabet or one of `* + - / = < >`.
    Symbol,
    /// One of the ten digits.
    Digit,
    /// Anything but a line feed.
    Line,
}

/// Whether `c` is white space between tokens.
pub open spec fn is_blank(c: char) -> bool {
    c == ' ' || c == '\t' || c == '\n' || c == '\x0C'
}

/// Whether a symbol may hold `c`.
pub open spec fn is_symbol_char(c: char) -> bool {
    c == '*' || c == '+' || c == '-' || c == '/' || c == '=' || c == '<' || c == '>' || ('a' <= c
        <= 'z') || ('A' <= c <= 'Z')
}

/// Whether `c` is of class `class`.
pub open spec fn in_class(c: char, class: Class) -> bool {
    match class {
        Class::Blank => is_blank(c),
        Class::Symbol => is_symbol_char(c),
        Class::Digit => is_digit(c),
        Class::Line => c != '\n',
    }
}

/// Where the longest run of characters of class `class` that starts at
/// `pos` ends.
pub open spec fn run_end(src: Seq<char>, pos: int, class: Class) -> int
    decreases src.len() - pos,
{
    if 0 <= pos < src.len() && in_class(src[pos], class) {
        run_end(src, pos + 1, class)
    } else {
        pos
    }
}

/// Where the scan of a string literal ends, `pos` being a place inside it,
/// and whether the literal closes there. The scan stops behind the closing
/// quote; it stops short, unclosed, at the end of the source and behind a
/// backslash that no character other than a line feed follows.
pub open spec fn string_end(src: Seq<char>, pos: int) -> (int, bool)
    decreases src.len() - pos,
{
    if pos < 0 || pos >= src.len() {
        (pos, false)
    } else if src[pos] == '"' {
        (pos + 1, true)
    } else if src[pos] == '\\' {
        if pos + 1 < src.len() && src[pos + 1] != '\n' {
            string_end(src, pos + 2)
        } else {
            (pos + 1, false)
        }
    } else {
        string_end(src, pos + 1)
    }
}

/// The character that a backslash and `c` spell.
pub open spec fn escape(c: char) -> Option<char> {
    if c == 'n' {
        Some('\n')
    } else if c == 't' {
        Some('\t')
    } else if c == 'r' {
        Some('\r')
    } else if c == '"' {
        Some('"')
    } else if c == '\\' {
        Some('\\')
    } else {
        None
    }
}

/// The text that `src[from..to]` spells once its escapes are resolved, put
/// after `done`; the first escape that spells nothing is the error.
pub open spec fn unescaped(src: Seq<char>, from: int, to: int, done: Seq<char>) -> Result<
    Seq<char>,
    LexingError,
>
    decreases to - from,
{
    if from >= to {
        Ok(done)
    } else if src[from] != '\\' {
        unescaped(src, from + 1, to, done.push(src[from]))
    } else if from + 1 >= to {
        Err(LexingError::UnexpectedEof)
    } else {
        match escape(src[from + 1]) {
            Some(c) => unescaped(src, from + 2, to, done.push(c)),
            None => Err(LexingError::InvalidEscape(src[from + 1])),
        }
    }
}

/// What a piece of the source is.
pub enum Piece {
    /// White space or a comment.
    Skipped,
    Token(TokenView),
    Error(LexingError),
}

/// A piece of the source and the place behind it.
pub struct Step {
    pub piece: Piece,
    pub end: int,
}

/// The keyword that `text` spells.
pub open spec fn keyword(text: Seq<char>) -> Option<TokenView> {
    if text == "begin"@ {
        Some(TokenView::Begin)
    } else if text == "define"@ {
        Some(TokenView::Define)
    } else if text == "lambda"@ {
        Some(TokenView::Lambda)
    } else if text == "if"@ {
        Some(TokenView::If)
    } else if text == "do"@ {
        Some(TokenView::Do)
    } else {
        None
    }
}

/// The word that starts at `pos`: the longest run of symbol characters. It
/// is `set!` where the run is `set` and `!` follows, a keyword where it
/// spells one, and a symbol otherwise.
pub open spec fn word(src: Seq<char>, pos: int) -> Step {
    let end = run_end(src, pos, Class::Symbol);
    let text = src.subrange(pos, end);
    if text == "set"@ && end < src.len() && src[end] == '!' {
        Step { piece: Piece::Token(TokenView::Assign), end: end + 1 }
    } else {
        match keyword(text) {
            Some(k) => Step { piece: Piece::Token(k), end },
            None => Step { piece: Piece::Token(TokenView::Symbol(text)), end },
        }
    }
}

/// The integer that `src[pos..end]` spells, as a piece.
pub open spec fn int_piece(src: Seq<char>, pos: int, end: int) -> Step {
    Step {
        piece: match parsed_int(src.subrange(pos, end)) {
            Some(i) => Piece::Token(TokenView::Int(i)),
            None => Piece::Error(LexingError::NumberParseError),
        },
        end,
    }
}

/// The float that `src[pos..end]` spells, as a piece. A literal of more
/// than `MAX_LITERAL_LEN` characters is refused.
pub open spec fn float_piece(src: Seq<char>, pos: int, end: int) -> Step {
    Step {
        piece: if end - pos > MAX_LITERAL_LEN {
            Piece::Error(LexingError::NumberParseError)
        } else {
            match float_literal(src.subrange(pos, end)) {
                Some(bits) => Piece::Token(TokenView::Float(bits)),
                None => Piece::Error(LexingError::NumberParseError),
            }
        },
        end,
    }
}

/// Whether a number starts at `pos`: a digit, or a point and a digit, with
/// or without a minus sign before it.
pub open spec fn starts_number(src: Seq<char>, pos: int) -> bool {
    let at = if src[pos] == '-' {
        pos + 1
    } else {
        pos
    };
    at < src.len() && (is_digit(src[at]) || (src[at] == '.' && at + 1 < src.len() && is_digit(
        src[at + 1],
    )))
}

/// The number that starts at `pos`: the longest text of the shape
/// `-?[0-9]+`, an integer, or of the shape `-?[0-9]+[.][0-9]*` or
/// `-?[.][0-9]+`, a float.
pub open spec fn number(src: Seq<char>, pos: int) -> Step {
    let at = if src[pos] == '-' {
        pos + 1
    } else {
        pos
    };
    let whole = run_end(src, at, Class::Digit);
    if whole < src.len() && src[whole] == '.' {
        float_piece(src, pos, run_end(src, whole + 1, Class::Digit))
    } else {
        int_piece(src, pos, whole)
    }
}

/// The piece of the source that starts at `pos`.
pub open spec fn step(src: Seq<char>, pos: int) -> Step {
    let c = src[pos];
    if is_blank(c) {
        Step { piece: Piece::Skipped, end: run_end(src, pos, Class::Blank) }
    } else if c == ';' {
        Step { piece: Piece::Skipped, end: run_end(src, pos, Class::Line) }
    } else if c == '(' {
        Step { piece: Piece::Token(TokenView::LBracket), end: pos + 1 }
    } else if c == ')' {
        Step { piece: Piece::Token(TokenView::RBracket), end: pos + 1 }
    } else if c == '"' {
        let (end, closed) = string_end(src, pos + 1);
        if closed {
            Step {
                piece: match unescaped(src, pos + 1, end - 1, Seq::empty()) {
                    Ok(text) => Piece::Token(TokenView::StringLiteral(text)),
                    Err(e) => Piece::Error(e),
                },
                end,
            }
        } else {
            Step { piece: Piece::Error(LexingError::Other), end }
        }
    } else if c == '#' && pos + 1 < src.len() && (src[pos + 1] == 't' || src[pos + 1] == 'f') {
        Step { piece: Piece::Token(TokenView::Bool(src[pos + 1] == 't')), end: pos + 2 }
    } else if starts_number(src, pos) {
        number(src, pos)
    } else if is_symbol_char(c) {
        word(src, pos)
    } else {
        Step { piece: Piece::Error(LexingError::Other), end: pos + 1 }
    }
}

/// The tokens and the errors of a source, each with its span.
pub struct Lexed {
    pub tokens: Seq<(TokenView, Span)>,
    pub errors: Seq<(LexingError, Span)>,
}

/// The span of `src[from..to]` in bytes.
pub open spec fn span_of(src: Seq<char>, from: int, to: int) -> Span {
    Range { start: byte_offset(src, from) as usize, end: byte_offset(src, to) as usize }
}

/// The tokens and errors of `src[pos..]`, put after those of `sofar`.
pub open spec fn lexed(src: Seq<char>, pos: int, sofar: Lexed) -> Lexed
    decreases src.len() - pos,
{
    if pos < 0 || pos >= src.len() {
        sofar
    } else {
        let one = step(src, pos);
        let end = if pos < one.end <= src.len() {
            one.end
        } else {
            pos + 1
        };
        let span = span_of(src, pos, end);
        lexed(
            src,
            end,
            match one.piece {
                Piece::Skipped => sofar,
                Piece::Token(t) => Lexed {
                    tokens: sofar.tokens.push((t, span)),
                    errors: sofar.errors,
                },
                Piece::Error(e) => Lexed {
                    tokens: sofar.tokens,
                    errors: sofar.errors.push((e, span)),
                },
            },
        )
    }
}

/// What tokenizing `src` gives: its tokens where there is no error, its
/// errors where there is one.
pub open spec fn tokenized(src: Seq<char>) -> Result<
    Seq<(TokenView, Span)>,
    Seq<(LexingError, Span)>,
> {
    let all = lexed(src, 0, Lexed { tokens: Seq::empty(), errors: Seq::empty() });
    if all.errors.len() == 0 {
        Ok(all.tokens)
    } else {
        Err(all.errors)
    }
}

/// A run ends between its start and the end of the source.
pub proof fn lemma_run_end_bounds(src: Seq<char>, pos: int, class: Class)
    requires
        0 <= pos <= src.len(),
    ensures
        pos <= run_end(src, pos, class) <= src.len(),
        pos < src.len() && in_class(src[pos], class) ==> pos < run_end(src, pos, class),
    decreases src.len() - pos,
{
    if pos < src.len() && in_class(src[pos], class) {
        lemma_run_end_bounds(src, pos + 1, class);
    }
}

/// The scan of a string literal ends between its start and the end of the
/// source, and behind the closing quote where there is one.
pub proof fn lemma_string_end_bounds(src: Seq<char>, pos: int)
    requires
        0 <= pos <= src.len(),
    ensures
        pos <= string_end(src, pos).0 <= src.len(),
        string_end(src, pos).1 ==> pos < string_end(src, pos).0,
    decreases src.len() - pos,
{
    if pos < src.len() && src[pos] != '"' {
        if src[pos] == '\\' {
            if pos + 1 < src.len() && src[pos + 1] != '\n' {
                lemma_string_end_bounds(src, pos + 2);
            }
        } else {
            lemma_string_end_bounds(src, pos + 1);
        }
    }
}

/// Every piece of the source ends behind its start and not behind the end
/// of the source: the tokenizer always moves on.
pub proof fn law_step_advances(src: Seq<char>, pos: int)
    requires
        0 <= pos < src.len(),
    ensures
        pos < step(src, pos).end <= src.len(),
{
    lemma_run_end_bounds(src, pos, Class::Blank);
    lemma_run_end_bounds(src, pos, Class::Line);
    lemma_run_end_bounds(src, pos, Class::Symbol);
    lemma_string_end_bounds(src, pos + 1);
    let at = if src[pos] == '-' {
        pos + 1
    } else {
        pos
    };
    if at <= src.len() {
        lemma_run_end_bounds(src, at, Class::Digit);
        let whole = run_end(src, at, Class::Digit);
        if whole < src.len() {
            lemma_run_end_bounds(src, whole + 1, Class::Digit);
        }
    }
}

/// The mathematical values of a list of tokens with their spans.
pub open spec fn token_views(tokens: Seq<(Token, Span)>) -> Seq<(TokenView, Span)> {
    Seq::new(tokens.len(), |i: int| (tokens[i].0@, tokens[i].1))
}

fn of_class(c: char, class: Class) -> (r: bool)
    ensures
        r == in_class(c, class),
{
    match class {
        Class::Blank => c == ' ' || c == '\t' || c == '\n' || c == '\x0C',
        Class::Symbol => c == '*' || c == '+' || c == '-' || c == '/' || c == '=' || c == '<' || c
            == '>' || (c >= 'a' && c <= 'z') || (c >= 'A' && c <= 'Z'),
        Class::Digit => c >= '0' && c <= '9',
        Class::Line => c != '\n',
    }
}

fn scan_run(chars: &Vec<char>, pos: usize, class: Class) -> (r: usize)
    requires
        pos <= chars.len(),
    ensures
        r == run_end(chars@, pos as int, class),
        pos <= r <= chars.len(),
        pos < chars.len() && in_class(chars@[pos as int], class) ==> pos < r,
{
    let mut i: usize = pos;
    while i < chars.len() && of_class(chars[i], class)
        invariant
            pos <= i <= chars.len(),
            pos < chars.len() && in_class(chars@[pos as int], class) ==> pos < i || (i == pos
                && in_class(chars@[i as int], class)),
            run_end(chars@, pos as int, class) == run_end(chars@, i as int, class),
        decreases chars.len() - i,
    {
        i += 1;
    }
    i
}

fn scan_string(chars: &Vec<char>, pos: usize) -> (r: (usize, bool))
    requires
        pos <= chars.len(),
    ensures
        (r.0 as int, r.1) == string_end(chars@, pos as int),
        pos <= r.0 <= chars.len(),
        r.1 ==> pos < r.0,
{
    let mut i: usize = pos;
    loop
        invariant
            pos <= i <= chars.len(),
            string_end(chars@, pos as int) == string_end(chars@, i as int),
        decreases chars.len() - i,
    {
        if i >= chars.len() {
            return (i, false);
        }
        let c = chars[i];
        if c == '"' {
            return (i + 1, true);
        }
        if c == '\\' {
            if i + 1 < chars.len() && chars[i + 1] != '\n' {
                i += 2;
            } else {
                return (i + 1, false);
            }
        } else {
            i += 1;
        }
    }
}

fn parse_string(chars: &Vec<char>, from: usize, to: usize) -> (r: Result<Rc<String>, LexingError>)
    requires
        from <= to <= chars.len(),
    ensures
        match r {
            Ok(text) => unescaped(chars@, from as int, to as int, Seq::empty()) == Ok::<
                Seq<char>,
                LexingError,
            >(text@),
            Err(e) => unescaped(chars@, from as int, to as int, Seq::empty()) == Err::<
                Seq<char>,
                LexingError,
            >(e),
        },
{
    let mut result = String::new();
    let mut i: usize = from;
    while i < to
        invariant
            from <= i <= to <= chars.len(),
            unescaped(chars@, from as int, to as int, Seq::empty()) == unescaped(
                chars@,
                i as int,
                to as int,
                result@,
            ),
        decreases to - i,
    {
        let c = chars[i];
        if c == '\\' {
            if i + 1 >= to {
                return Err(LexingError::UnexpectedEof);
            }
            let e = chars[i + 1];
            if e == 'n' {
                result.push('\n');
            } else if e == 't' {
                result.push('\t');
            } else if e == 'r' {
                result.push('\r');
            } else if e == '"' {
                result.push('"');
            } else if e == '\\' {
                result.push('\\');
            } else {
                return Err(LexingError::InvalidEscape(e));
            }
            i += 2;
        } else {
            result.push(c);
            i += 1;
        }
    }
    Ok(Rc::new(result))
}

/// Whether `chars[from..to]` spells `word`.
fn spells(chars: &Vec<char>, from: usize, to: usize, word: &str) -> (r: bool)
    requires
        from <= to <= chars.len(),
    ensures
        r == (chars@.subrange(from as int, to as int) == word@),
{
    let n = word.unicode_len();
    if to - from != n {
        return false;
    }
    let mut i: usize = 0;
    while i < n
        invariant
            i <= n,
            n == word@.len(),
            to - from == n,
            from <= to <= chars.len(),
            forall|j: int| 0 <= j < i ==> chars@[from + j] == word@[j],
        decreases n - i,
    {
        if chars[from + i] != word.get_char(i) {
            assert(chars@.subrange(from as int, to as int)[i as int] != word@[i as int]);
            return false;
        }
        i += 1;
    }
    assert(chars@.subrange(from as int, to as int) =~= word@);
    true
}

/// The piece that starts at `pos`, as a token or an error, and its end.
fn next_piece(chars: &Vec<char>, pos: usize) -> (r: (Option<Result<Token, LexingError>>, usize))
    requires
        pos < chars.len(),
    ensures
        r.1 == step(chars@, pos as int).end,
        pos < r.1 <= chars.len(),
        match r.0 {
            None => step(chars@, pos as int).piece is Skipped,
            Some(Ok(t)) => step(chars@, pos as int).piece == Piece::Token(t@),
            Some(Err(e)) => step(chars@, pos as int).piece == Piece::Error(e),
        },
{
    let c = chars[pos];
    if c == ' ' || c == '\t' || c == '\n' || c == '\x0C' {
        return (None, scan_run(chars, pos, Class::Blank));
    }
    if c == ';' {
        return (None, scan_run(chars, pos, Class::Line));
    }
    if c == '(' {
        return (Some(Ok(Token::LBracket)), pos + 1);
    }
    if c == ')' {
        return (Some(Ok(Token::RBracket)), pos + 1);
    }
    if c == '"' {
        let (end, closed) = scan_string(chars, pos + 1);
        if !closed {
            return (Some(Err(LexingError::Other)), end);
        }
        return match parse_string(chars, pos + 1, end - 1) {
            Ok(text) => (Some(Ok(Token::StringLiteral(text))), end),
            Err(e) => (Some(Err(e)), end),
        };
    }
    if c == '#' && pos + 1 < chars.len() && (chars[pos + 1] == 't' || chars[pos + 1] == 'f') {
        return (Some(Ok(Token::Bool(chars[pos + 1] == 't'))), pos + 2);
    }
    let at: usize = if c == '-' {
        pos + 1
    } else {
        pos
    };
    if at < chars.len() && (of_class(chars[at], Class::Digit) || (chars[at] == '.' && at + 1
        < chars.len() && of_class(chars[at + 1], Class::Digit))) {
        let whole = scan_run(chars, at, Class::Digit);
        if whole < chars.len() && chars[whole] == '.' {
            let end = scan_run(chars, whole + 1, Class::Digit);
            if end - pos > MAX_LITERAL_LEN {
                return (Some(Err(LexingError::NumberParseError)), end);
            }
            let lexeme = string_of(chars, pos, end);
            return match parse_bits(lexeme.as_str()) {
                Some(bits) => (Some(Ok(Token::Float(bits))), end),
                None => (Some(Err(LexingError::NumberParseError)), end),
            };
        }
        return match parse_i64(chars, pos, whole) {
            Some(i) => (Some(Ok(Token::Int(i))), whole),
            None => (Some(Err(LexingError::NumberParseError)), whole),
        };
    }
    if of_class(c, Class::Symbol) {
        let end = scan_run(chars, pos, Class::Symbol);
        if spells(chars, pos, end, "set") && end < chars.len() && chars[end] == '!' {
            return (Some(Ok(Token::Assign)), end + 1);
        }
        let token = if spells(chars, pos, end, "begin") {
            Token::Begin
        } else if spells(chars, pos, end, "define") {
            Token::Define
        } else if spells(chars, pos, end, "lambda") {
            Token::Lambda
        } else if spells(chars, pos, end, "if") {
            Token::If
        } else if spells(chars, pos, end, "do") {
            Token::Do
        } else {
            Token::Symbol(string_of(chars, pos, end))
        };
        return (Some(Ok(token)), end);
    }
    (Some(Err(LexingError::Other)), pos + 1)
}

/// Splits `src` into tokens, each with its span. White space and comments,
/// which run from `;` to the end of the line, stand between tokens and give
/// none. Where some piece of the source is no token, the result is every
/// such piece with its span.
pub fn tokenize(src: &str) -> (r: Result<Vec<(Token, Span)>, Vec<(LexingError, Span)>>)
    ensures
        match r {
            Ok(tokens) => tokenized(src@) == Ok::<
                Seq<(TokenView, Span)>,
                Seq<(LexingError, Span)>,
            >(token_views(tokens@)),
            Err(errors) => tokenized(src@) == Err::<
                Seq<(TokenView, Span)>,
                Seq<(LexingError, Span)>,
            >(errors@),
        },
{
    let chars = chars_of(src);
    let offsets = byte_offsets(src, &chars);
    let mut tokens: Vec<(Token, Span)> = Vec::new();
    let mut errors: Vec<(LexingError, Span)> = Vec::new();
    let ghost start = Lexed { tokens: Seq::empty(), errors: Seq::empty() };
    let mut pos: usize = 0;
    assert(token_views(tokens@) =~= Seq::empty());
    while pos < chars.len()
        invariant
            pos <= chars.len(),
            chars@ == src@,
            offsets@.len() == chars@.len() + 1,
            forall|i: int| 0 <= i <= chars@.len() ==> #[trigger] offsets@[i] == byte_offset(chars@, i),
            lexed(chars@, 0, start) == lexed(
                chars@,
                pos as int,
                Lexed { tokens: token_views(tokens@), errors: errors@ },
            ),
        decreases chars.len() - pos,
    {
        let (piece, end) = next_piece(&chars, pos);
        let span = Range { start: offsets[pos], end: offsets[end] };
        assert(span == span_of(chars@, pos as int, end as int));
        match piece {
            None => {},
            Some(Ok(token)) => {
                let ghost before = token_views(tokens@);
                let ghost view = token@;
                tokens.push((token, span));
                assert(token_views(tokens@) =~= before.push((view, span)));
            },
            Some(Err(error)) => {
                errors.push((error, span));
            },
        }
        pos = end;
    }
    if errors.len() == 0 {
        Ok(tokens)
    } else {
        Err(errors)
    }
}

} // verus!
