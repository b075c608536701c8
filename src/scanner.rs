//! Turns source text into tokens.
use vstd::prelude::*;
use crate::error::{Error, ErrorV};
use crate::number::{
    decimal_rat, decimal_text, dot_count, is_digit, Num,
};
use crate::token::{keyword, keyword_of, Literal, LiteralV, Token, TokenType, TokenV};

verus! {

pub open spec fn is_alpha(c: char) -> bool {
    ('a' <= c && c <= 'z') || ('A' <= c && c <= 'Z') || c == '_'
}

pub open spec fn is_alpha_numeric(c: char) -> bool {
    is_alpha(c) || is_digit(c)
}

/// The first index from `i` on that holds no digit.
pub open spec fn digits_end(src: Seq<char>, i: int) -> int
    decreases src.len() - i,
{
    if 0 <= i < src.len() && is_digit(src[i]) {
        digits_end(src, i + 1)
    } else {
        i
    }
}

/// The first index from `i` on that holds neither a letter, a digit nor `_`.
pub open spec fn word_end(src: Seq<char>, i: int) -> int
    decreases src.len() - i,
{
    if 0 <= i < src.len() && is_alpha_numeric(src[i]) {
        word_end(src, i + 1)
    } else {
        i
    }
}

/// The first index from `i` on that holds a newline, or the end.
pub open spec fn line_end(src: Seq<char>, i: int) -> int
    decreases src.len() - i,
{
    if 0 <= i < src.len() && src[i] != '\n' {
        line_end(src, i + 1)
    } else {
        i
    }
}

/// The first index from `i` on that holds `"`, or the end.
pub open spec fn quote_at(src: Seq<char>, i: int) -> int
    decreases src.len() - i,
{
    if 0 <= i < src.len() && src[i] != '"' {
        quote_at(src, i + 1)
    } else {
        i
    }
}

/// The index just past the first `*/` from `i` on, or the end.
pub open spec fn comment_close(src: Seq<char>, i: int) -> int
    decreases src.len() - i,
{
    if 0 <= i && i + 1 < src.len() {
        if src[i] == '*' && src[i + 1] == '/' {
            i + 2
        } else {
            comment_close(src, i + 1)
        }
    } else {
        src.len() as int
    }
}

/// How many newlines `src[a..b]` holds.
pub open spec fn newlines(src: Seq<char>, a: int, b: int) -> nat
    decreases b - a,
{
    if a < b {
        newlines(src, a, b - 1) + if src[b - 1] == '\n' {
            1nat
        } else {
            0nat
        }
    } else {
        0
    }
}

pub open spec fn plain_token(kind: TokenType, lexeme: Seq<char>, line: int) -> TokenV {
    TokenV { kind, lexeme, literal: None, line: line as nat }
}

/// What one scanning step at a position makes of the source.
pub enum Scanned {
    /// Nothing to emit: whitespace or a comment.
    Skip { next: int, line: int },
    /// One token.
    Emit { token: TokenV, next: int, line: int },
    /// A lexical error.
    Fail { error: ErrorV },
}

pub open spec fn lex_error(lexeme: Seq<char>, line: int, message: Seq<char>) -> Scanned {
    Scanned::Fail {
        error: ErrorV::CompileTime {
            token: Some(plain_token(TokenType::NIL, lexeme, line)),
            message,
        },
    }
}

/// A token of one character.
pub open spec fn single(src: Seq<char>, s: int, line: int, kind: TokenType) -> Scanned {
    Scanned::Emit { token: plain_token(kind, src.subrange(s, s + 1), line), next: s + 1, line }
}

/// A token of two characters when `=` follows, else of one.
pub open spec fn with_equal(
    src: Seq<char>,
    s: int,
    line: int,
    long: TokenType,
    short: TokenType,
) -> Scanned {
    if s + 1 < src.len() && src[s + 1] == '=' {
        Scanned::Emit { token: plain_token(long, src.subrange(s, s + 2), line), next: s + 2, line }
    } else {
        single(src, s, line, short)
    }
}

pub open spec fn scan_string(src: Seq<char>, s: int, line: int) -> Scanned {
    let q = quote_at(src, s + 1);
    if q >= src.len() {
        lex_error(src.subrange(s, src.len() as int), line, "Unterminated string"@)
    } else {
        let end_line = line + newlines(src, s + 1, q);
        Scanned::Emit {
            token: TokenV {
                kind: TokenType::STRING,
                lexeme: src.subrange(s, q + 1),
                literal: Some(LiteralV::Str(src.subrange(s + 1, q))),
                line: end_line as nat,
            },
            next: q + 1,
            line: end_line,
        }
    }
}

/// Digits, then a `.` and more digits if a `.` follows.
pub open spec fn number_end(src: Seq<char>, s: int) -> int {
    let e = digits_end(src, s);
    if e < src.len() && src[e] == '.' {
        digits_end(src, e + 1)
    } else {
        e
    }
}

pub open spec fn scan_number(src: Seq<char>, s: int, line: int) -> Scanned {
    let e = number_end(src, s);
    if e < src.len() && is_alpha(src[e]) {
        lex_error(src.subrange(e, e + 1), line, "Unexpected character. check your number"@)
    } else {
        Scanned::Emit {
            token: TokenV {
                kind: TokenType::NUMBER,
                lexeme: src.subrange(s, e),
                literal: Some(LiteralV::Number(decimal_rat(src.subrange(s, e)))),
                line: line as nat,
            },
            next: e,
            line,
        }
    }
}

pub open spec fn scan_word(src: Seq<char>, s: int, line: int) -> Scanned {
    let e = word_end(src, s);
    let text = src.subrange(s, e);
    let kind = match keyword(text) {
        Some(k) => k,
        None => TokenType::IDENTIFIER,
    };
    Scanned::Emit { token: plain_token(kind, text, line), next: e, line }
}

/// One scanning step at position `s` (within the source) on line `line`.
pub open spec fn scan_step(src: Seq<char>, s: int, line: int) -> Scanned {
    let c = src[s];
    if c == '(' {
        single(src, s, line, TokenType::LEFT_PAREN)
    } else if c == ')' {
        single(src, s, line, TokenType::RIGHT_PAREN)
    } else if c == '{' {
        single(src, s, line, TokenType::LEFT_BRACE)
    } else if c == '}' {
        single(src, s, line, TokenType::RIGHT_BRACE)
    } else if c == ',' {
        single(src, s, line, TokenType::COMMA)
    } else if c == '.' {
        single(src, s, line, TokenType::DOT)
    } else if c == '-' {
        single(src, s, line, TokenType::MINUS)
    } else if c == '+' {
        single(src, s, line, TokenType::PLUS)
    } else if c == ';' {
        single(src, s, line, TokenType::SEMICOLON)
    } else if c == '*' {
        single(src, s, line, TokenType::STAR)
    } else if c == ':' {
        single(src, s, line, TokenType::COLON)
    } else if c == '?' {
        single(src, s, line, TokenType::QUESTION)
    } else if c == '!' {
        with_equal(src, s, line, TokenType::BANG_EQUAL, TokenType::BANG)
    } else if c == '=' {
        with_equal(src, s, line, TokenType::EQUAL_EQUAL, TokenType::EQUAL)
    } else if c == '<' {
        with_equal(src, s, line, TokenType::LESS_EQUAL, TokenType::LESS)
    } else if c == '>' {
        with_equal(src, s, line, TokenType::GREATER_EQUAL, TokenType::GREATER)
    } else if c == '/' {
        if s + 1 < src.len() && src[s + 1] == '/' {
            Scanned::Skip { next: line_end(src, s + 2), line }
        } else if s + 1 < src.len() && src[s + 1] == '*' {
            let e = comment_close(src, s + 2);
            Scanned::Skip { next: e, line: line + newlines(src, s + 2, e) }
        } else {
            single(src, s, line, TokenType::SLASH)
        }
    } else if c == ' ' || c == '\r' || c == '\t' {
        Scanned::Skip { next: s + 1, line }
    } else if c == '\n' {
        Scanned::Skip { next: s + 1, line: line + 1 }
    } else if c == '"' {
        scan_string(src, s, line)
    } else if is_digit(c) {
        scan_number(src, s, line)
    } else if is_alpha(c) {
        scan_word(src, s, line)
    } else {
        lex_error(src.subrange(s, s + 1), line, "Unexpected character"@)
    }
}

/// The end-of-input token.
pub open spec fn eof_token(line: int) -> TokenV {
    plain_token(TokenType::EOF, Seq::empty(), line)
}

/// The tokens scanned from position `i` on, starting on line `line`, ended
/// by the end-of-input token; or the first lexical error.
pub open spec fn scan_from(src: Seq<char>, i: int, line: int) -> Result<Seq<TokenV>, ErrorV>
    decreases src.len() - i,
{
    if i < 0 || i >= src.len() {
        Ok(seq![eof_token(line)])
    } else {
        match scan_step(src, i, line) {
            Scanned::Skip { next, line: l } => {
                if i < next <= src.len() {
                    scan_from(src, next, l)
                } else {
                    Ok(seq![eof_token(line)])
                }
            },
            Scanned::Emit { token, next, line: l } => {
                if i < next <= src.len() {
                    match scan_from(src, next, l) {
                        Ok(rest) => Ok(seq![token] + rest),
                        Err(e) => Err(e),
                    }
                } else {
                    Ok(seq![eof_token(line)])
                }
            },
            Scanned::Fail { error } => Err(error),
        }
    }
}

/// What scanning a whole source gives: lines are counted from 1.
pub open spec fn scan_source(src: Seq<char>) -> Result<Seq<TokenV>, ErrorV> {
    scan_from(src, 0, 1)
}

proof fn lemma_digits_end_run(s: Seq<char>, i: int, m: int)
    requires
        0 <= i <= m <= s.len(),
        forall|j: int| i <= j < m ==> is_digit(#[trigger] s[j]),
        m == s.len() || !is_digit(s[m]),
    ensures
        digits_end(s, i) == m,
    decreases m - i,
{
    if i < m {
        lemma_digits_end_run(s, i + 1, m);
    }
}

proof fn lemma_no_dot(s: Seq<char>)
    requires
        dot_count(s) == 0,
    ensures
        forall|i: int| 0 <= i < s.len() ==> s[i] != '.',
    decreases s.len(),
{
    if s.len() > 0 {
        lemma_no_dot(s.drop_last());
        assert forall|i: int| 0 <= i < s.len() implies s[i] != '.' by {
            if i < s.len() - 1 {
                assert(s.drop_last()[i] == s[i]);
            }
        }
    }
}

proof fn lemma_one_dot(s: Seq<char>) -> (k: int)
    requires
        dot_count(s) == 1,
    ensures
        0 <= k < s.len(),
        s[k] == '.',
        forall|i: int| 0 <= i < s.len() && i != k ==> s[i] != '.',
    decreases s.len(),
{
    if s.last() == '.' {
        lemma_no_dot(s.drop_last());
        assert forall|i: int| 0 <= i < s.len() && i != s.len() - 1 implies s[i] != '.' by {
            assert(s.drop_last()[i] == s[i]);
        }
        s.len() - 1
    } else {
        let k = lemma_one_dot(s.drop_last());
        assert forall|i: int| 0 <= i < s.len() && i != k implies s[i] != '.' by {
            if i < s.len() - 1 {
                assert(s.drop_last()[i] == s[i]);
            }
        }
        k
    }
}

/// The number rule of the scanner takes in the whole of a decimal text.
proof fn lemma_number_end(s: Seq<char>)
    requires
        decimal_text(s),
    ensures
        number_end(s, 0) == s.len(),
{
    if dot_count(s) == 0 {
        lemma_no_dot(s);
        lemma_digits_end_run(s, 0, s.len() as int);
    } else {
        let k = lemma_one_dot(s);
        assert(forall|j: int| 0 <= j < k ==> is_digit(#[trigger] s[j]));
        lemma_digits_end_run(s, 0, k);
        assert(forall|j: int| k + 1 <= j < s.len() ==> is_digit(#[trigger] s[j]));
        lemma_digits_end_run(s, k + 1, s.len() as int);
    }
}

/// Scanning a source that is one number literal (digits, then possibly a
/// `.` and more digits) gives one NUMBER token, whose literal is exactly
/// `mantissa / 10^scale` of the text, and then the end of input.
pub proof fn lemma_scan_number_literal(src: Seq<char>)
    requires
        decimal_text(src),
    ensures
        scan_source(src) == Ok::<Seq<TokenV>, ErrorV>(
            seq![
                TokenV {
                    kind: TokenType::NUMBER,
                    lexeme: src,
                    literal: Some(LiteralV::Number(decimal_rat(src))),
                    line: 1,
                },
                eof_token(1),
            ],
        ),
{
    lemma_number_end(src);
    assert(src.subrange(0, src.len() as int) =~= src);
    let tok = TokenV {
        kind: TokenType::NUMBER,
        lexeme: src,
        literal: Some(LiteralV::Number(decimal_rat(src))),
        line: 1,
    };
    assert(scan_step(src, 0, 1) == (Scanned::Emit { token: tok, next: src.len() as int, line: 1 }));
    assert(scan_from(src, src.len() as int, 1) == Ok::<Seq<TokenV>, ErrorV>(seq![eof_token(1)]));
    assert(seq![tok] + seq![eof_token(1)] =~= seq![tok, eof_token(1)]);
}

proof fn lemma_dot_free(t: Seq<char>)
    requires
        forall|i: int| 0 <= i < t.len() ==> #[trigger] t[i] != '.',
    ensures
        dot_count(t) == 0,
    decreases t.len(),
{
    if t.len() > 0 {
        lemma_dot_free(t.drop_last());
    }
}

proof fn lemma_dot_at_most_one(t: Seq<char>, k: int)
    requires
        forall|i: int| 0 <= i < t.len() && i != k ==> #[trigger] t[i] != '.',
    ensures
        dot_count(t) <= 1,
    decreases t.len(),
{
    if t.len() > 0 {
        if k == t.len() - 1 {
            lemma_dot_free(t.drop_last());
        } else {
            lemma_dot_at_most_one(t.drop_last(), k);
        }
    }
}

/// What the number rule takes in is a decimal text.
proof fn lemma_number_lexeme(src: Seq<char>, s: int)
    requires
        0 <= s < src.len(),
        is_digit(src[s]),
    ensures
        decimal_text(src.subrange(s, number_end(src, s))),
{
    lemma_digits_run(src, s + 1);
    let e1 = digits_end(src, s);
    assert(e1 == digits_end(src, s + 1));
    let e = number_end(src, s);
    if e1 < src.len() && src[e1] == '.' {
        lemma_digits_run(src, e1 + 1);
    }
    let t = src.subrange(s, e);
    assert forall|i: int| 0 <= i < t.len() implies is_digit(#[trigger] t[i]) || t[i] == '.' by {
        if s + i < e1 || s + i > e1 {
            assert(is_digit(src[s + i]));
        }
    }
    lemma_dot_at_most_one(t, e1 - s);
}

/// Scanning from position `i` on line `line` arrives, step by step and
/// without error, at position `s` on line `l`.
pub open spec fn reaches(src: Seq<char>, i: int, line: int, s: int, l: int) -> bool
    decreases src.len() - i,
{
    if i == s {
        line == l
    } else if 0 <= i < s && i < src.len() {
        match scan_step(src, i, line) {
            Scanned::Skip { next, line: l2 } => i < next <= src.len() && reaches(src, next, l2, s, l),
            Scanned::Emit { token, next, line: l2 } => i < next <= src.len() && reaches(
                src,
                next,
                l2,
                s,
                l,
            ),
            Scanned::Fail { .. } => false,
        }
    } else {
        false
    }
}

proof fn lemma_newlines_split(src: Seq<char>, a: int, b: int, c: int)
    requires
        a <= b <= c,
    ensures
        newlines(src, a, c) == newlines(src, a, b) + newlines(src, b, c),
    decreases c - b,
{
    if b < c {
        lemma_newlines_split(src, a, b, c - 1);
    }
}

proof fn lemma_newlines_none(src: Seq<char>, a: int, b: int)
    requires
        a <= b,
        forall|j: int| a <= j < b ==> src[j] != '\n',
    ensures
        newlines(src, a, b) == 0,
    decreases b - a,
{
    if a < b {
        lemma_newlines_none(src, a, b - 1);
    }
}

proof fn lemma_newlines_one(src: Seq<char>, a: int)
    ensures
        newlines(src, a, a + 1) == if src[a] == '\n' {
            1nat
        } else {
            0nat
        },
{
    assert(newlines(src, a, a) == 0);
}

proof fn lemma_digits_run(src: Seq<char>, i: int)
    requires
        0 <= i <= src.len(),
    ensures
        i <= digits_end(src, i) <= src.len(),
        forall|j: int| i <= j < digits_end(src, i) ==> is_digit(#[trigger] src[j]),
    decreases src.len() - i,
{
    if i < src.len() && is_digit(src[i]) {
        lemma_digits_run(src, i + 1);
    }
}

proof fn lemma_word_run(src: Seq<char>, i: int)
    requires
        0 <= i <= src.len(),
    ensures
        i <= word_end(src, i) <= src.len(),
        forall|j: int| i <= j < word_end(src, i) ==> is_alpha_numeric(#[trigger] src[j]),
    decreases src.len() - i,
{
    if i < src.len() && is_alpha_numeric(src[i]) {
        lemma_word_run(src, i + 1);
    }
}

proof fn lemma_line_run(src: Seq<char>, i: int)
    requires
        0 <= i <= src.len(),
    ensures
        i <= line_end(src, i) <= src.len(),
        forall|j: int| i <= j < line_end(src, i) ==> #[trigger] src[j] != '\n',
    decreases src.len() - i,
{
    if i < src.len() && src[i] != '\n' {
        lemma_line_run(src, i + 1);
    }
}

proof fn lemma_quote_found(src: Seq<char>, i: int)
    requires
        0 <= i <= src.len(),
    ensures
        i <= quote_at(src, i) <= src.len(),
        quote_at(src, i) < src.len() ==> src[quote_at(src, i)] == '"',
    decreases src.len() - i,
{
    if i < src.len() && src[i] != '"' {
        lemma_quote_found(src, i + 1);
    }
}

proof fn lemma_no_quote(src: Seq<char>, i: int)
    requires
        0 <= i <= src.len(),
        forall|j: int| i <= j < src.len() ==> #[trigger] src[j] != '"',
    ensures
        quote_at(src, i) == src.len(),
    decreases src.len() - i,
{
    if i < src.len() {
        lemma_no_quote(src, i + 1);
    }
}

/// One step counts every newline it passes over.
proof fn lemma_step_lines(src: Seq<char>, i: int, line: int)
    requires
        0 <= i < src.len(),
    ensures
        match scan_step(src, i, line) {
            Scanned::Skip { next, line: l2 } => i < next <= src.len() ==> l2 == line + newlines(
                src,
                i,
                next,
            ),
            Scanned::Emit { next, line: l2, .. } => i < next <= src.len() ==> l2 == line
                + newlines(src, i, next),
            Scanned::Fail { .. } => true,
        },
{
    let c = src[i];
    lemma_newlines_one(src, i);
    if i + 1 < src.len() {
        lemma_newlines_one(src, i + 1);
        lemma_newlines_split(src, i, i + 1, i + 2);
    }
    if c == '/' && i + 1 < src.len() && src[i + 1] == '/' {
        lemma_line_run(src, i + 2);
        let e = line_end(src, i + 2);
        assert forall|j: int| i <= j < e implies src[j] != '\n' by {
            if j >= i + 2 {
                assert(src[j] != '\n');
            }
        }
        lemma_newlines_none(src, i, e);
    } else if c == '/' && i + 1 < src.len() && src[i + 1] == '*' {
        let e = comment_close(src, i + 2);
        if i + 2 <= e {
            lemma_newlines_split(src, i, i + 2, e);
            assert(newlines(src, i, i + 2) == 0);
        }
    } else if c == '"' {
        let q = quote_at(src, i + 1);
        lemma_quote_found(src, i + 1);
        if q < src.len() {
            lemma_newlines_split(src, i, i + 1, q);
            lemma_newlines_split(src, i, q, q + 1);
            lemma_newlines_one(src, q);
            assert(newlines(src, i, q + 1) == newlines(src, i + 1, q));
        }
    } else if is_digit(c) {
        lemma_digits_run(src, i);
        let e1 = digits_end(src, i);
        if e1 < src.len() && src[e1] == '.' {
            lemma_digits_run(src, e1 + 1);
        }
        let e = number_end(src, i);
        assert forall|j: int| i <= j < e implies src[j] != '\n' by {
            if j < e1 {
                assert(is_digit(src[j]));
            } else if j > e1 {
                assert(is_digit(src[j]));
            }
        }
        lemma_newlines_none(src, i, e);
        assert(newlines(src, i, e) == 0);
    } else if is_alpha(c) {
        lemma_word_run(src, i);
        let e = word_end(src, i);
        assert forall|j: int| i <= j < e implies src[j] != '\n' by {
            assert(is_alpha_numeric(src[j]));
        }
        lemma_newlines_none(src, i, e);
        assert(newlines(src, i, e) == 0);
    }
}

/// Scanning that reaches a position has counted the newlines before it.
pub proof fn lemma_reaches_lines(src: Seq<char>, i: int, line: int, s: int, l: int)
    requires
        reaches(src, i, line, s, l),
    ensures
        i <= s,
        l == line + newlines(src, i, s),
    decreases src.len() - i,
{
    if i != s {
        lemma_step_lines(src, i, line);
        match scan_step(src, i, line) {
            Scanned::Skip { next, line: l2 } => {
                lemma_reaches_lines(src, next, l2, s, l);
                lemma_newlines_split(src, i, next, s);
            },
            Scanned::Emit { next, line: l2, .. } => {
                lemma_reaches_lines(src, next, l2, s, l);
                lemma_newlines_split(src, i, next, s);
            },
            Scanned::Fail { .. } => {},
        }
    }
}

proof fn lemma_reaches_unterminated(src: Seq<char>, i: int, line: int, s: int, l: int)
    requires
        reaches(src, i, line, s, l),
        0 <= s < src.len(),
        src[s] == '"',
        quote_at(src, s + 1) >= src.len(),
    ensures
        scan_from(src, i, line) == Err::<Seq<TokenV>, ErrorV>(
            ErrorV::CompileTime {
                token: Some(plain_token(TokenType::NIL, src.subrange(s, src.len() as int), l)),
                message: "Unterminated string"@,
            },
        ),
    decreases src.len() - i,
{
    if i != s {
        match scan_step(src, i, line) {
            Scanned::Skip { next, line: l2 } => {
                lemma_reaches_unterminated(src, next, l2, s, l);
            },
            Scanned::Emit { next, line: l2, .. } => {
                lemma_reaches_unterminated(src, next, l2, s, l);
            },
            Scanned::Fail { .. } => {},
        }
    }
}

/// An unterminated string is reported on the line where it starts: when
/// scanning reaches an opening `"` that no later `"` closes, the source
/// fails to scan with an "Unterminated string" error whose token stands on
/// line 1 + the number of newlines before that quote, whatever newlines the
/// string itself holds.
pub proof fn lemma_unterminated_string_line(src: Seq<char>, s: int, l: int)
    requires
        reaches(src, 0, 1, s, l),
        0 <= s < src.len(),
        src[s] == '"',
        forall|j: int| s < j < src.len() ==> #[trigger] src[j] != '"',
    ensures
        l == 1 + newlines(src, 0, s),
        scan_source(src) == Err::<Seq<TokenV>, ErrorV>(
            ErrorV::CompileTime {
                token: Some(plain_token(TokenType::NIL, src.subrange(s, src.len() as int), l)),
                message: "Unterminated string"@,
            },
        ),
{
    lemma_reaches_lines(src, 0, 1, s, l);
    lemma_no_quote(src, s + 1);
    lemma_reaches_unterminated(src, 0, 1, s, l);
}

pub open spec fn tokens_view(ts: Seq<Token>) -> Seq<TokenV> {
    ts.map_values(|t: Token| t@)
}

pub open spec fn scan_result_view(r: Result<Vec<Token>, Error>) -> Result<Seq<TokenV>, ErrorV> {
    match r {
        Ok(ts) => Ok(tokens_view(ts@)),
        Err(e) => Err(e@),
    }
}

/// The characters of a string, in order.
fn chars_of(s: &str) -> (v: Vec<char>)
    ensures
        v@ == s@,
{
    let len = s.unicode_len();
    let mut v: Vec<char> = Vec::new();
    let mut i: usize = 0;
    while i < len
        invariant
            len == s@.len(),
            i <= len,
            v@ == s@.take(i as int),
        decreases len - i,
    {
        v.push(s.get_char(i));
        i = i + 1;
        assert(v@ =~= s@.take(i as int));
    }
    assert(s@.take(len as int) =~= s@);
    v
}

/// The scanner: the source, the tokens so far and the position reached.
pub struct Scanner {
    source: String,
    chars: Vec<char>,
    tokens: Vec<Token>,
    start: usize,
    current: usize,
    line: usize,
}

impl Scanner {
    pub closed spec fn src(&self) -> Seq<char> {
        self.chars@
    }

    pub closed spec fn pos(&self) -> int {
        self.current as int
    }

    pub closed spec fn line_no(&self) -> int {
        self.line as int
    }

    /// The tokens emitted so far.
    pub closed spec fn emitted(&self) -> Seq<TokenV> {
        tokens_view(self.tokens@)
    }

    /// A well-formed scanner stands within its source, on a line from 1 on.
    pub proof fn lemma_wf(&self)
        requires
            self.wf(),
        ensures
            0 <= self.pos() <= self.src().len(),
            self.src().len() < usize::MAX,
            self.line_no() >= 1,
    {
    }

    pub closed spec fn wf(&self) -> bool {
        &&& self.source@ == self.chars@
        &&& self.chars@.len() < usize::MAX
        &&& self.current <= self.chars@.len()
        &&& 1 <= self.line <= self.current + 1
    }

    /// What the scanner will hand back: the tokens so far, then those of the
    /// rest of the source; or the first lexical error in the rest.
    pub open spec fn pending(&self) -> Result<Seq<TokenV>, ErrorV> {
        match scan_from(self.src(), self.pos(), self.line_no()) {
            Ok(rest) => Ok(self.emitted() + rest),
            Err(e) => Err(e),
        }
    }

    pub open spec fn at_end(&self) -> bool {
        self.pos() >= self.src().len()
    }

    pub fn new(source: String) -> (r: Scanner)
        requires
            source@.len() < usize::MAX,
        ensures
            r.wf(),
            r.src() == source@,
            r.pending() == scan_source(source@),
    {
        let chars = chars_of(source.as_str());
        let r = Scanner { source, chars, tokens: Vec::new(), start: 0, current: 0, line: 1 };
        assert(tokens_view(r.tokens@) =~= Seq::<TokenV>::empty());
        proof {
            match scan_from(r.chars@, 0, 1) {
                Ok(rest) => {
                    assert(tokens_view(r.tokens@) + rest =~= rest);
                },
                Err(e) => {},
            }
        }
        r
    }

    /// Scans the rest of the source.
    pub fn scan_tokens(&mut self) -> (r: Result<Vec<Token>, Error>)
        requires
            old(self).wf(),
        ensures
            scan_result_view(r) == old(self).pending(),
    {
        while self.current < self.chars.len()
            invariant
                self.wf(),
                self.src() == old(self).src(),
                self.pending() == old(self).pending(),
            decreases self.chars@.len() - self.current,
        {
            let ghost prev = *self;
            self.scan_token()?;
            proof {
                match scan_step(prev.src(), prev.pos(), prev.line_no()) {
                    Scanned::Emit { token, next, line } => {
                        match scan_from(prev.src(), next, line) {
                            Ok(rest) => {
                                assert(prev.emitted() + (seq![token] + rest) =~= self.emitted() + rest);
                            },
                            Err(e) => {},
                        }
                    },
                    _ => {},
                }
            }
        }
        let eof = Token::new(TokenType::EOF, "", None, self.line);
        proof {
            reveal_strlit("");
            assert(eof@.lexeme =~= Seq::<char>::empty());
            assert(eof@ == eof_token(self.line as int));
        }
        let ghost before = self.tokens@;
        self.tokens.push(eof);
        assert(tokens_view(self.tokens@) =~= tokens_view(before) + seq![eof_token(self.line as int)]);
        let mut out: Vec<Token> = Vec::new();
        core::mem::swap(&mut out, &mut self.tokens);
        Ok(out)
    }
    /// The text of `source[a..b]` as a string.
    fn text_of(&self, a: usize, b: usize) -> (r: String)
        requires
            self.wf(),
            a <= b <= self.src().len(),
        ensures
            r@ == self.src().subrange(a as int, b as int),
    {
        self.source.as_str().substring_char(a, b).to_owned()
    }

    fn digits_end_exec(&self, i: usize) -> (r: usize)
        requires
            self.wf(),
            i <= self.src().len(),
        ensures
            r as int == digits_end(self.src(), i as int),
            i <= r <= self.src().len(),
            i < self.src().len() && is_digit(self.src()[i as int]) ==> i < r,
    {
        let mut j = i;
        while j < self.chars.len() && '0' <= self.chars[j] && self.chars[j] <= '9'
            invariant
                self.wf(),
                i <= j <= self.src().len(),
                digits_end(self.src(), j as int) == digits_end(self.src(), i as int),
            decreases self.src().len() - j,
        {
            j = j + 1;
        }
        j
    }

    fn word_end_exec(&self, i: usize) -> (r: usize)
        requires
            self.wf(),
            i <= self.src().len(),
        ensures
            r as int == word_end(self.src(), i as int),
            i <= r <= self.src().len(),
            i < self.src().len() && is_alpha(self.src()[i as int]) ==> i < r,
    {
        let mut j = i;
        while j < self.chars.len() && is_alpha_numeric_exec(self.chars[j])
            invariant
                self.wf(),
                i <= j <= self.src().len(),
                word_end(self.src(), j as int) == word_end(self.src(), i as int),
            decreases self.src().len() - j,
        {
            j = j + 1;
        }
        j
    }

    fn line_end_exec(&self, i: usize) -> (r: usize)
        requires
            self.wf(),
            i <= self.src().len(),
        ensures
            r as int == line_end(self.src(), i as int),
            i <= r <= self.src().len(),
    {
        let mut j = i;
        while j < self.chars.len() && self.chars[j] != '\n'
            invariant
                self.wf(),
                i <= j <= self.src().len(),
                line_end(self.src(), j as int) == line_end(self.src(), i as int),
            decreases self.src().len() - j,
        {
            j = j + 1;
        }
        j
    }

    fn quote_at_exec(&self, i: usize) -> (r: usize)
        requires
            self.wf(),
            i <= self.src().len(),
        ensures
            r as int == quote_at(self.src(), i as int),
            i <= r <= self.src().len(),
    {
        let mut j = i;
        while j < self.chars.len() && self.chars[j] != '"'
            invariant
                self.wf(),
                i <= j <= self.src().len(),
                quote_at(self.src(), j as int) == quote_at(self.src(), i as int),
            decreases self.src().len() - j,
        {
            j = j + 1;
        }
        j
    }

    fn comment_close_exec(&self, i: usize) -> (r: usize)
        requires
            self.wf(),
            i <= self.src().len(),
        ensures
            r as int == comment_close(self.src(), i as int),
            i <= r <= self.src().len(),
    {
        let mut j = i;
        while j + 1 < self.chars.len()
            invariant
                self.wf(),
                i <= j <= self.src().len(),
                comment_close(self.src(), j as int) == comment_close(self.src(), i as int),
            decreases self.src().len() - j,
        {
            if self.chars[j] == '*' && self.chars[j + 1] == '/' {
                return j + 2;
            }
            j = j + 1;
        }
        self.chars.len()
    }

    fn newlines_exec(&self, a: usize, b: usize) -> (r: usize)
        requires
            self.wf(),
            a <= b <= self.src().len(),
        ensures
            r == newlines(self.src(), a as int, b as int),
            r <= b - a,
    {
        let mut j = a;
        let mut n: usize = 0;
        while j < b
            invariant
                self.wf(),
                a <= j <= b,
                b <= self.src().len(),
                n == newlines(self.src(), a as int, j as int),
                n <= j - a,
            decreases b - j,
        {
            if self.chars[j] == '\n' {
                n = n + 1;
            }
            j = j + 1;
        }
        n
    }

    /// Emits a token without literal spanning `start..end` and moves past it.
    fn emit(&mut self, kind: TokenType, end: usize, literal: Option<Literal>)
        requires
            old(self).wf(),
            old(self).start <= end <= old(self).src().len(),
            old(self).current <= end,
        ensures
            final(self).wf(),
            final(self).src() == old(self).src(),
            final(self).pos() == end,
            final(self).line_no() == old(self).line_no(),
            final(self).start == old(self).start,
            final(self).emitted() == old(self).emitted().push(
                TokenV {
                    kind,
                    lexeme: old(self).src().subrange(old(self).start as int, end as int),
                    literal: match literal {
                        Some(l) => Some(l@),
                        None => None,
                    },
                    line: old(self).line_no() as nat,
                },
            ),
    {
        let lexeme = self.text_of(self.start, end);
        let t = Token { token_type: kind, lexeme, literal, line: self.line };
        let ghost before = self.tokens@;
        self.tokens.push(t);
        self.current = end;
        assert(tokens_view(self.tokens@) =~= tokens_view(before).push(t@));
    }

    /// Emits a one-character token, or a two-character one when `=` follows.
    fn emit_with_equal(&mut self, long: TokenType, short: TokenType)
        requires
            old(self).wf(),
            old(self).start == old(self).current,
            old(self).current < old(self).src().len(),
        ensures
            final(self).wf(),
            final(self).src() == old(self).src(),
            match with_equal(old(self).src(), old(self).pos(), old(self).line_no(), long, short) {
                Scanned::Emit { token, next, line } => final(self).pos() == next
                    && final(self).line_no() == line && final(self).emitted()
                    == old(self).emitted().push(token),
                _ => false,
            },
    {
        let s = self.current;
        if s + 1 < self.chars.len() && self.chars[s + 1] == '=' {
            self.emit(long, s + 2, None);
        } else {
            self.emit(short, s + 1, None);
        }
    }

    fn lex_error_at(&self, a: usize, b: usize, message: &str) -> (r: Error)
        requires
            self.wf(),
            a <= b <= self.src().len(),
        ensures
            lex_error(self.src().subrange(a as int, b as int), self.line_no(), message@)
                == (Scanned::Fail { error: r@ }),
    {
        let lexeme = self.text_of(a, b);
        Error::CompileTimeError {
            token: Some(Token { token_type: TokenType::NIL, lexeme, literal: None, line: self.line }),
            message: String::from_str(message),
        }
    }

    /// The step's outcome, as `scan_token` states it for each rule.
    pub open spec fn took_step(old: Scanner, new: Scanner, r: Result<(), Error>, step: Scanned) -> bool {
        &&& new.wf()
        &&& new.src() == old.src()
        &&& match step {
            Scanned::Skip { next, line } => r is Ok && new.pos() == next && new.line_no() == line
                && new.emitted() == old.emitted() && old.pos() < next <= old.src().len(),
            Scanned::Emit { token, next, line } => r is Ok && new.pos() == next && new.line_no()
                == line && new.emitted() == old.emitted().push(token) && old.pos() < next
                <= old.src().len(),
            Scanned::Fail { error } => match r {
                Err(e) => e@ == error && new.emitted() == old.emitted() && new.pos() == old.pos()
                    && new.line_no() == old.line_no(),
                Ok(_) => false,
            },
        }
    }

    /// A string literal, from the opening `"` at the current position.
    fn string(&mut self) -> (r: Result<(), Error>)
        requires
            old(self).wf(),
            old(self).start == old(self).current,
            old(self).current < old(self).src().len(),
        ensures
            Scanner::took_step(
                *old(self),
                *final(self),
                r,
                scan_string(old(self).src(), old(self).pos(), old(self).line_no()),
            ),
    {
        let s = self.current;
        let len = self.chars.len();
        let q = self.quote_at_exec(s + 1);
        if q >= len {
            return Err(self.lex_error_at(s, len, "Unterminated string"));
        }
        let n = self.newlines_exec(s + 1, q);
        self.current = q;
        self.line = self.line + n;
        let value = self.text_of(s + 1, q);
        self.emit(TokenType::STRING, q + 1, Some(Literal::Str(value)));
        Ok(())
    }

    /// A number literal, from its first digit at the current position.
    fn number(&mut self) -> (r: Result<(), Error>)
        requires
            old(self).wf(),
            old(self).start == old(self).current,
            old(self).current < old(self).src().len(),
            is_digit(old(self).src()[old(self).pos()]),
        ensures
            Scanner::took_step(
                *old(self),
                *final(self),
                r,
                scan_number(old(self).src(), old(self).pos(), old(self).line_no()),
            ),
    {
        let s = self.current;
        let len = self.chars.len();
        let e1 = self.digits_end_exec(s);
        let e = if e1 < len && self.chars[e1] == '.' {
            self.digits_end_exec(e1 + 1)
        } else {
            e1
        };
        if e < len && is_alpha_exec(self.chars[e]) {
            return Err(self.lex_error_at(e, e + 1, "Unexpected character. check your number"));
        }
        let text = self.text_of(s, e);
        proof {
            lemma_number_lexeme(self.src(), s as int);
        }
        let n = Num::parse(text.as_str()).unwrap();
        self.emit(TokenType::NUMBER, e, Some(Literal::Number(n)));
        Ok(())
    }

    /// An identifier or a keyword, from its first letter at the current
    /// position.
    fn identifier(&mut self)
        requires
            old(self).wf(),
            old(self).start == old(self).current,
            old(self).current < old(self).src().len(),
            is_alpha(old(self).src()[old(self).pos()]),
        ensures
            Scanner::took_step(
                *old(self),
                *final(self),
                Ok(()),
                scan_word(old(self).src(), old(self).pos(), old(self).line_no()),
            ),
    {
        let s = self.current;
        let e = self.word_end_exec(s);
        let text = self.text_of(s, e);
        let kind = match keyword_of(&text) {
            Some(k) => k,
            None => TokenType::IDENTIFIER,
        };
        self.emit(kind, e, None);
    }

    /// Scans one token, or skips whitespace or a comment, as `scan_step` says.
    pub fn scan_token(&mut self) -> (r: Result<(), Error>)
        requires
            old(self).wf(),
            !old(self).at_end(),
        ensures
            Scanner::took_step(
                *old(self),
                *final(self),
                r,
                scan_step(old(self).src(), old(self).pos(), old(self).line_no()),
            ),
    {
        self.start = self.current;
        let s = self.current;
        let c = self.chars[s];
        let len = self.chars.len();
        if c == '(' {
            self.emit(TokenType::LEFT_PAREN, s + 1, None);
        } else if c == ')' {
            self.emit(TokenType::RIGHT_PAREN, s + 1, None);
        } else if c == '{' {
            self.emit(TokenType::LEFT_BRACE, s + 1, None);
        } else if c == '}' {
            self.emit(TokenType::RIGHT_BRACE, s + 1, None);
        } else if c == ',' {
            self.emit(TokenType::COMMA, s + 1, None);
        } else if c == '.' {
            self.emit(TokenType::DOT, s + 1, None);
        } else if c == '-' {
            self.emit(TokenType::MINUS, s + 1, None);
        } else if c == '+' {
            self.emit(TokenType::PLUS, s + 1, None);
        } else if c == ';' {
            self.emit(TokenType::SEMICOLON, s + 1, None);
        } else if c == '*' {
            self.emit(TokenType::STAR, s + 1, None);
        } else if c == ':' {
            self.emit(TokenType::COLON, s + 1, None);
        } else if c == '?' {
            self.emit(TokenType::QUESTION, s + 1, None);
        } else if c == '!' {
            self.emit_with_equal(TokenType::BANG_EQUAL, TokenType::BANG);
        } else if c == '=' {
            self.emit_with_equal(TokenType::EQUAL_EQUAL, TokenType::EQUAL);
        } else if c == '<' {
            self.emit_with_equal(TokenType::LESS_EQUAL, TokenType::LESS);
        } else if c == '>' {
            self.emit_with_equal(TokenType::GREATER_EQUAL, TokenType::GREATER);
        } else if c == '/' {
            if s + 1 < len && self.chars[s + 1] == '/' {
                self.current = self.line_end_exec(s + 2);
            } else if s + 1 < len && self.chars[s + 1] == '*' {
                let e = self.comment_close_exec(s + 2);
                let n = self.newlines_exec(s + 2, e);
                self.line = self.line + n;
                self.current = e;
            } else {
                self.emit(TokenType::SLASH, s + 1, None);
            }
        } else if c == ' ' || c == '\r' || c == '\t' {
            self.current = s + 1;
        } else if c == '\n' {
            self.line = self.line + 1;
            self.current = s + 1;
        } else if c == '"' {
            return self.string();
        } else if '0' <= c && c <= '9' {
            return self.number();
        } else if is_alpha_exec(c) {
            self.identifier();
        } else {
            return Err(self.lex_error_at(s, s + 1, "Unexpected character"));
        }
        Ok(())
    }
}

pub fn is_alpha_exec(c: char) -> (r: bool)
    ensures
        r == is_alpha(c),
{
    ('a' <= c && c <= 'z') || ('A' <= c && c <= 'Z') || c == '_'
}

pub fn is_alpha_numeric_exec(c: char) -> (r: bool)
    ensures
        r == is_alpha_numeric(c),
{
    is_alpha_exec(c) || ('0' <= c && c <= '9')
}

/// Scans a whole source.
pub fn scan(source: String) -> (r: Result<Vec<Token>, Error>)
    requires
        source@.len() < usize::MAX,
    ensures
        scan_result_view(r) == scan_source(source@),
{
    let mut scanner = Scanner::new(source);
    scanner.scan_tokens()
}

} // verus!
