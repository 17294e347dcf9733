use vstd::prelude::*;

use vstd::string::StringExecFns;

use crate::runtime::{decimal, decimal_text};
use crate::token::{Token, TokenType, TokenView, token_name_spec, token_views};

verus! {

/// What `char::is_alphabetic` answers for a character (the Unicode
/// `Alphabetic` property).
pub uninterp spec fn unicode_alphabetic(c: char) -> bool;

/// What `char::is_alphanumeric` answers for a character (the Unicode
/// `Alphabetic` or `Numeric` property).
pub uninterp spec fn unicode_alphanumeric(c: char) -> bool;

/// An ASCII letter, `a` to `z` or `A` to `Z`.
pub open spec fn ascii_letter(c: char) -> bool {
    ('a' <= c && c <= 'z') || ('A' <= c && c <= 'Z')
}

/// Calls `char::is_alphabetic`. The contract names its result, and states
/// what the Unicode `Alphabetic` property, which the documentation cites,
/// gives on ASCII: exactly the letters `a`-`z` and `A`-`Z` have it. Nothing
/// more is claimed of other characters.
#[verifier::external_body]
fn char_is_alphabetic(c: char) -> (r: bool)
    ensures
        r == unicode_alphabetic(c),
        c <= '\x7f' ==> (r <==> ascii_letter(c)),
{
    c.is_alphabetic()
}

/// Calls `char::is_alphanumeric`. The contract names its result and, as the
/// standard library documents ("either `is_alphabetic()` or `is_numeric()`"),
/// states that every alphabetic character is alphanumeric. On ASCII, the
/// Unicode `Alphabetic` and numeric properties hold exactly of the letters
/// and the digits `0`-`9`, and the contract says so.
#[verifier::external_body]
fn char_is_alphanumeric(c: char) -> (r: bool)
    ensures
        r == unicode_alphanumeric(c),
        unicode_alphabetic(c) ==> r,
        c <= '\x7f' ==> (r <==> (ascii_letter(c) || ('0' <= c && c <= '9'))),
{
    c.is_alphanumeric()
}

/// Collects characters into a `String` (`FromIterator<char> for String`):
/// the string holds exactly these characters, in order.
#[verifier::external_body]
pub(crate) fn string_from_chars(chars: Vec<char>) -> (r: String)
    ensures
        r@ == chars@,
{
    chars.into_iter().collect()
}

/// The character at `i`, or `'\0'` past either end of the input.
pub open spec fn char_at(s: Seq<char>, i: int) -> char {
    if 0 <= i < s.len() {
        s[i]
    } else {
        '\0'
    }
}

pub open spec fn is_space(c: char) -> bool {
    c == ' ' || c == '\t' || c == '\r' || c == '\n'
}

pub open spec fn is_digit(c: char) -> bool {
    '0' <= c && c <= '9'
}

/// The line (from 1) on which position `pos` of the input lies.
pub open spec fn line_at(s: Seq<char>, pos: int) -> nat
    decreases pos,
{
    if pos <= 0 {
        1
    } else if s[pos - 1] == '\n' {
        line_at(s, pos - 1) + 1
    } else {
        line_at(s, pos - 1)
    }
}

/// The column (from 1) of position `pos` of the input within its line.
pub open spec fn col_at(s: Seq<char>, pos: int) -> nat
    decreases pos,
{
    if pos <= 0 {
        1
    } else if s[pos - 1] == '\n' {
        1
    } else {
        col_at(s, pos - 1) + 1
    }
}

/// The end of a `//` comment: the next newline, or the end of the input.
pub open spec fn line_comment_end(s: Seq<char>, p: int) -> int
    decreases s.len() - p,
{
    if 0 <= p < s.len() && s[p] != '\n' {
        line_comment_end(s, p + 1)
    } else {
        p
    }
}

/// The end of a `/* */` comment whose body starts at `p`: just past the
/// first `*/`; without one, the last character of the input stays unread.
pub open spec fn block_comment_end(s: Seq<char>, p: int) -> int
    decreases s.len() - p,
{
    if 0 <= p && p + 1 < s.len() {
        if s[p] == '*' && s[p + 1] == '/' {
            p + 2
        } else {
            block_comment_end(s, p + 1)
        }
    } else {
        p
    }
}

pub proof fn lemma_line_comment_end(s: Seq<char>, p: int)
    requires
        0 <= p <= s.len(),
    ensures
        p <= line_comment_end(s, p) <= s.len(),
    decreases s.len() - p,
{
    if p < s.len() && s[p] != '\n' {
        lemma_line_comment_end(s, p + 1);
    }
}

pub proof fn lemma_block_comment_end(s: Seq<char>, p: int)
    requires
        0 <= p <= s.len(),
    ensures
        p <= block_comment_end(s, p) <= s.len(),
    decreases s.len() - p,
{
    if p + 1 < s.len() && !(s[p] == '*' && s[p + 1] == '/') {
        lemma_block_comment_end(s, p + 1);
    }
}

/// Where scanning resumes after the blanks and comments at `p`.
pub open spec fn skip_end(s: Seq<char>, p: int) -> int
    decreases s.len() - p,
{
    if p < 0 || p >= s.len() {
        p
    } else if is_space(s[p]) {
        skip_end(s, p + 1)
    } else if s[p] == '/' && char_at(s, p + 1) == '/' {
        proof {
            lemma_line_comment_end(s, p + 1);
        }
        skip_end(s, line_comment_end(s, p + 1))
    } else if s[p] == '/' && char_at(s, p + 1) == '*' {
        proof {
            lemma_block_comment_end(s, p + 2);
        }
        skip_end(s, block_comment_end(s, p + 2))
    } else {
        p
    }
}

pub proof fn lemma_skip_end(s: Seq<char>, p: int)
    requires
        0 <= p <= s.len(),
    ensures
        p <= skip_end(s, p) <= s.len(),
    decreases s.len() - p,
{
    if p < s.len() {
        if is_space(s[p]) {
            lemma_skip_end(s, p + 1);
        } else if s[p] == '/' && char_at(s, p + 1) == '/' {
            lemma_line_comment_end(s, p + 1);
            lemma_skip_end(s, line_comment_end(s, p + 1));
        } else if s[p] == '/' && char_at(s, p + 1) == '*' {
            lemma_block_comment_end(s, p + 2);
            lemma_skip_end(s, block_comment_end(s, p + 2));
        }
    }
}

/// The characters an escape sequence `\c` stands for inside a string literal.
pub open spec fn escape_of(c: char) -> Seq<char> {
    if c == 'n' {
        seq!['\n']
    } else if c == 't' {
        seq!['\t']
    } else if c == '\\' {
        seq!['\\']
    } else if c == '"' {
        seq!['"']
    } else if c == '\'' {
        seq!['\'']
    } else if c == '0' {
        seq!['\0']
    } else {
        seq!['\\', c]
    }
}

/// The contents of a string literal from `p` up to the closing `quote` (or
/// the end of the input), with escapes replaced, and where the body ends.
pub open spec fn string_body(s: Seq<char>, p: int, quote: char) -> (Seq<char>, int)
    decreases s.len() - p,
{
    if p < 0 || p >= s.len() || s[p] == quote {
        (Seq::empty(), p)
    } else if s[p] == '\\' && p + 1 < s.len() {
        let (rest, e) = string_body(s, p + 2, quote);
        (escape_of(s[p + 1]) + rest, e)
    } else {
        let (rest, e) = string_body(s, p + 1, quote);
        (seq![s[p]] + rest, e)
    }
}

pub proof fn lemma_string_body(s: Seq<char>, p: int, quote: char)
    requires
        0 <= p <= s.len(),
    ensures
        p <= string_body(s, p, quote).1 <= s.len(),
    decreases s.len() - p,
{
    if p < s.len() && s[p] != quote {
        if s[p] == '\\' && p + 1 < s.len() {
            lemma_string_body(s, p + 2, quote);
        } else {
            lemma_string_body(s, p + 1, quote);
        }
    }
}

/// Just past the closing quote of the string literal opened at `p`, or the
/// end of the input when it is never closed.
pub open spec fn string_end(s: Seq<char>, p: int, quote: char) -> int {
    let e = string_body(s, p + 1, quote).1;
    if e < s.len() {
        e + 1
    } else {
        e
    }
}

/// The end of the run of decimal digits at `p`.
pub open spec fn digits_end(s: Seq<char>, p: int) -> int
    decreases s.len() - p,
{
    if 0 <= p < s.len() && is_digit(s[p]) {
        digits_end(s, p + 1)
    } else {
        p
    }
}

pub proof fn lemma_digits_end(s: Seq<char>, p: int)
    requires
        0 <= p <= s.len(),
    ensures
        p <= digits_end(s, p) <= s.len(),
        forall|i: int| p <= i < digits_end(s, p) ==> is_digit(#[trigger] s[i]),
        digits_end(s, p) < s.len() ==> !is_digit(s[digits_end(s, p)]),
    decreases s.len() - p,
{
    if p < s.len() && is_digit(s[p]) {
        lemma_digits_end(s, p + 1);
    }
}

/// The end of a number literal at `p`: digits, then a `.` and more digits
/// when a digit follows the dot.
pub open spec fn number_end(s: Seq<char>, p: int) -> int {
    let a = digits_end(s, p);
    if a < s.len() && s[a] == '.' && is_digit(char_at(s, a + 1)) {
        digits_end(s, a + 1)
    } else {
        a
    }
}

/// The end of the run of identifier characters (alphanumeric or `_`) at `p`.
pub open spec fn ident_end(s: Seq<char>, p: int) -> int
    decreases s.len() - p,
{
    if 0 <= p < s.len() && (unicode_alphanumeric(s[p]) || s[p] == '_') {
        ident_end(s, p + 1)
    } else {
        p
    }
}

pub proof fn lemma_ident_end(s: Seq<char>, p: int)
    requires
        0 <= p <= s.len(),
    ensures
        p <= ident_end(s, p) <= s.len(),
        forall|i: int|
            p <= i < ident_end(s, p) ==> unicode_alphanumeric(#[trigger] s[i]) || s[i] == '_',
    decreases s.len() - p,
{
    if p < s.len() && (unicode_alphanumeric(s[p]) || s[p] == '_') {
        lemma_ident_end(s, p + 1);
    }
}

/// The outcome of scanning one token at a position.
pub enum Scan {
    Tok { tt: TokenType, text: Seq<char>, end: int },
    Unexpected,
}

/// Scans the token that starts at `p` (a position with no blank or comment).
pub open spec fn scan(s: Seq<char>, p: int) -> Scan {
    let ch = s[p];
    let nx = char_at(s, p + 1);
    if ch == '"' || ch == '\'' {
        Scan::Tok {
            tt: TokenType::String,
            text: string_body(s, p + 1, ch).0,
            end: string_end(s, p, ch),
        }
    } else if is_digit(ch) {
        Scan::Tok { tt: TokenType::Number, text: s.subrange(p, number_end(s, p)), end: number_end(s, p) }
    } else if unicode_alphabetic(ch) || ch == '_' {
        Scan::Tok { tt: TokenType::Ident, text: s.subrange(p, ident_end(s, p + 1)), end: ident_end(s, p + 1) }
    } else if ch == '(' {
        Scan::Tok { tt: TokenType::LParen, text: "("@, end: p + 1 }
    } else if ch == ')' {
        Scan::Tok { tt: TokenType::RParen, text: ")"@, end: p + 1 }
    } else if ch == '{' {
        Scan::Tok { tt: TokenType::LBrace, text: "{"@, end: p + 1 }
    } else if ch == '}' {
        Scan::Tok { tt: TokenType::RBrace, text: "}"@, end: p + 1 }
    } else if ch == '[' {
        Scan::Tok { tt: TokenType::LBracket, text: "["@, end: p + 1 }
    } else if ch == ']' {
        Scan::Tok { tt: TokenType::RBracket, text: "]"@, end: p + 1 }
    } else if ch == ';' {
        Scan::Tok { tt: TokenType::Semicolon, text: ";"@, end: p + 1 }
    } else if ch == ',' {
        Scan::Tok { tt: TokenType::Comma, text: ","@, end: p + 1 }
    } else if ch == ':' {
        Scan::Tok { tt: TokenType::Colon, text: ":"@, end: p + 1 }
    } else if ch == '.' {
        Scan::Tok { tt: TokenType::Dot, text: "."@, end: p + 1 }
    } else if ch == '-' && nx == '>' {
        Scan::Tok { tt: TokenType::Arrow, text: "->"@, end: p + 2 }
    } else if ch == '&' && nx == '&' {
        Scan::Tok { tt: TokenType::And, text: "&&"@, end: p + 2 }
    } else if ch == '|' && nx == '|' {
        Scan::Tok { tt: TokenType::Or, text: "||"@, end: p + 2 }
    } else if ch == '!' && nx == '=' {
        Scan::Tok { tt: TokenType::Neq, text: "!="@, end: p + 2 }
    } else if ch == '!' {
        Scan::Tok { tt: TokenType::Not, text: "!"@, end: p + 1 }
    } else if ch == '+' && nx == '=' {
        Scan::Tok { tt: TokenType::PlusEq, text: "+="@, end: p + 2 }
    } else if ch == '-' && nx == '=' {
        Scan::Tok { tt: TokenType::MinusEq, text: "-="@, end: p + 2 }
    } else if ch == '=' && nx == '=' {
        Scan::Tok { tt: TokenType::EqEq, text: "=="@, end: p + 2 }
    } else if ch == '<' && nx == '=' {
        Scan::Tok { tt: TokenType::Lte, text: "<="@, end: p + 2 }
    } else if ch == '>' && nx == '=' {
        Scan::Tok { tt: TokenType::Gte, text: ">="@, end: p + 2 }
    } else if ch == '=' {
        Scan::Tok { tt: TokenType::Eq, text: "="@, end: p + 1 }
    } else if ch == '+' {
        Scan::Tok { tt: TokenType::Plus, text: "+"@, end: p + 1 }
    } else if ch == '-' {
        Scan::Tok { tt: TokenType::Minus, text: "-"@, end: p + 1 }
    } else if ch == '*' {
        Scan::Tok { tt: TokenType::Star, text: "*"@, end: p + 1 }
    } else if ch == '/' {
        Scan::Tok { tt: TokenType::Slash, text: "/"@, end: p + 1 }
    } else if ch == '%' {
        Scan::Tok { tt: TokenType::Percent, text: "%"@, end: p + 1 }
    } else if ch == '<' {
        Scan::Tok { tt: TokenType::Lt, text: "<"@, end: p + 1 }
    } else if ch == '>' {
        Scan::Tok { tt: TokenType::Gt, text: ">"@, end: p + 1 }
    } else {
        Scan::Unexpected
    }
}

pub proof fn lemma_scan_progress(s: Seq<char>, p: int)
    requires
        0 <= p < s.len(),
    ensures
        scan(s, p) matches Scan::Tok { end, .. } ==> p < end <= s.len(),
{
    let ch = s[p];
    if ch == '"' || ch == '\'' {
        lemma_string_body(s, p + 1, ch);
    } else if is_digit(ch) {
        lemma_digits_end(s, p);
        let a = digits_end(s, p);
        if a < s.len() && s[a] == '.' && is_digit(char_at(s, a + 1)) {
            lemma_digits_end(s, a + 1);
        }
    } else if unicode_alphabetic(ch) || ch == '_' {
        lemma_ident_end(s, p + 1);
    }
}

/// A character that no token can start with, and where it stands.
pub struct UnexpectedView {
    pub line: nat,
    pub col: nat,
    pub ch: char,
}

/// The outcome of lexing: the tokens, and the characters that were skipped
/// because no token starts with them.
pub struct LexResult {
    pub tokens: Seq<TokenView>,
    pub unexpected: Seq<UnexpectedView>,
}

/// Lexes the input from position `p` to its end. The last token is always
/// `Eof`, at the position where the input ends.
pub open spec fn lex_from(s: Seq<char>, p: int) -> LexResult
    decreases s.len() - p,
{
    if p < 0 || p > s.len() {
        LexResult { tokens: Seq::empty(), unexpected: Seq::empty() }
    } else {
        let q = skip_end(s, p);
        proof {
            lemma_skip_end(s, p);
        }
        if q >= s.len() {
            LexResult {
                tokens: seq![
                    TokenView {
                        tt: TokenType::Eof,
                        value: Seq::empty(),
                        line: line_at(s, q),
                        col: col_at(s, q),
                    },
                ],
                unexpected: Seq::empty(),
            }
        } else {
            proof {
                lemma_scan_progress(s, q);
            }
            match scan(s, q) {
                Scan::Tok { tt, text, end } => {
                    let rest = lex_from(s, end);
                    LexResult {
                        tokens: seq![
                            TokenView { tt, value: text, line: line_at(s, q), col: col_at(s, q) },
                        ] + rest.tokens,
                        unexpected: rest.unexpected,
                    }
                },
                Scan::Unexpected => {
                    let rest = lex_from(s, q + 1);
                    LexResult {
                        tokens: rest.tokens,
                        unexpected: seq![UnexpectedView { line: line_at(s, q), col: col_at(s, q), ch: s[q] }]
                            + rest.unexpected,
                    }
                },
            }
        }
    }
}

/// Lexing always yields exactly one `Eof` token: it comes last and stands at
/// the end of the input.
pub proof fn lemma_lex_ends_with_eof(s: Seq<char>, p: int)
    requires
        0 <= p <= s.len(),
    ensures
        lex_from(s, p).tokens.len() >= 1,
        lex_from(s, p).tokens.last().tt == TokenType::Eof,
        lex_from(s, p).tokens.last().line == line_at(s, s.len() as int),
        lex_from(s, p).tokens.last().col == col_at(s, s.len() as int),
        forall|i: int|
            0 <= i < lex_from(s, p).tokens.len() - 1 ==> (#[trigger] lex_from(s, p).tokens[i]).tt
                != TokenType::Eof,
    decreases s.len() - p,
{
    lemma_skip_end(s, p);
    let q = skip_end(s, p);
    if q < s.len() {
        lemma_scan_progress(s, q);
        match scan(s, q) {
            Scan::Tok { tt, text, end } => {
                lemma_lex_ends_with_eof(s, end);
                let rest = lex_from(s, end).tokens;
                let all = lex_from(s, p).tokens;
                assert(all.last() == rest.last());
                assert forall|i: int| 0 <= i < all.len() - 1 implies (#[trigger] all[i]).tt
                    != TokenType::Eof by {
                    if i > 0 {
                        assert(all[i] == rest[i - 1]);
                    }
                }
            },
            Scan::Unexpected => {
                lemma_lex_ends_with_eof(s, q + 1);
            },
        }
    }
}

/// Line and column never run ahead of the position.
pub proof fn lemma_line_col_bound(s: Seq<char>, pos: int)
    requires
        0 <= pos <= s.len(),
    ensures
        line_at(s, pos) <= pos + 1,
        col_at(s, pos) <= pos + 1,
    decreases pos,
{
    if pos > 0 {
        lemma_line_col_bound(s, pos - 1);
    }
}

/// Line and column `(l1, c1)` come strictly before `(l2, c2)` in reading order.
pub open spec fn precedes(l1: nat, c1: nat, l2: nat, c2: nat) -> bool {
    l1 < l2 || (l1 == l2 && c1 < c2)
}

/// A later position of the input has a later line and column.
pub proof fn lemma_position_order(s: Seq<char>, a: int, b: int)
    requires
        0 <= a < b <= s.len(),
    ensures
        precedes(line_at(s, a), col_at(s, a), line_at(s, b), col_at(s, b)),
    decreases b - a,
{
    if a + 1 < b {
        lemma_position_order(s, a, b - 1);
    }
}

/// Tokens come in reading order: each starts strictly after the one before
/// it, and none starts before the position where lexing began.
pub proof fn law_tokens_in_source_order(s: Seq<char>, p: int)
    requires
        0 <= p <= s.len(),
    ensures
        forall|i: int, j: int|
            0 <= i < j < lex_from(s, p).tokens.len() ==> precedes(
                #[trigger] lex_from(s, p).tokens[i].line,
                lex_from(s, p).tokens[i].col,
                #[trigger] lex_from(s, p).tokens[j].line,
                lex_from(s, p).tokens[j].col,
            ),
        forall|i: int|
            0 <= i < lex_from(s, p).tokens.len() ==> !precedes(
                #[trigger] lex_from(s, p).tokens[i].line,
                lex_from(s, p).tokens[i].col,
                line_at(s, p),
                col_at(s, p),
            ),
    decreases s.len() - p,
{
    lemma_skip_end(s, p);
    let q = skip_end(s, p);
    let all = lex_from(s, p).tokens;
    if q > p {
        lemma_position_order(s, p, q);
    }
    if q < s.len() {
        lemma_scan_progress(s, q);
        match scan(s, q) {
            Scan::Tok { tt, text, end } => {
                law_tokens_in_source_order(s, end);
                lemma_position_order(s, q, end);
                let rest = lex_from(s, end).tokens;
                assert forall|i: int| 0 <= i < all.len() implies !precedes(
                    #[trigger] all[i].line,
                    all[i].col,
                    line_at(s, p),
                    col_at(s, p),
                ) by {
                    if i > 0 {
                        assert(all[i] == rest[i - 1]);
                    }
                }
                assert forall|i: int, j: int| 0 <= i < j < all.len() implies precedes(
                    #[trigger] all[i].line,
                    all[i].col,
                    #[trigger] all[j].line,
                    all[j].col,
                ) by {
                    assert(all[j] == rest[j - 1]);
                    if i > 0 {
                        assert(all[i] == rest[i - 1]);
                    }
                }
            },
            Scan::Unexpected => {
                law_tokens_in_source_order(s, q + 1);
                lemma_position_order(s, q, q + 1);
            },
        }
    }
}

/// Every character of `v` from `a` on, up to `b`, is a decimal digit.
pub open spec fn digits_between(v: Seq<char>, a: int, b: int) -> bool {
    forall|i: int| a <= i < b ==> is_digit(#[trigger] v[i])
}

/// Decimal digits, then optionally a `.` and more digits.
pub open spec fn number_shape(v: Seq<char>) -> bool {
    ||| v.len() > 0 && digits_between(v, 0, v.len() as int)
    ||| exists|k: int|
        0 < k < v.len() - 1 && #[trigger] v[k] == '.' && digits_between(v, 0, k) && digits_between(
            v,
            k + 1,
            v.len() as int,
        )
}

/// A letter or `_`, then letters, digits or `_`.
pub open spec fn ident_shape(v: Seq<char>) -> bool {
    &&& v.len() > 0
    &&& unicode_alphabetic(v[0]) || v[0] == '_'
    &&& forall|i: int| 1 <= i < v.len() ==> unicode_alphanumeric(#[trigger] v[i]) || v[i] == '_'
}

/// The text a token carries fits its kind: punctuation and operators carry
/// their symbol, `Eof` nothing, identifiers and numbers their shape.
pub open spec fn text_fits_kind(tt: TokenType, value: Seq<char>) -> bool {
    &&& tt == TokenType::Eof ==> value.len() == 0
    &&& tt == TokenType::Ident ==> ident_shape(value)
    &&& tt == TokenType::Number ==> number_shape(value)
    &&& tt != TokenType::Eof && tt != TokenType::Ident && tt != TokenType::Number && tt
        != TokenType::String ==> value == token_name_spec(tt)
}

proof fn lemma_scan_text(s: Seq<char>, q: int)
    requires
        0 <= q < s.len(),
    ensures
        scan(s, q) matches Scan::Tok { tt, text, end } ==> tt != TokenType::Eof && text_fits_kind(
            tt,
            text,
        ),
{
    let ch = s[q];
    if ch == '"' || ch == '\'' {
    } else if is_digit(ch) {
        lemma_digits_end(s, q);
        let a = digits_end(s, q);
        let v = s.subrange(q, number_end(s, q));
        if a < s.len() && s[a] == '.' && is_digit(char_at(s, a + 1)) {
            lemma_digits_end(s, a + 1);
            let e = digits_end(s, a + 1);
            let k = a - q;
            assert(v[k] == '.');
            assert(digits_between(v, 0, k)) by {
                assert forall|i: int| 0 <= i < k implies is_digit(#[trigger] v[i]) by {
                    assert(v[i] == s[q + i]);
                }
            }
            assert(digits_between(v, k + 1, v.len() as int)) by {
                assert forall|i: int| k + 1 <= i < v.len() implies is_digit(#[trigger] v[i]) by {
                    assert(v[i] == s[q + i]);
                }
            }
            assert(number_shape(v));
        } else {
            assert(digits_between(v, 0, v.len() as int)) by {
                assert forall|i: int| 0 <= i < v.len() implies is_digit(#[trigger] v[i]) by {
                    assert(v[i] == s[q + i]);
                }
            }
        }
    } else if unicode_alphabetic(ch) || ch == '_' {
        lemma_ident_end(s, q + 1);
        let v = s.subrange(q, ident_end(s, q + 1));
        assert(v[0] == ch);
        assert forall|i: int| 1 <= i < v.len() implies unicode_alphanumeric(#[trigger] v[i]) || v[i]
            == '_' by {
            assert(v[i] == s[q + i]);
        }
    }
}

/// Every token's text fits its kind: punctuation and operators carry their
/// symbol, `Eof` carries nothing, an identifier is a letter or `_` followed
/// by letters, digits or `_`, and a number is digits with an optional
/// fraction.
pub proof fn law_token_text_fits_kind(s: Seq<char>, p: int)
    requires
        0 <= p <= s.len(),
    ensures
        forall|i: int|
            0 <= i < lex_from(s, p).tokens.len() ==> text_fits_kind(
                #[trigger] lex_from(s, p).tokens[i].tt,
                lex_from(s, p).tokens[i].value,
            ),
    decreases s.len() - p,
{
    lemma_skip_end(s, p);
    let q = skip_end(s, p);
    if q < s.len() {
        lemma_scan_progress(s, q);
        lemma_scan_text(s, q);
        match scan(s, q) {
            Scan::Tok { tt, text, end } => {
                law_token_text_fits_kind(s, end);
                let rest = lex_from(s, end).tokens;
                let all = lex_from(s, p).tokens;
                assert forall|i: int| 0 <= i < all.len() implies text_fits_kind(
                    #[trigger] all[i].tt,
                    all[i].value,
                ) by {
                    if i > 0 {
                        assert(all[i] == rest[i - 1]);
                    }
                }
            },
            Scan::Unexpected => {
                law_token_text_fits_kind(s, q + 1);
            },
        }
    }
}

/// A character that no token starts with, reported with its position.
#[derive(Debug, Clone, Copy, PartialEq, Eq)]
pub struct UnexpectedChar {
    pub line: usize,
    pub col: usize,
    pub ch: char,
}

impl View for UnexpectedChar {
    type V = UnexpectedView;

    open spec fn view(&self) -> UnexpectedView {
        UnexpectedView { line: self.line as nat, col: self.col as nat, ch: self.ch }
    }
}

impl UnexpectedChar {
    /// The message reported for this character.
    pub fn message(&self) -> (r: String)
        ensures
            r@ == "line "@ + decimal_text(self.line as nat) + ":"@ + decimal_text(self.col as nat)
                + ": unexpected character '"@ + seq![self.ch] + "'"@,
    {
        let mut r = String::from_str("line ");
        r.append(decimal(self.line).as_str());
        r.append(":");
        r.append(decimal(self.col).as_str());
        r.append(": unexpected character '");
        let mut one: Vec<char> = Vec::new();
        one.push(self.ch);
        r.append(string_from_chars(one).as_str());
        r.append("'");
        r
    }
}

pub open spec fn unexpected_views(v: Seq<UnexpectedChar>) -> Seq<UnexpectedView> {
    v.map_values(|u: UnexpectedChar| u@)
}

/// Turns source text into tokens, keeping track of line and column.
pub struct Lexer {
    input: Vec<char>,
    pos: usize,
    line: usize,
    col: usize,
    unexpected: Vec<UnexpectedChar>,
}

impl Lexer {
    /// The characters being lexed.
    pub closed spec fn source(&self) -> Seq<char> {
        self.input@
    }

    /// How far lexing has gone.
    pub closed spec fn position(&self) -> int {
        self.pos as int
    }

    /// The characters skipped so far because no token starts with them.
    pub closed spec fn skipped(&self) -> Seq<UnexpectedView> {
        unexpected_views(self.unexpected@)
    }

    /// The lexer's line and column always match its position.
    pub closed spec fn wf(&self) -> bool {
        &&& self.input@.len() < usize::MAX
        &&& self.pos <= self.input@.len()
        &&& self.line == line_at(self.input@, self.pos as int)
        &&& self.col == col_at(self.input@, self.pos as int)
    }

    pub fn new(source: &str) -> (r: Self)
        requires
            source@.len() < usize::MAX,
        ensures
            r.wf(),
            r.source() == source@,
            r.position() == 0,
            r.skipped() == Seq::<UnexpectedView>::empty(),
    {
        let mut input: Vec<char> = Vec::new();
        broadcast use vstd::string::group_string_axioms;

        for c in it: source.chars()
            invariant
                input@ == it.seq().take(it.index() as int),
        {
            input.push(c);
        }
        assert(input@ == source@);
        let r = Lexer { input, pos: 0, line: 1, col: 1, unexpected: Vec::new() };
        assert(unexpected_views(r.unexpected@) =~= Seq::<UnexpectedView>::empty());
        r
    }

    /// The characters skipped so far because no token starts with them,
    /// each with its line and column.
    pub fn unexpected_chars(&self) -> (r: &Vec<UnexpectedChar>)
        ensures
            unexpected_views(r@) == self.skipped(),
    {
        &self.unexpected
    }

    fn peek(&self) -> (r: char)
        requires
            self.wf(),
        ensures
            r == char_at(self.input@, self.pos as int),
    {
        if self.pos >= self.input.len() {
            '\0'
        } else {
            self.input[self.pos]
        }
    }

    fn peek_at(&self, offset: usize) -> (r: char)
        requires
            self.wf(),
            offset <= 1,
        ensures
            r == char_at(self.input@, self.pos + offset),
    {
        let p = self.pos + offset;
        if p >= self.input.len() {
            '\0'
        } else {
            self.input[p]
        }
    }

    fn advance(&mut self) -> (r: char)
        requires
            old(self).wf(),
            old(self).pos < old(self).input@.len(),
        ensures
            final(self).wf(),
            r == old(self).input@[old(self).pos as int],
            final(self).pos == old(self).pos + 1,
            final(self).input@ == old(self).input@,
            final(self).unexpected@ == old(self).unexpected@,
    {
        proof {
            lemma_line_col_bound(self.input@, self.pos + 1);
        }
        let ch = self.input[self.pos];
        self.pos += 1;
        if ch == '\n' {
            self.line += 1;
            self.col = 1;
        } else {
            self.col += 1;
        }
        ch
    }

    fn skip_whitespace_and_comments(&mut self)
        requires
            old(self).wf(),
        ensures
            final(self).wf(),
            final(self).pos == skip_end(old(self).input@, old(self).pos as int),
            final(self).input@ == old(self).input@,
            final(self).unexpected@ == old(self).unexpected@,
    {
        let ghost s = self.input@;
        let ghost target = skip_end(s, self.pos as int);
        loop
            invariant
                self.wf(),
                self.input@ == s,
                self.unexpected@ == old(self).unexpected@,
                skip_end(s, self.pos as int) == target,
            ensures
                self.wf(),
                self.input@ == s,
                self.unexpected@ == old(self).unexpected@,
                self.pos == target,
            decreases s.len() - self.pos,
        {
            if self.pos >= self.input.len() {
                break;
            }
            let ch = self.peek();
            if ch == ' ' || ch == '\t' || ch == '\r' || ch == '\n' {
                self.advance();
            } else if ch == '/' && self.peek_at(1) == '/' {
                let ghost start = self.pos as int;
                while self.pos < self.input.len() && self.peek() != '\n'
                    invariant
                        self.wf(),
                        self.input@ == s,
                        self.unexpected@ == old(self).unexpected@,
                        start < s.len(),
                        s[start] == '/',
                        start <= self.pos,
                        line_comment_end(s, self.pos as int) == line_comment_end(s, start + 1),
                    decreases s.len() - self.pos,
                {
                    self.advance();
                }
            } else if ch == '/' && self.peek_at(1) == '*' {
                let ghost start = self.pos as int;
                self.advance();
                self.advance();
                let ghost body_end = block_comment_end(s, start + 2);
                while self.pos + 1 < self.input.len()
                    invariant_except_break
                        block_comment_end(s, self.pos as int) == body_end,
                    invariant
                        self.wf(),
                        self.input@ == s,
                        self.unexpected@ == old(self).unexpected@,
                        start + 2 <= self.pos,
                    ensures
                        self.wf(),
                        self.input@ == s,
                        self.unexpected@ == old(self).unexpected@,
                        self.pos == body_end,
                    decreases s.len() - self.pos,
                {
                    if self.peek() == '*' && self.peek_at(1) == '/' {
                        self.advance();
                        self.advance();
                        break;
                    }
                    self.advance();
                }
            } else {
                break;
            }
        }
    }

    /// A string holding the input characters from `start` up to `end`.
    fn text_between(&self, start: usize, end: usize) -> (r: String)
        requires
            start <= end <= self.input@.len(),
        ensures
            r@ == self.input@.subrange(start as int, end as int),
    {
        let mut chars: Vec<char> = Vec::new();
        let mut i = start;
        while i < end
            invariant
                start <= i <= end <= self.input@.len(),
                chars@ == self.input@.subrange(start as int, i as int),
            decreases end - i,
        {
            chars.push(self.input[i]);
            i += 1;
        }
        string_from_chars(chars)
    }

    fn read_string(&mut self, quote: char) -> (r: String)
        requires
            old(self).wf(),
            old(self).pos < old(self).input@.len(),
            old(self).input@[old(self).pos as int] == quote,
        ensures
            final(self).wf(),
            final(self).input@ == old(self).input@,
            final(self).unexpected@ == old(self).unexpected@,
            r@ == string_body(old(self).input@, old(self).pos + 1, quote).0,
            final(self).pos == string_end(old(self).input@, old(self).pos as int, quote),
    {
        let ghost s = self.input@;
        let ghost start = self.pos as int;
        let mut sb: Vec<char> = Vec::new();
        self.advance();
        while self.pos < self.input.len() && self.peek() != quote
            invariant
                self.wf(),
                self.input@ == s,
                self.unexpected@ == old(self).unexpected@,
                sb@ + string_body(s, self.pos as int, quote).0 == string_body(s, start + 1, quote).0,
                string_body(s, self.pos as int, quote).1 == string_body(s, start + 1, quote).1,
            decreases s.len() - self.pos,
        {
            let ghost p = self.pos as int;
            let ghost before = sb@;
            let ch = self.peek();
            if ch == '\\' && self.pos + 1 < self.input.len() {
                self.advance();
                let esc = self.advance();
                match esc {
                    'n' => sb.push('\n'),
                    't' => sb.push('\t'),
                    '\\' => sb.push('\\'),
                    '"' => sb.push('"'),
                    '\'' => sb.push('\''),
                    '0' => sb.push('\0'),
                    _ => {
                        sb.push('\\');
                        sb.push(esc);
                    },
                }
                assert(sb@ == before + escape_of(esc));
                assert(before + escape_of(esc) + string_body(s, p + 2, quote).0 == before + (
                escape_of(esc) + string_body(s, p + 2, quote).0));
            } else {
                let c = self.advance();
                sb.push(c);
                assert(before.push(c) + string_body(s, p + 1, quote).0 == before + (seq![c]
                    + string_body(s, p + 1, quote).0));
            }
        }
        assert(sb@ == string_body(s, start + 1, quote).0);
        if self.pos < self.input.len() {
            self.advance();
        }
        string_from_chars(sb)
    }

    fn read_number(&mut self) -> (r: String)
        requires
            old(self).wf(),
        ensures
            final(self).wf(),
            final(self).input@ == old(self).input@,
            final(self).unexpected@ == old(self).unexpected@,
            final(self).pos == number_end(old(self).input@, old(self).pos as int),
            r@ == old(self).input@.subrange(
                old(self).pos as int,
                number_end(old(self).input@, old(self).pos as int),
            ),
    {
        let ghost s = self.input@;
        let start = self.pos;
        while self.pos < self.input.len() && self.peek() >= '0' && self.peek() <= '9'
            invariant
                self.wf(),
                self.input@ == s,
                self.unexpected@ == old(self).unexpected@,
                start <= self.pos,
                digits_end(s, self.pos as int) == digits_end(s, start as int),
            decreases s.len() - self.pos,
        {
            self.advance();
        }
        if self.pos < self.input.len() && self.peek() == '.' {
            let next = self.peek_at(1);
            if next >= '0' && next <= '9' {
                self.advance();
                let ghost frac = self.pos as int;
                while self.pos < self.input.len() && self.peek() >= '0' && self.peek() <= '9'
                    invariant
                        self.wf(),
                        self.input@ == s,
                        self.unexpected@ == old(self).unexpected@,
                        start < frac <= self.pos,
                        digits_end(s, self.pos as int) == digits_end(s, frac),
                    decreases s.len() - self.pos,
                {
                    self.advance();
                }
            }
        }
        self.text_between(start, self.pos)
    }

    fn read_ident(&mut self) -> (r: String)
        requires
            old(self).wf(),
            old(self).pos < old(self).input@.len(),
            unicode_alphabetic(old(self).input@[old(self).pos as int])
                || old(self).input@[old(self).pos as int] == '_',
        ensures
            final(self).wf(),
            final(self).input@ == old(self).input@,
            final(self).unexpected@ == old(self).unexpected@,
            final(self).pos == ident_end(old(self).input@, old(self).pos + 1),
            r@ == old(self).input@.subrange(
                old(self).pos as int,
                ident_end(old(self).input@, old(self).pos + 1),
            ),
    {
        let ghost s = self.input@;
        let start = self.pos;
        let ghost target = ident_end(s, start as int + 1);
        loop
            invariant
                self.wf(),
                self.input@ == s,
                self.unexpected@ == old(self).unexpected@,
                start <= self.pos,
                start < s.len(),
                target == ident_end(s, start as int + 1),
                self.pos == start ==> (unicode_alphabetic(s[start as int]) || s[start as int] == '_'),
                start < self.pos ==> ident_end(s, self.pos as int) == target,
            ensures
                self.wf(),
                self.input@ == s,
                self.unexpected@ == old(self).unexpected@,
                self.pos == target,
            decreases s.len() - self.pos,
        {
            if self.pos >= self.input.len() {
                break;
            }
            let ch = self.peek();
            if char_is_alphanumeric(ch) || ch == '_' {
                let ghost p = self.pos as int;
                self.advance();
                assert(p > start ==> ident_end(s, p) == ident_end(s, p + 1));
            } else {
                break;
            }
        }
        self.text_between(start, self.pos)
    }

    /// Lexes the rest of the input. The tokens come back in order, ending
    /// with one `Eof` token; characters that no token starts with are
    /// skipped and recorded (see `unexpected_chars`).
    #[verifier::rlimit(30)]
    pub fn tokenize(&mut self) -> (r: Vec<Token>)
        requires
            old(self).wf(),
        ensures
            final(self).wf(),
            final(self).source() == old(self).source(),
            final(self).position() == old(self).source().len(),
            token_views(r@) == lex_from(old(self).source(), old(self).position()).tokens,
            r@.len() >= 1,
            r@.last().tt == TokenType::Eof,
            forall|i: int| 0 <= i < r@.len() - 1 ==> (#[trigger] r@[i]).tt != TokenType::Eof,
            final(self).skipped() == old(self).skipped() + lex_from(
                old(self).source(),
                old(self).position(),
            ).unexpected,
    {
        let ghost s = self.input@;
        let ghost p0 = self.pos as int;
        let ghost whole = lex_from(s, p0);
        proof {
            lemma_lex_ends_with_eof(s, p0);
        }
        let mut tokens: Vec<Token> = Vec::new();
        assert(token_views(tokens@) =~= Seq::<TokenView>::empty());
        assert(whole.tokens =~= token_views(tokens@) + lex_from(s, p0).tokens);
        assert(old(self).skipped() + whole.unexpected =~= self.skipped() + lex_from(s, p0).unexpected);
        loop
            invariant_except_break
                token_views(tokens@) + lex_from(s, self.pos as int).tokens == whole.tokens,
                self.skipped() + lex_from(s, self.pos as int).unexpected == old(self).skipped()
                    + whole.unexpected,
            invariant
                self.wf(),
                self.input@ == s,
                s == old(self).input@,
                whole == lex_from(s, p0),
            ensures
                self.wf(),
                self.input@ == s,
                self.pos == s.len(),
                token_views(tokens@) == whole.tokens,
                self.skipped() == old(self).skipped() + whole.unexpected,
            decreases s.len() - self.pos,
        {
            let ghost p = self.pos as int;
            self.skip_whitespace_and_comments();
            proof {
                lemma_skip_end(s, p);
            }
            let ghost q = self.pos as int;
            if self.pos >= self.input.len() {
                let ghost before = token_views(tokens@);
                let eof = Token::new(TokenType::Eof, "", self.line, self.col);
                proof {
                    reveal_strlit("");
                    assert(eof@.value =~= Seq::<char>::empty());
                }
                tokens.push(eof);
                assert(token_views(tokens@) =~= before.push(eof@));
                assert(lex_from(s, p).tokens =~= seq![eof@]);
                assert(lex_from(s, q).unexpected =~= Seq::<UnexpectedView>::empty());
                assert(self.skipped() + lex_from(s, p).unexpected =~= self.skipped());
                break;
            }
            let ch = self.peek();
            let line = self.line;
            let col = self.col;
            proof {
                lemma_scan_progress(s, q);
            }
            let tok: Option<Token> = if ch == '"' || ch == '\'' {
                let text = self.read_string(ch);
                Some(Token::new(TokenType::String, text.as_str(), line, col))
            } else if ch >= '0' && ch <= '9' {
                let text = self.read_number();
                Some(Token::new(TokenType::Number, text.as_str(), line, col))
            } else if char_is_alphabetic(ch) || ch == '_' {
                let text = self.read_ident();
                Some(Token::new(TokenType::Ident, text.as_str(), line, col))
            } else if ch == '(' {
                self.advance();
                Some(Token::new(TokenType::LParen, "(", line, col))
            } else if ch == ')' {
                self.advance();
                Some(Token::new(TokenType::RParen, ")", line, col))
            } else if ch == '{' {
                self.advance();
                Some(Token::new(TokenType::LBrace, "{", line, col))
            } else if ch == '}' {
                self.advance();
                Some(Token::new(TokenType::RBrace, "}", line, col))
            } else if ch == '[' {
                self.advance();
                Some(Token::new(TokenType::LBracket, "[", line, col))
            } else if ch == ']' {
                self.advance();
                Some(Token::new(TokenType::RBracket, "]", line, col))
            } else if ch == ';' {
                self.advance();
                Some(Token::new(TokenType::Semicolon, ";", line, col))
            } else if ch == ',' {
                self.advance();
                Some(Token::new(TokenType::Comma, ",", line, col))
            } else if ch == ':' {
                self.advance();
                Some(Token::new(TokenType::Colon, ":", line, col))
            } else if ch == '.' {
                self.advance();
                Some(Token::new(TokenType::Dot, ".", line, col))
            } else if ch == '-' && self.peek_at(1) == '>' {
                self.advance();
                self.advance();
                Some(Token::new(TokenType::Arrow, "->", line, col))
            } else if ch == '&' && self.peek_at(1) == '&' {
                self.advance();
                self.advance();
                Some(Token::new(TokenType::And, "&&", line, col))
            } else if ch == '|' && self.peek_at(1) == '|' {
                self.advance();
                self.advance();
                Some(Token::new(TokenType::Or, "||", line, col))
            } else if ch == '!' && self.peek_at(1) == '=' {
                self.advance();
                self.advance();
                Some(Token::new(TokenType::Neq, "!=", line, col))
            } else if ch == '!' {
                self.advance();
                Some(Token::new(TokenType::Not, "!", line, col))
            } else if ch == '+' && self.peek_at(1) == '=' {
                self.advance();
                self.advance();
                Some(Token::new(TokenType::PlusEq, "+=", line, col))
            } else if ch == '-' && self.peek_at(1) == '=' {
                self.advance();
                self.advance();
                Some(Token::new(TokenType::MinusEq, "-=", line, col))
            } else if ch == '=' && self.peek_at(1) == '=' {
                self.advance();
                self.advance();
                Some(Token::new(TokenType::EqEq, "==", line, col))
            } else if ch == '<' && self.peek_at(1) == '=' {
                self.advance();
                self.advance();
                Some(Token::new(TokenType::Lte, "<=", line, col))
            } else if ch == '>' && self.peek_at(1) == '=' {
                self.advance();
                self.advance();
                Some(Token::new(TokenType::Gte, ">=", line, col))
            } else if ch == '=' {
                self.advance();
                Some(Token::new(TokenType::Eq, "=", line, col))
            } else if ch == '+' {
                self.advance();
                Some(Token::new(TokenType::Plus, "+", line, col))
            } else if ch == '-' {
                self.advance();
                Some(Token::new(TokenType::Minus, "-", line, col))
            } else if ch == '*' {
                self.advance();
                Some(Token::new(TokenType::Star, "*", line, col))
            } else if ch == '/' {
                self.advance();
                Some(Token::new(TokenType::Slash, "/", line, col))
            } else if ch == '%' {
                self.advance();
                Some(Token::new(TokenType::Percent, "%", line, col))
            } else if ch == '<' {
                self.advance();
                Some(Token::new(TokenType::Lt, "<", line, col))
            } else if ch == '>' {
                self.advance();
                Some(Token::new(TokenType::Gt, ">", line, col))
            } else {
                None
            };
            match tok {
                Some(t) => {
                    assert(scan(s, q) == Scan::Tok { tt: t.tt, text: t.value@, end: self.pos as int });
                    let ghost before = token_views(tokens@);
                    tokens.push(t);
                    assert(token_views(tokens@) =~= before.push(t@));
                    assert(before.push(t@) + lex_from(s, self.pos as int).tokens =~= before + (seq![t@]
                        + lex_from(s, self.pos as int).tokens));
                },
                None => {
                    assert(scan(s, q) == Scan::Unexpected);
                    let ghost before = self.skipped();
                    let u = UnexpectedChar { line, col, ch };
                    self.unexpected.push(u);
                    assert(self.skipped() =~= before.push(u@));
                    self.advance();
                    assert(before.push(u@) + lex_from(s, self.pos as int).unexpected =~= before + (seq![u@]
                        + lex_from(s, self.pos as int).unexpected));
                },
            }
        }
        assert forall|i: int| 0 <= i < tokens@.len() - 1 implies (#[trigger] tokens@[i]).tt
            != TokenType::Eof by {
            assert(token_views(tokens@)[i] == tokens@[i]@);
        }
        assert(tokens@.last()@ == token_views(tokens@).last());
        tokens
    }
}

} // verus!
