use vstd::prelude::*;

use crate::lexer::{
    Scan, block_comment_end, char_at, col_at, escape_of, lemma_skip_end, lex_from, line_at,
    line_comment_end, scan, skip_end, string_body, string_end, unicode_alphabetic,
};
use crate::token::{TokenType, TokenView};

verus! {

proof fn lemma_plain_string_body(s: Seq<char>, p: int, quote: char)
    requires
        1 <= p <= s.len() - 1,
        s[s.len() - 1] == quote,
        forall|i: int| 1 <= i < s.len() - 1 ==> #[trigger] s[i] != quote && s[i] != '\\',
    ensures
        string_body(s, p, quote) == (s.subrange(p, s.len() - 1), s.len() - 1),
    decreases s.len() - p,
{
    if p < s.len() - 1 {
        lemma_plain_string_body(s, p + 1, quote);
        assert(s.subrange(p, s.len() - 1) =~= seq![s[p]] + s.subrange(p + 1, s.len() - 1));
    } else {
        assert(s.subrange(p, s.len() - 1) =~= Seq::<char>::empty());
    }
}

/// A string literal ends only at the quote that opened it: a source that is
/// a quote, a body with neither that quote nor a backslash, and the same
/// quote again lexes to one string token holding the body, then `Eof`. (So
/// a `'` inside `"..."`, or a `"` inside `'...'`, stays in the string.)
pub proof fn law_string_literal(s: Seq<char>, quote: char)
    requires
        quote == '"' || quote == '\'',
        s.len() >= 2,
        s[0] == quote,
        s[s.len() - 1] == quote,
        forall|i: int| 1 <= i < s.len() - 1 ==> #[trigger] s[i] != quote && s[i] != '\\',
    ensures
        lex_from(s, 0).tokens.len() == 2,
        lex_from(s, 0).tokens[0] == (TokenView {
            tt: TokenType::String,
            value: s.subrange(1, s.len() - 1),
            line: 1,
            col: 1,
        }),
        lex_from(s, 0).tokens[1].tt == TokenType::Eof,
        lex_from(s, 0).unexpected.len() == 0,
{
    lemma_plain_string_body(s, 1, quote);
    assert(skip_end(s, 0) == 0);
    assert(skip_end(s, s.len() as int) == s.len());
    let rest = lex_from(s, s.len() as int);
    assert(rest.tokens.len() == 1 && rest.tokens[0].tt == TokenType::Eof && rest.unexpected.len() == 0);
    assert(line_at(s, 0) == 1 && col_at(s, 0) == 1);
    assert(string_end(s, 0, quote) == s.len());
}

/// Operators and punctuation: a two-character operator is taken whole when
/// both its characters are there, and otherwise its first character is a
/// token of its own; a lone `&` or `|` starts no token. (Stated for a first
/// character that is not alphabetic, which `char_is_alphabetic` gives for
/// every ASCII character that is not a letter.)
pub proof fn law_operator_tokens(s: Seq<char>, q: int)
    requires
        0 <= q < s.len(),
        !unicode_alphabetic(s[q]),
    ensures
        s[q] == '-' && char_at(s, q + 1) == '>' ==> scan(s, q) == (Scan::Tok { tt: TokenType::Arrow, text: "->"@, end: q + 2 }),
        s[q] == '&' && char_at(s, q + 1) == '&' ==> scan(s, q) == (Scan::Tok { tt: TokenType::And, text: "&&"@, end: q + 2 }),
        s[q] == '|' && char_at(s, q + 1) == '|' ==> scan(s, q) == (Scan::Tok { tt: TokenType::Or, text: "||"@, end: q + 2 }),
        s[q] == '!' && char_at(s, q + 1) == '=' ==> scan(s, q) == (Scan::Tok { tt: TokenType::Neq, text: "!="@, end: q + 2 }),
        s[q] == '+' && char_at(s, q + 1) == '=' ==> scan(s, q) == (Scan::Tok { tt: TokenType::PlusEq, text: "+="@, end: q + 2 }),
        s[q] == '-' && char_at(s, q + 1) == '=' ==> scan(s, q) == (Scan::Tok { tt: TokenType::MinusEq, text: "-="@, end: q + 2 }),
        s[q] == '=' && char_at(s, q + 1) == '=' ==> scan(s, q) == (Scan::Tok { tt: TokenType::EqEq, text: "=="@, end: q + 2 }),
        s[q] == '<' && char_at(s, q + 1) == '=' ==> scan(s, q) == (Scan::Tok { tt: TokenType::Lte, text: "<="@, end: q + 2 }),
        s[q] == '>' && char_at(s, q + 1) == '=' ==> scan(s, q) == (Scan::Tok { tt: TokenType::Gte, text: ">="@, end: q + 2 }),
        s[q] == '!' && char_at(s, q + 1) != '=' ==> scan(s, q) == (Scan::Tok { tt: TokenType::Not, text: "!"@, end: q + 1 }),
        s[q] == '+' && char_at(s, q + 1) != '=' ==> scan(s, q) == (Scan::Tok { tt: TokenType::Plus, text: "+"@, end: q + 1 }),
        s[q] == '=' && char_at(s, q + 1) != '=' ==> scan(s, q) == (Scan::Tok { tt: TokenType::Eq, text: "="@, end: q + 1 }),
        s[q] == '<' && char_at(s, q + 1) != '=' ==> scan(s, q) == (Scan::Tok { tt: TokenType::Lt, text: "<"@, end: q + 1 }),
        s[q] == '>' && char_at(s, q + 1) != '=' ==> scan(s, q) == (Scan::Tok { tt: TokenType::Gt, text: ">"@, end: q + 1 }),
        s[q] == '-' && char_at(s, q + 1) != '=' && char_at(s, q + 1) != '>' ==> scan(s, q) == (Scan::Tok { tt: TokenType::Minus, text: "-"@, end: q + 1 }),
        s[q] == '*' ==> scan(s, q) == (Scan::Tok { tt: TokenType::Star, text: "*"@, end: q + 1 }),
        s[q] == '/' ==> scan(s, q) == (Scan::Tok { tt: TokenType::Slash, text: "/"@, end: q + 1 }),
        s[q] == '%' ==> scan(s, q) == (Scan::Tok { tt: TokenType::Percent, text: "%"@, end: q + 1 }),
        s[q] == '(' ==> scan(s, q) == (Scan::Tok { tt: TokenType::LParen, text: "("@, end: q + 1 }),
        s[q] == ')' ==> scan(s, q) == (Scan::Tok { tt: TokenType::RParen, text: ")"@, end: q + 1 }),
        s[q] == '{' ==> scan(s, q) == (Scan::Tok { tt: TokenType::LBrace, text: "{"@, end: q + 1 }),
        s[q] == '}' ==> scan(s, q) == (Scan::Tok { tt: TokenType::RBrace, text: "}"@, end: q + 1 }),
        s[q] == '[' ==> scan(s, q) == (Scan::Tok { tt: TokenType::LBracket, text: "["@, end: q + 1 }),
        s[q] == ']' ==> scan(s, q) == (Scan::Tok { tt: TokenType::RBracket, text: "]"@, end: q + 1 }),
        s[q] == ';' ==> scan(s, q) == (Scan::Tok { tt: TokenType::Semicolon, text: ";"@, end: q + 1 }),
        s[q] == ',' ==> scan(s, q) == (Scan::Tok { tt: TokenType::Comma, text: ","@, end: q + 1 }),
        s[q] == ':' ==> scan(s, q) == (Scan::Tok { tt: TokenType::Colon, text: ":"@, end: q + 1 }),
        s[q] == '.' ==> scan(s, q) == (Scan::Tok { tt: TokenType::Dot, text: "."@, end: q + 1 }),
        s[q] == '&' && char_at(s, q + 1) != '&' ==> scan(s, q) == Scan::Unexpected,
        s[q] == '|' && char_at(s, q + 1) != '|' ==> scan(s, q) == Scan::Unexpected,
{
}

proof fn lemma_line_comment_end_at(s: Seq<char>, p: int, e: int)
    requires
        0 <= p <= e <= s.len(),
        forall|i: int| p <= i < e ==> #[trigger] s[i] != '\n',
        e == s.len() || s[e] == '\n',
    ensures
        line_comment_end(s, p) == e,
    decreases e - p,
{
    if p < e {
        lemma_line_comment_end_at(s, p + 1, e);
    }
}

/// A `//` comment yields no token: lexing from it gives what lexing from the
/// end of its line gives.
pub proof fn law_line_comment_yields_nothing(s: Seq<char>, p: int, e: int)
    requires
        0 <= p,
        p + 2 <= e <= s.len(),
        s[p] == '/',
        s[p + 1] == '/',
        forall|i: int| p + 2 <= i < e ==> #[trigger] s[i] != '\n',
        e == s.len() || s[e] == '\n',
    ensures
        lex_from(s, p) == lex_from(s, e),
{
    lemma_line_comment_end_at(s, p + 1, e);
    assert(skip_end(s, p) == skip_end(s, e));
    lemma_skip_end(s, p);
}

proof fn lemma_block_comment_end_at(s: Seq<char>, p: int, k: int)
    requires
        0 <= p <= k,
        k + 1 < s.len(),
        s[k] == '*',
        s[k + 1] == '/',
        forall|i: int| p <= i < k ==> !(#[trigger] s[i] == '*' && s[i + 1] == '/'),
    ensures
        block_comment_end(s, p) == k + 2,
    decreases k - p,
{
    if p < k {
        lemma_block_comment_end_at(s, p + 1, k);
    }
}

/// A `/* */` comment yields no token: lexing from it gives what lexing from
/// just past its first `*/` gives.
pub proof fn law_block_comment_yields_nothing(s: Seq<char>, p: int, k: int)
    requires
        0 <= p,
        p + 2 <= k,
        k + 1 < s.len(),
        s[p] == '/',
        s[p + 1] == '*',
        s[k] == '*',
        s[k + 1] == '/',
        forall|i: int| p + 2 <= i < k ==> !(#[trigger] s[i] == '*' && s[i + 1] == '/'),
    ensures
        lex_from(s, p) == lex_from(s, k + 2),
{
    lemma_block_comment_end_at(s, p + 2, k);
    assert(skip_end(s, p) == skip_end(s, k + 2));
    lemma_skip_end(s, p);
}

/// The escapes inside a string literal: `\n`, `\t`, `\\`, `\"`, `\'` and
/// `\0` stand for one character each; any other `\c` is kept as the
/// backslash and `c`.
pub proof fn law_escapes(c: char)
    ensures
        c == 'n' ==> escape_of(c) == seq!['\n'],
        c == 't' ==> escape_of(c) == seq!['\t'],
        c == '\\' ==> escape_of(c) == seq!['\\'],
        c == '"' ==> escape_of(c) == seq!['"'],
        c == '\'' ==> escape_of(c) == seq!['\''],
        c == '0' ==> escape_of(c) == seq!['\0'],
        c != 'n' && c != 't' && c != '\\' && c != '"' && c != '\'' && c != '0' ==> escape_of(c)
            == seq!['\\', c],
{
}

} // verus!
