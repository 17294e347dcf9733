use bel_lang::lexer::{Lexer, UnexpectedChar};
use bel_lang::token::{Token, TokenType};

fn lex(src: &str) -> Vec<Token> {
    let mut lexer = Lexer::new(src);
    lexer.tokenize()
}

fn shape(tokens: &[Token]) -> Vec<(TokenType, String, usize, usize)> {
    tokens
        .iter()
        .map(|t| (t.tt, t.value.clone(), t.line, t.col))
        .collect()
}

fn tok(tt: TokenType, v: &str, line: usize, col: usize) -> (TokenType, String, usize, usize) {
    (tt, v.to_string(), line, col)
}

#[test]
fn lexes_a_declaration_with_positions() {
    let toks = lex("var x = 5;");
    assert_eq!(
        shape(&toks),
        vec![
            tok(TokenType::Ident, "var", 1, 1),
            tok(TokenType::Ident, "x", 1, 5),
            tok(TokenType::Eq, "=", 1, 7),
            tok(TokenType::Number, "5", 1, 9),
            tok(TokenType::Semicolon, ";", 1, 10),
            tok(TokenType::Eof, "", 1, 11),
        ]
    );
}

#[test]
fn empty_source_gives_only_eof() {
    assert_eq!(shape(&lex("")), vec![tok(TokenType::Eof, "", 1, 1)]);
}

#[test]
fn whitespace_only_source_ends_after_it() {
    assert_eq!(shape(&lex("  \n\t")), vec![tok(TokenType::Eof, "", 2, 2)]);
}

#[test]
fn lexes_two_character_operators_first() {
    let toks = lex("-> && || != ! += -= == <= >= = + - * / % < >");
    let kinds: Vec<TokenType> = toks.iter().map(|t| t.tt).collect();
    assert_eq!(
        kinds,
        vec![
            TokenType::Arrow,
            TokenType::And,
            TokenType::Or,
            TokenType::Neq,
            TokenType::Not,
            TokenType::PlusEq,
            TokenType::MinusEq,
            TokenType::EqEq,
            TokenType::Lte,
            TokenType::Gte,
            TokenType::Eq,
            TokenType::Plus,
            TokenType::Minus,
            TokenType::Star,
            TokenType::Slash,
            TokenType::Percent,
            TokenType::Lt,
            TokenType::Gt,
            TokenType::Eof,
        ]
    );
    let values: Vec<&str> = toks.iter().map(|t| t.value.as_str()).collect();
    assert_eq!(
        values,
        vec![
            "->", "&&", "||", "!=", "!", "+=", "-=", "==", "<=", ">=", "=", "+", "-", "*", "/",
            "%", "<", ">", ""
        ]
    );
}

#[test]
fn lexes_punctuation() {
    let toks = lex("(){}[];,:.");
    let kinds: Vec<TokenType> = toks.iter().map(|t| t.tt).collect();
    assert_eq!(
        kinds,
        vec![
            TokenType::LParen,
            TokenType::RParen,
            TokenType::LBrace,
            TokenType::RBrace,
            TokenType::LBracket,
            TokenType::RBracket,
            TokenType::Semicolon,
            TokenType::Comma,
            TokenType::Colon,
            TokenType::Dot,
            TokenType::Eof,
        ]
    );
    assert_eq!(toks[9].col, 10);
}

#[test]
fn skips_line_and_block_comments() {
    let toks = lex("// note\nx /* a\n comment */ y");
    assert_eq!(
        shape(&toks),
        vec![
            tok(TokenType::Ident, "x", 2, 1),
            tok(TokenType::Ident, "y", 3, 13),
            tok(TokenType::Eof, "", 3, 14),
        ]
    );
}

#[test]
fn unterminated_block_comment_leaves_its_last_character() {
    let toks = lex("/* abc");
    assert_eq!(
        shape(&toks),
        vec![tok(TokenType::Ident, "c", 1, 6), tok(TokenType::Eof, "", 1, 7)]
    );
}

#[test]
fn lone_slash_is_division() {
    let toks = lex("a / b");
    assert_eq!(toks[1].tt, TokenType::Slash);
}

#[test]
fn reads_strings_with_escapes() {
    let toks = lex(r#""a\nb\t\"q\" \\ \x \0""#);
    assert_eq!(toks[0].tt, TokenType::String);
    assert_eq!(toks[0].value, "a\nb\t\"q\" \\ \\x \0");
    assert_eq!(toks[1].tt, TokenType::Eof);
}

#[test]
fn reads_single_quoted_strings() {
    let toks = lex(r"'it\'s' 'x'");
    assert_eq!(
        shape(&toks),
        vec![
            tok(TokenType::String, "it's", 1, 1),
            tok(TokenType::String, "x", 1, 9),
            tok(TokenType::Eof, "", 1, 12),
        ]
    );
}

#[test]
fn unterminated_string_runs_to_the_end() {
    let toks = lex("\"abc");
    assert_eq!(
        shape(&toks),
        vec![tok(TokenType::String, "abc", 1, 1), tok(TokenType::Eof, "", 1, 5)]
    );
}

#[test]
fn string_with_newline_moves_the_line() {
    let toks = lex("\"a\nb\" c");
    assert_eq!(toks[0].value, "a\nb");
    assert_eq!((toks[1].line, toks[1].col), (2, 4));
}

#[test]
fn reads_numbers_with_one_fraction() {
    let toks = lex("3.14 7. 10 1.2.3");
    assert_eq!(
        shape(&toks),
        vec![
            tok(TokenType::Number, "3.14", 1, 1),
            tok(TokenType::Number, "7", 1, 6),
            tok(TokenType::Dot, ".", 1, 7),
            tok(TokenType::Number, "10", 1, 9),
            tok(TokenType::Number, "1.2", 1, 12),
            tok(TokenType::Dot, ".", 1, 15),
            tok(TokenType::Number, "3", 1, 16),
            tok(TokenType::Eof, "", 1, 17),
        ]
    );
}

#[test]
fn reads_unicode_and_underscore_identifiers() {
    let toks = lex("héllo _x1 a2b");
    assert_eq!(
        shape(&toks),
        vec![
            tok(TokenType::Ident, "héllo", 1, 1),
            tok(TokenType::Ident, "_x1", 1, 7),
            tok(TokenType::Ident, "a2b", 1, 11),
            tok(TokenType::Eof, "", 1, 14),
        ]
    );
}

#[test]
fn number_then_letters_split() {
    let toks = lex("12ab");
    assert_eq!(
        shape(&toks),
        vec![
            tok(TokenType::Number, "12", 1, 1),
            tok(TokenType::Ident, "ab", 1, 3),
            tok(TokenType::Eof, "", 1, 5),
        ]
    );
}

#[test]
fn skips_and_records_unexpected_characters() {
    let mut lexer = Lexer::new("a @ b\n#");
    let toks = lexer.tokenize();
    assert_eq!(
        shape(&toks),
        vec![
            tok(TokenType::Ident, "a", 1, 1),
            tok(TokenType::Ident, "b", 1, 5),
            tok(TokenType::Eof, "", 2, 2),
        ]
    );
    assert_eq!(
        lexer.unexpected_chars().clone(),
        vec![
            UnexpectedChar { line: 1, col: 3, ch: '@' },
            UnexpectedChar { line: 2, col: 1, ch: '#' },
        ]
    );
}

#[test]
fn lone_ampersand_and_bar_are_unexpected() {
    let mut lexer = Lexer::new("& |");
    let toks = lexer.tokenize();
    assert_eq!(toks.len(), 1);
    assert_eq!(lexer.unexpected_chars().len(), 2);
    assert_eq!(lexer.unexpected_chars()[1].ch, '|');
}

#[test]
fn tokenize_always_ends_with_a_single_eof() {
    for src in ["", "x", "\"open", "/*", "1 + 2", "@@", "fn f() { return 1; }"] {
        let toks = lex(src);
        assert_eq!(toks.last().unwrap().tt, TokenType::Eof);
        assert_eq!(toks.iter().filter(|t| t.tt == TokenType::Eof).count(), 1);
    }
}

#[test]
fn tokens_come_in_reading_order() {
    let toks = lex("fn f(a) {\n  // c\n  return a +\n 1; } /* x\n */ f(2)");
    for w in toks.windows(2) {
        let (a, b) = (&w[0], &w[1]);
        assert!(a.line < b.line || (a.line == b.line && a.col < b.col), "{:?} {:?}", a, b);
    }
    let ret = toks.iter().find(|t| t.value == "return").unwrap();
    assert_eq!((ret.line, ret.col), (3, 3));
    let last_call = &toks[toks.len() - 5];
    assert_eq!((last_call.value.as_str(), last_call.line, last_call.col), ("f", 5, 5));
}

#[test]
fn token_text_fits_its_kind() {
    let toks = lex("fn _f1(a, b2) -> x { return a.b[0] + 3.25 * 7 != 'q' && !y || z <= 1 } 9. é_2");
    for t in &toks {
        match t.tt {
            TokenType::Eof => assert_eq!(t.value, ""),
            TokenType::String => {}
            TokenType::Ident => {
                let mut cs = t.value.chars();
                let first = cs.next().unwrap();
                assert!(first.is_alphabetic() || first == '_');
                assert!(cs.all(|c| c.is_alphanumeric() || c == '_'));
            }
            TokenType::Number => {
                let parts: Vec<&str> = t.value.split('.').collect();
                assert!(parts.len() == 1 || parts.len() == 2);
                assert!(parts.iter().all(|p| !p.is_empty() && p.chars().all(|c| c.is_ascii_digit())));
            }
            tt => assert_eq!(t.value, tt.name()),
        }
    }
    assert!(toks.iter().any(|t| t.tt == TokenType::Number && t.value == "3.25"));
    assert!(toks.iter().any(|t| t.tt == TokenType::Ident && t.value == "é_2"));
}

#[test]
fn unexpected_character_message() {
    let mut lexer = Lexer::new("a\n  @");
    lexer.tokenize();
    assert_eq!(lexer.unexpected_chars()[0].message(), "line 2:3: unexpected character '@'");
}
