use vstd::prelude::*;

verus! {

/// The kinds of lexical token.
#[derive(Debug, Clone, Copy, PartialEq, Eq, Structural)]
pub enum TokenType {
    Eof,
    Ident,
    String,
    Number,
    LParen,
    RParen,
    LBrace,
    RBrace,
    LBracket,
    RBracket,
    Semicolon,
    Comma,
    Dot,
    Colon,
    Eq,
    EqEq,
    Neq,
    Lt,
    Gt,
    Lte,
    Gte,
    Plus,
    Minus,
    Star,
    Slash,
    Percent,
    PlusEq,
    MinusEq,
    And,
    Or,
    Not,
    Arrow,
}

/// The printed name of a token kind, as used in error messages.
pub open spec fn token_name_spec(tt: TokenType) -> Seq<char> {
    match tt {
        TokenType::Eof => "EOF"@,
        TokenType::Ident => "IDENT"@,
        TokenType::String => "STRING"@,
        TokenType::Number => "NUMBER"@,
        TokenType::LParen => "("@,
        TokenType::RParen => ")"@,
        TokenType::LBrace => "{"@,
        TokenType::RBrace => "}"@,
        TokenType::LBracket => "["@,
        TokenType::RBracket => "]"@,
        TokenType::Semicolon => ";"@,
        TokenType::Comma => ","@,
        TokenType::Dot => "."@,
        TokenType::Colon => ":"@,
        TokenType::Eq => "="@,
        TokenType::EqEq => "=="@,
        TokenType::Neq => "!="@,
        TokenType::Lt => "<"@,
        TokenType::Gt => ">"@,
        TokenType::Lte => "<="@,
        TokenType::Gte => ">="@,
        TokenType::Plus => "+"@,
        TokenType::Minus => "-"@,
        TokenType::Star => "*"@,
        TokenType::Slash => "/"@,
        TokenType::Percent => "%"@,
        TokenType::PlusEq => "+="@,
        TokenType::MinusEq => "-="@,
        TokenType::And => "&&"@,
        TokenType::Or => "||"@,
        TokenType::Not => "!"@,
        TokenType::Arrow => "->"@,
    }
}

impl TokenType {
    pub fn name(&self) -> (r: &'static str)
        ensures
            r@ == token_name_spec(*self),
    {
        match self {
            TokenType::Eof => "EOF",
            TokenType::Ident => "IDENT",
            TokenType::String => "STRING",
            TokenType::Number => "NUMBER",
            TokenType::LParen => "(",
            TokenType::RParen => ")",
            TokenType::LBrace => "{",
            TokenType::RBrace => "}",
            TokenType::LBracket => "[",
            TokenType::RBracket => "]",
            TokenType::Semicolon => ";",
            TokenType::Comma => ",",
            TokenType::Dot => ".",
            TokenType::Colon => ":",
            TokenType::Eq => "=",
            TokenType::EqEq => "==",
            TokenType::Neq => "!=",
            TokenType::Lt => "<",
            TokenType::Gt => ">",
            TokenType::Lte => "<=",
            TokenType::Gte => ">=",
            TokenType::Plus => "+",
            TokenType::Minus => "-",
            TokenType::Star => "*",
            TokenType::Slash => "/",
            TokenType::Percent => "%",
            TokenType::PlusEq => "+=",
            TokenType::MinusEq => "-=",
            TokenType::And => "&&",
            TokenType::Or => "||",
            TokenType::Not => "!",
            TokenType::Arrow => "->",
        }
    }
}

/// A token: its kind, its text (for strings, the unescaped contents) and the
/// line and column at which it starts, both counted from 1.
#[derive(Debug, Clone)]
pub struct Token {
    pub tt: TokenType,
    pub value: String,
    pub line: usize,
    pub col: usize,
}

/// What a token denotes, with its text as a sequence of characters.
pub struct TokenView {
    pub tt: TokenType,
    pub value: Seq<char>,
    pub line: nat,
    pub col: nat,
}

impl View for Token {
    type V = TokenView;

    open spec fn view(&self) -> TokenView {
        TokenView { tt: self.tt, value: self.value@, line: self.line as nat, col: self.col as nat }
    }
}

/// The views of a sequence of tokens.
pub open spec fn token_views(v: Seq<Token>) -> Seq<TokenView> {
    v.map_values(|t: Token| t@)
}

impl Token {
    pub fn new(tt: TokenType, value: &str, line: usize, col: usize) -> (r: Self)
        ensures
            r@ == (TokenView { tt, value: value@, line: line as nat, col: col as nat }),
    {
        broadcast use vstd::string::group_string_axioms;

        Token { tt, value: value.to_string(), line, col }
    }

    /// The end-of-input token with no position.
    pub fn eof() -> (r: Self)
        ensures
            r@ == (TokenView { tt: TokenType::Eof, value: Seq::<char>::empty(), line: 0, col: 0 }),
    {
        Token { tt: TokenType::Eof, value: String::new(), line: 0, col: 0 }
    }

    /// A copy of this token.
    pub fn duplicate(&self) -> (r: Self)
        ensures
            r@ == self@,
    {
        Token { tt: self.tt, value: self.value.clone(), line: self.line, col: self.col }
    }
}

} // verus!
