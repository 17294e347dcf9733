use bel_lang::token::{Token, TokenType};
use bel_lang::types::{is_numeric_type, type_compatible, BType};

const ALL: [BType; 9] = [
    BType::Any,
    BType::Int,
    BType::Float,
    BType::String,
    BType::Bool,
    BType::Array,
    BType::Fn,
    BType::Bel,
    BType::Ster,
];

#[test]
fn type_names() {
    let names: Vec<&str> = ALL.iter().map(|t| t.name()).collect();
    assert_eq!(
        names,
        vec!["any", "int", "float", "string", "bool", "array", "fn", "bel", "ster"]
    );
}

#[test]
fn numeric_types() {
    let numeric: Vec<BType> = ALL.iter().copied().filter(|t| is_numeric_type(*t)).collect();
    assert_eq!(numeric, vec![BType::Int, BType::Float, BType::Bel]);
}

#[test]
fn compatibility_cases() {
    assert!(type_compatible(BType::Any, BType::Fn));
    assert!(type_compatible(BType::Array, BType::Any));
    assert!(type_compatible(BType::Int, BType::Float));
    assert!(type_compatible(BType::Bel, BType::Int));
    assert!(type_compatible(BType::Ster, BType::String));
    assert!(type_compatible(BType::String, BType::Ster));
    assert!(!type_compatible(BType::Int, BType::String));
    assert!(!type_compatible(BType::Bool, BType::Int));
    assert!(!type_compatible(BType::Ster, BType::Int));
    assert!(!type_compatible(BType::Fn, BType::Array));
}

#[test]
fn compatibility_is_symmetric_and_reflexive() {
    for a in ALL {
        assert!(type_compatible(a, a));
        for b in ALL {
            assert_eq!(type_compatible(a, b), type_compatible(b, a));
        }
    }
}

#[test]
fn token_kind_names() {
    assert_eq!(TokenType::Eof.name(), "EOF");
    assert_eq!(TokenType::Ident.name(), "IDENT");
    assert_eq!(TokenType::String.name(), "STRING");
    assert_eq!(TokenType::Number.name(), "NUMBER");
    assert_eq!(TokenType::Arrow.name(), "->");
    assert_eq!(TokenType::PlusEq.name(), "+=");
    assert_eq!(TokenType::Not.name(), "!");
    assert_eq!(TokenType::LBracket.name(), "[");
}

#[test]
fn token_constructors() {
    let t = Token::new(TokenType::Number, "42", 3, 7);
    assert_eq!((t.tt, t.value.as_str(), t.line, t.col), (TokenType::Number, "42", 3, 7));
    let e = Token::eof();
    assert_eq!((e.tt, e.value.as_str(), e.line, e.col), (TokenType::Eof, "", 0, 0));
    let d = t.duplicate();
    assert_eq!((d.tt, d.value, d.line, d.col), (TokenType::Number, "42".to_string(), 3, 7));
}
