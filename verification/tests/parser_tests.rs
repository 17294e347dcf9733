use bel_lang::ast::{ASTNode, Program};
use bel_lang::lexer::Lexer;
use bel_lang::parser::{ParseError, Parser};
use bel_lang::token::{Token, TokenType};
use bel_lang::types::BType;

fn parse_src(src: &str) -> Result<Program, ParseError> {
    let mut lexer = Lexer::new(src);
    let tokens = lexer.tokenize();
    let mut parser = Parser::new(tokens);
    match parser.check() {
        Ok(()) => Ok(parser.parse()),
        Err(e) => Err(e),
    }
}

fn parse_ok(src: &str) -> Vec<ASTNode> {
    match parse_src(src) {
        Ok(p) => p.stmts,
        Err(e) => panic!("parse failed: {:?}", e),
    }
}

fn only_expr(src: &str) -> ASTNode {
    let mut stmts = parse_ok(src);
    assert_eq!(stmts.len(), 1);
    match stmts.remove(0) {
        ASTNode::ExprStmt(e) => *e.expr,
        other => panic!("not an expression statement: {:?}", other),
    }
}

fn num(n: &ASTNode) -> &str {
    match n {
        ASTNode::NumLit(l) => &l.value,
        other => panic!("not a number: {:?}", other),
    }
}

fn ident(n: &ASTNode) -> &str {
    match n {
        ASTNode::Ident(i) => &i.name,
        other => panic!("not a name: {:?}", other),
    }
}

#[test]
fn empty_program_has_no_statements() {
    assert!(parse_ok("").is_empty());
    assert!(parse_ok("  // nothing\n").is_empty());
}

#[test]
fn parser_on_no_tokens_sees_end_of_input() {
    let mut parser = Parser::new(Vec::new());
    assert!(parser.check().is_ok());
    assert!(parser.parse().stmts.is_empty());
    let mut parser = Parser::new(vec![Token::eof()]);
    assert!(parser.check().is_ok());
    assert!(parser.parse().stmts.is_empty());
}

#[test]
fn check_leaves_the_position_and_parse_follows() {
    let mut lexer = Lexer::new("x = 1; y");
    let mut parser = Parser::new(lexer.tokenize());
    assert!(parser.check().is_ok());
    assert!(parser.check().is_ok());
    assert_eq!(parser.parse().stmts.len(), 2);
}

#[test]
fn statements_never_outnumber_tokens() {
    for src in ["", "x", "a; b; c;", ";;", "f(1) g(2) h(3)", "break continue return"] {
        let mut lexer = Lexer::new(src);
        let tokens = lexer.tokenize();
        let n = tokens.len();
        let mut parser = Parser::new(tokens);
        if parser.check().is_ok() {
            assert!(parser.parse().stmts.len() <= n);
        }
    }
}

#[test]
fn multiplication_binds_tighter_than_addition() {
    let e = only_expr("1 + 2 * 3;");
    match e {
        ASTNode::BinExpr(b) => {
            assert_eq!(b.op, "+");
            assert_eq!(num(&b.left), "1");
            match *b.right {
                ASTNode::BinExpr(r) => {
                    assert_eq!(r.op, "*");
                    assert_eq!(num(&r.left), "2");
                    assert_eq!(num(&r.right), "3");
                }
                other => panic!("{:?}", other),
            }
        }
        other => panic!("{:?}", other),
    }
}

#[test]
fn subtraction_is_left_associative() {
    let e = only_expr("a - b - c");
    match e {
        ASTNode::BinExpr(b) => {
            assert_eq!(b.op, "-");
            assert_eq!(ident(&b.right), "c");
            match *b.left {
                ASTNode::BinExpr(l) => {
                    assert_eq!(l.op, "-");
                    assert_eq!(ident(&l.left), "a");
                    assert_eq!(ident(&l.right), "b");
                }
                other => panic!("{:?}", other),
            }
        }
        other => panic!("{:?}", other),
    }
}

#[test]
fn logical_operators_have_lowest_precedence() {
    let e = only_expr("a < 1 || b == 2 && !c");
    match e {
        ASTNode::BinExpr(b) => {
            assert_eq!(b.op, "||");
            match (*b.left, *b.right) {
                (ASTNode::BinExpr(l), ASTNode::BinExpr(r)) => {
                    assert_eq!(l.op, "<");
                    assert_eq!(r.op, "&&");
                    match (*r.left, *r.right) {
                        (ASTNode::BinExpr(eq), ASTNode::UnaryExpr(not)) => {
                            assert_eq!(eq.op, "==");
                            assert_eq!(not.op, "!");
                            assert_eq!(ident(&not.expr), "c");
                        }
                        other => panic!("{:?}", other),
                    }
                }
                other => panic!("{:?}", other),
            }
        }
        other => panic!("{:?}", other),
    }
}

#[test]
fn unary_minus_applies_to_a_postfix_operand() {
    let e = only_expr("-x * y");
    match e {
        ASTNode::BinExpr(b) => {
            assert_eq!(b.op, "*");
            match *b.left {
                ASTNode::UnaryExpr(u) => {
                    assert_eq!(u.op, "-");
                    assert_eq!(ident(&u.expr), "x");
                }
                other => panic!("{:?}", other),
            }
        }
        other => panic!("{:?}", other),
    }
}

#[test]
fn parentheses_group() {
    let e = only_expr("(1 + 2) * 3");
    match e {
        ASTNode::BinExpr(b) => {
            assert_eq!(b.op, "*");
            assert!(matches!(*b.left, ASTNode::BinExpr(_)));
        }
        other => panic!("{:?}", other),
    }
}

#[test]
fn literals_and_null() {
    let stmts = parse_ok("true; false; null; \"s\"; 4.5;");
    let exprs: Vec<ASTNode> = stmts
        .into_iter()
        .map(|s| match s {
            ASTNode::ExprStmt(e) => *e.expr,
            other => panic!("{:?}", other),
        })
        .collect();
    assert!(matches!(&exprs[0], ASTNode::BoolLit(b) if b.value));
    assert!(matches!(&exprs[1], ASTNode::BoolLit(b) if !b.value));
    assert_eq!(ident(&exprs[2]), "null");
    assert!(matches!(&exprs[3], ASTNode::StringLit(s) if s.value == "s"));
    assert_eq!(num(&exprs[4]), "4.5");
}

#[test]
fn calls_indexing_and_properties() {
    let e = only_expr("f(1, g(2))[0].size");
    match e {
        ASTNode::DotExpr(d) => {
            assert_eq!(d.right, "size");
            match *d.left {
                ASTNode::IndexExpr(ix) => {
                    assert_eq!(num(&ix.index), "0");
                    match *ix.obj {
                        ASTNode::CallExpr(c) => {
                            assert_eq!(c.name, "f");
                            assert_eq!(c.args.len(), 2);
                            assert!(matches!(&c.args[1], ASTNode::CallExpr(g) if g.name == "g"));
                        }
                        other => panic!("{:?}", other),
                    }
                }
                other => panic!("{:?}", other),
            }
        }
        other => panic!("{:?}", other),
    }
}

#[test]
fn calling_a_call_reuses_its_name() {
    let e = only_expr("f(1)(2)");
    match e {
        ASTNode::CallExpr(c) => {
            assert_eq!(c.name, "f");
            assert_eq!(c.args.len(), 1);
            assert_eq!(num(&c.args[0]), "2");
        }
        other => panic!("{:?}", other),
    }
}

#[test]
fn array_literals_nest() {
    let e = only_expr("[1, [2], []]");
    match e {
        ASTNode::ArrayLit(a) => {
            assert_eq!(a.elems.len(), 3);
            assert!(matches!(&a.elems[1], ASTNode::ArrayLit(x) if x.elems.len() == 1));
            assert!(matches!(&a.elems[2], ASTNode::ArrayLit(x) if x.elems.is_empty()));
        }
        other => panic!("{:?}", other),
    }
}

#[test]
fn var_declarations_with_and_without_type() {
    let stmts = parse_ok("var x = 1; var s: ster = 'a'");
    match &stmts[0] {
        ASTNode::VarDecl(v) => {
            assert_eq!(v.name, "x");
            assert_eq!(v.var_type, BType::Any);
            assert!(!v.has_type && !v.is_bel && !v.is_ster);
        }
        other => panic!("{:?}", other),
    }
    match &stmts[1] {
        ASTNode::VarDecl(v) => {
            assert_eq!(v.name, "s");
            assert_eq!(v.var_type, BType::Ster);
            assert!(v.has_type);
            assert!(!v.is_ster);
        }
        other => panic!("{:?}", other),
    }
}

#[test]
fn typed_declarations_mark_bel_and_ster() {
    let stmts = parse_ok("bel b = 5; ster s = \"x\"; float f = 1.5; any a = 1; bool t = true; string u = 'q';");
    let expect = [
        ("b", BType::Bel, true, false),
        ("s", BType::Ster, false, true),
        ("f", BType::Float, false, false),
        ("a", BType::Any, false, false),
        ("t", BType::Bool, false, false),
        ("u", BType::String, false, false),
    ];
    assert_eq!(stmts.len(), expect.len());
    for (s, (name, ty, bel, ster)) in stmts.iter().zip(expect.iter()) {
        match s {
            ASTNode::VarDecl(v) => {
                assert_eq!(&v.name, name);
                assert_eq!(v.var_type, *ty);
                assert!(v.has_type);
                assert_eq!(v.is_bel, *bel);
                assert_eq!(v.is_ster, *ster);
            }
            other => panic!("{:?}", other),
        }
    }
}

#[test]
fn int_is_not_a_declaration_keyword() {
    let stmts = parse_ok("int(x);");
    assert!(matches!(&stmts[0], ASTNode::ExprStmt(_)));
}

#[test]
fn assignments_and_compound_assignments() {
    let stmts = parse_ok("x = 1; y += 2; z -= 3; a[0] = 4;");
    assert_eq!(stmts.len(), 4);
    match &stmts[1] {
        ASTNode::Assign(a) => {
            assert_eq!(ident(&a.target), "y");
            match &*a.value {
                ASTNode::BinExpr(b) => {
                    assert_eq!(b.op, "+");
                    assert_eq!(ident(&b.left), "y");
                    assert_eq!(num(&b.right), "2");
                }
                other => panic!("{:?}", other),
            }
        }
        other => panic!("{:?}", other),
    }
    match &stmts[2] {
        ASTNode::Assign(a) => {
            assert!(matches!(&*a.value, ASTNode::BinExpr(b) if b.op == "-"));
        }
        other => panic!("{:?}", other),
    }
    match &stmts[3] {
        ASTNode::Assign(a) => assert!(matches!(&*a.target, ASTNode::IndexExpr(_))),
        other => panic!("{:?}", other),
    }
}

#[test]
fn function_declaration_with_types() {
    let stmts = parse_ok("fn add(a: float, b, c: bel): float { return a + b; }");
    match &stmts[0] {
        ASTNode::FnDecl(f) => {
            assert_eq!(f.name, "add");
            let params: Vec<(String, BType)> =
                f.params.iter().map(|p| (p.name.clone(), p.param_type)).collect();
            assert_eq!(
                params,
                vec![
                    ("a".to_string(), BType::Float),
                    ("b".to_string(), BType::Any),
                    ("c".to_string(), BType::Bel),
                ]
            );
            assert!(f.has_ret_type);
            assert_eq!(f.return_type, BType::Float);
            match &*f.body {
                ASTNode::BlockStmt(b) => {
                    assert_eq!(b.body.len(), 1);
                    assert!(matches!(&b.body[0], ASTNode::ReturnStmt(r) if r.value.is_some()));
                }
                other => panic!("{:?}", other),
            }
        }
        other => panic!("{:?}", other),
    }
}

#[test]
fn function_without_parameters_or_return_type() {
    let stmts = parse_ok("fn f() { return }");
    match &stmts[0] {
        ASTNode::FnDecl(f) => {
            assert!(f.params.is_empty());
            assert!(!f.has_ret_type);
            assert_eq!(f.return_type, BType::Any);
            match &*f.body {
                ASTNode::BlockStmt(b) => {
                    assert!(matches!(&b.body[0], ASTNode::ReturnStmt(r) if r.value.is_none()))
                }
                other => panic!("{:?}", other),
            }
        }
        other => panic!("{:?}", other),
    }
}

#[test]
fn if_else_if_else_chain() {
    let stmts = parse_ok("if a { x; } else if b { y; } else { z; }");
    match &stmts[0] {
        ASTNode::IfStmt(i) => {
            assert_eq!(ident(&i.cond), "a");
            match i.else_body.as_deref() {
                Some(ASTNode::IfStmt(inner)) => {
                    assert_eq!(ident(&inner.cond), "b");
                    assert!(matches!(inner.else_body.as_deref(), Some(ASTNode::BlockStmt(_))));
                }
                other => panic!("{:?}", other),
            }
        }
        other => panic!("{:?}", other),
    }
}

#[test]
fn while_and_for_loops_with_break_and_continue() {
    let stmts = parse_ok("while i < 3 { break; } for c in \"ab\" { continue }");
    match &stmts[0] {
        ASTNode::WhileStmt(w) => match &*w.body {
            ASTNode::BlockStmt(b) => assert!(matches!(b.body[0], ASTNode::BreakStmt)),
            other => panic!("{:?}", other),
        },
        other => panic!("{:?}", other),
    }
    match &stmts[1] {
        ASTNode::ForStmt(f) => {
            assert_eq!(f.var, "c");
            assert!(matches!(&*f.iter, ASTNode::StringLit(_)));
            match &*f.body {
                ASTNode::BlockStmt(b) => assert!(matches!(b.body[0], ASTNode::ContinueStmt)),
                other => panic!("{:?}", other),
            }
        }
        other => panic!("{:?}", other),
    }
}

#[test]
fn for_accepts_any_word_in_place_of_in() {
    let stmts = parse_ok("for x over xs { }");
    assert!(matches!(&stmts[0], ASTNode::ForStmt(f) if f.var == "x"));
}

#[test]
fn nested_blocks() {
    let stmts = parse_ok("{ { x; } y; }");
    match &stmts[0] {
        ASTNode::BlockStmt(b) => {
            assert_eq!(b.body.len(), 2);
            assert!(matches!(&b.body[0], ASTNode::BlockStmt(_)));
        }
        other => panic!("{:?}", other),
    }
}

#[test]
fn idb_declarations_read_their_number() {
    let stmts = parse_ok("idb 7 = \"x\"; idb 99999999999999999999 = 1; idb 2.5 = 0; idb 9223372036854775807 = 2;");
    let ids: Vec<i64> = stmts
        .iter()
        .map(|s| match s {
            ASTNode::IdbDecl(d) => d.id,
            other => panic!("{:?}", other),
        })
        .collect();
    assert_eq!(ids, vec![7, 0, 0, i64::MAX]);
}

#[test]
fn missing_name_is_an_expected_error() {
    match parse_src("var = 3") {
        Err(ParseError::Expected { expected, found }) => {
            assert_eq!(expected, TokenType::Ident);
            assert_eq!(found.tt, TokenType::Eq);
            assert_eq!((found.line, found.col), (1, 5));
        }
        other => panic!("{:?}", other),
    }
}

#[test]
fn unclosed_block_expects_a_brace_at_eof() {
    match parse_src("{ x;") {
        Err(ParseError::Expected { expected, found }) => {
            assert_eq!(expected, TokenType::RBrace);
            assert_eq!(found.tt, TokenType::Eof);
        }
        other => panic!("{:?}", other),
    }
}

#[test]
fn unknown_type_annotation_is_an_error() {
    match parse_src("var x: int = 3;") {
        Err(ParseError::UnknownType { found }) => {
            assert_eq!(found.value, "int");
            assert_eq!((found.line, found.col), (1, 8));
        }
        other => panic!("{:?}", other),
    }
}

#[test]
fn calling_a_literal_is_not_callable() {
    match parse_src("\n(1)(2)") {
        Err(ParseError::NotCallable { line }) => assert_eq!(line, 2),
        other => panic!("{:?}", other),
    }
}

#[test]
fn operator_where_an_expression_starts_is_unexpected() {
    match parse_src("x = * 2") {
        Err(ParseError::UnexpectedToken { found }) => {
            assert_eq!(found.tt, TokenType::Star);
            assert_eq!(found.col, 5);
        }
        other => panic!("{:?}", other),
    }
    match parse_src("x =") {
        Err(ParseError::UnexpectedToken { found }) => assert_eq!(found.tt, TokenType::Eof),
        other => panic!("{:?}", other),
    }
}

#[test]
fn negative_idb_number_is_an_error() {
    match parse_src("idb -3 = 1") {
        Err(ParseError::Expected { expected, found }) => {
            assert_eq!(expected, TokenType::Number);
            assert_eq!(found.tt, TokenType::Minus);
        }
        other => panic!("{:?}", other),
    }
}

#[test]
fn deep_copy_keeps_the_tree() {
    let stmts = parse_ok("fn f(a: bel) { if a { return [a, 1]; } }");
    let copy = stmts[0].deep_copy();
    assert_eq!(format!("{:?}", copy), format!("{:?}", stmts[0]));
}

#[test]
fn parsing_stops_at_the_first_end_of_input() {
    let tokens = vec![
        Token::new(TokenType::Ident, "x", 1, 1),
        Token::new(TokenType::Semicolon, ";", 1, 2),
        Token::eof(),
        Token::new(TokenType::Ident, "y", 2, 1),
        Token::eof(),
    ];
    let mut parser = Parser::new(tokens);
    assert!(parser.check().is_ok());
    let prog = parser.parse();
    assert_eq!(prog.stmts.len(), 1);
    assert_eq!(ident(match &prog.stmts[0] {
        ASTNode::ExprStmt(e) => &e.expr,
        other => panic!("{:?}", other),
    }), "x");
}

#[test]
fn type_annotations_read_back_every_type_name() {
    for t in [BType::Float, BType::String, BType::Bool, BType::Bel, BType::Ster, BType::Any] {
        let src = format!("var v: {} = 1;", t.name());
        let stmts = parse_ok(&src);
        assert!(matches!(&stmts[0], ASTNode::VarDecl(v) if v.var_type == t && v.has_type));
    }
    for t in [BType::Int, BType::Array, BType::Fn] {
        let src = format!("var v: {} = 1;", t.name());
        match parse_src(&src) {
            Err(ParseError::UnknownType { found }) => assert_eq!(found.value, t.name()),
            other => panic!("{:?}", other),
        }
    }
}

#[test]
fn cloned_nodes_keep_the_tree() {
    let stmts = parse_ok("fn f(a: bel) { if a { return [a, 1]; } else { x += 2; } }");
    let copy = stmts[0].clone();
    assert_eq!(format!("{:?}", copy), format!("{:?}", stmts[0]));
    let prog = parse_src("a; b;").unwrap();
    assert_eq!(format!("{:?}", prog.clone()), format!("{:?}", prog));
}

#[test]
fn parse_error_messages() {
    let msg = |src: &str| parse_src(src).unwrap_err().message();
    assert_eq!(msg("var = 3"), "line 1:5: expected IDENT, got = (=)");
    assert_eq!(msg("var x: int = 3;"), "line 1:8: unknown type 'int'");
    assert_eq!(msg("\n\n(1)(2)"), "line 3: not callable");
    assert_eq!(msg("x = )"), "line 1:5: unexpected token ')' ())");
    assert_eq!(msg("{ x;"), "line 1:5: expected }, got EOF ()");
}
