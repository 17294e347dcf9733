use vstd::prelude::*;

use crate::ast::Tree;
use crate::token::{TokenType, TokenView};
use crate::types::{BType, type_name_spec};

verus! {

// ---------------------------------------------------------------------------
// The grammar, as functions from a token sequence and a position to the tree
// parsed there and the position just past it.
// ---------------------------------------------------------------------------

/// Why parsing stopped.
pub enum ParseFailure {
    /// A token of kind `expected` was required; `found` stood there instead.
    Expected { expected: TokenType, found: TokenView },
    /// A type annotation named no known type.
    UnknownType { found: TokenView },
    /// A call was applied to something that is neither a name nor a call;
    /// `line` is that of the token after the `(`.
    NotCallable { line: nat },
    /// No expression can start with this token.
    UnexpectedToken { found: TokenView },
}

/// A parse step: what was parsed and where parsing continues, or the failure.
pub type Step<T> = Result<(T, int), ParseFailure>;

/// The token that stands in for every position past the end.
pub open spec fn eof_view() -> TokenView {
    TokenView { tt: TokenType::Eof, value: Seq::empty(), line: 0, col: 0 }
}

/// The token at `p`, or the end-of-input token past the end.
pub open spec fn tok(t: Seq<TokenView>, p: int) -> TokenView {
    if 0 <= p < t.len() {
        t[p]
    } else {
        eof_view()
    }
}

pub open spec fn kind(t: Seq<TokenView>, p: int) -> TokenType {
    tok(t, p).tt
}

/// The token at `p` is the identifier `w`.
pub open spec fn at_word(t: Seq<TokenView>, p: int, w: Seq<char>) -> bool {
    kind(t, p) == TokenType::Ident && tok(t, p).value == w
}

/// Steps over an optional token of kind `tt`.
pub open spec fn skip_kind(t: Seq<TokenView>, p: int, tt: TokenType) -> int {
    if kind(t, p) == tt {
        p + 1
    } else {
        p
    }
}

/// The words that start a typed declaration.
pub open spec fn type_word(w: Seq<char>) -> bool {
    w == "float"@ || w == "string"@ || w == "bool"@ || w == "bel"@ || w == "ster"@ || w == "any"@
}

/// The type a type word names.
pub open spec fn type_of_word(w: Seq<char>) -> Option<BType> {
    if w == "float"@ {
        Some(BType::Float)
    } else if w == "string"@ {
        Some(BType::String)
    } else if w == "bool"@ {
        Some(BType::Bool)
    } else if w == "bel"@ {
        Some(BType::Bel)
    } else if w == "ster"@ {
        Some(BType::Ster)
    } else if w == "any"@ {
        Some(BType::Any)
    } else {
        None
    }
}

/// Reading a type back from its printed name gives the type, for the six
/// types that a type annotation can name; the other three names (`int`,
/// `array`, `fn`) name no type in an annotation.
pub proof fn law_type_word_inverts_name(b: BType)
    ensures
        (b == BType::Float || b == BType::String || b == BType::Bool || b == BType::Bel || b
            == BType::Ster || b == BType::Any) ==> type_of_word(type_name_spec(b)) == Some(b),
        (b == BType::Int || b == BType::Array || b == BType::Fn) ==> type_of_word(type_name_spec(b))
            is None,
{
    reveal_strlit("float");
    reveal_strlit("string");
    reveal_strlit("bool");
    reveal_strlit("bel");
    reveal_strlit("ster");
    reveal_strlit("any");
    reveal_strlit("int");
    reveal_strlit("array");
    reveal_strlit("fn");
    assert("float"@.len() == 5 && "string"@.len() == 6 && "bool"@.len() == 4 && "bel"@.len() == 3);
    assert("ster"@.len() == 4 && "any"@.len() == 3 && "int"@.len() == 3 && "array"@.len() == 5);
    assert("fn"@.len() == 2);
    assert("bool"@[0] == 'b' && "ster"@[0] == 's' && "bel"@[0] == 'b' && "any"@[0] == 'a');
    assert("int"@[0] == 'i' && "float"@[0] == 'f' && "array"@[0] == 'a');
}

/// A type annotation whose word is the printed name of a type reads that
/// type and steps over the one token.
pub proof fn law_named_type_of_name(t: Seq<TokenView>, p: int, b: BType)
    requires
        0 <= p < t.len(),
        t[p].tt == TokenType::Ident,
        t[p].value == type_name_spec(b),
        b == BType::Float || b == BType::String || b == BType::Bool || b == BType::Bel || b
            == BType::Ster || b == BType::Any,
    ensures
        named_type(t, p) == Ok::<(BType, int), ParseFailure>((b, p + 1)),
{
    law_type_word_inverts_name(b);
}

/// A token of kind `tt` is required at `p`.
pub open spec fn expect(t: Seq<TokenView>, p: int, tt: TokenType) -> Step<TokenView> {
    if kind(t, p) == tt {
        Ok((tok(t, p), p + 1))
    } else {
        Err(ParseFailure::Expected { expected: tt, found: tok(t, p) })
    }
}

/// What a typed declaration's leading word declares: its type, and whether
/// the variable is a `bel` or a `ster` one.
pub open spec fn typed_decl_kind(w: Seq<char>) -> (BType, bool, bool) {
    if w == "float"@ {
        (BType::Float, false, false)
    } else if w == "string"@ {
        (BType::String, false, false)
    } else if w == "bool"@ {
        (BType::Bool, false, false)
    } else if w == "bel"@ {
        (BType::Bel, true, false)
    } else if w == "ster"@ {
        (BType::Ster, false, true)
    } else {
        (BType::Any, false, false)
    }
}

/// A type name.
pub open spec fn named_type(t: Seq<TokenView>, p: int) -> Step<BType> {
    match expect(t, p, TokenType::Ident) {
        Ok((k, q)) => match type_of_word(k.value) {
            Some(b) => Ok((b, q)),
            None => Err(ParseFailure::UnknownType { found: k }),
        },
        Err(e) => Err(e),
    }
}

/// An optional `: type` annotation: the type (`any` when absent) and whether
/// it was written.
pub open spec fn annotation(t: Seq<TokenView>, p: int) -> Step<(BType, bool)> {
    if kind(t, p) == TokenType::Colon {
        match named_type(t, p + 1) {
            Ok((b, q)) => Ok(((b, true), q)),
            Err(e) => Err(e),
        }
    } else {
        Ok(((BType::Any, false), p))
    }
}

/// A parameter: a name with an optional type.
pub open spec fn param(t: Seq<TokenView>, p: int) -> Step<(Seq<char>, BType)> {
    match expect(t, p, TokenType::Ident) {
        Ok((n, q)) => match annotation(t, q) {
            Ok(((b, _), r)) => Ok(((n.value, b), r)),
            Err(e) => Err(e),
        },
        Err(e) => Err(e),
    }
}

/// The parameters after the first, each after a comma.
pub open spec fn params_rest(t: Seq<TokenView>, p: int, acc: Seq<(Seq<char>, BType)>) -> Step<
    Seq<(Seq<char>, BType)>,
>
    decreases t.len() - p,
{
    if kind(t, p) == TokenType::Comma {
        match param(t, p + 1) {
            Ok((x, q)) => if p < q <= t.len() {
                params_rest(t, q, acc.push(x))
            } else {
                Ok((acc.push(x), q))
            },
            Err(e) => Err(e),
        }
    } else {
        Ok((acc, p))
    }
}

/// The parameters of a function, up to the closing parenthesis.
pub open spec fn param_list(t: Seq<TokenView>, p: int) -> Step<Seq<(Seq<char>, BType)>> {
    if kind(t, p) != TokenType::RParen {
        match param(t, p) {
            Ok((x, q)) => params_rest(t, q, seq![x]),
            Err(e) => Err(e),
        }
    } else {
        Ok((Seq::empty(), p))
    }
}

/// The name a call is made through: that of an identifier, or of a call.
pub open spec fn callee_name(n: Tree) -> Option<Seq<char>> {
    match n {
        Tree::Ident(name) => Some(name),
        Tree::CallExpr { name, .. } => Some(name),
        _ => None,
    }
}

pub open spec fn bin(op: Seq<char>, left: Tree, right: Tree) -> Tree {
    Tree::BinExpr { op, left: Box::new(left), right: Box::new(right) }
}

/// A whole program: statements up to the end of input.
pub closed spec fn program_rest(t: Seq<TokenView>, p: int, acc: Seq<Tree>) -> Step<Seq<Tree>>
    decreases t.len() - p, 40int,
{
    if kind(t, p) != TokenType::Eof {
        match stmt(t, p) {
            Ok((s, q)) => if p < q <= t.len() {
                program_rest(t, q, acc.push(s))
            } else {
                Ok((acc.push(s), q))
            },
            Err(e) => Err(e),
        }
    } else {
        Ok((acc, p))
    }
}

/// A program never has more statements than there are tokens from where it
/// starts: each statement takes at least one token.
pub proof fn law_statements_at_most_tokens(t: Seq<TokenView>, p: int, acc: Seq<Tree>)
    requires
        0 <= p <= t.len(),
    ensures
        program_rest(t, p, acc) matches Ok((stmts, _)) ==> stmts.len() <= acc.len() + t.len() - p,
    decreases t.len() - p,
{
    if kind(t, p) != TokenType::Eof {
        assert(p < t.len());
        match stmt(t, p) {
            Ok((s, q)) => {
                if p < q <= t.len() {
                    law_statements_at_most_tokens(t, q, acc.push(s));
                }
            },
            Err(_) => {},
        }
    }
}

/// A statement.
pub closed spec fn stmt(t: Seq<TokenView>, p: int) -> Step<Tree>
    decreases t.len() - p, 30int,
{
    if at_word(t, p, "var"@) {
        var_decl(t, p)
    } else if at_word(t, p, "fn"@) {
        fn_decl(t, p)
    } else if at_word(t, p, "if"@) {
        if_stmt(t, p)
    } else if at_word(t, p, "while"@) {
        while_stmt(t, p)
    } else if at_word(t, p, "for"@) {
        for_stmt(t, p)
    } else if at_word(t, p, "return"@) {
        return_stmt(t, p)
    } else if at_word(t, p, "break"@) {
        Ok((Tree::BreakStmt, skip_kind(t, p + 1, TokenType::Semicolon)))
    } else if at_word(t, p, "continue"@) {
        Ok((Tree::ContinueStmt, skip_kind(t, p + 1, TokenType::Semicolon)))
    } else if kind(t, p) == TokenType::LBrace {
        block(t, p)
    } else if at_word(t, p, "idb"@) {
        idb_decl(t, p)
    } else if kind(t, p) == TokenType::Ident && type_word(tok(t, p).value) {
        typed_decl(t, p)
    } else {
        match expr(t, p) {
            Ok((e, q)) => if !(p < q <= t.len()) {
                Ok((Tree::ExprStmt(Box::new(e)), q))
            } else if kind(t, q) == TokenType::Eq {
                match expr(t, q + 1) {
                    Ok((v, r)) => Ok(
                        (
                            Tree::Assign { target: Box::new(e), value: Box::new(v) },
                            skip_kind(t, r, TokenType::Semicolon),
                        ),
                    ),
                    Err(err) => Err(err),
                }
            } else if kind(t, q) == TokenType::PlusEq {
                match expr(t, q + 1) {
                    Ok((v, r)) => Ok(
                        (
                            Tree::Assign { target: Box::new(e), value: Box::new(bin("+"@, e, v)) },
                            skip_kind(t, r, TokenType::Semicolon),
                        ),
                    ),
                    Err(err) => Err(err),
                }
            } else if kind(t, q) == TokenType::MinusEq {
                match expr(t, q + 1) {
                    Ok((v, r)) => Ok(
                        (
                            Tree::Assign { target: Box::new(e), value: Box::new(bin("-"@, e, v)) },
                            skip_kind(t, r, TokenType::Semicolon),
                        ),
                    ),
                    Err(err) => Err(err),
                }
            } else {
                Ok((Tree::ExprStmt(Box::new(e)), skip_kind(t, q, TokenType::Semicolon)))
            },
            Err(err) => Err(err),
        }
    }
}

/// A `{ ... }` block.
pub closed spec fn block(t: Seq<TokenView>, p: int) -> Step<Tree>
    decreases t.len() - p, 25int,
{
    match expect(t, p, TokenType::LBrace) {
        Ok((_, q)) => block_rest(t, q, Seq::empty()),
        Err(e) => Err(e),
    }
}

/// The statements of a block up to its closing brace.
pub closed spec fn block_rest(t: Seq<TokenView>, p: int, acc: Seq<Tree>) -> Step<Tree>
    decreases t.len() - p, 35int,
{
    if kind(t, p) != TokenType::RBrace && kind(t, p) != TokenType::Eof {
        match stmt(t, p) {
            Ok((s, q)) => if p < q <= t.len() {
                block_rest(t, q, acc.push(s))
            } else {
                Ok((Tree::BlockStmt(acc.push(s)), q))
            },
            Err(e) => Err(e),
        }
    } else {
        match expect(t, p, TokenType::RBrace) {
            Ok((_, q)) => Ok((Tree::BlockStmt(acc), q)),
            Err(e) => Err(e),
        }
    }
}

/// `if cond { ... }`, optionally followed by `else if ...` or `else { ... }`.
pub closed spec fn if_stmt(t: Seq<TokenView>, p: int) -> Step<Tree>
    decreases t.len() - p, 25int,
{
    if !(0 <= p < t.len()) {
        Err(ParseFailure::UnexpectedToken { found: tok(t, p) })
    } else {
        match expr(t, p + 1) {
            Ok((c, q)) => if !(p < q <= t.len()) {
                Ok((c, q))
            } else {
                match block(t, q) {
                    Ok((b, r)) => if !(p < r < t.len()) || !at_word(t, r, "else"@) {
                        Ok((Tree::IfStmt { cond: Box::new(c), body: Box::new(b), else_body: None }, r))
                    } else if at_word(t, r + 1, "if"@) {
                        match if_stmt(t, r + 1) {
                            Ok((e, r2)) => Ok(
                                (
                                    Tree::IfStmt {
                                        cond: Box::new(c),
                                        body: Box::new(b),
                                        else_body: Some(Box::new(e)),
                                    },
                                    r2,
                                ),
                            ),
                            Err(err) => Err(err),
                        }
                    } else {
                        match block(t, r + 1) {
                            Ok((e, r2)) => Ok(
                                (
                                    Tree::IfStmt {
                                        cond: Box::new(c),
                                        body: Box::new(b),
                                        else_body: Some(Box::new(e)),
                                    },
                                    r2,
                                ),
                            ),
                            Err(err) => Err(err),
                        }
                    },
                    Err(err) => Err(err),
                }
            },
            Err(err) => Err(err),
        }
    }
}

/// `while cond { ... }`.
pub closed spec fn while_stmt(t: Seq<TokenView>, p: int) -> Step<Tree>
    decreases t.len() - p, 25int,
{
    if !(0 <= p < t.len()) {
        Err(ParseFailure::UnexpectedToken { found: tok(t, p) })
    } else {
        match expr(t, p + 1) {
            Ok((c, q)) => if !(p < q <= t.len()) {
                Ok((c, q))
            } else {
                match block(t, q) {
                    Ok((b, r)) => Ok((Tree::WhileStmt { cond: Box::new(c), body: Box::new(b) }, r)),
                    Err(err) => Err(err),
                }
            },
            Err(err) => Err(err),
        }
    }
}

/// `for name in iter { ... }` (any identifier stands in the place of `in`).
pub closed spec fn for_stmt(t: Seq<TokenView>, p: int) -> Step<Tree>
    decreases t.len() - p, 25int,
{
    if !(0 <= p < t.len()) {
        Err(ParseFailure::UnexpectedToken { found: tok(t, p) })
    } else {
        match expect(t, p + 1, TokenType::Ident) {
            Ok((v, q)) => match expect(t, q, TokenType::Ident) {
                Ok((_, q2)) => match expr(t, q2) {
                    Ok((it, r)) => if !(p < r <= t.len()) {
                        Ok((it, r))
                    } else {
                        match block(t, r) {
                            Ok((b, r2)) => Ok(
                                (
                                    Tree::ForStmt {
                                        var: v.value,
                                        iter: Box::new(it),
                                        body: Box::new(b),
                                    },
                                    r2,
                                ),
                            ),
                            Err(err) => Err(err),
                        }
                    },
                    Err(err) => Err(err),
                },
                Err(err) => Err(err),
            },
            Err(err) => Err(err),
        }
    }
}

/// `var name [: type] = value [;]`.
pub closed spec fn var_decl(t: Seq<TokenView>, p: int) -> Step<Tree>
    decreases t.len() - p, 25int,
{
    if !(0 <= p < t.len()) {
        Err(ParseFailure::UnexpectedToken { found: tok(t, p) })
    } else {
        match expect(t, p + 1, TokenType::Ident) {
            Ok((n, q)) => match annotation(t, q) {
                Ok(((ty, has_type), q2)) => match expect(t, q2, TokenType::Eq) {
                    Ok((_, q3)) => match expr(t, q3) {
                        Ok((v, r)) => Ok(
                            (
                                Tree::VarDecl {
                                    name: n.value,
                                    var_type: ty,
                                    value: Box::new(v),
                                    has_type,
                                    is_bel: false,
                                    is_ster: false,
                                },
                                skip_kind(t, r, TokenType::Semicolon),
                            ),
                        ),
                        Err(err) => Err(err),
                    },
                    Err(err) => Err(err),
                },
                Err(err) => Err(err),
            },
            Err(err) => Err(err),
        }
    }
}

/// `idb number = value [;]`: stores into the bank slot `number`.
pub closed spec fn idb_decl(t: Seq<TokenView>, p: int) -> Step<Tree>
    decreases t.len() - p, 25int,
{
    if !(0 <= p < t.len()) {
        Err(ParseFailure::UnexpectedToken { found: tok(t, p) })
    } else {
        match expect(t, p + 1, TokenType::Number) {
            Ok((num, q)) => match expect(t, q, TokenType::Eq) {
                Ok((_, q2)) => match expr(t, q2) {
                    Ok((v, r)) => Ok(
                        (
                            Tree::IdbDecl {
                                id: match i64_of(num.value) {
                                    Some(n) => n,
                                    None => 0,
                                },
                                value: Box::new(v),
                            },
                            skip_kind(t, r, TokenType::Semicolon),
                        ),
                    ),
                    Err(err) => Err(err),
                },
                Err(err) => Err(err),
            },
            Err(err) => Err(err),
        }
    }
}

/// `type name = value [;]`, where `type` is one of the type words.
pub closed spec fn typed_decl(t: Seq<TokenView>, p: int) -> Step<Tree>
    decreases t.len() - p, 25int,
{
    if !(0 <= p < t.len()) {
        Err(ParseFailure::UnexpectedToken { found: tok(t, p) })
    } else {
        let word = t[p].value;
        match expect(t, p + 1, TokenType::Ident) {
            Ok((n, q)) => match expect(t, q, TokenType::Eq) {
                Ok((_, q2)) => match expr(t, q2) {
                    Ok((v, r)) => Ok(
                        (
                            Tree::VarDecl {
                                name: n.value,
                                var_type: typed_decl_kind(word).0,
                                value: Box::new(v),
                                has_type: true,
                                is_bel: typed_decl_kind(word).1,
                                is_ster: typed_decl_kind(word).2,
                            },
                            skip_kind(t, r, TokenType::Semicolon),
                        ),
                    ),
                    Err(err) => Err(err),
                },
                Err(err) => Err(err),
            },
            Err(err) => Err(err),
        }
    }
}

/// `fn name(params) [: type] { ... }`.
pub closed spec fn fn_decl(t: Seq<TokenView>, p: int) -> Step<Tree>
    decreases t.len() - p, 25int,
{
    if !(0 <= p < t.len()) {
        Err(ParseFailure::UnexpectedToken { found: tok(t, p) })
    } else {
        match expect(t, p + 1, TokenType::Ident) {
            Ok((n, q)) => match expect(t, q, TokenType::LParen) {
                Ok((_, q2)) => match param_list(t, q2) {
                    Ok((ps, q3)) => match expect(t, q3, TokenType::RParen) {
                        Ok((_, q4)) => match annotation(t, q4) {
                            Ok(((ret, has_ret), q5)) => if !(p < q5 <= t.len()) {
                                Err(ParseFailure::UnexpectedToken { found: tok(t, q5) })
                            } else {
                                match block(t, q5) {
                                    Ok((b, r)) => Ok(
                                        (
                                            Tree::FnDecl {
                                                name: n.value,
                                                params: ps,
                                                return_type: ret,
                                                has_ret_type: has_ret,
                                                body: Box::new(b),
                                            },
                                            r,
                                        ),
                                    ),
                                    Err(err) => Err(err),
                                }
                            },
                            Err(err) => Err(err),
                        },
                        Err(err) => Err(err),
                    },
                    Err(err) => Err(err),
                },
                Err(err) => Err(err),
            },
            Err(err) => Err(err),
        }
    }
}

/// `return [value] [;]`: a value follows unless a `;`, `}` or the end does.
pub closed spec fn return_stmt(t: Seq<TokenView>, p: int) -> Step<Tree>
    decreases t.len() - p, 25int,
{
    if !(0 <= p < t.len()) {
        Err(ParseFailure::UnexpectedToken { found: tok(t, p) })
    } else {
        let q = p + 1;
        if kind(t, q) != TokenType::Semicolon && kind(t, q) != TokenType::RBrace && kind(t, q)
            != TokenType::Eof {
            match expr(t, q) {
                Ok((v, r)) => Ok(
                    (
                        Tree::ReturnStmt { value: Some(Box::new(v)) },
                        skip_kind(t, r, TokenType::Semicolon),
                    ),
                ),
                Err(err) => Err(err),
            }
        } else {
            Ok((Tree::ReturnStmt { value: None }, skip_kind(t, q, TokenType::Semicolon)))
        }
    }
}

/// An expression.
pub closed spec fn expr(t: Seq<TokenView>, p: int) -> Step<Tree>
    decreases t.len() - p, 20int,
{
    or_expr(t, p)
}

/// Operands joined by `||`, grouped to the left.
pub closed spec fn or_expr(t: Seq<TokenView>, p: int) -> Step<Tree>
    decreases t.len() - p, 19int,
{
    match and_expr(t, p) {
        Ok((l, q)) => if p < q <= t.len() {
            or_rest(t, q, l)
        } else {
            Ok((l, q))
        },
        Err(e) => Err(e),
    }
}

pub closed spec fn or_rest(t: Seq<TokenView>, p: int, left: Tree) -> Step<Tree>
    decreases t.len() - p, 18int,
{
    if kind(t, p) == TokenType::Or {
        match and_expr(t, p + 1) {
            Ok((r, q)) => if p < q <= t.len() {
                or_rest(t, q, bin("||"@, left, r))
            } else {
                Ok((bin("||"@, left, r), q))
            },
            Err(e) => Err(e),
        }
    } else {
        Ok((left, p))
    }
}

/// Operands joined by `&&`, grouped to the left.
pub closed spec fn and_expr(t: Seq<TokenView>, p: int) -> Step<Tree>
    decreases t.len() - p, 17int,
{
    match comparison_expr(t, p) {
        Ok((l, q)) => if p < q <= t.len() {
            and_rest(t, q, l)
        } else {
            Ok((l, q))
        },
        Err(e) => Err(e),
    }
}

pub closed spec fn and_rest(t: Seq<TokenView>, p: int, left: Tree) -> Step<Tree>
    decreases t.len() - p, 16int,
{
    if kind(t, p) == TokenType::And {
        match comparison_expr(t, p + 1) {
            Ok((r, q)) => if p < q <= t.len() {
                and_rest(t, q, bin("&&"@, left, r))
            } else {
                Ok((bin("&&"@, left, r), q))
            },
            Err(e) => Err(e),
        }
    } else {
        Ok((left, p))
    }
}

pub open spec fn is_comparison_op(tt: TokenType) -> bool {
    tt == TokenType::EqEq || tt == TokenType::Neq || tt == TokenType::Lt || tt == TokenType::Gt
        || tt == TokenType::Lte || tt == TokenType::Gte
}

/// Operands joined by comparisons, grouped to the left.
pub closed spec fn comparison_expr(t: Seq<TokenView>, p: int) -> Step<Tree>
    decreases t.len() - p, 15int,
{
    match add_expr(t, p) {
        Ok((l, q)) => if p < q <= t.len() {
            comparison_rest(t, q, l)
        } else {
            Ok((l, q))
        },
        Err(e) => Err(e),
    }
}

pub closed spec fn comparison_rest(t: Seq<TokenView>, p: int, left: Tree) -> Step<Tree>
    decreases t.len() - p, 14int,
{
    if is_comparison_op(kind(t, p)) {
        match add_expr(t, p + 1) {
            Ok((r, q)) => if p < q <= t.len() {
                comparison_rest(t, q, bin(tok(t, p).value, left, r))
            } else {
                Ok((bin(tok(t, p).value, left, r), q))
            },
            Err(e) => Err(e),
        }
    } else {
        Ok((left, p))
    }
}

/// Operands joined by `+` and `-`, grouped to the left.
pub closed spec fn add_expr(t: Seq<TokenView>, p: int) -> Step<Tree>
    decreases t.len() - p, 13int,
{
    match mul_expr(t, p) {
        Ok((l, q)) => if p < q <= t.len() {
            add_rest(t, q, l)
        } else {
            Ok((l, q))
        },
        Err(e) => Err(e),
    }
}

pub closed spec fn add_rest(t: Seq<TokenView>, p: int, left: Tree) -> Step<Tree>
    decreases t.len() - p, 12int,
{
    if kind(t, p) == TokenType::Plus || kind(t, p) == TokenType::Minus {
        match mul_expr(t, p + 1) {
            Ok((r, q)) => if p < q <= t.len() {
                add_rest(t, q, bin(tok(t, p).value, left, r))
            } else {
                Ok((bin(tok(t, p).value, left, r), q))
            },
            Err(e) => Err(e),
        }
    } else {
        Ok((left, p))
    }
}

/// Operands joined by `*`, `/` and `%`, grouped to the left.
pub closed spec fn mul_expr(t: Seq<TokenView>, p: int) -> Step<Tree>
    decreases t.len() - p, 11int,
{
    match unary_expr(t, p) {
        Ok((l, q)) => if p < q <= t.len() {
            mul_rest(t, q, l)
        } else {
            Ok((l, q))
        },
        Err(e) => Err(e),
    }
}

pub closed spec fn mul_rest(t: Seq<TokenView>, p: int, left: Tree) -> Step<Tree>
    decreases t.len() - p, 10int,
{
    if kind(t, p) == TokenType::Star || kind(t, p) == TokenType::Slash || kind(t, p)
        == TokenType::Percent {
        match unary_expr(t, p + 1) {
            Ok((r, q)) => if p < q <= t.len() {
                mul_rest(t, q, bin(tok(t, p).value, left, r))
            } else {
                Ok((bin(tok(t, p).value, left, r), q))
            },
            Err(e) => Err(e),
        }
    } else {
        Ok((left, p))
    }
}

/// A postfix expression, optionally behind one `-` or `!`.
pub closed spec fn unary_expr(t: Seq<TokenView>, p: int) -> Step<Tree>
    decreases t.len() - p, 9int,
{
    if kind(t, p) == TokenType::Minus {
        match postfix_expr(t, p + 1) {
            Ok((e, q)) => Ok((Tree::UnaryExpr { op: "-"@, expr: Box::new(e) }, q)),
            Err(err) => Err(err),
        }
    } else if kind(t, p) == TokenType::Not {
        match postfix_expr(t, p + 1) {
            Ok((e, q)) => Ok((Tree::UnaryExpr { op: "!"@, expr: Box::new(e) }, q)),
            Err(err) => Err(err),
        }
    } else {
        postfix_expr(t, p)
    }
}

/// A primary expression followed by calls, `.name` accesses and indexing.
pub closed spec fn postfix_expr(t: Seq<TokenView>, p: int) -> Step<Tree>
    decreases t.len() - p, 8int,
{
    match primary(t, p) {
        Ok((n, q)) => if p < q <= t.len() {
            postfix_rest(t, q, n)
        } else {
            Ok((n, q))
        },
        Err(e) => Err(e),
    }
}

pub closed spec fn postfix_rest(t: Seq<TokenView>, p: int, node: Tree) -> Step<Tree>
    decreases t.len() - p, 7int,
{
    if kind(t, p) == TokenType::LParen {
        let q = p + 1;
        match callee_name(node) {
            None => Err(ParseFailure::NotCallable { line: tok(t, q).line }),
            Some(name) => if kind(t, q) != TokenType::RParen {
                match expr(t, q) {
                    Ok((a, r)) => if !(q < r <= t.len()) {
                        Ok((a, r))
                    } else {
                        match comma_list_rest(t, r, seq![a]) {
                            Ok((args, r2)) => match expect(t, r2, TokenType::RParen) {
                                Ok((_, r3)) => if p < r3 <= t.len() {
                                    postfix_rest(t, r3, Tree::CallExpr { name, args })
                                } else {
                                    Ok((Tree::CallExpr { name, args }, r3))
                                },
                                Err(e) => Err(e),
                            },
                            Err(e) => Err(e),
                        }
                    },
                    Err(e) => Err(e),
                }
            } else {
                match expect(t, q, TokenType::RParen) {
                    Ok((_, r)) => postfix_rest(t, r, Tree::CallExpr { name, args: Seq::empty() }),
                    Err(e) => Err(e),
                }
            },
        }
    } else if kind(t, p) == TokenType::Dot {
        match expect(t, p + 1, TokenType::Ident) {
            Ok((id, q)) => postfix_rest(
                t,
                q,
                Tree::DotExpr { left: Box::new(node), right: id.value },
            ),
            Err(e) => Err(e),
        }
    } else if kind(t, p) == TokenType::LBracket {
        match expr(t, p + 1) {
            Ok((i, q)) => match expect(t, q, TokenType::RBracket) {
                Ok((_, r)) => if p < r <= t.len() {
                    postfix_rest(t, r, Tree::IndexExpr { obj: Box::new(node), index: Box::new(i) })
                } else {
                    Ok((Tree::IndexExpr { obj: Box::new(node), index: Box::new(i) }, r))
                },
                Err(e) => Err(e),
            },
            Err(e) => Err(e),
        }
    } else {
        Ok((node, p))
    }
}

/// The expressions after the first of a comma-separated list.
pub closed spec fn comma_list_rest(t: Seq<TokenView>, p: int, acc: Seq<Tree>) -> Step<Seq<Tree>>
    decreases t.len() - p, 4int,
{
    if kind(t, p) == TokenType::Comma {
        match expr(t, p + 1) {
            Ok((e, q)) => if p < q <= t.len() {
                comma_list_rest(t, q, acc.push(e))
            } else {
                Ok((acc.push(e), q))
            },
            Err(err) => Err(err),
        }
    } else {
        Ok((acc, p))
    }
}

/// A literal, a name, a parenthesized expression or an array literal.
pub closed spec fn primary(t: Seq<TokenView>, p: int) -> Step<Tree>
    decreases t.len() - p, 6int,
{
    let k = tok(t, p);
    if k.tt == TokenType::String {
        Ok((Tree::StringLit(k.value), p + 1))
    } else if k.tt == TokenType::Number {
        Ok((Tree::NumLit(k.value), p + 1))
    } else if k.tt == TokenType::Ident {
        if k.value == "true"@ {
            Ok((Tree::BoolLit(true), p + 1))
        } else if k.value == "false"@ {
            Ok((Tree::BoolLit(false), p + 1))
        } else {
            Ok((Tree::Ident(k.value), p + 1))
        }
    } else if k.tt == TokenType::LParen {
        match expr(t, p + 1) {
            Ok((e, q)) => match expect(t, q, TokenType::RParen) {
                Ok((_, r)) => Ok((e, r)),
                Err(err) => Err(err),
            },
            Err(err) => Err(err),
        }
    } else if k.tt == TokenType::LBracket {
        array_lit(t, p)
    } else {
        Err(ParseFailure::UnexpectedToken { found: k })
    }
}

/// `[a, b, ...]`.
pub closed spec fn array_lit(t: Seq<TokenView>, p: int) -> Step<Tree>
    decreases t.len() - p, 5int,
{
    match expect(t, p, TokenType::LBracket) {
        Ok((_, q)) => if kind(t, q) != TokenType::RBracket {
            match expr(t, q) {
                Ok((e, r)) => if !(q < r <= t.len()) {
                    Ok((e, r))
                } else {
                    match comma_list_rest(t, r, seq![e]) {
                        Ok((es, r2)) => match expect(t, r2, TokenType::RBracket) {
                            Ok((_, r3)) => Ok((Tree::ArrayLit(es), r3)),
                            Err(err) => Err(err),
                        },
                        Err(err) => Err(err),
                    }
                }
                Err(err) => Err(err),
            }
        } else {
            match expect(t, q, TokenType::RBracket) {
                Ok((_, r)) => Ok((Tree::ArrayLit(Seq::empty()), r)),
                Err(err) => Err(err),
            }
        },
        Err(e) => Err(e),
    }
}

// ---------------------------------------------------------------------------
// Decimal integers, as `str::parse::<i64>` reads them.
// ---------------------------------------------------------------------------

pub open spec fn is_digit_char(c: char) -> bool {
    '0' <= c && c <= '9'
}

/// The value of a string of decimal digits.
pub open spec fn decimal_value(s: Seq<char>) -> int
    decreases s.len(),
{
    if s.len() == 0 {
        0
    } else {
        decimal_value(s.drop_last()) * 10 + (s.last() as int - '0' as int)
    }
}

/// Every character is a decimal digit.
pub open spec fn all_digits(s: Seq<char>) -> bool {
    forall|i: int| 0 <= i < s.len() ==> is_digit_char(#[trigger] s[i])
}

/// A leading `+` or `-` sign.
pub open spec fn has_sign(s: Seq<char>) -> bool {
    s.len() > 0 && (s[0] == '-' || s[0] == '+')
}

/// The text after an optional leading sign.
pub open spec fn unsigned_part(s: Seq<char>) -> Seq<char> {
    if has_sign(s) {
        s.drop_first()
    } else {
        s
    }
}

/// The value a signed decimal text denotes.
pub open spec fn signed_value(s: Seq<char>) -> int {
    if s.len() > 0 && s[0] == '-' {
        -decimal_value(unsigned_part(s))
    } else {
        decimal_value(unsigned_part(s))
    }
}

/// What `str::parse::<i64>` gives for a text: an optional `+` or `-`, then
/// one or more decimal digits whose value fits in an `i64`.
pub open spec fn i64_of(s: Seq<char>) -> Option<i64> {
    if unsigned_part(s).len() > 0 && all_digits(unsigned_part(s)) && i64::MIN <= signed_value(s)
        <= i64::MAX {
        Some(signed_value(s) as i64)
    } else {
        None
    }
}

/// One unfolding of [`program_rest`].
pub proof fn unfold_program_rest(t: Seq<TokenView>, p: int, acc: Seq<Tree>)
    ensures
        program_rest(t, p, acc) == ({
            if kind(t, p) != TokenType::Eof {
                match stmt(t, p) {
                    Ok((s, q)) => if p < q <= t.len() {
                        program_rest(t, q, acc.push(s))
                    } else {
                        Ok((acc.push(s), q))
                    },
                    Err(e) => Err(e),
                }
            } else {
                Ok((acc, p))
            }
        }),
{
}

/// One unfolding of [`stmt`].
pub proof fn unfold_stmt(t: Seq<TokenView>, p: int)
    ensures
        stmt(t, p) == ({
            if at_word(t, p, "var"@) {
                var_decl(t, p)
            } else if at_word(t, p, "fn"@) {
                fn_decl(t, p)
            } else if at_word(t, p, "if"@) {
                if_stmt(t, p)
            } else if at_word(t, p, "while"@) {
                while_stmt(t, p)
            } else if at_word(t, p, "for"@) {
                for_stmt(t, p)
            } else if at_word(t, p, "return"@) {
                return_stmt(t, p)
            } else if at_word(t, p, "break"@) {
                Ok((Tree::BreakStmt, skip_kind(t, p + 1, TokenType::Semicolon)))
            } else if at_word(t, p, "continue"@) {
                Ok((Tree::ContinueStmt, skip_kind(t, p + 1, TokenType::Semicolon)))
            } else if kind(t, p) == TokenType::LBrace {
                block(t, p)
            } else if at_word(t, p, "idb"@) {
                idb_decl(t, p)
            } else if kind(t, p) == TokenType::Ident && type_word(tok(t, p).value) {
                typed_decl(t, p)
            } else {
                match expr(t, p) {
                    Ok((e, q)) => if !(p < q <= t.len()) {
                        Ok((Tree::ExprStmt(Box::new(e)), q))
                    } else if kind(t, q) == TokenType::Eq {
                        match expr(t, q + 1) {
                            Ok((v, r)) => Ok(
                                (
                                    Tree::Assign { target: Box::new(e), value: Box::new(v) },
                                    skip_kind(t, r, TokenType::Semicolon),
                                ),
                            ),
                            Err(err) => Err(err),
                        }
                    } else if kind(t, q) == TokenType::PlusEq {
                        match expr(t, q + 1) {
                            Ok((v, r)) => Ok(
                                (
                                    Tree::Assign { target: Box::new(e), value: Box::new(bin("+"@, e, v)) },
                                    skip_kind(t, r, TokenType::Semicolon),
                                ),
                            ),
                            Err(err) => Err(err),
                        }
                    } else if kind(t, q) == TokenType::MinusEq {
                        match expr(t, q + 1) {
                            Ok((v, r)) => Ok(
                                (
                                    Tree::Assign { target: Box::new(e), value: Box::new(bin("-"@, e, v)) },
                                    skip_kind(t, r, TokenType::Semicolon),
                                ),
                            ),
                            Err(err) => Err(err),
                        }
                    } else {
                        Ok((Tree::ExprStmt(Box::new(e)), skip_kind(t, q, TokenType::Semicolon)))
                    },
                    Err(err) => Err(err),
                }
            }
        }),
{
}

/// One unfolding of [`block`].
pub proof fn unfold_block(t: Seq<TokenView>, p: int)
    ensures
        block(t, p) == ({
            match expect(t, p, TokenType::LBrace) {
                Ok((_, q)) => block_rest(t, q, Seq::empty()),
                Err(e) => Err(e),
            }
        }),
{
}

/// One unfolding of [`block_rest`].
pub proof fn unfold_block_rest(t: Seq<TokenView>, p: int, acc: Seq<Tree>)
    ensures
        block_rest(t, p, acc) == ({
            if kind(t, p) != TokenType::RBrace && kind(t, p) != TokenType::Eof {
                match stmt(t, p) {
                    Ok((s, q)) => if p < q <= t.len() {
                        block_rest(t, q, acc.push(s))
                    } else {
                        Ok((Tree::BlockStmt(acc.push(s)), q))
                    },
                    Err(e) => Err(e),
                }
            } else {
                match expect(t, p, TokenType::RBrace) {
                    Ok((_, q)) => Ok((Tree::BlockStmt(acc), q)),
                    Err(e) => Err(e),
                }
            }
        }),
{
}

/// One unfolding of [`if_stmt`].
pub proof fn unfold_if_stmt(t: Seq<TokenView>, p: int)
    ensures
        if_stmt(t, p) == ({
            if !(0 <= p < t.len()) {
                Err(ParseFailure::UnexpectedToken { found: tok(t, p) })
            } else {
                match expr(t, p + 1) {
                    Ok((c, q)) => if !(p < q <= t.len()) {
                        Ok((c, q))
                    } else {
                        match block(t, q) {
                            Ok((b, r)) => if !(p < r < t.len()) || !at_word(t, r, "else"@) {
                                Ok((Tree::IfStmt { cond: Box::new(c), body: Box::new(b), else_body: None }, r))
                            } else if at_word(t, r + 1, "if"@) {
                                match if_stmt(t, r + 1) {
                                    Ok((e, r2)) => Ok(
                                        (
                                            Tree::IfStmt {
                                                cond: Box::new(c),
                                                body: Box::new(b),
                                                else_body: Some(Box::new(e)),
                                            },
                                            r2,
                                        ),
                                    ),
                                    Err(err) => Err(err),
                                }
                            } else {
                                match block(t, r + 1) {
                                    Ok((e, r2)) => Ok(
                                        (
                                            Tree::IfStmt {
                                                cond: Box::new(c),
                                                body: Box::new(b),
                                                else_body: Some(Box::new(e)),
                                            },
                                            r2,
                                        ),
                                    ),
                                    Err(err) => Err(err),
                                }
                            },
                            Err(err) => Err(err),
                        }
                    },
                    Err(err) => Err(err),
                }
            }
        }),
{
}

/// One unfolding of [`while_stmt`].
pub proof fn unfold_while_stmt(t: Seq<TokenView>, p: int)
    ensures
        while_stmt(t, p) == ({
            if !(0 <= p < t.len()) {
                Err(ParseFailure::UnexpectedToken { found: tok(t, p) })
            } else {
                match expr(t, p + 1) {
                    Ok((c, q)) => if !(p < q <= t.len()) {
                        Ok((c, q))
                    } else {
                        match block(t, q) {
                            Ok((b, r)) => Ok((Tree::WhileStmt { cond: Box::new(c), body: Box::new(b) }, r)),
                            Err(err) => Err(err),
                        }
                    },
                    Err(err) => Err(err),
                }
            }
        }),
{
}

/// One unfolding of [`for_stmt`].
pub proof fn unfold_for_stmt(t: Seq<TokenView>, p: int)
    ensures
        for_stmt(t, p) == ({
            if !(0 <= p < t.len()) {
                Err(ParseFailure::UnexpectedToken { found: tok(t, p) })
            } else {
                match expect(t, p + 1, TokenType::Ident) {
                    Ok((v, q)) => match expect(t, q, TokenType::Ident) {
                        Ok((_, q2)) => match expr(t, q2) {
                            Ok((it, r)) => if !(p < r <= t.len()) {
                                Ok((it, r))
                            } else {
                                match block(t, r) {
                                    Ok((b, r2)) => Ok(
                                        (
                                            Tree::ForStmt {
                                                var: v.value,
                                                iter: Box::new(it),
                                                body: Box::new(b),
                                            },
                                            r2,
                                        ),
                                    ),
                                    Err(err) => Err(err),
                                }
                            },
                            Err(err) => Err(err),
                        },
                        Err(err) => Err(err),
                    },
                    Err(err) => Err(err),
                }
            }
        }),
{
}

/// One unfolding of [`var_decl`].
pub proof fn unfold_var_decl(t: Seq<TokenView>, p: int)
    ensures
        var_decl(t, p) == ({
            if !(0 <= p < t.len()) {
                Err(ParseFailure::UnexpectedToken { found: tok(t, p) })
            } else {
                match expect(t, p + 1, TokenType::Ident) {
                    Ok((n, q)) => match annotation(t, q) {
                        Ok(((ty, has_type), q2)) => match expect(t, q2, TokenType::Eq) {
                            Ok((_, q3)) => match expr(t, q3) {
                                Ok((v, r)) => Ok(
                                    (
                                        Tree::VarDecl {
                                            name: n.value,
                                            var_type: ty,
                                            value: Box::new(v),
                                            has_type,
                                            is_bel: false,
                                            is_ster: false,
                                        },
                                        skip_kind(t, r, TokenType::Semicolon),
                                    ),
                                ),
                                Err(err) => Err(err),
                            },
                            Err(err) => Err(err),
                        },
                        Err(err) => Err(err),
                    },
                    Err(err) => Err(err),
                }
            }
        }),
{
}

/// One unfolding of [`idb_decl`].
pub proof fn unfold_idb_decl(t: Seq<TokenView>, p: int)
    ensures
        idb_decl(t, p) == ({
            if !(0 <= p < t.len()) {
                Err(ParseFailure::UnexpectedToken { found: tok(t, p) })
            } else {
                match expect(t, p + 1, TokenType::Number) {
                    Ok((num, q)) => match expect(t, q, TokenType::Eq) {
                        Ok((_, q2)) => match expr(t, q2) {
                            Ok((v, r)) => Ok(
                                (
                                    Tree::IdbDecl {
                                        id: match i64_of(num.value) {
                                            Some(n) => n,
                                            None => 0,
                                        },
                                        value: Box::new(v),
                                    },
                                    skip_kind(t, r, TokenType::Semicolon),
                                ),
                            ),
                            Err(err) => Err(err),
                        },
                        Err(err) => Err(err),
                    },
                    Err(err) => Err(err),
                }
            }
        }),
{
}

/// One unfolding of [`typed_decl`].
pub proof fn unfold_typed_decl(t: Seq<TokenView>, p: int)
    ensures
        typed_decl(t, p) == ({
            if !(0 <= p < t.len()) {
                Err(ParseFailure::UnexpectedToken { found: tok(t, p) })
            } else {
                let word = t[p].value;
                match expect(t, p + 1, TokenType::Ident) {
                    Ok((n, q)) => match expect(t, q, TokenType::Eq) {
                        Ok((_, q2)) => match expr(t, q2) {
                            Ok((v, r)) => Ok(
                                (
                                    Tree::VarDecl {
                                        name: n.value,
                                        var_type: typed_decl_kind(word).0,
                                        value: Box::new(v),
                                        has_type: true,
                                        is_bel: typed_decl_kind(word).1,
                                        is_ster: typed_decl_kind(word).2,
                                    },
                                    skip_kind(t, r, TokenType::Semicolon),
                                ),
                            ),
                            Err(err) => Err(err),
                        },
                        Err(err) => Err(err),
                    },
                    Err(err) => Err(err),
                }
            }
        }),
{
}

/// One unfolding of [`fn_decl`].
pub proof fn unfold_fn_decl(t: Seq<TokenView>, p: int)
    ensures
        fn_decl(t, p) == ({
            if !(0 <= p < t.len()) {
                Err(ParseFailure::UnexpectedToken { found: tok(t, p) })
            } else {
                match expect(t, p + 1, TokenType::Ident) {
                    Ok((n, q)) => match expect(t, q, TokenType::LParen) {
                        Ok((_, q2)) => match param_list(t, q2) {
                            Ok((ps, q3)) => match expect(t, q3, TokenType::RParen) {
                                Ok((_, q4)) => match annotation(t, q4) {
                                    Ok(((ret, has_ret), q5)) => if !(p < q5 <= t.len()) {
                                        Err(ParseFailure::UnexpectedToken { found: tok(t, q5) })
                                    } else {
                                        match block(t, q5) {
                                            Ok((b, r)) => Ok(
                                                (
                                                    Tree::FnDecl {
                                                        name: n.value,
                                                        params: ps,
                                                        return_type: ret,
                                                        has_ret_type: has_ret,
                                                        body: Box::new(b),
                                                    },
                                                    r,
                                                ),
                                            ),
                                            Err(err) => Err(err),
                                        }
                                    },
                                    Err(err) => Err(err),
                                },
                                Err(err) => Err(err),
                            },
                            Err(err) => Err(err),
                        },
                        Err(err) => Err(err),
                    },
                    Err(err) => Err(err),
                }
            }
        }),
{
}

/// One unfolding of [`return_stmt`].
pub proof fn unfold_return_stmt(t: Seq<TokenView>, p: int)
    ensures
        return_stmt(t, p) == ({
            if !(0 <= p < t.len()) {
                Err(ParseFailure::UnexpectedToken { found: tok(t, p) })
            } else {
                let q = p + 1;
                if kind(t, q) != TokenType::Semicolon && kind(t, q) != TokenType::RBrace && kind(t, q)
                    != TokenType::Eof {
                    match expr(t, q) {
                        Ok((v, r)) => Ok(
                            (
                                Tree::ReturnStmt { value: Some(Box::new(v)) },
                                skip_kind(t, r, TokenType::Semicolon),
                            ),
                        ),
                        Err(err) => Err(err),
                    }
                } else {
                    Ok((Tree::ReturnStmt { value: None }, skip_kind(t, q, TokenType::Semicolon)))
                }
            }
        }),
{
}

/// One unfolding of [`expr`].
pub proof fn unfold_expr(t: Seq<TokenView>, p: int)
    ensures
        expr(t, p) == ({
            or_expr(t, p)
        }),
{
}

/// One unfolding of [`or_expr`].
pub proof fn unfold_or_expr(t: Seq<TokenView>, p: int)
    ensures
        or_expr(t, p) == ({
            match and_expr(t, p) {
                Ok((l, q)) => if p < q <= t.len() {
                    or_rest(t, q, l)
                } else {
                    Ok((l, q))
                },
                Err(e) => Err(e),
            }
        }),
{
}

/// One unfolding of [`or_rest`].
pub proof fn unfold_or_rest(t: Seq<TokenView>, p: int, left: Tree)
    ensures
        or_rest(t, p, left) == ({
            if kind(t, p) == TokenType::Or {
                match and_expr(t, p + 1) {
                    Ok((r, q)) => if p < q <= t.len() {
                        or_rest(t, q, bin("||"@, left, r))
                    } else {
                        Ok((bin("||"@, left, r), q))
                    },
                    Err(e) => Err(e),
                }
            } else {
                Ok((left, p))
            }
        }),
{
}

/// One unfolding of [`and_expr`].
pub proof fn unfold_and_expr(t: Seq<TokenView>, p: int)
    ensures
        and_expr(t, p) == ({
            match comparison_expr(t, p) {
                Ok((l, q)) => if p < q <= t.len() {
                    and_rest(t, q, l)
                } else {
                    Ok((l, q))
                },
                Err(e) => Err(e),
            }
        }),
{
}

/// One unfolding of [`and_rest`].
pub proof fn unfold_and_rest(t: Seq<TokenView>, p: int, left: Tree)
    ensures
        and_rest(t, p, left) == ({
            if kind(t, p) == TokenType::And {
                match comparison_expr(t, p + 1) {
                    Ok((r, q)) => if p < q <= t.len() {
                        and_rest(t, q, bin("&&"@, left, r))
                    } else {
                        Ok((bin("&&"@, left, r), q))
                    },
                    Err(e) => Err(e),
                }
            } else {
                Ok((left, p))
            }
        }),
{
}

/// One unfolding of [`comparison_expr`].
pub proof fn unfold_comparison_expr(t: Seq<TokenView>, p: int)
    ensures
        comparison_expr(t, p) == ({
            match add_expr(t, p) {
                Ok((l, q)) => if p < q <= t.len() {
                    comparison_rest(t, q, l)
                } else {
                    Ok((l, q))
                },
                Err(e) => Err(e),
            }
        }),
{
}

/// One unfolding of [`comparison_rest`].
pub proof fn unfold_comparison_rest(t: Seq<TokenView>, p: int, left: Tree)
    ensures
        comparison_rest(t, p, left) == ({
            if is_comparison_op(kind(t, p)) {
                match add_expr(t, p + 1) {
                    Ok((r, q)) => if p < q <= t.len() {
                        comparison_rest(t, q, bin(tok(t, p).value, left, r))
                    } else {
                        Ok((bin(tok(t, p).value, left, r), q))
                    },
                    Err(e) => Err(e),
                }
            } else {
                Ok((left, p))
            }
        }),
{
}

/// One unfolding of [`add_expr`].
pub proof fn unfold_add_expr(t: Seq<TokenView>, p: int)
    ensures
        add_expr(t, p) == ({
            match mul_expr(t, p) {
                Ok((l, q)) => if p < q <= t.len() {
                    add_rest(t, q, l)
                } else {
                    Ok((l, q))
                },
                Err(e) => Err(e),
            }
        }),
{
}

/// One unfolding of [`add_rest`].
pub proof fn unfold_add_rest(t: Seq<TokenView>, p: int, left: Tree)
    ensures
        add_rest(t, p, left) == ({
            if kind(t, p) == TokenType::Plus || kind(t, p) == TokenType::Minus {
                match mul_expr(t, p + 1) {
                    Ok((r, q)) => if p < q <= t.len() {
                        add_rest(t, q, bin(tok(t, p).value, left, r))
                    } else {
                        Ok((bin(tok(t, p).value, left, r), q))
                    },
                    Err(e) => Err(e),
                }
            } else {
                Ok((left, p))
            }
        }),
{
}

/// One unfolding of [`mul_expr`].
pub proof fn unfold_mul_expr(t: Seq<TokenView>, p: int)
    ensures
        mul_expr(t, p) == ({
            match unary_expr(t, p) {
                Ok((l, q)) => if p < q <= t.len() {
                    mul_rest(t, q, l)
                } else {
                    Ok((l, q))
                },
                Err(e) => Err(e),
            }
        }),
{
}

/// One unfolding of [`mul_rest`].
pub proof fn unfold_mul_rest(t: Seq<TokenView>, p: int, left: Tree)
    ensures
        mul_rest(t, p, left) == ({
            if kind(t, p) == TokenType::Star || kind(t, p) == TokenType::Slash || kind(t, p)
                == TokenType::Percent {
                match unary_expr(t, p + 1) {
                    Ok((r, q)) => if p < q <= t.len() {
                        mul_rest(t, q, bin(tok(t, p).value, left, r))
                    } else {
                        Ok((bin(tok(t, p).value, left, r), q))
                    },
                    Err(e) => Err(e),
                }
            } else {
                Ok((left, p))
            }
        }),
{
}

/// One unfolding of [`unary_expr`].
pub proof fn unfold_unary_expr(t: Seq<TokenView>, p: int)
    ensures
        unary_expr(t, p) == ({
            if kind(t, p) == TokenType::Minus {
                match postfix_expr(t, p + 1) {
                    Ok((e, q)) => Ok((Tree::UnaryExpr { op: "-"@, expr: Box::new(e) }, q)),
                    Err(err) => Err(err),
                }
            } else if kind(t, p) == TokenType::Not {
                match postfix_expr(t, p + 1) {
                    Ok((e, q)) => Ok((Tree::UnaryExpr { op: "!"@, expr: Box::new(e) }, q)),
                    Err(err) => Err(err),
                }
            } else {
                postfix_expr(t, p)
            }
        }),
{
}

/// One unfolding of [`postfix_expr`].
pub proof fn unfold_postfix_expr(t: Seq<TokenView>, p: int)
    ensures
        postfix_expr(t, p) == ({
            match primary(t, p) {
                Ok((n, q)) => if p < q <= t.len() {
                    postfix_rest(t, q, n)
                } else {
                    Ok((n, q))
                },
                Err(e) => Err(e),
            }
        }),
{
}

/// One unfolding of [`postfix_rest`].
pub proof fn unfold_postfix_rest(t: Seq<TokenView>, p: int, node: Tree)
    ensures
        postfix_rest(t, p, node) == ({
            if kind(t, p) == TokenType::LParen {
                let q = p + 1;
                match callee_name(node) {
                    None => Err(ParseFailure::NotCallable { line: tok(t, q).line }),
                    Some(name) => if kind(t, q) != TokenType::RParen {
                        match expr(t, q) {
                            Ok((a, r)) => if !(q < r <= t.len()) {
                                Ok((a, r))
                            } else {
                                match comma_list_rest(t, r, seq![a]) {
                                    Ok((args, r2)) => match expect(t, r2, TokenType::RParen) {
                                        Ok((_, r3)) => if p < r3 <= t.len() {
                                            postfix_rest(t, r3, Tree::CallExpr { name, args })
                                        } else {
                                            Ok((Tree::CallExpr { name, args }, r3))
                                        },
                                        Err(e) => Err(e),
                                    },
                                    Err(e) => Err(e),
                                }
                            },
                            Err(e) => Err(e),
                        }
                    } else {
                        match expect(t, q, TokenType::RParen) {
                            Ok((_, r)) => postfix_rest(t, r, Tree::CallExpr { name, args: Seq::empty() }),
                            Err(e) => Err(e),
                        }
                    },
                }
            } else if kind(t, p) == TokenType::Dot {
                match expect(t, p + 1, TokenType::Ident) {
                    Ok((id, q)) => postfix_rest(
                        t,
                        q,
                        Tree::DotExpr { left: Box::new(node), right: id.value },
                    ),
                    Err(e) => Err(e),
                }
            } else if kind(t, p) == TokenType::LBracket {
                match expr(t, p + 1) {
                    Ok((i, q)) => match expect(t, q, TokenType::RBracket) {
                        Ok((_, r)) => if p < r <= t.len() {
                            postfix_rest(t, r, Tree::IndexExpr { obj: Box::new(node), index: Box::new(i) })
                        } else {
                            Ok((Tree::IndexExpr { obj: Box::new(node), index: Box::new(i) }, r))
                        },
                        Err(e) => Err(e),
                    },
                    Err(e) => Err(e),
                }
            } else {
                Ok((node, p))
            }
        }),
{
}

/// One unfolding of [`comma_list_rest`].
pub proof fn unfold_comma_list_rest(t: Seq<TokenView>, p: int, acc: Seq<Tree>)
    ensures
        comma_list_rest(t, p, acc) == ({
            if kind(t, p) == TokenType::Comma {
                match expr(t, p + 1) {
                    Ok((e, q)) => if p < q <= t.len() {
                        comma_list_rest(t, q, acc.push(e))
                    } else {
                        Ok((acc.push(e), q))
                    },
                    Err(err) => Err(err),
                }
            } else {
                Ok((acc, p))
            }
        }),
{
}

/// One unfolding of [`primary`].
pub proof fn unfold_primary(t: Seq<TokenView>, p: int)
    ensures
        primary(t, p) == ({
            let k = tok(t, p);
            if k.tt == TokenType::String {
                Ok((Tree::StringLit(k.value), p + 1))
            } else if k.tt == TokenType::Number {
                Ok((Tree::NumLit(k.value), p + 1))
            } else if k.tt == TokenType::Ident {
                if k.value == "true"@ {
                    Ok((Tree::BoolLit(true), p + 1))
                } else if k.value == "false"@ {
                    Ok((Tree::BoolLit(false), p + 1))
                } else {
                    Ok((Tree::Ident(k.value), p + 1))
                }
            } else if k.tt == TokenType::LParen {
                match expr(t, p + 1) {
                    Ok((e, q)) => match expect(t, q, TokenType::RParen) {
                        Ok((_, r)) => Ok((e, r)),
                        Err(err) => Err(err),
                    },
                    Err(err) => Err(err),
                }
            } else if k.tt == TokenType::LBracket {
                array_lit(t, p)
            } else {
                Err(ParseFailure::UnexpectedToken { found: k })
            }
        }),
{
}

/// One unfolding of [`array_lit`].
pub proof fn unfold_array_lit(t: Seq<TokenView>, p: int)
    ensures
        array_lit(t, p) == ({
            match expect(t, p, TokenType::LBracket) {
                Ok((_, q)) => if kind(t, q) != TokenType::RBracket {
                    match expr(t, q) {
                        Ok((e, r)) => if !(q < r <= t.len()) {
                            Ok((e, r))
                        } else {
                            match comma_list_rest(t, r, seq![e]) {
                                Ok((es, r2)) => match expect(t, r2, TokenType::RBracket) {
                                    Ok((_, r3)) => Ok((Tree::ArrayLit(es), r3)),
                                    Err(err) => Err(err),
                                },
                                Err(err) => Err(err),
                            }
                        }
                        Err(err) => Err(err),
                    }
                } else {
                    match expect(t, q, TokenType::RBracket) {
                        Ok((_, r)) => Ok((Tree::ArrayLit(Seq::empty()), r)),
                        Err(err) => Err(err),
                    }
                },
                Err(e) => Err(e),
            }
        }),
{
}

/// A name that is not `true` or `false`, not followed by a call, `.` or
/// `[`, is a whole unary operand.
proof fn lemma_name_unary(t: Seq<TokenView>, p: int)
    requires
        0 <= p,
        p + 1 < t.len(),
        t[p].tt == TokenType::Ident,
        t[p].value != "true"@,
        t[p].value != "false"@,
        t[p + 1].tt != TokenType::LParen,
        t[p + 1].tt != TokenType::Dot,
        t[p + 1].tt != TokenType::LBracket,
    ensures
        unary_expr(t, p) == Ok::<(Tree, int), ParseFailure>((Tree::Ident(t[p].value), p + 1)),
{
    let n = Tree::Ident(t[p].value);
    unfold_primary(t, p);
    unfold_postfix_rest(t, p + 1, n);
    unfold_postfix_expr(t, p);
    unfold_unary_expr(t, p);
}

/// A name that is not `true` or `false`, followed by a `;`, is a whole
/// operand: the expression parsed from it is the name, ending at the `;`.
proof fn lemma_name_operand(t: Seq<TokenView>, p: int)
    requires
        0 <= p,
        p + 1 < t.len(),
        t[p].tt == TokenType::Ident,
        t[p].value != "true"@,
        t[p].value != "false"@,
        t[p + 1].tt == TokenType::Semicolon,
    ensures
        unary_expr(t, p) == Ok::<(Tree, int), ParseFailure>((Tree::Ident(t[p].value), p + 1)),
        mul_expr(t, p) == Ok::<(Tree, int), ParseFailure>((Tree::Ident(t[p].value), p + 1)),
        add_expr(t, p) == Ok::<(Tree, int), ParseFailure>((Tree::Ident(t[p].value), p + 1)),
        comparison_expr(t, p) == Ok::<(Tree, int), ParseFailure>((Tree::Ident(t[p].value), p + 1)),
        and_expr(t, p) == Ok::<(Tree, int), ParseFailure>((Tree::Ident(t[p].value), p + 1)),
        expr(t, p) == Ok::<(Tree, int), ParseFailure>((Tree::Ident(t[p].value), p + 1)),
{
    lemma_name_unary(t, p);
    let n = Tree::Ident(t[p].value);
    unfold_primary(t, p);
    unfold_postfix_rest(t, p + 1, n);
    unfold_postfix_expr(t, p);
    unfold_unary_expr(t, p);
    unfold_mul_rest(t, p + 1, n);
    unfold_mul_expr(t, p);
    unfold_add_rest(t, p + 1, n);
    unfold_add_expr(t, p);
    unfold_comparison_rest(t, p + 1, n);
    unfold_comparison_expr(t, p);
    unfold_and_rest(t, p + 1, n);
    unfold_and_expr(t, p);
    unfold_or_rest(t, p + 1, n);
    unfold_or_expr(t, p);
    unfold_expr(t, p);
}

/// Keywords are whole words: an identifier starts a keyword statement only
/// when its text is exactly that keyword.
pub proof fn law_at_word_is_exact(t: Seq<TokenView>, p: int, w: Seq<char>)
    ensures
        at_word(t, p, w) <==> (0 <= p < t.len() && t[p].tt == TokenType::Ident && t[p].value == w),
{
}

/// A statement that is a name other than a keyword, a type word, `true` or
/// `false`, followed by `;`, is an expression statement holding that name,
/// and ends after the `;`. So `breakfast;` or `format;` is never taken for a
/// `break` or a `for` statement.
pub proof fn law_name_statement(t: Seq<TokenView>, p: int)
    requires
        0 <= p,
        p + 1 < t.len(),
        t[p].tt == TokenType::Ident,
        t[p + 1].tt == TokenType::Semicolon,
        t[p].value != "var"@,
        t[p].value != "fn"@,
        t[p].value != "if"@,
        t[p].value != "while"@,
        t[p].value != "for"@,
        t[p].value != "return"@,
        t[p].value != "break"@,
        t[p].value != "continue"@,
        t[p].value != "idb"@,
        t[p].value != "float"@,
        t[p].value != "string"@,
        t[p].value != "bool"@,
        t[p].value != "bel"@,
        t[p].value != "ster"@,
        t[p].value != "any"@,
        t[p].value != "true"@,
        t[p].value != "false"@,
    ensures
        stmt(t, p) == Ok::<(Tree, int), ParseFailure>(
            (Tree::ExprStmt(Box::new(Tree::Ident(t[p].value))), p + 2),
        ),
{
    lemma_name_operand(t, p);
    unfold_stmt(t, p);
}

/// A name assigned with `=` to a number, ending with `;`, is an assignment
/// of that number to that name, whatever the name (when it is not a
/// keyword, a type word, `true` or `false`).
pub proof fn law_name_assignment(t: Seq<TokenView>, p: int)
    requires
        0 <= p,
        p + 3 < t.len(),
        t[p].tt == TokenType::Ident,
        t[p + 1].tt == TokenType::Eq,
        t[p + 2].tt == TokenType::Number,
        t[p + 3].tt == TokenType::Semicolon,
        t[p].value != "var"@,
        t[p].value != "fn"@,
        t[p].value != "if"@,
        t[p].value != "while"@,
        t[p].value != "for"@,
        t[p].value != "return"@,
        t[p].value != "break"@,
        t[p].value != "continue"@,
        t[p].value != "idb"@,
        t[p].value != "float"@,
        t[p].value != "string"@,
        t[p].value != "bool"@,
        t[p].value != "bel"@,
        t[p].value != "ster"@,
        t[p].value != "any"@,
        t[p].value != "true"@,
        t[p].value != "false"@,
    ensures
        stmt(t, p) == Ok::<(Tree, int), ParseFailure>(
            (
                Tree::Assign {
                    target: Box::new(Tree::Ident(t[p].value)),
                    value: Box::new(Tree::NumLit(t[p + 2].value)),
                },
                p + 4,
            ),
        ),
{
    let n = Tree::Ident(t[p].value);
    unfold_primary(t, p);
    unfold_postfix_rest(t, p + 1, n);
    unfold_postfix_expr(t, p);
    unfold_unary_expr(t, p);
    unfold_mul_rest(t, p + 1, n);
    unfold_mul_expr(t, p);
    unfold_add_rest(t, p + 1, n);
    unfold_add_expr(t, p);
    unfold_comparison_rest(t, p + 1, n);
    unfold_comparison_expr(t, p);
    unfold_and_rest(t, p + 1, n);
    unfold_and_expr(t, p);
    unfold_or_rest(t, p + 1, n);
    unfold_or_expr(t, p);
    unfold_expr(t, p);
    let q = p + 2;
    let m = Tree::NumLit(t[q].value);
    unfold_primary(t, q);
    unfold_postfix_rest(t, q + 1, m);
    unfold_postfix_expr(t, q);
    unfold_unary_expr(t, q);
    unfold_mul_rest(t, q + 1, m);
    unfold_mul_expr(t, q);
    unfold_add_rest(t, q + 1, m);
    unfold_add_expr(t, q);
    unfold_comparison_rest(t, q + 1, m);
    unfold_comparison_expr(t, q);
    unfold_and_rest(t, q + 1, m);
    unfold_and_expr(t, q);
    unfold_or_rest(t, q + 1, m);
    unfold_or_expr(t, q);
    unfold_expr(t, q);
    unfold_stmt(t, p);
}

/// Each of `==`, `!=`, `<`, `>`, `<=` and `>=` between two names, followed
/// by `;`, is one comparison of the two names, its operator the token's
/// text, and the expression ends at the `;`.
pub proof fn law_comparison_of_names(t: Seq<TokenView>, p: int)
    requires
        0 <= p,
        p + 3 < t.len(),
        t[p].tt == TokenType::Ident,
        t[p].value != "true"@,
        t[p].value != "false"@,
        t[p + 1].tt == TokenType::EqEq || t[p + 1].tt == TokenType::Neq || t[p + 1].tt
            == TokenType::Lt || t[p + 1].tt == TokenType::Gt || t[p + 1].tt == TokenType::Lte
            || t[p + 1].tt == TokenType::Gte,
        t[p + 2].tt == TokenType::Ident,
        t[p + 2].value != "true"@,
        t[p + 2].value != "false"@,
        t[p + 3].tt == TokenType::Semicolon,
    ensures
        expr(t, p) == Ok::<(Tree, int), ParseFailure>(
            (
                Tree::BinExpr {
                    op: t[p + 1].value,
                    left: Box::new(Tree::Ident(t[p].value)),
                    right: Box::new(Tree::Ident(t[p + 2].value)),
                },
                p + 3,
            ),
        ),
{
    let a = Tree::Ident(t[p].value);
    let q = p + 2;
    lemma_name_operand(t, q);
    unfold_primary(t, p);
    unfold_postfix_rest(t, p + 1, a);
    unfold_postfix_expr(t, p);
    unfold_unary_expr(t, p);
    unfold_mul_rest(t, p + 1, a);
    unfold_mul_expr(t, p);
    unfold_add_rest(t, p + 1, a);
    unfold_add_expr(t, p);
    let c = bin(t[p + 1].value, a, Tree::Ident(t[q].value));
    unfold_comparison_rest(t, p + 1, a);
    unfold_comparison_rest(t, p + 3, c);
    unfold_comparison_expr(t, p);
    unfold_and_rest(t, p + 3, c);
    unfold_and_expr(t, p);
    unfold_or_rest(t, p + 3, c);
    unfold_or_expr(t, p);
    unfold_expr(t, p);
}

/// The rest of an expression ends at a `;`: nothing at the `;` continues
/// any operator level, so the expression is `e`.
proof fn lemma_ends_at_semicolon(t: Seq<TokenView>, q: int, e: Tree)
    requires
        0 <= q < t.len(),
        t[q].tt == TokenType::Semicolon,
    ensures
        postfix_rest(t, q, e) == Ok::<(Tree, int), ParseFailure>((e, q)),
        mul_rest(t, q, e) == Ok::<(Tree, int), ParseFailure>((e, q)),
        add_rest(t, q, e) == Ok::<(Tree, int), ParseFailure>((e, q)),
        comparison_rest(t, q, e) == Ok::<(Tree, int), ParseFailure>((e, q)),
        and_rest(t, q, e) == Ok::<(Tree, int), ParseFailure>((e, q)),
        or_rest(t, q, e) == Ok::<(Tree, int), ParseFailure>((e, q)),
{
    unfold_postfix_rest(t, q, e);
    unfold_mul_rest(t, q, e);
    unfold_add_rest(t, q, e);
    unfold_comparison_rest(t, q, e);
    unfold_and_rest(t, q, e);
    unfold_or_rest(t, q, e);
}

/// Each of `*`, `/` and `%` between two names, followed by `;`, is one
/// operation on the two names, its operator the token's text.
pub proof fn law_product_of_names(t: Seq<TokenView>, p: int)
    requires
        0 <= p,
        p + 3 < t.len(),
        t[p].tt == TokenType::Ident,
        t[p].value != "true"@,
        t[p].value != "false"@,
        t[p + 1].tt == TokenType::Star || t[p + 1].tt == TokenType::Slash || t[p + 1].tt
            == TokenType::Percent,
        t[p + 2].tt == TokenType::Ident,
        t[p + 2].value != "true"@,
        t[p + 2].value != "false"@,
        t[p + 3].tt == TokenType::Semicolon,
    ensures
        expr(t, p) == Ok::<(Tree, int), ParseFailure>(
            (bin(t[p + 1].value, Tree::Ident(t[p].value), Tree::Ident(t[p + 2].value)), p + 3),
        ),
{
    let a = Tree::Ident(t[p].value);
    let e = bin(t[p + 1].value, a, Tree::Ident(t[p + 2].value));
    lemma_name_unary(t, p);
    lemma_name_operand(t, p + 2);
    lemma_ends_at_semicolon(t, p + 3, e);
    unfold_mul_rest(t, p + 1, a);
    unfold_mul_expr(t, p);
    unfold_add_expr(t, p);
    unfold_comparison_expr(t, p);
    unfold_and_expr(t, p);
    unfold_or_expr(t, p);
    unfold_expr(t, p);
}

/// Each of `+` and `-` between two names, followed by `;`, is one
/// operation on the two names, its operator the token's text.
pub proof fn law_sum_of_names(t: Seq<TokenView>, p: int)
    requires
        0 <= p,
        p + 3 < t.len(),
        t[p].tt == TokenType::Ident,
        t[p].value != "true"@,
        t[p].value != "false"@,
        t[p + 1].tt == TokenType::Plus || t[p + 1].tt == TokenType::Minus,
        t[p + 2].tt == TokenType::Ident,
        t[p + 2].value != "true"@,
        t[p + 2].value != "false"@,
        t[p + 3].tt == TokenType::Semicolon,
    ensures
        expr(t, p) == Ok::<(Tree, int), ParseFailure>(
            (bin(t[p + 1].value, Tree::Ident(t[p].value), Tree::Ident(t[p + 2].value)), p + 3),
        ),
{
    let a = Tree::Ident(t[p].value);
    let e = bin(t[p + 1].value, a, Tree::Ident(t[p + 2].value));
    lemma_name_unary(t, p);
    lemma_name_operand(t, p + 2);
    lemma_ends_at_semicolon(t, p + 3, e);
    unfold_mul_rest(t, p + 1, a);
    unfold_mul_expr(t, p);
    unfold_add_rest(t, p + 1, a);
    unfold_add_expr(t, p);
    unfold_comparison_expr(t, p);
    unfold_and_expr(t, p);
    unfold_or_expr(t, p);
    unfold_expr(t, p);
}

/// `&&` and `||` between two names, followed by `;`, join the two names
/// with the operator `&&` or `||`.
pub proof fn law_logic_of_names(t: Seq<TokenView>, p: int)
    requires
        0 <= p,
        p + 3 < t.len(),
        t[p].tt == TokenType::Ident,
        t[p].value != "true"@,
        t[p].value != "false"@,
        t[p + 1].tt == TokenType::And || t[p + 1].tt == TokenType::Or,
        t[p + 2].tt == TokenType::Ident,
        t[p + 2].value != "true"@,
        t[p + 2].value != "false"@,
        t[p + 3].tt == TokenType::Semicolon,
    ensures
        expr(t, p) == Ok::<(Tree, int), ParseFailure>(
            (
                bin(
                    if t[p + 1].tt == TokenType::And { "&&"@ } else { "||"@ },
                    Tree::Ident(t[p].value),
                    Tree::Ident(t[p + 2].value),
                ),
                p + 3,
            ),
        ),
{
    let a = Tree::Ident(t[p].value);
    let b = Tree::Ident(t[p + 2].value);
    lemma_name_unary(t, p);
    lemma_name_operand(t, p + 2);
    lemma_ends_at_semicolon(t, p + 3, bin("&&"@, a, b));
    lemma_ends_at_semicolon(t, p + 3, bin("||"@, a, b));
    unfold_mul_rest(t, p + 1, a);
    unfold_mul_expr(t, p);
    unfold_add_rest(t, p + 1, a);
    unfold_add_expr(t, p);
    unfold_comparison_rest(t, p + 1, a);
    unfold_comparison_expr(t, p);
    unfold_and_rest(t, p + 1, a);
    unfold_and_expr(t, p);
    unfold_or_rest(t, p + 1, a);
    unfold_or_expr(t, p);
    unfold_expr(t, p);
}

/// `*`, `/` and `%` bind tighter than `+` and `-`: in `a + b * c;` the
/// product is the right operand of the sum.
pub proof fn law_product_binds_tighter(t: Seq<TokenView>, p: int)
    requires
        0 <= p,
        p + 5 < t.len(),
        t[p].tt == TokenType::Ident,
        t[p].value != "true"@,
        t[p].value != "false"@,
        t[p + 1].tt == TokenType::Plus || t[p + 1].tt == TokenType::Minus,
        t[p + 2].tt == TokenType::Ident,
        t[p + 2].value != "true"@,
        t[p + 2].value != "false"@,
        t[p + 3].tt == TokenType::Star || t[p + 3].tt == TokenType::Slash || t[p + 3].tt
            == TokenType::Percent,
        t[p + 4].tt == TokenType::Ident,
        t[p + 4].value != "true"@,
        t[p + 4].value != "false"@,
        t[p + 5].tt == TokenType::Semicolon,
    ensures
        expr(t, p) == Ok::<(Tree, int), ParseFailure>(
            (
                bin(
                    t[p + 1].value,
                    Tree::Ident(t[p].value),
                    bin(t[p + 3].value, Tree::Ident(t[p + 2].value), Tree::Ident(t[p + 4].value)),
                ),
                p + 5,
            ),
        ),
{
    let a = Tree::Ident(t[p].value);
    let b = Tree::Ident(t[p + 2].value);
    let bc = bin(t[p + 3].value, b, Tree::Ident(t[p + 4].value));
    let e = bin(t[p + 1].value, a, bc);
    lemma_name_unary(t, p);
    lemma_name_unary(t, p + 2);
    lemma_name_operand(t, p + 4);
    lemma_ends_at_semicolon(t, p + 5, bc);
    lemma_ends_at_semicolon(t, p + 5, e);
    unfold_mul_rest(t, p + 3, b);
    unfold_mul_expr(t, p + 2);
    unfold_mul_rest(t, p + 1, a);
    unfold_mul_expr(t, p);
    unfold_add_rest(t, p + 1, a);
    unfold_add_expr(t, p);
    unfold_comparison_expr(t, p);
    unfold_and_expr(t, p);
    unfold_or_expr(t, p);
    unfold_expr(t, p);
}

/// `+` and `-` group to the left: `a - b - c;` is `(a - b) - c`.
pub proof fn law_sums_group_left(t: Seq<TokenView>, p: int)
    requires
        0 <= p,
        p + 5 < t.len(),
        t[p].tt == TokenType::Ident,
        t[p].value != "true"@,
        t[p].value != "false"@,
        t[p + 1].tt == TokenType::Plus || t[p + 1].tt == TokenType::Minus,
        t[p + 2].tt == TokenType::Ident,
        t[p + 2].value != "true"@,
        t[p + 2].value != "false"@,
        t[p + 3].tt == TokenType::Plus || t[p + 3].tt == TokenType::Minus,
        t[p + 4].tt == TokenType::Ident,
        t[p + 4].value != "true"@,
        t[p + 4].value != "false"@,
        t[p + 5].tt == TokenType::Semicolon,
    ensures
        expr(t, p) == Ok::<(Tree, int), ParseFailure>(
            (
                bin(
                    t[p + 3].value,
                    bin(t[p + 1].value, Tree::Ident(t[p].value), Tree::Ident(t[p + 2].value)),
                    Tree::Ident(t[p + 4].value),
                ),
                p + 5,
            ),
        ),
{
    let a = Tree::Ident(t[p].value);
    let b = Tree::Ident(t[p + 2].value);
    let ab = bin(t[p + 1].value, a, b);
    let e = bin(t[p + 3].value, ab, Tree::Ident(t[p + 4].value));
    lemma_name_unary(t, p);
    lemma_name_unary(t, p + 2);
    lemma_name_operand(t, p + 4);
    lemma_ends_at_semicolon(t, p + 5, e);
    unfold_mul_rest(t, p + 3, b);
    unfold_mul_expr(t, p + 2);
    unfold_mul_rest(t, p + 1, a);
    unfold_mul_expr(t, p);
    unfold_add_rest(t, p + 1, a);
    unfold_add_rest(t, p + 3, ab);
    unfold_add_expr(t, p);
    unfold_comparison_expr(t, p);
    unfold_and_expr(t, p);
    unfold_or_expr(t, p);
    unfold_expr(t, p);
}

/// `-` and `!` in front of a name, followed by `;`, negate that name.
pub proof fn law_unary_of_name(t: Seq<TokenView>, p: int)
    requires
        0 <= p,
        p + 2 < t.len(),
        t[p].tt == TokenType::Minus || t[p].tt == TokenType::Not,
        t[p + 1].tt == TokenType::Ident,
        t[p + 1].value != "true"@,
        t[p + 1].value != "false"@,
        t[p + 2].tt == TokenType::Semicolon,
    ensures
        expr(t, p) == Ok::<(Tree, int), ParseFailure>(
            (
                Tree::UnaryExpr {
                    op: if t[p].tt == TokenType::Minus { "-"@ } else { "!"@ },
                    expr: Box::new(Tree::Ident(t[p + 1].value)),
                },
                p + 2,
            ),
        ),
{
    let n = Tree::Ident(t[p + 1].value);
    let e = Tree::UnaryExpr {
        op: if t[p].tt == TokenType::Minus { "-"@ } else { "!"@ },
        expr: Box::new(n),
    };
    unfold_primary(t, p + 1);
    unfold_postfix_rest(t, p + 2, n);
    unfold_postfix_expr(t, p + 1);
    unfold_unary_expr(t, p);
    lemma_ends_at_semicolon(t, p + 2, e);
    unfold_mul_expr(t, p);
    unfold_add_expr(t, p);
    unfold_comparison_expr(t, p);
    unfold_and_expr(t, p);
    unfold_or_expr(t, p);
    unfold_expr(t, p);
}

/// `break;` and `continue;` are the loop-control statements, ending after
/// the `;`.
pub proof fn law_loop_control(t: Seq<TokenView>, p: int)
    requires
        0 <= p,
        p + 1 < t.len(),
        t[p].tt == TokenType::Ident,
        t[p].value == "break"@ || t[p].value == "continue"@,
        t[p + 1].tt == TokenType::Semicolon,
    ensures
        stmt(t, p) == Ok::<(Tree, int), ParseFailure>(
            (if t[p].value == "break"@ { Tree::BreakStmt } else { Tree::ContinueStmt }, p + 2),
        ),
{
    reveal_strlit("break");
    reveal_strlit("continue");
    reveal_strlit("var");
    reveal_strlit("fn");
    reveal_strlit("if");
    reveal_strlit("while");
    reveal_strlit("for");
    reveal_strlit("return");
    assert("break"@.len() == 5 && "continue"@.len() == 8 && "var"@.len() == 3 && "fn"@.len() == 2);
    assert("if"@.len() == 2 && "while"@.len() == 5 && "for"@.len() == 3 && "return"@.len() == 6);
    assert("break"@[0] == 'b' && "while"@[0] == 'w');
    unfold_stmt(t, p);
}

} // verus!
