use vstd::prelude::*;
use vstd::string::StringExecFns;

use crate::ast::{
    ASTNode, ArrayLit, Assign, BinExpr, BlockStmt, BoolLit, CallExpr, DotExpr, ExprStmt, FnDecl,
    ForStmt, IdbDecl, Ident, IfStmt, IndexExpr, NumLit, Program, ReturnStmt, StringLit, Tree,
    TypedParam, UnaryExpr, VarDecl, WhileStmt, lemma_trees_of_push, param_view, params_view, tree_of,
    trees_of,
};
use crate::grammar::{
    ParseFailure, Step, law_statements_at_most_tokens, add_expr, bin, param, type_word, typed_decl_kind, add_rest, all_digits, and_expr, and_rest, annotation, array_lit,
    at_word, block, block_rest, callee_name, comma_list_rest, comparison_expr, comparison_rest,
    decimal_value, expect, expr, fn_decl, for_stmt, has_sign, i64_of, idb_decl, if_stmt,
    is_digit_char, kind, mul_expr, mul_rest, named_type, or_expr, or_rest, param_list, params_rest,
    postfix_expr, postfix_rest, primary, program_rest, return_stmt, skip_kind, stmt, tok,
    typed_decl, unary_expr, unfold_add_expr, unfold_add_rest, unfold_and_expr, unfold_and_rest,
    unfold_array_lit, unfold_block, unfold_block_rest, unfold_comma_list_rest,
    unfold_comparison_expr, unfold_comparison_rest, unfold_expr, unfold_fn_decl, unfold_for_stmt,
    unfold_idb_decl, unfold_if_stmt, unfold_mul_expr, unfold_mul_rest, unfold_or_expr,
    unfold_or_rest, unfold_postfix_expr, unfold_postfix_rest, unfold_primary,
    unfold_program_rest, unfold_return_stmt, unfold_stmt, unfold_typed_decl, unfold_unary_expr,
    unfold_var_decl, unfold_while_stmt, unsigned_part, var_decl, while_stmt,
};
use crate::runtime::{decimal, decimal_text};
use crate::token::{Token, TokenType, TokenView, token_name_spec, token_views};
use crate::types::BType;

verus! {

/// Whether two strings hold the same characters.
pub(crate) fn str_eq(a: &str, b: &str) -> (r: bool)
    ensures
        r == (a@ == b@),
{
    let x = chars_of(a);
    let y = chars_of(b);
    if x.len() != y.len() {
        return false;
    }
    let mut i: usize = 0;
    while i < x.len()
        invariant
            x@ == a@,
            y@ == b@,
            x@.len() == y@.len(),
            i <= x@.len(),
            forall|j: int| 0 <= j < i ==> x@[j] == y@[j],
        decreases x@.len() - i,
    {
        if x[i] != y[i] {
            return false;
        }
        i = i + 1;
    }
    assert(a@ =~= b@);
    true
}

/// The characters of a string, in order.
fn chars_of(s: &str) -> (r: Vec<char>)
    ensures
        r@ == s@,
{
    broadcast use vstd::string::group_string_axioms;

    let mut out: Vec<char> = Vec::new();
    for c in it: s.chars()
        invariant
            out@ == it.seq().take(it.index() as int),
    {
        out.push(c);
    }
    assert(out@ == s@);
    out
}

proof fn lemma_decimal_nonneg(s: Seq<char>)
    requires
        all_digits(s),
    ensures
        decimal_value(s) >= 0,
    decreases s.len(),
{
    if s.len() > 0 {
        lemma_decimal_nonneg(s.drop_last());
    }
}

/// A digit string is worth at least as much as any of its prefixes.
proof fn lemma_decimal_prefix(s: Seq<char>, k: int)
    requires
        0 <= k <= s.len(),
        all_digits(s),
    ensures
        decimal_value(s.take(k)) <= decimal_value(s),
    decreases s.len(),
{
    if k < s.len() {
        lemma_decimal_prefix(s.drop_last(), k);
        lemma_decimal_nonneg(s.drop_last());
        assert(s.drop_last().take(k) =~= s.take(k));
    } else {
        assert(s.take(k) =~= s);
    }
}

/// Reads a decimal `i64` as `str::parse::<i64>` does.
fn parse_i64(s: &str) -> (r: Option<i64>)
    ensures
        r == i64_of(s@),
{
    let chars = chars_of(s);
    let ghost sv = s@;
    let n = chars.len();
    let mut neg = false;
    let mut start: usize = 0;
    if n > 0 && (chars[0] == '-' || chars[0] == '+') {
        neg = chars[0] == '-';
        start = 1;
    }
    let ghost body = unsigned_part(sv);
    assert(body =~= sv.subrange(start as int, n as int));
    if start >= n {
        return None;
    }
    let mut acc: i64 = 0;
    let mut i = start;
    while i < n
        invariant
            start <= i <= n,
            n == sv.len(),
            chars@ == sv,
            sv == s@,
            neg == (sv.len() > 0 && sv[0] == '-'),
            start == (if has_sign(sv) {
                1int
            } else {
                0int
            }),
            body == unsigned_part(sv),
            body == sv.subrange(start as int, n as int),
            forall|j: int| 0 <= j < i - start ==> is_digit_char(#[trigger] body[j]),
            acc == (if neg {
                -decimal_value(body.take(i - start))
            } else {
                decimal_value(body.take(i - start))
            }),
        decreases n - i,
    {
        let c = chars[i];
        let ghost k = i - start;
        assert(body[k] == c);
        if !(c >= '0' && c <= '9') {
            assert(!is_digit_char(body[k]));
            assert(!all_digits(body));
            return None;
        }
        let d: i64 = if c == '0' {
            0
        } else if c == '1' {
            1
        } else if c == '2' {
            2
        } else if c == '3' {
            3
        } else if c == '4' {
            4
        } else if c == '5' {
            5
        } else if c == '6' {
            6
        } else if c == '7' {
            7
        } else if c == '8' {
            8
        } else {
            9
        };
        assert(body.take(k + 1).drop_last() =~= body.take(k));
        assert(d == c as int - '0' as int);
        let next = if neg {
            match acc.checked_mul(10) {
                Some(m) => m.checked_sub(d),
                None => None,
            }
        } else {
            match acc.checked_mul(10) {
                Some(m) => m.checked_add(d),
                None => None,
            }
        };
        match next {
            Some(v) => {
                acc = v;
            },
            None => {
                proof {
                    if all_digits(body) {
                        lemma_decimal_prefix(body, k + 1);
                        lemma_decimal_nonneg(body.take(k));
                    }
                }
                return None;
            },
        }
        i += 1;
    }
    assert(body.take(n - start) =~= body);
    Some(acc)
}

/// A parse error, with the token where parsing stopped.
#[derive(Debug)]
pub enum ParseError {
    /// A token of kind `expected` was required; `found` stood there instead.
    Expected { expected: TokenType, found: Token },
    /// A type annotation named no known type.
    UnknownType { found: Token },
    /// A call was applied to something that is neither a name nor a call.
    NotCallable { line: usize },
    /// No expression can start with this token.
    UnexpectedToken { found: Token },
}

impl View for ParseError {
    type V = ParseFailure;

    open spec fn view(&self) -> ParseFailure {
        match self {
            ParseError::Expected { expected, found } => ParseFailure::Expected {
                expected: *expected,
                found: found@,
            },
            ParseError::UnknownType { found } => ParseFailure::UnknownType { found: found@ },
            ParseError::NotCallable { line } => ParseFailure::NotCallable { line: *line as nat },
            ParseError::UnexpectedToken { found } => ParseFailure::UnexpectedToken { found: found@ },
        }
    }
}

/// The message for a parse error, naming the line and column where parsing
/// stopped.
pub open spec fn parse_error_text(e: ParseFailure) -> Seq<char> {
    match e {
        ParseFailure::Expected { expected, found } => "line "@ + decimal_text(found.line) + ":"@
            + decimal_text(found.col) + ": expected "@ + token_name_spec(expected) + ", got "@
            + token_name_spec(found.tt) + " ("@ + found.value + ")"@,
        ParseFailure::UnknownType { found } => "line "@ + decimal_text(found.line) + ":"@
            + decimal_text(found.col) + ": unknown type '"@ + found.value + "'"@,
        ParseFailure::NotCallable { line } => "line "@ + decimal_text(line) + ": not callable"@,
        ParseFailure::UnexpectedToken { found } => "line "@ + decimal_text(found.line) + ":"@
            + decimal_text(found.col) + ": unexpected token '"@ + token_name_spec(found.tt)
            + "' ("@ + found.value + ")"@,
    }
}

impl ParseError {
    /// The message for this error, as the interpreter reports it.
    pub fn message(&self) -> (r: String)
        ensures
            r@ == parse_error_text(self@),
    {
        match self {
            ParseError::Expected { expected, found } => {
                let mut r = String::from_str("line ");
                r.append(decimal(found.line).as_str());
                r.append(":");
                r.append(decimal(found.col).as_str());
                r.append(": expected ");
                r.append(expected.name());
                r.append(", got ");
                r.append(found.tt.name());
                r.append(" (");
                r.append(found.value.as_str());
                r.append(")");
                r
            },
            ParseError::UnknownType { found } => {
                let mut r = String::from_str("line ");
                r.append(decimal(found.line).as_str());
                r.append(":");
                r.append(decimal(found.col).as_str());
                r.append(": unknown type '");
                r.append(found.value.as_str());
                r.append("'");
                r
            },
            ParseError::NotCallable { line } => {
                let mut r = String::from_str("line ");
                r.append(decimal(*line).as_str());
                r.append(": not callable");
                r
            },
            ParseError::UnexpectedToken { found } => {
                let mut r = String::from_str("line ");
                r.append(decimal(found.line).as_str());
                r.append(":");
                r.append(decimal(found.col).as_str());
                r.append(": unexpected token '");
                r.append(found.tt.name());
                r.append("' (");
                r.append(found.value.as_str());
                r.append(")");
                r
            },
        }
    }
}

/// The parser produced what the grammar gives at that position.
pub open spec fn node_step(r: Result<ASTNode, ParseError>, s: Step<Tree>, pos: int) -> bool {
    match s {
        Ok((tree, q)) => r matches Ok(n) && n@ == tree && pos == q,
        Err(e) => r matches Err(err) && err@ == e,
    }
}

/// The whole program of a token sequence, from position `p`.
pub open spec fn program(t: Seq<TokenView>, p: int) -> Step<Seq<Tree>> {
    program_rest(t, p, Seq::empty())
}

/// No token from `a` up to `b` is an end-of-input token.
pub open spec fn no_eof_between(t: Seq<TokenView>, a: int, b: int) -> bool {
    forall|i: int| a <= i < b ==> (#[trigger] t[i]).tt != TokenType::Eof
}

/// Turns tokens into a syntax tree by recursive descent.
pub struct Parser {
    tokens: Vec<Token>,
    pos: usize,
}

impl Parser {
    /// The tokens being parsed.
    pub closed spec fn toks(&self) -> Seq<TokenView> {
        token_views(self.tokens@)
    }

    /// The position of the next token to read.
    pub closed spec fn at(&self) -> int {
        self.pos as int
    }

    pub closed spec fn wf(&self) -> bool {
        self.pos <= self.tokens@.len()
    }

    pub fn new(tokens: Vec<Token>) -> (r: Self)
        ensures
            r.wf(),
            r.toks() == token_views(tokens@),
            r.at() == 0,
    {
        Parser { tokens, pos: 0 }
    }

    fn peek_tt(&self) -> (r: TokenType)
        requires
            self.wf(),
        ensures
            r == kind(self.toks(), self.pos as int),
    {
        if self.pos >= self.tokens.len() {
            TokenType::Eof
        } else {
            self.tokens[self.pos].tt
        }
    }

    fn peek_token(&self) -> (r: Token)
        requires
            self.wf(),
        ensures
            r@ == tok(self.toks(), self.pos as int),
    {
        if self.pos >= self.tokens.len() {
            Token::eof()
        } else {
            self.tokens[self.pos].duplicate()
        }
    }

    fn advance(&mut self) -> (r: Token)
        requires
            old(self).wf(),
            old(self).pos < old(self).tokens@.len(),
            kind(old(self).toks(), old(self).pos as int) != TokenType::Eof,
        ensures
            final(self).wf(),
            final(self).tokens@ == old(self).tokens@,
            no_eof_between(old(self).toks(), old(self).pos as int, final(self).pos as int),
            final(self).pos == old(self).pos + 1,
            r@ == old(self).toks()[old(self).pos as int],
    {
        let n = self.tokens.len();
        let t = self.tokens[self.pos].duplicate();
        assert(self.pos < n);
        self.pos += 1;
        t
    }

    fn expect(&mut self, tt: TokenType) -> (r: Token)
        requires
            old(self).wf(),
            tt != TokenType::Eof,
            expect(old(self).toks(), old(self).pos as int, tt) is Ok,
        ensures
            final(self).wf(),
            final(self).tokens@ == old(self).tokens@,
            no_eof_between(old(self).toks(), old(self).pos as int, final(self).pos as int),
            expect(old(self).toks(), old(self).pos as int, tt) == Ok::<(TokenView, int), ParseFailure>(
                (r@, final(self).pos as int),
            ),
    {
        self.advance()
    }

    fn match_token(&mut self, tt: TokenType) -> (r: bool)
        requires
            old(self).wf(),
            tt != TokenType::Eof,
        ensures
            final(self).wf(),
            final(self).tokens@ == old(self).tokens@,
            no_eof_between(old(self).toks(), old(self).pos as int, final(self).pos as int),
            final(self).pos == skip_kind(old(self).toks(), old(self).pos as int, tt),
            r == (kind(old(self).toks(), old(self).pos as int) == tt),
    {
        if self.peek_tt() == tt {
            self.advance();
            true
        } else {
            false
        }
    }

    fn at_ident(&self, v: &str) -> (r: bool)
        requires
            self.wf(),
        ensures
            r == at_word(self.toks(), self.pos as int, v@),
    {
        self.peek_tt() == TokenType::Ident && str_eq(self.tokens[self.pos].value.as_str(), v)
    }

    fn parse_type(&mut self) -> (r: BType)
        requires
            old(self).wf(),
            named_type(old(self).toks(), old(self).pos as int) is Ok,
        ensures
            final(self).wf(),
            final(self).tokens@ == old(self).tokens@,
            no_eof_between(old(self).toks(), old(self).pos as int, final(self).pos as int),
            named_type(old(self).toks(), old(self).pos as int) == Ok::<(BType, int), ParseFailure>(
                (r, final(self).pos as int),
            ),
    {
        let t = self.expect(TokenType::Ident);
        let v = t.value.as_str();
        if str_eq(v, "float") {
            BType::Float
        } else if str_eq(v, "string") {
            BType::String
        } else if str_eq(v, "bool") {
            BType::Bool
        } else if str_eq(v, "bel") {
            BType::Bel
        } else if str_eq(v, "ster") {
            BType::Ster
        } else {
            BType::Any
        }
    }
}

impl Parser {
    fn parse_expr(&mut self) -> (r: ASTNode)
        requires
            old(self).wf(),
            expr(old(self).toks(), old(self).pos as int) is Ok,
        ensures
            final(self).wf(),
            final(self).tokens@ == old(self).tokens@,
            no_eof_between(old(self).toks(), old(self).pos as int, final(self).pos as int),
            expr(old(self).toks(), old(self).pos as int) == Ok::<(Tree, int), ParseFailure>((r@, final(self).pos as int)),
            old(self).pos < final(self).pos,
        decreases old(self).tokens@.len() - old(self).pos, 20int,
    {
        proof {
            unfold_expr(self.toks(), self.pos as int);
        }
        self.parse_or()
    }

    fn parse_or(&mut self) -> (r: ASTNode)
        requires
            old(self).wf(),
            or_expr(old(self).toks(), old(self).pos as int) is Ok,
        ensures
            final(self).wf(),
            final(self).tokens@ == old(self).tokens@,
            no_eof_between(old(self).toks(), old(self).pos as int, final(self).pos as int),
            or_expr(old(self).toks(), old(self).pos as int) == Ok::<(Tree, int), ParseFailure>((r@, final(self).pos as int)),
            old(self).pos < final(self).pos,
        decreases old(self).tokens@.len() - old(self).pos, 19int,
    {
        let ghost t = self.toks();
        let ghost p0 = self.pos as int;
        let ghost target = or_expr(t, p0);
        proof {
            unfold_or_expr(t, p0);
        }
        let mut left = self.parse_and();
        loop
            invariant
                self.wf(),
                self.tokens@ == old(self).tokens@,
                no_eof_between(old(self).toks(), old(self).pos as int, self.pos as int),
                t == self.toks(),
                target == or_expr(t, p0),
                target is Ok,
                p0 == old(self).pos,
                p0 < self.pos,
                or_rest(t, self.pos as int, left@) == target,
            ensures
                self.wf(),
                self.tokens@ == old(self).tokens@,
                no_eof_between(old(self).toks(), old(self).pos as int, self.pos as int),
                p0 < self.pos,
                target == Ok::<(Tree, int), ParseFailure>((left@, self.pos as int)),
            decreases self.tokens@.len() - self.pos,
        {
            proof {
                unfold_or_rest(t, self.pos as int, left@);
            }
            let tt = self.peek_tt();
            if tt == TokenType::Or {
                let op = {
                    self.advance();
                    "||".to_string()
                };
                let right = self.parse_and();
                left = ASTNode::BinExpr(
                    Box::new(BinExpr { op, left: Box::new(left), right: Box::new(right) }),
                );
            } else {
                break;
            }
        }
        left
    }

    fn parse_and(&mut self) -> (r: ASTNode)
        requires
            old(self).wf(),
            and_expr(old(self).toks(), old(self).pos as int) is Ok,
        ensures
            final(self).wf(),
            final(self).tokens@ == old(self).tokens@,
            no_eof_between(old(self).toks(), old(self).pos as int, final(self).pos as int),
            and_expr(old(self).toks(), old(self).pos as int) == Ok::<(Tree, int), ParseFailure>((r@, final(self).pos as int)),
            old(self).pos < final(self).pos,
        decreases old(self).tokens@.len() - old(self).pos, 17int,
    {
        let ghost t = self.toks();
        let ghost p0 = self.pos as int;
        let ghost target = and_expr(t, p0);
        proof {
            unfold_and_expr(t, p0);
        }
        let mut left = self.parse_comparison();
        loop
            invariant
                self.wf(),
                self.tokens@ == old(self).tokens@,
                no_eof_between(old(self).toks(), old(self).pos as int, self.pos as int),
                t == self.toks(),
                target == and_expr(t, p0),
                target is Ok,
                p0 == old(self).pos,
                p0 < self.pos,
                and_rest(t, self.pos as int, left@) == target,
            ensures
                self.wf(),
                self.tokens@ == old(self).tokens@,
                no_eof_between(old(self).toks(), old(self).pos as int, self.pos as int),
                p0 < self.pos,
                target == Ok::<(Tree, int), ParseFailure>((left@, self.pos as int)),
            decreases self.tokens@.len() - self.pos,
        {
            proof {
                unfold_and_rest(t, self.pos as int, left@);
            }
            let tt = self.peek_tt();
            if tt == TokenType::And {
                let op = {
                    self.advance();
                    "&&".to_string()
                };
                let right = self.parse_comparison();
                left = ASTNode::BinExpr(
                    Box::new(BinExpr { op, left: Box::new(left), right: Box::new(right) }),
                );
            } else {
                break;
            }
        }
        left
    }

    fn parse_comparison(&mut self) -> (r: ASTNode)
        requires
            old(self).wf(),
            comparison_expr(old(self).toks(), old(self).pos as int) is Ok,
        ensures
            final(self).wf(),
            final(self).tokens@ == old(self).tokens@,
            no_eof_between(old(self).toks(), old(self).pos as int, final(self).pos as int),
            comparison_expr(old(self).toks(), old(self).pos as int) == Ok::<(Tree, int), ParseFailure>((r@, final(self).pos as int)),
            old(self).pos < final(self).pos,
        decreases old(self).tokens@.len() - old(self).pos, 15int,
    {
        let ghost t = self.toks();
        let ghost p0 = self.pos as int;
        let ghost target = comparison_expr(t, p0);
        proof {
            unfold_comparison_expr(t, p0);
        }
        let mut left = self.parse_add_sub();
        loop
            invariant
                self.wf(),
                self.tokens@ == old(self).tokens@,
                no_eof_between(old(self).toks(), old(self).pos as int, self.pos as int),
                t == self.toks(),
                target == comparison_expr(t, p0),
                target is Ok,
                p0 == old(self).pos,
                p0 < self.pos,
                comparison_rest(t, self.pos as int, left@) == target,
            ensures
                self.wf(),
                self.tokens@ == old(self).tokens@,
                no_eof_between(old(self).toks(), old(self).pos as int, self.pos as int),
                p0 < self.pos,
                target == Ok::<(Tree, int), ParseFailure>((left@, self.pos as int)),
            decreases self.tokens@.len() - self.pos,
        {
            proof {
                unfold_comparison_rest(t, self.pos as int, left@);
            }
            let tt = self.peek_tt();
            if tt == TokenType::EqEq || tt == TokenType::Neq || tt == TokenType::Lt || tt == TokenType::Gt
                || tt == TokenType::Lte || tt == TokenType::Gte {
                let op = self.advance().value;
                let right = self.parse_add_sub();
                left = ASTNode::BinExpr(
                    Box::new(BinExpr { op, left: Box::new(left), right: Box::new(right) }),
                );
            } else {
                break;
            }
        }
        left
    }

    fn parse_add_sub(&mut self) -> (r: ASTNode)
        requires
            old(self).wf(),
            add_expr(old(self).toks(), old(self).pos as int) is Ok,
        ensures
            final(self).wf(),
            final(self).tokens@ == old(self).tokens@,
            no_eof_between(old(self).toks(), old(self).pos as int, final(self).pos as int),
            add_expr(old(self).toks(), old(self).pos as int) == Ok::<(Tree, int), ParseFailure>((r@, final(self).pos as int)),
            old(self).pos < final(self).pos,
        decreases old(self).tokens@.len() - old(self).pos, 13int,
    {
        let ghost t = self.toks();
        let ghost p0 = self.pos as int;
        let ghost target = add_expr(t, p0);
        proof {
            unfold_add_expr(t, p0);
        }
        let mut left = self.parse_mul_div();
        loop
            invariant
                self.wf(),
                self.tokens@ == old(self).tokens@,
                no_eof_between(old(self).toks(), old(self).pos as int, self.pos as int),
                t == self.toks(),
                target == add_expr(t, p0),
                target is Ok,
                p0 == old(self).pos,
                p0 < self.pos,
                add_rest(t, self.pos as int, left@) == target,
            ensures
                self.wf(),
                self.tokens@ == old(self).tokens@,
                no_eof_between(old(self).toks(), old(self).pos as int, self.pos as int),
                p0 < self.pos,
                target == Ok::<(Tree, int), ParseFailure>((left@, self.pos as int)),
            decreases self.tokens@.len() - self.pos,
        {
            proof {
                unfold_add_rest(t, self.pos as int, left@);
            }
            let tt = self.peek_tt();
            if tt == TokenType::Plus || tt == TokenType::Minus {
                let op = self.advance().value;
                let right = self.parse_mul_div();
                left = ASTNode::BinExpr(
                    Box::new(BinExpr { op, left: Box::new(left), right: Box::new(right) }),
                );
            } else {
                break;
            }
        }
        left
    }

    fn parse_mul_div(&mut self) -> (r: ASTNode)
        requires
            old(self).wf(),
            mul_expr(old(self).toks(), old(self).pos as int) is Ok,
        ensures
            final(self).wf(),
            final(self).tokens@ == old(self).tokens@,
            no_eof_between(old(self).toks(), old(self).pos as int, final(self).pos as int),
            mul_expr(old(self).toks(), old(self).pos as int) == Ok::<(Tree, int), ParseFailure>((r@, final(self).pos as int)),
            old(self).pos < final(self).pos,
        decreases old(self).tokens@.len() - old(self).pos, 11int,
    {
        let ghost t = self.toks();
        let ghost p0 = self.pos as int;
        let ghost target = mul_expr(t, p0);
        proof {
            unfold_mul_expr(t, p0);
        }
        let mut left = self.parse_unary();
        loop
            invariant
                self.wf(),
                self.tokens@ == old(self).tokens@,
                no_eof_between(old(self).toks(), old(self).pos as int, self.pos as int),
                t == self.toks(),
                target == mul_expr(t, p0),
                target is Ok,
                p0 == old(self).pos,
                p0 < self.pos,
                mul_rest(t, self.pos as int, left@) == target,
            ensures
                self.wf(),
                self.tokens@ == old(self).tokens@,
                no_eof_between(old(self).toks(), old(self).pos as int, self.pos as int),
                p0 < self.pos,
                target == Ok::<(Tree, int), ParseFailure>((left@, self.pos as int)),
            decreases self.tokens@.len() - self.pos,
        {
            proof {
                unfold_mul_rest(t, self.pos as int, left@);
            }
            let tt = self.peek_tt();
            if tt == TokenType::Star || tt == TokenType::Slash || tt == TokenType::Percent {
                let op = self.advance().value;
                let right = self.parse_unary();
                left = ASTNode::BinExpr(
                    Box::new(BinExpr { op, left: Box::new(left), right: Box::new(right) }),
                );
            } else {
                break;
            }
        }
        left
    }

    fn parse_unary(&mut self) -> (r: ASTNode)
        requires
            old(self).wf(),
            unary_expr(old(self).toks(), old(self).pos as int) is Ok,
        ensures
            final(self).wf(),
            final(self).tokens@ == old(self).tokens@,
            no_eof_between(old(self).toks(), old(self).pos as int, final(self).pos as int),
            unary_expr(old(self).toks(), old(self).pos as int) == Ok::<(Tree, int), ParseFailure>((r@, final(self).pos as int)),
            old(self).pos < final(self).pos,
        decreases old(self).tokens@.len() - old(self).pos, 9int,
    {
        proof {
            unfold_unary_expr(self.toks(), self.pos as int);
        }
        if self.peek_tt() == TokenType::Minus {
            self.advance();
            let e = self.parse_postfix();
            return ASTNode::UnaryExpr(Box::new(UnaryExpr { op: "-".to_string(), expr: Box::new(e) }));
        }
        if self.peek_tt() == TokenType::Not {
            self.advance();
            let e = self.parse_postfix();
            return ASTNode::UnaryExpr(Box::new(UnaryExpr { op: "!".to_string(), expr: Box::new(e) }));
        }
        self.parse_postfix()
    }

    fn parse_postfix(&mut self) -> (r: ASTNode)
        requires
            old(self).wf(),
            postfix_expr(old(self).toks(), old(self).pos as int) is Ok,
        ensures
            final(self).wf(),
            final(self).tokens@ == old(self).tokens@,
            no_eof_between(old(self).toks(), old(self).pos as int, final(self).pos as int),
            postfix_expr(old(self).toks(), old(self).pos as int) == Ok::<(Tree, int), ParseFailure>((r@, final(self).pos as int)),
            old(self).pos < final(self).pos,
        decreases old(self).tokens@.len() - old(self).pos, 8int,
    {
        let ghost t = self.toks();
        let ghost p0 = self.pos as int;
        let ghost target = postfix_expr(t, p0);
        proof {
            unfold_postfix_expr(t, p0);
        }
        let mut node = self.parse_primary();
        loop
            invariant
                self.wf(),
                self.tokens@ == old(self).tokens@,
                no_eof_between(old(self).toks(), old(self).pos as int, self.pos as int),
                t == self.toks(),
                target == postfix_expr(t, p0),
                target is Ok,
                p0 == old(self).pos,
                p0 < self.pos,
                postfix_rest(t, self.pos as int, node@) == target,
            ensures
                self.wf(),
                self.tokens@ == old(self).tokens@,
                no_eof_between(old(self).toks(), old(self).pos as int, self.pos as int),
                p0 < self.pos,
                target == Ok::<(Tree, int), ParseFailure>((node@, self.pos as int)),
            decreases self.tokens@.len() - self.pos,
        {
            proof {
                unfold_postfix_rest(t, self.pos as int, node@);
            }
            let ghost p = self.pos as int;
            if self.peek_tt() == TokenType::LParen {
                self.advance();
                let name = match &node {
                    ASTNode::Ident(i) => i.name.clone(),
                    ASTNode::CallExpr(c) => c.name.clone(),
                    _ => {
                        proof {
                            assert(callee_name(node@) is None);
                        }
                        vstd::pervasive::unreached()
                    },
                };
                assert(callee_name(node@) == Some(name@));
                let ghost q = self.pos as int;
                let mut args: Vec<ASTNode> = Vec::new();
                if self.peek_tt() != TokenType::RParen {
                    let first = self.parse_expr();
                    args.push(first);
                    proof {
                        lemma_trees_of_push(Seq::empty(), first);
                        assert(Seq::<ASTNode>::empty().push(first) =~= args@);
                    }
                    let ghost r1 = self.pos as int;
                    assert(trees_of(args@) == seq![first@]);
                    args = self.parse_comma_rest(args);
                    assert(expr(t, q) == Ok::<(Tree, int), ParseFailure>((first@, r1)));
                    assert(comma_list_rest(t, r1, seq![first@]) == Ok::<(Seq<Tree>, int), ParseFailure>((trees_of(args@), self.pos as int)));
                } else {
                    assert(trees_of(args@) == Seq::<Tree>::empty());
                }
                self.expect(TokenType::RParen);
                node = ASTNode::CallExpr(Box::new(CallExpr { name, args }));
                assert(postfix_rest(t, self.pos as int, node@) == target);
            } else if self.peek_tt() == TokenType::Dot {
                self.advance();
                let right = self.expect(TokenType::Ident).value;
                node = ASTNode::DotExpr(Box::new(DotExpr { left: Box::new(node), right }));
                assert(postfix_rest(t, self.pos as int, node@) == target);
            } else if self.peek_tt() == TokenType::LBracket {
                self.advance();
                let idx = self.parse_expr();
                self.expect(TokenType::RBracket);
                node = ASTNode::IndexExpr(Box::new(IndexExpr { obj: Box::new(node), index: Box::new(idx) }));
                assert(postfix_rest(t, self.pos as int, node@) == target);
            } else {
                break;
            }
        }
        node
    }

    /// The expressions after the first of a comma-separated list, appended
    /// to `acc`.
    fn parse_comma_rest(&mut self, acc: Vec<ASTNode>) -> (r: Vec<ASTNode>)
        requires
            old(self).wf(),
            comma_list_rest(old(self).toks(), old(self).pos as int, trees_of(acc@)) is Ok,
        ensures
            final(self).wf(),
            final(self).tokens@ == old(self).tokens@,
            no_eof_between(old(self).toks(), old(self).pos as int, final(self).pos as int),
            comma_list_rest(old(self).toks(), old(self).pos as int, trees_of(acc@)) == Ok::<
                (Seq<Tree>, int),
                ParseFailure,
            >((trees_of(r@), final(self).pos as int)),
            old(self).pos <= final(self).pos,
        decreases old(self).tokens@.len() - old(self).pos, 4int,
    {
        let ghost t = self.toks();
        let ghost p0 = self.pos as int;
        let ghost target = comma_list_rest(t, p0, trees_of(acc@));
        let mut items = acc;
        loop
            invariant
                self.wf(),
                self.tokens@ == old(self).tokens@,
                no_eof_between(old(self).toks(), old(self).pos as int, self.pos as int),
                t == self.toks(),
                p0 == old(self).pos,
                p0 <= self.pos,
                target == comma_list_rest(t, p0, trees_of(acc@)),
                target is Ok,
                comma_list_rest(t, self.pos as int, trees_of(items@)) == target,
            ensures
                self.wf(),
                self.tokens@ == old(self).tokens@,
                no_eof_between(old(self).toks(), old(self).pos as int, self.pos as int),
                p0 <= self.pos,
                target == Ok::<(Seq<Tree>, int), ParseFailure>((trees_of(items@), self.pos as int)),
            decreases self.tokens@.len() - self.pos,
        {
            proof {
                unfold_comma_list_rest(t, self.pos as int, trees_of(items@));
            }
            let ghost before = items@;
            if !self.match_token(TokenType::Comma) {
                break;
            }
            let e = self.parse_expr();
            items.push(e);
            proof {
                lemma_trees_of_push(before, e);
            }
        }
        items
    }

    fn parse_primary(&mut self) -> (r: ASTNode)
        requires
            old(self).wf(),
            primary(old(self).toks(), old(self).pos as int) is Ok,
        ensures
            final(self).wf(),
            final(self).tokens@ == old(self).tokens@,
            no_eof_between(old(self).toks(), old(self).pos as int, final(self).pos as int),
            primary(old(self).toks(), old(self).pos as int) == Ok::<(Tree, int), ParseFailure>((r@, final(self).pos as int)),
            old(self).pos < final(self).pos,
        decreases old(self).tokens@.len() - old(self).pos, 6int,
    {
        proof {
            unfold_primary(self.toks(), self.pos as int);
        }
        let t = self.peek_token();
        match t.tt {
            TokenType::String => {
                self.advance();
                ASTNode::StringLit(Box::new(StringLit { value: t.value }))
            },
            TokenType::Number => {
                self.advance();
                ASTNode::NumLit(Box::new(NumLit { value: t.value }))
            },
            TokenType::Ident => {
                self.advance();
                if str_eq(t.value.as_str(), "true") {
                    ASTNode::BoolLit(Box::new(BoolLit { value: true }))
                } else if str_eq(t.value.as_str(), "false") {
                    ASTNode::BoolLit(Box::new(BoolLit { value: false }))
                } else if str_eq(t.value.as_str(), "null") {
                    ASTNode::Ident(Box::new(Ident { name: "null".to_string() }))
                } else {
                    ASTNode::Ident(Box::new(Ident { name: t.value }))
                }
            },
            TokenType::LParen => {
                self.advance();
                let e = self.parse_expr();
                self.expect(TokenType::RParen);
                e
            },
            TokenType::LBracket => self.parse_array_lit(),
            _ => vstd::pervasive::unreached(),
        }
    }

    fn parse_array_lit(&mut self) -> (r: ASTNode)
        requires
            old(self).wf(),
            array_lit(old(self).toks(), old(self).pos as int) is Ok,
        ensures
            final(self).wf(),
            final(self).tokens@ == old(self).tokens@,
            no_eof_between(old(self).toks(), old(self).pos as int, final(self).pos as int),
            array_lit(old(self).toks(), old(self).pos as int) == Ok::<(Tree, int), ParseFailure>((r@, final(self).pos as int)),
            old(self).pos < final(self).pos,
        decreases old(self).tokens@.len() - old(self).pos, 5int,
    {
        proof {
            unfold_array_lit(self.toks(), self.pos as int);
        }
        self.expect(TokenType::LBracket);
        let mut elems: Vec<ASTNode> = Vec::new();
        if self.peek_tt() != TokenType::RBracket {
            let first = self.parse_expr();
            elems.push(first);
            proof {
                lemma_trees_of_push(Seq::empty(), first);
                assert(Seq::<ASTNode>::empty().push(first) =~= elems@);
            }
            assert(trees_of(elems@) == seq![first@]);
            elems = self.parse_comma_rest(elems);
        } else {
            assert(trees_of(elems@) == Seq::<Tree>::empty());
        }
        self.expect(TokenType::RBracket);
        ASTNode::ArrayLit(Box::new(ArrayLit { elems }))
    }
}

impl Parser {
    /// Parses the whole token sequence into a program: statements up to the
    /// end of input, stopping at the first end-of-input token (or past the
    /// last token). The tokens must form a program; `check` tells whether
    /// they do, and if not, where and why parsing stops.
    pub fn parse(&mut self) -> (r: Program)
        requires
            old(self).wf(),
            program(old(self).toks(), old(self).at()) is Ok,
        ensures
            final(self).wf(),
            final(self).toks() == old(self).toks(),
            program(old(self).toks(), old(self).at()) == Ok::<(Seq<Tree>, int), ParseFailure>(
                (r@, final(self).at()),
            ),
            kind(final(self).toks(), final(self).at()) == TokenType::Eof,
            no_eof_between(old(self).toks(), old(self).at(), final(self).at()),
            r@.len() <= old(self).toks().len() - old(self).at(),
    {
        let ghost t = self.toks();
        let ghost p0 = self.pos as int;
        let ghost target = program(t, p0);
        proof {
            law_statements_at_most_tokens(t, p0, Seq::empty());
        }
        let mut stmts: Vec<ASTNode> = Vec::new();
        assert(trees_of(stmts@) == Seq::<Tree>::empty());
        loop
            invariant
                self.wf(),
                self.tokens@ == old(self).tokens@,
                no_eof_between(old(self).toks(), old(self).pos as int, self.pos as int),
                t == self.toks(),
                p0 == old(self).pos,
                p0 <= self.pos,
                target == program(t, p0),
                target is Ok,
                program_rest(t, self.pos as int, trees_of(stmts@)) == target,
            ensures
                self.wf(),
                self.tokens@ == old(self).tokens@,
                no_eof_between(old(self).toks(), old(self).pos as int, self.pos as int),
                target == Ok::<(Seq<Tree>, int), ParseFailure>((trees_of(stmts@), self.pos as int)),
                kind(t, self.pos as int) == TokenType::Eof,
            decreases self.tokens@.len() - self.pos,
        {
            proof {
                unfold_program_rest(t, self.pos as int, trees_of(stmts@));
            }
            if self.peek_tt() == TokenType::Eof {
                break;
            }
            let ghost before = stmts@;
            let s = self.parse_stmt();
            stmts.push(s);
            proof {
                lemma_trees_of_push(before, s);
            }
        }
        Program { stmts }
    }

    fn parse_stmt(&mut self) -> (r: ASTNode)
        requires
            old(self).wf(),
            stmt(old(self).toks(), old(self).pos as int) is Ok,
        ensures
            final(self).wf(),
            final(self).tokens@ == old(self).tokens@,
            no_eof_between(old(self).toks(), old(self).pos as int, final(self).pos as int),
            stmt(old(self).toks(), old(self).pos as int) == Ok::<(Tree, int), ParseFailure>((r@, final(self).pos as int)),
            old(self).pos < final(self).pos,
        decreases old(self).tokens@.len() - old(self).pos, 30int,
    {
        proof {
            unfold_stmt(self.toks(), self.pos as int);
        }
        if self.at_ident("var") {
            return self.parse_var_decl();
        }
        if self.at_ident("fn") {
            return self.parse_fn_decl();
        }
        if self.at_ident("if") {
            return self.parse_if();
        }
        if self.at_ident("while") {
            return self.parse_while();
        }
        if self.at_ident("for") {
            return self.parse_for();
        }
        if self.at_ident("return") {
            return self.parse_return();
        }
        if self.at_ident("break") {
            self.advance();
            self.match_token(TokenType::Semicolon);
            return ASTNode::BreakStmt;
        }
        if self.at_ident("continue") {
            self.advance();
            self.match_token(TokenType::Semicolon);
            return ASTNode::ContinueStmt;
        }
        if self.peek_tt() == TokenType::LBrace {
            return self.parse_block();
        }
        if self.at_ident("idb") {
            return self.parse_idb_decl();
        }
        if self.peek_tt() == TokenType::Ident && is_type_name(self.tokens[self.pos].value.as_str()) {
            return self.parse_typed_decl();
        }
        let expr = self.parse_expr();
        if self.peek_tt() == TokenType::Eq {
            self.advance();
            let val = self.parse_expr();
            self.match_token(TokenType::Semicolon);
            return ASTNode::Assign(Box::new(Assign { target: Box::new(expr), value: Box::new(val) }));
        }
        if self.peek_tt() == TokenType::PlusEq {
            self.advance();
            let val = self.parse_expr();
            self.match_token(TokenType::Semicolon);
            return compound_assign(expr, "+", val);
        }
        if self.peek_tt() == TokenType::MinusEq {
            self.advance();
            let val = self.parse_expr();
            self.match_token(TokenType::Semicolon);
            return compound_assign(expr, "-", val);
        }
        self.match_token(TokenType::Semicolon);
        ASTNode::ExprStmt(Box::new(ExprStmt { expr: Box::new(expr) }))
    }

    fn parse_block(&mut self) -> (r: ASTNode)
        requires
            old(self).wf(),
            block(old(self).toks(), old(self).pos as int) is Ok,
        ensures
            final(self).wf(),
            final(self).tokens@ == old(self).tokens@,
            no_eof_between(old(self).toks(), old(self).pos as int, final(self).pos as int),
            block(old(self).toks(), old(self).pos as int) == Ok::<(Tree, int), ParseFailure>((r@, final(self).pos as int)),
            old(self).pos < final(self).pos,
        decreases old(self).tokens@.len() - old(self).pos, 25int,
    {
        let ghost t = self.toks();
        let ghost p0 = self.pos as int;
        let ghost target = block(t, p0);
        proof {
            unfold_block(t, p0);
        }
        self.expect(TokenType::LBrace);
        let mut body: Vec<ASTNode> = Vec::new();
        assert(trees_of(body@) == Seq::<Tree>::empty());
        loop
            invariant
                self.wf(),
                self.tokens@ == old(self).tokens@,
                no_eof_between(old(self).toks(), old(self).pos as int, self.pos as int),
                t == self.toks(),
                p0 == old(self).pos,
                p0 < self.pos,
                target == block(t, p0),
                target is Ok,
                block_rest(t, self.pos as int, trees_of(body@)) == target,
            ensures
                self.wf(),
                self.tokens@ == old(self).tokens@,
                no_eof_between(old(self).toks(), old(self).pos as int, self.pos as int),
                p0 < self.pos,
                target == match expect(t, self.pos as int, TokenType::RBrace) {
                    Ok((_, q)) => Ok((Tree::BlockStmt(trees_of(body@)), q)),
                    Err(e) => Err(e),
                },
            decreases self.tokens@.len() - self.pos,
        {
            proof {
                unfold_block_rest(t, self.pos as int, trees_of(body@));
            }
            if !(self.peek_tt() != TokenType::RBrace && self.peek_tt() != TokenType::Eof) {
                break;
            }
            let ghost before = body@;
            let s = self.parse_stmt();
            body.push(s);
            proof {
                lemma_trees_of_push(before, s);
            }
        }
        self.expect(TokenType::RBrace);
        ASTNode::BlockStmt(Box::new(BlockStmt { body }))
    }

    fn parse_if(&mut self) -> (r: ASTNode)
        requires
            old(self).wf(),
            kind(old(self).toks(), old(self).pos as int) == TokenType::Ident,
            if_stmt(old(self).toks(), old(self).pos as int) is Ok,
            old(self).pos < old(self).tokens@.len(),
        ensures
            final(self).wf(),
            final(self).tokens@ == old(self).tokens@,
            no_eof_between(old(self).toks(), old(self).pos as int, final(self).pos as int),
            if_stmt(old(self).toks(), old(self).pos as int) == Ok::<(Tree, int), ParseFailure>((r@, final(self).pos as int)),
            old(self).pos < final(self).pos,
        decreases old(self).tokens@.len() - old(self).pos, 25int,
    {
        proof {
            unfold_if_stmt(self.toks(), self.pos as int);
        }
        self.advance();
        let cond = self.parse_expr();
        let body = self.parse_block();
        let mut else_body: Option<Box<ASTNode>> = None;
        if self.at_ident("else") {
            self.advance();
            if self.at_ident("if") {
                let e = self.parse_if();
                else_body = Some(Box::new(e));
            } else {
                let e = self.parse_block();
                else_body = Some(Box::new(e));
            }
        }
        ASTNode::IfStmt(Box::new(IfStmt { cond: Box::new(cond), body: Box::new(body), else_body }))
    }

    fn parse_while(&mut self) -> (r: ASTNode)
        requires
            old(self).wf(),
            kind(old(self).toks(), old(self).pos as int) == TokenType::Ident,
            while_stmt(old(self).toks(), old(self).pos as int) is Ok,
            old(self).pos < old(self).tokens@.len(),
        ensures
            final(self).wf(),
            final(self).tokens@ == old(self).tokens@,
            no_eof_between(old(self).toks(), old(self).pos as int, final(self).pos as int),
            while_stmt(old(self).toks(), old(self).pos as int) == Ok::<(Tree, int), ParseFailure>((r@, final(self).pos as int)),
            old(self).pos < final(self).pos,
        decreases old(self).tokens@.len() - old(self).pos, 25int,
    {
        proof {
            unfold_while_stmt(self.toks(), self.pos as int);
        }
        self.advance();
        let cond = self.parse_expr();
        let body = self.parse_block();
        ASTNode::WhileStmt(Box::new(WhileStmt { cond: Box::new(cond), body: Box::new(body) }))
    }

    fn parse_for(&mut self) -> (r: ASTNode)
        requires
            old(self).wf(),
            kind(old(self).toks(), old(self).pos as int) == TokenType::Ident,
            for_stmt(old(self).toks(), old(self).pos as int) is Ok,
            old(self).pos < old(self).tokens@.len(),
        ensures
            final(self).wf(),
            final(self).tokens@ == old(self).tokens@,
            no_eof_between(old(self).toks(), old(self).pos as int, final(self).pos as int),
            for_stmt(old(self).toks(), old(self).pos as int) == Ok::<(Tree, int), ParseFailure>((r@, final(self).pos as int)),
            old(self).pos < final(self).pos,
        decreases old(self).tokens@.len() - old(self).pos, 25int,
    {
        proof {
            unfold_for_stmt(self.toks(), self.pos as int);
        }
        self.advance();
        let var_tok = self.expect(TokenType::Ident);
        self.expect(TokenType::Ident);
        let iter = self.parse_expr();
        let body = self.parse_block();
        (
            ASTNode::ForStmt(
                Box::new(ForStmt { var: var_tok.value, iter: Box::new(iter), body: Box::new(body) }),
            )
        )
    }

    fn parse_var_decl(&mut self) -> (r: ASTNode)
        requires
            old(self).wf(),
            kind(old(self).toks(), old(self).pos as int) == TokenType::Ident,
            var_decl(old(self).toks(), old(self).pos as int) is Ok,
            old(self).pos < old(self).tokens@.len(),
        ensures
            final(self).wf(),
            final(self).tokens@ == old(self).tokens@,
            no_eof_between(old(self).toks(), old(self).pos as int, final(self).pos as int),
            var_decl(old(self).toks(), old(self).pos as int) == Ok::<(Tree, int), ParseFailure>((r@, final(self).pos as int)),
            old(self).pos < final(self).pos,
        decreases old(self).tokens@.len() - old(self).pos, 25int,
    {
        proof {
            unfold_var_decl(self.toks(), self.pos as int);
        }
        self.advance();
        let name_tok = self.expect(TokenType::Ident);
        let mut var_type = BType::Any;
        let mut has_type = false;
        if self.match_token(TokenType::Colon) {
            var_type = self.parse_type();
            has_type = true;
        }
        self.expect(TokenType::Eq);
        let val = self.parse_expr();
        self.match_token(TokenType::Semicolon);
        (
            ASTNode::VarDecl(
                Box::new(
                    VarDecl {
                        name: name_tok.value,
                        var_type,
                        value: Box::new(val),
                        has_type,
                        is_bel: false,
                        is_ster: false,
                    },
                ),
            )
        )
    }

    fn parse_idb_decl(&mut self) -> (r: ASTNode)
        requires
            old(self).wf(),
            kind(old(self).toks(), old(self).pos as int) == TokenType::Ident,
            idb_decl(old(self).toks(), old(self).pos as int) is Ok,
            old(self).pos < old(self).tokens@.len(),
        ensures
            final(self).wf(),
            final(self).tokens@ == old(self).tokens@,
            no_eof_between(old(self).toks(), old(self).pos as int, final(self).pos as int),
            idb_decl(old(self).toks(), old(self).pos as int) == Ok::<(Tree, int), ParseFailure>((r@, final(self).pos as int)),
            old(self).pos < final(self).pos,
        decreases old(self).tokens@.len() - old(self).pos, 25int,
    {
        proof {
            unfold_idb_decl(self.toks(), self.pos as int);
        }
        self.advance();
        let num = self.expect(TokenType::Number);
        let id = match parse_i64(num.value.as_str()) {
            Some(n) => n,
            None => 0,
        };
        self.expect(TokenType::Eq);
        let val = self.parse_expr();
        self.match_token(TokenType::Semicolon);
        ASTNode::IdbDecl(Box::new(IdbDecl { id, value: Box::new(val) }))
    }

    fn parse_typed_decl(&mut self) -> (r: ASTNode)
        requires
            old(self).wf(),
            kind(old(self).toks(), old(self).pos as int) == TokenType::Ident,
            typed_decl(old(self).toks(), old(self).pos as int) is Ok,
            old(self).pos < old(self).tokens@.len(),
        ensures
            final(self).wf(),
            final(self).tokens@ == old(self).tokens@,
            no_eof_between(old(self).toks(), old(self).pos as int, final(self).pos as int),
            typed_decl(old(self).toks(), old(self).pos as int) == Ok::<(Tree, int), ParseFailure>((r@, final(self).pos as int)),
            old(self).pos < final(self).pos,
        decreases old(self).tokens@.len() - old(self).pos, 25int,
    {
        proof {
            unfold_typed_decl(self.toks(), self.pos as int);
        }
        let type_word_text = self.advance().value;
        let name_tok = self.expect(TokenType::Ident);
        self.expect(TokenType::Eq);
        let val = self.parse_expr();
        self.match_token(TokenType::Semicolon);
        let mut btype = BType::Any;
        let mut is_bel = false;
        let mut is_ster = false;
        let w = type_word_text.as_str();
        if str_eq(w, "float") {
            btype = BType::Float;
        } else if str_eq(w, "string") {
            btype = BType::String;
        } else if str_eq(w, "bool") {
            btype = BType::Bool;
        } else if str_eq(w, "bel") {
            btype = BType::Bel;
            is_bel = true;
        } else if str_eq(w, "ster") {
            btype = BType::Ster;
            is_ster = true;
        } else if str_eq(w, "any") {
            btype = BType::Any;
        }
        assert(typed_decl_kind(type_word_text@) == (btype, is_bel, is_ster));
        (
            ASTNode::VarDecl(
                Box::new(
                    VarDecl {
                        name: name_tok.value,
                        var_type: btype,
                        value: Box::new(val),
                        has_type: true,
                        is_bel,
                        is_ster,
                    },
                ),
            )
        )
    }

    /// A parameter: a name, then an optional `: type`.
    fn parse_param(&mut self) -> (r: TypedParam)
        requires
            old(self).wf(),
            param(old(self).toks(), old(self).pos as int) is Ok,
        ensures
            final(self).wf(),
            final(self).tokens@ == old(self).tokens@,
            no_eof_between(old(self).toks(), old(self).pos as int, final(self).pos as int),
            param(old(self).toks(), old(self).pos as int) == Ok::<((Seq<char>, BType), int), ParseFailure>(
                (param_view(r), final(self).pos as int),
            ),
            old(self).pos < final(self).pos,
    {
        let name_tok = self.expect(TokenType::Ident);
        let mut param_type = BType::Any;
        if self.match_token(TokenType::Colon) {
            param_type = self.parse_type();
        }
        TypedParam { name: name_tok.value, param_type }
    }

    fn parse_fn_decl(&mut self) -> (r: ASTNode)
        requires
            old(self).wf(),
            kind(old(self).toks(), old(self).pos as int) == TokenType::Ident,
            fn_decl(old(self).toks(), old(self).pos as int) is Ok,
            old(self).pos < old(self).tokens@.len(),
        ensures
            final(self).wf(),
            final(self).tokens@ == old(self).tokens@,
            no_eof_between(old(self).toks(), old(self).pos as int, final(self).pos as int),
            fn_decl(old(self).toks(), old(self).pos as int) == Ok::<(Tree, int), ParseFailure>((r@, final(self).pos as int)),
            old(self).pos < final(self).pos,
        decreases old(self).tokens@.len() - old(self).pos, 25int,
    {
        proof {
            unfold_fn_decl(self.toks(), self.pos as int);
        }
        let ghost t = self.toks();
        self.advance();
        let name_tok = self.expect(TokenType::Ident);
        self.expect(TokenType::LParen);
        let ghost q2 = self.pos as int;
        let mut params: Vec<TypedParam> = Vec::new();
        if self.peek_tt() != TokenType::RParen {
            let first = self.parse_param();
            params.push(first);
            let ghost target = params_rest(t, self.pos as int, seq![param_view(first)]);
            let ghost whole = fn_decl(t, old(self).pos as int);
            assert(params_view(params@) =~= seq![param_view(first)]);
            assert(target matches Err(e) ==> whole == Err::<(Tree, int), ParseFailure>(e));
            loop
                invariant
                    target matches Err(e) ==> whole == Err::<(Tree, int), ParseFailure>(e),
                    whole == fn_decl(t, old(self).pos as int),
                    whole is Ok,
                    self.wf(),
                    self.tokens@ == old(self).tokens@,
                    no_eof_between(old(self).toks(), old(self).pos as int, self.pos as int),
                no_eof_between(old(self).toks(), old(self).pos as int, self.pos as int),
                    t == self.toks(),
                    old(self).pos < self.pos,
                    params_rest(t, self.pos as int, params_view(params@)) == target,
                ensures
                    self.wf(),
                    self.tokens@ == old(self).tokens@,
                    no_eof_between(old(self).toks(), old(self).pos as int, self.pos as int),
                no_eof_between(old(self).toks(), old(self).pos as int, self.pos as int),
                    old(self).pos < self.pos,
                    target == Ok::<(Seq<(Seq<char>, BType)>, int), ParseFailure>(
                        (params_view(params@), self.pos as int),
                    ),
                decreases self.tokens@.len() - self.pos,
            {
                let ghost before = params@;
                if !self.match_token(TokenType::Comma) {
                    break;
                }
                let x = self.parse_param();
                params.push(x);
                assert(params_view(params@) =~= params_view(before).push(param_view(x)));
            }
        } else {
            assert(params_view(params@) =~= Seq::<(Seq<char>, BType)>::empty());
        }
        assert(param_list(t, q2) == Ok::<(Seq<(Seq<char>, BType)>, int), ParseFailure>(
            (params_view(params@), self.pos as int),
        ));
        self.expect(TokenType::RParen);
        let mut return_type = BType::Any;
        let mut has_ret_type = false;
        if self.match_token(TokenType::Colon) {
            return_type = self.parse_type();
            has_ret_type = true;
        }
        let body = self.parse_block();
        (
            ASTNode::FnDecl(
                Box::new(
                    FnDecl {
                        name: name_tok.value,
                        params,
                        return_type,
                        has_ret_type,
                        body: Box::new(body),
                    },
                ),
            )
        )
    }

    fn parse_return(&mut self) -> (r: ASTNode)
        requires
            old(self).wf(),
            kind(old(self).toks(), old(self).pos as int) == TokenType::Ident,
            return_stmt(old(self).toks(), old(self).pos as int) is Ok,
            old(self).pos < old(self).tokens@.len(),
        ensures
            final(self).wf(),
            final(self).tokens@ == old(self).tokens@,
            no_eof_between(old(self).toks(), old(self).pos as int, final(self).pos as int),
            return_stmt(old(self).toks(), old(self).pos as int) == Ok::<(Tree, int), ParseFailure>((r@, final(self).pos as int)),
            old(self).pos < final(self).pos,
        decreases old(self).tokens@.len() - old(self).pos, 25int,
    {
        proof {
            unfold_return_stmt(self.toks(), self.pos as int);
        }
        self.advance();
        let mut value: Option<Box<ASTNode>> = None;
        if self.peek_tt() != TokenType::Semicolon && self.peek_tt() != TokenType::RBrace
            && self.peek_tt() != TokenType::Eof {
            let v = self.parse_expr();
            value = Some(Box::new(v));
        }
        self.match_token(TokenType::Semicolon);
        ASTNode::ReturnStmt(Box::new(ReturnStmt { value }))
    }
}

// The same descent once more, for deciding whether tokens form a program:
// each `try_` step gives the grammar's error where it fails instead of
// requiring that it succeeds.
impl Parser {
    /// Whether the tokens from the current position form a program, and if
    /// not, the error the grammar gives: where and why parsing stops. The
    /// position is left where it was, so `parse` can follow an `Ok`.
    pub fn check(&mut self) -> (r: Result<(), ParseError>)
        requires
            old(self).wf(),
        ensures
            final(self).wf(),
            final(self).toks() == old(self).toks(),
            final(self).at() == old(self).at(),
            match program(old(self).toks(), old(self).at()) {
                Ok(_) => r is Ok,
                Err(e) => r matches Err(err) && err@ == e,
            },
    {
        let start = self.pos;
        let r = match self.try_program() {
            Ok(_) => Ok(()),
            Err(e) => Err(e),
        };
        self.pos = start;
        r
    }

    fn try_expect(&mut self, tt: TokenType) -> (r: Result<Token, ParseError>)
        requires
            old(self).wf(),
            tt != TokenType::Eof,
        ensures
            final(self).wf(),
            final(self).tokens@ == old(self).tokens@,
            match expect(old(self).toks(), old(self).pos as int, tt) {
                Ok((k, q)) => r matches Ok(x) && x@ == k && final(self).pos == q,
                Err(e) => r matches Err(err) && err@ == e && final(self).pos == old(self).pos,
            },
    {
        let t = self.peek_token();
        if t.tt != tt {
            return Err(ParseError::Expected { expected: tt, found: t });
        }
        Ok(self.advance())
    }

    fn try_type(&mut self) -> (r: Result<BType, ParseError>)
        requires
            old(self).wf(),
        ensures
            final(self).wf(),
            final(self).tokens@ == old(self).tokens@,
            match named_type(old(self).toks(), old(self).pos as int) {
                Ok((b, q)) => r == Ok::<BType, ParseError>(b) && final(self).pos == q,
                Err(e) => r matches Err(err) && err@ == e,
            },
    {
        let t = match self.try_expect(TokenType::Ident) {
            Ok(t) => t,
            Err(e) => return Err(e),
        };
        let v = t.value.as_str();
        if str_eq(v, "float") {
            Ok(BType::Float)
        } else if str_eq(v, "string") {
            Ok(BType::String)
        } else if str_eq(v, "bool") {
            Ok(BType::Bool)
        } else if str_eq(v, "bel") {
            Ok(BType::Bel)
        } else if str_eq(v, "ster") {
            Ok(BType::Ster)
        } else if str_eq(v, "any") {
            Ok(BType::Any)
        } else {
            Err(ParseError::UnknownType { found: t })
        }
    }

    fn try_expr(&mut self) -> (r: Result<ASTNode, ParseError>)
        requires
            old(self).wf(),
        ensures
            final(self).wf(),
            final(self).tokens@ == old(self).tokens@,
            node_step(r, expr(old(self).toks(), old(self).pos as int), final(self).pos as int),
            r is Ok ==> old(self).pos < final(self).pos,
        decreases old(self).tokens@.len() - old(self).pos, 20int,
    {
        proof {
            unfold_expr(self.toks(), self.pos as int);
        }
        self.try_or()
    }

    fn try_or(&mut self) -> (r: Result<ASTNode, ParseError>)
        requires
            old(self).wf(),
        ensures
            final(self).wf(),
            final(self).tokens@ == old(self).tokens@,
            node_step(r, or_expr(old(self).toks(), old(self).pos as int), final(self).pos as int),
            r is Ok ==> old(self).pos < final(self).pos,
        decreases old(self).tokens@.len() - old(self).pos, 19int,
    {
        let ghost t = self.toks();
        let ghost p0 = self.pos as int;
        let ghost target = or_expr(t, p0);
        proof {
            unfold_or_expr(t, p0);
        }
        let mut left = match self.try_and() {
            Ok(n) => n,
            Err(e) => return Err(e),
        };
        loop
            invariant
                self.wf(),
                self.tokens@ == old(self).tokens@,
                t == self.toks(),
                target == or_expr(t, p0),
                p0 == old(self).pos,
                p0 < self.pos,
                or_rest(t, self.pos as int, left@) == target,
            ensures
                self.wf(),
                self.tokens@ == old(self).tokens@,
                p0 < self.pos,
                target == Ok::<(Tree, int), ParseFailure>((left@, self.pos as int)),
            decreases self.tokens@.len() - self.pos,
        {
            proof {
                unfold_or_rest(t, self.pos as int, left@);
            }
            let tt = self.peek_tt();
            if tt == TokenType::Or {
                let op = {
                    self.advance();
                    "||".to_string()
                };
                let right = match self.try_and() {
                    Ok(n) => n,
                    Err(e) => return Err(e),
                };
                left = ASTNode::BinExpr(
                    Box::new(BinExpr { op, left: Box::new(left), right: Box::new(right) }),
                );
            } else {
                break;
            }
        }
        Ok(left)
    }

    fn try_and(&mut self) -> (r: Result<ASTNode, ParseError>)
        requires
            old(self).wf(),
        ensures
            final(self).wf(),
            final(self).tokens@ == old(self).tokens@,
            node_step(r, and_expr(old(self).toks(), old(self).pos as int), final(self).pos as int),
            r is Ok ==> old(self).pos < final(self).pos,
        decreases old(self).tokens@.len() - old(self).pos, 17int,
    {
        let ghost t = self.toks();
        let ghost p0 = self.pos as int;
        let ghost target = and_expr(t, p0);
        proof {
            unfold_and_expr(t, p0);
        }
        let mut left = match self.try_comparison() {
            Ok(n) => n,
            Err(e) => return Err(e),
        };
        loop
            invariant
                self.wf(),
                self.tokens@ == old(self).tokens@,
                t == self.toks(),
                target == and_expr(t, p0),
                p0 == old(self).pos,
                p0 < self.pos,
                and_rest(t, self.pos as int, left@) == target,
            ensures
                self.wf(),
                self.tokens@ == old(self).tokens@,
                p0 < self.pos,
                target == Ok::<(Tree, int), ParseFailure>((left@, self.pos as int)),
            decreases self.tokens@.len() - self.pos,
        {
            proof {
                unfold_and_rest(t, self.pos as int, left@);
            }
            let tt = self.peek_tt();
            if tt == TokenType::And {
                let op = {
                    self.advance();
                    "&&".to_string()
                };
                let right = match self.try_comparison() {
                    Ok(n) => n,
                    Err(e) => return Err(e),
                };
                left = ASTNode::BinExpr(
                    Box::new(BinExpr { op, left: Box::new(left), right: Box::new(right) }),
                );
            } else {
                break;
            }
        }
        Ok(left)
    }

    fn try_comparison(&mut self) -> (r: Result<ASTNode, ParseError>)
        requires
            old(self).wf(),
        ensures
            final(self).wf(),
            final(self).tokens@ == old(self).tokens@,
            node_step(r, comparison_expr(old(self).toks(), old(self).pos as int), final(self).pos as int),
            r is Ok ==> old(self).pos < final(self).pos,
        decreases old(self).tokens@.len() - old(self).pos, 15int,
    {
        let ghost t = self.toks();
        let ghost p0 = self.pos as int;
        let ghost target = comparison_expr(t, p0);
        proof {
            unfold_comparison_expr(t, p0);
        }
        let mut left = match self.try_add_sub() {
            Ok(n) => n,
            Err(e) => return Err(e),
        };
        loop
            invariant
                self.wf(),
                self.tokens@ == old(self).tokens@,
                t == self.toks(),
                target == comparison_expr(t, p0),
                p0 == old(self).pos,
                p0 < self.pos,
                comparison_rest(t, self.pos as int, left@) == target,
            ensures
                self.wf(),
                self.tokens@ == old(self).tokens@,
                p0 < self.pos,
                target == Ok::<(Tree, int), ParseFailure>((left@, self.pos as int)),
            decreases self.tokens@.len() - self.pos,
        {
            proof {
                unfold_comparison_rest(t, self.pos as int, left@);
            }
            let tt = self.peek_tt();
            if tt == TokenType::EqEq || tt == TokenType::Neq || tt == TokenType::Lt || tt == TokenType::Gt
                || tt == TokenType::Lte || tt == TokenType::Gte {
                let op = self.advance().value;
                let right = match self.try_add_sub() {
                    Ok(n) => n,
                    Err(e) => return Err(e),
                };
                left = ASTNode::BinExpr(
                    Box::new(BinExpr { op, left: Box::new(left), right: Box::new(right) }),
                );
            } else {
                break;
            }
        }
        Ok(left)
    }

    fn try_add_sub(&mut self) -> (r: Result<ASTNode, ParseError>)
        requires
            old(self).wf(),
        ensures
            final(self).wf(),
            final(self).tokens@ == old(self).tokens@,
            node_step(r, add_expr(old(self).toks(), old(self).pos as int), final(self).pos as int),
            r is Ok ==> old(self).pos < final(self).pos,
        decreases old(self).tokens@.len() - old(self).pos, 13int,
    {
        let ghost t = self.toks();
        let ghost p0 = self.pos as int;
        let ghost target = add_expr(t, p0);
        proof {
            unfold_add_expr(t, p0);
        }
        let mut left = match self.try_mul_div() {
            Ok(n) => n,
            Err(e) => return Err(e),
        };
        loop
            invariant
                self.wf(),
                self.tokens@ == old(self).tokens@,
                t == self.toks(),
                target == add_expr(t, p0),
                p0 == old(self).pos,
                p0 < self.pos,
                add_rest(t, self.pos as int, left@) == target,
            ensures
                self.wf(),
                self.tokens@ == old(self).tokens@,
                p0 < self.pos,
                target == Ok::<(Tree, int), ParseFailure>((left@, self.pos as int)),
            decreases self.tokens@.len() - self.pos,
        {
            proof {
                unfold_add_rest(t, self.pos as int, left@);
            }
            let tt = self.peek_tt();
            if tt == TokenType::Plus || tt == TokenType::Minus {
                let op = self.advance().value;
                let right = match self.try_mul_div() {
                    Ok(n) => n,
                    Err(e) => return Err(e),
                };
                left = ASTNode::BinExpr(
                    Box::new(BinExpr { op, left: Box::new(left), right: Box::new(right) }),
                );
            } else {
                break;
            }
        }
        Ok(left)
    }

    fn try_mul_div(&mut self) -> (r: Result<ASTNode, ParseError>)
        requires
            old(self).wf(),
        ensures
            final(self).wf(),
            final(self).tokens@ == old(self).tokens@,
            node_step(r, mul_expr(old(self).toks(), old(self).pos as int), final(self).pos as int),
            r is Ok ==> old(self).pos < final(self).pos,
        decreases old(self).tokens@.len() - old(self).pos, 11int,
    {
        let ghost t = self.toks();
        let ghost p0 = self.pos as int;
        let ghost target = mul_expr(t, p0);
        proof {
            unfold_mul_expr(t, p0);
        }
        let mut left = match self.try_unary() {
            Ok(n) => n,
            Err(e) => return Err(e),
        };
        loop
            invariant
                self.wf(),
                self.tokens@ == old(self).tokens@,
                t == self.toks(),
                target == mul_expr(t, p0),
                p0 == old(self).pos,
                p0 < self.pos,
                mul_rest(t, self.pos as int, left@) == target,
            ensures
                self.wf(),
                self.tokens@ == old(self).tokens@,
                p0 < self.pos,
                target == Ok::<(Tree, int), ParseFailure>((left@, self.pos as int)),
            decreases self.tokens@.len() - self.pos,
        {
            proof {
                unfold_mul_rest(t, self.pos as int, left@);
            }
            let tt = self.peek_tt();
            if tt == TokenType::Star || tt == TokenType::Slash || tt == TokenType::Percent {
                let op = self.advance().value;
                let right = match self.try_unary() {
                    Ok(n) => n,
                    Err(e) => return Err(e),
                };
                left = ASTNode::BinExpr(
                    Box::new(BinExpr { op, left: Box::new(left), right: Box::new(right) }),
                );
            } else {
                break;
            }
        }
        Ok(left)
    }

    fn try_unary(&mut self) -> (r: Result<ASTNode, ParseError>)
        requires
            old(self).wf(),
        ensures
            final(self).wf(),
            final(self).tokens@ == old(self).tokens@,
            node_step(r, unary_expr(old(self).toks(), old(self).pos as int), final(self).pos as int),
            r is Ok ==> old(self).pos < final(self).pos,
        decreases old(self).tokens@.len() - old(self).pos, 9int,
    {
        proof {
            unfold_unary_expr(self.toks(), self.pos as int);
        }
        if self.peek_tt() == TokenType::Minus {
            self.advance();
            let e = match self.try_postfix() {
                Ok(n) => n,
                Err(err) => return Err(err),
            };
            return Ok(ASTNode::UnaryExpr(Box::new(UnaryExpr { op: "-".to_string(), expr: Box::new(e) })));
        }
        if self.peek_tt() == TokenType::Not {
            self.advance();
            let e = match self.try_postfix() {
                Ok(n) => n,
                Err(err) => return Err(err),
            };
            return Ok(ASTNode::UnaryExpr(Box::new(UnaryExpr { op: "!".to_string(), expr: Box::new(e) })));
        }
        self.try_postfix()
    }

    fn try_postfix(&mut self) -> (r: Result<ASTNode, ParseError>)
        requires
            old(self).wf(),
        ensures
            final(self).wf(),
            final(self).tokens@ == old(self).tokens@,
            node_step(r, postfix_expr(old(self).toks(), old(self).pos as int), final(self).pos as int),
            r is Ok ==> old(self).pos < final(self).pos,
        decreases old(self).tokens@.len() - old(self).pos, 8int,
    {
        let ghost t = self.toks();
        let ghost p0 = self.pos as int;
        let ghost target = postfix_expr(t, p0);
        proof {
            unfold_postfix_expr(t, p0);
        }
        let mut node = match self.try_primary() {
            Ok(n) => n,
            Err(e) => return Err(e),
        };
        loop
            invariant
                self.wf(),
                self.tokens@ == old(self).tokens@,
                t == self.toks(),
                target == postfix_expr(t, p0),
                p0 == old(self).pos,
                p0 < self.pos,
                postfix_rest(t, self.pos as int, node@) == target,
            ensures
                self.wf(),
                self.tokens@ == old(self).tokens@,
                p0 < self.pos,
                target == Ok::<(Tree, int), ParseFailure>((node@, self.pos as int)),
            decreases self.tokens@.len() - self.pos,
        {
            proof {
                unfold_postfix_rest(t, self.pos as int, node@);
            }
            let ghost p = self.pos as int;
            if self.peek_tt() == TokenType::LParen {
                self.advance();
                let name = match &node {
                    ASTNode::Ident(i) => i.name.clone(),
                    ASTNode::CallExpr(c) => c.name.clone(),
                    _ => {
                        return Err(ParseError::NotCallable { line: self.peek_token().line });
                    },
                };
                assert(callee_name(node@) == Some(name@));
                let ghost q = self.pos as int;
                let mut args: Vec<ASTNode> = Vec::new();
                if self.peek_tt() != TokenType::RParen {
                    let first = match self.try_expr() {
                        Ok(n) => n,
                        Err(e) => return Err(e),
                    };
                    args.push(first);
                    proof {
                        lemma_trees_of_push(Seq::empty(), first);
                        assert(Seq::<ASTNode>::empty().push(first) =~= args@);
                    }
                    let ghost r1 = self.pos as int;
                    assert(trees_of(args@) == seq![first@]);
                    args = match self.try_comma_rest(args) {
                        Ok(v) => v,
                        Err(e) => return Err(e),
                    };
                    assert(expr(t, q) == Ok::<(Tree, int), ParseFailure>((first@, r1)));
                    assert(comma_list_rest(t, r1, seq![first@]) == Ok::<(Seq<Tree>, int), ParseFailure>((trees_of(args@), self.pos as int)));
                } else {
                    assert(trees_of(args@) == Seq::<Tree>::empty());
                }
                match self.try_expect(TokenType::RParen) {
                    Ok(_) => {},
                    Err(e) => return Err(e),
                }
                node = ASTNode::CallExpr(Box::new(CallExpr { name, args }));
                assert(postfix_rest(t, self.pos as int, node@) == target);
            } else if self.peek_tt() == TokenType::Dot {
                self.advance();
                let right = match self.try_expect(TokenType::Ident) {
                    Ok(k) => k.value,
                    Err(e) => return Err(e),
                };
                node = ASTNode::DotExpr(Box::new(DotExpr { left: Box::new(node), right }));
                assert(postfix_rest(t, self.pos as int, node@) == target);
            } else if self.peek_tt() == TokenType::LBracket {
                self.advance();
                let idx = match self.try_expr() {
                    Ok(n) => n,
                    Err(e) => return Err(e),
                };
                match self.try_expect(TokenType::RBracket) {
                    Ok(_) => {},
                    Err(e) => return Err(e),
                }
                node = ASTNode::IndexExpr(Box::new(IndexExpr { obj: Box::new(node), index: Box::new(idx) }));
                assert(postfix_rest(t, self.pos as int, node@) == target);
            } else {
                break;
            }
        }
        Ok(node)
    }

    /// The expressions after the first of a comma-separated list, appended
    /// to `acc`.
    fn try_comma_rest(&mut self, acc: Vec<ASTNode>) -> (r: Result<Vec<ASTNode>, ParseError>)
        requires
            old(self).wf(),
        ensures
            final(self).wf(),
            final(self).tokens@ == old(self).tokens@,
            match comma_list_rest(old(self).toks(), old(self).pos as int, trees_of(acc@)) {
                Ok((es, q)) => r matches Ok(v) && trees_of(v@) == es && final(self).pos == q,
                Err(e) => r matches Err(err) && err@ == e,
            },
            r is Ok ==> old(self).pos <= final(self).pos,
        decreases old(self).tokens@.len() - old(self).pos, 4int,
    {
        let ghost t = self.toks();
        let ghost p0 = self.pos as int;
        let ghost target = comma_list_rest(t, p0, trees_of(acc@));
        let mut items = acc;
        loop
            invariant
                self.wf(),
                self.tokens@ == old(self).tokens@,
                t == self.toks(),
                p0 == old(self).pos,
                p0 <= self.pos,
                target == comma_list_rest(t, p0, trees_of(acc@)),
                comma_list_rest(t, self.pos as int, trees_of(items@)) == target,
            ensures
                self.wf(),
                self.tokens@ == old(self).tokens@,
                p0 <= self.pos,
                target == Ok::<(Seq<Tree>, int), ParseFailure>((trees_of(items@), self.pos as int)),
            decreases self.tokens@.len() - self.pos,
        {
            proof {
                unfold_comma_list_rest(t, self.pos as int, trees_of(items@));
            }
            let ghost before = items@;
            if !self.match_token(TokenType::Comma) {
                break;
            }
            let e = match self.try_expr() {
                Ok(n) => n,
                Err(err) => return Err(err),
            };
            items.push(e);
            proof {
                lemma_trees_of_push(before, e);
            }
        }
        Ok(items)
    }

    fn try_primary(&mut self) -> (r: Result<ASTNode, ParseError>)
        requires
            old(self).wf(),
        ensures
            final(self).wf(),
            final(self).tokens@ == old(self).tokens@,
            node_step(r, primary(old(self).toks(), old(self).pos as int), final(self).pos as int),
            r is Ok ==> old(self).pos < final(self).pos,
        decreases old(self).tokens@.len() - old(self).pos, 6int,
    {
        proof {
            unfold_primary(self.toks(), self.pos as int);
        }
        let t = self.peek_token();
        match t.tt {
            TokenType::String => {
                self.advance();
                Ok(ASTNode::StringLit(Box::new(StringLit { value: t.value })))
            },
            TokenType::Number => {
                self.advance();
                Ok(ASTNode::NumLit(Box::new(NumLit { value: t.value })))
            },
            TokenType::Ident => {
                self.advance();
                if str_eq(t.value.as_str(), "true") {
                    Ok(ASTNode::BoolLit(Box::new(BoolLit { value: true })))
                } else if str_eq(t.value.as_str(), "false") {
                    Ok(ASTNode::BoolLit(Box::new(BoolLit { value: false })))
                } else if str_eq(t.value.as_str(), "null") {
                    Ok(ASTNode::Ident(Box::new(Ident { name: "null".to_string() })))
                } else {
                    Ok(ASTNode::Ident(Box::new(Ident { name: t.value })))
                }
            },
            TokenType::LParen => {
                self.advance();
                let e = match self.try_expr() {
                    Ok(n) => n,
                    Err(err) => return Err(err),
                };
                match self.try_expect(TokenType::RParen) {
                    Ok(_) => Ok(e),
                    Err(err) => Err(err),
                }
            },
            TokenType::LBracket => self.try_array_lit(),
            _ => Err(ParseError::UnexpectedToken { found: t }),
        }
    }

    fn try_array_lit(&mut self) -> (r: Result<ASTNode, ParseError>)
        requires
            old(self).wf(),
        ensures
            final(self).wf(),
            final(self).tokens@ == old(self).tokens@,
            node_step(r, array_lit(old(self).toks(), old(self).pos as int), final(self).pos as int),
            r is Ok ==> old(self).pos < final(self).pos,
        decreases old(self).tokens@.len() - old(self).pos, 5int,
    {
        proof {
            unfold_array_lit(self.toks(), self.pos as int);
        }
        match self.try_expect(TokenType::LBracket) {
            Ok(_) => {},
            Err(e) => return Err(e),
        }
        let mut elems: Vec<ASTNode> = Vec::new();
        if self.peek_tt() != TokenType::RBracket {
            let first = match self.try_expr() {
                Ok(n) => n,
                Err(e) => return Err(e),
            };
            elems.push(first);
            proof {
                lemma_trees_of_push(Seq::empty(), first);
                assert(Seq::<ASTNode>::empty().push(first) =~= elems@);
            }
            assert(trees_of(elems@) == seq![first@]);
            elems = match self.try_comma_rest(elems) {
                Ok(v) => v,
                Err(e) => return Err(e),
            };
        } else {
            assert(trees_of(elems@) == Seq::<Tree>::empty());
        }
        match self.try_expect(TokenType::RBracket) {
            Ok(_) => {},
            Err(e) => return Err(e),
        }
        Ok(ASTNode::ArrayLit(Box::new(ArrayLit { elems })))
    }

    /// The program from the current position, or the error where the tokens
    /// stop forming one.
    fn try_program(&mut self) -> (r: Result<Program, ParseError>)
        requires
            old(self).wf(),
        ensures
            final(self).wf(),
            final(self).toks() == old(self).toks(),
            match program(old(self).toks(), old(self).at()) {
                Ok((stmts, q)) => r matches Ok(prog) && prog@ == stmts && final(self).at() == q,
                Err(e) => r matches Err(err) && err@ == e,
            },
            r is Ok ==> kind(final(self).toks(), final(self).at()) == TokenType::Eof,
    {
        let ghost t = self.toks();
        let ghost p0 = self.pos as int;
        let ghost target = program(t, p0);
        let mut stmts: Vec<ASTNode> = Vec::new();
        assert(trees_of(stmts@) == Seq::<Tree>::empty());
        loop
            invariant
                self.wf(),
                self.tokens@ == old(self).tokens@,
                t == self.toks(),
                p0 == old(self).pos,
                p0 <= self.pos,
                target == program(t, p0),
                program_rest(t, self.pos as int, trees_of(stmts@)) == target,
            ensures
                self.wf(),
                self.tokens@ == old(self).tokens@,
                target == Ok::<(Seq<Tree>, int), ParseFailure>((trees_of(stmts@), self.pos as int)),
                kind(t, self.pos as int) == TokenType::Eof,
            decreases self.tokens@.len() - self.pos,
        {
            proof {
                unfold_program_rest(t, self.pos as int, trees_of(stmts@));
            }
            if self.peek_tt() == TokenType::Eof {
                break;
            }
            let ghost before = stmts@;
            let s = match self.try_stmt() {
                Ok(n) => n,
                Err(e) => return Err(e),
            };
            stmts.push(s);
            proof {
                lemma_trees_of_push(before, s);
            }
        }
        Ok(Program { stmts })
    }

    fn try_stmt(&mut self) -> (r: Result<ASTNode, ParseError>)
        requires
            old(self).wf(),
        ensures
            final(self).wf(),
            final(self).tokens@ == old(self).tokens@,
            node_step(r, stmt(old(self).toks(), old(self).pos as int), final(self).pos as int),
            r is Ok ==> old(self).pos < final(self).pos,
        decreases old(self).tokens@.len() - old(self).pos, 30int,
    {
        proof {
            unfold_stmt(self.toks(), self.pos as int);
        }
        if self.at_ident("var") {
            return self.try_var_decl();
        }
        if self.at_ident("fn") {
            return self.try_fn_decl();
        }
        if self.at_ident("if") {
            return self.try_if();
        }
        if self.at_ident("while") {
            return self.try_while();
        }
        if self.at_ident("for") {
            return self.try_for();
        }
        if self.at_ident("return") {
            return self.try_return();
        }
        if self.at_ident("break") {
            self.advance();
            self.match_token(TokenType::Semicolon);
            return Ok(ASTNode::BreakStmt);
        }
        if self.at_ident("continue") {
            self.advance();
            self.match_token(TokenType::Semicolon);
            return Ok(ASTNode::ContinueStmt);
        }
        if self.peek_tt() == TokenType::LBrace {
            return self.try_block();
        }
        if self.at_ident("idb") {
            return self.try_idb_decl();
        }
        if self.peek_tt() == TokenType::Ident && is_type_name(self.tokens[self.pos].value.as_str()) {
            return self.try_typed_decl();
        }
        let expr = match self.try_expr() {
            Ok(n) => n,
            Err(e) => return Err(e),
        };
        if self.peek_tt() == TokenType::Eq {
            self.advance();
            let val = match self.try_expr() {
                Ok(n) => n,
                Err(e) => return Err(e),
            };
            self.match_token(TokenType::Semicolon);
            return Ok(ASTNode::Assign(Box::new(Assign { target: Box::new(expr), value: Box::new(val) })));
        }
        if self.peek_tt() == TokenType::PlusEq {
            self.advance();
            let val = match self.try_expr() {
                Ok(n) => n,
                Err(e) => return Err(e),
            };
            self.match_token(TokenType::Semicolon);
            return Ok(compound_assign(expr, "+", val));
        }
        if self.peek_tt() == TokenType::MinusEq {
            self.advance();
            let val = match self.try_expr() {
                Ok(n) => n,
                Err(e) => return Err(e),
            };
            self.match_token(TokenType::Semicolon);
            return Ok(compound_assign(expr, "-", val));
        }
        self.match_token(TokenType::Semicolon);
        Ok(ASTNode::ExprStmt(Box::new(ExprStmt { expr: Box::new(expr) })))
    }

    fn try_block(&mut self) -> (r: Result<ASTNode, ParseError>)
        requires
            old(self).wf(),
        ensures
            final(self).wf(),
            final(self).tokens@ == old(self).tokens@,
            node_step(r, block(old(self).toks(), old(self).pos as int), final(self).pos as int),
            r is Ok ==> old(self).pos < final(self).pos,
        decreases old(self).tokens@.len() - old(self).pos, 25int,
    {
        let ghost t = self.toks();
        let ghost p0 = self.pos as int;
        let ghost target = block(t, p0);
        proof {
            unfold_block(t, p0);
        }
        match self.try_expect(TokenType::LBrace) {
            Ok(_) => {},
            Err(e) => return Err(e),
        }
        let mut body: Vec<ASTNode> = Vec::new();
        assert(trees_of(body@) == Seq::<Tree>::empty());
        loop
            invariant
                self.wf(),
                self.tokens@ == old(self).tokens@,
                t == self.toks(),
                p0 == old(self).pos,
                p0 < self.pos,
                target == block(t, p0),
                block_rest(t, self.pos as int, trees_of(body@)) == target,
            ensures
                self.wf(),
                self.tokens@ == old(self).tokens@,
                p0 < self.pos,
                target == match expect(t, self.pos as int, TokenType::RBrace) {
                    Ok((_, q)) => Ok((Tree::BlockStmt(trees_of(body@)), q)),
                    Err(e) => Err(e),
                },
            decreases self.tokens@.len() - self.pos,
        {
            proof {
                unfold_block_rest(t, self.pos as int, trees_of(body@));
            }
            if !(self.peek_tt() != TokenType::RBrace && self.peek_tt() != TokenType::Eof) {
                break;
            }
            let ghost before = body@;
            let s = match self.try_stmt() {
                Ok(n) => n,
                Err(e) => return Err(e),
            };
            body.push(s);
            proof {
                lemma_trees_of_push(before, s);
            }
        }
        match self.try_expect(TokenType::RBrace) {
            Ok(_) => {},
            Err(e) => return Err(e),
        }
        Ok(ASTNode::BlockStmt(Box::new(BlockStmt { body })))
    }

    fn try_if(&mut self) -> (r: Result<ASTNode, ParseError>)
        requires
            old(self).wf(),
            kind(old(self).toks(), old(self).pos as int) == TokenType::Ident,
            old(self).pos < old(self).tokens@.len(),
        ensures
            final(self).wf(),
            final(self).tokens@ == old(self).tokens@,
            node_step(r, if_stmt(old(self).toks(), old(self).pos as int), final(self).pos as int),
            r is Ok ==> old(self).pos < final(self).pos,
        decreases old(self).tokens@.len() - old(self).pos, 25int,
    {
        proof {
            unfold_if_stmt(self.toks(), self.pos as int);
        }
        self.advance();
        let cond = match self.try_expr() {
            Ok(n) => n,
            Err(e) => return Err(e),
        };
        let body = match self.try_block() {
            Ok(n) => n,
            Err(e) => return Err(e),
        };
        let mut else_body: Option<Box<ASTNode>> = None;
        if self.at_ident("else") {
            self.advance();
            if self.at_ident("if") {
                let e = match self.try_if() {
                    Ok(n) => n,
                    Err(e) => return Err(e),
                };
                else_body = Some(Box::new(e));
            } else {
                let e = match self.try_block() {
                    Ok(n) => n,
                    Err(e) => return Err(e),
                };
                else_body = Some(Box::new(e));
            }
        }
        Ok(ASTNode::IfStmt(Box::new(IfStmt { cond: Box::new(cond), body: Box::new(body), else_body })))
    }

    fn try_while(&mut self) -> (r: Result<ASTNode, ParseError>)
        requires
            old(self).wf(),
            kind(old(self).toks(), old(self).pos as int) == TokenType::Ident,
            old(self).pos < old(self).tokens@.len(),
        ensures
            final(self).wf(),
            final(self).tokens@ == old(self).tokens@,
            node_step(r, while_stmt(old(self).toks(), old(self).pos as int), final(self).pos as int),
            r is Ok ==> old(self).pos < final(self).pos,
        decreases old(self).tokens@.len() - old(self).pos, 25int,
    {
        proof {
            unfold_while_stmt(self.toks(), self.pos as int);
        }
        self.advance();
        let cond = match self.try_expr() {
            Ok(n) => n,
            Err(e) => return Err(e),
        };
        let body = match self.try_block() {
            Ok(n) => n,
            Err(e) => return Err(e),
        };
        Ok(ASTNode::WhileStmt(Box::new(WhileStmt { cond: Box::new(cond), body: Box::new(body) })))
    }

    fn try_for(&mut self) -> (r: Result<ASTNode, ParseError>)
        requires
            old(self).wf(),
            kind(old(self).toks(), old(self).pos as int) == TokenType::Ident,
            old(self).pos < old(self).tokens@.len(),
        ensures
            final(self).wf(),
            final(self).tokens@ == old(self).tokens@,
            node_step(r, for_stmt(old(self).toks(), old(self).pos as int), final(self).pos as int),
            r is Ok ==> old(self).pos < final(self).pos,
        decreases old(self).tokens@.len() - old(self).pos, 25int,
    {
        proof {
            unfold_for_stmt(self.toks(), self.pos as int);
        }
        self.advance();
        let var_tok = match self.try_expect(TokenType::Ident) {
            Ok(n) => n,
            Err(e) => return Err(e),
        };
        match self.try_expect(TokenType::Ident) {
            Ok(_) => {},
            Err(e) => return Err(e),
        }
        let iter = match self.try_expr() {
            Ok(n) => n,
            Err(e) => return Err(e),
        };
        let body = match self.try_block() {
            Ok(n) => n,
            Err(e) => return Err(e),
        };
        Ok(
            ASTNode::ForStmt(
                Box::new(ForStmt { var: var_tok.value, iter: Box::new(iter), body: Box::new(body) }),
            ),
        )
    }

    fn try_var_decl(&mut self) -> (r: Result<ASTNode, ParseError>)
        requires
            old(self).wf(),
            kind(old(self).toks(), old(self).pos as int) == TokenType::Ident,
            old(self).pos < old(self).tokens@.len(),
        ensures
            final(self).wf(),
            final(self).tokens@ == old(self).tokens@,
            node_step(r, var_decl(old(self).toks(), old(self).pos as int), final(self).pos as int),
            r is Ok ==> old(self).pos < final(self).pos,
        decreases old(self).tokens@.len() - old(self).pos, 25int,
    {
        proof {
            unfold_var_decl(self.toks(), self.pos as int);
        }
        self.advance();
        let name_tok = match self.try_expect(TokenType::Ident) {
            Ok(n) => n,
            Err(e) => return Err(e),
        };
        let mut var_type = BType::Any;
        let mut has_type = false;
        if self.match_token(TokenType::Colon) {
            var_type = match self.try_type() {
                Ok(b) => b,
                Err(e) => return Err(e),
            };
            has_type = true;
        }
        match self.try_expect(TokenType::Eq) {
            Ok(_) => {},
            Err(e) => return Err(e),
        }
        let val = match self.try_expr() {
            Ok(n) => n,
            Err(e) => return Err(e),
        };
        self.match_token(TokenType::Semicolon);
        Ok(
            ASTNode::VarDecl(
                Box::new(
                    VarDecl {
                        name: name_tok.value,
                        var_type,
                        value: Box::new(val),
                        has_type,
                        is_bel: false,
                        is_ster: false,
                    },
                ),
            ),
        )
    }

    fn try_idb_decl(&mut self) -> (r: Result<ASTNode, ParseError>)
        requires
            old(self).wf(),
            kind(old(self).toks(), old(self).pos as int) == TokenType::Ident,
            old(self).pos < old(self).tokens@.len(),
        ensures
            final(self).wf(),
            final(self).tokens@ == old(self).tokens@,
            node_step(r, idb_decl(old(self).toks(), old(self).pos as int), final(self).pos as int),
            r is Ok ==> old(self).pos < final(self).pos,
        decreases old(self).tokens@.len() - old(self).pos, 25int,
    {
        proof {
            unfold_idb_decl(self.toks(), self.pos as int);
        }
        self.advance();
        let num = match self.try_expect(TokenType::Number) {
            Ok(n) => n,
            Err(e) => return Err(e),
        };
        let id = match parse_i64(num.value.as_str()) {
            Some(n) => n,
            None => 0,
        };
        match self.try_expect(TokenType::Eq) {
            Ok(_) => {},
            Err(e) => return Err(e),
        }
        let val = match self.try_expr() {
            Ok(n) => n,
            Err(e) => return Err(e),
        };
        self.match_token(TokenType::Semicolon);
        Ok(ASTNode::IdbDecl(Box::new(IdbDecl { id, value: Box::new(val) })))
    }

    fn try_typed_decl(&mut self) -> (r: Result<ASTNode, ParseError>)
        requires
            old(self).wf(),
            kind(old(self).toks(), old(self).pos as int) == TokenType::Ident,
            old(self).pos < old(self).tokens@.len(),
        ensures
            final(self).wf(),
            final(self).tokens@ == old(self).tokens@,
            node_step(r, typed_decl(old(self).toks(), old(self).pos as int), final(self).pos as int),
            r is Ok ==> old(self).pos < final(self).pos,
        decreases old(self).tokens@.len() - old(self).pos, 25int,
    {
        proof {
            unfold_typed_decl(self.toks(), self.pos as int);
        }
        let type_word_text = self.advance().value;
        let name_tok = match self.try_expect(TokenType::Ident) {
            Ok(n) => n,
            Err(e) => return Err(e),
        };
        match self.try_expect(TokenType::Eq) {
            Ok(_) => {},
            Err(e) => return Err(e),
        }
        let val = match self.try_expr() {
            Ok(n) => n,
            Err(e) => return Err(e),
        };
        self.match_token(TokenType::Semicolon);
        let mut btype = BType::Any;
        let mut is_bel = false;
        let mut is_ster = false;
        let w = type_word_text.as_str();
        if str_eq(w, "float") {
            btype = BType::Float;
        } else if str_eq(w, "string") {
            btype = BType::String;
        } else if str_eq(w, "bool") {
            btype = BType::Bool;
        } else if str_eq(w, "bel") {
            btype = BType::Bel;
            is_bel = true;
        } else if str_eq(w, "ster") {
            btype = BType::Ster;
            is_ster = true;
        } else if str_eq(w, "any") {
            btype = BType::Any;
        }
        assert(typed_decl_kind(type_word_text@) == (btype, is_bel, is_ster));
        Ok(
            ASTNode::VarDecl(
                Box::new(
                    VarDecl {
                        name: name_tok.value,
                        var_type: btype,
                        value: Box::new(val),
                        has_type: true,
                        is_bel,
                        is_ster,
                    },
                ),
            ),
        )
    }

    /// A parameter: a name, then an optional `: type`.
    fn try_param(&mut self) -> (r: Result<TypedParam, ParseError>)
        requires
            old(self).wf(),
        ensures
            final(self).wf(),
            final(self).tokens@ == old(self).tokens@,
            match param(old(self).toks(), old(self).pos as int) {
                Ok((x, q)) => r matches Ok(tp) && param_view(tp) == x && final(self).pos == q,
                Err(e) => r matches Err(err) && err@ == e,
            },
            r is Ok ==> old(self).pos < final(self).pos,
    {
        let name_tok = match self.try_expect(TokenType::Ident) {
            Ok(n) => n,
            Err(e) => return Err(e),
        };
        let mut param_type = BType::Any;
        if self.match_token(TokenType::Colon) {
            param_type = match self.try_type() {
                Ok(b) => b,
                Err(e) => return Err(e),
            };
        }
        Ok(TypedParam { name: name_tok.value, param_type })
    }

    fn try_fn_decl(&mut self) -> (r: Result<ASTNode, ParseError>)
        requires
            old(self).wf(),
            kind(old(self).toks(), old(self).pos as int) == TokenType::Ident,
            old(self).pos < old(self).tokens@.len(),
        ensures
            final(self).wf(),
            final(self).tokens@ == old(self).tokens@,
            node_step(r, fn_decl(old(self).toks(), old(self).pos as int), final(self).pos as int),
            r is Ok ==> old(self).pos < final(self).pos,
        decreases old(self).tokens@.len() - old(self).pos, 25int,
    {
        proof {
            unfold_fn_decl(self.toks(), self.pos as int);
        }
        let ghost t = self.toks();
        self.advance();
        let name_tok = match self.try_expect(TokenType::Ident) {
            Ok(n) => n,
            Err(e) => return Err(e),
        };
        match self.try_expect(TokenType::LParen) {
            Ok(_) => {},
            Err(e) => return Err(e),
        }
        let ghost q2 = self.pos as int;
        let mut params: Vec<TypedParam> = Vec::new();
        if self.peek_tt() != TokenType::RParen {
            let first = match self.try_param() {
                Ok(n) => n,
                Err(e) => return Err(e),
            };
            params.push(first);
            let ghost target = params_rest(t, self.pos as int, seq![param_view(first)]);
            let ghost whole = fn_decl(t, old(self).pos as int);
            assert(params_view(params@) =~= seq![param_view(first)]);
            assert(target matches Err(e) ==> whole == Err::<(Tree, int), ParseFailure>(e));
            loop
                invariant
                    target matches Err(e) ==> whole == Err::<(Tree, int), ParseFailure>(e),
                    whole == fn_decl(t, old(self).pos as int),
                    self.wf(),
                    self.tokens@ == old(self).tokens@,
                    t == self.toks(),
                    old(self).pos < self.pos,
                    params_rest(t, self.pos as int, params_view(params@)) == target,
                ensures
                    self.wf(),
                    self.tokens@ == old(self).tokens@,
                    old(self).pos < self.pos,
                    target == Ok::<(Seq<(Seq<char>, BType)>, int), ParseFailure>(
                        (params_view(params@), self.pos as int),
                    ),
                decreases self.tokens@.len() - self.pos,
            {
                let ghost before = params@;
                if !self.match_token(TokenType::Comma) {
                    break;
                }
                let x = match self.try_param() {
                    Ok(x) => x,
                    Err(e) => return Err(e),
                };
                params.push(x);
                assert(params_view(params@) =~= params_view(before).push(param_view(x)));
            }
        } else {
            assert(params_view(params@) =~= Seq::<(Seq<char>, BType)>::empty());
        }
        assert(param_list(t, q2) == Ok::<(Seq<(Seq<char>, BType)>, int), ParseFailure>(
            (params_view(params@), self.pos as int),
        ));
        match self.try_expect(TokenType::RParen) {
            Ok(_) => {},
            Err(e) => return Err(e),
        }
        let mut return_type = BType::Any;
        let mut has_ret_type = false;
        if self.match_token(TokenType::Colon) {
            return_type = match self.try_type() {
                Ok(b) => b,
                Err(e) => return Err(e),
            };
            has_ret_type = true;
        }
        let body = match self.try_block() {
            Ok(n) => n,
            Err(e) => return Err(e),
        };
        Ok(
            ASTNode::FnDecl(
                Box::new(
                    FnDecl {
                        name: name_tok.value,
                        params,
                        return_type,
                        has_ret_type,
                        body: Box::new(body),
                    },
                ),
            ),
        )
    }

    fn try_return(&mut self) -> (r: Result<ASTNode, ParseError>)
        requires
            old(self).wf(),
            kind(old(self).toks(), old(self).pos as int) == TokenType::Ident,
            old(self).pos < old(self).tokens@.len(),
        ensures
            final(self).wf(),
            final(self).tokens@ == old(self).tokens@,
            node_step(r, return_stmt(old(self).toks(), old(self).pos as int), final(self).pos as int),
            r is Ok ==> old(self).pos < final(self).pos,
        decreases old(self).tokens@.len() - old(self).pos, 25int,
    {
        proof {
            unfold_return_stmt(self.toks(), self.pos as int);
        }
        self.advance();
        let mut value: Option<Box<ASTNode>> = None;
        if self.peek_tt() != TokenType::Semicolon && self.peek_tt() != TokenType::RBrace
            && self.peek_tt() != TokenType::Eof {
            let v = match self.try_expr() {
                Ok(n) => n,
                Err(e) => return Err(e),
            };
            value = Some(Box::new(v));
        }
        self.match_token(TokenType::Semicolon);
        Ok(ASTNode::ReturnStmt(Box::new(ReturnStmt { value })))
    }
}

/// `target op= value`, written out as `target = target op value`.
fn compound_assign(target: ASTNode, op: &str, value: ASTNode) -> (r: ASTNode)
    ensures
        r@ == (Tree::Assign {
            target: Box::new(target@),
            value: Box::new(bin(op@, target@, value@)),
        }),
{
    broadcast use vstd::string::group_string_axioms;

    let target_copy = target.deep_copy();
    let sum = ASTNode::BinExpr(
        Box::new(BinExpr { op: op.to_string(), left: Box::new(target), right: Box::new(value) }),
    );
    assert(sum@ == bin(op@, target_copy@, value@));
    ASTNode::Assign(Box::new(Assign { target: Box::new(target_copy), value: Box::new(sum) }))
}

/// The words that begin a typed declaration: `float`, `string`, `bool`,
/// `bel`, `ster` and `any`.
fn is_type_name(name: &str) -> (r: bool)
    ensures
        r == type_word(name@),
{
    str_eq(name, "float") || str_eq(name, "string") || str_eq(name, "bool") || str_eq(name, "bel")
        || str_eq(name, "ster") || str_eq(name, "any")
}

} // verus!
