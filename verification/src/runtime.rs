use vstd::prelude::*;
use vstd::string::StringExecFns;

use crate::ast::TypedParam;
use crate::lexer::string_from_chars;
use crate::parser::str_eq;
use crate::types::{BType, compatible, type_compatible, type_name_spec};

verus! {

/// The text of a type error: the type that was expected, the one that came
/// and where.
pub open spec fn type_mismatch_text(expected: BType, actual: BType, context: Seq<char>) -> Seq<
    char,
> {
    "type error: expected "@ + type_name_spec(expected) + ", got "@ + type_name_spec(actual)
        + " in "@ + context
}

/// The message reported when a value of type `actual` meets a place that
/// expects `expected`, such as a typed parameter or a declared return type.
pub fn type_mismatch_error(expected: BType, actual: BType, context: &str) -> (r: String)
    ensures
        r@ == type_mismatch_text(expected, actual, context@),
{
    let mut r = String::from_str("type error: expected ");
    r.append(expected.name());
    r.append(", got ");
    r.append(actual.name());
    r.append(" in ");
    r.append(context);
    r
}

/// The functions built into the language. A call by one of these names runs
/// the built-in, whatever functions the program itself defines.
#[derive(Debug, Clone, Copy, PartialEq, Eq, Structural)]
pub enum Builtin {
    Prinb,
    Reab,
    Input,
    Len,
    Str,
    Num,
    Int,
    Float,
    Bool,
    Push,
    Pop,
    Substr,
    Type,
}

/// The built-in that a call by `name` runs, if any.
pub open spec fn builtin_spec(name: Seq<char>) -> Option<Builtin> {
    if name == "prinb"@ {
        Some(Builtin::Prinb)
    } else if name == "reab"@ {
        Some(Builtin::Reab)
    } else if name == "input"@ {
        Some(Builtin::Input)
    } else if name == "len"@ {
        Some(Builtin::Len)
    } else if name == "str"@ {
        Some(Builtin::Str)
    } else if name == "num"@ {
        Some(Builtin::Num)
    } else if name == "int"@ {
        Some(Builtin::Int)
    } else if name == "float"@ {
        Some(Builtin::Float)
    } else if name == "bool"@ {
        Some(Builtin::Bool)
    } else if name == "push"@ {
        Some(Builtin::Push)
    } else if name == "pop"@ {
        Some(Builtin::Pop)
    } else if name == "substr"@ {
        Some(Builtin::Substr)
    } else if name == "type"@ {
        Some(Builtin::Type)
    } else {
        None
    }
}

/// Each built-in is reached by its own name, and two names never reach the
/// same built-in.
pub proof fn law_builtin_names(a: Seq<char>, b: Seq<char>)
    ensures
        builtin_spec("prinb"@) == Some(Builtin::Prinb),
        builtin_spec("reab"@) == Some(Builtin::Reab),
        builtin_spec("input"@) == Some(Builtin::Input),
        builtin_spec("len"@) == Some(Builtin::Len),
        builtin_spec("str"@) == Some(Builtin::Str),
        builtin_spec("num"@) == Some(Builtin::Num),
        builtin_spec("int"@) == Some(Builtin::Int),
        builtin_spec("float"@) == Some(Builtin::Float),
        builtin_spec("bool"@) == Some(Builtin::Bool),
        builtin_spec("push"@) == Some(Builtin::Push),
        builtin_spec("pop"@) == Some(Builtin::Pop),
        builtin_spec("substr"@) == Some(Builtin::Substr),
        builtin_spec("type"@) == Some(Builtin::Type),
        builtin_spec(a) is Some && builtin_spec(a) == builtin_spec(b) ==> a == b,
{
    reveal_strlit("prinb");
    reveal_strlit("reab");
    reveal_strlit("input");
    reveal_strlit("len");
    reveal_strlit("str");
    reveal_strlit("num");
    reveal_strlit("int");
    reveal_strlit("float");
    reveal_strlit("bool");
    reveal_strlit("push");
    reveal_strlit("pop");
    reveal_strlit("substr");
    reveal_strlit("type");
    assert("prinb"@.len() == 5 && "prinb"@[0] == 'p');
    assert("reab"@.len() == 4 && "reab"@[0] == 'r');
    assert("input"@.len() == 5 && "input"@[0] == 'i');
    assert("len"@.len() == 3 && "len"@[0] == 'l');
    assert("str"@.len() == 3 && "str"@[0] == 's');
    assert("num"@.len() == 3 && "num"@[0] == 'n');
    assert("int"@.len() == 3 && "int"@[0] == 'i');
    assert("float"@.len() == 5 && "float"@[0] == 'f');
    assert("bool"@.len() == 4 && "bool"@[0] == 'b');
    assert("push"@.len() == 4 && "push"@[0] == 'p');
    assert("pop"@.len() == 3 && "pop"@[0] == 'p');
    assert("substr"@.len() == 6 && "substr"@[0] == 's');
    assert("type"@.len() == 4 && "type"@[0] == 't');
    assert("str"@[1] == 't' && "substr"@[1] == 'u' && "push"@[1] == 'u' && "pop"@[1] == 'o');
    assert("prinb"@[1] == 'r' && "pop"@[2] == 'p' && "push"@[2] == 's');
    assert("int"@[1] == 'n' && "input"@[1] == 'n' && "int"@[2] == 't' && "input"@[2] == 'p');
    assert("bool"@[1] == 'o');
}

/// Resolves a call's name to a built-in; `None` means a call of a function
/// that the program defines.
pub fn builtin_named(name: &str) -> (r: Option<Builtin>)
    ensures
        r == builtin_spec(name@),
{
    if str_eq(name, "prinb") {
        Some(Builtin::Prinb)
    } else if str_eq(name, "reab") {
        Some(Builtin::Reab)
    } else if str_eq(name, "input") {
        Some(Builtin::Input)
    } else if str_eq(name, "len") {
        Some(Builtin::Len)
    } else if str_eq(name, "str") {
        Some(Builtin::Str)
    } else if str_eq(name, "num") {
        Some(Builtin::Num)
    } else if str_eq(name, "int") {
        Some(Builtin::Int)
    } else if str_eq(name, "float") {
        Some(Builtin::Float)
    } else if str_eq(name, "bool") {
        Some(Builtin::Bool)
    } else if str_eq(name, "push") {
        Some(Builtin::Push)
    } else if str_eq(name, "pop") {
        Some(Builtin::Pop)
    } else if str_eq(name, "substr") {
        Some(Builtin::Substr)
    } else if str_eq(name, "type") {
        Some(Builtin::Type)
    } else {
        None
    }
}

/// Checks call arguments of types `arg_types` against a function's
/// parameters, pairing them by position, and gives the first that does not
/// fit; arguments beyond the parameters, and parameters beyond the
/// arguments, are not checked.
pub fn argument_mismatch(params: &Vec<TypedParam>, arg_types: &Vec<BType>) -> (r: Option<usize>)
    ensures
        match r {
            Some(i) => {
                &&& i < params@.len()
                &&& i < arg_types@.len()
                &&& !compatible(params@[i as int].param_type, arg_types@[i as int])
                &&& forall|j: int|
                    0 <= j < i ==> compatible(params@[j].param_type, #[trigger] arg_types@[j])
            },
            None => forall|j: int|
                0 <= j < params@.len() && j < arg_types@.len() ==> compatible(
                    params@[j].param_type,
                    #[trigger] arg_types@[j],
                ),
        },
{
    let mut i: usize = 0;
    while i < params.len() && i < arg_types.len()
        invariant
            i <= params@.len(),
            forall|j: int| 0 <= j < i ==> compatible(params@[j].param_type, #[trigger] arg_types@[j]),
        decreases params@.len() - i,
    {
        if !type_compatible(params[i].param_type, arg_types[i]) {
            return Some(i);
        }
        i = i + 1;
    }
    None
}

/// The decimal digit character for `d`, which is below ten.
pub open spec fn digit_char(d: nat) -> char {
    if d == 0 { '0' }
    else if d == 1 { '1' }
    else if d == 2 { '2' }
    else if d == 3 { '3' }
    else if d == 4 { '4' }
    else if d == 5 { '5' }
    else if d == 6 { '6' }
    else if d == 7 { '7' }
    else if d == 8 { '8' }
    else { '9' }
}

/// The decimal numeral of `n`, without leading zeros.
pub open spec fn decimal_text(n: nat) -> Seq<char>
    decreases n,
{
    if n < 10 {
        seq![digit_char(n)]
    } else {
        decimal_text(n / 10).push(digit_char(n % 10))
    }
}

fn push_decimal(n: usize, out: &mut Vec<char>)
    ensures
        final(out)@ == old(out)@ + decimal_text(n as nat),
    decreases n,
{
    if n >= 10 {
        push_decimal(n / 10, out);
    }
    let d = n % 10;
    let c = if d == 0 { '0' }
        else if d == 1 { '1' }
        else if d == 2 { '2' }
        else if d == 3 { '3' }
        else if d == 4 { '4' }
        else if d == 5 { '5' }
        else if d == 6 { '6' }
        else if d == 7 { '7' }
        else if d == 8 { '8' }
        else { '9' };
    out.push(c);
    assert(out@ =~= old(out)@ + decimal_text(n as nat));
}

/// The decimal numeral of `n`, as used for line and column numbers.
pub fn decimal(n: usize) -> (r: String)
    ensures
        r@ == decimal_text(n as nat),
{
    let mut out: Vec<char> = Vec::new();
    push_decimal(n, &mut out);
    assert(out@ =~= decimal_text(n as nat));
    string_from_chars(out)
}

} // verus!
