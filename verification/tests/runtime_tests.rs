use bel_lang::ast::TypedParam;
use bel_lang::runtime::{argument_mismatch, decimal, builtin_named, type_mismatch_error, Builtin};
use bel_lang::types::BType;

#[test]
fn type_mismatch_message() {
    assert_eq!(
        type_mismatch_error(BType::Int, BType::String, "argument 'a' of function 'f'"),
        "type error: expected int, got string in argument 'a' of function 'f'"
    );
    assert_eq!(
        type_mismatch_error(BType::Bel, BType::Any, ""),
        "type error: expected bel, got any in "
    );
}

#[test]
fn builtins_resolve_by_name() {
    let table = [
        ("prinb", Builtin::Prinb),
        ("reab", Builtin::Reab),
        ("input", Builtin::Input),
        ("len", Builtin::Len),
        ("str", Builtin::Str),
        ("num", Builtin::Num),
        ("int", Builtin::Int),
        ("float", Builtin::Float),
        ("bool", Builtin::Bool),
        ("push", Builtin::Push),
        ("pop", Builtin::Pop),
        ("substr", Builtin::Substr),
        ("type", Builtin::Type),
    ];
    for (name, b) in table {
        assert_eq!(builtin_named(name), Some(b));
    }
}

#[test]
fn other_names_are_user_functions() {
    assert_eq!(builtin_named("print"), None);
    assert_eq!(builtin_named("Len"), None);
    assert_eq!(builtin_named(""), None);
    assert_eq!(builtin_named("lens"), None);
}

fn params(types: &[BType]) -> Vec<TypedParam> {
    types
        .iter()
        .enumerate()
        .map(|(i, t)| TypedParam { name: format!("p{}", i), param_type: *t })
        .collect()
}

#[test]
fn arguments_that_fit_pass() {
    let ps = params(&[BType::Int, BType::Any, BType::Ster]);
    assert_eq!(argument_mismatch(&ps, &vec![BType::Int, BType::Array, BType::String]), None);
    assert_eq!(argument_mismatch(&ps, &vec![BType::Float]), None);
    assert_eq!(argument_mismatch(&ps, &vec![]), None);
}

#[test]
fn first_misfit_argument_is_reported() {
    let ps = params(&[BType::Int, BType::Bool, BType::String]);
    assert_eq!(
        argument_mismatch(&ps, &vec![BType::Int, BType::String, BType::Int]),
        Some(1)
    );
    assert_eq!(argument_mismatch(&ps, &vec![BType::Bool, BType::Int]), Some(0));
}

#[test]
fn extra_arguments_are_not_checked() {
    let ps = params(&[BType::Int]);
    assert_eq!(argument_mismatch(&ps, &vec![BType::Int, BType::Fn, BType::Bool]), None);
}

#[test]
fn decimal_numerals() {
    assert_eq!(decimal(0), "0");
    assert_eq!(decimal(7), "7");
    assert_eq!(decimal(10), "10");
    assert_eq!(decimal(1203), "1203");
    assert_eq!(decimal(usize::MAX), usize::MAX.to_string());
}
