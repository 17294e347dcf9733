use bel_lang::scope::{check_constraint, AssignError, Scope};
use bel_lang::types::BType;

/// Assigns as the evaluator does: the name must be declared and the value
/// must meet the rule of its declared type.
fn assign<V>(s: &mut Scope<V>, name: &str, v: V, v_type: BType, over: bool) -> Result<(), Option<AssignError>> {
    let t = s.declared_type(name).ok_or(None)?;
    if let Some(e) = check_constraint(t, v_type, over) {
        return Err(Some(e));
    }
    s.set(name, v, v_type, over);
    Ok(())
}

#[test]
fn defined_names_read_back() {
    let mut s: Scope<i64> = Scope::new(None);
    assert_eq!(s.get("x"), None);
    s.define("x", 1);
    assert_eq!(s.get("x"), Some(&1));
    s.define("x", 2);
    assert_eq!(s.get("x"), Some(&2));
    s.define_typed("y", 3, BType::Int);
    assert_eq!(s.get("y"), Some(&3));
    assert_eq!(s.get("x"), Some(&2));
}

#[test]
fn declared_types_are_reported() {
    let mut s: Scope<i64> = Scope::new(None);
    assert_eq!(s.declared_type("x"), None);
    s.define("x", 1);
    s.define_typed("b", 2, BType::Bel);
    assert_eq!(s.declared_type("x"), Some(BType::Any));
    assert_eq!(s.declared_type("b"), Some(BType::Bel));
    let mut inner = Scope::new(Some(s.duplicate()));
    inner.define_typed("b", 3, BType::Ster);
    assert_eq!(inner.declared_type("b"), Some(BType::Ster));
    assert_eq!(inner.declared_type("x"), Some(BType::Any));
}

#[test]
fn child_scope_sees_parent_and_shadows() {
    let mut parent: Scope<i64> = Scope::new(None);
    parent.define("a", 1);
    parent.define("b", 2);
    let mut child = Scope::new(Some(parent.duplicate()));
    assert_eq!(child.get("a"), Some(&1));
    child.define("a", 10);
    assert_eq!(child.get("a"), Some(&10));
    assert_eq!(child.get("b"), Some(&2));
    assert_eq!(parent.get("a"), Some(&1));
}

#[test]
fn duplicate_is_independent() {
    let mut s: Scope<String> = Scope::new(None);
    s.define_typed("t", "a".to_string(), BType::Ster);
    let mut d = s.duplicate();
    assert_eq!(d.get("t"), Some(&"a".to_string()));
    assert_eq!(d.declared_type("t"), Some(BType::Ster));
    d.set("t", "b".to_string(), BType::String, false);
    assert_eq!(d.get("t"), Some(&"b".to_string()));
    assert_eq!(s.get("t"), Some(&"a".to_string()));
}

#[test]
fn assignment_goes_to_the_innermost_holder() {
    let mut outer: Scope<i64> = Scope::new(None);
    outer.define("n", 1);
    let mut inner = Scope::new(Some(outer));
    inner.set("n", 5, BType::Int, false);
    assert_eq!(inner.get("n"), Some(&5));
    inner.define("n", 7);
    inner.set("n", 8, BType::Int, false);
    assert_eq!(inner.get("n"), Some(&8));
}

#[test]
fn assigning_an_undefined_name_is_refused() {
    let mut s: Scope<i64> = Scope::new(None);
    s.define("a", 1);
    assert_eq!(assign(&mut s, "b", 2, BType::Int, false), Err(None));
    assert_eq!(s.get("b"), None);
    assert_eq!(s.get("a"), Some(&1));
}

#[test]
fn bel_variables_take_numbers_up_to_the_limit() {
    let mut s: Scope<&str> = Scope::new(None);
    s.define_typed("b", "5", BType::Bel);
    assert_eq!(assign(&mut s, "b", "hi", BType::String, false), Err(Some(AssignError::NotANumber)));
    assert_eq!(assign(&mut s, "b", "1001", BType::Int, true), Err(Some(AssignError::AboveMaximum)));
    assert_eq!(s.get("b"), Some(&"5"));
    assert_eq!(assign(&mut s, "b", "1000", BType::Int, false), Ok(()));
    assert_eq!(s.get("b"), Some(&"1000"));
    assert_eq!(s.declared_type("b"), Some(BType::Bel));
}

#[test]
fn ster_variables_take_only_strings() {
    let mut s: Scope<&str> = Scope::new(None);
    s.define_typed("t", "a", BType::Ster);
    assert_eq!(
        assign(&mut s, "t", "1", BType::Int, false),
        Err(Some(AssignError::NotAString { got: BType::Int }))
    );
    assert_eq!(s.get("t"), Some(&"a"));
    assert_eq!(assign(&mut s, "t", "b", BType::String, false), Ok(()));
    assert_eq!(s.get("t"), Some(&"b"));
}

#[test]
fn other_types_take_anything() {
    let mut s: Scope<i64> = Scope::new(None);
    s.define_typed("f", 1, BType::Float);
    assert_eq!(assign(&mut s, "f", 2, BType::String, true), Ok(()));
    assert_eq!(s.get("f"), Some(&2));
}

#[test]
fn assignment_keeps_the_declared_type() {
    let mut s: Scope<i64> = Scope::new(None);
    s.define_typed("b", 1, BType::Bel);
    assert_eq!(assign(&mut s, "b", 2, BType::Int, false), Ok(()));
    assert_eq!(assign(&mut s, "b", 3, BType::Bool, false), Err(Some(AssignError::NotANumber)));
}

#[test]
fn constraint_rules() {
    assert_eq!(check_constraint(BType::Bel, BType::Int, false), None);
    assert_eq!(check_constraint(BType::Bel, BType::Int, true), Some(AssignError::AboveMaximum));
    assert_eq!(check_constraint(BType::Bel, BType::Float, false), Some(AssignError::NotANumber));
    assert_eq!(
        check_constraint(BType::Ster, BType::Array, false),
        Some(AssignError::NotAString { got: BType::Array })
    );
    assert_eq!(check_constraint(BType::Ster, BType::String, true), None);
    assert_eq!(check_constraint(BType::Any, BType::Bool, true), None);
    assert_eq!(check_constraint(BType::Int, BType::String, false), None);
}
