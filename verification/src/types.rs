use vstd::prelude::*;

verus! {

/// The value types of the language. `Bel` is a bounded number and `Ster`
/// a string-only variable kind; both are checked on assignment.
#[derive(Debug, Clone, Copy, PartialEq, Eq, Structural)]
pub enum BType {
    Any,
    Int,
    Float,
    String,
    Bool,
    Array,
    Fn,
    Bel,
    Ster,
}

/// The printed name of a type.
pub open spec fn type_name_spec(t: BType) -> Seq<char> {
    match t {
        BType::Any => "any"@,
        BType::Int => "int"@,
        BType::Float => "float"@,
        BType::String => "string"@,
        BType::Bool => "bool"@,
        BType::Array => "array"@,
        BType::Fn => "fn"@,
        BType::Bel => "bel"@,
        BType::Ster => "ster"@,
    }
}

impl BType {
    pub fn name(&self) -> (r: &'static str)
        ensures
            r@ == type_name_spec(*self),
    {
        match self {
            BType::Any => "any",
            BType::Int => "int",
            BType::Float => "float",
            BType::String => "string",
            BType::Bool => "bool",
            BType::Array => "array",
            BType::Fn => "fn",
            BType::Bel => "bel",
            BType::Ster => "ster",
        }
    }
}

/// The numeric types: plain integers, floats and bounded `bel` numbers.
pub open spec fn numeric(t: BType) -> bool {
    t == BType::Int || t == BType::Float || t == BType::Bel
}

pub fn is_numeric_type(t: BType) -> (r: bool)
    ensures
        r == numeric(t),
{
    t == BType::Int || t == BType::Float || t == BType::Bel
}

/// When a value of type `actual` may be stored where `declared` is expected.
pub open spec fn compatible(declared: BType, actual: BType) -> bool {
    ||| declared == BType::Any
    ||| actual == BType::Any
    ||| declared == actual
    ||| numeric(declared) && numeric(actual)
    ||| declared == BType::Ster && actual == BType::String
    ||| declared == BType::String && actual == BType::Ster
}

pub fn type_compatible(declared: BType, actual: BType) -> (r: bool)
    ensures
        r == compatible(declared, actual),
{
    if declared == BType::Any || actual == BType::Any {
        return true;
    }
    if declared == actual {
        return true;
    }
    if is_numeric_type(declared) && is_numeric_type(actual) {
        return true;
    }
    if declared == BType::Ster && actual == BType::String {
        return true;
    }
    if declared == BType::String && actual == BType::Ster {
        return true;
    }
    false
}

/// Type compatibility is symmetric.
pub proof fn compatible_is_symmetric(a: BType, b: BType)
    ensures
        compatible(a, b) == compatible(b, a),
{
}

/// Every type is compatible with itself.
pub proof fn compatible_is_reflexive(a: BType)
    ensures
        compatible(a, a),
{
}

/// `Any` on either side fits anything.
pub proof fn law_any_fits_everything(t: BType)
    ensures
        compatible(BType::Any, t),
        compatible(t, BType::Any),
{
}

/// The numeric types `int`, `float` and `bel` all fit one another.
pub proof fn law_numbers_fit_numbers(a: BType, b: BType)
    requires
        a == BType::Int || a == BType::Float || a == BType::Bel,
        b == BType::Int || b == BType::Float || b == BType::Bel,
    ensures
        compatible(a, b),
{
}

/// `string` and `ster` fit each other.
pub proof fn law_strings_fit_sters()
    ensures
        compatible(BType::String, BType::Ster),
        compatible(BType::Ster, BType::String),
{
}

/// Nothing else fits: two different types, neither `Any`, not both numeric,
/// and not `string` with `ster`, are incompatible (so an array never fits a
/// `string` parameter, nor a `bool` an `int` one).
pub proof fn law_nothing_else_fits(a: BType, b: BType)
    requires
        a != b,
        a != BType::Any,
        b != BType::Any,
        !((a == BType::Int || a == BType::Float || a == BType::Bel) && (b == BType::Int || b
            == BType::Float || b == BType::Bel)),
        !(a == BType::String && b == BType::Ster),
        !(a == BType::Ster && b == BType::String),
    ensures
        !compatible(a, b),
{
}

} // verus!
