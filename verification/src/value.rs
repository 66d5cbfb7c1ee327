//! Runtime values: the result of evaluating an expression. Numbers are
//! exact 64-bit signed integers (see the crate's number model in
//! `numerals`); values are copied by value and share no state.
use vstd::prelude::*;

use crate::text::{i64_to_text, int_text};

verus! {

/// A runtime value: a string, a number, a boolean or nil.
#[derive(Debug)]
pub enum Value {
    Str(String),
    Number(i64),
    Bool(bool),
    Nil,
}

/// The mathematical model of a runtime value.
#[verifier::ext_equal]
pub enum ValueModel {
    Str(Seq<char>),
    Number(int),
    Bool(bool),
    Nil,
}

impl View for Value {
    type V = ValueModel;

    open spec fn view(&self) -> ValueModel {
        match self {
            Value::Str(s) => ValueModel::Str(s@),
            Value::Number(n) => ValueModel::Number(*n as int),
            Value::Bool(b) => ValueModel::Bool(*b),
            Value::Nil => ValueModel::Nil,
        }
    }
}

/// Truthiness: `Nil` and `Bool(false)` are falsy; every other value,
/// including the number zero and the empty string, is truthy.
pub open spec fn truthy(v: ValueModel) -> bool {
    match v {
        ValueModel::Nil => false,
        ValueModel::Bool(b) => b,
        _ => true,
    }
}

/// Structural, type-strict equality over values: values of different
/// variants are never equal; equal variant and equal payload are equal.
pub open spec fn values_equal(a: ValueModel, b: ValueModel) -> bool {
    match (a, b) {
        (ValueModel::Str(x), ValueModel::Str(y)) => x == y,
        (ValueModel::Number(x), ValueModel::Number(y)) => x == y,
        (ValueModel::Bool(x), ValueModel::Bool(y)) => x == y,
        (ValueModel::Nil, ValueModel::Nil) => true,
        _ => false,
    }
}

/// Law: equality over values is type-strict. Values of different
/// variants never compare equal — a number never equals a boolean, nil or
/// a string, whatever the payloads — while equality is reflexive, so in
/// particular `Nil` equals `Nil`.
pub proof fn lemma_equality_type_strict(a: ValueModel, b: ValueModel)
    ensures
        a is Number && !(b is Number) ==> !values_equal(a, b),
        a is Str && !(b is Str) ==> !values_equal(a, b),
        a is Bool && !(b is Bool) ==> !values_equal(a, b),
        a is Nil && !(b is Nil) ==> !values_equal(a, b),
        values_equal(a, a),
{
}

/// Law: truthiness sends every number (zero included) and every string
/// (the empty one included) to true, and exactly `Nil` and `Bool(false)`
/// to false.
pub proof fn lemma_truthiness(v: ValueModel)
    ensures
        v is Number ==> truthy(v),
        v is Str ==> truthy(v),
        !truthy(v) <==> (v == ValueModel::Nil || v == ValueModel::Bool(false)),
{
}

/// The display form of a value.
pub open spec fn value_text(v: ValueModel) -> Seq<char> {
    match v {
        ValueModel::Str(s) => s,
        ValueModel::Number(n) => int_text(n),
        ValueModel::Bool(b) => if b {
            "true"@
        } else {
            "false"@
        },
        ValueModel::Nil => "nil"@,
    }
}

impl Value {
    /// Whether the value counts as true in a logical context.
    pub fn is_truthy(&self) -> (r: bool)
        ensures
            r == truthy(self@),
    {
        match self {
            Value::Str(_) => true,
            Value::Number(_) => true,
            Value::Bool(b) => *b,
            Value::Nil => false,
        }
    }

    /// An explicit deep copy; the model of the copy equals the original's.
    pub fn duplicate(&self) -> (r: Value)
        ensures
            r@ == self@,
    {
        match self {
            Value::Str(s) => Value::Str(s.clone()),
            Value::Number(n) => Value::Number(*n),
            Value::Bool(b) => Value::Bool(*b),
            Value::Nil => Value::Nil,
        }
    }

    /// The display form of the value, as printed per statement.
    pub fn to_text(&self) -> (r: String)
        ensures
            r@ == value_text(self@),
    {
        match self {
            Value::Str(s) => s.clone(),
            Value::Number(n) => i64_to_text(*n),
            Value::Bool(b) => if *b {
                String::from_str("true")
            } else {
                String::from_str("false")
            },
            Value::Nil => String::from_str("nil"),
        }
    }
}

impl PartialEq for Value {
    fn eq(&self, other: &Value) -> (r: bool) {
        match (self, other) {
            (Value::Str(a), Value::Str(b)) => *a == *b,
            (Value::Number(a), Value::Number(b)) => a == b,
            (Value::Bool(a), Value::Bool(b)) => a == b,
            (Value::Nil, Value::Nil) => true,
            _ => false,
        }
    }
}

impl vstd::std_specs::cmp::PartialEqSpecImpl for Value {
    open spec fn obeys_eq_spec() -> bool {
        true
    }

    open spec fn eq_spec(&self, other: &Value) -> bool {
        values_equal(self@, other@)
    }
}

} // verus!
