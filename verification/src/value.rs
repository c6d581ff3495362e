//! Runtime values: a tagged sum of nil, booleans, IEEE-754 double-precision
//! numbers (carried as their 64-bit encodings), and byte strings.
use vstd::prelude::*;
use crate::number::{f64_eq, number_eq, number_render, spec_number_render};
use crate::text::{ascii_bytes, bytes_equal, str_byte_vec};

verus! {

/// Mathematical model of a runtime value.  Numbers are modelled by the
/// 64 bits of their IEEE-754 binary64 encoding; strings by their bytes.
pub enum AbsValue {
    Nil,
    Bool(bool),
    Num(u64),
    Str(Seq<u8>),
}

/// A runtime value.  `Number` holds the IEEE-754 binary64 bit pattern of
/// the number; `Str` holds the bytes of the string.
pub enum Value {
    Bool(bool),
    Nil,
    Number(u64),
    Str(Vec<u8>),
}

impl View for Value {
    type V = AbsValue;

    open spec fn view(&self) -> AbsValue {
        match self {
            Value::Bool(b) => AbsValue::Bool(*b),
            Value::Nil => AbsValue::Nil,
            Value::Number(bits) => AbsValue::Num(*bits),
            Value::Str(s) => AbsValue::Str(s@),
        }
    }
}

impl Clone for Value {
    fn clone(&self) -> (r: Value)
        ensures
            r@ == self@,
    {
        match self {
            Value::Bool(b) => Value::Bool(*b),
            Value::Nil => Value::Nil,
            Value::Number(bits) => Value::Number(*bits),
            Value::Str(s) => Value::Str(clone_bytes(s)),
        }
    }
}

/// An owned copy of a byte vector with the same contents.
pub fn clone_bytes(v: &Vec<u8>) -> (r: Vec<u8>)
    ensures
        r@ == v@,
{
    let mut copy: Vec<u8> = Vec::new();
    let mut i: usize = 0;
    while i < v.len()
        invariant
            i <= v.len(),
            copy@ == v@.subrange(0, i as int),
        decreases v.len() - i,
    {
        copy.push(v[i]);
        i = i + 1;
        proof {
            assert(copy@ =~= v@.subrange(0, i as int));
        }
    }
    proof {
        assert(copy@ =~= v@);
    }
    copy
}

/// Only `nil` and `false` are falsey; every other value, including the
/// number zero and the empty string, is truthy.
pub open spec fn spec_falsey(v: AbsValue) -> bool {
    v == AbsValue::Nil || v == AbsValue::Bool(false)
}

impl Value {
    pub fn bool(value: bool) -> (r: Self)
        ensures
            r@ == AbsValue::Bool(value),
    {
        Value::Bool(value)
    }

    pub fn nil() -> (r: Self)
        ensures
            r@ == AbsValue::Nil,
    {
        Value::Nil
    }

    /// A number value, given the 64-bit IEEE-754 encoding of the number.
    pub fn number(bits: u64) -> (r: Self)
        ensures
            r@ == AbsValue::Num(bits),
    {
        Value::Number(bits)
    }

    /// A string value, given the bytes of the string.
    pub fn string(bytes: Vec<u8>) -> (r: Self)
        ensures
            r@ == AbsValue::Str(bytes@),
    {
        Value::Str(bytes)
    }

    pub fn is_bool(&self) -> (r: bool)
        ensures
            r == (self@ is Bool),
    {
        matches!(self, Value::Bool(_))
    }

    pub fn is_nil(&self) -> (r: bool)
        ensures
            r == (self@ is Nil),
    {
        matches!(self, Value::Nil)
    }

    pub fn is_number(&self) -> (r: bool)
        ensures
            r == (self@ is Num),
    {
        matches!(self, Value::Number(_))
    }

    pub fn is_string(&self) -> (r: bool)
        ensures
            r == (self@ is Str),
    {
        matches!(self, Value::Str(_))
    }

    pub fn as_bool(&self) -> (r: bool)
        requires
            self@ is Bool,
        ensures
            self@ == AbsValue::Bool(r),
    {
        match self {
            Value::Bool(b) => *b,
            _ => unreached(),
        }
    }

    /// The 64-bit IEEE-754 encoding of a number value.
    pub fn as_number(&self) -> (r: u64)
        requires
            self@ is Num,
        ensures
            self@ == AbsValue::Num(r),
    {
        match self {
            Value::Number(bits) => *bits,
            _ => unreached(),
        }
    }

    pub fn as_string(&self) -> (r: &Vec<u8>)
        requires
            self@ is Str,
        ensures
            self@ == AbsValue::Str(r@),
    {
        match self {
            Value::Str(s) => s,
            _ => unreached(),
        }
    }

    pub fn is_falsey(&self) -> (r: bool)
        ensures
            r == spec_falsey(self@),
    {
        matches!(self, Value::Nil | Value::Bool(false))
    }
}

/// Equality of two values: structural within a variant — for numbers,
/// IEEE-754 equality of the encodings — and values of different variants
/// are never equal.
pub open spec fn spec_values_equal(a: AbsValue, b: AbsValue) -> bool {
    match (a, b) {
        (AbsValue::Nil, AbsValue::Nil) => true,
        (AbsValue::Bool(x), AbsValue::Bool(y)) => x == y,
        (AbsValue::Num(x), AbsValue::Num(y)) => f64_eq(x, y),
        (AbsValue::Str(x), AbsValue::Str(y)) => x == y,
        _ => false,
    }
}

/// Whether two values are equal.
pub fn values_equal(a: &Value, b: &Value) -> (r: bool)
    ensures
        r == spec_values_equal(a@, b@),
{
    match (a, b) {
        (Value::Nil, Value::Nil) => true,
        (Value::Bool(x), Value::Bool(y)) => *x == *y,
        (Value::Number(x), Value::Number(y)) => number_eq(*x, *y),
        (Value::Str(x), Value::Str(y)) => bytes_equal(x.as_slice(), y.as_slice()),
        _ => false,
    }
}

/// The printed text of a value: `nil`, `true`, `false`, the rendered
/// decimal text of a number, or a string's own bytes.
pub open spec fn spec_value_text(v: AbsValue) -> Seq<u8> {
    match v {
        AbsValue::Nil => ascii_bytes("nil"@),
        AbsValue::Bool(b) => if b {
            ascii_bytes("true"@)
        } else {
            ascii_bytes("false"@)
        },
        AbsValue::Num(bits) => spec_number_render(bits),
        AbsValue::Str(s) => s,
    }
}

/// Render a value as the text that `print` writes.
pub fn value_text(v: &Value) -> (r: Vec<u8>)
    ensures
        r@ == spec_value_text(v@),
{
    match v {
        Value::Nil => {
            proof {
                reveal_strlit("nil");
            }
            str_byte_vec("nil")
        },
        Value::Bool(b) => {
            proof {
                reveal_strlit("true");
                reveal_strlit("false");
            }
            if *b {
                str_byte_vec("true")
            } else {
                str_byte_vec("false")
            }
        },
        Value::Number(bits) => number_render(*bits),
        Value::Str(s) => clone_bytes(s),
    }
}

} // verus!
