//! The values the virtual machine computes with.
use vstd::prelude::*;

verus! {

/// A value of the virtual machine. Heap values hold the key of their slot.
#[derive(Debug, Clone, Copy)]
pub enum Variable {
    /// A number, as the bits of an IEEE-754 double.
    Float(u64),
    /// Boolean, true/false
    Boolean(bool),
    /// The key of a heap allocated function/chunk
    Function(usize),
    /// The key of a heap allocated array
    Array(usize),
    /// The key of a heap allocated table
    Table(usize),
    /// The key of a heap allocated (interned) string
    String(usize),
    /// Represents nothing, also known as null and none
    Nil,
}

/// The bits of a NaN: every exponent bit set and a non-zero mantissa.
pub open spec fn is_nan(b: u64) -> bool {
    (b / 0x10_0000_0000_0000) % 0x800 == 0x7ff && b % 0x10_0000_0000_0000 != 0
}

/// The bits of a zero, positive or negative.
pub open spec fn is_zero(b: u64) -> bool {
    b % 0x8000_0000_0000_0000 == 0
}

/// IEEE-754 equality of two doubles given by their bits: no NaN equals anything,
/// and the two zeros are equal.
pub open spec fn float_eq(a: u64, b: u64) -> bool {
    !is_nan(a) && !is_nan(b) && (a == b || (is_zero(a) && is_zero(b)))
}

/// Equality of values: numbers as doubles, everything else by variant and payload.
pub open spec fn spec_is_equal(x: Variable, y: Variable) -> bool {
    match (x, y) {
        (Variable::Float(a), Variable::Float(b)) => float_eq(a, b),
        (Variable::Boolean(a), Variable::Boolean(b)) => a == b,
        (Variable::Function(a), Variable::Function(b)) => a == b,
        (Variable::Array(a), Variable::Array(b)) => a == b,
        (Variable::Table(a), Variable::Table(b)) => a == b,
        (Variable::String(a), Variable::String(b)) => a == b,
        (Variable::Nil, Variable::Nil) => true,
        _ => false,
    }
}

/// Equality of values is symmetric, and every value but a NaN equals itself.
pub proof fn lemma_is_equal_laws(x: Variable, y: Variable)
    ensures
        spec_is_equal(x, y) == spec_is_equal(y, x),
        !(x matches Variable::Float(b) && is_nan(b)) ==> spec_is_equal(x, x),
{
}

/// Equality of anything but numbers is identity: a value that is not a number equals
/// exactly the values with its variant and its payload (`true` equals `true` and not
/// `false`; two strings, arrays, tables or functions are equal when they are the same one).
pub proof fn lemma_is_equal_identity(x: Variable, y: Variable)
    requires
        !(x is Float),
    ensures
        spec_is_equal(x, y) == (x == y),
{
}

/// Only `nil` and `false` are falsy: a value tests false in a condition exactly when
/// it is one of those two.
pub proof fn lemma_truthy_laws(v: Variable)
    ensures
        !spec_is_truthy(v) == (v == Variable::Nil || v == Variable::Boolean(false)),
{
}

/// The name of a value's type.
pub open spec fn spec_type_label(v: Variable) -> Seq<char> {
    match v {
        Variable::Float(_) => "number"@,
        Variable::Boolean(_) => "boolean"@,
        Variable::Function(_) => "function"@,
        Variable::String(_) => "string"@,
        Variable::Array(_) => "array"@,
        Variable::Table(_) => "table"@,
        Variable::Nil => "nil"@,
    }
}

/// Everything but nil and false is truthy.
pub open spec fn spec_is_truthy(v: Variable) -> bool {
    match v {
        Variable::Nil => false,
        Variable::Boolean(b) => b,
        _ => true,
    }
}

fn float_bits_eq(a: u64, b: u64) -> (r: bool)
    ensures
        r == float_eq(a, b),
{
    let a_nan = (a / 0x10_0000_0000_0000) % 0x800 == 0x7ff && a % 0x10_0000_0000_0000 != 0;
    let b_nan = (b / 0x10_0000_0000_0000) % 0x800 == 0x7ff && b % 0x10_0000_0000_0000 != 0;
    !a_nan && !b_nan && (a == b || (a % 0x8000_0000_0000_0000 == 0 && b % 0x8000_0000_0000_0000 == 0))
}

impl Variable {
    pub fn type_label(&self) -> (s: &'static str)
        ensures
            s@ == spec_type_label(*self),
    {
        match self {
            Variable::Float(_) => "number",
            Variable::Boolean(_) => "boolean",
            Variable::Function(_) => "function",
            Variable::String(_) => "string",
            Variable::Array(_) => "array",
            Variable::Table(_) => "table",
            Variable::Nil => "nil",
        }
    }

    /// Checks if a variable is truthy according to VM rules
    pub fn is_truthy(&self) -> (b: bool)
        ensures
            b == spec_is_truthy(*self),
    {
        match self {
            Variable::Nil => false,
            Variable::Boolean(b) => *b,
            // Everything other than nil and false is truthy
            _ => true,
        }
    }

    /// Checks if a variable is equal to another variable.
    /// Strings compare by key: interning gives equal strings the same key.
    pub fn is_equal(&self, other: &Variable) -> (b: bool)
        ensures
            b == spec_is_equal(*self, *other),
    {
        match (self, other) {
            (Variable::Float(a), Variable::Float(b)) => float_bits_eq(*a, *b),
            (Variable::Boolean(a), Variable::Boolean(b)) => *a == *b,
            (Variable::Function(a), Variable::Function(b)) => *a == *b,
            (Variable::Array(a), Variable::Array(b)) => *a == *b,
            (Variable::Table(a), Variable::Table(b)) => *a == *b,
            (Variable::String(a), Variable::String(b)) => *a == *b,
            (Variable::Nil, Variable::Nil) => true,
            _ => false,
        }
    }
}

/// A table key. Numbers are keyed by value: a whole non-negative number that a
/// `usize` holds by its value, any other number (but NaN, which is never a key)
/// by its bits, with negative zero taken as zero.
#[derive(Debug, Clone, Copy, PartialEq, Eq, Structural)]
pub enum Key {
    Whole(usize),
    Number(u64),
    Boolean(bool),
    Function(usize),
    Array(usize),
    Table(usize),
    String(usize),
    Nil,
}

/// The integer a key is stored under: a tag above 64 bits of payload.
pub open spec fn key_code(k: Key) -> u128 {
    match k {
        Key::Whole(n) => (0x1_0000_0000_0000_0000 * 0 + n) as u128,
        Key::Number(b) => (0x1_0000_0000_0000_0000 * 1 + b) as u128,
        Key::Boolean(b) => (0x1_0000_0000_0000_0000 * 2 + if b { 1int } else { 0 }) as u128,
        Key::Function(n) => (0x1_0000_0000_0000_0000 * 3 + n) as u128,
        Key::Array(n) => (0x1_0000_0000_0000_0000 * 4 + n) as u128,
        Key::Table(n) => (0x1_0000_0000_0000_0000 * 5 + n) as u128,
        Key::String(n) => (0x1_0000_0000_0000_0000 * 6 + n) as u128,
        Key::Nil => (0x1_0000_0000_0000_0000 * 7) as u128,
    }
}

/// Different keys are stored under different integers.
pub proof fn lemma_key_code_injective(a: Key, b: Key)
    ensures
        key_code(a) == key_code(b) ==> a == b,
{
    assert(usize::MAX < 0x1_0000_0000_0000_0000);
}

/// The integer a key is stored under.
pub fn code_of(k: Key) -> (c: u128)
    ensures
        c == key_code(k),
{
    proof {
        assert(usize::MAX < 0x1_0000_0000_0000_0000);
    }
    match k {
        Key::Whole(n) => n as u128,
        Key::Number(b) => 0x1_0000_0000_0000_0000 + b as u128,
        Key::Boolean(b) => 0x2_0000_0000_0000_0000 + if b { 1u128 } else { 0u128 },
        Key::Function(n) => 0x3_0000_0000_0000_0000 + n as u128,
        Key::Array(n) => 0x4_0000_0000_0000_0000 + n as u128,
        Key::Table(n) => 0x5_0000_0000_0000_0000 + n as u128,
        Key::String(n) => 0x6_0000_0000_0000_0000 + n as u128,
        Key::Nil => 0x7_0000_0000_0000_0000,
    }
}

/// The key of a value that is not a number.
pub open spec fn spec_key_of(v: Variable) -> Option<Key> {
    match v {
        Variable::Float(_) => None,
        Variable::Boolean(b) => Some(Key::Boolean(b)),
        Variable::Function(n) => Some(Key::Function(n)),
        Variable::Array(n) => Some(Key::Array(n)),
        Variable::Table(n) => Some(Key::Table(n)),
        Variable::String(n) => Some(Key::String(n)),
        Variable::Nil => Some(Key::Nil),
    }
}

/// The key of a value that is not a number; a number's key depends on its value as a
/// double, which the host works out.
pub fn key_of(v: Variable) -> (k: Option<Key>)
    ensures
        k == spec_key_of(v),
{
    match v {
        Variable::Float(_) => None,
        Variable::Boolean(b) => Some(Key::Boolean(b)),
        Variable::Function(n) => Some(Key::Function(n)),
        Variable::Array(n) => Some(Key::Array(n)),
        Variable::Table(n) => Some(Key::Table(n)),
        Variable::String(n) => Some(Key::String(n)),
        Variable::Nil => Some(Key::Nil),
    }
}

} // verus!
