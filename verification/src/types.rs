//! The types of the language.

use vstd::prelude::*;
use vstd::std_specs::cmp::PartialEqSpecImpl;
use crate::text::{decimal_text, digits};

verus! {

/// A type of the language, or a placeholder that inference resolves.
///
/// `IntLiteral`, `FloatLiteral` and `StrLiteral` tag untyped literals,
/// `Variable` is an inference variable, `Unknown` an annotation the user left
/// out, `Undefined` the unit type and `NoReturn` marks terminal instructions.
#[derive(Debug)]
pub enum Type {
    IntLiteral,
    FloatLiteral,
    StrLiteral,
    I8,
    I16,
    I32,
    I64,
    I128,
    N8,
    N16,
    N32,
    N64,
    N128,
    F32,
    F64,
    F128,
    Bool,
    Variable(u64),
    Unknown,
    Undefined,
    NoReturn,
    Ptr(Box<Type>),
    Array(u64, Box<Type>),
}

impl Clone for Type {
    fn clone(&self) -> (r: Self)
        ensures
            r == *self,
        decreases *self,
    {
        match self {
            Type::IntLiteral => Type::IntLiteral,
            Type::FloatLiteral => Type::FloatLiteral,
            Type::StrLiteral => Type::StrLiteral,
            Type::I8 => Type::I8,
            Type::I16 => Type::I16,
            Type::I32 => Type::I32,
            Type::I64 => Type::I64,
            Type::I128 => Type::I128,
            Type::N8 => Type::N8,
            Type::N16 => Type::N16,
            Type::N32 => Type::N32,
            Type::N64 => Type::N64,
            Type::N128 => Type::N128,
            Type::F32 => Type::F32,
            Type::F64 => Type::F64,
            Type::F128 => Type::F128,
            Type::Bool => Type::Bool,
            Type::Variable(n) => Type::Variable(*n),
            Type::Unknown => Type::Unknown,
            Type::Undefined => Type::Undefined,
            Type::NoReturn => Type::NoReturn,
            Type::Ptr(t) => Type::Ptr(Box::new((**t).clone())),
            Type::Array(n, t) => Type::Array(*n, Box::new((**t).clone())),
        }
    }
}

/// How a type is written: a primitive by its name, a pointer as `*T`, an
/// array as `[N]T`, a type variable as `$` and its number.
pub open spec fn written_type(t: Type) -> Seq<char>
    decreases t,
{
    match t {
        Type::IntLiteral => "intLiteral"@,
        Type::FloatLiteral => "floatLiteral"@,
        Type::StrLiteral => "strLiteral"@,
        Type::I8 => "i8"@,
        Type::I16 => "i16"@,
        Type::I32 => "i32"@,
        Type::I64 => "i64"@,
        Type::I128 => "i128"@,
        Type::N8 => "n8"@,
        Type::N16 => "n16"@,
        Type::N32 => "n32"@,
        Type::N64 => "n64"@,
        Type::N128 => "n128"@,
        Type::F32 => "f32"@,
        Type::F64 => "f64"@,
        Type::F128 => "f128"@,
        Type::Bool => "bool"@,
        Type::Variable(n) => "$"@ + digits(n as nat),
        Type::Unknown => "UNKNOWN"@,
        Type::Undefined => "undefined"@,
        Type::NoReturn => "noreturn"@,
        Type::Ptr(inner) => "*"@ + written_type(*inner),
        Type::Array(size, inner) => "["@ + digits(size as nat) + "]"@ + written_type(*inner),
    }
}

/// True if every type variable in the type has a number less than `n`:
/// the type holds only variables that were taken from a counter that stands
/// at `n`.
pub open spec fn below(t: Type, n: u64) -> bool
    decreases t,
{
    match t {
        Type::Variable(i) => i < n,
        Type::Ptr(inner) => below(*inner, n),
        Type::Array(_, inner) => below(*inner, n),
        _ => true,
    }
}

/// A type below a counter is below every later one.
pub proof fn lemma_below_later(t: Type, n: u64, m: u64)
    requires
        below(t, n),
        n <= m,
    ensures
        below(t, m),
    decreases t,
{
    match t {
        Type::Ptr(inner) => lemma_below_later(*inner, n, m),
        Type::Array(_, inner) => lemma_below_later(*inner, n, m),
        _ => {},
    }
}

impl Type {
    /// True if every type variable in the type has a number less than `n`.
    pub fn is_below(&self, n: u64) -> (r: bool)
        ensures
            r == below(*self, n),
        decreases *self,
    {
        match self {
            Type::Variable(i) => *i < n,
            Type::Ptr(inner) => inner.is_below(n),
            Type::Array(_, inner) => inner.is_below(n),
            _ => true,
        }
    }

    /// The type as it is written.
    pub fn name(&self) -> (r: String)
        ensures
            r@ == written_type(*self),
        decreases *self,
    {
        match self {
            Type::IntLiteral => String::from_str("intLiteral"),
            Type::FloatLiteral => String::from_str("floatLiteral"),
            Type::StrLiteral => String::from_str("strLiteral"),
            Type::I8 => String::from_str("i8"),
            Type::I16 => String::from_str("i16"),
            Type::I32 => String::from_str("i32"),
            Type::I64 => String::from_str("i64"),
            Type::I128 => String::from_str("i128"),
            Type::N8 => String::from_str("n8"),
            Type::N16 => String::from_str("n16"),
            Type::N32 => String::from_str("n32"),
            Type::N64 => String::from_str("n64"),
            Type::N128 => String::from_str("n128"),
            Type::F32 => String::from_str("f32"),
            Type::F64 => String::from_str("f64"),
            Type::F128 => String::from_str("f128"),
            Type::Bool => String::from_str("bool"),
            Type::Variable(n) => {
                let mut s = String::from_str("$");
                s.append(decimal_text(*n).as_str());
                s
            },
            Type::Unknown => String::from_str("UNKNOWN"),
            Type::Undefined => String::from_str("undefined"),
            Type::NoReturn => String::from_str("noreturn"),
            Type::Ptr(inner) => {
                let mut s = String::from_str("*");
                s.append(inner.name().as_str());
                s
            },
            Type::Array(size, inner) => {
                let mut s = String::from_str("[");
                s.append(decimal_text(*size).as_str());
                s.append("]");
                s.append(inner.name().as_str());
                s
            },
        }
    }

    /// Structural equality of two types.
    pub fn same(&self, other: &Type) -> (r: bool)
        ensures
            r == (*self == *other),
        decreases *self,
    {
        match self {
            Type::IntLiteral => matches!(other, Type::IntLiteral),
            Type::FloatLiteral => matches!(other, Type::FloatLiteral),
            Type::StrLiteral => matches!(other, Type::StrLiteral),
            Type::I8 => matches!(other, Type::I8),
            Type::I16 => matches!(other, Type::I16),
            Type::I32 => matches!(other, Type::I32),
            Type::I64 => matches!(other, Type::I64),
            Type::I128 => matches!(other, Type::I128),
            Type::N8 => matches!(other, Type::N8),
            Type::N16 => matches!(other, Type::N16),
            Type::N32 => matches!(other, Type::N32),
            Type::N64 => matches!(other, Type::N64),
            Type::N128 => matches!(other, Type::N128),
            Type::F32 => matches!(other, Type::F32),
            Type::F64 => matches!(other, Type::F64),
            Type::F128 => matches!(other, Type::F128),
            Type::Bool => matches!(other, Type::Bool),
            Type::Unknown => matches!(other, Type::Unknown),
            Type::Undefined => matches!(other, Type::Undefined),
            Type::NoReturn => matches!(other, Type::NoReturn),
            Type::Variable(n) => match other {
                Type::Variable(m) => *n == *m,
                _ => false,
            },
            Type::Ptr(t) => match other {
                Type::Ptr(u) => t.same(u),
                _ => false,
            },
            Type::Array(n, t) => match other {
                Type::Array(m, u) => *n == *m && t.same(u),
                _ => false,
            },
        }
    }

    /// True of the three tags that untyped literals carry.
    pub open spec fn is_literal_tag(self) -> bool {
        self == Type::IntLiteral || self == Type::FloatLiteral || self == Type::StrLiteral
    }

    /// True of a signed integer type.
    pub open spec fn is_signed(self) -> bool {
        self == Type::I8 || self == Type::I16 || self == Type::I32 || self == Type::I64 || self
            == Type::I128
    }

    /// True of an unsigned integer type.
    pub open spec fn is_unsigned(self) -> bool {
        self == Type::N8 || self == Type::N16 || self == Type::N32 || self == Type::N64 || self
            == Type::N128
    }

    /// True of a floating-point type.
    pub open spec fn is_float(self) -> bool {
        self == Type::F32 || self == Type::F64 || self == Type::F128
    }
}

impl PartialEq for Type {
    fn eq(&self, other: &Type) -> (r: bool) {
        self.same(other)
    }
}

impl PartialEqSpecImpl for Type {
    open spec fn obeys_eq_spec() -> bool {
        true
    }

    open spec fn eq_spec(&self, other: &Type) -> bool {
        *self == *other
    }
}

impl Eq for Type {

}

} // verus!
