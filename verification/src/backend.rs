//! What a backend builds for each instruction: the rules that choose a
//! machine type for a type and a machine operation for an instruction, by
//! the type the instruction carries. Building is left to the backend.

use vstd::prelude::*;
use crate::ir::{CompareType, Instruction, InstructionType, Op};
use crate::types::Type;

verus! {

/// How a backend lays out a type.
#[derive(Debug)]
pub enum MachineType {
    /// An integer of so many bits.
    Int(u32),
    Float,
    Pointer(Box<MachineType>),
    Array(u64, Box<MachineType>),
    Void,
}

/// The kinds of number.
#[derive(Debug, Clone, Copy, PartialEq, Eq, Structural)]
pub enum Class {
    Signed,
    Unsigned,
    Float,
}

/// How an arithmetic operation treats overflow.
#[derive(Debug, Clone, Copy, PartialEq, Eq, Structural)]
pub enum Flavor {
    /// Integers, wrapping round.
    Wrapping,
    /// Signed integers that must not overflow.
    NoSignedWrap,
    /// Unsigned integers that must not overflow.
    NoUnsignedWrap,
    /// Floating-point numbers.
    Float,
}

/// The comparisons of a backend: equal and not equal, then the signed, the
/// unsigned and the ordered floating-point orders.
#[derive(Debug, Clone, Copy, PartialEq, Eq, Structural)]
pub enum Predicate {
    IntEQ,
    IntNE,
    IntSLT,
    IntSGT,
    IntSLE,
    IntSGE,
    IntULT,
    IntUGT,
    IntULE,
    IntUGE,
    RealOEQ,
    RealONE,
    RealOLT,
    RealOGT,
    RealOLE,
    RealOGE,
}

/// What a backend builds for an instruction.
#[derive(Debug)]
pub enum Step {
    /// An integer constant of the type, read from the text of the `Push`.
    ConstInt(MachineType),
    /// A floating-point constant of the type, read from the text.
    ConstReal(MachineType),
    /// The undefined value.
    Undef,
    /// A pointer to the text as a global string.
    GlobalString,
    /// A load of a value of the type from the variable.
    Load(MachineType),
    Store,
    /// A slot of the type for the variable, filled from the stack.
    Allocate(MachineType),
    Branch(u64, u64),
    Jump(u64),
    Label(u64),
    Call,
    /// A return without a value.
    ReturnVoid,
    /// A return of the value on the stack.
    ReturnValue,
    Negate(Flavor),
    Add(Flavor),
    Subtract(Flavor),
    Multiply(Flavor),
    SignedDivide,
    UnsignedDivide,
    FloatDivide,
    CompareInts(Predicate),
    CompareReals(Predicate),
}

/// The number of bits of an integer type.
pub open spec fn bits(t: Type) -> Option<u32> {
    match t {
        Type::I8 | Type::N8 => Some(8u32),
        Type::I16 | Type::N16 => Some(16u32),
        Type::I32 | Type::N32 => Some(32u32),
        Type::I64 | Type::N64 => Some(64u32),
        Type::I128 | Type::N128 => Some(128u32),
        Type::Bool => Some(1u32),
        _ => None,
    }
}

/// The layout of a type. Literal tags, variables and the elided type have
/// none.
pub open spec fn machine(t: Type) -> Option<MachineType>
    decreases t,
{
    match t {
        Type::F32 | Type::F64 | Type::F128 => Some(MachineType::Float),
        Type::Undefined => Some(MachineType::Void),
        Type::Ptr(inner) => match machine(*inner) {
            Some(m) => Some(MachineType::Pointer(Box::new(m))),
            None => None,
        },
        Type::Array(size, inner) => match machine(*inner) {
            Some(m) => Some(MachineType::Array(size, Box::new(m))),
            None => None,
        },
        _ => match bits(t) {
            Some(n) => Some(MachineType::Int(n)),
            None => None,
        },
    }
}

/// The kind of number that a type is.
pub open spec fn class(t: Type) -> Option<Class> {
    if t.is_signed() {
        Some(Class::Signed)
    } else if t.is_unsigned() {
        Some(Class::Unsigned)
    } else if t.is_float() {
        Some(Class::Float)
    } else {
        None
    }
}

/// How arithmetic on a kind of number treats overflow.
pub open spec fn flavor(c: Class, wrap: bool) -> Flavor {
    match c {
        Class::Float => Flavor::Float,
        Class::Signed => if wrap {
            Flavor::Wrapping
        } else {
            Flavor::NoSignedWrap
        },
        Class::Unsigned => if wrap {
            Flavor::Wrapping
        } else {
            Flavor::NoUnsignedWrap
        },
    }
}

/// The comparison of a backend for a comparison on a kind of number.
pub open spec fn predicate(c: Class, how: CompareType) -> Predicate {
    match c {
        Class::Signed => match how {
            CompareType::EQ => Predicate::IntEQ,
            CompareType::NE => Predicate::IntNE,
            CompareType::LT => Predicate::IntSLT,
            CompareType::GT => Predicate::IntSGT,
            CompareType::LE => Predicate::IntSLE,
            CompareType::GE => Predicate::IntSGE,
        },
        Class::Unsigned => match how {
            CompareType::EQ => Predicate::IntEQ,
            CompareType::NE => Predicate::IntNE,
            CompareType::LT => Predicate::IntULT,
            CompareType::GT => Predicate::IntUGT,
            CompareType::LE => Predicate::IntULE,
            CompareType::GE => Predicate::IntUGE,
        },
        Class::Float => match how {
            CompareType::EQ => Predicate::RealOEQ,
            CompareType::NE => Predicate::RealONE,
            CompareType::LT => Predicate::RealOLT,
            CompareType::GT => Predicate::RealOGT,
            CompareType::LE => Predicate::RealOLE,
            CompareType::GE => Predicate::RealOGE,
        },
    }
}

/// What a backend builds for a `Push` of a type.
pub open spec fn push_step(t: Type) -> Option<Step> {
    match class(t) {
        Some(Class::Float) => Some(Step::ConstReal(MachineType::Float)),
        Some(_) => match bits(t) {
            Some(n) => Some(Step::ConstInt(MachineType::Int(n))),
            None => None,
        },
        None => if t == Type::Undefined {
            Some(Step::Undef)
        } else if t == Type::StrLiteral {
            Some(Step::GlobalString)
        } else {
            None
        },
    }
}

/// What a backend builds for an instruction with a type, if the type fits
/// the instruction.
pub open spec fn step_for(ins: Op, t: Type) -> Option<Step> {
    match ins {
        Op::Push(_) => push_step(t),
        Op::Load(_) => match machine(t) {
            Some(m) => Some(Step::Load(m)),
            None => None,
        },
        Op::Store(_) => Some(Step::Store),
        Op::Allocate(_) => match machine(t) {
            Some(m) => Some(Step::Allocate(m)),
            None => None,
        },
        Op::Branch(a, b) => Some(Step::Branch(a, b)),
        Op::Jump(l) => Some(Step::Jump(l)),
        Op::Label(l) => Some(Step::Label(l)),
        Op::Call(_) => Some(Step::Call),
        Op::Return => if t == Type::Undefined {
            Some(Step::ReturnVoid)
        } else {
            Some(Step::ReturnValue)
        },
        Op::Negate(wrap) => match class(t) {
            Some(c) => Some(Step::Negate(flavor(c, wrap))),
            None => None,
        },
        Op::Add(wrap) => match class(t) {
            Some(c) => Some(Step::Add(flavor(c, wrap))),
            None => None,
        },
        Op::Subtract(wrap) => match class(t) {
            Some(c) => Some(Step::Subtract(flavor(c, wrap))),
            None => None,
        },
        Op::Multiply(wrap) => match class(t) {
            Some(c) => Some(Step::Multiply(flavor(c, wrap))),
            None => None,
        },
        Op::IntDivide => match class(t) {
            Some(Class::Signed) => Some(Step::SignedDivide),
            Some(Class::Unsigned) => Some(Step::UnsignedDivide),
            _ => None,
        },
        Op::Divide => match class(t) {
            Some(Class::Float) => Some(Step::FloatDivide),
            _ => None,
        },
        Op::Compare(how) => match class(t) {
            Some(Class::Float) => Some(Step::CompareReals(predicate(Class::Float, how))),
            Some(c) => Some(Step::CompareInts(predicate(c, how))),
            None => None,
        },
    }
}

/// The layout of a type.
pub fn llvm_type(t: &Type) -> (r: Option<MachineType>)
    ensures
        r == machine(*t),
    decreases *t,
{
    match t {
        Type::I8 | Type::N8 => Some(MachineType::Int(8)),
        Type::I16 | Type::N16 => Some(MachineType::Int(16)),
        Type::I32 | Type::N32 => Some(MachineType::Int(32)),
        Type::I64 | Type::N64 => Some(MachineType::Int(64)),
        Type::I128 | Type::N128 => Some(MachineType::Int(128)),
        Type::Bool => Some(MachineType::Int(1)),
        Type::F32 | Type::F64 | Type::F128 => Some(MachineType::Float),
        Type::Undefined => Some(MachineType::Void),
        Type::Ptr(inner) => match llvm_type(inner) {
            Some(m) => Some(MachineType::Pointer(Box::new(m))),
            None => None,
        },
        Type::Array(size, inner) => match llvm_type(inner) {
            Some(m) => Some(MachineType::Array(*size, Box::new(m))),
            None => None,
        },
        _ => None,
    }
}

/// The kind of number that a type is.
pub fn class_of(t: &Type) -> (r: Option<Class>)
    ensures
        r == class(*t),
{
    match t {
        Type::I8 | Type::I16 | Type::I32 | Type::I64 | Type::I128 => Some(Class::Signed),
        Type::N8 | Type::N16 | Type::N32 | Type::N64 | Type::N128 => Some(Class::Unsigned),
        Type::F32 | Type::F64 | Type::F128 => Some(Class::Float),
        _ => None,
    }
}

/// How arithmetic on a kind of number treats overflow.
pub fn flavor_of(c: Class, wrap: bool) -> (r: Flavor)
    ensures
        r == flavor(c, wrap),
{
    match c {
        Class::Float => Flavor::Float,
        Class::Signed => if wrap {
            Flavor::Wrapping
        } else {
            Flavor::NoSignedWrap
        },
        Class::Unsigned => if wrap {
            Flavor::Wrapping
        } else {
            Flavor::NoUnsignedWrap
        },
    }
}

/// The comparison of a backend for a comparison on a kind of number.
pub fn compare(c: Class, how: CompareType) -> (r: Predicate)
    ensures
        r == predicate(c, how),
{
    match c {
        Class::Signed => match how {
            CompareType::EQ => Predicate::IntEQ,
            CompareType::NE => Predicate::IntNE,
            CompareType::LT => Predicate::IntSLT,
            CompareType::GT => Predicate::IntSGT,
            CompareType::LE => Predicate::IntSLE,
            CompareType::GE => Predicate::IntSGE,
        },
        Class::Unsigned => match how {
            CompareType::EQ => Predicate::IntEQ,
            CompareType::NE => Predicate::IntNE,
            CompareType::LT => Predicate::IntULT,
            CompareType::GT => Predicate::IntUGT,
            CompareType::LE => Predicate::IntULE,
            CompareType::GE => Predicate::IntUGE,
        },
        Class::Float => match how {
            CompareType::EQ => Predicate::RealOEQ,
            CompareType::NE => Predicate::RealONE,
            CompareType::LT => Predicate::RealOLT,
            CompareType::GT => Predicate::RealOGT,
            CompareType::LE => Predicate::RealOLE,
            CompareType::GE => Predicate::RealOGE,
        },
    }
}

/// What a backend builds for a `Push` of a type.
pub fn push(t: &Type) -> (r: Option<Step>)
    ensures
        r == push_step(*t),
{
    match t {
        Type::Undefined => Some(Step::Undef),
        Type::StrLiteral => Some(Step::GlobalString),
        Type::F32 | Type::F64 | Type::F128 => Some(Step::ConstReal(MachineType::Float)),
        _ => match class_of(t) {
            Some(_) => match llvm_type(t) {
                Some(m) => Some(Step::ConstInt(m)),
                None => None,
            },
            None => None,
        },
    }
}

/// What a backend builds for an instruction, by the type it carries. There
/// is nothing to build where the type does not fit the instruction: where
/// arithmetic meets a type that is no number, or a division the wrong kind
/// of number.
pub fn plan(instruction: &Instruction) -> (r: Option<Step>)
    ensures
        r == step_for(instruction@.ins, instruction.typ),
{
    let t = &instruction.typ;
    match &instruction.ins {
        InstructionType::Push(_) => push(t),
        InstructionType::Load(_) => match llvm_type(t) {
            Some(m) => Some(Step::Load(m)),
            None => None,
        },
        InstructionType::Store(_) => Some(Step::Store),
        InstructionType::Allocate(_) => match llvm_type(t) {
            Some(m) => Some(Step::Allocate(m)),
            None => None,
        },
        InstructionType::Branch(a, b) => Some(Step::Branch(*a, *b)),
        InstructionType::Jump(l) => Some(Step::Jump(*l)),
        InstructionType::Label(l) => Some(Step::Label(*l)),
        InstructionType::Call(_) => Some(Step::Call),
        InstructionType::Return => match t {
            Type::Undefined => Some(Step::ReturnVoid),
            _ => Some(Step::ReturnValue),
        },
        InstructionType::Negate(wrap) => match class_of(t) {
            Some(c) => Some(Step::Negate(flavor_of(c, *wrap))),
            None => None,
        },
        InstructionType::Add(wrap) => match class_of(t) {
            Some(c) => Some(Step::Add(flavor_of(c, *wrap))),
            None => None,
        },
        InstructionType::Subtract(wrap) => match class_of(t) {
            Some(c) => Some(Step::Subtract(flavor_of(c, *wrap))),
            None => None,
        },
        InstructionType::Multiply(wrap) => match class_of(t) {
            Some(c) => Some(Step::Multiply(flavor_of(c, *wrap))),
            None => None,
        },
        InstructionType::IntDivide => match class_of(t) {
            Some(Class::Signed) => Some(Step::SignedDivide),
            Some(Class::Unsigned) => Some(Step::UnsignedDivide),
            _ => None,
        },
        InstructionType::Divide => match class_of(t) {
            Some(Class::Float) => Some(Step::FloatDivide),
            _ => None,
        },
        InstructionType::Compare(how) => match class_of(t) {
            Some(Class::Float) => Some(Step::CompareReals(compare(Class::Float, *how))),
            Some(c) => Some(Step::CompareInts(compare(c, *how))),
            None => None,
        },
    }
}

} // verus!
