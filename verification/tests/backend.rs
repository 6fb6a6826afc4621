use elgin::backend::{
    class_of, compare, flavor_of, llvm_type, plan, push, Class, Flavor, MachineType, Predicate,
    Step,
};
use elgin::ir::{CompareType, Instruction, InstructionType};
use elgin::types::Type;

fn step(ins: InstructionType, typ: Type) -> Option<String> {
    plan(&Instruction { ins, typ }).map(|s| format!("{:?}", s))
}

#[test]
fn machine_types() {
    let show = |t: Type| llvm_type(&t).map(|m| format!("{:?}", m));
    assert_eq!(show(Type::I8), Some("Int(8)".into()));
    assert_eq!(show(Type::N16), Some("Int(16)".into()));
    assert_eq!(show(Type::I32), Some("Int(32)".into()));
    assert_eq!(show(Type::N64), Some("Int(64)".into()));
    assert_eq!(show(Type::I128), Some("Int(128)".into()));
    assert_eq!(show(Type::Bool), Some("Int(1)".into()));
    assert_eq!(show(Type::F32), Some("Float".into()));
    assert_eq!(show(Type::F128), Some("Float".into()));
    assert_eq!(show(Type::Undefined), Some("Void".into()));
    assert_eq!(
        show(Type::Ptr(Box::new(Type::Array(4, Box::new(Type::N8))))),
        Some("Pointer(Array(4, Int(8)))".into())
    );
    assert_eq!(show(Type::IntLiteral), None);
    assert_eq!(show(Type::Variable(3)), None);
    assert_eq!(show(Type::Unknown), None);
    assert_eq!(show(Type::NoReturn), None);
    assert_eq!(show(Type::Ptr(Box::new(Type::StrLiteral))), None);
    assert!(matches!(llvm_type(&Type::I8), Some(MachineType::Int(8))));
}

#[test]
fn kinds_of_number() {
    assert_eq!(class_of(&Type::I64), Some(Class::Signed));
    assert_eq!(class_of(&Type::N8), Some(Class::Unsigned));
    assert_eq!(class_of(&Type::F64), Some(Class::Float));
    assert_eq!(class_of(&Type::Bool), None);
    assert_eq!(class_of(&Type::Ptr(Box::new(Type::I8))), None);
}

#[test]
fn overflow_by_kind_and_flag() {
    assert_eq!(flavor_of(Class::Signed, true), Flavor::Wrapping);
    assert_eq!(flavor_of(Class::Signed, false), Flavor::NoSignedWrap);
    assert_eq!(flavor_of(Class::Unsigned, true), Flavor::Wrapping);
    assert_eq!(flavor_of(Class::Unsigned, false), Flavor::NoUnsignedWrap);
    assert_eq!(flavor_of(Class::Float, true), Flavor::Float);
    assert_eq!(flavor_of(Class::Float, false), Flavor::Float);
}

#[test]
fn comparisons_keep_their_direction() {
    assert_eq!(compare(Class::Signed, CompareType::LT), Predicate::IntSLT);
    assert_eq!(compare(Class::Signed, CompareType::GE), Predicate::IntSGE);
    assert_eq!(compare(Class::Unsigned, CompareType::LT), Predicate::IntULT);
    assert_eq!(compare(Class::Unsigned, CompareType::GT), Predicate::IntUGT);
    assert_eq!(compare(Class::Unsigned, CompareType::LE), Predicate::IntULE);
    assert_eq!(compare(Class::Unsigned, CompareType::GE), Predicate::IntUGE);
    assert_eq!(compare(Class::Unsigned, CompareType::EQ), Predicate::IntEQ);
    assert_eq!(compare(Class::Float, CompareType::LT), Predicate::RealOLT);
    assert_eq!(compare(Class::Float, CompareType::GT), Predicate::RealOGT);
    assert_eq!(compare(Class::Float, CompareType::NE), Predicate::RealONE);
}

#[test]
fn what_a_push_builds() {
    assert!(matches!(push(&Type::I16), Some(Step::ConstInt(MachineType::Int(16)))));
    assert!(matches!(push(&Type::N128), Some(Step::ConstInt(MachineType::Int(128)))));
    assert!(matches!(push(&Type::F64), Some(Step::ConstReal(MachineType::Float))));
    assert!(matches!(push(&Type::Undefined), Some(Step::Undef)));
    assert!(matches!(push(&Type::StrLiteral), Some(Step::GlobalString)));
    assert!(push(&Type::Bool).is_none());
    assert!(push(&Type::IntLiteral).is_none());
}

#[test]
fn what_each_instruction_builds() {
    assert_eq!(step(InstructionType::Push("1".into()), Type::I8), Some("ConstInt(Int(8))".into()));
    assert_eq!(step(InstructionType::Load("x".into()), Type::Bool), Some("Load(Int(1))".into()));
    assert_eq!(step(InstructionType::Load("x".into()), Type::Variable(0)), None);
    assert_eq!(step(InstructionType::Store("x".into()), Type::Variable(0)), Some("Store".into()));
    assert_eq!(step(InstructionType::Allocate("x".into()), Type::F32), Some("Allocate(Float)".into()));
    assert_eq!(step(InstructionType::Branch(1, 2), Type::NoReturn), Some("Branch(1, 2)".into()));
    assert_eq!(step(InstructionType::Jump(7), Type::Undefined), Some("Jump(7)".into()));
    assert_eq!(step(InstructionType::Label(7), Type::Undefined), Some("Label(7)".into()));
    assert_eq!(step(InstructionType::Call("f".into()), Type::I8), Some("Call".into()));
    assert_eq!(step(InstructionType::Return, Type::Undefined), Some("ReturnVoid".into()));
    assert_eq!(step(InstructionType::Return, Type::I8), Some("ReturnValue".into()));
    assert_eq!(step(InstructionType::Negate(false), Type::I8), Some("Negate(NoSignedWrap)".into()));
    assert_eq!(step(InstructionType::Add(false), Type::N8), Some("Add(NoUnsignedWrap)".into()));
    assert_eq!(step(InstructionType::Subtract(true), Type::N8), Some("Subtract(Wrapping)".into()));
    assert_eq!(step(InstructionType::Multiply(true), Type::F32), Some("Multiply(Float)".into()));
    assert_eq!(step(InstructionType::Add(false), Type::Bool), None);
    assert_eq!(step(InstructionType::IntDivide, Type::I8), Some("SignedDivide".into()));
    assert_eq!(step(InstructionType::IntDivide, Type::N8), Some("UnsignedDivide".into()));
    assert_eq!(step(InstructionType::IntDivide, Type::F32), None);
    assert_eq!(step(InstructionType::Divide, Type::F32), Some("FloatDivide".into()));
    assert_eq!(step(InstructionType::Divide, Type::I8), None);
    assert_eq!(step(InstructionType::Compare(CompareType::LT), Type::N8), Some("CompareInts(IntULT)".into()));
    assert_eq!(step(InstructionType::Compare(CompareType::LE), Type::I8), Some("CompareInts(IntSLE)".into()));
    assert_eq!(step(InstructionType::Compare(CompareType::GT), Type::F64), Some("CompareReals(RealOGT)".into()));
    assert_eq!(step(InstructionType::Compare(CompareType::EQ), Type::Bool), None);
}
