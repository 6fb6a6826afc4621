use elgin::analysis::{
    add_constraint, substitute_constraints, substitute_proc_body, sweep_constraints,
};
use elgin::astgen::Node;
use elgin::errors::{ErrorType, Logger, Span};
use elgin::ir::{spanned, IRBuilder, IRProc, Instruction, InstructionType};
use elgin::lexer::{Lexer, Token};
use elgin::parser::Parser;
use elgin::types::Type;

fn parse(src: &str) -> Vec<Span<Node>> {
    let chars: Vec<char> = src.chars().collect();
    let mut log = Logger::new();
    let tokens: Vec<Span<Token>> = Lexer::new(&chars).go(&mut log).expect("the text lexes");
    let ast = Parser::new(&tokens).go(&mut log).expect("the text parses");
    assert_eq!(log.count(), 0);
    ast
}

fn listing(p: &IRProc) -> Vec<String> {
    p.body.iter().map(|i| format!("{:?}: {:?}", i.contents.ins, i.contents.typ)).collect()
}

/// The listings of the procedures of a text after inference.
fn infer(src: &str) -> Vec<Vec<String>> {
    let ast = parse(src);
    let mut log = Logger::new();
    let mut unit = IRBuilder::new(&ast);
    assert!(unit.go(&mut log).is_some());
    assert!(unit.analyze(&mut log).is_some());
    assert_eq!(log.count(), 0);
    unit.procs().iter().map(listing).collect()
}

fn ins(ins: InstructionType, typ: Type) -> Span<Instruction> {
    spanned(Instruction { ins, typ }, 3, 4)
}

fn var(n: u64) -> Type {
    Type::Variable(n)
}

#[test]
fn equal_types_add_no_constraint() {
    let mut next = 5;
    let mut cs = Vec::new();
    assert!(add_constraint(&mut next, &mut cs, Type::I8, Type::I8));
    assert!(add_constraint(&mut next, &mut cs, Type::Unknown, Type::Unknown));
    assert!(add_constraint(&mut next, &mut cs, var(1), var(1)));
    assert!(cs.is_empty());
    assert_eq!(next, 5);
}

#[test]
fn string_literals_and_undefined_add_no_constraint() {
    let mut next = 5;
    let mut cs = Vec::new();
    assert!(add_constraint(&mut next, &mut cs, Type::StrLiteral, Type::Ptr(Box::new(Type::I8))));
    assert!(add_constraint(&mut next, &mut cs, Type::I8, Type::StrLiteral));
    assert!(add_constraint(&mut next, &mut cs, Type::Undefined, Type::I8));
    assert!(add_constraint(&mut next, &mut cs, var(0), Type::Undefined));
    assert!(cs.is_empty());
    assert_eq!(next, 5);
}

#[test]
fn an_elided_type_takes_a_variable_even_where_nothing_is_stored() {
    let mut next = 5;
    let mut cs = Vec::new();
    assert!(add_constraint(&mut next, &mut cs, Type::Unknown, Type::Undefined));
    assert_eq!(next, 6);
    assert!(add_constraint(&mut next, &mut cs, Type::StrLiteral, Type::Unknown));
    assert_eq!(next, 7);
    assert!(cs.is_empty());
}

#[test]
fn a_variable_is_never_paired_with_itself() {
    let mut next = 5;
    let mut cs = Vec::new();
    // the fresh variable is the one it is made equal to
    assert!(add_constraint(&mut next, &mut cs, Type::Unknown, var(5)));
    assert!(cs.is_empty());
    assert_eq!(next, 6);
    assert!(add_constraint(&mut next, &mut cs, var(6), Type::Unknown));
    assert!(cs.is_empty());
    assert_eq!(next, 7);
    // another variable is stored
    assert!(add_constraint(&mut next, &mut cs, Type::Unknown, var(5)));
    assert_eq!(cs, vec![(var(5), var(7))]);
    assert_eq!(next, 8);
    for (l, r) in &cs {
        assert_ne!(l, r);
    }
}

#[test]
fn an_elided_type_gives_way_to_a_fresh_variable() {
    let mut next = 5;
    let mut cs = Vec::new();
    assert!(add_constraint(&mut next, &mut cs, Type::Unknown, Type::I8));
    assert!(add_constraint(&mut next, &mut cs, Type::I16, Type::Unknown));
    assert_eq!(cs, vec![(var(5), Type::I8), (var(6), Type::I16)]);
    assert_eq!(next, 7);
}

#[test]
fn variables_and_literal_tags_go_to_the_left() {
    let mut next = 0;
    let mut cs = Vec::new();
    assert!(add_constraint(&mut next, &mut cs, Type::I8, var(1)));
    assert!(add_constraint(&mut next, &mut cs, var(2), Type::I8));
    assert!(add_constraint(&mut next, &mut cs, var(3), var(4)));
    assert!(add_constraint(&mut next, &mut cs, Type::I8, Type::IntLiteral));
    assert!(add_constraint(&mut next, &mut cs, Type::F32, Type::FloatLiteral));
    assert!(add_constraint(&mut next, &mut cs, Type::IntLiteral, Type::I8));
    assert!(add_constraint(&mut next, &mut cs, var(5), Type::IntLiteral));
    assert!(add_constraint(&mut next, &mut cs, Type::IntLiteral, var(5)));
    assert!(add_constraint(&mut next, &mut cs, Type::I8, Type::F64));
    assert_eq!(
        cs,
        vec![
            (var(1), Type::I8),
            (var(2), Type::I8),
            (var(4), var(3)),
            (Type::IntLiteral, Type::I8),
            (Type::FloatLiteral, Type::F32),
            (Type::IntLiteral, Type::I8),
            (Type::IntLiteral, var(5)),
            (var(5), Type::IntLiteral),
            (Type::I8, Type::F64),
        ]
    );
    assert_eq!(next, 0);
}

#[test]
fn no_type_variable_left() {
    let mut next = u64::MAX;
    let mut cs = vec![(var(0), Type::I8)];
    assert!(!add_constraint(&mut next, &mut cs, Type::Unknown, Type::I8));
    assert_eq!(cs.len(), 1);
    assert_eq!(next, u64::MAX);
    assert!(add_constraint(&mut next, &mut cs, Type::I16, Type::I8));
    assert_eq!(cs.len(), 2);
}

#[test]
fn substitution_rewrites_exact_matches_only() {
    let body = vec![
        ins(InstructionType::Push("1".into()), var(0)),
        ins(InstructionType::Load("p".into()), Type::Ptr(Box::new(var(0)))),
        ins(InstructionType::Return, var(1)),
    ];
    let out = substitute_proc_body(body, &var(0), &Type::I8);
    assert_eq!(out.len(), 3);
    assert_eq!(out[0].contents.typ, Type::I8);
    assert_eq!(out[1].contents.typ, Type::Ptr(Box::new(var(0))));
    assert_eq!(out[2].contents.typ, var(1));
    assert!(matches!(&out[0].contents.ins, InstructionType::Push(s) if s == "1"));
    assert!(matches!(&out[1].contents.ins, InstructionType::Load(s) if s == "p"));
    assert_eq!((out[2].pos, out[2].len), (3, 4));

    let cs = vec![(var(0), var(1)), (var(2), var(0)), (Type::I8, Type::I16)];
    assert_eq!(
        substitute_constraints(&cs, &var(0), &Type::Bool),
        vec![(Type::Bool, var(1)), (var(2), Type::Bool), (Type::I8, Type::I16)]
    );
}

#[test]
fn a_sweep_rewrites_the_constraints_that_follow() {
    let body = vec![
        ins(InstructionType::Push("1".into()), Type::IntLiteral),
        ins(InstructionType::Add(false), var(0)),
        ins(InstructionType::Return, var(1)),
    ];
    let cs = vec![(var(0), Type::IntLiteral), (var(0), var(1)), (var(1), Type::I32)];
    let (out, rest) = sweep_constraints(body, cs);
    let types: Vec<Type> = out.iter().map(|i| i.contents.typ.clone()).collect();
    assert_eq!(types, vec![Type::I32, Type::I32, Type::I32]);
    assert_eq!(
        rest,
        vec![(var(0), Type::IntLiteral), (Type::IntLiteral, var(1)), (var(1), Type::I32)]
    );
}

#[test]
fn literals_without_a_constraint_take_their_defaults() {
    let code = infer("proc f() {\n 1\n 2.5\n \"s\"\n}\n");
    assert_eq!(
        code[1],
        vec![
            "Push(\"1\"): I64",
            "Push(\"2.5\"): F64",
            "Push(\"s\"): StrLiteral",
            "Push(\"undefined\"): Undefined",
            "Return: Undefined",
        ]
    );
}

#[test]
fn a_declared_type_reaches_the_literal() {
    let code = infer("proc f() {\n var a: n8 = 1\n var b: f32 = 2.5\n a = 3\n}\n");
    assert_eq!(
        code[1],
        vec![
            "Push(\"1\"): N8",
            "Allocate(\"a\"): N8",
            "Push(\"2.5\"): F32",
            "Allocate(\"b\"): F32",
            "Push(\"3\"): N8",
            "Store(\"a\"): N8",
            "Push(\"undefined\"): Undefined",
            "Return: Undefined",
        ]
    );
}

#[test]
fn arguments_take_the_types_of_the_parameters() {
    let code = infer(
        "proc g(a: i16, b: f32): n8\nproc f(): n8 {\n var x = 1\n var y = g(x, 2.0)\n return y\n}\n",
    );
    assert_eq!(
        code[2],
        vec![
            "Push(\"1\"): I16",
            "Allocate(\"x\"): I16",
            "Load(\"x\"): I16",
            "Push(\"2.0\"): F32",
            "Call(\"g\"): N8",
            "Allocate(\"y\"): N8",
            "Load(\"y\"): N8",
            "Return: N8",
        ]
    );
}

#[test]
fn negation_keeps_the_type_of_its_operand() {
    let code = infer("proc f(a: i16): i16 { return -a }\n");
    assert_eq!(code[1], vec!["Load(\"a\"): I16", "Negate(false): I16", "Return: I16"]);
}

#[test]
fn control_flow_instructions_keep_their_types() {
    let code = infer("proc f(a: bool): i8 {\n if a { return 1 } else { return 2 }\n}\n");
    assert_eq!(code[1][1], "Branch(0, 1): NoReturn");
    assert_eq!(code[1][2], "Label(0): Undefined");
    assert_eq!(code[1][3], "Push(\"1\"): I8");
}

#[test]
fn uses_carry_the_type_of_the_allocation_after_inference() {
    let ast = parse(
        "proc f(n: i32): i32 {\n var i = 0\n var t = 1.5\n while i < n { i = i + 1\n t = t }\n var i: bool = n > 0\n if i { return 1 }\n return n\n}\n",
    );
    let mut log = Logger::new();
    let mut unit = IRBuilder::new(&ast);
    assert!(unit.go(&mut log).is_some());
    assert!(unit.analyze(&mut log).is_some());
    let body = &unit.procs()[1].body;
    let mut bound: Vec<(String, Type)> = Vec::new();
    let mut seen = 0;
    for i in body {
        match &i.contents.ins {
            InstructionType::Allocate(v) => bound.push((v.clone(), i.contents.typ.clone())),
            InstructionType::Load(v) | InstructionType::Store(v) => {
                if let Some((_, t)) = bound.iter().rev().find(|(name, _)| name == v) {
                    assert_eq!(i.contents.typ, *t);
                    seen += 1;
                }
            }
            _ => {}
        }
        assert_ne!(i.contents.typ, Type::Unknown);
    }
    assert_eq!(seen, 6);
    assert_eq!(bound[0], ("i".to_string(), Type::I32));
    assert_eq!(bound[1], ("t".to_string(), Type::Variable(1)));
    assert_eq!(bound[2], ("i".to_string(), Type::Bool));
}

#[test]
fn too_few_arguments_are_reported() {
    let ast = parse("proc g(a: i16, b: i16): i16\nproc f(): i16 { return g(1) }\n");
    let mut log = Logger::new();
    let mut unit = IRBuilder::new(&ast);
    assert!(unit.go(&mut log).is_some());
    assert!(unit.analyze(&mut log).is_none());
    assert_eq!(log.count(), 1);
    assert_eq!(log.errors[0].typ, ErrorType::SyntaxError);
    assert_eq!(log.errors[0].msg, "An instruction needs more values than the stack holds");
    // the call stands at `g`
    assert_eq!((log.errors[0].pos, log.errors[0].len), (51, 1));
}

#[test]
fn a_failed_analysis_changes_no_procedure() {
    // `f` can be inferred, `h` calls `g` with too few arguments
    let ast = parse(
        "proc g(a: i16, b: i16): i16\nproc f(): i16 { return 1 }\nproc h(): i16 { return g(1) }\n",
    );
    let mut log = Logger::new();
    let mut unit = IRBuilder::new(&ast);
    assert!(unit.go(&mut log).is_some());
    let before: Vec<Vec<String>> = unit.procs().iter().map(listing).collect();
    assert_eq!(before[2], vec!["Push(\"1\"): IntLiteral", "Return: IntLiteral"]);
    assert!(unit.analyze(&mut log).is_none());
    assert_eq!(log.count(), 1);
    let after: Vec<Vec<String>> = unit.procs().iter().map(listing).collect();
    assert_eq!(before, after);
    assert!(unit.built);
}

#[test]
fn analysis_changes_types_only() {
    let ast = parse("proc f(n: i32): i32 {\n var i = 0\n while i < n { i = i + 1 }\n return i\n}\n");
    let mut log = Logger::new();
    let mut unit = IRBuilder::new(&ast);
    assert!(unit.go(&mut log).is_some());
    let shape = |p: &IRProc| -> Vec<String> {
        p.body.iter().map(|i| format!("{:?} {} {}", i.contents.ins, i.pos, i.len)).collect()
    };
    let before: Vec<Vec<String>> = unit.procs().iter().map(shape).collect();
    let names: Vec<String> = unit.procs().iter().map(|p| p.name.clone()).collect();
    assert!(unit.analyze(&mut log).is_some());
    let after: Vec<Vec<String>> = unit.procs().iter().map(shape).collect();
    assert_eq!(before, after);
    assert_eq!(names, unit.procs().iter().map(|p| p.name.clone()).collect::<Vec<_>>());
    assert_eq!(unit.procs()[1].arg_types, vec![Type::I32]);
    assert_eq!(unit.procs()[1].ret_type, Type::I32);
}

#[test]
fn analysis_before_lowering_does_nothing() {
    let ast = parse("proc f(): i16 { return 1 }\n");
    let mut log = Logger::new();
    let mut unit = IRBuilder::new(&ast);
    assert!(unit.analyze(&mut log).is_none());
    assert_eq!(log.count(), 0);
    assert!(unit.procs().is_empty());
}

#[test]
fn a_clash_of_types_keeps_the_last_rewrite() {
    let code = infer("proc f(a: i8): f64 { return a }\n");
    assert_eq!(code[1], vec!["Load(\"a\"): F64", "Return: F64"]);
}

#[test]
fn a_literal_bound_to_an_open_variable_takes_its_variable() {
    let code = infer("proc f() {\n var a = 1\n}\n");
    assert_eq!(code[1][0], "Push(\"1\"): Variable(0)");
    assert_eq!(code[1][1], "Allocate(\"a\"): Variable(0)");
}

#[test]
fn a_variable_without_any_use_stays_a_variable() {
    let code = infer("proc f(a: i8) {\n var x\n}\n");
    assert_eq!(
        code[1],
        vec![
            "Push(\"undefined\"): Undefined",
            "Allocate(\"x\"): Variable(0)",
            "Push(\"undefined\"): Undefined",
            "Return: Undefined",
        ]
    );
}

#[test]
fn locals_of_one_procedure_are_seen_by_the_next() {
    let ast = parse("proc f() {\n var x: i8 = 1\n}\nproc g(): i8 { return x }\n");
    let mut log = Logger::new();
    let mut unit = IRBuilder::new(&ast);
    assert!(unit.go(&mut log).is_some());
    assert!(unit.analyze(&mut log).is_some());
    assert_eq!(listing(&unit.procs()[2]), vec!["Load(\"x\"): I8", "Return: I8"]);
    assert_eq!(unit.scopes.len(), 3);
}
