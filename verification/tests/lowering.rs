use elgin::astgen::Node;
use elgin::errors::{ErrorType, Logger, Span};
use elgin::ir::{spanned, CompareType, IRBuilder, IRProc, Instruction, InstructionType};
use elgin::irgen::{ends_with_return, infix_instruction, prefix_instruction};
use elgin::lexer::{Lexer, Token};
use elgin::parser::Parser;
use elgin::types::Type;

fn parse(src: &str) -> Vec<Span<Node>> {
    let chars: Vec<char> = src.chars().collect();
    let mut log = Logger::new();
    let tokens: Vec<Span<Token>> = Lexer::new(&chars).go(&mut log).expect("the text lexes");
    let ast = Parser::new(&tokens).go(&mut log).expect("the text parses");
    assert_eq!(log.count(), 0);
    ast
}

/// The instructions of a procedure, each written as `ins: type`.
fn listing(p: &IRProc) -> Vec<String> {
    p.body.iter().map(|i| format!("{:?}: {:?}", i.contents.ins, i.contents.typ)).collect()
}

fn lower(src: &str) -> Vec<Vec<String>> {
    let ast = parse(src);
    let mut log = Logger::new();
    let mut unit = IRBuilder::new(&ast);
    let procs = unit.go(&mut log).expect("the module lowers");
    assert_eq!(log.count(), 0);
    procs.iter().map(listing).collect()
}

fn failure(src: &str) -> (ErrorType, String) {
    let ast = parse(src);
    let mut log = Logger::new();
    let mut unit = IRBuilder::new(&ast);
    assert!(unit.go(&mut log).is_none());
    assert!(!unit.built);
    assert_eq!(log.count(), 1);
    (log.errors[0].typ, log.errors[0].msg.clone())
}

fn at(contents: Node) -> Span<Node> {
    Span { contents, pos: 7, len: 3 }
}

fn literal(typ: Type, value: &str) -> Span<Node> {
    at(Node::Literal { typ, value: value.to_string() })
}

fn procedure(name: &str, ret_type: Type, nodes: Vec<Span<Node>>) -> Span<Node> {
    at(Node::ProcStatement {
        name: name.to_string(),
        args: vec![],
        arg_types: vec![],
        ret_type,
        body: Box::new(at(Node::Block { nodes })),
    })
}

#[test]
fn operators_become_instructions() {
    let code = lower(
        "proc f(a: i32, b: i32): i32 {\n a + b\n a - b\n a * b\n a +~ b\n a -~ b\n a *~ b\n a // b\n a / b\n return -a\n}\n",
    );
    let ops: Vec<&String> = code[1].iter().filter(|s| !s.starts_with("Load")).collect();
    assert_eq!(
        ops,
        vec![
            "Add(false): Variable(0)",
            "Subtract(false): Variable(1)",
            "Multiply(false): Variable(2)",
            "Add(true): Variable(3)",
            "Subtract(true): Variable(4)",
            "Multiply(true): Variable(5)",
            "IntDivide: Variable(6)",
            "Divide: Variable(7)",
            "Negate(false): Variable(8)",
            "Return: Variable(8)",
        ]
    );
}

#[test]
fn operands_come_before_their_operator() {
    let code = lower("proc f(a: i32, b: i32): bool { return a + 1 <= b }\n");
    assert_eq!(
        code[1],
        vec![
            "Load(\"a\"): I32",
            "Push(\"1\"): IntLiteral",
            "Add(false): Variable(0)",
            "Load(\"b\"): I32",
            "Compare(LE): Variable(1)",
            "Return: Variable(1)",
        ]
    );
}

#[test]
fn comparisons_by_operator() {
    for (op, kind) in [
        ("==", CompareType::EQ),
        ("!=", CompareType::NE),
        (">", CompareType::GT),
        ("<", CompareType::LT),
        (">=", CompareType::GE),
        ("<=", CompareType::LE),
    ] {
        assert!(matches!(
            infix_instruction(&op.to_string()),
            Some(InstructionType::Compare(k)) if k == kind
        ));
    }
    assert!(matches!(infix_instruction(&"+~".to_string()), Some(InstructionType::Add(true))));
    assert!(infix_instruction(&"%".to_string()).is_none());
    assert!(matches!(prefix_instruction(&"-".to_string()), Some(InstructionType::Negate(false))));
    assert!(matches!(prefix_instruction(&"-~".to_string()), Some(InstructionType::Negate(true))));
    assert!(prefix_instruction(&"!".to_string()).is_none());
}

#[test]
fn if_with_a_branch_that_falls_through_gets_an_end_label() {
    let code = lower("proc f(a: bool): i32 {\n if a { return 1 } else { 2 }\n return 3\n}\n");
    assert_eq!(
        code[1],
        vec![
            "Load(\"a\"): Bool",
            "Branch(0, 1): NoReturn",
            "Label(0): Undefined",
            "Push(\"1\"): IntLiteral",
            "Return: IntLiteral",
            "Label(1): Undefined",
            "Push(\"2\"): IntLiteral",
            "Jump(2): Undefined",
            "Label(2): Undefined",
            "Push(\"3\"): IntLiteral",
            "Return: IntLiteral",
        ]
    );
}

#[test]
fn if_without_else_jumps_over_the_undefined_branch() {
    let code = lower("proc f(a: bool): i32 {\n if a { 1 }\n return 3\n}\n");
    assert_eq!(
        code[1],
        vec![
            "Load(\"a\"): Bool",
            "Branch(0, 1): NoReturn",
            "Label(0): Undefined",
            "Push(\"1\"): IntLiteral",
            "Jump(2): Undefined",
            "Label(1): Undefined",
            "Push(\"undefined\"): Undefined",
            "Jump(2): Undefined",
            "Label(2): Undefined",
            "Push(\"3\"): IntLiteral",
            "Return: IntLiteral",
        ]
    );
}

#[test]
fn while_whose_body_returns_has_no_jump_back() {
    let code = lower("proc f(a: bool): i32 {\n while a { return 1 }\n return 2\n}\n");
    assert_eq!(
        code[1],
        vec![
            "Jump(0): Undefined",
            "Label(0): Undefined",
            "Load(\"a\"): Bool",
            "Branch(1, 2): NoReturn",
            "Label(1): Undefined",
            "Push(\"1\"): IntLiteral",
            "Return: IntLiteral",
            "Label(2): Undefined",
            "Push(\"2\"): IntLiteral",
            "Return: IntLiteral",
        ]
    );
}

#[test]
fn nested_statements_take_labels_in_order() {
    let code = lower("proc f(a: bool) {\n while a { if a { 1 } }\n}\n");
    let labels: Vec<&String> =
        code[1].iter().filter(|s| s.starts_with("Label")).collect();
    assert_eq!(
        labels,
        vec![
            "Label(0): Undefined",
            "Label(1): Undefined",
            "Label(3): Undefined",
            "Label(4): Undefined",
            "Label(5): Undefined",
            "Label(2): Undefined",
        ]
    );
}

#[test]
fn every_jump_has_its_label_and_every_call_its_procedure() {
    let ast = parse(
        "proc g(a: i32): i32 { return a }\nproc f(n: i32): i32 {\n var i = 0\n while i < n {\n if g(i) > 2 { return i } elif i == 1 { i = i + 2 } else { i = i + 1 }\n }\n loop { if n > 0 { return g(n) } }\n}\n",
    );
    let mut log = Logger::new();
    let mut unit = IRBuilder::new(&ast);
    assert!(unit.go(&mut log).is_some());
    let procs = unit.procs();
    for p in procs {
        let has = |l: u64| {
            p.body.iter().any(|i| matches!(i.contents.ins, InstructionType::Label(x) if x == l))
        };
        for i in &p.body {
            match &i.contents.ins {
                InstructionType::Jump(l) => assert!(has(*l)),
                InstructionType::Branch(a, b) => assert!(has(*a) && has(*b)),
                InstructionType::Call(name) => assert!(procs.iter().any(|q| q.name == *name)),
                _ => {}
            }
            assert_ne!(i.contents.typ, Type::Unknown);
        }
    }
    assert!(procs[2].body.len() > 10);
}

#[test]
fn a_variable_reads_back_with_the_type_it_was_allocated_with() {
    let code = lower("proc f() {\n var a: i8 = 1\n var b = a\n a = b\n var a: f32 = 2.0\n b = a\n}\n");
    assert_eq!(
        code[1],
        vec![
            "Push(\"1\"): IntLiteral",
            "Allocate(\"a\"): I8",
            "Load(\"a\"): I8",
            "Allocate(\"b\"): Variable(0)",
            "Load(\"b\"): Variable(0)",
            "Store(\"a\"): I8",
            "Push(\"2.0\"): FloatLiteral",
            "Allocate(\"a\"): F32",
            "Load(\"a\"): F32",
            "Store(\"b\"): Variable(0)",
            "Push(\"undefined\"): Undefined",
            "Return: Undefined",
        ]
    );
}

#[test]
fn a_variable_is_bound_after_its_value_is_lowered() {
    let (kind, msg) = failure("proc f() { var x = x }\n");
    assert_eq!(kind, ErrorType::NameError);
    assert_eq!(msg, "Can't find a variable named x in the current scope");
}

#[test]
fn positions_are_those_of_the_node() {
    let ast = parse("proc f(a: i32) { g(a) }\nproc g(a: i32)\n");
    let mut log = Logger::new();
    let mut unit = IRBuilder::new(&ast);
    assert!(unit.go(&mut log).is_some());
    let f = &unit.procs()[1];
    // `a` stands at 19, `g` at 17
    assert_eq!((f.body[0].pos, f.body[0].len), (19, 1));
    assert_eq!((f.body[1].pos, f.body[1].len), (17, 1));
}

#[test]
fn a_procedure_that_is_only_declared_has_no_body() {
    let code = lower("proc g(a: i32): i32\nproc f(): i32 { return g(1) }\n");
    assert_eq!(code.len(), 3);
    assert!(code[1].is_empty());
    assert_eq!(code[2], vec!["Push(\"1\"): IntLiteral", "Call(\"g\"): I32", "Return: I32"]);
}

#[test]
fn procedures_may_be_called_before_they_are_defined() {
    let code = lower("proc f(): i32 { return g() }\nproc g(): i32 { return 1 }\n");
    assert_eq!(code[1], vec!["Call(\"g\"): I32", "Return: I32"]);
}

#[test]
fn a_procedure_that_ends_in_return_gets_no_second_return() {
    let code = lower("proc f() {\n puts(\"a\")\n return 1\n}\n");
    assert_eq!(code[1].len(), 4);
    assert_eq!(code[1][3], "Return: IntLiteral");
}

#[test]
fn constants_may_use_constants() {
    let code = lower("const A = 1\nconst B = A + A\nproc f(): i32 { return B }\n");
    assert_eq!(
        code[1],
        vec![
            "Push(\"1\"): IntLiteral",
            "Push(\"1\"): IntLiteral",
            "Add(false): Variable(0)",
            "Return: Variable(0)",
        ]
    );
}

#[test]
fn a_constant_hides_a_variable_of_its_name() {
    let code = lower("const a = 5\nproc f(a: i32): i32 { return a }\n");
    assert_eq!(code[1], vec!["Push(\"5\"): IntLiteral", "Return: IntLiteral"]);
}

#[test]
fn a_constant_defined_by_itself_is_reported() {
    let (kind, msg) = failure("const A = A + 1\nproc f(): i32 { return A }\n");
    assert_eq!(kind, ErrorType::NameError);
    assert_eq!(msg, "The constant A is defined in terms of itself");
    let (kind, msg) = failure("const A = B\nconst B = A\nproc f(): i32 { return A }\n");
    assert_eq!(kind, ErrorType::NameError);
    assert!(msg == "The constant A is defined in terms of itself"
        || msg == "The constant B is defined in terms of itself");
}

#[test]
fn an_unknown_procedure_leaves_the_unit_as_it_is() {
    let ast = parse("proc f(a: i8): i32 { return g(a + 1) }\n");
    let mut log = Logger::new();
    let mut unit = IRBuilder::new(&ast);
    assert!(unit.go(&mut log).is_none());
    assert_eq!(log.count(), 1);
    assert_eq!(log.errors[0].typ, ErrorType::NameError);
    assert_eq!(log.errors[0].msg, "Can't find a procedure named g in the current module");
    // no argument was lowered: no type variable and no label was taken
    assert_eq!(unit.available_type_var, 0);
    assert_eq!(unit.available_label_id, 0);
    // the parameters of `f` are bound, and nothing else
    assert_eq!(unit.scopes, vec![vec![("a".to_string(), Type::I8)]]);
    // no procedure holds a call, and none has any code
    assert_eq!(unit.procs().len(), 2);
    for p in unit.procs() {
        assert!(p.body.is_empty());
    }
}

#[test]
fn a_statement_at_the_top_level_lowers_nothing() {
    let ast = vec![
        procedure("f", Type::I32, vec![literal(Type::IntLiteral, "1")]),
        at(Node::VarStatement {
            name: "x".to_string(),
            typ: Type::Unknown,
            value: Box::new(literal(Type::IntLiteral, "1")),
        }),
    ];
    let mut log = Logger::new();
    let mut unit = IRBuilder::new(&ast);
    assert!(unit.go(&mut log).is_none());
    assert_eq!(log.count(), 1);
    assert_eq!(log.errors[0].typ, ErrorType::SyntaxError);
    assert_eq!((log.errors[0].pos, log.errors[0].len), (7, 3));
    let names: Vec<&str> = unit.procs().iter().map(|p| p.name.as_str()).collect();
    assert_eq!(names, vec!["puts", "f"]);
    for p in unit.procs() {
        assert!(p.body.is_empty());
    }
    assert!(unit.scopes.is_empty());
}

#[test]
fn an_assignment_to_an_unbound_name_leaves_the_scopes() {
    let ast = parse("proc f(a: i8) { y = a + 1 }\n");
    let mut log = Logger::new();
    let mut unit = IRBuilder::new(&ast);
    assert!(unit.go(&mut log).is_none());
    assert_eq!(log.errors[0].msg, "Can't find a variable named y in the current scope");
    assert_eq!(unit.scopes, vec![vec![("a".to_string(), Type::I8)]]);
    // the value was lowered before the name was looked up
    assert_eq!(unit.available_type_var, 1);
}

#[test]
fn an_unknown_variable_is_a_name_error() {
    let (kind, msg) = failure("proc f(): i32 { return y }\n");
    assert_eq!(kind, ErrorType::NameError);
    assert_eq!(msg, "Can't find a variable named y in the current scope");
    let (kind, msg) = failure("proc f() { y = 1 }\n");
    assert_eq!(kind, ErrorType::NameError);
    assert_eq!(msg, "Can't find a variable named y in the current scope");
}

#[test]
fn what_may_not_stand_in_a_body_is_a_syntax_error() {
    let (kind, msg) = failure("proc f() { const K = 1 }\n");
    assert_eq!(kind, ErrorType::SyntaxError);
    assert_eq!(msg, "Found const statement not at top level. This feature is NYI.");
    let (kind, msg) = failure("proc f(a: i32) { a[1] }\n");
    assert_eq!(kind, ErrorType::SyntaxError);
    assert_eq!(msg, "This construct is not supported here");
    let (kind, msg) = failure("proc f(a: i32) { a[1] = 2 }\n");
    assert_eq!(kind, ErrorType::SyntaxError);
    assert_eq!(msg, "This construct is not supported here");
    let (kind, msg) = failure("proc f(a: i32) { !a }\n");
    assert_eq!(kind, ErrorType::SyntaxError);
    assert_eq!(msg, "Unknown operator");
}

#[test]
fn a_module_may_hold_only_constants_and_procedures() {
    let ast = vec![at(Node::UseStatement { path: "std".to_string() })];
    let mut log = Logger::new();
    let mut unit = IRBuilder::new(&ast);
    assert!(unit.go(&mut log).is_none());
    assert_eq!(log.count(), 1);
    assert_eq!(log.errors[0].typ, ErrorType::SyntaxError);
    assert_eq!(log.errors[0].msg, "This statement is not allowed at the top level of a module");
    assert_eq!((log.errors[0].pos, log.errors[0].len), (7, 3));
}

#[test]
fn a_procedure_needs_a_type_for_each_parameter() {
    let ast = vec![at(Node::ProcStatement {
        name: "f".to_string(),
        args: vec!["a".to_string(), "b".to_string()],
        arg_types: vec![Type::I8],
        ret_type: Type::I8,
        body: Box::new(at(Node::Block { nodes: vec![] })),
    })];
    let mut log = Logger::new();
    let mut unit = IRBuilder::new(&ast);
    assert!(unit.go(&mut log).is_none());
    assert_eq!(log.count(), 1);
    assert_eq!(log.errors[0].typ, ErrorType::SyntaxError);
    assert_eq!(log.errors[0].msg, "A procedure needs one type for each parameter");
    assert_eq!((log.errors[0].pos, log.errors[0].len), (7, 3));
}

#[test]
fn a_procedure_whose_body_is_no_block_is_reported() {
    let ast = vec![at(Node::ProcStatement {
        name: "f".to_string(),
        args: vec![],
        arg_types: vec![],
        ret_type: Type::I8,
        body: Box::new(literal(Type::IntLiteral, "1")),
    })];
    let mut log = Logger::new();
    let mut unit = IRBuilder::new(&ast);
    assert!(unit.go(&mut log).is_none());
    assert_eq!(log.count(), 1);
    assert_eq!(log.errors[0].msg, "This construct is not supported here");
}

#[test]
fn a_type_variable_that_was_never_taken_is_refused() {
    // on a literal
    let ast = vec![procedure("f", Type::I32, vec![literal(Type::Variable(0), "1")])];
    let mut log = Logger::new();
    let mut unit = IRBuilder::new(&ast);
    assert!(unit.go(&mut log).is_none());
    assert_eq!(log.count(), 1);
    assert_eq!(log.errors[0].typ, ErrorType::SyntaxError);
    assert_eq!(log.errors[0].msg, "A type holds a type variable that was never taken");
    assert_eq!((log.errors[0].pos, log.errors[0].len), (7, 3));
    assert_eq!(unit.available_type_var, 0);

    // inside the type of a variable
    let ast = vec![procedure(
        "f",
        Type::I32,
        vec![at(Node::VarStatement {
            name: "x".to_string(),
            typ: Type::Ptr(Box::new(Type::Variable(7))),
            value: Box::new(literal(Type::IntLiteral, "1")),
        })],
    )];
    let mut log = Logger::new();
    let mut unit = IRBuilder::new(&ast);
    assert!(unit.go(&mut log).is_none());
    assert_eq!(log.errors[0].msg, "A type holds a type variable that was never taken");

    // in a signature
    let ast = vec![at(Node::ProcStatement {
        name: "f".to_string(),
        args: vec!["a".to_string()],
        arg_types: vec![Type::Array(2, Box::new(Type::Variable(0)))],
        ret_type: Type::I8,
        body: Box::new(at(Node::Block { nodes: vec![] })),
    })];
    let mut log = Logger::new();
    let mut unit = IRBuilder::new(&ast);
    assert!(unit.go(&mut log).is_none());
    assert_eq!(log.count(), 1);
    assert_eq!(log.errors[0].msg, "A type holds a type variable that was never taken");
    let names: Vec<&str> = unit.procs().iter().map(|p| p.name.as_str()).collect();
    assert_eq!(names, vec!["puts"]);
}

#[test]
fn the_variable_of_an_operator_is_new() {
    let ast = parse("proc f(a: i32, b: i32): i32 { return (a + b) * (a - -b) }\n");
    let mut log = Logger::new();
    let mut unit = IRBuilder::new(&ast);
    assert!(unit.go(&mut log).is_some());
    let body = &unit.procs()[1].body;
    let mut taken = 0;
    for i in body {
        match i.contents.ins {
            InstructionType::Add(_)
            | InstructionType::Subtract(_)
            | InstructionType::Multiply(_)
            | InstructionType::Negate(_) => {
                assert_eq!(i.contents.typ, Type::Variable(taken));
                taken += 1;
            }
            _ => assert!(i.contents.typ.is_below(taken)),
        }
    }
    assert_eq!(taken, 4);
    assert_eq!(unit.available_type_var, 4);
    for p in unit.procs() {
        for i in &p.body {
            assert!(i.contents.typ.is_below(unit.available_type_var));
        }
    }
}

#[test]
fn a_call_carries_the_type_that_the_procedure_returns() {
    let ast = parse("proc g(): n16\nproc h()\nproc f() {\n g()\n h()\n puts(\"a\")\n}\n");
    let mut log = Logger::new();
    let mut unit = IRBuilder::new(&ast);
    assert!(unit.go(&mut log).is_some());
    let calls: Vec<String> = unit.procs()[3]
        .body
        .iter()
        .filter(|i| matches!(i.contents.ins, InstructionType::Call(_)))
        .map(|i| format!("{:?}: {:?}", i.contents.ins, i.contents.typ))
        .collect();
    assert_eq!(calls, vec!["Call(\"g\"): N16", "Call(\"h\"): Undefined", "Call(\"puts\"): I32"]);
}

#[test]
fn an_elided_type_never_reaches_an_instruction() {
    let ast = vec![procedure(
        "f",
        Type::Unknown,
        vec![
            literal(Type::Unknown, "1"),
            at(Node::ReturnStatement { val: Box::new(literal(Type::Unknown, "2")) }),
        ],
    )];
    let mut log = Logger::new();
    let mut unit = IRBuilder::new(&ast);
    assert!(unit.go(&mut log).is_some());
    assert_eq!(
        listing(&unit.procs()[1]),
        vec!["Push(\"1\"): Variable(0)", "Push(\"2\"): Variable(1)", "Return: Variable(1)"]
    );
    assert!(unit.analyze(&mut log).is_some());
    for i in &unit.procs()[1].body {
        assert_ne!(i.contents.typ, Type::Unknown);
    }
}

#[test]
fn a_return_of_nothing_is_undefined() {
    let ast = vec![procedure(
        "f",
        Type::I32,
        vec![at(Node::ReturnStatement { val: Box::new(at(Node::Block { nodes: vec![] })) })],
    )];
    let mut log = Logger::new();
    let mut unit = IRBuilder::new(&ast);
    assert!(unit.go(&mut log).is_some());
    assert_eq!(listing(&unit.procs()[1]), vec!["Return: Undefined"]);
}

#[test]
fn an_unknown_infix_operator_is_reported() {
    let ast = vec![procedure(
        "f",
        Type::I32,
        vec![at(Node::InfixOp {
            op: "%".to_string(),
            left: Box::new(literal(Type::IntLiteral, "1")),
            right: Box::new(literal(Type::IntLiteral, "2")),
        })],
    )];
    let mut log = Logger::new();
    let mut unit = IRBuilder::new(&ast);
    assert!(unit.go(&mut log).is_none());
    assert_eq!(log.errors[0].typ, ErrorType::SyntaxError);
    assert_eq!(log.errors[0].msg, "Unknown operator");
    assert_eq!((log.errors[0].pos, log.errors[0].len), (7, 3));
}

#[test]
fn a_loop_lowers_like_a_while_with_the_literal_true() {
    let strip = |p: &IRProc, base: u64| -> Vec<String> {
        p.body
            .iter()
            .map(|i| match &i.contents.ins {
                InstructionType::Label(l) => format!("Label({})", l - base),
                InstructionType::Jump(l) => format!("Jump({})", l - base),
                InstructionType::Branch(a, b) => format!("Branch({}, {})", a - base, b - base),
                other => format!("{:?}: {:?}", other, i.contents.typ),
            })
            .collect()
    };
    let looped = parse("proc g(): i32 { return 1 }\nproc f() { loop { g() } }\n");
    let mut log = Logger::new();
    let mut first = IRBuilder::new(&looped);
    assert!(first.go(&mut log).is_some());

    let body = at(Node::Block {
        nodes: vec![at(Node::Call { name: "g".to_string(), args: vec![] })],
    });
    let written = vec![
        procedure(
            "g",
            Type::I32,
            vec![
                at(Node::IfStatement {
                    condition: Box::new(literal(Type::Bool, "true")),
                    body: Box::new(at(Node::Block { nodes: vec![literal(Type::IntLiteral, "0")] })),
                    else_body: Box::new(at(Node::Block {
                        nodes: vec![literal(Type::IntLiteral, "0")],
                    })),
                }),
                at(Node::ReturnStatement { val: Box::new(literal(Type::IntLiteral, "1")) }),
            ],
        ),
        procedure(
            "f",
            Type::Undefined,
            vec![at(Node::WhileStatement {
                condition: Box::new(literal(Type::Bool, "true")),
                body: Box::new(body),
            })],
        ),
    ];
    let mut second = IRBuilder::new(&written);
    assert!(second.go(&mut log).is_some());
    assert_eq!(log.count(), 0);
    // the labels of the second start at 3, those of the first at 0
    let a = strip(&first.procs()[2], 0);
    let b = strip(&second.procs()[2], 3);
    assert_eq!(a, b);
    assert_eq!(
        a,
        vec![
            "Jump(0)",
            "Label(0)",
            "Push(\"true\"): Bool",
            "Branch(1, 2)",
            "Label(1)",
            "Call(\"g\"): I32",
            "Jump(0)",
            "Label(2)",
            "Push(\"undefined\"): Undefined",
            "Return: Undefined",
        ]
    );
}

#[test]
fn while_true_reads_true_as_a_name() {
    let (kind, msg) = failure("proc f() { while true { 1 } }\n");
    assert_eq!(kind, ErrorType::NameError);
    assert_eq!(msg, "Can't find a variable named true in the current scope");
}

#[test]
fn fresh_counters_and_lookups() {
    let ast: Vec<Span<Node>> = Vec::new();
    let mut log = Logger::new();
    let mut unit = IRBuilder::new(&ast);
    assert_eq!(unit.next_type_var(), 0);
    assert_eq!(unit.next_type_var(), 1);
    assert_eq!(unit.next_label_id(), 0);
    assert_eq!(unit.available_type_var, 2);
    assert_eq!(unit.available_label_id, 1);
    assert!(unit.locate_var(&"x".to_string(), &mut log).is_none());
    assert!(unit.locate_proc(&"puts".to_string(), &mut log).is_none());
    assert_eq!(log.count(), 2);
    assert_eq!(log.errors[0].msg, "Can't find a variable named x in the current scope");
    assert_eq!(log.errors[1].msg, "Can't find a procedure named puts in the current module");
    assert!(unit.go(&mut log).is_some());
    assert_eq!(unit.locate_proc(&"puts".to_string(), &mut log).unwrap().ret_type, Type::I32);
    unit.scopes.push(vec![("x".to_string(), Type::I8), ("x".to_string(), Type::I16)]);
    unit.scopes.push(vec![("y".to_string(), Type::Bool)]);
    assert_eq!(unit.locate_var(&"x".to_string(), &mut log), Some(Type::I16));
    assert_eq!(unit.locate_var(&"y".to_string(), &mut log), Some(Type::Bool));
    assert_eq!(log.count(), 2);
}

#[test]
fn the_last_instruction_decides_whether_code_returns() {
    let ret = || spanned(Instruction { ins: InstructionType::Return, typ: Type::I8 }, 0, 0);
    let push =
        || spanned(Instruction { ins: InstructionType::Push("1".into()), typ: Type::I8 }, 0, 0);
    assert!(!ends_with_return(&vec![]));
    assert!(ends_with_return(&vec![push(), ret()]));
    assert!(!ends_with_return(&vec![ret(), push()]));
}
