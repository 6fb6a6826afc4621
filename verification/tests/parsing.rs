use elgin::astgen::Node;
use elgin::errors::{ErrorType, Logger, Span};
use elgin::lexer::{Lexer, Token};
use elgin::parser::{
    infix_binding_power, parse_array_size, postfix_binding_power, prefix_binding_power,
    primitive_type, Parser,
};
use elgin::types::Type;

fn lex(src: &str) -> Vec<Span<Token>> {
    let chars: Vec<char> = src.chars().collect();
    let mut log = Logger::new();
    let mut lexer = Lexer::new(&chars);
    lexer.go(&mut log).expect("the text lexes")
}

fn parse(src: &str) -> (Option<Vec<Span<Node>>>, Logger) {
    let tokens = lex(src);
    let mut log = Logger::new();
    let mut parser = Parser::new(&tokens);
    let ast = parser.go(&mut log);
    (ast, log)
}

/// The statements of the body of the only procedure of a text.
fn body(src: &str) -> Vec<Span<Node>> {
    let (ast, log) = parse(src);
    assert_eq!(log.count(), 0);
    let mut ast = ast.expect("the text parses");
    assert_eq!(ast.len(), 1);
    match ast.remove(0).contents {
        Node::ProcStatement { body, .. } => match body.contents {
            Node::Block { nodes } => nodes,
            other => panic!("not a block: {:?}", other),
        },
        other => panic!("not a procedure: {:?}", other),
    }
}

/// An expression written with a bracket round every operator.
fn show(node: &Span<Node>) -> String {
    match &node.contents {
        Node::Literal { value, .. } => value.clone(),
        Node::VariableRef { name } => name.clone(),
        Node::InfixOp { op, left, right } => format!("({} {} {})", show(left), op, show(right)),
        Node::PrefixOp { op, right } => format!("({}{})", op, show(right)),
        Node::IndexOp { object, index } => format!("{}[{}]", show(object), show(index)),
        Node::Call { name, args } => {
            let args: Vec<String> = args.iter().map(show).collect();
            format!("{}({})", name, args.join(", "))
        }
        other => format!("{:?}", other),
    }
}

fn expression(text: &str) -> String {
    let nodes = body(&format!("proc f() {{ {} }}\n", text));
    assert_eq!(nodes.len(), 1);
    show(&nodes[0])
}

fn failure(src: &str) -> (String, usize) {
    let (ast, log) = parse(src);
    assert!(ast.is_none());
    assert_eq!(log.count(), 1);
    assert_eq!(log.errors[0].typ, ErrorType::SyntaxError);
    (log.errors[0].msg.clone(), log.errors[0].pos)
}

#[test]
fn multiplication_binds_tighter_than_addition() {
    assert_eq!(expression("1 + 2 * 3"), "(1 + (2 * 3))");
    assert_eq!(expression("1 * 2 + 3"), "((1 * 2) + 3)");
    assert_eq!(expression("a // b - c / d"), "((a // b) - (c / d))");
}

#[test]
fn comparison_binds_loosest() {
    assert_eq!(expression("a + 1 < b * 2"), "((a + 1) < (b * 2))");
    assert_eq!(expression("a == b + c"), "(a == (b + c))");
    assert_eq!(expression("a >= b"), "(a >= b)");
    assert_eq!(expression("a != b"), "(a != b)");
}

#[test]
fn operators_of_one_level_group_to_the_left() {
    assert_eq!(expression("1 - 2 - 3"), "((1 - 2) - 3)");
    assert_eq!(expression("8 / 4 / 2"), "((8 / 4) / 2)");
}

#[test]
fn wrapping_operators_bind_like_the_plain_ones() {
    assert_eq!(expression("a +~ b *~ c"), "(a +~ (b *~ c))");
    assert_eq!(expression("a -~ b -~ c"), "((a -~ b) -~ c)");
}

#[test]
fn prefix_operators_bind_tighter_than_infix_ones() {
    assert_eq!(expression("-a * b"), "((-a) * b)");
    assert_eq!(expression("-a + b"), "((-a) + b)");
    assert_eq!(expression("!a == b"), "((!a) == b)");
    assert_eq!(expression("+a"), "(+a)");
}

#[test]
fn parentheses_reset_the_binding_power() {
    assert_eq!(expression("(1 + 2) * 3"), "((1 + 2) * 3)");
    assert_eq!(expression("-(a + b)"), "(-(a + b))");
}

#[test]
fn indexing_binds_tightest() {
    assert_eq!(expression("-a[1]"), "(-a[1])");
    assert_eq!(expression("a[i + 1] * 2"), "(a[(i + 1)] * 2)");
    assert_eq!(expression("a[1][2]"), "a[1][2]");
}

#[test]
fn calls_take_arguments_between_parentheses() {
    assert_eq!(expression("g()"), "g()");
    assert_eq!(expression("g(1, a + b, h(2))"), "g(1, (a + b), h(2))");
    assert_eq!(expression("g(1,)"), "g(1)");
}

#[test]
fn literals_carry_their_tag_and_position() {
    let nodes = body("proc f() { 12\n 1.5\n \"s\" }\n");
    assert_eq!(nodes.len(), 3);
    assert!(matches!(&nodes[0].contents,
        Node::Literal { typ: Type::IntLiteral, value } if value == "12"));
    assert!(matches!(&nodes[1].contents,
        Node::Literal { typ: Type::FloatLiteral, value } if value == "1.5"));
    assert!(matches!(&nodes[2].contents,
        Node::Literal { typ: Type::StrLiteral, value } if value == "s"));
    assert_eq!((nodes[0].pos, nodes[0].len), (11, 2));
}

#[test]
fn if_without_else_gets_an_undefined_branch() {
    let nodes = body("proc f() { if a { b } }\n");
    match &nodes[0].contents {
        Node::IfStatement { else_body, .. } => match &else_body.contents {
            Node::Block { nodes } => {
                assert_eq!(nodes.len(), 1);
                assert!(matches!(&nodes[0].contents,
                    Node::Literal { typ: Type::Undefined, value } if value == "undefined"));
            }
            other => panic!("not a block: {:?}", other),
        },
        other => panic!("not an if: {:?}", other),
    }
}

#[test]
fn elif_nests_an_if_in_the_else_branch() {
    let nodes = body("proc f() { if a { 1 } elif b { 2 } else { 3 } }\n");
    match &nodes[0].contents {
        Node::IfStatement { condition, else_body, .. } => {
            assert_eq!(show(condition), "a");
            match &else_body.contents {
                Node::IfStatement { condition, else_body, .. } => {
                    assert_eq!(show(condition), "b");
                    assert!(matches!(&else_body.contents, Node::Block { nodes } if nodes.len() == 1));
                }
                other => panic!("not an if: {:?}", other),
            }
        }
        other => panic!("not an if: {:?}", other),
    }
}

#[test]
fn loop_is_while_with_the_literal_true() {
    let nodes = body("proc f() { loop { g() } }\n");
    match &nodes[0].contents {
        Node::WhileStatement { condition, body } => {
            assert!(matches!(&condition.contents,
                Node::Literal { typ: Type::Bool, value } if value == "true"));
            assert_eq!((condition.pos, condition.len), (0, 0));
            assert!(matches!(&body.contents, Node::Block { nodes } if nodes.len() == 1));
        }
        other => panic!("not a while: {:?}", other),
    }
}

#[test]
fn var_keeps_the_declared_type_or_leaves_it_open() {
    let nodes = body("proc f() { var a: i8 = 1\n var b = 2\n var c: *n16\n var d }\n");
    assert!(matches!(&nodes[0].contents,
        Node::VarStatement { name, typ: Type::I8, .. } if name == "a"));
    assert!(matches!(&nodes[1].contents,
        Node::VarStatement { name, typ: Type::Unknown, .. } if name == "b"));
    match &nodes[2].contents {
        Node::VarStatement { name, typ, value } => {
            assert_eq!(name, "c");
            assert_eq!(*typ, Type::Ptr(Box::new(Type::N16)));
            assert!(matches!(&value.contents,
                Node::Literal { typ: Type::Undefined, value } if value == "undefined"));
        }
        other => panic!("not a var: {:?}", other),
    }
    match &nodes[3].contents {
        Node::VarStatement { typ, value, .. } => {
            assert_eq!(*typ, Type::Unknown);
            assert!(matches!(&value.contents, Node::Literal { typ: Type::Undefined, .. }));
        }
        other => panic!("not a var: {:?}", other),
    }
}

#[test]
fn types_are_names_pointers_and_arrays() {
    let (ast, log) = parse("proc f(a: bool, b: * *f64, c: [10]i32, d: [2]*[3]n128): f128\n");
    assert_eq!(log.count(), 0);
    match &ast.unwrap()[0].contents {
        Node::ProcStatement { name, args, arg_types, ret_type, body } => {
            assert_eq!(name, "f");
            assert_eq!(args, &vec!["a".to_string(), "b".into(), "c".into(), "d".into()]);
            assert_eq!(arg_types[0], Type::Bool);
            assert_eq!(arg_types[1], Type::Ptr(Box::new(Type::Ptr(Box::new(Type::F64)))));
            assert_eq!(arg_types[2], Type::Array(10, Box::new(Type::I32)));
            assert_eq!(
                arg_types[3],
                Type::Array(2, Box::new(Type::Ptr(Box::new(Type::Array(3, Box::new(Type::N128))))))
            );
            assert_eq!(*ret_type, Type::F128);
            assert!(matches!(&body.contents, Node::Block { nodes } if nodes.is_empty()));
        }
        other => panic!("not a procedure: {:?}", other),
    }
}

#[test]
fn two_stars_written_together_are_one_operator() {
    // the lexer reads `**` as one operator, which is no type
    let (msg, _) = failure("proc f(b: **f64)\n");
    assert_eq!(msg, "Expected a type");
}

#[test]
fn a_procedure_without_return_type_returns_undefined() {
    let (ast, _) = parse("proc f() { 1 }\n");
    assert!(matches!(&ast.unwrap()[0].contents,
        Node::ProcStatement { ret_type: Type::Undefined, .. }));
}

#[test]
fn assignments_and_indexed_assignments() {
    let nodes = body("proc f() { x = 1 + 2\n a[i] = x\n a[i] }\n");
    match &nodes[0].contents {
        Node::AssignStatement { name, value } => {
            assert_eq!(name, "x");
            assert_eq!(show(value), "(1 + 2)");
        }
        other => panic!("not an assignment: {:?}", other),
    }
    match &nodes[1].contents {
        Node::IndexedAssignStatement { name, index, value } => {
            assert_eq!(name, "a");
            assert_eq!(show(index), "i");
            assert_eq!(show(value), "x");
        }
        other => panic!("not an indexed assignment: {:?}", other),
    }
    assert_eq!(show(&nodes[2]), "a[i]");
}

#[test]
fn const_and_use_at_the_top_level() {
    let tokens = vec![
        Span { contents: Token::Use, pos: 0, len: 3 },
        Span { contents: Token::Ident("std".into()), pos: 4, len: 3 },
        Span { contents: Token::Op(".".into()), pos: 7, len: 1 },
        Span { contents: Token::Ident("io".into()), pos: 8, len: 2 },
        Span { contents: Token::Newline, pos: 10, len: 1 },
        Span { contents: Token::DocComment("about K".into()), pos: 11, len: 9 },
        Span { contents: Token::Const, pos: 20, len: 5 },
        Span { contents: Token::Ident("K".into()), pos: 26, len: 1 },
        Span { contents: Token::Equals, pos: 28, len: 1 },
        Span { contents: Token::IntLiteral("1".into()), pos: 30, len: 1 },
        Span { contents: Token::Newline, pos: 31, len: 1 },
    ];
    let mut log = Logger::new();
    let mut parser = Parser::new(&tokens);
    let ast = parser.go(&mut log).unwrap();
    assert_eq!(log.count(), 0);
    assert_eq!(ast.len(), 2);
    assert!(matches!(&ast[0].contents, Node::UseStatement { path } if path == "std.io"));
    assert!(matches!(&ast[1].contents,
        Node::ConstStatement { name, typ: Type::Unknown, .. } if name == "K"));
}

#[test]
fn leading_newlines_are_skipped() {
    let (ast, log) = parse("\n\nproc f() { 1 }\n\n");
    assert_eq!(log.count(), 0);
    assert_eq!(ast.unwrap().len(), 1);
}

#[test]
fn parsing_twice_gives_the_same_tree() {
    let tokens = lex("const K = 2\nproc f(a: i32): i32 {\n if a > K { return a * K }\n return 0\n}\n");
    let mut log = Logger::new();
    let first = Parser::new(&tokens).go(&mut log).unwrap();
    let second = Parser::new(&tokens).go(&mut log).unwrap();
    assert_eq!(log.count(), 0);
    assert_eq!(format!("{:?}", first), format!("{:?}", second));
    assert_eq!(first.len(), 2);
}

#[test]
fn an_empty_stream_is_the_end_of_the_file() {
    let tokens: Vec<Span<Token>> = Vec::new();
    let mut log = Logger::new();
    assert!(Parser::new(&tokens).go(&mut log).is_none());
    assert_eq!(log.count(), 1);
    assert_eq!(log.errors[0].typ, ErrorType::SyntaxError);
    assert_eq!(log.errors[0].msg, "Encountered the end of the file while parsing");
    assert_eq!((log.errors[0].pos, log.errors[0].len), (0, 0));
}

#[test]
fn the_end_of_the_file_in_an_expression() {
    let (msg, pos) = failure("const K = 1 +");
    assert_eq!(msg, "Encountered the end of the file while parsing");
    assert_eq!(pos, 12);
}

#[test]
fn a_mismatched_token() {
    // `)` is missing
    let (msg, pos) = failure("proc f() { g(1 }\n");
    assert_eq!(msg, "Unexpected token");
    assert_eq!(pos, 15);
    // a statement must end with a newline
    let (msg, _) = failure("const A = 1 const B = 2\n");
    assert_eq!(msg, "Unexpected token");
    // an empty block
    let (msg, _) = failure("proc f() { }\n");
    assert_eq!(msg, "Unexpected token");
    // an operator that is no prefix operator
    let (msg, _) = failure("const A = * 2\n");
    assert_eq!(msg, "Unexpected token");
}

#[test]
fn an_expected_identifier() {
    let (msg, pos) = failure("proc 1() { 2 }\n");
    assert_eq!(msg, "Expected an identifier");
    assert_eq!(pos, 5);
    let (msg, _) = failure("const = 2\n");
    assert_eq!(msg, "Expected an identifier");
}

#[test]
fn an_expected_type() {
    let (msg, pos) = failure("proc f(a: int) { 2 }\n");
    assert_eq!(msg, "Expected a type");
    assert_eq!(pos, 10);
    let (msg, _) = failure("proc f(a: [x]i8) { 2 }\n");
    assert_eq!(msg, "Expected a type");
    let (msg, _) = failure("proc f(a: [18446744073709551616]i8) { 2 }\n");
    assert_eq!(msg, "Expected a type");
}

#[test]
fn only_declarations_may_stand_at_the_top_level() {
    let (msg, _) = failure("x = 1\n");
    assert_eq!(msg, "This statement is not allowed at the top level of a module");
    let (msg, _) = failure("while a { b }\n");
    assert_eq!(msg, "This statement is not allowed at the top level of a module");
}

#[test]
fn assignment_to_something_else_than_a_name() {
    let (msg, _) = failure("proc f() { a + b = 1 }\n");
    assert_eq!(msg, "Unexpected token");
}

#[test]
fn binding_powers() {
    assert_eq!(prefix_binding_power(&"!".to_string()), Some(((), 8)));
    assert_eq!(prefix_binding_power(&"+".to_string()), Some(((), 9)));
    assert_eq!(prefix_binding_power(&"-".to_string()), Some(((), 9)));
    assert_eq!(prefix_binding_power(&"*".to_string()), None);
    assert_eq!(postfix_binding_power(&"[".to_string()), Some((11, ())));
    assert_eq!(postfix_binding_power(&"]".to_string()), None);
    for op in ["==", "!=", "<", ">", "<=", ">="] {
        assert_eq!(infix_binding_power(&op.to_string()), Some((3, 4)));
    }
    for op in ["+", "-", "+~", "-~"] {
        assert_eq!(infix_binding_power(&op.to_string()), Some((5, 6)));
    }
    for op in ["*", "/", "//", "*~"] {
        assert_eq!(infix_binding_power(&op.to_string()), Some((7, 8)));
    }
    assert_eq!(infix_binding_power(&"%".to_string()), None);
}

#[test]
fn primitive_types_by_name() {
    let all = [
        ("i8", Type::I8),
        ("i16", Type::I16),
        ("i32", Type::I32),
        ("i64", Type::I64),
        ("i128", Type::I128),
        ("n8", Type::N8),
        ("n16", Type::N16),
        ("n32", Type::N32),
        ("n64", Type::N64),
        ("n128", Type::N128),
        ("f32", Type::F32),
        ("f64", Type::F64),
        ("f128", Type::F128),
        ("bool", Type::Bool),
    ];
    for (name, typ) in all {
        assert_eq!(primitive_type(&name.to_string()), Some(typ));
    }
    assert_eq!(primitive_type(&"u8".to_string()), None);
}

#[test]
fn array_sizes() {
    assert_eq!(parse_array_size(&"0".to_string()), Some(0));
    assert_eq!(parse_array_size(&"007".to_string()), Some(7));
    assert_eq!(parse_array_size(&"18446744073709551615".to_string()), Some(u64::MAX));
    assert_eq!(parse_array_size(&"18446744073709551616".to_string()), None);
    assert_eq!(parse_array_size(&"".to_string()), None);
    assert_eq!(parse_array_size(&"1a".to_string()), None);
    assert_eq!(parse_array_size(&"1.5".to_string()), None);
}
