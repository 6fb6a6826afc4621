use elgin::astgen::{spanned, Node};
use elgin::errors::{ErrorType, Logger};
use elgin::lexer::Token;
use elgin::parser::parse_array_size;
use elgin::scopes::{declare_var, find_var, open_scope, scope_find, Scope};
use elgin::text::{decimal_text, digit};
use elgin::types::Type;

fn ptr(t: Type) -> Type {
    Type::Ptr(Box::new(t))
}

fn array(n: u64, t: Type) -> Type {
    Type::Array(n, Box::new(t))
}

#[test]
fn types_as_they_are_written() {
    assert_eq!(Type::I8.name(), "i8");
    assert_eq!(Type::N128.name(), "n128");
    assert_eq!(Type::F32.name(), "f32");
    assert_eq!(Type::Bool.name(), "bool");
    assert_eq!(Type::IntLiteral.name(), "intLiteral");
    assert_eq!(Type::FloatLiteral.name(), "floatLiteral");
    assert_eq!(Type::StrLiteral.name(), "strLiteral");
    assert_eq!(Type::Unknown.name(), "UNKNOWN");
    assert_eq!(Type::Undefined.name(), "undefined");
    assert_eq!(Type::NoReturn.name(), "noreturn");
    assert_eq!(Type::Variable(0).name(), "$0");
    assert_eq!(Type::Variable(1234).name(), "$1234");
    assert_eq!(ptr(ptr(Type::I8)).name(), "**i8");
    assert_eq!(array(10, ptr(array(3, Type::N16))).name(), "[10]*[3]n16");
}

#[test]
fn numbers_in_decimal() {
    assert_eq!(decimal_text(0), "0");
    assert_eq!(decimal_text(7), "7");
    assert_eq!(decimal_text(10), "10");
    assert_eq!(decimal_text(9090), "9090");
    assert_eq!(decimal_text(u64::MAX), "18446744073709551615");
    assert_eq!(digit(0), '0');
    assert_eq!(digit(9), '9');
}

#[test]
fn a_written_size_reads_back() {
    for n in [0u64, 1, 9, 10, 99, 100, 65535, u64::MAX] {
        assert_eq!(parse_array_size(&decimal_text(n)), Some(n));
    }
}

#[test]
fn equality_of_types_is_structural() {
    assert!(Type::I8.same(&Type::I8));
    assert!(!Type::I8.same(&Type::N8));
    assert!(Type::Variable(3).same(&Type::Variable(3)));
    assert!(!Type::Variable(3).same(&Type::Variable(4)));
    assert!(ptr(Type::I8).same(&ptr(Type::I8)));
    assert!(!ptr(Type::I8).same(&ptr(ptr(Type::I8))));
    assert!(array(2, Type::I8).same(&array(2, Type::I8)));
    assert!(!array(2, Type::I8).same(&array(3, Type::I8)));
    assert!(!array(2, Type::I8).same(&array(2, Type::I16)));
    assert!(!Type::Unknown.same(&Type::Undefined));
    assert_eq!(array(2, ptr(Type::F64)), array(2, ptr(Type::F64)));
    assert_ne!(Type::IntLiteral, Type::FloatLiteral);
}

#[test]
fn type_variables_below_a_counter() {
    assert!(Type::I8.is_below(0));
    assert!(Type::Unknown.is_below(0));
    assert!(!Type::Variable(0).is_below(0));
    assert!(Type::Variable(0).is_below(1));
    assert!(!Type::Variable(3).is_below(3));
    assert!(Type::Variable(3).is_below(4));
    assert!(ptr(array(2, Type::Variable(3))).is_below(4));
    assert!(!ptr(array(2, Type::Variable(3))).is_below(3));
    assert!(array(2, ptr(Type::Bool)).is_below(0));
}

#[test]
fn a_clone_of_a_type_is_equal_to_it() {
    let all = [
        Type::IntLiteral,
        Type::FloatLiteral,
        Type::StrLiteral,
        Type::I8,
        Type::I16,
        Type::I32,
        Type::I64,
        Type::I128,
        Type::N8,
        Type::N16,
        Type::N32,
        Type::N64,
        Type::N128,
        Type::F32,
        Type::F64,
        Type::F128,
        Type::Bool,
        Type::Variable(9),
        Type::Unknown,
        Type::Undefined,
        Type::NoReturn,
        ptr(Type::Variable(1)),
        array(4, ptr(Type::Bool)),
    ];
    for (i, t) in all.iter().enumerate() {
        assert_eq!(t.clone(), *t);
        for (j, u) in all.iter().enumerate() {
            assert_eq!(t == u, i == j);
        }
    }
}

#[test]
fn equality_of_tokens() {
    assert_eq!(Token::Ident("a".into()), Token::Ident("a".into()));
    assert_ne!(Token::Ident("a".into()), Token::Ident("b".into()));
    assert_ne!(Token::Ident("a".into()), Token::Op("a".into()));
    assert_ne!(Token::IntLiteral("1".into()), Token::FloatLiteral("1".into()));
    assert_eq!(Token::DocComment("x".into()), Token::DocComment("x".into()));
    assert_ne!(Token::LParen, Token::RParen);
    assert_eq!(Token::EOF, Token::EOF);
    assert_eq!(Token::StrLiteral("s".into()).clone(), Token::StrLiteral("s".into()));
    assert!(Token::Newline.same(&Token::Newline));
    assert!(!Token::Newline.same(&Token::Comma));
}

#[test]
fn the_log_keeps_entries_in_order() {
    let mut log = Logger::new();
    assert_eq!(log.count(), 0);
    log.syntax_error("first", 1, 2);
    log.name_error("second", 3, 4);
    log.log(ErrorType::SyntaxError, "third", 5, 6);
    assert_eq!(log.count(), 3);
    let seen: Vec<(ErrorType, &str, usize, usize)> =
        log.errors.iter().map(|e| (e.typ, e.msg.as_str(), e.pos, e.len)).collect();
    assert_eq!(
        seen,
        vec![
            (ErrorType::SyntaxError, "first", 1, 2),
            (ErrorType::NameError, "second", 3, 4),
            (ErrorType::SyntaxError, "third", 5, 6),
        ]
    );
}

#[test]
fn a_node_is_put_at_its_position() {
    let n = spanned(Node::VariableRef { name: "x".into() }, 4, 1);
    assert_eq!((n.pos, n.len), (4, 1));
    assert!(matches!(n.contents, Node::VariableRef { name } if name == "x"));
}

#[test]
fn inner_scopes_and_later_bindings_win() {
    let mut scopes: Vec<Scope> = Vec::new();
    assert_eq!(find_var(&scopes, &"x".to_string()), None);
    declare_var(&mut scopes, "x".to_string(), Type::I8);
    assert_eq!(scopes.len(), 1);
    assert_eq!(find_var(&scopes, &"x".to_string()), Some(Type::I8));
    declare_var(&mut scopes, "x".to_string(), Type::I16);
    assert_eq!(scopes.len(), 1);
    assert_eq!(find_var(&scopes, &"x".to_string()), Some(Type::I16));
    open_scope(
        &mut scopes,
        &vec!["a".to_string(), "x".to_string(), "b".to_string()],
        &vec![Type::Bool, Type::F32],
    );
    assert_eq!(scopes.len(), 2);
    assert_eq!(scopes[1].len(), 2);
    assert_eq!(find_var(&scopes, &"x".to_string()), Some(Type::F32));
    assert_eq!(find_var(&scopes, &"a".to_string()), Some(Type::Bool));
    assert_eq!(find_var(&scopes, &"b".to_string()), None);
    declare_var(&mut scopes, "y".to_string(), Type::N8);
    assert_eq!(scopes[1].len(), 3);
    assert_eq!(scope_find(&scopes[0], &"y".to_string()), None);
    assert_eq!(scope_find(&scopes[0], &"x".to_string()), Some(Type::I16));
    assert_eq!(find_var(&scopes, &"y".to_string()), Some(Type::N8));
}
