use elgin::errors::{ErrorType, Logger, Span};
use elgin::ir::{IRBuilder, IRProc, InstructionType};
use elgin::lexer::{Lexer, Token};
use elgin::parser::Parser;
use elgin::types::Type;

fn lex(src: &str, log: &mut Logger) -> Vec<Span<Token>> {
    let chars: Vec<char> = src.chars().collect();
    let mut lexer = Lexer::new(&chars);
    lexer.go(log).expect("the text lexes")
}

/// Runs the front end on a text and hands the outcome to `check`: whether
/// lowering and inference succeeded, the procedures and the log.
fn run(src: &str, check: impl FnOnce(bool, bool, &[IRProc], &Logger)) {
    let mut log = Logger::new();
    let tokens = lex(src, &mut log);
    let mut parser = Parser::new(&tokens);
    let ast = parser.go(&mut log).expect("the text parses");
    let mut unit = IRBuilder::new(&ast);
    let built = unit.go(&mut log).is_some();
    let analysed = unit.analyze(&mut log).is_some();
    check(built, analysed, unit.procs(), &log);
}

fn named<'a>(procs: &'a [IRProc], name: &str) -> &'a IRProc {
    procs.iter().find(|p| p.name == name).expect("the procedure exists")
}

fn types(p: &IRProc) -> Vec<Type> {
    p.body.iter().map(|i| i.contents.typ.clone()).collect()
}

#[test]
fn inference_over_integer_addition() {
    run("proc main(): i32 {\n var x = 1 + 2\n return x\n}\n", |built, analysed, procs, log| {
        assert!(built);
        assert!(analysed);
        assert_eq!(log.count(), 0);
        let main = named(procs, "main");
        assert_eq!(main.body.len(), 6);
        assert!(matches!(main.body[5].contents.ins, InstructionType::Return));
        for t in types(main) {
            assert_eq!(t, Type::I32);
        }
        assert!(matches!(&main.body[0].contents.ins, InstructionType::Push(s) if s == "1"));
        assert!(matches!(&main.body[1].contents.ins, InstructionType::Push(s) if s == "2"));
        assert!(matches!(main.body[2].contents.ins, InstructionType::Add(false)));
        assert!(matches!(&main.body[3].contents.ins, InstructionType::Allocate(s) if s == "x"));
        assert!(matches!(&main.body[4].contents.ins, InstructionType::Load(s) if s == "x"));
    });
}

#[test]
fn branch_requires_bool() {
    run(
        "proc f(a: i32): i32 {\n if a > 0 { return 1 } else { return 2 }\n}\n",
        |built, analysed, procs, log| {
            assert!(built);
            assert!(analysed);
            assert_eq!(log.count(), 0);
            let f = named(procs, "f");
            assert_eq!(f.body.len(), 10);
            assert!(matches!(&f.body[0].contents.ins, InstructionType::Load(s) if s == "a"));
            assert_eq!(f.body[0].contents.typ, Type::I32);
            assert!(matches!(&f.body[1].contents.ins, InstructionType::Push(s) if s == "0"));
            assert_eq!(f.body[1].contents.typ, Type::I32);
            assert!(matches!(
                f.body[2].contents.ins,
                InstructionType::Compare(elgin::ir::CompareType::GT)
            ));
            assert_eq!(f.body[2].contents.typ, Type::Bool);
            assert!(matches!(f.body[3].contents.ins, InstructionType::Branch(0, 1)));
            assert!(matches!(f.body[4].contents.ins, InstructionType::Label(0)));
            assert!(matches!(f.body[6].contents.ins, InstructionType::Return));
            assert!(matches!(f.body[7].contents.ins, InstructionType::Label(1)));
            assert!(matches!(f.body[9].contents.ins, InstructionType::Return));
            for i in &f.body {
                assert!(!matches!(i.contents.ins, InstructionType::Label(2)));
                assert!(!matches!(i.contents.ins, InstructionType::Jump(_)));
            }
        },
    );
}

#[test]
fn name_error() {
    run("proc f(): i32 { return g(1) }\n", |built, analysed, _procs, log| {
        assert!(!built);
        assert!(!analysed);
        assert_eq!(log.count(), 1);
        assert_eq!(log.errors[0].typ, ErrorType::NameError);
        assert_eq!(log.errors[0].msg, "Can't find a procedure named g in the current module");
    });
}

#[test]
fn literal_concretisation_default() {
    run("proc f(): i64 { return 3 }\n", |built, analysed, procs, log| {
        assert!(built);
        assert!(analysed);
        assert_eq!(log.count(), 0);
        let f = named(procs, "f");
        assert_eq!(f.body.len(), 2);
        assert!(matches!(&f.body[0].contents.ins, InstructionType::Push(s) if s == "3"));
        assert_eq!(f.body[0].contents.typ, Type::I64);
        assert!(matches!(f.body[1].contents.ins, InstructionType::Return));
        assert_eq!(f.body[1].contents.typ, Type::I64);
    });
}

#[test]
fn while_loop_labels() {
    run(
        "proc f(n: i32): i32 {\n var i = 0\n while i < n { i = i + 1 }\n return i\n}\n",
        |built, analysed, procs, log| {
            assert!(built);
            assert!(analysed);
            assert_eq!(log.count(), 0);
            let f = named(procs, "f");
            let control: Vec<String> = f
                .body
                .iter()
                .filter(|i| {
                    matches!(
                        i.contents.ins,
                        InstructionType::Jump(_)
                            | InstructionType::Label(_)
                            | InstructionType::Branch(_, _)
                    )
                })
                .map(|i| format!("{:?}", i.contents.ins))
                .collect();
            assert_eq!(
                control,
                vec!["Jump(0)", "Label(0)", "Branch(1, 2)", "Label(1)", "Jump(0)", "Label(2)"]
            );
            for i in &f.body {
                match &i.contents.ins {
                    InstructionType::Allocate(v)
                    | InstructionType::Load(v)
                    | InstructionType::Store(v)
                        if v == "i" =>
                    {
                        assert_eq!(i.contents.typ, Type::I32)
                    }
                    _ => {}
                }
            }
            assert_eq!(f.body.len(), 17);
        },
    );
}

#[test]
fn constant_inlining() {
    run("const K: i32 = 42\nproc f(): i32 { return K }\n", |built, analysed, procs, log| {
        assert!(built);
        assert!(analysed);
        assert_eq!(log.count(), 0);
        let f = named(procs, "f");
        assert_eq!(f.body.len(), 2);
        assert!(matches!(&f.body[0].contents.ins, InstructionType::Push(s) if s == "42"));
        assert_eq!(f.body[0].contents.typ, Type::I32);
        for i in &f.body {
            assert!(!matches!(i.contents.ins, InstructionType::Load(_)));
        }
    });
}

#[test]
fn parentheses_do_not_change_the_code() {
    let shape = |src: &str| {
        let mut out = Vec::new();
        run(src, |built, analysed, procs, _log| {
            assert!(built && analysed);
            for i in &named(procs, "f").body {
                out.push(format!("{:?}", i.contents));
            }
        });
        out
    };
    let plain = shape("proc f(x: i32, y: i32): i32 { return x + y }\n");
    let wrapped = shape("proc f(x: i32, y: i32): i32 { return (x) + (y) }\n");
    assert_eq!(plain, wrapped);
    assert_eq!(plain.len(), 4);
}

#[test]
fn puts_is_declared_first() {
    run("proc f() { puts(\"hi\") }\n", |built, analysed, procs, log| {
        assert!(built);
        assert!(analysed);
        assert_eq!(log.count(), 0);
        assert_eq!(procs[0].name, "puts");
        assert_eq!(procs[0].args, vec!["s".to_string()]);
        assert_eq!(procs[0].arg_types, vec![Type::Ptr(Box::new(Type::I8))]);
        assert_eq!(procs[0].ret_type, Type::I32);
        assert!(procs[0].body.is_empty());
        let f = named(procs, "f");
        // the call, then the return that a procedure without a return type gets
        assert_eq!(f.body.len(), 4);
        assert!(matches!(&f.body[0].contents.ins, InstructionType::Push(s) if s == "hi"));
        assert_eq!(f.body[0].contents.typ, Type::StrLiteral);
        assert!(matches!(&f.body[1].contents.ins, InstructionType::Call(s) if s == "puts"));
        assert_eq!(f.body[1].contents.typ, Type::I32);
        assert!(matches!(&f.body[2].contents.ins, InstructionType::Push(s) if s == "undefined"));
        assert_eq!(f.body[2].contents.typ, Type::Undefined);
        assert!(matches!(f.body[3].contents.ins, InstructionType::Return));
        assert_eq!(f.body[3].contents.typ, Type::Undefined);
    });
}
