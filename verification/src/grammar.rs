//! The grammar, as functions from a token stream and a position to a syntax
//! tree and the number of tokens it took.
//!
//! Each function either yields a value and a count of consumed tokens, or the
//! one record that is logged when parsing fails at that point.

use vstd::prelude::*;
use crate::astgen::Ast;
use crate::errors::{syntax_record, ErrorRecord, Span};
use crate::lexer::Tok;
use crate::types::Type;

verus! {

/// A token stream.
pub type Stream = Seq<Span<Tok>>;

/// What parsing at a position gives: a value and the number of tokens taken,
/// or the error to report.
pub type Parsed<T> = Result<(T, nat), ErrorRecord>;

/// What is reported where another token must stand.
pub open spec fn unexpected() -> Seq<char> {
    "Unexpected token"@
}

/// What is reported where an identifier must stand.
pub open spec fn expected_ident() -> Seq<char> {
    "Expected an identifier"@
}

/// What is reported where a type must stand.
pub open spec fn expected_type() -> Seq<char> {
    "Expected a type"@
}

/// What is reported where the stream ends inside an expression.
pub open spec fn end_of_file() -> Seq<char> {
    "Encountered the end of the file while parsing"@
}

/// What is reported for a statement that is no declaration at the top level.
pub open spec fn not_top_level() -> Seq<char> {
    "This statement is not allowed at the top level of a module"@
}

/// The token at position `i`. Past the end it is `EOF`, placed where the last
/// token is.
pub open spec fn peek_at(toks: Stream, i: nat) -> Span<Tok> {
    if i < toks.len() {
        toks[i as int]
    } else if toks.len() > 0 {
        Span { contents: Tok::EOF, pos: toks.last().pos, len: toks.last().len }
    } else {
        Span { contents: Tok::EOF, pos: 0, len: 0 }
    }
}

/// The kind of the token at position `i`.
pub open spec fn kind_at(toks: Stream, i: nat) -> Tok {
    peek_at(toks, i).contents
}

/// A syntax error placed at the token at position `i`.
pub open spec fn fault_at(toks: Stream, i: nat, msg: Seq<char>) -> ErrorRecord {
    syntax_record(msg, peek_at(toks, i).pos, peek_at(toks, i).len)
}

/// The number of tokens from position `i` to the end.
pub open spec fn remaining(toks: Stream, i: nat) -> nat {
    if i <= toks.len() {
        (toks.len() - i) as nat
    } else {
        0
    }
}

/// The primitive type that a name denotes.
pub open spec fn primitive_named(name: Seq<char>) -> Option<Type> {
    if name == "i8"@ {
        Some(Type::I8)
    } else if name == "i16"@ {
        Some(Type::I16)
    } else if name == "i32"@ {
        Some(Type::I32)
    } else if name == "i64"@ {
        Some(Type::I64)
    } else if name == "i128"@ {
        Some(Type::I128)
    } else if name == "n8"@ {
        Some(Type::N8)
    } else if name == "n16"@ {
        Some(Type::N16)
    } else if name == "n32"@ {
        Some(Type::N32)
    } else if name == "n64"@ {
        Some(Type::N64)
    } else if name == "n128"@ {
        Some(Type::N128)
    } else if name == "f32"@ {
        Some(Type::F32)
    } else if name == "f64"@ {
        Some(Type::F64)
    } else if name == "f128"@ {
        Some(Type::F128)
    } else if name == "bool"@ {
        Some(Type::Bool)
    } else {
        None
    }
}

/// The value of a decimal digit.
pub open spec fn digit_value(c: char) -> Option<nat> {
    if '0' <= c && c <= '9' {
        Some((c as nat - '0' as nat) as nat)
    } else {
        None
    }
}

/// The number that a non-empty text of decimal digits denotes.
pub open spec fn decimal(s: Seq<char>) -> Option<nat>
    decreases s.len(),
{
    if s.len() == 0 {
        None
    } else if s.len() == 1 {
        digit_value(s[0])
    } else {
        match (decimal(s.drop_last()), digit_value(s.last())) {
            (Some(high), Some(d)) => Some(high * 10 + d),
            _ => None,
        }
    }
}

/// The size of an array type written as `s`: a decimal number that fits 64 bits.
pub open spec fn array_size(s: Seq<char>) -> Option<u64> {
    match decimal(s) {
        Some(n) => if n <= u64::MAX {
            Some(n as u64)
        } else {
            None
        },
        None => None,
    }
}

/// The right binding power of a prefix operator.
pub open spec fn prefix_power(op: Seq<char>) -> Option<nat> {
    if op == "!"@ {
        Some(8)
    } else if op == "+"@ || op == "-"@ {
        Some(9)
    } else {
        None
    }
}

/// The left binding power of a postfix operator. Indexing is the only one.
pub open spec fn postfix_power(op: Seq<char>) -> Option<nat> {
    if op == "["@ {
        Some(11)
    } else {
        None
    }
}

/// The left and right binding powers of an infix operator.
pub open spec fn infix_power(op: Seq<char>) -> Option<(nat, nat)> {
    if op == ">"@ || op == "<"@ || op == ">="@ || op == "<="@ || op == "=="@ || op == "!="@ {
        Some((3, 4))
    } else if op == "+"@ || op == "-"@ || op == "+~"@ || op == "-~"@ {
        Some((5, 6))
    } else if op == "*"@ || op == "/"@ || op == "//"@ || op == "*~"@ {
        Some((7, 8))
    } else {
        None
    }
}

/// A type: a primitive's name, `*T`, or `[N]T`.
#[verifier::opaque]
pub open spec fn type_at(toks: Stream, i: nat) -> Parsed<Type>
    decreases remaining(toks, i),
{
    match kind_at(toks, i) {
        Tok::Ident(name) => match primitive_named(name) {
            Some(t) => Ok((t, 1)),
            None => Err(fault_at(toks, i, expected_type())),
        },
        Tok::Op(op) => if op == "*"@ {
            match type_at(toks, i + 1) {
                Ok((t, c)) => Ok((Type::Ptr(Box::new(t)), 1 + c)),
                Err(e) => Err(e),
            }
        } else {
            Err(fault_at(toks, i, expected_type()))
        },
        Tok::LBracket => match kind_at(toks, i + 1) {
            Tok::IntLiteral(s) => match array_size(s) {
                Some(n) => if kind_at(toks, i + 2) == Tok::RBracket {
                    match type_at(toks, i + 3) {
                        Ok((t, c)) => Ok((Type::Array(n, Box::new(t)), 3 + c)),
                        Err(e) => Err(e),
                    }
                } else {
                    Err(fault_at(toks, i + 2, unexpected()))
                },
                None => Err(fault_at(toks, i + 1, expected_type())),
            },
            _ => Err(fault_at(toks, i + 1, expected_type())),
        },
        _ => Err(fault_at(toks, i, expected_type())),
    }
}

/// The literal that stands for a missing value.
pub open spec fn undefined_literal() -> Span<Ast> {
    Span { contents: Ast::Literal { typ: Type::Undefined, value: "undefined"@ }, pos: 0, len: 0 }
}

/// The condition of a `loop`.
pub open spec fn true_literal() -> Span<Ast> {
    Span { contents: Ast::Literal { typ: Type::Bool, value: "true"@ }, pos: 0, len: 0 }
}

/// A node without a position of its own.
pub open spec fn unplaced(node: Ast) -> Span<Ast> {
    Span { contents: node, pos: 0, len: 0 }
}

/// The first operand of an expression: a literal, a variable, a call, a
/// parenthesised expression or a prefix operator with its operand.
#[verifier::opaque]
pub open spec fn primary(toks: Stream, i: nat) -> Parsed<Span<Ast>>
    decreases remaining(toks, i), 1nat,
{
    let t = peek_at(toks, i);
    match t.contents {
        Tok::Ident(name) => if kind_at(toks, i + 1) == Tok::LParen {
            match call_args(toks, i + 2, Seq::empty()) {
                Ok((args, c)) => Ok(
                    (Span { contents: Ast::Call { name, args }, pos: t.pos, len: t.len }, 2 + c),
                ),
                Err(e) => Err(e),
            }
        } else {
            Ok((Span { contents: Ast::VariableRef { name }, pos: t.pos, len: t.len }, 1))
        },
        Tok::IntLiteral(value) => Ok(
            (
                Span {
                    contents: Ast::Literal { typ: Type::IntLiteral, value },
                    pos: t.pos,
                    len: t.len,
                },
                1,
            ),
        ),
        Tok::FloatLiteral(value) => Ok(
            (
                Span {
                    contents: Ast::Literal { typ: Type::FloatLiteral, value },
                    pos: t.pos,
                    len: t.len,
                },
                1,
            ),
        ),
        Tok::StrLiteral(value) => Ok(
            (
                Span {
                    contents: Ast::Literal { typ: Type::StrLiteral, value },
                    pos: t.pos,
                    len: t.len,
                },
                1,
            ),
        ),
        Tok::LParen => match expr(toks, i + 1, 0) {
            Ok((inner, c)) => if kind_at(toks, i + 1 + c) == Tok::RParen {
                Ok((inner, c + 2))
            } else {
                Err(fault_at(toks, i + 1 + c, unexpected()))
            },
            Err(e) => Err(e),
        },
        Tok::Op(op) => match prefix_power(op) {
            Some(power) => match expr(toks, i + 1, power) {
                Ok((right, c)) => Ok(
                    (
                        Span {
                            contents: Ast::PrefixOp { op, right: Box::new(right) },
                            pos: t.pos,
                            len: t.len,
                        },
                        1 + c,
                    ),
                ),
                Err(e) => Err(e),
            },
            None => Err(fault_at(toks, i, unexpected())),
        },
        Tok::EOF => Err(fault_at(toks, i, end_of_file())),
        _ => Err(fault_at(toks, i, unexpected())),
    }
}

/// The arguments of a call, from the token after `(` up to and including `)`,
/// appended to `acc`. Arguments are separated by commas; one may follow the
/// last argument.
#[verifier::opaque]
pub open spec fn call_args(toks: Stream, p: nat, acc: Seq<Span<Ast>>) -> Parsed<Seq<Span<Ast>>>
    decreases remaining(toks, p), 4nat,
{
    if kind_at(toks, p) == Tok::RParen {
        Ok((acc, 1))
    } else {
        match expr(toks, p, 0) {
            Ok((arg, c)) => if kind_at(toks, p + c) == Tok::Comma {
                match call_args(toks, p + c + 1, acc.push(arg)) {
                    Ok((args, c2)) => Ok((args, c + 1 + c2)),
                    Err(e) => Err(e),
                }
            } else if kind_at(toks, p + c) == Tok::RParen {
                Ok((acc.push(arg), c + 1))
            } else {
                Err(fault_at(toks, p + c, unexpected()))
            },
            Err(e) => Err(e),
        }
    }
}

/// An expression whose operators all bind at least as tightly as `min_bp`.
#[verifier::opaque]
pub open spec fn expr(toks: Stream, i: nat, min_bp: nat) -> Parsed<Span<Ast>>
    decreases remaining(toks, i), 3nat,
{
    match primary(toks, i) {
        Ok((left, c)) => match expr_tail(toks, i + c, left, min_bp) {
            Ok((whole, c2)) => Ok((whole, c + c2)),
            Err(e) => Err(e),
        },
        Err(e) => Err(e),
    }
}

/// The operators and operands that follow the operand `left`, as far as they
/// bind at least as tightly as `min_bp`.
#[verifier::opaque]
pub open spec fn expr_tail(toks: Stream, p: nat, left: Span<Ast>, min_bp: nat) -> Parsed<
    Span<Ast>,
>
    decreases remaining(toks, p), 2nat,
{
    match kind_at(toks, p) {
        Tok::EOF
        | Tok::Newline
        | Tok::RParen
        | Tok::RBracket
        | Tok::Comma
        | Tok::LBrace
        | Tok::RBrace
        | Tok::Equals => Ok((left, 0)),
        Tok::LBracket => if 11 < min_bp {
            Ok((left, 0))
        } else {
            match expr(toks, p + 1, 0) {
                Ok((index, c)) => if kind_at(toks, p + 1 + c) == Tok::RBracket {
                    match expr_tail(
                        toks,
                        p + 2 + c,
                        unplaced(Ast::IndexOp { object: Box::new(left), index: Box::new(index) }),
                        min_bp,
                    ) {
                        Ok((whole, c2)) => Ok((whole, 2 + c + c2)),
                        Err(e) => Err(e),
                    }
                } else {
                    Err(fault_at(toks, p + 1 + c, unexpected()))
                },
                Err(e) => Err(e),
            }
        },
        Tok::Op(op) => match infix_power(op) {
            Some((left_bp, right_bp)) => if left_bp < min_bp {
                Ok((left, 0))
            } else {
                match expr(toks, p + 1, right_bp) {
                    Ok((right, c)) => match expr_tail(
                        toks,
                        p + 1 + c,
                        unplaced(
                            Ast::InfixOp { op, left: Box::new(left), right: Box::new(right) },
                        ),
                        min_bp,
                    ) {
                        Ok((whole, c2)) => Ok((whole, 1 + c + c2)),
                        Err(e) => Err(e),
                    },
                    Err(e) => Err(e),
                }
            },
            None => Ok((left, 0)),
        },
        _ => Err(fault_at(toks, p, unexpected())),
    }
}

/// A block: `{`, one or more statements separated by newlines, `}`.
#[verifier::opaque]
pub open spec fn block(toks: Stream, i: nat) -> Parsed<Span<Ast>>
    decreases remaining(toks, i), 5nat,
{
    if kind_at(toks, i) == Tok::LBrace {
        match block_items(toks, i + 1, Seq::empty()) {
            Ok((nodes, c)) => Ok((unplaced(Ast::Block { nodes }), 1 + c)),
            Err(e) => Err(e),
        }
    } else {
        Err(fault_at(toks, i, unexpected()))
    }
}

/// The statements of a block from position `p` up to and including `}`,
/// appended to `acc`.
#[verifier::opaque]
pub open spec fn block_items(toks: Stream, p: nat, acc: Seq<Span<Ast>>) -> Parsed<
    Seq<Span<Ast>>,
>
    decreases remaining(toks, p), 12nat,
{
    let skip: nat = if kind_at(toks, p) == Tok::Newline {
        1
    } else {
        0
    };
    match statement(toks, p + skip) {
        Ok((s, c)) => {
            let q = p + skip + c;
            if kind_at(toks, q) == Tok::Newline {
                if kind_at(toks, q + 1) == Tok::RBrace {
                    Ok((acc.push(s), skip + c + 2))
                } else {
                    match block_items(toks, q + 1, acc.push(s)) {
                        Ok((nodes, c2)) => Ok((nodes, skip + c + 1 + c2)),
                        Err(e) => Err(e),
                    }
                }
            } else if kind_at(toks, q) == Tok::RBrace {
                Ok((acc.push(s), skip + c + 1))
            } else {
                Err(fault_at(toks, q, unexpected()))
            }
        },
        Err(e) => Err(e),
    }
}

/// What follows `if` or `elif`: a condition, a block, and an optional `elif`
/// or `else` part. Without one, the else branch is a block that holds the
/// undefined literal.
#[verifier::opaque]
pub open spec fn if_rest(toks: Stream, p: nat) -> Parsed<Span<Ast>>
    decreases remaining(toks, p), 6nat,
{
    match expr(toks, p, 0) {
        Ok((condition, c1)) => match block(toks, p + c1) {
            Ok((body, c2)) => {
                let q = p + c1 + c2;
                match kind_at(toks, q) {
                    Tok::Elif => match if_rest(toks, q + 1) {
                        Ok((else_body, c3)) => Ok(
                            (
                                unplaced(
                                    Ast::IfStatement {
                                        condition: Box::new(condition),
                                        body: Box::new(body),
                                        else_body: Box::new(else_body),
                                    },
                                ),
                                c1 + c2 + 1 + c3,
                            ),
                        ),
                        Err(e) => Err(e),
                    },
                    Tok::Else => match block(toks, q + 1) {
                        Ok((else_body, c3)) => Ok(
                            (
                                unplaced(
                                    Ast::IfStatement {
                                        condition: Box::new(condition),
                                        body: Box::new(body),
                                        else_body: Box::new(else_body),
                                    },
                                ),
                                c1 + c2 + 1 + c3,
                            ),
                        ),
                        Err(e) => Err(e),
                    },
                    _ => Ok(
                        (
                            unplaced(
                                Ast::IfStatement {
                                    condition: Box::new(condition),
                                    body: Box::new(body),
                                    else_body: Box::new(
                                        unplaced(Ast::Block { nodes: seq![undefined_literal()] }),
                                    ),
                                },
                            ),
                            c1 + c2,
                        ),
                    ),
                }
            },
            Err(e) => Err(e),
        },
        Err(e) => Err(e),
    }
}

/// What follows `while`: a condition and a block.
#[verifier::opaque]
pub open spec fn while_rest(toks: Stream, p: nat) -> Parsed<Span<Ast>>
    decreases remaining(toks, p), 6nat,
{
    match expr(toks, p, 0) {
        Ok((condition, c1)) => match block(toks, p + c1) {
            Ok((body, c2)) => Ok(
                (
                    unplaced(
                        Ast::WhileStatement {
                            condition: Box::new(condition),
                            body: Box::new(body),
                        },
                    ),
                    c1 + c2,
                ),
            ),
            Err(e) => Err(e),
        },
        Err(e) => Err(e),
    }
}

/// What follows `loop`: a block. The node is a `while` whose condition is the
/// literal `true`.
#[verifier::opaque]
pub open spec fn loop_rest(toks: Stream, p: nat) -> Parsed<Span<Ast>>
    decreases remaining(toks, p), 6nat,
{
    match block(toks, p) {
        Ok((body, c)) => Ok(
            (
                unplaced(
                    Ast::WhileStatement {
                        condition: Box::new(true_literal()),
                        body: Box::new(body),
                    },
                ),
                c,
            ),
        ),
        Err(e) => Err(e),
    }
}

/// An optional `: T`. Without it the type is `otherwise`.
pub open spec fn annotation(toks: Stream, p: nat, otherwise: Type) -> Parsed<Type> {
    if kind_at(toks, p) == Tok::Colon {
        match type_at(toks, p + 1) {
            Ok((t, c)) => Ok((t, 1 + c)),
            Err(e) => Err(e),
        }
    } else {
        Ok((otherwise, 0))
    }
}

/// What follows `var`: a name, an optional type and an optional initialiser.
#[verifier::opaque]
pub open spec fn var_rest(toks: Stream, p: nat) -> Parsed<Span<Ast>>
    decreases remaining(toks, p), 6nat,
{
    match kind_at(toks, p) {
        Tok::Ident(name) => match annotation(toks, p + 1, Type::Unknown) {
            Ok((typ, c1)) => if kind_at(toks, p + 1 + c1) == Tok::Equals {
                match expr(toks, p + 2 + c1, 0) {
                    Ok((value, c2)) => Ok(
                        (
                            unplaced(Ast::VarStatement { name, typ, value: Box::new(value) }),
                            2 + c1 + c2,
                        ),
                    ),
                    Err(e) => Err(e),
                }
            } else {
                Ok(
                    (
                        unplaced(
                            Ast::VarStatement {
                                name,
                                typ,
                                value: Box::new(undefined_literal()),
                            },
                        ),
                        1 + c1,
                    ),
                )
            },
            Err(e) => Err(e),
        },
        _ => Err(fault_at(toks, p, expected_ident())),
    }
}

/// What follows `const`: a name, an optional type, `=` and a value.
#[verifier::opaque]
pub open spec fn const_rest(toks: Stream, p: nat) -> Parsed<Span<Ast>>
    decreases remaining(toks, p), 6nat,
{
    match kind_at(toks, p) {
        Tok::Ident(name) => match annotation(toks, p + 1, Type::Unknown) {
            Ok((typ, c1)) => if kind_at(toks, p + 1 + c1) == Tok::Equals {
                match expr(toks, p + 2 + c1, 0) {
                    Ok((value, c2)) => Ok(
                        (
                            unplaced(Ast::ConstStatement { name, typ, value: Box::new(value) }),
                            2 + c1 + c2,
                        ),
                    ),
                    Err(e) => Err(e),
                }
            } else {
                Err(fault_at(toks, p + 1 + c1, unexpected()))
            },
            Err(e) => Err(e),
        },
        _ => Err(fault_at(toks, p, expected_ident())),
    }
}

/// The parameters of a procedure from position `p` up to and including `)`,
/// appended to `names` and `types`.
#[verifier::opaque]
pub open spec fn params(toks: Stream, p: nat, names: Seq<Seq<char>>, types: Seq<Type>) -> Parsed<
    (Seq<Seq<char>>, Seq<Type>),
>
    decreases remaining(toks, p),
{
    if kind_at(toks, p) == Tok::RParen {
        Ok(((names, types), 1))
    } else {
        match kind_at(toks, p) {
            Tok::Ident(name) => if kind_at(toks, p + 1) == Tok::Colon {
                match type_at(toks, p + 2) {
                    Ok((t, c)) => if kind_at(toks, p + 2 + c) == Tok::Comma {
                        match params(toks, p + 3 + c, names.push(name), types.push(t)) {
                            Ok((all, c2)) => Ok((all, 3 + c + c2)),
                            Err(e) => Err(e),
                        }
                    } else if kind_at(toks, p + 2 + c) == Tok::RParen {
                        Ok(((names.push(name), types.push(t)), 3 + c))
                    } else {
                        Err(fault_at(toks, p + 2 + c, unexpected()))
                    },
                    Err(e) => Err(e),
                }
            } else {
                Err(fault_at(toks, p + 1, unexpected()))
            },
            _ => Err(fault_at(toks, p, expected_ident())),
        }
    }
}

/// What follows `proc`: a name, the parameters in parentheses, an optional
/// return type (`Undefined` without one) and an optional block (an empty
/// block without one).
#[verifier::opaque]
pub open spec fn proc_rest(toks: Stream, p: nat) -> Parsed<Span<Ast>>
    decreases remaining(toks, p), 6nat,
{
    match kind_at(toks, p) {
        Tok::Ident(name) => if kind_at(toks, p + 1) == Tok::LParen {
            match params(toks, p + 2, Seq::empty(), Seq::empty()) {
                Ok(((args, arg_types), c1)) => match annotation(
                    toks,
                    p + 2 + c1,
                    Type::Undefined,
                ) {
                    Ok((ret_type, c2)) => if kind_at(toks, p + 2 + c1 + c2) == Tok::LBrace {
                        match block(toks, p + 2 + c1 + c2) {
                            Ok((body, c3)) => Ok(
                                (
                                    unplaced(
                                        Ast::ProcStatement {
                                            name,
                                            args,
                                            arg_types,
                                            ret_type,
                                            body: Box::new(body),
                                        },
                                    ),
                                    2 + c1 + c2 + c3,
                                ),
                            ),
                            Err(e) => Err(e),
                        }
                    } else {
                        Ok(
                            (
                                unplaced(
                                    Ast::ProcStatement {
                                        name,
                                        args,
                                        arg_types,
                                        ret_type,
                                        body: Box::new(
                                            unplaced(Ast::Block { nodes: Seq::empty() }),
                                        ),
                                    },
                                ),
                                2 + c1 + c2,
                            ),
                        )
                    },
                    Err(e) => Err(e),
                },
                Err(e) => Err(e),
            }
        } else {
            Err(fault_at(toks, p + 1, unexpected()))
        },
        _ => Err(fault_at(toks, p, expected_ident())),
    }
}

/// What follows `return`: the value.
#[verifier::opaque]
pub open spec fn return_rest(toks: Stream, p: nat) -> Parsed<Span<Ast>>
    decreases remaining(toks, p), 6nat,
{
    match expr(toks, p, 0) {
        Ok((val, c)) => Ok((unplaced(Ast::ReturnStatement { val: Box::new(val) }), c)),
        Err(e) => Err(e),
    }
}

/// A path of names separated by `.`, appended to `acc`.
#[verifier::opaque]
pub open spec fn use_path(toks: Stream, p: nat, acc: Seq<char>) -> Parsed<Seq<char>>
    decreases remaining(toks, p),
{
    match kind_at(toks, p) {
        Tok::Ident(name) => if kind_at(toks, p + 1) == Tok::Op("."@) {
            match use_path(toks, p + 2, acc + name + "."@) {
                Ok((path, c)) => Ok((path, 2 + c)),
                Err(e) => Err(e),
            }
        } else {
            Ok((acc + name, 1))
        },
        _ => Err(fault_at(toks, p, expected_ident())),
    }
}

/// What follows `use`: a path.
pub open spec fn use_rest(toks: Stream, p: nat) -> Parsed<Span<Ast>> {
    match use_path(toks, p, Seq::empty()) {
        Ok((path, c)) => Ok((unplaced(Ast::UseStatement { path }), c)),
        Err(e) => Err(e),
    }
}

/// What follows `name =`: the value assigned.
#[verifier::opaque]
pub open spec fn assign_rest(toks: Stream, p: nat, name: Seq<char>) -> Parsed<Span<Ast>>
    decreases remaining(toks, p), 6nat,
{
    match expr(toks, p, 0) {
        Ok((value, c)) => Ok(
            (unplaced(Ast::AssignStatement { name, value: Box::new(value) }), c),
        ),
        Err(e) => Err(e),
    }
}

/// The name and the index of `name[index]`, if the expression has that form.
pub open spec fn indexed_target(e: Span<Ast>) -> Option<(Seq<char>, Span<Ast>)> {
    match e.contents {
        Ast::IndexOp { object, index } => match object.contents {
            Ast::VariableRef { name } => Some((name, *index)),
            _ => None,
        },
        _ => None,
    }
}

/// A statement that starts with an expression: the expression itself, or an
/// assignment to `name[index]` when `=` follows it.
#[verifier::opaque]
pub open spec fn expr_statement(toks: Stream, i: nat) -> Parsed<Span<Ast>>
    decreases remaining(toks, i), 6nat,
{
    match expr(toks, i, 0) {
        Ok((e, c)) => if kind_at(toks, i + c) == Tok::Equals {
            match indexed_target(e) {
                Some((name, index)) => match expr(toks, i + c + 1, 0) {
                    Ok((value, c2)) => Ok(
                        (
                            unplaced(
                                Ast::IndexedAssignStatement {
                                    name,
                                    index: Box::new(index),
                                    value: Box::new(value),
                                },
                            ),
                            c + 1 + c2,
                        ),
                    ),
                    Err(e2) => Err(e2),
                },
                None => Err(fault_at(toks, i + c, unexpected())),
            }
        } else {
            Ok((e, c))
        },
        Err(e) => Err(e),
    }
}

/// Adds `n` to the count of a result.
pub open spec fn after<T>(n: nat, r: Parsed<T>) -> Parsed<T> {
    match r {
        Ok((v, c)) => Ok((v, n + c)),
        Err(e) => Err(e),
    }
}

/// A rule that starts with the keyword `kw`: the keyword, then `rest`.
pub open spec fn keyword<T>(toks: Stream, i: nat, kw: Tok, rest: Parsed<T>) -> Parsed<T> {
    if kind_at(toks, i) == kw {
        after(1, rest)
    } else {
        Err(fault_at(toks, i, unexpected()))
    }
}

/// An assignment: a name, `=` and the value.
pub open spec fn assignment(toks: Stream, i: nat) -> Parsed<Span<Ast>> {
    match kind_at(toks, i) {
        Tok::Ident(name) => if kind_at(toks, i + 1) == Tok::Equals {
            after(2, assign_rest(toks, i + 2, name))
        } else {
            Err(fault_at(toks, i + 1, unexpected()))
        },
        _ => Err(fault_at(toks, i, expected_ident())),
    }
}

/// A statement. The first token decides which: a keyword, a name followed by
/// `=` (an assignment), or the start of an expression.
#[verifier::opaque]
pub open spec fn statement(toks: Stream, i: nat) -> Parsed<Span<Ast>>
    decreases remaining(toks, i), 11nat,
{
    match kind_at(toks, i) {
        Tok::If => after(1, if_rest(toks, i + 1)),
        Tok::While => after(1, while_rest(toks, i + 1)),
        Tok::Loop => after(1, loop_rest(toks, i + 1)),
        Tok::Var => after(1, var_rest(toks, i + 1)),
        Tok::Const => after(1, const_rest(toks, i + 1)),
        Tok::Proc => after(1, proc_rest(toks, i + 1)),
        Tok::Return => after(1, return_rest(toks, i + 1)),
        Tok::Use => after(1, use_rest(toks, i + 1)),
        Tok::Ident(_) => if kind_at(toks, i + 1) == Tok::Equals {
            assignment(toks, i)
        } else {
            expr_statement(toks, i)
        },
        _ => expr_statement(toks, i),
    }
}

/// True of the statements that may stand at the top level of a module.
pub open spec fn top_level(node: Ast) -> bool {
    node is ProcStatement || node is ConstStatement || node is UseStatement
}

/// The declarations of a module from position `p` to the end of the stream,
/// appended to `acc`. Newlines and doc comments between them are skipped, and
/// each declaration ends with a newline.
#[verifier::opaque]
pub open spec fn program(toks: Stream, p: nat, acc: Seq<Span<Ast>>) -> Parsed<Seq<Span<Ast>>>
    decreases remaining(toks, p), 13nat,
{
    let k = kind_at(toks, p);
    if k is Newline || k is DocComment {
        if kind_at(toks, p + 1) is EOF {
            Ok((acc, 1))
        } else {
            after(1, program(toks, p + 1, acc))
        }
    } else {
        match statement(toks, p) {
            Ok((s, c)) => if !top_level(s.contents) {
                Err(syntax_record(not_top_level(), s.pos, s.len))
            } else if kind_at(toks, p + c) is Newline {
                if kind_at(toks, p + c + 1) is EOF {
                    Ok((acc.push(s), c + 1))
                } else {
                    after(c + 1, program(toks, p + c + 1, acc.push(s)))
                }
            } else {
                Err(fault_at(toks, p + c, unexpected()))
            },
            Err(e) => Err(e),
        }
    }
}

/// The syntax trees of the declarations in a token stream, or the error that
/// parsing it reports.
pub open spec fn parse(toks: Stream) -> Result<Seq<Span<Ast>>, ErrorRecord> {
    match program(toks, 0, Seq::empty()) {
        Ok((nodes, _)) => Ok(nodes),
        Err(e) => Err(e),
    }
}

} // verus!
