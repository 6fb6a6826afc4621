//! Lowering does not depend on which labels are free: from another label
//! counter it gives the same code with other labels.

use vstd::prelude::*;
use crate::astgen::Ast;
use crate::errors::Span;
use crate::ir::{at, ends_in_return, Code, Instr, Op, Unit};
use crate::lowering::{
    else_part, end_part, find_const, fresh, if_code, infix_op, known, labels, last_type, lower,
    lower_all, prefix_op, then_part, while_code,
};
use crate::scopes::lookup;
use crate::types::Type;

verus! {

/// An instruction with `d` added to each of its labels.
pub open spec fn relabel(ins: Op, d: int) -> Op {
    match ins {
        Op::Label(l) => Op::Label((l + d) as u64),
        Op::Jump(l) => Op::Jump((l + d) as u64),
        Op::Branch(a, b) => Op::Branch((a + d) as u64, (b + d) as u64),
        _ => ins,
    }
}

/// Code with `d` added to each label. Nothing else changes.
pub open spec fn shifted(code: Code, d: int) -> Code {
    Seq::new(
        code.len(),
        |i: int|
            Span {
                contents: Instr {
                    ins: relabel(code[i].contents.ins, d),
                    typ: code[i].contents.typ,
                },
                pos: code[i].pos,
                len: code[i].len,
            },
    )
}

/// A unit with `d` added to its label counter.
pub open spec fn moved(unit: Unit, d: int) -> Unit {
    Unit { next_label: (unit.next_label + d) as u64, ..unit }
}

/// Shifting two pieces in a row shifts each.
pub proof fn lemma_shifted_concat(a: Code, b: Code, d: int)
    ensures
        shifted(a + b, d) == shifted(a, d) + shifted(b, d),
{
    assert(shifted(a + b, d) =~= shifted(a, d) + shifted(b, d));
}

/// Shifting code with an instruction at its end shifts both.
pub proof fn lemma_shifted_push(a: Code, last: Span<Instr>, d: int)
    ensures
        shifted(a.push(last), d) == shifted(a, d).push(
            Span {
                contents: Instr { ins: relabel(last.contents.ins, d), typ: last.contents.typ },
                pos: last.pos,
                len: last.len,
            },
        ),
        ends_in_return(shifted(a, d)) == ends_in_return(a),
        last_type(shifted(a, d)) == last_type(a),
{
    assert(shifted(a.push(last), d) =~= shifted(a, d).push(
        Span {
            contents: Instr { ins: relabel(last.contents.ins, d), typ: last.contents.typ },
            pos: last.pos,
            len: last.len,
        },
    ));
}

/// Shifting the code of an `if` is the code of the `if` with shifted parts
/// and a shifted first label.
pub proof fn lemma_if_shifted(
    cc: Code,
    bc: Code,
    ec: Code,
    first: u64,
    pos: usize,
    len: usize,
    d: int,
)
    requires
        first <= u64::MAX - 3,
        0 <= first + d <= u64::MAX - 3,
    ensures
        shifted(if_code(cc, bc, ec, first, pos, len), d) == if_code(
            shifted(cc, d),
            shifted(bc, d),
            shifted(ec, d),
            (first + d) as u64,
            pos,
            len,
        ),
{
    lemma_shifted_push(bc, at(Op::Return, Type::Undefined, pos, len), d);
    lemma_shifted_push(ec, at(Op::Return, Type::Undefined, pos, len), d);
    let second = (first + d) as u64;
    assert(shifted(then_part(bc, first, pos, len), d) =~= then_part(
        shifted(bc, d),
        second,
        pos,
        len,
    ));
    assert(shifted(else_part(ec, first, pos, len), d) =~= else_part(
        shifted(ec, d),
        second,
        pos,
        len,
    ));
    assert(shifted(end_part(bc, ec, first, pos, len), d) =~= end_part(
        shifted(bc, d),
        shifted(ec, d),
        second,
        pos,
        len,
    ));
    let p2 = then_part(bc, first, pos, len);
    let p3 = else_part(ec, first, pos, len);
    let p4 = end_part(bc, ec, first, pos, len);
    lemma_shifted_concat(cc, p2, d);
    lemma_shifted_concat(cc + p2, p3, d);
    lemma_shifted_concat(cc + p2 + p3, p4, d);
}

/// Shifting the code of a `while` is the code of the `while` with shifted
/// parts and a shifted first label.
pub proof fn lemma_while_shifted(cc: Code, bc: Code, first: u64, pos: usize, len: usize, d: int)
    requires
        first <= u64::MAX - 3,
        0 <= first + d <= u64::MAX - 3,
    ensures
        shifted(while_code(cc, bc, first, pos, len), d) == while_code(
            shifted(cc, d),
            shifted(bc, d),
            (first + d) as u64,
            pos,
            len,
        ),
{
    lemma_shifted_push(bc, at(Op::Return, Type::Undefined, pos, len), d);
    assert(shifted(while_code(cc, bc, first, pos, len), d) =~= while_code(
        shifted(cc, d),
        shifted(bc, d),
        (first + d) as u64,
        pos,
        len,
    ));
}

/// What lowering from a moved label counter gives, if both lowerings
/// succeed: the same code with shifted labels, and the same unit with a
/// moved label counter.
pub open spec fn same_but_labels(
    one: Result<(Code, Unit), crate::lowering::Failure>,
    other: Result<(Code, Unit), crate::lowering::Failure>,
    d: int,
) -> bool {
    match (one, other) {
        (Ok((c1, v1)), Ok((c2, v2))) => c2 == shifted(c1, d) && v2 == moved(v1, d) && 0
            <= v1.next_label + d <= u64::MAX,
        _ => true,
    }
}

/// Lowering a node from a label counter moved by `d` gives the same code
/// with `d` added to each label.
pub proof fn lemma_lower_shift(unit: Unit, node: Span<Ast>, depth: nat, d: int)
    requires
        0 <= unit.next_label + d <= u64::MAX,
    ensures
        same_but_labels(lower(unit, node, depth), lower(moved(unit, d), node, depth), d),
    decreases depth, node, 1nat,
{
    let pos = node.pos;
    let len = node.len;
    let other = moved(unit, d);
    let none = Seq::<Span<Instr>>::empty();
    assert(shifted(none, d) =~= none);
    match node.contents {
        Ast::Literal { typ, value } => {
            match known(unit, typ, pos, len) {
                Ok((t, u)) => {
                    assert(known(other, typ, pos, len) == Ok::<
                        (Type, Unit),
                        crate::lowering::Failure,
                    >((t, moved(u, d))));
                    assert(shifted(seq![at(Op::Push(value), t, pos, len)], d) =~= seq![
                        at(Op::Push(value), t, pos, len),
                    ]);
                },
                Err(_) => {},
            }
        },
        Ast::Call { name, args } => {
            match crate::inference::find_proc(unit.procs, name) {
                Some(k) => {
                    lemma_lower_all_shift(unit, args, 0, depth, d);
                    match (lower_all(unit, args, 0, depth), lower_all(other, args, 0, depth)) {
                        (Ok((c1, u1)), Ok((c2, w1))) => {
                            match known(u1, unit.procs[k].ret_type, pos, len) {
                                Ok((t, u2)) => {
                                    assert(known(w1, unit.procs[k].ret_type, pos, len) == Ok::<
                                        (Type, Unit),
                                        crate::lowering::Failure,
                                    >((t, moved(u2, d))));
                                    lemma_shifted_push(c1, at(Op::Call(name), t, pos, len), d);
                                },
                                Err(_) => {},
                            }
                        },
                        _ => {},
                    }
                },
                None => {},
            }
        },
        Ast::InfixOp { op, left, right } => {
            lemma_lower_shift(unit, *left, depth, d);
            match (lower(unit, *left, depth), lower(other, *left, depth)) {
                (Ok((c1, u1)), Ok((e1, w1))) => {
                    lemma_lower_shift(u1, *right, depth, d);
                    match (lower(u1, *right, depth), lower(w1, *right, depth)) {
                        (Ok((c2, u2)), Ok((e2, w2))) => {
                            lemma_shifted_concat(c1, c2, d);
                            match infix_op(op) {
                                Some(o) => {
                                    match fresh(u2, pos, len) {
                                        Ok((t, u3)) => {
                                            assert(fresh(w2, pos, len) == Ok::<
                                                (Type, Unit),
                                                crate::lowering::Failure,
                                            >((t, moved(u3, d))));
                                            lemma_shifted_push(c1 + c2, at(o, t, pos, len), d);
                                        },
                                        Err(_) => {},
                                    }
                                },
                                None => {},
                            }
                        },
                        _ => {},
                    }
                },
                _ => {},
            }
        },
        Ast::PrefixOp { op, right } => {
            lemma_lower_shift(unit, *right, depth, d);
            match (lower(unit, *right, depth), lower(other, *right, depth)) {
                (Ok((c1, u1)), Ok((e1, w1))) => {
                    match prefix_op(op) {
                        Some(o) => {
                            match fresh(u1, pos, len) {
                                Ok((t, u2)) => {
                                    assert(fresh(w1, pos, len) == Ok::<
                                        (Type, Unit),
                                        crate::lowering::Failure,
                                    >((t, moved(u2, d))));
                                    lemma_shifted_push(c1, at(o, t, pos, len), d);
                                },
                                Err(_) => {},
                            }
                        },
                        None => {},
                    }
                },
                _ => {},
            }
        },
        Ast::VariableRef { name } => {
            match find_const(unit.consts, name) {
                Some(value) => {
                    if depth > 0 {
                        lemma_lower_shift(unit, value, (depth - 1) as nat, d);
                    }
                },
                None => {
                    match lookup(unit.scopes, name) {
                        Some(typ) => {
                            match known(unit, typ, pos, len) {
                                Ok((t, u)) => {
                                    assert(known(other, typ, pos, len) == Ok::<
                                        (Type, Unit),
                                        crate::lowering::Failure,
                                    >((t, moved(u, d))));
                                    assert(shifted(seq![at(Op::Load(name), t, pos, len)], d)
                                        =~= seq![at(Op::Load(name), t, pos, len)]);
                                },
                                Err(_) => {},
                            }
                        },
                        None => {},
                    }
                },
            }
        },
        Ast::IfStatement { condition, body, else_body } => {
            match (labels(unit, pos, len), labels(other, pos, len)) {
                (Ok((first, u0)), Ok((second, w0))) => {
                    assert(w0 == moved(u0, d));
                    lemma_lower_shift(u0, *condition, depth, d);
                    match (lower(u0, *condition, depth), lower(w0, *condition, depth)) {
                        (Ok((cc, u1)), Ok((cd, w1))) => {
                            lemma_lower_shift(u1, *body, depth, d);
                            match (lower(u1, *body, depth), lower(w1, *body, depth)) {
                                (Ok((bc, u2)), Ok((bd, w2))) => {
                                    lemma_lower_shift(u2, *else_body, depth, d);
                                    match (
                                        lower(u2, *else_body, depth),
                                        lower(w2, *else_body, depth),
                                    ) {
                                        (Ok((ec, u3)), Ok((ed, w3))) => {
                                            lemma_if_shifted(cc, bc, ec, first, pos, len, d);
                                        },
                                        _ => {},
                                    }
                                },
                                _ => {},
                            }
                        },
                        _ => {},
                    }
                },
                _ => {},
            }
        },
        Ast::WhileStatement { condition, body } => {
            match (labels(unit, pos, len), labels(other, pos, len)) {
                (Ok((first, u0)), Ok((second, w0))) => {
                    assert(w0 == moved(u0, d));
                    lemma_lower_shift(u0, *condition, depth, d);
                    match (lower(u0, *condition, depth), lower(w0, *condition, depth)) {
                        (Ok((cc, u1)), Ok((cd, w1))) => {
                            lemma_lower_shift(u1, *body, depth, d);
                            match (lower(u1, *body, depth), lower(w1, *body, depth)) {
                                (Ok((bc, u2)), Ok((bd, w2))) => {
                                    lemma_while_shifted(cc, bc, first, pos, len, d);
                                },
                                _ => {},
                            }
                        },
                        _ => {},
                    }
                },
                _ => {},
            }
        },
        Ast::Block { nodes } => {
            lemma_lower_all_shift(unit, nodes, 0, depth, d);
        },
        Ast::VarStatement { name, typ, value } => {
            match known(unit, typ, pos, len) {
                Ok((t, u0)) => {
                    assert(known(other, typ, pos, len) == Ok::<
                        (Type, Unit),
                        crate::lowering::Failure,
                    >((t, moved(u0, d))));
                    lemma_lower_shift(u0, *value, depth, d);
                    match lower(u0, *value, depth) {
                        Ok((code, u1)) => {
                            lemma_shifted_push(code, at(Op::Allocate(name), t, pos, len), d);
                        },
                        Err(_) => {},
                    }
                },
                Err(_) => {},
            }
        },
        Ast::AssignStatement { name, value } => {
            lemma_lower_shift(unit, *value, depth, d);
            match (lower(unit, *value, depth), lower(other, *value, depth)) {
                (Ok((code, u1)), Ok((e1, w1))) => {
                    match lookup(u1.scopes, name) {
                        Some(typ) => {
                            match known(u1, typ, pos, len) {
                                Ok((t, u2)) => {
                                    assert(known(w1, typ, pos, len) == Ok::<
                                        (Type, Unit),
                                        crate::lowering::Failure,
                                    >((t, moved(u2, d))));
                                    lemma_shifted_push(code, at(Op::Store(name), t, pos, len), d);
                                },
                                Err(_) => {},
                            }
                        },
                        None => {},
                    }
                },
                _ => {},
            }
        },
        Ast::ReturnStatement { val } => {
            lemma_lower_shift(unit, *val, depth, d);
            match lower(unit, *val, depth) {
                Ok((code, u1)) => {
                    lemma_shifted_push(code, at(Op::Return, last_type(code), pos, len), d);
                },
                Err(_) => {},
            }
        },
        _ => {},
    }
}

/// Lowering a list from a label counter moved by `d` gives the same code
/// with `d` added to each label.
pub proof fn lemma_lower_all_shift(unit: Unit, nodes: Seq<Span<Ast>>, k: int, depth: nat, d: int)
    requires
        0 <= unit.next_label + d <= u64::MAX,
    ensures
        same_but_labels(
            lower_all(unit, nodes, k, depth),
            lower_all(moved(unit, d), nodes, k, depth),
            d,
        ),
    decreases depth, nodes, nodes.len() - k,
{
    let none = Seq::<Span<Instr>>::empty();
    assert(shifted(none, d) =~= none);
    if !(k < 0 || k >= nodes.len()) {
        lemma_lower_shift(unit, nodes[k], depth, d);
        match (lower(unit, nodes[k], depth), lower(moved(unit, d), nodes[k], depth)) {
            (Ok((first, u1)), Ok((other, w1))) => {
                lemma_lower_all_shift(u1, nodes, k + 1, depth, d);
                match lower_all(u1, nodes, k + 1, depth) {
                    Ok((rest, u2)) => {
                        lemma_shifted_concat(first, rest, d);
                    },
                    Err(_) => {},
                }
            },
            _ => {},
        }
    }
}

} // verus!
