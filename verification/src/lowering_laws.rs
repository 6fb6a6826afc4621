//! What holds of the code that lowering produces.

use vstd::prelude::*;
use crate::astgen::Ast;
use crate::errors::Span;
use crate::inference::find_proc;
use crate::ir::{
    all_bounded, at, bounded, closed, ends_in_return, has_label, lemma_bounded_later,
    lemma_proc_bounded_later, proc_bounded, resolved, targets_in, typed, well_formed, within,
    Code, Op, Proc, Unit,
};
use crate::lowering::{
    else_part, end_part, find_const, fresh, if_code, jump_unless_returned, known, labels,
    last_type, lower, lower_all, lower_proc, puts, replace_first, then_part, while_code,
};
use crate::scopes::{
    lemma_bind_all_below, lemma_declare_below, lemma_scopes_below_later, lookup, scopes_below,
};
use crate::types::{below, lemma_below_later, Type};

verus! {

/// Lowering never puts the elided type on an instruction.
pub proof fn lemma_lower_typed(unit: Unit, node: Span<Ast>, depth: nat)
    ensures
        match lower(unit, node, depth) {
            Ok((code, _)) => typed(code),
            Err(_) => true,
        },
    decreases depth, node, 1nat,
{
    let pos = node.pos;
    let len = node.len;
    match node.contents {
        Ast::Literal { typ, value } => {},
        Ast::Call { name, args } => {
            lemma_lower_all_typed(unit, args, 0, depth);
        },
        Ast::InfixOp { op, left, right } => {
            lemma_lower_typed(unit, *left, depth);
            match lower(unit, *left, depth) {
                Ok((c1, u1)) => {
                    lemma_lower_typed(u1, *right, depth);
                },
                Err(_) => {},
            }
        },
        Ast::PrefixOp { op, right } => {
            lemma_lower_typed(unit, *right, depth);
        },
        Ast::VariableRef { name } => {
            match find_const(unit.consts, name) {
                Some(value) => {
                    if depth > 0 {
                        lemma_lower_typed(unit, value, (depth - 1) as nat);
                    }
                },
                None => {},
            }
        },
        Ast::IfStatement { condition, body, else_body } => {
            match labels(unit, pos, len) {
                Ok((first, u0)) => {
                    lemma_lower_typed(u0, *condition, depth);
                    match lower(u0, *condition, depth) {
                        Ok((cc, u1)) => {
                            lemma_lower_typed(u1, *body, depth);
                            match lower(u1, *body, depth) {
                                Ok((bc, u2)) => {
                                    lemma_lower_typed(u2, *else_body, depth);
                                },
                                Err(_) => {},
                            }
                        },
                        Err(_) => {},
                    }
                },
                Err(_) => {},
            }
        },
        Ast::WhileStatement { condition, body } => {
            match labels(unit, pos, len) {
                Ok((first, u0)) => {
                    lemma_lower_typed(u0, *condition, depth);
                    match lower(u0, *condition, depth) {
                        Ok((cc, u1)) => {
                            lemma_lower_typed(u1, *body, depth);
                        },
                        Err(_) => {},
                    }
                },
                Err(_) => {},
            }
        },
        Ast::Block { nodes } => {
            lemma_lower_all_typed(unit, nodes, 0, depth);
        },
        Ast::VarStatement { name, typ, value } => {
            match known(unit, typ, pos, len) {
                Ok((t, u0)) => {
                    lemma_lower_typed(u0, *value, depth);
                },
                Err(_) => {},
            }
        },
        Ast::AssignStatement { name, value } => {
            lemma_lower_typed(unit, *value, depth);
        },
        Ast::ReturnStatement { val } => {
            lemma_lower_typed(unit, *val, depth);
        },
        _ => {},
    }
}

/// Lowering a list never puts the elided type on an instruction.
pub proof fn lemma_lower_all_typed(unit: Unit, nodes: Seq<Span<Ast>>, k: int, depth: nat)
    ensures
        match lower_all(unit, nodes, k, depth) {
            Ok((code, _)) => typed(code),
            Err(_) => true,
        },
    decreases depth, nodes, nodes.len() - k,
{
    if !(k < 0 || k >= nodes.len()) {
        lemma_lower_typed(unit, nodes[k], depth);
        match lower(unit, nodes[k], depth) {
            Ok((first, u1)) => {
                lemma_lower_all_typed(u1, nodes, k + 1, depth);
            },
            Err(_) => {},
        }
    }
}

/// The body of a lowered procedure is typed.
pub proof fn lemma_lower_proc_typed(unit: Unit, node: Span<Ast>, depth: nat)
    ensures
        match lower_proc(unit, node, depth) {
            Ok((p, _)) => typed(p.body),
            Err(_) => true,
        },
{
    match node.contents {
        Ast::ProcStatement { name, args, arg_types, ret_type, body } => {
            match body.contents {
                Ast::Block { nodes } => {
                    lemma_lower_all_typed(
                        Unit {
                            scopes: unit.scopes.push(crate::scopes::bind_all(args, arg_types)),
                            ..unit
                        },
                        nodes,
                        0,
                        depth,
                    );
                },
                _ => {},
            }
        },
        _ => {},
    }
}

/// A label of a piece is a label of the whole.
pub proof fn lemma_label_kept(before: Code, part: Code, after: Code, l: u64)
    requires
        has_label(part, l),
    ensures
        has_label(before + part + after, l),
{
    let j = choose|j: int| 0 <= j < part.len() && (#[trigger] part[j]).contents.ins == Op::Label(l);
    let whole = before + part + after;
    assert(whole[before.len() + j] == part[j]);
}

/// The targets of a piece stay in reach when code is put around what they
/// were in.
pub proof fn lemma_targets_widen(part: Code, inner: Code, before: Code, after: Code)
    requires
        targets_in(part, inner),
    ensures
        targets_in(part, before + inner + after),
{
    let whole = before + inner + after;
    assert forall|i: int| 0 <= i < part.len() implies match (#[trigger] part[i]).contents.ins {
        Op::Jump(l) => has_label(whole, l),
        Op::Branch(a, b) => has_label(whole, a) && has_label(whole, b),
        _ => true,
    } by {
        match part[i].contents.ins {
            Op::Jump(l) => {
                lemma_label_kept(before, inner, after, l);
            },
            Op::Branch(a, b) => {
                lemma_label_kept(before, inner, after, a);
                lemma_label_kept(before, inner, after, b);
            },
            _ => {},
        }
    }
}

/// The targets of two pieces in a row are in reach if those of each are.
pub proof fn lemma_targets_concat(a: Code, b: Code, whole: Code)
    requires
        targets_in(a, whole),
        targets_in(b, whole),
    ensures
        targets_in(a + b, whole),
{
    assert forall|i: int| 0 <= i < (a + b).len() implies match (#[trigger] (a + b)[i]).contents.ins {
        Op::Jump(l) => has_label(whole, l),
        Op::Branch(x, y) => has_label(whole, x) && has_label(whole, y),
        _ => true,
    } by {
        if i < a.len() {
            assert((a + b)[i] == a[i]);
        } else {
            assert((a + b)[i] == b[i - a.len()]);
        }
    }
}

/// Closed code followed by closed code is closed.
pub proof fn lemma_closed_concat(a: Code, b: Code)
    requires
        closed(a),
        closed(b),
    ensures
        closed(a + b),
{
    lemma_targets_widen(a, a, Seq::empty(), b);
    assert(Seq::<Span<crate::ir::Instr>>::empty() + a + b =~= a + b);
    lemma_targets_widen(b, b, a, Seq::empty());
    assert(a + b + Seq::<Span<crate::ir::Instr>>::empty() =~= a + b);
    lemma_targets_concat(a, b, a + b);
}

/// Closed code followed by an instruction that jumps nowhere is closed.
pub proof fn lemma_closed_push(a: Code, last: Span<crate::ir::Instr>)
    requires
        closed(a),
        !(last.contents.ins is Jump),
        !(last.contents.ins is Branch),
    ensures
        closed(a.push(last)),
{
    assert(a.push(last) =~= a + seq![last]);
    assert(closed(seq![last]));
    lemma_closed_concat(a, seq![last]);
}

/// The targets of the branch with the body are in reach where its labels
/// and the targets of the body are.
pub proof fn lemma_then_part(bc: Code, first: u64, pos: usize, len: usize, whole: Code)
    requires
        targets_in(bc, whole),
        has_label(whole, first),
        has_label(whole, (first + 1) as u64),
        !ends_in_return(bc) ==> has_label(whole, (first + 2) as u64),
    ensures
        targets_in(then_part(bc, first, pos, len), whole),
{
    let head = seq![
        at(Op::Branch(first, (first + 1) as u64), Type::NoReturn, pos, len),
        at(Op::Label(first), Type::Undefined, pos, len),
    ];
    let jump = jump_unless_returned(bc, (first + 2) as u64, pos, len);
    assert(targets_in(head, whole));
    assert(targets_in(jump, whole));
    lemma_targets_concat(head, bc, whole);
    lemma_targets_concat(head + bc, jump, whole);
}

/// The targets of the else branch are in reach where the label of the end
/// and the targets of its code are.
pub proof fn lemma_else_part(ec: Code, first: u64, pos: usize, len: usize, whole: Code)
    requires
        targets_in(ec, whole),
        !ends_in_return(ec) ==> has_label(whole, (first + 2) as u64),
    ensures
        targets_in(else_part(ec, first, pos, len), whole),
{
    let head = seq![at(Op::Label((first + 1) as u64), Type::Undefined, pos, len)];
    let jump = jump_unless_returned(ec, (first + 2) as u64, pos, len);
    assert(targets_in(head, whole));
    assert(targets_in(jump, whole));
    lemma_targets_concat(head, ec, whole);
    lemma_targets_concat(head + ec, jump, whole);
}

/// The code of an `if` is closed if the codes of its parts are.
pub proof fn lemma_if_closed(cc: Code, bc: Code, ec: Code, first: u64, pos: usize, len: usize)
    requires
        closed(cc),
        closed(bc),
        closed(ec),
        first <= u64::MAX - 3,
    ensures
        closed(if_code(cc, bc, ec, first, pos, len)),
{
    let p1 = cc;
    let p2 = then_part(bc, first, pos, len);
    let p3 = else_part(ec, first, pos, len);
    let p4 = end_part(bc, ec, first, pos, len);
    let whole = if_code(cc, bc, ec, first, pos, len);
    let none = Seq::<Span<crate::ir::Instr>>::empty();
    assert(whole =~= none + p1 + (p2 + p3 + p4));
    assert(whole =~= p1 + p2 + (p3 + p4));
    assert(whole =~= (p1 + p2) + p3 + p4);
    assert(whole =~= (p1 + p2 + p3) + p4 + none);
    assert(has_label(whole, first)) by {
        assert(p2[1].contents.ins == Op::Label(first));
        lemma_label_kept(p1, p2, p3 + p4, first);
    }
    assert(has_label(whole, (first + 1) as u64)) by {
        assert(p3[0].contents.ins == Op::Label((first + 1) as u64));
        lemma_label_kept(p1 + p2, p3, p4, (first + 1) as u64);
    }
    if !(ends_in_return(bc) && ends_in_return(ec)) {
        assert(has_label(whole, (first + 2) as u64)) by {
            assert(p4[0].contents.ins == Op::Label((first + 2) as u64));
            lemma_label_kept(p1 + p2 + p3, p4, none, (first + 2) as u64);
        }
    }
    assert(targets_in(cc, whole)) by {
        lemma_targets_widen(p1, p1, none, p2 + p3 + p4);
    }
    assert(targets_in(bc, whole)) by {
        let head = seq![
            at(Op::Branch(first, (first + 1) as u64), Type::NoReturn, pos, len),
            at(Op::Label(first), Type::Undefined, pos, len),
        ];
        let jump = jump_unless_returned(bc, (first + 2) as u64, pos, len);
        assert(whole =~= (p1 + head) + bc + (jump + p3 + p4));
        lemma_targets_widen(bc, bc, p1 + head, jump + p3 + p4);
    }
    assert(targets_in(ec, whole)) by {
        let head = seq![at(Op::Label((first + 1) as u64), Type::Undefined, pos, len)];
        let jump = jump_unless_returned(ec, (first + 2) as u64, pos, len);
        assert(whole =~= (p1 + p2 + head) + ec + (jump + p4));
        lemma_targets_widen(ec, ec, p1 + p2 + head, jump + p4);
    }
    lemma_then_part(bc, first, pos, len, whole);
    lemma_else_part(ec, first, pos, len, whole);
    assert(targets_in(p4, whole));
    lemma_targets_concat(p1, p2, whole);
    lemma_targets_concat(p1 + p2, p3, whole);
    lemma_targets_concat(p1 + p2 + p3, p4, whole);
}

/// The code of a `while` is closed if the codes of its parts are.
pub proof fn lemma_while_closed(cc: Code, bc: Code, first: u64, pos: usize, len: usize)
    requires
        closed(cc),
        closed(bc),
        first <= u64::MAX - 3,
    ensures
        closed(while_code(cc, bc, first, pos, len)),
{
    let cond_label = first;
    let body_label = (first + 1) as u64;
    let end_label = (first + 2) as u64;
    let p1 = seq![
        at(Op::Jump(cond_label), Type::Undefined, pos, len),
        at(Op::Label(cond_label), Type::Undefined, pos, len),
    ];
    let p2 = cc;
    let p3 = seq![
        at(Op::Branch(body_label, end_label), Type::NoReturn, pos, len),
        at(Op::Label(body_label), Type::Undefined, pos, len),
    ];
    let p4 = bc;
    let p5 = jump_unless_returned(bc, cond_label, pos, len);
    let p6 = seq![at(Op::Label(end_label), Type::Undefined, pos, len)];
    let whole = while_code(cc, bc, first, pos, len);
    let none = Seq::<Span<crate::ir::Instr>>::empty();
    assert(whole == p1 + p2 + p3 + p4 + p5 + p6);
    assert(whole =~= none + p1 + (p2 + p3 + p4 + p5 + p6));
    assert(whole =~= p1 + p2 + (p3 + p4 + p5 + p6));
    assert(whole =~= (p1 + p2) + p3 + (p4 + p5 + p6));
    assert(whole =~= (p1 + p2 + p3) + p4 + (p5 + p6));
    assert(whole =~= (p1 + p2 + p3 + p4 + p5) + p6 + none);
    assert(p1[1].contents.ins == Op::Label(cond_label));
    lemma_label_kept(none, p1, p2 + p3 + p4 + p5 + p6, cond_label);
    assert(p3[1].contents.ins == Op::Label(body_label));
    lemma_label_kept(p1 + p2, p3, p4 + p5 + p6, body_label);
    assert(p6[0].contents.ins == Op::Label(end_label));
    lemma_label_kept(p1 + p2 + p3 + p4 + p5, p6, none, end_label);
    assert(targets_in(p1, whole));
    assert(targets_in(p3, whole));
    assert(targets_in(p5, whole));
    assert(targets_in(p6, whole));
    lemma_targets_widen(p2, p2, p1, p3 + p4 + p5 + p6);
    lemma_targets_widen(p4, p4, p1 + p2 + p3, p5 + p6);
    lemma_targets_concat(p1, p2, whole);
    lemma_targets_concat(p1 + p2, p3, whole);
    lemma_targets_concat(p1 + p2 + p3, p4, whole);
    lemma_targets_concat(p1 + p2 + p3 + p4, p5, whole);
    lemma_targets_concat(p1 + p2 + p3 + p4 + p5, p6, whole);
}

/// Two pieces in a row call declared procedures if each does.
pub proof fn lemma_resolved_concat(a: Code, b: Code, procs: Seq<Proc>)
    requires
        resolved(a, procs),
        resolved(b, procs),
    ensures
        resolved(a + b, procs),
{
    assert forall|i: int| 0 <= i < (a + b).len() implies match (#[trigger] (a + b)[i]).contents.ins {
        Op::Call(name) => find_proc(procs, name) is Some,
        _ => true,
    } by {
        if i < a.len() {
            assert((a + b)[i] == a[i]);
        } else {
            assert((a + b)[i] == b[i - a.len()]);
        }
    }
}

/// Two pieces in a row keep their labels in a range that holds the ranges
/// of both.
pub proof fn lemma_within_concat(a: Code, b: Code, lo: int, hi: int)
    requires
        within(a, lo, hi),
        within(b, lo, hi),
    ensures
        within(a + b, lo, hi),
{
    assert forall|i: int| 0 <= i < (a + b).len() implies match (#[trigger] (a + b)[i]).contents.ins {
        Op::Label(l) => lo <= l < hi,
        Op::Jump(l) => lo <= l < hi,
        Op::Branch(x, y) => lo <= x < hi && lo <= y < hi,
        _ => true,
    } by {
        if i < a.len() {
            assert((a + b)[i] == a[i]);
        } else {
            assert((a + b)[i] == b[i - a.len()]);
        }
    }
}

/// Labels in a range are in every range around it.
pub proof fn lemma_within_widen(a: Code, lo: int, hi: int, lower: int, higher: int)
    requires
        within(a, lo, hi),
        lower <= lo,
        hi <= higher,
    ensures
        within(a, lower, higher),
{
}

/// What holds of lowered code: its jumps and branches have their labels in
/// it, its calls go to declared procedures, and its labels are those taken
/// from the counter while it was made. The counters of labels and of type
/// variables never go back, and the procedures and constants stay.
pub open spec fn sound(before: Unit, code: Code, after: Unit) -> bool {
    &&& closed(code)
    &&& resolved(code, before.procs)
    &&& within(code, before.next_label as int, after.next_label as int)
    &&& before.next_label <= after.next_label
    &&& before.next_var <= after.next_var
    &&& after.procs == before.procs
    &&& after.consts == before.consts
}

/// Sound code followed by sound code is sound.
pub proof fn lemma_sound_concat(u0: Unit, c1: Code, u1: Unit, c2: Code, u2: Unit)
    requires
        sound(u0, c1, u1),
        sound(u1, c2, u2),
    ensures
        sound(u0, c1 + c2, u2),
{
    lemma_closed_concat(c1, c2);
    lemma_resolved_concat(c1, c2, u0.procs);
    lemma_within_widen(
        c1,
        u0.next_label as int,
        u1.next_label as int,
        u0.next_label as int,
        u2.next_label as int,
    );
    lemma_within_widen(
        c2,
        u1.next_label as int,
        u2.next_label as int,
        u0.next_label as int,
        u2.next_label as int,
    );
    lemma_within_concat(c1, c2, u0.next_label as int, u2.next_label as int);
}

/// Sound code followed by an instruction without labels is sound, if a
/// call it makes goes to a declared procedure.
pub proof fn lemma_sound_push(u0: Unit, code: Code, u1: Unit, last: Span<crate::ir::Instr>)
    requires
        sound(u0, code, u1),
        !(last.contents.ins is Jump),
        !(last.contents.ins is Branch),
        !(last.contents.ins is Label),
        last.contents.ins matches Op::Call(name) ==> find_proc(u0.procs, name) is Some,
    ensures
        sound(u0, code.push(last), u1),
{
    lemma_closed_push(code, last);
    assert(code.push(last) =~= code + seq![last]);
    lemma_resolved_concat(code, seq![last], u0.procs);
    lemma_within_concat(code, seq![last], u0.next_label as int, u1.next_label as int);
}

/// The code of an `if` is sound if the codes of its parts are.
pub proof fn lemma_if_sound(
    unit: Unit,
    u0: Unit,
    cc: Code,
    u1: Unit,
    bc: Code,
    u2: Unit,
    ec: Code,
    u3: Unit,
    pos: usize,
    len: usize,
)
    requires
        labels(unit, pos, len) == Ok::<(u64, Unit), crate::lowering::Failure>(
            (unit.next_label, u0),
        ),
        sound(u0, cc, u1),
        sound(u1, bc, u2),
        sound(u2, ec, u3),
    ensures
        sound(unit, if_code(cc, bc, ec, unit.next_label, pos, len), u3),
{
    let first = unit.next_label;
    let lo = first as int;
    let hi = u3.next_label as int;
    lemma_if_closed(cc, bc, ec, first, pos, len);
    let p2 = then_part(bc, first, pos, len);
    let p3 = else_part(ec, first, pos, len);
    let p4 = end_part(bc, ec, first, pos, len);
    let head2 = seq![
        at(Op::Branch(first, (first + 1) as u64), Type::NoReturn, pos, len),
        at(Op::Label(first), Type::Undefined, pos, len),
    ];
    let jump2 = jump_unless_returned(bc, (first + 2) as u64, pos, len);
    let head3 = seq![at(Op::Label((first + 1) as u64), Type::Undefined, pos, len)];
    let jump3 = jump_unless_returned(ec, (first + 2) as u64, pos, len);
    // calls
    assert(resolved(head2, unit.procs) && resolved(jump2, unit.procs) && resolved(
        head3,
        unit.procs,
    ) && resolved(jump3, unit.procs) && resolved(p4, unit.procs));
    lemma_resolved_concat(head2, bc, unit.procs);
    lemma_resolved_concat(head2 + bc, jump2, unit.procs);
    lemma_resolved_concat(head3, ec, unit.procs);
    lemma_resolved_concat(head3 + ec, jump3, unit.procs);
    lemma_resolved_concat(cc, p2, unit.procs);
    lemma_resolved_concat(cc + p2, p3, unit.procs);
    lemma_resolved_concat(cc + p2 + p3, p4, unit.procs);
    // labels
    lemma_within_widen(cc, u0.next_label as int, u1.next_label as int, lo, hi);
    lemma_within_widen(bc, u1.next_label as int, u2.next_label as int, lo, hi);
    lemma_within_widen(ec, u2.next_label as int, u3.next_label as int, lo, hi);
    assert(within(head2, lo, hi) && within(jump2, lo, hi) && within(head3, lo, hi) && within(
        jump3,
        lo,
        hi,
    ) && within(p4, lo, hi));
    lemma_within_concat(head2, bc, lo, hi);
    lemma_within_concat(head2 + bc, jump2, lo, hi);
    lemma_within_concat(head3, ec, lo, hi);
    lemma_within_concat(head3 + ec, jump3, lo, hi);
    lemma_within_concat(cc, p2, lo, hi);
    lemma_within_concat(cc + p2, p3, lo, hi);
    lemma_within_concat(cc + p2 + p3, p4, lo, hi);
}

/// The code of a `while` is sound if the codes of its parts are.
pub proof fn lemma_while_sound(
    unit: Unit,
    u0: Unit,
    cc: Code,
    u1: Unit,
    bc: Code,
    u2: Unit,
    pos: usize,
    len: usize,
)
    requires
        labels(unit, pos, len) == Ok::<(u64, Unit), crate::lowering::Failure>(
            (unit.next_label, u0),
        ),
        sound(u0, cc, u1),
        sound(u1, bc, u2),
    ensures
        sound(unit, while_code(cc, bc, unit.next_label, pos, len), u2),
{
    let first = unit.next_label;
    let lo = first as int;
    let hi = u2.next_label as int;
    lemma_while_closed(cc, bc, first, pos, len);
    let p1 = seq![
        at(Op::Jump(first), Type::Undefined, pos, len),
        at(Op::Label(first), Type::Undefined, pos, len),
    ];
    let p3 = seq![
        at(Op::Branch((first + 1) as u64, (first + 2) as u64), Type::NoReturn, pos, len),
        at(Op::Label((first + 1) as u64), Type::Undefined, pos, len),
    ];
    let p5 = jump_unless_returned(bc, first, pos, len);
    let p6 = seq![at(Op::Label((first + 2) as u64), Type::Undefined, pos, len)];
    assert(resolved(p1, unit.procs) && resolved(p3, unit.procs) && resolved(p5, unit.procs)
        && resolved(p6, unit.procs));
    lemma_resolved_concat(p1, cc, unit.procs);
    lemma_resolved_concat(p1 + cc, p3, unit.procs);
    lemma_resolved_concat(p1 + cc + p3, bc, unit.procs);
    lemma_resolved_concat(p1 + cc + p3 + bc, p5, unit.procs);
    lemma_resolved_concat(p1 + cc + p3 + bc + p5, p6, unit.procs);
    lemma_within_widen(cc, u0.next_label as int, u1.next_label as int, lo, hi);
    lemma_within_widen(bc, u1.next_label as int, u2.next_label as int, lo, hi);
    assert(within(p1, lo, hi) && within(p3, lo, hi) && within(p5, lo, hi) && within(p6, lo, hi));
    lemma_within_concat(p1, cc, lo, hi);
    lemma_within_concat(p1 + cc, p3, lo, hi);
    lemma_within_concat(p1 + cc + p3, bc, lo, hi);
    lemma_within_concat(p1 + cc + p3 + bc, p5, lo, hi);
    lemma_within_concat(p1 + cc + p3 + bc + p5, p6, lo, hi);
}

/// What a failure of lowering leaves: the procedures and constants as they
/// were, and counters that have not gone back.
pub open spec fn kept(before: Unit, after: Unit) -> bool {
    &&& after.procs == before.procs
    &&& after.consts == before.consts
    &&& before.next_label <= after.next_label
    &&& before.next_var <= after.next_var
}

/// Lowered code is sound, and a failure keeps the procedures and constants.
pub proof fn lemma_lower_sound(unit: Unit, node: Span<Ast>, depth: nat)
    ensures
        match lower(unit, node, depth) {
            Ok((code, after)) => sound(unit, code, after),
            Err((_, after)) => kept(unit, after),
        },
    decreases depth, node, 1nat,
{
    let pos = node.pos;
    let len = node.len;
    let none = Seq::<Span<crate::ir::Instr>>::empty();
    assert(sound(unit, none, unit));
    match node.contents {
        Ast::Literal { typ, value } => {
            match known(unit, typ, pos, len) {
                Ok((t, u)) => {
                    lemma_sound_push(unit, none, u, at(Op::Push(value), t, pos, len));
                    assert(none.push(at(Op::Push(value), t, pos, len)) =~= seq![
                        at(Op::Push(value), t, pos, len),
                    ]);
                },
                Err(_) => {},
            }
        },
        Ast::Call { name, args } => {
            match find_proc(unit.procs, name) {
                Some(k) => {
                    lemma_lower_all_sound(unit, args, 0, depth);
                    match lower_all(unit, args, 0, depth) {
                        Ok((code, u1)) => {
                            match known(u1, unit.procs[k].ret_type, pos, len) {
                                Ok((t, u2)) => {
                                    lemma_sound_push(
                                        unit,
                                        code,
                                        u2,
                                        at(Op::Call(name), t, pos, len),
                                    );
                                },
                                Err(_) => {},
                            }
                        },
                        Err(_) => {},
                    }
                },
                None => {},
            }
        },
        Ast::InfixOp { op, left, right } => {
            lemma_lower_sound(unit, *left, depth);
            match lower(unit, *left, depth) {
                Ok((c1, u1)) => {
                    lemma_lower_sound(u1, *right, depth);
                    match lower(u1, *right, depth) {
                        Ok((c2, u2)) => {
                            lemma_sound_concat(unit, c1, u1, c2, u2);
                            match crate::lowering::infix_op(op) {
                                Some(o) => {
                                    match fresh(u2, pos, len) {
                                        Ok((t, u3)) => {
                                            lemma_sound_push(
                                                unit,
                                                c1 + c2,
                                                u3,
                                                at(o, t, pos, len),
                                            );
                                        },
                                        Err(_) => {},
                                    }
                                },
                                None => {},
                            }
                        },
                        Err(_) => {},
                    }
                },
                Err(_) => {},
            }
        },
        Ast::PrefixOp { op, right } => {
            lemma_lower_sound(unit, *right, depth);
            match lower(unit, *right, depth) {
                Ok((c1, u1)) => {
                    match crate::lowering::prefix_op(op) {
                        Some(o) => {
                            match fresh(u1, pos, len) {
                                Ok((t, u2)) => {
                                    lemma_sound_push(unit, c1, u2, at(o, t, pos, len));
                                },
                                Err(_) => {},
                            }
                        },
                        None => {},
                    }
                },
                Err(_) => {},
            }
        },
        Ast::VariableRef { name } => {
            match find_const(unit.consts, name) {
                Some(value) => {
                    if depth > 0 {
                        lemma_lower_sound(unit, value, (depth - 1) as nat);
                    }
                },
                None => {
                    match lookup(unit.scopes, name) {
                        Some(typ) => {
                            match known(unit, typ, pos, len) {
                                Ok((t, u)) => {
                                    lemma_sound_push(unit, none, u, at(Op::Load(name), t, pos, len));
                                    assert(none.push(at(Op::Load(name), t, pos, len)) =~= seq![
                                        at(Op::Load(name), t, pos, len),
                                    ]);
                                },
                                Err(_) => {},
                            }
                        },
                        None => {},
                    }
                },
            }
        },
        Ast::IfStatement { condition, body, else_body } => {
            match labels(unit, pos, len) {
                Ok((first, u0)) => {
                    lemma_lower_sound(u0, *condition, depth);
                    match lower(u0, *condition, depth) {
                        Ok((cc, u1)) => {
                            lemma_lower_sound(u1, *body, depth);
                            match lower(u1, *body, depth) {
                                Ok((bc, u2)) => {
                                    lemma_lower_sound(u2, *else_body, depth);
                                    match lower(u2, *else_body, depth) {
                                        Ok((ec, u3)) => {
                                            lemma_if_sound(unit, u0, cc, u1, bc, u2, ec, u3, pos, len);
                                        },
                                        Err(_) => {},
                                    }
                                },
                                Err(_) => {},
                            }
                        },
                        Err(_) => {},
                    }
                },
                Err(_) => {},
            }
        },
        Ast::WhileStatement { condition, body } => {
            match labels(unit, pos, len) {
                Ok((first, u0)) => {
                    lemma_lower_sound(u0, *condition, depth);
                    match lower(u0, *condition, depth) {
                        Ok((cc, u1)) => {
                            lemma_lower_sound(u1, *body, depth);
                            match lower(u1, *body, depth) {
                                Ok((bc, u2)) => {
                                    lemma_while_sound(unit, u0, cc, u1, bc, u2, pos, len);
                                },
                                Err(_) => {},
                            }
                        },
                        Err(_) => {},
                    }
                },
                Err(_) => {},
            }
        },
        Ast::Block { nodes } => {
            lemma_lower_all_sound(unit, nodes, 0, depth);
        },
        Ast::VarStatement { name, typ, value } => {
            match known(unit, typ, pos, len) {
                Ok((t, u0)) => {
                    lemma_lower_sound(u0, *value, depth);
                    match lower(u0, *value, depth) {
                        Ok((code, u1)) => {
                            assert(sound(unit, code, u1));
                            lemma_sound_push(unit, code, u1, at(Op::Allocate(name), t, pos, len));
                        },
                        Err(_) => {},
                    }
                },
                Err(_) => {},
            }
        },
        Ast::AssignStatement { name, value } => {
            lemma_lower_sound(unit, *value, depth);
            match lower(unit, *value, depth) {
                Ok((code, u1)) => {
                    match lookup(u1.scopes, name) {
                        Some(typ) => {
                            match known(u1, typ, pos, len) {
                                Ok((t, u2)) => {
                                    lemma_sound_push(unit, code, u2, at(Op::Store(name), t, pos, len));
                                },
                                Err(_) => {},
                            }
                        },
                        None => {},
                    }
                },
                Err(_) => {},
            }
        },
        Ast::ReturnStatement { val } => {
            lemma_lower_sound(unit, *val, depth);
            match lower(unit, *val, depth) {
                Ok((code, u1)) => {
                    lemma_sound_push(unit, code, u1, at(Op::Return, last_type(code), pos, len));
                },
                Err(_) => {},
            }
        },
        _ => {},
    }
}

/// The code of a lowered list is sound, and a failure keeps the procedures
/// and constants.
pub proof fn lemma_lower_all_sound(unit: Unit, nodes: Seq<Span<Ast>>, k: int, depth: nat)
    ensures
        match lower_all(unit, nodes, k, depth) {
            Ok((code, after)) => sound(unit, code, after),
            Err((_, after)) => kept(unit, after),
        },
    decreases depth, nodes, nodes.len() - k,
{
    let none = Seq::<Span<crate::ir::Instr>>::empty();
    assert(sound(unit, none, unit));
    if !(k < 0 || k >= nodes.len()) {
        lemma_lower_sound(unit, nodes[k], depth);
        match lower(unit, nodes[k], depth) {
            Ok((first, u1)) => {
                lemma_lower_all_sound(u1, nodes, k + 1, depth);
                match lower_all(u1, nodes, k + 1, depth) {
                    Ok((rest, u2)) => {
                        lemma_sound_concat(unit, first, u1, rest, u2);
                    },
                    Err(_) => {},
                }
            },
            Err(_) => {},
        }
    }
}

/// A procedure is found if and only if one has the name.
pub proof fn lemma_found(procs: Seq<Proc>, name: Seq<char>)
    ensures
        find_proc(procs, name) is Some <==> exists|j: int|
            0 <= j < procs.len() && (#[trigger] procs[j]).name == name,
{
    crate::inference::lemma_find_proc(procs, name);
}

/// Calls stay resolved when the procedures keep their names and more are
/// declared.
pub proof fn lemma_resolved_kept(code: Code, before: Seq<Proc>, after: Seq<Proc>)
    requires
        resolved(code, before),
        before.len() <= after.len(),
        forall|j: int| 0 <= j < before.len() ==> (#[trigger] after[j]).name == before[j].name,
    ensures
        resolved(code, after),
{
    assert forall|i: int| 0 <= i < code.len() implies match (#[trigger] code[i]).contents.ins {
        Op::Call(name) => find_proc(after, name) is Some,
        _ => true,
    } by {
        match code[i].contents.ins {
            Op::Call(name) => {
                lemma_found(before, name);
                lemma_found(after, name);
                let j = choose|j: int| 0 <= j < before.len() && (#[trigger] before[j]).name == name;
                assert(after[j].name == name);
            },
            _ => {},
        }
    }
}

/// Declaring a procedure without a body keeps the procedures well formed.
pub proof fn lemma_declared(procs: Seq<Proc>, stub: Proc)
    requires
        well_formed(procs),
        stub.body.len() == 0,
        stub.args.len() == stub.arg_types.len(),
    ensures
        well_formed(procs.push(stub)),
{
    let after = procs.push(stub);
    assert forall|k: int| 0 <= k < after.len() implies typed((#[trigger] after[k]).body) && closed(
        after[k].body,
    ) && resolved(after[k].body, after) && after[k].args.len() == after[k].arg_types.len() by {
        if k < procs.len() {
            assert(after[k] == procs[k]);
            lemma_resolved_kept(procs[k].body, procs, after);
        }
    }
}

/// Putting a lowered procedure in the place of its declaration keeps the
/// procedures well formed.
pub proof fn lemma_defined(procs: Seq<Proc>, p: Proc)
    requires
        well_formed(procs),
        typed(p.body),
        closed(p.body),
        resolved(p.body, procs),
        p.args.len() == p.arg_types.len(),
    ensures
        well_formed(replace_first(procs, p)),
{
    let after = replace_first(procs, p);
    crate::inference::lemma_find_proc(procs, p.name);
    assert forall|k: int| 0 <= k < after.len() implies typed((#[trigger] after[k]).body) && closed(
        after[k].body,
    ) && resolved(after[k].body, after) && after[k].args.len() == after[k].arg_types.len() by {
        lemma_resolved_kept(after[k].body, procs, after);
    }
}

/// The body of a lowered procedure is typed, closed and resolved, and
/// lowering it leaves the procedures and constants alone.
pub proof fn lemma_lower_proc_sound(unit: Unit, node: Span<Ast>, depth: nat)
    ensures
        match lower_proc(unit, node, depth) {
            Ok((p, after)) => typed(p.body) && closed(p.body) && resolved(p.body, unit.procs)
                && p.args.len() == p.arg_types.len() && after.procs == unit.procs && after.consts
                == unit.consts,
            Err((_, after)) => kept(unit, after),
        },
{
    lemma_lower_proc_typed(unit, node, depth);
    match node.contents {
        Ast::ProcStatement { name, args, arg_types, ret_type, body } => {
            match body.contents {
                Ast::Block { nodes } => {
                    let inner = Unit {
                        scopes: unit.scopes.push(crate::scopes::bind_all(args, arg_types)),
                        ..unit
                    };
                    lemma_lower_all_sound(inner, nodes, 0, depth);
                    match lower_all(inner, nodes, 0, depth) {
                        Ok((code, u1)) => {
                            let tail = seq![
                                at(Op::Push("undefined"@), Type::Undefined, node.pos, node.len),
                                at(Op::Return, Type::Undefined, node.pos, node.len),
                            ];
                            assert(closed(tail));
                            assert(resolved(tail, unit.procs));
                            lemma_closed_concat(code, tail);
                            lemma_resolved_concat(code, tail, unit.procs);
                        },
                        Err(_) => {},
                    }
                },
                _ => {},
            }
        },
        _ => {},
    }
}

/// Two pieces in a row are bounded by a counter that neither reaches.
pub proof fn lemma_bounded_join(a: Code, n: u64, b: Code, m: u64, k: u64)
    requires
        bounded(a, n),
        bounded(b, m),
        n <= k,
        m <= k,
    ensures
        bounded(a + b, k),
{
    assert forall|i: int| 0 <= i < (a + b).len() implies below(
        (#[trigger] (a + b)[i]).contents.typ,
        k,
    ) by {
        if i < a.len() {
            assert((a + b)[i] == a[i]);
            lemma_below_later(a[i].contents.typ, n, k);
        } else {
            assert((a + b)[i] == b[i - a.len()]);
            lemma_below_later(b[i - a.len()].contents.typ, m, k);
        }
    }
}

/// Bounded code followed by an instruction whose type is below the counter
/// is bounded by it.
pub proof fn lemma_bounded_push(a: Code, n: u64, last: Span<crate::ir::Instr>, k: u64)
    requires
        bounded(a, n),
        n <= k,
        below(last.contents.typ, k),
    ensures
        bounded(a.push(last), k),
{
    assert(a.push(last) =~= a + seq![last]);
    assert(bounded(seq![last], k));
    lemma_bounded_join(a, n, seq![last], k, k);
}

/// The code of an `if` or a `while` is bounded by what bounds its parts.
pub proof fn lemma_if_bounded(cc: Code, bc: Code, ec: Code, first: u64, pos: usize, len: usize, k: u64)
    requires
        bounded(cc, k),
        bounded(bc, k),
        bounded(ec, k),
    ensures
        bounded(if_code(cc, bc, ec, first, pos, len), k),
        bounded(while_code(cc, bc, first, pos, len), k),
{
    let p2 = then_part(bc, first, pos, len);
    let p3 = else_part(ec, first, pos, len);
    let p4 = end_part(bc, ec, first, pos, len);
    let head2 = seq![
        at(Op::Branch(first, (first + 1) as u64), Type::NoReturn, pos, len),
        at(Op::Label(first), Type::Undefined, pos, len),
    ];
    let jump2 = jump_unless_returned(bc, (first + 2) as u64, pos, len);
    let head3 = seq![at(Op::Label((first + 1) as u64), Type::Undefined, pos, len)];
    let jump3 = jump_unless_returned(ec, (first + 2) as u64, pos, len);
    assert(bounded(head2, k) && bounded(jump2, k) && bounded(head3, k) && bounded(jump3, k)
        && bounded(p4, k));
    lemma_bounded_join(head2, k, bc, k, k);
    lemma_bounded_join(head2 + bc, k, jump2, k, k);
    lemma_bounded_join(head3, k, ec, k, k);
    lemma_bounded_join(head3 + ec, k, jump3, k, k);
    lemma_bounded_join(cc, k, p2, k, k);
    lemma_bounded_join(cc + p2, k, p3, k, k);
    lemma_bounded_join(cc + p2 + p3, k, p4, k, k);
    let w1 = seq![
        at(Op::Jump(first), Type::Undefined, pos, len),
        at(Op::Label(first), Type::Undefined, pos, len),
    ];
    let w3 = seq![
        at(Op::Branch((first + 1) as u64, (first + 2) as u64), Type::NoReturn, pos, len),
        at(Op::Label((first + 1) as u64), Type::Undefined, pos, len),
    ];
    let w5 = jump_unless_returned(bc, first, pos, len);
    let w6 = seq![at(Op::Label((first + 2) as u64), Type::Undefined, pos, len)];
    assert(bounded(w1, k) && bounded(w3, k) && bounded(w5, k) && bounded(w6, k));
    lemma_bounded_join(w1, k, cc, k, k);
    lemma_bounded_join(w1 + cc, k, w3, k, k);
    lemma_bounded_join(w1 + cc + w3, k, bc, k, k);
    lemma_bounded_join(w1 + cc + w3 + bc, k, w5, k, k);
    lemma_bounded_join(w1 + cc + w3 + bc + w5, k, w6, k, k);
}

/// Every type variable in lowered code was taken from the counter: its
/// number is less than the counter after lowering. So a variable taken
/// later occurs nowhere in the code before it.
pub proof fn lemma_lower_bounded(unit: Unit, node: Span<Ast>, depth: nat)
    ensures
        match lower(unit, node, depth) {
            Ok((code, after)) => bounded(code, after.next_var) && unit.next_var <= after.next_var,
            Err(_) => true,
        },
    decreases depth, node, 1nat,
{
    let pos = node.pos;
    let len = node.len;
    let none = Seq::<Span<crate::ir::Instr>>::empty();
    match node.contents {
        Ast::Literal { typ, value } => {},
        Ast::Call { name, args } => {
            lemma_lower_all_bounded(unit, args, 0, depth);
            match find_proc(unit.procs, name) {
                Some(k) => {
                    match lower_all(unit, args, 0, depth) {
                        Ok((code, u1)) => {
                            match known(u1, unit.procs[k].ret_type, pos, len) {
                                Ok((t, u2)) => {
                                    lemma_bounded_push(
                                        code,
                                        u1.next_var,
                                        at(Op::Call(name), t, pos, len),
                                        u2.next_var,
                                    );
                                },
                                Err(_) => {},
                            }
                        },
                        Err(_) => {},
                    }
                },
                None => {},
            }
        },
        Ast::InfixOp { op, left, right } => {
            lemma_lower_bounded(unit, *left, depth);
            match lower(unit, *left, depth) {
                Ok((c1, u1)) => {
                    lemma_lower_bounded(u1, *right, depth);
                    match lower(u1, *right, depth) {
                        Ok((c2, u2)) => {
                            lemma_bounded_join(c1, u1.next_var, c2, u2.next_var, u2.next_var);
                            match crate::lowering::infix_op(op) {
                                Some(o) => {
                                    match fresh(u2, pos, len) {
                                        Ok((t, u3)) => {
                                            lemma_bounded_push(
                                                c1 + c2,
                                                u2.next_var,
                                                at(o, t, pos, len),
                                                u3.next_var,
                                            );
                                        },
                                        Err(_) => {},
                                    }
                                },
                                None => {},
                            }
                        },
                        Err(_) => {},
                    }
                },
                Err(_) => {},
            }
        },
        Ast::PrefixOp { op, right } => {
            lemma_lower_bounded(unit, *right, depth);
            match lower(unit, *right, depth) {
                Ok((c1, u1)) => {
                    match crate::lowering::prefix_op(op) {
                        Some(o) => {
                            match fresh(u1, pos, len) {
                                Ok((t, u2)) => {
                                    lemma_bounded_push(
                                        c1,
                                        u1.next_var,
                                        at(o, t, pos, len),
                                        u2.next_var,
                                    );
                                },
                                Err(_) => {},
                            }
                        },
                        None => {},
                    }
                },
                Err(_) => {},
            }
        },
        Ast::VariableRef { name } => {
            match find_const(unit.consts, name) {
                Some(value) => {
                    if depth > 0 {
                        lemma_lower_bounded(unit, value, (depth - 1) as nat);
                    }
                },
                None => {},
            }
        },
        Ast::IfStatement { condition, body, else_body } => {
            match labels(unit, pos, len) {
                Ok((first, u0)) => {
                    lemma_lower_bounded(u0, *condition, depth);
                    match lower(u0, *condition, depth) {
                        Ok((cc, u1)) => {
                            lemma_lower_bounded(u1, *body, depth);
                            match lower(u1, *body, depth) {
                                Ok((bc, u2)) => {
                                    lemma_lower_bounded(u2, *else_body, depth);
                                    match lower(u2, *else_body, depth) {
                                        Ok((ec, u3)) => {
                                            lemma_bounded_later(cc, u1.next_var, u3.next_var);
                                            lemma_bounded_later(bc, u2.next_var, u3.next_var);
                                            lemma_if_bounded(cc, bc, ec, first, pos, len, u3.next_var);
                                        },
                                        Err(_) => {},
                                    }
                                },
                                Err(_) => {},
                            }
                        },
                        Err(_) => {},
                    }
                },
                Err(_) => {},
            }
        },
        Ast::WhileStatement { condition, body } => {
            match labels(unit, pos, len) {
                Ok((first, u0)) => {
                    lemma_lower_bounded(u0, *condition, depth);
                    match lower(u0, *condition, depth) {
                        Ok((cc, u1)) => {
                            lemma_lower_bounded(u1, *body, depth);
                            match lower(u1, *body, depth) {
                                Ok((bc, u2)) => {
                                    lemma_bounded_later(cc, u1.next_var, u2.next_var);
                                    lemma_if_bounded(cc, bc, bc, first, pos, len, u2.next_var);
                                },
                                Err(_) => {},
                            }
                        },
                        Err(_) => {},
                    }
                },
                Err(_) => {},
            }
        },
        Ast::Block { nodes } => {
            lemma_lower_all_bounded(unit, nodes, 0, depth);
        },
        Ast::VarStatement { name, typ, value } => {
            match known(unit, typ, pos, len) {
                Ok((t, u0)) => {
                    lemma_lower_bounded(u0, *value, depth);
                    match lower(u0, *value, depth) {
                        Ok((code, u1)) => {
                            lemma_below_later(t, u0.next_var, u1.next_var);
                            lemma_bounded_push(
                                code,
                                u1.next_var,
                                at(Op::Allocate(name), t, pos, len),
                                u1.next_var,
                            );
                        },
                        Err(_) => {},
                    }
                },
                Err(_) => {},
            }
        },
        Ast::AssignStatement { name, value } => {
            lemma_lower_bounded(unit, *value, depth);
            match lower(unit, *value, depth) {
                Ok((code, u1)) => {
                    match lookup(u1.scopes, name) {
                        Some(typ) => {
                            match known(u1, typ, pos, len) {
                                Ok((t, u2)) => {
                                    lemma_bounded_push(
                                        code,
                                        u1.next_var,
                                        at(Op::Store(name), t, pos, len),
                                        u2.next_var,
                                    );
                                },
                                Err(_) => {},
                            }
                        },
                        None => {},
                    }
                },
                Err(_) => {},
            }
        },
        Ast::ReturnStatement { val } => {
            lemma_lower_bounded(unit, *val, depth);
            match lower(unit, *val, depth) {
                Ok((code, u1)) => {
                    lemma_bounded_push(
                        code,
                        u1.next_var,
                        at(Op::Return, last_type(code), pos, len),
                        u1.next_var,
                    );
                },
                Err(_) => {},
            }
        },
        _ => {},
    }
}

/// Every type variable in the code of a lowered list was taken from the
/// counter.
pub proof fn lemma_lower_all_bounded(unit: Unit, nodes: Seq<Span<Ast>>, k: int, depth: nat)
    ensures
        match lower_all(unit, nodes, k, depth) {
            Ok((code, after)) => bounded(code, after.next_var) && unit.next_var <= after.next_var,
            Err(_) => true,
        },
    decreases depth, nodes, nodes.len() - k,
{
    if !(k < 0 || k >= nodes.len()) {
        lemma_lower_bounded(unit, nodes[k], depth);
        match lower(unit, nodes[k], depth) {
            Ok((first, u1)) => {
                lemma_lower_all_bounded(u1, nodes, k + 1, depth);
                match lower_all(u1, nodes, k + 1, depth) {
                    Ok((rest, u2)) => {
                        lemma_bounded_join(first, u1.next_var, rest, u2.next_var, u2.next_var);
                    },
                    Err(_) => {},
                }
            },
            Err(_) => {},
        }
    }
}

/// Every type variable in a lowered procedure was taken from the counter:
/// its signature is below the counter before lowering, its body below the
/// counter after it.
pub proof fn lemma_lower_proc_bounded(unit: Unit, node: Span<Ast>, depth: nat)
    ensures
        match lower_proc(unit, node, depth) {
            Ok((p, after)) => proc_bounded(p, after.next_var) && unit.next_var <= after.next_var,
            Err(_) => true,
        },
{
    match node.contents {
        Ast::ProcStatement { name, args, arg_types, ret_type, body } => {
            match body.contents {
                Ast::Block { nodes } => {
                    let inner = Unit {
                        scopes: unit.scopes.push(crate::scopes::bind_all(args, arg_types)),
                        ..unit
                    };
                    lemma_lower_all_bounded(inner, nodes, 0, depth);
                    match lower_proc(unit, node, depth) {
                        Ok((p, after)) => {
                            let code = lower_all(inner, nodes, 0, depth)->Ok_0.0;
                            let tail = seq![
                                at(Op::Push("undefined"@), Type::Undefined, node.pos, node.len),
                                at(Op::Return, Type::Undefined, node.pos, node.len),
                            ];
                            assert(bounded(tail, after.next_var));
                            lemma_bounded_join(
                                code,
                                after.next_var,
                                tail,
                                after.next_var,
                                after.next_var,
                            );
                            lemma_proc_bounded_later(
                                Proc { body: Seq::empty(), ..p },
                                unit.next_var,
                                after.next_var,
                            );
                            
                        },
                        Err(_) => {},
                    }
                },
                _ => {},
            }
        },
        _ => {},
    }
}

/// Declaring a bounded procedure keeps the procedures bounded.
pub proof fn lemma_declared_bounded(procs: Seq<Proc>, stub: Proc, n: u64)
    requires
        all_bounded(procs, n),
        proc_bounded(stub, n),
    ensures
        all_bounded(procs.push(stub), n),
{
    let after = procs.push(stub);
    assert forall|k: int| 0 <= k < after.len() implies proc_bounded(#[trigger] after[k], n) by {
        if k < procs.len() {
            assert(after[k] == procs[k]);
        }
    }
}

/// Putting a bounded procedure in the place of its declaration keeps the
/// procedures bounded.
pub proof fn lemma_defined_bounded(procs: Seq<Proc>, p: Proc, n: u64)
    requires
        all_bounded(procs, n),
        proc_bounded(p, n),
    ensures
        all_bounded(replace_first(procs, p), n),
{
    let after = replace_first(procs, p);
    crate::inference::lemma_find_proc(procs, p.name);
    assert forall|k: int| 0 <= k < after.len() implies proc_bounded(#[trigger] after[k], n) by {
        if after[k] != p {
            assert(after[k] == procs[k]);
        }
    }
}

/// Every `Call` of the code carries the type that the procedure it names
/// returns, or a type variable of its own where that type is elided.
pub open spec fn calls_typed(code: Code, procs: Seq<Proc>) -> bool {
    forall|i: int|
        0 <= i < code.len() ==> match (#[trigger] code[i]).contents.ins {
            Op::Call(name) => match find_proc(procs, name) {
                Some(k) => procs[k].ret_type != Type::Unknown ==> code[i].contents.typ
                    == procs[k].ret_type,
                None => false,
            },
            _ => true,
        }
}

/// Two pieces in a row have typed calls if each has.
pub proof fn lemma_calls_typed_concat(a: Code, b: Code, procs: Seq<Proc>)
    requires
        calls_typed(a, procs),
        calls_typed(b, procs),
    ensures
        calls_typed(a + b, procs),
{
    assert forall|i: int| 0 <= i < (a + b).len() implies match (#[trigger] (a + b)[i]).contents.ins {
        Op::Call(name) => match find_proc(procs, name) {
            Some(k) => procs[k].ret_type != Type::Unknown ==> (a + b)[i].contents.typ
                == procs[k].ret_type,
            None => false,
        },
        _ => true,
    } by {
        if i < a.len() {
            assert((a + b)[i] == a[i]);
        } else {
            assert((a + b)[i] == b[i - a.len()]);
        }
    }
}

/// Code with typed calls followed by an instruction that is no call has
/// typed calls.
pub proof fn lemma_calls_typed_push(a: Code, last: Span<crate::ir::Instr>, procs: Seq<Proc>)
    requires
        calls_typed(a, procs),
        !(last.contents.ins is Call),
    ensures
        calls_typed(a.push(last), procs),
{
    assert(a.push(last) =~= a + seq![last]);
    assert(calls_typed(seq![last], procs));
    lemma_calls_typed_concat(a, seq![last], procs);
}

/// The calls of the code of an `if` or a `while` are typed if those of its
/// parts are.
pub proof fn lemma_if_calls_typed(
    cc: Code,
    bc: Code,
    ec: Code,
    first: u64,
    pos: usize,
    len: usize,
    procs: Seq<Proc>,
)
    requires
        calls_typed(cc, procs),
        calls_typed(bc, procs),
        calls_typed(ec, procs),
    ensures
        calls_typed(if_code(cc, bc, ec, first, pos, len), procs),
        calls_typed(while_code(cc, bc, first, pos, len), procs),
{
    let p2 = then_part(bc, first, pos, len);
    let p3 = else_part(ec, first, pos, len);
    let p4 = end_part(bc, ec, first, pos, len);
    let head2 = seq![
        at(Op::Branch(first, (first + 1) as u64), Type::NoReturn, pos, len),
        at(Op::Label(first), Type::Undefined, pos, len),
    ];
    let jump2 = jump_unless_returned(bc, (first + 2) as u64, pos, len);
    let head3 = seq![at(Op::Label((first + 1) as u64), Type::Undefined, pos, len)];
    let jump3 = jump_unless_returned(ec, (first + 2) as u64, pos, len);
    assert(calls_typed(head2, procs) && calls_typed(jump2, procs) && calls_typed(head3, procs)
        && calls_typed(jump3, procs) && calls_typed(p4, procs));
    lemma_calls_typed_concat(head2, bc, procs);
    lemma_calls_typed_concat(head2 + bc, jump2, procs);
    lemma_calls_typed_concat(head3, ec, procs);
    lemma_calls_typed_concat(head3 + ec, jump3, procs);
    lemma_calls_typed_concat(cc, p2, procs);
    lemma_calls_typed_concat(cc + p2, p3, procs);
    lemma_calls_typed_concat(cc + p2 + p3, p4, procs);
    let w1 = seq![
        at(Op::Jump(first), Type::Undefined, pos, len),
        at(Op::Label(first), Type::Undefined, pos, len),
    ];
    let w3 = seq![
        at(Op::Branch((first + 1) as u64, (first + 2) as u64), Type::NoReturn, pos, len),
        at(Op::Label((first + 1) as u64), Type::Undefined, pos, len),
    ];
    let w5 = jump_unless_returned(bc, first, pos, len);
    let w6 = seq![at(Op::Label((first + 2) as u64), Type::Undefined, pos, len)];
    assert(calls_typed(w1, procs) && calls_typed(w3, procs) && calls_typed(w5, procs)
        && calls_typed(w6, procs));
    lemma_calls_typed_concat(w1, cc, procs);
    lemma_calls_typed_concat(w1 + cc, w3, procs);
    lemma_calls_typed_concat(w1 + cc + w3, bc, procs);
    lemma_calls_typed_concat(w1 + cc + w3 + bc, w5, procs);
    lemma_calls_typed_concat(w1 + cc + w3 + bc + w5, w6, procs);
}

/// In lowered code every `Call` names a procedure of the unit and carries
/// the type that this procedure returns; where that type is elided, a type
/// variable of its own.
pub proof fn lemma_lower_calls_typed(unit: Unit, node: Span<Ast>, depth: nat)
    ensures
        match lower(unit, node, depth) {
            Ok((code, after)) => calls_typed(code, unit.procs) && after.procs == unit.procs,
            Err(_) => true,
        },
    decreases depth, node, 1nat,
{
    let pos = node.pos;
    let len = node.len;
    let procs = unit.procs;
    let none = Seq::<Span<crate::ir::Instr>>::empty();
    lemma_lower_sound(unit, node, depth);
    match node.contents {
        Ast::Literal { typ, value } => {},
        Ast::Call { name, args } => {
            lemma_lower_all_calls_typed(unit, args, 0, depth);
            match find_proc(procs, name) {
                Some(k) => {
                    match lower_all(unit, args, 0, depth) {
                        Ok((code, u1)) => {
                            match known(u1, procs[k].ret_type, pos, len) {
                                Ok((t, u2)) => {
                                    let last = at(Op::Call(name), t, pos, len);
                                    assert(code.push(last) =~= code + seq![last]);
                                    assert(calls_typed(seq![last], procs));
                                    lemma_calls_typed_concat(code, seq![last], procs);
                                },
                                Err(_) => {},
                            }
                        },
                        Err(_) => {},
                    }
                },
                None => {},
            }
        },
        Ast::InfixOp { op, left, right } => {
            lemma_lower_calls_typed(unit, *left, depth);
            match lower(unit, *left, depth) {
                Ok((c1, u1)) => {
                    lemma_lower_calls_typed(u1, *right, depth);
                    match lower(u1, *right, depth) {
                        Ok((c2, u2)) => {
                            lemma_calls_typed_concat(c1, c2, procs);
                            match crate::lowering::infix_op(op) {
                                Some(o) => {
                                    match fresh(u2, pos, len) {
                                        Ok((t, u3)) => {
                                            lemma_calls_typed_push(
                                                c1 + c2,
                                                at(o, t, pos, len),
                                                procs,
                                            );
                                        },
                                        Err(_) => {},
                                    }
                                },
                                None => {},
                            }
                        },
                        Err(_) => {},
                    }
                },
                Err(_) => {},
            }
        },
        Ast::PrefixOp { op, right } => {
            lemma_lower_calls_typed(unit, *right, depth);
            match lower(unit, *right, depth) {
                Ok((c1, u1)) => {
                    match crate::lowering::prefix_op(op) {
                        Some(o) => {
                            match fresh(u1, pos, len) {
                                Ok((t, u2)) => {
                                    lemma_calls_typed_push(c1, at(o, t, pos, len), procs);
                                },
                                Err(_) => {},
                            }
                        },
                        None => {},
                    }
                },
                Err(_) => {},
            }
        },
        Ast::VariableRef { name } => {
            match find_const(unit.consts, name) {
                Some(value) => {
                    if depth > 0 {
                        lemma_lower_calls_typed(unit, value, (depth - 1) as nat);
                    }
                },
                None => {},
            }
        },
        Ast::IfStatement { condition, body, else_body } => {
            match labels(unit, pos, len) {
                Ok((first, u0)) => {
                    lemma_lower_calls_typed(u0, *condition, depth);
                    match lower(u0, *condition, depth) {
                        Ok((cc, u1)) => {
                            lemma_lower_calls_typed(u1, *body, depth);
                            match lower(u1, *body, depth) {
                                Ok((bc, u2)) => {
                                    lemma_lower_calls_typed(u2, *else_body, depth);
                                    match lower(u2, *else_body, depth) {
                                        Ok((ec, u3)) => {
                                            lemma_if_calls_typed(cc, bc, ec, first, pos, len, procs);
                                        },
                                        Err(_) => {},
                                    }
                                },
                                Err(_) => {},
                            }
                        },
                        Err(_) => {},
                    }
                },
                Err(_) => {},
            }
        },
        Ast::WhileStatement { condition, body } => {
            match labels(unit, pos, len) {
                Ok((first, u0)) => {
                    lemma_lower_calls_typed(u0, *condition, depth);
                    match lower(u0, *condition, depth) {
                        Ok((cc, u1)) => {
                            lemma_lower_calls_typed(u1, *body, depth);
                            match lower(u1, *body, depth) {
                                Ok((bc, u2)) => {
                                    lemma_if_calls_typed(cc, bc, bc, first, pos, len, procs);
                                },
                                Err(_) => {},
                            }
                        },
                        Err(_) => {},
                    }
                },
                Err(_) => {},
            }
        },
        Ast::Block { nodes } => {
            lemma_lower_all_calls_typed(unit, nodes, 0, depth);
        },
        Ast::VarStatement { name, typ, value } => {
            match known(unit, typ, pos, len) {
                Ok((t, u0)) => {
                    lemma_lower_calls_typed(u0, *value, depth);
                    match lower(u0, *value, depth) {
                        Ok((code, u1)) => {
                            lemma_calls_typed_push(code, at(Op::Allocate(name), t, pos, len), procs);
                        },
                        Err(_) => {},
                    }
                },
                Err(_) => {},
            }
        },
        Ast::AssignStatement { name, value } => {
            lemma_lower_calls_typed(unit, *value, depth);
            match lower(unit, *value, depth) {
                Ok((code, u1)) => {
                    match lookup(u1.scopes, name) {
                        Some(typ) => {
                            match known(u1, typ, pos, len) {
                                Ok((t, u2)) => {
                                    lemma_calls_typed_push(
                                        code,
                                        at(Op::Store(name), t, pos, len),
                                        procs,
                                    );
                                },
                                Err(_) => {},
                            }
                        },
                        None => {},
                    }
                },
                Err(_) => {},
            }
        },
        Ast::ReturnStatement { val } => {
            lemma_lower_calls_typed(unit, *val, depth);
            match lower(unit, *val, depth) {
                Ok((code, u1)) => {
                    lemma_calls_typed_push(
                        code,
                        at(Op::Return, last_type(code), pos, len),
                        procs,
                    );
                },
                Err(_) => {},
            }
        },
        _ => {},
    }
}

/// In the code of a lowered list every `Call` carries the type that the
/// procedure it names returns.
pub proof fn lemma_lower_all_calls_typed(unit: Unit, nodes: Seq<Span<Ast>>, k: int, depth: nat)
    ensures
        match lower_all(unit, nodes, k, depth) {
            Ok((code, after)) => calls_typed(code, unit.procs) && after.procs == unit.procs,
            Err(_) => true,
        },
    decreases depth, nodes, nodes.len() - k,
{
    lemma_lower_all_sound(unit, nodes, k, depth);
    if !(k < 0 || k >= nodes.len()) {
        lemma_lower_calls_typed(unit, nodes[k], depth);
        match lower(unit, nodes[k], depth) {
            Ok((first, u1)) => {
                lemma_lower_all_calls_typed(u1, nodes, k + 1, depth);
                match lower_all(u1, nodes, k + 1, depth) {
                    Ok((rest, u2)) => {
                        lemma_calls_typed_concat(first, rest, unit.procs);
                    },
                    Err(_) => {},
                }
            },
            Err(_) => {},
        }
    }
}

/// Every type variable in the scopes of the unit was taken from its
/// counter.
pub open spec fn scopes_taken(unit: Unit) -> bool {
    scopes_below(unit.scopes, unit.next_var)
}

/// Taking a type for an instruction keeps the scopes below the counter, and
/// the type is below it.
pub proof fn lemma_known_scopes(unit: Unit, typ: Type, pos: usize, len: usize)
    requires
        scopes_taken(unit),
    ensures
        match known(unit, typ, pos, len) {
            Ok((t, after)) => scopes_taken(after) && below(t, after.next_var) && unit.next_var
                <= after.next_var,
            Err((_, after)) => after == unit,
        },
        match fresh(unit, pos, len) {
            Ok((t, after)) => scopes_taken(after) && below(t, after.next_var) && unit.next_var
                <= after.next_var,
            Err((_, after)) => after == unit,
        },
        match labels(unit, pos, len) {
            Ok((_, after)) => scopes_taken(after) && unit.next_var == after.next_var,
            Err((_, after)) => after == unit,
        },
{
    if unit.next_var < u64::MAX {
        lemma_scopes_below_later(unit.scopes, unit.next_var, (unit.next_var + 1) as u64);
    }
}

/// Lowering keeps the scopes below the counter, which does not go back,
/// also where it fails.
pub proof fn lemma_lower_scopes(unit: Unit, node: Span<Ast>, depth: nat)
    requires
        scopes_taken(unit),
    ensures
        match lower(unit, node, depth) {
            Ok((_, after)) => scopes_taken(after) && unit.next_var <= after.next_var,
            Err((_, after)) => scopes_taken(after) && unit.next_var <= after.next_var,
        },
    decreases depth, node, 1nat,
{
    let pos = node.pos;
    let len = node.len;
    match node.contents {
        Ast::Literal { typ, value } => {
            lemma_known_scopes(unit, typ, pos, len);
        },
        Ast::Call { name, args } => {
            match find_proc(unit.procs, name) {
                Some(k) => {
                    lemma_lower_all_scopes(unit, args, 0, depth);
                    match lower_all(unit, args, 0, depth) {
                        Ok((code, u1)) => {
                            lemma_known_scopes(u1, unit.procs[k].ret_type, pos, len);
                        },
                        Err(_) => {},
                    }
                },
                None => {},
            }
        },
        Ast::InfixOp { op, left, right } => {
            lemma_lower_scopes(unit, *left, depth);
            match lower(unit, *left, depth) {
                Ok((c1, u1)) => {
                    lemma_lower_scopes(u1, *right, depth);
                    match lower(u1, *right, depth) {
                        Ok((c2, u2)) => {
                            lemma_known_scopes(u2, Type::Unknown, pos, len);
                        },
                        Err(_) => {},
                    }
                },
                Err(_) => {},
            }
        },
        Ast::PrefixOp { op, right } => {
            lemma_lower_scopes(unit, *right, depth);
            match lower(unit, *right, depth) {
                Ok((c1, u1)) => {
                    lemma_known_scopes(u1, Type::Unknown, pos, len);
                },
                Err(_) => {},
            }
        },
        Ast::VariableRef { name } => {
            match find_const(unit.consts, name) {
                Some(value) => {
                    if depth > 0 {
                        lemma_lower_scopes(unit, value, (depth - 1) as nat);
                    }
                },
                None => {
                    match lookup(unit.scopes, name) {
                        Some(typ) => {
                            lemma_known_scopes(unit, typ, pos, len);
                        },
                        None => {},
                    }
                },
            }
        },
        Ast::IfStatement { condition, body, else_body } => {
            lemma_known_scopes(unit, Type::Unknown, pos, len);
            match labels(unit, pos, len) {
                Ok((first, u0)) => {
                    lemma_lower_scopes(u0, *condition, depth);
                    match lower(u0, *condition, depth) {
                        Ok((cc, u1)) => {
                            lemma_lower_scopes(u1, *body, depth);
                            match lower(u1, *body, depth) {
                                Ok((bc, u2)) => {
                                    lemma_lower_scopes(u2, *else_body, depth);
                                },
                                Err(_) => {},
                            }
                        },
                        Err(_) => {},
                    }
                },
                Err(_) => {},
            }
        },
        Ast::WhileStatement { condition, body } => {
            lemma_known_scopes(unit, Type::Unknown, pos, len);
            match labels(unit, pos, len) {
                Ok((first, u0)) => {
                    lemma_lower_scopes(u0, *condition, depth);
                    match lower(u0, *condition, depth) {
                        Ok((cc, u1)) => {
                            lemma_lower_scopes(u1, *body, depth);
                        },
                        Err(_) => {},
                    }
                },
                Err(_) => {},
            }
        },
        Ast::Block { nodes } => {
            lemma_lower_all_scopes(unit, nodes, 0, depth);
        },
        Ast::VarStatement { name, typ, value } => {
            lemma_known_scopes(unit, typ, pos, len);
            match known(unit, typ, pos, len) {
                Ok((t, u0)) => {
                    lemma_lower_scopes(u0, *value, depth);
                    match lower(u0, *value, depth) {
                        Ok((code, u1)) => {
                            lemma_below_later(t, u0.next_var, u1.next_var);
                            lemma_declare_below(u1.scopes, name, t, u1.next_var);
                        },
                        Err(_) => {},
                    }
                },
                Err(_) => {},
            }
        },
        Ast::AssignStatement { name, value } => {
            lemma_lower_scopes(unit, *value, depth);
            match lower(unit, *value, depth) {
                Ok((code, u1)) => {
                    match lookup(u1.scopes, name) {
                        Some(typ) => {
                            lemma_known_scopes(u1, typ, pos, len);
                        },
                        None => {},
                    }
                },
                Err(_) => {},
            }
        },
        Ast::ReturnStatement { val } => {
            lemma_lower_scopes(unit, *val, depth);
        },
        _ => {},
    }
}

/// Lowering a list keeps the scopes below the counter, also where it
/// fails.
pub proof fn lemma_lower_all_scopes(unit: Unit, nodes: Seq<Span<Ast>>, k: int, depth: nat)
    requires
        scopes_taken(unit),
    ensures
        match lower_all(unit, nodes, k, depth) {
            Ok((_, after)) => scopes_taken(after) && unit.next_var <= after.next_var,
            Err((_, after)) => scopes_taken(after) && unit.next_var <= after.next_var,
        },
    decreases depth, nodes, nodes.len() - k,
{
    if !(k < 0 || k >= nodes.len()) {
        lemma_lower_scopes(unit, nodes[k], depth);
        match lower(unit, nodes[k], depth) {
            Ok((first, u1)) => {
                lemma_lower_all_scopes(u1, nodes, k + 1, depth);
            },
            Err(_) => {},
        }
    }
}

/// Lowering a procedure keeps the scopes below the counter, also where it
/// fails.
pub proof fn lemma_lower_proc_scopes(unit: Unit, node: Span<Ast>, depth: nat)
    requires
        scopes_taken(unit),
    ensures
        match lower_proc(unit, node, depth) {
            Ok((_, after)) => scopes_taken(after) && unit.next_var <= after.next_var,
            Err((_, after)) => scopes_taken(after) && unit.next_var <= after.next_var,
        },
{
    match node.contents {
        Ast::ProcStatement { name, args, arg_types, ret_type, body } => {
            match body.contents {
                Ast::Block { nodes } => {
                    if args.len() == arg_types.len() && crate::lowering::signature_taken(
                        unit,
                        arg_types,
                        ret_type,
                    ) {
                        lemma_bind_all_below(unit.scopes, args, arg_types, unit.next_var);
                        let inner = Unit {
                            scopes: unit.scopes.push(crate::scopes::bind_all(args, arg_types)),
                            ..unit
                        };
                        lemma_lower_all_scopes(inner, nodes, 0, depth);
                    }
                },
                _ => {},
            }
        },
        _ => {},
    }
}

} // verus!
