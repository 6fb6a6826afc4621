//! Laws of the front end, each proved from the definitions of parsing,
//! lowering and inference.

use vstd::prelude::*;
use crate::astgen::Ast;
use crate::errors::{ErrorRecord, ErrorType, Span};
use crate::grammar::{
    array_size, block, decimal, digit_value, loop_rest, program, true_literal, unplaced, Parsed,
    Stream,
};
use crate::inference::{
    find_proc, infer, lemma_bodies_retyped, lemma_infer_bounded, lemma_infer_well_formed,
    lemma_solve_uniform, retyped, solve, unbound_procedure, unbound_variable, Constraint,
};
use crate::ir::{
    all_bounded, all_closed, all_resolved, all_typed, bounded, ends_in_return, has_label,
    lemma_all_bounded_later, proc_bounded, well_formed, within, Code, Op, Proc, Unit,
};
use crate::label_laws::{lemma_lower_shift, moved, same_but_labels};
use crate::lowering::{
    build, declare_from, define_from, else_part, end_part, if_code, labels, lower, lower_proc,
    puts, replace_first, signature_taken, then_part,
};
use crate::lowering_laws::{
    calls_typed, lemma_bounded_join, lemma_declared, lemma_declared_bounded, lemma_defined,
    lemma_defined_bounded, lemma_lower_bounded, lemma_lower_calls_typed,
    lemma_lower_proc_bounded, lemma_lower_proc_scopes, lemma_lower_proc_sound,
    lemma_lower_proc_typed, lemma_lower_sound, scopes_taken,
};
use crate::parser::parsed;
use crate::scope_laws::{
    lemma_lower_proc_scoped, lemma_lower_scoped, lemma_use_follows_allocate, scopes_after, uses,
};
use crate::scopes::{bind_all, lookup, Bindings};
use crate::text::{digit_char, digits};
use crate::types::{below, Type};

verus! {

/// Parsing is a function of the token stream: two runs of the parser from
/// the start of the same stream, with the same log before them, end with the
/// same syntax trees, at the same position and with the same log.
pub proof fn lemma_parsing_is_repeatable(
    toks: Stream,
    log: Seq<ErrorRecord>,
    first: Option<Seq<Span<Ast>>>,
    first_position: nat,
    first_log: Seq<ErrorRecord>,
    second: Option<Seq<Span<Ast>>>,
    second_position: nat,
    second_log: Seq<ErrorRecord>,
)
    requires
        parsed(program(toks, 0, Seq::empty()), first, 0, first_position, log, first_log),
        parsed(program(toks, 0, Seq::empty()), second, 0, second_position, log, second_log),
    ensures
        first == second,
        first_log == second_log,
        first is Some ==> first_position == second_position,
{
}

/// Declaring the constants and procedures of a module keeps the procedures
/// well formed, also where it fails.
pub proof fn lemma_declare_well_formed(unit: Unit, nodes: Seq<Span<Ast>>, k: int)
    requires
        well_formed(unit.procs),
    ensures
        match declare_from(unit, nodes, k) {
            Ok(after) => well_formed(after.procs),
            Err((_, after)) => well_formed(after.procs),
        },
    decreases nodes.len() - k,
{
    if !(k < 0 || k >= nodes.len()) {
        match nodes[k].contents {
            Ast::ConstStatement { name, typ, value } => {
                lemma_declare_well_formed(
                    Unit { consts: unit.consts.push((name, *value)), ..unit },
                    nodes,
                    k + 1,
                );
            },
            Ast::ProcStatement { name, args, arg_types, ret_type, body } => {
                if args.len() == arg_types.len() {
                    let stub = Proc { name, args, arg_types, ret_type, body: Seq::empty() };
                    lemma_declared(unit.procs, stub);
                    lemma_declare_well_formed(
                        Unit { procs: unit.procs.push(stub), ..unit },
                        nodes,
                        k + 1,
                    );
                }
            },
            _ => {},
        }
    }
}

/// Lowering the procedures of a module keeps the procedures well formed,
/// also where it fails.
pub proof fn lemma_define_well_formed(unit: Unit, nodes: Seq<Span<Ast>>, k: int, depth: nat)
    requires
        well_formed(unit.procs),
    ensures
        match define_from(unit, nodes, k, depth) {
            Ok(after) => well_formed(after.procs),
            Err((_, after)) => well_formed(after.procs),
        },
    decreases nodes.len() - k,
{
    if !(k < 0 || k >= nodes.len()) {
        match nodes[k].contents {
            Ast::ProcStatement { .. } => {
                lemma_lower_proc_sound(unit, nodes[k], depth);
                match lower_proc(unit, nodes[k], depth) {
                    Ok((p, u1)) => {
                        lemma_defined(u1.procs, p);
                        lemma_define_well_formed(
                            Unit { procs: replace_first(u1.procs, p), ..u1 },
                            nodes,
                            k + 1,
                            depth,
                        );
                    },
                    Err(_) => {},
                }
            },
            _ => {
                lemma_define_well_formed(unit, nodes, k + 1, depth);
            },
        }
    }
}

/// No procedure has any code.
pub open spec fn nothing_lowered(procs: Seq<Proc>) -> bool {
    forall|k: int| 0 <= k < procs.len() ==> (#[trigger] procs[k]).body.len() == 0
}

/// Declaring lowers nothing: where no procedure had code before, none has
/// any after, whether declaring ends well or fails.
pub proof fn lemma_declaring_lowers_nothing(unit: Unit, nodes: Seq<Span<Ast>>, k: int)
    requires
        nothing_lowered(unit.procs),
    ensures
        match declare_from(unit, nodes, k) {
            Ok(after) => nothing_lowered(after.procs),
            Err((_, after)) => nothing_lowered(after.procs),
        },
    decreases nodes.len() - k,
{
    if !(k < 0 || k >= nodes.len()) {
        match nodes[k].contents {
            Ast::ConstStatement { name, typ, value } => {
                lemma_declaring_lowers_nothing(
                    Unit { consts: unit.consts.push((name, *value)), ..unit },
                    nodes,
                    k + 1,
                );
            },
            Ast::ProcStatement { name, args, arg_types, ret_type, body } => {
                if args.len() == arg_types.len() {
                    let stub = Proc { name, args, arg_types, ret_type, body: Seq::empty() };
                    lemma_declaring_lowers_nothing(
                        Unit { procs: unit.procs.push(stub), ..unit },
                        nodes,
                        k + 1,
                    );
                }
            },
            _ => {},
        }
    }
}

/// Where a module holds something at its top level that may not stand
/// there, or a procedure without a type for each parameter, lowering the
/// module fails with the error of the declarations, and no procedure has
/// any code, if none had before.
pub proof fn lemma_failed_declaration_lowers_nothing(unit: Unit, nodes: Seq<Span<Ast>>)
    requires
        nothing_lowered(unit.procs),
    ensures
        match declare_from(Unit { procs: unit.procs.push(puts()), ..unit }, nodes, 0) {
            Ok(_) => true,
            Err((e, after)) => build(unit, nodes) == Err::<Unit, (ErrorRecord, Unit)>((e, after))
                && nothing_lowered(after.procs),
        },
{
    let u0 = Unit { procs: unit.procs.push(puts()), ..unit };
    assert(puts().body.len() == 0);
    lemma_declaring_lowers_nothing(u0, nodes, 0);
}

/// In every procedure of a module, each `Jump` and each `Branch` has the
/// labels it goes to in the same body, and each `Call` names a procedure of
/// the module. This holds after the module is lowered, and of what is left
/// when lowering fails: then no procedure holds a call of a name that is
/// not declared.
pub proof fn lemma_lowered_module_is_well_formed(unit: Unit, nodes: Seq<Span<Ast>>)
    requires
        well_formed(unit.procs),
    ensures
        match build(unit, nodes) {
            Ok(after) => all_closed(after.procs) && all_resolved(after.procs),
            Err((_, after)) => all_closed(after.procs) && all_resolved(after.procs),
        },
{
    lemma_declared(unit.procs, puts());
    let u0 = Unit { procs: unit.procs.push(puts()), ..unit };
    lemma_declare_well_formed(u0, nodes, 0);
    match declare_from(u0, nodes, 0) {
        Ok(u1) => {
            lemma_define_well_formed(u1, nodes, 0, u1.consts.len());
        },
        Err(_) => {},
    }
}

/// A call of a procedure that is not declared does not lower. What is
/// reported is a name error whose message holds the name, and the unit stays
/// as it was: no argument is lowered.
pub proof fn lemma_unknown_call_is_reported(unit: Unit, node: Span<Ast>, depth: nat)
    requires
        node.contents is Call,
        find_proc(unit.procs, node.contents->Call_name) is None,
    ensures
        lower(unit, node, depth) == Err::<(Code, Unit), (ErrorRecord, Unit)>(
            (unbound_procedure(node.contents->Call_name), unit),
        ),
        unbound_procedure(node.contents->Call_name).typ == ErrorType::NameError,
        unbound_procedure(node.contents->Call_name).msg == "Can't find a procedure named "@
            + node.contents->Call_name + " in the current module"@,
{
}

/// The codes of the condition, the body and the else branch of an `if`, in
/// the order in which they are lowered.
pub open spec fn if_parts(unit: Unit, node: Span<Ast>, depth: nat) -> Option<(Code, Code, Code)> {
    match node.contents {
        Ast::IfStatement { condition, body, else_body } => match labels(unit, node.pos, node.len) {
            Ok((_, u0)) => match lower(u0, *condition, depth) {
                Ok((cc, u1)) => match lower(u1, *body, depth) {
                    Ok((bc, u2)) => match lower(u2, *else_body, depth) {
                        Ok((ec, _)) => Some((cc, bc, ec)),
                        Err(_) => None,
                    },
                    Err(_) => None,
                },
                Err(_) => None,
            },
            Err(_) => None,
        },
        _ => None,
    }
}

/// The code of an `if` whose branches both end in `Return` holds no label
/// for its end: the third of the labels that the `if` takes stands nowhere
/// in it.
pub proof fn lemma_returning_if_has_no_end_label(unit: Unit, node: Span<Ast>, depth: nat)
    requires
        node.contents is IfStatement,
    ensures
        match (lower(unit, node, depth), if_parts(unit, node, depth)) {
            (Ok((code, _)), Some((cc, bc, ec))) => code == if_code(
                cc,
                bc,
                ec,
                unit.next_label,
                node.pos,
                node.len,
            ) && (ends_in_return(bc) && ends_in_return(ec) ==> !has_label(
                code,
                (unit.next_label + 2) as u64,
            )),
            (Ok(_), None) => false,
            _ => true,
        },
{
    let pos = node.pos;
    let len = node.len;
    match node.contents {
        Ast::IfStatement { condition, body, else_body } => {
            match labels(unit, pos, len) {
                Ok((first, u0)) => {
                    lemma_lower_sound(u0, *condition, depth);
                    match lower(u0, *condition, depth) {
                        Ok((cc, u1)) => {
                            lemma_lower_sound(u1, *body, depth);
                            match lower(u1, *body, depth) {
                                Ok((bc, u2)) => {
                                    lemma_lower_sound(u2, *else_body, depth);
                                    match lower(u2, *else_body, depth) {
                                        Ok((ec, u3)) => {
                                            if ends_in_return(bc) && ends_in_return(ec) {
                                                let high = u3.next_label as int;
                                                assert(within(cc, first + 3, high));
                                                assert(within(bc, first + 3, high));
                                                assert(within(ec, first + 3, high));
                                                lemma_no_end_label(
                                                    cc,
                                                    bc,
                                                    ec,
                                                    first,
                                                    pos,
                                                    len,
                                                    high,
                                                );
                                            }
                                        },
                                        Err(_) => {},
                                    }
                                },
                                Err(_) => {},
                            }
                        },
                        Err(_) => {},
                    }
                },
                Err(_) => {},
            }
        },
        _ => {},
    }
}

/// If the parts of an `if` hold no label below `first + 3` and both
/// branches end in `Return`, `first + 2` is no label of its code.
pub proof fn lemma_no_end_label(
    cc: Code,
    bc: Code,
    ec: Code,
    first: u64,
    pos: usize,
    len: usize,
    high: int,
)
    requires
        first <= u64::MAX - 3,
        within(cc, first + 3, high),
        within(bc, first + 3, high),
        within(ec, first + 3, high),
        ends_in_return(bc),
        ends_in_return(ec),
    ensures
        !has_label(if_code(cc, bc, ec, first, pos, len), (first + 2) as u64),
{
    let whole = if_code(cc, bc, ec, first, pos, len);
    let end = (first + 2) as u64;
    let p2 = then_part(bc, first, pos, len);
    let p3 = else_part(ec, first, pos, len);
    assert(end_part(bc, ec, first, pos, len).len() == 0);
    assert(whole =~= cc + p2 + p3);
    assert forall|j: int| 0 <= j < whole.len() implies (#[trigger] whole[j]).contents.ins
        != Op::Label(end) by {
        if j < cc.len() {
            assert(whole[j] == cc[j]);
        } else if j < cc.len() + p2.len() {
            let i = j - cc.len();
            assert(whole[j] == p2[i]);
            if i >= 2 {
                assert(p2[i] == bc[i - 2]);
            }
        } else {
            let i = j - cc.len() - p2.len();
            assert(whole[j] == p3[i]);
            if i >= 1 {
                assert(p3[i] == ec[i - 1]);
            }
        }
    }
}

/// In the body of a lowered procedure, a `Load` or a `Store` of a variable
/// carries the type of the `Allocate` of that variable that came last
/// before it, and still does after inference, whatever the constraints.
pub proof fn lemma_uses_carry_the_type_of_the_allocation(
    unit: Unit,
    node: Span<Ast>,
    depth: nat,
    constraints: Seq<Constraint>,
    i: int,
    j: int,
    v: Seq<char>,
)
    requires
        lower_proc(unit, node, depth) is Ok,
        0 <= i < j < lower_proc(unit, node, depth)->Ok_0.0.body.len(),
        lower_proc(unit, node, depth)->Ok_0.0.body[i].contents.ins == Op::Allocate(v),
        uses(lower_proc(unit, node, depth)->Ok_0.0.body[j].contents.ins, v),
        forall|k: int|
            i < k < j ==> (#[trigger] lower_proc(unit, node, depth)->Ok_0.0.body[k]).contents.ins
                != Op::Allocate(v),
    ensures
        ({
            let body = lower_proc(unit, node, depth)->Ok_0.0.body;
            let solved = solve(body, constraints);
            &&& body[j].contents.typ == body[i].contents.typ
            &&& solved.len() == body.len()
            &&& solved[j].contents.typ == solved[i].contents.typ
        }),
{
    let body = lower_proc(unit, node, depth)->Ok_0.0.body;
    lemma_lower_proc_typed(unit, node, depth);
    lemma_lower_proc_scoped(unit, node, depth);
    match node.contents {
        Ast::ProcStatement { args, arg_types, .. } => {
            lemma_use_follows_allocate(unit.scopes.push(bind_all(args, arg_types)), body, i, j, v);
        },
        _ => {},
    }
    lemma_solve_uniform(body, constraints, i, j);
}

/// After inference no instruction of any procedure has the elided type,
/// and the procedures are as well formed as they were. Where inference
/// fails, the procedures are what they were.
pub proof fn lemma_inference_leaves_no_elided_type(unit: Unit)
    requires
        well_formed(unit.procs),
    ensures
        match infer(unit) {
            Ok(after) => all_typed(after.procs) && well_formed(after.procs),
            Err((_, after)) => after.procs == unit.procs,
        },
{
    lemma_infer_well_formed(unit);
}

/// Inference changes instruction types and nothing else: there are as many
/// procedures as before, each with its name, parameters, parameter types
/// and return type, and each body holds the same instructions at the same
/// positions. The constants and the label counter stay.
pub proof fn lemma_inference_changes_types_only(unit: Unit)
    requires
        well_formed(unit.procs),
    ensures
        match infer(unit) {
            Ok(after) => {
                &&& after.consts == unit.consts
                &&& after.next_label == unit.next_label
                &&& after.procs.len() == unit.procs.len()
                &&& forall|k: int|
                    0 <= k < unit.procs.len() ==> {
                        let p = unit.procs[k];
                        let q = #[trigger] after.procs[k];
                        &&& q.name == p.name
                        &&& q.args == p.args
                        &&& q.arg_types == p.arg_types
                        &&& q.ret_type == p.ret_type
                        &&& retyped(p.body, q.body)
                    }
            },
            Err(_) => true,
        },
{
    lemma_bodies_retyped(unit.procs, 0, Seq::empty(), unit.next_var);
}

/// `loop` followed by a block parses as a `while` whose condition is the
/// literal `true` and whose body is the block.
pub proof fn lemma_loop_is_while_true(toks: Stream, p: nat)
    ensures
        loop_rest(toks, p) == match block(toks, p) {
            Ok((body, c)) => Parsed::<Span<Ast>>::Ok(
                (
                    unplaced(
                        Ast::WhileStatement {
                            condition: Box::new(true_literal()),
                            body: Box::new(body),
                        },
                    ),
                    c,
                ),
            ),
            Err(e) => Err(e),
        },
{
    reveal(loop_rest);
}

/// The code of a `while` whose condition is the literal `true`, which is
/// what a `loop` is, is the same from every label counter but for the
/// numbers of its labels: from a counter moved by `d`, each label is `d`
/// more and nothing else differs.
pub proof fn lemma_loop_code_is_the_same_up_to_labels(
    unit: Unit,
    body: Span<Ast>,
    pos: usize,
    len: usize,
    depth: nat,
    d: int,
)
    requires
        0 <= unit.next_label + d <= u64::MAX,
    ensures
        ({
            let node = Span {
                contents: Ast::WhileStatement {
                    condition: Box::new(true_literal()),
                    body: Box::new(body),
                },
                pos,
                len,
            };
            same_but_labels(lower(unit, node, depth), lower(moved(unit, d), node, depth), d)
        }),
{
    let node = Span {
        contents: Ast::WhileStatement {
            condition: Box::new(true_literal()),
            body: Box::new(body),
        },
        pos,
        len,
    };
    lemma_lower_shift(unit, node, depth, d);
}

/// A number written in decimal digits reads back as the same number. So
/// the size of an array type, written as the type is written, is read as
/// that size.
pub proof fn lemma_written_number_reads_back(n: nat)
    ensures
        digits(n).len() > 0,
        decimal(digits(n)) == Some(n),
        n <= u64::MAX ==> array_size(digits(n)) == Some(n as u64),
    decreases n,
{
    assert forall|d: nat| d < 10 implies digit_value(#[trigger] digit_char(d)) == Some(d) by {}
    if n >= 10 {
        lemma_written_number_reads_back(n / 10);
        let s = digits(n);
        assert(s.drop_last() =~= digits(n / 10));
        assert(s.last() == digit_char(n % 10));
    }
}

/// The type variable of an operator is new: the instruction of an infix or
/// a prefix operator carries the variable that the counter stood at, and
/// that variable occurs on no instruction of its operands.
pub proof fn lemma_operator_variable_is_new(unit: Unit, node: Span<Ast>, depth: nat)
    requires
        node.contents is InfixOp || node.contents is PrefixOp,
    ensures
        match lower(unit, node, depth) {
            Ok((code, after)) => code.len() > 0 && after.next_var > 0 && code.last().contents.typ
                == Type::Variable((after.next_var - 1) as u64) && bounded(
                code.drop_last(),
                (after.next_var - 1) as u64,
            ),
            Err(_) => true,
        },
{
    match node.contents {
        Ast::InfixOp { op, left, right } => {
            lemma_lower_bounded(unit, *left, depth);
            match lower(unit, *left, depth) {
                Ok((c1, u1)) => {
                    lemma_lower_bounded(u1, *right, depth);
                    match lower(u1, *right, depth) {
                        Ok((c2, u2)) => {
                            lemma_bounded_join(c1, u1.next_var, c2, u2.next_var, u2.next_var);
                            match lower(unit, node, depth) {
                                Ok((code, after)) => {
                                    assert(code.drop_last() =~= c1 + c2);
                                },
                                Err(_) => {},
                            }
                        },
                        Err(_) => {},
                    }
                },
                Err(_) => {},
            }
        },
        Ast::PrefixOp { op, right } => {
            lemma_lower_bounded(unit, *right, depth);
            match lower(unit, *right, depth) {
                Ok((c1, u1)) => {
                    match lower(unit, node, depth) {
                        Ok((code, after)) => {
                            assert(code.drop_last() =~= c1);
                        },
                        Err(_) => {},
                    }
                },
                Err(_) => {},
            }
        },
        _ => {},
    }
}

/// In the code of a lowered node every `Call` names a procedure of the
/// unit and carries the type that this procedure returns, or a type
/// variable of its own where that type is elided.
pub proof fn lemma_calls_carry_the_return_type(unit: Unit, node: Span<Ast>, depth: nat)
    ensures
        match lower(unit, node, depth) {
            Ok((code, _)) => calls_typed(code, unit.procs),
            Err(_) => true,
        },
{
    lemma_lower_calls_typed(unit, node, depth);
}

/// Every type variable in the procedures and the scopes of the unit was
/// taken from its counter.
pub open spec fn variables_taken(unit: Unit) -> bool {
    all_bounded(unit.procs, unit.next_var) && scopes_taken(unit)
}

/// Declaring keeps every type variable of the unit below its counter.
pub proof fn lemma_declare_keeps_variables(unit: Unit, nodes: Seq<Span<Ast>>, k: int)
    requires
        variables_taken(unit),
    ensures
        match declare_from(unit, nodes, k) {
            Ok(after) => variables_taken(after),
            Err((_, after)) => variables_taken(after),
        },
    decreases nodes.len() - k,
{
    if !(k < 0 || k >= nodes.len()) {
        match nodes[k].contents {
            Ast::ConstStatement { name, typ, value } => {
                lemma_declare_keeps_variables(
                    Unit { consts: unit.consts.push((name, *value)), ..unit },
                    nodes,
                    k + 1,
                );
            },
            Ast::ProcStatement { name, args, arg_types, ret_type, body } => {
                if args.len() == arg_types.len() && signature_taken(unit, arg_types, ret_type) {
                    let stub = Proc { name, args, arg_types, ret_type, body: Seq::empty() };
                    lemma_declared_bounded(unit.procs, stub, unit.next_var);
                    lemma_declare_keeps_variables(
                        Unit { procs: unit.procs.push(stub), ..unit },
                        nodes,
                        k + 1,
                    );
                }
            },
            _ => {},
        }
    }
}

/// Lowering the procedures keeps every type variable of the unit below its
/// counter.
pub proof fn lemma_define_keeps_variables(unit: Unit, nodes: Seq<Span<Ast>>, k: int, depth: nat)
    requires
        variables_taken(unit),
    ensures
        match define_from(unit, nodes, k, depth) {
            Ok(after) => variables_taken(after),
            Err((_, after)) => variables_taken(after),
        },
    decreases nodes.len() - k,
{
    if !(k < 0 || k >= nodes.len()) {
        match nodes[k].contents {
            Ast::ProcStatement { .. } => {
                lemma_lower_proc_sound(unit, nodes[k], depth);
                lemma_lower_proc_bounded(unit, nodes[k], depth);
                lemma_lower_proc_scopes(unit, nodes[k], depth);
                match lower_proc(unit, nodes[k], depth) {
                    Ok((p, u1)) => {
                        lemma_all_bounded_later(unit.procs, unit.next_var, u1.next_var);
                        lemma_defined_bounded(u1.procs, p, u1.next_var);
                        lemma_define_keeps_variables(
                            Unit { procs: replace_first(u1.procs, p), ..u1 },
                            nodes,
                            k + 1,
                            depth,
                        );
                    },
                    Err((_, u1)) => {
                        lemma_all_bounded_later(unit.procs, unit.next_var, u1.next_var);
                    },
                }
            },
            _ => {
                lemma_define_keeps_variables(unit, nodes, k + 1, depth);
            },
        }
    }
}

/// Type variables are unique within a compilation: every type variable in
/// the procedures and the scopes of a unit has a number less than the
/// counter of the unit, so the variable that is taken next occurs nowhere
/// yet. Lowering a module and inference keep it so, also where they fail.
pub proof fn lemma_type_variables_are_taken_from_the_counter(unit: Unit, nodes: Seq<Span<Ast>>)
    requires
        variables_taken(unit),
    ensures
        match build(unit, nodes) {
            Ok(after) => variables_taken(after),
            Err((_, after)) => variables_taken(after),
        },
        match infer(unit) {
            Ok(after) => variables_taken(after),
            Err((_, after)) => variables_taken(after),
        },
{
    assert(proc_bounded(puts(), unit.next_var)) by {
        reveal_with_fuel(below, 2);
    }
    lemma_declared_bounded(unit.procs, puts(), unit.next_var);
    let u0 = Unit { procs: unit.procs.push(puts()), ..unit };
    lemma_declare_keeps_variables(u0, nodes, 0);
    match declare_from(u0, nodes, 0) {
        Ok(u1) => {
            lemma_define_keeps_variables(u1, nodes, 0, u1.consts.len());
        },
        Err(_) => {},
    }
    lemma_infer_bounded(unit);
}

/// Code without an `Allocate` leaves the scopes as they are.
pub proof fn lemma_scopes_stay_without_allocate(scopes: Seq<Bindings>, code: Code)
    requires
        forall|i: int| 0 <= i < code.len() ==> !((#[trigger] code[i]).contents.ins is Allocate),
    ensures
        scopes_after(scopes, code) == scopes,
    decreases code.len(),
{
    if code.len() > 0 {
        assert forall|i: int| 0 <= i < code.drop_last().len() implies !((
        #[trigger] code.drop_last()[i]).contents.ins is Allocate) by {
            assert(code.drop_last()[i] == code[i]);
        }
        lemma_scopes_stay_without_allocate(scopes, code.drop_last());
    }
}

/// An assignment to a name that no scope binds does not lower. The value is
/// lowered first; then the name error is reported, and the unit stays as
/// lowering the value left it. Its scopes are those from before with what
/// the code of the value allocates: where that code allocates nothing, as
/// the code of an expression does, the scopes are unchanged.
pub proof fn lemma_unbound_assignment_is_reported(unit: Unit, node: Span<Ast>, depth: nat)
    requires
        node.contents is AssignStatement,
    ensures
        match lower(unit, *node.contents->AssignStatement_value, depth) {
            Ok((code, after)) => lookup(after.scopes, node.contents->AssignStatement_name)
                is None ==> {
                &&& lower(unit, node, depth) == Err::<(Code, Unit), (ErrorRecord, Unit)>(
                    (unbound_variable(node.contents->AssignStatement_name), after),
                )
                &&& after.scopes == scopes_after(unit.scopes, code)
                &&& (forall|i: int|
                    0 <= i < code.len() ==> !((#[trigger] code[i]).contents.ins is Allocate))
                    ==> after.scopes == unit.scopes
            },
            Err(e) => lower(unit, node, depth) == Err::<(Code, Unit), (ErrorRecord, Unit)>(e),
        },
{
    let value = *node.contents->AssignStatement_value;
    lemma_lower_scoped(unit, value, depth);
    match lower(unit, value, depth) {
        Ok((code, after)) => {
            if forall|i: int|
                0 <= i < code.len() ==> !((#[trigger] code[i]).contents.ins is Allocate) {
                lemma_scopes_stay_without_allocate(unit.scopes, code);
            }
        },
        Err(_) => {},
    }
}

} // verus!
