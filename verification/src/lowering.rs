//! Lowering as mathematics: the code that a syntax tree becomes, and what
//! producing it does to the compilation unit.

use vstd::prelude::*;
use crate::astgen::Ast;
use crate::errors::{name_record, syntax_record, ErrorRecord, Span};
use crate::grammar::not_top_level;
use crate::inference::{find_proc, out_of_variables, unbound_procedure, unbound_variable};
use crate::ir::{at, ends_in_return, types_below, Code, CompareType, Constants, Op, Proc, Unit};
use crate::scopes::{bind_all, declare, lookup};
use crate::types::{below, Type};

verus! {

/// A failure: the error to report, and the unit as it is when lowering
/// stops.
pub type Failure = (ErrorRecord, Unit);

/// What lowering gives: the code and the unit after it, or the failure.
pub type Lowered = Result<(Code, Unit), Failure>;

/// What is reported for an operator that stands for no instruction.
pub open spec fn unknown_operator() -> Seq<char> {
    "Unknown operator"@
}

/// What is reported for a constant declared inside a procedure.
pub open spec fn nested_const() -> Seq<char> {
    "Found const statement not at top level. This feature is NYI."@
}

/// What is reported for a node that has no lowering where it stands.
pub open spec fn unsupported() -> Seq<char> {
    "This construct is not supported here"@
}

/// What is reported when the counter of labels is used up.
pub open spec fn out_of_labels() -> Seq<char> {
    "The module needs more labels than there are"@
}

/// What is reported for a procedure with more or fewer types than parameters.
pub open spec fn unpaired() -> Seq<char> {
    "A procedure needs one type for each parameter"@
}

/// What is reported for a type with a type variable that was never taken.
pub open spec fn untaken() -> Seq<char> {
    "A type holds a type variable that was never taken"@
}

/// What is reported for a constant whose expression leads back to itself.
pub open spec fn cyclic(name: Seq<char>) -> Seq<char> {
    "The constant "@ + name + " is defined in terms of itself"@
}

/// The instruction that an infix operator stands for. A `~` at the end
/// selects wrapping arithmetic.
pub open spec fn infix_op(op: Seq<char>) -> Option<Op> {
    if op == "+"@ {
        Some(Op::Add(false))
    } else if op == "-"@ {
        Some(Op::Subtract(false))
    } else if op == "*"@ {
        Some(Op::Multiply(false))
    } else if op == "+~"@ {
        Some(Op::Add(true))
    } else if op == "-~"@ {
        Some(Op::Subtract(true))
    } else if op == "*~"@ {
        Some(Op::Multiply(true))
    } else if op == "//"@ {
        Some(Op::IntDivide)
    } else if op == "/"@ {
        Some(Op::Divide)
    } else if op == "=="@ {
        Some(Op::Compare(CompareType::EQ))
    } else if op == "!="@ {
        Some(Op::Compare(CompareType::NE))
    } else if op == ">"@ {
        Some(Op::Compare(CompareType::GT))
    } else if op == "<"@ {
        Some(Op::Compare(CompareType::LT))
    } else if op == ">="@ {
        Some(Op::Compare(CompareType::GE))
    } else if op == "<="@ {
        Some(Op::Compare(CompareType::LE))
    } else {
        None
    }
}

/// The instruction that a prefix operator stands for.
pub open spec fn prefix_op(op: Seq<char>) -> Option<Op> {
    if op == "-"@ {
        Some(Op::Negate(false))
    } else if op == "-~"@ {
        Some(Op::Negate(true))
    } else {
        None
    }
}

/// The expression of the constant `name`: that of its last declaration.
pub open spec fn find_const(consts: Constants, name: Seq<char>) -> Option<Span<Ast>>
    decreases consts.len(),
{
    if consts.len() == 0 {
        None
    } else if consts.last().0 == name {
        Some(consts.last().1)
    } else {
        find_const(consts.drop_last(), name)
    }
}

/// A fresh type variable and the unit after it is taken, or the error that
/// none is left.
pub open spec fn fresh(unit: Unit, pos: usize, len: usize) -> Result<(Type, Unit), Failure> {
    if unit.next_var == u64::MAX {
        Err((syntax_record(out_of_variables(), pos, len), unit))
    } else {
        Ok((Type::Variable(unit.next_var), Unit { next_var: (unit.next_var + 1) as u64, ..unit }))
    }
}

/// The type for an instruction: the type itself, or a fresh variable in
/// place of an elided type. A type that holds a type variable which was
/// never taken from the counter is refused, so that a variable taken later
/// is new.
pub open spec fn known(unit: Unit, typ: Type, pos: usize, len: usize) -> Result<
    (Type, Unit),
    Failure,
> {
    if typ == Type::Unknown {
        fresh(unit, pos, len)
    } else if !below(typ, unit.next_var) {
        Err((syntax_record(untaken(), pos, len), unit))
    } else {
        Ok((typ, unit))
    }
}

/// Three fresh labels, given by the first of them, and the unit after they
/// are taken, or the error that too few are left.
pub open spec fn labels(unit: Unit, pos: usize, len: usize) -> Result<(u64, Unit), Failure> {
    if unit.next_label > u64::MAX - 3 {
        Err((syntax_record(out_of_labels(), pos, len), unit))
    } else {
        Ok((unit.next_label, Unit { next_label: (unit.next_label + 3) as u64, ..unit }))
    }
}

/// A jump to `label`, unless the code before it ends in `Return`.
pub open spec fn jump_unless_returned(code: Code, label: u64, pos: usize, len: usize) -> Code {
    if ends_in_return(code) {
        Seq::empty()
    } else {
        seq![at(Op::Jump(label), Type::Undefined, pos, len)]
    }
}

/// The code of a node and the unit after lowering it. Constants are
/// inlined, at most `depth` deep.
pub open spec fn lower(unit: Unit, node: Span<Ast>, depth: nat) -> Lowered
    decreases depth, node, 1nat,
{
    match node.contents {
        Ast::Literal { .. } => lower_literal(unit, node),
        Ast::Call { .. } => lower_call(unit, node, depth),
        Ast::InfixOp { .. } => lower_infix(unit, node, depth),
        Ast::PrefixOp { .. } => lower_prefix(unit, node, depth),
        Ast::VariableRef { .. } => lower_ref(unit, node, depth),
        Ast::IfStatement { .. } => lower_if(unit, node, depth),
        Ast::WhileStatement { .. } => lower_while(unit, node, depth),
        Ast::Block { nodes } => lower_all(unit, nodes, 0, depth),
        Ast::VarStatement { .. } => lower_var(unit, node, depth),
        Ast::AssignStatement { .. } => lower_assign(unit, node, depth),
        Ast::ReturnStatement { .. } => lower_return(unit, node, depth),
        Ast::ConstStatement { .. } => Err((syntax_record(nested_const(), node.pos, node.len), unit)),
        _ => Err((syntax_record(unsupported(), node.pos, node.len), unit)),
    }
}

/// The code of the nodes from place `k` on, in order.
pub open spec fn lower_all(unit: Unit, nodes: Seq<Span<Ast>>, k: int, depth: nat) -> Lowered
    decreases depth, nodes, nodes.len() - k,
{
    if k < 0 || k >= nodes.len() {
        Ok((Seq::empty(), unit))
    } else {
        match lower(unit, nodes[k], depth) {
            Ok((first, u1)) => match lower_all(u1, nodes, k + 1, depth) {
                Ok((rest, u2)) => Ok((first + rest, u2)),
                Err(e) => Err(e),
            },
            Err(e) => Err(e),
        }
    }
}

/// A literal: one `Push` of its text.
pub open spec fn lower_literal(unit: Unit, node: Span<Ast>) -> Lowered {
    match node.contents {
        Ast::Literal { typ, value } => match known(unit, typ, node.pos, node.len) {
            Ok((t, u)) => Ok((seq![at(Op::Push(value), t, node.pos, node.len)], u)),
            Err(e) => Err(e),
        },
        _ => Err((syntax_record(unsupported(), node.pos, node.len), unit)),
    }
}

/// A call: the arguments from left to right, then `Call` with the type that
/// the procedure returns. The procedure must have been declared.
pub open spec fn lower_call(unit: Unit, node: Span<Ast>, depth: nat) -> Lowered
    decreases depth, node, 0nat,
{
    match node.contents {
        Ast::Call { name, args } => match find_proc(unit.procs, name) {
            Some(k) => match lower_all(unit, args, 0, depth) {
                Ok((code, u1)) => match known(u1, unit.procs[k].ret_type, node.pos, node.len) {
                    Ok((t, u2)) => Ok(
                        (code.push(at(Op::Call(name), t, node.pos, node.len)), u2),
                    ),
                    Err(e) => Err(e),
                },
                Err(e) => Err(e),
            },
            None => Err((unbound_procedure(name), unit)),
        },
        _ => Err((syntax_record(unsupported(), node.pos, node.len), unit)),
    }
}

/// An infix operator: the left operand, the right operand, then the
/// instruction of the operator with a fresh type variable.
pub open spec fn lower_infix(unit: Unit, node: Span<Ast>, depth: nat) -> Lowered
    decreases depth, node, 0nat,
{
    match node.contents {
        Ast::InfixOp { op, left, right } => match lower(unit, *left, depth) {
            Ok((c1, u1)) => match lower(u1, *right, depth) {
                Ok((c2, u2)) => match infix_op(op) {
                    Some(o) => match fresh(u2, node.pos, node.len) {
                        Ok((t, u3)) => Ok(((c1 + c2).push(at(o, t, node.pos, node.len)), u3)),
                        Err(e) => Err(e),
                    },
                    None => Err((syntax_record(unknown_operator(), node.pos, node.len), u2)),
                },
                Err(e) => Err(e),
            },
            Err(e) => Err(e),
        },
        _ => Err((syntax_record(unsupported(), node.pos, node.len), unit)),
    }
}

/// A prefix operator: the operand, then `Negate` with a fresh type variable.
pub open spec fn lower_prefix(unit: Unit, node: Span<Ast>, depth: nat) -> Lowered
    decreases depth, node, 0nat,
{
    match node.contents {
        Ast::PrefixOp { op, right } => match lower(unit, *right, depth) {
            Ok((c1, u1)) => match prefix_op(op) {
                Some(o) => match fresh(u1, node.pos, node.len) {
                    Ok((t, u2)) => Ok((c1.push(at(o, t, node.pos, node.len)), u2)),
                    Err(e) => Err(e),
                },
                None => Err((syntax_record(unknown_operator(), node.pos, node.len), u1)),
            },
            Err(e) => Err(e),
        },
        _ => Err((syntax_record(unsupported(), node.pos, node.len), unit)),
    }
}

/// A name: the code of the constant it stands for, or a `Load` of the
/// variable with the type that the scopes give it.
pub open spec fn lower_ref(unit: Unit, node: Span<Ast>, depth: nat) -> Lowered
    decreases depth, node, 0nat,
{
    match node.contents {
        Ast::VariableRef { name } => match find_const(unit.consts, name) {
            Some(value) => if depth == 0 {
                Err((name_record(cyclic(name), node.pos, node.len), unit))
            } else {
                lower(unit, value, (depth - 1) as nat)
            },
            None => match lookup(unit.scopes, name) {
                Some(typ) => match known(unit, typ, node.pos, node.len) {
                    Ok((t, u)) => Ok((seq![at(Op::Load(name), t, node.pos, node.len)], u)),
                    Err(e) => Err(e),
                },
                None => Err((unbound_variable(name), unit)),
            },
        },
        _ => Err((syntax_record(unsupported(), node.pos, node.len), unit)),
    }
}

/// The branch of an `if` and its body: the body follows its label, and a
/// jump to the end follows the body unless the body returns.
pub open spec fn then_part(body: Code, first: u64, pos: usize, len: usize) -> Code {
    seq![
        at(Op::Branch(first, (first + 1) as u64), Type::NoReturn, pos, len),
        at(Op::Label(first), Type::Undefined, pos, len),
    ] + body + jump_unless_returned(body, (first + 2) as u64, pos, len)
}

/// The else branch of an `if` after its label, with a jump to the end
/// unless it returns.
pub open spec fn else_part(else_body: Code, first: u64, pos: usize, len: usize) -> Code {
    seq![at(Op::Label((first + 1) as u64), Type::Undefined, pos, len)] + else_body
        + jump_unless_returned(else_body, (first + 2) as u64, pos, len)
}

/// The label of the end of an `if`. It is left out when both branches end
/// in `Return`.
pub open spec fn end_part(body: Code, else_body: Code, first: u64, pos: usize, len: usize) -> Code {
    if ends_in_return(body) && ends_in_return(else_body) {
        Seq::empty()
    } else {
        seq![at(Op::Label((first + 2) as u64), Type::Undefined, pos, len)]
    }
}

/// The code of an `if` from the codes of its parts and its first label:
/// the condition, the branch with the body, the else branch, and the label
/// of the end. The labels of the body, the else branch and the end are
/// `first` and the two after it.
pub open spec fn if_code(
    condition: Code,
    body: Code,
    else_body: Code,
    first: u64,
    pos: usize,
    len: usize,
) -> Code {
    condition + then_part(body, first, pos, len) + else_part(else_body, first, pos, len)
        + end_part(body, else_body, first, pos, len)
}

/// An `if`: three labels are taken, then the condition, the body and the
/// else branch are lowered in this order.
pub open spec fn lower_if(unit: Unit, node: Span<Ast>, depth: nat) -> Lowered
    decreases depth, node, 0nat,
{
    match node.contents {
        Ast::IfStatement { condition, body, else_body } => match labels(unit, node.pos, node.len) {
            Ok((first, u0)) => match lower(u0, *condition, depth) {
                Ok((cc, u1)) => match lower(u1, *body, depth) {
                    Ok((bc, u2)) => match lower(u2, *else_body, depth) {
                        Ok((ec, u3)) => Ok((if_code(cc, bc, ec, first, node.pos, node.len), u3)),
                        Err(e) => Err(e),
                    },
                    Err(e) => Err(e),
                },
                Err(e) => Err(e),
            },
            Err(e) => Err(e),
        },
        _ => Err((syntax_record(unsupported(), node.pos, node.len), unit)),
    }
}

/// The code of a `while` from the codes of its parts and its first label.
pub open spec fn while_code(condition: Code, body: Code, first: u64, pos: usize, len: usize) -> Code {
    let cond_label = first;
    let body_label = (first + 1) as u64;
    let end_label = (first + 2) as u64;
    seq![
        at(Op::Jump(cond_label), Type::Undefined, pos, len),
        at(Op::Label(cond_label), Type::Undefined, pos, len),
    ] + condition + seq![
        at(Op::Branch(body_label, end_label), Type::NoReturn, pos, len),
        at(Op::Label(body_label), Type::Undefined, pos, len),
    ] + body + jump_unless_returned(body, cond_label, pos, len) + seq![
        at(Op::Label(end_label), Type::Undefined, pos, len),
    ]
}

/// A `while`: three labels are taken, then the condition and the body are
/// lowered in this order.
pub open spec fn lower_while(unit: Unit, node: Span<Ast>, depth: nat) -> Lowered
    decreases depth, node, 0nat,
{
    match node.contents {
        Ast::WhileStatement { condition, body } => match labels(unit, node.pos, node.len) {
            Ok((first, u0)) => match lower(u0, *condition, depth) {
                Ok((cc, u1)) => match lower(u1, *body, depth) {
                    Ok((bc, u2)) => Ok((while_code(cc, bc, first, node.pos, node.len), u2)),
                    Err(e) => Err(e),
                },
                Err(e) => Err(e),
            },
            Err(e) => Err(e),
        },
        _ => Err((syntax_record(unsupported(), node.pos, node.len), unit)),
    }
}

/// A `var`: an elided type gives way to a fresh variable, the value is
/// lowered, `Allocate` follows, and the name is bound in the innermost scope.
pub open spec fn lower_var(unit: Unit, node: Span<Ast>, depth: nat) -> Lowered
    decreases depth, node, 0nat,
{
    match node.contents {
        Ast::VarStatement { name, typ, value } => match known(unit, typ, node.pos, node.len) {
            Ok((t, u0)) => match lower(u0, *value, depth) {
                Ok((code, u1)) => Ok(
                    (
                        code.push(at(Op::Allocate(name), t, node.pos, node.len)),
                        Unit { scopes: declare(u1.scopes, name, t), ..u1 },
                    ),
                ),
                Err(e) => Err(e),
            },
            Err(e) => Err(e),
        },
        _ => Err((syntax_record(unsupported(), node.pos, node.len), unit)),
    }
}

/// An assignment: the value, then `Store` with the type that the scopes give
/// the variable.
pub open spec fn lower_assign(unit: Unit, node: Span<Ast>, depth: nat) -> Lowered
    decreases depth, node, 0nat,
{
    match node.contents {
        Ast::AssignStatement { name, value } => match lower(unit, *value, depth) {
            Ok((code, u1)) => match lookup(u1.scopes, name) {
                Some(typ) => match known(u1, typ, node.pos, node.len) {
                    Ok((t, u2)) => Ok(
                        (code.push(at(Op::Store(name), t, node.pos, node.len)), u2),
                    ),
                    Err(e) => Err(e),
                },
                None => Err((unbound_variable(name), u1)),
            },
            Err(e) => Err(e),
        },
        _ => Err((syntax_record(unsupported(), node.pos, node.len), unit)),
    }
}

/// The type of the last instruction, or the undefined type of empty code.
pub open spec fn last_type(code: Code) -> Type {
    if code.len() > 0 {
        code.last().contents.typ
    } else {
        Type::Undefined
    }
}

/// A `return`: the value, then `Return` with the type of the instruction
/// before it.
pub open spec fn lower_return(unit: Unit, node: Span<Ast>, depth: nat) -> Lowered
    decreases depth, node, 0nat,
{
    match node.contents {
        Ast::ReturnStatement { val } => match lower(unit, *val, depth) {
            Ok((code, u1)) => Ok(
                (code.push(at(Op::Return, last_type(code), node.pos, node.len)), u1),
            ),
            Err(e) => Err(e),
        },
        _ => Err((syntax_record(unsupported(), node.pos, node.len), unit)),
    }
}

/// `r` with `code` put in front of its code.
pub open spec fn prepend(code: Code, r: Lowered) -> Lowered {
    match r {
        Ok((rest, unit)) => Ok((code + rest, unit)),
        Err(e) => Err(e),
    }
}

/// Lowering the nodes from place `k` on is lowering node `k` and then the
/// nodes after it.
pub proof fn lemma_lower_all_step(
    done: Code,
    unit: Unit,
    nodes: Seq<Span<Ast>>,
    k: int,
    depth: nat,
)
    requires
        0 <= k < nodes.len(),
    ensures
        prepend(done, lower_all(unit, nodes, k, depth)) == match lower(unit, nodes[k], depth) {
            Ok((first, u1)) => prepend(done + first, lower_all(u1, nodes, k + 1, depth)),
            Err(e) => Err(e),
        },
{
    match lower(unit, nodes[k], depth) {
        Ok((first, u1)) => {
            match lower_all(u1, nodes, k + 1, depth) {
                Ok((rest, u2)) => {
                    assert(done + (first + rest) =~= (done + first) + rest);
                },
                Err(_) => {},
            }
        },
        Err(_) => {},
    }
}

/// True if a signature holds no type variable but such as were taken from
/// the counter of the unit.
pub open spec fn signature_taken(unit: Unit, arg_types: Seq<Type>, ret_type: Type) -> bool {
    types_below(arg_types, unit.next_var) && below(ret_type, unit.next_var)
}

/// The built-in procedure `puts(s: *i8): i32`.
pub open spec fn puts() -> Proc {
    Proc {
        name: "puts"@,
        args: seq!["s"@],
        arg_types: seq![Type::Ptr(Box::new(Type::I8))],
        ret_type: Type::I32,
        body: Seq::empty(),
    }
}

/// The unit after the declarations from place `k` on: a constant is stored
/// with its expression, a procedure with its signature and an empty body.
/// Nothing else may stand at the top level. A procedure must have as many
/// parameter types as parameters, and its signature may hold no type
/// variable that was never taken.
pub open spec fn declare_from(unit: Unit, nodes: Seq<Span<Ast>>, k: int) -> Result<
    Unit,
    Failure,
>
    decreases nodes.len() - k,
{
    if k < 0 || k >= nodes.len() {
        Ok(unit)
    } else {
        match nodes[k].contents {
            Ast::ConstStatement { name, typ, value } => declare_from(
                Unit { consts: unit.consts.push((name, *value)), ..unit },
                nodes,
                k + 1,
            ),
            Ast::ProcStatement { name, args, arg_types, ret_type, body } => if args.len()
                != arg_types.len() {
                Err((syntax_record(unpaired(), nodes[k].pos, nodes[k].len), unit))
            } else if !signature_taken(unit, arg_types, ret_type) {
                Err((syntax_record(untaken(), nodes[k].pos, nodes[k].len), unit))
            } else {
                declare_from(
                    Unit {
                        procs: unit.procs.push(
                            Proc { name, args, arg_types, ret_type, body: Seq::empty() },
                        ),
                        ..unit
                    },
                    nodes,
                    k + 1,
                )
            },
            _ => Err((syntax_record(not_top_level(), nodes[k].pos, nodes[k].len), unit)),
        }
    }
}

/// The body of a procedure: the code of its statements and, where a
/// procedure without a return type has statements that do not end in
/// `Return`, a return of the undefined value.
pub open spec fn finished(code: Code, ret_type: Type, count: nat, pos: usize, len: usize) -> Code {
    if ret_type == Type::Undefined && count > 0 && !ends_in_return(code) {
        code + seq![
            at(Op::Push("undefined"@), Type::Undefined, pos, len),
            at(Op::Return, Type::Undefined, pos, len),
        ]
    } else {
        code
    }
}

/// A procedure: a new innermost scope binds the parameters, then the
/// statements of the body are lowered. The body must be a block, there
/// must be as many parameter types as parameters, and the signature may
/// hold no type variable that was never taken.
pub open spec fn lower_proc(unit: Unit, node: Span<Ast>, depth: nat) -> Result<
    (Proc, Unit),
    Failure,
> {
    match node.contents {
        Ast::ProcStatement { name, args, arg_types, ret_type, body } => match body.contents {
            Ast::Block { nodes } => if args.len() != arg_types.len() {
                Err((syntax_record(unpaired(), node.pos, node.len), unit))
            } else if !signature_taken(unit, arg_types, ret_type) {
                Err((syntax_record(untaken(), node.pos, node.len), unit))
            } else {
                lower_body(unit, node, depth)
            },
            _ => Err((syntax_record(unsupported(), node.pos, node.len), unit)),
        },
        _ => Err((syntax_record(unsupported(), node.pos, node.len), unit)),
    }
}

/// A procedure whose body is a block, lowered.
pub open spec fn lower_body(unit: Unit, node: Span<Ast>, depth: nat) -> Result<
    (Proc, Unit),
    Failure,
> {
    match node.contents {
        Ast::ProcStatement { name, args, arg_types, ret_type, body } => match body.contents {
            Ast::Block { nodes } => match lower_all(
                Unit { scopes: unit.scopes.push(bind_all(args, arg_types)), ..unit },
                nodes,
                0,
                depth,
            ) {
                Ok((code, u1)) => Ok(
                    (
                        Proc {
                            name,
                            args,
                            arg_types,
                            ret_type,
                            body: finished(code, ret_type, nodes.len(), node.pos, node.len),
                        },
                        u1,
                    ),
                ),
                Err(e) => Err(e),
            },
            _ => Err((syntax_record(unsupported(), node.pos, node.len), unit)),
        },
        _ => Err((syntax_record(unsupported(), node.pos, node.len), unit)),
    }
}

/// The procedures with `p` in place of the first one of its name.
pub open spec fn replace_first(procs: Seq<Proc>, p: Proc) -> Seq<Proc> {
    match find_proc(procs, p.name) {
        Some(i) => procs.update(i, p),
        None => procs,
    }
}

/// The unit after the procedures among the nodes from place `k` on are
/// lowered, each taking the place of the first procedure of its name.
pub open spec fn define_from(unit: Unit, nodes: Seq<Span<Ast>>, k: int, depth: nat) -> Result<
    Unit,
    Failure,
>
    decreases nodes.len() - k,
{
    if k < 0 || k >= nodes.len() {
        Ok(unit)
    } else {
        match nodes[k].contents {
            Ast::ProcStatement { .. } => match lower_proc(unit, nodes[k], depth) {
                Ok((p, u1)) => define_from(
                    Unit { procs: replace_first(u1.procs, p), ..u1 },
                    nodes,
                    k + 1,
                    depth,
                ),
                Err(e) => Err(e),
            },
            _ => define_from(unit, nodes, k + 1, depth),
        }
    }
}

/// The unit after a module is lowered: `puts` is declared, then every
/// constant and procedure of the module, then the procedures are lowered.
/// Constants are inlined as deep as there are constants.
pub open spec fn build(unit: Unit, nodes: Seq<Span<Ast>>) -> Result<Unit, Failure> {
    match declare_from(Unit { procs: unit.procs.push(puts()), ..unit }, nodes, 0) {
        Ok(u1) => define_from(u1, nodes, 0, u1.consts.len()),
        Err(e) => Err(e),
    }
}

} // verus!
