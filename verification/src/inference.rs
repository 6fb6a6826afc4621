//! Type inference as mathematics: the constraints that a procedure's body
//! gives rise to, and what solving them makes of the body.

use vstd::prelude::*;
use crate::errors::{name_record, syntax_record, ErrorRecord, Span};
use crate::ir::{typed, types_below, Code, Instr, Op, Proc, Unit};
use crate::scopes::{
    bind_all, bindings_below, declare, lemma_declare_below, lemma_lookup_below, lookup,
    scopes_below, Bindings,
};
use crate::types::{below, lemma_below_later, Type};

verus! {

/// Two types that must be equal. Solving rewrites the first to the second.
pub type Constraint = (Type, Type);

/// What is reported for a name that no scope binds.
pub open spec fn no_variable(name: Seq<char>) -> Seq<char> {
    "Can't find a variable named "@ + name + " in the current scope"@
}

/// What is reported for a name that no procedure has.
pub open spec fn no_procedure(name: Seq<char>) -> Seq<char> {
    "Can't find a procedure named "@ + name + " in the current module"@
}

/// What is reported for an instruction that finds too few values.
pub open spec fn stack_empty() -> Seq<char> {
    "An instruction needs more values than the stack holds"@
}

/// What is reported when the counter of type variables is used up.
pub open spec fn out_of_variables() -> Seq<char> {
    "The module needs more type variables than there are"@
}

/// The error for a name that no scope binds.
pub open spec fn unbound_variable(name: Seq<char>) -> ErrorRecord {
    name_record(no_variable(name), 0, 0)
}

/// The error for a name that no procedure has.
pub open spec fn unbound_procedure(name: Seq<char>) -> ErrorRecord {
    name_record(no_procedure(name), 0, 0)
}

/// The place of the first procedure called `name`.
pub open spec fn find_proc(procs: Seq<Proc>, name: Seq<char>) -> Option<int>
    decreases procs.len(),
{
    if procs.len() == 0 {
        None
    } else {
        match find_proc(procs.drop_last(), name) {
            Some(i) => Some(i),
            None => if procs.last().name == name {
                Some(procs.len() - 1)
            } else {
                None
            },
        }
    }
}

/// What `find_proc` finds: the first place with that name, if there is one.
pub proof fn lemma_find_proc(procs: Seq<Proc>, name: Seq<char>)
    ensures
        match find_proc(procs, name) {
            Some(i) => 0 <= i < procs.len() && procs[i].name == name && forall|j: int|
                0 <= j < i ==> procs[j].name != name,
            None => forall|j: int| 0 <= j < procs.len() ==> procs[j].name != name,
        },
    decreases procs.len(),
{
    if procs.len() > 0 {
        lemma_find_proc(procs.drop_last(), name);
        assert(forall|j: int| 0 <= j < procs.len() - 1 ==> procs.drop_last()[j] == procs[j]);
    }
}

/// True if exactly one of two types is the elided type.
pub open spec fn one_elided(t1: Type, t2: Type) -> bool {
    (t1 == Type::Unknown) != (t2 == Type::Unknown)
}

/// `t`, or the type variable `fresh` in its place if it is the elided type.
pub open spec fn filled(t: Type, fresh: u64) -> Type {
    if t == Type::Unknown {
        Type::Variable(fresh)
    } else {
        t
    }
}

/// True of a pair that says nothing: equal types, and pairs with a string
/// literal or the undefined type, which go with every type.
pub open spec fn idle(t1: Type, t2: Type) -> bool {
    t1 == t2 || t1 == Type::StrLiteral || t2 == Type::StrLiteral || t1 == Type::Undefined || t2
        == Type::Undefined
}

/// A constraint list after `t1` is made equal to `t2`, and the next free type
/// variable. First, if exactly one of the two is the elided type, a fresh
/// variable takes its place. Then equal types, and pairs with a string
/// literal or the undefined type, add nothing. Of what is left a variable,
/// or else a literal tag, goes to the left. The result is `None` when a
/// fresh variable is needed and none is left.
pub open spec fn constrain(cs: Seq<Constraint>, next_var: u64, t1: Type, t2: Type) -> Option<
    (Seq<Constraint>, u64),
> {
    if one_elided(t1, t2) {
        if next_var == u64::MAX {
            None
        } else {
            let a = filled(t1, next_var);
            let b = filled(t2, next_var);
            if idle(a, b) {
                Some((cs, (next_var + 1) as u64))
            } else {
                Some((cs.push(oriented(a, b)), (next_var + 1) as u64))
            }
        }
    } else if idle(t1, t2) {
        Some((cs, next_var))
    } else {
        Some((cs.push(oriented(t1, t2)), next_var))
    }
}

/// A pair in the order in which it is stored: if the second is a variable,
/// or else a literal tag, it goes first.
pub open spec fn oriented(t1: Type, t2: Type) -> Constraint {
    if t2 is Variable || t2.is_literal_tag() {
        (t2, t1)
    } else {
        (t1, t2)
    }
}

/// The state of the symbolic run over a body: the types on the stack, the
/// constraints so far, the scopes and the next free type variable.
pub struct Run {
    pub stack: Seq<Type>,
    pub constraints: Seq<Constraint>,
    pub scopes: Seq<Bindings>,
    pub next_var: u64,
}

/// A failure of the run: the error to report, and the run as it is when it
/// stops.
pub type Halt = (ErrorRecord, Run);

/// The run with `t1` made equal to `t2`.
pub open spec fn with_constraint(run: Run, t1: Type, t2: Type, ins: Span<Instr>) -> Result<
    Run,
    Halt,
> {
    match constrain(run.constraints, run.next_var, t1, t2) {
        Some((cs, next_var)) => Ok(Run { constraints: cs, next_var, ..run }),
        None => Err((syntax_record(out_of_variables(), ins.pos, ins.len), run)),
    }
}

/// The run with each of `lefts` made equal to the type at the same place in
/// `rights`, from place `i` on.
pub open spec fn with_constraints(
    run: Run,
    lefts: Seq<Type>,
    rights: Seq<Type>,
    i: int,
    ins: Span<Instr>,
) -> Result<Run, Halt>
    decreases lefts.len() - i,
{
    if i < 0 || i >= lefts.len() || i >= rights.len() {
        Ok(run)
    } else {
        match with_constraint(run, lefts[i], rights[i], ins) {
            Ok(next) => with_constraints(next, lefts, rights, i + 1, ins),
            Err(e) => Err(e),
        }
    }
}

/// The error for an instruction that finds too few values on the stack.
pub open spec fn underflow(ins: Span<Instr>) -> ErrorRecord {
    syntax_record(stack_empty(), ins.pos, ins.len)
}

/// The run without the top `n` values of its stack.
pub open spec fn popped(run: Run, n: int) -> Run {
    Run { stack: run.stack.take(run.stack.len() - n), ..run }
}

/// The run with `t` pushed on its stack.
pub open spec fn pushed(run: Run, t: Type) -> Run {
    Run { stack: run.stack.push(t), ..run }
}

/// The run after one instruction of a procedure that returns `ret`.
pub open spec fn step(run: Run, procs: Seq<Proc>, ret: Type, ins: Span<Instr>) -> Result<
    Run,
    Halt,
> {
    let typ = ins.contents.typ;
    let n = run.stack.len() as int;
    match ins.contents.ins {
        Op::Push(_) => Ok(pushed(run, typ)),
        Op::Load(v) => match lookup(run.scopes, v) {
            Some(t) => Ok(pushed(run, t)),
            None => Err((unbound_variable(v), run)),
        },
        Op::Store(v) => if n < 1 {
            Err((underflow(ins), run))
        } else {
            match lookup(run.scopes, v) {
                Some(declared) => match with_constraint(
                    popped(run, 1),
                    run.stack[n - 1],
                    typ,
                    ins,
                ) {
                    Ok(next) => with_constraint(next, typ, declared, ins),
                    Err(e) => Err(e),
                },
                None => Err((unbound_variable(v), run)),
            }
        },
        Op::Allocate(v) => if n < 1 {
            Err((underflow(ins), run))
        } else {
            with_constraint(
                Run { scopes: declare(run.scopes, v, typ), ..popped(run, 1) },
                typ,
                run.stack[n - 1],
                ins,
            )
        },
        Op::Branch(_, _) => if n < 1 {
            Err((underflow(ins), run))
        } else {
            with_constraint(popped(run, 1), run.stack[n - 1], Type::Bool, ins)
        },
        Op::Jump(_) => Ok(run),
        Op::Label(_) => Ok(run),
        Op::Call(p) => match find_proc(procs, p) {
            Some(k) => {
                let count = procs[k].arg_types.len() as int;
                if n < count {
                    Err((underflow(ins), run))
                } else {
                    with_constraints(
                        pushed(popped(run, count), procs[k].ret_type),
                        run.stack.skip(n - count),
                        procs[k].arg_types,
                        0,
                        ins,
                    )
                }
            },
            None => Err((unbound_procedure(p), run)),
        },
        Op::Return => if n < 1 {
            Err((underflow(ins), run))
        } else {
            with_constraint(popped(run, 1), run.stack[n - 1], ret, ins)
        },
        Op::Negate(_) => if n < 1 {
            Err((underflow(ins), run))
        } else {
            with_constraint(pushed(popped(run, 1), typ), run.stack[n - 1], typ, ins)
        },
        Op::Add(_) | Op::Subtract(_) | Op::Multiply(_) | Op::IntDivide | Op::Divide => if n < 2 {
            Err((underflow(ins), run))
        } else {
            let a = run.stack[n - 2];
            let b = run.stack[n - 1];
            match with_constraint(pushed(popped(run, 2), typ), a, b, ins) {
                Ok(r1) => match with_constraint(r1, a, typ, ins) {
                    Ok(r2) => with_constraint(r2, b, typ, ins),
                    Err(e) => Err(e),
                },
                Err(e) => Err(e),
            }
        },
        Op::Compare(_) => if n < 2 {
            Err((underflow(ins), run))
        } else {
            let a = run.stack[n - 2];
            let b = run.stack[n - 1];
            match with_constraint(pushed(popped(run, 2), Type::Bool), a, b, ins) {
                Ok(r1) => with_constraint(r1, typ, Type::Bool, ins),
                Err(e) => Err(e),
            }
        },
    }
}

/// The run after the instructions of `body` from place `k` on.
pub open spec fn run_from(run: Run, procs: Seq<Proc>, ret: Type, body: Code, k: int) -> Result<
    Run,
    Halt,
>
    decreases body.len() - k,
{
    if k < 0 || k >= body.len() {
        Ok(run)
    } else {
        match step(run, procs, ret, body[k]) {
            Ok(next) => run_from(next, procs, ret, body, k + 1),
            Err(e) => Err(e),
        }
    }
}

/// `t` with `t1` rewritten to `t2`: only a type that is `t1` itself changes.
pub open spec fn rewrite(t: Type, t1: Type, t2: Type) -> Type {
    if t == t1 {
        t2
    } else {
        t
    }
}

/// A body with every instruction type that is `t1` rewritten to `t2`.
pub open spec fn rewrite_body(body: Code, t1: Type, t2: Type) -> Code {
    Seq::new(
        body.len(),
        |i: int|
            Span {
                contents: Instr {
                    ins: body[i].contents.ins,
                    typ: rewrite(body[i].contents.typ, t1, t2),
                },
                pos: body[i].pos,
                len: body[i].len,
            },
    )
}

/// Constraints with every side that is `t1` rewritten to `t2`.
pub open spec fn rewrite_constraints(cs: Seq<Constraint>, t1: Type, t2: Type) -> Seq<Constraint> {
    Seq::new(cs.len(), |i: int| (rewrite(cs[i].0, t1, t2), rewrite(cs[i].1, t1, t2)))
}

/// One sweep over the constraints in order: each rewrites the body and the
/// constraints after it.
pub open spec fn sweep(body: Code, cs: Seq<Constraint>) -> (Code, Seq<Constraint>)
    decreases cs.len(),
{
    if cs.len() == 0 {
        (body, cs)
    } else {
        let c = cs[0];
        let (b, rest) = sweep(
            rewrite_body(body, c.0, c.1),
            rewrite_constraints(cs.drop_first(), c.0, c.1),
        );
        (b, seq![c] + rest)
    }
}

/// The literal tags give way to their defaults: integers to `i64`, floats to
/// `f64`.
pub open spec fn concretise(body: Code) -> Code {
    rewrite_body(
        rewrite_body(body, Type::IntLiteral, Type::I64),
        Type::FloatLiteral,
        Type::F64,
    )
}

/// The body after three sweeps over the constraints and the defaults for the
/// literal tags that are left.
pub open spec fn solve(body: Code, cs: Seq<Constraint>) -> Code {
    let (b1, c1) = sweep(body, cs);
    let (b2, c2) = sweep(b1, c1);
    let (b3, c3) = sweep(b2, c2);
    concretise(b3)
}

/// No side of a constraint is the elided type.
pub open spec fn constraints_known(cs: Seq<Constraint>) -> bool {
    forall|i: int| 0 <= i < cs.len() ==> (#[trigger] cs[i]).0 != Type::Unknown && cs[i].1 != Type::Unknown
}

/// The run at the start of a procedure: an empty stack, no constraints, and
/// a new innermost scope that binds the parameters.
pub open spec fn start_run(scopes: Seq<Bindings>, next_var: u64, p: Proc) -> Run {
    Run {
        stack: Seq::empty(),
        constraints: Seq::empty(),
        scopes: scopes.push(bind_all(p.args, p.arg_types)),
        next_var,
    }
}

/// The run at the end of procedure `k`.
pub open spec fn constraints_of(procs: Seq<Proc>, k: int, scopes: Seq<Bindings>, next_var: u64) -> Result<
    Run,
    Halt,
> {
    run_from(start_run(scopes, next_var, procs[k]), procs, procs[k].ret_type, procs[k].body, 0)
}

/// A procedure with another body.
pub open spec fn with_body(p: Proc, body: Code) -> Proc {
    Proc { body, ..p }
}

/// The bodies of the procedures from place `k` on after inference, in
/// order, with the scopes and the next type variable that the last one
/// leaves. Each procedure sees the scopes and the type variables that the
/// ones before it left.
pub open spec fn bodies_from(procs: Seq<Proc>, k: int, scopes: Seq<Bindings>, next_var: u64) -> Result<
    (Seq<Code>, Seq<Bindings>, u64),
    Halt,
>
    decreases procs.len() - k,
{
    if k < 0 || k >= procs.len() {
        Ok((Seq::empty(), scopes, next_var))
    } else {
        match constraints_of(procs, k, scopes, next_var) {
            Ok(run) => match bodies_from(procs, k + 1, run.scopes, run.next_var) {
                Ok((rest, s, n)) => Ok((seq![solve(procs[k].body, run.constraints)] + rest, s, n)),
                Err(e) => Err(e),
            },
            Err(e) => Err(e),
        }
    }
}

/// The procedures, each with the body at its place in `bodies`.
pub open spec fn with_bodies(procs: Seq<Proc>, bodies: Seq<Code>) -> Seq<Proc> {
    Seq::new(
        procs.len(),
        |k: int|
            if 0 <= k < bodies.len() {
                with_body(procs[k], bodies[k])
            } else {
                procs[k]
            },
    )
}

/// The unit after inference on all its procedures, starting without scopes.
/// Inference succeeds for all procedures or changes none: a failure leaves
/// the procedures, the constants and the label counter as they were, and
/// the scopes and the counter of type variables as the run left them.
pub open spec fn infer(unit: Unit) -> Result<Unit, (ErrorRecord, Unit)> {
    match bodies_from(unit.procs, 0, Seq::empty(), unit.next_var) {
        Ok((bodies, scopes, next_var)) => Ok(
            Unit { procs: with_bodies(unit.procs, bodies), scopes, next_var, ..unit },
        ),
        Err((e, run)) => Err((e, Unit { scopes: run.scopes, next_var: run.next_var, ..unit })),
    }
}

/// A constraint that is added holds no elided type.
pub proof fn lemma_constrain_known(cs: Seq<Constraint>, next_var: u64, t1: Type, t2: Type)
    requires
        constraints_known(cs),
    ensures
        match constrain(cs, next_var, t1, t2) {
            Some((after, _)) => constraints_known(after),
            None => true,
        },
{
}

/// What `constrain` stores: nothing or one pair at the end. The sides of a
/// stored pair differ, neither is the elided type, a string literal or the
/// undefined type, and they are the two types given, with a fresh variable
/// in place of an elided one. The second given goes to the left exactly if
/// it is a variable or a literal tag; so a variable or a literal tag on the
/// right has one on the left.
pub proof fn lemma_stored_constraint(cs: Seq<Constraint>, next_var: u64, t1: Type, t2: Type)
    ensures
        match constrain(cs, next_var, t1, t2) {
            Some((after, next)) => {
                let a = if one_elided(t1, t2) {
                    filled(t1, next_var)
                } else {
                    t1
                };
                let b = if one_elided(t1, t2) {
                    filled(t2, next_var)
                } else {
                    t2
                };
                &&& next == if one_elided(t1, t2) {
                    next_var + 1
                } else {
                    next_var as int
                }
                &&& after == cs || after == cs.push(after.last())
                &&& after == cs <==> idle(a, b)
                &&& after != cs ==> {
                    let (l, r) = after.last();
                    &&& l != r
                    &&& l != Type::Unknown && l != Type::StrLiteral && l != Type::Undefined
                    &&& r != Type::Unknown && r != Type::StrLiteral && r != Type::Undefined
                    &&& (l, r) == (a, b) || (l, r) == (b, a)
                    &&& (l, r) == (a, b) <==> !(b is Variable || b.is_literal_tag())
                    &&& (r is Variable || r.is_literal_tag()) ==> (l is Variable
                        || l.is_literal_tag())
                }
            },
            None => one_elided(t1, t2) && next_var == u64::MAX,
        },
{
    match constrain(cs, next_var, t1, t2) {
        Some((after, next)) => {
            if after == cs {
                if one_elided(t1, t2) {
                    assert(idle(filled(t1, next_var), filled(t2, next_var))) by {
                        if !idle(filled(t1, next_var), filled(t2, next_var)) {
                            assert(after.len() == cs.len() + 1);
                        }
                    }
                } else if !idle(t1, t2) {
                    assert(after.len() == cs.len() + 1);
                }
            } else {
                assert(after.len() == cs.len() + 1);
            }
        },
        None => {},
    }
}

/// Constraints added in a row hold no elided type.
pub proof fn lemma_with_constraints_known(
    run: Run,
    lefts: Seq<Type>,
    rights: Seq<Type>,
    i: int,
    ins: Span<Instr>,
)
    requires
        constraints_known(run.constraints),
    ensures
        match with_constraints(run, lefts, rights, i, ins) {
            Ok(after) => constraints_known(after.constraints),
            Err(_) => true,
        },
    decreases lefts.len() - i,
{
    if !(i < 0 || i >= lefts.len() || i >= rights.len()) {
        lemma_constrain_known(run.constraints, run.next_var, lefts[i], rights[i]);
        match with_constraint(run, lefts[i], rights[i], ins) {
            Ok(next) => lemma_with_constraints_known(next, lefts, rights, i + 1, ins),
            Err(_) => {},
        }
    }
}

/// A step of the run adds no constraint with an elided type.
pub proof fn lemma_step_known(run: Run, procs: Seq<Proc>, ret: Type, ins: Span<Instr>)
    requires
        constraints_known(run.constraints),
    ensures
        match step(run, procs, ret, ins) {
            Ok(after) => constraints_known(after.constraints),
            Err(_) => true,
        },
{
    let n = run.stack.len() as int;
    match ins.contents.ins {
        Op::Call(p) => {
            match find_proc(procs, p) {
                Some(k) => {
                    let count = procs[k].arg_types.len() as int;
                    if n >= count {
                        lemma_with_constraints_known(
                            pushed(popped(run, count), procs[k].ret_type),
                            run.stack.skip(n - count),
                            procs[k].arg_types,
                            0,
                            ins,
                        );
                    }
                },
                None => {},
            }
        },
        _ => {},
    }
}

/// The run over a body adds no constraint with an elided type.
pub proof fn lemma_run_known(run: Run, procs: Seq<Proc>, ret: Type, body: Code, k: int)
    requires
        constraints_known(run.constraints),
    ensures
        match run_from(run, procs, ret, body, k) {
            Ok(after) => constraints_known(after.constraints),
            Err(_) => true,
        },
    decreases body.len() - k,
{
    if !(k < 0 || k >= body.len()) {
        lemma_step_known(run, procs, ret, body[k]);
        match step(run, procs, ret, body[k]) {
            Ok(next) => lemma_run_known(next, procs, ret, body, k + 1),
            Err(_) => {},
        }
    }
}

/// A sweep keeps the elided type out of the body and out of the constraints.
pub proof fn lemma_sweep_typed(body: Code, cs: Seq<Constraint>)
    requires
        typed(body),
        constraints_known(cs),
    ensures
        typed(sweep(body, cs).0),
        constraints_known(sweep(body, cs).1),
        sweep(body, cs).0.len() == body.len(),
    decreases cs.len(),
{
    if cs.len() > 0 {
        let c = cs[0];
        let tail = rewrite_constraints(cs.drop_first(), c.0, c.1);
        assert forall|i: int| 0 <= i < tail.len() implies (#[trigger] tail[i]).0 != Type::Unknown
            && tail[i].1 != Type::Unknown by {
            assert(cs.drop_first()[i] == cs[i + 1]);
        }
        lemma_sweep_typed(rewrite_body(body, c.0, c.1), tail);
    }
}

/// Solving keeps the elided type out of the body.
pub proof fn lemma_solve_typed(body: Code, cs: Seq<Constraint>)
    requires
        typed(body),
        constraints_known(cs),
    ensures
        typed(solve(body, cs)),
        solve(body, cs).len() == body.len(),
{
    let (b1, c1) = sweep(body, cs);
    lemma_sweep_typed(body, cs);
    let (b2, c2) = sweep(b1, c1);
    lemma_sweep_typed(b1, c1);
    lemma_sweep_typed(b2, c2);
}

/// A sweep changes nothing of the body but instruction types.
pub proof fn lemma_sweep_shape(body: Code, cs: Seq<Constraint>)
    ensures
        sweep(body, cs).0.len() == body.len(),
        forall|i: int|
            0 <= i < body.len() ==> (#[trigger] sweep(body, cs).0[i]).contents.ins
                == body[i].contents.ins && sweep(body, cs).0[i].pos == body[i].pos && sweep(
                body,
                cs,
            ).0[i].len == body[i].len,
    decreases cs.len(),
{
    if cs.len() > 0 {
        let c = cs[0];
        lemma_sweep_shape(
            rewrite_body(body, c.0, c.1),
            rewrite_constraints(cs.drop_first(), c.0, c.1),
        );
    }
}

/// Solving changes nothing of the body but instruction types.
pub proof fn lemma_solve_shape(body: Code, cs: Seq<Constraint>)
    ensures
        solve(body, cs).len() == body.len(),
        forall|i: int|
            0 <= i < body.len() ==> (#[trigger] solve(body, cs)[i]).contents.ins
                == body[i].contents.ins && solve(body, cs)[i].pos == body[i].pos && solve(
                body,
                cs,
            )[i].len == body[i].len,
{
    let (b1, c1) = sweep(body, cs);
    lemma_sweep_shape(body, cs);
    let (b2, c2) = sweep(b1, c1);
    lemma_sweep_shape(b1, c1);
    lemma_sweep_shape(b2, c2);
}

/// Code that differs from closed and resolved code in instruction types
/// only is closed and resolved.
pub proof fn lemma_shape_kept(before: Code, after: Code, procs: Seq<Proc>)
    requires
        after.len() == before.len(),
        forall|i: int|
            0 <= i < before.len() ==> (#[trigger] after[i]).contents.ins == before[i].contents.ins,
    ensures
        crate::ir::closed(before) ==> crate::ir::closed(after),
        crate::ir::resolved(before, procs) ==> crate::ir::resolved(after, procs),
{
    if crate::ir::closed(before) {
        assert forall|i: int| 0 <= i < after.len() implies match (#[trigger] after[i]).contents.ins {
            Op::Jump(l) => crate::ir::has_label(after, l),
            Op::Branch(a, b) => crate::ir::has_label(after, a) && crate::ir::has_label(after, b),
            _ => true,
        } by {
            assert(before[i].contents.ins == after[i].contents.ins);
            match after[i].contents.ins {
                Op::Jump(l) => {
                    lemma_label_kept_by_shape(before, after, l);
                },
                Op::Branch(a, b) => {
                    lemma_label_kept_by_shape(before, after, a);
                    lemma_label_kept_by_shape(before, after, b);
                },
                _ => {},
            }
        }
    }
    if crate::ir::resolved(before, procs) {
        assert forall|i: int| 0 <= i < after.len() implies match (#[trigger] after[i]).contents.ins {
            Op::Call(name) => find_proc(procs, name) is Some,
            _ => true,
        } by {
            assert(before[i].contents.ins == after[i].contents.ins);
        }
    }
}

/// A label of code is a label of code that differs in instruction types
/// only.
pub proof fn lemma_label_kept_by_shape(before: Code, after: Code, l: u64)
    requires
        after.len() == before.len(),
        forall|i: int|
            0 <= i < before.len() ==> (#[trigger] after[i]).contents.ins == before[i].contents.ins,
        crate::ir::has_label(before, l),
    ensures
        crate::ir::has_label(after, l),
{
    let j = choose|j: int|
        0 <= j < before.len() && (#[trigger] before[j]).contents.ins == Op::Label(l);
    assert(after[j].contents.ins == Op::Label(l));
}

/// What inference makes of a body: the same instructions at the same
/// places, with types of which none is elided.
pub open spec fn retyped(before: Code, after: Code) -> bool {
    &&& after.len() == before.len()
    &&& typed(after)
    &&& forall|i: int|
        0 <= i < before.len() ==> (#[trigger] after[i]).contents.ins == before[i].contents.ins
            && after[i].pos == before[i].pos && after[i].len == before[i].len
}

/// Inference gives one body for each procedure, and changes nothing of a
/// body but instruction types.
pub proof fn lemma_bodies_retyped(procs: Seq<Proc>, k: int, scopes: Seq<Bindings>, next_var: u64)
    requires
        crate::ir::all_typed(procs),
        0 <= k <= procs.len(),
    ensures
        match bodies_from(procs, k, scopes, next_var) {
            Ok((bodies, _, _)) => bodies.len() == procs.len() - k && forall|j: int|
                0 <= j < bodies.len() ==> retyped(procs[k + j].body, #[trigger] bodies[j]),
            Err(_) => true,
        },
    decreases procs.len() - k,
{
    if k < procs.len() {
        match constraints_of(procs, k, scopes, next_var) {
            Ok(run) => {
                let p = procs[k];
                lemma_run_known(start_run(scopes, next_var, p), procs, p.ret_type, p.body, 0);
                lemma_solve_typed(p.body, run.constraints);
                lemma_solve_shape(p.body, run.constraints);
                lemma_bodies_retyped(procs, k + 1, run.scopes, run.next_var);
                match bodies_from(procs, k + 1, run.scopes, run.next_var) {
                    Ok((rest, _, _)) => {
                        let bodies = seq![solve(p.body, run.constraints)] + rest;
                        assert forall|j: int| 0 <= j < bodies.len() implies retyped(
                            procs[k + j].body,
                            #[trigger] bodies[j],
                        ) by {
                            if j > 0 {
                                assert(bodies[j] == rest[j - 1]);
                            }
                        }
                    },
                    Err(_) => {},
                }
            },
            Err(_) => {},
        }
    }
}

/// Procedures with retyped bodies are as well formed as they were.
pub proof fn lemma_retyped_well_formed(procs: Seq<Proc>, bodies: Seq<Code>)
    requires
        crate::ir::well_formed(procs),
        bodies.len() == procs.len(),
        forall|j: int| 0 <= j < bodies.len() ==> retyped(procs[j].body, #[trigger] bodies[j]),
    ensures
        crate::ir::well_formed(with_bodies(procs, bodies)),
{
    let after = with_bodies(procs, bodies);
    assert forall|j: int| 0 <= j < after.len() implies typed((#[trigger] after[j]).body)
        && crate::ir::closed(after[j].body) && crate::ir::resolved(after[j].body, after)
        && after[j].args.len() == after[j].arg_types.len() by {
        let b = after[j].body;
        assert(retyped(procs[j].body, bodies[j]));
        lemma_shape_kept(procs[j].body, b, procs);
        assert forall|i: int| 0 <= i < b.len() implies match (#[trigger] b[i]).contents.ins {
            Op::Call(name) => find_proc(after, name) is Some,
            _ => true,
        } by {
            match b[i].contents.ins {
                Op::Call(name) => {
                    lemma_find_proc(procs, name);
                    lemma_find_proc(after, name);
                    let w = find_proc(procs, name)->Some_0;
                    assert(after[w].name == name);
                },
                _ => {},
            }
        }
    }
}

/// Inference keeps the procedures well formed, whether it succeeds or
/// fails.
pub proof fn lemma_infer_well_formed(unit: Unit)
    requires
        crate::ir::well_formed(unit.procs),
    ensures
        match infer(unit) {
            Ok(after) => crate::ir::well_formed(after.procs),
            Err((_, after)) => after.procs == unit.procs,
        },
{
    lemma_bodies_retyped(unit.procs, 0, Seq::empty(), unit.next_var);
    match bodies_from(unit.procs, 0, Seq::empty(), unit.next_var) {
        Ok((bodies, _, _)) => {
            lemma_retyped_well_formed(unit.procs, bodies);
        },
        Err(_) => {},
    }
}

/// A sweep gives equal types to instructions that had equal types.
pub proof fn lemma_sweep_uniform(body: Code, cs: Seq<Constraint>, i: int, j: int)
    requires
        0 <= i < body.len(),
        0 <= j < body.len(),
        body[i].contents.typ == body[j].contents.typ,
    ensures
        sweep(body, cs).0.len() == body.len(),
        sweep(body, cs).0[i].contents.typ == sweep(body, cs).0[j].contents.typ,
    decreases cs.len(),
{
    if cs.len() > 0 {
        let c = cs[0];
        lemma_sweep_uniform(
            rewrite_body(body, c.0, c.1),
            rewrite_constraints(cs.drop_first(), c.0, c.1),
            i,
            j,
        );
    }
}

/// Solving gives equal types to instructions that had equal types.
pub proof fn lemma_solve_uniform(body: Code, cs: Seq<Constraint>, i: int, j: int)
    requires
        0 <= i < body.len(),
        0 <= j < body.len(),
        body[i].contents.typ == body[j].contents.typ,
    ensures
        solve(body, cs).len() == body.len(),
        solve(body, cs)[i].contents.typ == solve(body, cs)[j].contents.typ,
{
    let (b1, c1) = sweep(body, cs);
    lemma_sweep_uniform(body, cs, i, j);
    let (b2, c2) = sweep(b1, c1);
    lemma_sweep_uniform(b1, c1, i, j);
    lemma_sweep_uniform(b2, c2, i, j);
}

/// Every type variable in the constraints has a number less than `n`.
pub open spec fn constraints_below(cs: Seq<Constraint>, n: u64) -> bool {
    forall|i: int| 0 <= i < cs.len() ==> below((#[trigger] cs[i]).0, n) && below(cs[i].1, n)
}

/// Every type variable in the run was taken from its counter.
pub open spec fn run_below(run: Run) -> bool {
    &&& types_below(run.stack, run.next_var)
    &&& constraints_below(run.constraints, run.next_var)
    &&& scopes_below(run.scopes, run.next_var)
}

/// What is below a counter is below every later one.
pub proof fn lemma_run_below_later(run: Run, m: u64)
    requires
        run_below(run),
        run.next_var <= m,
    ensures
        run_below(Run { next_var: m, ..run }),
{
    let n = run.next_var;
    assert forall|i: int| 0 <= i < run.stack.len() implies below(#[trigger] run.stack[i], m) by {
        lemma_below_later(run.stack[i], n, m);
    }
    assert forall|i: int| 0 <= i < run.constraints.len() implies below(
        (#[trigger] run.constraints[i]).0,
        m,
    ) && below(run.constraints[i].1, m) by {
        lemma_below_later(run.constraints[i].0, n, m);
        lemma_below_later(run.constraints[i].1, n, m);
    }
    assert forall|i: int| 0 <= i < run.scopes.len() implies bindings_below(
        #[trigger] run.scopes[i],
        m,
    ) by {
        let scope = run.scopes[i];
        assert(bindings_below(scope, n));
        assert forall|j: int| 0 <= j < scope.len() implies below((#[trigger] scope[j]).1, m) by {
            lemma_below_later(scope[j].1, n, m);
        }
    }
}

/// Making two types equal keeps the run below its counter, which does not
/// go back. A failure leaves the run as it was.
pub proof fn lemma_with_constraint_below(run: Run, t1: Type, t2: Type, ins: Span<Instr>, m: u64)
    requires
        run_below(run),
        m <= run.next_var,
        below(t1, m),
        below(t2, m),
    ensures
        match with_constraint(run, t1, t2, ins) {
            Ok(after) => run_below(after) && run.next_var <= after.next_var && after.stack
                == run.stack && after.scopes == run.scopes,
            Err((_, at)) => at == run,
        },
{
    let n = run.next_var;
    lemma_below_later(t1, m, n);
    lemma_below_later(t2, m, n);
    match with_constraint(run, t1, t2, ins) {
        Ok(after) => {
            let k = after.next_var;
            lemma_run_below_later(run, k);
            lemma_below_later(t1, n, k);
            lemma_below_later(t2, n, k);
            assert forall|i: int| 0 <= i < after.constraints.len() implies below(
                (#[trigger] after.constraints[i]).0,
                k,
            ) && below(after.constraints[i].1, k) by {
                if i < run.constraints.len() {
                    assert(after.constraints[i] == run.constraints[i]);
                }
            }
        },
        Err(_) => {},
    }
}

/// Making types equal in a row keeps the run below its counter.
pub proof fn lemma_with_constraints_below(
    run: Run,
    lefts: Seq<Type>,
    rights: Seq<Type>,
    i: int,
    ins: Span<Instr>,
    m: u64,
)
    requires
        run_below(run),
        m <= run.next_var,
        types_below(lefts, m),
        types_below(rights, m),
    ensures
        match with_constraints(run, lefts, rights, i, ins) {
            Ok(after) => run_below(after) && run.next_var <= after.next_var,
            Err((_, at)) => run_below(at) && run.next_var <= at.next_var,
        },
    decreases lefts.len() - i,
{
    if !(i < 0 || i >= lefts.len() || i >= rights.len()) {
        lemma_with_constraint_below(run, lefts[i], rights[i], ins, m);
        match with_constraint(run, lefts[i], rights[i], ins) {
            Ok(next) => lemma_with_constraints_below(next, lefts, rights, i + 1, ins, m),
            Err(_) => {},
        }
    }
}

/// A step keeps the run below its counter, which does not go back, if the
/// instruction and the signatures are below it.
pub proof fn lemma_step_below(run: Run, procs: Seq<Proc>, ret: Type, ins: Span<Instr>)
    requires
        run_below(run),
        crate::ir::all_bounded(procs, run.next_var),
        below(ret, run.next_var),
        below(ins.contents.typ, run.next_var),
    ensures
        match step(run, procs, ret, ins) {
            Ok(after) => run_below(after) && run.next_var <= after.next_var,
            Err((_, at)) => run_below(at) && run.next_var <= at.next_var,
        },
{
    let typ = ins.contents.typ;
    let n = run.stack.len() as int;
    let m = run.next_var;
    match ins.contents.ins {
        Op::Push(_) => {},
        Op::Load(v) => {
            lemma_lookup_below(run.scopes, v, m);
        },
        Op::Store(v) => {
            if n >= 1 {
                lemma_lookup_below(run.scopes, v, m);
                match lookup(run.scopes, v) {
                    Some(declared) => {
                        lemma_with_constraint_below(popped(run, 1), run.stack[n - 1], typ, ins, m);
                        match with_constraint(popped(run, 1), run.stack[n - 1], typ, ins) {
                            Ok(next) => {
                                lemma_with_constraint_below(next, typ, declared, ins, m);
                            },
                            Err(_) => {},
                        }
                    },
                    None => {},
                }
            }
        },
        Op::Allocate(v) => {
            if n >= 1 {
                lemma_declare_below(run.scopes, v, typ, m);
                lemma_with_constraint_below(
                    Run { scopes: declare(run.scopes, v, typ), ..popped(run, 1) },
                    typ,
                    run.stack[n - 1],
                    ins,
                    m,
                );
            }
        },
        Op::Branch(_, _) => {
            if n >= 1 {
                lemma_with_constraint_below(popped(run, 1), run.stack[n - 1], Type::Bool, ins, m);
            }
        },
        Op::Jump(_) => {},
        Op::Label(_) => {},
        Op::Call(p) => {
            lemma_find_proc(procs, p);
            match find_proc(procs, p) {
                Some(k) => {
                    let count = procs[k].arg_types.len() as int;
                    assert(crate::ir::proc_bounded(procs[k], m));
                    if n >= count {
                        let start = pushed(popped(run, count), procs[k].ret_type);
                        assert(run_below(start));
                        lemma_with_constraints_below(
                            start,
                            run.stack.skip(n - count),
                            procs[k].arg_types,
                            0,
                            ins,
                            m,
                        );
                    }
                },
                None => {},
            }
        },
        Op::Return => {
            if n >= 1 {
                lemma_with_constraint_below(popped(run, 1), run.stack[n - 1], ret, ins, m);
            }
        },
        Op::Negate(_) => {
            if n >= 1 {
                lemma_with_constraint_below(
                    pushed(popped(run, 1), typ),
                    run.stack[n - 1],
                    typ,
                    ins,
                    m,
                );
            }
        },
        Op::Add(_) | Op::Subtract(_) | Op::Multiply(_) | Op::IntDivide | Op::Divide => {
            if n >= 2 {
                let a = run.stack[n - 2];
                let b = run.stack[n - 1];
                lemma_with_constraint_below(pushed(popped(run, 2), typ), a, b, ins, m);
                match with_constraint(pushed(popped(run, 2), typ), a, b, ins) {
                    Ok(r1) => {
                        lemma_with_constraint_below(r1, a, typ, ins, m);
                        match with_constraint(r1, a, typ, ins) {
                            Ok(r2) => {
                                lemma_with_constraint_below(r2, b, typ, ins, m);
                            },
                            Err(_) => {},
                        }
                    },
                    Err(_) => {},
                }
            }
        },
        Op::Compare(_) => {
            if n >= 2 {
                let a = run.stack[n - 2];
                let b = run.stack[n - 1];
                lemma_with_constraint_below(pushed(popped(run, 2), Type::Bool), a, b, ins, m);
                match with_constraint(pushed(popped(run, 2), Type::Bool), a, b, ins) {
                    Ok(r1) => {
                        lemma_with_constraint_below(r1, typ, Type::Bool, ins, m);
                    },
                    Err(_) => {},
                }
            }
        },
    }
}

/// The run over a body stays below its counter, which does not go back.
pub proof fn lemma_run_below(run: Run, procs: Seq<Proc>, ret: Type, body: Code, k: int)
    requires
        run_below(run),
        crate::ir::all_bounded(procs, run.next_var),
        below(ret, run.next_var),
        crate::ir::bounded(body, run.next_var),
    ensures
        match run_from(run, procs, ret, body, k) {
            Ok(after) => run_below(after) && run.next_var <= after.next_var,
            Err((_, at)) => run_below(at) && run.next_var <= at.next_var,
        },
    decreases body.len() - k,
{
    if !(k < 0 || k >= body.len()) {
        lemma_step_below(run, procs, ret, body[k]);
        match step(run, procs, ret, body[k]) {
            Ok(next) => {
                crate::ir::lemma_all_bounded_later(procs, run.next_var, next.next_var);
                lemma_below_later(ret, run.next_var, next.next_var);
                crate::ir::lemma_bounded_later(body, run.next_var, next.next_var);
                lemma_run_below(next, procs, ret, body, k + 1);
            },
            Err(_) => {},
        }
    }
}

/// A sweep keeps the body and the constraints below the counter.
pub proof fn lemma_sweep_bounded(body: Code, cs: Seq<Constraint>, n: u64)
    requires
        crate::ir::bounded(body, n),
        constraints_below(cs, n),
    ensures
        crate::ir::bounded(sweep(body, cs).0, n),
        constraints_below(sweep(body, cs).1, n),
    decreases cs.len(),
{
    if cs.len() > 0 {
        let c = cs[0];
        let tail = rewrite_constraints(cs.drop_first(), c.0, c.1);
        assert forall|i: int| 0 <= i < tail.len() implies below((#[trigger] tail[i]).0, n) && below(
            tail[i].1,
            n,
        ) by {
            assert(cs.drop_first()[i] == cs[i + 1]);
        }
        lemma_sweep_bounded(rewrite_body(body, c.0, c.1), tail, n);
        let (b, rest) = sweep(rewrite_body(body, c.0, c.1), tail);
        let whole = seq![c] + rest;
        assert forall|i: int| 0 <= i < whole.len() implies below((#[trigger] whole[i]).0, n)
            && below(whole[i].1, n) by {
            if i > 0 {
                assert(whole[i] == rest[i - 1]);
            }
        }
    }
}

/// Solving keeps the body below the counter.
pub proof fn lemma_solve_bounded(body: Code, cs: Seq<Constraint>, n: u64)
    requires
        crate::ir::bounded(body, n),
        constraints_below(cs, n),
    ensures
        crate::ir::bounded(solve(body, cs), n),
{
    let (b1, c1) = sweep(body, cs);
    lemma_sweep_bounded(body, cs, n);
    let (b2, c2) = sweep(b1, c1);
    lemma_sweep_bounded(b1, c1, n);
    lemma_sweep_bounded(b2, c2, n);
}

/// The bodies that inference gives are below the counter that it leaves,
/// which has not gone back; so are the scopes.
pub proof fn lemma_bodies_bounded(procs: Seq<Proc>, k: int, scopes: Seq<Bindings>, next_var: u64)
    requires
        crate::ir::all_bounded(procs, next_var),
        scopes_below(scopes, next_var),
        0 <= k <= procs.len(),
    ensures
        match bodies_from(procs, k, scopes, next_var) {
            Ok((bodies, s, n)) => next_var <= n && scopes_below(s, n) && forall|j: int|
                0 <= j < bodies.len() ==> crate::ir::bounded(#[trigger] bodies[j], n),
            Err((_, at)) => next_var <= at.next_var && scopes_below(at.scopes, at.next_var),
        },
    decreases procs.len() - k,
{
    if k < procs.len() {
        let p = procs[k];
        let start = start_run(scopes, next_var, p);
        assert(crate::ir::proc_bounded(p, next_var));
        assert(run_below(start)) by {
            let bound = bind_all(p.args, p.arg_types);
            assert(bindings_below(bound, next_var));
            assert forall|i: int| 0 <= i < start.scopes.len() implies bindings_below(
                #[trigger] start.scopes[i],
                next_var,
            ) by {
                if i < scopes.len() {
                    assert(start.scopes[i] == scopes[i]);
                }
            }
        }
        lemma_run_below(start, procs, p.ret_type, p.body, 0);
        match constraints_of(procs, k, scopes, next_var) {
            Ok(run) => {
                crate::ir::lemma_all_bounded_later(procs, next_var, run.next_var);
                crate::ir::lemma_proc_bounded_later(p, next_var, run.next_var);
                lemma_solve_bounded(p.body, run.constraints, run.next_var);
                lemma_bodies_bounded(procs, k + 1, run.scopes, run.next_var);
                match bodies_from(procs, k + 1, run.scopes, run.next_var) {
                    Ok((rest, s, n)) => {
                        let one = solve(p.body, run.constraints);
                        crate::ir::lemma_bounded_later(one, run.next_var, n);
                        let bodies = seq![one] + rest;
                        assert forall|j: int| 0 <= j < bodies.len() implies crate::ir::bounded(
                            #[trigger] bodies[j],
                            n,
                        ) by {
                            if j > 0 {
                                assert(bodies[j] == rest[j - 1]);
                            }
                        }
                    },
                    Err(_) => {},
                }
            },
            Err(_) => {},
        }
    }
}

/// After inference, and after a failure of it, every type variable in the
/// procedures and in the scopes was taken from the counter of the unit.
pub proof fn lemma_infer_bounded(unit: Unit)
    requires
        crate::ir::all_bounded(unit.procs, unit.next_var),
    ensures
        match infer(unit) {
            Ok(after) => crate::ir::all_bounded(after.procs, after.next_var) && scopes_below(
                after.scopes,
                after.next_var,
            ),
            Err((_, after)) => crate::ir::all_bounded(after.procs, after.next_var)
                && scopes_below(after.scopes, after.next_var),
        },
{
    lemma_bodies_bounded(unit.procs, 0, Seq::empty(), unit.next_var);
    match bodies_from(unit.procs, 0, Seq::empty(), unit.next_var) {
        Ok((bodies, s, n)) => {
            crate::ir::lemma_all_bounded_later(unit.procs, unit.next_var, n);
            let after = with_bodies(unit.procs, bodies);
            assert forall|k: int| 0 <= k < after.len() implies crate::ir::proc_bounded(
                #[trigger] after[k],
                n,
            ) by {
                assert(crate::ir::proc_bounded(unit.procs[k], n));
                if k < bodies.len() {
                    assert(crate::ir::bounded(bodies[k], n));
                }
            }
        },
        Err((_, at)) => {
            crate::ir::lemma_all_bounded_later(unit.procs, unit.next_var, at.next_var);
        },
    }
}

} // verus!
