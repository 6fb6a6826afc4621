//! Type inference on the intermediate representation.

use vstd::prelude::*;
use crate::errors::{syntax_record, Logger, Span};
use crate::inference::{
    bodies_from, constrain, find_proc, infer, lemma_find_proc, lemma_infer_bounded,
    lemma_infer_well_formed, out_of_variables, popped, pushed, rewrite_body,
    rewrite_constraints, run_from, solve, step, sweep, unbound_procedure, unbound_variable,
    underflow, with_bodies, with_body, with_constraints, Constraint, Halt, Run,
};
use crate::ir::{
    all_bounded, all_typed, code_view, procs_view, spanned, Code, IRBuilder, IRProc,
    Instruction, InstructionType, Proc,
};
use crate::scopes::{declare_var, find_var, open_scope, scopes_below, scopes_view, Bindings, Scope};
use crate::types::Type;

verus! {

/// The constraints of a procedure, in the order in which they were found.
pub type Constraints = Vec<(Type, Type)>;

/// Makes `t1in` equal to `t2in`. If exactly one of them is the elided type,
/// a fresh variable takes its place first. Then the constraint is appended,
/// unless it says nothing. Returns false, and changes nothing, when a fresh
/// type variable is needed and none is left.
pub fn add_constraint(
    next_var: &mut u64,
    constraints: &mut Constraints,
    t1in: Type,
    t2in: Type,
) -> (ok: bool)
    ensures
        match constrain(old(constraints)@, *old(next_var), t1in, t2in) {
            Some((cs, next)) => ok && final(constraints)@ == cs && *final(next_var) == next,
            None => !ok && final(constraints)@ == old(constraints)@ && *final(next_var) == *old(
                next_var,
            ),
        },
{
    let first_elided = t1in.same(&Type::Unknown);
    let second_elided = t2in.same(&Type::Unknown);
    let (t1, t2) = if first_elided != second_elided {
        if *next_var == u64::MAX {
            return false;
        }
        let fresh = Type::Variable(*next_var);
        *next_var = *next_var + 1;
        if first_elided {
            (fresh, t2in)
        } else {
            (t1in, fresh)
        }
    } else {
        (t1in, t2in)
    };
    if t1.same(&t2) {
        return true;
    }
    if t1.same(&Type::StrLiteral) || t2.same(&Type::StrLiteral) || t1.same(&Type::Undefined)
        || t2.same(&Type::Undefined) {
        return true;
    }
    let second_first = match t2 {
        Type::Variable(_) => true,
        Type::IntLiteral => true,
        Type::FloatLiteral => true,
        Type::StrLiteral => true,
        _ => false,
    };
    if second_first {
        constraints.push((t2, t1));
    } else {
        constraints.push((t1, t2));
    }
    true
}

/// A body with every instruction type that is `t1` rewritten to `t2`.
pub fn substitute_proc_body(body: Vec<Span<Instruction>>, t1: &Type, t2: &Type) -> (r: Vec<
    Span<Instruction>,
>)
    ensures
        code_view(r@) == rewrite_body(code_view(body@), *t1, *t2),
{
    let mut new_body: Vec<Span<Instruction>> = Vec::new();
    let mut i: usize = 0;
    while i < body.len()
        invariant
            i <= body.len(),
            new_body@.len() == i,
            forall|j: int|
                0 <= j < i ==> (#[trigger] new_body@[j])@ == rewrite_body(
                    code_view(body@),
                    *t1,
                    *t2,
                )[j],
        decreases body.len() - i,
    {
        let ins = &body[i];
        let typ = if ins.contents.typ.same(t1) {
            t2.clone()
        } else {
            ins.contents.typ.clone()
        };
        new_body.push(spanned(Instruction { ins: ins.contents.ins.clone(), typ }, ins.pos, ins.len));
        i += 1;
    }
    assert(code_view(new_body@) =~= rewrite_body(code_view(body@), *t1, *t2));
    new_body
}

/// Constraints with every side that is `t1` rewritten to `t2`.
pub fn substitute_constraints(constraints: &Constraints, t1: &Type, t2: &Type) -> (r: Constraints)
    ensures
        r@ == rewrite_constraints(constraints@, *t1, *t2),
{
    let mut new_constraints: Constraints = Vec::new();
    let mut i: usize = 0;
    while i < constraints.len()
        invariant
            i <= constraints.len(),
            new_constraints@.len() == i,
            forall|j: int|
                0 <= j < i ==> (#[trigger] new_constraints@[j]) == rewrite_constraints(
                    constraints@,
                    *t1,
                    *t2,
                )[j],
        decreases constraints.len() - i,
    {
        let left = &constraints[i].0;
        let right = &constraints[i].1;
        let new_left = if left.same(t1) {
            t2.clone()
        } else {
            left.clone()
        };
        let new_right = if right.same(t1) {
            t2.clone()
        } else {
            right.clone()
        };
        new_constraints.push((new_left, new_right));
        i += 1;
    }
    assert(new_constraints@ =~= rewrite_constraints(constraints@, *t1, *t2));
    new_constraints
}

/// One sweep over the constraints: each in turn rewrites the body and the
/// constraints after it.
pub fn sweep_constraints(body: Vec<Span<Instruction>>, constraints: Constraints) -> (r: (
    Vec<Span<Instruction>>,
    Constraints,
))
    ensures
        (code_view(r.0@), r.1@) == sweep(code_view(body@), constraints@),
{
    let mut body = body;
    let mut pending = constraints;
    let mut done: Constraints = Vec::new();
    let ghost goal = sweep(code_view(body@), pending@);
    assert(done@ + goal.1 =~= goal.1);
    while pending.len() > 0
        invariant
            goal.0 == sweep(code_view(body@), pending@).0,
            goal.1 == done@ + sweep(code_view(body@), pending@).1,
        decreases pending.len(),
    {
        let ghost before = pending@;
        let ghost code = code_view(body@);
        let c = pending.remove(0);
        assert(pending@ =~= before.drop_first());
        body = substitute_proc_body(body, &c.0, &c.1);
        pending = substitute_constraints(&pending, &c.0, &c.1);
        let ghost rest = sweep(code_view(body@), pending@).1;
        assert(sweep(code, before).1 == seq![c] + rest);
        assert(done@ + (seq![c] + rest) =~= done@.push(c) + rest);
        done.push(c);
    }
    assert(done@ + Seq::<Constraint>::empty() =~= done@);
    (body, done)
}

/// The place of the first procedure called `name`.
pub fn find_procedure(procs: &Vec<IRProc>, name: &String) -> (r: Option<usize>)
    ensures
        match find_proc(procs_view(procs@), name@) {
            Some(k) => r is Some && r->Some_0 == k && k < procs.len(),
            None => r is None,
        },
{
    let mut i: usize = 0;
    while i < procs.len()
        invariant
            i <= procs.len(),
            forall|j: int| 0 <= j < i ==> (#[trigger] procs_view(procs@)[j]).name != name@,
        decreases procs.len() - i,
    {
        if procs[i].name == *name {
            proof {
                lemma_find_proc(procs_view(procs@), name@);
                assert(procs_view(procs@)[i as int].name == name@);
            }
            return Some(i);
        }
        assert(procs_view(procs@)[i as int].name != name@);
        i += 1;
    }
    proof {
        lemma_find_proc(procs_view(procs@), name@);
    }
    None
}

/// Reports that no scope binds `name`.
pub fn report_unbound_variable(name: &String, log: &mut Logger)
    ensures
        final(log)@ == old(log)@.push(unbound_variable(name@)),
{
    let mut msg = String::from_str("Can't find a variable named ");
    msg.append(name.as_str());
    msg.append(" in the current scope");
    log.name_error(msg.as_str(), 0, 0);
}

/// Reports that no procedure is called `name`.
pub fn report_unbound_procedure(name: &String, log: &mut Logger)
    ensures
        final(log)@ == old(log)@.push(unbound_procedure(name@)),
{
    let mut msg = String::from_str("Can't find a procedure named ");
    msg.append(name.as_str());
    msg.append(" in the current module");
    log.name_error(msg.as_str(), 0, 0);
}

/// The run that the pieces of the analysis stand for.
pub open spec fn run_of(
    stack: Vec<Type>,
    constraints: Constraints,
    scopes: Vec<Scope>,
    next_var: u64,
) -> Run {
    Run { stack: stack@, constraints: constraints@, scopes: scopes_view(scopes@), next_var }
}

/// Makes `t1` equal to `t2`, and reports it if no type variable is left.
fn constrain_or_report(
    next_var: &mut u64,
    constraints: &mut Constraints,
    t1: Type,
    t2: Type,
    pos: usize,
    len: usize,
    log: &mut Logger,
) -> (ok: bool)
    ensures
        match constrain(old(constraints)@, *old(next_var), t1, t2) {
            Some((cs, next)) => ok && final(constraints)@ == cs && *final(next_var) == next
                && final(log)@ == old(log)@,
            None => !ok && final(constraints)@ == old(constraints)@ && *final(next_var) == *old(
                next_var,
            ) && final(log)@ == old(log)@.push(syntax_record(out_of_variables(), pos, len)),
        },
{
    if add_constraint(next_var, constraints, t1, t2) {
        true
    } else {
        log.syntax_error("The module needs more type variables than there are", pos, len);
        false
    }
}

/// Reports that an instruction finds too few values on the stack.
fn report_underflow(ins: &Span<Instruction>, log: &mut Logger)
    ensures
        final(log)@ == old(log)@.push(underflow(ins@)),
{
    log.syntax_error("An instruction needs more values than the stack holds", ins.pos, ins.len);
}

/// Runs one instruction of a procedure that returns `ret` on the stack of
/// types. Returns false after reporting an error; the scopes and the
/// counter of type variables are then those of the run where it stopped.
fn step_instruction(
    procs: &Vec<IRProc>,
    ret: &Type,
    ins: &Span<Instruction>,
    stack: &mut Vec<Type>,
    constraints: &mut Constraints,
    scopes: &mut Vec<Scope>,
    next_var: &mut u64,
    log: &mut Logger,
) -> (ok: bool)
    ensures
        match step(
            run_of(*old(stack), *old(constraints), *old(scopes), *old(next_var)),
            procs_view(procs@),
            *ret,
            ins@,
        ) {
            Ok(run) => ok && run_of(*final(stack), *final(constraints), *final(scopes), *final(next_var))
                == run && final(log)@ == old(log)@,
            Err((e, at)) => !ok && scopes_view(final(scopes)@) == at.scopes && *final(next_var)
                == at.next_var && final(log)@ == old(log)@.push(e),
        },
{
    let typ = &ins.contents.typ;
    let n = stack.len();
    match &ins.contents.ins {
        InstructionType::Push(_) => {
            stack.push(typ.clone());
            true
        },
        InstructionType::Load(v) => {
            match find_var(scopes, v) {
                Some(t) => {
                    stack.push(t);
                    true
                },
                None => {
                    report_unbound_variable(v, log);
                    false
                },
            }
        },
        InstructionType::Store(v) => {
            match stack.pop() {
                None => {
                    report_underflow(ins, log);
                    false
                },
                Some(t) => {
                    match find_var(scopes, v) {
                        None => {
                            report_unbound_variable(v, log);
                            false
                        },
                        Some(declared) => {
                            if !constrain_or_report(
                                next_var,
                                constraints,
                                t,
                                typ.clone(),
                                ins.pos,
                                ins.len,
                                log,
                            ) {
                                return false;
                            }
                            constrain_or_report(
                                next_var,
                                constraints,
                                typ.clone(),
                                declared,
                                ins.pos,
                                ins.len,
                                log,
                            )
                        },
                    }
                },
            }
        },
        InstructionType::Allocate(v) => {
            match stack.pop() {
                None => {
                    report_underflow(ins, log);
                    false
                },
                Some(t) => {
                    declare_var(scopes, v.clone(), typ.clone());
                    constrain_or_report(
                        next_var,
                        constraints,
                        typ.clone(),
                        t,
                        ins.pos,
                        ins.len,
                        log,
                    )
                },
            }
        },
        InstructionType::Branch(_, _) => {
            match stack.pop() {
                None => {
                    report_underflow(ins, log);
                    false
                },
                Some(t) => constrain_or_report(
                    next_var,
                    constraints,
                    t,
                    Type::Bool,
                    ins.pos,
                    ins.len,
                    log,
                ),
            }
        },
        InstructionType::Jump(_) => true,
        InstructionType::Label(_) => true,
        InstructionType::Call(p) => {
            match find_procedure(procs, p) {
                None => {
                    report_unbound_procedure(p, log);
                    false
                },
                Some(k) => {
                    let callee = &procs[k];
                    let count = callee.arg_types.len();
                    if n < count {
                        report_underflow(ins, log);
                        return false;
                    }
                    let args = stack.split_off(n - count);
                    stack.push(callee.ret_type.clone());
                    let ghost start = run_of(*stack, *constraints, *scopes, *next_var);
                    let ghost entry = run_of(
                        *old(stack),
                        *old(constraints),
                        *old(scopes),
                        *old(next_var),
                    );
                    assert(args@ =~= entry.stack.skip(n - count));
                    assert(start == pushed(popped(entry, count as int), callee.ret_type));
                    let mut i: usize = 0;
                    while i < count
                        invariant
                            i <= count,
                            ins.contents.ins == InstructionType::Call(*p),
                            find_proc(procs_view(procs@), p@) == Some(k as int),
                            k < procs.len(),
                            callee == &procs[k as int],
                            n == old(stack)@.len(),
                            count <= n,
                            entry == run_of(
                                *old(stack),
                                *old(constraints),
                                *old(scopes),
                                *old(next_var),
                            ),
                            args@ == entry.stack.skip(n - count),
                            start == pushed(popped(entry, count as int), callee.ret_type),
                            count == args@.len(),
                            count == callee.arg_types@.len(),
                            log@ == old(log)@,
                            with_constraints(start, args@, callee.arg_types@, 0, ins@)
                                == with_constraints(
                                run_of(*stack, *constraints, *scopes, *next_var),
                                args@,
                                callee.arg_types@,
                                i as int,
                                ins@,
                            ),
                        decreases count - i,
                    {
                        if !constrain_or_report(
                            next_var,
                            constraints,
                            args[i].clone(),
                            callee.arg_types[i].clone(),
                            ins.pos,
                            ins.len,
                            log,
                        ) {
                            return false;
                        }
                        i += 1;
                    }
                    true
                },
            }
        },
        InstructionType::Return => {
            match stack.pop() {
                None => {
                    report_underflow(ins, log);
                    false
                },
                Some(t) => constrain_or_report(
                    next_var,
                    constraints,
                    t,
                    ret.clone(),
                    ins.pos,
                    ins.len,
                    log,
                ),
            }
        },
        InstructionType::Negate(_) => {
            match stack.pop() {
                None => {
                    report_underflow(ins, log);
                    false
                },
                Some(t) => {
                    stack.push(typ.clone());
                    constrain_or_report(
                        next_var,
                        constraints,
                        t,
                        typ.clone(),
                        ins.pos,
                        ins.len,
                        log,
                    )
                },
            }
        },
        InstructionType::Add(_)
        | InstructionType::Subtract(_)
        | InstructionType::Multiply(_)
        | InstructionType::IntDivide
        | InstructionType::Divide => {
            if n < 2 {
                report_underflow(ins, log);
                return false;
            }
            let b = stack.pop().unwrap();
            let a = stack.pop().unwrap();
            stack.push(typ.clone());
            assert(stack@ =~= old(stack)@.take(n - 2).push(*typ));
            if !constrain_or_report(
                next_var,
                constraints,
                a.clone(),
                b.clone(),
                ins.pos,
                ins.len,
                log,
            ) {
                return false;
            }
            if !constrain_or_report(
                next_var,
                constraints,
                a,
                typ.clone(),
                ins.pos,
                ins.len,
                log,
            ) {
                return false;
            }
            constrain_or_report(next_var, constraints, b, typ.clone(), ins.pos, ins.len, log)
        },
        InstructionType::Compare(_) => {
            if n < 2 {
                report_underflow(ins, log);
                return false;
            }
            let b = stack.pop().unwrap();
            let a = stack.pop().unwrap();
            stack.push(Type::Bool);
            assert(stack@ =~= old(stack)@.take(n - 2).push(Type::Bool));
            if !constrain_or_report(next_var, constraints, a, b, ins.pos, ins.len, log) {
                return false;
            }
            constrain_or_report(
                next_var,
                constraints,
                typ.clone(),
                Type::Bool,
                ins.pos,
                ins.len,
                log,
            )
        },
    }
}

/// A copy of a body.
fn copy_body(body: &Vec<Span<Instruction>>) -> (r: Vec<Span<Instruction>>)
    ensures
        code_view(r@) == code_view(body@),
{
    let mut copy: Vec<Span<Instruction>> = Vec::new();
    let mut i: usize = 0;
    while i < body.len()
        invariant
            i <= body.len(),
            copy@.len() == i,
            forall|j: int| 0 <= j < i ==> (#[trigger] copy@[j])@ == body@[j]@,
        decreases body.len() - i,
    {
        let ins = &body[i];
        copy.push(spanned(ins.contents.clone(), ins.pos, ins.len));
        i += 1;
    }
    assert(code_view(copy@) =~= code_view(body@));
    copy
}

/// A copy of a list of constraints.
fn copy_constraints(constraints: &Constraints) -> (r: Constraints)
    ensures
        r@ == constraints@,
{
    let mut copy: Constraints = Vec::new();
    let mut i: usize = 0;
    while i < constraints.len()
        invariant
            i <= constraints.len(),
            copy@ == constraints@.take(i as int),
        decreases constraints.len() - i,
    {
        let left = constraints[i].0.clone();
        let right = constraints[i].1.clone();
        copy.push((left, right));
        assert(copy@ =~= constraints@.take(i + 1));
        i += 1;
    }
    assert(constraints@.take(constraints@.len() as int) =~= constraints@);
    copy
}

impl<'i> IRBuilder<'i> {
    /// Runs the body of procedure `index` on a stack of types and collects
    /// the constraints that its instructions give rise to. The scopes and the
    /// counter of type variables move on as the run does, up to where it
    /// ends or stops with an error. Nothing else of the unit changes.
    pub fn gen_constraints(&mut self, index: usize, log: &mut Logger) -> (r: Option<Constraints>)
        requires
            index < old(self).procs.len(),
        ensures
            final(self).procs == old(self).procs,
            final(self).consts == old(self).consts,
            final(self).available_label_id == old(self).available_label_id,
            final(self).built == old(self).built,
            final(self).ast == old(self).ast,
            match run_from(
                Run {
                    stack: Seq::empty(),
                    constraints: Seq::empty(),
                    scopes: old(self)@.scopes,
                    next_var: old(self)@.next_var,
                },
                old(self)@.procs,
                old(self)@.procs[index as int].ret_type,
                old(self)@.procs[index as int].body,
                0,
            ) {
                Ok(run) => r is Some && r->Some_0@ == run.constraints && final(self)@.scopes
                    == run.scopes && final(self)@.next_var == run.next_var && final(log)@ == old(log)@,
                Err((e, at)) => r is None && final(self)@.scopes == at.scopes && final(self)@.next_var == at.next_var && final(log)@ == old(log)@.push(e),
            },
    {
        let mut constraints: Constraints = Vec::new();
        let mut stack: Vec<Type> = Vec::new();
        let ghost first = Run {
            stack: Seq::empty(),
            constraints: Seq::empty(),
            scopes: self@.scopes,
            next_var: self@.next_var,
        };
        let ghost procs = self@.procs;
        let ghost ret = procs[index as int].ret_type;
        let ghost body = procs[index as int].body;
        let mut k: usize = 0;
        while k < self.procs[index].body.len()
            invariant
                index < self.procs.len(),
                self.procs == old(self).procs,
                self.consts == old(self).consts,
                self.available_label_id == old(self).available_label_id,
                self.built == old(self).built,
                self.ast == old(self).ast,
                procs == procs_view(self.procs@),
                ret == self.procs@[index as int].ret_type,
                body == code_view(self.procs@[index as int].body@),
                log@ == old(log)@,
                k <= body.len(),
                first == (Run {
                    stack: Seq::empty(),
                    constraints: Seq::empty(),
                    scopes: old(self)@.scopes,
                    next_var: old(self)@.next_var,
                }),
                run_from(first, procs, ret, body, 0) == run_from(
                    run_of(stack, constraints, self.scopes, self.available_type_var),
                    procs,
                    ret,
                    body,
                    k as int,
                ),
            decreases body.len() - k,
        {
            let ok = step_instruction(
                &self.procs,
                &self.procs[index].ret_type,
                &self.procs[index].body[k],
                &mut stack,
                &mut constraints,
                &mut self.scopes,
                &mut self.available_type_var,
                log,
            );
            if !ok {
                return None;
            }
            k += 1;
        }
        Some(constraints)
    }

    /// The body of procedure `index` after solving `constraints`: three
    /// sweeps, then the defaults for the literal tags that are left.
    pub fn solve_constraints(&self, index: usize, constraints: &Constraints) -> (r: Vec<
        Span<Instruction>,
    >)
        requires
            index < self.procs.len(),
        ensures
            code_view(r@) == solve(self@.procs[index as int].body, constraints@),
    {
        let body = copy_body(&self.procs[index].body);
        let rules = copy_constraints(constraints);
        let (b1, c1) = sweep_constraints(body, rules);
        let (b2, c2) = sweep_constraints(b1, c1);
        let (b3, _) = sweep_constraints(b2, c2);
        let b4 = substitute_proc_body(b3, &Type::IntLiteral, &Type::I64);
        substitute_proc_body(b4, &Type::FloatLiteral, &Type::F64)
    }

    /// Infers the types of every procedure, in order, and then puts the
    /// rewritten bodies in the place of the old ones.
    ///
    /// Before the module has been lowered without an error there is nothing
    /// to analyse: the result is absent and nothing changes. Afterwards the
    /// unit is `infer` of what it was; or the result is absent, the error is
    /// in the log, and no procedure has changed. No instruction has the
    /// elided type afterwards, the procedures stay well formed, and every
    /// type variable in them and in the scopes was taken from the counter of
    /// the unit.
    pub fn analyze(&mut self, log: &mut Logger) -> (r: Option<()>)
        requires
            old(self).wf(),
        ensures
            final(self).wf(),
            final(self).built == old(self).built,
            final(self).ast == old(self).ast,
            !old(self).built ==> r is None && final(log)@ == old(log)@ && final(self)@ == old(self)@,
            old(self).built ==> match infer(old(self)@) {
                Ok(unit) => r is Some && final(self)@ == unit && final(log)@ == old(log)@,
                Err((e, unit)) => r is None && final(self)@ == unit && final(log)@ == old(log)@.push(e),
            },
            all_typed(final(self)@.procs),
            all_bounded(final(self)@.procs, final(self)@.next_var),
            scopes_below(final(self)@.scopes, final(self)@.next_var),
    {
        if !self.built {
            return None;
        }
        self.scopes.clear();
        assert(scopes_view(self.scopes@) =~= Seq::empty());
        let ghost procs = self@.procs;
        let mut bodies: Vec<Vec<Span<Instruction>>> = Vec::new();
        assert(bodies_view(bodies@) =~= Seq::empty());
        let mut index: usize = 0;
        while index < self.procs.len()
            invariant
                self.procs == old(self).procs,
                self.consts == old(self).consts,
                self.available_label_id == old(self).available_label_id,
                self.built == old(self).built,
                self.ast == old(self).ast,
                procs == procs_view(self.procs@),
                procs == old(self)@.procs,
                old(self).built,
                old(self).wf(),
                log@ == old(log)@,
                index <= self.procs.len(),
                bodies@.len() == index,
                bodies_from(procs, 0, Seq::empty(), old(self)@.next_var) == after_bodies(
                    bodies_view(bodies@),
                    bodies_from(procs, index as int, self@.scopes, self@.next_var),
                ),
            decreases self.procs.len() - index,
        {
            let ghost done = bodies_view(bodies@);
            let ghost scopes = self@.scopes;
            let ghost next_var = self@.next_var;
            open_scope(&mut self.scopes, &self.procs[index].args, &self.procs[index].arg_types);
            let constraints = match self.gen_constraints(index, log) {
                Some(c) => c,
                None => {
                    proof {
                        lemma_infer_bounded(old(self)@);
                    }
                    return None;
                },
            };
            let body = self.solve_constraints(index, &constraints);
            bodies.push(body);
            proof {
                let one = solve(procs[index as int].body, constraints@);
                assert(bodies_view(bodies@) =~= done.push(one));
                match bodies_from(procs, index + 1, self@.scopes, self@.next_var) {
                    Ok((rest, _, _)) => {
                        assert(done + (seq![one] + rest) =~= done.push(one) + rest);
                    },
                    Err(_) => {},
                }
            }
            index += 1;
        }
        let ghost all = bodies_view(bodies@);
        let ghost scopes = self@.scopes;
        let ghost next_var = self@.next_var;
        assert(all + Seq::<Code>::empty() =~= all);
        assert(bodies_from(procs, 0, Seq::empty(), old(self)@.next_var) == Ok::<
            (Seq<Code>, Seq<Bindings>, u64),
            Halt,
        >((all, scopes, next_var)));
        let mut k: usize = bodies.len();
        assert(procs_view(self.procs@) =~= installed(procs, all, k as int));
        assert(all.take(k as int) =~= all);
        while k > 0
            invariant
                k <= self.procs.len(),
                all.len() == self.procs.len(),
                procs.len() == self.procs.len(),
                bodies@.len() == k,
                bodies_view(bodies@) == all.take(k as int),
                procs_view(self.procs@) == installed(procs, all, k as int),
                self.consts == old(self).consts,
                self.available_label_id == old(self).available_label_id,
                self.built == old(self).built,
                self.ast == old(self).ast,
                self@.scopes == scopes,
                self@.next_var == next_var,
                log@ == old(log)@,
            decreases k,
        {
            let ghost before = bodies_view(bodies@);
            let ghost was = procs_view(self.procs@);
            k -= 1;
            let body = bodies.pop().unwrap();
            assert(code_view(body@) == all[k as int]) by {
                assert(before[k as int] == all.take(k + 1)[k as int]);
                assert(before[k as int] == code_view(body@));
            }
            assert(bodies_view(bodies@) =~= all.take(k as int));
            self.procs[k].body = body;
            proof {
                let now = procs_view(self.procs@);
                let goal = installed(procs, all, k as int);
                assert forall|j: int| 0 <= j < now.len() implies now[j] == goal[j] by {
                    if j == k {
                        assert(was[j] == procs[j]);
                        assert(now[j].args =~= was[j].args);
                        assert(now[j].body == all[j]);
                    } else {
                        assert(now[j] == was[j]);
                    }
                }
                assert(now =~= goal);
            }
        }
        proof {
            assert(installed(procs, all, 0) =~= with_bodies(procs, all));
            lemma_infer_well_formed(old(self)@);
            lemma_infer_bounded(old(self)@);
        }
        Some(())
    }
}

/// The views of a list of bodies.
pub open spec fn bodies_view(bodies: Seq<Vec<Span<Instruction>>>) -> Seq<Code> {
    Seq::new(bodies.len(), |i: int| code_view(bodies[i]@))
}

/// `r` with `done` put in front of its bodies.
pub open spec fn after_bodies(
    done: Seq<Code>,
    r: Result<(Seq<Code>, Seq<Bindings>, u64), Halt>,
) -> Result<(Seq<Code>, Seq<Bindings>, u64), Halt> {
    match r {
        Ok((rest, scopes, next_var)) => Ok((done + rest, scopes, next_var)),
        Err(e) => Err(e),
    }
}

/// The procedures with the bodies from place `k` on put in.
pub open spec fn installed(procs: Seq<Proc>, bodies: Seq<Code>, k: int) -> Seq<Proc> {
    Seq::new(
        procs.len(),
        |j: int|
            if k <= j < bodies.len() {
                with_body(procs[j], bodies[j])
            } else {
                procs[j]
            },
    )
}

} // verus!
