//! Lowering: from the syntax tree of a module to its procedures.

use vstd::prelude::*;
use crate::analysis::{find_procedure, report_unbound_procedure, report_unbound_variable};
use crate::astgen::{node_view, nodes_view, span_view, texts_view, Ast, Node};
use crate::errors::{syntax_record, ErrorRecord, Logger, Span};
use crate::inference::{find_proc, unbound_procedure, unbound_variable};
use crate::ir::{
    all_bounded, all_closed, all_resolved, all_typed, at, code_view, consts_view,
    ends_in_return, lemma_all_bounded_later, proc_bounded, procs_view, spanned, CompareType,
    Constant, IRBuilder, IRProc, Instruction, InstructionType, Op, Unit,
};
use crate::lowering::{
    build, declare_from, define_from, find_const, finished, fresh, if_code, infix_op, known,
    labels, last_type, lemma_lower_all_step, lower, lower_all, lower_assign, lower_call,
    lower_if, lower_infix, lower_literal, lower_prefix, lower_proc, lower_ref, lower_return,
    lower_var, lower_while, prefix_op, prepend, puts, signature_taken, unsupported, while_code,
    Failure, Lowered,
};
use crate::lowering_laws::{
    lemma_declared, lemma_declared_bounded, lemma_defined, lemma_defined_bounded,
    lemma_lower_proc_bounded, lemma_lower_proc_scopes, lemma_lower_proc_sound,
};
use crate::scopes::{declare_var, find_var, lookup, open_scope, scopes_below};
use crate::types::{below, Type};

verus! {

/// The code that a piece of a procedure becomes.
pub type IRResult = Option<Vec<Span<Instruction>>>;

/// How the outcome of a lowering method relates to what lowering gives: on
/// success the code, the unit after it and an unchanged log; on failure no
/// code, the error appended to the log, and the unit as the failure leaves
/// it.
pub open spec fn lowered(
    expected: Lowered,
    r: IRResult,
    now: Unit,
    log_before: Seq<ErrorRecord>,
    log_now: Seq<ErrorRecord>,
) -> bool {
    match expected {
        Ok((code, unit)) => r is Some && code_view(r->Some_0@) == code && now == unit && log_now
            == log_before,
        Err((e, unit)) => r is None && now == unit && log_now == log_before.push(e),
    }
}

/// How the outcome of a step that yields a value relates to what it should
/// give.
pub open spec fn taken<T>(
    expected: Result<(T, Unit), Failure>,
    r: Option<T>,
    now: Unit,
    log_before: Seq<ErrorRecord>,
    log_now: Seq<ErrorRecord>,
) -> bool {
    match expected {
        Ok((v, unit)) => r == Some(v) && now == unit && log_now == log_before,
        Err((e, unit)) => r is None && now == unit && log_now == log_before.push(e),
    }
}

/// What lowering leaves alone: the syntax tree, the constants, the
/// procedures and whether the module has been built.
pub open spec fn same_module(a: IRBuilder, b: IRBuilder) -> bool {
    a.ast == b.ast && a.consts == b.consts && a.procs == b.procs && a.built == b.built
}

/// The expression of the constant `name`.
pub fn find_constant<'i>(consts: &Vec<Constant<'i>>, name: &String) -> (r: Option<&'i Span<Node>>)
    ensures
        match find_const(consts_view(consts@), name@) {
            Some(value) => r is Some && span_view(*r->Some_0) == value,
            None => r is None,
        },
{
    let mut i = consts.len();
    assert(consts_view(consts@).take(i as int) =~= consts_view(consts@));
    while i > 0
        invariant
            i <= consts.len(),
            find_const(consts_view(consts@), name@) == find_const(
                consts_view(consts@).take(i as int),
                name@,
            ),
        decreases i,
    {
        let ghost now = consts_view(consts@).take(i as int);
        i -= 1;
        assert(now.drop_last() =~= consts_view(consts@).take(i as int));
        if consts[i].name == *name {
            return Some(consts[i].value);
        }
    }
    None
}

impl<'i> IRBuilder<'i> {
    /// A compilation unit for a module, with nothing declared yet.
    pub fn new(ast: &'i [Span<Node>]) -> (r: Self)
        ensures
            r.ast == ast,
            r@ == (Unit {
                next_var: 0,
                next_label: 0,
                scopes: Seq::empty(),
                procs: Seq::empty(),
                consts: Seq::empty(),
            }),
            !r.built,
            r.wf(),
    {
        let r = IRBuilder {
            ast,
            available_type_var: 0,
            available_label_id: 0,
            scopes: Vec::new(),
            procs: Vec::new(),
            consts: Vec::new(),
            built: false,
        };
        assert(r@.scopes =~= Seq::empty());
        assert(r@.procs =~= Seq::empty());
        assert(r@.consts =~= Seq::empty());
        r
    }

    /// Takes the next type variable.
    pub fn next_type_var(&mut self) -> (r: u64)
        requires
            old(self).available_type_var < u64::MAX,
        ensures
            r == old(self).available_type_var,
            *final(self) == (IRBuilder { available_type_var: (r + 1) as u64, ..*old(self) }),
    {
        self.available_type_var = self.available_type_var + 1;
        self.available_type_var - 1
    }

    /// Takes the next label.
    pub fn next_label_id(&mut self) -> (r: u64)
        requires
            old(self).available_label_id < u64::MAX,
        ensures
            r == old(self).available_label_id,
            *final(self) == (IRBuilder { available_label_id: (r + 1) as u64, ..*old(self) }),
    {
        self.available_label_id = self.available_label_id + 1;
        self.available_label_id - 1
    }

    /// The type of a variable, from the innermost scope that binds it. A
    /// name that no scope binds is reported as a name error.
    pub fn locate_var(&self, name: &String, log: &mut Logger) -> (r: Option<Type>)
        ensures
            match lookup(self@.scopes, name@) {
                Some(t) => r == Some(t) && final(log)@ == old(log)@,
                None => r is None && final(log)@ == old(log)@.push(unbound_variable(name@)),
            },
    {
        match find_var(&self.scopes, name) {
            Some(t) => Some(t),
            None => {
                report_unbound_variable(name, log);
                None
            },
        }
    }

    /// The first procedure with the given name. A name that no procedure has
    /// is reported as a name error.
    pub fn locate_proc(&self, name: &String, log: &mut Logger) -> (r: Option<&IRProc>)
        ensures
            match find_proc(self@.procs, name@) {
                Some(k) => r == Some(&self.procs@[k]) && final(log)@ == old(log)@,
                None => r is None && final(log)@ == old(log)@.push(unbound_procedure(name@)),
            },
    {
        match find_procedure(&self.procs, name) {
            Some(k) => Some(&self.procs[k]),
            None => {
                report_unbound_procedure(name, log);
                None
            },
        }
    }

    /// A fresh type variable.
    fn fresh(&mut self, pos: usize, len: usize, log: &mut Logger) -> (r: Option<Type>)
        ensures
            same_module(*final(self), *old(self)),
            taken(fresh(old(self)@, pos, len), r, final(self)@, old(log)@, final(log)@),
    {
        if self.available_type_var == u64::MAX {
            log.syntax_error("The module needs more type variables than there are", pos, len);
            None
        } else {
            Some(Type::Variable(self.next_type_var()))
        }
    }

    /// The type for an instruction: the type itself, or a fresh variable in
    /// place of an elided type. A type with a type variable that was never
    /// taken is reported.
    fn known(&mut self, typ: &Type, pos: usize, len: usize, log: &mut Logger) -> (r: Option<Type>)
        ensures
            same_module(*final(self), *old(self)),
            taken(known(old(self)@, *typ, pos, len), r, final(self)@, old(log)@, final(log)@),
    {
        if typ.same(&Type::Unknown) {
            self.fresh(pos, len, log)
        } else if !typ.is_below(self.available_type_var) {
            log.syntax_error("A type holds a type variable that was never taken", pos, len);
            None
        } else {
            Some(typ.clone())
        }
    }

    /// Three fresh labels; the result is the first.
    fn labels(&mut self, pos: usize, len: usize, log: &mut Logger) -> (r: Option<u64>)
        ensures
            same_module(*final(self), *old(self)),
            taken(labels(old(self)@, pos, len), r, final(self)@, old(log)@, final(log)@),
    {
        if self.available_label_id > u64::MAX - 3 {
            log.syntax_error("The module needs more labels than there are", pos, len);
            None
        } else {
            let first = self.next_label_id();
            let _ = self.next_label_id();
            let _ = self.next_label_id();
            Some(first)
        }
    }

    /// Reports a construct that cannot be lowered where it stands.
    fn reject(&self, node: &Span<Node>, log: &mut Logger) -> (r: IRResult)
        ensures
            r is None,
            final(log)@ == old(log)@.push(syntax_record(unsupported(), node.pos, node.len)),
    {
        log.syntax_error("This construct is not supported here", node.pos, node.len);
        None
    }

    /// Lowers a node.
    pub fn node(&mut self, node: &Span<Node>, depth: usize, log: &mut Logger) -> (r: IRResult)
        ensures
            same_module(*final(self), *old(self)),
            lowered(
                lower(old(self)@, span_view(*node), depth as nat),
                r,
                final(self)@,
                old(log)@,
                final(log)@,
            ),
        decreases depth, node, 2nat,
    {
        match &node.contents {
            Node::Literal { .. } => self.literal(node, log),
            Node::Call { .. } => self.call(node, depth, log),
            Node::InfixOp { .. } => self.infix_op(node, depth, log),
            Node::PrefixOp { .. } => self.prefix_op(node, depth, log),
            Node::PostfixOp { .. } => self.postfix_op(node, log),
            Node::IndexOp { .. } => self.index_op(node, log),
            Node::VariableRef { .. } => self.variable_ref(node, depth, log),
            Node::IfStatement { .. } => self.if_statement(node, depth, log),
            Node::WhileStatement { .. } => self.while_statement(node, depth, log),
            Node::Block { .. } => self.block(node, depth, log),
            Node::VarStatement { .. } => self.var_statement(node, depth, log),
            Node::ConstStatement { .. } => {
                log.syntax_error(
                    "Found const statement not at top level. This feature is NYI.",
                    node.pos,
                    node.len,
                );
                None
            },
            Node::AssignStatement { .. } => self.assign_statement(node, depth, log),
            Node::ReturnStatement { .. } => self.return_statement(node, depth, log),
            _ => self.reject(node, log),
        }
    }

    /// Lowers a literal.
    fn literal(&mut self, node: &Span<Node>, log: &mut Logger) -> (r: IRResult)
        ensures
            same_module(*final(self), *old(self)),
            lowered(
                lower_literal(old(self)@, span_view(*node)),
                r,
                final(self)@,
                old(log)@,
                final(log)@,
            ),
    {
        match &node.contents {
            Node::Literal { typ, value } => {
                let t = match self.known(typ, node.pos, node.len, log) {
                    Some(t) => t,
                    None => {
                        return None;
                    },
                };
                let mut res: Vec<Span<Instruction>> = Vec::new();
                res.push(emit(InstructionType::Push(value.clone()), t, node.pos, node.len));
                assert(code_view(res@) =~= seq![at(Op::Push(value@), t, node.pos, node.len)]);
                Some(res)
            },
            _ => self.reject(node, log),
        }
    }

    /// Lowers the children of a block or the arguments of a call, in order.
    fn children(
        &mut self,
        parent: &Span<Node>,
        nodes: &Vec<Span<Node>>,
        depth: usize,
        log: &mut Logger,
    ) -> (r: IRResult)
        requires
            (parent.contents matches Node::Block { nodes: n } && n == *nodes) || (
            parent.contents matches Node::Call { args: a, .. } && a == *nodes),
        ensures
            same_module(*final(self), *old(self)),
            lowered(
                lower_all(old(self)@, nodes_view(nodes@), 0, depth as nat),
                r,
                final(self)@,
                old(log)@,
                final(log)@,
            ),
        decreases depth, parent, 0nat,
    {
        let mut res: Vec<Span<Instruction>> = Vec::new();
        let mut k: usize = 0;
        proof {
            assert(code_view(res@) =~= Seq::empty());
            match lower_all(self@, nodes_view(nodes@), 0, depth as nat) {
                Ok((code, _)) => {
                    assert(code_view(res@) + code =~= code);
                },
                Err(_) => {},
            }
        }
        while k < nodes.len()
            invariant
                (parent.contents matches Node::Block { nodes: n } && n == *nodes) || (
                parent.contents matches Node::Call { args: a, .. } && a == *nodes),
                same_module(*self, *old(self)),
                log@ == old(log)@,
                k <= nodes.len(),
                lower_all(old(self)@, nodes_view(nodes@), 0, depth as nat) == prepend(
                    code_view(res@),
                    lower_all(self@, nodes_view(nodes@), k as int, depth as nat),
                ),
            decreases nodes.len() - k,
        {
            proof {
                lemma_lower_all_step(
                    code_view(res@),
                    self@,
                    nodes_view(nodes@),
                    k as int,
                    depth as nat,
                );
            }
            match self.node(&nodes[k], depth, log) {
                None => {
                    return None;
                },
                Some(code) => {
                    let ghost before = code_view(res@);
                    let mut code = code;
                    let ghost added = code_view(code@);
                    res.append(&mut code);
                    assert(code_view(res@) =~= before + added);
                },
            }
            k += 1;
        }
        assert(code_view(res@) + Seq::empty() =~= code_view(res@));
        Some(res)
    }

    /// Lowers a block: each child in order.
    fn block(&mut self, node: &Span<Node>, depth: usize, log: &mut Logger) -> (r: IRResult)
        ensures
            same_module(*final(self), *old(self)),
            lowered(
                match span_view(*node).contents {
                    Ast::Block { nodes } => lower_all(old(self)@, nodes, 0, depth as nat),
                    _ => Err((syntax_record(unsupported(), node.pos, node.len), old(self)@)),
                },
                r,
                final(self)@,
                old(log)@,
                final(log)@,
            ),
        decreases depth, node, 1nat,
    {
        match &node.contents {
            Node::Block { nodes } => self.children(node, nodes, depth, log),
            _ => self.reject(node, log),
        }
    }

    /// Lowers a call.
    fn call(&mut self, node: &Span<Node>, depth: usize, log: &mut Logger) -> (r: IRResult)
        ensures
            same_module(*final(self), *old(self)),
            lowered(
                lower_call(old(self)@, span_view(*node), depth as nat),
                r,
                final(self)@,
                old(log)@,
                final(log)@,
            ),
        decreases depth, node, 1nat,
    {
        match &node.contents {
            Node::Call { name, args } => {
                let k = match find_procedure(&self.procs, name) {
                    Some(k) => k,
                    None => {
                        report_unbound_procedure(name, log);
                        return None;
                    },
                };
                let mut res = match self.children(node, args, depth, log) {
                    Some(code) => code,
                    None => {
                        return None;
                    },
                };
                let ret = self.procs[k].ret_type.clone();
                let t = match self.known(&ret, node.pos, node.len, log) {
                    Some(t) => t,
                    None => {
                        return None;
                    },
                };
                let ghost before = code_view(res@);
                res.push(emit(InstructionType::Call(name.clone()), t, node.pos, node.len));
                assert(code_view(res@) =~= before.push(
                    at(Op::Call(name@), t, node.pos, node.len),
                ));
                Some(res)
            },
            _ => self.reject(node, log),
        }
    }

    /// Lowers an infix operator.
    fn infix_op(&mut self, node: &Span<Node>, depth: usize, log: &mut Logger) -> (r: IRResult)
        ensures
            same_module(*final(self), *old(self)),
            lowered(
                lower_infix(old(self)@, span_view(*node), depth as nat),
                r,
                final(self)@,
                old(log)@,
                final(log)@,
            ),
        decreases depth, node, 1nat,
    {
        match &node.contents {
            Node::InfixOp { op, left, right } => {
                let mut res = match self.node(left, depth, log) {
                    Some(code) => code,
                    None => {
                        return None;
                    },
                };
                let mut second = match self.node(right, depth, log) {
                    Some(code) => code,
                    None => {
                        return None;
                    },
                };
                let ghost c1 = code_view(res@);
                let ghost c2 = code_view(second@);
                res.append(&mut second);
                let ins = match infix_instruction(op) {
                    Some(ins) => ins,
                    None => {
                        log.syntax_error("Unknown operator", node.pos, node.len);
                        return None;
                    },
                };
                let t = match self.fresh(node.pos, node.len, log) {
                    Some(t) => t,
                    None => {
                        return None;
                    },
                };
                res.push(emit(ins, t, node.pos, node.len));
                assert(code_view(res@) =~= (c1 + c2).push(at(ins@, t, node.pos, node.len)));
                Some(res)
            },
            _ => self.reject(node, log),
        }
    }

    /// Lowers a prefix operator.
    fn prefix_op(&mut self, node: &Span<Node>, depth: usize, log: &mut Logger) -> (r: IRResult)
        ensures
            same_module(*final(self), *old(self)),
            lowered(
                lower_prefix(old(self)@, span_view(*node), depth as nat),
                r,
                final(self)@,
                old(log)@,
                final(log)@,
            ),
        decreases depth, node, 1nat,
    {
        match &node.contents {
            Node::PrefixOp { op, right } => {
                let mut res = match self.node(right, depth, log) {
                    Some(code) => code,
                    None => {
                        return None;
                    },
                };
                let ins = match prefix_instruction(op) {
                    Some(ins) => ins,
                    None => {
                        log.syntax_error("Unknown operator", node.pos, node.len);
                        return None;
                    },
                };
                let t = match self.fresh(node.pos, node.len, log) {
                    Some(t) => t,
                    None => {
                        return None;
                    },
                };
                let ghost c1 = code_view(res@);
                res.push(emit(ins, t, node.pos, node.len));
                assert(code_view(res@) =~= c1.push(at(ins@, t, node.pos, node.len)));
                Some(res)
            },
            _ => self.reject(node, log),
        }
    }

    /// Postfix operators have no lowering: they are reported.
    fn postfix_op(&mut self, node: &Span<Node>, log: &mut Logger) -> (r: IRResult)
        ensures
            *final(self) == *old(self),
            r is None,
            final(log)@ == old(log)@.push(syntax_record(unsupported(), node.pos, node.len)),
    {
        self.reject(node, log)
    }

    /// Indexing has no lowering: it is reported.
    fn index_op(&mut self, node: &Span<Node>, log: &mut Logger) -> (r: IRResult)
        ensures
            *final(self) == *old(self),
            r is None,
            final(log)@ == old(log)@.push(syntax_record(unsupported(), node.pos, node.len)),
    {
        self.reject(node, log)
    }

    /// Lowers a name: a constant is inlined, a variable loaded.
    fn variable_ref(&mut self, node: &Span<Node>, depth: usize, log: &mut Logger) -> (r: IRResult)
        ensures
            same_module(*final(self), *old(self)),
            lowered(
                lower_ref(old(self)@, span_view(*node), depth as nat),
                r,
                final(self)@,
                old(log)@,
                final(log)@,
            ),
        decreases depth, node, 1nat,
    {
        match &node.contents {
            Node::VariableRef { name } => {
                match find_constant(&self.consts, name) {
                    Some(value) => {
                        if depth == 0 {
                            let mut msg = String::from_str("The constant ");
                            msg.append(name.as_str());
                            msg.append(" is defined in terms of itself");
                            log.name_error(msg.as_str(), node.pos, node.len);
                            None
                        } else {
                            self.node(value, depth - 1, log)
                        }
                    },
                    None => {
                        let typ = match self.locate_var(name, log) {
                            Some(t) => t,
                            None => {
                                return None;
                            },
                        };
                        let t = match self.known(&typ, node.pos, node.len, log) {
                            Some(t) => t,
                            None => {
                                return None;
                            },
                        };
                        let mut res: Vec<Span<Instruction>> = Vec::new();
                        res.push(emit(InstructionType::Load(name.clone()), t, node.pos, node.len));
                        assert(code_view(res@) =~= seq![
                            at(Op::Load(name@), t, node.pos, node.len),
                        ]);
                        Some(res)
                    },
                }
            },
            _ => self.reject(node, log),
        }
    }

    /// Lowers an `if`.
    fn if_statement(&mut self, node: &Span<Node>, depth: usize, log: &mut Logger) -> (r: IRResult)
        ensures
            same_module(*final(self), *old(self)),
            lowered(
                lower_if(old(self)@, span_view(*node), depth as nat),
                r,
                final(self)@,
                old(log)@,
                final(log)@,
            ),
        decreases depth, node, 1nat,
    {
        match &node.contents {
            Node::IfStatement { condition, body, else_body } => {
                let pos = node.pos;
                let len = node.len;
                let body_label = match self.labels(pos, len, log) {
                    Some(l) => l,
                    None => {
                        return None;
                    },
                };
                let else_label = body_label + 1;
                let end_label = body_label + 2;
                let mut res = match self.node(condition, depth, log) {
                    Some(code) => code,
                    None => {
                        return None;
                    },
                };
                let ghost cc = code_view(res@);
                res.push(
                    emit(InstructionType::Branch(body_label, else_label), Type::NoReturn, pos, len),
                );
                res.push(emit(InstructionType::Label(body_label), Type::Undefined, pos, len));
                let mut then_code = match self.node(body, depth, log) {
                    Some(code) => code,
                    None => {
                        return None;
                    },
                };
                let ghost bc = code_view(then_code@);
                let body_returns = ends_with_return(&then_code);
                res.append(&mut then_code);
                if !body_returns {
                    res.push(emit(InstructionType::Jump(end_label), Type::Undefined, pos, len));
                }
                res.push(emit(InstructionType::Label(else_label), Type::Undefined, pos, len));
                let mut else_code = match self.node(else_body, depth, log) {
                    Some(code) => code,
                    None => {
                        return None;
                    },
                };
                let ghost ec = code_view(else_code@);
                let else_returns = ends_with_return(&else_code);
                res.append(&mut else_code);
                if !else_returns {
                    res.push(emit(InstructionType::Jump(end_label), Type::Undefined, pos, len));
                }
                if !(body_returns && else_returns) {
                    res.push(emit(InstructionType::Label(end_label), Type::Undefined, pos, len));
                }
                assert(code_view(res@) =~= if_code(cc, bc, ec, body_label, pos, len));
                Some(res)
            },
            _ => self.reject(node, log),
        }
    }

    /// Lowers a `while`.
    fn while_statement(&mut self, node: &Span<Node>, depth: usize, log: &mut Logger) -> (r:
        IRResult)
        ensures
            same_module(*final(self), *old(self)),
            lowered(
                lower_while(old(self)@, span_view(*node), depth as nat),
                r,
                final(self)@,
                old(log)@,
                final(log)@,
            ),
        decreases depth, node, 1nat,
    {
        match &node.contents {
            Node::WhileStatement { condition, body } => {
                let pos = node.pos;
                let len = node.len;
                let cond_label = match self.labels(pos, len, log) {
                    Some(l) => l,
                    None => {
                        return None;
                    },
                };
                let body_label = cond_label + 1;
                let end_label = cond_label + 2;
                let mut res: Vec<Span<Instruction>> = Vec::new();
                res.push(emit(InstructionType::Jump(cond_label), Type::Undefined, pos, len));
                res.push(emit(InstructionType::Label(cond_label), Type::Undefined, pos, len));
                let mut cond_code = match self.node(condition, depth, log) {
                    Some(code) => code,
                    None => {
                        return None;
                    },
                };
                let ghost cc = code_view(cond_code@);
                res.append(&mut cond_code);
                res.push(
                    emit(InstructionType::Branch(body_label, end_label), Type::NoReturn, pos, len),
                );
                res.push(emit(InstructionType::Label(body_label), Type::Undefined, pos, len));
                let mut body_code = match self.node(body, depth, log) {
                    Some(code) => code,
                    None => {
                        return None;
                    },
                };
                let ghost bc = code_view(body_code@);
                let body_returns = ends_with_return(&body_code);
                res.append(&mut body_code);
                if !body_returns {
                    res.push(emit(InstructionType::Jump(cond_label), Type::Undefined, pos, len));
                }
                res.push(emit(InstructionType::Label(end_label), Type::Undefined, pos, len));
                assert(code_view(res@) =~= while_code(cc, bc, cond_label, pos, len));
                Some(res)
            },
            _ => self.reject(node, log),
        }
    }

    /// Lowers a `var` statement.
    fn var_statement(&mut self, node: &Span<Node>, depth: usize, log: &mut Logger) -> (r: IRResult)
        ensures
            same_module(*final(self), *old(self)),
            lowered(
                lower_var(old(self)@, span_view(*node), depth as nat),
                r,
                final(self)@,
                old(log)@,
                final(log)@,
            ),
        decreases depth, node, 1nat,
    {
        match &node.contents {
            Node::VarStatement { name, typ, value } => {
                let t = match self.known(typ, node.pos, node.len, log) {
                    Some(t) => t,
                    None => {
                        return None;
                    },
                };
                let mut res = match self.node(value, depth, log) {
                    Some(code) => code,
                    None => {
                        return None;
                    },
                };
                let ghost code = code_view(res@);
                res.push(emit(InstructionType::Allocate(name.clone()), t.clone(), node.pos, node.len));
                assert(code_view(res@) =~= code.push(
                    at(Op::Allocate(name@), t, node.pos, node.len),
                ));
                declare_var(&mut self.scopes, name.clone(), t);
                Some(res)
            },
            _ => self.reject(node, log),
        }
    }

    /// Lowers an assignment.
    fn assign_statement(&mut self, node: &Span<Node>, depth: usize, log: &mut Logger) -> (r:
        IRResult)
        ensures
            same_module(*final(self), *old(self)),
            lowered(
                lower_assign(old(self)@, span_view(*node), depth as nat),
                r,
                final(self)@,
                old(log)@,
                final(log)@,
            ),
        decreases depth, node, 1nat,
    {
        match &node.contents {
            Node::AssignStatement { name, value } => {
                let mut res = match self.node(value, depth, log) {
                    Some(code) => code,
                    None => {
                        return None;
                    },
                };
                let typ = match self.locate_var(name, log) {
                    Some(t) => t,
                    None => {
                        return None;
                    },
                };
                let t = match self.known(&typ, node.pos, node.len, log) {
                    Some(t) => t,
                    None => {
                        return None;
                    },
                };
                let ghost code = code_view(res@);
                res.push(emit(InstructionType::Store(name.clone()), t, node.pos, node.len));
                assert(code_view(res@) =~= code.push(at(Op::Store(name@), t, node.pos, node.len)));
                Some(res)
            },
            _ => self.reject(node, log),
        }
    }

    /// Lowers a `return`.
    fn return_statement(&mut self, node: &Span<Node>, depth: usize, log: &mut Logger) -> (r:
        IRResult)
        ensures
            same_module(*final(self), *old(self)),
            lowered(
                lower_return(old(self)@, span_view(*node), depth as nat),
                r,
                final(self)@,
                old(log)@,
                final(log)@,
            ),
        decreases depth, node, 1nat,
    {
        match &node.contents {
            Node::ReturnStatement { val } => {
                let mut res = match self.node(val, depth, log) {
                    Some(code) => code,
                    None => {
                        return None;
                    },
                };
                let typ = if res.len() > 0 {
                    res[res.len() - 1].contents.typ.clone()
                } else {
                    Type::Undefined
                };
                let ghost code = code_view(res@);
                res.push(emit(InstructionType::Return, typ, node.pos, node.len));
                assert(code_view(res@) =~= code.push(
                    at(Op::Return, last_type(code), node.pos, node.len),
                ));
                Some(res)
            },
            _ => self.reject(node, log),
        }
    }

    /// True if a signature holds no type variable but such as were taken
    /// from the counter of the unit.
    fn signature_is_taken(&self, arg_types: &Vec<Type>, ret_type: &Type) -> (r: bool)
        ensures
            r == signature_taken(self@, arg_types@, *ret_type),
    {
        let mut i: usize = 0;
        while i < arg_types.len()
            invariant
                i <= arg_types.len(),
                forall|j: int| 0 <= j < i ==> below(#[trigger] arg_types@[j], self@.next_var),
            decreases arg_types.len() - i,
        {
            if !arg_types[i].is_below(self.available_type_var) {
                return false;
            }
            i += 1;
        }
        ret_type.is_below(self.available_type_var)
    }

    /// Declares the built-in procedure `puts(s: *i8): i32`.
    fn build_header(&mut self)
        ensures
            final(self)@ == (Unit { procs: old(self)@.procs.push(puts()), ..old(self)@ }),
            final(self).ast == old(self).ast,
            final(self).consts == old(self).consts,
            final(self).built == old(self).built,
    {
        let mut args: Vec<String> = Vec::new();
        args.push(String::from_str("s"));
        let mut arg_types: Vec<Type> = Vec::new();
        arg_types.push(Type::Ptr(Box::new(Type::I8)));
        let p = IRProc {
            name: String::from_str("puts"),
            args,
            arg_types,
            ret_type: Type::I32,
            body: Vec::new(),
        };
        assert(p@.args =~= seq!["s"@]);
        assert(p@.arg_types =~= seq![Type::Ptr(Box::new(Type::I8))]);
        assert(p@.body =~= Seq::empty());
        self.procs.push(p);
        assert(procs_view(self.procs@) =~= procs_view(old(self).procs@).push(puts()));
    }

    /// Stores a constant with the expression that stands for it.
    fn const_statement(&mut self, name: &String, value: &'i Span<Node>) -> (r: Option<()>)
        ensures
            r is Some,
            final(self)@ == (Unit {
                consts: old(self)@.consts.push((name@, span_view(*value))),
                ..old(self)@
            }),
            final(self).ast == old(self).ast,
            final(self).procs == old(self).procs,
            final(self).built == old(self).built,
    {
        self.consts.push(Constant { name: name.clone(), value });
        assert(consts_view(self.consts@) =~= consts_view(old(self).consts@).push(
            (name@, span_view(*value)),
        ));
        Some(())
    }

    /// Lowers a procedure: a new scope binds its parameters, then its body
    /// is lowered.
    fn proc_statement(&mut self, node: &Span<Node>, depth: usize, log: &mut Logger) -> (r: Option<
        IRProc,
    >)
        ensures
            same_module(*final(self), *old(self)),
            match lower_proc(old(self)@, span_view(*node), depth as nat) {
                Ok((p, unit)) => r is Some && r->Some_0@ == p && final(self)@ == unit && final(log)@ == old(log)@,
                Err((e, unit)) => r is None && final(self)@ == unit && final(log)@ == old(log)@.push(e),
            },
    {
        reveal_with_fuel(node_view, 3);
        reveal_with_fuel(span_view, 3);
        match &node.contents {
            Node::ProcStatement { name, args, arg_types, ret_type, body } => {
                match &body.contents {
                    Node::Block { nodes } => {
                        if args.len() != arg_types.len() {
                            log.syntax_error(
                                "A procedure needs one type for each parameter",
                                node.pos,
                                node.len,
                            );
                            return None;
                        }
                        if !self.signature_is_taken(arg_types, ret_type) {
                            log.syntax_error(
                                "A type holds a type variable that was never taken",
                                node.pos,
                                node.len,
                            );
                            return None;
                        }
                        open_scope(&mut self.scopes, args, arg_types);
                        let mut ins = match self.block(body, depth, log) {
                            Some(code) => code,
                            None => {
                                return None;
                            },
                        };
                        let ghost code = code_view(ins@);
                        if ret_type.same(&Type::Undefined) && nodes.len() > 0 && !ends_with_return(
                            &ins,
                        ) {
                            ins.push(
                                emit(
                                    InstructionType::Push(String::from_str("undefined")),
                                    Type::Undefined,
                                    node.pos,
                                    node.len,
                                ),
                            );
                            ins.push(
                                emit(InstructionType::Return, Type::Undefined, node.pos, node.len),
                            );
                        }
                        assert(code_view(ins@) =~= finished(
                            code,
                            *ret_type,
                            nodes@.len(),
                            node.pos,
                            node.len,
                        ));
                        Some(
                            IRProc {
                                name: name.clone(),
                                args: copy_names(args),
                                arg_types: copy_types(arg_types),
                                ret_type: ret_type.clone(),
                                body: ins,
                            },
                        )
                    },
                    _ => {
                        log.syntax_error("This construct is not supported here", node.pos, node.len);
                        None
                    },
                }
            },
            _ => {
                log.syntax_error("This construct is not supported here", node.pos, node.len);
                None
            },
        }
    }

    /// Declares every constant and procedure of the module.
    fn declare(&mut self, log: &mut Logger) -> (r: Option<()>)
        requires
            old(self).wf(),
        ensures
            final(self).wf(),
            final(self).ast == old(self).ast,
            final(self).built == old(self).built,
            match declare_from(old(self)@, nodes_view(old(self).ast@), 0) {
                Ok(unit) => r is Some && final(self)@ == unit && final(log)@ == old(log)@,
                Err((e, unit)) => r is None && final(self)@ == unit && final(log)@ == old(log)@.push(e),
            },
    {
        let ast: &'i [Span<Node>] = self.ast;
        let mut k: usize = 0;
        while k < ast.len()
            invariant
                self.wf(),
                ast == self.ast,
                self.ast == old(self).ast,
                self.built == old(self).built,
                log@ == old(log)@,
                k <= ast.len(),
                declare_from(old(self)@, nodes_view(ast@), 0) == declare_from(
                    self@,
                    nodes_view(ast@),
                    k as int,
                ),
            decreases ast.len() - k,
        {
            let node = &ast[k];
            let ghost before = self@;
            match &node.contents {
                Node::ConstStatement { name, typ, value } => {
                    let _ = self.const_statement(name, &**value);
                },
                Node::ProcStatement { name, args, arg_types, ret_type, body } => {
                    if args.len() != arg_types.len() {
                        log.syntax_error(
                            "A procedure needs one type for each parameter",
                            node.pos,
                            node.len,
                        );
                        return None;
                    }
                    if !self.signature_is_taken(arg_types, ret_type) {
                        log.syntax_error(
                            "A type holds a type variable that was never taken",
                            node.pos,
                            node.len,
                        );
                        return None;
                    }
                    let stub = IRProc {
                        name: name.clone(),
                        args: copy_names(args),
                        arg_types: copy_types(arg_types),
                        ret_type: ret_type.clone(),
                        body: Vec::new(),
                    };
                    assert(stub@.body =~= Seq::empty());
                    self.procs.push(stub);
                    assert(procs_view(self.procs@) =~= before.procs.push(stub@));
                    proof {
                        lemma_declared(before.procs, stub@);
                        lemma_declared_bounded(before.procs, stub@, before.next_var);
                    }
                },
                _ => {
                    log.syntax_error(
                        "This statement is not allowed at the top level of a module",
                        node.pos,
                        node.len,
                    );
                    return None;
                },
            }
            k += 1;
        }
        Some(())
    }

    /// Lowers every procedure of the module and puts it in the place of its
    /// declaration.
    fn define(&mut self, depth: usize, log: &mut Logger) -> (r: Option<()>)
        requires
            old(self).wf(),
        ensures
            final(self).wf(),
            final(self).ast == old(self).ast,
            final(self).built == old(self).built,
            match define_from(old(self)@, nodes_view(old(self).ast@), 0, depth as nat) {
                Ok(unit) => r is Some && final(self)@ == unit && final(log)@ == old(log)@,
                Err((e, unit)) => r is None && final(self)@ == unit && final(log)@ == old(log)@.push(e),
            },
    {
        let ast: &'i [Span<Node>] = self.ast;
        let mut k: usize = 0;
        while k < ast.len()
            invariant
                self.wf(),
                ast == self.ast,
                self.ast == old(self).ast,
                self.built == old(self).built,
                log@ == old(log)@,
                k <= ast.len(),
                define_from(old(self)@, nodes_view(ast@), 0, depth as nat) == define_from(
                    self@,
                    nodes_view(ast@),
                    k as int,
                    depth as nat,
                ),
            decreases ast.len() - k,
        {
            let node = &ast[k];
            match &node.contents {
                Node::ProcStatement { .. } => {
                    let ghost start = self@;
                    proof {
                        lemma_lower_proc_sound(start, span_view(*node), depth as nat);
                        lemma_lower_proc_bounded(start, span_view(*node), depth as nat);
                        lemma_lower_proc_scopes(start, span_view(*node), depth as nat);
                    }
                    let pstat = match self.proc_statement(node, depth, log) {
                        Some(p) => p,
                        None => {
                            proof {
                                lemma_all_bounded_later(start.procs, start.next_var, self@.next_var);
                            }
                            return None;
                        },
                    };
                    let ghost before = self@;
                    proof {
                        lemma_all_bounded_later(start.procs, start.next_var, before.next_var);
                    }
                    match find_procedure(&self.procs, &pstat.name) {
                        Some(i) => {
                            self.procs[i] = pstat;
                            assert(procs_view(self.procs@) =~= before.procs.update(
                                i as int,
                                pstat@,
                            ));
                            proof {
                                lemma_defined(before.procs, pstat@);
                                lemma_defined_bounded(before.procs, pstat@, before.next_var);
                            }
                        },
                        None => {},
                    }
                },
                _ => {},
            }
            k += 1;
        }
        Some(())
    }

    /// Lowers the module: declares `puts`, then every constant and procedure,
    /// then lowers the procedures.
    ///
    /// On success the unit is `build` of what it was, the log is unchanged
    /// and the result is the list of procedures. On failure the result is
    /// absent, the error is in the log, and the unit is as lowering left it
    /// where it stopped. Either way the procedures stay well formed: no
    /// instruction has the elided type, every `Jump` and `Branch` has its
    /// labels in the same body, every `Call` names a procedure of the unit,
    /// and every type variable in them and in the scopes was taken from the
    /// counter of the unit.
    pub fn go(&mut self, log: &mut Logger) -> (r: Option<&Vec<IRProc>>)
        requires
            old(self).wf(),
        ensures
            final(self).wf(),
            all_typed(final(self)@.procs),
            all_closed(final(self)@.procs),
            all_resolved(final(self)@.procs),
            all_bounded(final(self)@.procs, final(self)@.next_var),
            scopes_below(final(self)@.scopes, final(self)@.next_var),
            final(self).ast == old(self).ast,
            match build(old(self)@, nodes_view(old(self).ast@)) {
                Ok(unit) => r is Some && final(self)@ == unit && final(self).built && final(log)@
                    == old(log)@ && r->Some_0 == &final(self).procs,
                Err((e, unit)) => r is None && final(self)@ == unit && !final(self).built
                    && final(log)@ == old(log)@.push(e),
            },
    {
        self.built = false;
        self.build_header();
        proof {
            lemma_declared(old(self)@.procs, puts());
            assert(proc_bounded(puts(), old(self)@.next_var)) by {
                reveal_with_fuel(below, 2);
            }
            lemma_declared_bounded(old(self)@.procs, puts(), old(self)@.next_var);
        }
        match self.declare(log) {
            Some(_) => {},
            None => {
                return None;
            },
        }
        let depth = self.consts.len();
        match self.define(depth, log) {
            Some(_) => {},
            None => {
                return None;
            },
        }
        self.built = true;
        Some(&self.procs)
    }
}

/// A copy of a list of names.
pub fn copy_names(names: &Vec<String>) -> (r: Vec<String>)
    ensures
        texts_view(r@) == texts_view(names@),
{
    let mut copy: Vec<String> = Vec::new();
    let mut i: usize = 0;
    while i < names.len()
        invariant
            i <= names.len(),
            copy@.len() == i,
            forall|j: int| 0 <= j < i ==> (#[trigger] copy@[j])@ == names@[j]@,
        decreases names.len() - i,
    {
        copy.push(names[i].clone());
        i += 1;
    }
    assert(texts_view(copy@) =~= texts_view(names@));
    copy
}

/// A copy of a list of types.
pub fn copy_types(types: &Vec<Type>) -> (r: Vec<Type>)
    ensures
        r@ == types@,
{
    let mut copy: Vec<Type> = Vec::new();
    let mut i: usize = 0;
    while i < types.len()
        invariant
            i <= types.len(),
            copy@ == types@.take(i as int),
        decreases types.len() - i,
    {
        copy.push(types[i].clone());
        assert(copy@ =~= types@.take(i + 1));
        i += 1;
    }
    assert(types@.take(types@.len() as int) =~= types@);
    copy
}


/// An instruction at a position.
pub fn emit(ins: InstructionType, typ: Type, pos: usize, len: usize) -> (r: Span<Instruction>)
    ensures
        r@ == at(ins@, typ, pos, len),
{
    spanned(Instruction { ins, typ }, pos, len)
}

/// True if the code is not empty and its last instruction is `Return`.
pub fn ends_with_return(code: &Vec<Span<Instruction>>) -> (r: bool)
    ensures
        r == ends_in_return(code_view(code@)),
{
    if code.len() == 0 {
        false
    } else {
        match &code[code.len() - 1].contents.ins {
            InstructionType::Return => true,
            _ => false,
        }
    }
}

/// The instruction that an infix operator stands for.
pub fn infix_instruction(op: &String) -> (r: Option<InstructionType>)
    ensures
        match infix_op(op@) {
            Some(o) => r is Some && r->Some_0@ == o,
            None => r is None,
        },
{
    if *op == String::from_str("+") {
        Some(InstructionType::Add(false))
    } else if *op == String::from_str("-") {
        Some(InstructionType::Subtract(false))
    } else if *op == String::from_str("*") {
        Some(InstructionType::Multiply(false))
    } else if *op == String::from_str("+~") {
        Some(InstructionType::Add(true))
    } else if *op == String::from_str("-~") {
        Some(InstructionType::Subtract(true))
    } else if *op == String::from_str("*~") {
        Some(InstructionType::Multiply(true))
    } else if *op == String::from_str("//") {
        Some(InstructionType::IntDivide)
    } else if *op == String::from_str("/") {
        Some(InstructionType::Divide)
    } else if *op == String::from_str("==") {
        Some(InstructionType::Compare(CompareType::EQ))
    } else if *op == String::from_str("!=") {
        Some(InstructionType::Compare(CompareType::NE))
    } else if *op == String::from_str(">") {
        Some(InstructionType::Compare(CompareType::GT))
    } else if *op == String::from_str("<") {
        Some(InstructionType::Compare(CompareType::LT))
    } else if *op == String::from_str(">=") {
        Some(InstructionType::Compare(CompareType::GE))
    } else if *op == String::from_str("<=") {
        Some(InstructionType::Compare(CompareType::LE))
    } else {
        None
    }
}

/// The instruction that a prefix operator stands for.
pub fn prefix_instruction(op: &String) -> (r: Option<InstructionType>)
    ensures
        match prefix_op(op@) {
            Some(o) => r is Some && r->Some_0@ == o,
            None => r is None,
        },
{
    if *op == String::from_str("-") {
        Some(InstructionType::Negate(false))
    } else if *op == String::from_str("-~") {
        Some(InstructionType::Negate(true))
    } else {
        None
    }
}

} // verus!
