//! The intermediate representation: procedures whose bodies are flat
//! sequences of typed instructions for a stack machine.

use vstd::prelude::*;
use crate::astgen::{span_view, texts_view, Ast, Node};
use crate::errors::Span;
use crate::inference::find_proc;
use crate::scopes::{scopes_below, scopes_view, Bindings, Scope};
use crate::types::{below, lemma_below_later, Type};

verus! {

/// The comparisons.
#[derive(Debug, Clone, Copy, PartialEq, Eq, Hash, Structural)]
pub enum CompareType {
    EQ,
    NE,
    GT,
    LT,
    GE,
    LE,
}

/// What an instruction does.
#[derive(Debug)]
pub enum InstructionType {
    /// Pushes an immediate value.
    Push(String),
    /// Pushes the contents of a variable.
    Load(String),
    /// Pops a value into a variable.
    Store(String),
    /// Creates a local variable and gives it the value on top of the stack.
    Allocate(String),
    /// Conditional branch to the first label if the popped value is true, to
    /// the second otherwise.
    Branch(u64, u64),
    /// Unconditional jump.
    Jump(u64),
    /// A target for jumps and branches.
    Label(u64),
    /// Calls a procedure.
    Call(String),
    /// Returns to the caller with the value on the stack.
    Return,
    /// Arithmetic; the flag selects wrapping arithmetic.
    Negate(bool),
    Add(bool),
    Subtract(bool),
    Multiply(bool),
    IntDivide,
    Divide,
    Compare(CompareType),
}

/// An [`InstructionType`] as a mathematical value.
pub enum Op {
    Push(Seq<char>),
    Load(Seq<char>),
    Store(Seq<char>),
    Allocate(Seq<char>),
    Branch(u64, u64),
    Jump(u64),
    Label(u64),
    Call(Seq<char>),
    Return,
    Negate(bool),
    Add(bool),
    Subtract(bool),
    Multiply(bool),
    IntDivide,
    Divide,
    Compare(CompareType),
}

impl View for InstructionType {
    type V = Op;

    open spec fn view(&self) -> Op {
        match *self {
            InstructionType::Push(s) => Op::Push(s@),
            InstructionType::Load(s) => Op::Load(s@),
            InstructionType::Store(s) => Op::Store(s@),
            InstructionType::Allocate(s) => Op::Allocate(s@),
            InstructionType::Branch(a, b) => Op::Branch(a, b),
            InstructionType::Jump(l) => Op::Jump(l),
            InstructionType::Label(l) => Op::Label(l),
            InstructionType::Call(s) => Op::Call(s@),
            InstructionType::Return => Op::Return,
            InstructionType::Negate(w) => Op::Negate(w),
            InstructionType::Add(w) => Op::Add(w),
            InstructionType::Subtract(w) => Op::Subtract(w),
            InstructionType::Multiply(w) => Op::Multiply(w),
            InstructionType::IntDivide => Op::IntDivide,
            InstructionType::Divide => Op::Divide,
            InstructionType::Compare(c) => Op::Compare(c),
        }
    }
}

impl Clone for InstructionType {
    fn clone(&self) -> (r: Self)
        ensures
            r == *self,
    {
        match self {
            InstructionType::Push(s) => InstructionType::Push(s.clone()),
            InstructionType::Load(s) => InstructionType::Load(s.clone()),
            InstructionType::Store(s) => InstructionType::Store(s.clone()),
            InstructionType::Allocate(s) => InstructionType::Allocate(s.clone()),
            InstructionType::Branch(a, b) => InstructionType::Branch(*a, *b),
            InstructionType::Jump(l) => InstructionType::Jump(*l),
            InstructionType::Label(l) => InstructionType::Label(*l),
            InstructionType::Call(s) => InstructionType::Call(s.clone()),
            InstructionType::Return => InstructionType::Return,
            InstructionType::Negate(w) => InstructionType::Negate(*w),
            InstructionType::Add(w) => InstructionType::Add(*w),
            InstructionType::Subtract(w) => InstructionType::Subtract(*w),
            InstructionType::Multiply(w) => InstructionType::Multiply(*w),
            InstructionType::IntDivide => InstructionType::IntDivide,
            InstructionType::Divide => InstructionType::Divide,
            InstructionType::Compare(c) => InstructionType::Compare(*c),
        }
    }
}

/// An instruction with the type of the value it works on.
#[derive(Debug)]
pub struct Instruction {
    pub ins: InstructionType,
    pub typ: Type,
}

/// An [`Instruction`] as a mathematical value.
pub struct Instr {
    pub ins: Op,
    pub typ: Type,
}

impl View for Instruction {
    type V = Instr;

    open spec fn view(&self) -> Instr {
        Instr { ins: self.ins@, typ: self.typ }
    }
}

impl Clone for Instruction {
    fn clone(&self) -> (r: Self)
        ensures
            r == *self,
    {
        Instruction { ins: self.ins.clone(), typ: self.typ.clone() }
    }
}

/// A sequence of instructions with their positions.
pub type Code = Seq<Span<Instr>>;

/// The views of a list of spanned instructions.
pub open spec fn code_view(body: Seq<Span<Instruction>>) -> Code {
    Seq::new(body.len(), |i: int| body[i]@)
}

/// A procedure: its signature and its body. A procedure that is only
/// declared has an empty body.
#[derive(Debug)]
pub struct IRProc {
    pub name: String,
    pub args: Vec<String>,
    pub arg_types: Vec<Type>,
    pub ret_type: Type,
    pub body: Vec<Span<Instruction>>,
}

/// An [`IRProc`] as a mathematical value.
pub struct Proc {
    pub name: Seq<char>,
    pub args: Seq<Seq<char>>,
    pub arg_types: Seq<Type>,
    pub ret_type: Type,
    pub body: Code,
}

impl View for IRProc {
    type V = Proc;

    open spec fn view(&self) -> Proc {
        Proc {
            name: self.name@,
            args: texts_view(self.args@),
            arg_types: self.arg_types@,
            ret_type: self.ret_type,
            body: code_view(self.body@),
        }
    }
}

/// The views of a list of procedures.
pub open spec fn procs_view(procs: Seq<IRProc>) -> Seq<Proc> {
    Seq::new(procs.len(), |i: int| procs[i]@)
}

/// Puts an instruction at a position.
pub fn spanned(ins: Instruction, pos: usize, len: usize) -> (r: Span<Instruction>)
    ensures
        r == (Span { contents: ins, pos, len }),
{
    Span { contents: ins, pos, len }
}

/// An instruction at a position.
pub open spec fn at(ins: Op, typ: Type, pos: usize, len: usize) -> Span<Instr> {
    Span { contents: Instr { ins, typ }, pos, len }
}

/// True if the code is not empty and its last instruction is `Return`.
pub open spec fn ends_in_return(code: Code) -> bool {
    code.len() > 0 && code.last().contents.ins == Op::Return
}

/// A constant: its name and the expression that stands for it.
pub struct Constant<'i> {
    pub name: String,
    pub value: &'i Span<Node>,
}

/// The constants as a mathematical value: names and expressions in the order
/// of their declarations.
pub type Constants = Seq<(Seq<char>, Span<Ast>)>;

/// The view of a list of constants.
pub open spec fn consts_view(consts: Seq<Constant>) -> Constants {
    Seq::new(consts.len(), |i: int| (consts[i].name@, span_view(*consts[i].value)))
}

/// A compilation unit: the procedures and constants of a module, the scope
/// stack, and the counters that fresh type variables and labels come from.
pub struct IRBuilder<'i> {
    pub ast: &'i [Span<Node>],
    pub available_type_var: u64,
    pub available_label_id: u64,
    pub scopes: Vec<Scope>,
    pub procs: Vec<IRProc>,
    pub consts: Vec<Constant<'i>>,
    /// True once the module has been lowered without an error.
    pub built: bool,
}

/// A compilation unit as a mathematical value.
pub struct Unit {
    pub next_var: u64,
    pub next_label: u64,
    pub scopes: Seq<Bindings>,
    pub procs: Seq<Proc>,
    pub consts: Constants,
}

impl<'i> View for IRBuilder<'i> {
    type V = Unit;

    open spec fn view(&self) -> Unit {
        Unit {
            next_var: self.available_type_var,
            next_label: self.available_label_id,
            scopes: scopes_view(self.scopes@),
            procs: procs_view(self.procs@),
            consts: consts_view(self.consts@),
        }
    }
}

/// No instruction of the code has the elided type.
pub open spec fn typed(code: Code) -> bool {
    forall|i: int| 0 <= i < code.len() ==> (#[trigger] code[i]).contents.typ != Type::Unknown
}

/// No instruction of any procedure has the elided type.
pub open spec fn all_typed(procs: Seq<Proc>) -> bool {
    forall|k: int| 0 <= k < procs.len() ==> typed((#[trigger] procs[k]).body)
}

/// Some instruction of the code is `Label(l)`.
pub open spec fn has_label(code: Code, l: u64) -> bool {
    exists|j: int| 0 <= j < code.len() && (#[trigger] code[j]).contents.ins == Op::Label(l)
}

/// Every label that `part` jumps or branches to stands in `whole`.
pub open spec fn targets_in(part: Code, whole: Code) -> bool {
    forall|i: int|
        0 <= i < part.len() ==> match (#[trigger] part[i]).contents.ins {
            Op::Jump(l) => has_label(whole, l),
            Op::Branch(a, b) => has_label(whole, a) && has_label(whole, b),
            _ => true,
        }
}

/// Every label that the code jumps or branches to stands in the code.
pub open spec fn closed(code: Code) -> bool {
    targets_in(code, code)
}

/// Every procedure that the code calls is among `procs`.
pub open spec fn resolved(code: Code, procs: Seq<Proc>) -> bool {
    forall|i: int|
        0 <= i < code.len() ==> match (#[trigger] code[i]).contents.ins {
            Op::Call(name) => find_proc(procs, name) is Some,
            _ => true,
        }
}

/// Every label that the code mentions is at least `lo` and less than `hi`.
pub open spec fn within(code: Code, lo: int, hi: int) -> bool {
    forall|i: int|
        0 <= i < code.len() ==> match (#[trigger] code[i]).contents.ins {
            Op::Label(l) => lo <= l < hi,
            Op::Jump(l) => lo <= l < hi,
            Op::Branch(a, b) => lo <= a < hi && lo <= b < hi,
            _ => true,
        }
}

/// The jumps and branches of every procedure have their labels in its body.
pub open spec fn all_closed(procs: Seq<Proc>) -> bool {
    forall|k: int| 0 <= k < procs.len() ==> closed((#[trigger] procs[k]).body)
}

/// The calls of every procedure go to procedures of the unit.
pub open spec fn all_resolved(procs: Seq<Proc>) -> bool {
    forall|k: int| 0 <= k < procs.len() ==> resolved((#[trigger] procs[k]).body, procs)
}

/// Every procedure has as many parameter types as parameters.
pub open spec fn all_paired(procs: Seq<Proc>) -> bool {
    forall|k: int| 0 <= k < procs.len() ==> (#[trigger] procs[k]).args.len() == procs[k].arg_types.len()
}

/// What holds of the procedures of a unit at all times: each has a type for
/// each parameter, no instruction has the elided type, every jump and
/// branch has its labels in the same body, and every call goes to a
/// procedure of the unit.
pub open spec fn well_formed(procs: Seq<Proc>) -> bool {
    all_paired(procs) && all_typed(procs) && all_closed(procs) && all_resolved(procs)
}

/// Every type variable on an instruction of the code has a number less
/// than `n`.
pub open spec fn bounded(code: Code, n: u64) -> bool {
    forall|i: int| 0 <= i < code.len() ==> below((#[trigger] code[i]).contents.typ, n)
}

/// Every type variable in the types has a number less than `n`.
pub open spec fn types_below(types: Seq<Type>, n: u64) -> bool {
    forall|i: int| 0 <= i < types.len() ==> below(#[trigger] types[i], n)
}

/// Every type variable in the signature and the body of a procedure has a
/// number less than `n`.
pub open spec fn proc_bounded(p: Proc, n: u64) -> bool {
    types_below(p.arg_types, n) && below(p.ret_type, n) && bounded(p.body, n)
}

/// Every type variable in the procedures was taken from a counter that
/// stands at `n`: its number is less than `n`.
pub open spec fn all_bounded(procs: Seq<Proc>, n: u64) -> bool {
    forall|k: int| 0 <= k < procs.len() ==> proc_bounded(#[trigger] procs[k], n)
}

/// Code bounded by a counter is bounded by every later one.
pub proof fn lemma_bounded_later(code: Code, n: u64, m: u64)
    requires
        bounded(code, n),
        n <= m,
    ensures
        bounded(code, m),
{
    assert forall|i: int| 0 <= i < code.len() implies below((#[trigger] code[i]).contents.typ, m) by {
        lemma_below_later(code[i].contents.typ, n, m);
    }
}

/// A procedure bounded by a counter is bounded by every later one.
pub proof fn lemma_proc_bounded_later(p: Proc, n: u64, m: u64)
    requires
        proc_bounded(p, n),
        n <= m,
    ensures
        proc_bounded(p, m),
{
    assert forall|i: int| 0 <= i < p.arg_types.len() implies below(#[trigger] p.arg_types[i], m) by {
        lemma_below_later(p.arg_types[i], n, m);
    }
    lemma_below_later(p.ret_type, n, m);
    lemma_bounded_later(p.body, n, m);
}

/// Procedures bounded by a counter are bounded by every later one.
pub proof fn lemma_all_bounded_later(procs: Seq<Proc>, n: u64, m: u64)
    requires
        all_bounded(procs, n),
        n <= m,
    ensures
        all_bounded(procs, m),
{
    assert forall|k: int| 0 <= k < procs.len() implies proc_bounded(#[trigger] procs[k], m) by {
        lemma_proc_bounded_later(procs[k], n, m);
    }
}

impl<'i> IRBuilder<'i> {
    /// The invariant of a compilation unit: its procedures are well formed,
    /// and every type variable in them and in the scopes was taken from the
    /// counter of the unit, so that the next one is new.
    pub open spec fn wf(&self) -> bool {
        &&& well_formed(self@.procs)
        &&& all_bounded(self@.procs, self@.next_var)
        &&& scopes_below(self@.scopes, self@.next_var)
    }

    /// The procedures, for a backend to read.
    pub fn procs(&self) -> (r: &Vec<IRProc>)
        ensures
            r == &self.procs,
    {
        &self.procs
    }
}

} // verus!
