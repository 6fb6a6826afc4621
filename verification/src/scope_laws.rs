//! How the types of loads and stores follow the variables that the code
//! allocates.

use vstd::prelude::*;
use crate::astgen::Ast;
use crate::errors::Span;
use crate::ir::{at, typed, Code, Instr, Op, Unit};
use crate::lowering::{
    else_part, end_part, find_const, fresh, if_code, jump_unless_returned, known, labels,
    last_type, lower, lower_all, lower_proc, then_part, while_code,
};
use crate::scopes::{bind_all, declare, lemma_declare, lookup, Bindings};
use crate::types::Type;

verus! {

/// The scopes after the code has run: each `Allocate` binds its variable to
/// its type in the innermost scope.
pub open spec fn scopes_after(scopes: Seq<Bindings>, code: Code) -> Seq<Bindings>
    decreases code.len(),
{
    if code.len() == 0 {
        scopes
    } else {
        let before = scopes_after(scopes, code.drop_last());
        match code.last().contents.ins {
            Op::Allocate(v) => declare(before, v, code.last().contents.typ),
            _ => before,
        }
    }
}

/// The instruction is a `Load` or a `Store` of `v`.
pub open spec fn uses(ins: Op, v: Seq<char>) -> bool {
    ins == Op::Load(v) || ins == Op::Store(v)
}

/// The variable of a `Load` or a `Store`.
pub open spec fn used(ins: Op) -> Option<Seq<char>> {
    match ins {
        Op::Load(v) => Some(v),
        Op::Store(v) => Some(v),
        _ => None,
    }
}

/// A type that an instruction may carry for a variable bound to `bound`:
/// the type of the binding, unless that is elided.
pub open spec fn carries(bound: Option<Type>, typ: Type) -> bool {
    bound matches Some(t) && (t != Type::Unknown ==> typ == t)
}

/// Every `Load` and `Store` of the code carries the type that its variable
/// has where it stands.
pub open spec fn well_scoped(scopes: Seq<Bindings>, code: Code) -> bool {
    forall|i: int|
        0 <= i < code.len() ==> match used((#[trigger] code[i]).contents.ins) {
            Some(v) => carries(lookup(scopes_after(scopes, code.take(i)), v), code[i].contents.typ),
            None => true,
        }
}

/// The code takes the scopes from `before` to `after`, and its loads and
/// stores carry the types of their variables.
pub open spec fn scoped(before: Seq<Bindings>, code: Code, after: Seq<Bindings>) -> bool {
    after == scopes_after(before, code) && well_scoped(before, code)
}

/// Running two pieces in a row is running the second after the first.
pub proof fn lemma_scopes_after_concat(scopes: Seq<Bindings>, a: Code, b: Code)
    ensures
        scopes_after(scopes, a + b) == scopes_after(scopes_after(scopes, a), b),
    decreases b.len(),
{
    if b.len() == 0 {
        assert(a + b =~= a);
    } else {
        assert((a + b).drop_last() =~= a + b.drop_last());
        assert((a + b).last() == b.last());
        lemma_scopes_after_concat(scopes, a, b.drop_last());
    }
}

/// Two scoped pieces in a row are scoped.
pub proof fn lemma_scoped_concat(
    s0: Seq<Bindings>,
    a: Code,
    s1: Seq<Bindings>,
    b: Code,
    s2: Seq<Bindings>,
)
    requires
        scoped(s0, a, s1),
        scoped(s1, b, s2),
    ensures
        scoped(s0, a + b, s2),
{
    lemma_scopes_after_concat(s0, a, b);
    let whole = a + b;
    assert forall|i: int| 0 <= i < whole.len() implies match used(
        (#[trigger] whole[i]).contents.ins,
    ) {
        Some(v) => carries(lookup(scopes_after(s0, whole.take(i)), v), whole[i].contents.typ),
        None => true,
    } by {
        if i < a.len() {
            assert(whole[i] == a[i]);
            assert(whole.take(i) =~= a.take(i));
        } else {
            let j = i - a.len();
            assert(whole[i] == b[j]);
            assert(whole.take(i) =~= a + b.take(j));
            lemma_scopes_after_concat(s0, a, b.take(j));
        }
    }
}

/// No instruction of the code is an `Allocate`, a `Load` or a `Store`.
pub open spec fn inert(code: Code) -> bool {
    forall|i: int|
        0 <= i < code.len() ==> !((#[trigger] code[i]).contents.ins is Allocate) && !(
        code[i].contents.ins is Load) && !(code[i].contents.ins is Store)
}

/// Inert code leaves the scopes alone.
pub proof fn lemma_inert(scopes: Seq<Bindings>, code: Code)
    requires
        inert(code),
    ensures
        scoped(scopes, code, scopes),
    decreases code.len(),
{
    if code.len() > 0 {
        assert forall|i: int| 0 <= i < code.drop_last().len() implies !((
        #[trigger] code.drop_last()[i]).contents.ins is Allocate) && !(
        code.drop_last()[i].contents.ins is Load) && !(code.drop_last()[i].contents.ins is Store) by {
            assert(code.drop_last()[i] == code[i]);
        }
        lemma_inert(scopes, code.drop_last());
    }
}

/// Scoped code followed by an inert instruction is scoped.
pub proof fn lemma_scoped_push(s0: Seq<Bindings>, a: Code, s1: Seq<Bindings>, last: Span<Instr>)
    requires
        scoped(s0, a, s1),
        !(last.contents.ins is Allocate),
        !(last.contents.ins is Load),
        !(last.contents.ins is Store),
    ensures
        scoped(s0, a.push(last), s1),
{
    assert(inert(seq![last]));
    lemma_inert(s1, seq![last]);
    lemma_scoped_concat(s0, a, s1, seq![last], s1);
    assert(a.push(last) =~= a + seq![last]);
}

/// Scoped code followed by a `Load` or a `Store` that carries the type of
/// its variable is scoped.
pub proof fn lemma_scoped_use(s0: Seq<Bindings>, a: Code, s1: Seq<Bindings>, last: Span<Instr>)
    requires
        scoped(s0, a, s1),
        used(last.contents.ins) matches Some(v) && carries(lookup(s1, v), last.contents.typ),
    ensures
        scoped(s0, a.push(last), s1),
{
    let one = seq![last];
    reveal_with_fuel(scopes_after, 2);
    assert(one.drop_last() =~= Seq::<Span<Instr>>::empty());
    assert(scopes_after(s1, one) == s1);
    assert forall|i: int| 0 <= i < one.len() implies match used((#[trigger] one[i]).contents.ins) {
        Some(v) => carries(lookup(scopes_after(s1, one.take(i)), v), one[i].contents.typ),
        None => true,
    } by {
        assert(one.take(0) =~= Seq::<Span<Instr>>::empty());
    }
    lemma_scoped_concat(s0, a, s1, one, s1);
    assert(a.push(last) =~= a + one);
}

/// Scoped code followed by an `Allocate` is scoped, and binds the
/// variable.
pub proof fn lemma_scoped_allocate(
    s0: Seq<Bindings>,
    a: Code,
    s1: Seq<Bindings>,
    last: Span<Instr>,
    v: Seq<char>,
)
    requires
        scoped(s0, a, s1),
        last.contents.ins == Op::Allocate(v),
    ensures
        scoped(s0, a.push(last), declare(s1, v, last.contents.typ)),
{
    let one = seq![last];
    reveal_with_fuel(scopes_after, 2);
    assert(one.drop_last() =~= Seq::<Span<Instr>>::empty());
    assert(scopes_after(s1, one) == declare(s1, v, last.contents.typ));
    assert(well_scoped(s1, one));
    lemma_scoped_concat(s0, a, s1, one, declare(s1, v, last.contents.typ));
    assert(a.push(last) =~= a + one);
}

/// The code of an `if` is scoped if the codes of its parts are.
pub proof fn lemma_if_scoped(
    s0: Seq<Bindings>,
    cc: Code,
    s1: Seq<Bindings>,
    bc: Code,
    s2: Seq<Bindings>,
    ec: Code,
    s3: Seq<Bindings>,
    first: u64,
    pos: usize,
    len: usize,
)
    requires
        scoped(s0, cc, s1),
        scoped(s1, bc, s2),
        scoped(s2, ec, s3),
    ensures
        scoped(s0, if_code(cc, bc, ec, first, pos, len), s3),
{
    let head2 = seq![
        at(Op::Branch(first, (first + 1) as u64), Type::NoReturn, pos, len),
        at(Op::Label(first), Type::Undefined, pos, len),
    ];
    let jump2 = jump_unless_returned(bc, (first + 2) as u64, pos, len);
    let head3 = seq![at(Op::Label((first + 1) as u64), Type::Undefined, pos, len)];
    let jump3 = jump_unless_returned(ec, (first + 2) as u64, pos, len);
    let p4 = end_part(bc, ec, first, pos, len);
    lemma_inert(s1, head2);
    lemma_inert(s2, jump2);
    lemma_inert(s2, head3);
    lemma_inert(s3, jump3);
    lemma_inert(s3, p4);
    lemma_scoped_concat(s1, head2, s1, bc, s2);
    lemma_scoped_concat(s1, head2 + bc, s2, jump2, s2);
    lemma_scoped_concat(s2, head3, s2, ec, s3);
    lemma_scoped_concat(s2, head3 + ec, s3, jump3, s3);
    let p2 = then_part(bc, first, pos, len);
    let p3 = else_part(ec, first, pos, len);
    lemma_scoped_concat(s0, cc, s1, p2, s2);
    lemma_scoped_concat(s0, cc + p2, s2, p3, s3);
    lemma_scoped_concat(s0, cc + p2 + p3, s3, p4, s3);
}

/// The code of a `while` is scoped if the codes of its parts are.
pub proof fn lemma_while_scoped(
    s0: Seq<Bindings>,
    cc: Code,
    s1: Seq<Bindings>,
    bc: Code,
    s2: Seq<Bindings>,
    first: u64,
    pos: usize,
    len: usize,
)
    requires
        scoped(s0, cc, s1),
        scoped(s1, bc, s2),
    ensures
        scoped(s0, while_code(cc, bc, first, pos, len), s2),
{
    let p1 = seq![
        at(Op::Jump(first), Type::Undefined, pos, len),
        at(Op::Label(first), Type::Undefined, pos, len),
    ];
    let p3 = seq![
        at(Op::Branch((first + 1) as u64, (first + 2) as u64), Type::NoReturn, pos, len),
        at(Op::Label((first + 1) as u64), Type::Undefined, pos, len),
    ];
    let p5 = jump_unless_returned(bc, first, pos, len);
    let p6 = seq![at(Op::Label((first + 2) as u64), Type::Undefined, pos, len)];
    lemma_inert(s0, p1);
    lemma_inert(s1, p3);
    lemma_inert(s2, p5);
    lemma_inert(s2, p6);
    lemma_scoped_concat(s0, p1, s0, cc, s1);
    lemma_scoped_concat(s0, p1 + cc, s1, p3, s1);
    lemma_scoped_concat(s0, p1 + cc + p3, s1, bc, s2);
    lemma_scoped_concat(s0, p1 + cc + p3 + bc, s2, p5, s2);
    lemma_scoped_concat(s0, p1 + cc + p3 + bc + p5, s2, p6, s2);
}

/// Lowered code is scoped: it takes the scopes of the unit before it to
/// those of the unit after it.
pub proof fn lemma_lower_scoped(unit: Unit, node: Span<Ast>, depth: nat)
    ensures
        match lower(unit, node, depth) {
            Ok((code, after)) => scoped(unit.scopes, code, after.scopes),
            Err(_) => true,
        },
    decreases depth, node, 1nat,
{
    let pos = node.pos;
    let len = node.len;
    let none = Seq::<Span<Instr>>::empty();
    let s = unit.scopes;
    assert(scoped(s, none, s));
    match node.contents {
        Ast::Literal { typ, value } => {
            match known(unit, typ, pos, len) {
                Ok((t, u)) => {
                    lemma_scoped_push(s, none, s, at(Op::Push(value), t, pos, len));
                    assert(none.push(at(Op::Push(value), t, pos, len)) =~= seq![
                        at(Op::Push(value), t, pos, len),
                    ]);
                },
                Err(_) => {},
            }
        },
        Ast::Call { name, args } => {
            match crate::inference::find_proc(unit.procs, name) {
                Some(k) => {
                    lemma_lower_all_scoped(unit, args, 0, depth);
                    match lower_all(unit, args, 0, depth) {
                        Ok((code, u1)) => {
                            match known(u1, unit.procs[k].ret_type, pos, len) {
                                Ok((t, u2)) => {
                                    lemma_scoped_push(
                                        s,
                                        code,
                                        u1.scopes,
                                        at(Op::Call(name), t, pos, len),
                                    );
                                },
                                Err(_) => {},
                            }
                        },
                        Err(_) => {},
                    }
                },
                None => {},
            }
        },
        Ast::InfixOp { op, left, right } => {
            lemma_lower_scoped(unit, *left, depth);
            match lower(unit, *left, depth) {
                Ok((c1, u1)) => {
                    lemma_lower_scoped(u1, *right, depth);
                    match lower(u1, *right, depth) {
                        Ok((c2, u2)) => {
                            lemma_scoped_concat(s, c1, u1.scopes, c2, u2.scopes);
                            match crate::lowering::infix_op(op) {
                                Some(o) => {
                                    match fresh(u2, pos, len) {
                                        Ok((t, u3)) => {
                                            lemma_scoped_push(
                                                s,
                                                c1 + c2,
                                                u2.scopes,
                                                at(o, t, pos, len),
                                            );
                                        },
                                        Err(_) => {},
                                    }
                                },
                                None => {},
                            }
                        },
                        Err(_) => {},
                    }
                },
                Err(_) => {},
            }
        },
        Ast::PrefixOp { op, right } => {
            lemma_lower_scoped(unit, *right, depth);
            match lower(unit, *right, depth) {
                Ok((c1, u1)) => {
                    match crate::lowering::prefix_op(op) {
                        Some(o) => {
                            match fresh(u1, pos, len) {
                                Ok((t, u2)) => {
                                    lemma_scoped_push(s, c1, u1.scopes, at(o, t, pos, len));
                                },
                                Err(_) => {},
                            }
                        },
                        None => {},
                    }
                },
                Err(_) => {},
            }
        },
        Ast::VariableRef { name } => {
            match find_const(unit.consts, name) {
                Some(value) => {
                    if depth > 0 {
                        lemma_lower_scoped(unit, value, (depth - 1) as nat);
                    }
                },
                None => {
                    match lookup(unit.scopes, name) {
                        Some(typ) => {
                            match known(unit, typ, pos, len) {
                                Ok((t, u)) => {
                                    lemma_scoped_use(s, none, s, at(Op::Load(name), t, pos, len));
                                    assert(none.push(at(Op::Load(name), t, pos, len)) =~= seq![
                                        at(Op::Load(name), t, pos, len),
                                    ]);
                                },
                                Err(_) => {},
                            }
                        },
                        None => {},
                    }
                },
            }
        },
        Ast::IfStatement { condition, body, else_body } => {
            match labels(unit, pos, len) {
                Ok((first, u0)) => {
                    lemma_lower_scoped(u0, *condition, depth);
                    match lower(u0, *condition, depth) {
                        Ok((cc, u1)) => {
                            lemma_lower_scoped(u1, *body, depth);
                            match lower(u1, *body, depth) {
                                Ok((bc, u2)) => {
                                    lemma_lower_scoped(u2, *else_body, depth);
                                    match lower(u2, *else_body, depth) {
                                        Ok((ec, u3)) => {
                                            lemma_if_scoped(
                                                s,
                                                cc,
                                                u1.scopes,
                                                bc,
                                                u2.scopes,
                                                ec,
                                                u3.scopes,
                                                first,
                                                pos,
                                                len,
                                            );
                                        },
                                        Err(_) => {},
                                    }
                                },
                                Err(_) => {},
                            }
                        },
                        Err(_) => {},
                    }
                },
                Err(_) => {},
            }
        },
        Ast::WhileStatement { condition, body } => {
            match labels(unit, pos, len) {
                Ok((first, u0)) => {
                    lemma_lower_scoped(u0, *condition, depth);
                    match lower(u0, *condition, depth) {
                        Ok((cc, u1)) => {
                            lemma_lower_scoped(u1, *body, depth);
                            match lower(u1, *body, depth) {
                                Ok((bc, u2)) => {
                                    lemma_while_scoped(
                                        s,
                                        cc,
                                        u1.scopes,
                                        bc,
                                        u2.scopes,
                                        first,
                                        pos,
                                        len,
                                    );
                                },
                                Err(_) => {},
                            }
                        },
                        Err(_) => {},
                    }
                },
                Err(_) => {},
            }
        },
        Ast::Block { nodes } => {
            lemma_lower_all_scoped(unit, nodes, 0, depth);
        },
        Ast::VarStatement { name, typ, value } => {
            match known(unit, typ, pos, len) {
                Ok((t, u0)) => {
                    lemma_lower_scoped(u0, *value, depth);
                    match lower(u0, *value, depth) {
                        Ok((code, u1)) => {
                            lemma_scoped_allocate(
                                s,
                                code,
                                u1.scopes,
                                at(Op::Allocate(name), t, pos, len),
                                name,
                            );
                        },
                        Err(_) => {},
                    }
                },
                Err(_) => {},
            }
        },
        Ast::AssignStatement { name, value } => {
            lemma_lower_scoped(unit, *value, depth);
            match lower(unit, *value, depth) {
                Ok((code, u1)) => {
                    match lookup(u1.scopes, name) {
                        Some(typ) => {
                            match known(u1, typ, pos, len) {
                                Ok((t, u2)) => {
                                    lemma_scoped_use(
                                        s,
                                        code,
                                        u1.scopes,
                                        at(Op::Store(name), t, pos, len),
                                    );
                                },
                                Err(_) => {},
                            }
                        },
                        None => {},
                    }
                },
                Err(_) => {},
            }
        },
        Ast::ReturnStatement { val } => {
            lemma_lower_scoped(unit, *val, depth);
            match lower(unit, *val, depth) {
                Ok((code, u1)) => {
                    lemma_scoped_push(
                        s,
                        code,
                        u1.scopes,
                        at(Op::Return, last_type(code), pos, len),
                    );
                },
                Err(_) => {},
            }
        },
        _ => {},
    }
}

/// The code of a lowered list is scoped.
pub proof fn lemma_lower_all_scoped(unit: Unit, nodes: Seq<Span<Ast>>, k: int, depth: nat)
    ensures
        match lower_all(unit, nodes, k, depth) {
            Ok((code, after)) => scoped(unit.scopes, code, after.scopes),
            Err(_) => true,
        },
    decreases depth, nodes, nodes.len() - k,
{
    let none = Seq::<Span<Instr>>::empty();
    assert(scoped(unit.scopes, none, unit.scopes));
    if !(k < 0 || k >= nodes.len()) {
        lemma_lower_scoped(unit, nodes[k], depth);
        match lower(unit, nodes[k], depth) {
            Ok((first, u1)) => {
                lemma_lower_all_scoped(u1, nodes, k + 1, depth);
                match lower_all(u1, nodes, k + 1, depth) {
                    Ok((rest, u2)) => {
                        lemma_scoped_concat(unit.scopes, first, u1.scopes, rest, u2.scopes);
                    },
                    Err(_) => {},
                }
            },
            Err(_) => {},
        }
    }
}

/// The body of a lowered procedure is scoped, starting from the scopes of
/// the unit and a scope with the parameters.
pub proof fn lemma_lower_proc_scoped(unit: Unit, node: Span<Ast>, depth: nat)
    ensures
        match (lower_proc(unit, node, depth), node.contents) {
            (Ok((p, after)), Ast::ProcStatement { args, arg_types, .. }) => scoped(
                unit.scopes.push(bind_all(args, arg_types)),
                p.body,
                after.scopes,
            ),
            (Ok(_), _) => false,
            _ => true,
        },
{
    match node.contents {
        Ast::ProcStatement { name, args, arg_types, ret_type, body } => {
            match body.contents {
                Ast::Block { nodes } => {
                    let inner = Unit { scopes: unit.scopes.push(bind_all(args, arg_types)), ..unit };
                    lemma_lower_all_scoped(inner, nodes, 0, depth);
                    match lower_all(inner, nodes, 0, depth) {
                        Ok((code, u1)) => {
                            let tail = seq![
                                at(Op::Push("undefined"@), Type::Undefined, node.pos, node.len),
                                at(Op::Return, Type::Undefined, node.pos, node.len),
                            ];
                            lemma_inert(u1.scopes, tail);
                            lemma_scoped_concat(inner.scopes, code, u1.scopes, tail, u1.scopes);
                        },
                        Err(_) => {},
                    }
                },
                _ => {},
            }
        },
        _ => {},
    }
}

/// After an `Allocate` of `v`, and until the next one, the scopes bind `v`
/// to the type of that `Allocate`.
pub proof fn lemma_bound_by_allocate(
    scopes: Seq<Bindings>,
    code: Code,
    i: int,
    j: int,
    v: Seq<char>,
)
    requires
        0 <= i < j <= code.len(),
        code[i].contents.ins == Op::Allocate(v),
        forall|k: int| i < k < j ==> (#[trigger] code[k]).contents.ins != Op::Allocate(v),
    ensures
        lookup(scopes_after(scopes, code.take(j)), v) == Some(code[i].contents.typ),
    decreases j - i,
{
    let upto = code.take(j);
    assert(upto.drop_last() =~= code.take(j - 1));
    assert(upto.last() == code[j - 1]);
    let before = scopes_after(scopes, code.take(j - 1));
    if j == i + 1 {
        lemma_declare(before, v, code[i].contents.typ, v);
    } else {
        lemma_bound_by_allocate(scopes, code, i, j - 1, v);
        match code[j - 1].contents.ins {
            Op::Allocate(w) => {
                lemma_declare(before, w, code[j - 1].contents.typ, v);
            },
            _ => {},
        }
    }
}

/// In scoped code without elided types, a `Load` or a `Store` of a variable
/// carries the type of the last `Allocate` of that variable before it.
pub proof fn lemma_use_follows_allocate(
    scopes: Seq<Bindings>,
    code: Code,
    i: int,
    j: int,
    v: Seq<char>,
)
    requires
        well_scoped(scopes, code),
        typed(code),
        0 <= i < j < code.len(),
        code[i].contents.ins == Op::Allocate(v),
        uses(code[j].contents.ins, v),
        forall|k: int| i < k < j ==> (#[trigger] code[k]).contents.ins != Op::Allocate(v),
    ensures
        code[j].contents.typ == code[i].contents.typ,
{
    lemma_bound_by_allocate(scopes, code, i, j, v);
    assert(used(code[j].contents.ins) == Some(v));
}

} // verus!
