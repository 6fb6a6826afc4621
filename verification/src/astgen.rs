//! The syntax tree.

use vstd::prelude::*;
use crate::errors::Span;
use crate::types::Type;

verus! {

/// A node of the syntax tree. Children carry their own positions.
#[derive(Debug)]
#[allow(inconsistent_fields)]
pub enum Node {
    Literal { typ: Type, value: String },
    Call { name: String, args: Vec<Span<Node>> },
    InfixOp { op: String, left: Box<Span<Node>>, right: Box<Span<Node>> },
    PrefixOp { op: String, right: Box<Span<Node>> },
    PostfixOp { op: String, left: Box<Span<Node>> },
    IndexOp { object: Box<Span<Node>>, index: Box<Span<Node>> },
    VariableRef { name: String },
    IfStatement { condition: Box<Span<Node>>, body: Box<Span<Node>>, else_body: Box<Span<Node>> },
    WhileStatement { condition: Box<Span<Node>>, body: Box<Span<Node>> },
    Block { nodes: Vec<Span<Node>> },
    VarStatement { name: String, typ: Type, value: Box<Span<Node>> },
    ConstStatement { name: String, typ: Type, value: Box<Span<Node>> },
    AssignStatement { name: String, value: Box<Span<Node>> },
    IndexedAssignStatement { name: String, index: Box<Span<Node>>, value: Box<Span<Node>> },
    ProcStatement {
        name: String,
        args: Vec<String>,
        arg_types: Vec<Type>,
        ret_type: Type,
        body: Box<Span<Node>>,
    },
    ReturnStatement { val: Box<Span<Node>> },
    UseStatement { path: String },
}

/// A [`Node`] as a mathematical value: texts are sequences of characters and
/// lists are sequences.
#[allow(inconsistent_fields)]
pub enum Ast {
    Literal { typ: Type, value: Seq<char> },
    Call { name: Seq<char>, args: Seq<Span<Ast>> },
    InfixOp { op: Seq<char>, left: Box<Span<Ast>>, right: Box<Span<Ast>> },
    PrefixOp { op: Seq<char>, right: Box<Span<Ast>> },
    PostfixOp { op: Seq<char>, left: Box<Span<Ast>> },
    IndexOp { object: Box<Span<Ast>>, index: Box<Span<Ast>> },
    VariableRef { name: Seq<char> },
    IfStatement { condition: Box<Span<Ast>>, body: Box<Span<Ast>>, else_body: Box<Span<Ast>> },
    WhileStatement { condition: Box<Span<Ast>>, body: Box<Span<Ast>> },
    Block { nodes: Seq<Span<Ast>> },
    VarStatement { name: Seq<char>, typ: Type, value: Box<Span<Ast>> },
    ConstStatement { name: Seq<char>, typ: Type, value: Box<Span<Ast>> },
    AssignStatement { name: Seq<char>, value: Box<Span<Ast>> },
    IndexedAssignStatement { name: Seq<char>, index: Box<Span<Ast>>, value: Box<Span<Ast>> },
    ProcStatement {
        name: Seq<char>,
        args: Seq<Seq<char>>,
        arg_types: Seq<Type>,
        ret_type: Type,
        body: Box<Span<Ast>>,
    },
    ReturnStatement { val: Box<Span<Ast>> },
    UseStatement { path: Seq<char> },
}

/// The views of a list of texts.
pub open spec fn texts_view(texts: Seq<String>) -> Seq<Seq<char>> {
    Seq::new(texts.len(), |i: int| texts[i]@)
}

/// The view of a spanned node.
pub open spec fn span_view(n: Span<Node>) -> Span<Ast>
    decreases n,
{
    Span { contents: node_view(n.contents), pos: n.pos, len: n.len }
}

/// The views of a list of spanned nodes.
pub open spec fn nodes_view(nodes: Seq<Span<Node>>) -> Seq<Span<Ast>>
    decreases nodes,
{
    Seq::new(
        nodes.len(),
        |i: int|
            if 0 <= i < nodes.len() {
                span_view(nodes[i])
            } else {
                arbitrary()
            },
    )
}

/// The view of a node.
pub open spec fn node_view(n: Node) -> Ast
    decreases n,
{
    match n {
        Node::Literal { typ, value } => Ast::Literal { typ, value: value@ },
        Node::Call { name, args } => Ast::Call { name: name@, args: nodes_view(args@) },
        Node::InfixOp { op, left, right } => Ast::InfixOp {
            op: op@,
            left: Box::new(span_view(*left)),
            right: Box::new(span_view(*right)),
        },
        Node::PrefixOp { op, right } => Ast::PrefixOp {
            op: op@,
            right: Box::new(span_view(*right)),
        },
        Node::PostfixOp { op, left } => Ast::PostfixOp { op: op@, left: Box::new(span_view(*left)) },
        Node::IndexOp { object, index } => Ast::IndexOp {
            object: Box::new(span_view(*object)),
            index: Box::new(span_view(*index)),
        },
        Node::VariableRef { name } => Ast::VariableRef { name: name@ },
        Node::IfStatement { condition, body, else_body } => Ast::IfStatement {
            condition: Box::new(span_view(*condition)),
            body: Box::new(span_view(*body)),
            else_body: Box::new(span_view(*else_body)),
        },
        Node::WhileStatement { condition, body } => Ast::WhileStatement {
            condition: Box::new(span_view(*condition)),
            body: Box::new(span_view(*body)),
        },
        Node::Block { nodes } => Ast::Block { nodes: nodes_view(nodes@) },
        Node::VarStatement { name, typ, value } => Ast::VarStatement {
            name: name@,
            typ,
            value: Box::new(span_view(*value)),
        },
        Node::ConstStatement { name, typ, value } => Ast::ConstStatement {
            name: name@,
            typ,
            value: Box::new(span_view(*value)),
        },
        Node::AssignStatement { name, value } => Ast::AssignStatement {
            name: name@,
            value: Box::new(span_view(*value)),
        },
        Node::IndexedAssignStatement { name, index, value } => Ast::IndexedAssignStatement {
            name: name@,
            index: Box::new(span_view(*index)),
            value: Box::new(span_view(*value)),
        },
        Node::ProcStatement { name, args, arg_types, ret_type, body } => Ast::ProcStatement {
            name: name@,
            args: texts_view(args@),
            arg_types: arg_types@,
            ret_type,
            body: Box::new(span_view(*body)),
        },
        Node::ReturnStatement { val } => Ast::ReturnStatement { val: Box::new(span_view(*val)) },
        Node::UseStatement { path } => Ast::UseStatement { path: path@ },
    }
}

impl View for Node {
    type V = Ast;

    open spec fn view(&self) -> Ast {
        node_view(*self)
    }
}

/// Puts a node at a position.
pub fn spanned(node: Node, pos: usize, len: usize) -> (r: Span<Node>)
    ensures
        r == (Span { contents: node, pos, len }),
        r@ == span_view(r),
{
    Span { contents: node, pos, len }
}

} // verus!
