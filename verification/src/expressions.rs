//! Expressions: operands, calls and operators by binding power.

use vstd::prelude::*;
use crate::astgen::{nodes_view, span_view, spanned, Ast, Node};
use crate::errors::{Logger, Span};
use crate::grammar::{after, call_args, expr, expr_tail, primary, remaining, Parsed};
use crate::lexer::Token;
use crate::parser::{
    infix_binding_power, node_of, nodes_of, parsed, postfix_binding_power, prefix_binding_power,
    Parser,
};
use crate::types::Type;

verus! {

impl<'p> Parser<'p> {
    /// Reads the first operand of an expression.
    pub(crate) fn primary(&mut self, log: &mut Logger) -> (r: Option<Span<Node>>)
        requires
            old(self).wf(),
        ensures
            final(self).wf(),
            final(self).stream() == old(self).stream(),
            parsed(
                primary(old(self).stream(), old(self).position()),
                node_of(r),
                old(self).position(),
                final(self).position(),
                old(log)@,
                final(log)@,
            ),
        decreases remaining(old(self).stream(), old(self).position()), 1nat,
    {
        reveal(primary);
        reveal(call_args);
        reveal(expr);
        let t = self.next();
        match t.contents {
            Token::Ident(name) => {
                if self.at(Token::LParen) {
                    self.next();
                    match self.call_args(log) {
                        Some(args) => Some(spanned(Node::Call { name, args }, t.pos, t.len)),
                        None => None,
                    }
                } else {
                    Some(spanned(Node::VariableRef { name }, t.pos, t.len))
                }
            },
            Token::IntLiteral(value) => Some(
                spanned(Node::Literal { typ: Type::IntLiteral, value }, t.pos, t.len),
            ),
            Token::FloatLiteral(value) => Some(
                spanned(Node::Literal { typ: Type::FloatLiteral, value }, t.pos, t.len),
            ),
            Token::StrLiteral(value) => Some(
                spanned(Node::Literal { typ: Type::StrLiteral, value }, t.pos, t.len),
            ),
            Token::LParen => {
                match self.expr(0, log) {
                    Some(inner) => match self.ensure_next(Token::RParen, log) {
                        Some(_) => Some(inner),
                        None => None,
                    },
                    None => None,
                }
            },
            Token::Op(op) => {
                match prefix_binding_power(&op) {
                    Some(((), right_bp)) => match self.expr(right_bp, log) {
                        Some(right) => Some(
                            spanned(Node::PrefixOp { op, right: Box::new(right) }, t.pos, t.len),
                        ),
                        None => None,
                    },
                    None => {
                        log.syntax_error("Unexpected token", t.pos, t.len);
                        None
                    },
                }
            },
            Token::EOF => {
                log.syntax_error("Encountered the end of the file while parsing", t.pos, t.len);
                None
            },
            _ => {
                log.syntax_error("Unexpected token", t.pos, t.len);
                None
            },
        }
    }

    /// Reads the arguments of a call and the `)` after them.
    pub(crate) fn call_args(&mut self, log: &mut Logger) -> (r: Option<Vec<Span<Node>>>)
        requires
            old(self).wf(),
        ensures
            final(self).wf(),
            final(self).stream() == old(self).stream(),
            parsed(
                call_args(old(self).stream(), old(self).position(), Seq::empty()),
                nodes_of(r),
                old(self).position(),
                final(self).position(),
                old(log)@,
                final(log)@,
            ),
        decreases remaining(old(self).stream(), old(self).position()), 4nat,
    {
        reveal(call_args);
        reveal(expr);
        let mut args: Vec<Span<Node>> = Vec::new();
        let ghost start = self.position();
        let ghost toks = self.stream();
        assert(nodes_view(args@) =~= Seq::empty());
        loop
            invariant
                self.wf(),
                self.stream() == toks,
                toks == old(self).stream(),
                start == old(self).position(),
                log@ == old(log)@,
                self.position() >= start,
                call_args(toks, start, Seq::empty()) == after(
                    (self.position() - start) as nat,
                    call_args(toks, self.position(), nodes_view(args@)),
                ),
            decreases remaining(toks, self.position()),
        {
            reveal(call_args);
            reveal(expr);
            if self.at(Token::RParen) {
                self.next();
                return Some(args);
            }
            match self.expr(0, log) {
                None => {
                    return None;
                },
                Some(arg) => {
                    let ghost before = nodes_view(args@);
                    args.push(arg);
                    assert(nodes_view(args@) =~= before.push(span_view(arg)));
                    if self.at(Token::Comma) {
                        self.next();
                    } else {
                        match self.ensure_next(Token::RParen, log) {
                            Some(_) => {
                                return Some(args);
                            },
                            None => {
                                return None;
                            },
                        }
                    }
                },
            }
        }
    }

    /// Reads an expression whose operators all bind at least as tightly as
    /// `min_bp`.
    pub(crate) fn expr(&mut self, min_bp: u8, log: &mut Logger) -> (r: Option<Span<Node>>)
        requires
            old(self).wf(),
        ensures
            final(self).wf(),
            final(self).stream() == old(self).stream(),
            parsed(
                expr(old(self).stream(), old(self).position(), min_bp as nat),
                node_of(r),
                old(self).position(),
                final(self).position(),
                old(log)@,
                final(log)@,
            ),
        decreases remaining(old(self).stream(), old(self).position()), 3nat,
    {
        reveal(expr);
        reveal(primary);
        reveal(expr_tail);
        let mut left = match self.primary(log) {
            Some(n) => n,
            None => {
                return None;
            },
        };
        let ghost start = self.position();
        let ghost first = span_view(left);
        let ghost toks = self.stream();
        loop
            invariant
                self.wf(),
                self.stream() == toks,
                toks == old(self).stream(),
                log@ == old(log)@,
                self.position() >= start,
                start >= old(self).position(),
                primary(toks, old(self).position()) == Parsed::<Span<Ast>>::Ok(
                    (first, (start - old(self).position()) as nat),
                ),
                expr_tail(toks, start, first, min_bp as nat) == after(
                    (self.position() - start) as nat,
                    expr_tail(toks, self.position(), span_view(left), min_bp as nat),
                ),
            decreases remaining(toks, self.position()),
        {
            reveal(expr);
            reveal(primary);
            reveal(expr_tail);
            let t = self.peek();
            match t.contents {
                Token::EOF
                | Token::Newline
                | Token::RParen
                | Token::RBracket
                | Token::Comma
                | Token::LBrace
                | Token::RBrace
                | Token::Equals => {
                    return Some(left);
                },
                Token::LBracket => {
                    match postfix_binding_power(&String::from_str("[")) {
                        None => {
                            return Some(left);
                        },
                        Some((left_bp, ())) => {
                            if left_bp < min_bp {
                                return Some(left);
                            }
                            self.next();
                            let index = match self.expr(0, log) {
                                Some(n) => n,
                                None => {
                                    return None;
                                },
                            };
                            match self.ensure_next(Token::RBracket, log) {
                                Some(_) => {},
                                None => {
                                    return None;
                                },
                            }
                            left =
                            spanned(
                                Node::IndexOp { object: Box::new(left), index: Box::new(index) },
                                0,
                                0,
                            );
                        },
                    }
                },
                Token::Op(op) => {
                    match infix_binding_power(&op) {
                        None => {
                            return Some(left);
                        },
                        Some((left_bp, right_bp)) => {
                            if left_bp < min_bp {
                                return Some(left);
                            }
                            self.next();
                            let right = match self.expr(right_bp, log) {
                                Some(n) => n,
                                None => {
                                    return None;
                                },
                            };
                            left =
                            spanned(
                                Node::InfixOp { op, left: Box::new(left), right: Box::new(right) },
                                0,
                                0,
                            );
                        },
                    }
                },
                _ => {
                    log.syntax_error("Unexpected token", t.pos, t.len);
                    return None;
                },
            }
        }
    }
}

} // verus!
