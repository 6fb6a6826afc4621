//! Statements, blocks and modules.

use vstd::prelude::*;
use crate::astgen::{node_view, nodes_view, span_view, spanned, texts_view, Node};
use crate::errors::{Logger, Span};
use crate::grammar::{
    after, annotation, assign_rest, assignment, block, block_items, const_rest, expr,
    expr_statement, if_rest, keyword, kind_at, loop_rest, params, parse, proc_rest, program,
    remaining, return_rest, statement, top_level, undefined_literal, use_path, use_rest,
    var_rest, while_rest,
};
use crate::lexer::{Tok, Token};
use crate::parser::{node_of, nodes_of, parsed, text_of, Parser};
use crate::types::Type;

verus! {

impl<'p> Parser<'p> {
    /// Reads a block.
    fn block(&mut self, log: &mut Logger) -> (r: Option<Span<Node>>)
        requires
            old(self).wf(),
        ensures
            final(self).wf(),
            final(self).stream() == old(self).stream(),
            parsed(
                block(old(self).stream(), old(self).position()),
                node_of(r),
                old(self).position(),
                final(self).position(),
                old(log)@,
                final(log)@,
            ),
        decreases remaining(old(self).stream(), old(self).position()), 5nat,
    {
        reveal(block);
        reveal(block_items);
        match self.ensure_next(Token::LBrace, log) {
            Some(_) => {},
            None => {
                return None;
            },
        }
        let mut nodes: Vec<Span<Node>> = Vec::new();
        let ghost start = self.position();
        let ghost toks = self.stream();
        assert(nodes_view(nodes@) =~= Seq::empty());
        loop
            invariant
                self.wf(),
                self.stream() == toks,
                toks == old(self).stream(),
                start == old(self).position() + 1,
                old(self).position() < toks.len(),
                kind_at(toks, old(self).position()) == Tok::LBrace,
                log@ == old(log)@,
                self.position() >= start,
                block_items(toks, start, Seq::empty()) == after(
                    (self.position() - start) as nat,
                    block_items(toks, self.position(), nodes_view(nodes@)),
                ),
            decreases remaining(toks, self.position()),
        {
            reveal(block);
            reveal(block_items);
            reveal(statement);
            let _ = self.try_next(Token::Newline);
            let s = match self.statement(log) {
                Some(s) => s,
                None => {
                    return None;
                },
            };
            let ghost before = nodes_view(nodes@);
            nodes.push(s);
            assert(nodes_view(nodes@) =~= before.push(span_view(s)));
            if self.try_next(Token::Newline).is_none() {
                match self.ensure_next(Token::RBrace, log) {
                    Some(_) => {
                        return Some(spanned(Node::Block { nodes }, 0, 0));
                    },
                    None => {
                        return None;
                    },
                }
            }
            if self.at(Token::RBrace) {
                self.next();
                return Some(spanned(Node::Block { nodes }, 0, 0));
            }
        }
    }

    /// Reads an `if` statement. With `ensure_if` it starts at the keyword
    /// `if`; without, at the condition.
    fn if_statement(&mut self, ensure_if: bool, log: &mut Logger) -> (r: Option<Span<Node>>)
        requires
            old(self).wf(),
        ensures
            final(self).wf(),
            final(self).stream() == old(self).stream(),
            parsed(
                if ensure_if {
                    keyword(
                        old(self).stream(),
                        old(self).position(),
                        Tok::If,
                        if_rest(old(self).stream(), old(self).position() + 1),
                    )
                } else {
                    if_rest(old(self).stream(), old(self).position())
                },
                node_of(r),
                old(self).position(),
                final(self).position(),
                old(log)@,
                final(log)@,
            ),
        decreases remaining(old(self).stream(), old(self).position()), 6nat,
    {
        reveal(if_rest);
        reveal(block);
        if ensure_if {
            match self.ensure_next(Token::If, log) {
                Some(_) => {},
                None => {
                    return None;
                },
            }
        }
        let condition = match self.expr(0, log) {
            Some(n) => n,
            None => {
                return None;
            },
        };
        let body = match self.block(log) {
            Some(n) => n,
            None => {
                return None;
            },
        };
        let else_body;
        if self.at(Token::Elif) {
            self.next();
            else_body =
            match self.if_statement(false, log) {
                Some(n) => n,
                None => {
                    return None;
                },
            };
        } else if self.at(Token::Else) {
            self.next();
            else_body =
            match self.block(log) {
                Some(n) => n,
                None => {
                    return None;
                },
            };
        } else {
            let mut nodes: Vec<Span<Node>> = Vec::new();
            nodes.push(undefined());
            else_body = spanned(Node::Block { nodes }, 0, 0);
            assert(nodes_view(nodes@) =~= seq![undefined_literal()]);
        }
        Some(
            spanned(
                Node::IfStatement {
                    condition: Box::new(condition),
                    body: Box::new(body),
                    else_body: Box::new(else_body),
                },
                0,
                0,
            ),
        )
    }

    /// Reads a `while` statement.
    fn while_statement(&mut self, log: &mut Logger) -> (r: Option<Span<Node>>)
        requires
            old(self).wf(),
        ensures
            final(self).wf(),
            final(self).stream() == old(self).stream(),
            parsed(
                keyword(
                    old(self).stream(),
                    old(self).position(),
                    Tok::While,
                    while_rest(old(self).stream(), old(self).position() + 1),
                ),
                node_of(r),
                old(self).position(),
                final(self).position(),
                old(log)@,
                final(log)@,
            ),
        decreases remaining(old(self).stream(), old(self).position()), 6nat,
    {
        reveal(while_rest);
        reveal(block);
        match self.ensure_next(Token::While, log) {
            Some(_) => {},
            None => {
                return None;
            },
        }
        let condition = match self.expr(0, log) {
            Some(n) => n,
            None => {
                return None;
            },
        };
        let body = match self.block(log) {
            Some(n) => n,
            None => {
                return None;
            },
        };
        Some(
            spanned(
                Node::WhileStatement { condition: Box::new(condition), body: Box::new(body) },
                0,
                0,
            ),
        )
    }

    /// Reads a `loop` statement: a `while` whose condition is the literal
    /// `true`.
    fn loop_statement(&mut self, log: &mut Logger) -> (r: Option<Span<Node>>)
        requires
            old(self).wf(),
        ensures
            final(self).wf(),
            final(self).stream() == old(self).stream(),
            parsed(
                keyword(
                    old(self).stream(),
                    old(self).position(),
                    Tok::Loop,
                    loop_rest(old(self).stream(), old(self).position() + 1),
                ),
                node_of(r),
                old(self).position(),
                final(self).position(),
                old(log)@,
                final(log)@,
            ),
        decreases remaining(old(self).stream(), old(self).position()), 6nat,
    {
        reveal(loop_rest);
        reveal(block);
        match self.ensure_next(Token::Loop, log) {
            Some(_) => {},
            None => {
                return None;
            },
        }
        let condition = spanned(
            Node::Literal { typ: Type::Bool, value: String::from_str("true") },
            0,
            0,
        );
        let body = match self.block(log) {
            Some(n) => n,
            None => {
                return None;
            },
        };
        Some(
            spanned(
                Node::WhileStatement { condition: Box::new(condition), body: Box::new(body) },
                0,
                0,
            ),
        )
    }

    /// Reads an optional `: T`.
    fn annotation(&mut self, otherwise: Type, log: &mut Logger) -> (r: Option<Type>)
        requires
            old(self).wf(),
        ensures
            final(self).wf(),
            final(self).stream() == old(self).stream(),
            parsed(
                annotation(old(self).stream(), old(self).position(), otherwise),
                r,
                old(self).position(),
                final(self).position(),
                old(log)@,
                final(log)@,
            ),
    {
        if self.try_next(Token::Colon).is_some() {
            self.ensure_type(log)
        } else {
            Some(otherwise)
        }
    }

    /// Reads a `var` statement.
    fn var_statement(&mut self, log: &mut Logger) -> (r: Option<Span<Node>>)
        requires
            old(self).wf(),
        ensures
            final(self).wf(),
            final(self).stream() == old(self).stream(),
            parsed(
                keyword(
                    old(self).stream(),
                    old(self).position(),
                    Tok::Var,
                    var_rest(old(self).stream(), old(self).position() + 1),
                ),
                node_of(r),
                old(self).position(),
                final(self).position(),
                old(log)@,
                final(log)@,
            ),
        decreases remaining(old(self).stream(), old(self).position()), 6nat,
    {
        reveal(var_rest);
        match self.ensure_next(Token::Var, log) {
            Some(_) => {},
            None => {
                return None;
            },
        }
        let name = match self.ensure_ident(log) {
            Some(n) => n,
            None => {
                return None;
            },
        };
        let typ = match self.annotation(Type::Unknown, log) {
            Some(t) => t,
            None => {
                return None;
            },
        };
        let value;
        if self.at(Token::Equals) {
            self.next();
            value =
            match self.expr(0, log) {
                Some(n) => n,
                None => {
                    return None;
                },
            };
        } else {
            value = undefined();
        }
        Some(spanned(Node::VarStatement { name, typ, value: Box::new(value) }, 0, 0))
    }

    /// Reads an assignment to a variable.
    fn assign_statement(&mut self, log: &mut Logger) -> (r: Option<Span<Node>>)
        requires
            old(self).wf(),
        ensures
            final(self).wf(),
            final(self).stream() == old(self).stream(),
            parsed(
                assignment(old(self).stream(), old(self).position()),
                node_of(r),
                old(self).position(),
                final(self).position(),
                old(log)@,
                final(log)@,
            ),
        decreases remaining(old(self).stream(), old(self).position()), 7nat,
    {
        reveal(assign_rest);
        let name = match self.ensure_ident(log) {
            Some(n) => n,
            None => {
                return None;
            },
        };
        match self.ensure_next(Token::Equals, log) {
            Some(_) => {},
            None => {
                return None;
            },
        }
        let value = match self.expr(0, log) {
            Some(n) => n,
            None => {
                return None;
            },
        };
        Some(spanned(Node::AssignStatement { name, value: Box::new(value) }, 0, 0))
    }

    /// Reads a `const` statement.
    fn const_statement(&mut self, log: &mut Logger) -> (r: Option<Span<Node>>)
        requires
            old(self).wf(),
        ensures
            final(self).wf(),
            final(self).stream() == old(self).stream(),
            parsed(
                keyword(
                    old(self).stream(),
                    old(self).position(),
                    Tok::Const,
                    const_rest(old(self).stream(), old(self).position() + 1),
                ),
                node_of(r),
                old(self).position(),
                final(self).position(),
                old(log)@,
                final(log)@,
            ),
        decreases remaining(old(self).stream(), old(self).position()), 6nat,
    {
        reveal(const_rest);
        match self.ensure_next(Token::Const, log) {
            Some(_) => {},
            None => {
                return None;
            },
        }
        let name = match self.ensure_ident(log) {
            Some(n) => n,
            None => {
                return None;
            },
        };
        let typ = match self.annotation(Type::Unknown, log) {
            Some(t) => t,
            None => {
                return None;
            },
        };
        match self.ensure_next(Token::Equals, log) {
            Some(_) => {},
            None => {
                return None;
            },
        }
        let value = match self.expr(0, log) {
            Some(n) => n,
            None => {
                return None;
            },
        };
        Some(spanned(Node::ConstStatement { name, typ, value: Box::new(value) }, 0, 0))
    }

    /// Reads the parameters of a procedure and the `)` after them.
    fn params(&mut self, log: &mut Logger) -> (r: Option<(Vec<String>, Vec<Type>)>)
        requires
            old(self).wf(),
        ensures
            final(self).wf(),
            final(self).stream() == old(self).stream(),
            parsed(
                params(old(self).stream(), old(self).position(), Seq::empty(), Seq::empty()),
                match r {
                    Some((names, types)) => Some((texts_view(names@), types@)),
                    None => None,
                },
                old(self).position(),
                final(self).position(),
                old(log)@,
                final(log)@,
            ),
    {
        reveal(params);
        let mut names: Vec<String> = Vec::new();
        let mut types: Vec<Type> = Vec::new();
        let ghost start = self.position();
        let ghost toks = self.stream();
        assert(texts_view(names@) =~= Seq::empty());
        loop
            invariant
                self.wf(),
                self.stream() == toks,
                toks == old(self).stream(),
                start == old(self).position(),
                log@ == old(log)@,
                self.position() >= start,
                params(toks, start, Seq::empty(), Seq::empty()) == after(
                    (self.position() - start) as nat,
                    params(toks, self.position(), texts_view(names@), types@),
                ),
            decreases remaining(toks, self.position()),
        {
            reveal(params);
            if self.at(Token::RParen) {
                self.next();
                return Some((names, types));
            }
            let name = match self.ensure_ident(log) {
                Some(n) => n,
                None => {
                    return None;
                },
            };
            match self.ensure_next(Token::Colon, log) {
                Some(_) => {},
                None => {
                    return None;
                },
            }
            let t = match self.ensure_type(log) {
                Some(t) => t,
                None => {
                    return None;
                },
            };
            let ghost before = texts_view(names@);
            names.push(name);
            types.push(t);
            assert(texts_view(names@) =~= before.push(name@));
            if self.at(Token::Comma) {
                self.next();
            } else {
                match self.ensure_next(Token::RParen, log) {
                    Some(_) => {
                        return Some((names, types));
                    },
                    None => {
                        return None;
                    },
                }
            }
        }
    }

    /// Reads a `proc` statement.
    fn proc_statement(&mut self, log: &mut Logger) -> (r: Option<Span<Node>>)
        requires
            old(self).wf(),
        ensures
            final(self).wf(),
            final(self).stream() == old(self).stream(),
            parsed(
                keyword(
                    old(self).stream(),
                    old(self).position(),
                    Tok::Proc,
                    proc_rest(old(self).stream(), old(self).position() + 1),
                ),
                node_of(r),
                old(self).position(),
                final(self).position(),
                old(log)@,
                final(log)@,
            ),
        decreases remaining(old(self).stream(), old(self).position()), 6nat,
    {
        reveal(proc_rest);
        reveal(block);
        match self.ensure_next(Token::Proc, log) {
            Some(_) => {},
            None => {
                return None;
            },
        }
        let name = match self.ensure_ident(log) {
            Some(n) => n,
            None => {
                return None;
            },
        };
        match self.ensure_next(Token::LParen, log) {
            Some(_) => {},
            None => {
                return None;
            },
        }
        let (args, arg_types) = match self.params(log) {
            Some(p) => p,
            None => {
                return None;
            },
        };
        let ret_type = match self.annotation(Type::Undefined, log) {
            Some(t) => t,
            None => {
                return None;
            },
        };
        let body;
        if self.at(Token::LBrace) {
            body =
            match self.block(log) {
                Some(n) => n,
                None => {
                    return None;
                },
            };
        } else {
            let nodes: Vec<Span<Node>> = Vec::new();
            assert(nodes_view(nodes@) =~= Seq::empty());
            body = spanned(Node::Block { nodes }, 0, 0);
        }
        Some(
            spanned(
                Node::ProcStatement { name, args, arg_types, ret_type, body: Box::new(body) },
                0,
                0,
            ),
        )
    }

    /// Reads a `return` statement.
    fn return_statement(&mut self, log: &mut Logger) -> (r: Option<Span<Node>>)
        requires
            old(self).wf(),
        ensures
            final(self).wf(),
            final(self).stream() == old(self).stream(),
            parsed(
                keyword(
                    old(self).stream(),
                    old(self).position(),
                    Tok::Return,
                    return_rest(old(self).stream(), old(self).position() + 1),
                ),
                node_of(r),
                old(self).position(),
                final(self).position(),
                old(log)@,
                final(log)@,
            ),
        decreases remaining(old(self).stream(), old(self).position()), 6nat,
    {
        reveal(return_rest);
        match self.ensure_next(Token::Return, log) {
            Some(_) => {},
            None => {
                return None;
            },
        }
        let val = match self.expr(0, log) {
            Some(n) => n,
            None => {
                return None;
            },
        };
        Some(spanned(Node::ReturnStatement { val: Box::new(val) }, 0, 0))
    }

    /// Reads a path of names separated by `.`.
    fn use_path(&mut self, log: &mut Logger) -> (r: Option<String>)
        requires
            old(self).wf(),
        ensures
            final(self).wf(),
            final(self).stream() == old(self).stream(),
            parsed(
                use_path(old(self).stream(), old(self).position(), Seq::empty()),
                text_of(r),
                old(self).position(),
                final(self).position(),
                old(log)@,
                final(log)@,
            ),
    {
        reveal(use_path);
        let mut path = String::new();
        let ghost start = self.position();
        let ghost toks = self.stream();
        loop
            invariant
                self.wf(),
                self.stream() == toks,
                toks == old(self).stream(),
                start == old(self).position(),
                log@ == old(log)@,
                self.position() >= start,
                use_path(toks, start, Seq::empty()) == after(
                    (self.position() - start) as nat,
                    use_path(toks, self.position(), path@),
                ),
            decreases remaining(toks, self.position()),
        {
            reveal(use_path);
            let name = match self.ensure_ident(log) {
                Some(n) => n,
                None => {
                    return None;
                },
            };
            path.append(name.as_str());
            let t = self.peek();
            let dot = match t.contents {
                Token::Op(op) => op == String::from_str("."),
                _ => false,
            };
            if dot {
                self.next();
                path.append(".");
            } else {
                return Some(path);
            }
        }
    }

    /// Reads a `use` statement.
    fn use_statement(&mut self, log: &mut Logger) -> (r: Option<Span<Node>>)
        requires
            old(self).wf(),
        ensures
            final(self).wf(),
            final(self).stream() == old(self).stream(),
            parsed(
                keyword(
                    old(self).stream(),
                    old(self).position(),
                    Tok::Use,
                    use_rest(old(self).stream(), old(self).position() + 1),
                ),
                node_of(r),
                old(self).position(),
                final(self).position(),
                old(log)@,
                final(log)@,
            ),
    {
        match self.ensure_next(Token::Use, log) {
            Some(_) => {},
            None => {
                return None;
            },
        }
        match self.use_path(log) {
            Some(path) => Some(spanned(Node::UseStatement { path }, 0, 0)),
            None => None,
        }
    }

    /// Reads a statement that starts with an expression: the expression
    /// itself, or an assignment to an indexed variable.
    fn expr_statement(&mut self, log: &mut Logger) -> (r: Option<Span<Node>>)
        requires
            old(self).wf(),
        ensures
            final(self).wf(),
            final(self).stream() == old(self).stream(),
            parsed(
                expr_statement(old(self).stream(), old(self).position()),
                node_of(r),
                old(self).position(),
                final(self).position(),
                old(log)@,
                final(log)@,
            ),
        decreases remaining(old(self).stream(), old(self).position()), 6nat,
    {
        reveal(expr_statement);
        reveal_with_fuel(node_view, 3);
        reveal_with_fuel(span_view, 3);
        let e = match self.expr(0, log) {
            Some(n) => n,
            None => {
                return None;
            },
        };
        if !self.at(Token::Equals) {
            return Some(e);
        }
        match e.contents {
            Node::IndexOp { object, index } => {
                let target: Span<Node> = *object;
                match target.contents {
                    Node::VariableRef { name } => {
                        self.next();
                        let value = match self.expr(0, log) {
                            Some(n) => n,
                            None => {
                                return None;
                            },
                        };
                        Some(
                            spanned(
                                Node::IndexedAssignStatement {
                                    name,
                                    index,
                                    value: Box::new(value),
                                },
                                0,
                                0,
                            ),
                        )
                    },
                    _ => {
                        self.fail("Unexpected token", log);
                        None
                    },
                }
            },
            _ => {
                self.fail("Unexpected token", log);
                None
            },
        }
    }

    /// Reads a statement.
    fn statement(&mut self, log: &mut Logger) -> (r: Option<Span<Node>>)
        requires
            old(self).wf(),
        ensures
            final(self).wf(),
            final(self).stream() == old(self).stream(),
            parsed(
                statement(old(self).stream(), old(self).position()),
                node_of(r),
                old(self).position(),
                final(self).position(),
                old(log)@,
                final(log)@,
            ),
        decreases remaining(old(self).stream(), old(self).position()), 11nat,
    {
        reveal(statement);
        reveal(if_rest);
        reveal(while_rest);
        reveal(loop_rest);
        reveal(proc_rest);
        let t = self.peek();
        match t.contents {
            Token::If => self.if_statement(true, log),
            Token::While => self.while_statement(log),
            Token::Loop => self.loop_statement(log),
            Token::Var => self.var_statement(log),
            Token::Const => self.const_statement(log),
            Token::Proc => self.proc_statement(log),
            Token::Return => self.return_statement(log),
            Token::Use => self.use_statement(log),
            Token::Ident(_) => {
                if self.second_is(Token::Equals) {
                    self.assign_statement(log)
                } else {
                    self.expr_statement(log)
                }
            },
            _ => self.expr_statement(log),
        }
    }

    /// Parses the declarations of a module from the current position to the
    /// end of the stream.
    ///
    /// From the start of a stream the result is `parse` of the stream: the
    /// nodes and an unchanged log, or no result and one more entry in the log.
    pub fn go(&mut self, log: &mut Logger) -> (r: Option<Vec<Span<Node>>>)
        requires
            old(self).wf(),
        ensures
            final(self).wf(),
            final(self).stream() == old(self).stream(),
            parsed(
                program(old(self).stream(), old(self).position(), Seq::empty()),
                nodes_of(r),
                old(self).position(),
                final(self).position(),
                old(log)@,
                final(log)@,
            ),
            old(self).position() == 0 ==> match parse(old(self).stream()) {
                Ok(nodes) => nodes_of(r) == Some(nodes) && final(log)@ == old(log)@,
                Err(e) => r is None && final(log)@ == old(log)@.push(e),
            },
    {
        reveal(program);
        let mut nodes: Vec<Span<Node>> = Vec::new();
        let ghost start = self.position();
        let ghost toks = self.stream();
        assert(nodes_view(nodes@) =~= Seq::empty());
        loop
            invariant
                self.wf(),
                self.stream() == toks,
                toks == old(self).stream(),
                start == old(self).position(),
                log@ == old(log)@,
                self.position() >= start,
                program(toks, start, Seq::empty()) == after(
                    (self.position() - start) as nat,
                    program(toks, self.position(), nodes_view(nodes@)),
                ),
            decreases remaining(toks, self.position()),
        {
            reveal(program);
            let t = self.peek();
            let skip = match t.contents {
                Token::Newline => true,
                Token::DocComment(_) => true,
                _ => false,
            };
            if skip {
                self.next();
            } else {
                let s = match self.statement(log) {
                    Some(s) => s,
                    None => {
                        return None;
                    },
                };
                if !is_top_level(&s.contents) {
                    log.syntax_error(
                        "This statement is not allowed at the top level of a module",
                        s.pos,
                        s.len,
                    );
                    return None;
                }
                let ghost before = nodes_view(nodes@);
                nodes.push(s);
                assert(nodes_view(nodes@) =~= before.push(span_view(s)));
                match self.ensure_next(Token::Newline, log) {
                    Some(_) => {},
                    None => {
                        return None;
                    },
                }
            }
            if self.at(Token::EOF) {
                return Some(nodes);
            }
        }
    }
}


/// True of the statements that may stand at the top level of a module.
pub fn is_top_level(node: &Node) -> (r: bool)
    ensures
        r == top_level(node@),
{
    match node {
        Node::ProcStatement { .. } => true,
        Node::ConstStatement { .. } => true,
        Node::UseStatement { .. } => true,
        _ => false,
    }
}


/// The literal that stands for a missing value.
pub fn undefined() -> (r: Span<Node>)
    ensures
        span_view(r) == undefined_literal(),
{
    spanned(Node::Literal { typ: Type::Undefined, value: String::from_str("undefined") }, 0, 0)
}

} // verus!
