//! The parser: a cursor over a token stream, and one method for each rule of
//! the grammar.

use vstd::prelude::*;
use crate::astgen::{nodes_view, span_view, spanned, Ast, Node};
use crate::errors::{ErrorRecord, Logger, Span};
use crate::grammar::{
    after, array_size, decimal, expected_ident, fault_at, infix_power, kind_at, peek_at,
    postfix_power, prefix_power, primitive_named, remaining, type_at, unexpected, Parsed, Stream,
};
use crate::lexer::{tokens_view, Tok, Token};
use crate::types::Type;

verus! {

/// A cursor over a token stream.
pub struct Parser<'p> {
    tokens: &'p [Span<Token>],
    index: usize,
}

/// How the outcome of a parsing method relates to what the grammar gives at
/// the position where it started: on success the value, the new position and
/// an unchanged log; on failure no value and the error appended to the log.
pub open spec fn parsed<V>(
    expected: Parsed<V>,
    value: Option<V>,
    before: nat,
    now: nat,
    log_before: Seq<ErrorRecord>,
    log_now: Seq<ErrorRecord>,
) -> bool {
    match expected {
        Ok((v, c)) => value == Some(v) && now == before + c && log_now == log_before,
        Err(e) => value is None && log_now == log_before.push(e),
    }
}

/// The view of an optional spanned node.
pub open spec fn node_of(r: Option<Span<Node>>) -> Option<Span<Ast>> {
    match r {
        Some(n) => Some(span_view(n)),
        None => None,
    }
}

/// The views of an optional list of spanned nodes.
pub open spec fn nodes_of(r: Option<Vec<Span<Node>>>) -> Option<Seq<Span<Ast>>> {
    match r {
        Some(v) => Some(nodes_view(v@)),
        None => None,
    }
}

/// The view of an optional text.
pub open spec fn text_of(r: Option<String>) -> Option<Seq<char>> {
    match r {
        Some(s) => Some(s@),
        None => None,
    }
}

/// The right binding power of a prefix operator, if `op` is one.
pub fn prefix_binding_power(op: &String) -> (r: Option<((), u8)>)
    ensures
        match prefix_power(op@) {
            Some(p) => r == Some(((), p as u8)),
            None => r is None,
        },
{
    if *op == String::from_str("!") {
        Some(((), 8))
    } else if *op == String::from_str("+") || *op == String::from_str("-") {
        Some(((), 9))
    } else {
        None
    }
}

/// The left binding power of a postfix operator, if `op` is one.
pub fn postfix_binding_power(op: &String) -> (r: Option<(u8, ())>)
    ensures
        match postfix_power(op@) {
            Some(p) => r == Some((p as u8, ())),
            None => r is None,
        },
{
    if *op == String::from_str("[") {
        Some((11, ()))
    } else {
        None
    }
}

/// The left and right binding powers of an infix operator, if `op` is one.
pub fn infix_binding_power(op: &String) -> (r: Option<(u8, u8)>)
    ensures
        match infix_power(op@) {
            Some((l, p)) => r == Some((l as u8, p as u8)),
            None => r is None,
        },
{
    if *op == String::from_str(">") || *op == String::from_str("<") || *op == String::from_str(
        ">=",
    ) || *op == String::from_str("<=") || *op == String::from_str("==") || *op
        == String::from_str("!=") {
        Some((3, 4))
    } else if *op == String::from_str("+") || *op == String::from_str("-") || *op
        == String::from_str("+~") || *op == String::from_str("-~") {
        Some((5, 6))
    } else if *op == String::from_str("*") || *op == String::from_str("/") || *op
        == String::from_str("//") || *op == String::from_str("*~") {
        Some((7, 8))
    } else {
        None
    }
}

/// The primitive type with the given name.
pub fn primitive_type(name: &String) -> (r: Option<Type>)
    ensures
        r == primitive_named(name@),
{
    if *name == String::from_str("i8") {
        Some(Type::I8)
    } else if *name == String::from_str("i16") {
        Some(Type::I16)
    } else if *name == String::from_str("i32") {
        Some(Type::I32)
    } else if *name == String::from_str("i64") {
        Some(Type::I64)
    } else if *name == String::from_str("i128") {
        Some(Type::I128)
    } else if *name == String::from_str("n8") {
        Some(Type::N8)
    } else if *name == String::from_str("n16") {
        Some(Type::N16)
    } else if *name == String::from_str("n32") {
        Some(Type::N32)
    } else if *name == String::from_str("n64") {
        Some(Type::N64)
    } else if *name == String::from_str("n128") {
        Some(Type::N128)
    } else if *name == String::from_str("f32") {
        Some(Type::F32)
    } else if *name == String::from_str("f64") {
        Some(Type::F64)
    } else if *name == String::from_str("f128") {
        Some(Type::F128)
    } else if *name == String::from_str("bool") {
        Some(Type::Bool)
    } else {
        None
    }
}

/// Reads the size of an array type.
pub fn parse_array_size(text: &String) -> (r: Option<u64>)
    ensures
        r == array_size(text@),
{
    let s = text.as_str();
    let n = s.unicode_len();
    if n == 0 {
        return None;
    }
    let mut value: u64 = 0;
    let mut i: usize = 0;
    while i < n
        invariant
            i <= n,
            n == s@.len(),
            s@ == text@,
            i > 0 ==> decimal(s@.take(i as int)) == Some(value as nat),
            i == 0 ==> value == 0,
        decreases n - i,
    {
        let c = s.get_char(i);
        proof {
            let now = s@.take(i + 1);
            assert(now.drop_last() =~= s@.take(i as int));
            assert(now.last() == c);
            lemma_decimal_prefix(s@, i + 1);
        }
        if c < '0' || c > '9' {
            return None;
        }
        let d: u64 = (c as u32 - '0' as u32) as u64;
        if value > (u64::MAX - d) / 10 {
            return None;
        }
        value = value * 10 + d;
        i += 1;
    }
    assert(s@.take(n as int) =~= s@);
    Some(value)
}

/// If a prefix of a text is no number, neither is the text; and the number
/// of a prefix is at most that of the text.
pub proof fn lemma_decimal_prefix(s: Seq<char>, k: int)
    requires
        0 < k <= s.len(),
    ensures
        decimal(s.take(k)) is None ==> decimal(s) is None,
        decimal(s.take(k)) is Some && decimal(s) is Some ==> decimal(s.take(k))->Some_0
            <= decimal(s)->Some_0,
    decreases s.len() - k,
{
    if k == s.len() {
        assert(s.take(k) =~= s);
    } else {
        assert(s.drop_last().take(k) =~= s.take(k));
        lemma_decimal_prefix(s.drop_last(), k);
    }
}

impl<'p> Parser<'p> {
    /// The stream that the parser reads.
    pub closed spec fn stream(&self) -> Stream {
        tokens_view(self.tokens@)
    }

    /// The position of the next token.
    pub closed spec fn position(&self) -> nat {
        self.index as nat
    }

    /// The position lies within the stream or at its end.
    pub closed spec fn wf(&self) -> bool {
        self.index <= self.tokens@.len()
    }

    /// A parser at the start of `tokens`.
    pub fn new(tokens: &'p [Span<Token>]) -> (r: Self)
        ensures
            r.stream() == tokens_view(tokens@),
            r.position() == 0,
            r.wf(),
    {
        Parser { tokens, index: 0 }
    }

    /// The next token, which stays in the stream.
    pub(crate) fn peek(&self) -> (r: Span<Token>)
        ensures
            r@ == peek_at(self.stream(), self.position()),
    {
        if self.index < self.tokens.len() {
            let t = &self.tokens[self.index];
            Span { contents: t.contents.clone(), pos: t.pos, len: t.len }
        } else if self.tokens.len() > 0 {
            let last = &self.tokens[self.tokens.len() - 1];
            Span { contents: Token::EOF, pos: last.pos, len: last.len }
        } else {
            Span { contents: Token::EOF, pos: 0, len: 0 }
        }
    }

    /// Takes the next token off the stream. At the end of the stream the
    /// result is `EOF` and the position stays.
    pub(crate) fn next(&mut self) -> (r: Span<Token>)
        requires
            old(self).wf(),
        ensures
            r@ == peek_at(old(self).stream(), old(self).position()),
            final(self).wf(),
            final(self).stream() == old(self).stream(),
            final(self).position() == if old(self).position() < old(self).stream().len() {
                old(self).position() + 1
            } else {
                old(self).position()
            },
    {
        let r = self.peek();
        if self.index < self.tokens.len() {
            self.index = self.index + 1;
        }
        r
    }

    /// Takes the next token if it is `t`.
    pub(crate) fn try_next(&mut self, t: Token) -> (r: Option<()>)
        requires
            old(self).wf(),
            t@ != Tok::EOF,
        ensures
            final(self).wf(),
            final(self).stream() == old(self).stream(),
            r is Some <==> kind_at(old(self).stream(), old(self).position()) == t@,
            final(self).position() == if r is Some {
                old(self).position() + 1
            } else {
                old(self).position()
            },
    {
        if self.peek().contents.same(&t) {
            self.next();
            Some(())
        } else {
            None
        }
    }

    /// Takes the next token if it is `t`, and reports a syntax error if it is
    /// not.
    pub(crate) fn ensure_next(&mut self, t: Token, log: &mut Logger) -> (r: Option<()>)
        requires
            old(self).wf(),
            t@ != Tok::EOF,
        ensures
            final(self).wf(),
            final(self).stream() == old(self).stream(),
            r is Some <==> kind_at(old(self).stream(), old(self).position()) == t@,
            r is Some ==> final(self).position() == old(self).position() + 1 && final(log)@ == old(
                log,
            )@,
            r is None ==> final(log)@ == old(log)@.push(
                fault_at(old(self).stream(), old(self).position(), unexpected()),
            ),
    {
        let found = self.peek();
        if found.contents.same(&t) {
            self.next();
            Some(())
        } else {
            log.syntax_error("Unexpected token", found.pos, found.len);
            None
        }
    }

    /// Reports a syntax error at the next token.
    pub(crate) fn fail(&self, msg: &str, log: &mut Logger)
        ensures
            final(log)@ == old(log)@.push(fault_at(self.stream(), self.position(), msg@)),
    {
        let found = self.peek();
        log.syntax_error(msg, found.pos, found.len);
    }

    /// Takes the next token if it is an identifier, and reports a syntax error
    /// if it is not.
    pub(crate) fn ensure_ident(&mut self, log: &mut Logger) -> (r: Option<String>)
        requires
            old(self).wf(),
        ensures
            final(self).wf(),
            final(self).stream() == old(self).stream(),
            match kind_at(old(self).stream(), old(self).position()) {
                Tok::Ident(name) => text_of(r) == Some(name) && final(self).position() == old(
                    self,
                ).position() + 1 && final(log)@ == old(log)@,
                _ => r is None && final(log)@ == old(log)@.push(
                    fault_at(old(self).stream(), old(self).position(), expected_ident()),
                ),
            },
    {
        let found = self.peek();
        match found.contents {
            Token::Ident(name) => {
                self.next();
                Some(name)
            },
            _ => {
                log.syntax_error("Expected an identifier", found.pos, found.len);
                None
            },
        }
    }

    /// Reads a type.
    pub(crate) fn ensure_type(&mut self, log: &mut Logger) -> (r: Option<Type>)
        requires
            old(self).wf(),
        ensures
            final(self).wf(),
            final(self).stream() == old(self).stream(),
            parsed(
                type_at(old(self).stream(), old(self).position()),
                r,
                old(self).position(),
                final(self).position(),
                old(log)@,
                final(log)@,
            ),
        decreases remaining(old(self).stream(), old(self).position()),
    {
        reveal(type_at);
        let found = self.peek();
        match found.contents {
            Token::Ident(name) => {
                match primitive_type(&name) {
                    Some(t) => {
                        self.next();
                        Some(t)
                    },
                    None => {
                        log.syntax_error("Expected a type", found.pos, found.len);
                        None
                    },
                }
            },
            Token::Op(op) => {
                if op == String::from_str("*") {
                    self.next();
                    match self.ensure_type(log) {
                        Some(t) => Some(Type::Ptr(Box::new(t))),
                        None => None,
                    }
                } else {
                    log.syntax_error("Expected a type", found.pos, found.len);
                    None
                }
            },
            Token::LBracket => {
                self.next();
                let size = self.peek();
                match size.contents {
                    Token::IntLiteral(text) => {
                        match parse_array_size(&text) {
                            Some(n) => {
                                self.next();
                                match self.ensure_next(Token::RBracket, log) {
                                    Some(_) => match self.ensure_type(log) {
                                        Some(t) => Some(Type::Array(n, Box::new(t))),
                                        None => None,
                                    },
                                    None => None,
                                }
                            },
                            None => {
                                log.syntax_error("Expected a type", size.pos, size.len);
                                None
                            },
                        }
                    },
                    _ => {
                        log.syntax_error("Expected a type", size.pos, size.len);
                        None
                    },
                }
            },
            _ => {
                log.syntax_error("Expected a type", found.pos, found.len);
                None
            },
        }
    }

    /// True if the next token is `t`.
    pub(crate) fn at(&self, t: Token) -> (r: bool)
        ensures
            r == (kind_at(self.stream(), self.position()) == t@),
    {
        self.peek().contents.same(&t)
    }

    /// True if the token after the next one is `t`.
    pub(crate) fn second_is(&self, t: Token) -> (r: bool)
        requires
            self.wf(),
            t@ != Tok::EOF,
        ensures
            r == (kind_at(self.stream(), self.position() + 1) == t@),
    {
        if self.index < self.tokens.len() && self.index + 1 < self.tokens.len() {
            self.tokens[self.index + 1].contents.same(&t)
        } else {
            false
        }
    }

}

} // verus!
