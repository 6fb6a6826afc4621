//! Tokens and the lexer that produces them.

use vstd::prelude::*;
use vstd::std_specs::cmp::PartialEqSpecImpl;
use crate::errors::{Logger, Span};
use crate::lexing::{
    digit, ident_char, ident_run, ident_start, keyword, lemma_ident_run, lemma_number_run,
    lemma_operator_run, lemma_string_run, lex, lex_from, nested, number_char, number_run,
    operator_char, operator_run, placed, punctuation, slice, space, special, special_token,
    string_run, word,
};
use crate::text::push_char;

verus! {

/// A token of the language.
#[derive(Debug)]
pub enum Token {
    IntLiteral(String),
    FloatLiteral(String),
    StrLiteral(String),
    Ident(String),
    Op(String),
    Proc,
    If,
    Elif,
    Else,
    While,
    Loop,
    Var,
    Const,
    Return,
    Use,
    LParen,
    RParen,
    LBracket,
    RBracket,
    LBrace,
    RBrace,
    Comma,
    Equals,
    Colon,
    Newline,
    DocComment(String),
    EOF,
}

/// A [`Token`] as a mathematical value: its text is a sequence of characters.
pub enum Tok {
    IntLiteral(Seq<char>),
    FloatLiteral(Seq<char>),
    StrLiteral(Seq<char>),
    Ident(Seq<char>),
    Op(Seq<char>),
    Proc,
    If,
    Elif,
    Else,
    While,
    Loop,
    Var,
    Const,
    Return,
    Use,
    LParen,
    RParen,
    LBracket,
    RBracket,
    LBrace,
    RBrace,
    Comma,
    Equals,
    Colon,
    Newline,
    DocComment(Seq<char>),
    EOF,
}

impl View for Token {
    type V = Tok;

    open spec fn view(&self) -> Tok {
        match *self {
            Token::IntLiteral(s) => Tok::IntLiteral(s@),
            Token::FloatLiteral(s) => Tok::FloatLiteral(s@),
            Token::StrLiteral(s) => Tok::StrLiteral(s@),
            Token::Ident(s) => Tok::Ident(s@),
            Token::Op(s) => Tok::Op(s@),
            Token::Proc => Tok::Proc,
            Token::If => Tok::If,
            Token::Elif => Tok::Elif,
            Token::Else => Tok::Else,
            Token::While => Tok::While,
            Token::Loop => Tok::Loop,
            Token::Var => Tok::Var,
            Token::Const => Tok::Const,
            Token::Return => Tok::Return,
            Token::Use => Tok::Use,
            Token::LParen => Tok::LParen,
            Token::RParen => Tok::RParen,
            Token::LBracket => Tok::LBracket,
            Token::RBracket => Tok::RBracket,
            Token::LBrace => Tok::LBrace,
            Token::RBrace => Tok::RBrace,
            Token::Comma => Tok::Comma,
            Token::Equals => Tok::Equals,
            Token::Colon => Tok::Colon,
            Token::Newline => Tok::Newline,
            Token::DocComment(s) => Tok::DocComment(s@),
            Token::EOF => Tok::EOF,
        }
    }
}

impl Clone for Token {
    fn clone(&self) -> (r: Self)
        ensures
            r == *self,
    {
        match self {
            Token::IntLiteral(s) => Token::IntLiteral(s.clone()),
            Token::FloatLiteral(s) => Token::FloatLiteral(s.clone()),
            Token::StrLiteral(s) => Token::StrLiteral(s.clone()),
            Token::Ident(s) => Token::Ident(s.clone()),
            Token::Op(s) => Token::Op(s.clone()),
            Token::Proc => Token::Proc,
            Token::If => Token::If,
            Token::Elif => Token::Elif,
            Token::Else => Token::Else,
            Token::While => Token::While,
            Token::Loop => Token::Loop,
            Token::Var => Token::Var,
            Token::Const => Token::Const,
            Token::Return => Token::Return,
            Token::Use => Token::Use,
            Token::LParen => Token::LParen,
            Token::RParen => Token::RParen,
            Token::LBracket => Token::LBracket,
            Token::RBracket => Token::RBracket,
            Token::LBrace => Token::LBrace,
            Token::RBrace => Token::RBrace,
            Token::Comma => Token::Comma,
            Token::Equals => Token::Equals,
            Token::Colon => Token::Colon,
            Token::Newline => Token::Newline,
            Token::DocComment(s) => Token::DocComment(s.clone()),
            Token::EOF => Token::EOF,
        }
    }
}

impl Token {
    /// Equality of two tokens: the same kind and the same text.
    pub fn same(&self, other: &Token) -> (r: bool)
        ensures
            r == (self@ == other@),
    {
        match self {
            Token::IntLiteral(s) => match other {
                Token::IntLiteral(t) => *s == *t,
                _ => false,
            },
            Token::FloatLiteral(s) => match other {
                Token::FloatLiteral(t) => *s == *t,
                _ => false,
            },
            Token::StrLiteral(s) => match other {
                Token::StrLiteral(t) => *s == *t,
                _ => false,
            },
            Token::Ident(s) => match other {
                Token::Ident(t) => *s == *t,
                _ => false,
            },
            Token::Op(s) => match other {
                Token::Op(t) => *s == *t,
                _ => false,
            },
            Token::DocComment(s) => match other {
                Token::DocComment(t) => *s == *t,
                _ => false,
            },
            Token::Proc => matches!(other, Token::Proc),
            Token::If => matches!(other, Token::If),
            Token::Elif => matches!(other, Token::Elif),
            Token::Else => matches!(other, Token::Else),
            Token::While => matches!(other, Token::While),
            Token::Loop => matches!(other, Token::Loop),
            Token::Var => matches!(other, Token::Var),
            Token::Const => matches!(other, Token::Const),
            Token::Return => matches!(other, Token::Return),
            Token::Use => matches!(other, Token::Use),
            Token::LParen => matches!(other, Token::LParen),
            Token::RParen => matches!(other, Token::RParen),
            Token::LBracket => matches!(other, Token::LBracket),
            Token::RBracket => matches!(other, Token::RBracket),
            Token::LBrace => matches!(other, Token::LBrace),
            Token::RBrace => matches!(other, Token::RBrace),
            Token::Comma => matches!(other, Token::Comma),
            Token::Equals => matches!(other, Token::Equals),
            Token::Colon => matches!(other, Token::Colon),
            Token::Newline => matches!(other, Token::Newline),
            Token::EOF => matches!(other, Token::EOF),
        }
    }
}

impl PartialEq for Token {
    fn eq(&self, other: &Token) -> (r: bool) {
        self.same(other)
    }
}

impl PartialEqSpecImpl for Token {
    open spec fn obeys_eq_spec() -> bool {
        true
    }

    open spec fn eq_spec(&self, other: &Token) -> bool {
        self@ == other@
    }
}

/// The views of a sequence of spanned tokens.
pub open spec fn tokens_view(tokens: Seq<Span<Token>>) -> Seq<Span<Tok>> {
    Seq::new(tokens.len(), |i: int| tokens[i]@)
}

/// True of a character of an identifier.
#[inline]
pub fn is_ident(ch: char) -> (r: bool)
    ensures
        r == ident_char(ch),
{
    is_ident_start(ch) || (ch >= '0' && ch <= '9')
}

/// True of a character that may start an identifier.
#[inline]
pub fn is_ident_start(ch: char) -> (r: bool)
    ensures
        r == ident_start(ch),
{
    (ch >= 'a' && ch <= 'z') || (ch >= 'A' && ch <= 'Z') || ch == '_'
}

/// True of a character of a number: a digit, or a decimal point if none was
/// passed.
#[inline]
pub fn is_number(ch: char, decimal_passed: bool) -> (r: bool)
    ensures
        r == number_char(ch, decimal_passed),
{
    (ch >= '0' && ch <= '9') || (ch == '.' && !decimal_passed)
}

/// True of the characters that are tokens by themselves.
#[inline]
pub fn is_special(ch: char) -> (r: bool)
    ensures
        r == special(ch),
{
    ch == '(' || ch == ')' || ch == '[' || ch == ']' || ch == '{' || ch == '}' || ch == ','
        || ch == '=' || ch == ':'
}

/// True of the punctuation characters of ASCII, which start an operator.
#[inline]
pub fn is_op(ch: char) -> (r: bool)
    ensures
        r == punctuation(ch),
{
    (ch >= '!' && ch <= '/') || (ch >= ':' && ch <= '@') || (ch >= '[' && ch <= '`') || (ch >= '{'
        && ch <= '~')
}

/// True of the characters that continue an operator.
#[inline]
pub fn is_op_rest(ch: char) -> (r: bool)
    ensures
        r == operator_char(ch),
{
    is_op(ch) && !(ch == '(' || ch == ')' || ch == '[' || ch == ']' || ch == '{' || ch == '}'
        || ch == ',' || ch == ':' || ch == '"' || ch == '_')
}

/// True of the whitespace characters of ASCII.
#[inline]
pub fn is_space(ch: char) -> (r: bool)
    ensures
        r == space(ch),
{
    ch == ' ' || ch == '\t' || ch == '\n' || ch == '\x0C' || ch == '\r'
}

/// The keyword that a word is, if it is one.
pub fn str_to_keyword(s: &String) -> (r: Option<Token>)
    ensures
        match keyword(s@) {
            Some(t) => r is Some && r->Some_0@ == t,
            None => r is None,
        },
{
    if *s == String::from_str("proc") {
        Some(Token::Proc)
    } else if *s == String::from_str("if") {
        Some(Token::If)
    } else if *s == String::from_str("else") {
        Some(Token::Else)
    } else if *s == String::from_str("elif") {
        Some(Token::Elif)
    } else if *s == String::from_str("while") {
        Some(Token::While)
    } else if *s == String::from_str("loop") {
        Some(Token::Loop)
    } else if *s == String::from_str("var") {
        Some(Token::Var)
    } else if *s == String::from_str("const") {
        Some(Token::Const)
    } else if *s == String::from_str("return") {
        Some(Token::Return)
    } else if *s == String::from_str("use") {
        Some(Token::Use)
    } else {
        None
    }
}

/// The identifier with the given name.
#[inline]
pub fn str_to_ident(s: &String) -> (r: Token)
    ensures
        r@ == Tok::Ident(s@),
{
    Token::Ident(s.clone())
}

/// The number of characters that a token is written with.
pub open spec fn written(t: Tok) -> nat {
    match t {
        Tok::IntLiteral(s) => s.len(),
        Tok::FloatLiteral(s) => s.len(),
        Tok::StrLiteral(s) => s.len(),
        Tok::Ident(s) => s.len(),
        Tok::Op(s) => s.len(),
        Tok::DocComment(s) => s.len(),
        Tok::Proc => 4,
        Tok::If => 2,
        Tok::Else => 4,
        Tok::Elif => 4,
        Tok::While => 5,
        Tok::Loop => 4,
        Tok::Var => 3,
        Tok::Const => 5,
        Tok::Return => 6,
        Tok::Use => 3,
        Tok::EOF => 0,
        _ => 1,
    }
}

/// The number of characters that a token is written with. For a string it
/// is the number of characters between the quotes.
pub fn token_len(t: &Token) -> (r: usize)
    ensures
        r == written(t@),
{
    match t {
        Token::IntLiteral(s) => s.as_str().unicode_len(),
        Token::FloatLiteral(s) => s.as_str().unicode_len(),
        Token::StrLiteral(s) => s.as_str().unicode_len(),
        Token::Ident(s) => s.as_str().unicode_len(),
        Token::Op(s) => s.as_str().unicode_len(),
        Token::DocComment(s) => s.as_str().unicode_len(),
        Token::Proc => 4,
        Token::If => 2,
        Token::Else => 4,
        Token::Elif => 4,
        Token::While => 5,
        Token::Loop => 4,
        Token::Var => 3,
        Token::Const => 5,
        Token::Return => 6,
        Token::Use => 3,
        Token::EOF => 0,
        _ => 1,
    }
}

/// A cursor over the characters of a text.
pub struct Lexer<'l> {
    code: &'l [char],
    index: usize,
    nesting: usize,
}

impl<'l> Lexer<'l> {
    /// The text that the lexer reads.
    pub closed spec fn text(&self) -> Seq<char> {
        self.code@
    }

    /// The place of the next character.
    pub closed spec fn position(&self) -> nat {
        self.index as nat
    }

    /// The number of brackets that are open.
    pub closed spec fn depth(&self) -> nat {
        self.nesting as nat
    }

    /// The place lies within the text or at its end, and no more brackets
    /// are open than characters were read.
    pub closed spec fn wf(&self) -> bool {
        self.index <= self.code@.len() && self.nesting <= self.index
    }

    /// The character at the current place, or NUL at the end of the text.
    pub closed spec fn current(&self) -> char {
        if self.index < self.code@.len() {
            self.code@[self.index as int]
        } else {
            '\0'
        }
    }

    /// A lexer at the start of a text.
    pub fn new(code: &'l [char]) -> (r: Self)
        ensures
            r.text() == code@,
            r.position() == 0,
            r.depth() == 0,
            r.wf(),
    {
        Lexer { code, index: 0, nesting: 0 }
    }

    /// The next character, which stays in the text. At the end it is NUL.
    fn peek(&self) -> (r: char)
        ensures
            r == self.current(),
            self.position() < self.text().len() ==> r == self.text()[self.position() as int],
            self.position() >= self.text().len() ==> r == '\0',
    {
        if self.index >= self.code.len() {
            return '\0';
        }
        self.code[self.index]
    }

    /// Takes the next character off the text. At the end it is NUL and the
    /// place stays.
    fn next(&mut self) -> (r: char)
        requires
            old(self).wf(),
        ensures
            final(self).wf(),
            final(self).text() == old(self).text(),
            final(self).depth() == old(self).depth(),
            r == old(self).current(),
            final(self).position() == if old(self).position() < old(self).text().len() {
                old(self).position() + 1
            } else {
                old(self).position()
            },
    {
        if self.index >= self.code.len() {
            return '\0';
        }
        let ch = self.code[self.index];
        self.index = self.index + 1;
        ch
    }

    /// Takes a run of identifier characters.
    fn ident_str(&mut self) -> (r: String)
        requires
            old(self).wf(),
        ensures
            final(self).wf(),
            final(self).text() == old(self).text(),
            final(self).depth() == old(self).depth(),
            final(self).position() == old(self).position() + ident_run(
                old(self).text(),
                old(self).position(),
            ),
            r@ == slice(
                old(self).text(),
                old(self).position(),
                ident_run(old(self).text(), old(self).position()),
            ),
    {
        let mut ident = String::new();
        let ghost start = self.position();
        let ghost code = self.text();
        assert(ident@ =~= slice(code, start, 0));
        while is_ident(self.peek())
            invariant
                self.wf(),
                self.text() == code,
                code == old(self).text(),
                start == old(self).position(),
                self.depth() == old(self).depth(),
                start <= self.position() <= code.len(),
                ident@ == slice(code, start, (self.position() - start) as nat),
                ident_run(code, start) == (self.position() - start) + ident_run(
                    code,
                    self.position(),
                ),
            decreases code.len() - self.position(),
        {
            let ghost before = ident@;
            let ghost at = self.position();
            let c = self.next();
            push_char(&mut ident, c);
            assert(ident@ =~= slice(code, start, (at + 1 - start) as nat));
        }
        ident
    }

    /// Takes a number: digits with at most one decimal point among them.
    fn number(&mut self) -> (r: Token)
        requires
            old(self).wf(),
        ensures
            final(self).wf(),
            final(self).text() == old(self).text(),
            final(self).depth() == old(self).depth(),
            ({
                let (n, decimal) = number_run(old(self).text(), old(self).position(), false);
                let text = slice(old(self).text(), old(self).position(), n);
                &&& final(self).position() == old(self).position() + n
                &&& r@ == if decimal {
                    Tok::FloatLiteral(text)
                } else {
                    Tok::IntLiteral(text)
                }
            }),
    {
        let mut number = String::new();
        let mut decimal_passed = false;
        let ghost start = self.position();
        let ghost code = self.text();
        assert(number@ =~= slice(code, start, 0));
        while is_number(self.peek(), decimal_passed)
            invariant
                self.wf(),
                self.text() == code,
                code == old(self).text(),
                start == old(self).position(),
                self.depth() == old(self).depth(),
                start <= self.position() <= code.len(),
                number@ == slice(code, start, (self.position() - start) as nat),
                number_run(code, start, false).0 == (self.position() - start) + number_run(
                    code,
                    self.position(),
                    decimal_passed,
                ).0,
                number_run(code, start, false).1 == number_run(
                    code,
                    self.position(),
                    decimal_passed,
                ).1,
            decreases code.len() - self.position(),
        {
            let ghost at = self.position();
            let c = self.next();
            if c == '.' {
                decimal_passed = true;
            }
            push_char(&mut number, c);
            assert(number@ =~= slice(code, start, (at + 1 - start) as nat));
        }
        if decimal_passed {
            Token::FloatLiteral(number)
        } else {
            Token::IntLiteral(number)
        }
    }

    /// Takes an operator: one character and the operator characters after it.
    fn operator(&mut self) -> (r: Token)
        requires
            old(self).wf(),
            old(self).position() < old(self).text().len(),
        ensures
            final(self).wf(),
            final(self).text() == old(self).text(),
            final(self).depth() == old(self).depth(),
            final(self).position() == old(self).position() + 1 + operator_run(
                old(self).text(),
                old(self).position() + 1,
            ),
            r@ == Tok::Op(
                slice(
                    old(self).text(),
                    old(self).position(),
                    1 + operator_run(old(self).text(), old(self).position() + 1),
                ),
            ),
    {
        let mut op = String::new();
        let ghost start = self.position();
        let ghost code = self.text();
        let first = self.next();
        push_char(&mut op, first);
        assert(op@ =~= slice(code, start, 1));
        while is_op_rest(self.peek())
            invariant
                self.wf(),
                self.text() == code,
                code == old(self).text(),
                start == old(self).position(),
                self.depth() == old(self).depth(),
                start < self.position() <= code.len(),
                op@ == slice(code, start, (self.position() - start) as nat),
                operator_run(code, start + 1) == (self.position() - start - 1) + operator_run(
                    code,
                    self.position(),
                ),
            decreases code.len() - self.position(),
        {
            let ghost at = self.position();
            let c = self.next();
            push_char(&mut op, c);
            assert(op@ =~= slice(code, start, (at + 1 - start) as nat));
        }
        Token::Op(op)
    }

    /// Takes a string: a quote, the characters up to the next quote, and
    /// that quote. A string that the text ends in is reported.
    fn string(&mut self, log: &mut Logger) -> (r: Option<Token>)
        requires
            old(self).wf(),
            old(self).position() < old(self).text().len(),
        ensures
            final(self).wf(),
            final(self).text() == old(self).text(),
            final(self).depth() == old(self).depth(),
            match string_run(old(self).text(), old(self).position() + 1) {
                Some(n) => r is Some && r->Some_0@ == Tok::StrLiteral(
                    slice(old(self).text(), old(self).position() + 1, n),
                ) && final(self).position() == old(self).position() + n + 2 && final(log)@ == old(
                    log,
                )@,
                None => r is None && final(log)@ == old(log)@.push(
                    crate::errors::syntax_record(
                        crate::lexing::unterminated(),
                        old(self).position() as usize,
                        1,
                    ),
                ),
            },
    {
        let mut string = String::new();
        let opening = self.index;
        let ghost code = self.text();
        self.next();
        let ghost start = self.position();
        assert(string@ =~= slice(code, start, 0));
        while self.peek() != '"'
            invariant
                self.wf(),
                self.text() == code,
                code == old(self).text(),
                start == old(self).position() + 1,
                opening == old(self).position(),
                self.depth() == old(self).depth(),
                start <= self.position() <= code.len(),
                log@ == old(log)@,
                string@ == slice(code, start, (self.position() - start) as nat),
                string_run(code, start) == match string_run(code, self.position()) {
                    Some(n) => Some((self.position() - start + n) as nat),
                    None => None,
                },
            decreases code.len() - self.position(),
        {
            if self.peek() == '\0' {
                log.syntax_error("Encountered the end of the file inside a string", opening, 1);
                return None;
            }
            let ghost at = self.position();
            let c = self.next();
            push_char(&mut string, c);
            assert(string@ =~= slice(code, start, (at + 1 - start) as nat));
        }
        self.next();
        Some(Token::StrLiteral(string))
    }

    /// Takes a special character.
    fn special(&mut self) -> (r: Token)
        requires
            old(self).wf(),
            special(old(self).current()),
        ensures
            final(self).wf(),
            final(self).text() == old(self).text(),
            final(self).position() == old(self).position() + 1,
            final(self).depth() == nested(old(self).depth(), old(self).current()),
            r@ == special_token(old(self).current()),
    {
        let c = self.next();
        if c == '(' || c == '[' {
            self.nesting = self.nesting + 1;
        } else if (c == ')' || c == ']') && self.nesting > 0 {
            self.nesting = self.nesting - 1;
        }
        if c == '(' {
            Token::LParen
        } else if c == ')' {
            Token::RParen
        } else if c == '[' {
            Token::LBracket
        } else if c == ']' {
            Token::RBracket
        } else if c == '{' {
            Token::LBrace
        } else if c == '}' {
            Token::RBrace
        } else if c == ',' {
            Token::Comma
        } else if c == '=' {
            Token::Equals
        } else {
            Token::Colon
        }
    }

    /// A token that started at `start` and ends before the current place.
    fn spanned(&self, token: Token, start: usize) -> (r: Span<Token>)
        requires
            self.wf(),
            start <= self.position(),
        ensures
            r@ == placed(token@, start as nat, (self.position() - start) as nat),
    {
        Span { contents: token, pos: start, len: self.index - start }
    }

    /// True if the character after the next one is `c`.
    fn second_is(&self, c: char) -> (r: bool)
        requires
            self.wf(),
        ensures
            r == (self.position() + 1 < self.text().len() && self.text()[self.position() + 1 as int]
                == c),
    {
        self.index < self.code.len() && self.index + 1 < self.code.len() && self.code[self.index
            + 1] == c
    }

    /// Splits the rest of the text into tokens.
    ///
    /// From the start of a text the result is `lex` of the text: the tokens
    /// and an unchanged log, or no result and one more entry in the log.
    pub fn go(&mut self, log: &mut Logger) -> (r: Option<Vec<Span<Token>>>)
        requires
            old(self).wf(),
        ensures
            final(self).wf(),
            final(self).text() == old(self).text(),
            match lex_from(
                old(self).text(),
                old(self).position(),
                old(self).depth(),
                Seq::empty(),
            ) {
                Ok(tokens) => r is Some && tokens_view(r->Some_0@) == tokens && final(log)@ == old(
                    log,
                )@,
                Err(e) => r is None && final(log)@ == old(log)@.push(e),
            },
    {
        let mut tokens: Vec<Span<Token>> = Vec::new();
        let ghost code = self.text();
        assert(tokens_view(tokens@) =~= Seq::empty());
        loop
            invariant
                self.wf(),
                self.text() == code,
                code == old(self).text(),
                log@ == old(log)@,
                lex_from(code, old(self).position(), old(self).depth(), Seq::empty()) == lex_from(
                    code,
                    self.position(),
                    self.depth(),
                    tokens_view(tokens@),
                ),
            decreases code.len() - self.position(),
        {
            let ch = self.peek();
            let start = self.index;
            let ghost before = tokens_view(tokens@);
            proof {
                lemma_ident_run(code, self.position() + 1);
                lemma_number_run(code, self.position() + 1, ch == '.');
                lemma_operator_run(code, self.position() + 1);
                lemma_string_run(code, self.position() + 1);
            }
            if ch == '\0' {
                return Some(tokens);
            } else if is_ident_start(ch) {
                let id = self.ident_str();
                let token = match str_to_keyword(&id) {
                    Some(t) => t,
                    None => str_to_ident(&id),
                };
                tokens.push(self.spanned(token, start));
                assert(tokens_view(tokens@) =~= before.push(
                    placed(
                        word(slice(code, start as nat, 1 + ident_run(code, start as nat + 1))),
                        start as nat,
                        1 + ident_run(code, start as nat + 1),
                    ),
                ));
            } else if is_number(ch, false) {
                let number = self.number();
                tokens.push(self.spanned(number, start));
                assert(tokens_view(tokens@) =~= before.push(
                    placed(number@, start as nat, (self.position() - start) as nat),
                ));
            } else if is_special(ch) && !(ch == '=' && self.second_is('=')) {
                let special = self.special();
                tokens.push(self.spanned(special, start));
                assert(tokens_view(tokens@) =~= before.push(
                    placed(special_token(ch), start as nat, 1),
                ));
            } else if ch == '"' {
                let string = match self.string(log) {
                    Some(t) => t,
                    None => {
                        return None;
                    },
                };
                tokens.push(self.spanned(string, start));
                assert(tokens_view(tokens@) =~= before.push(
                    placed(string@, start as nat, (self.position() - start) as nat),
                ));
            } else if is_op(ch) {
                let operator = self.operator();
                tokens.push(self.spanned(operator, start));
                assert(tokens_view(tokens@) =~= before.push(
                    placed(operator@, start as nat, (self.position() - start) as nat),
                ));
            } else if ch == '\n' {
                let suppressed = self.nesting != 0 || (tokens.len() > 0 && match &tokens[tokens.len()
                    - 1].contents {
                    Token::Newline => true,
                    Token::Op(_) => true,
                    Token::Comma => true,
                    _ => false,
                });
                self.next();
                if !suppressed {
                    tokens.push(self.spanned(Token::Newline, start));
                    assert(tokens_view(tokens@) =~= before.push(
                        placed(Tok::Newline, start as nat, 1),
                    ));
                }
            } else if is_space(ch) {
                self.next();
            } else {
                log.syntax_error("Unexpected character", start, 1);
                return None;
            }
        }
    }
}

} // verus!
