//! Lexing as mathematics: the tokens that a text consists of.

use vstd::prelude::*;
use crate::errors::{syntax_record, ErrorRecord, Span};
use crate::lexer::Tok;

verus! {

/// A letter of the ASCII alphabet or an underscore.
pub open spec fn ident_start(c: char) -> bool {
    ('a' <= c && c <= 'z') || ('A' <= c && c <= 'Z') || c == '_'
}

/// A decimal digit.
pub open spec fn digit(c: char) -> bool {
    '0' <= c && c <= '9'
}

/// A character of an identifier.
pub open spec fn ident_char(c: char) -> bool {
    ident_start(c) || digit(c)
}

/// A character of a number: a digit, or the first decimal point.
pub open spec fn number_char(c: char, decimal_passed: bool) -> bool {
    digit(c) || (c == '.' && !decimal_passed)
}

/// One of the characters that are tokens by themselves.
pub open spec fn special(c: char) -> bool {
    c == '(' || c == ')' || c == '[' || c == ']' || c == '{' || c == '}' || c == ',' || c == '='
        || c == ':'
}

/// A punctuation character of ASCII.
pub open spec fn punctuation(c: char) -> bool {
    ('!' <= c && c <= '/') || (':' <= c && c <= '@') || ('[' <= c && c <= '`') || ('{' <= c && c
        <= '~')
}

/// A character that may follow the first one of an operator: punctuation
/// but for brackets, the comma, the colon, the quote and the underscore.
pub open spec fn operator_char(c: char) -> bool {
    punctuation(c) && !(c == '(' || c == ')' || c == '[' || c == ']' || c == '{' || c == '}' || c
        == ',' || c == ':' || c == '"' || c == '_')
}

/// A whitespace character of ASCII.
pub open spec fn space(c: char) -> bool {
    c == ' ' || c == '\t' || c == '\n' || c == '\x0C' || c == '\r'
}

/// The keyword that a word is, if it is one.
pub open spec fn keyword(s: Seq<char>) -> Option<Tok> {
    if s == "proc"@ {
        Some(Tok::Proc)
    } else if s == "if"@ {
        Some(Tok::If)
    } else if s == "else"@ {
        Some(Tok::Else)
    } else if s == "elif"@ {
        Some(Tok::Elif)
    } else if s == "while"@ {
        Some(Tok::While)
    } else if s == "loop"@ {
        Some(Tok::Loop)
    } else if s == "var"@ {
        Some(Tok::Var)
    } else if s == "const"@ {
        Some(Tok::Const)
    } else if s == "return"@ {
        Some(Tok::Return)
    } else if s == "use"@ {
        Some(Tok::Use)
    } else {
        None
    }
}

/// The token of a word: a keyword or an identifier.
pub open spec fn word(s: Seq<char>) -> Tok {
    match keyword(s) {
        Some(t) => t,
        None => Tok::Ident(s),
    }
}

/// The token of a special character.
pub open spec fn special_token(c: char) -> Tok {
    if c == '(' {
        Tok::LParen
    } else if c == ')' {
        Tok::RParen
    } else if c == '[' {
        Tok::LBracket
    } else if c == ']' {
        Tok::RBracket
    } else if c == '{' {
        Tok::LBrace
    } else if c == '}' {
        Tok::RBrace
    } else if c == ',' {
        Tok::Comma
    } else if c == '=' {
        Tok::Equals
    } else {
        Tok::Colon
    }
}

/// The number of brackets that are open after a special character.
pub open spec fn nested(nesting: nat, c: char) -> nat {
    if c == '(' || c == '[' {
        nesting + 1
    } else if (c == ')' || c == ']') && nesting > 0 {
        (nesting - 1) as nat
    } else {
        nesting
    }
}

/// The number of identifier characters from place `i` on.
pub open spec fn ident_run(code: Seq<char>, i: nat) -> nat
    decreases code.len() - i,
{
    if i < code.len() && ident_char(code[i as int]) {
        1 + ident_run(code, i + 1)
    } else {
        0
    }
}

/// The number of operator characters from place `i` on.
pub open spec fn operator_run(code: Seq<char>, i: nat) -> nat
    decreases code.len() - i,
{
    if i < code.len() && operator_char(code[i as int]) {
        1 + operator_run(code, i + 1)
    } else {
        0
    }
}

/// The number of characters of a number from place `i` on, and whether a
/// decimal point is among them or was passed before.
pub open spec fn number_run(code: Seq<char>, i: nat, decimal_passed: bool) -> (nat, bool)
    decreases code.len() - i,
{
    if i < code.len() && number_char(code[i as int], decimal_passed) {
        let (n, d) = number_run(code, i + 1, decimal_passed || code[i as int] == '.');
        (1 + n, d)
    } else {
        (0, decimal_passed)
    }
}

/// The number of characters from place `i` up to the quote that ends a
/// string, if one ends it.
pub open spec fn string_run(code: Seq<char>, i: nat) -> Option<nat>
    decreases code.len() - i,
{
    if i >= code.len() || code[i as int] == '\0' {
        None
    } else if code[i as int] == '"' {
        Some(0)
    } else {
        match string_run(code, i + 1) {
            Some(n) => Some(1 + n),
            None => None,
        }
    }
}

/// The `n` characters of a text from place `i` on.
pub open spec fn slice(code: Seq<char>, i: nat, n: nat) -> Seq<char> {
    code.subrange(i as int, i + n as int)
}

/// A token at a place.
pub open spec fn placed(t: Tok, pos: nat, len: nat) -> Span<Tok> {
    Span { contents: t, pos: pos as usize, len: len as usize }
}

/// True if a newline after these tokens ends no statement: the last of
/// them is a newline, an operator or a comma. After no token at all a
/// newline counts.
pub open spec fn continues(acc: Seq<Span<Tok>>) -> bool {
    acc.len() > 0 && (acc.last().contents is Newline || acc.last().contents is Op
        || acc.last().contents is Comma)
}

/// What is reported for a string that the text ends in.
pub open spec fn unterminated() -> Seq<char> {
    "Encountered the end of the file inside a string"@
}

/// What is reported for a character that starts no token.
pub open spec fn bad_character() -> Seq<char> {
    "Unexpected character"@
}

/// The number of characters from place `i` to the end.
pub open spec fn left(code: Seq<char>, i: nat) -> nat {
    if i <= code.len() {
        (code.len() - i) as nat
    } else {
        0
    }
}

/// The tokens of a text from place `i` on, appended to `acc`, with `nesting`
/// brackets open. The text ends at its end or at a NUL character.
pub open spec fn lex_from(code: Seq<char>, i: nat, nesting: nat, acc: Seq<Span<Tok>>) -> Result<
    Seq<Span<Tok>>,
    ErrorRecord,
>
    decreases left(code, i),
{
    if i >= code.len() || code[i as int] == '\0' {
        Ok(acc)
    } else {
        let c = code[i as int];
        if ident_start(c) {
            let n = 1 + ident_run(code, i + 1);
            lex_from(
                code,
                i + n,
                nesting,
                acc.push(placed(word(slice(code, i, n)), i, n)),
            )
        } else if number_char(c, false) {
            let (m, decimal) = number_run(code, i + 1, c == '.');
            let n = 1 + m;
            let text = slice(code, i, n);
            lex_from(
                code,
                i + n,
                nesting,
                acc.push(
                    placed(
                        if decimal {
                            Tok::FloatLiteral(text)
                        } else {
                            Tok::IntLiteral(text)
                        },
                        i,
                        n,
                    ),
                ),
            )
        } else if special(c) && !(c == '=' && i + 1 < code.len() && code[i + 1 as int] == '=') {
            lex_from(code, i + 1, nested(nesting, c), acc.push(placed(special_token(c), i, 1)))
        } else if c == '"' {
            match string_run(code, i + 1) {
                Some(n) => lex_from(
                    code,
                    i + n + 2,
                    nesting,
                    acc.push(
                        placed(Tok::StrLiteral(slice(code, i + 1, n)), i, n + 2),
                    ),
                ),
                None => Err(syntax_record(unterminated(), i as usize, 1)),
            }
        } else if punctuation(c) {
            let n = 1 + operator_run(code, i + 1);
            lex_from(
                code,
                i + n,
                nesting,
                acc.push(placed(Tok::Op(slice(code, i, n)), i, n)),
            )
        } else if c == '\n' {
            if continues(acc) || nesting != 0 {
                lex_from(code, i + 1, nesting, acc)
            } else {
                lex_from(code, i + 1, nesting, acc.push(placed(Tok::Newline, i, 1)))
            }
        } else if space(c) {
            lex_from(code, i + 1, nesting, acc)
        } else {
            Err(syntax_record(bad_character(), i as usize, 1))
        }
    }
}

/// The tokens of a text, or the error that lexing it reports.
pub open spec fn lex(code: Seq<char>) -> Result<Seq<Span<Tok>>, ErrorRecord> {
    lex_from(code, 0, 0, Seq::empty())
}

/// A run of identifier characters stays within the text.
pub proof fn lemma_ident_run(code: Seq<char>, i: nat)
    ensures
        i <= code.len() ==> i + ident_run(code, i) <= code.len(),
    decreases code.len() - i,
{
    if i < code.len() && ident_char(code[i as int]) {
        lemma_ident_run(code, i + 1);
    }
}

/// A run of operator characters stays within the text.
pub proof fn lemma_operator_run(code: Seq<char>, i: nat)
    ensures
        i <= code.len() ==> i + operator_run(code, i) <= code.len(),
    decreases code.len() - i,
{
    if i < code.len() && operator_char(code[i as int]) {
        lemma_operator_run(code, i + 1);
    }
}

/// A run of number characters stays within the text.
pub proof fn lemma_number_run(code: Seq<char>, i: nat, decimal_passed: bool)
    ensures
        i <= code.len() ==> i + number_run(code, i, decimal_passed).0 <= code.len(),
    decreases code.len() - i,
{
    if i < code.len() && number_char(code[i as int], decimal_passed) {
        lemma_number_run(code, i + 1, decimal_passed || code[i as int] == '.');
    }
}

/// The quote that ends a string lies within the text.
pub proof fn lemma_string_run(code: Seq<char>, i: nat)
    ensures
        match string_run(code, i) {
            Some(n) => i + n < code.len(),
            None => true,
        },
    decreases code.len() - i,
{
    if !(i >= code.len() || code[i as int] == '\0') && code[i as int] != '"' {
        lemma_string_run(code, i + 1);
    }
}

} // verus!
