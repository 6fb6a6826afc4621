//! Positions and the error log.

use vstd::prelude::*;

verus! {

/// A value together with the place in the source it came from: the offset of
/// its first byte and its length in bytes.
#[derive(Debug)]
pub struct Span<T> {
    pub contents: T,
    pub pos: usize,
    pub len: usize,
}

impl<T: View> View for Span<T> {
    type V = Span<T::V>;

    open spec fn view(&self) -> Span<T::V> {
        Span { contents: self.contents@, pos: self.pos, len: self.len }
    }
}

/// The kinds of error the front end reports.
#[derive(Debug, Clone, Copy, PartialEq, Eq, Structural)]
pub enum ErrorType {
    SyntaxError,
    NameError,
}

/// One entry of the log.
#[derive(Debug)]
pub struct Error {
    pub typ: ErrorType,
    pub msg: String,
    pub pos: usize,
    pub len: usize,
}

/// What an [`Error`] says, as a mathematical value.
pub struct ErrorRecord {
    pub typ: ErrorType,
    pub msg: Seq<char>,
    pub pos: usize,
    pub len: usize,
}

impl View for Error {
    type V = ErrorRecord;

    open spec fn view(&self) -> ErrorRecord {
        ErrorRecord { typ: self.typ, msg: self.msg@, pos: self.pos, len: self.len }
    }
}

/// A syntax error with the given message and place.
pub open spec fn syntax_record(msg: Seq<char>, pos: usize, len: usize) -> ErrorRecord {
    ErrorRecord { typ: ErrorType::SyntaxError, msg, pos, len }
}

/// A name error with the given message and place.
pub open spec fn name_record(msg: Seq<char>, pos: usize, len: usize) -> ErrorRecord {
    ErrorRecord { typ: ErrorType::NameError, msg, pos, len }
}

/// The append-only error log. Entries stay in the order in which they were
/// reported.
pub struct Logger {
    pub errors: Vec<Error>,
}

impl View for Logger {
    type V = Seq<ErrorRecord>;

    open spec fn view(&self) -> Seq<ErrorRecord> {
        Seq::new(self.errors@.len(), |i: int| self.errors@[i]@)
    }
}

impl Logger {
    /// An empty log.
    pub fn new() -> (r: Logger)
        ensures
            r@ == Seq::<ErrorRecord>::empty(),
    {
        let r = Logger { errors: Vec::new() };
        assert(r@ =~= Seq::<ErrorRecord>::empty());
        r
    }

    /// Appends one entry.
    pub fn log(&mut self, typ: ErrorType, msg: &str, pos: usize, len: usize)
        ensures
            final(self)@ == old(self)@.push(ErrorRecord { typ, msg: msg@, pos, len }),
    {
        self.errors.push(Error { typ, msg: msg.to_owned(), pos, len });
        assert(self@ =~= old(self)@.push(ErrorRecord { typ, msg: msg@, pos, len }));
    }

    /// Appends a name error.
    #[inline]
    pub fn name_error(&mut self, msg: &str, pos: usize, len: usize)
        ensures
            final(self)@ == old(self)@.push(name_record(msg@, pos, len)),
    {
        self.log(ErrorType::NameError, msg, pos, len);
    }

    /// Appends a syntax error.
    #[inline]
    pub fn syntax_error(&mut self, msg: &str, pos: usize, len: usize)
        ensures
            final(self)@ == old(self)@.push(syntax_record(msg@, pos, len)),
    {
        self.log(ErrorType::SyntaxError, msg, pos, len);
    }

    /// The number of entries.
    pub fn count(&self) -> (n: usize)
        ensures
            n == self@.len(),
    {
        self.errors.len()
    }
}

} // verus!
