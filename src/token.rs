//! Tokens as the lexer hands them over, source locations, and diagnostics.

use vstd::prelude::*;

verus! {

/// A place in the source text: a file (by its index in the driver's file
/// table), a line, a column and a byte offset.
#[derive(Clone, Copy, Debug, PartialEq, Eq, Structural)]
pub struct Location {
    pub file: usize,
    pub line: usize,
    pub col: usize,
    pub offset: usize,
}

impl Location {
    pub fn new(file: usize, line: usize, col: usize, offset: usize) -> (r: Location)
        ensures
            r == (Location { file, line, col, offset }),
    {
        Location { file, line, col, offset }
    }
}

/// What the lexer found at one place.
#[derive(Clone, Debug)]
pub enum TokenData {
    Identifier(String),
    Keyword(String),
    Operator(String),
    Special(char),
}

/// One token of the stream, with where it stands.
#[derive(Clone, Debug)]
pub struct Token {
    pub loc: Location,
    pub data: TokenData,
}

/// A secondary location attached to a diagnostic.
#[derive(Clone, Debug)]
pub struct Note {
    pub loc: Location,
    pub message: String,
}

/// A diagnostic: codes under 100 are warnings, 100 and above are errors.
#[derive(Clone, Debug)]
pub struct Error {
    pub loc: Location,
    pub code: u32,
    pub message: String,
    pub notes: Vec<Note>,
}

/// What a contract says of a diagnostic: its code and its location.
pub open spec fn diag_of(e: Error) -> (u32, Location) {
    (e.code, e.loc)
}

/// The codes and locations of a list of diagnostics, in order.
pub open spec fn diags_of(es: Seq<Error>) -> Seq<(u32, Location)> {
    es.map_values(|e: Error| diag_of(e))
}

impl Error {
    pub fn new(loc: Location, code: u32, message: &str) -> (r: Error)
        ensures
            r.loc == loc,
            r.code == code,
            r.message@ == message@,
            r.notes@.len() == 0,
    {
        Error { loc, code, message: String::from_str(message), notes: Vec::new() }
    }

    /// Attaches a note and hands the diagnostic back.
    pub fn note(self, note: Note) -> (r: Error)
        ensures
            r.loc == self.loc,
            r.code == self.code,
            r.message == self.message,
            r.notes@ == self.notes@.push(note),
    {
        let mut e = self;
        e.notes.push(note);
        e
    }
}

impl Note {
    pub fn new(loc: Location, message: &str) -> (r: Note)
        ensures
            r.loc == loc,
            r.message@ == message@,
    {
        Note { loc, message: String::from_str(message) }
    }
}

} // verus!
