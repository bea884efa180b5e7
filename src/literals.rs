//! Literal nodes of the syntax tree.

use vstd::prelude::*;
use crate::token::Location;

verus! {

/// An integer literal with its optional type suffix (`5u8`).
#[derive(Debug)]
pub struct IntLiteralAST {
    pub loc: Location,
    pub val: i128,
    pub suffix: Option<String>,
}

impl IntLiteralAST {
    pub fn new(loc: Location, val: i128, suffix: Option<String>) -> (r: Self)
        ensures
            r.loc == loc,
            r.val == val,
            r.suffix == suffix,
    {
        IntLiteralAST { loc, val, suffix }
    }

    /// Where the literal stands.
    pub fn loc(&self) -> (r: Location)
        ensures
            r == self.loc,
    {
        self.loc
    }
}

/// A character literal with its optional suffix.
#[derive(Debug)]
pub struct CharLiteralAST {
    pub loc: Location,
    pub val: char,
    pub suffix: Option<String>,
}

impl CharLiteralAST {
    pub fn new(loc: Location, val: char, suffix: Option<String>) -> (r: Self)
        ensures
            r.loc == loc,
            r.val == val,
            r.suffix == suffix,
    {
        CharLiteralAST { loc, val, suffix }
    }

    /// Where the literal stands.
    pub fn loc(&self) -> (r: Location)
        ensures
            r == self.loc,
    {
        self.loc
    }
}

/// A string literal with its optional suffix.
#[derive(Debug)]
pub struct StringLiteralAST {
    pub loc: Location,
    pub val: String,
    pub suffix: Option<String>,
}

impl StringLiteralAST {
    pub fn new(loc: Location, val: String, suffix: Option<String>) -> (r: Self)
        ensures
            r.loc == loc,
            r.val == val,
            r.suffix == suffix,
    {
        StringLiteralAST { loc, val, suffix }
    }

    /// Where the literal stands.
    pub fn loc(&self) -> (r: Location)
        ensures
            r == self.loc,
    {
        self.loc
    }
}

} // verus!
