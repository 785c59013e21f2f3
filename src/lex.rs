use vstd::prelude::*;
use vstd::string::StringSliceAdditionalSpecFns;

use crate::scan::{find_requires, int_pairs, require_sites};

verus! {

/// A position in a source text: byte offset, zero-based line and column.
#[derive(Debug, Clone, Copy, PartialEq, Eq, Hash, Default)]
pub struct Loc {
    pub pos: usize,
    pub row: usize,
    pub col: usize,
}

impl Loc {
    pub fn new(pos: usize, row: usize, col: usize) -> (r: Self)
        ensures
            r.pos == pos,
            r.row == row,
            r.col == col,
    {
        Loc { pos, row, col }
    }

    pub fn zero() -> (r: Self)
        ensures
            r.pos == 0,
            r.row == 0,
            r.col == 0,
    {
        Loc::new(0, 0, 0)
    }
}

/// A region of a named source text.
#[derive(Debug, Clone, Copy, PartialEq, Eq, Hash)]
pub struct Span<'a> {
    pub file_name: &'a str,
    pub start: Loc,
    pub end: Loc,
}

impl<'a> Span<'a> {
    pub fn new(file_name: &'a str, start: Loc, end: Loc) -> (r: Self)
        ensures
            r.file_name == file_name,
            r.start == start,
            r.end == end,
    {
        Span { file_name, start, end }
    }
}

/// The kinds of lexical construct that the scanner tells apart.
#[derive(Debug, Clone, Copy, PartialEq, Eq, Hash)]
pub enum Tt {
    StrLit,
    Template,
    Comment,
    Regex,
    Ident,
    Punct,
    Eof,
}

/// A token: its kind and where it stands.
#[derive(Debug, Clone, Copy, PartialEq, Eq, Hash)]
pub struct Tok<'a> {
    pub tt: Tt,
    pub span: Span<'a>,
}

/// A scanner over one named source text.
#[derive(Debug)]
pub struct Lexer<'a, 'b> {
    file_name: &'a str,
    input: &'b str,
}

impl<'a, 'b> Lexer<'a, 'b> {
    pub fn new(file_name: &'a str, input: &'b str) -> (r: Self)
        ensures
            r.file_name() == file_name,
            r.input() == input,
    {
        Lexer { file_name, input }
    }

    /// The spans of the literals that name a required module in the input,
    /// quotes included, in order.
    pub fn require_spans(&self) -> (r: Vec<(usize, usize)>)
        ensures
            int_pairs(r@) == require_sites(self.input().spec_bytes()),
    {
        find_requires(self.input.as_bytes())
    }

    pub closed spec fn file_name(&self) -> &'a str {
        self.file_name
    }

    pub closed spec fn input(&self) -> &'b str {
        self.input
    }
}

} // verus!
