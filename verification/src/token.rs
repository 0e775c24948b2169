//! Token and source-location value types.

use vstd::prelude::*;

verus! {

/// What class of lexical unit a token is.
///
/// `EndOfInput` and `Invalid` both come with an empty token (`size == 0`):
/// the first says the buffer is exhausted, the second that the byte at the
/// cursor belongs to no token class, so the two cases can be told apart.
#[derive(Clone, Copy, PartialEq, Eq, Structural, Debug)]
pub enum TokenKind {
    Symbol,
    Identifier,
    Number,
    EndOfInput,
    Invalid,
}

/// A 1-based (row, column) position in the source. A freshly built
/// location is `(0, 0)`, meaning "not set yet"; it is written once per
/// token, at the token's first byte, via [`Location::change_loc`].
#[derive(Clone, Copy, PartialEq, Eq, Structural, Debug)]
pub struct Location {
    pub row: usize,
    pub col: usize,
}

impl Location {
    pub fn new(row: usize, col: usize) -> (l: Location)
        ensures
            l.row == row,
            l.col == col,
    {
        Location { row, col }
    }

    pub fn empty() -> (l: Location)
        ensures
            l.row == 0,
            l.col == 0,
    {
        Location { row: 0, col: 0 }
    }

    /// Store a position taken from the cursor's 0-based counters.
    /// Rows and columns are reported 1-based, so both are incremented.
    pub fn change_loc(&mut self, row: usize, col: usize)
        requires
            row < usize::MAX,
            col < usize::MAX,
        ensures
            final(self).row == row + 1,
            final(self).col == col + 1,
    {
        self.row = row + 1;
        self.col = col + 1;
    }
}

/// One lexical unit: a kind tag, the accumulated text, its byte length,
/// and the location of its first byte.
#[derive(Debug)]
pub struct Token {
    pub kind: TokenKind,
    pub value: Vec<u8>,
    pub size: usize,
    pub loc: Location,
}

impl Token {
    /// `size` is kept in sync with the text at all times.
    pub open spec fn wf(self) -> bool {
        self.size == self.value@.len()
    }

    /// A token with no text: the exhaustion / no-match signal.
    pub fn empty() -> (t: Token)
        ensures
            t.wf(),
            t.kind == TokenKind::EndOfInput,
            t.value@ == Seq::<u8>::empty(),
            t.size == 0,
            t.loc.row == 0,
            t.loc.col == 0,
    {
        Token { kind: TokenKind::EndOfInput, value: Vec::new(), size: 0, loc: Location::empty() }
    }

    pub fn new(kind: TokenKind, value: Vec<u8>, loc: Location) -> (t: Token)
        ensures
            t.wf(),
            t.kind == kind,
            t.value@ == value@,
            t.size == value@.len(),
            t.loc == loc,
    {
        let size = value.len();
        Token { kind, value, size, loc }
    }

    /// Append one byte to the token's text, keeping `size` in sync.
    pub fn write(&mut self, c: u8)
        requires
            old(self).wf(),
        ensures
            final(self).wf(),
            final(self).value@ == old(self).value@.push(c),
            final(self).size == old(self).size + 1,
            final(self).kind == old(self).kind,
            final(self).loc == old(self).loc,
    {
        self.value.push(c);
        self.size = self.value.len();
    }
}

} // verus!
