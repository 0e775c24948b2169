//! The lexer engine: cursor management over a loaded byte buffer,
//! row/column tracking, whitespace trimming, fixed-symbol matching and
//! alphanumeric scanning.

use vstd::prelude::*;

use crate::token::Location;
use crate::token::Token;
use crate::token::TokenKind;

verus! {

pub const SPACE: u8 = 32;
pub const NL: u8 = 10;
pub const OPAR: u8 = 40;
pub const CPAR: u8 = 41;
pub const OCURLY: u8 = 123;
pub const CCURLY: u8 = 125;
pub const PLUS: u8 = 43;
pub const MINUS: u8 = 45;
pub const COMA: u8 = 44;
pub const EQUAL: u8 = 61;
pub const GT: u8 = 62;
pub const LT: u8 = 60;

/// ASCII whitespace: space, tab, line feed, form feed, carriage return.
pub open spec fn is_ws(b: u8) -> bool {
    b == SPACE || b == 9 || b == NL || b == 12 || b == 13
}

pub open spec fn is_digit(b: u8) -> bool {
    48 <= b && b <= 57
}

pub open spec fn is_alpha(b: u8) -> bool {
    (97 <= b && b <= 122) || (65 <= b && b <= 90)
}

/// The Latin-1 bytes beyond ASCII whose character is Unicode-alphanumeric:
/// the ordinal indicators, micro sign, superscripts and vulgar fractions,
/// and the accented letters (the multiplication and division signs are not
/// letters).
pub open spec fn is_latin1_alnum(b: u8) -> bool {
    b == 0xAA || b == 0xB2 || b == 0xB3 || b == 0xB5 || b == 0xB9 || b == 0xBA || b == 0xBC || b
        == 0xBD || b == 0xBE || (0xC0 <= b && b <= 0xD6) || (0xD8 <= b && b <= 0xF6) || 0xF8 <= b
}

/// The bytes that scan into identifier/number runs: exactly those whose
/// Latin-1 character is alphanumeric.
pub open spec fn is_alnum(b: u8) -> bool {
    is_alpha(b) || is_digit(b) || is_latin1_alnum(b)
}

/// Bytes that form a one-character token on their own.
pub open spec fn is_single_symbol(b: u8) -> bool {
    b == MINUS || b == PLUS || b == OPAR || b == CPAR || b == OCURLY || b == CCURLY || b == COMA
}

/// Bytes that may extend to a two-character token: `<=`, `>=`, `=>`.
pub open spec fn is_extendable_symbol(b: u8) -> bool {
    b == LT || b == GT || b == EQUAL
}

pub open spec fn is_symbol_start(b: u8) -> bool {
    is_single_symbol(b) || is_extendable_symbol(b)
}

/// The byte that extends a two-character symbol: `=` after `<` or `>`,
/// `>` after `=`.
pub open spec fn extension_partner(b: u8) -> u8 {
    if b == EQUAL {
        GT
    } else {
        EQUAL
    }
}

/// The 0-based row of position `i`: the number of line feeds strictly
/// before it. Each advance of the cursor looks at the byte it consumes;
/// consuming a line feed moves to the next row.
pub open spec fn row_at(s: Seq<u8>, i: int) -> int
    decreases i,
{
    if i <= 0 {
        0
    } else if 0 <= i - 1 < s.len() && s[i - 1] == NL {
        row_at(s, i - 1) + 1
    } else {
        row_at(s, i - 1)
    }
}

/// The 0-based column of position `i`: its distance from the start of
/// its line. Consuming a line feed resets the column to 0, consuming any
/// other byte moves one column to the right.
pub open spec fn col_at(s: Seq<u8>, i: int) -> int
    decreases i,
{
    if i <= 0 {
        0
    } else if 0 <= i - 1 < s.len() && s[i - 1] == NL {
        0
    } else {
        col_at(s, i - 1) + 1
    }
}

/// The position where the line holding position `i` begins: 0, or just
/// past the last line feed before `i`.
pub open spec fn line_start(s: Seq<u8>, i: int) -> int
    decreases i,
{
    if i <= 0 {
        0
    } else if 0 <= i - 1 < s.len() && s[i - 1] == NL {
        i
    } else {
        line_start(s, i - 1)
    }
}

/// The first position at or after `i` that does not hold whitespace
/// (the length of the buffer if only whitespace remains).
pub open spec fn trim_end(s: Seq<u8>, i: int) -> int
    decreases s.len() - i,
{
    if 0 <= i && i < s.len() && is_ws(s[i]) {
        trim_end(s, i + 1)
    } else {
        i
    }
}

/// The first position at or after `i` that does not hold an alphanumeric
/// byte (the length of the buffer if only alphanumerics remain).
pub open spec fn run_end(s: Seq<u8>, i: int) -> int
    decreases s.len() - i,
{
    if 0 <= i && i < s.len() && is_alnum(s[i]) {
        run_end(s, i + 1)
    } else {
        i
    }
}

/// The position of the first line feed at or after `i` (the length of
/// the buffer if the rest of it holds none).
pub open spec fn line_end(s: Seq<u8>, i: int) -> int
    decreases s.len() - i,
{
    if 0 <= i && i < s.len() && s[i] != NL {
        line_end(s, i + 1)
    } else {
        i
    }
}

/// How many bytes the fixed-symbol match consumes at position `i`:
/// 2 for `<=`, `>=` and `=>`, 1 for any other symbol byte, 0 when the
/// byte starts no symbol or `i` is out of bounds.
pub open spec fn symbol_len_at(s: Seq<u8>, i: int) -> int {
    if !(0 <= i && i < s.len()) || !is_symbol_start(s[i]) {
        0
    } else if is_extendable_symbol(s[i]) && i + 1 < s.len() && s[i + 1] == extension_partner(
        s[i],
    ) {
        2
    } else {
        1
    }
}

/// How many bytes the token starting at position `i` takes: a fixed
/// symbol, or else a maximal alphanumeric run, or else nothing.
pub open spec fn token_len_at(s: Seq<u8>, i: int) -> int {
    if !(0 <= i && i < s.len()) {
        0
    } else if is_symbol_start(s[i]) {
        symbol_len_at(s, i)
    } else if is_alnum(s[i]) {
        run_end(s, i) - i
    } else {
        0
    }
}

/// The kind of the token starting at position `i`: symbols win over
/// scanning; an alphanumeric run starting with a digit is a number, any
/// other alphanumeric run an identifier; a byte in no class is invalid,
/// and past the end of the buffer there is only end of input.
pub open spec fn kind_at(s: Seq<u8>, i: int) -> TokenKind {
    if !(0 <= i && i < s.len()) {
        TokenKind::EndOfInput
    } else if is_symbol_start(s[i]) {
        TokenKind::Symbol
    } else if is_digit(s[i]) {
        TokenKind::Number
    } else if is_alnum(s[i]) {
        TokenKind::Identifier
    } else {
        TokenKind::Invalid
    }
}

/// The row and column counters never outrun the cursor.
pub proof fn lemma_pos_bounds(s: Seq<u8>, i: int)
    requires
        0 <= i,
    ensures
        0 <= row_at(s, i) <= i,
        0 <= col_at(s, i) <= i,
    decreases i,
{
    if i > 0 {
        lemma_pos_bounds(s, i - 1);
    }
}

/// Everything an alphanumeric run promises: it starts at `i`, stays
/// within the buffer, every byte in it is alphanumeric, and the byte
/// just after it, when there is one, is not.
pub proof fn lemma_run_end_props(s: Seq<u8>, i: int)
    requires
        0 <= i <= s.len(),
    ensures
        i <= run_end(s, i) <= s.len(),
        forall|k: int| i <= k < run_end(s, i) ==> is_alnum(s[k]),
        run_end(s, i) < s.len() ==> !is_alnum(s[run_end(s, i)]),
    decreases s.len() - i,
{
    if i < s.len() && is_alnum(s[i]) {
        lemma_run_end_props(s, i + 1);
    }
}

/// Everything whitespace trimming promises: it starts at `i`, stays
/// within the buffer, every byte it skips is whitespace, and the byte it
/// stops on, when there is one, is not.
pub proof fn lemma_trim_end_props(s: Seq<u8>, i: int)
    requires
        0 <= i <= s.len(),
    ensures
        i <= trim_end(s, i) <= s.len(),
        forall|k: int| i <= k < trim_end(s, i) ==> is_ws(s[k]),
        trim_end(s, i) < s.len() ==> !is_ws(s[trim_end(s, i)]),
    decreases s.len() - i,
{
    if i < s.len() && is_ws(s[i]) {
        lemma_trim_end_props(s, i + 1);
    }
}

proof fn lemma_trim_end_shift(s: Seq<u8>, b: u8, i: int)
    requires
        0 <= i <= s.len(),
    ensures
        trim_end(seq![b] + s, i + 1) == trim_end(s, i) + 1,
    decreases s.len() - i,
{
    let t = seq![b] + s;
    if i < s.len() {
        assert(t[i + 1] == s[i]);
        if is_ws(s[i]) {
            lemma_trim_end_shift(s, b, i + 1);
        }
    }
}

proof fn lemma_run_end_shift(s: Seq<u8>, b: u8, i: int)
    requires
        0 <= i <= s.len(),
    ensures
        run_end(seq![b] + s, i + 1) == run_end(s, i) + 1,
    decreases s.len() - i,
{
    let t = seq![b] + s;
    if i < s.len() {
        assert(t[i + 1] == s[i]);
        if is_alnum(s[i]) {
            lemma_run_end_shift(s, b, i + 1);
        }
    }
}

/// Law: tokenizing is insensitive to leading whitespace. Prepending one
/// whitespace byte to the buffer moves the trimmed start one position to
/// the right and leaves the next token's length, kind and text exactly as
/// they were: only the recorded positions can move. A whole run of
/// whitespace follows by applying this once per byte.
pub proof fn lemma_whitespace_insensitivity(s: Seq<u8>, b: u8)
    requires
        is_ws(b),
    ensures
        ({
            let t = seq![b] + s;
            let j = trim_end(s, 0);
            &&& trim_end(t, 0) == j + 1
            &&& token_len_at(t, j + 1) == token_len_at(s, j)
            &&& kind_at(t, j + 1) == kind_at(s, j)
            &&& t.subrange(j + 1, j + 1 + token_len_at(s, j)) == s.subrange(
                j,
                j + token_len_at(s, j),
            )
        }),
{
    let t = seq![b] + s;
    lemma_trim_end_props(s, 0);
    let j = trim_end(s, 0);
    let n = token_len_at(s, j);
    lemma_trim_end_shift(s, b, 0);
    assert(t[0] == b);
    if j < s.len() {
        assert(t[j + 1] == s[j]);
        if is_symbol_start(s[j]) {
            if j + 1 < s.len() {
                assert(t[j + 2] == s[j + 1]);
            }
        } else if is_alnum(s[j]) {
            lemma_run_end_shift(s, b, j);
            lemma_run_end_props(s, j);
        }
    }
    assert(t.subrange(j + 1, j + 1 + n) =~= s.subrange(j, j + n));
}

/// Law: the location stamped into a token is the true 1-based position
/// of the token's first byte, however many tokens came before it. The
/// row counter is, by its definition, the number of line feeds before
/// the byte; this lemma pins the column counter as the byte's offset
/// from the start of its line, whose properties it states alongside:
/// the line starts at or before the byte, right after a line feed unless
/// the line is the first, and no line feed lies between the two.
pub proof fn lemma_location_exact(s: Seq<u8>, i: int)
    requires
        0 <= i,
    ensures
        col_at(s, i) == i - line_start(s, i),
        0 <= line_start(s, i) <= i,
        line_start(s, i) > 0 ==> s[line_start(s, i) - 1] == NL,
        forall|k: int| line_start(s, i) <= k < i && k < s.len() ==> s[k] != NL,
    decreases i,
{
    if i > 0 {
        lemma_location_exact(s, i - 1);
    }
}

/// Law: an input that is exactly one fixed-symbol byte round-trips. No
/// whitespace is trimmed, the token takes the whole input as its text,
/// its kind is Symbol and its length 1, it is stamped row 1, column 1,
/// and the cursor comes to rest at the end of the buffer, where only
/// end-of-input tokens remain.
pub proof fn lemma_single_symbol_roundtrip(s: Seq<u8>)
    requires
        s.len() == 1,
        is_symbol_start(s[0]),
    ensures
        trim_end(s, 0) == 0,
        token_len_at(s, 0) == 1,
        s.subrange(0, 1) == s,
        kind_at(s, 0) == TokenKind::Symbol,
        row_at(s, 0) == 0,
        col_at(s, 0) == 0,
        trim_end(s, 1) == 1,
        token_len_at(s, 1) == 0,
        kind_at(s, 1) == TokenKind::EndOfInput,
{
    assert(s.subrange(0, 1) =~= s);
}

/// Law: identifier and number scanning is maximal munch. The token
/// starting at an alphanumeric byte is non-empty, every byte of it is
/// alphanumeric, and the byte just after it, when there is one, is not:
/// the run could not have been extended.
pub proof fn lemma_maximal_munch(s: Seq<u8>, i: int)
    requires
        0 <= i < s.len(),
        is_alnum(s[i]),
    ensures
        ({
            let e = i + token_len_at(s, i);
            &&& i < e <= s.len()
            &&& forall|k: int| i <= k < e ==> is_alnum(s[k])
            &&& (e < s.len() ==> !is_alnum(s[e]))
        }),
{
    assert(!is_symbol_start(s[i]));
    lemma_run_end_props(s, i);
    lemma_run_end_props(s, i + 1);
}

proof fn lemma_trim_end_is(s: Seq<u8>, i: int, m: int)
    requires
        0 <= i <= m <= s.len(),
        forall|k: int| i <= k < m ==> is_ws(s[k]),
        m < s.len() ==> !is_ws(s[m]),
    ensures
        trim_end(s, i) == m,
    decreases m - i,
{
    if i < m {
        lemma_trim_end_is(s, i + 1, m);
    }
}

proof fn lemma_run_end_is(s: Seq<u8>, i: int, m: int)
    requires
        0 <= i <= m <= s.len(),
        forall|k: int| i <= k < m ==> is_alnum(s[k]),
        m < s.len() ==> !is_alnum(s[m]),
    ensures
        run_end(s, i) == m,
    decreases m - i,
{
    if i < m {
        lemma_run_end_is(s, i + 1, m);
    }
}

proof fn lemma_line_end_is(s: Seq<u8>, i: int, m: int)
    requires
        0 <= i <= m <= s.len(),
        forall|k: int| i <= k < m ==> s[k] != NL,
        m < s.len() ==> s[m] == NL,
    ensures
        line_end(s, i) == m,
    decreases m - i,
{
    if i < m {
        lemma_line_end_is(s, i + 1, m);
    }
}

pub fn ws_byte(b: u8) -> (r: bool)
    ensures
        r == is_ws(b),
{
    b == SPACE || b == 9 || b == NL || b == 12 || b == 13
}

pub fn digit_byte(b: u8) -> (r: bool)
    ensures
        r == is_digit(b),
{
    48 <= b && b <= 57
}

pub fn alnum_byte(b: u8) -> (r: bool)
    ensures
        r == is_alnum(b),
{
    (97 <= b && b <= 122) || (65 <= b && b <= 90) || (48 <= b && b <= 57) || b == 0xAA || b == 0xB2
        || b == 0xB3 || b == 0xB5 || b == 0xB9 || b == 0xBA || b == 0xBC || b == 0xBD || b == 0xBE
        || (0xC0 <= b && b <= 0xD6) || (0xD8 <= b && b <= 0xF6) || 0xF8 <= b
}

pub fn single_symbol_byte(b: u8) -> (r: bool)
    ensures
        r == is_single_symbol(b),
{
    b == MINUS || b == PLUS || b == OPAR || b == CPAR || b == OCURLY || b == CCURLY || b == COMA
}

/// The source buffer and its cursor: the raw bytes of one file, the
/// current read position, and the 0-based row/column counters that
/// [`Lexer::chop`] keeps in step with the cursor.
pub struct Lexer {
    pub source: Vec<u8>,
    pub cur: usize,
    pub row: usize,
    pub col: usize,
    pub size: usize,
}

impl Lexer {
    /// `size` is fixed at load time, the cursor never passes it, and the
    /// row/column counters always describe the cursor's position.
    pub open spec fn wf(self) -> bool {
        &&& self.size == self.source@.len()
        &&& self.cur <= self.size
        &&& self.row == row_at(self.source@, self.cur as int)
        &&& self.col == col_at(self.source@, self.cur as int)
    }

    /// The byte under the cursor, or NUL once the buffer is exhausted.
    pub open spec fn byte_at(self) -> u8 {
        if self.cur < self.source@.len() {
            self.source@[self.cur as int]
        } else {
            0
        }
    }

    pub fn new(source: Vec<u8>) -> (l: Lexer)
        ensures
            l.wf(),
            l.source@ == source@,
            l.cur == 0,
            l.row == 0,
            l.col == 0,
    {
        let size = source.len();
        Lexer { source, cur: 0, row: 0, col: 0, size }
    }

    /// The byte at `index`, or NUL when `index` is at or past the end of
    /// the buffer: never an out-of-bounds read, whatever the index.
    pub fn get_char(&self, index: usize) -> (c: u8)
        requires
            self.size == self.source@.len(),
        ensures
            index < self.size ==> c == self.source@[index as int],
            index >= self.size ==> c == 0,
    {
        if index < self.size {
            self.source[index]
        } else {
            0
        }
    }

    /// The byte under the cursor, or NUL once the buffer is exhausted.
    pub fn get_current(&self) -> (c: u8)
        requires
            self.size == self.source@.len(),
        ensures
            c == self.byte_at(),
    {
        self.get_char(self.cur)
    }

    pub fn is_not_empty(&self) -> (r: bool)
        ensures
            r == (self.cur < self.size),
    {
        self.cur < self.size
    }

    /// Advance the cursor one byte, unless the buffer is exhausted, and
    /// keep the row/column counters in step: consuming a line feed opens
    /// the next row at column 0, consuming any other byte moves one
    /// column to the right. This is the single point where row and
    /// column change; every scanning operation routes through it.
    pub fn chop(&mut self) -> (r: usize)
        requires
            old(self).wf(),
        ensures
            final(self).wf(),
            final(self).source@ == old(self).source@,
            final(self).size == old(self).size,
            final(self).cur == if old(self).cur < old(self).size {
                old(self).cur + 1
            } else {
                old(self).cur as int
            },
            r == final(self).cur,
    {
        proof {
            lemma_pos_bounds(self.source@, self.cur as int);
        }
        if self.is_not_empty() {
            let c = self.get_current();
            self.cur = self.cur + 1;
            if c == NL {
                self.row = self.row + 1;
                self.col = 0;
            } else {
                self.col = self.col + 1;
            }
        }
        self.cur
    }

    /// Advance until a line feed has been consumed, or the buffer ends:
    /// the cursor comes to rest just past the first line feed at or after
    /// its old position, or at the end of the buffer if none remains.
    pub fn chop_line(&mut self)
        requires
            old(self).wf(),
        ensures
            final(self).wf(),
            final(self).source@ == old(self).source@,
            final(self).size == old(self).size,
            final(self).cur == if line_end(old(self).source@, old(self).cur as int)
                < old(self).size {
                line_end(old(self).source@, old(self).cur as int) + 1
            } else {
                old(self).size as int
            },
    {
        let ghost s = self.source@;
        let ghost i0 = self.cur as int;
        while self.is_not_empty() && self.get_current() != NL
            invariant
                self.wf(),
                self.source@ == s,
                i0 <= self.cur as int,
                forall|k: int| i0 <= k < self.cur as int ==> s[k] != NL,
            decreases self.size - self.cur,
        {
            self.chop();
        }
        proof {
            lemma_line_end_is(s, i0, self.cur as int);
        }
        self.chop();
    }

    /// Advance past any run of whitespace: the cursor comes to rest on
    /// the first non-whitespace byte at or after its old position, or at
    /// the end of the buffer.
    pub fn trim_spaces_left(&mut self)
        requires
            old(self).wf(),
        ensures
            final(self).wf(),
            final(self).source@ == old(self).source@,
            final(self).size == old(self).size,
            final(self).cur as int == trim_end(old(self).source@, old(self).cur as int),
    {
        let ghost s = self.source@;
        let ghost i0 = self.cur as int;
        while ws_byte(self.get_current())
            invariant
                self.wf(),
                self.source@ == s,
                i0 <= self.cur as int,
                forall|k: int| i0 <= k < self.cur as int ==> is_ws(s[k]),
            decreases self.size - self.cur,
        {
            self.chop();
        }
        proof {
            lemma_trim_end_is(s, i0, self.cur as int);
        }
    }

    /// Try the fixed-symbol match at the cursor. On a symbol byte this
    /// appends the one- or two-byte symbol to `token`, stamps the token's
    /// location with the cursor's position, marks it a symbol, and
    /// consumes exactly the matched bytes; the lookahead byte of `<`, `>`
    /// and `=` is consumed only when it extends the symbol. On any other
    /// byte, and at the end of the buffer, lexer and token are unchanged.
    pub fn match_current(&mut self, token: &mut Token)
        requires
            old(self).wf(),
            old(token).wf(),
        ensures
            final(self).wf(),
            final(token).wf(),
            final(self).source@ == old(self).source@,
            final(self).size == old(self).size,
            ({
                let s = old(self).source@;
                let i = old(self).cur as int;
                let n = symbol_len_at(s, i);
                &&& final(self).cur as int == i + n
                &&& final(token).value@ == old(token).value@ + s.subrange(i, i + n)
                &&& final(token).size == old(token).size + n
                &&& (n > 0 ==> final(token).kind == TokenKind::Symbol)
                &&& (n > 0 ==> final(token).loc.row as int == row_at(s, i) + 1)
                &&& (n > 0 ==> final(token).loc.col as int == col_at(s, i) + 1)
                &&& (n == 0 ==> *final(token) == *old(token))
            }),
    {
        let ghost s = self.source@;
        let ghost i = self.cur as int;
        proof {
            lemma_pos_bounds(s, i);
        }
        let c = self.get_current();
        if single_symbol_byte(c) {
            token.write(c);
            token.kind = TokenKind::Symbol;
            token.loc.change_loc(self.row, self.col);
            self.chop();
            proof {
                assert(old(token).value@ + s.subrange(i, i + 1) =~= old(token).value@.push(c));
            }
        } else if c == LT || c == GT || c == EQUAL {
            let partner = if c == EQUAL {
                GT
            } else {
                EQUAL
            };
            token.write(c);
            token.kind = TokenKind::Symbol;
            token.loc.change_loc(self.row, self.col);
            self.chop();
            let mut extended = false;
            if self.is_not_empty() {
                let c2 = self.get_current();
                if c2 == partner {
                    token.write(c2);
                    self.chop();
                    extended = true;
                    proof {
                        assert(old(token).value@ + s.subrange(i, i + 2) =~= old(
                            token,
                        ).value@.push(c).push(c2));
                    }
                }
            }
            proof {
                if !extended {
                    assert(old(token).value@ + s.subrange(i, i + 1) =~= old(token).value@.push(c));
                }
            }
        } else {
            proof {
                assert(old(token).value@ + s.subrange(i, i) =~= old(token).value@);
            }
        }
    }

    /// Produce the next token. Whitespace before the token is skipped;
    /// then the fixed-symbol match is tried, and failing that a maximal
    /// alphanumeric run is scanned (a number when it starts with a digit,
    /// an identifier otherwise). The token's text is exactly the consumed
    /// byte range, its location is the 1-based position of its first
    /// byte, and the cursor stops right after the token. When nothing
    /// matches the token is empty and the cursor does not move past the
    /// offending byte: its kind says whether the buffer is exhausted or
    /// an unrecognized byte sits at the cursor.
    ///
    /// In particular, once the cursor has reached the end of the buffer,
    /// every further call returns an end-of-input token and leaves the
    /// cursor where it was.
    pub fn next(&mut self) -> (t: Token)
        requires
            old(self).wf(),
        ensures
            final(self).wf(),
            t.wf(),
            final(self).source@ == old(self).source@,
            final(self).size == old(self).size,
            ({
                let s = old(self).source@;
                let j = trim_end(s, old(self).cur as int);
                let n = token_len_at(s, j);
                &&& final(self).cur as int == j + n
                &&& t.value@ == s.subrange(j, j + n)
                &&& t.size as int == n
                &&& t.kind == kind_at(s, j)
                &&& (n > 0 ==> t.loc.row as int == row_at(s, j) + 1)
                &&& (n > 0 ==> t.loc.col as int == col_at(s, j) + 1)
                &&& (n == 0 ==> t.loc.row == 0 && t.loc.col == 0)
            }),
            old(self).cur == old(self).size ==> t.kind == TokenKind::EndOfInput && t.size == 0
                && final(self).cur == old(self).cur,
    {
        let ghost s = self.source@;
        self.trim_spaces_left();
        let ghost j = self.cur as int;
        let mut token = Token::empty();
        self.match_current(&mut token);
        if token.size > 0 {
            proof {
                assert(token.value@ =~= s.subrange(j, j + symbol_len_at(s, j)));
            }
            return token;
        }
        let mut c = self.get_current();
        if alnum_byte(c) {
            proof {
                lemma_pos_bounds(s, j);
                assert(s.subrange(j, j) =~= Seq::<u8>::empty());
            }
            if digit_byte(c) {
                token.kind = TokenKind::Number;
            } else {
                token.kind = TokenKind::Identifier;
            }
            token.loc.change_loc(self.row, self.col);
            let ghost kind0 = token.kind;
            let ghost loc0 = token.loc;
            while alnum_byte(c)
                invariant
                    self.wf(),
                    self.source@ == s,
                    0 <= j <= self.cur as int <= s.len(),
                    c == self.byte_at(),
                    token.wf(),
                    token.value@ == s.subrange(j, self.cur as int),
                    token.kind == kind0,
                    token.loc == loc0,
                    forall|k: int| j <= k < self.cur as int ==> is_alnum(s[k]),
                decreases self.size - self.cur,
            {
                token.write(c);
                self.chop();
                c = self.get_current();
                proof {
                    assert(s.subrange(j, self.cur as int) =~= s.subrange(
                        j,
                        self.cur as int - 1,
                    ).push(s[self.cur as int - 1]));
                }
            }
            proof {
                lemma_run_end_is(s, j, self.cur as int);
            }
            return token;
        }
        if self.is_not_empty() {
            token.kind = TokenKind::Invalid;
        } else {
            token.kind = TokenKind::EndOfInput;
        }
        proof {
            assert(s.subrange(j, j) =~= Seq::<u8>::empty());
        }
        token
    }
}

} // verus!
