//! A line-based location marker attached to diagnostics.

use vstd::prelude::*;

use crate::digits::dec_rep;
use crate::digits::digit_char;
use crate::digits::digit_char_of;

verus! {

/// A source position: a line number that starts at 1 and grows by one for
/// every newline the lexer consumes. Its abstract value is the line number.
#[derive(Clone, Copy, Debug, PartialEq, Eq)]
pub struct Position {
    line: u16,
}

impl View for Position {
    type V = int;

    closed spec fn view(&self) -> int {
        self.line as int
    }
}

impl Position {
    /// Builds a position at the given line.
    pub fn new(line: u16) -> (r: Self)
        ensures
            r@ == line as int,
    {
        Position { line }
    }

    /// Advances the line counter by one newline, stopping at the widest
    /// representable line rather than wrapping.
    pub(crate) fn advance(self) -> (r: Self)
        ensures
            r@ == if self@ < u16::MAX as int {
                self@ + 1
            } else {
                self@
            },
    {
        if self.line < u16::MAX {
            Position { line: self.line + 1 }
        } else {
            self
        }
    }

    /// Renders the position for diagnostics: the word `line`, a space, and
    /// the decimal line number.
    pub fn describe(&self) -> (r: String)
        ensures
            r@ == seq!['l', 'i', 'n', 'e', ' '] + dec_rep(self@ as nat),
    {
        let ghost header = seq!['l', 'i', 'n', 'e', ' '];
        let mut r = String::new();
        r.push('l');
        r.push('i');
        r.push('n');
        r.push('e');
        r.push(' ');
        assert(r@ =~= header);
        let mut rev: Vec<char> = Vec::new();
        let mut m = self.line;
        assert(rev@.reverse() =~= Seq::<char>::empty());
        assert(dec_rep(self.line as nat) =~= dec_rep(m as nat) + rev@.reverse());
        while m >= 10
            invariant
                dec_rep(self.line as nat) == dec_rep(m as nat) + rev@.reverse(),
            decreases m,
        {
            let ghost old_rev = rev@;
            let c = digit_char(m % 10);
            rev.push(c);
            proof {
                assert(rev@.reverse() =~= seq![digit_char_of((m % 10) as int)]
                    + old_rev.reverse());
                assert(dec_rep(m as nat) =~= dec_rep((m / 10) as nat) + seq![digit_char_of(
                    (m % 10) as int,
                )]);
                assert(dec_rep((m / 10) as nat) + (seq![digit_char_of((m % 10) as int)]
                    + old_rev.reverse()) =~= dec_rep(m as nat) + old_rev.reverse());
            }
            m = m / 10;
        }
        let ghost old_rev = rev@;
        rev.push(digit_char(m));
        proof {
            assert(rev@.reverse() =~= seq![digit_char_of(m as int)] + old_rev.reverse());
            assert(dec_rep(m as nat) =~= seq![digit_char_of(m as int)]);
            assert(rev@.reverse() =~= dec_rep(self.line as nat));
        }
        let mut i = rev.len();
        assert(r@ =~= header + rev@.reverse().subrange(0, rev@.len() - i));
        while i > 0
            invariant
                i <= rev@.len(),
                rev@.reverse() == dec_rep(self.line as nat),
                r@ == header + rev@.reverse().subrange(0, rev@.len() - i),
            decreases i,
        {
            i = i - 1;
            r.push(rev[i]);
            assert(r@ =~= header + rev@.reverse().subrange(0, rev@.len() - i));
        }
        assert(rev@.reverse().subrange(0, rev@.len() as int) =~= rev@.reverse());
        r
    }
}

impl From<u16> for Position {
    /// Builds a position at the given line, as [`Position::new`] does.
    fn from(line: u16) -> (r: Self) {
        Position::new(line)
    }
}

impl vstd::std_specs::convert::FromSpecImpl<u16> for Position {
    open spec fn obeys_from_spec() -> bool {
        true
    }

    closed spec fn from_spec(line: u16) -> Position {
        Position { line }
    }
}

} // verus!
