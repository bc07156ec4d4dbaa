//! A character reader with two characters of lookahead.

use vstd::prelude::*;
use vstd::string::StrSliceExecFns;

verus! {

/// What `first` and `second` answer once the input is exhausted.
pub const EOF_CHAR: char = '\0';

/// Number of bytes that UTF-8 needs for one character.
pub open spec fn utf8_width(c: char) -> nat {
    if (c as u32) < 0x80 {
        1
    } else if (c as u32) < 0x800 {
        2
    } else if (c as u32) < 0x10000 {
        3
    } else {
        4
    }
}

/// Number of bytes that UTF-8 needs for `s[from..to]`.
pub open spec fn utf8_len(s: Seq<char>, from: int, to: int) -> nat
    decreases to - from,
{
    if from >= to || to > s.len() || from < 0 {
        0
    } else {
        utf8_len(s, from, to - 1) + utf8_width(s[to - 1])
    }
}

/// A byte count as a `usize` can hold it: counts beyond `usize::MAX` stay
/// at `usize::MAX`.
pub open spec fn clip(n: nat) -> usize {
    if n > usize::MAX {
        usize::MAX
    } else {
        n as usize
    }
}

/// The character at `pos`, or `EOF_CHAR` past the end.
pub open spec fn char_at(s: Seq<char>, pos: int) -> char {
    if 0 <= pos < s.len() {
        s[pos]
    } else {
        EOF_CHAR
    }
}

/// Characters of an input together with a reading position and a byte
/// counter that `reset_len_consumed` sets back to zero.
pub struct Cursor {
    chars: Vec<char>,
    pos: usize,
    mark: Ghost<int>,
    consumed: usize,
}

fn width_of(c: char) -> (w: usize)
    ensures
        w == utf8_width(c),
{
    let code: u32 = c as u32;
    if code < 0x80 {
        1
    } else if code < 0x800 {
        2
    } else if code < 0x10000 {
        3
    } else {
        4
    }
}

impl Cursor {
    /// The whole input.
    pub closed spec fn source(&self) -> Seq<char> {
        self.chars@
    }

    /// Index of the next character to be read.
    pub closed spec fn position(&self) -> int {
        self.pos as int
    }

    /// Position at which the byte counter was last reset.
    pub closed spec fn start(&self) -> int {
        self.mark@
    }

    /// The byte counter holds the width of what was consumed since the last
    /// reset.
    pub closed spec fn counter_exact(&self) -> bool {
        self.consumed == clip(utf8_len(self.chars@, self.mark@, self.pos as int))
    }

    /// The invariant every cursor keeps.
    pub open spec fn well_formed(&self) -> bool {
        &&& 0 <= self.start() <= self.position() <= self.source().len()
        &&& self.counter_exact()
    }

    /// The characters not yet consumed.
    pub open spec fn remaining(&self) -> Seq<char> {
        self.source().subrange(self.position(), self.source().len() as int)
    }

    pub fn new(input: &str) -> (cursor: Cursor)
        ensures
            cursor.well_formed(),
            cursor.source() == input@,
            cursor.position() == 0,
            cursor.start() == 0,
    {
        let n: usize = input.unicode_len();
        let mut chars: Vec<char> = Vec::new();
        let mut i: usize = 0;
        while i < n
            invariant
                n == input@.len(),
                i <= n,
                chars@ == input@.subrange(0, i as int),
            decreases n - i,
        {
            chars.push(input.get_char(i));
            i += 1;
            assert(chars@ =~= input@.subrange(0, i as int));
        }
        assert(chars@ =~= input@);
        Cursor { chars, pos: 0, mark: Ghost(0), consumed: 0 }
    }

    /// The current character, `EOF_CHAR` at the end.
    pub fn first(&self) -> (c: char)
        requires
            self.well_formed(),
        ensures
            c == char_at(self.source(), self.position()),
    {
        if self.pos < self.chars.len() {
            self.chars[self.pos]
        } else {
            EOF_CHAR
        }
    }

    /// The character after the current one, `EOF_CHAR` at the end.
    pub fn second(&self) -> (c: char)
        requires
            self.well_formed(),
        ensures
            c == char_at(self.source(), self.position() + 1),
    {
        if self.pos < self.chars.len() && self.pos + 1 < self.chars.len() {
            self.chars[self.pos + 1]
        } else {
            EOF_CHAR
        }
    }

    pub fn is_eof(&self) -> (b: bool)
        requires
            self.well_formed(),
        ensures
            b == (self.position() == self.source().len()),
            b == (self.remaining().len() == 0),
    {
        self.pos >= self.chars.len()
    }

    /// Bytes consumed since the last reset.
    pub fn len_consumed(&self) -> (n: usize)
        requires
            self.well_formed(),
        ensures
            n == clip(utf8_len(self.source(), self.start(), self.position())),
    {
        self.consumed
    }

    pub fn reset_len_consumed(&mut self)
        requires
            old(self).well_formed(),
        ensures
            final(self).well_formed(),
            final(self).source() == old(self).source(),
            final(self).position() == old(self).position(),
            final(self).start() == old(self).position(),
    {
        self.mark = Ghost(self.pos as int);
        self.consumed = 0;
    }

    /// Consumes one character and returns it; `None` at the end.
    pub fn bump(&mut self) -> (c: Option<char>)
        requires
            old(self).well_formed(),
        ensures
            final(self).well_formed(),
            final(self).source() == old(self).source(),
            final(self).start() == old(self).start(),
            old(self).position() < old(self).source().len() ==> c == Some(
                old(self).source()[old(self).position()],
            ) && final(self).position() == old(self).position() + 1,
            old(self).position() >= old(self).source().len() ==> c.is_none()
                && final(self).position() == old(self).position(),
    {
        if self.pos < self.chars.len() {
            let c = self.chars[self.pos];
            self.consumed = self.consumed.saturating_add(width_of(c));
            self.pos += 1;
            Some(c)
        } else {
            None
        }
    }

    /// Consumes characters for as long as `predicate` accepts them.
    pub fn eat_while<F: Fn(char) -> bool>(&mut self, predicate: F)
        requires
            old(self).well_formed(),
            forall|c: char| predicate.requires((c,)),
        ensures
            final(self).well_formed(),
            final(self).source() == old(self).source(),
            final(self).start() == old(self).start(),
            old(self).position() <= final(self).position() <= old(self).source().len(),
            forall|i: int|
                old(self).position() <= i < final(self).position() ==> predicate.ensures(
                    (#[trigger] old(self).source()[i],),
                    true,
                ),
            final(self).position() < old(self).source().len() ==> predicate.ensures(
                (old(self).source()[final(self).position()],),
                false,
            ),
    {
        let mut accepted = true;
        while accepted && self.pos < self.chars.len()
            invariant
                self.well_formed(),
                self.chars@ == old(self).chars@,
                self.mark@ == old(self).mark@,
                old(self).pos <= self.pos <= self.chars@.len(),
                forall|c: char| predicate.requires((c,)),
                forall|i: int|
                    old(self).pos <= i < self.pos ==> predicate.ensures(
                        (#[trigger] self.chars@[i],),
                        true,
                    ),
                !accepted ==> self.pos < self.chars@.len() && predicate.ensures(
                    (self.chars@[self.pos as int],),
                    false,
                ),
            decreases self.chars@.len() - self.pos + (if accepted { 1int } else { 0int }),
        {
            let c = self.chars[self.pos];
            if predicate(c) {
                self.consumed = self.consumed.saturating_add(width_of(c));
                self.pos += 1;
            } else {
                accepted = false;
            }
        }
    }

    /// True for the characters a number literal is made of.
    pub fn is_part_number(c: char) -> (b: bool)
        ensures
            b == (is_digit(c) || c == '.'),
    {
        is_decimal_digit(c) || c == '.'
    }
}

/// True for the ten decimal digits.
pub open spec fn is_digit(c: char) -> bool {
    '0' <= c <= '9'
}

/// Tests for a decimal digit.
pub fn is_decimal_digit(c: char) -> (b: bool)
    ensures
        b == is_digit(c),
{
    c >= '0' && c <= '9'
}

} // verus!
