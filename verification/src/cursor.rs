//! A cursor over a source text: a position, and the count of the newlines that
//! lie before it.

use vstd::prelude::*;
use crate::text::{
    chars_of, digit, digits_end, find, lemma_newlines_bounded, line_at, newlines_before,
    string_of, word_end, word_part,
};

verus! {

/// A source text with a position in it. Every character is consumed through
/// `advance`, which counts the newlines it passes.
pub(crate) struct Cursor {
    chars: Vec<char>,
    pos: usize,
    newlines: usize,
}

impl Cursor {
    /// The whole text.
    pub(crate) closed spec fn source(&self) -> Seq<char> {
        self.chars@
    }

    /// The number of characters consumed so far.
    pub(crate) closed spec fn position(&self) -> int {
        self.pos as int
    }

    /// The position lies inside the text or at its end, and the count of
    /// newlines is that of the characters before the position.
    pub(crate) closed spec fn wf(&self) -> bool {
        &&& self.pos <= self.chars.len()
        &&& self.newlines == newlines_before(self.chars@, self.pos as int)
    }

    /// A cursor at the start of `source`.
    pub(crate) fn new(source: &str) -> (cursor: Cursor)
        ensures
            cursor.wf(),
            cursor.source() == source@,
            cursor.position() == 0,
    {
        Cursor { chars: chars_of(source), pos: 0, newlines: 0 }
    }

    /// The number of characters consumed so far.
    pub(crate) fn offset(&self) -> (pos: usize)
        requires
            self.wf(),
        ensures
            pos == self.position(),
            pos <= self.source().len(),
    {
        self.pos
    }

    /// The character at the position, if the text has not ended.
    pub(crate) fn peek(&self) -> (next: Option<char>)
        requires
            self.wf(),
        ensures
            0 <= self.position() <= self.source().len(),
            next == if self.position() < self.source().len() {
                Some(self.source()[self.position()])
            } else {
                None::<char>
            },
    {
        if self.pos < self.chars.len() {
            Some(self.chars[self.pos])
        } else {
            None
        }
    }

    /// The number of the line on which the position lies.
    pub(crate) fn line(&self) -> (line: usize)
        requires
            self.wf(),
            self.position() < self.source().len(),
        ensures
            line == line_at(self.source(), self.position()),
    {
        proof {
            lemma_newlines_bounded(self.chars@, self.pos as int);
        }
        self.newlines + 1
    }

    /// Consumes one character.
    pub(crate) fn advance(&mut self) -> (c: char)
        requires
            old(self).wf(),
            old(self).position() < old(self).source().len(),
        ensures
            final(self).wf(),
            final(self).source() == old(self).source(),
            final(self).position() == old(self).position() + 1,
            c == old(self).source()[old(self).position()],
    {
        proof {
            lemma_newlines_bounded(self.chars@, self.pos as int);
        }
        let c = self.chars[self.pos];
        if c == '\n' {
            self.newlines += 1;
        }
        self.pos += 1;
        c
    }

    /// Consumes characters up to the next `target`, which stays, or to the end
    /// of the text.
    pub(crate) fn advance_to(&mut self, target: char)
        requires
            old(self).wf(),
        ensures
            final(self).wf(),
            final(self).source() == old(self).source(),
            final(self).position() == find(old(self).source(), old(self).position(), target),
            old(self).position() <= final(self).position() <= final(self).source().len(),
    {
        while self.pos < self.chars.len() && self.chars[self.pos] != target
            invariant
                self.wf(),
                self.source() == old(self).source(),
                old(self).position() <= self.position(),
                find(self.source(), self.position(), target) == find(
                    old(self).source(),
                    old(self).position(),
                    target,
                ),
            decreases self.chars.len() - self.pos,
        {
            self.advance();
        }
    }

    /// Consumes the digits at the position.
    pub(crate) fn advance_digits(&mut self)
        requires
            old(self).wf(),
        ensures
            final(self).wf(),
            final(self).source() == old(self).source(),
            final(self).position() == digits_end(old(self).source(), old(self).position()),
            old(self).position() <= final(self).position() <= final(self).source().len(),
    {
        while self.pos < self.chars.len() && digit(self.chars[self.pos])
            invariant
                self.wf(),
                self.source() == old(self).source(),
                old(self).position() <= self.position(),
                digits_end(self.source(), self.position()) == digits_end(
                    old(self).source(),
                    old(self).position(),
                ),
            decreases self.chars.len() - self.pos,
        {
            self.advance();
        }
    }

    /// Consumes the identifier characters at the position.
    pub(crate) fn advance_word(&mut self)
        requires
            old(self).wf(),
        ensures
            final(self).wf(),
            final(self).source() == old(self).source(),
            final(self).position() == word_end(old(self).source(), old(self).position()),
            old(self).position() <= final(self).position() <= final(self).source().len(),
    {
        while self.pos < self.chars.len() && word_part(self.chars[self.pos])
            invariant
                self.wf(),
                self.source() == old(self).source(),
                old(self).position() <= self.position(),
                word_end(self.source(), self.position()) == word_end(
                    old(self).source(),
                    old(self).position(),
                ),
            decreases self.chars.len() - self.pos,
        {
            self.advance();
        }
    }

    /// The text between two positions.
    pub(crate) fn text(&self, from: usize, to: usize) -> (s: String)
        requires
            self.wf(),
            from <= to <= self.source().len(),
        ensures
            s@ == self.source().subrange(from as int, to as int),
    {
        string_of(&self.chars, from, to)
    }
}

} // verus!
