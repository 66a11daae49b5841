//! The scan cursor: where the scanner stands in the source text.
//!
//! The scanner walks the text through a `peekmore::PeekMoreIterator` over
//! `std::str::Chars`. The iterator is opaque to the verifier, so this module
//! names what it still holds and states, without proof, what each call does
//! to it. On top of that it builds [`ScanCursor`], which also keeps count of
//! the lines, and proves what its operations do.

use super::grammar::{lemma_newlines_concat, lemma_newlines_single, newlines};
use peekmore::{PeekMore, PeekMoreIterator};
use std::str::Chars;
use vstd::prelude::*;

verus! {

/// `peekmore::PeekMoreIterator`, an iterator that lets its user look ahead.
/// Nothing is known of what is inside one.
#[verifier::external_type_specification]
#[verifier::external_body]
#[verifier::reject_recursive_types(I)]
pub struct ExPeekMoreIterator<I: Iterator>(PeekMoreIterator<I>);

/// The characters that the iterator has not handed out yet, in order.
pub uninterp spec fn unread(chars: PeekMoreIterator<Chars<'_>>) -> Seq<char>;

/// How far the iterator's peek cursor stands from the first unread character.
pub uninterp spec fn lookahead(chars: PeekMoreIterator<Chars<'_>>) -> nat;

/// `PeekMore::peekmore` on the characters of `input`: a fresh iterator holds
/// all of them, and its peek cursor stands at the first.
#[verifier::external_body]
fn char_stream(input: &str) -> (chars: PeekMoreIterator<Chars<'_>>)
    ensures
        unread(chars) == input@,
        lookahead(chars) == 0,
{
    input.chars().peekmore()
}

/// `Iterator::next` of `PeekMoreIterator`: hands out the first unread
/// character, if there is one. The peek cursor moves back by one, unless it
/// stands at the front already.
#[verifier::external_body]
fn next_char(chars: &mut PeekMoreIterator<Chars<'_>>) -> (c: Option<char>)
    ensures
        unread(*old(chars)).len() == 0 ==> c.is_none() && unread(*final(chars)) == unread(
            *old(chars),
        ),
        unread(*old(chars)).len() > 0 ==> c == Some(unread(*old(chars))[0]) && unread(
            *final(chars),
        ) == unread(*old(chars)).drop_first(),
        lookahead(*final(chars)) == if lookahead(*old(chars)) > 0 {
            (lookahead(*old(chars)) - 1) as nat
        } else {
            0
        },
{
    chars.next()
}

/// `PeekMoreIterator::peek`: the character under the peek cursor, if the
/// unread characters reach that far. Nothing is consumed and the cursor
/// stays where it is. The iterator buffers all that lies before the peek
/// cursor, so the cursor may not stand beyond the end of the text.
#[verifier::external_body]
fn peek_char(chars: &mut PeekMoreIterator<Chars<'_>>) -> (c: Option<char>)
    requires
        lookahead(*old(chars)) <= unread(*old(chars)).len(),
    ensures
        c == if lookahead(*old(chars)) < unread(*old(chars)).len() {
            Some(unread(*old(chars))[lookahead(*old(chars)) as int])
        } else {
            None
        },
        unread(*final(chars)) == unread(*old(chars)),
        lookahead(*final(chars)) == lookahead(*old(chars)),
{
    chars.peek().copied()
}

/// `PeekMoreIterator::peek_nth`: the unread character at distance `n` from
/// the first, wherever the peek cursor stands. Nothing is consumed and the
/// cursor stays where it is. The iterator buffers `n + 1` places, so `n` may
/// not reach beyond the end of the text.
#[verifier::external_body]
fn peek_char_at(chars: &mut PeekMoreIterator<Chars<'_>>, n: usize) -> (c: Option<char>)
    requires
        n <= unread(*old(chars)).len(),
    ensures
        c == if n < unread(*old(chars)).len() {
            Some(unread(*old(chars))[n as int])
        } else {
            None
        },
        unread(*final(chars)) == unread(*old(chars)),
        lookahead(*final(chars)) == lookahead(*old(chars)),
{
    chars.peek_nth(n).copied()
}

/// A place in a text: what is still to be scanned, and the number of the line
/// on which it begins.
pub struct Position {
    pub rest: Seq<char>,
    pub line: nat,
}

impl Position {
    /// The place `n` characters further on. Every newline passed on the way
    /// begins a new line.
    pub open spec fn forward(self, n: int) -> Position {
        Position { rest: self.rest.skip(n), line: self.line + newlines(self.rest.take(n)) }
    }

    /// Going forward in two steps leads to the same place as going forward
    /// once by their sum.
    pub proof fn lemma_forward_twice(self, first: int, second: int)
        requires
            0 <= first,
            0 <= second,
            first + second <= self.rest.len(),
        ensures
            self.forward(first).forward(second) == self.forward(first + second),
    {
        let rest = self.rest;
        assert(rest.skip(first).skip(second) =~= rest.skip(first + second));
        assert(rest.take(first + second) =~= rest.take(first) + rest.skip(first).take(second));
        lemma_newlines_concat(rest.take(first), rest.skip(first).take(second));
    }

    /// Standing still.
    pub proof fn lemma_forward_zero(self)
        ensures
            self.forward(0) == self,
    {
        assert(self.rest.skip(0) =~= self.rest);
        assert(self.rest.take(0) =~= Seq::<char>::empty());
    }

    /// One character further on, the line has changed if that character was
    /// a newline.
    pub proof fn lemma_forward_one(self)
        requires
            self.rest.len() > 0,
        ensures
            self.forward(1).rest == self.rest.drop_first(),
            self.forward(1).line == self.line + if self.rest[0] == '\n' {
                1nat
            } else {
                0nat
            },
    {
        assert(self.rest.skip(1) =~= self.rest.drop_first());
        assert(self.rest.take(1) =~= seq![self.rest[0]]);
        lemma_newlines_single(self.rest[0]);
    }
}

/// The scanner's cursor over one source text: the characters still to come
/// and the number of newlines already passed.
pub(crate) struct ScanCursor<'a> {
    chars: PeekMoreIterator<Chars<'a>>,
    line_breaks: usize,
}

impl<'a> View for ScanCursor<'a> {
    type V = Position;

    closed spec fn view(&self) -> Position {
        Position { rest: unread(self.chars), line: (self.line_breaks + 1) as nat }
    }
}

impl<'a> ScanCursor<'a> {
    /// The cursor's invariant. Its peek cursor rests at the front, and the
    /// newline count can still grow by the number of characters to come.
    pub(crate) closed spec fn wf(&self) -> bool {
        &&& lookahead(self.chars) == 0
        &&& self.line_breaks + unread(self.chars).len() <= usize::MAX
    }

    /// The line numbers that the cursor can still reach fit the machine's
    /// integers, but for the one behind a last newline.
    pub(crate) proof fn lemma_line_bound(&self)
        requires
            self.wf(),
        ensures
            self@.line + self@.rest.len() <= usize::MAX + 1,
            self@.line >= 1,
    {
    }

    /// A cursor at the beginning of `input`, on line 1.
    pub(crate) fn new(input: &'a str) -> (cursor: Self)
        ensures
            cursor.wf(),
            cursor@ == (Position { rest: input@, line: 1 }),
    {
        let encoded = input.as_bytes();
        proof {
            // The encoding is a slice in memory, so its length fits a `usize`.
            assert(encoded@.len() == vstd::slice::spec_slice_len(encoded));
            lemma_encoding_holds_each_char(input@);
        }
        ScanCursor { chars: char_stream(input), line_breaks: 0 }
    }

    /// Consumes the next character, if there is one, and hands it out.
    pub(crate) fn advance(&mut self) -> (c: Option<char>)
        requires
            old(self).wf(),
        ensures
            final(self).wf(),
            old(self)@.rest.len() == 0 ==> c.is_none() && final(self)@ == old(self)@,
            old(self)@.rest.len() > 0 ==> c == Some(old(self)@.rest[0]) && final(self)@ == old(
                self,
            )@.forward(1),
    {
        proof {
            if self@.rest.len() > 0 {
                self@.lemma_forward_one();
            }
        }
        let c = next_char(&mut self.chars);
        if let Some(consumed) = c {
            if consumed == '\n' {
                self.line_breaks = self.line_breaks + 1;
            }
        }
        c
    }

    /// The next character, if there is one. Nothing is consumed.
    pub(crate) fn peek(&mut self) -> (c: Option<char>)
        requires
            old(self).wf(),
        ensures
            final(self).wf(),
            final(self)@ == old(self)@,
            c == if old(self)@.rest.len() > 0 {
                Some(old(self)@.rest[0])
            } else {
                None
            },
    {
        peek_char(&mut self.chars)
    }

    /// The character after the next, if there are two. Nothing is consumed.
    pub(crate) fn peek_second(&mut self) -> (c: Option<char>)
        requires
            old(self).wf(),
            old(self)@.rest.len() > 0,
        ensures
            final(self).wf(),
            final(self)@ == old(self)@,
            c == if old(self)@.rest.len() > 1 {
                Some(old(self)@.rest[1])
            } else {
                None
            },
    {
        peek_char_at(&mut self.chars, 1)
    }

    /// Consumes the next character if it is `expected`, and says whether it
    /// did.
    pub(crate) fn consume_if(&mut self, expected: char) -> (found: bool)
        requires
            old(self).wf(),
        ensures
            final(self).wf(),
            found == (old(self)@.rest.len() > 0 && old(self)@.rest[0] == expected),
            final(self)@ == if found {
                old(self)@.forward(1)
            } else {
                old(self)@
            },
    {
        match self.peek() {
            Some(c) => {
                if c == expected {
                    self.advance();
                    true
                } else {
                    false
                }
            },
            None => false,
        }
    }

    /// The number of the line on which the cursor stands.
    pub(crate) fn line(&self) -> (line: usize)
        requires
            self.wf(),
            self@.line <= usize::MAX,
        ensures
            line == self@.line,
    {
        self.line_breaks + 1
    }
}

/// A text has at most as many characters as its UTF-8 encoding has bytes.
proof fn lemma_encoding_holds_each_char(text: Seq<char>)
    ensures
        text.len() <= vstd::utf8::encode_utf8(text).len(),
    decreases text.len(),
{
    if text.len() > 0 {
        lemma_encoding_holds_each_char(text.drop_first());
    }
}

} // verus!
