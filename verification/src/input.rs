//! Where a program's characters come from.

use std::collections::VecDeque;
use vstd::prelude::*;
use vstd::std_specs::iter::IteratorSpec;

verus! {

/// A source that yields one character at a time, until it is exhausted.
///
/// A source may keep to a model, in which [`Input::pending`] is all that it
/// has yet to yield. One that says nothing of itself promises nothing: that
/// is the place of a keyboard, and of any source made outside this library.
pub trait Input {
    /// The source keeps to the model. A source never changes its mind about
    /// this.
    open spec fn modelled(&self) -> bool {
        false
    }

    /// The characters that the source has yet to yield, next one first.
    open spec fn pending(&self) -> Seq<char> {
        Seq::empty()
    }

    /// Takes the next character from the source; `None` once it is exhausted.
    fn read_char(&mut self) -> (c: Option<char>)
        ensures
            final(self).modelled() == old(self).modelled(),
            old(self).modelled() ==> c == next_char(old(self).pending()),
            old(self).modelled() ==> final(self).pending() == after_read(old(self).pending()),
    ;
}

/// Every iterator over characters is a source. What it will yield cannot be
/// told in advance by [`Input::pending`], so it keeps to no model; a read is
/// one step of the iterator.
impl<I: Iterator<Item = char>> Input for I {
    /// Takes the next item from the iterator. Of an iterator that obeys the
    /// laws of iteration, that is the first of the items that remain, which
    /// the read takes away; `None` once none remains.
    fn read_char(&mut self) -> (c: Option<char>)
        ensures
            (*final(self)).obeys_prophetic_iter_laws() == (*old(self)).obeys_prophetic_iter_laws(),
            (*old(self)).obeys_prophetic_iter_laws() ==> c == next_char((*old(self)).remaining()),
            (*old(self)).obeys_prophetic_iter_laws() ==> (*final(self)).remaining() == after_read(
                (*old(self)).remaining(),
            ),
    {
        self.next()
    }
}

/// What a read yields from a source with `pending` still to come.
pub open spec fn next_char(pending: Seq<char>) -> Option<char> {
    if pending.len() > 0 {
        Some(pending[0])
    } else {
        None
    }
}

/// What is still to come after one read from a source with `pending`.
pub open spec fn after_read(pending: Seq<char>) -> Seq<char> {
    if pending.len() > 0 {
        pending.drop_first()
    } else {
        pending
    }
}

/// A queue of characters that is filled a line at a time and emptied a
/// character at a time.
pub struct InputBuffer {
    buffer: VecDeque<char>,
}

impl View for InputBuffer {
    type V = Seq<char>;

    closed spec fn view(&self) -> Seq<char> {
        self.buffer@
    }
}

impl InputBuffer {
    /// An empty buffer.
    pub fn new() -> (made: InputBuffer)
        ensures
            made@ == Seq::<char>::empty(),
    {
        InputBuffer { buffer: VecDeque::new() }
    }

    /// Puts the characters of `line` behind those that the buffer holds.
    pub fn refill(&mut self, line: &str)
        ensures
            final(self)@ == old(self)@ + line@,
    {
        for c in it: line.chars()
            invariant
                it.seq() == line@,
                self@ == old(self)@ + line@.take(it.index() as int),
        {
            self.buffer.push_back(c);
        }
    }

    /// Takes the oldest character out of the buffer; `None` where it is empty.
    pub fn next(&mut self) -> (c: Option<char>)
        ensures
            c == next_char(old(self)@),
            final(self)@ == after_read(old(self)@),
    {
        self.buffer.pop_front()
    }
}

impl Input for InputBuffer {
    open spec fn modelled(&self) -> bool {
        true
    }

    open spec fn pending(&self) -> Seq<char> {
        self@
    }

    fn read_char(&mut self) -> (c: Option<char>) {
        self.next()
    }
}

} // verus!
