//! Where a program's characters go.

use vstd::prelude::*;

verus! {

/// A sink that accepts one character at a time, in order.
///
/// A sink may keep to a model, in which [`Output::written`] is all that it
/// was handed. One that says nothing of itself promises nothing: that is
/// the place of a terminal, and of any sink made outside this library.
pub trait Output {
    /// The sink keeps to the model. A sink never changes its mind about this.
    open spec fn modelled(&self) -> bool {
        false
    }

    /// Everything written to the sink so far, oldest first.
    open spec fn written(&self) -> Seq<char> {
        Seq::empty()
    }

    /// Hands `c` to the sink.
    fn write_char(&mut self, c: char)
        ensures
            final(self).modelled() == old(self).modelled(),
            old(self).modelled() ==> final(self).written() == old(self).written().push(c),
    ;
}

/// A vector of characters collects what is written to it.
impl Output for Vec<char> {
    open spec fn modelled(&self) -> bool {
        true
    }

    open spec fn written(&self) -> Seq<char> {
        self@
    }

    fn write_char(&mut self, c: char) {
        self.push(c);
    }
}

} // verus!
