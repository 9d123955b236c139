//! What can go wrong, and the words in which it is reported.

use crate::memoryband::TapeFault;
use vstd::prelude::*;

verus! {

/// The decimal digit of value `d`, for `d` below ten.
pub open spec fn digit(d: nat) -> char {
    (('0' as nat) + d) as char
}

/// `n` written in decimal, without leading zeros.
pub open spec fn decimal(n: nat) -> Seq<char>
    decreases n,
{
    if n < 10 {
        seq![digit(n)]
    } else {
        decimal(n / 10).push(digit(n % 10))
    }
}

/// The one-character text of the decimal digit `d`.
fn digit_text(d: usize) -> (text: &'static str)
    requires
        d < 10,
    ensures
        text@ == seq![digit(d as nat)],
{
    proof {
        reveal_strlit("0");
        reveal_strlit("1");
        reveal_strlit("2");
        reveal_strlit("3");
        reveal_strlit("4");
        reveal_strlit("5");
        reveal_strlit("6");
        reveal_strlit("7");
        reveal_strlit("8");
        reveal_strlit("9");
    }
    let text = if d == 0 {
        "0"
    } else if d == 1 {
        "1"
    } else if d == 2 {
        "2"
    } else if d == 3 {
        "3"
    } else if d == 4 {
        "4"
    } else if d == 5 {
        "5"
    } else if d == 6 {
        "6"
    } else if d == 7 {
        "7"
    } else if d == 8 {
        "8"
    } else {
        "9"
    };
    assert(text@ =~= seq![digit(d as nat)]);
    text
}

/// Writes `n` in decimal at the end of `text`.
fn append_decimal(text: &mut String, n: usize)
    ensures
        final(text)@ == old(text)@ + decimal(n as nat),
    decreases n,
{
    if n >= 10 {
        append_decimal(text, n / 10);
    }
    text.append(digit_text(n % 10));
    assert(text@ =~= old(text)@ + decimal(n as nat));
}

/// Why a text is not a program. Each error names the position, counted in
/// characters from 0, of the bracket that it is about.
#[derive(Debug, Clone, Copy, PartialEq, Eq, Structural)]
pub enum ParseError {
    /// A bracket search was started at a position that holds no `[`.
    NoOpeningBracket(usize),
    /// The `[` at this position is never closed.
    UnmatchedOpen(usize),
    /// The `]` at this position closes nothing.
    UnmatchedClose(usize),
}

impl ParseError {
    /// The position that the error names.
    pub open spec fn place(self) -> usize {
        match self {
            ParseError::NoOpeningBracket(at) => at,
            ParseError::UnmatchedOpen(at) => at,
            ParseError::UnmatchedClose(at) => at,
        }
    }

    /// The words that come before the position in the error's message.
    pub open spec fn lead(self) -> Seq<char> {
        match self {
            ParseError::NoOpeningBracket(_) => "No opening bracket at index "@,
            ParseError::UnmatchedOpen(_) => "No matching bracket was found for '[' at position "@,
            ParseError::UnmatchedClose(_) => "No matching bracket was found for ']' at position "@,
        }
    }

    /// The error's message: the lead, the position in decimal, and a full stop.
    pub open spec fn text(self) -> Seq<char> {
        self.lead() + decimal(self.place() as nat) + "."@
    }

    /// The position that the error names.
    pub fn position(&self) -> (at: usize)
        ensures
            at == self.place(),
    {
        match self {
            ParseError::NoOpeningBracket(at) => *at,
            ParseError::UnmatchedOpen(at) => *at,
            ParseError::UnmatchedClose(at) => *at,
        }
    }

    /// The error in words.
    pub fn message(&self) -> (message: String)
        ensures
            message@ == self.text(),
    {
        let lead = match self {
            ParseError::NoOpeningBracket(_) => "No opening bracket at index ",
            ParseError::UnmatchedOpen(_) => "No matching bracket was found for '[' at position ",
            ParseError::UnmatchedClose(_) => "No matching bracket was found for ']' at position ",
        };
        let mut message = String::from_str(lead);
        append_decimal(&mut message, self.position());
        message.append(".");
        message
    }
}

/// Why a run ended before the program did.
#[derive(Debug, Clone, Copy, PartialEq, Eq, Structural)]
pub enum Interrupt {
    /// The head was moved off the band.
    Fault(TapeFault),
    /// The run had used up the loop rounds that it was allowed.
    StepLimit,
}

/// Why a text could not be run to its end.
#[derive(Debug, Clone, Copy, PartialEq, Eq, Structural)]
pub enum Failure {
    /// The text is not a program.
    Syntax(ParseError),
    /// The program was stopped while it ran.
    Stopped(Interrupt),
}

} // verus!
