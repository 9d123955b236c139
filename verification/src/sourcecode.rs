//! Programs: how they are read from text, and how they are run.

use crate::brackets::{
    balanced, bracket_search, closes, depth, first_fault, lemma_matching_close,
};
use crate::error::{Interrupt, ParseError};
use crate::input::Input;
use crate::memoryband::MemoryBand;
use crate::output::Output;
use crate::semantics::{
    carry_on, char_of, interrupt_of, lemma_repeat_unfold, lemma_rounds_never_grow,
    lemma_run_unfold, machine, repeat, run_all, run_from, stored,
};
use crate::syntax::{
    lemma_first_fault, lemma_loop_body_parses, lemma_parses_iff_balanced, parsed, scan,
    with_add, with_move, Command,
};
use std::str::FromStr;
use vstd::prelude::*;
use vstd::slice::slice_subrange;

verus! {

/// The variants of this enum each represent a command of the language.
#[derive(Debug, PartialEq, Eq)]
pub enum BfCommand {
    /// Move the head by so many cells, to the right when positive.
    Move(isize),
    /// Add so much, wrapping at 256, to the cell under the head.
    Add(u8),
    /// Write the cell under the head as a character.
    Print,
    /// Read one character into the cell under the head.
    Read,
    /// Repeat the code for as long as the cell under the head is not zero.
    Loop(SourceCode),
}

/// A program: commands in the order in which they are run.
///
/// It is made from text by [`SourceCode::parse`], or by `str::parse`, and run
/// by [`SourceCode::run`] or [`SourceCode::run_on_band`].
#[derive(Debug, PartialEq, Eq)]
pub struct SourceCode(pub Vec<BfCommand>);

/// The commands that `commands` hold, as mathematical values.
pub open spec fn views(commands: Seq<BfCommand>) -> Seq<Command>
    decreases commands,
{
    Seq::new(
        commands.len(),
        |i: int|
            if 0 <= i < commands.len() {
                commands[i].view()
            } else {
                arbitrary()
            },
    )
}

impl BfCommand {
    /// The command as a mathematical value.
    pub open spec fn view(self) -> Command
        decreases self,
    {
        match self {
            BfCommand::Move(delta) => Command::Move(delta),
            BfCommand::Add(delta) => Command::Add(delta),
            BfCommand::Print => Command::Print,
            BfCommand::Read => Command::Read,
            BfCommand::Loop(code) => Command::Loop(views(code.0@)),
        }
    }
}

impl SourceCode {
    /// The program as a mathematical value.
    pub open spec fn view(self) -> Seq<Command> {
        views(self.0@)
    }

    /// Reads a program from text.
    ///
    /// Runs of `>` and `<`, and runs of `+` and `-`, become one command each,
    /// also where their sum is zero. Characters that are no commands are
    /// skipped. A bracket without its partner is an error, which names the
    /// position of that bracket.
    pub fn parse(s: &str) -> (outcome: Result<SourceCode, ParseError>)
        ensures
            outcome is Ok <==> balanced(s@),
            outcome matches Err(error) ==> first_fault(s@, error),
            match parsed(s@) {
                Ok(program) => outcome is Ok && outcome->Ok_0@ == program,
                Err(error) => outcome == Err::<SourceCode, ParseError>(error),
            },
    {
        let text = chars_of(s);
        proof {
            lemma_parses_iff_balanced(s@);
            lemma_first_fault(s@);
        }
        match parse_chars(text.as_slice()) {
            Ok(commands) => Ok(SourceCode(commands)),
            Err(error) => Err(error),
        }
    }

    /// Runs the program on a new band of type `M`.
    ///
    /// `stdin` is where the program reads from and `stdout` where it writes
    /// to. `limit` is the number of loop rounds that the run may make: a
    /// program that asks for more is stopped with [`Interrupt::StepLimit`],
    /// and one that moves the head off the band with [`Interrupt::Fault`].
    /// What was read and written up to there stays read and written.
    ///
    /// Where `stdin` and `stdout` keep to their models, the run is the one
    /// that [`run_all`] describes, to the last character.
    pub fn run<I, O, M>(&self, stdin: &mut I, stdout: &mut O, limit: u64) -> (end: Result<
        (),
        Interrupt,
    >) where I: Input, O: Output, M: MemoryBand
        ensures
            final(stdin).modelled() == old(stdin).modelled(),
            final(stdout).modelled() == old(stdout).modelled(),
            old(stdin).modelled() && old(stdout).modelled() ==> ({
                let outcome = run_all::<M>(
                    self@,
                    machine(M::fresh(), old(stdin).pending(), old(stdout).written()),
                    limit as nat,
                );
                &&& interrupt_of(end) == outcome.stop
                &&& final(stdin).pending() == outcome.state.pending
                &&& final(stdout).written() == outcome.state.written
            }),
    {
        let mut band = M::new();
        self.run_on_band(&mut band, stdin, stdout, limit)
    }

    /// Runs the program on the given `band`, which keeps what the run leaves
    /// on it: a later run can go on from there.
    ///
    /// `stdin`, `stdout` and `limit` are as for [`SourceCode::run`].
    pub fn run_on_band<I, O, M>(
        &self,
        band: &mut M,
        stdin: &mut I,
        stdout: &mut O,
        limit: u64,
    ) -> (end: Result<(), Interrupt>) where I: Input, O: Output, M: MemoryBand
        requires
            old(band).inv(),
        ensures
            final(band).inv(),
            final(stdin).modelled() == old(stdin).modelled(),
            final(stdout).modelled() == old(stdout).modelled(),
            old(stdin).modelled() && old(stdout).modelled() ==> ({
                let outcome = run_all::<M>(
                    self@,
                    machine(old(band)@, old(stdin).pending(), old(stdout).written()),
                    limit as nat,
                );
                &&& interrupt_of(end) == outcome.stop
                &&& machine(final(band)@, final(stdin).pending(), final(stdout).written())
                    == outcome.state
            }),
    {
        match self.run_loop_band(band, stdin, stdout, limit) {
            Ok(_) => Ok(()),
            Err(interrupt) => Err(interrupt),
        }
    }

    /// Runs the program on the given `band` with `rounds` loop rounds
    /// allowed, and says how many of them are left at its end.
    #[verifier::loop_isolation(false)]
    fn run_loop_band<I, O, M>(
        &self,
        band: &mut M,
        stdin: &mut I,
        stdout: &mut O,
        rounds: u64,
    ) -> (end: Result<u64, Interrupt>) where I: Input, O: Output, M: MemoryBand
        requires
            old(band).inv(),
        ensures
            final(band).inv(),
            final(stdin).modelled() == old(stdin).modelled(),
            final(stdout).modelled() == old(stdout).modelled(),
            end matches Ok(left) ==> left <= rounds,
            old(stdin).modelled() && old(stdout).modelled() ==> ({
                let outcome = run_all::<M>(
                    self@,
                    machine(old(band)@, old(stdin).pending(), old(stdout).written()),
                    rounds as nat,
                );
                &&& machine(final(band)@, final(stdin).pending(), final(stdout).written())
                    == outcome.state
                &&& match end {
                    Ok(left) => outcome.stop is None && left == outcome.rounds,
                    Err(interrupt) => outcome.stop == Some(interrupt),
                }
            }),
        decreases rounds,
    {
        let ghost exact = stdin.modelled() && stdout.modelled();
        let ghost target = run_all::<M>(
            self@,
            machine(band@, stdin.pending(), stdout.written()),
            rounds as nat,
        );
        let mut left: u64 = rounds;
        let mut i: usize = 0;
        while i < self.0.len()
            invariant
                i <= self.0@.len(),
                left <= rounds,
                band.inv(),
                exact == (stdin.modelled() && stdout.modelled()),
                stdin.modelled() == old(stdin).modelled(),
                stdout.modelled() == old(stdout).modelled(),
                exact ==> run_from::<M>(
                    self@,
                    i as int,
                    machine(band@, stdin.pending(), stdout.written()),
                    left as nat,
                ) == target,
            decreases self.0@.len() - i,
        {
            proof {
                lemma_run_unfold::<M>(
                    self@,
                    i as int,
                    machine(band@, stdin.pending(), stdout.written()),
                    left as nat,
                );
            }
            match &self.0[i] {
                BfCommand::Move(delta) => {
                    match band.move_head(*delta) {
                        Ok(()) => {},
                        Err(fault) => {
                            return Err(Interrupt::Fault(fault));
                        },
                    }
                },
                BfCommand::Add(delta) => {
                    band.add(*delta);
                },
                BfCommand::Print => {
                    stdout.write_char(cell_char(band.read()));
                },
                BfCommand::Read => {
                    let c = stdin.read_char();
                    band.write(cell_value(c));
                },
                BfCommand::Loop(code) => {
                    while band.read() != 0
                        invariant
                            0 <= i < self.0@.len(),
                            self@[i as int] == Command::Loop(code@),
                            left <= rounds,
                            band.inv(),
                            exact == (stdin.modelled() && stdout.modelled()),
                            stdin.modelled() == old(stdin).modelled(),
                            stdout.modelled() == old(stdout).modelled(),
                            exact ==> carry_on::<M>(
                                self@,
                                i as int,
                                repeat::<M>(
                                    code@,
                                    machine(band@, stdin.pending(), stdout.written()),
                                    left as nat,
                                ),
                            ) == target,
                        decreases left,
                    {
                        if left == 0 {
                            return Err(Interrupt::StepLimit);
                        }
                        proof {
                            lemma_repeat_unfold::<M>(
                                code@,
                                machine(band@, stdin.pending(), stdout.written()),
                                left as nat,
                            );
                            lemma_rounds_never_grow::<M>(
                                code@,
                                0,
                                machine(band@, stdin.pending(), stdout.written()),
                                (left - 1) as nat,
                            );
                        }
                        match code.run_loop_band(band, stdin, stdout, left - 1) {
                            Ok(rest) => {
                                left = rest;
                            },
                            Err(interrupt) => {
                                return Err(interrupt);
                            },
                        }
                    }
                },
            }
            i += 1;
        }
        Ok(left)
    }
}

/// The byte that a read stores when the input yields `c`: the low byte of
/// the character's code, and zero once the input is exhausted.
pub fn cell_value(c: Option<char>) -> (value: u8)
    ensures
        value == stored(c),
{
    match c {
        Some(c) => ((c as u32) % 256) as u8,
        None => 0,
    }
}

/// The character that a print writes for a cell that holds `value`.
pub fn cell_char(value: u8) -> (c: char)
    ensures
        c == char_of(value),
{
    value as char
}

impl FromStr for SourceCode {
    type Err = String;

    /// [`SourceCode::parse`], with the error put in words.
    fn from_str(s: &str) -> (outcome: Result<Self, Self::Err>)
        ensures
            match parsed(s@) {
                Ok(program) => outcome is Ok && outcome->Ok_0@ == program,
                Err(error) => outcome is Err && outcome->Err_0@ == error.text(),
            },
    {
        match SourceCode::parse(s) {
            Ok(code) => Ok(code),
            Err(error) => Err(error.message()),
        }
    }
}

/// The characters of `s`, in a row.
pub(crate) fn chars_of(s: &str) -> (text: Vec<char>)
    ensures
        text@ == s@,
{
    let mut text: Vec<char> = Vec::new();
    for c in it: s.chars()
        invariant
            it.seq() == s@,
            text@ == s@.take(it.index() as int),
    {
        text.push(c);
    }
    text
}

/// Finds the bracket that closes the `[` at `start`.
fn find_close(text: &[char], start: usize) -> (outcome: Result<usize, ParseError>)
    ensures
        outcome == bracket_search(text@, start as int),
        outcome matches Ok(close) ==> closes(text@, start as int, close as int),
{
    if start >= text.len() || text[start] != '[' {
        return Err(ParseError::NoOpeningBracket(start));
    }
    let mut count: usize = 1;
    let mut i: usize = start + 1;
    assert(depth(text@, start as int, start as int + 1) == 1) by {
        assert(depth(text@, start as int, start as int) == 0);
    }
    while i < text.len()
        invariant
            start < i <= text@.len(),
            text@[start as int] == '[',
            count == depth(text@, start as int, i as int),
            0 < count <= i - start,
            forall|k: int| start < k <= i ==> depth(text@, start as int, k) > 0,
        decreases text@.len() - i,
    {
        let c = text[i];
        if c == '[' {
            count += 1;
        } else if c == ']' {
            count -= 1;
        }
        if count == 0 {
            proof {
                lemma_matching_close(text@, start as int, i as int);
            }
            return Ok(i);
        }
        i += 1;
    }
    proof {
        assert forall|close: int| !closes(text@, start as int, close) by {
            if closes(text@, start as int, close) {
                assert(depth(text@, start as int, close + 1) > 0);
            }
        }
    }
    Err(ParseError::UnmatchedOpen(start))
}

/// Puts a head move of `step` behind `commands`, folded into the last of
/// them where that can be done.
fn push_move(commands: &mut Vec<BfCommand>, step: isize)
    ensures
        views(final(commands)@) == with_move(views(old(commands)@), step as int),
{
    let count = commands.len();
    let folded: Option<isize> = if count > 0 {
        match commands[count - 1] {
            BfCommand::Move(delta) => delta.checked_add(step),
            _ => None,
        }
    } else {
        None
    };
    match folded {
        Some(sum) => {
            commands.pop();
            commands.push(BfCommand::Move(sum));
        },
        None => {
            commands.push(BfCommand::Move(step));
        },
    }
    assert(views(commands@) =~= with_move(views(old(commands)@), step as int));
}

/// Puts an addition of `step` behind `commands`, folded into the last of
/// them where that is an addition.
fn push_add(commands: &mut Vec<BfCommand>, step: u8)
    ensures
        views(final(commands)@) == with_add(views(old(commands)@), step),
{
    let count = commands.len();
    let folded: Option<u8> = if count > 0 {
        match commands[count - 1] {
            BfCommand::Add(delta) => Some(delta.wrapping_add(step)),
            _ => None,
        }
    } else {
        None
    };
    match folded {
        Some(sum) => {
            commands.pop();
            commands.push(BfCommand::Add(sum));
        },
        None => {
            commands.push(BfCommand::Add(step));
        },
    }
    assert(views(commands@) =~= with_add(views(old(commands)@), step));
}

/// Puts `command` behind `commands`.
fn push_command(commands: &mut Vec<BfCommand>, command: BfCommand)
    ensures
        views(final(commands)@) == views(old(commands)@).push(command@),
{
    commands.push(command);
    assert(views(commands@) =~= views(old(commands)@).push(command@));
}

/// Reads a program from a row of characters.
pub(crate) fn parse_chars(text: &[char]) -> (outcome: Result<Vec<BfCommand>, ParseError>)
    ensures
        match parsed(text@) {
            Ok(program) => outcome is Ok && views(outcome->Ok_0@) == program,
            Err(error) => outcome == Err::<Vec<BfCommand>, ParseError>(error),
        },
    decreases text@.len(),
{
    let mut commands: Vec<BfCommand> = Vec::new();
    assert(views(commands@) =~= Seq::<Command>::empty());
    let mut i: usize = 0;
    while i < text.len()
        invariant
            i <= text@.len(),
            scan(text@, i as int, views(commands@)) == parsed(text@),
        decreases text@.len() - i,
    {
        let c = text[i];
        if c == '>' {
            push_move(&mut commands, 1);
            i += 1;
        } else if c == '<' {
            push_move(&mut commands, -1);
            i += 1;
        } else if c == '+' {
            push_add(&mut commands, 1);
            i += 1;
        } else if c == '-' {
            push_add(&mut commands, u8::MAX);
            i += 1;
        } else if c == '.' {
            push_command(&mut commands, BfCommand::Print);
            i += 1;
        } else if c == ',' {
            push_command(&mut commands, BfCommand::Read);
            i += 1;
        } else if c == '[' {
            let close = match find_close(text, i) {
                Ok(close) => close,
                Err(error) => {
                    return Err(error);
                },
            };
            let body = match parse_chars(slice_subrange(text, i + 1, close)) {
                Ok(body) => body,
                Err(error) => {
                    return Err(error);
                },
            };
            push_command(&mut commands, BfCommand::Loop(SourceCode(body)));
            i = close + 1;
        } else if c == ']' {
            return Err(ParseError::UnmatchedClose(i));
        } else {
            i += 1;
        }
    }
    Ok(commands)
}

/// Finds the bracket that closes the one at `start_index`.
///
/// `s` is the text to find the brackets in, and `start_index` the position of
/// the opening bracket, counted in characters. The closing bracket is the
/// first behind which as many brackets have been closed as were opened from
/// `start_index` on.
pub fn find_matching_closing_bracket(s: &str, start_index: usize) -> (outcome: Result<
    usize,
    ParseError,
>)
    ensures
        outcome == bracket_search(s@, start_index as int),
        outcome matches Ok(close) ==> closes(s@, start_index as int, close as int),
{
    let text = chars_of(s);
    find_close(text.as_slice(), start_index)
}

/// What [`extract_loop_code`] returns for `text` and `start`: the body of the
/// loop that opens at `start`, and the distance from its `[` to its `]`.
pub open spec fn loop_at(text: Seq<char>, start: int) -> Result<(Seq<Command>, usize), ParseError> {
    match bracket_search(text, start) {
        Ok(close) => match parsed(text.subrange(start + 1, close as int)) {
            Ok(body) => Ok((body, (close - start) as usize)),
            Err(error) => Err(error),
        },
        Err(error) => Err(error),
    }
}

/// Extracts the loop that opens at `start_index`.
///
/// `s` is the text to extract the loop from, and `start_index` the position
/// of its opening bracket. The result holds the code between the brackets,
/// and how far the closing bracket lies behind the opening one.
pub fn extract_loop_code(s: &str, start_index: usize) -> (outcome: Result<
    (SourceCode, usize),
    ParseError,
>)
    ensures
        outcome is Ok <==> bracket_search(s@, start_index as int) is Ok,
        match loop_at(s@, start_index as int) {
            Ok((body, span)) => outcome is Ok && outcome->Ok_0.0@ == body && outcome->Ok_0.1
                == span,
            Err(error) => outcome == Err::<(SourceCode, usize), ParseError>(error),
        },
{
    let text = chars_of(s);
    let close = match find_close(text.as_slice(), start_index) {
        Ok(close) => close,
        Err(error) => {
            return Err(error);
        },
    };
    proof {
        lemma_loop_body_parses(s@, start_index as int, close as int);
    }
    match parse_chars(slice_subrange(text.as_slice(), start_index + 1, close)) {
        Ok(body) => Ok((SourceCode(body), close - start_index)),
        Err(error) => Err(error),
    }
}

} // verus!
