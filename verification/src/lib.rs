//! An interpreter for Brainfuck: source text is parsed into a tree of
//! commands, and the tree is run on a memory band, reading and writing
//! characters one at a time.
//!
//! The central pieces are [`sourcecode::SourceCode`], its `parse` and its
//! `run`. [`run`] runs a whole text as the user's [`args::Args`] ask, and
//! [`interpret_line`] serves one line of an interactive session.

use crate::args::Args;
use crate::error::{Failure, Interrupt, ParseError};
use crate::input::Input;
use crate::memoryband::{FiniteMemoryBand, InfiniteMemoryBand, MemoryBand};
use crate::output::Output;
use crate::semantics::{machine, run_all, Outcome};
use crate::sourcecode::{chars_of, parse_chars, SourceCode};
use crate::syntax::{parsed, Command};
use vstd::prelude::*;

pub mod args;
pub mod brackets;
pub mod error;
pub mod input;
pub mod memoryband;
pub mod output;
pub mod semantics;
pub mod sourcecode;
pub mod syntax;

verus! {

/// What stopped a run that ended with `end`, if anything did.
pub open spec fn failure_of(end: Result<(), Failure>) -> Option<Failure> {
    match end {
        Ok(_) => None,
        Err(failure) => Some(failure),
    }
}

/// The outcome of a run of `program` on a new band: an unbounded one where
/// `infinite_memory` is set, else the bounded one.
pub open spec fn fresh_run(
    infinite_memory: bool,
    program: Seq<Command>,
    pending: Seq<char>,
    written: Seq<char>,
    limit: nat,
) -> Outcome {
    if infinite_memory {
        run_all::<InfiniteMemoryBand>(
            program,
            machine(InfiniteMemoryBand::fresh(), pending, written),
            limit,
        )
    } else {
        run_all::<FiniteMemoryBand>(
            program,
            machine(FiniteMemoryBand::fresh(), pending, written),
            limit,
        )
    }
}

/// Runs the program that `source` holds, on a new band of the kind that
/// `args` choose: the unbounded band with `args.infinite_memory`, else the
/// bounded one.
///
/// `source` is the text of the file that `args.input_path` names. A text
/// that is no program is refused before anything is read or written. `stdin`,
/// `stdout` and `limit` are as for [`SourceCode::run`]. The lines of an
/// interactive session, `args.interactive`, are not run by this function but
/// one by one by [`interpret_line`].
pub fn run<I, O>(args: &Args, source: &str, stdin: &mut I, stdout: &mut O, limit: u64) -> (end:
    Result<(), Failure>) where I: Input, O: Output
    ensures
        final(stdin).modelled() == old(stdin).modelled(),
        final(stdout).modelled() == old(stdout).modelled(),
        parsed(source@) is Ok ==> !(end matches Err(Failure::Syntax(_))),
        match parsed(source@) {
            Ok(program) => old(stdin).modelled() && old(stdout).modelled() ==> {
                let outcome = fresh_run(
                    args.infinite_memory,
                    program,
                    old(stdin).pending(),
                    old(stdout).written(),
                    limit as nat,
                );
                &&& failure_of(end) == match outcome.stop {
                    Some(interrupt) => Some(Failure::Stopped(interrupt)),
                    None => None,
                }
                &&& final(stdin).pending() == outcome.state.pending
                &&& final(stdout).written() == outcome.state.written
            },
            Err(error) => {
                &&& end == Err::<(), Failure>(Failure::Syntax(error))
                &&& *final(stdin) == *old(stdin)
                &&& *final(stdout) == *old(stdout)
            },
        },
{
    let code = match SourceCode::parse(source) {
        Ok(code) => code,
        Err(error) => {
            return Err(Failure::Syntax(error));
        },
    };
    let end = if args.infinite_memory {
        code.run::<I, O, InfiniteMemoryBand>(stdin, stdout, limit)
    } else {
        code.run::<I, O, FiniteMemoryBand>(stdin, stdout, limit)
    };
    match end {
        Ok(_) => Ok(()),
        Err(interrupt) => Err(Failure::Stopped(interrupt)),
    }
}

/// What an interactive session did with a line.
#[derive(Debug, Clone, Copy, PartialEq, Eq, Structural)]
pub enum Reply {
    /// The line asks for the end of the session.
    Exit,
    /// The line is no program, and nothing was run.
    Refused(ParseError),
    /// The line was run, to its end.
    Ran,
    /// The line was run until it was stopped.
    Stopped(Interrupt),
}

/// The line asks for the end of the session: it begins with `exit`.
pub open spec fn asks_exit(line: Seq<char>) -> bool {
    "exit"@.is_prefix_of(line)
}

/// The mark that a session writes before the output of a line.
pub open spec fn out_mark() -> Seq<char> {
    "[out]: "@
}

/// Serves one line of an interactive session on `band`, which keeps its
/// cells and its head from line to line.
///
/// A line that begins with `exit` ends the session. Any other line is parsed
/// as a program. Where that fails, nothing is run. Else the mark `[out]: ` is
/// written to `stdout` and the program is run on `band`, with `stdin`,
/// `stdout` and `limit` as for [`SourceCode::run_on_band`].
pub fn interpret_line<I, O, M>(
    line: &str,
    band: &mut M,
    stdin: &mut I,
    stdout: &mut O,
    limit: u64,
) -> (reply: Reply) where I: Input, O: Output, M: MemoryBand
    requires
        old(band).inv(),
    ensures
        final(band).inv(),
        final(stdin).modelled() == old(stdin).modelled(),
        final(stdout).modelled() == old(stdout).modelled(),
        !asks_exit(line@) && parsed(line@) is Ok ==> reply is Ran || reply is Stopped,
        if asks_exit(line@) {
            &&& reply == Reply::Exit
            &&& *final(band) == *old(band)
            &&& *final(stdin) == *old(stdin)
            &&& *final(stdout) == *old(stdout)
        } else {
            match parsed(line@) {
                Ok(program) => old(stdin).modelled() && old(stdout).modelled() ==> {
                    let outcome = run_all::<M>(
                        program,
                        machine(
                            old(band)@,
                            old(stdin).pending(),
                            old(stdout).written() + out_mark(),
                        ),
                        limit as nat,
                    );
                    &&& reply == match outcome.stop {
                        Some(interrupt) => Reply::Stopped(interrupt),
                        None => Reply::Ran,
                    }
                    &&& machine(final(band)@, final(stdin).pending(), final(stdout).written())
                        == outcome.state
                },
                Err(error) => {
                    &&& reply == Reply::Refused(error)
                    &&& *final(band) == *old(band)
                    &&& *final(stdin) == *old(stdin)
                    &&& *final(stdout) == *old(stdout)
                },
            }
        },
{
    let text = chars_of(line);
    proof {
        reveal_strlit("exit");
    }
    if text.len() >= 4 && text[0] == 'e' && text[1] == 'x' && text[2] == 'i' && text[3] == 't' {
        assert("exit"@ =~= line@.subrange(0, 4));
        return Reply::Exit;
    }
    assert(!asks_exit(line@)) by {
        if asks_exit(line@) {
            assert("exit"@ =~= line@.subrange(0, 4));
            assert(line@.subrange(0, 4)[0] == 'e');
            assert(line@.subrange(0, 4)[1] == 'x');
            assert(line@.subrange(0, 4)[2] == 'i');
            assert(line@.subrange(0, 4)[3] == 't');
        }
    }
    let code = match parse_chars(text.as_slice()) {
        Ok(commands) => SourceCode(commands),
        Err(error) => {
            return Reply::Refused(error);
        },
    };
    write_mark(stdout);
    match code.run_on_band(band, stdin, stdout, limit) {
        Ok(_) => Reply::Ran,
        Err(interrupt) => Reply::Stopped(interrupt),
    }
}

/// Writes the mark `[out]: ` to `stdout`.
fn write_mark<O: Output>(stdout: &mut O)
    ensures
        final(stdout).modelled() == old(stdout).modelled(),
        old(stdout).modelled() ==> final(stdout).written() == old(stdout).written() + out_mark(),
{
    proof {
        reveal_strlit("[out]: ");
    }
    stdout.write_char('[');
    stdout.write_char('o');
    stdout.write_char('u');
    stdout.write_char('t');
    stdout.write_char(']');
    stdout.write_char(':');
    stdout.write_char(' ');
    assert(old(stdout).modelled() ==> stdout.written() =~= old(stdout).written() + out_mark());
}

} // verus!

