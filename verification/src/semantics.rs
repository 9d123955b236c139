//! What running a program means, as mathematics.
//!
//! A run works on a [`Machine`]: the tape, the characters that the input has
//! yet to yield, and the characters written so far. Commands are run in
//! order. A run may go on for ever, so it is given a number of loop rounds
//! that it may make, and [`run_from`] says where it stands when the program
//! has ended, or a fault has stopped it, or the rounds are used up.

use crate::error::Interrupt;
use crate::input::{after_read, next_char};
use crate::memoryband::{MemoryBand, Tape};
use crate::syntax::Command;
use vstd::prelude::*;

verus! {

/// All that a run reads and changes.
pub ghost struct Machine {
    /// The memory band.
    pub tape: Tape,
    /// What the input has yet to yield, next character first.
    pub pending: Seq<char>,
    /// What has been written to the output, oldest character first.
    pub written: Seq<char>,
}

/// Where a run stands when it stops.
pub ghost struct Outcome {
    /// The machine as the run leaves it.
    pub state: Machine,
    /// Loop rounds that the run was allowed and has not made.
    pub rounds: nat,
    /// What stopped the run, if it did not reach the end of its program.
    pub stop: Option<Interrupt>,
}

/// The byte that stands for a character in a cell: its code, modulo 256.
pub open spec fn byte_of(c: char) -> u8 {
    ((c as u32) % 256) as u8
}

/// The character that a cell's value stands for.
pub open spec fn char_of(value: u8) -> char {
    value as char
}

/// The byte that a read stores when the input yields `c`: zero once the input
/// is exhausted.
pub open spec fn stored(c: Option<char>) -> u8 {
    match c {
        Some(c) => byte_of(c),
        None => 0,
    }
}

impl Machine {
    /// The machine after a `Print`.
    pub open spec fn print(self) -> Machine {
        Machine { written: self.written.push(char_of(self.tape.current())), ..self }
    }

    /// The machine after a `Read`.
    pub open spec fn read(self) -> Machine {
        Machine {
            tape: self.tape.write(stored(next_char(self.pending))),
            pending: after_read(self.pending),
            ..self
        }
    }

    /// The machine after an `Add` of `delta`.
    pub open spec fn add(self, delta: u8) -> Machine {
        Machine { tape: self.tape.add(delta), ..self }
    }

    /// The machine with its tape replaced.
    pub open spec fn on(self, tape: Tape) -> Machine {
        Machine { tape, ..self }
    }
}

/// What stopped a run that ended with `end`, if anything did.
pub open spec fn interrupt_of(end: Result<(), Interrupt>) -> Option<Interrupt> {
    match end {
        Ok(_) => None,
        Err(interrupt) => Some(interrupt),
    }
}

/// The machine that a band, an input and an output make up.
pub open spec fn machine(tape: Tape, pending: Seq<char>, written: Seq<char>) -> Machine {
    Machine { tape, pending, written }
}

/// The outcome of a run that has reached the end of its program.
pub open spec fn finished(state: Machine, rounds: nat) -> Outcome {
    Outcome { state, rounds, stop: None }
}

/// The outcome of a run that `interrupt` has stopped.
pub open spec fn stopped(state: Machine, rounds: nat, interrupt: Interrupt) -> Outcome {
    Outcome { state, rounds, stop: Some(interrupt) }
}

/// Runs one command on a band of type `M`, with `rounds` loop rounds allowed.
///
/// A head move that faults stops the run, with the machine as it was before
/// the move.
pub open spec fn single<M: MemoryBand>(command: Command, state: Machine, rounds: nat) -> Outcome
    decreases rounds, 1nat, 0nat,
{
    match command {
        Command::Move(delta) => match M::moved(state.tape, delta as int) {
            Ok(tape) => finished(state.on(tape), rounds),
            Err(fault) => stopped(state, rounds, Interrupt::Fault(fault)),
        },
        Command::Add(delta) => finished(state.add(delta), rounds),
        Command::Print => finished(state.print(), rounds),
        Command::Read => finished(state.read(), rounds),
        Command::Loop(body) => repeat::<M>(body, state, rounds),
    }
}

/// Runs `program` from its command number `at` on: that command, and where
/// it comes to an end, the rest.
///
/// No command leaves more rounds than it was given, see
/// [`lemma_rounds_never_grow`]; the test for it is there to show that the
/// definition is well founded.
pub open spec fn run_from<M: MemoryBand>(
    program: Seq<Command>,
    at: int,
    state: Machine,
    rounds: nat,
) -> Outcome
    decreases rounds, 2nat, program.len() - at,
{
    if at < 0 || at >= program.len() {
        finished(state, rounds)
    } else {
        let first = single::<M>(program[at], state, rounds);
        if first.stop is None && first.rounds <= rounds {
            run_from::<M>(program, at + 1, first.state, first.rounds)
        } else {
            first
        }
    }
}

/// Goes on with `program` behind its command number `at`, of which `first`
/// is the outcome: to the next command where `first` came to an end, and
/// nowhere where it was stopped.
pub open spec fn carry_on<M: MemoryBand>(program: Seq<Command>, at: int, first: Outcome) -> Outcome {
    if first.stop is None {
        run_from::<M>(program, at + 1, first.state, first.rounds)
    } else {
        first
    }
}

/// Runs the loop with body `body`: for as long as the cell under the head is
/// not zero, the body is run, from its first command to its last. Each round
/// uses up one of `rounds`; a round that is due when none is left stops the
/// run.
pub open spec fn repeat<M: MemoryBand>(body: Seq<Command>, state: Machine, rounds: nat) -> Outcome
    decreases rounds, 0nat, 0nat,
{
    if state.tape.current() == 0 {
        finished(state, rounds)
    } else if rounds == 0 {
        stopped(state, rounds, Interrupt::StepLimit)
    } else {
        let once = run_from::<M>(body, 0, state, (rounds - 1) as nat);
        if once.stop is None && once.rounds < rounds {
            repeat::<M>(body, once.state, once.rounds)
        } else {
            once
        }
    }
}

/// Runs the whole of `program`.
pub open spec fn run_all<M: MemoryBand>(program: Seq<Command>, state: Machine, rounds: nat) -> Outcome {
    run_from::<M>(program, 0, state, rounds)
}

/// A run never has more rounds left than it was given.
pub proof fn lemma_rounds_never_grow<M: MemoryBand>(
    program: Seq<Command>,
    at: int,
    state: Machine,
    rounds: nat,
)
    ensures
        run_from::<M>(program, at, state, rounds).rounds <= rounds,
    decreases rounds, 2nat, program.len() - at,
{
    if 0 <= at < program.len() {
        let first = single::<M>(program[at], state, rounds);
        lemma_single_rounds::<M>(program[at], state, rounds);
        if first.stop is None {
            lemma_rounds_never_grow::<M>(program, at + 1, first.state, first.rounds);
        }
    }
}

/// A command never leaves more rounds than it was given.
pub proof fn lemma_single_rounds<M: MemoryBand>(command: Command, state: Machine, rounds: nat)
    ensures
        single::<M>(command, state, rounds).rounds <= rounds,
    decreases rounds, 1nat, 0nat,
{
    if let Command::Loop(body) = command {
        lemma_repeat_rounds::<M>(body, state, rounds);
    }
}

/// A loop never has more rounds left than it was given.
pub proof fn lemma_repeat_rounds<M: MemoryBand>(body: Seq<Command>, state: Machine, rounds: nat)
    ensures
        repeat::<M>(body, state, rounds).rounds <= rounds,
    decreases rounds, 0nat, 0nat,
{
    if state.tape.current() != 0 && rounds > 0 {
        let once = run_from::<M>(body, 0, state, (rounds - 1) as nat);
        lemma_rounds_never_grow::<M>(body, 0, state, (rounds - 1) as nat);
        if once.stop is None {
            lemma_repeat_rounds::<M>(body, once.state, once.rounds);
        }
    }
}

/// A program from its command number `at` on is that command, followed by
/// the rest.
pub proof fn lemma_run_unfold<M: MemoryBand>(
    program: Seq<Command>,
    at: int,
    state: Machine,
    rounds: nat,
)
    requires
        0 <= at < program.len(),
    ensures
        run_from::<M>(program, at, state, rounds) == carry_on::<M>(
            program,
            at,
            single::<M>(program[at], state, rounds),
        ),
{
    lemma_single_rounds::<M>(program[at], state, rounds);
}

/// The outcome with `extra` more rounds left.
pub open spec fn with_more(outcome: Outcome, extra: nat) -> Outcome {
    Outcome { rounds: outcome.rounds + extra, ..outcome }
}

/// The limit only ever cuts a run short: a run that was not stopped for want
/// of rounds goes the same way when it is allowed more, and has those more
/// left at its end.
pub proof fn lemma_more_rounds<M: MemoryBand>(
    program: Seq<Command>,
    at: int,
    state: Machine,
    rounds: nat,
    extra: nat,
)
    requires
        run_from::<M>(program, at, state, rounds).stop != Some(Interrupt::StepLimit),
    ensures
        run_from::<M>(program, at, state, rounds + extra) == with_more(
            run_from::<M>(program, at, state, rounds),
            extra,
        ),
    decreases rounds, 2nat, program.len() - at,
{
    if 0 <= at < program.len() {
        let first = single::<M>(program[at], state, rounds);
        lemma_single_rounds::<M>(program[at], state, rounds);
        lemma_single_rounds::<M>(program[at], state, rounds + extra);
        lemma_single_more_rounds::<M>(program[at], state, rounds, extra);
        if first.stop is None {
            lemma_more_rounds::<M>(program, at + 1, first.state, first.rounds, extra);
        }
    }
}

/// [`lemma_more_rounds`], of one command.
pub proof fn lemma_single_more_rounds<M: MemoryBand>(
    command: Command,
    state: Machine,
    rounds: nat,
    extra: nat,
)
    requires
        single::<M>(command, state, rounds).stop != Some(Interrupt::StepLimit),
    ensures
        single::<M>(command, state, rounds + extra) == with_more(
            single::<M>(command, state, rounds),
            extra,
        ),
    decreases rounds, 1nat, 0nat,
{
    if let Command::Loop(body) = command {
        lemma_repeat_more_rounds::<M>(body, state, rounds, extra);
    }
}

/// [`lemma_more_rounds`], of a loop.
pub proof fn lemma_repeat_more_rounds<M: MemoryBand>(
    body: Seq<Command>,
    state: Machine,
    rounds: nat,
    extra: nat,
)
    requires
        repeat::<M>(body, state, rounds).stop != Some(Interrupt::StepLimit),
    ensures
        repeat::<M>(body, state, rounds + extra) == with_more(
            repeat::<M>(body, state, rounds),
            extra,
        ),
    decreases rounds, 0nat, 0nat,
{
    if state.tape.current() != 0 && rounds > 0 {
        let once = run_from::<M>(body, 0, state, (rounds - 1) as nat);
        lemma_repeat_unfold::<M>(body, state, rounds);
        lemma_repeat_unfold::<M>(body, state, rounds + extra);
        lemma_rounds_never_grow::<M>(body, 0, state, (rounds - 1) as nat);
        lemma_more_rounds::<M>(body, 0, state, (rounds - 1) as nat, extra);
        if once.stop is None {
            lemma_repeat_more_rounds::<M>(body, once.state, once.rounds, extra);
        }
    }
}

/// One round of a loop: where the cell under the head is not zero and a
/// round is left, the loop is its body run once, and the loop again.
pub proof fn lemma_repeat_unfold<M: MemoryBand>(body: Seq<Command>, state: Machine, rounds: nat)
    requires
        state.tape.current() != 0,
        rounds > 0,
    ensures
        ({
            let once = run_from::<M>(body, 0, state, (rounds - 1) as nat);
            repeat::<M>(body, state, rounds) == if once.stop is None {
                repeat::<M>(body, once.state, once.rounds)
            } else {
                once
            }
        }),
{
    lemma_rounds_never_grow::<M>(body, 0, state, (rounds - 1) as nat);
}

/// A loop entered with the cell under the head at zero makes no round and
/// changes nothing.
pub proof fn lemma_loop_skipped<M: MemoryBand>(body: Seq<Command>, state: Machine, rounds: nat)
    requires
        state.tape.current() == 0,
    ensures
        repeat::<M>(body, state, rounds) == finished(state, rounds),
{
}

/// A loop with an empty body, entered with the cell under the head not at
/// zero, never ends: however many rounds it is allowed, it uses them all up,
/// and leaves the machine as it found it.
pub proof fn lemma_empty_loop_never_ends<M: MemoryBand>(state: Machine, rounds: nat)
    requires
        state.tape.current() != 0,
    ensures
        repeat::<M>(Seq::empty(), state, rounds) == stopped(state, 0, Interrupt::StepLimit),
    decreases rounds,
{
    if rounds > 0 {
        let once = run_from::<M>(Seq::empty(), 0, state, (rounds - 1) as nat);
        assert(once == finished(state, (rounds - 1) as nat));
        lemma_empty_loop_never_ends::<M>(state, (rounds - 1) as nat);
    }
}

/// A character of code below 256 is stored and written back as itself.
pub proof fn lemma_byte_round_trip(c: char)
    requires
        (c as u32) < 256,
    ensures
        char_of(byte_of(c)) == c,
{
}

/// A read followed by a print writes the next character of the input: the
/// program `,.` takes the character off the input, stores its byte in the
/// cell under the head, and writes that byte as a character, whatever band
/// it runs on. For a character of code below 256 that is the character
/// itself.
pub proof fn lemma_read_then_print<M: MemoryBand>(state: Machine, rounds: nat)
    requires
        state.tape.wf(),
        state.pending.len() > 0,
    ensures
        run_all::<M>(seq![Command::Read, Command::Print], state, rounds) == finished(
            machine(
                state.tape.write(byte_of(state.pending[0])),
                state.pending.drop_first(),
                state.written.push(char_of(byte_of(state.pending[0]))),
            ),
            rounds,
        ),
{
    let program = seq![Command::Read, Command::Print];
    let read = state.read();
    lemma_run_unfold::<M>(program, 0, state, rounds);
    assert(single::<M>(program[0], state, rounds) == finished(read, rounds));
    lemma_run_unfold::<M>(program, 1, read, rounds);
    assert(single::<M>(program[1], read, rounds) == finished(read.print(), rounds));
    assert(run_from::<M>(program, 2, read.print(), rounds) == finished(read.print(), rounds));
}

} // verus!
