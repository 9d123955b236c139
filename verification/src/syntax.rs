//! The language's syntax, as mathematics.
//!
//! Eight characters are significant: `>` `<` `+` `-` `.` `,` `[` `]`. Any
//! other character is a comment and has no effect. [`parsed`] says which
//! program a text stands for, or why it stands for none.

use crate::brackets::{
    balanced, closes, depth, first_fault, lemma_body_balanced, lemma_depth_split,
    lemma_find_close, lemma_stays_open, matching_close, weight,
};
use crate::error::ParseError;
use crate::memoryband::wrapped_sum;
use vstd::prelude::*;

verus! {

/// One node of a program.
pub ghost enum Command {
    /// Move the head by so many cells, to the right when positive.
    Move(isize),
    /// Add so much, wrapping at 256, to the cell under the head.
    Add(u8),
    /// Write the cell under the head as a character.
    Print,
    /// Read one character into the cell under the head.
    Read,
    /// Repeat the body for as long as the cell under the head is not zero.
    Loop(Seq<Command>),
}

/// A head displacement can be held in a `Move` node.
pub open spec fn fits(delta: int) -> bool {
    isize::MIN <= delta <= isize::MAX
}

/// The commands `done` followed by a head move of `step`. The move is folded
/// into the last command where that is a `Move` whose sum with it can be
/// held; else it becomes a node of its own.
pub open spec fn with_move(done: Seq<Command>, step: int) -> Seq<Command> {
    if done.len() > 0 && done.last() is Move && fits(done.last()->Move_0 + step) {
        done.drop_last().push(Command::Move((done.last()->Move_0 + step) as isize))
    } else {
        done.push(Command::Move(step as isize))
    }
}

/// The commands `done` followed by an addition of `step`, folded into the
/// last command where that is an `Add`.
pub open spec fn with_add(done: Seq<Command>, step: u8) -> Seq<Command> {
    if done.len() > 0 && done.last() is Add {
        done.drop_last().push(Command::Add(wrapped_sum(done.last()->Add_0, step)))
    } else {
        done.push(Command::Add(step))
    }
}

/// The program that `text` stands for from position `at` on, given that what
/// lies before `at` stands for `done`.
///
/// A `[` takes with it everything up to the bracket that closes it; what lies
/// strictly between the two is a program of its own, the body of the loop. A
/// `[` that nothing closes, and a `]` met where no loop is open, end the scan
/// with an error that names their position.
pub open spec fn scan(text: Seq<char>, at: int, done: Seq<Command>) -> Result<
    Seq<Command>,
    ParseError,
>
    decreases text.len(), text.len() - at,
{
    if at < 0 || at >= text.len() {
        Ok(done)
    } else if text[at] == '>' {
        scan(text, at + 1, with_move(done, 1))
    } else if text[at] == '<' {
        scan(text, at + 1, with_move(done, -1))
    } else if text[at] == '+' {
        scan(text, at + 1, with_add(done, 1))
    } else if text[at] == '-' {
        scan(text, at + 1, with_add(done, 255))
    } else if text[at] == '.' {
        scan(text, at + 1, done.push(Command::Print))
    } else if text[at] == ',' {
        scan(text, at + 1, done.push(Command::Read))
    } else if text[at] == '[' {
        match matching_close(text, at) {
            Some(close) => match parsed(text.subrange(at + 1, close)) {
                Ok(body) => scan(text, close + 1, done.push(Command::Loop(body))),
                Err(error) => Err(error),
            },
            None => Err(ParseError::UnmatchedOpen(at as usize)),
        }
    } else if text[at] == ']' {
        Err(ParseError::UnmatchedClose(at as usize))
    } else {
        scan(text, at + 1, done)
    }
}

/// The program that `text` stands for, or the first thing wrong with `text`.
pub open spec fn parsed(text: Seq<char>) -> Result<Seq<Command>, ParseError>
    decreases text.len(), text.len() + 1,
{
    scan(text, 0, Seq::empty())
}

/// How often `c` occurs in `text`.
pub open spec fn occurrences(text: Seq<char>, c: char) -> nat
    decreases text.len(),
{
    if text.len() == 0 {
        0
    } else {
        occurrences(text.drop_last(), c) + if text.last() == c {
            1nat
        } else {
            0nat
        }
    }
}

/// A character occurs in a text at most as often as the text is long.
pub proof fn lemma_occurrences_bound(text: Seq<char>, c: char)
    ensures
        occurrences(text, c) <= text.len(),
    decreases text.len(),
{
    if text.len() > 0 {
        lemma_occurrences_bound(text.drop_last(), c);
    }
}

/// Head displacement that the first `upto` characters of `text` add up to.
pub open spec fn net_moves(text: Seq<char>, upto: int) -> int {
    occurrences(text.take(upto), '>') - occurrences(text.take(upto), '<')
}

/// Sum, before wrapping, that the first `upto` characters of `text` add up to.
pub open spec fn net_adds(text: Seq<char>, upto: int) -> int {
    occurrences(text.take(upto), '+') - occurrences(text.take(upto), '-')
}

proof fn lemma_occurrences_step(text: Seq<char>, upto: int, c: char)
    requires
        0 <= upto < text.len(),
    ensures
        occurrences(text.take(upto + 1), c) == occurrences(text.take(upto), c) + if text[upto]
            == c {
            1nat
        } else {
            0nat
        },
{
    assert(text.take(upto + 1).drop_last() =~= text.take(upto));
}

proof fn lemma_scan_moves(text: Seq<char>, at: int)
    requires
        0 < at <= text.len() <= isize::MAX,
        forall|i: int| 0 <= i < text.len() ==> text[i] == '>' || text[i] == '<',
    ensures
        scan(text, at, seq![Command::Move(net_moves(text, at) as isize)]) == Ok::<
            Seq<Command>,
            ParseError,
        >(seq![Command::Move(net_moves(text, text.len() as int) as isize)]),
    decreases text.len() - at,
{
    if at < text.len() {
        let done = seq![Command::Move(net_moves(text, at) as isize)];
        let step: int = if text[at] == '>' {
            1
        } else {
            -1
        };
        lemma_occurrences_bound(text.take(at), '>');
        lemma_occurrences_bound(text.take(at), '<');
        lemma_occurrences_step(text, at, '>');
        lemma_occurrences_step(text, at, '<');
        assert(net_moves(text, at + 1) == net_moves(text, at) + step);
        assert(with_move(done, step) =~= seq![Command::Move(net_moves(text, at + 1) as isize)]);
        lemma_scan_moves(text, at + 1);
    } else {
        assert(text.take(at) =~= text);
    }
}

proof fn lemma_scan_adds(text: Seq<char>, at: int)
    requires
        0 < at <= text.len(),
        forall|i: int| 0 <= i < text.len() ==> text[i] == '+' || text[i] == '-',
    ensures
        scan(text, at, seq![Command::Add((net_adds(text, at) % 256) as u8)]) == Ok::<
            Seq<Command>,
            ParseError,
        >(seq![Command::Add((net_adds(text, text.len() as int) % 256) as u8)]),
    decreases text.len() - at,
{
    if at < text.len() {
        let sum = (net_adds(text, at) % 256) as u8;
        let done = seq![Command::Add(sum)];
        let step: u8 = if text[at] == '+' {
            1
        } else {
            255
        };
        lemma_occurrences_step(text, at, '+');
        lemma_occurrences_step(text, at, '-');
        assert(wrapped_sum(sum, step) == (net_adds(text, at + 1) % 256) as u8);
        assert(with_add(done, step) =~= seq![Command::Add((net_adds(text, at + 1) % 256) as u8)]);
        lemma_scan_adds(text, at + 1);
    } else {
        assert(text.take(at) =~= text);
    }
}

/// Head moves fold: a text made of `>` and `<` alone stands for one `Move`
/// node, whose delta is the number of `>` less the number of `<`.
///
/// The text holds at least one character, for the empty text stands for the
/// empty program, and at most `isize::MAX`, so that every sum on the way can
/// be held in a node.
pub proof fn lemma_moves_fold(text: Seq<char>)
    requires
        0 < text.len() <= isize::MAX,
        forall|i: int| 0 <= i < text.len() ==> text[i] == '>' || text[i] == '<',
    ensures
        parsed(text) == Ok::<Seq<Command>, ParseError>(
            seq![Command::Move((occurrences(text, '>') - occurrences(text, '<')) as isize)],
        ),
{
    let step: int = if text[0] == '>' {
        1
    } else {
        -1
    };
    lemma_occurrences_step(text, 0, '>');
    lemma_occurrences_step(text, 0, '<');
    assert(net_moves(text, 1) == step);
    assert(with_move(Seq::empty(), step) =~= seq![Command::Move(net_moves(text, 1) as isize)]);
    lemma_scan_moves(text, 1);
    assert(text.take(text.len() as int) =~= text);
}

/// Additions fold: a text made of `+` and `-` alone, and not empty, stands
/// for one `Add` node, whose delta is the number of `+` less the number of
/// `-`, taken modulo 256.
pub proof fn lemma_adds_fold(text: Seq<char>)
    requires
        0 < text.len(),
        forall|i: int| 0 <= i < text.len() ==> text[i] == '+' || text[i] == '-',
    ensures
        parsed(text) == Ok::<Seq<Command>, ParseError>(
            seq![
                Command::Add(((occurrences(text, '+') - occurrences(text, '-')) % 256) as u8),
            ],
        ),
{
    let step: u8 = if text[0] == '+' {
        1
    } else {
        255
    };
    lemma_occurrences_step(text, 0, '+');
    lemma_occurrences_step(text, 0, '-');
    assert(with_add(Seq::empty(), step) =~= seq![Command::Add((net_adds(text, 1) % 256) as u8)]);
    lemma_scan_adds(text, 1);
    assert(text.take(text.len() as int) =~= text);
}

proof fn lemma_scan_balanced(text: Seq<char>, at: int, done: Seq<Command>)
    requires
        0 <= at <= text.len(),
        depth(text, 0, at) == 0,
        forall|k: int| 0 <= k <= at ==> depth(text, 0, k) >= 0,
    ensures
        scan(text, at, done) is Ok <==> balanced(text),
    decreases text.len(), text.len() - at,
{
    if at < text.len() {
        let c = text[at];
        assert(depth(text, 0, at + 1) == weight(c));
        if c == '[' {
            lemma_depth_split(text, 0, at, text.len() as int);
            assert(depth(text, at, at + 1) == 1) by {
                assert(depth(text, at, at) == 0);
            }
            if balanced(text) {
                let close = lemma_find_close(text, at, at + 1, text.len() as int);
                assert(matching_close(text, at) is Some);
            }
            if let Some(close) = matching_close(text, at) {
                let body = text.subrange(at + 1, close);
                lemma_body_balanced(text, at, close);
                lemma_scan_balanced(body, 0, Seq::empty());
                let next = done.push(Command::Loop(parsed(body)->Ok_0));
                assert forall|k: int| 0 <= k <= close + 1 implies depth(text, 0, k) >= 0 by {
                    if at < k {
                        lemma_depth_split(text, 0, at, k);
                    }
                }
                lemma_depth_split(text, 0, at, close + 1);
                lemma_scan_balanced(text, close + 1, next);
            } else {
                assert(!balanced(text)) by {
                    if balanced(text) {
                        let close = lemma_find_close(text, at, at + 1, text.len() as int);
                    }
                }
            }
        } else if c == ']' {
            assert(depth(text, 0, at + 1) < 0);
        } else {
            assert forall|k: int| 0 <= k <= at + 1 implies depth(text, 0, k) >= 0 by {
            }
            if c == '>' {
                lemma_scan_balanced(text, at + 1, with_move(done, 1));
            } else if c == '<' {
                lemma_scan_balanced(text, at + 1, with_move(done, -1));
            } else if c == '+' {
                lemma_scan_balanced(text, at + 1, with_add(done, 1));
            } else if c == '-' {
                lemma_scan_balanced(text, at + 1, with_add(done, 255));
            } else if c == '.' {
                lemma_scan_balanced(text, at + 1, done.push(Command::Print));
            } else if c == ',' {
                lemma_scan_balanced(text, at + 1, done.push(Command::Read));
            } else {
                lemma_scan_balanced(text, at + 1, done);
            }
        }
    }
}

/// The outcome of a scan is as the brackets of the text have it: a program
/// for a balanced text, and else the first fault of the text.
pub open spec fn accounted(text: Seq<char>, outcome: Result<Seq<Command>, ParseError>) -> bool {
    match outcome {
        Ok(_) => balanced(text),
        Err(error) => first_fault(text, error),
    }
}

proof fn lemma_scan_accounted(text: Seq<char>, at: int, done: Seq<Command>)
    requires
        0 <= at <= text.len() <= usize::MAX,
        depth(text, 0, at) == 0,
        forall|k: int| 0 <= k <= at ==> depth(text, 0, k) >= 0,
    ensures
        accounted(text, scan(text, at, done)),
    decreases text.len() - at,
{
    if at < text.len() {
        let c = text[at];
        assert(depth(text, 0, at + 1) == weight(c));
        if c == '[' {
            match matching_close(text, at) {
                Some(close) => {
                    let body = text.subrange(at + 1, close);
                    lemma_loop_body_parses(text, at, close);
                    let next = done.push(Command::Loop(parsed(body)->Ok_0));
                    assert forall|k: int| 0 <= k <= close + 1 implies depth(text, 0, k)
                        >= 0 by {
                        if at < k {
                            lemma_depth_split(text, 0, at, k);
                        }
                    }
                    lemma_depth_split(text, 0, at, close + 1);
                    lemma_scan_accounted(text, close + 1, next);
                },
                None => {
                    assert forall|k: int| at < k <= text.len() implies depth(text, at, k)
                        > 0 by {
                        lemma_stays_open(text, at, k);
                    }
                },
            }
        } else if c == ']' {
        } else {
            assert forall|k: int| 0 <= k <= at + 1 implies depth(text, 0, k) >= 0 by {
            }
            if c == '>' {
                lemma_scan_accounted(text, at + 1, with_move(done, 1));
            } else if c == '<' {
                lemma_scan_accounted(text, at + 1, with_move(done, -1));
            } else if c == '+' {
                lemma_scan_accounted(text, at + 1, with_add(done, 1));
            } else if c == '-' {
                lemma_scan_accounted(text, at + 1, with_add(done, 255));
            } else if c == '.' {
                lemma_scan_accounted(text, at + 1, done.push(Command::Print));
            } else if c == ',' {
                lemma_scan_accounted(text, at + 1, done.push(Command::Read));
            } else {
                lemma_scan_accounted(text, at + 1, done);
            }
        }
    }
}

/// The error of a text names the first bracket that is wrong: a `]` that
/// closes nothing, or a `[` that is never closed, with nothing wrong before
/// it. A text without such a bracket is balanced, and stands for a program.
///
/// By [`crate::brackets::lemma_fault_unique`] a text has one first fault at
/// most, and a balanced text none: the outcome is the only one that this
/// account allows.
pub proof fn lemma_first_fault(text: Seq<char>)
    requires
        text.len() <= usize::MAX,
    ensures
        accounted(text, parsed(text)),
{
    lemma_scan_accounted(text, 0, Seq::empty());
}

/// A text stands for a program if and only if its brackets are balanced.
pub proof fn lemma_parses_iff_balanced(text: Seq<char>)
    ensures
        parsed(text) is Ok <==> balanced(text),
{
    lemma_scan_balanced(text, 0, Seq::empty());
}

/// What lies between a `[` and the bracket that closes it stands for a
/// program: the body of a loop never fails to parse.
pub proof fn lemma_loop_body_parses(text: Seq<char>, open: int, close: int)
    requires
        closes(text, open, close),
    ensures
        parsed(text.subrange(open + 1, close)) is Ok,
{
    lemma_body_balanced(text, open, close);
    lemma_parses_iff_balanced(text.subrange(open + 1, close));
}

} // verus!
