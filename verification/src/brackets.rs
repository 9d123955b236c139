//! Brackets and how they pair up.
//!
//! A `[` adds one to the nesting depth and a `]` takes one away. The bracket
//! that closes a `[` is the first one behind which the depth gained since
//! that `[` is back at zero.

use crate::error::ParseError;
use vstd::prelude::*;

verus! {

/// What a character adds to the nesting depth.
pub open spec fn weight(c: char) -> int {
    if c == '[' {
        1
    } else if c == ']' {
        -1
    } else {
        0
    }
}

/// Nesting depth gained over `text[from..to]`: the number of `[` in it less
/// the number of `]`.
pub open spec fn depth(text: Seq<char>, from: int, to: int) -> int
    decreases to - from,
{
    if to <= from {
        0
    } else {
        depth(text, from, to - 1) + weight(text[to - 1])
    }
}

/// The bracket at `close` is the one that closes the `[` at `open`: the depth
/// gained from `open` on returns to zero just behind `close`, and nowhere
/// before.
pub open spec fn closes(text: Seq<char>, open: int, close: int) -> bool {
    &&& 0 <= open < close < text.len()
    &&& text[open] == '['
    &&& depth(text, open, close + 1) == 0
    &&& forall|k: int| open < k <= close ==> depth(text, open, k) > 0
}

/// Position of the bracket that closes the `[` at `open`, if there is one.
pub open spec fn matching_close(text: Seq<char>, open: int) -> Option<int> {
    if exists|close: int| closes(text, open, close) {
        Some(choose|close: int| closes(text, open, close))
    } else {
        None
    }
}

/// Result of a search for the bracket that closes the one at `start`.
pub open spec fn bracket_search(text: Seq<char>, start: int) -> Result<usize, ParseError> {
    if !(0 <= start < text.len() && text[start] == '[') {
        Err(ParseError::NoOpeningBracket(start as usize))
    } else {
        match matching_close(text, start) {
            Some(close) => Ok(close as usize),
            None => Err(ParseError::UnmatchedOpen(start as usize)),
        }
    }
}

/// The brackets of `text` are balanced: no `]` comes without a `[` open
/// before it, and no `[` is left open at the end.
pub open spec fn balanced(text: Seq<char>) -> bool {
    &&& depth(text, 0, text.len() as int) == 0
    &&& forall|k: int| 0 <= k <= text.len() ==> depth(text, 0, k) >= 0
}

/// The `]` at `at` closes nothing: it is the first bracket to close more than
/// was opened before it.
pub open spec fn closes_nothing(text: Seq<char>, at: int) -> bool {
    &&& 0 <= at < text.len()
    &&& text[at] == ']'
    &&& depth(text, 0, at) == 0
    &&& forall|k: int| 0 <= k <= at ==> depth(text, 0, k) >= 0
}

/// The `[` at `at` is never closed, and it is the first bracket that is
/// wrong: before it no `]` closes more than was opened, and every `[` has
/// been closed.
pub open spec fn never_closed(text: Seq<char>, at: int) -> bool {
    &&& 0 <= at < text.len()
    &&& text[at] == '['
    &&& depth(text, 0, at) == 0
    &&& forall|k: int| 0 <= k <= at ==> depth(text, 0, k) >= 0
    &&& forall|k: int| at < k <= text.len() ==> depth(text, at, k) > 0
}

/// `error` names the first bracket of `text` that is wrong, and says rightly
/// what is wrong with it.
pub open spec fn first_fault(text: Seq<char>, error: ParseError) -> bool {
    match error {
        ParseError::UnmatchedClose(at) => closes_nothing(text, at as int),
        ParseError::UnmatchedOpen(at) => never_closed(text, at as int),
        ParseError::NoOpeningBracket(_) => false,
    }
}

/// At most one bracket closes a given `[`.
pub proof fn lemma_close_unique(text: Seq<char>, open: int, first: int, second: int)
    requires
        closes(text, open, first),
        closes(text, open, second),
    ensures
        first == second,
{
    if first < second {
        assert(depth(text, open, first + 1) > 0);
    } else if second < first {
        assert(depth(text, open, second + 1) > 0);
    }
}

/// A bracket that closes the `[` at `open` is the one that
/// [`matching_close`] names.
pub proof fn lemma_matching_close(text: Seq<char>, open: int, close: int)
    requires
        closes(text, open, close),
    ensures
        matching_close(text, open) == Some(close),
{
    let chosen = choose|close: int| closes(text, open, close);
    lemma_close_unique(text, open, chosen, close);
}

/// Depth adds up: what is gained over `text[from..to]` is what is gained up to
/// `mid` and what is gained from there on.
pub proof fn lemma_depth_split(text: Seq<char>, from: int, mid: int, to: int)
    requires
        from <= mid <= to,
    ensures
        depth(text, from, to) == depth(text, from, mid) + depth(text, mid, to),
    decreases to - mid,
{
    if mid < to {
        lemma_depth_split(text, from, mid, to - 1);
    }
}

/// Depth in a part of a text is depth in the text, at the same characters.
pub proof fn lemma_depth_subrange(text: Seq<char>, lo: int, hi: int, from: int, to: int)
    requires
        0 <= lo <= hi <= text.len(),
        0 <= from <= to <= hi - lo,
    ensures
        depth(text.subrange(lo, hi), from, to) == depth(text, lo + from, lo + to),
    decreases to - from,
{
    if from < to {
        lemma_depth_subrange(text, lo, hi, from, to - 1);
    }
}

/// What lies between a `[` and the bracket that closes it is balanced.
pub proof fn lemma_body_balanced(text: Seq<char>, open: int, close: int)
    requires
        closes(text, open, close),
    ensures
        balanced(text.subrange(open + 1, close)),
{
    let body = text.subrange(open + 1, close);
    assert(depth(text, open, open + 1) == 1) by {
        assert(depth(text, open, open) == 0);
    }
    assert forall|k: int| 0 <= k <= body.len() implies depth(body, 0, k) == depth(
        text,
        open,
        open + 1 + k,
    ) - 1 by {
        lemma_depth_subrange(text, open + 1, close, 0, k);
        lemma_depth_split(text, open, open + 1, open + 1 + k);
    }
    assert(depth(text, open, close) == 1);
}

/// A `[` behind which the depth comes back to zero has a bracket that closes
/// it.
///
/// The `[` stands at `open`, the depth gained from there up to `upto` has
/// stayed above zero, and up to `end` it is zero. The bracket that the lemma
/// returns lies before `end`.
pub proof fn lemma_find_close(text: Seq<char>, open: int, upto: int, end: int) -> (close: int)
    requires
        0 <= open < upto <= end <= text.len(),
        text[open] == '[',
        depth(text, open, end) == 0,
        forall|k: int| open < k <= upto ==> depth(text, open, k) > 0,
    ensures
        closes(text, open, close),
        close < end,
    decreases end - upto,
{
    assert(depth(text, open, upto) > 0);
    if depth(text, open, upto + 1) == 0 {
        upto
    } else {
        lemma_find_close(text, open, upto + 1, end)
    }
}

/// Behind a `[` that no bracket closes the depth never comes back to zero.
pub proof fn lemma_stays_open(text: Seq<char>, open: int, upto: int)
    requires
        0 <= open < upto <= text.len(),
        text[open] == '[',
        matching_close(text, open) is None,
    ensures
        depth(text, open, upto) > 0,
    decreases upto - open,
{
    if upto == open + 1 {
        assert(depth(text, open, open) == 0);
    } else {
        assert forall|k: int| open < k <= upto - 1 implies depth(text, open, k) > 0 by {
            lemma_stays_open(text, open, k);
        }
        if depth(text, open, upto) <= 0 {
            assert(depth(text, open, upto - 1) > 0);
            assert(depth(text, open, upto) == 0);
            assert(closes(text, open, upto - 1));
        }
    }
}

/// A text has one thing wrong with it first, or nothing: it cannot be
/// balanced and hold a `]` that closes nothing, or a `[` that is never
/// closed, and the first bracket that is wrong is one bracket.
pub proof fn lemma_one_fault(text: Seq<char>, first: int, second: int)
    ensures
        !(balanced(text) && closes_nothing(text, first)),
        !(balanced(text) && never_closed(text, first)),
        !(closes_nothing(text, first) && never_closed(text, second)),
        closes_nothing(text, first) && closes_nothing(text, second) ==> first == second,
        never_closed(text, first) && never_closed(text, second) ==> first == second,
{
    if closes_nothing(text, first) {
        assert(depth(text, 0, first + 1) == -1);
        if never_closed(text, second) && second < first {
            lemma_depth_split(text, 0, second, first + 1);
        }
    }
    if never_closed(text, first) {
        lemma_depth_split(text, 0, first, text.len() as int);
        if never_closed(text, second) {
            if first < second {
                lemma_depth_split(text, 0, first, second);
            } else if second < first {
                lemma_depth_split(text, 0, second, first);
            }
        }
    }
    if closes_nothing(text, second) {
        assert(depth(text, 0, second + 1) == -1);
    }
}

/// A text has at most one first fault, and a balanced text has none.
pub proof fn lemma_fault_unique(text: Seq<char>, first: ParseError, second: ParseError)
    requires
        first_fault(text, first),
    ensures
        !balanced(text),
        first_fault(text, second) ==> first == second,
{
    lemma_one_fault(text, first.place() as int, second.place() as int);
    lemma_one_fault(text, second.place() as int, first.place() as int);
}

} // verus!
