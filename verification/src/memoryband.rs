//! The memory band: a row of byte cells under one reading head.
//!
//! Two bands share one contract, [`MemoryBand`]. [`InfiniteMemoryBand`] grows
//! by zeroed cells wherever the head goes; [`FiniteMemoryBand`] has a fixed
//! number of cells and reports a [`TapeFault`] when the head would leave them.
//! Both are described by the same mathematical picture, a [`Tape`].

use std::collections::VecDeque;
use vstd::prelude::*;

verus! {

/// Number of cells of the bounded band.
pub const BAND_CELLS: usize = 30_000;

/// Cell on which the head of a new bounded band stands.
pub const START_CELL: usize = 15_000;

/// A band as a mathematical value: all of its cells, and the index of the
/// cell under the head.
pub ghost struct Tape {
    pub cells: Seq<u8>,
    pub head: int,
}

/// Sum of two bytes, wrapped into a byte.
pub open spec fn wrapped_sum(a: u8, b: u8) -> u8 {
    ((a + b) % 256) as u8
}

/// `count` cells that all hold zero.
pub open spec fn zeros(count: nat) -> Seq<u8> {
    Seq::new(count, |i: int| 0u8)
}

impl Tape {
    /// The head stands on one of the cells.
    pub open spec fn wf(self) -> bool {
        0 <= self.head < self.cells.len()
    }

    /// Value of the cell under the head.
    pub open spec fn current(self) -> u8 {
        self.cells[self.head]
    }

    /// The tape with `value` stored in the cell under the head.
    pub open spec fn write(self, value: u8) -> Tape {
        Tape { cells: self.cells.update(self.head, value), head: self.head }
    }

    /// The tape with `value` added, wrapping, to the cell under the head.
    pub open spec fn add(self, value: u8) -> Tape {
        self.write(wrapped_sum(self.current(), value))
    }

    /// The tape with its head on cell `head`, the cells untouched.
    pub open spec fn at(self, head: int) -> Tape {
        Tape { cells: self.cells, head }
    }
}

/// The head was asked to go where the band has no cell.
#[derive(Debug, Clone, Copy, PartialEq, Eq, Structural)]
pub enum TapeFault {
    /// The move led past the leftmost cell that the band can have.
    LeftEdge,
    /// The move led past the rightmost cell that the band can have.
    RightEdge,
}

impl TapeFault {
    /// The diagnostic shown to the user for this fault.
    pub fn message(&self) -> (text: &'static str)
        ensures
            text@ == "The maximum length of the band was reached"@,
    {
        "The maximum length of the band was reached"
    }
}

/// A memory band is a sequential band of memory cells, each holding a `u8`,
/// with one reading head that can be moved left or right and that reads and
/// writes the cell below it.
///
/// `self@` is the band's [`Tape`]. What a head move does is the one thing in
/// which bands differ: each says so in [`MemoryBand::moved`].
pub trait MemoryBand: View<V = Tape> + Sized {
    /// The band's representation is in good order. Every operation keeps it so.
    spec fn inv(&self) -> bool;

    /// The tape of a newly made band.
    spec fn fresh() -> Tape;

    /// The tape after the head is moved by `moves` cells (right when positive,
    /// left when negative), or the fault that the move runs into.
    spec fn moved(tape: Tape, moves: int) -> Result<Tape, TapeFault>;

    /// On a band in good order the head stands on a cell.
    proof fn lemma_head_on_tape(&self)
        requires
            self.inv(),
        ensures
            self@.wf(),
    ;

    /// On a new band the head stands on a cell, and every cell holds zero.
    proof fn lemma_fresh()
        ensures
            Self::fresh().wf(),
            Self::fresh().cells == zeros(Self::fresh().cells.len()),
    ;

    /// A head move changes no cell. It leaves the head on a cell, `moves`
    /// cells from where it stood; the cells that the tape had keep their
    /// values and their order; and any cell that the tape has gained holds
    /// zero. `shift` is the number of cells gained on the left, by which every
    /// index has grown.
    proof fn lemma_moved(tape: Tape, moves: int) -> (shift: nat)
        requires
            tape.wf(),
            Self::moved(tape, moves) is Ok,
        ensures
            ({
                let after = Self::moved(tape, moves)->Ok_0;
                &&& after.wf()
                &&& after.head == tape.head + moves + shift
                &&& after.cells.len() >= shift + tape.cells.len()
                &&& after.cells.subrange(shift as int, shift as int + tape.cells.len()) == tape.cells
                &&& forall|i: int|
                    0 <= i < after.cells.len() && !(shift <= i < shift + tape.cells.len())
                        ==> after.cells[i] == 0
            }),
    ;

    /// Creates a new band; every cell holds zero.
    fn new() -> (band: Self)
        ensures
            band.inv(),
            band@ == Self::fresh(),
    ;

    /// Outputs the value of the cell under the head.
    fn read(&self) -> (value: u8)
        requires
            self.inv(),
        ensures
            value == self@.current(),
    ;

    /// Writes `value` to the cell under the head.
    fn write(&mut self, value: u8)
        requires
            old(self).inv(),
        ensures
            final(self).inv(),
            final(self)@ == old(self)@.write(value),
    ;

    /// Adds `value` to the cell under the head; the sum wraps at 256.
    fn add(&mut self, value: u8)
        requires
            old(self).inv(),
        ensures
            final(self).inv(),
            final(self)@ == old(self)@.add(value),
    {
        let sum = self.read().wrapping_add(value);
        self.write(sum);
    }

    /// Moves the head by `moves` cells: right for a positive value, left for a
    /// negative one. On a fault the band is left as it was.
    fn move_head(&mut self, moves: isize) -> (outcome: Result<(), TapeFault>)
        requires
            old(self).inv(),
        ensures
            final(self).inv(),
            match Self::moved(old(self)@, moves as int) {
                Ok(tape) => outcome is Ok && final(self)@ == tape,
                Err(fault) => outcome == Err::<(), TapeFault>(fault) && final(self)@ == old(self)@,
            },
    ;
}

/// Distance of a leftward move: the absolute value of a negative `moves`.
fn leftward(moves: isize) -> (distance: usize)
    requires
        moves < 0,
    ensures
        distance == -moves,
{
    let short: isize = -(moves + 1);
    short as usize + 1
}

/// `VecDeque`'s indexed assignment, `band[index] = value`. With `index` in
/// bounds, which it asks for, the call stores `value` in that place and leaves
/// every other element where it was.
#[verifier::external_body]
fn set_cell(band: &mut VecDeque<u8>, index: usize, value: u8)
    requires
        index < old(band)@.len(),
    ensures
        final(band)@ == old(band)@.update(index as int, value),
{
    band[index] = value;
}

/// A band with an unlimited amount of memory cells to the left and to the
/// right: it starts as one zeroed cell and grows by zeroed cells as the head
/// moves past either end.
#[derive(Debug, PartialEq, Eq)]
pub struct InfiniteMemoryBand {
    band: VecDeque<u8>,
    current_index: usize,
}

impl View for InfiniteMemoryBand {
    type V = Tape;

    closed spec fn view(&self) -> Tape {
        Tape { cells: self.band@, head: self.current_index as int }
    }
}

impl InfiniteMemoryBand {
    /// A band that holds `cells`, its head on the cell at `current_index`;
    /// `None` where `cells` has no such cell.
    pub fn with_cells(cells: &[u8], current_index: usize) -> (made: Option<InfiniteMemoryBand>)
        ensures
            match made {
                Some(band) => {
                    &&& current_index < cells@.len()
                    &&& band.inv()
                    &&& band@ == (Tape { cells: cells@, head: current_index as int })
                },
                None => current_index >= cells@.len(),
            },
    {
        if current_index >= cells.len() {
            return None;
        }
        let mut band: VecDeque<u8> = VecDeque::new();
        let mut i: usize = 0;
        while i < cells.len()
            invariant
                i <= cells@.len(),
                band@ == cells@.take(i as int),
            decreases cells@.len() - i,
        {
            band.push_back(cells[i]);
            i += 1;
        }
        assert(band@ =~= cells@);
        Some(InfiniteMemoryBand { band, current_index })
    }

    /// Moves the head right by `moves` cells, adding zeroed cells at the right
    /// end as far as the head goes past it.
    pub fn move_right(&mut self, moves: usize) -> (outcome: Result<(), TapeFault>)
        requires
            old(self).inv(),
        ensures
            final(self).inv(),
            match Self::moved(old(self)@, moves as int) {
                Ok(tape) => outcome is Ok && final(self)@ == tape,
                Err(fault) => outcome == Err::<(), TapeFault>(fault) && final(self)@ == old(self)@,
            },
    {
        let cells: usize = self.band.len();
        let target: usize = match self.current_index.checked_add(moves) {
            Some(target) => target,
            None => {
                return Err(TapeFault::RightEdge);
            },
        };
        if target >= cells {
            if target == usize::MAX {
                return Err(TapeFault::RightEdge);
            }
            while self.band.len() <= target
                invariant
                    target < usize::MAX,
                    self.current_index == old(self).current_index,
                    old(self).band@.len() <= self.band@.len() <= target + 1,
                    self.band@ == old(self).band@ + zeros(
                        (self.band@.len() - old(self).band@.len()) as nat,
                    ),
                decreases target + 1 - self.band@.len(),
            {
                self.band.push_back(0);
            }
        }
        self.current_index = target;
        Ok(())
    }

    /// Moves the head left by `moves` cells, adding zeroed cells at the left
    /// end as far as the head goes past it. The cell that was leftmost keeps
    /// its value and moves up in the row; the head ends on the new cell 0.
    pub fn move_left(&mut self, moves: usize) -> (outcome: Result<(), TapeFault>)
        requires
            old(self).inv(),
        ensures
            final(self).inv(),
            match Self::moved(old(self)@, -moves) {
                Ok(tape) => outcome is Ok && final(self)@ == tape,
                Err(fault) => outcome == Err::<(), TapeFault>(fault) && final(self)@ == old(self)@,
            },
    {
        if moves <= self.current_index {
            self.current_index -= moves;
            return Ok(());
        }
        let missing: usize = moves - self.current_index;
        if missing > usize::MAX - self.band.len() {
            return Err(TapeFault::LeftEdge);
        }
        let mut added: usize = 0;
        while added < missing
            invariant
                added <= missing,
                old(self).band@.len() + missing <= usize::MAX,
                self.current_index == old(self).current_index,
                self.band@ == zeros(added as nat) + old(self).band@,
            decreases missing - added,
        {
            self.band.push_front(0);
            added += 1;
        }
        self.current_index = 0;
        Ok(())
    }
}

impl MemoryBand for InfiniteMemoryBand {
    closed spec fn inv(&self) -> bool {
        self.current_index < self.band@.len()
    }

    open spec fn fresh() -> Tape {
        Tape { cells: zeros(1), head: 0 }
    }

    /// The head goes anywhere: cells that it lacks are added, zeroed, at the
    /// end that it leaves by. Growth to the left puts the head on the new cell
    /// 0. The one limit is the machine's: a band cannot count more than
    /// `usize::MAX` cells.
    open spec fn moved(tape: Tape, moves: int) -> Result<Tape, TapeFault> {
        let target = tape.head + moves;
        if target < 0 {
            if tape.cells.len() - target > usize::MAX {
                Err(TapeFault::LeftEdge)
            } else {
                Ok(Tape { cells: zeros((-target) as nat) + tape.cells, head: 0 })
            }
        } else if target >= tape.cells.len() {
            if target >= usize::MAX {
                Err(TapeFault::RightEdge)
            } else {
                Ok(
                    Tape {
                        cells: tape.cells + zeros((target + 1 - tape.cells.len()) as nat),
                        head: target,
                    },
                )
            }
        } else {
            Ok(tape.at(target))
        }
    }

    proof fn lemma_head_on_tape(&self) {
    }

    proof fn lemma_fresh() {
    }

    proof fn lemma_moved(tape: Tape, moves: int) -> (shift: nat) {
        let after = Self::moved(tape, moves)->Ok_0;
        let shift: nat = if tape.head + moves < 0 {
            (-(tape.head + moves)) as nat
        } else {
            0
        };
        assert(after.cells.subrange(shift as int, shift as int + tape.cells.len()) =~= tape.cells);
        shift
    }

    fn new() -> (band: InfiniteMemoryBand) {
        let mut band: VecDeque<u8> = VecDeque::new();
        band.push_back(0);
        assert(band@ =~= zeros(1));
        InfiniteMemoryBand { band, current_index: 0 }
    }

    fn read(&self) -> (value: u8) {
        self.band[self.current_index]
    }

    fn write(&mut self, value: u8) {
        set_cell(&mut self.band, self.current_index, value);
    }

    fn add(&mut self, value: u8) {
        let sum = self.band[self.current_index].wrapping_add(value);
        set_cell(&mut self.band, self.current_index, sum);
    }

    fn move_head(&mut self, moves: isize) -> (outcome: Result<(), TapeFault>) {
        if moves < 0 {
            self.move_left(leftward(moves))
        } else {
            self.move_right(moves as usize)
        }
    }
}

/// A band of [`BAND_CELLS`] cells whose head starts in the middle, on
/// [`START_CELL`]. The head cannot leave the band: a move past either edge is
/// a fault, and only the cells' values wrap.
pub struct FiniteMemoryBand {
    band: [u8; BAND_CELLS],
    current_index: usize,
}

impl View for FiniteMemoryBand {
    type V = Tape;

    closed spec fn view(&self) -> Tape {
        Tape { cells: self.band@, head: self.current_index as int }
    }
}

impl FiniteMemoryBand {
    /// Moves the head left by `moves` cells; a fault where fewer cells lie to
    /// its left.
    pub fn move_left(&mut self, moves: usize) -> (outcome: Result<(), TapeFault>)
        requires
            old(self).inv(),
        ensures
            final(self).inv(),
            match Self::moved(old(self)@, -moves) {
                Ok(tape) => outcome is Ok && final(self)@ == tape,
                Err(fault) => outcome == Err::<(), TapeFault>(fault) && final(self)@ == old(self)@,
            },
    {
        if moves > self.current_index {
            return Err(TapeFault::LeftEdge);
        }
        self.current_index -= moves;
        Ok(())
    }

    /// Moves the head right by `moves` cells; a fault where fewer cells lie
    /// to its right.
    pub fn move_right(&mut self, moves: usize) -> (outcome: Result<(), TapeFault>)
        requires
            old(self).inv(),
        ensures
            final(self).inv(),
            match Self::moved(old(self)@, moves as int) {
                Ok(tape) => outcome is Ok && final(self)@ == tape,
                Err(fault) => outcome == Err::<(), TapeFault>(fault) && final(self)@ == old(self)@,
            },
    {
        if moves >= BAND_CELLS - self.current_index {
            return Err(TapeFault::RightEdge);
        }
        self.current_index += moves;
        Ok(())
    }
}

impl MemoryBand for FiniteMemoryBand {
    closed spec fn inv(&self) -> bool {
        self.current_index < BAND_CELLS
    }

    open spec fn fresh() -> Tape {
        Tape { cells: zeros(BAND_CELLS as nat), head: START_CELL as int }
    }

    /// The head moves within the cells that there are, and nowhere else.
    open spec fn moved(tape: Tape, moves: int) -> Result<Tape, TapeFault> {
        let target = tape.head + moves;
        if target < 0 {
            Err(TapeFault::LeftEdge)
        } else if target >= tape.cells.len() {
            Err(TapeFault::RightEdge)
        } else {
            Ok(tape.at(target))
        }
    }

    proof fn lemma_head_on_tape(&self) {
    }

    proof fn lemma_fresh() {
    }

    proof fn lemma_moved(tape: Tape, moves: int) -> (shift: nat) {
        assert(tape.cells.subrange(0, tape.cells.len() as int) =~= tape.cells);
        0
    }

    fn new() -> (band: FiniteMemoryBand) {
        let cells: [u8; BAND_CELLS] = [0; BAND_CELLS];
        proof {
            // What vstd says of `[0; N]`: each of its places holds the 0.
            vstd::array::axiom_spec_array_fill_for_copy_type::<u8, BAND_CELLS>(0u8);
        }
        assert(cells@ =~= zeros(BAND_CELLS as nat));
        FiniteMemoryBand { band: cells, current_index: START_CELL }
    }

    fn read(&self) -> (value: u8) {
        self.band[self.current_index]
    }

    fn write(&mut self, value: u8) {
        self.band[self.current_index] = value;
    }

    fn move_head(&mut self, moves: isize) -> (outcome: Result<(), TapeFault>) {
        if moves < 0 {
            self.move_left(leftward(moves))
        } else {
            self.move_right(moves as usize)
        }
    }
}

} // verus!
