//! The tape: bytes at every integer offset, all zero at first, and a cursor.
//!
//! Storage grows one cell at a time, when the cursor first steps onto a cell.
//! The cells that have been stepped on are the materialized ones. They always
//! form one interval of offsets around the origin.

use vstd::prelude::*;

verus! {

/// The byte that follows `value`, with 255 followed by 0.
pub open spec fn wrapping_succ(value: u8) -> u8 {
    ((value + 1) % 256) as u8
}

/// The byte that precedes `value`, with 0 preceded by 255.
pub open spec fn wrapping_pred(value: u8) -> u8 {
    ((value + 255) % 256) as u8
}

/// One step of the cursor.
pub enum Direction {
    Left,
    Right,
}

/// A tape as a mathematical object.
///
/// `cells` gives the byte at every offset. `low..=high` are the offsets of the
/// materialized cells.
#[verifier::ext_equal]
pub struct TapeView {
    pub cells: Map<int, u8>,
    pub cursor: int,
    pub low: int,
    pub high: int,
}

impl TapeView {
    /// The tape before anything has happened to it.
    pub open spec fn fresh() -> TapeView {
        TapeView { cells: Map::total(|offset: int| 0u8), cursor: 0, low: 0, high: 0 }
    }

    /// The origin and the cursor are materialized, every offset has a byte,
    /// and the bytes outside the materialized interval are zero.
    pub open spec fn wf(self) -> bool {
        &&& self.low <= 0 <= self.high
        &&& self.low <= self.cursor <= self.high
        &&& forall|offset: int| #[trigger] self.cells.dom().contains(offset)
        &&& forall|offset: int|
            !self.materialized(offset) ==> #[trigger] self.cells[offset] == 0
    }

    /// Whether the cell at `offset` has been stepped on.
    pub open spec fn materialized(self, offset: int) -> bool {
        self.low <= offset <= self.high
    }

    /// The byte under the cursor.
    pub open spec fn current(self) -> u8 {
        self.cells[self.cursor]
    }

    pub open spec fn step_right(self) -> TapeView {
        TapeView {
            cursor: self.cursor + 1,
            high: if self.cursor + 1 > self.high {
                self.cursor + 1
            } else {
                self.high
            },
            ..self
        }
    }

    pub open spec fn step_left(self) -> TapeView {
        TapeView {
            cursor: self.cursor - 1,
            low: if self.cursor - 1 < self.low {
                self.cursor - 1
            } else {
                self.low
            },
            ..self
        }
    }

    pub open spec fn step(self, direction: Direction) -> TapeView {
        match direction {
            Direction::Left => self.step_left(),
            Direction::Right => self.step_right(),
        }
    }

    /// The tape with `byte` under the cursor and every other cell as before.
    pub open spec fn set(self, byte: u8) -> TapeView {
        TapeView { cells: self.cells.insert(self.cursor, byte), ..self }
    }

    pub open spec fn increment(self) -> TapeView {
        self.set(wrapping_succ(self.current()))
    }

    pub open spec fn decrement(self) -> TapeView {
        self.set(wrapping_pred(self.current()))
    }

    /// The tape after the steps of `path`, taken in order.
    pub open spec fn travel(self, path: Seq<Direction>) -> TapeView
        decreases path.len(),
    {
        if path.len() == 0 {
            self
        } else {
            self.travel(path.drop_last()).step(path.last())
        }
    }

    /// The tape after `count` increments of the cell under the cursor.
    pub open spec fn increment_by(self, count: nat) -> TapeView
        decreases count,
    {
        if count == 0 {
            self
        } else {
            self.increment_by((count - 1) as nat).increment()
        }
    }

    /// The tape after `count` decrements of the cell under the cursor.
    pub open spec fn decrement_by(self, count: nat) -> TapeView
        decreases count,
    {
        if count == 0 {
            self
        } else {
            self.decrement_by((count - 1) as nat).decrement()
        }
    }
}

impl TapeView {
    /// Steps of the cursor never write: after any path every offset holds the
    /// byte it held before, and every cell that was materialized still is.
    pub proof fn lemma_travel_keeps_cells(self, path: Seq<Direction>)
        ensures
            self.travel(path).cells == self.cells,
            self.travel(path).low <= self.low,
            self.travel(path).high >= self.high,
            forall|offset: int|
                self.materialized(offset) ==> #[trigger] self.travel(path).materialized(offset),
            self.wf() ==> self.travel(path).wf(),
        decreases path.len(),
    {
        if path.len() > 0 {
            self.lemma_travel_keeps_cells(path.drop_last());
        }
    }

    /// A path that brings the cursor back to where it started leaves the byte
    /// there as it was, and leaves every materialized cell materialized with
    /// its byte.
    pub proof fn lemma_round_trip(self, path: Seq<Direction>)
        requires
            self.travel(path).cursor == self.cursor,
        ensures
            self.travel(path).current() == self.current(),
            forall|offset: int| #[trigger]
                self.materialized(offset) ==> self.travel(path).materialized(offset)
                    && self.travel(path).cells[offset] == self.cells[offset],
    {
        self.lemma_travel_keeps_cells(path);
    }

    /// Wherever the cursor of a fresh tape goes, it reads zero.
    pub proof fn lemma_fresh_reads_zero(path: Seq<Direction>)
        ensures
            TapeView::fresh().travel(path).current() == 0,
    {
        TapeView::fresh().lemma_travel_keeps_cells(path);
    }

    /// `count` increments add `count` to the byte under the cursor, modulo
    /// 256, and change nothing else.
    pub proof fn lemma_increment_by(self, count: nat)
        requires
            self.wf(),
        ensures
            self.increment_by(count) == self.set(((self.current() + count) % 256) as u8),
        decreases count,
    {
        if count == 0 {
            assert(self.set(self.current()).cells =~= self.cells);
        } else {
            let before = self.increment_by((count - 1) as nat);
            self.lemma_increment_by((count - 1) as nat);
            assert(before.increment().cells =~= self.set(
                ((self.current() + count) % 256) as u8,
            ).cells);
        }
    }

    /// `count` decrements subtract `count` from the byte under the cursor,
    /// modulo 256, and change nothing else.
    pub proof fn lemma_decrement_by(self, count: nat)
        requires
            self.wf(),
        ensures
            self.decrement_by(count) == self.set(((self.current() - count) % 256) as u8),
        decreases count,
    {
        if count == 0 {
            assert(self.set(self.current()).cells =~= self.cells);
        } else {
            let before = self.decrement_by((count - 1) as nat);
            self.lemma_decrement_by((count - 1) as nat);
            assert(before.decrement().cells =~= self.set(
                ((self.current() - count) % 256) as u8,
            ).cells);
        }
    }

    /// Incrementing a cell 256 times leaves the tape as it was.
    pub proof fn lemma_increment_cycle(self)
        requires
            self.wf(),
        ensures
            self.increment_by(256) == self,
    {
        self.lemma_increment_by(256);
        assert(self.set(self.current()).cells =~= self.cells);
    }

    /// Decrementing a cell 256 times leaves the tape as it was.
    pub proof fn lemma_decrement_cycle(self)
        requires
            self.wf(),
        ensures
            self.decrement_by(256) == self,
    {
        self.lemma_decrement_by(256);
        assert(self.set(self.current()).cells =~= self.cells);
    }
}

/// Where the cursor stands in the storage: on the origin, or at an index of
/// the cells left or right of it.
#[derive(Clone, Copy, Debug, PartialEq, Eq, Structural)]
pub enum Position {
    Left(usize),
    Zero,
    Right(usize),
}

impl Position {
    /// The offset from the origin: index 0 on either side is one step away.
    pub open spec fn offset(self) -> int {
        match self {
            Position::Left(n) => -(n as int) - 1,
            Position::Zero => 0,
            Position::Right(n) => n as int + 1,
        }
    }
}

/// A byte tape without bounds in either direction, and a cursor on it.
pub struct Tape {
    left: Vec<u8>,
    origin: u8,
    right: Vec<u8>,
    position: Position,
}

impl View for Tape {
    type V = TapeView;

    closed spec fn view(&self) -> TapeView {
        TapeView {
            cells: Map::total(
                |offset: int|
                    if 0 < offset <= self.right@.len() {
                        self.right@[offset - 1]
                    } else if -self.left@.len() <= offset < 0 {
                        self.left@[-offset - 1]
                    } else if offset == 0 {
                        self.origin
                    } else {
                        0u8
                    },
            ),
            cursor: self.position.offset(),
            low: -(self.left@.len() as int),
            high: self.right@.len() as int,
        }
    }
}

impl Tape {
    #[verifier::type_invariant]
    spec fn cursor_in_storage(self) -> bool {
        match self.position {
            Position::Left(n) => n < self.left@.len(),
            Position::Zero => true,
            Position::Right(n) => n < self.right@.len(),
        }
    }

    /// A tape of zeros with the cursor on the origin.
    pub fn new() -> (tape: Tape)
        ensures
            tape@ == TapeView::fresh(),
            tape@.wf(),
    {
        let tape = Tape { left: Vec::new(), origin: 0, right: Vec::new(), position: Position::Zero };
        assert(tape@.cells =~= TapeView::fresh().cells);
        tape
    }

    /// Moves the cursor one cell to the right, materializing the cell if the
    /// cursor was never there.
    pub fn step_right(&mut self)
        ensures
            final(self)@ == old(self)@.step_right(),
            final(self)@.wf(),
    {
        let Tape { left, origin, mut right, position } = self.take();
        let position = match position {
            Position::Left(n) => {
                if n == 0 {
                    Position::Zero
                } else {
                    Position::Left(n - 1)
                }
            },
            Position::Zero => {
                if right.len() == 0 {
                    right.push(0);
                }
                Position::Right(0)
            },
            Position::Right(n) => {
                let materialized: usize = right.len();
                if n + 1 == materialized {
                    right.push(0);
                }
                Position::Right(n + 1)
            },
        };
        *self = Tape { left, origin, right, position };
        assert(self@.cells =~= old(self)@.cells);
    }

    /// Moves the cursor one cell to the left, materializing the cell if the
    /// cursor was never there.
    pub fn step_left(&mut self)
        ensures
            final(self)@ == old(self)@.step_left(),
            final(self)@.wf(),
    {
        let Tape { mut left, origin, right, position } = self.take();
        let position = match position {
            Position::Right(n) => {
                if n == 0 {
                    Position::Zero
                } else {
                    Position::Right(n - 1)
                }
            },
            Position::Zero => {
                if left.len() == 0 {
                    left.push(0);
                }
                Position::Left(0)
            },
            Position::Left(n) => {
                let materialized: usize = left.len();
                if n + 1 == materialized {
                    left.push(0);
                }
                Position::Left(n + 1)
            },
        };
        *self = Tape { left, origin, right, position };
        assert(self@.cells =~= old(self)@.cells);
    }

    /// Adds one to the byte under the cursor; 255 becomes 0.
    pub fn increment(&mut self)
        ensures
            final(self)@ == old(self)@.increment(),
            final(self)@.wf(),
    {
        let byte: u8 = self.get();
        self.set(byte.wrapping_add(1));
    }

    /// Subtracts one from the byte under the cursor; 0 becomes 255.
    pub fn decrement(&mut self)
        ensures
            final(self)@ == old(self)@.decrement(),
            final(self)@.wf(),
    {
        let byte: u8 = self.get();
        self.set(byte.wrapping_sub(1));
    }

    /// The byte under the cursor.
    pub fn get(&self) -> (byte: u8)
        ensures
            byte == self@.current(),
            self@.wf(),
    {
        proof {
            use_type_invariant(self);
        }
        match self.position {
            Position::Left(n) => self.left[n],
            Position::Zero => self.origin,
            Position::Right(n) => self.right[n],
        }
    }

    /// Puts `byte` under the cursor.
    pub fn set(&mut self, byte: u8)
        ensures
            final(self)@ == old(self)@.set(byte),
            final(self)@.wf(),
    {
        let Tape { mut left, mut origin, mut right, position } = self.take();
        match position {
            Position::Left(n) => {
                left.set(n, byte);
            },
            Position::Zero => {
                origin = byte;
            },
            Position::Right(n) => {
                right.set(n, byte);
            },
        }
        *self = Tape { left, origin, right, position };
        assert(self@.cells =~= old(self)@.cells.insert(old(self)@.cursor, byte));
    }

    /// Hands out the tape's parts and leaves an empty tape behind, so that the
    /// parts can be changed one by one and put back together.
    fn take(&mut self) -> (tape: Tape)
        ensures
            tape == *old(self),
            tape.cursor_in_storage(),
    {
        let mut tape = Tape::new();
        core::mem::swap(self, &mut tape);
        proof {
            use_type_invariant(&tape);
        }
        tape
    }
}

} // verus!
