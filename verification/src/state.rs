//! The board as a mathematical value, and the moves of the game as functions
//! on that value.
//!
//! [`BoardState`] is what a board is, apart from how it is stored: its size,
//! the content of every cell, and the cells of the piece that is falling.
//! Every operation of the board is stated as one of the functions below, and
//! the laws that hold of the game are proved about them in `laws`.

use crate::block::{topmost, translated};
use vstd::prelude::*;

verus! {

/// A board of `width` columns and `height` rows. `grid[y][x]` is the content
/// of the cell in column `x` of row `y`; row 0 is the top. `active` holds the
/// cells of the falling piece, which are part of `grid` like any other.
#[verifier::ext_equal]
pub struct BoardState<T> {
    pub width: nat,
    pub height: nat,
    pub grid: Seq<Seq<Option<T>>>,
    pub active: Option<Seq<(int, int)>>,
}

/// A row of `width` empty cells.
pub open spec fn empty_row<T>(width: nat) -> Seq<Option<T>> {
    Seq::new(width, |x: int| None::<T>)
}

/// `count` rows of `width` empty cells each.
pub open spec fn empty_rows<T>(count: nat, width: nat) -> Seq<Seq<Option<T>>> {
    Seq::new(count, |y: int| empty_row::<T>(width))
}

/// No cell of `row` is empty.
pub open spec fn row_full<T>(row: Seq<Option<T>>) -> bool {
    forall|x: int| 0 <= x < row.len() ==> (#[trigger] row[x]) is Some
}

/// The rows that compaction removes.
pub open spec fn is_full<T>() -> spec_fn(Seq<Option<T>>) -> bool {
    |row: Seq<Option<T>>| row_full(row)
}

/// The rows that compaction keeps.
pub open spec fn has_gap<T>() -> spec_fn(Seq<Option<T>>) -> bool {
    |row: Seq<Option<T>>| !row_full(row)
}

impl<T> BoardState<T> {
    /// The board of this size on which nothing has happened yet.
    pub open spec fn empty(width: nat, height: nat) -> Self {
        BoardState {
            width,
            height,
            grid: empty_rows(height, width),
            active: None,
        }
    }

    /// `c` names a cell of the board.
    pub open spec fn in_bounds(self, c: (int, int)) -> bool {
        0 <= c.0 < self.width && 0 <= c.1 < self.height
    }

    /// The content of cell `c`.
    pub open spec fn at(self, c: (int, int)) -> Option<T> {
        self.grid[c.1][c.0]
    }

    /// The grid has the board's size, and the size can be addressed by the
    /// `i32` coordinates of a block.
    pub open spec fn shaped(self) -> bool {
        &&& self.width <= i32::MAX
        &&& self.height <= i32::MAX
        &&& self.grid.len() == self.height
        &&& forall|y: int| 0 <= y < self.height ==> (#[trigger] self.grid[y]).len() == self.width
    }

    /// `cells` are four cells of the board that all hold one and the same
    /// value.
    pub open spec fn holds_piece(self, cells: Seq<(int, int)>) -> bool {
        &&& cells.len() == 4
        &&& forall|i: int|
            0 <= i < 4 ==> self.in_bounds(#[trigger] cells[i]) && self.at(cells[i]) is Some
                && self.at(cells[i]) == self.at(cells[0])
    }

    /// What holds of every board at every moment: the grid is shaped, and a
    /// falling piece is on the board, drawn in full, in its own value.
    pub open spec fn valid(self) -> bool {
        &&& self.shaped()
        &&& self.active matches Some(cells) ==> self.holds_piece(cells)
    }

    /// The value that the falling piece is drawn in.
    pub open spec fn payload(self) -> T
        recommends
            self.active is Some,
    {
        self.at(self.active->0[0])->0
    }

    /// Every cell of `cells` is on the board and empty.
    pub open spec fn fits(self, cells: Seq<(int, int)>) -> bool {
        forall|i: int|
            0 <= i < cells.len() ==> self.in_bounds(#[trigger] cells[i]) && self.at(cells[i])
                is None
    }

    /// The board with `content` in every cell of `cells` and all else as it
    /// was.
    pub open spec fn with_cells(self, cells: Seq<(int, int)>, content: Option<T>) -> Self {
        BoardState {
            width: self.width,
            height: self.height,
            grid: Seq::new(
                self.height,
                |y: int|
                    Seq::new(
                        self.width,
                        |x: int|
                            if cells.contains((x, y)) {
                                content
                            } else {
                                self.grid[y][x]
                            },
                    ),
            ),
            active: self.active,
        }
    }

    /// The board with no piece falling: what was the piece stays in the grid
    /// as settled cells.
    pub open spec fn locked(self) -> Self {
        BoardState { width: self.width, height: self.height, grid: self.grid, active: None }
    }

    /// The board with the falling piece taken off it: the settled cells
    /// alone.
    pub open spec fn lifted(self) -> Self
        recommends
            self.active is Some,
    {
        self.with_cells(self.active->0, None).locked()
    }

    /// The board with a new piece drawn at `cells` in `value`, and falling.
    pub open spec fn placed(self, cells: Seq<(int, int)>, value: T) -> Self {
        BoardState {
            width: self.width,
            height: self.height,
            grid: self.with_cells(cells, Some(value)).grid,
            active: Some(cells),
        }
    }

    /// The falling piece can go to `candidate`: with the piece off the
    /// board, those cells are on the board and empty.
    pub open spec fn admits(self, candidate: Seq<(int, int)>) -> bool
        recommends
            self.active is Some,
    {
        self.lifted().fits(candidate)
    }

    /// The board after the falling piece has tried to go to `candidate`:
    /// there in its own value if the board admits it, and otherwise the
    /// board as it was.
    pub open spec fn moved(self, candidate: Seq<(int, int)>) -> Self
        recommends
            self.active is Some,
    {
        if self.admits(candidate) {
            self.lifted().placed(candidate, self.payload())
        } else {
            self
        }
    }

    /// Where a new piece of shape `cells` appears: its topmost cell in row 0
    /// and in the middle column.
    pub open spec fn spawn_target(self, cells: Seq<(int, int)>) -> Seq<(int, int)> {
        let top = cells[topmost(cells)];
        translated(cells, self.width as int / 2 - top.0, -top.1)
    }

    /// The board after a piece of shape `cells` in `value` has tried to
    /// appear. A piece that was falling is locked first. If the target is
    /// taken or off the board, nothing appears.
    pub open spec fn spawned(self, cells: Seq<(int, int)>, value: T) -> Self {
        if self.locked().fits(self.spawn_target(cells)) {
            self.locked().placed(self.spawn_target(cells), value)
        } else {
            self.locked()
        }
    }

    /// The falling piece can go one row down.
    pub open spec fn can_descend(self) -> bool {
        &&& self.active matches Some(cells)
        &&& cells.len() > 0
        &&& self.admits(translated(cells, 0, 1))
    }

    /// The board after the falling piece has gone down as far as it can.
    pub open spec fn dropped(self) -> Self
        decreases self.height - self.active->0[0].1,
    {
        if self.can_descend() {
            self.moved(translated(self.active->0, 0, 1)).dropped()
        } else {
            self
        }
    }

    /// How many rows have no empty cell.
    pub open spec fn full_rows(self) -> nat {
        self.grid.filter(is_full()).len()
    }

    /// The board after compaction: the full rows are gone, the others keep
    /// their order and sink, and as many empty rows as went stand on top. A
    /// piece that was falling is locked first.
    pub open spec fn compacted(self) -> Self {
        BoardState {
            width: self.width,
            height: self.height,
            grid: empty_rows(self.full_rows(), self.width) + self.grid.filter(has_gap()),
            active: None,
        }
    }

    /// Writing one more cell is writing the longer list of cells.
    pub proof fn lemma_with_cells_push(
        self,
        cells: Seq<(int, int)>,
        c: (int, int),
        content: Option<T>,
    )
        requires
            self.shaped(),
        ensures
            self.with_cells(cells, content).with_cells(seq![c], content) == self.with_cells(
                cells.push(c),
                content,
            ),
    {
        let one = seq![c];
        assert(one[0] == c);
        let longer = cells.push(c);
        assert forall|d: (int, int)| longer.contains(d) <==> (cells.contains(d) || d == c) by {
            if cells.contains(d) {
                let i = choose|i: int| 0 <= i < cells.len() && cells[i] == d;
                assert(longer[i] == d);
            }
            if d == c {
                assert(longer[cells.len() as int] == d);
            }
        }
        assert forall|d: (int, int)| one.contains(d) <==> d == c by {}
        assert(self.with_cells(cells, content).with_cells(one, content) =~~= self.with_cells(
            longer,
            content,
        ));
    }

    /// Writing no cell changes nothing.
    pub proof fn lemma_with_cells_none(self, content: Option<T>)
        requires
            self.shaped(),
        ensures
            self.with_cells(Seq::empty(), content) == self,
    {
        assert(self.with_cells(Seq::empty(), content) =~~= self);
    }

    /// A piece drawn on cells that admit it is drawn in full, in one value.
    pub proof fn lemma_placed_valid(self, cells: Seq<(int, int)>, value: T)
        requires
            self.shaped(),
            cells.len() == 4,
            forall|i: int| 0 <= i < 4 ==> self.in_bounds(#[trigger] cells[i]),
        ensures
            self.placed(cells, value).valid(),
    {
        let after = self.placed(cells, value);
        assert forall|i: int| 0 <= i < 4 implies after.in_bounds(#[trigger] cells[i]) && after.at(
            cells[i],
        ) == Some(value) by {
            assert(cells.contains(cells[i]));
        }
    }

    /// Taking the falling piece off the board and drawing it again where it
    /// was gives the board back, cell for cell.
    pub proof fn lemma_lift_and_replace(self)
        requires
            self.valid(),
            self.active is Some,
        ensures
            self.lifted().placed(self.active->0, self.payload()) == self,
    {
        let cells = self.active->0;
        let again = self.lifted().placed(cells, self.payload());
        assert forall|y: int, x: int| 0 <= y < self.height && 0 <= x < self.width implies (
        #[trigger] again.grid[y][x]) == self.grid[y][x] by {
            if cells.contains((x, y)) {
                let i = choose|i: int| 0 <= i < cells.len() && cells[i] == (x, y);
                assert(self.at(cells[i]) == self.at(cells[0]));
            }
        }
        assert(again =~~= self);
    }
}

} // verus!
