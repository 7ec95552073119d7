//! The board: a grid of settled cells and at most one falling piece.
//!
//! Every operation is stated over [`BoardState`], the board as a
//! mathematical value. A transform that the board refuses leaves the board
//! exactly as it was and reports [`InvalidPlacement`].

use crate::block::{representable, rotated, translated, Block};
use crate::state::{empty_row, empty_rows, has_gap, is_full, row_full, BoardState};
use std::collections::VecDeque;
use vstd::prelude::*;

verus! {

/// The one way an operation of the board fails: a cell of the shape would
/// lie off the board or on a cell that is taken.
#[derive(Debug, Clone, Copy, PartialEq, Eq)]
pub struct InvalidPlacement;

impl InvalidPlacement {
    /// The failure in words.
    pub fn message(&self) -> (text: &'static str)
        ensures
            text@ == "invalid block location"@,
    {
        "invalid block location"
    }
}

/// A board of `width` columns and `height` rows whose cells are empty or
/// hold a `T`, with at most one falling piece. The rows are kept in a deque,
/// top row first, so that compaction can drop rows and add rows on top.
#[derive(Debug)]
pub struct Board<T: Copy> {
    rows: VecDeque<Vec<Option<T>>>,
    width: usize,
    height: usize,
    active: Option<Block>,
}

impl<T: Copy> View for Board<T> {
    type V = BoardState<T>;

    open spec fn view(&self) -> BoardState<T> {
        self.state()
    }
}

/// `VecDeque`'s `IndexMut::index_mut`, for which vstd has no specification:
/// the element at `y`, borrowed for writing. What is written through the
/// borrow is the deque's element at `y` afterwards; the other elements and
/// the length stay. `y` must be an index of the deque, as `index_mut` panics
/// on any other.
#[verifier::external_body]
fn row_mut<R>(rows: &mut VecDeque<R>, y: usize) -> (row: &mut R)
    requires
        y < old(rows)@.len(),
    ensures
        *row == old(rows)@[y as int],
        final(rows)@ == old(rows)@.update(y as int, *final(row)),
{
    &mut rows[y]
}

/// A row of `width` empty cells.
fn blank_row<T: Copy>(width: usize) -> (row: Vec<Option<T>>)
    ensures
        row@ == empty_row::<T>(width as nat),
{
    let mut row: Vec<Option<T>> = Vec::new();
    let mut x: usize = 0;
    while x < width
        invariant
            x <= width,
            row@ == empty_row::<T>(x as nat),
        decreases width - x,
    {
        row.push(None);
        x += 1;
    }
    row
}

/// Whether no cell of `row` is empty.
fn row_is_full<T: Copy>(row: &Vec<Option<T>>) -> (full: bool)
    ensures
        full == row_full(row@),
{
    let mut x: usize = 0;
    while x < row.len()
        invariant
            x <= row@.len(),
            forall|j: int| 0 <= j < x ==> (#[trigger] row@[j]) is Some,
        decreases row@.len() - x,
    {
        if row[x].is_none() {
            return false;
        }
        x += 1;
    }
    true
}

/// The rows of a deque as sequences of cells, top row first.
spec fn grid_of<T>(rows: Seq<Vec<Option<T>>>) -> Seq<Seq<Option<T>>> {
    Seq::new(rows.len(), |y: int| rows[y]@)
}

impl<T: Copy> Board<T> {
    /// The board as a mathematical value.
    pub closed spec fn state(&self) -> BoardState<T> {
        BoardState {
            width: self.width as nat,
            height: self.height as nat,
            grid: grid_of(self.rows@),
            active: match self.active {
                Some(block) => Some(block@),
                None => None,
            },
        }
    }

    /// An empty board of the given size with no piece falling. Cells are
    /// addressed by `i32` coordinates, so neither side may exceed
    /// `i32::MAX`.
    pub fn new(width: usize, height: usize) -> (board: Self)
        requires
            width <= i32::MAX,
            height <= i32::MAX,
        ensures
            board@ == BoardState::<T>::empty(width as nat, height as nat),
            board@.valid(),
    {
        let mut rows: VecDeque<Vec<Option<T>>> = VecDeque::new();
        let mut y: usize = 0;
        while y < height
            invariant
                y <= height,
                rows@.len() == y,
                forall|j: int|
                    0 <= j < y ==> (#[trigger] rows@[j])@ == empty_row::<T>(width as nat),
            decreases height - y,
        {
            rows.push_back(blank_row(width));
            y += 1;
        }
        let board = Board { rows, width, height, active: None };
        board
    }

    /// The number of rows.
    pub fn height(&self) -> (h: usize)
        ensures
            h == self@.height,
    {
        self.height
    }

    /// The number of columns.
    pub fn width(&self) -> (w: usize)
        ensures
            w == self@.width,
    {
        self.width
    }

    /// The content of the cell in column `x` of row `y`.
    pub fn get(&self, x: usize, y: usize) -> (cell: &Option<T>)
        requires
            self@.shaped(),
            self@.in_bounds((x as int, y as int)),
        ensures
            *cell == self@.at((x as int, y as int)),
    {
        &self.rows[y][x]
    }

    /// Writes `content` to the cell in column `x` of row `y`.
    fn put(&mut self, x: usize, y: usize, content: Option<T>)
        requires
            old(self)@.shaped(),
            old(self)@.in_bounds((x as int, y as int)),
        ensures
            final(self)@ == old(self)@.with_cells(seq![(x as int, y as int)], content),
            final(self)@.shaped(),
    {
        assert(self@.grid[y as int].len() == self.width);
        let row = row_mut(&mut self.rows, y);
        row[x] = content;
        proof {
            let cell = (x as int, y as int);
            let cells = seq![cell];
            assert(cells[0] == cell);
            assert forall|c: (int, int)| cells.contains(c) <==> c == cell by {}
            assert(self@ =~~= old(self)@.with_cells(cells, content));
        }
    }

    /// Settles `value` in the cell in column `x` of row `y`. The cell must
    /// not belong to the falling piece.
    pub fn set(&mut self, x: usize, y: usize, value: T)
        requires
            old(self)@.valid(),
            old(self)@.in_bounds((x as int, y as int)),
            old(self)@.active matches Some(cells) ==> !cells.contains((x as int, y as int)),
        ensures
            final(self)@ == old(self)@.with_cells(seq![(x as int, y as int)], Some(value)),
            final(self)@.valid(),
    {
        self.put(x, y, Some(value));
        proof {
            let cell = (x as int, y as int);
            assert(seq![cell][0] == cell);
            assert forall|c: (int, int)| seq![cell].contains(c) <==> c == cell by {}
        }
    }

    /// Empties the cell in column `x` of row `y`. The cell must not belong
    /// to the falling piece.
    pub fn clear(&mut self, x: usize, y: usize)
        requires
            old(self)@.valid(),
            old(self)@.in_bounds((x as int, y as int)),
            old(self)@.active matches Some(cells) ==> !cells.contains((x as int, y as int)),
        ensures
            final(self)@ == old(self)@.with_cells(seq![(x as int, y as int)], None),
            final(self)@.valid(),
    {
        self.put(x, y, None);
        proof {
            let cell = (x as int, y as int);
            assert(seq![cell][0] == cell);
            assert forall|c: (int, int)| seq![cell].contains(c) <==> c == cell by {}
        }
    }

    /// Whether `block` can be drawn: every cell on the board and empty.
    /// Nothing is changed. A piece that is to move must be taken off the
    /// board before its new place is checked.
    pub fn check_block(&self, block: &Block) -> (result: Result<(), InvalidPlacement>)
        requires
            self@.shaped(),
        ensures
            result is Ok <==> self@.fits(block@),
    {
        proof {
            block.lemma_cells();
        }
        let mut i: usize = 0;
        while i < 4
            invariant
                i <= 4,
                self@.shaped(),
                block@.len() == 4,
                forall|j: int|
                    0 <= j < i ==> self@.in_bounds(#[trigger] block@[j]) && self@.at(block@[j])
                        is None,
            decreases 4 - i,
        {
            let (x, y) = block.cell(i);
            if x < 0 || y < 0 {
                return Err(InvalidPlacement);
            }
            if x as usize >= self.width || y as usize >= self.height {
                return Err(InvalidPlacement);
            }
            if self.get(x as usize, y as usize).is_some() {
                return Err(InvalidPlacement);
            }
            i += 1;
        }
        Ok(())
    }

    /// Whether the falling piece could go to `candidate`: every cell of it
    /// on the board and either empty or the piece's own. Nothing is
    /// changed. A piece must be falling.
    pub fn check_move(&self, candidate: &Block) -> (result: Result<(), InvalidPlacement>)
        requires
            self@.valid(),
            self@.active is Some,
        ensures
            result is Ok <==> self@.admits(candidate@),
    {
        let current = self.active.unwrap();
        proof {
            current.lemma_cells();
            candidate.lemma_cells();
        }
        let ghost rest = self@.lifted();
        let mut i: usize = 0;
        while i < 4
            invariant
                i <= 4,
                self@.valid(),
                self.active == Some(current),
                rest == self@.lifted(),
                current@.len() == 4,
                candidate@.len() == 4,
                forall|j: int|
                    0 <= j < i ==> rest.in_bounds(#[trigger] candidate@[j]) && rest.at(
                        candidate@[j],
                    ) is None,
            decreases 4 - i,
        {
            let (x, y) = candidate.cell(i);
            let ghost c = candidate@[i as int];
            if x < 0 || y < 0 {
                return Err(InvalidPlacement);
            }
            if x as usize >= self.width || y as usize >= self.height {
                return Err(InvalidPlacement);
            }
            let mut own = false;
            let mut j: usize = 0;
            while j < 4
                invariant
                    j <= 4,
                    current@.len() == 4,
                    c == (x as int, y as int),
                    own <==> exists|k: int| 0 <= k < j && current@[k] == c,
                decreases 4 - j,
            {
                let (ox, oy) = current.cell(j);
                if ox == x && oy == y {
                    own = true;
                }
                j += 1;
            }
            if !own && self.get(x as usize, y as usize).is_some() {
                return Err(InvalidPlacement);
            }
            i += 1;
        }
        Ok(())
    }

    /// Writes `content` to every cell of `block`.
    fn fill(&mut self, block: &Block, content: Option<T>)
        requires
            old(self)@.shaped(),
            forall|i: int| 0 <= i < 4 ==> old(self)@.in_bounds(#[trigger] block@[i]),
        ensures
            final(self)@ == old(self)@.with_cells(block@, content),
            final(self)@.shaped(),
    {
        proof {
            block.lemma_cells();
            old(self)@.lemma_with_cells_none(content);
            assert(block@.take(0) =~= Seq::empty());
        }
        let mut i: usize = 0;
        while i < 4
            invariant
                i <= 4,
                block@.len() == 4,
                old(self)@.shaped(),
                self@.shaped(),
                forall|j: int| 0 <= j < 4 ==> old(self)@.in_bounds(#[trigger] block@[j]),
                self@ == old(self)@.with_cells(block@.take(i as int), content),
            decreases 4 - i,
        {
            let (x, y) = block.cell(i);
            proof {
                old(self)@.lemma_with_cells_push(block@.take(i as int), block@[i as int], content);
                assert(block@.take(i + 1) =~= block@.take(i as int).push(block@[i as int]));
            }
            self.put(x as usize, y as usize, content);
            i += 1;
        }
        proof {
            assert(block@.take(4) =~= block@);
        }
    }

    /// Whether a piece is falling.
    pub fn has_piece(&self) -> (falling: bool)
        ensures
            falling == self@.active is Some,
    {
        self.active.is_some()
    }

    /// Draws `block` in `value` as the new falling piece, if every cell of
    /// it is on the board and empty; otherwise nothing changes. No piece may
    /// be falling: one that is falling moves by `update_block`.
    pub fn set_block(&mut self, block: Block, value: T) -> (result: Result<(), InvalidPlacement>)
        requires
            old(self)@.valid(),
            old(self)@.active is None,
        ensures
            result is Ok <==> old(self)@.fits(block@),
            result is Ok ==> final(self)@ == old(self)@.placed(block@, value),
            result is Err ==> final(self)@ == old(self)@,
            final(self)@.valid(),
    {
        proof {
            block.lemma_cells();
        }
        match self.check_block(&block) {
            Err(e) => Err(e),
            Ok(_) => {
                self.fill(&block, Some(value));
                self.active = Some(block);
                proof {
                    old(self)@.lemma_placed_valid(block@, value);
                }
                Ok(())
            },
        }
    }

    /// Moves the falling piece to `candidate` if the board admits it there.
    /// The piece is taken off the board, the candidate is checked against
    /// what is left, and then either the candidate or the piece as it was is
    /// drawn again: a refused move leaves the board exactly as it was.
    pub fn move_to(&mut self, candidate: Block) -> (result: Result<(), InvalidPlacement>)
        requires
            old(self)@.valid(),
            old(self)@.active is Some,
        ensures
            result is Ok <==> old(self)@.admits(candidate@),
            final(self)@ == old(self)@.moved(candidate@),
            result is Err ==> final(self)@ == old(self)@,
            final(self)@.valid(),
    {
        let current = self.active.unwrap();
        proof {
            current.lemma_cells();
            candidate.lemma_cells();
        }
        let (x0, y0) = current.cell(0);
        let value = self.get(x0 as usize, y0 as usize).unwrap();
        self.active = None;
        self.fill(&current, None);
        assert(self@ == old(self)@.lifted());
        let result = self.check_block(&candidate);
        let block = match result {
            Ok(_) => candidate,
            Err(_) => current,
        };
        self.fill(&block, Some(value));
        self.active = Some(block);
        proof {
            old(self)@.lifted().lemma_placed_valid(block@, value);
            if result is Err {
                old(self)@.lemma_lift_and_replace();
            }
        }
        result
    }

    /// Applies `f` to the falling piece and moves the piece to what `f`
    /// returns, if the board admits it there; otherwise nothing changes.
    /// A piece must be falling.
    pub fn update_block<F: FnOnce(Block) -> Block>(&mut self, f: F) -> (result: Result<
        (),
        InvalidPlacement,
    >)
        requires
            old(self)@.valid(),
            old(self)@.active is Some,
            forall|piece: Block| piece@ == old(self)@.active->0 ==> call_requires(f, (piece,)),
        ensures
            exists|piece: Block, candidate: Block|
                {
                    &&& piece@ == old(self)@.active->0
                    &&& call_ensures(f, (piece,), candidate)
                    &&& result is Ok <==> old(self)@.admits(candidate@)
                    &&& final(self)@ == old(self)@.moved(candidate@)
                },
            result is Err ==> final(self)@ == old(self)@,
            final(self)@.valid(),
    {
        let current = self.active.unwrap();
        let candidate = f(current);
        self.move_to(candidate)
    }

    /// A new piece of shape `block` in `value`: with its topmost cell in row
    /// 0 and in the middle column, if those cells are on the board and
    /// empty. A piece that was falling is locked first, whether or not the
    /// new one appears. Failure means that the board is full where pieces
    /// appear.
    pub fn spawn(&mut self, block: Block, value: T) -> (result: Result<(), InvalidPlacement>)
        requires
            old(self)@.valid(),
        ensures
            result is Ok <==> old(self)@.locked().fits(old(self)@.spawn_target(block@)),
            final(self)@ == old(self)@.spawned(block@, value),
            result is Err ==> final(self)@ == old(self)@.locked(),
            final(self)@.valid(),
    {
        proof {
            block.lemma_cells();
        }
        let (x, y) = block.top_cell();
        let dx: i64 = (self.width / 2) as i64 - x as i64;
        let dy: i64 = -(y as i64);
        self.active = None;
        match block.checked_translate(dx, dy) {
            Some(target) => self.set_block(target, value),
            None => {
                proof {
                    let target = old(self)@.spawn_target(block@);
                    let i = choose|i: int|
                        0 <= i < target.len() && !(i32::MIN <= (#[trigger] target[i]).0 <= i32::MAX
                            && i32::MIN <= target[i].1 <= i32::MAX);
                    assert(!self@.in_bounds(target[i]));
                }
                Err(InvalidPlacement)
            },
        }
    }

    /// Moves the falling piece one column to the left, if the board admits
    /// it there. A piece must be falling.
    pub fn left(&mut self) -> (result: Result<(), InvalidPlacement>)
        requires
            old(self)@.valid(),
            old(self)@.active is Some,
        ensures
            result is Ok <==> old(self)@.admits(translated(old(self)@.active->0, -1, 0)),
            final(self)@ == old(self)@.moved(translated(old(self)@.active->0, -1, 0)),
            result is Err ==> final(self)@ == old(self)@,
            final(self)@.valid(),
    {
        proof {
            self.lemma_reach();
        }
        let transform = |b: Block| -> (moved: Block)
            requires
                representable(translated(b@, -1, 0)),
            ensures
                moved@ == translated(b@, -1, 0),
        {
            b.left()
        };
        self.update_block(transform)
    }

    /// Moves the falling piece one column to the right, if the board admits
    /// it there. A piece must be falling.
    pub fn right(&mut self) -> (result: Result<(), InvalidPlacement>)
        requires
            old(self)@.valid(),
            old(self)@.active is Some,
        ensures
            result is Ok <==> old(self)@.admits(translated(old(self)@.active->0, 1, 0)),
            final(self)@ == old(self)@.moved(translated(old(self)@.active->0, 1, 0)),
            result is Err ==> final(self)@ == old(self)@,
            final(self)@.valid(),
    {
        proof {
            self.lemma_reach();
        }
        let transform = |b: Block| -> (moved: Block)
            requires
                representable(translated(b@, 1, 0)),
            ensures
                moved@ == translated(b@, 1, 0),
        {
            b.right()
        };
        self.update_block(transform)
    }

    /// Moves the falling piece one row down, if the board admits it there.
    /// Failure means that the piece has come to rest. A piece must be
    /// falling.
    pub fn down(&mut self) -> (result: Result<(), InvalidPlacement>)
        requires
            old(self)@.valid(),
            old(self)@.active is Some,
        ensures
            result is Ok <==> old(self)@.can_descend(),
            final(self)@ == old(self)@.moved(translated(old(self)@.active->0, 0, 1)),
            result is Err ==> final(self)@ == old(self)@,
            final(self)@.valid(),
    {
        proof {
            self.lemma_reach();
        }
        let transform = |b: Block| -> (moved: Block)
            requires
                representable(translated(b@, 0, 1)),
            ensures
                moved@ == translated(b@, 0, 1),
        {
            b.down()
        };
        self.update_block(transform)
    }

    /// Whether the falling piece could go one row down, as `down` would
    /// report it, but nothing moves. With no piece falling the answer is a
    /// failure too.
    pub fn try_down(&self) -> (result: Result<(), InvalidPlacement>)
        requires
            self@.valid(),
        ensures
            result is Ok <==> self@.can_descend(),
    {
        match self.active {
            Some(current) => {
                proof {
                    self.lemma_reach();
                    current.lemma_cells();
                }
                self.check_move(&current.down())
            },
            None => Err(InvalidPlacement),
        }
    }

    /// Turns the falling piece a quarter clockwise about its first cell, if
    /// the board admits it there. A piece must be falling.
    pub fn rotate(&mut self) -> (result: Result<(), InvalidPlacement>)
        requires
            old(self)@.valid(),
            old(self)@.active is Some,
        ensures
            result is Ok <==> old(self)@.admits(rotated(old(self)@.active->0)),
            final(self)@ == old(self)@.moved(rotated(old(self)@.active->0)),
            result is Err ==> final(self)@ == old(self)@,
            final(self)@.valid(),
    {
        let current = self.active.unwrap();
        proof {
            current.lemma_cells();
        }
        if current.checked_rotate_about(current.cell(0)).is_none() {
            proof {
                let turned = rotated(current@);
                let i = choose|i: int|
                    0 <= i < turned.len() && !(i32::MIN <= (#[trigger] turned[i]).0 <= i32::MAX
                        && i32::MIN <= turned[i].1 <= i32::MAX);
                assert(!self@.lifted().in_bounds(turned[i]));
            }
            return Err(InvalidPlacement);
        }
        let transform = |b: Block| -> (turned: Block)
            requires
                representable(rotated(b@)),
            ensures
                turned@ == rotated(b@),
        {
            b.rotate()
        };
        self.update_block(transform)
    }

    /// Moves the falling piece down until the board admits it no further.
    /// That the last step is refused is how the fall ends, and no failure.
    /// A piece must be falling.
    pub fn drop(&mut self)
        requires
            old(self)@.valid(),
            old(self)@.active is Some,
        ensures
            final(self)@ == old(self)@.dropped(),
            final(self)@.valid(),
            final(self)@.active is Some,
    {
        let mut falling = true;
        while falling
            invariant
                self@.valid(),
                self@.active is Some,
                self@.dropped() == old(self)@.dropped(),
                !falling ==> !self@.can_descend(),
            decreases self@.height - self@.active->0[0].1, falling as int,
        {
            falling = self.down().is_ok();
        }
    }

    /// Removes every row that has no empty cell, lets the rows above sink,
    /// and puts as many empty rows on top, so that the height stays. Returns
    /// how many rows were removed. A piece that was falling is locked first:
    /// its cells count as settled.
    pub fn clear_filled_rows(&mut self) -> (removed: usize)
        requires
            old(self)@.valid(),
        ensures
            removed == old(self)@.full_rows(),
            final(self)@ == old(self)@.compacted(),
            final(self)@.valid(),
    {
        let ghost grid = self@.grid;
        let ghost width = self@.width;
        self.active = None;
        let mut removed: usize = 0;
        let mut y: usize = 0;
        proof {
            reveal(Seq::filter);
            assert(grid_of(self.rows@) =~= empty_rows::<T>(0, width) + grid.take(0).filter(
                has_gap(),
            ) + grid.skip(0));
        }
        while y < self.height
            invariant
                y <= self.height,
                self.width == old(self).width == width,
                self.height == old(self).height,
                self.active is None,
                grid.len() == self.height,
                forall|j: int| 0 <= j < grid.len() ==> (#[trigger] grid[j]).len() == width,
                self.rows@.len() == self.height,
                grid_of(self.rows@) == empty_rows::<T>(removed as nat, width) + grid.take(
                    y as int,
                ).filter(has_gap()) + grid.skip(y as int),
                removed == grid.take(y as int).filter(is_full()).len(),
                removed + grid.take(y as int).filter(has_gap()).len() == y,
            decreases self.height - y,
        {
            let ghost above = empty_rows::<T>(removed as nat, width) + grid.take(y as int).filter(
                has_gap(),
            );
            let ghost rows_before = self.rows@;
            proof {
                reveal(Seq::filter);
                assert(grid.take(y + 1).drop_last() =~= grid.take(y as int));
                assert(grid_of(rows_before)[y as int] == (above + grid.skip(y as int))[y as int]);
            }
            if row_is_full(&self.rows[y]) {
                let _ = self.rows.remove(y);
                self.rows.push_front(blank_row(self.width));
                removed += 1;
                proof {
                    assert(grid_of(self.rows@) =~= seq![empty_row::<T>(width)] + grid_of(
                        rows_before,
                    ).remove(y as int));
                }
            }
            y += 1;
            proof {
                assert(grid_of(self.rows@) =~= empty_rows::<T>(removed as nat, width) + grid.take(
                    y as int,
                ).filter(has_gap()) + grid.skip(y as int));
            }
        }
        proof {
            assert(self@ == old(self)@.compacted());
            crate::laws::lemma_kept_rows(grid, width);
        }
        removed
    }

    /// On a valid board the falling piece can be shifted by one without
    /// leaving the range of `i32`: its cells are on the board.
    proof fn lemma_reach(&self)
        requires
            self@.valid(),
            self@.active is Some,
        ensures
            representable(translated(self@.active->0, -1, 0)),
            representable(translated(self@.active->0, 1, 0)),
            representable(translated(self@.active->0, 0, 1)),
    {
        let cells = self@.active->0;
        assert forall|i: int| 0 <= i < 4 implies 0 <= (#[trigger] cells[i]).0 < i32::MAX && 0
            <= cells[i].1 < i32::MAX by {
            assert(self@.in_bounds(cells[i]));
        }
    }
}

} // verus!
