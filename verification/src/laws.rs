//! What holds of the game, whatever is played: every operation keeps the
//! board valid, no move touches a settled cell, a refused move changes
//! nothing, a new piece appears in the top row and the middle column, and
//! compaction keeps the height.
//!
//! The laws are stated over [`BoardState`], the value that the contracts of
//! `Board` speak of, so each holds of every board that the operations reach.

use crate::block::{
    cells_of, lemma_topmost_is_first_least, lowered, topmost, translated, Block,
};
use crate::state::{empty_row, has_gap, is_full, row_full, BoardState};
use vstd::prelude::*;

verus! {

/// Every row is either removed by compaction or kept by it.
pub proof fn lemma_rows_partition<T>(grid: Seq<Seq<Option<T>>>)
    ensures
        grid.filter(is_full()).len() + grid.filter(has_gap()).len() == grid.len(),
    decreases grid.len(),
{
    reveal(Seq::filter);
    if grid.len() > 0 {
        lemma_rows_partition(grid.drop_last());
    }
}

/// The rows that compaction keeps are rows of the grid: each has a gap, and
/// each is as wide as the rows it was taken from.
pub proof fn lemma_kept_rows<T>(grid: Seq<Seq<Option<T>>>, width: nat)
    requires
        forall|y: int| 0 <= y < grid.len() ==> (#[trigger] grid[y]).len() == width,
    ensures
        forall|y: int|
            0 <= y < grid.filter(has_gap()).len() ==> (#[trigger] grid.filter(has_gap())[y]).len()
                == width && !row_full(grid.filter(has_gap())[y]),
    decreases grid.len(),
{
    reveal(Seq::filter);
    if grid.len() > 0 {
        let front = grid.drop_last();
        assert forall|y: int| 0 <= y < front.len() implies (#[trigger] front[y]).len()
            == width by {
            assert(front[y] == grid[y]);
        }
        lemma_kept_rows(front, width);
        let kept = grid.filter(has_gap());
        assert forall|y: int| 0 <= y < kept.len() implies (#[trigger] kept[y]).len() == width
            && !row_full(kept[y]) by {
            if y < front.filter(has_gap()).len() {
                assert(kept[y] == front.filter(has_gap())[y]);
            } else {
                assert(kept[y] == grid.last());
            }
        }
    }
}

/// Where no row is full, compaction keeps every row.
pub proof fn lemma_nothing_to_remove<T>(grid: Seq<Seq<Option<T>>>)
    requires
        forall|y: int| 0 <= y < grid.len() ==> !row_full(#[trigger] grid[y]),
    ensures
        grid.filter(has_gap()) == grid,
        grid.filter(is_full()).len() == 0,
    decreases grid.len(),
{
    reveal(Seq::filter);
    if grid.len() > 0 {
        let front = grid.drop_last();
        assert forall|y: int| 0 <= y < front.len() implies !row_full(#[trigger] front[y]) by {
            assert(front[y] == grid[y]);
        }
        lemma_nothing_to_remove(front);
        assert(front.push(grid.last()) =~= grid);
    }
}

impl<T> BoardState<T> {
    /// An empty board is valid.
    pub proof fn lemma_empty_valid(width: nat, height: nat)
        requires
            width <= i32::MAX,
            height <= i32::MAX,
        ensures
            Self::empty(width, height).valid(),
    {
    }

    /// A move keeps the board valid, whether it is admitted or refused.
    pub proof fn lemma_moved_valid(self, candidate: Seq<(int, int)>)
        requires
            self.valid(),
            self.active is Some,
            candidate.len() == 4,
        ensures
            self.moved(candidate).valid(),
            self.moved(candidate).active is Some,
            self.moved(candidate).width == self.width,
            self.moved(candidate).height == self.height,
    {
        if self.admits(candidate) {
            self.lifted().lemma_placed_valid(candidate, self.payload());
        }
    }

    /// A refused move changes nothing: the grid and the falling piece are
    /// what they were.
    pub proof fn lemma_refused_move_is_exact(self, candidate: Seq<(int, int)>)
        requires
            !self.admits(candidate),
        ensures
            self.moved(candidate) == self,
    {
    }

    /// An admitted move takes the falling piece to the candidate and keeps
    /// its value.
    pub proof fn lemma_admitted_move(self, candidate: Seq<(int, int)>)
        requires
            self.valid(),
            self.active is Some,
            candidate.len() == 4,
            self.admits(candidate),
        ensures
            self.moved(candidate).active == Some(candidate),
            self.moved(candidate).payload() == self.payload(),
    {
        assert(self.lifted().in_bounds(candidate[0]));
        assert(candidate.contains(candidate[0]));
    }

    /// No move touches a settled cell: the board without the falling piece
    /// is the same before and after, so the piece never takes a cell that
    /// something else holds.
    pub proof fn lemma_move_keeps_settled(self, candidate: Seq<(int, int)>)
        requires
            self.valid(),
            self.active is Some,
        ensures
            self.moved(candidate).lifted() == self.lifted(),
    {
        if self.admits(candidate) {
            let before = self.lifted();
            let after = self.moved(candidate).lifted();
            assert forall|y: int, x: int| 0 <= y < self.height && 0 <= x < self.width implies (
            #[trigger] after.grid[y][x]) == before.grid[y][x] by {
                if candidate.contains((x, y)) {
                    let i = choose|i: int| 0 <= i < candidate.len() && candidate[i] == (x, y);
                    assert(before.at(candidate[i]) is None);
                }
            }
            assert(after =~~= before);
        }
    }

    /// Locking keeps the board valid and every cell as it was.
    pub proof fn lemma_locked_valid(self)
        requires
            self.valid(),
        ensures
            self.locked().valid(),
            self.locked().grid == self.grid,
    {
    }

    /// Where a new piece appears: its topmost cell is in row 0 and in the
    /// middle column, `width / 2`, and no cell of it is above row 0. Every
    /// cell is shifted as the topmost one is, so a cell `k` columns left of
    /// the topmost one appears in column `width / 2 - k`.
    pub proof fn lemma_spawn_target(self, cells: Seq<(int, int)>)
        requires
            cells.len() > 0,
        ensures
            self.spawn_target(cells).len() == cells.len(),
            self.spawn_target(cells)[topmost(cells)] == (self.width as int / 2, 0int),
            forall|i: int|
                0 <= i < cells.len() ==> (#[trigger] self.spawn_target(cells)[i]) == (
                    self.width as int / 2 - (cells[topmost(cells)].0 - cells[i].0),
                    cells[i].1 - cells[topmost(cells)].1,
                ),
            forall|i: int| 0 <= i < cells.len() ==> (#[trigger] self.spawn_target(cells)[i]).1 >= 0,
    {
        lemma_topmost_is_first_least(cells);
    }

    /// The strip `I` on a board of any width appears in row 0, its topmost
    /// cell, which is its second from the left, in the middle column: so
    /// its leftmost cell, in column 0 of its own frame, appears in column
    /// `width / 2` less the own column of the topmost cell, which is 1.
    pub proof fn lemma_spawn_target_of_strip(self)
        ensures
            topmost(cells_of(Block::I@)) == 0,
            cells_of(Block::I@)[0] == (1int, 0int),
            self.spawn_target(cells_of(Block::I@)) == seq![
                (self.width as int / 2, 0int),
                (self.width as int / 2 - 1, 0int),
                (self.width as int / 2 + 1, 0int),
                (self.width as int / 2 + 2, 0int),
            ],
    {
        let strip = cells_of(Block::I@);
        reveal_with_fuel(topmost, 5);
        assert(topmost(strip) == 0);
        assert(self.spawn_target(strip) =~= seq![
            (self.width as int / 2, 0int),
            (self.width as int / 2 - 1, 0int),
            (self.width as int / 2 + 1, 0int),
            (self.width as int / 2 + 2, 0int),
        ]);
    }

    /// A spawn keeps the board valid, whether the piece appears or not.
    pub proof fn lemma_spawned_valid(self, cells: Seq<(int, int)>, value: T)
        requires
            self.valid(),
            cells.len() == 4,
        ensures
            self.spawned(cells, value).valid(),
            self.spawned(cells, value).width == self.width,
            self.spawned(cells, value).height == self.height,
    {
        if self.locked().fits(self.spawn_target(cells)) {
            self.locked().lemma_placed_valid(self.spawn_target(cells), value);
        }
    }

    /// A spawn touches no cell that holds something: what was on the board,
    /// the piece that fell before included, is settled and stays.
    pub proof fn lemma_spawn_keeps_settled(self, cells: Seq<(int, int)>, value: T)
        requires
            self.valid(),
        ensures
            self.spawned(cells, value).active is Some ==> self.spawned(cells, value).lifted()
                == self.locked(),
            self.spawned(cells, value).active is None ==> self.spawned(cells, value)
                == self.locked(),
    {
        let target = self.spawn_target(cells);
        if self.locked().fits(target) {
            let before = self.locked();
            let after = self.spawned(cells, value).lifted();
            assert forall|y: int, x: int| 0 <= y < self.height && 0 <= x < self.width implies (
            #[trigger] after.grid[y][x]) == before.grid[y][x] by {
                if target.contains((x, y)) {
                    let i = choose|i: int| 0 <= i < target.len() && target[i] == (x, y);
                    assert(before.at(target[i]) is None);
                }
            }
            assert(after =~~= before);
        }
    }

    /// Compaction keeps the size of the board: as many empty rows are put on
    /// top as full rows are removed. Below them stand the rows that had a
    /// gap, in their order, and no row of the result is full unless the
    /// board has no columns.
    pub proof fn lemma_compaction_keeps_height(self)
        requires
            self.shaped(),
        ensures
            self.compacted().valid(),
            self.compacted().width == self.width,
            self.compacted().height == self.height,
            self.compacted().grid.len() == self.height,
            self.full_rows() <= self.height,
            forall|y: int|
                0 <= y < self.full_rows() ==> (#[trigger] self.compacted().grid[y])
                    == empty_row::<T>(self.width),
            forall|y: int|
                self.full_rows() <= y < self.height ==> (#[trigger] self.compacted().grid[y])
                    == self.grid.filter(has_gap())[y - self.full_rows()],
            self.width > 0 ==> self.compacted().full_rows() == 0,
    {
        lemma_rows_partition(self.grid);
        lemma_kept_rows(self.grid, self.width);
        let after = self.compacted();
        if self.width > 0 {
            assert forall|y: int| 0 <= y < after.grid.len() implies !row_full(
                #[trigger] after.grid[y],
            ) by {
                if y < self.full_rows() {
                    assert(after.grid[y][0] is None);
                }
            }
            lemma_nothing_to_remove(after.grid);
        }
    }

    /// Where no row is full, compaction removes nothing: the grid stays as
    /// it is, cell for cell.
    pub proof fn lemma_compaction_without_full_rows(self)
        requires
            self.shaped(),
            forall|y: int| 0 <= y < self.height ==> !row_full(#[trigger] self.grid[y]),
        ensures
            self.full_rows() == 0,
            self.compacted() == self.locked(),
    {
        lemma_nothing_to_remove(self.grid);
    }

    /// A drop is a run of admitted steps down: the piece ends some rows
    /// below where it was, in its own value, on a valid board that admits no
    /// further step down, and no settled cell has changed.
    pub proof fn lemma_dropped(self)
        requires
            self.valid(),
            self.active is Some,
        ensures
            self.dropped().valid(),
            self.dropped().width == self.width,
            self.dropped().height == self.height,
            !self.dropped().can_descend(),
            exists|n: nat| self.dropped().active == Some(#[trigger] lowered(self.active->0, n)),
            self.dropped().payload() == self.payload(),
            self.dropped().lifted() == self.lifted(),
        decreases self.height - self.active->0[0].1,
    {
        let cells = self.active->0;
        if self.can_descend() {
            let step = translated(cells, 0, 1);
            let next = self.moved(step);
            self.lemma_moved_valid(step);
            self.lemma_admitted_move(step);
            self.lemma_move_keeps_settled(step);
            next.lemma_dropped();
            let n = choose|n: nat| next.dropped().active == Some(#[trigger] lowered(step, n));
            lemma_lowered_shift(cells, n);
            assert(self.dropped().active == Some(lowered(cells, n + 1)));
        } else {
            assert(self.dropped().active == Some(lowered(cells, 0)));
        }
    }
}

/// One step down and then `n` more is `n + 1` steps down.
pub proof fn lemma_lowered_shift(cells: Seq<(int, int)>, n: nat)
    ensures
        lowered(translated(cells, 0, 1), n) == lowered(cells, n + 1),
    decreases n,
{
    if n > 0 {
        lemma_lowered_shift(cells, (n - 1) as nat);
    } else {
        assert(lowered(cells, 1) == translated(lowered(cells, 0), 0, 1));
    }
}

} // verus!
