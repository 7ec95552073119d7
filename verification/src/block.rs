//! Tetromino geometry: four integer cells, translated and rotated as values.
//!
//! A shape lives in a frame of the caller's choosing and knows nothing of any
//! board. Its model is the sequence of its cells as mathematical integers;
//! the transforms are stated over that sequence, and the laws at the end of
//! this file are proved about it.

use vstd::prelude::*;

verus! {

/// The cells of `cells`, each moved by `(dx, dy)`.
pub open spec fn translated(cells: Seq<(int, int)>, dx: int, dy: int) -> Seq<(int, int)> {
    Seq::new(cells.len(), |i: int| (cells[i].0 + dx, cells[i].1 + dy))
}

/// The cells of `cells`, each turned a quarter clockwise about `center`.
/// Rows grow downward, so `(x, y)` goes to `(x0 + y0 - y, -x0 + y0 + x)`.
pub open spec fn rotated_about(cells: Seq<(int, int)>, center: (int, int)) -> Seq<(int, int)> {
    Seq::new(
        cells.len(),
        |i: int| (center.0 + center.1 - cells[i].1, -center.0 + center.1 + cells[i].0),
    )
}

/// A quarter turn clockwise about the first cell.
pub open spec fn rotated(cells: Seq<(int, int)>) -> Seq<(int, int)> {
    rotated_about(cells, cells[0])
}

/// `cells` moved down one row, `n` times over.
pub open spec fn lowered(cells: Seq<(int, int)>, n: nat) -> Seq<(int, int)>
    decreases n,
{
    if n == 0 {
        cells
    } else {
        translated(lowered(cells, (n - 1) as nat), 0, 1)
    }
}

/// The index of the topmost cell: the first one whose `y` is least.
pub open spec fn topmost(cells: Seq<(int, int)>) -> int
    decreases cells.len(),
{
    if cells.len() <= 1 {
        0
    } else {
        let before = topmost(cells.drop_last());
        if cells.last().1 < cells[before].1 {
            cells.len() - 1
        } else {
            before
        }
    }
}

/// Every coordinate of `cells` can be held in an `i32`.
pub open spec fn representable(cells: Seq<(int, int)>) -> bool {
    forall|i: int|
        0 <= i < cells.len() ==> i32::MIN <= (#[trigger] cells[i]).0 <= i32::MAX && i32::MIN
            <= cells[i].1 <= i32::MAX
}

/// Machine coordinates read as mathematical cells.
pub open spec fn cells_of(coords: Seq<(i32, i32)>) -> Seq<(int, int)> {
    Seq::new(coords.len(), |i: int| (coords[i].0 as int, coords[i].1 as int))
}

/// A tetromino: exactly four cells. The cell at index 0 is the pivot of
/// [`Block::rotate`]. A block is a value: every transform returns a new one.
#[derive(Debug, Clone, Copy, PartialEq, Eq)]
pub struct Block {
    coords: [(i32, i32); 4],
}

impl View for Block {
    type V = Seq<(int, int)>;

    open spec fn view(&self) -> Seq<(int, int)> {
        self.cells()
    }
}

/// One cell narrowed to machine coordinates, if it fits.
fn narrow(x: i64, y: i64) -> (r: Option<(i32, i32)>)
    ensures
        r is Some <==> i32::MIN <= x <= i32::MAX && i32::MIN <= y <= i32::MAX,
        r matches Some(c) ==> c.0 == x && c.1 == y,
{
    if -0x8000_0000 <= x && x <= 0x7fff_ffff && -0x8000_0000 <= y && y <= 0x7fff_ffff {
        Some((x as i32, y as i32))
    } else {
        None
    }
}

impl Block {
    /// The strip: four cells in a row.
    pub const I: &'static [(i32, i32); 4] = &[(1, 0), (0, 0), (2, 0), (3, 0)];

    /// The square.
    pub const O: &'static [(i32, i32); 4] = &[(0, 0), (1, 0), (0, 1), (1, 1)];

    /// Three cells in a row and one below the middle.
    pub const T: &'static [(i32, i32); 4] = &[(1, 0), (0, 0), (2, 0), (1, 1)];

    /// Three cells in a column and one to the left of the foot.
    pub const J: &'static [(i32, i32); 4] = &[(1, 2), (1, 0), (1, 1), (0, 2)];

    /// Three cells in a column and one to the right of the foot.
    pub const L: &'static [(i32, i32); 4] = &[(0, 2), (0, 0), (0, 1), (1, 2)];

    /// Two steps, the upper one to the right.
    pub const S: &'static [(i32, i32); 4] = &[(1, 0), (2, 0), (0, 1), (1, 1)];

    /// Two steps, the upper one to the left.
    pub const Z: &'static [(i32, i32); 4] = &[(1, 0), (0, 0), (1, 1), (2, 1)];

    /// The seven canonical shapes, unrotated, in their own frame.
    pub const SHAPES: [&'static [(i32, i32); 4]; 7] = [
        Block::I,
        Block::O,
        Block::T,
        Block::J,
        Block::L,
        Block::S,
        Block::Z,
    ];

    /// The four cells, in order.
    pub closed spec fn cells(&self) -> Seq<(int, int)> {
        Seq::new(4, |i: int| (self.coords[i].0 as int, self.coords[i].1 as int))
    }

    /// A block has four cells, and each is a pair of `i32`s.
    pub proof fn lemma_cells(&self)
        ensures
            self@.len() == 4,
            representable(self@),
    {
    }

    /// The block with the four cells of `coords`, in their order.
    pub fn new(coords: &[(i32, i32)]) -> (block: Block)
        requires
            coords@.len() == 4,
        ensures
            block@ == cells_of(coords@),
    {
        let block = Block { coords: [coords[0], coords[1], coords[2], coords[3]] };
        block
    }

    /// The four cells as machine coordinates.
    pub fn coords(&self) -> (coords: &[(i32, i32)])
        ensures
            coords@.len() == 4,
            cells_of(coords@) == self@,
    {
        let coords: &[(i32, i32)] = &self.coords;
        coords
    }

    /// The cell at `i` as machine coordinates.
    pub(crate) fn cell(&self, i: usize) -> (c: (i32, i32))
        requires
            i < 4,
        ensures
            self@[i as int] == (c.0 as int, c.1 as int),
    {
        self.coords[i]
    }

    /// The topmost cell: the first one whose `y` is least.
    pub(crate) fn top_cell(&self) -> (c: (i32, i32))
        ensures
            self@[topmost(self@)] == (c.0 as int, c.1 as int),
    {
        let mut best: usize = 0;
        let mut i: usize = 1;
        while i < 4
            invariant
                1 <= i <= 4,
                best < i,
                best == topmost(self@.take(i as int)),
            decreases 4 - i,
        {
            proof {
                assert(self@.take(i + 1).drop_last() =~= self@.take(i as int));
            }
            if self.coords[i].1 < self.coords[best].1 {
                best = i;
            }
            i += 1;
        }
        proof {
            assert(self@.take(4) =~= self@);
        }
        self.coords[best]
    }

    /// This block moved by `(dx, dy)`, or `None` where a moved cell leaves
    /// the range of `i32`.
    pub(crate) fn checked_translate(&self, dx: i64, dy: i64) -> (moved: Option<Block>)
        requires
            -0x1_0000_0000 <= dx <= 0x1_0000_0000,
            -0x1_0000_0000 <= dy <= 0x1_0000_0000,
        ensures
            moved is Some <==> representable(translated(self@, dx as int, dy as int)),
            moved matches Some(b) ==> b@ == translated(self@, dx as int, dy as int),
    {
        let c0 = narrow(self.coords[0].0 as i64 + dx, self.coords[0].1 as i64 + dy);
        let c1 = narrow(self.coords[1].0 as i64 + dx, self.coords[1].1 as i64 + dy);
        let c2 = narrow(self.coords[2].0 as i64 + dx, self.coords[2].1 as i64 + dy);
        let c3 = narrow(self.coords[3].0 as i64 + dx, self.coords[3].1 as i64 + dy);
        let ghost target = translated(self@, dx as int, dy as int);
        match (c0, c1, c2, c3) {
            (Some(a), Some(b), Some(c), Some(d)) => {
                let block = Block { coords: [a, b, c, d] };
                Some(block)
            },
            _ => {
                assert(!representable(target)) by {
                    let k = if c0 is None {
                        0int
                    } else if c1 is None {
                        1int
                    } else if c2 is None {
                        2int
                    } else {
                        3int
                    };
                    assert(!(i32::MIN <= target[k].0 <= i32::MAX && i32::MIN <= target[k].1
                        <= i32::MAX));
                }
                None
            },
        }
    }

    /// This block turned a quarter clockwise about `center`, or `None` where
    /// a turned cell leaves the range of `i32`.
    pub(crate) fn checked_rotate_about(&self, center: (i32, i32)) -> (turned: Option<Block>)
        ensures
            turned is Some <==> representable(
                rotated_about(self@, (center.0 as int, center.1 as int)),
            ),
            turned matches Some(b) ==> b@ == rotated_about(
                self@,
                (center.0 as int, center.1 as int),
            ),
    {
        let x0: i64 = center.0 as i64;
        let y0: i64 = center.1 as i64;
        let c0 = narrow(x0 + y0 - self.coords[0].1 as i64, -x0 + y0 + self.coords[0].0 as i64);
        let c1 = narrow(x0 + y0 - self.coords[1].1 as i64, -x0 + y0 + self.coords[1].0 as i64);
        let c2 = narrow(x0 + y0 - self.coords[2].1 as i64, -x0 + y0 + self.coords[2].0 as i64);
        let c3 = narrow(x0 + y0 - self.coords[3].1 as i64, -x0 + y0 + self.coords[3].0 as i64);
        let ghost target = rotated_about(self@, (center.0 as int, center.1 as int));
        match (c0, c1, c2, c3) {
            (Some(a), Some(b), Some(c), Some(d)) => {
                let block = Block { coords: [a, b, c, d] };
                Some(block)
            },
            _ => {
                assert(!representable(target)) by {
                    let k = if c0 is None {
                        0int
                    } else if c1 is None {
                        1int
                    } else if c2 is None {
                        2int
                    } else {
                        3int
                    };
                    assert(!(i32::MIN <= target[k].0 <= i32::MAX && i32::MIN <= target[k].1
                        <= i32::MAX));
                }
                None
            },
        }
    }

    /// A new block, every cell moved by `(dx, dy)`. Nothing is checked
    /// against any board: the caller's frame has no edges.
    pub fn translate(&self, dx: i32, dy: i32) -> (moved: Block)
        requires
            representable(translated(self@, dx as int, dy as int)),
        ensures
            moved@ == translated(self@, dx as int, dy as int),
    {
        self.checked_translate(dx as i64, dy as i64).unwrap()
    }

    /// One column to the left.
    pub fn left(&self) -> (moved: Block)
        requires
            representable(translated(self@, -1, 0)),
        ensures
            moved@ == translated(self@, -1, 0),
    {
        self.translate(-1, 0)
    }

    /// One column to the right.
    pub fn right(&self) -> (moved: Block)
        requires
            representable(translated(self@, 1, 0)),
        ensures
            moved@ == translated(self@, 1, 0),
    {
        self.translate(1, 0)
    }

    /// One row down: rows grow downward, so `y` grows.
    pub fn down(&self) -> (moved: Block)
        requires
            representable(translated(self@, 0, 1)),
        ensures
            moved@ == translated(self@, 0, 1),
    {
        self.translate(0, 1)
    }

    /// A new block, turned a quarter clockwise about its first cell.
    pub fn rotate(&self) -> (turned: Block)
        requires
            representable(rotated(self@)),
        ensures
            turned@ == rotated(self@),
    {
        self.rotate_about(self.coords[0])
    }

    /// A new block, turned a quarter clockwise about `center`.
    pub fn rotate_about(&self, center: (i32, i32)) -> (turned: Block)
        requires
            representable(rotated_about(self@, (center.0 as int, center.1 as int))),
        ensures
            turned@ == rotated_about(self@, (center.0 as int, center.1 as int)),
    {
        self.checked_rotate_about(center).unwrap()
    }
}

/// `topmost` names a cell of the shape, no cell lies above it, and every
/// cell before it lies strictly below it.
pub proof fn lemma_topmost_is_first_least(cells: Seq<(int, int)>)
    requires
        cells.len() > 0,
    ensures
        0 <= topmost(cells) < cells.len(),
        forall|j: int|
            0 <= j < cells.len() ==> cells[topmost(cells)].1 <= (#[trigger] cells[j]).1,
        forall|j: int|
            0 <= j < topmost(cells) ==> cells[topmost(cells)].1 < (#[trigger] cells[j]).1,
    decreases cells.len(),
{
    if cells.len() > 1 {
        let front = cells.drop_last();
        lemma_topmost_is_first_least(front);
        assert forall|j: int| 0 <= j < cells.len() implies cells[topmost(cells)].1 <= (
        #[trigger] cells[j]).1 by {
            if j < front.len() {
                assert(front[j] == cells[j]);
            }
        }
        assert forall|j: int| 0 <= j < topmost(cells) implies cells[topmost(cells)].1 < (
        #[trigger] cells[j]).1 by {
            assert(front[j] == cells[j]);
        }
    }
}

/// Moving by nothing changes nothing.
pub proof fn lemma_translate_zero(cells: Seq<(int, int)>)
    ensures
        translated(cells, 0, 0) == cells,
{
}

/// Two moves in a row are one move by the sum.
pub proof fn lemma_translate_compose(cells: Seq<(int, int)>, a: int, b: int, c: int, d: int)
    ensures
        translated(translated(cells, a, b), c, d) == translated(cells, a + c, b + d),
{
}

/// Left then right, and right then left, give the shape back.
pub proof fn lemma_left_right_identity(cells: Seq<(int, int)>)
    ensures
        translated(translated(cells, -1, 0), 1, 0) == cells,
        translated(translated(cells, 1, 0), -1, 0) == cells,
{
    lemma_translate_compose(cells, -1, 0, 1, 0);
    lemma_translate_compose(cells, 1, 0, -1, 0);
    lemma_translate_zero(cells);
}

/// Down, `n` times over, is one move by `(0, n)`.
pub proof fn lemma_down_repeated(cells: Seq<(int, int)>, n: nat)
    ensures
        lowered(cells, n) == translated(cells, 0, n as int),
    decreases n,
{
    if n == 0 {
        lemma_translate_zero(cells);
    } else {
        lemma_down_repeated(cells, (n - 1) as nat);
        lemma_translate_compose(cells, 0, n - 1, 0, 1);
    }
}

/// Four quarter turns about one point give the shape back, cell for cell.
pub proof fn lemma_rotate_about_order_four(cells: Seq<(int, int)>, center: (int, int))
    ensures
        rotated_about(
            rotated_about(rotated_about(rotated_about(cells, center), center), center),
            center,
        ) == cells,
{
    assert(rotated_about(
        rotated_about(rotated_about(rotated_about(cells, center), center), center),
        center,
    ) =~= cells);
}

/// A quarter turn about the first cell leaves that cell where it is.
pub proof fn lemma_rotate_keeps_pivot(cells: Seq<(int, int)>)
    requires
        cells.len() > 0,
    ensures
        rotated(cells)[0] == cells[0],
        rotated(cells).len() == cells.len(),
{
}

/// `rotate` four times gives the shape back, cell for cell.
pub proof fn lemma_rotate_order_four(cells: Seq<(int, int)>)
    ensures
        rotated(rotated(rotated(rotated(cells)))) == cells,
{
    if cells.len() == 0 {
    } else {
        let c = cells[0];
        lemma_rotate_keeps_pivot(cells);
        lemma_rotate_keeps_pivot(rotated(cells));
        lemma_rotate_keeps_pivot(rotated(rotated(cells)));
        lemma_rotate_about_order_four(cells, c);
    }
}

} // verus!
