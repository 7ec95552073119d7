//! The game: a board, a score, and the rules that join them.
//!
//! The game decides; it neither draws nor reads keys nor keeps time. Whoever
//! drives it hands it what happened, an [`Event`] or a tick of the clock, and
//! reads the board, the score and the exit flag afterwards. The shape and the
//! colour of each new piece are drawn at random; [`Tetris::settle`] is the
//! rule for what is done with them once drawn.

use crate::block::{cells_of, rotated, translated, Block};
use crate::board::Board;
use crate::state::BoardState;
use rand::rngs::ThreadRng;
use rand::seq::IndexedRandom;
use vstd::prelude::*;

verus! {

/// `rand::rngs::ThreadRng`, the generator that `rand::rng` hands out. The
/// game carries it and never looks inside.
#[verifier::external_type_specification]
#[verifier::external_body]
pub struct ExThreadRng(ThreadRng);

/// `rand::rng`: a handle to the generator of the current thread. Nothing is
/// claimed of the handle. The first call on a thread seeds the generator
/// from the operating system and panics if that fails; no argument of this
/// function can rule it out.
#[verifier::external_body]
fn thread_rng() -> (rng: ThreadRng) {
    rand::rng()
}

/// `rand::seq::IndexedRandom::choose` on a slice: one element of `items`,
/// picked by `rng`, or `None` if and only if `items` is empty. Which
/// element is picked is left open: it is one of them.
#[verifier::external_body]
fn pick<'a, E>(items: &'a [E], rng: &mut ThreadRng) -> (picked: Option<&'a E>)
    ensures
        picked is None <==> items@.len() == 0,
        picked matches Some(item) ==> items@.contains(*item),
{
    items.choose(rng)
}

/// The colour of a piece, and of the cells it leaves behind.
#[derive(Debug, Clone, Copy, PartialEq, Eq)]
pub enum Color {
    Red,
    Green,
    Yellow,
    Blue,
    Magenta,
    Cyan,
}

/// The colours that a new piece is drawn from.
pub const COLORS: [Color; 6] = [
    Color::Red,
    Color::Green,
    Color::Yellow,
    Color::Blue,
    Color::Magenta,
    Color::Cyan,
];

/// A key, as far as the game tells keys apart.
#[derive(Debug, Clone, Copy, PartialEq, Eq)]
pub enum Key {
    Char(char),
    Left,
    Right,
    Up,
    Down,
    Other,
}

/// What happened at the terminal: a key went down, or something the game
/// has no use for.
#[derive(Debug, Clone, Copy, PartialEq, Eq)]
pub enum Event {
    Press(Key),
    Other,
}

/// `shape` is one of the seven canonical shapes.
pub open spec fn canonical(shape: Seq<(int, int)>) -> bool {
    exists|i: int| 0 <= i < 7 && shape == cells_of(#[trigger] Block::SHAPES@[i]@)
}

/// The game as a mathematical value.
#[verifier::ext_equal]
pub struct GameState {
    pub board: BoardState<Color>,
    pub scale: u16,
    pub score: int,
    pub exit: bool,
}

impl GameState {
    /// A game that has just begun: an empty board, no piece, no score.
    pub open spec fn start(width: nat, height: nat, scale: u16) -> Self {
        GameState { board: BoardState::empty(width, height), scale, score: 0, exit: false }
    }

    /// What holds of every game at every moment.
    pub open spec fn valid(self) -> bool {
        self.board.valid() && 0 <= self.score <= i32::MAX
    }

    /// The score can take every row of the board without leaving the range
    /// of `i32`.
    pub open spec fn has_room(self) -> bool {
        self.score + self.board.height <= i32::MAX
    }

    /// This game on another board.
    pub open spec fn on(self, board: BoardState<Color>) -> Self {
        GameState { board, scale: self.scale, score: self.score, exit: self.exit }
    }

    /// This game, over.
    pub open spec fn ended(self) -> Self {
        GameState { board: self.board, scale: self.scale, score: self.score, exit: true }
    }

    /// The game after the falling piece has come to rest, or where none was
    /// falling: the full rows are removed and counted to the score, and a
    /// piece of `shape` in `color` tries to appear. If it cannot, the game
    /// is over.
    pub open spec fn settled(self, shape: Seq<(int, int)>, color: Color) -> Self {
        let next = self.board.compacted().spawned(shape, color);
        GameState {
            board: next,
            scale: self.scale,
            score: self.score + self.board.full_rows(),
            exit: self.exit || next.active is None,
        }
    }

    /// `next` is this game settled with one of the canonical shapes in one
    /// of the colours: which of them is drawn at random.
    pub open spec fn settles_to(self, next: Self) -> bool {
        exists|shape: Seq<(int, int)>, color: Color|
            canonical(shape) && next == #[trigger] self.settled(shape, color)
    }

    /// `next` is this game brought up to date: while the falling piece has
    /// room below, nothing changes; once it has none, or where none is
    /// falling, the game settles.
    pub open spec fn advances_to(self, next: Self) -> bool {
        if self.board.can_descend() {
            next == self
        } else {
            self.settles_to(next)
        }
    }

    /// The game after the falling piece has tried to go to `candidate`.
    /// With none falling, nothing changes.
    pub open spec fn steered(self, candidate: Seq<(int, int)>) -> Self {
        if self.board.active is Some {
            self.on(self.board.moved(candidate))
        } else {
            self
        }
    }

    /// The game after the falling piece has tried to go one row down.
    pub open spec fn stepped(self) -> Self {
        self.steered(translated(self.board.active->0, 0, 1))
    }

    /// What `event` does to the game by itself. `q` ends it. The arrows to
    /// the side move the falling piece, the arrow up turns it, the arrow
    /// down drops it; with none falling, they do nothing. Nothing else
    /// matters to the game.
    pub open spec fn moved_by(self, event: Event) -> Self {
        match event {
            Event::Press(Key::Char(c)) => if c == 'q' {
                self.ended()
            } else {
                self
            },
            Event::Press(Key::Left) => self.steered(translated(self.board.active->0, -1, 0)),
            Event::Press(Key::Right) => self.steered(translated(self.board.active->0, 1, 0)),
            Event::Press(Key::Up) => self.steered(rotated(self.board.active->0)),
            Event::Press(Key::Down) => if self.board.active is Some {
                self.on(self.board.dropped())
            } else {
                self
            },
            _ => self,
        }
    }

    /// Whether the game is brought up to date after `event`: after a move
    /// or a turn that the board admitted, and after every drop.
    pub open spec fn updates_after(self, event: Event) -> bool {
        match event {
            Event::Press(Key::Left) => self.board.active is Some && self.board.admits(
                translated(self.board.active->0, -1, 0),
            ),
            Event::Press(Key::Right) => self.board.active is Some && self.board.admits(
                translated(self.board.active->0, 1, 0),
            ),
            Event::Press(Key::Up) => self.board.active is Some && self.board.admits(
                rotated(self.board.active->0),
            ),
            Event::Press(Key::Down) => true,
            _ => false,
        }
    }
}

/// A game of falling blocks on a board of colours.
#[derive(Debug)]
pub struct Tetris {
    board: Board<Color>,
    scale: u16,
    score: i32,
    exit: bool,
    rng: ThreadRng,
}

impl View for Tetris {
    type V = GameState;

    open spec fn view(&self) -> GameState {
        self.state()
    }
}

impl Default for Tetris {
    /// Ten columns, twenty rows, drawn at twice the size.
    fn default() -> (game: Tetris)
        ensures
            game@ == GameState::start(10, 20, 2),
    {
        Tetris::new(10, 20, 2)
    }
}

impl Tetris {
    /// The game as a mathematical value.
    pub closed spec fn state(&self) -> GameState {
        GameState {
            board: self.board@,
            scale: self.scale,
            score: self.score as int,
            exit: self.exit,
        }
    }

    /// A game on an empty board of the given size, to be drawn `scale`
    /// times as large. Neither side of the board may exceed `i32::MAX`.
    pub fn new(width: usize, height: usize, scale: u16) -> (game: Tetris)
        requires
            width <= i32::MAX,
            height <= i32::MAX,
        ensures
            game@ == GameState::start(width as nat, height as nat, scale),
            game@.valid(),
    {
        Tetris { board: Board::new(width, height), scale, score: 0, exit: false, rng: thread_rng() }
    }

    /// The board, for whoever draws it.
    pub fn board(&self) -> (board: &Board<Color>)
        ensures
            board@ == self@.board,
    {
        &self.board
    }

    /// How many times as large the board is to be drawn.
    pub fn scale(&self) -> (scale: u16)
        ensures
            scale == self@.scale,
    {
        self.scale
    }

    /// The rows removed so far.
    pub fn score(&self) -> (score: i32)
        ensures
            score == self@.score,
    {
        self.score
    }

    /// Whether the game is over.
    pub fn is_over(&self) -> (over: bool)
        ensures
            over == self@.exit,
    {
        self.exit
    }

    /// Ends the game.
    pub fn exit(&mut self)
        ensures
            final(self)@ == old(self)@.ended(),
    {
        self.exit = true;
    }

    /// The size in character cells that the game takes on screen: each
    /// column of the board is two cells wide and each row one cell high,
    /// times the scale, inside a border of one cell.
    pub fn area(&self) -> (size: (u16, u16))
        requires
            self@.board.width * self@.scale * 2 + 2 <= u16::MAX,
            self@.board.height * self@.scale + 2 <= u16::MAX,
        ensures
            size.0 == self@.board.width * self@.scale * 2 + 2,
            size.1 == self@.board.height * self@.scale + 2,
    {
        let width: usize = self.board.width();
        let height: usize = self.board.height();
        let scale: usize = self.scale as usize;
        assert(width * scale <= width * scale * 2 + 2) by (nonlinear_arith)
            requires
                0 <= width,
                0 <= scale,
        ;
        ((width * scale * 2 + 2) as u16, (height * scale + 2) as u16)
    }

    /// The rule for a piece at rest: removes the full rows, counts them to
    /// the score, and lets a piece of `shape` in `color` appear. If it
    /// cannot appear, the game is over.
    pub fn settle(&mut self, shape: Block, color: Color)
        requires
            old(self)@.valid(),
            old(self)@.has_room(),
        ensures
            final(self)@ == old(self)@.settled(shape@, color),
            final(self)@.valid(),
    {
        proof {
            self@.board.lemma_compaction_keeps_height();
        }
        let removed: usize = self.board.clear_filled_rows();
        self.score = self.score + removed as i32;
        if self.board.spawn(shape, color).is_err() {
            self.exit = true;
        }
    }

    /// Brings the game up to date after a move: while the falling piece has
    /// room below, nothing is to be done. Once it has none, or where none is
    /// falling, the game settles with a shape and a colour drawn at random.
    pub fn update_board(&mut self)
        requires
            old(self)@.valid(),
            old(self)@.has_room(),
        ensures
            old(self)@.advances_to(final(self)@),
            final(self)@.valid(),
    {
        if self.board.try_down().is_err() {
            let shape = self.random_shape();
            let color = self.random_color();
            self.settle(shape, color);
            assert(self@ == old(self)@.settled(shape@, color));
        }
    }

    /// A tick of the clock: the falling piece tries to go one row down, and
    /// then the game is brought up to date.
    pub fn tick(&mut self)
        requires
            old(self)@.valid(),
            old(self)@.has_room(),
        ensures
            old(self)@.stepped().advances_to(final(self)@),
            final(self)@.valid(),
    {
        if self.board.has_piece() {
            let _ = self.board.down();
        }
        self.update_board();
    }

    /// What `event` asks of the game. `q` ends it. The arrows to the side
    /// move the falling piece, the arrow up turns it, and after each of
    /// these that the board admits the game is brought up to date. The
    /// arrow down drops the piece, and the game is brought up to date. With
    /// no piece falling, there is nothing to move, turn or drop.
    pub fn handle_events(&mut self, event: Event)
        requires
            old(self)@.valid(),
            old(self)@.has_room(),
        ensures
            old(self)@.updates_after(event) ==> old(self)@.moved_by(event).advances_to(
                final(self)@,
            ),
            !old(self)@.updates_after(event) ==> final(self)@ == old(self)@.moved_by(event),
            final(self)@.valid(),
    {
        match event {
            Event::Press(key) => {
                match key {
                    Key::Char(c) => {
                        if c == 'q' {
                            self.exit();
                        }
                    },
                    Key::Left => {
                        if self.board.has_piece() && self.board.left().is_ok() {
                            self.update_board();
                        }
                    },
                    Key::Right => {
                        if self.board.has_piece() && self.board.right().is_ok() {
                            self.update_board();
                        }
                    },
                    Key::Up => {
                        if self.board.has_piece() && self.board.rotate().is_ok() {
                            self.update_board();
                        }
                    },
                    Key::Down => {
                        if self.board.has_piece() {
                            proof {
                                self@.board.lemma_dropped();
                            }
                            self.board.drop();
                        }
                        self.update_board();
                    },
                    Key::Other => {},
                }
            },
            Event::Other => {},
        }
    }

    /// One of the seven canonical shapes, drawn at random.
    fn random_shape(&mut self) -> (shape: Block)
        ensures
            canonical(shape@),
            final(self)@ == old(self)@,
    {
        let cells = *pick(&Block::SHAPES, &mut self.rng).unwrap();
        proof {
            let i = choose|i: int| 0 <= i < 7 && Block::SHAPES@[i] == cells;
            lemma_canonical(i);
        }
        Block::new(cells)
    }

    /// One of the six colours, drawn at random.
    fn random_color(&mut self) -> (color: Color)
        ensures
            final(self)@ == old(self)@,
    {
        *pick(&COLORS, &mut self.rng).unwrap()
    }
}

/// Each of the seven shapes is canonical.
pub proof fn lemma_canonical(i: int)
    requires
        0 <= i < 7,
    ensures
        canonical(cells_of(Block::SHAPES@[i]@)),
{
}

} // verus!
