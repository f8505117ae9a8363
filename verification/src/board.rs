use vstd::prelude::*;
use crate::block::{BColor, Block, Rotation, Shape};
use crate::color_grid::ColorGrid;
use crate::command::Command;
use crate::grid_model::{GridError, GridView, blank_rows, size_error};
use crate::lrd::{LR, LRD};

verus! {

/// The board of a game: a playfield on the standard checkerboard background.
pub struct Board {
    grid: ColorGrid,
}

impl View for Board {
    type V = GridView;

    closed spec fn view(&self) -> GridView {
        self.grid@
    }
}

impl Board {
    /// What the representation keeps beyond the model.
    pub closed spec fn inv(&self) -> bool {
        self.grid.inv()
    }

    /// Validity of a board.
    pub open spec fn wf(&self) -> bool {
        self.inv() && self@.wf()
    }

    /// An empty board of `width` by `height` cells with a piece of a shape
    /// chosen at random at the spawn anchor. Sizes on which some shape could
    /// not enter, and sizes over `MAX_CELLS` cells, are refused.
    pub fn new(width: usize, height: usize) -> (r: Result<Board, GridError>)
        ensures
            match r {
                Ok(b) => {
                    &&& size_error(width as int, height as int) is None
                    &&& b.wf()
                    &&& b@.width == width
                    &&& b@.height == height
                    &&& b@.background == (BColor::GRID1, BColor::GRID2)
                    &&& b@.rows == blank_rows(b@.background, width as int, height as int)
                    &&& b@.at == b@.spawn()
                    &&& b@.piece.rotation == Rotation::R0
                },
                Err(e) => size_error(width as int, height as int) == Some(e),
            },
    {
        match ColorGrid::new(width, height, (BColor::GRID1, BColor::GRID2)) {
            Ok(grid) => Ok(Board { grid }),
            Err(e) => Err(e),
        }
    }

    /// The playfield of this board.
    pub fn grid(&self) -> (g: &ColorGrid)
        ensures
            g@ == self@,
            g.wf() == self.wf(),
    {
        &self.grid
    }

    /// Whether the piece in play lies on the board.
    pub fn piece_is_inside(&self) -> (inside: bool)
        requires
            self.wf(),
        ensures
            inside == self@.piece_inside(),
    {
        self.grid.piece_is_inside()
    }

    /// Whether the piece in play covers no locked cell or stands where it
    /// entered.
    pub fn piece_is_clear(&self) -> (clear: bool)
        requires
            self.wf(),
        ensures
            clear == self@.piece_clear(),
    {
        self.grid.piece_is_clear()
    }

    /// Empties the board and puts a piece of a shape chosen at random, not
    /// rotated, at the spawn anchor.
    pub fn renew(&mut self)
        requires
            old(self).wf(),
        ensures
            final(self).wf(),
            exists|shape: Shape| final(self)@ == #[trigger] old(self)@.renewed(shape),
    {
        self.grid.renew();
    }

    /// Empties the board and puts a piece of the given shape, not rotated,
    /// at the spawn anchor.
    pub fn renew_with(&mut self, shape: Shape)
        requires
            old(self).wf(),
        ensures
            final(self).wf(),
            final(self)@ == old(self)@.renewed(shape),
    {
        self.grid.renew_with(shape);
    }

    /// Locks the piece in play and clears the full rows. Returns the number
    /// of rows cleared.
    pub fn merge_block(&mut self) -> (cleared: usize)
        requires
            old(self).wf(),
            old(self)@.piece_inside(),
        ensures
            final(self).wf(),
            final(self)@ == old(self)@.merged(),
            cleared == old(self)@.locked().full_count(),
    {
        self.grid.merge_block()
    }

    /// Puts `block` into play at the spawn anchor. Nothing is checked: the
    /// new piece may cover locked cells.
    pub fn insert(&mut self, block: Block)
        requires
            old(self).wf(),
        ensures
            final(self).wf(),
            final(self)@ == old(self)@.entered(block),
    {
        self.grid.insert(block);
    }

    /// Lets the piece in play fall: one row if it can, or, where `is_drop` is
    /// set, as far as it can. Returns whether the game is over and whether
    /// the piece is resting. Where the piece cannot fall at all the result is
    /// `(is_begin, true)`.
    pub fn on_down(&mut self, is_drop: bool, is_begin: bool) -> (r: (bool, bool))
        requires
            old(self).wf(),
        ensures
            final(self).wf(),
            final(self)@ == old(self)@.slid(LRD::Down, is_drop),
            r.0 == (is_begin && old(self)@.run(LRD::Down) == 0),
            r.1 == (is_drop || old(self)@.run(LRD::Down) <= 1),
    {
        self.grid.on_down(is_drop, is_begin)
    }

    /// Carries out a command that moves or turns the piece in play, and
    /// returns whether the piece moved or turned. Where `hit_bottom` is set,
    /// the piece then falls as far as it can, unless it was to be turned and
    /// was not. Other commands change nothing and give `false`.
    pub fn handle_event(&mut self, event: Command, hit_bottom: bool) -> (moved: bool)
        requires
            old(self).wf(),
        ensures
            final(self).wf(),
            moved == old(self)@.moves(event),
            final(self)@ == old(self)@.after(event, hit_bottom),
    {
        match event {
            Command::MoveLeft => self.grid.handle_lr(LR::Left, hit_bottom, false),
            Command::MoveRight => self.grid.handle_lr(LR::Right, hit_bottom, false),
            Command::RotateCw => self.grid.rotate(hit_bottom, true),
            Command::Flip => self.grid.flip_turn(hit_bottom),
            Command::RotateCcw => self.grid.rotate(hit_bottom, false),
            Command::MoveLeftHard => self.grid.handle_lr(LR::Left, hit_bottom, true),
            Command::MoveRightHard => self.grid.handle_lr(LR::Right, hit_bottom, true),
            _ => false,
        }
    }
}

} // verus!
