use vstd::prelude::*;
use vstd::string::StringExecFns;
use crate::block::{BColor, Block, Rotation, Shape, lemma_offsets_in_reach, placed};
use crate::command::Command;
use crate::lrd::LRD;
use crate::pos::Cell;

verus! {

/// The smallest width on which every shape can be spawned.
pub const MIN_WIDTH: usize = 4;

/// The smallest height on which every shape can be spawned.
pub const MIN_HEIGHT: usize = 2;

/// The largest number of cells of a playfield.
pub const MAX_CELLS: usize = 0x4000_0000;

/// How many anchors the kick search tries from one starting cell.
pub const KICK_TRIES: usize = 10;

/// How far outside the playfield the kick search may take an anchor, in
/// columns or rows, and more.
pub const MARGIN: i32 = 16;

/// The background colour of the cell `(x, y)`: the first of the two where
/// `x + y` is even, the second where it is odd.
pub open spec fn tile(background: (BColor, BColor), x: int, y: int) -> BColor {
    if (x + y) % 2 == 0 {
        background.0
    } else {
        background.1
    }
}

/// Row `y` of an empty playfield of the given width.
pub open spec fn blank_row(background: (BColor, BColor), width: int, y: int) -> Seq<BColor> {
    Seq::new(width as nat, |x: int| tile(background, x, y))
}

/// The rows of an empty playfield of the given size.
pub open spec fn blank_rows(background: (BColor, BColor), width: int, height: int) -> Seq<
    Seq<BColor>,
> {
    Seq::new(height as nat, |y: int| blank_row(background, width, y))
}

/// Why a playfield of a given size cannot be made.
#[derive(Clone, Copy, Debug, PartialEq, Eq, Structural)]
pub enum GridError {
    /// The width or the height is zero.
    Empty,
    /// Some shape could not enter: the width is under `MIN_WIDTH` or the
    /// height under `MIN_HEIGHT`.
    TooSmall,
    /// The playfield would have more than `MAX_CELLS` cells.
    TooLarge,
}

impl GridError {
    /// What this error says, in words.
    pub open spec fn text(self) -> Seq<char> {
        match self {
            GridError::Empty => {
                "the playfield has no cells: its width or its height is zero"@
            },
            GridError::TooSmall => {
                "the playfield is too small: it takes 4 columns and 2 rows for every shape to enter"@
            },
            GridError::TooLarge => {
                "the playfield is too large: it may have 1073741824 cells at most"@
            },
        }
    }

    /// What this error says, in words.
    pub fn message(&self) -> (text: String)
        ensures
            text@ == self.text(),
    {
        match self {
            GridError::Empty => String::from_str(
                "the playfield has no cells: its width or its height is zero",
            ),
            GridError::TooSmall => String::from_str(
                "the playfield is too small: it takes 4 columns and 2 rows for every shape to enter",
            ),
            GridError::TooLarge => String::from_str(
                "the playfield is too large: it may have 1073741824 cells at most",
            ),
        }
    }
}

/// The error that a playfield of `width` by `height` cells is refused with,
/// if it is refused.
pub open spec fn size_error(width: int, height: int) -> Option<GridError> {
    if width <= 0 || height <= 0 {
        Some(GridError::Empty)
    } else if width < MIN_WIDTH || height < MIN_HEIGHT {
        Some(GridError::TooSmall)
    } else if width * height > MAX_CELLS {
        Some(GridError::TooLarge)
    } else {
        None
    }
}

/// The mathematical model of a playfield: the colours of its cells row by
/// row, and the piece in play with its anchor. The piece in play is not part
/// of `rows`.
pub struct GridView {
    pub width: int,
    pub height: int,
    pub rows: Seq<Seq<BColor>>,
    pub background: (BColor, BColor),
    pub piece: Block,
    pub at: Cell,
}

impl GridView {
    /// Whether `c` is a cell of the playfield.
    pub open spec fn inside(self, c: Cell) -> bool {
        0 <= c.x < self.width && 0 <= c.y < self.height
    }

    /// The anchor at which a new piece enters the playfield.
    pub open spec fn spawn(self) -> Cell {
        Cell { x: self.width / 2, y: 1 }
    }

    /// Validity of a playfield: it is large enough for every shape to enter,
    /// has at most `MAX_CELLS` cells, holds `height` rows of `width` colours,
    /// and the anchor of the piece in play is one of its cells.
    pub open spec fn wf(self) -> bool {
        &&& MIN_WIDTH <= self.width
        &&& MIN_HEIGHT <= self.height
        &&& self.width * self.height <= MAX_CELLS
        &&& self.rows.len() == self.height
        &&& forall|y: int| 0 <= y < self.height ==> (#[trigger] self.rows[y]).len() == self.width
        &&& self.inside(self.at)
    }

    /// Whether `color` is one of the two background colours.
    pub open spec fn is_background(self, color: BColor) -> bool {
        color == self.background.0 || color == self.background.1
    }

    /// The colour stored for the cell `c`.
    pub open spec fn color_at(self, c: Cell) -> BColor {
        self.rows[c.y][c.x]
    }

    /// Whether the cell `c` holds a locked colour.
    pub open spec fn occupied(self, c: Cell) -> bool {
        !self.is_background(self.color_at(c))
    }

    /// Whether `c` is a cell of the playfield that holds no locked colour.
    pub open spec fn free(self, c: Cell) -> bool {
        self.inside(c) && !self.occupied(c)
    }

    /// Whether `block` anchored at `at` lies on the playfield and covers no
    /// locked cell.
    pub open spec fn fits(self, block: Block, at: Cell) -> bool {
        forall|i: int| 0 <= i < 4 ==> self.free(#[trigger] placed(block, at)[i])
    }

    /// Whether `block` anchored at `at` lies on the playfield.
    pub open spec fn contains(self, block: Block, at: Cell) -> bool {
        forall|i: int| 0 <= i < 4 ==> self.inside(#[trigger] placed(block, at)[i])
    }

    /// Whether the cell under `c` is the floor or holds a locked colour.
    pub open spec fn blocked_below(self, c: Cell) -> bool {
        c.y + 1 == self.height || self.occupied(c.offset(0, 1))
    }

    /// Whether some cell of `block` anchored at `at` stands on the floor or on
    /// a locked cell.
    pub open spec fn rests(self, block: Block, at: Cell) -> bool {
        exists|i: int| 0 <= i < 4 && self.blocked_below(#[trigger] placed(block, at)[i])
    }

    /// Whether the piece in play lies on the playfield.
    pub open spec fn piece_inside(self) -> bool {
        self.contains(self.piece, self.at)
    }

    /// Whether the piece in play lies on the playfield and covers no locked
    /// cell.
    pub open spec fn piece_fits(self) -> bool {
        self.fits(self.piece, self.at)
    }

    /// Whether the piece in play covers no locked cell, or stands where it
    /// entered.
    pub open spec fn piece_clear(self) -> bool {
        self.piece_fits() || self.at == self.spawn()
    }

    /// Whether an anchor lies at most `MARGIN` outside the playfield.
    pub open spec fn near(self, at: Cell) -> bool {
        &&& -MARGIN <= at.x <= self.width + MARGIN
        &&& -MARGIN <= at.y <= self.height + MARGIN
    }

    /// This playfield with the piece in play anchored at `at`.
    pub open spec fn anchored(self, at: Cell) -> GridView {
        GridView { at, ..self }
    }

    /// This playfield with `piece` in play, anchored at `at`.
    pub open spec fn holding(self, piece: Block, at: Cell) -> GridView {
        GridView { piece, at, ..self }
    }

    /// This playfield with the piece in play moved by `n` steps in the
    /// direction `dir`.
    pub open spec fn shifted(self, dir: LRD, n: int) -> GridView {
        self.anchored(self.at.offset(n * dir.step().x, n * dir.step().y))
    }

    /// How far the piece in play is from the edge that the direction `dir`
    /// leads to.
    pub open spec fn room(self, dir: LRD) -> int {
        match dir {
            LRD::Left => self.at.x,
            LRD::Right => self.width - 1 - self.at.x,
            LRD::Down => self.height - 1 - self.at.y,
        }
    }

    /// The number of steps that the piece in play can take in the direction
    /// `dir` before the next one would leave the playfield or cover a locked
    /// cell.
    pub open spec fn run(self, dir: LRD) -> nat
        decreases self.room(dir),
        via Self::run_decreases
    {
        if self.fits(self.piece, self.shifted(dir, 1).at) {
            1 + self.shifted(dir, 1).run(dir)
        } else {
            0
        }
    }

    /// This playfield after a move in the direction `dir`: as far as the
    /// piece in play can go where `hard` is set, one step at most where it is
    /// not.
    pub open spec fn slid(self, dir: LRD, hard: bool) -> GridView {
        if hard {
            self.shifted(dir, self.run(dir) as int)
        } else if self.run(dir) > 0 {
            self.shifted(dir, 1)
        } else {
            self
        }
    }

    /// This playfield with the piece in play at the lowest place it can fall
    /// to.
    pub open spec fn dropped(self) -> GridView {
        self.slid(LRD::Down, true)
    }

    /// This playfield after the downward resolution that follows a move made
    /// while the piece in play was resting, where `hit_bottom` says that it
    /// was.
    pub open spec fn settled(self, hit_bottom: bool) -> GridView {
        if hit_bottom {
            self.dropped()
        } else {
            self
        }
    }

    /// Where the kick search goes from an anchor `at` at which the cells of
    /// `block` from the `i`-th on are not all in place. The first of them that
    /// is out of place decides: one column to the right if it is left of the
    /// playfield, one to the left if it is right of it, one row down if it is
    /// above it, one up if it is below it, and nowhere if it holds a locked
    /// colour.
    pub open spec fn nudge_from(self, block: Block, at: Cell, i: int) -> Cell
        decreases 4 - i,
    {
        if i < 0 || i >= 4 {
            at
        } else {
            let c = placed(block, at)[i];
            if c.x < 0 {
                at.offset(1, 0)
            } else if c.x >= self.width {
                at.offset(-1, 0)
            } else if c.y < 0 {
                at.offset(0, 1)
            } else if c.y >= self.height {
                at.offset(0, -1)
            } else if self.occupied(c) {
                at
            } else {
                self.nudge_from(block, at, i + 1)
            }
        }
    }

    /// The anchor that the kick search tries after `at`.
    pub open spec fn nudged(self, block: Block, at: Cell) -> Cell {
        self.nudge_from(block, at, 0)
    }

    /// The first anchor at which `block` fits among `at` and the anchors that
    /// the kick search tries after it, `tries` anchors in all.
    pub open spec fn settle(self, block: Block, at: Cell, tries: nat) -> Option<Cell>
        decreases tries,
    {
        if tries == 0 {
            None
        } else if self.fits(block, at) {
            Some(at)
        } else {
            self.settle(block, self.nudged(block, at), (tries - 1) as nat)
        }
    }

    /// What the kick search finds for `turned` when it starts from the cells
    /// of the piece in play from the `i`-th on, each in its turn.
    pub open spec fn kick_from(self, turned: Block, i: int) -> Option<Cell>
        decreases 4 - i,
    {
        if i < 0 || i >= 4 {
            None
        } else {
            match self.settle(turned, placed(self.piece, self.at)[i], KICK_TRIES as nat) {
                Some(at) => Some(at),
                None => self.kick_from(turned, i + 1),
            }
        }
    }

    /// The anchor that the kick search finds for `turned`: it starts from
    /// each cell of the piece in play in order, the anchor first, tries
    /// `KICK_TRIES` anchors from each, and stops at the first one at which
    /// `turned` fits.
    pub open spec fn kick(self, turned: Block) -> Option<Cell> {
        self.kick_from(turned, 0)
    }

    /// This playfield after a turn of the piece in play into `turned`: where
    /// the kick search finds a place for it, the turned piece is there, or as
    /// far below as it can fall where `hit_bottom` is set; where the search
    /// finds none, nothing has changed.
    pub open spec fn spun(self, turned: Block, hit_bottom: bool) -> GridView {
        if self.kick(turned) is Some {
            self.turned(turned).settled(hit_bottom)
        } else {
            self
        }
    }

    /// This playfield after an attempt to replace the piece in play by
    /// `turned`: unchanged where the kick search finds no place for it.
    pub open spec fn turned(self, turned: Block) -> GridView {
        match self.kick(turned) {
            Some(at) => self.holding(turned, at),
            None => self,
        }
    }

    /// Whether the piece in play covers the cell `c`.
    pub open spec fn covers(self, c: Cell) -> bool {
        exists|i: int| 0 <= i < 4 && #[trigger] placed(self.piece, self.at)[i] == c
    }

    /// This playfield with the cells that the piece in play covers locked in
    /// the colour of its shape.
    pub open spec fn locked(self) -> GridView {
        GridView {
            rows: Seq::new(
                self.height as nat,
                |y: int|
                    Seq::new(
                        self.width as nat,
                        |x: int|
                            if self.covers(Cell { x, y }) {
                                self.piece.shape.color()
                            } else {
                                self.rows[y][x]
                            },
                    ),
            ),
            ..self
        }
    }

    /// Whether every cell of row `y` holds a locked colour.
    pub open spec fn row_full(self, y: int) -> bool {
        forall|x: int| 0 <= x < self.width ==> !self.is_background(#[trigger] self.rows[y][x])
    }

    /// The full rows among the first `n`, from the lowest one up.
    pub open spec fn full_below(self, n: int) -> Seq<int>
        decreases n,
    {
        if n <= 0 {
            Seq::empty()
        } else if self.row_full(n - 1) {
            seq![n - 1] + self.full_below(n - 1)
        } else {
            self.full_below(n - 1)
        }
    }

    /// The rows among the first `n` that are not full, from the top down.
    pub open spec fn kept_rows(self, n: int) -> Seq<int>
        decreases n,
    {
        if n <= 0 {
            Seq::empty()
        } else if self.row_full(n - 1) {
            self.kept_rows(n - 1)
        } else {
            self.kept_rows(n - 1).push(n - 1)
        }
    }

    /// The number of full rows.
    pub open spec fn full_count(self) -> int {
        self.full_below(self.height).len() as int
    }

    /// Row `from` as it stands in row `to` once the rows have been packed: as
    /// it was where it has not moved, and else with its locked cells as they
    /// were and each other cell in the background colour of its new place.
    pub open spec fn carried_row(self, from: int, to: int) -> Seq<BColor> {
        if from == to {
            self.rows[from]
        } else {
            Seq::new(
                self.width as nat,
                |x: int|
                    if self.is_background(self.rows[from][x]) {
                        tile(self.background, x, to)
                    } else {
                        self.rows[from][x]
                    },
            )
        }
    }

    /// This playfield without its full rows: the other rows packed at the
    /// bottom in their order, and as many empty rows at the top as there were
    /// full rows.
    pub open spec fn cleared(self) -> GridView {
        let kept = self.kept_rows(self.height);
        let gone = self.height - kept.len();
        GridView {
            rows: Seq::new(
                self.height as nat,
                |y: int|
                    if y < gone {
                        blank_row(self.background, self.width, y)
                    } else {
                        self.carried_row(kept[y - gone], y)
                    },
            ),
            ..self
        }
    }

    /// This playfield after the piece in play has been locked and the full
    /// rows have been cleared.
    pub open spec fn merged(self) -> GridView {
        self.locked().cleared()
    }

    /// This playfield emptied, with an unrotated piece of the given shape at
    /// the spawn anchor.
    pub open spec fn renewed(self, shape: Shape) -> GridView {
        GridView {
            rows: blank_rows(self.background, self.width, self.height),
            piece: Block { shape, rotation: Rotation::R0 },
            at: self.spawn(),
            ..self
        }
    }

    /// This playfield with `block` in play at the spawn anchor.
    pub open spec fn entered(self, block: Block) -> GridView {
        self.holding(block, self.spawn())
    }

    /// Whether the command `cmd` moves or turns the piece in play.
    pub open spec fn moves(self, cmd: Command) -> bool {
        match cmd {
            Command::MoveLeft | Command::MoveLeftHard => self.run(LRD::Left) > 0,
            Command::MoveRight | Command::MoveRightHard => self.run(LRD::Right) > 0,
            Command::RotateCw => self.kick(self.piece.rotated(true)) is Some,
            Command::RotateCcw => self.kick(self.piece.rotated(false)) is Some,
            Command::Flip => self.kick(self.piece.flipped()) is Some,
            _ => false,
        }
    }

    /// This playfield after the command `cmd`, where `hit_bottom` says
    /// whether the piece in play was resting. Commands that neither move nor
    /// turn the piece leave the playfield as it is.
    pub open spec fn after(self, cmd: Command, hit_bottom: bool) -> GridView {
        match cmd {
            Command::MoveLeft => self.slid(LRD::Left, false).settled(hit_bottom),
            Command::MoveRight => self.slid(LRD::Right, false).settled(hit_bottom),
            Command::MoveLeftHard => self.slid(LRD::Left, true).settled(hit_bottom),
            Command::MoveRightHard => self.slid(LRD::Right, true).settled(hit_bottom),
            Command::RotateCw => self.spun(self.piece.rotated(true), hit_bottom),
            Command::RotateCcw => self.spun(self.piece.rotated(false), hit_bottom),
            Command::Flip => self.spun(self.piece.flipped(), hit_bottom),
            _ => self,
        }
    }

    #[via_fn]
    proof fn run_decreases(self, dir: LRD) {
        if self.fits(self.piece, self.shifted(dir, 1).at) {
            let to = self.shifted(dir, 1).at;
            lemma_offsets_in_reach(self.piece);
            assert(self.inside(placed(self.piece, to)[0]));
        }
    }
}

/// Moving a piece step by step is the same as moving it at once.
pub proof fn lemma_shifted_again(g: GridView, dir: LRD, n: int)
    ensures
        g.shifted(dir, n).shifted(dir, 1) == g.shifted(dir, n + 1),
        g.shifted(dir, 0) == g,
        g.shifted(dir, n).rows == g.rows,
        g.shifted(dir, n).wf() == g.anchored(g.shifted(dir, n).at).wf(),
{
    let s = dir.step();
    assert(n * s.x + s.x == (n + 1) * s.x) by (nonlinear_arith);
    assert(n * s.y + s.y == (n + 1) * s.y) by (nonlinear_arith);
}

/// A piece that fits somewhere has its anchor on the playfield.
pub proof fn lemma_fits_anchor(g: GridView, block: Block, at: Cell)
    requires
        g.fits(block, at),
    ensures
        g.inside(at),
        g.contains(block, at),
{
    lemma_offsets_in_reach(block);
    assert(g.free(placed(block, at)[0]));
    assert(placed(block, at)[0] == at);
}

/// A piece that lies on the playfield rests exactly where it cannot move down.
pub proof fn lemma_rests_iff_blocked(g: GridView, block: Block, at: Cell)
    requires
        g.contains(block, at),
    ensures
        g.rests(block, at) <==> !g.fits(block, at.offset(0, 1)),
{
    let here = placed(block, at);
    let under = placed(block, at.offset(0, 1));
    assert forall|i: int| 0 <= i < 4 implies (g.blocked_below(#[trigger] here[i]) <==> !g.free(
        under[i],
    )) by {
        assert(g.inside(here[i]));
        assert(under[i] == here[i].offset(0, 1));
    }
    if g.rests(block, at) {
        let i = choose|i: int| 0 <= i < 4 && g.blocked_below(#[trigger] here[i]);
        assert(!g.free(under[i]));
    }
    if !g.fits(block, at.offset(0, 1)) {
        let i = choose|i: int| 0 <= i < 4 && !g.free(#[trigger] under[i]);
        assert(g.blocked_below(here[i]));
    }
}

/// A move keeps the playfield valid, and leaves the piece in play in a place
/// where it fits unless it did not move at all.
pub proof fn lemma_run(g: GridView, dir: LRD, n: int)
    requires
        g.wf(),
        0 <= n <= g.run(dir),
    ensures
        g.shifted(dir, n).wf(),
        g.shifted(dir, n).run(dir) == g.run(dir) - n,
        n > 0 ==> g.shifted(dir, n).piece_fits(),
        g.piece_fits() ==> g.shifted(dir, n).piece_fits(),
        g.piece_inside() ==> g.shifted(dir, n).piece_inside(),
    decreases n,
{
    lemma_shifted_again(g, dir, 0);
    if n > 0 {
        let h = g.shifted(dir, 1);
        lemma_fits_anchor(g, g.piece, h.at);
        assert(h.wf());
        assert(h.piece_fits());
        lemma_run(h, dir, n - 1);
        lemma_shifted_again(g, dir, 1);
        lemma_shifted_steps(g, dir, 1, n - 1);
    }
}

/// Two moves in a row are one move by the sum of their lengths.
pub proof fn lemma_shifted_steps(g: GridView, dir: LRD, n: int, m: int)
    ensures
        g.shifted(dir, n).shifted(dir, m) == g.shifted(dir, n + m),
{
    let s = dir.step();
    assert(n * s.x + m * s.x == (n + m) * s.x) by (nonlinear_arith);
    assert(n * s.y + m * s.y == (n + m) * s.y) by (nonlinear_arith);
}

/// Where the kick search settles, the piece fits.
pub proof fn lemma_settle_fits(g: GridView, block: Block, at: Cell, tries: nat)
    ensures
        g.settle(block, at, tries) matches Some(c) ==> g.fits(block, c),
    decreases tries,
{
    if tries > 0 && !g.fits(block, at) {
        lemma_settle_fits(g, block, g.nudged(block, at), (tries - 1) as nat);
    }
}

/// Where the kick search finds an anchor, the piece fits there.
pub proof fn lemma_kick_from_fits(g: GridView, turned: Block, i: int)
    ensures
        g.kick_from(turned, i) matches Some(c) ==> g.fits(turned, c),
    decreases 4 - i,
{
    if 0 <= i < 4 {
        lemma_settle_fits(g, turned, placed(g.piece, g.at)[i], KICK_TRIES as nat);
        lemma_kick_from_fits(g, turned, i + 1);
    }
}

/// A turn either leaves the playfield as it was or leaves the turned piece
/// in a place where it fits; the playfield stays valid either way.
pub proof fn lemma_turned(g: GridView, turned: Block)
    requires
        g.wf(),
    ensures
        g.turned(turned).wf(),
        g.turned(turned).rows == g.rows,
        g.kick(turned) is Some ==> g.turned(turned).piece_fits(),
        g.kick(turned) is None ==> g.turned(turned) == g,
{
    lemma_kick_from_fits(g, turned, 0);
    if let Some(c) = g.kick(turned) {
        lemma_fits_anchor(g, turned, c);
    }
}

/// The kick search goes at most one cell away from an anchor, and stays
/// where the piece fits.
pub proof fn lemma_nudge_from(g: GridView, block: Block, at: Cell, i: int)
    requires
        0 <= i <= 4,
    ensures
        ({
            let to = g.nudge_from(block, at, i);
            &&& at.x - 1 <= to.x <= at.x + 1
            &&& at.y - 1 <= to.y <= at.y + 1
        }),
    decreases 4 - i,
{
    if i < 4 {
        lemma_nudge_from(g, block, at, i + 1);
    }
}

/// Of the first `n` rows, each is either full or kept: the rows kept are in
/// increasing order, lie among the first `n` and are not full; the full rows
/// are in decreasing order, lie among the first `n` and are full.
pub proof fn lemma_rows_split(g: GridView, n: int)
    requires
        0 <= n,
    ensures
        g.kept_rows(n).len() + g.full_below(n).len() == n,
        forall|i: int|
            0 <= i < g.kept_rows(n).len() ==> 0 <= #[trigger] g.kept_rows(n)[i] < n && !g.row_full(
                g.kept_rows(n)[i],
            ),
        forall|i: int, j: int|
            0 <= i < j < g.kept_rows(n).len() ==> #[trigger] g.kept_rows(n)[i]
                < #[trigger] g.kept_rows(n)[j],
        forall|i: int|
            0 <= i < g.full_below(n).len() ==> 0 <= #[trigger] g.full_below(n)[i] < n
                && g.row_full(g.full_below(n)[i]),
        forall|i: int, j: int|
            0 <= i < j < g.full_below(n).len() ==> #[trigger] g.full_below(n)[i]
                > #[trigger] g.full_below(n)[j],
    decreases n,
{
    if n > 0 {
        lemma_rows_split(g, n - 1);
    }
}

/// The rows kept among the first `n` are the first of the rows kept among
/// the first `m`, where `n` is at most `m`.
pub proof fn lemma_kept_prefix(g: GridView, n: int, m: int)
    requires
        0 <= n <= m,
    ensures
        g.kept_rows(n).len() <= g.kept_rows(m).len(),
        forall|i: int|
            0 <= i < g.kept_rows(n).len() ==> #[trigger] g.kept_rows(m)[i] == g.kept_rows(n)[i],
    decreases m - n,
{
    if n < m {
        lemma_kept_prefix(g, n, m - 1);
    }
}

/// An unrotated piece that enters a valid playfield lies on it.
pub proof fn lemma_entered_inside(g: GridView, block: Block)
    requires
        g.wf(),
        block.rotation == Rotation::R0,
    ensures
        g.entered(block).wf(),
        g.entered(block).piece_inside(),
{
    let at = g.spawn();
    assert forall|i: int| 0 <= i < 4 implies g.inside(#[trigger] placed(block, at)[i]) by {
        lemma_offsets_in_reach(block);
        let c = block.shape.base_cells()[i];
        assert(block.offsets()[i] == c);
        assert(-2 <= c.x <= 1 && -1 <= c.y <= 0);
    }
}

/// A slide keeps the playfield valid, changes no cell, and keeps the piece in
/// play on the playfield and clear of the locked cells if it was.
pub proof fn lemma_slid(g: GridView, dir: LRD, hard: bool)
    requires
        g.wf(),
    ensures
        g.slid(dir, hard).wf(),
        g.slid(dir, hard).rows == g.rows,
        g.slid(dir, hard).piece == g.piece,
        g.piece_inside() ==> g.slid(dir, hard).piece_inside(),
        g.piece_fits() ==> g.slid(dir, hard).piece_fits(),
        g.slid(dir, hard).piece_fits() || g.slid(dir, hard) == g,
        hard ==> g.slid(dir, hard).run(dir) == 0,
{
    lemma_shifted_again(g, dir, 0);
    lemma_run(g, dir, 0);
    lemma_run(g, dir, g.run(dir) as int);
    if g.run(dir) > 0 {
        lemma_run(g, dir, 1);
    }
}

/// No command for the piece in play makes it cover a locked cell or leave the
/// playfield: the playfield stays valid, its cells stay as they are, and a
/// piece that lay on the playfield, or covered no locked cell, still does.
/// A piece that was moved or turned covers no locked cell, wherever it was
/// before.
pub proof fn lemma_after(g: GridView, cmd: Command, hit_bottom: bool)
    requires
        g.wf(),
    ensures
        g.after(cmd, hit_bottom).wf(),
        g.after(cmd, hit_bottom).rows == g.rows,
        g.piece_inside() ==> g.after(cmd, hit_bottom).piece_inside(),
        g.piece_fits() ==> g.after(cmd, hit_bottom).piece_fits(),
        g.moves(cmd) ==> g.after(cmd, hit_bottom).piece_fits(),
        g.after(cmd, hit_bottom).piece_fits() || g.after(cmd, hit_bottom) == g,
{
    match cmd {
        Command::MoveLeft | Command::MoveLeftHard | Command::MoveRight | Command::MoveRightHard => {
            let dir = if cmd == Command::MoveLeft || cmd == Command::MoveLeftHard {
                LRD::Left
            } else {
                LRD::Right
            };
            let hard = cmd == Command::MoveLeftHard || cmd == Command::MoveRightHard;
            lemma_slid(g, dir, hard);
            lemma_slid(g.slid(dir, hard), LRD::Down, true);
            if g.run(dir) > 0 {
                lemma_run(g, dir, 1);
                lemma_run(g, dir, g.run(dir) as int);
            }
        },
        Command::RotateCw | Command::RotateCcw | Command::Flip => {
            let turned = if cmd == Command::RotateCw {
                g.piece.rotated(true)
            } else if cmd == Command::RotateCcw {
                g.piece.rotated(false)
            } else {
                g.piece.flipped()
            };
            lemma_turned(g, turned);
            lemma_slid(g.turned(turned), LRD::Down, true);
            if let Some(c) = g.kick(turned) {
                lemma_fits_anchor(g, turned, c);
            }
        },
        _ => {},
    }
}

/// Locking the piece and clearing the full rows keeps the playfield valid,
/// and clears at most as many rows as the playfield has.
pub proof fn lemma_merged(g: GridView)
    requires
        g.wf(),
    ensures
        g.locked().wf(),
        g.merged().wf(),
        0 <= g.locked().full_count() <= g.height,
        0 <= g.full_count() <= g.height,
        g.height <= MAX_CELLS,
        g.cleared().wf(),
{
    assert(g.height <= g.width * g.height) by (nonlinear_arith)
        requires
            1 <= g.width,
            1 <= g.height,
    ;
    lemma_rows_split(g, g.height);
    lemma_rows_split(g.locked(), g.height);
    assert forall|y: int| 0 <= y < g.height implies (#[trigger] g.cleared().rows[y]).len()
        == g.width by {
        let kept = g.kept_rows(g.height);
        let gone = g.height - kept.len();
        if y >= gone {
            assert(0 <= kept[y - gone] < g.height);
        }
    }
    let l = g.locked();
    assert forall|y: int| 0 <= y < l.height implies (#[trigger] l.cleared().rows[y]).len()
        == l.width by {
        let kept = l.kept_rows(l.height);
        let gone = l.height - kept.len();
        if y >= gone {
            assert(0 <= kept[y - gone] < l.height);
        }
    }
}

} // verus!
