use vstd::prelude::*;
use crate::block::{
    BColor, Block, BlockWithPos, Rotation, Shape, lemma_offsets_in_reach, placed, within_reach,
};
use crate::grid_model::{
    GridError, GridView, KICK_TRIES, MAX_CELLS, MIN_HEIGHT, MIN_WIDTH, blank_row, blank_rows,
    lemma_fits_anchor, lemma_kept_prefix, lemma_nudge_from, lemma_rests_iff_blocked,
    lemma_rows_split, lemma_run, lemma_shifted_steps, lemma_turned, size_error, tile,
};
use crate::lrd::{LR, LRD};
use crate::pos::{Cell, Pos, cell_of, cells_of};

verus! {

/// A turn of the piece in play: a half turn, or a quarter turn in a direction.
#[derive(Clone, Copy)]
pub enum FlipRotate {
    FlipTurn,
    Rotate { clockwise: bool },
}

/// The playfield: a row-major buffer of cell colours, and the piece in play
/// with its anchor. The piece in play is never stored in the buffer.
pub struct ColorGrid {
    width: usize,
    height: usize,
    data: Vec<BColor>,
    block: BlockWithPos,
    background_color: (BColor, BColor),
}

/// The rows that a row-major buffer of `height` rows of `width` cells holds.
pub closed spec fn rows_of(data: Seq<BColor>, width: int, height: int) -> Seq<Seq<BColor>> {
    Seq::new(height as nat, |y: int| data.subrange(width * y, width * y + width))
}

/// The cells of row `y` lie in the buffer, after those of the rows above and
/// before those of the rows below.
proof fn lemma_row_span(width: int, height: int, y: int)
    requires
        0 <= width,
        0 <= y < height,
    ensures
        0 <= width * y,
        width * y + width <= width * height,
        width * y + width == width * (y + 1),
        forall|z: int| y < z ==> width * y + width <= #[trigger] (width * z),
        forall|z: int| 0 <= z < y ==> #[trigger] (width * z) + width <= width * y,
{
    assert(0 <= width * y) by (nonlinear_arith)
        requires
            0 <= width,
            0 <= y,
    ;
    assert(width * y + width == width * (y + 1)) by (nonlinear_arith);
    assert(width * (y + 1) <= width * height) by (nonlinear_arith)
        requires
            0 <= width,
            y + 1 <= height,
    ;
    assert forall|z: int| y < z implies width * y + width <= #[trigger] (width * z) by {
        assert(width * (y + 1) <= width * z) by (nonlinear_arith)
            requires
                0 <= width,
                y + 1 <= z,
        ;
    }
    assert forall|z: int| 0 <= z < y implies #[trigger] (width * z) + width <= width * y by {
        assert(width * z + width <= width * y) by (nonlinear_arith)
            requires
                0 <= width,
                z + 1 <= y,
        ;
    }
}

/// Neither side of a playfield is longer than the playfield has cells.
proof fn lemma_sides(width: int, height: int)
    requires
        1 <= width,
        1 <= height,
    ensures
        width <= width * height,
        height <= width * height,
{
    assert(width <= width * height) by (nonlinear_arith)
        requires
            1 <= width,
            1 <= height,
    ;
    assert(height <= width * height) by (nonlinear_arith)
        requires
            1 <= width,
            1 <= height,
    ;
}

/// The cell `(x, y)` of the rows is the entry `width * y + x` of the buffer.
proof fn lemma_rows_get(data: Seq<BColor>, width: int, height: int, x: int, y: int)
    requires
        data.len() == width * height,
        0 <= x < width,
        0 <= y < height,
    ensures
        0 <= width * y + x < data.len(),
        rows_of(data, width, height)[y].len() == width,
        rows_of(data, width, height)[y][x] == data[width * y + x],
{
    lemma_row_span(width, height, y);
}

/// Writing the entry `width * y + x` of the buffer changes the cell `(x, y)`
/// of the rows and no other.
proof fn lemma_rows_set(data: Seq<BColor>, width: int, height: int, x: int, y: int, c: BColor)
    requires
        data.len() == width * height,
        0 <= x < width,
        0 <= y < height,
    ensures
        0 <= width * y + x < data.len(),
        rows_of(data.update(width * y + x, c), width, height) == rows_of(
            data,
            width,
            height,
        ).update(y, rows_of(data, width, height)[y].update(x, c)),
{
    lemma_row_span(width, height, y);
    let after = rows_of(data.update(width * y + x, c), width, height);
    let rows = rows_of(data, width, height);
    let want = rows.update(y, rows[y].update(x, c));
    assert(after.len() == want.len());
    assert forall|z: int| 0 <= z < height implies after[z] =~= want[z] by {
        lemma_row_span(width, height, z);
        if z != y {
            assert(after[z] =~= rows[z]);
        }
    }
    assert(after =~= want);
}

impl View for ColorGrid {
    type V = GridView;

    closed spec fn view(&self) -> GridView {
        GridView {
            width: self.width as int,
            height: self.height as int,
            rows: rows_of(self.data@, self.width as int, self.height as int),
            background: self.background_color,
            piece: self.block.block,
            at: cell_of(self.block.pos),
        }
    }
}

impl ColorGrid {
    /// What the representation keeps beyond the model: the buffer has one
    /// entry per cell.
    pub closed spec fn inv(&self) -> bool {
        self.data@.len() == self.width * self.height
    }

    /// Validity of a playfield.
    pub open spec fn wf(&self) -> bool {
        self.inv() && self@.wf()
    }

    /// A playfield of `width` by `height` cells, empty, with a piece of a
    /// shape chosen at random at the spawn anchor. Sizes on which some shape
    /// could not enter, and sizes over `MAX_CELLS` cells, are refused.
    pub fn new(width: usize, height: usize, background_color: (BColor, BColor)) -> (r: Result<
        ColorGrid,
        GridError,
    >)
        ensures
            match r {
                Ok(g) => {
                    &&& size_error(width as int, height as int) is None
                    &&& g.wf()
                    &&& g@.width == width
                    &&& g@.height == height
                    &&& g@.background == background_color
                    &&& g@.rows == blank_rows(background_color, width as int, height as int)
                    &&& g@.at == g@.spawn()
                    &&& g@.piece.rotation == Rotation::R0
                },
                Err(e) => size_error(width as int, height as int) == Some(e),
            },
    {
        if width == 0 || height == 0 {
            return Err(GridError::Empty);
        }
        if width < MIN_WIDTH || height < MIN_HEIGHT {
            return Err(GridError::TooSmall);
        }
        let cells = match width.checked_mul(height) {
            Some(n) => n,
            None => { return Err(GridError::TooLarge); },
        };
        if cells > MAX_CELLS {
            return Err(GridError::TooLarge);
        }
        let mut data: Vec<BColor> = Vec::new();
        let mut i: usize = 0;
        while i < cells
            invariant
                i <= cells,
                data@.len() == i,
            decreases cells - i,
        {
            data.push(background_color.0);
            i += 1;
        }
        proof {
            lemma_sides(width as int, height as int);
        }
        let mut grid = ColorGrid {
            width,
            height,
            data,
            block: Self::insert_random(width),
            background_color,
        };
        proof {
            assert forall|y: int| 0 <= y < grid@.height implies (#[trigger] grid@.rows[y]).len()
                == grid@.width by {
                lemma_rows_get(grid.data@, width as int, height as int, 0, y);
            }
        }
        grid.blank_all();
        Ok(grid)
    }

    /// The width of the playfield in cells.
    pub fn width(&self) -> (w: usize)
        ensures
            w == self@.width,
    {
        self.width
    }

    /// The height of the playfield in cells.
    pub fn height(&self) -> (h: usize)
        ensures
            h == self@.height,
    {
        self.height
    }

    /// The piece in play with its anchor.
    pub fn block(&self) -> (b: BlockWithPos)
        ensures
            b.block == self@.piece,
            cell_of(b.pos) == self@.at,
    {
        self.block
    }

    /// The two background colours.
    pub fn background(&self) -> (bg: (BColor, BColor))
        ensures
            bg == self@.background,
    {
        self.background_color
    }

    /// The colour stored for the cell `(x, y)`.
    pub fn color_at(&self, x: usize, y: usize) -> (c: BColor)
        requires
            self.wf(),
            x < self@.width,
            y < self@.height,
        ensures
            c == self@.rows[y as int][x as int],
    {
        proof {
            lemma_rows_get(self.data@, self.width as int, self.height as int, x as int, y as int);
        }
        self.data[self.width * y + x]
    }

    /// Stores `color` for the cell `(x, y)`.
    fn put(&mut self, x: usize, y: usize, color: BColor)
        requires
            old(self).wf(),
            x < old(self)@.width,
            y < old(self)@.height,
        ensures
            final(self).wf(),
            final(self)@ == (GridView {
                rows: old(self)@.rows.update(
                    y as int,
                    old(self)@.rows[y as int].update(x as int, color),
                ),
                ..old(self)@
            }),
    {
        proof {
            lemma_rows_set(
                self.data@,
                self.width as int,
                self.height as int,
                x as int,
                y as int,
                color,
            );
            lemma_rows_get(self.data@, self.width as int, self.height as int, x as int, y as int);
        }
        let at = self.width * y + x;
        self.data.set(at, color);
    }

    /// Whether the cell `(x, y)` holds a locked colour: one that is neither of
    /// the two background colours.
    pub fn is_occupied(&self, x: usize, y: usize) -> (b: bool)
        requires
            self.wf(),
            x < self@.width,
            y < self@.height,
        ensures
            b == self@.occupied(Cell { x: x as int, y: y as int }),
    {
        let c = self.color_at(x, y);
        c != self.background_color.0 && c != self.background_color.1
    }

    /// Gives the cell `(x, y)` its background colour.
    fn set_background(&mut self, x: usize, y: usize)
        requires
            old(self).wf(),
            x < old(self)@.width,
            y < old(self)@.height,
        ensures
            final(self).wf(),
            final(self)@ == (GridView {
                rows: old(self)@.rows.update(
                    y as int,
                    old(self)@.rows[y as int].update(
                        x as int,
                        tile(old(self)@.background, x as int, y as int),
                    ),
                ),
                ..old(self)@
            }),
    {
        proof {
            lemma_sides(self.width as int, self.height as int);
        }
        let color = if (x + y) % 2 == 0 {
            self.background_color.0
        } else {
            self.background_color.1
        };
        self.put(x, y, color);
    }

    /// Gives every cell of row `y` its background colour.
    fn blank_row(&mut self, y: usize)
        requires
            old(self).wf(),
            y < old(self)@.height,
        ensures
            final(self).wf(),
            final(self)@ == (GridView {
                rows: old(self)@.rows.update(
                    y as int,
                    blank_row(old(self)@.background, old(self)@.width, y as int),
                ),
                ..old(self)@
            }),
    {
        let mut x: usize = 0;
        while x < self.width
            invariant
                self.wf(),
                x <= self@.width,
                self@.width == old(self)@.width,
                self@.height == old(self)@.height,
                self@.background == old(self)@.background,
                self@.piece == old(self)@.piece,
                self@.at == old(self)@.at,
                y < self@.height,
                self.width == self@.width,
                self@.rows.len() == self@.height,
                forall|z: int| 0 <= z < self@.height && z != y ==> self@.rows[z] == old(self)@.rows[z],
                self@.rows[y as int].len() == self@.width,
                forall|k: int|
                    0 <= k < x ==> self@.rows[y as int][k] == tile(
                        self@.background,
                        k,
                        y as int,
                    ),
            decreases self.width - x,
        {
            self.set_background(x, y);
            x += 1;
        }
        assert(self@.rows[y as int] =~= blank_row(self@.background, self@.width, y as int));
        assert(self@.rows =~= old(self)@.rows.update(
            y as int,
            blank_row(old(self)@.background, old(self)@.width, y as int),
        ));
    }

    /// Gives every cell its background colour.
    fn blank_all(&mut self)
        requires
            old(self).wf(),
        ensures
            final(self).wf(),
            final(self)@ == (GridView {
                rows: blank_rows(old(self)@.background, old(self)@.width, old(self)@.height),
                ..old(self)@
            }),
    {
        let mut y: usize = 0;
        while y < self.height
            invariant
                self.wf(),
                y <= self@.height,
                self.height == self@.height,
                self@.width == old(self)@.width,
                self@.height == old(self)@.height,
                self@.background == old(self)@.background,
                self@.piece == old(self)@.piece,
                self@.at == old(self)@.at,
                self@.rows.len() == self@.height,
                forall|z: int|
                    0 <= z < y ==> self@.rows[z] == blank_row(self@.background, self@.width, z),
            decreases self.height - y,
        {
            self.blank_row(y);
            y += 1;
        }
        assert(self@.rows =~= blank_rows(
            old(self)@.background,
            old(self)@.width,
            old(self)@.height,
        ));
    }

    /// Empties the playfield and puts a piece of a shape chosen at random,
    /// not rotated, at the spawn anchor.
    pub fn renew(&mut self)
        requires
            old(self).wf(),
        ensures
            final(self).wf(),
            exists|shape: Shape| final(self)@ == #[trigger] old(self)@.renewed(shape),
    {
        let shape = Shape::random();
        self.renew_with(shape);
    }

    /// Empties the playfield and puts a piece of the given shape, not
    /// rotated, at the spawn anchor.
    pub fn renew_with(&mut self, shape: Shape)
        requires
            old(self).wf(),
        ensures
            final(self).wf(),
            final(self)@ == old(self)@.renewed(shape),
    {
        self.blank_all();
        self.insert(Block::new(shape));
    }

    /// Puts `block` into play at the spawn anchor, in place of the piece in
    /// play. Nothing is checked: the new piece may cover locked cells.
    pub fn insert(&mut self, block: Block)
        requires
            old(self).wf(),
        ensures
            final(self).wf(),
            final(self)@ == old(self)@.entered(block),
    {
        proof {
            lemma_sides(self.width as int, self.height as int);
        }
        self.block = BlockWithPos::from(block, ((self.width / 2) as i32, 1));
    }

    /// A piece of a shape chosen at random, not rotated, at the spawn anchor
    /// of a playfield of the given width.
    pub fn insert_random(width: usize) -> (b: BlockWithPos)
        requires
            width <= MAX_CELLS,
        ensures
            cell_of(b.pos) == (Cell { x: width as int / 2, y: 1 }),
            b.block.rotation == Rotation::R0,
    {
        BlockWithPos::from(Block::default(), ((width / 2) as i32, 1))
    }

    /// Turns the piece in play a quarter turn, with the kick search. Where
    /// the search finds a place and `hit_bottom` is set, the piece then falls
    /// as far as it can. Returns whether the piece was turned; where it was
    /// not, nothing has changed.
    pub fn rotate(&mut self, hit_bottom: bool, clockwise: bool) -> (moved: bool)
        requires
            old(self).wf(),
        ensures
            final(self).wf(),
            moved == old(self)@.kick(old(self)@.piece.rotated(clockwise)) is Some,
            final(self)@ == old(self)@.spun(old(self)@.piece.rotated(clockwise), hit_bottom),
            moved ==> final(self)@.piece_fits(),
    {
        self.flip_rotate(hit_bottom, FlipRotate::Rotate { clockwise })
    }

    /// Turns the piece in play a half turn, with the kick search. Where the
    /// search finds a place and `hit_bottom` is set, the piece then falls as
    /// far as it can. Returns whether the piece was turned; where it was not,
    /// nothing has changed.
    pub fn flip_turn(&mut self, hit_bottom: bool) -> (moved: bool)
        requires
            old(self).wf(),
        ensures
            final(self).wf(),
            moved == old(self)@.kick(old(self)@.piece.flipped()) is Some,
            final(self)@ == old(self)@.spun(old(self)@.piece.flipped(), hit_bottom),
            moved ==> final(self)@.piece_fits(),
    {
        self.flip_rotate(hit_bottom, FlipRotate::FlipTurn)
    }

    /// Whether `block` fits at the anchor `pos`, and, where it does not, the
    /// anchor that the kick search tries next.
    pub fn probe(&self, block: Block, pos: Pos) -> (r: (bool, Pos))
        requires
            self.wf(),
            self@.near(cell_of(pos)),
        ensures
            r.0 == self@.fits(block, cell_of(pos)),
            !r.0 ==> cell_of(r.1) == self@.nudged(block, cell_of(pos)),
            r.0 ==> r.1 == pos,
    {
        proof {
            lemma_sides(self.width as int, self.height as int);
            lemma_offsets_in_reach(block);
        }
        let candidate = BlockWithPos::from(block, pos);
        let cells = candidate.cells();
        let ghost at = cell_of(pos);
        let ghost target = placed(block, at);
        assert(cells@.len() == 4) by {
            assert(cells_of(cells@).len() == candidate.covered().len());
        }
        let mut possible = true;
        let mut next = pos;
        let mut i: usize = 0;
        while i < 4 && possible
            invariant
                i <= 4,
                self.wf(),
                self.width == self@.width,
                self.height == self@.height,
                self@.width <= MAX_CELLS,
                self@.height <= MAX_CELLS,
                self@.near(at),
                at == cell_of(pos),
                cells@.len() == 4,
                cells_of(cells@) == target,
                target == placed(block, at),
                forall|k: int| 0 <= k < 4 ==> within_reach(#[trigger] block.offsets()[k]),
                possible ==> next == pos,
                possible ==> forall|k: int| 0 <= k < i ==> self@.free(#[trigger] target[k]),
                possible ==> self@.nudged(block, at) == self@.nudge_from(block, at, i as int),
                !possible ==> !self@.fits(block, at),
                !possible ==> cell_of(next) == self@.nudged(block, at),
            decreases (if possible { 1int } else { 0int }) + 4 - i,
        {
            let (x, y) = cells[i];
            assert(cell_of(cells@[i as int]) == cells_of(cells@)[i as int]);
            assert(within_reach(block.offsets()[i as int]));
            assert(target[i as int] == (Cell { x: x as int, y: y as int }));
            if x < 0 {
                next = (pos.0 + 1, pos.1);
                possible = false;
            } else if x >= self.width as i32 {
                next = (pos.0 - 1, pos.1);
                possible = false;
            } else if y < 0 {
                next = (pos.0, pos.1 + 1);
                possible = false;
            } else if y >= self.height as i32 {
                next = (pos.0, pos.1 - 1);
                possible = false;
            } else if self.is_occupied(x as usize, y as usize) {
                possible = false;
            } else {
                i += 1;
            }
            assert(!possible ==> !self@.free(target[i as int]));
        }
        (possible, next)
    }

    /// Replaces the piece in play by the turned piece at the first anchor
    /// that the kick search finds for it, and lets it fall as far as it can
    /// where `hit_bottom` is set. Where the search finds no anchor nothing
    /// changes and the result is `false`.
    fn flip_rotate(&mut self, hit_bottom: bool, flip_rotate: FlipRotate) -> (moved: bool)
        requires
            old(self).wf(),
        ensures
            final(self).wf(),
            moved == old(self)@.kick(flip_rotate.of(old(self)@.piece)) is Some,
            final(self)@ == old(self)@.spun(flip_rotate.of(old(self)@.piece), hit_bottom),
            moved ==> final(self)@.piece_fits(),
    {
        proof {
            lemma_sides(self.width as int, self.height as int);
            lemma_offsets_in_reach(self.block.block);
        }
        let next_block = match flip_rotate {
            FlipRotate::FlipTurn => self.block.block.flip_turn(),
            FlipRotate::Rotate { clockwise } => self.block.block.rotate(clockwise),
        };
        let starts = self.block.cells();
        assert(starts@.len() == 4) by {
            assert(cells_of(starts@).len() == self.block.covered().len());
        }
        let mut s: usize = 0;
        while s < 4
            invariant
                s <= 4,
                self.wf(),
                *self == *old(self),
                next_block == flip_rotate.of(self@.piece),
                starts@.len() == 4,
                cells_of(starts@) == placed(self@.piece, self@.at),
                self@.width <= MAX_CELLS,
                self@.height <= MAX_CELLS,
                forall|k: int| 0 <= k < 4 ==> within_reach(#[trigger] self@.piece.offsets()[k]),
                self@.kick(next_block) == self@.kick_from(next_block, s as int),
            decreases 4 - s,
        {
            let mut pos = starts[s];
            let ghost start = cell_of(pos);
            assert(start == cells_of(starts@)[s as int]);
            assert(within_reach(self@.piece.offsets()[s as int]));
            let mut t: usize = 0;
            while t < KICK_TRIES
                invariant
                    t <= KICK_TRIES,
                    self.wf(),
                    *self == *old(self),
                    self@.width <= MAX_CELLS,
                    self@.height <= MAX_CELLS,
                    next_block == flip_rotate.of(self@.piece),
                    -2 - t <= cell_of(pos).x <= self@.width + 1 + t,
                    -2 - t <= cell_of(pos).y <= self@.height + 1 + t,
                    self@.settle(next_block, start, KICK_TRIES as nat) == self@.settle(
                        next_block,
                        cell_of(pos),
                        (KICK_TRIES - t) as nat,
                    ),
                    self@.kick(next_block) == self@.kick_from(next_block, s as int),
                    start == placed(self@.piece, self@.at)[s as int],
                    s < 4,
                decreases KICK_TRIES - t,
            {
                let (possible, nudged) = self.probe(next_block, pos);
                if possible {
                    proof {
                        lemma_turned(self@, next_block);
                        lemma_run(self@.turned(next_block), LRD::Down, 0);
                        lemma_run(
                            self@.turned(next_block),
                            LRD::Down,
                            self@.turned(next_block).run(LRD::Down) as int,
                        );
                    }
                    self.block = BlockWithPos::from(next_block, pos);
                    if hit_bottom {
                        self.on_down(true, false);
                    }
                    return true;
                }
                proof {
                    lemma_nudge_from(self@, next_block, cell_of(pos), 0);
                }
                pos = nudged;
                t += 1;
            }
            s += 1;
        }
        false
    }

    /// Locks the piece in play and clears the full rows. Returns the number
    /// of rows cleared. The piece in play stays where it was: the caller puts
    /// the next piece into play.
    pub fn merge_block(&mut self) -> (cleared: usize)
        requires
            old(self).wf(),
            old(self)@.piece_inside(),
        ensures
            final(self).wf(),
            final(self)@ == old(self)@.merged(),
            cleared == old(self)@.locked().full_count(),
    {
        self.fill_board_with_block();
        self.remove_rows_if_possible()
    }

    /// Writes the colour of the piece in play into the cells that it covers.
    fn fill_board_with_block(&mut self)
        requires
            old(self).wf(),
            old(self)@.piece_inside(),
        ensures
            final(self).wf(),
            final(self)@ == old(self)@.locked(),
    {
        proof {
            lemma_sides(self.width as int, self.height as int);
        }
        let cells = self.block.cells();
        let color = self.block.color();
        let ghost target = placed(self@.piece, self@.at);
        assert(cells@.len() == 4) by {
            assert(cells_of(cells@).len() == self.block.covered().len());
        }
        let mut i: usize = 0;
        while i < 4
            invariant
                i <= 4,
                self.wf(),
                old(self)@.wf(),
                old(self)@.piece_inside(),
                cells@.len() == 4,
                cells_of(cells@) == target,
                target == placed(old(self)@.piece, old(self)@.at),
                color == old(self)@.piece.shape.color(),
                self@.width == old(self)@.width,
                self@.height == old(self)@.height,
                self@.background == old(self)@.background,
                self@.piece == old(self)@.piece,
                self@.at == old(self)@.at,
                forall|x: int, y: int|
                    0 <= x < self@.width && 0 <= y < self@.height ==> #[trigger] self@.rows[y][x]
                        == if exists|k: int| 0 <= k < i && #[trigger] target[k] == (Cell { x, y }) {
                        color
                    } else {
                        old(self)@.rows[y][x]
                    },
            decreases 4 - i,
        {
            let (x, y) = cells[i];
            assert(cell_of(cells@[i as int]) == cells_of(cells@)[i as int]);
            assert(old(self)@.inside(target[i as int]));
            let ghost before = self@;
            self.put(x as usize, y as usize, color);
            assert forall|cx: int, cy: int|
                0 <= cx < self@.width && 0 <= cy < self@.height implies #[trigger] self@.rows[cy][cx]
                == if exists|k: int| 0 <= k < i + 1 && #[trigger] target[k] == (Cell { x: cx, y: cy }) {
                color
            } else {
                old(self)@.rows[cy][cx]
            } by {
                let c = Cell { x: cx, y: cy };
                if cx == x && cy == y {
                    assert(target[i as int] == c);
                } else {
                    assert(self@.rows[cy][cx] == before.rows[cy][cx]);
                    if exists|k: int| 0 <= k < i + 1 && #[trigger] target[k] == c {
                        let k = choose|k: int| 0 <= k < i + 1 && #[trigger] target[k] == c;
                        assert(k < i);
                    }
                }
            }
            i += 1;
        }
        proof {
            let want = old(self)@.locked();
            assert forall|y: int| 0 <= y < self@.height implies #[trigger] self@.rows[y]
                =~= want.rows[y] by {
                assert forall|x: int| 0 <= x < self@.width implies self@.rows[y][x]
                    == want.rows[y][x] by {
                    let c = Cell { x, y };
                    if old(self)@.covers(c) {
                        let k = choose|k: int| 0 <= k < 4 && #[trigger] target[k] == c;
                        assert(0 <= k < i && target[k] == c);
                    }
                }
            }
            assert(self@.rows =~= want.rows);
        }
    }

    /// Whether every cell of row `y` holds a locked colour.
    fn row_is_full(&self, y: usize) -> (full: bool)
        requires
            self.wf(),
            y < self@.height,
        ensures
            full == self@.row_full(y as int),
    {
        let mut x: usize = 0;
        while x < self.width
            invariant
                self.wf(),
                y < self@.height,
                x <= self.width,
                self.width == self@.width,
                forall|k: int| 0 <= k < x ==> !self@.is_background(#[trigger] self@.rows[y as int][k]),
            decreases self.width - x,
        {
            if !self.is_occupied(x, y) {
                assert(self@.is_background(self@.rows[y as int][x as int]));
                return false;
            }
            x += 1;
        }
        true
    }

    /// Clears the full rows. Returns how many there were.
    fn remove_rows_if_possible(&mut self) -> (cleared: usize)
        requires
            old(self).wf(),
        ensures
            final(self).wf(),
            final(self)@ == old(self)@.cleared(),
            cleared == old(self)@.full_count(),
    {
        let mut rows_to_remove: Vec<usize> = Vec::new();
        let mut y: usize = self.height;
        while y > 0
            invariant
                self.wf(),
                *self == *old(self),
                y <= self.height,
                self.height == self@.height,
                rows_to_remove@.len() <= self.height - y,
                rows_as_ints(rows_to_remove@) + self@.full_below(y as int) == self@.full_below(
                    self@.height,
                ),
            decreases y,
        {
            y -= 1;
            let ghost before = rows_as_ints(rows_to_remove@);
            if self.row_is_full(y) {
                rows_to_remove.push(y);
                assert(rows_as_ints(rows_to_remove@) =~= before.push(y as int));
                assert(before.push(y as int) + self@.full_below(y as int) =~= before + (seq![
                    y as int,
                ] + self@.full_below(y as int)));
            }
        }
        assert(rows_as_ints(rows_to_remove@) =~= self@.full_below(self@.height));
        let score = rows_to_remove.len();
        self.remove_rows(rows_to_remove);
        score
    }

    /// Clears the rows listed in `rows_to_remove`, which are the full rows
    /// from the lowest one up: packs the other rows at the bottom and empties
    /// as many rows at the top.
    fn remove_rows(&mut self, rows_to_remove: Vec<usize>)
        requires
            old(self).wf(),
            rows_as_ints(rows_to_remove@) == old(self)@.full_below(old(self)@.height),
        ensures
            final(self).wf(),
            final(self)@ == old(self)@.cleared(),
    {
        let ghost start = self@;
        let ghost kept = start.kept_rows(start.height);
        let ghost gone = start.height - kept.len();
        proof {
            lemma_rows_split(start, start.height);
        }
        if rows_to_remove.is_empty() {
            proof {
                assert forall|y: int| 0 <= y < start.height implies #[trigger] start.cleared().rows[y]
                    == start.rows[y] by {
                    lemma_kept_all(start, start.height);
                }
                assert(start.cleared().rows =~= start.rows);
            }
            return ;
        }
        let mut fill_y = self.height;
        let mut check_y = self.height;
        let mut i: usize = 0;
        while i < rows_to_remove.len()
            invariant
                self.wf(),
                start.wf(),
                start == old(self)@,
                kept == start.kept_rows(start.height),
                gone == start.height - kept.len(),
                self.height == self@.height,
                self@.width == start.width,
                self@.height == start.height,
                self@.background == start.background,
                self@.piece == start.piece,
                self@.at == start.at,
                i <= rows_to_remove@.len(),
                check_y <= fill_y <= self.height,
                fill_y == check_y + i,
                fill_y - gone == start.kept_rows(check_y as int).len(),
                rows_as_ints(rows_to_remove@).skip(i as int) == start.full_below(check_y as int),
                forall|y: int| 0 <= y < fill_y ==> self@.rows[y] == start.rows[y],
                forall|y: int| fill_y <= y < start.height ==> self@.rows[y] == start.cleared().rows[y],
            decreases rows_to_remove@.len() - i,
        {
            let row = rows_to_remove[i];
            proof {
                lemma_rows_split(start, check_y as int);
                assert(rows_as_ints(rows_to_remove@).skip(i as int)[0] == row);
            }
            while check_y > row + 1
                invariant
                    self.wf(),
                    start.wf(),
                    kept == start.kept_rows(start.height),
                    gone == start.height - kept.len(),
                    self.height == self@.height,
                    self@.width == start.width,
                    self@.height == start.height,
                    self@.background == start.background,
                    self@.piece == start.piece,
                    self@.at == start.at,
                    i < rows_to_remove@.len(),
                    row == rows_to_remove@[i as int],
                    row < check_y <= fill_y <= self.height,
                    fill_y == check_y + i,
                    fill_y - gone == start.kept_rows(check_y as int).len(),
                    rows_as_ints(rows_to_remove@).skip(i as int) == start.full_below(
                        check_y as int,
                    ),
                    forall|y: int| 0 <= y < fill_y ==> self@.rows[y] == start.rows[y],
                    forall|y: int|
                        fill_y <= y < start.height ==> self@.rows[y] == start.cleared().rows[y],
                decreases check_y,
            {
                proof {
                    assert(start.full_below(check_y as int)[0] == row);
                    lemma_rows_split(start, check_y - 1);
                    lemma_kept_prefix(start, check_y as int, start.height);
                }
                fill_y -= 1;
                check_y -= 1;
                if fill_y != check_y {
                    self.set_background_row(check_y, fill_y);
                }
            }
            proof {
                assert(start.full_below(check_y as int)[0] == row);
                lemma_rows_split(start, check_y - 1);
                assert(start.row_full(check_y - 1));
                assert(start.full_below(check_y as int).skip(1) =~= start.full_below(
                    check_y - 1,
                ));
                assert(rows_as_ints(rows_to_remove@).skip(i as int).skip(1) =~= rows_as_ints(
                    rows_to_remove@,
                ).skip(i + 1));
            }
            check_y = row;
            i += 1;
        }
        assert(start.full_below(check_y as int).len() == 0);
        while check_y > 0
            invariant
                self.wf(),
                start.wf(),
                kept == start.kept_rows(start.height),
                gone == start.height - kept.len(),
                self.height == self@.height,
                self@.width == start.width,
                self@.height == start.height,
                self@.background == start.background,
                self@.piece == start.piece,
                self@.at == start.at,
                check_y < fill_y <= self.height,
                fill_y - gone == start.kept_rows(check_y as int).len(),
                start.full_below(check_y as int).len() == 0,
                forall|y: int| 0 <= y < fill_y ==> self@.rows[y] == start.rows[y],
                forall|y: int| fill_y <= y < start.height ==> self@.rows[y] == start.cleared().rows[y],
            decreases check_y,
        {
            proof {
                lemma_kept_prefix(start, check_y as int, start.height);
            }
            fill_y -= 1;
            check_y -= 1;
            self.set_background_row(check_y, fill_y);
        }
        while fill_y > 0
            invariant
                self.wf(),
                start.wf(),
                kept == start.kept_rows(start.height),
                gone == start.height - kept.len(),
                self.height == self@.height,
                self@.width == start.width,
                self@.height == start.height,
                self@.background == start.background,
                self@.piece == start.piece,
                self@.at == start.at,
                fill_y <= gone,
                fill_y <= self.height,
                forall|y: int| fill_y <= y < start.height ==> self@.rows[y] == start.cleared().rows[y],
            decreases fill_y,
        {
            fill_y -= 1;
            self.blank_row(fill_y);
        }
        assert(self@.rows =~= start.cleared().rows);
    }

    /// Writes row `from` into row `to` as it stands there once the rows have
    /// been packed: the locked cells as they are, every other cell in the
    /// background colour of its new place.
    fn set_background_row(&mut self, from: usize, to: usize)
        requires
            old(self).wf(),
            from < old(self)@.height,
            to < old(self)@.height,
            from != to,
        ensures
            final(self).wf(),
            final(self)@ == (GridView {
                rows: old(self)@.rows.update(
                    to as int,
                    old(self)@.carried_row(from as int, to as int),
                ),
                ..old(self)@
            }),
    {
        let mut w: usize = 0;
        while w < self.width
            invariant
                self.wf(),
                old(self)@.wf(),
                w <= self.width,
                self.width == self@.width,
                from < self@.height,
                to < self@.height,
                from != to,
                self@.width == old(self)@.width,
                self@.height == old(self)@.height,
                self@.background == old(self)@.background,
                self@.piece == old(self)@.piece,
                self@.at == old(self)@.at,
                forall|z: int| 0 <= z < self@.height && z != to ==> self@.rows[z] == old(self)@.rows[z],
                forall|k: int|
                    0 <= k < w ==> self@.rows[to as int][k] == old(self)@.carried_row(
                        from as int,
                        to as int,
                    )[k],
            decreases self.width - w,
        {
            if self.is_occupied(w, from) {
                let color = self.color_at(w, from);
                self.put(w, to, color);
            } else {
                self.set_background(w, to);
            }
            w += 1;
        }
        assert(self@.rows[to as int] =~= old(self)@.carried_row(from as int, to as int));
        assert(self@.rows =~= old(self)@.rows.update(
            to as int,
            old(self)@.carried_row(from as int, to as int),
        ));
    }

    /// Whether the piece in play lies on the playfield.
    pub fn piece_is_inside(&self) -> (inside: bool)
        requires
            self.wf(),
        ensures
            inside == self@.piece_inside(),
    {
        proof {
            lemma_sides(self.width as int, self.height as int);
        }
        let cells = self.block.cells();
        let ghost target = placed(self@.piece, self@.at);
        assert(cells@.len() == 4) by {
            assert(cells_of(cells@).len() == self.block.covered().len());
        }
        let mut i: usize = 0;
        while i < 4
            invariant
                i <= 4,
                self.wf(),
                self.width == self@.width,
                self.height == self@.height,
                self@.width <= MAX_CELLS,
                self@.height <= MAX_CELLS,
                cells@.len() == 4,
                cells_of(cells@) == target,
                target == placed(self@.piece, self@.at),
                forall|k: int| 0 <= k < i ==> self@.inside(#[trigger] target[k]),
            decreases 4 - i,
        {
            let (x, y) = cells[i];
            assert(cell_of(cells@[i as int]) == cells_of(cells@)[i as int]);
            if x < 0 || x >= self.width as i32 || y < 0 || y >= self.height as i32 {
                assert(!self@.inside(target[i as int]));
                return false;
            }
            i += 1;
        }
        true
    }

    /// Whether the piece in play covers no locked cell or stands where it
    /// entered.
    pub fn piece_is_clear(&self) -> (clear: bool)
        requires
            self.wf(),
        ensures
            clear == self@.piece_clear(),
    {
        proof {
            lemma_sides(self.width as int, self.height as int);
        }
        let (fits, _next) = self.probe(self.block.block, self.block.pos);
        fits || (self.block.pos.0 == (self.width / 2) as i32 && self.block.pos.1 == 1)
    }

    /// The piece in play where it would land: as far below its place as it
    /// can fall.
    pub fn hint(&self) -> (b: BlockWithPos)
        requires
            self.wf(),
        ensures
            b.block == self@.piece,
            cell_of(b.pos) == self@.dropped().at,
    {
        let mut landing = self.block;
        let mut falling = true;
        proof {
            lemma_run(self@, LRD::Down, 0);
            lemma_sides(self.width as int, self.height as int);
        }
        while falling
            invariant
                self.wf(),
                self@.width <= MAX_CELLS,
                self@.height <= MAX_CELLS,
                landing.block == self@.piece,
                0 <= self@.anchored(cell_of(landing.pos)).run(LRD::Down) <= self@.run(LRD::Down),
                self@.anchored(cell_of(landing.pos)) == self@.shifted(
                    LRD::Down,
                    self@.run(LRD::Down) - self@.anchored(cell_of(landing.pos)).run(LRD::Down),
                ),
                self@.anchored(cell_of(landing.pos)).wf(),
                !falling ==> self@.anchored(cell_of(landing.pos)).run(LRD::Down) == 0,
            decreases (if falling { 1int } else { 0int }) + self@.anchored(
                cell_of(landing.pos),
            ).run(LRD::Down),
        {
            let ghost here = self@.anchored(cell_of(landing.pos));
            let (can_move, _stop) = self.can_move(&landing, LRD::Down);
            if can_move {
                proof {
                    let n = self@.run(LRD::Down) - here.run(LRD::Down);
                    lemma_run(here, LRD::Down, 1);
                    lemma_shifted_steps(self@, LRD::Down, n, 1);
                }
                landing = BlockWithPos::from(landing.block, (landing.pos.0, landing.pos.1 + 1));
            } else {
                falling = false;
            }
        }
        landing
    }

    /// Whether the piece `block` can take one step in the direction `lrd`,
    /// and whether it is stopped: it is where the step is refused, and where
    /// after the step some cell of it stands on the floor or on a locked cell.
    pub fn can_move(&self, block: &BlockWithPos, lrd: LRD) -> (r: (bool, bool))
        requires
            self.wf(),
            self@.near(cell_of(block.pos)),
        ensures
            r.0 == self@.fits(block.block, step_from(cell_of(block.pos), lrd)),
            r.1 == (!r.0 || self@.rests(block.block, step_from(cell_of(block.pos), lrd))),
    {
        proof {
            lemma_sides(self.width as int, self.height as int);
            lemma_offsets_in_reach(block.block);
        }
        let delta = lrd.delta();
        let cells = block.cells();
        let ghost to = step_from(cell_of(block.pos), lrd);
        let ghost target = placed(block.block, to);
        assert(cells@.len() == 4) by {
            assert(cells_of(cells@).len() == block.covered().len());
        }
        let mut moved = true;
        let mut stop = false;
        let mut i: usize = 0;
        while i < 4 && moved
            invariant
                i <= 4,
                self.wf(),
                self.width == self@.width,
                self.height == self@.height,
                self@.width <= MAX_CELLS,
                self@.height <= MAX_CELLS,
                self@.near(cell_of(block.pos)),
                cells@.len() == 4,
                cells_of(cells@) == block.covered(),
                cell_of(delta) == lrd.step(),
                to == step_from(cell_of(block.pos), lrd),
                target == placed(block.block, to),
                forall|k: int| 0 <= k < 4 ==> within_reach(#[trigger] block.block.offsets()[k]),
                moved ==> forall|k: int| 0 <= k < i ==> self@.free(#[trigger] target[k]),
                moved ==> (stop <==> exists|k: int|
                    0 <= k < i && self@.blocked_below(#[trigger] target[k])),
                !moved ==> stop && !self@.fits(block.block, to),
            decreases (if moved { 1int } else { 0int }) + 4 - i,
        {
            let (x, y) = cells[i];
            assert(cell_of(cells@[i as int]) == cells_of(cells@)[i as int]);
            assert(within_reach(block.block.offsets()[i as int]));
            let next_x = x + delta.0;
            let next_y = y + delta.1;
            assert(target[i as int] == (Cell { x: next_x as int, y: next_y as int }));
            if next_x < 0 || next_x >= self.width as i32 || next_y < 0 || next_y
                >= self.height as i32 || self.is_occupied(next_x as usize, next_y as usize) {
                moved = false;
                stop = true;
                assert(!self@.free(target[i as int]));
            } else {
                let ghost before = stop;
                if next_y + 1 == self.height as i32 || self.is_occupied(
                    next_x as usize,
                    next_y as usize + 1,
                ) {
                    stop = true;
                }
                assert(stop == (before || self@.blocked_below(target[i as int])));
                i += 1;
            }
        }
        (moved, stop)
    }

    /// The piece in play one step further in the direction `lrd`, if it fits
    /// there, and whether it is stopped (see `can_move`).
    pub fn move_block_lrd(&self, lrd: LRD) -> (r: (Option<BlockWithPos>, bool))
        requires
            self.wf(),
        ensures
            match r.0 {
                Some(b) => {
                    &&& self@.fits(self@.piece, self@.shifted(lrd, 1).at)
                    &&& b.block == self@.piece
                    &&& cell_of(b.pos) == self@.shifted(lrd, 1).at
                },
                None => !self@.fits(self@.piece, self@.shifted(lrd, 1).at),
            },
            r.1 == (r.0 is None || self@.rests(self@.piece, self@.shifted(lrd, 1).at)),
    {
        proof {
            lemma_sides(self.width as int, self.height as int);
        }
        let (can_move, stop) = self.can_move(&self.block, lrd);
        if !can_move {
            return (None, stop);
        }
        let delta = lrd.delta();
        let x = self.block.pos.0 + delta.0;
        let y = self.block.pos.1 + delta.1;
        let bwp = BlockWithPos::from(self.block.block, (x, y));
        (Some(bwp), stop)
    }

    /// Moves the piece in play one step in the direction `lrd` if it fits
    /// there. Returns whether it moved, and whether it is stopped: it is where
    /// it did not move, and where it now stands on the floor or on a locked
    /// cell.
    pub fn try_move(&mut self, lrd: LRD) -> (r: (bool, bool))
        requires
            old(self).wf(),
        ensures
            final(self).wf(),
            r.0 == (old(self)@.run(lrd) > 0),
            final(self)@ == old(self)@.slid(lrd, false),
            r.1 == (!r.0 || final(self)@.rests(final(self)@.piece, final(self)@.at)),
    {
        proof {
            lemma_run(self@, lrd, 0);
            if self@.run(lrd) > 0 {
                lemma_run(self@, lrd, 1);
            }
        }
        let (block, stop) = self.move_block_lrd(lrd);
        match block {
            Some(b) => {
                self.block = b;
                (true, stop)
            },
            None => (false, stop),
        }
    }

    /// Moves the piece in play sideways: one step if it fits there, or, where
    /// `is_hard` is set, step by step until the next step is refused. Where
    /// `hit_bottom` is set, the piece then falls as far as it can. Returns
    /// whether the piece moved sideways.
    pub fn handle_lr(&mut self, lr: LR, hit_bottom: bool, is_hard: bool) -> (moved: bool)
        requires
            old(self).wf(),
        ensures
            final(self).wf(),
            moved == (old(self)@.run(side(lr)) > 0),
            final(self)@ == old(self)@.slid(side(lr), is_hard).settled(hit_bottom),
    {
        let lrd = lr.to_lrd();
        let mut stopped = false;
        let mut moved = false;
        proof {
            lemma_run(self@, lrd, 0);
        }
        while !stopped
            invariant
                self.wf(),
                lrd == side(lr),
                old(self)@.wf(),
                0 <= self@.run(lrd) <= old(self)@.run(lrd),
                self@ == old(self)@.shifted(lrd, old(self)@.run(lrd) - self@.run(lrd)),
                moved == (self@.run(lrd) < old(self)@.run(lrd)),
                is_hard && stopped ==> self@.run(lrd) == 0,
                !is_hard && stopped ==> self@ == old(self)@.slid(lrd, false),
                !is_hard && !stopped ==> !moved,
            decreases (if stopped { 0int } else { 1int }) + self@.run(lrd),
        {
            let ghost before = self@;
            let (step, _stop) = self.try_move(lrd);
            proof {
                let n = old(self)@.run(lrd) - before.run(lrd);
                lemma_run(old(self)@, lrd, n);
                if step {
                    lemma_run(before, lrd, 1);
                    lemma_shifted_steps(old(self)@, lrd, n, 1);
                }
            }
            if step {
                moved = true;
            }
            stopped = !step || !is_hard;
        }
        if hit_bottom {
            self.on_down(true, false);
        }
        moved
    }

    /// Lets the piece in play fall: one row if it can, or, where `is_drop` is
    /// set, as far as it can. Returns whether the game is over and whether
    /// the piece is resting. Where the piece cannot fall at all the result is
    /// `(is_begin, true)`: a piece that has just entered and cannot fall ends
    /// the game. Otherwise the game is not over, and the piece is resting
    /// where it can fall no further.
    pub fn on_down(&mut self, is_drop: bool, is_begin: bool) -> (r: (bool, bool))
        requires
            old(self).wf(),
        ensures
            final(self).wf(),
            final(self)@ == old(self)@.slid(LRD::Down, is_drop),
            r.0 == (is_begin && old(self)@.run(LRD::Down) == 0),
            r.1 == (is_drop || old(self)@.run(LRD::Down) <= 1),
    {
        let mut stopped = false;
        let mut hit_bottom = is_drop;
        proof {
            lemma_run(self@, LRD::Down, 0);
        }
        while !stopped
            invariant
                self.wf(),
                old(self)@.wf(),
                0 <= self@.run(LRD::Down) <= old(self)@.run(LRD::Down),
                self@ == old(self)@.shifted(
                    LRD::Down,
                    old(self)@.run(LRD::Down) - self@.run(LRD::Down),
                ),
                !stopped && self@.run(LRD::Down) < old(self)@.run(LRD::Down) ==> self@.run(
                    LRD::Down,
                ) > 0,
                !stopped && !is_drop ==> self@.run(LRD::Down) == old(self)@.run(LRD::Down),
                stopped ==> self@ == old(self)@.slid(LRD::Down, is_drop),
                stopped ==> old(self)@.run(LRD::Down) > 0,
                stopped ==> hit_bottom == (is_drop || old(self)@.run(LRD::Down) <= 1),
            decreases (if stopped { 0int } else { 1int }) + self@.run(LRD::Down),
        {
            let ghost before = self@;
            let (current, stop) = self.move_block_lrd(LRD::Down);
            hit_bottom = stop;
            match current {
                Some(b) => {
                    self.block = b;
                },
                None => {
                    return (is_begin, true);
                },
            }
            proof {
                let n = old(self)@.run(LRD::Down) - before.run(LRD::Down);
                lemma_run(old(self)@, LRD::Down, n);
                lemma_run(before, LRD::Down, 1);
                lemma_shifted_steps(old(self)@, LRD::Down, n, 1);
                lemma_fits_anchor(before, before.piece, self@.at);
                lemma_rests_iff_blocked(self@, self@.piece, self@.at);
            }
            stopped = hit_bottom || !is_drop;
        }
        (false, hit_bottom)
    }
}

impl FlipRotate {
    /// The piece that this turn makes of `block`.
    pub open spec fn of(self, block: Block) -> Block {
        match self {
            FlipRotate::FlipTurn => block.flipped(),
            FlipRotate::Rotate { clockwise } => block.rotated(clockwise),
        }
    }
}

/// A list of row numbers as a list of integers.
pub open spec fn rows_as_ints(rows: Seq<usize>) -> Seq<int> {
    Seq::new(rows.len(), |i: int| rows[i] as int)
}

/// Where no row among the first `n` is full, all of them are kept.
proof fn lemma_kept_all(g: GridView, n: int)
    requires
        0 <= n,
        g.full_below(n).len() == 0,
    ensures
        g.kept_rows(n).len() == n,
        forall|y: int| 0 <= y < n ==> #[trigger] g.kept_rows(n)[y] == y,
    decreases n,
{
    if n > 0 {
        lemma_kept_all(g, n - 1);
    }
}

/// The position one step from `at` in the direction `lrd`.
pub open spec fn step_from(at: Cell, lrd: LRD) -> Cell {
    at.offset(lrd.step().x, lrd.step().y)
}

/// The direction of movement that a horizontal direction stands for.
pub open spec fn side(lr: LR) -> LRD {
    match lr {
        LR::Left => LRD::Left,
        LR::Right => LRD::Right,
    }
}

} // verus!
