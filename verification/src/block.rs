use vstd::prelude::*;
use vstd::multiset::{group_multiset_properties, lemma_multiset_empty_len, Multiset};
use vstd::seq_lib::group_to_multiset_ensures;
use crate::pos::{Cell, Pos, cell_of, cells_of};
use crate::shuffle::shuffle;

verus! {

/// The seven tetromino shapes.
#[derive(Clone, Copy, Debug, PartialEq, Eq, Structural)]
pub enum Shape {
    I,
    O,
    T,
    S,
    Z,
    J,
    L,
}

/// A colour identity: one per shape, two for the checkerboard background, one
/// for the landing preview and one for warnings.
#[derive(Clone, Copy, Debug, PartialEq, Eq, Structural)]
pub enum BColor {
    I,
    O,
    T,
    S,
    Z,
    J,
    L,
    GRID1,
    GRID2,
    HINT,
    WARNING,
}

/// The four orientations of a piece.
#[derive(Clone, Copy, Debug, PartialEq, Eq, Structural)]
pub enum Rotation {
    R0,
    R90,
    R180,
    R270,
}

/// A piece: a shape in an orientation.
#[derive(Clone, Copy, Debug, PartialEq, Eq, Structural)]
pub struct Block {
    pub shape: Shape,
    pub rotation: Rotation,
}

/// A piece anchored at a position of the playfield.
#[derive(Clone, Copy, Debug)]
pub struct BlockWithPos {
    pub block: Block,
    pub pos: Pos,
}

/// The largest distance, in either axis, between a piece's anchor and one of
/// its cells.
pub const REACH: i32 = 2;

impl Rotation {
    /// The orientation one quarter turn clockwise from this one.
    pub open spec fn next(self) -> Rotation {
        match self {
            Rotation::R0 => Rotation::R90,
            Rotation::R90 => Rotation::R180,
            Rotation::R180 => Rotation::R270,
            Rotation::R270 => Rotation::R0,
        }
    }

    /// The orientation one quarter turn counter-clockwise from this one.
    pub open spec fn prev(self) -> Rotation {
        match self {
            Rotation::R0 => Rotation::R270,
            Rotation::R90 => Rotation::R0,
            Rotation::R180 => Rotation::R90,
            Rotation::R270 => Rotation::R180,
        }
    }

    /// Where this orientation takes an offset of the unrotated shape:
    /// `(x, y)` goes to `(x, y)`, `(-y, x)`, `(-x, -y)` and `(y, -x)` for
    /// zero, one, two and three quarter turns.
    pub open spec fn turn(self, c: Cell) -> Cell {
        match self {
            Rotation::R0 => c,
            Rotation::R90 => Cell { x: -c.y, y: c.x },
            Rotation::R180 => Cell { x: -c.x, y: -c.y },
            Rotation::R270 => Cell { x: c.y, y: -c.x },
        }
    }

    /// The opposite orientation.
    pub fn flip_turn(&self) -> (r: Rotation)
        ensures
            r == self.next().next(),
    {
        match self {
            Rotation::R0 => Rotation::R180,
            Rotation::R90 => Rotation::R270,
            Rotation::R180 => Rotation::R0,
            Rotation::R270 => Rotation::R90,
        }
    }

    /// The orientation one quarter turn clockwise from this one.
    pub fn clockwise(&self) -> (r: Rotation)
        ensures
            r == self.next(),
    {
        match self {
            Rotation::R0 => Rotation::R90,
            Rotation::R90 => Rotation::R180,
            Rotation::R180 => Rotation::R270,
            Rotation::R270 => Rotation::R0,
        }
    }

    /// The orientation one quarter turn counter-clockwise from this one.
    pub fn counter_clockwise(&self) -> (r: Rotation)
        ensures
            r == self.prev(),
    {
        match self {
            Rotation::R0 => Rotation::R270,
            Rotation::R90 => Rotation::R0,
            Rotation::R180 => Rotation::R90,
            Rotation::R270 => Rotation::R180,
        }
    }
}

impl Shape {
    /// The four offsets of the unrotated shape from its anchor. The first one
    /// is the anchor itself.
    pub open spec fn base_cells(self) -> Seq<Cell> {
        match self {
            Shape::I => seq![
                Cell { x: 0, y: 0 },
                Cell { x: -2, y: 0 },
                Cell { x: -1, y: 0 },
                Cell { x: 1, y: 0 },
            ],
            Shape::O => seq![
                Cell { x: 0, y: 0 },
                Cell { x: -1, y: -1 },
                Cell { x: 0, y: -1 },
                Cell { x: -1, y: 0 },
            ],
            Shape::T => seq![
                Cell { x: 0, y: 0 },
                Cell { x: -1, y: 0 },
                Cell { x: 0, y: -1 },
                Cell { x: 1, y: 0 },
            ],
            Shape::S => seq![
                Cell { x: 0, y: 0 },
                Cell { x: -1, y: 0 },
                Cell { x: 0, y: -1 },
                Cell { x: 1, y: -1 },
            ],
            Shape::Z => seq![
                Cell { x: 0, y: 0 },
                Cell { x: 1, y: 0 },
                Cell { x: 0, y: -1 },
                Cell { x: -1, y: -1 },
            ],
            Shape::J => seq![
                Cell { x: 0, y: 0 },
                Cell { x: -1, y: -1 },
                Cell { x: -1, y: 0 },
                Cell { x: 1, y: 0 },
            ],
            Shape::L => seq![
                Cell { x: 0, y: 0 },
                Cell { x: -1, y: 0 },
                Cell { x: 1, y: 0 },
                Cell { x: 1, y: -1 },
            ],
        }
    }

    /// The colour identity of this shape.
    pub open spec fn color(self) -> BColor {
        match self {
            Shape::I => BColor::I,
            Shape::O => BColor::O,
            Shape::T => BColor::T,
            Shape::S => BColor::S,
            Shape::Z => BColor::Z,
            Shape::J => BColor::J,
            Shape::L => BColor::L,
        }
    }

    /// The colour identity of this shape.
    pub fn to_color(&self) -> (c: BColor)
        ensures
            c == self.color(),
    {
        match self {
            Shape::I => BColor::I,
            Shape::O => BColor::O,
            Shape::T => BColor::T,
            Shape::S => BColor::S,
            Shape::Z => BColor::Z,
            Shape::J => BColor::J,
            Shape::L => BColor::L,
        }
    }

    /// The seven shapes in a random order.
    pub fn all() -> (shapes: Vec<Shape>)
        ensures
            is_full_bag(shapes@),
    {
        let mut shapes = vec![
            Shape::I,
            Shape::O,
            Shape::T,
            Shape::S,
            Shape::Z,
            Shape::J,
            Shape::L,
        ];
        assert(shapes@ =~= all_shapes());
        shuffle(&mut shapes);
        shapes
    }

    /// A shape chosen at random: the last one of a freshly shuffled set.
    pub fn random() -> (shape: Shape)
        ensures
            exists|bag: Seq<Shape>| #[trigger] is_full_bag(bag) && shape == bag.last(),
    {
        let mut shapes = Self::all();
        let ghost bag = shapes@;
        proof {
            lemma_full_bag(bag);
        }
        let shape = last_of_bag(&mut shapes);
        assert(is_full_bag(bag) && shape == bag.last());
        shape
    }

    /// The four offsets of the unrotated shape from its anchor.
    pub fn cells(&self) -> (v: Vec<Pos>)
        ensures
            cells_of(v@) == self.base_cells(),
    {
        let v: Vec<Pos> = match self {
            Shape::I => vec![(0, 0), (-2, 0), (-1, 0), (1, 0)],
            Shape::O => vec![(0, 0), (-1, -1), (0, -1), (-1, 0)],
            Shape::T => vec![(0, 0), (-1, 0), (0, -1), (1, 0)],
            Shape::S => vec![(0, 0), (-1, 0), (0, -1), (1, -1)],
            Shape::Z => vec![(0, 0), (1, 0), (0, -1), (-1, -1)],
            Shape::J => vec![(0, 0), (-1, -1), (-1, 0), (1, 0)],
            Shape::L => vec![(0, 0), (-1, 0), (1, 0), (1, -1)],
        };
        assert(cells_of(v@) =~= self.base_cells());
        v
    }
}

impl Default for Block {
    /// A piece of a shape chosen at random, not rotated.
    fn default() -> (b: Block)
        ensures
            b.rotation == Rotation::R0,
    {
        Self { shape: Shape::random(), rotation: Rotation::R0 }
    }
}

impl Block {
    /// The four offsets of this piece from its anchor, in a fixed order: those
    /// of its shape, each turned by its orientation.
    pub open spec fn offsets(self) -> Seq<Cell> {
        Seq::new(4, |i: int| self.rotation.turn(self.shape.base_cells()[i]))
    }

    /// This piece after a quarter turn. The square is left as it is.
    pub open spec fn rotated(self, clockwise: bool) -> Block {
        if self.shape == Shape::O {
            self
        } else if clockwise {
            Block { shape: self.shape, rotation: self.rotation.next() }
        } else {
            Block { shape: self.shape, rotation: self.rotation.prev() }
        }
    }

    /// This piece after a half turn. The square is left as it is.
    pub open spec fn flipped(self) -> Block {
        if self.shape == Shape::O {
            self
        } else {
            Block { shape: self.shape, rotation: self.rotation.next().next() }
        }
    }

    /// A piece of the given shape, not rotated.
    pub fn new(shape: Shape) -> (b: Block)
        ensures
            b == (Block { shape, rotation: Rotation::R0 }),
    {
        Self { shape, rotation: Rotation::R0 }
    }

    /// The four offsets of this piece from its anchor.
    pub fn cells(&self) -> (v: Vec<Pos>)
        ensures
            cells_of(v@) == self.offsets(),
    {
        let base = self.shape.cells();
        assert(base@.len() == 4) by {
            assert(cells_of(base@).len() == self.shape.base_cells().len());
        }
        let mut v: Vec<Pos> = Vec::new();
        let mut i: usize = 0;
        while i < 4
            invariant
                i <= 4,
                base@.len() == 4,
                cells_of(base@) == self.shape.base_cells(),
                v@.len() == i,
                forall|k: int| 0 <= k < i ==> cell_of(#[trigger] v@[k]) == self.offsets()[k],
            decreases 4 - i,
        {
            let (x, y) = base[i];
            assert(cell_of(base@[i as int]) == cells_of(base@)[i as int]);
            assert(-2 <= x <= 2 && -2 <= y <= 2);
            let p: Pos = match self.rotation {
                Rotation::R0 => (x, y),
                Rotation::R90 => (-y, x),
                Rotation::R180 => (-x, -y),
                Rotation::R270 => (y, -x),
            };
            v.push(p);
            i += 1;
        }
        assert(cells_of(v@) =~= self.offsets());
        v
    }

    /// This piece after a half turn.
    pub fn flip_turn(&self) -> (b: Block)
        ensures
            b == self.flipped(),
    {
        match self.shape {
            Shape::O => *self,
            _ => Block { shape: self.shape, rotation: self.rotation.flip_turn() },
        }
    }

    /// This piece after a quarter turn in the given direction.
    pub fn rotate(&self, clockwise: bool) -> (b: Block)
        ensures
            b == self.rotated(clockwise),
    {
        match self.shape {
            Shape::O => *self,
            _ => Block {
                shape: self.shape,
                rotation: if clockwise {
                    self.rotation.clockwise()
                } else {
                    self.rotation.counter_clockwise()
                },
            },
        }
    }

    /// The colour identity of this piece: that of its shape.
    pub fn color(&self) -> (c: BColor)
        ensures
            c == self.shape.color(),
    {
        self.shape.to_color()
    }
}

impl BlockWithPos {
    /// Whether the anchor is far enough from the limits of `i32` for every
    /// cell of the piece to have coordinates in `i32`.
    pub open spec fn in_range(self) -> bool {
        &&& i32::MIN + REACH <= self.pos.0 <= i32::MAX - REACH
        &&& i32::MIN + REACH <= self.pos.1 <= i32::MAX - REACH
    }

    /// The four cells that this piece covers: its offsets moved by its anchor.
    pub open spec fn covered(self) -> Seq<Cell> {
        placed(self.block, cell_of(self.pos))
    }

    /// The piece `block` anchored at `pos`.
    pub fn from(block: Block, pos: Pos) -> (p: BlockWithPos)
        ensures
            p == (BlockWithPos { block, pos }),
    {
        BlockWithPos { block, pos }
    }

    /// The four cells that this piece covers.
    pub fn cells(&self) -> (v: Vec<Pos>)
        requires
            self.in_range(),
        ensures
            cells_of(v@) == self.covered(),
    {
        let offsets = self.block.cells();
        proof {
            lemma_offsets_in_reach(self.block);
            assert(offsets@.len() == 4) by {
                assert(cells_of(offsets@).len() == self.block.offsets().len());
            }
        }
        let mut v: Vec<Pos> = Vec::new();
        let mut i: usize = 0;
        while i < 4
            invariant
                i <= 4,
                self.in_range(),
                offsets@.len() == 4,
                cells_of(offsets@) == self.block.offsets(),
                forall|k: int| 0 <= k < 4 ==> within_reach(#[trigger] self.block.offsets()[k]),
                v@.len() == i,
                forall|k: int| 0 <= k < i ==> cell_of(#[trigger] v@[k]) == self.covered()[k],
            decreases 4 - i,
        {
            let (x, y) = offsets[i];
            assert(cell_of(offsets@[i as int]) == cells_of(offsets@)[i as int]);
            assert(within_reach(self.block.offsets()[i as int]));
            v.push((x + self.pos.0, y + self.pos.1));
            i += 1;
        }
        assert(cells_of(v@) =~= self.covered());
        v
    }

    /// This piece after a half turn about its anchor.
    pub fn flip_turn(&self) -> (p: BlockWithPos)
        ensures
            p == (BlockWithPos { block: self.block.flipped(), pos: self.pos }),
    {
        Self { block: self.block.flip_turn(), pos: self.pos }
    }

    /// This piece after a quarter turn about its anchor.
    pub fn rotate(&self, clockwise: bool) -> (p: BlockWithPos)
        ensures
            p == (BlockWithPos { block: self.block.rotated(clockwise), pos: self.pos }),
    {
        Self { block: self.block.rotate(clockwise), pos: self.pos }
    }

    /// The colour identity of this piece.
    pub fn color(&self) -> (c: BColor)
        ensures
            c == self.block.shape.color(),
    {
        self.block.color()
    }
}

/// The seven shapes, each once, in their order of declaration.
pub open spec fn all_shapes() -> Seq<Shape> {
    seq![Shape::I, Shape::O, Shape::T, Shape::S, Shape::Z, Shape::J, Shape::L]
}

/// Whether `shapes` holds each of the seven shapes exactly once, in any order.
pub open spec fn is_full_bag(shapes: Seq<Shape>) -> bool {
    shapes.to_multiset() == all_shapes().to_multiset()
}

/// Whether `shapes` holds no shape twice.
pub open spec fn is_partial_bag(shapes: Seq<Shape>) -> bool {
    shapes.no_duplicates()
}

/// Takes the last shape out of a bag that is not empty.
pub fn last_of_bag(bag: &mut Vec<Shape>) -> (shape: Shape)
    requires
        old(bag)@.len() > 0,
    ensures
        shape == old(bag)@.last(),
        final(bag)@ == old(bag)@.drop_last(),
{
    bag.pop().unwrap()
}

/// The list of all shapes has seven entries and holds each shape once.
pub proof fn lemma_all_shapes()
    ensures
        all_shapes().len() == 7,
        forall|s: Shape| all_shapes().to_multiset().count(s) == 1,
{
    broadcast use {group_to_multiset_ensures, group_multiset_properties};

    let s0 = Seq::<Shape>::empty();
    let s1 = s0.push(Shape::I);
    let s2 = s1.push(Shape::O);
    let s3 = s2.push(Shape::T);
    let s4 = s3.push(Shape::S);
    let s5 = s4.push(Shape::Z);
    let s6 = s5.push(Shape::J);
    let s7 = s6.push(Shape::L);
    assert(all_shapes() =~= s7);
    assert(s0.to_multiset() =~= Multiset::empty()) by {
        lemma_multiset_empty_len(s0.to_multiset());
    }
    assert(s1.to_multiset() =~= s0.to_multiset().insert(Shape::I));
    assert(s2.to_multiset() =~= s1.to_multiset().insert(Shape::O));
    assert(s3.to_multiset() =~= s2.to_multiset().insert(Shape::T));
    assert(s4.to_multiset() =~= s3.to_multiset().insert(Shape::S));
    assert(s5.to_multiset() =~= s4.to_multiset().insert(Shape::Z));
    assert(s6.to_multiset() =~= s5.to_multiset().insert(Shape::J));
    assert(s7.to_multiset() =~= s6.to_multiset().insert(Shape::L));
    assert forall|s: Shape| all_shapes().to_multiset().count(s) == 1 by {
        assert(s0.to_multiset().count(s) == 0);
        assert(s1.to_multiset().count(s) == if s == Shape::I { 1nat } else { 0 });
        assert(s2.to_multiset().count(s) == s1.to_multiset().count(s) + if s == Shape::O { 1nat } else { 0 });
        assert(s3.to_multiset().count(s) == s2.to_multiset().count(s) + if s == Shape::T { 1nat } else { 0 });
        assert(s4.to_multiset().count(s) == s3.to_multiset().count(s) + if s == Shape::S { 1nat } else { 0 });
        assert(s5.to_multiset().count(s) == s4.to_multiset().count(s) + if s == Shape::Z { 1nat } else { 0 });
        assert(s6.to_multiset().count(s) == s5.to_multiset().count(s) + if s == Shape::J { 1nat } else { 0 });
        assert(s7.to_multiset().count(s) == s6.to_multiset().count(s) + if s == Shape::L { 1nat } else { 0 });
    }
}

/// A full bag has seven shapes, and each shape occurs in it exactly once.
pub proof fn lemma_full_bag(shapes: Seq<Shape>)
    requires
        is_full_bag(shapes),
    ensures
        shapes.len() == 7,
        is_partial_bag(shapes),
        forall|s: Shape| shapes.to_multiset().count(s) == 1,
        forall|s: Shape| shapes.contains(s),
{
    lemma_all_shapes();
    all_shapes().to_multiset_ensures();
    shapes.to_multiset_ensures();
    shapes.lemma_multiset_has_no_duplicates_conv();
    assert forall|s: Shape| shapes.contains(s) by {
        assert(shapes.to_multiset().count(s) > 0);
    }
}

/// Taking the last shape out of a bag that holds no shape twice leaves such a
/// bag, and the shape taken is no longer in it.
pub proof fn lemma_partial_bag_pop(shapes: Seq<Shape>)
    requires
        is_partial_bag(shapes),
        shapes.len() > 0,
    ensures
        is_partial_bag(shapes.drop_last()),
        !shapes.drop_last().contains(shapes.last()),
{
}

/// The four cells that `block` covers when its anchor is at `at`.
pub open spec fn placed(block: Block, at: Cell) -> Seq<Cell> {
    Seq::new(4, |i: int| at.offset(block.offsets()[i].x, block.offsets()[i].y))
}

/// Whether an offset lies at most `REACH` from the anchor in both axes.
pub open spec fn within_reach(c: Cell) -> bool {
    -REACH <= c.x <= REACH && -REACH <= c.y <= REACH
}

/// Every offset of every piece lies within `REACH` of the anchor, and the
/// first offset is the anchor itself.
pub proof fn lemma_offsets_in_reach(block: Block)
    ensures
        block.offsets().len() == 4,
        block.offsets()[0] == (Cell { x: 0, y: 0 }),
        forall|k: int| 0 <= k < 4 ==> within_reach(#[trigger] block.offsets()[k]),
{
}

/// Four quarter turns clockwise bring a piece back to where it was.
pub proof fn lemma_four_clockwise_turns(block: Block)
    ensures
        block.rotated(true).rotated(true).rotated(true).rotated(true) == block,
{
}

/// Four quarter turns counter-clockwise bring a piece back to where it was.
pub proof fn lemma_four_counter_clockwise_turns(block: Block)
    ensures
        block.rotated(false).rotated(false).rotated(false).rotated(false) == block,
{
}

/// A quarter turn one way undoes a quarter turn the other way.
pub proof fn lemma_opposite_turns_cancel(block: Block, clockwise: bool)
    ensures
        block.rotated(clockwise).rotated(!clockwise) == block,
{
}

/// Two half turns bring a piece back to where it was, and a half turn is two
/// quarter turns.
pub proof fn lemma_flip_twice(block: Block)
    ensures
        block.flipped().flipped() == block,
        block.flipped() == block.rotated(true).rotated(true),
{
}

/// A turn never changes the shape of a piece.
pub proof fn lemma_turns_keep_shape(block: Block, clockwise: bool)
    ensures
        block.rotated(clockwise).shape == block.shape,
        block.flipped().shape == block.shape,
{
}

} // verus!
