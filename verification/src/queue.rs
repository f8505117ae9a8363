use std::collections::VecDeque;
use vstd::prelude::*;
use crate::block::{
    Block, Rotation, Shape, all_shapes, is_full_bag, is_partial_bag, last_of_bag, lemma_full_bag,
    lemma_partial_bag_pop,
};

verus! {

/// The number of upcoming pieces that the queue shows.
pub const LOOKAHEAD: usize = 3;

/// The supply of pieces: the upcoming pieces, the next one first, and a bag of
/// the shapes not yet dealt. The last shape of the bag is dealt first.
pub struct Queue {
    blocks: VecDeque<Block>,
    shapes: Vec<Shape>,
}

/// The mathematical model of the supply of pieces.
pub struct QueueView {
    pub blocks: Seq<Block>,
    pub shapes: Seq<Shape>,
}

impl QueueView {
    /// Validity of the supply: it shows `LOOKAHEAD` pieces, none of them
    /// rotated, and its bag holds no shape twice.
    pub open spec fn wf(self) -> bool {
        &&& self.blocks.len() == LOOKAHEAD
        &&& forall|i: int|
            0 <= i < self.blocks.len() ==> (#[trigger] self.blocks[i]).rotation == Rotation::R0
        &&& is_partial_bag(self.shapes)
    }

    /// Whether the bag is at a boundary: used up, or full.
    pub open spec fn at_bag_boundary(self) -> bool {
        self.shapes.len() == 0 || is_full_bag(self.shapes)
    }

    /// The bag that the next shape is dealt from: `refill` where the bag is
    /// used up.
    pub open spec fn bag(self, refill: Seq<Shape>) -> Seq<Shape> {
        if self.shapes.len() == 0 {
            refill
        } else {
            self.shapes
        }
    }

    /// The shape that is dealt next.
    pub open spec fn dealt(self, refill: Seq<Shape>) -> Shape {
        self.bag(refill).last()
    }

    /// The supply after its first piece has been taken and a piece of the
    /// shape dealt next has joined the upcoming pieces.
    pub open spec fn popped(self, refill: Seq<Shape>) -> QueueView {
        QueueView {
            blocks: self.blocks.skip(1).push(
                Block { shape: self.dealt(refill), rotation: Rotation::R0 },
            ),
            shapes: self.bag(refill).drop_last(),
        }
    }
}

/// The supply that shows unrotated pieces of the shapes `lookahead` and holds
/// the bag `bag`.
pub open spec fn stocked(lookahead: Seq<Shape>, bag: Seq<Shape>) -> QueueView {
    QueueView {
        blocks: Seq::new(
            lookahead.len(),
            |i: int| Block { shape: lookahead[i], rotation: Rotation::R0 },
        ),
        shapes: bag,
    }
}

impl View for Queue {
    type V = QueueView;

    closed spec fn view(&self) -> QueueView {
        QueueView { blocks: self.blocks@, shapes: self.shapes@ }
    }
}

/// A copy of a list of shapes.
pub fn copy_shapes(shapes: &Vec<Shape>) -> (copy: Vec<Shape>)
    ensures
        copy@ == shapes@,
{
    let mut copy: Vec<Shape> = Vec::new();
    let mut i: usize = 0;
    while i < shapes.len()
        invariant
            i <= shapes@.len(),
            copy@ == shapes@.take(i as int),
        decreases shapes@.len() - i,
    {
        copy.push(shapes[i]);
        assert(shapes@.take(i as int).push(shapes@[i as int]) =~= shapes@.take(i + 1));
        i += 1;
    }
    assert(shapes@.take(shapes@.len() as int) =~= shapes@);
    copy
}

/// Whether a list of shapes holds no shape twice.
pub fn no_shape_twice(shapes: &Vec<Shape>) -> (ok: bool)
    ensures
        ok == is_partial_bag(shapes@),
{
    let mut i: usize = 0;
    while i < shapes.len()
        invariant
            i <= shapes@.len(),
            forall|a: int, b: int| 0 <= a < i && a < b < shapes@.len() ==> shapes@[a] != shapes@[b],
        decreases shapes@.len() - i,
    {
        let mut j: usize = i + 1;
        while j < shapes.len()
            invariant
                i < j <= shapes@.len(),
                forall|b: int| i < b < j ==> shapes@[i as int] != shapes@[b],
            decreases shapes@.len() - j,
        {
            if shapes[i] == shapes[j] {
                return false;
            }
            j += 1;
        }
        i += 1;
    }
    assert forall|a: int, b: int|
        0 <= a < shapes@.len() && 0 <= b < shapes@.len() && a != b implies shapes@[a]
        != shapes@[b] by {
        if a < b {
        } else {
            assert(shapes@[b] != shapes@[a]);
        }
    }
    true
}

impl Default for Queue {
    /// A fresh supply, as `Queue::new` makes it.
    fn default() -> (q: Queue)
        ensures
            q.wf(),
            is_full_bag(q@.shapes),
    {
        Self::new()
    }
}

impl Queue {
    /// Validity of the supply.
    pub open spec fn wf(&self) -> bool {
        self@.wf()
    }

    /// A supply that shows unrotated pieces of the shapes `lookahead` and
    /// holds the bag `bag`, or nothing where `bag` holds a shape twice.
    pub fn from_shapes(lookahead: [Shape; 3], bag: Vec<Shape>) -> (q: Option<Queue>)
        ensures
            q is Some <==> is_partial_bag(bag@),
            q matches Some(queue) ==> queue.wf() && queue@ == stocked(lookahead@, bag@),
    {
        if !no_shape_twice(&bag) {
            return None;
        }
        let mut blocks: VecDeque<Block> = VecDeque::new();
        blocks.push_back(Block::new(lookahead[0]));
        blocks.push_back(Block::new(lookahead[1]));
        blocks.push_back(Block::new(lookahead[2]));
        assert(blocks@ =~= stocked(lookahead@, bag@).blocks);
        Some(Queue { blocks, shapes: bag })
    }

    /// A supply that shows three pieces of shapes chosen at random and holds
    /// a full bag in a random order.
    pub fn new() -> (q: Queue)
        ensures
            q.wf(),
            is_full_bag(q@.shapes),
    {
        let mut blocks: VecDeque<Block> = VecDeque::new();
        let mut i: usize = 0;
        while i < LOOKAHEAD
            invariant
                i <= LOOKAHEAD,
                blocks@.len() == i,
                forall|k: int| 0 <= k < blocks@.len() ==> (#[trigger] blocks@[k]).rotation
                    == Rotation::R0,
            decreases LOOKAHEAD - i,
        {
            blocks.push_back(Block::default());
            i += 1;
        }
        let shapes = Shape::all();
        proof {
            lemma_full_bag(shapes@);
        }
        Self { blocks, shapes }
    }

    /// Makes the supply a fresh one, as `Queue::new` makes it.
    pub fn renew(&mut self)
        ensures
            final(self).wf(),
            is_full_bag(final(self)@.shapes),
    {
        *self = Self::new();
    }

    /// Makes the supply the one that `Queue::from_shapes` makes of a full
    /// bag `bag`.
    pub fn renew_with(&mut self, lookahead: [Shape; 3], bag: &Vec<Shape>)
        requires
            is_full_bag(bag@),
        ensures
            final(self).wf(),
            final(self)@ == stocked(lookahead@, bag@),
    {
        proof {
            lemma_full_bag(bag@);
        }
        let mut blocks: VecDeque<Block> = VecDeque::new();
        blocks.push_back(Block::new(lookahead[0]));
        blocks.push_back(Block::new(lookahead[1]));
        blocks.push_back(Block::new(lookahead[2]));
        assert(blocks@ =~= stocked(lookahead@, bag@).blocks);
        self.blocks = blocks;
        self.shapes = copy_shapes(bag);
    }

    /// The upcoming pieces, the next one first.
    pub fn blocks(&self) -> (v: Vec<Block>)
        ensures
            v@ == self@.blocks,
    {
        let mut v: Vec<Block> = Vec::new();
        let mut i: usize = 0;
        while i < self.blocks.len()
            invariant
                i <= self.blocks@.len(),
                v@ == self.blocks@.take(i as int),
            decreases self.blocks@.len() - i,
        {
            v.push(self.blocks[i]);
            assert(self.blocks@.take(i as int).push(self.blocks@[i as int]) =~= self.blocks@.take(
                i + 1,
            ));
            i += 1;
        }
        assert(self.blocks@.take(self.blocks@.len() as int) =~= self.blocks@);
        v
    }

    /// The number of shapes left in the bag.
    pub fn remaining(&self) -> (n: usize)
        ensures
            n == self@.shapes.len(),
    {
        self.shapes.len()
    }

    /// The shapes left in the bag. The last one is dealt first.
    pub fn shapes(&self) -> (v: Vec<Shape>)
        ensures
            v@ == self@.shapes,
    {
        copy_shapes(&self.shapes)
    }

    /// Takes the first of the upcoming pieces and lets a piece of the shape
    /// dealt next join them. Where the bag is used up, it is first refilled
    /// with `refill`.
    pub fn pop_and_spawn_from(&mut self, refill: &Vec<Shape>) -> (block: Block)
        requires
            old(self).wf(),
            old(self)@.shapes.len() == 0 ==> is_full_bag(refill@),
        ensures
            final(self).wf(),
            block == old(self)@.blocks[0],
            final(self)@ == old(self)@.popped(refill@),
    {
        let front = self.blocks.pop_front().unwrap();
        if self.shapes.is_empty() {
            self.shapes = copy_shapes(refill);
            proof {
                lemma_full_bag(refill@);
            }
        }
        proof {
            lemma_partial_bag_pop(self.shapes@);
        }
        let shape = last_of_bag(&mut self.shapes);
        self.blocks.push_back(Block::new(shape));
        assert(self.blocks@ =~= old(self)@.popped(refill@).blocks);
        front
    }

    /// Takes the first of the upcoming pieces and lets a piece of the shape
    /// dealt next join them. Where the bag is used up, it is first refilled
    /// with the seven shapes in a random order.
    pub fn pop_and_spawn_new_block(&mut self) -> (block: Block)
        requires
            old(self).wf(),
        ensures
            final(self).wf(),
            block == old(self)@.blocks[0],
            exists|refill: Seq<Shape>|
                is_full_bag(refill) && final(self)@ == #[trigger] old(self)@.popped(refill),
    {
        let refill = if self.shapes.is_empty() {
            Shape::all()
        } else {
            Vec::new()
        };
        proof {
            if self@.shapes.len() > 0 {
                assert(self@.popped(refill@) == self@.popped(all_shapes()));
            }
        }
        self.pop_and_spawn_from(&refill)
    }
}

/// The supply after `n` pieces have been taken from `q`, where the bag, when
/// it is used up at the `i`-th of them, is refilled with `refills[i]`.
pub open spec fn popped_n(q: QueueView, refills: Seq<Seq<Shape>>, n: int) -> QueueView
    decreases n,
{
    if n <= 0 {
        q
    } else {
        popped_n(q, refills, n - 1).popped(refills[n - 1])
    }
}

/// The shape that is dealt from the bag when the `i`-th piece is taken from
/// `q`, counting from zero.
pub open spec fn dealt_at(q: QueueView, refills: Seq<Seq<Shape>>, i: int) -> Shape {
    popped_n(q, refills, i).dealt(refills[i])
}

/// The shapes that are dealt from the bag while the first seven pieces are
/// taken from `q`, in the order in which they are dealt.
pub open spec fn dealt_run(q: QueueView, refills: Seq<Seq<Shape>>) -> Seq<Shape> {
    Seq::new(7, |i: int| dealt_at(q, refills, i))
}

/// The piece that is handed out when the `i`-th piece is taken from `q`,
/// counting from zero.
pub open spec fn handed_out_at(q: QueueView, refills: Seq<Seq<Shape>>, i: int) -> Block {
    popped_n(q, refills, i).blocks[0]
}

/// Taking a piece keeps the supply valid.
pub proof fn lemma_popped_wf(q: QueueView, refill: Seq<Shape>)
    requires
        q.wf(),
        is_full_bag(refill),
    ensures
        q.popped(refill).wf(),
        q.popped(refill).shapes.len() == q.bag(refill).len() - 1,
        q.bag(refill).len() > 0,
{
    lemma_full_bag(refill);
    lemma_partial_bag_pop(q.bag(refill));
}

/// From a bag boundary on, the next seven shapes come from one full bag, the
/// last shape of the bag first.
proof fn lemma_dealing_from_boundary(q: QueueView, refills: Seq<Seq<Shape>>, i: int)
    requires
        q.wf(),
        q.at_bag_boundary(),
        refills.len() >= 7,
        forall|k: int| 0 <= k < refills.len() ==> is_full_bag(#[trigger] refills[k]),
        0 <= i <= 7,
    ensures
        popped_n(q, refills, i).wf(),
        q.bag(refills[0]).len() == 7,
        is_full_bag(q.bag(refills[0])),
        i > 0 ==> popped_n(q, refills, i).shapes == q.bag(refills[0]).take(7 - i),
        i < 7 ==> dealt_at(q, refills, i) == q.bag(refills[0])[6 - i],
    decreases i,
{
    let bag = q.bag(refills[0]);
    lemma_full_bag(refills[0]);
    lemma_full_bag(bag);
    if i > 0 {
        lemma_dealing_from_boundary(q, refills, i - 1);
        let before = popped_n(q, refills, i - 1);
        lemma_popped_wf(before, refills[i - 1]);
        if i == 1 {
            assert(before.bag(refills[0]).drop_last() =~= bag.take(6));
        } else {
            assert(before.shapes.drop_last() =~= bag.take(7 - i));
        }
    }
}

/// Bag fairness. Seven pieces taken in a row, the first of them at a bag
/// boundary, deal each of the seven shapes from the bag exactly once, and
/// leave the bag at a boundary again.
pub proof fn lemma_bag_fairness(q: QueueView, refills: Seq<Seq<Shape>>)
    requires
        q.wf(),
        q.at_bag_boundary(),
        refills.len() >= 7,
        forall|k: int| 0 <= k < refills.len() ==> is_full_bag(#[trigger] refills[k]),
    ensures
        is_full_bag(dealt_run(q, refills)),
        forall|s: Shape| (#[trigger] dealt_run(q, refills).to_multiset().count(s)) == 1,
        popped_n(q, refills, 7).wf(),
        popped_n(q, refills, 7).at_bag_boundary(),
{
    let bag = q.bag(refills[0]);
    let dealt = dealt_run(q, refills);
    assert forall|i: int| 0 <= i < 7 implies dealt[i] == bag.reverse()[i] by {
        lemma_dealing_from_boundary(q, refills, i);
    }
    lemma_dealing_from_boundary(q, refills, 7);
    assert(dealt =~= bag.reverse());
    bag.lemma_reverse_to_multiset();
    lemma_full_bag(dealt);
}

/// A shape dealt from the bag is the shape of the piece handed out
/// `LOOKAHEAD` pieces later, which is not rotated. So the seven pieces handed
/// out from the `LOOKAHEAD`-th piece after a bag boundary on have each of the
/// seven shapes exactly once.
pub proof fn lemma_dealt_is_handed_out(q: QueueView, refills: Seq<Seq<Shape>>, i: int)
    requires
        q.wf(),
        0 <= i,
        refills.len() >= i + LOOKAHEAD,
        forall|k: int| 0 <= k < refills.len() ==> is_full_bag(#[trigger] refills[k]),
    ensures
        handed_out_at(q, refills, i + LOOKAHEAD) == (Block {
            shape: dealt_at(q, refills, i),
            rotation: Rotation::R0,
        }),
{
    lemma_popped_n_wf(q, refills, i + 3);
    let q0 = popped_n(q, refills, i);
    let q1 = popped_n(q, refills, i + 1);
    let q2 = popped_n(q, refills, i + 2);
    let q3 = popped_n(q, refills, i + 3);
    assert(q1 == q0.popped(refills[i]));
    assert(q2 == q1.popped(refills[i + 1]));
    assert(q3 == q2.popped(refills[i + 2]));
    assert(q1.blocks[2] == (Block { shape: dealt_at(q, refills, i), rotation: Rotation::R0 }));
    assert(q2.blocks[1] == q1.blocks[2]);
    assert(q3.blocks[0] == q2.blocks[1]);
}

/// Taking pieces keeps the supply valid.
pub proof fn lemma_popped_n_wf(q: QueueView, refills: Seq<Seq<Shape>>, n: int)
    requires
        q.wf(),
        0 <= n <= refills.len(),
        forall|k: int| 0 <= k < refills.len() ==> is_full_bag(#[trigger] refills[k]),
    ensures
        forall|k: int| 0 <= k <= n ==> (#[trigger] popped_n(q, refills, k)).wf(),
    decreases n,
{
    if n > 0 {
        lemma_popped_n_wf(q, refills, n - 1);
        lemma_popped_wf(popped_n(q, refills, n - 1), refills[n - 1]);
    }
}

} // verus!
