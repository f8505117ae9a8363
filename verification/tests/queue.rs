use retris::block::{Block, Rotation, Shape};
use retris::queue::{copy_shapes, no_shape_twice, Queue, LOOKAHEAD};
use retris::score::{Score, PERFECT};

const SHAPES: [Shape; 7] = [Shape::I, Shape::O, Shape::T, Shape::S, Shape::Z, Shape::J, Shape::L];

fn queue(lookahead: [Shape; 3], bag: Vec<Shape>) -> Queue {
    match Queue::from_shapes(lookahead, bag) {
        Some(q) => q,
        None => panic!("a shape is twice in the bag"),
    }
}

fn shapes_of(blocks: &[Block]) -> Vec<Shape> {
    blocks.iter().map(|b| b.shape).collect()
}

fn holds_each_shape_once(shapes: &[Shape]) -> bool {
    shapes.len() == 7 && SHAPES.iter().all(|s| shapes.iter().filter(|t| *t == s).count() == 1)
}

#[test]
fn a_new_queue_shows_three_pieces_and_holds_a_full_bag() {
    assert_eq!(LOOKAHEAD, 3);
    for _ in 0..20 {
        let q = Queue::new();
        assert_eq!(q.blocks().len(), 3);
        assert!(q.blocks().iter().all(|b| b.rotation == Rotation::R0));
        assert!(holds_each_shape_once(&q.shapes()));
        let d = Queue::default();
        assert_eq!(d.blocks().len(), 3);
        assert!(holds_each_shape_once(&d.shapes()));
    }
}

#[test]
fn a_queue_of_given_shapes() {
    let q = queue([Shape::I, Shape::O, Shape::T], vec![Shape::S, Shape::Z]);
    assert_eq!(
        q.blocks(),
        vec![Block::new(Shape::I), Block::new(Shape::O), Block::new(Shape::T)]
    );
    assert_eq!(q.shapes(), vec![Shape::S, Shape::Z]);
    let same = queue([Shape::L, Shape::L, Shape::L], SHAPES.to_vec());
    assert_eq!(shapes_of(&same.blocks()), vec![Shape::L, Shape::L, Shape::L]);
    assert_eq!(same.shapes(), SHAPES.to_vec());
    let empty = queue([Shape::J, Shape::S, Shape::Z], Vec::new());
    assert!(empty.shapes().is_empty());
}

#[test]
fn a_bag_with_a_shape_twice_is_refused() {
    assert!(Queue::from_shapes([Shape::I, Shape::O, Shape::T], vec![Shape::S, Shape::S]).is_none());
    assert!(Queue::from_shapes(
        [Shape::I, Shape::O, Shape::T],
        vec![Shape::I, Shape::O, Shape::T, Shape::S, Shape::Z, Shape::J, Shape::L, Shape::I]
    )
    .is_none());
    assert!(Queue::from_shapes([Shape::I, Shape::I, Shape::I], vec![Shape::I]).is_some());
}

#[test]
fn shapes_twice_are_found() {
    assert!(no_shape_twice(&Vec::new()));
    assert!(no_shape_twice(&vec![Shape::T]));
    assert!(no_shape_twice(&SHAPES.to_vec()));
    assert!(!no_shape_twice(&vec![Shape::T, Shape::T]));
    assert!(!no_shape_twice(&vec![Shape::T, Shape::I, Shape::O, Shape::T]));
    assert!(!no_shape_twice(&vec![Shape::I, Shape::O, Shape::T, Shape::J, Shape::J]));
    assert_eq!(copy_shapes(&vec![Shape::Z, Shape::I]), vec![Shape::Z, Shape::I]);
    assert_eq!(copy_shapes(&Vec::new()), Vec::new());
}

#[test]
fn taking_a_piece_deals_the_last_shape_of_the_bag() {
    let refill = vec![Shape::I, Shape::O, Shape::T, Shape::S, Shape::Z, Shape::J, Shape::L];
    let mut q = queue([Shape::I, Shape::O, Shape::T], vec![Shape::S, Shape::Z]);
    assert_eq!(q.pop_and_spawn_from(&refill), Block::new(Shape::I));
    assert_eq!(shapes_of(&q.blocks()), vec![Shape::O, Shape::T, Shape::Z]);
    assert_eq!(q.shapes(), vec![Shape::S]);
    assert_eq!(q.pop_and_spawn_from(&refill), Block::new(Shape::O));
    assert_eq!(shapes_of(&q.blocks()), vec![Shape::T, Shape::Z, Shape::S]);
    assert!(q.shapes().is_empty());
    assert_eq!(q.pop_and_spawn_from(&refill), Block::new(Shape::T));
    assert_eq!(shapes_of(&q.blocks()), vec![Shape::Z, Shape::S, Shape::L]);
    assert_eq!(
        q.shapes(),
        vec![Shape::I, Shape::O, Shape::T, Shape::S, Shape::Z, Shape::J]
    );
    assert_eq!(q.pop_and_spawn_from(&Vec::new()), Block::new(Shape::Z));
    assert_eq!(shapes_of(&q.blocks()), vec![Shape::S, Shape::L, Shape::J]);
    assert!(q.blocks().iter().all(|b| b.rotation == Rotation::R0));
}

#[test]
fn seven_pieces_from_a_bag_boundary_deal_each_shape_once() {
    let refill = vec![Shape::T, Shape::L, Shape::I, Shape::Z, Shape::O, Shape::J, Shape::S];
    let other = vec![Shape::O, Shape::I, Shape::L, Shape::J, Shape::T, Shape::S, Shape::Z];
    let mut q = queue([Shape::I, Shape::I, Shape::I], Vec::new());
    let mut dealt = Vec::new();
    let mut handed_out = Vec::new();
    for _ in 0..7 {
        handed_out.push(q.pop_and_spawn_from(&refill).shape);
        dealt.push(q.blocks()[2].shape);
    }
    assert_eq!(
        dealt,
        vec![Shape::S, Shape::J, Shape::O, Shape::Z, Shape::I, Shape::L, Shape::T]
    );
    assert!(holds_each_shape_once(&dealt));
    assert!(q.shapes().is_empty());
    assert_eq!(
        handed_out,
        vec![Shape::I, Shape::I, Shape::I, Shape::S, Shape::J, Shape::O, Shape::Z]
    );
    for _ in 0..3 {
        handed_out.push(q.pop_and_spawn_from(&other).shape);
    }
    assert_eq!(handed_out[3..10].to_vec(), dealt);
    assert_eq!(shapes_of(&q.blocks()), vec![Shape::Z, Shape::S, Shape::T]);
    let mut full = queue([Shape::O, Shape::O, Shape::O], other.clone());
    let mut from_full = Vec::new();
    for _ in 0..7 {
        full.pop_and_spawn_from(&refill);
        from_full.push(full.blocks()[2].shape);
    }
    assert_eq!(
        from_full,
        vec![Shape::Z, Shape::S, Shape::T, Shape::J, Shape::L, Shape::I, Shape::O]
    );
    assert!(full.shapes().is_empty());
}

#[test]
fn a_random_queue_deals_each_shape_once_per_bag() {
    let mut q = Queue::new();
    let mut handed_out = Vec::new();
    for round in 0..70 {
        let left = if round == 0 { 7 } else { (7 - round % 7) % 7 };
        assert_eq!(q.shapes().len(), left);
        let before = q.blocks();
        let block = q.pop_and_spawn_new_block();
        assert_eq!(block, before[0]);
        assert_eq!(block.rotation, Rotation::R0);
        let after = q.blocks();
        assert_eq!(after.len(), 3);
        assert_eq!(after[0], before[1]);
        assert_eq!(after[1], before[2]);
        assert_eq!(after[2].rotation, Rotation::R0);
        handed_out.push(block.shape);
    }
    for bag in 0..9 {
        assert!(holds_each_shape_once(&handed_out[3 + 7 * bag..10 + 7 * bag]));
    }
}

#[test]
fn refills_come_in_changing_orders() {
    let mut q = queue([Shape::I, Shape::I, Shape::I], Vec::new());
    let mut bags = Vec::new();
    for _ in 0..40 {
        let mut bag = Vec::new();
        for _ in 0..7 {
            q.pop_and_spawn_new_block();
            bag.push(q.blocks()[2].shape);
        }
        assert!(holds_each_shape_once(&bag));
        bags.push(bag);
    }
    assert!(bags.iter().any(|b| *b != bags[0]));
}

#[test]
fn renewing_a_queue() {
    let mut q = queue([Shape::I, Shape::O, Shape::T], vec![Shape::S]);
    q.renew();
    assert_eq!(q.blocks().len(), 3);
    assert!(q.blocks().iter().all(|b| b.rotation == Rotation::R0));
    assert!(holds_each_shape_once(&q.shapes()));
    let bag = vec![Shape::L, Shape::J, Shape::Z, Shape::S, Shape::T, Shape::O, Shape::I];
    q.renew_with([Shape::Z, Shape::Z, Shape::S], &bag);
    assert_eq!(shapes_of(&q.blocks()), vec![Shape::Z, Shape::Z, Shape::S]);
    assert_eq!(q.shapes(), bag);
}

#[test]
fn the_score_counts_lines_up_to_the_perfect_game() {
    assert_eq!(PERFECT, 40);
    let mut s = Score::new();
    assert_eq!(s.lines(), 0);
    assert_eq!(s.perfect(), 40);
    assert!(!s.is_gameover());
    s.add(4);
    assert_eq!(s.lines(), 4);
    s.add(0);
    assert_eq!(s.lines(), 4);
    s.add(35);
    assert_eq!(s.lines(), 39);
    assert!(!s.is_gameover());
    s.add(1);
    assert_eq!(s.lines(), 40);
    assert!(s.is_gameover());
    s.add(3);
    assert_eq!(s.lines(), 43);
    assert!(s.is_gameover());
    s.renew();
    assert_eq!(s.lines(), 0);
    assert_eq!(s.perfect(), 40);
    assert!(!s.is_gameover());
    let d = Score::default();
    assert_eq!(d.lines(), 0);
    assert_eq!(d.perfect(), 40);
}

#[test]
fn the_shapes_left_in_the_bag_are_counted() {
    let mut q = queue([Shape::I, Shape::O, Shape::T], vec![Shape::S, Shape::Z]);
    assert_eq!(q.remaining(), 2);
    q.pop_and_spawn_from(&SHAPES.to_vec());
    assert_eq!(q.remaining(), 1);
    q.pop_and_spawn_from(&SHAPES.to_vec());
    assert_eq!(q.remaining(), 0);
    q.pop_and_spawn_from(&SHAPES.to_vec());
    assert_eq!(q.remaining(), 6);
    assert_eq!(Queue::new().remaining(), 7);
}
