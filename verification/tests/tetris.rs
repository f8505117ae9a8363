use retris::block::{BColor, Block, Rotation, Shape};
use retris::board::Board;
use retris::command::{Command, Reaction};
use retris::queue::Queue;
use retris::tetris::{
    Supply, Tetris, BOARD_HEIGHT, BOARD_WIDTH, FAST_SPEED, LOCK_DELAY_CAP, LOCK_DELAY_GAIN,
    NORMAL_SPEED, SLOW_SPEED,
};

const SHAPES: [Shape; 7] = [Shape::I, Shape::O, Shape::T, Shape::S, Shape::Z, Shape::J, Shape::L];

fn supply() -> Supply {
    Supply {
        piece: Shape::Z,
        lookahead: [Shape::J, Shape::L, Shape::S],
        bag: vec![Shape::O, Shape::T, Shape::S, Shape::Z, Shape::J, Shape::L, Shape::I],
    }
}

/// A game on a board of the given size with `first` in play, `lookahead`
/// upcoming and an empty bag.
fn game(width: usize, height: usize, first: Shape, lookahead: [Shape; 3]) -> Tetris {
    let mut board = match Board::new(width, height) {
        Ok(b) => b,
        Err(e) => panic!("{:?}", e),
    };
    board.insert(Block::new(first));
    let queue = match Queue::from_shapes(lookahead, Vec::new()) {
        Some(q) => q,
        None => panic!("a shape is twice in the bag"),
    };
    match Tetris::from_parts(board, queue) {
        Some(t) => t,
        None => panic!("the piece does not lie on the board"),
    }
}

fn pos(t: &Tetris) -> (i32, i32) {
    t.board().grid().block().pos
}

fn piece(t: &Tetris) -> Block {
    t.board().grid().block().block
}

fn upcoming(t: &Tetris) -> Vec<Shape> {
    t.queue().blocks().iter().map(|b| b.shape).collect()
}

fn snapshot(t: &Tetris) -> Vec<Vec<BColor>> {
    let g = t.board().grid();
    (0..g.height()).map(|y| (0..g.width()).map(|x| g.color_at(x, y)).collect()).collect()
}

fn locked_cells(t: &Tetris) -> usize {
    let g = t.board().grid();
    let mut n = 0;
    for y in 0..g.height() {
        for x in 0..g.width() {
            if g.is_occupied(x, y) {
                n += 1;
            }
        }
    }
    n
}

fn ticks(t: &mut Tetris, n: usize) {
    for _ in 0..n {
        assert_eq!(t.on_event_with(Command::Tick, &supply()), Reaction::Consumed);
    }
}

#[test]
fn the_speeds() {
    assert_eq!(SLOW_SPEED, 30);
    assert_eq!(NORMAL_SPEED, 10);
    assert_eq!(FAST_SPEED, 1);
    assert_eq!(LOCK_DELAY_GAIN, 3);
    assert_eq!(LOCK_DELAY_CAP, 2 * NORMAL_SPEED);
    assert_eq!(BOARD_WIDTH, 10);
    assert_eq!(BOARD_HEIGHT, 20);
}

#[test]
fn a_new_game_starts_falling_slowly() {
    for t in [Tetris::new(), Tetris::default()] {
        assert!(!t.is_paused());
        assert!(!t.is_gameover());
        assert!(!t.is_resting());
        assert_eq!(t.ticks(), 0);
        assert_eq!(t.ticks_per_step(), 30);
        assert_eq!(t.score().lines(), 0);
        assert_eq!(t.score().perfect(), 40);
        assert_eq!(t.board().grid().width(), 10);
        assert_eq!(t.board().grid().height(), 20);
        assert_eq!(pos(&t), (5, 1));
        assert_eq!(piece(&t).rotation, Rotation::R0);
        assert_eq!(locked_cells(&t), 0);
        assert_eq!(t.queue().blocks().len(), 3);
        assert_eq!(t.queue().shapes().len(), 7);
    }
}

#[test]
fn a_game_from_parts_keeps_them() {
    let t = game(6, 9, Shape::S, [Shape::I, Shape::O, Shape::T]);
    assert_eq!(t.board().grid().width(), 6);
    assert_eq!(t.board().grid().height(), 9);
    assert_eq!(piece(&t), Block::new(Shape::S));
    assert_eq!(pos(&t), (3, 1));
    assert_eq!(upcoming(&t), vec![Shape::I, Shape::O, Shape::T]);
    assert!(!t.is_paused() && !t.is_gameover() && !t.is_resting());
    assert_eq!(t.ticks(), 0);
    assert_eq!(t.ticks_per_step(), 30);
    assert_eq!(t.score().lines(), 0);
}

#[test]
fn a_game_from_a_piece_off_the_board_is_refused() {
    let mut board = match Board::new(10, 20) {
        Ok(b) => b,
        Err(e) => panic!("{:?}", e),
    };
    board.insert(Block { shape: Shape::I, rotation: Rotation::R90 });
    assert!(Tetris::from_parts(board, Queue::new()).is_none());
    let mut other = match Board::new(10, 20) {
        Ok(b) => b,
        Err(e) => panic!("{:?}", e),
    };
    other.insert(Block { shape: Shape::I, rotation: Rotation::R270 });
    assert!(Tetris::from_parts(other, Queue::new()).is_some());
}

#[test]
fn the_piece_falls_one_row_every_thirty_ticks() {
    let mut t = game(10, 20, Shape::T, [Shape::I, Shape::O, Shape::S]);
    for k in 1..30 {
        ticks(&mut t, 1);
        assert_eq!(t.ticks(), k);
        assert_eq!(pos(&t), (5, 1));
    }
    ticks(&mut t, 1);
    assert_eq!(t.ticks(), 0);
    assert_eq!(pos(&t), (5, 2));
    assert!(!t.is_resting());
    assert_eq!(t.ticks_per_step(), 30);
    ticks(&mut t, 29);
    assert_eq!(pos(&t), (5, 2));
    ticks(&mut t, 1);
    assert_eq!(pos(&t), (5, 3));
}

#[test]
fn a_soft_drop_lets_the_piece_fall_at_every_tick() {
    let mut t = game(10, 20, Shape::T, [Shape::I, Shape::O, Shape::S]);
    ticks(&mut t, 7);
    assert_eq!(t.on_event_with(Command::SoftDrop, &supply()), Reaction::Consumed);
    assert_eq!(t.ticks_per_step(), 1);
    assert_eq!(t.ticks(), 0);
    assert_eq!(pos(&t), (5, 1));
    for y in 2..19 {
        ticks(&mut t, 1);
        assert_eq!(pos(&t), (5, y));
        assert!(!t.is_resting());
        assert_eq!(t.ticks_per_step(), 1);
    }
    ticks(&mut t, 1);
    assert_eq!(pos(&t), (5, 19));
    assert!(t.is_resting());
    assert_eq!(t.ticks_per_step(), 10);
    assert_eq!(t.ticks(), 0);
    assert_eq!(locked_cells(&t), 0);
}

#[test]
fn a_resting_piece_is_locked_at_the_next_fall() {
    let mut t = game(10, 20, Shape::T, [Shape::I, Shape::O, Shape::S]);
    t.on_event_with(Command::SoftDrop, &supply());
    ticks(&mut t, 18);
    assert!(t.is_resting());
    ticks(&mut t, 9);
    assert!(t.is_resting());
    assert_eq!(t.ticks(), 9);
    assert_eq!(pos(&t), (5, 19));
    assert_eq!(piece(&t), Block::new(Shape::T));
    assert_eq!(locked_cells(&t), 0);
    ticks(&mut t, 1);
    assert!(!t.is_resting());
    assert_eq!(t.ticks_per_step(), 30);
    assert_eq!(t.ticks(), 0);
    assert_eq!(locked_cells(&t), 4);
    let g = t.board().grid();
    for (x, y) in [(5, 19), (4, 19), (5, 18), (6, 19)] {
        assert_eq!(g.color_at(x, y), BColor::T);
    }
    assert_eq!(piece(&t), Block::new(Shape::I));
    assert_eq!(pos(&t), (5, 2));
    assert_eq!(upcoming(&t), vec![Shape::O, Shape::S, Shape::I]);
    assert_eq!(
        t.queue().shapes(),
        vec![Shape::O, Shape::T, Shape::S, Shape::Z, Shape::J, Shape::L]
    );
    assert_eq!(t.score().lines(), 0);
}

#[test]
fn a_soft_drop_locks_a_resting_piece_first() {
    let mut t = game(10, 20, Shape::T, [Shape::I, Shape::O, Shape::S]);
    t.on_event_with(Command::SoftDrop, &supply());
    ticks(&mut t, 18);
    assert!(t.is_resting());
    assert_eq!(t.on_event_with(Command::SoftDrop, &supply()), Reaction::Consumed);
    assert!(!t.is_resting());
    assert_eq!(locked_cells(&t), 4);
    assert_eq!(piece(&t), Block::new(Shape::I));
    assert_eq!(pos(&t), (5, 1));
    assert_eq!(t.ticks_per_step(), 1);
    assert_eq!(t.ticks(), 0);
}

#[test]
fn a_hard_drop_locks_the_piece_at_once() {
    let mut t = game(10, 20, Shape::T, [Shape::I, Shape::O, Shape::S]);
    ticks(&mut t, 12);
    assert_eq!(t.on_event_with(Command::HardDrop, &supply()), Reaction::Consumed);
    assert_eq!(locked_cells(&t), 4);
    let g = t.board().grid();
    for (x, y) in [(5, 19), (4, 19), (5, 18), (6, 19)] {
        assert_eq!(g.color_at(x, y), BColor::T);
    }
    assert_eq!(piece(&t), Block::new(Shape::I));
    assert_eq!(pos(&t), (5, 1));
    assert!(!t.is_resting());
    assert_eq!(t.ticks(), 0);
    assert_eq!(t.ticks_per_step(), 30);
    assert_eq!(upcoming(&t), vec![Shape::O, Shape::S, Shape::I]);
    assert_eq!(t.on_event_with(Command::HardDrop, &supply()), Reaction::Consumed);
    assert_eq!(locked_cells(&t), 8);
    for x in 3..7 {
        assert_eq!(t.board().grid().color_at(x, 17), BColor::I);
    }
    assert_eq!(piece(&t), Block::new(Shape::O));
    assert_eq!(upcoming(&t), vec![Shape::S, Shape::I, Shape::L]);
}

#[test]
fn a_hard_drop_of_a_resting_piece_locks_two_pieces() {
    let mut t = game(10, 20, Shape::T, [Shape::I, Shape::O, Shape::S]);
    t.on_event_with(Command::SoftDrop, &supply());
    ticks(&mut t, 18);
    assert!(t.is_resting());
    assert_eq!(t.on_event_with(Command::HardDrop, &supply()), Reaction::Consumed);
    assert_eq!(locked_cells(&t), 8);
    for x in 3..7 {
        assert_eq!(t.board().grid().color_at(x, 17), BColor::I);
    }
    assert_eq!(piece(&t), Block::new(Shape::O));
    assert_eq!(pos(&t), (5, 1));
    assert_eq!(upcoming(&t), vec![Shape::S, Shape::I, Shape::L]);
    assert_eq!(
        t.queue().shapes(),
        vec![Shape::O, Shape::T, Shape::S, Shape::Z, Shape::J]
    );
    assert!(!t.is_resting());
    assert_eq!(t.ticks_per_step(), 30);
}

#[test]
fn moves_and_turns_go_to_the_board() {
    let mut t = game(10, 20, Shape::T, [Shape::I, Shape::O, Shape::S]);
    ticks(&mut t, 5);
    assert_eq!(t.on_event_with(Command::MoveLeft, &supply()), Reaction::Consumed);
    assert_eq!(pos(&t), (4, 1));
    assert_eq!(t.on_event_with(Command::MoveRight, &supply()), Reaction::Consumed);
    assert_eq!(pos(&t), (5, 1));
    assert_eq!(t.on_event_with(Command::MoveLeftHard, &supply()), Reaction::Consumed);
    assert_eq!(pos(&t), (1, 1));
    assert_eq!(t.on_event_with(Command::MoveRightHard, &supply()), Reaction::Consumed);
    assert_eq!(pos(&t), (8, 1));
    assert_eq!(t.on_event_with(Command::RotateCw, &supply()), Reaction::Consumed);
    assert_eq!(piece(&t), Block { shape: Shape::T, rotation: Rotation::R90 });
    assert_eq!(t.on_event_with(Command::Flip, &supply()), Reaction::Consumed);
    assert_eq!(piece(&t), Block { shape: Shape::T, rotation: Rotation::R270 });
    assert_eq!(t.on_event_with(Command::RotateCcw, &supply()), Reaction::Consumed);
    assert_eq!(piece(&t), Block { shape: Shape::T, rotation: Rotation::R180 });
    assert_eq!(t.ticks(), 5);
    assert_eq!(t.ticks_per_step(), 30);
    assert!(!t.is_resting());
    assert_eq!(locked_cells(&t), 0);
}

#[test]
fn a_resting_piece_that_moves_rests_longer() {
    let mut t = game(10, 20, Shape::O, [Shape::I, Shape::O, Shape::S]);
    t.on_event_with(Command::SoftDrop, &supply());
    ticks(&mut t, 18);
    assert!(t.is_resting());
    assert_eq!(pos(&t), (5, 19));
    assert_eq!(t.ticks_per_step(), 10);
    ticks(&mut t, 4);
    t.on_event_with(Command::MoveLeft, &supply());
    assert_eq!(pos(&t), (4, 19));
    assert_eq!(t.ticks_per_step(), 13);
    assert_eq!(t.ticks(), 4);
    t.on_event_with(Command::RotateCw, &supply());
    assert_eq!(t.ticks_per_step(), 16);
    t.on_event_with(Command::MoveRight, &supply());
    assert_eq!(t.ticks_per_step(), 19);
    t.on_event_with(Command::Flip, &supply());
    assert_eq!(t.ticks_per_step(), 20);
    t.on_event_with(Command::MoveLeftHard, &supply());
    assert_eq!(pos(&t), (1, 19));
    assert_eq!(t.ticks_per_step(), 20);
    t.on_event_with(Command::MoveLeft, &supply());
    assert_eq!(pos(&t), (1, 19));
    assert_eq!(t.ticks_per_step(), 20);
    assert!(t.is_resting());
    ticks(&mut t, 15);
    assert!(t.is_resting());
    assert_eq!(locked_cells(&t), 0);
    ticks(&mut t, 1);
    assert!(!t.is_resting());
    assert_eq!(locked_cells(&t), 4);
    assert_eq!(t.ticks_per_step(), 30);
}

#[test]
fn a_resting_piece_that_does_not_move_rests_no_longer() {
    let mut t = game(10, 20, Shape::O, [Shape::I, Shape::O, Shape::S]);
    t.on_event_with(Command::MoveLeftHard, &supply());
    assert_eq!(t.ticks_per_step(), 30);
    t.on_event_with(Command::SoftDrop, &supply());
    ticks(&mut t, 18);
    assert!(t.is_resting());
    assert_eq!(pos(&t), (1, 19));
    t.on_event_with(Command::MoveLeft, &supply());
    assert_eq!(t.ticks_per_step(), 10);
    t.on_event_with(Command::MoveLeftHard, &supply());
    assert_eq!(t.ticks_per_step(), 10);
    assert_eq!(pos(&t), (1, 19));
}

#[test]
fn a_resting_piece_that_moves_off_a_ledge_falls() {
    let mut t = game(10, 20, Shape::O, [Shape::O, Shape::O, Shape::S]);
    t.on_event_with(Command::HardDrop, &supply());
    assert_eq!(locked_cells(&t), 4);
    t.on_event_with(Command::SoftDrop, &supply());
    ticks(&mut t, 16);
    assert_eq!(pos(&t), (5, 17));
    assert!(t.is_resting());
    t.on_event_with(Command::MoveRight, &supply());
    assert_eq!(pos(&t), (6, 17));
    t.on_event_with(Command::MoveRight, &supply());
    assert_eq!(pos(&t), (7, 19));
    assert!(t.is_resting());
    assert_eq!(t.ticks_per_step(), 16);
}

#[test]
fn a_paused_game_ignores_time_and_moves() {
    let mut t = game(10, 20, Shape::T, [Shape::I, Shape::O, Shape::S]);
    ticks(&mut t, 3);
    assert_eq!(t.on_event_with(Command::PauseToggle, &supply()), Reaction::Paused);
    assert!(t.is_paused());
    for cmd in [
        Command::Tick,
        Command::MoveLeft,
        Command::MoveRight,
        Command::MoveLeftHard,
        Command::MoveRightHard,
        Command::RotateCw,
        Command::RotateCcw,
        Command::Flip,
        Command::SoftDrop,
        Command::HardDrop,
    ] {
        for _ in 0..40 {
            assert_eq!(t.on_event_with(cmd, &supply()), Reaction::Consumed);
        }
        assert!(t.is_paused());
        assert_eq!(pos(&t), (5, 1));
        assert_eq!(piece(&t), Block::new(Shape::T));
        assert_eq!(t.ticks(), 3);
        assert_eq!(t.ticks_per_step(), 30);
        assert_eq!(locked_cells(&t), 0);
        assert_eq!(upcoming(&t), vec![Shape::I, Shape::O, Shape::S]);
    }
    assert_eq!(t.on_event_with(Command::PauseToggle, &supply()), Reaction::Consumed);
    assert!(!t.is_paused());
    ticks(&mut t, 27);
    assert_eq!(pos(&t), (5, 2));
}

#[test]
fn pausing_does_not_lock_a_resting_piece() {
    let mut t = game(10, 20, Shape::T, [Shape::I, Shape::O, Shape::S]);
    t.on_event_with(Command::SoftDrop, &supply());
    ticks(&mut t, 18);
    assert!(t.is_resting());
    assert_eq!(t.on_event_with(Command::PauseToggle, &supply()), Reaction::Paused);
    assert!(t.is_resting());
    assert_eq!(locked_cells(&t), 0);
    ticks(&mut t, 50);
    assert_eq!(locked_cells(&t), 0);
    assert_eq!(t.on_event_with(Command::PauseToggle, &supply()), Reaction::Consumed);
    assert!(t.is_resting());
    assert_eq!(locked_cells(&t), 0);
    assert_eq!(pos(&t), (5, 19));
}

#[test]
fn a_blocked_entry_ends_the_game() {
    let mut t = game(4, 2, Shape::T, [Shape::O, Shape::I, Shape::S]);
    assert_eq!(t.on_event_with(Command::SoftDrop, &supply()), Reaction::Consumed);
    assert_eq!(t.on_event_with(Command::Tick, &supply()), Reaction::Consumed);
    assert!(t.is_resting());
    assert_eq!(pos(&t), (2, 1));
    assert!(!t.is_gameover());
    ticks(&mut t, 9);
    assert!(!t.is_gameover());
    assert_eq!(t.on_event_with(Command::Tick, &supply()), Reaction::GameOver);
    assert!(t.is_gameover());
    assert!(t.is_paused());
    assert_eq!(locked_cells(&t), 4);
    assert_eq!(piece(&t), Block::new(Shape::O));
    assert_eq!(pos(&t), (2, 1));
    assert_eq!(t.score().lines(), 0);
    let cells = snapshot(&t);
    for cmd in [
        Command::Tick,
        Command::MoveLeft,
        Command::MoveRight,
        Command::MoveLeftHard,
        Command::MoveRightHard,
        Command::RotateCw,
        Command::RotateCcw,
        Command::Flip,
        Command::SoftDrop,
        Command::HardDrop,
        Command::PauseToggle,
    ] {
        for _ in 0..40 {
            assert_eq!(t.on_event_with(cmd, &supply()), Reaction::Consumed);
        }
        assert!(t.is_gameover());
        assert!(t.is_paused());
        assert_eq!(pos(&t), (2, 1));
        assert_eq!(piece(&t), Block::new(Shape::O));
        assert_eq!(snapshot(&t), cells);
        assert_eq!(upcoming(&t), vec![Shape::I, Shape::S, Shape::I]);
    }
    assert_eq!(t.on_event_with(Command::NewGame, &supply()), Reaction::Consumed);
    assert!(!t.is_gameover());
    assert!(!t.is_paused());
    assert_eq!(locked_cells(&t), 0);
    assert_eq!(piece(&t), Block::new(Shape::Z));
    assert_eq!(pos(&t), (2, 1));
}

#[test]
fn a_hard_drop_onto_the_floor_where_the_piece_entered_does_not_end_the_game() {
    let mut t = game(4, 2, Shape::T, [Shape::O, Shape::I, Shape::S]);
    assert_eq!(t.on_event_with(Command::HardDrop, &supply()), Reaction::Consumed);
    assert!(!t.is_gameover());
    assert_eq!(locked_cells(&t), 4);
    assert_eq!(piece(&t), Block::new(Shape::O));
    assert_eq!(t.on_event_with(Command::HardDrop, &supply()), Reaction::Consumed);
    assert!(!t.is_gameover());
    assert_eq!(piece(&t), Block::new(Shape::I));
}

#[test]
fn forty_lines_end_the_game() {
    let mut t = game(4, 600, Shape::I, [Shape::I, Shape::I, Shape::I]);
    let mut lines = 0;
    for drop in 1..250 {
        if piece(&t).shape == Shape::I {
            lines += 1;
        }
        assert_eq!(t.on_event_with(Command::HardDrop, &supply()), Reaction::Consumed);
        assert_eq!(t.score().lines(), lines);
        assert!(!t.is_gameover());
        assert!(!t.is_paused());
        assert_eq!(pos(&t), (2, 1));
        if drop == 4 {
            assert_eq!(lines, 4);
            assert_eq!(locked_cells(&t), 0);
        }
    }
    assert_eq!(lines, 39);
    assert_eq!(piece(&t), Block::new(Shape::I));
    assert_eq!(t.on_event_with(Command::HardDrop, &supply()), Reaction::GameOver);
    assert_eq!(t.score().lines(), 40);
    assert!(t.score().is_gameover());
    assert!(t.is_gameover());
    assert!(t.is_paused());
    let cells = snapshot(&t);
    let block = piece(&t);
    let next = upcoming(&t);
    for cmd in [
        Command::MoveLeft,
        Command::MoveRight,
        Command::MoveLeftHard,
        Command::MoveRightHard,
        Command::RotateCw,
        Command::RotateCcw,
        Command::Flip,
        Command::SoftDrop,
        Command::HardDrop,
        Command::Tick,
        Command::PauseToggle,
    ] {
        for _ in 0..35 {
            assert_eq!(t.on_event_with(cmd, &supply()), Reaction::Consumed);
        }
        assert!(t.is_gameover());
        assert_eq!(t.score().lines(), 40);
        assert_eq!(pos(&t), (2, 1));
        assert_eq!(piece(&t), block);
        assert_eq!(upcoming(&t), next);
        assert_eq!(snapshot(&t), cells);
    }
    assert_eq!(t.on_event_with(Command::NewGame, &supply()), Reaction::Consumed);
    assert!(!t.is_gameover());
    assert!(!t.is_paused());
    assert!(!t.is_resting());
    assert_eq!(t.score().lines(), 0);
    assert_eq!(t.ticks(), 0);
    assert_eq!(t.ticks_per_step(), 30);
    assert_eq!(locked_cells(&t), 0);
    assert_eq!(piece(&t), Block::new(Shape::Z));
    assert_eq!(pos(&t), (2, 1));
    assert_eq!(upcoming(&t), vec![Shape::J, Shape::L, Shape::S]);
    assert_eq!(t.queue().shapes(), supply().bag);
    assert_eq!(t.on_event_with(Command::MoveLeft, &supply()), Reaction::Consumed);
    assert_eq!(pos(&t), (1, 1));
}

#[test]
fn a_new_game_starts_from_any_state() {
    let mut t = game(10, 20, Shape::T, [Shape::I, Shape::O, Shape::S]);
    t.on_event_with(Command::HardDrop, &supply());
    t.on_event_with(Command::SoftDrop, &supply());
    ticks(&mut t, 16);
    assert!(t.is_resting());
    assert_eq!(t.on_event_with(Command::PauseToggle, &supply()), Reaction::Paused);
    assert_eq!(t.on_event_with(Command::NewGame, &supply()), Reaction::Consumed);
    assert!(!t.is_paused());
    assert!(!t.is_resting());
    assert!(!t.is_gameover());
    assert_eq!(t.ticks(), 0);
    assert_eq!(t.ticks_per_step(), 30);
    assert_eq!(t.score().lines(), 0);
    assert_eq!(locked_cells(&t), 0);
    assert_eq!(t.board().grid().width(), 10);
    assert_eq!(t.board().grid().height(), 20);
    assert_eq!(piece(&t), Block::new(Shape::Z));
    assert_eq!(pos(&t), (5, 1));
    assert_eq!(upcoming(&t), vec![Shape::J, Shape::L, Shape::S]);
    assert_eq!(t.queue().shapes(), supply().bag);
}

#[test]
fn cleared_lines_are_scored() {
    let mut t = game(4, 8, Shape::O, [Shape::O, Shape::I, Shape::T]);
    t.on_event_with(Command::MoveLeft, &supply());
    assert_eq!(t.on_event_with(Command::HardDrop, &supply()), Reaction::Consumed);
    assert_eq!(t.score().lines(), 0);
    assert_eq!(locked_cells(&t), 4);
    t.on_event_with(Command::MoveRight, &supply());
    assert_eq!(t.on_event_with(Command::HardDrop, &supply()), Reaction::Consumed);
    assert_eq!(t.score().lines(), 2);
    assert_eq!(locked_cells(&t), 0);
    assert_eq!(piece(&t), Block::new(Shape::I));
    assert_eq!(t.on_event_with(Command::HardDrop, &supply()), Reaction::Consumed);
    assert_eq!(t.score().lines(), 3);
    assert_eq!(locked_cells(&t), 0);
    assert_eq!(piece(&t), Block::new(Shape::T));
}

#[test]
fn a_game_with_random_pieces_keeps_its_piece_clear_of_the_locked_cells() {
    let script = [
        Command::Tick,
        Command::MoveLeft,
        Command::RotateCw,
        Command::Tick,
        Command::MoveRightHard,
        Command::Flip,
        Command::SoftDrop,
        Command::Tick,
        Command::MoveLeftHard,
        Command::RotateCcw,
        Command::MoveRight,
        Command::HardDrop,
        Command::Tick,
        Command::PauseToggle,
        Command::PauseToggle,
    ];
    let mut t = Tetris::new();
    let mut over = 0;
    for step in 0..6000 {
        let cmd = script[(step * 7 + step / 11) % script.len()];
        let reaction = t.on_event(cmd);
        let g = t.board().grid();
        let p = g.block();
        assert!(g.piece_is_inside());
        let clear = p.cells().iter().all(|&(x, y)| !g.is_occupied(x as usize, y as usize));
        assert!(clear || p.pos == (5, 1));
        assert_eq!(t.queue().blocks().len(), 3);
        assert!(t.queue().shapes().len() <= 7);
        assert!(t.ticks() < t.ticks_per_step());
        assert!(t.ticks_per_step() <= 30);
        assert_eq!(t.is_gameover(), reaction == Reaction::GameOver);
        assert!(t.score().lines() < 40 || t.is_gameover());
        assert!(SHAPES.contains(&p.block.shape));
        if t.is_gameover() {
            over += 1;
            assert!(t.is_paused());
            assert_eq!(t.on_event(Command::MoveLeft), Reaction::Consumed);
            assert!(t.is_gameover());
            assert_eq!(t.on_event(Command::NewGame), Reaction::Consumed);
            assert!(!t.is_gameover());
            assert_eq!(t.score().lines(), 0);
            assert_eq!(t.queue().shapes().len(), 7);
        }
    }
    assert!(over > 0);
}

#[test]
fn a_drawn_supply_holds_a_full_bag() {
    for _ in 0..20 {
        let s = Supply::draw();
        assert_eq!(s.bag.len(), 7);
        for shape in SHAPES {
            assert_eq!(s.bag.iter().filter(|b| **b == shape).count(), 1);
        }
        assert!(SHAPES.contains(&s.piece));
        assert!(s.lookahead.iter().all(|l| SHAPES.contains(l)));
    }
}

#[test]
fn a_game_with_random_pieces_refills_its_bag_with_every_shape() {
    let mut t = Tetris::new();
    let mut refills = 0;
    for _ in 0..60 {
        let before = upcoming(&t);
        let bag = t.queue().shapes();
        assert_eq!(t.on_event(Command::HardDrop), Reaction::Consumed);
        assert_eq!(piece(&t), Block::new(before[0]));
        assert_eq!(pos(&t), (5, 1));
        assert_eq!(upcoming(&t)[0..2].to_vec(), before[1..3].to_vec());
        let after = t.queue().shapes();
        let dealt = upcoming(&t)[2];
        if bag.is_empty() {
            refills += 1;
            assert_eq!(after.len(), 6);
            for shape in SHAPES {
                assert_eq!(after.contains(&shape), shape != dealt);
            }
        } else {
            assert_eq!(after, bag[..bag.len() - 1].to_vec());
            assert_eq!(dealt, bag[bag.len() - 1]);
        }
    }
    assert_eq!(refills, 8);
}
