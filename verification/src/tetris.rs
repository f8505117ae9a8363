use vstd::prelude::*;
use crate::block::{BColor, Rotation, Shape, all_shapes, is_full_bag, lemma_full_bag};
use crate::board::Board;
use crate::command::{Command, Reaction};
use crate::grid_model::{
    GridView, MAX_CELLS, blank_rows, lemma_after, lemma_entered_inside, lemma_merged, lemma_slid,
};
use crate::lrd::LRD;
use crate::queue::{Queue, QueueView, lemma_popped_wf, stocked};
use crate::score::{PERFECT, Score, ScoreView};

verus! {

/// Ticks per row while a piece falls freely.
pub const SLOW_SPEED: usize = 30;

/// Ticks that a piece may rest before it is locked.
pub const NORMAL_SPEED: usize = 10;

/// Ticks per row once the player lets the piece fall fast.
pub const FAST_SPEED: usize = 1;

/// Ticks that a move or a turn of a resting piece adds to its rest.
pub const LOCK_DELAY_GAIN: usize = 3;

/// The longest rest that moves and turns can win.
pub const LOCK_DELAY_CAP: usize = 20;

/// The width of the board of a game.
pub const BOARD_WIDTH: usize = 10;

/// The height of the board of a game.
pub const BOARD_HEIGHT: usize = 20;

/// What chance decides in one command: the shape that a new game starts with,
/// the shapes that it shows as upcoming, and the order in which a bag is
/// refilled.
pub struct Supply {
    pub piece: Shape,
    pub lookahead: [Shape; 3],
    pub bag: Vec<Shape>,
}

/// The mathematical model of a `Supply`.
pub struct SupplyView {
    pub piece: Shape,
    pub lookahead: Seq<Shape>,
    pub bag: Seq<Shape>,
}

impl SupplyView {
    /// Validity of a supply: its bag holds each shape once.
    pub open spec fn wf(self) -> bool {
        self.lookahead.len() == 3 && is_full_bag(self.bag)
    }
}

impl View for Supply {
    type V = SupplyView;

    open spec fn view(&self) -> SupplyView {
        SupplyView { piece: self.piece, lookahead: self.lookahead@, bag: self.bag@ }
    }
}

impl Supply {
    /// A supply drawn at random.
    pub fn draw() -> (s: Supply)
        ensures
            s@.wf(),
    {
        Supply {
            piece: Shape::random(),
            lookahead: [Shape::random(), Shape::random(), Shape::random()],
            bag: Shape::all(),
        }
    }

    /// A supply for a command that leaves nothing to chance: it is valid,
    /// and nothing of it is used.
    fn spare() -> (s: Supply)
        ensures
            s@.wf(),
    {
        let bag = vec![
            Shape::I,
            Shape::O,
            Shape::T,
            Shape::S,
            Shape::Z,
            Shape::J,
            Shape::L,
        ];
        assert(bag@ =~= all_shapes());
        Supply { piece: Shape::I, lookahead: [Shape::I, Shape::I, Shape::I], bag }
    }
}

/// The mathematical model of a game.
pub struct TetrisView {
    /// The board with the piece in play.
    pub board: GridView,
    /// The supply of pieces.
    pub queue: QueueView,
    /// The lines cleared, and the number of lines that ends the game.
    pub score: ScoreView,
    /// Whether the game is paused.
    pub paused: bool,
    /// Whether the piece in play is resting: the next fall locks it.
    pub resting: bool,
    /// The ticks counted since the piece last fell.
    pub ticks: nat,
    /// The number of ticks at which the piece falls.
    pub tier: nat,
    /// Whether the game is over.
    pub over: bool,
}

impl TetrisView {
    /// Validity of a game: its parts are valid, the piece in play lies on the
    /// board and covers no locked cell unless it stands where it entered,
    /// the tick counter is below the number of ticks at which the piece
    /// falls, and the game is over once the score is reached.
    pub open spec fn wf(self) -> bool {
        &&& self.board.wf()
        &&& self.board.piece_inside()
        &&& self.board.piece_clear()
        &&& self.queue.wf()
        &&& 0 < self.score.perfect <= MAX_CELLS
        &&& self.score.reached() ==> self.over
        &&& self.ticks < self.tier <= SLOW_SPEED
        &&& self.resting ==> self.tier <= LOCK_DELAY_CAP
    }

    /// The state in which a game starts on this board, with what `supply`
    /// holds.
    pub open spec fn restarted(self, supply: SupplyView) -> TetrisView {
        TetrisView {
            board: self.board.renewed(supply.piece),
            queue: stocked(supply.lookahead, supply.bag),
            score: ScoreView { lines: 0, perfect: self.score.perfect },
            paused: false,
            resting: false,
            ticks: 0,
            tier: SLOW_SPEED as nat,
            over: false,
        }
    }

    /// This game ended.
    pub open spec fn ended(self) -> TetrisView {
        TetrisView { over: true, paused: true, ..self }
    }

    /// This game, ended if the score is reached.
    pub open spec fn scored(self) -> TetrisView {
        if self.score.reached() {
            self.ended()
        } else {
            self
        }
    }

    /// This game after the piece in play has been locked: the full rows are
    /// cleared and counted, the first of the upcoming pieces enters at the
    /// spawn anchor, and the timing starts anew. Where the bag is used up it
    /// is refilled with `bag`.
    pub open spec fn locked_in(self, bag: Seq<Shape>) -> TetrisView {
        TetrisView {
            board: self.board.merged().entered(self.queue.blocks[0]),
            queue: self.queue.popped(bag),
            score: self.score.plus(self.board.locked().full_count() as nat),
            resting: false,
            ticks: 0,
            tier: SLOW_SPEED as nat,
            ..self
        }
    }

    /// This game after the piece in play has been let fall: one row, or as
    /// far as it can where `is_drop` is set. A piece that has just entered
    /// (`is_begin`) and cannot fall ends the game. A piece dropped is locked
    /// at once; a piece that has fallen one row and can fall no further, or
    /// could not fall, is resting from now on.
    pub open spec fn fell(self, is_drop: bool, is_begin: bool, bag: Seq<Shape>) -> TetrisView {
        let run = self.board.run(LRD::Down);
        let moved = TetrisView { board: self.board.slid(LRD::Down, is_drop), ..self };
        if is_begin && run == 0 {
            moved.ended()
        } else if is_drop {
            moved.locked_in(bag).scored()
        } else if run <= 1 {
            TetrisView { resting: true, ticks: 0, tier: NORMAL_SPEED as nat, ..moved }
        } else {
            moved
        }
    }

    /// This game after a command that makes the piece fall: a resting piece
    /// is locked first, and the command then applies to the piece that has
    /// entered.
    pub open spec fn lowered(self, cmd: Command, bag: Seq<Shape>) -> TetrisView {
        let next = if self.resting {
            self.locked_in(bag)
        } else {
            self
        };
        if next.score.reached() {
            next.ended()
        } else {
            match cmd {
                Command::SoftDrop => TetrisView { tier: FAST_SPEED as nat, ticks: 0, ..next },
                Command::HardDrop => next.fell(true, self.resting, bag),
                _ => next.fell(false, self.resting, bag),
            }
        }
    }

    /// The rest that a move or a turn of a resting piece wins.
    pub open spec fn extended(tier: nat) -> nat {
        if tier + LOCK_DELAY_GAIN <= LOCK_DELAY_CAP {
            tier + LOCK_DELAY_GAIN as nat
        } else {
            LOCK_DELAY_CAP as nat
        }
    }

    /// This game after a command that moves or turns the piece in play.
    pub open spec fn steered(self, cmd: Command) -> TetrisView {
        TetrisView {
            board: self.board.after(cmd, self.resting),
            tier: if self.resting && self.board.moves(cmd) {
                Self::extended(self.tier)
            } else {
                self.tier
            },
            ..self
        }
    }

    /// This game after one tick of the timer.
    pub open spec fn ticked(self, bag: Seq<Shape>) -> TetrisView {
        if self.ticks + 1 >= self.tier {
            (TetrisView { ticks: 0, ..self }).lowered(Command::Tick, bag)
        } else {
            TetrisView { ticks: self.ticks + 1, ..self }
        }
    }

    /// This game after the command `cmd`, where chance decides as `supply`
    /// says. A new game starts from any state. A game that is over ignores
    /// every other command, and a paused game every command but the one that
    /// resumes it.
    pub open spec fn after(self, cmd: Command, supply: SupplyView) -> TetrisView {
        if cmd == Command::NewGame {
            self.restarted(supply)
        } else if self.over {
            self
        } else if cmd == Command::PauseToggle {
            TetrisView { paused: !self.paused, ..self }
        } else if self.paused {
            self
        } else {
            match cmd {
                Command::Tick => self.ticked(supply.bag),
                Command::SoftDrop | Command::HardDrop => self.lowered(cmd, supply.bag),
                _ => self.steered(cmd),
            }
        }
    }

    /// What the host is told after the command `cmd`: that the game is
    /// paused when the command paused it, that it is over when the command
    /// ended it, and nothing more otherwise.
    pub open spec fn reaction(self, cmd: Command, supply: SupplyView) -> Reaction {
        let next = self.after(cmd, supply);
        if cmd == Command::NewGame || self.over {
            Reaction::Consumed
        } else if cmd == Command::PauseToggle {
            if next.paused {
                Reaction::Paused
            } else {
                Reaction::Consumed
            }
        } else if next.over {
            Reaction::GameOver
        } else {
            Reaction::Consumed
        }
    }
}

/// The falling-block game: a board, a supply of pieces, a score, and the
/// timing of falls and locks.
pub struct Tetris {
    board: Board,
    queue: Queue,
    score: Score,
    is_paused: bool,
    hit_bottom: bool,
    frame_idx: usize,
    max_frame_idx: usize,
    gameover: bool,
}

impl View for Tetris {
    type V = TetrisView;

    closed spec fn view(&self) -> TetrisView {
        TetrisView {
            board: self.board@,
            queue: self.queue@,
            score: self.score@,
            paused: self.is_paused,
            resting: self.hit_bottom,
            ticks: self.frame_idx as nat,
            tier: self.max_frame_idx as nat,
            over: self.gameover,
        }
    }
}

impl Default for Tetris {
    /// A new game, as `Tetris::new` makes it.
    fn default() -> (t: Tetris)
        ensures
            t.wf(),
    {
        Self::new()
    }
}

impl Tetris {
    /// What the representation keeps beyond the model.
    pub closed spec fn inv(&self) -> bool {
        self.board.inv()
    }

    /// Validity of a game.
    pub open spec fn wf(&self) -> bool {
        self.inv() && self@.wf()
    }

    /// A new game on an empty board of `BOARD_WIDTH` by `BOARD_HEIGHT` cells,
    /// with pieces chosen at random: nothing scored, not paused, the piece
    /// falling slowly.
    pub fn new() -> (t: Tetris)
        ensures
            t.wf(),
            t@.board.width == BOARD_WIDTH,
            t@.board.height == BOARD_HEIGHT,
            t@.board.rows == blank_rows(
                t@.board.background,
                BOARD_WIDTH as int,
                BOARD_HEIGHT as int,
            ),
            t@.board.background == (BColor::GRID1, BColor::GRID2),
            t@.board.at == t@.board.spawn(),
            t@.board.piece.rotation == Rotation::R0,
            t@.score == (ScoreView { lines: 0, perfect: PERFECT as nat }),
            !t@.paused,
            !t@.resting,
            !t@.over,
            t@.ticks == 0,
            t@.tier == SLOW_SPEED,
            is_full_bag(t@.queue.shapes),
    {
        let board = Board::new(BOARD_WIDTH, BOARD_HEIGHT).unwrap();
        proof {
            lemma_entered_inside(board@, board@.piece);
            assert(board@.entered(board@.piece) == board@);
        }
        Tetris {
            board,
            queue: Queue::new(),
            score: Score::new(),
            is_paused: false,
            hit_bottom: false,
            frame_idx: 0,
            max_frame_idx: SLOW_SPEED,
            gameover: false,
        }
    }

    /// A game on the given board with the given supply of pieces, in the
    /// state in which a game starts, or nothing where the piece in play does
    /// not lie on the board, or covers a locked cell elsewhere than at the
    /// spawn anchor.
    pub fn from_parts(board: Board, queue: Queue) -> (t: Option<Tetris>)
        requires
            board.wf(),
            queue.wf(),
        ensures
            t is Some <==> board@.piece_inside() && board@.piece_clear(),
            t matches Some(game) ==> {
                &&& game.wf()
                &&& game@ == (TetrisView {
                    board: board@,
                    queue: queue@,
                    score: ScoreView { lines: 0, perfect: PERFECT as nat },
                    paused: false,
                    resting: false,
                    ticks: 0,
                    tier: SLOW_SPEED as nat,
                    over: false,
                })
            },
    {
        if !board.piece_is_inside() || !board.piece_is_clear() {
            return None;
        }
        Some(
            Tetris {
                board,
                queue,
                score: Score::new(),
                is_paused: false,
                hit_bottom: false,
                frame_idx: 0,
                max_frame_idx: SLOW_SPEED,
                gameover: false,
            },
        )
    }

    /// The board with the piece in play.
    pub fn board(&self) -> (b: &Board)
        requires
            self.wf(),
        ensures
            b@ == self@.board,
            b.wf(),
    {
        &self.board
    }

    /// The supply of pieces.
    pub fn queue(&self) -> (q: &Queue)
        ensures
            q@ == self@.queue,
    {
        &self.queue
    }

    /// The score.
    pub fn score(&self) -> (s: &Score)
        ensures
            s@ == self@.score,
    {
        &self.score
    }

    /// Whether the game is paused.
    pub fn is_paused(&self) -> (b: bool)
        ensures
            b == self@.paused,
    {
        self.is_paused
    }

    /// Whether the game is over.
    pub fn is_gameover(&self) -> (b: bool)
        ensures
            b == self@.over,
    {
        self.gameover
    }

    /// Whether the piece in play is resting.
    pub fn is_resting(&self) -> (b: bool)
        ensures
            b == self@.resting,
    {
        self.hit_bottom
    }

    /// The ticks counted since the piece last fell.
    pub fn ticks(&self) -> (n: usize)
        ensures
            n == self@.ticks,
    {
        self.frame_idx
    }

    /// The number of ticks at which the piece falls.
    pub fn ticks_per_step(&self) -> (n: usize)
        ensures
            n == self@.tier,
    {
        self.max_frame_idx
    }

    /// Carries out the command `event`, with pieces chosen at random where
    /// the command needs any, and tells what the host is to do. Chance is
    /// asked only for a new game and where the bag may have to be refilled:
    /// a command locks two pieces at most.
    pub fn on_event(&mut self, event: Command) -> (reaction: Reaction)
        requires
            old(self).wf(),
        ensures
            final(self).wf(),
            exists|supply: SupplyView|
                supply.wf() && final(self)@ == #[trigger] old(self)@.after(event, supply)
                    && reaction == old(self)@.reaction(event, supply),
    {
        let supply = if event == Command::NewGame || self.queue.remaining() < 2 {
            Supply::draw()
        } else {
            Supply::spare()
        };
        self.on_event_with(event, &supply)
    }

    /// Carries out the command `event`, with the pieces that `supply` holds
    /// where the command needs any, and tells what the host is to do.
    pub fn on_event_with(&mut self, event: Command, supply: &Supply) -> (reaction: Reaction)
        requires
            old(self).wf(),
            supply@.wf(),
        ensures
            final(self).wf(),
            final(self)@ == old(self)@.after(event, supply@),
            reaction == old(self)@.reaction(event, supply@),
    {
        match event {
            Command::NewGame => self.new_game(supply),
            Command::Tick | Command::SoftDrop | Command::HardDrop | Command::PauseToggle => {
                self.handle_merge_and_pass(event, supply)
            },
            _ => self.pass_event_to_board(event),
        }
    }

    /// Carries out a command of time, of falling or of pausing.
    fn handle_merge_and_pass(&mut self, event: Command, supply: &Supply) -> (reaction: Reaction)
        requires
            old(self).wf(),
            supply@.wf(),
            event == Command::Tick || event == Command::SoftDrop || event == Command::HardDrop
                || event == Command::PauseToggle,
        ensures
            final(self).wf(),
            final(self)@ == old(self)@.after(event, supply@),
            reaction == old(self)@.reaction(event, supply@),
    {
        if self.gameover {
            return Reaction::Consumed;
        }
        if event == Command::PauseToggle {
            return self.stop_and_resume();
        }
        if self.is_paused {
            return Reaction::Consumed;
        }
        if event == Command::Tick {
            self.frame_idx += 1;
            if self.frame_idx < self.max_frame_idx {
                return Reaction::Consumed;
            }
            self.frame_idx = 0;
        }
        let is_begin = self.hit_bottom;
        if self.hit_bottom {
            self.merge_block(supply);
            if self.score.is_gameover() {
                return self.end_game();
            }
        }
        match event {
            Command::SoftDrop => self.speed_up(),
            Command::HardDrop => self.on_down(true, is_begin, supply),
            _ => self.on_down(false, is_begin, supply),
        }
    }

    /// Lets the piece fall fast from now on.
    fn speed_up(&mut self) -> (reaction: Reaction)
        requires
            old(self).wf(),
        ensures
            final(self).wf(),
            final(self)@ == (TetrisView { tier: FAST_SPEED as nat, ticks: 0, ..old(self)@ }),
            reaction == Reaction::Consumed,
    {
        self.max_frame_idx = FAST_SPEED;
        self.frame_idx = 0;
        Reaction::Consumed
    }

    /// Starts a new game on the same board.
    fn new_game(&mut self, supply: &Supply) -> (reaction: Reaction)
        requires
            old(self).wf(),
            supply@.wf(),
        ensures
            final(self).wf(),
            final(self)@ == old(self)@.restarted(supply@),
            reaction == Reaction::Consumed,
    {
        self.board.renew_with(supply.piece);
        self.score.renew();
        self.queue.renew_with(supply.lookahead, &supply.bag);
        self.is_paused = false;
        self.hit_bottom = false;
        self.frame_idx = 0;
        self.max_frame_idx = SLOW_SPEED;
        self.gameover = false;
        proof {
            lemma_entered_inside(
                old(self)@.board.renewed(supply.piece),
                old(self)@.board.renewed(supply.piece).piece,
            );
            assert(old(self)@.board.renewed(supply.piece).entered(
                old(self)@.board.renewed(supply.piece).piece,
            ) == old(self)@.board.renewed(supply.piece));
        }
        Reaction::Consumed
    }

    /// Pauses the game, or resumes it.
    fn stop_and_resume(&mut self) -> (reaction: Reaction)
        requires
            old(self).wf(),
        ensures
            final(self).wf(),
            final(self)@ == (TetrisView { paused: !old(self)@.paused, ..old(self)@ }),
            reaction == if old(self)@.paused {
                Reaction::Consumed
            } else {
                Reaction::Paused
            },
    {
        self.toggle_pause();
        if self.is_paused {
            Reaction::Paused
        } else {
            Reaction::Consumed
        }
    }

    /// Flips the pause flag.
    fn toggle_pause(&mut self)
        ensures
            final(self).inv() == old(self).inv(),
            final(self)@ == (TetrisView { paused: !old(self)@.paused, ..old(self)@ }),
    {
        self.is_paused = !self.is_paused;
    }

    /// Ends the game.
    fn end_game(&mut self) -> (reaction: Reaction)
        requires
            old(self).inv(),
            old(self)@.locked_wf(),
            !old(self)@.paused,
        ensures
            final(self).wf(),
            final(self)@ == old(self)@.ended(),
            reaction == Reaction::GameOver,
    {
        self.gameover = true;
        self.toggle_pause();
        Reaction::GameOver
    }

    /// Lets the piece in play fall, and ends the game, locks the piece or
    /// lets it rest as the fall ends.
    fn on_down(&mut self, is_drop: bool, is_begin: bool, supply: &Supply) -> (reaction: Reaction)
        requires
            old(self).wf(),
            supply@.wf(),
            !old(self)@.paused,
            !old(self)@.over,
        ensures
            final(self).wf(),
            final(self)@ == old(self)@.fell(is_drop, is_begin, supply@.bag),
            reaction == if final(self)@.over {
                Reaction::GameOver
            } else {
                Reaction::Consumed
            },
    {
        proof {
            lemma_slid(self@.board, LRD::Down, is_drop);
        }
        let (gameover, hit_bottom) = self.board.on_down(is_drop, is_begin);
        if gameover {
            return self.end_game();
        }
        if hit_bottom {
            if is_drop {
                self.merge_block(supply);
                if self.score.is_gameover() {
                    return self.end_game();
                }
            } else {
                self.hit_bottom = hit_bottom;
                self.frame_idx = 0;
                self.max_frame_idx = NORMAL_SPEED;
            }
        }
        Reaction::Consumed
    }

    /// Locks the piece in play, counts the rows cleared, and puts the next
    /// piece into play.
    fn merge_block(&mut self, supply: &Supply)
        requires
            old(self).wf(),
            supply@.wf(),
            !old(self)@.over,
        ensures
            final(self).inv(),
            final(self)@ == old(self)@.locked_in(supply@.bag),
            final(self)@.locked_wf(),
    {
        proof {
            lemma_merged(self@.board);
            lemma_entered_inside(self@.board.merged(), self@.queue.blocks[0]);
        }
        let score = self.board.merge_block();
        self.score.add(score);
        let block = self.queue.pop_and_spawn_from(&supply.bag);
        self.board.insert(block);
        self.hit_bottom = false;
        self.max_frame_idx = SLOW_SPEED;
        self.frame_idx = 0;
    }

    /// Carries out a command that moves or turns the piece in play. A piece
    /// that is resting and was moved or turned rests a little longer.
    fn pass_event_to_board(&mut self, event: Command) -> (reaction: Reaction)
        requires
            old(self).wf(),
            event != Command::NewGame,
            event != Command::Tick,
            event != Command::SoftDrop,
            event != Command::HardDrop,
            event != Command::PauseToggle,
        ensures
            final(self).wf(),
            final(self)@ == if old(self)@.paused || old(self)@.over {
                old(self)@
            } else {
                old(self)@.steered(event)
            },
            reaction == Reaction::Consumed,
    {
        if self.is_paused || self.gameover {
            return Reaction::Consumed;
        }
        proof {
            lemma_after(self@.board, event, self@.resting);
        }
        let moved = self.board.handle_event(event, self.hit_bottom);
        if self.hit_bottom && moved {
            self.max_frame_idx = if LOCK_DELAY_GAIN + self.max_frame_idx <= LOCK_DELAY_CAP {
                LOCK_DELAY_GAIN + self.max_frame_idx
            } else {
                LOCK_DELAY_CAP
            };
        }
        Reaction::Consumed
    }
}

impl TetrisView {
    /// Validity of a game in which a piece has just been locked: as `wf`, but
    /// the score may be reached while the game is not yet ended.
    pub open spec fn locked_wf(self) -> bool {
        &&& self.board.wf()
        &&& self.board.piece_inside()
        &&& self.board.piece_clear()
        &&& self.queue.wf()
        &&& 0 < self.score.perfect <= MAX_CELLS
        &&& self.score.lines <= self.score.perfect + MAX_CELLS
        &&& self.ticks < self.tier <= SLOW_SPEED
        &&& self.resting ==> self.tier <= LOCK_DELAY_CAP
    }
}

/// Locking the piece in play leaves a game valid but for the score, which
/// may be reached before the game is ended.
pub proof fn lemma_locked_in(t: TetrisView, bag: Seq<Shape>)
    requires
        t.wf(),
        !t.over,
        is_full_bag(bag),
    ensures
        t.locked_in(bag).locked_wf(),
        t.locked_in(bag).scored().wf(),
        !t.locked_in(bag).over,
        t.locked_in(bag).paused == t.paused,
{
    lemma_merged(t.board);
    lemma_entered_inside(t.board.merged(), t.queue.blocks[0]);
    lemma_popped_wf(t.queue, bag);
}

/// A fall leaves a valid game valid.
pub proof fn lemma_fell(t: TetrisView, is_drop: bool, is_begin: bool, bag: Seq<Shape>)
    requires
        t.wf(),
        !t.over,
        is_full_bag(bag),
    ensures
        t.fell(is_drop, is_begin, bag).wf(),
{
    lemma_slid(t.board, LRD::Down, is_drop);
    let moved = TetrisView { board: t.board.slid(LRD::Down, is_drop), ..t };
    lemma_locked_in(moved, bag);
}

/// Validity is an invariant of the game: whatever the command and whatever
/// chance decides, a valid game is valid after it. In particular the piece in
/// play always lies on the board, and covers a locked cell only where it
/// stands at the spawn anchor, where it entered.
pub proof fn lemma_after_is_valid(t: TetrisView, cmd: Command, supply: SupplyView)
    requires
        t.wf(),
        supply.wf(),
    ensures
        t.after(cmd, supply).wf(),
{
    if cmd == Command::NewGame {
        let board = t.board.renewed(supply.piece);
        lemma_entered_inside(board, board.piece);
        assert(board.entered(board.piece) == board);
        lemma_full_bag(supply.bag);
    } else if t.over || cmd == Command::PauseToggle || t.paused {
    } else {
        match cmd {
            Command::Tick | Command::SoftDrop | Command::HardDrop => {
                let start = if cmd == Command::Tick {
                    TetrisView { ticks: 0, ..t }
                } else {
                    t
                };
                if start.resting {
                    lemma_locked_in(start, supply.bag);
                }
                let next = if start.resting {
                    start.locked_in(supply.bag)
                } else {
                    start
                };
                if !next.score.reached() {
                    lemma_fell(next, cmd == Command::HardDrop, start.resting, supply.bag);
                }
            },
            _ => {
                lemma_after(t.board, cmd, t.resting);
            },
        }
    }
}

/// A game that is over stays as it is until a new game starts, and a paused
/// game until it is resumed or a new game starts.
pub proof fn lemma_ignored_commands(t: TetrisView, cmd: Command, supply: SupplyView)
    requires
        cmd != Command::NewGame,
    ensures
        t.over ==> t.after(cmd, supply) == t && t.reaction(cmd, supply) == Reaction::Consumed,
        t.paused && cmd != Command::PauseToggle ==> t.after(cmd, supply) == t && t.reaction(
            cmd,
            supply,
        ) == Reaction::Consumed,
{
}

} // verus!
