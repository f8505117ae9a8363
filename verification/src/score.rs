use vstd::prelude::*;

verus! {

/// The number of cleared lines that ends the game.
pub const PERFECT: usize = 40;

/// The lines cleared so far, and the number of lines that ends the game.
pub struct Score {
    score: usize,
    perfect: usize,
}

/// The mathematical model of a score.
pub struct ScoreView {
    pub lines: nat,
    pub perfect: nat,
}

impl ScoreView {
    /// Whether the number of lines that ends the game has been reached.
    pub open spec fn reached(self) -> bool {
        self.lines >= self.perfect
    }

    /// This score with `lines` more lines cleared.
    pub open spec fn plus(self, lines: nat) -> ScoreView {
        ScoreView { lines: self.lines + lines, perfect: self.perfect }
    }
}

impl View for Score {
    type V = ScoreView;

    closed spec fn view(&self) -> ScoreView {
        ScoreView { lines: self.score as nat, perfect: self.perfect as nat }
    }
}

impl Default for Score {
    /// No line cleared, and `PERFECT` lines to clear.
    fn default() -> (s: Score)
        ensures
            s@ == (ScoreView { lines: 0, perfect: PERFECT as nat }),
    {
        Self { score: 0, perfect: PERFECT }
    }
}

impl Score {
    /// No line cleared, and `PERFECT` lines to clear.
    pub fn new() -> (s: Score)
        ensures
            s@ == (ScoreView { lines: 0, perfect: PERFECT as nat }),
    {
        Self { score: 0, perfect: PERFECT }
    }

    /// Counts `s` more cleared lines.
    pub fn add(&mut self, s: usize)
        requires
            old(self)@.lines + s <= usize::MAX,
        ensures
            final(self)@ == old(self)@.plus(s as nat),
    {
        self.score += s
    }

    /// Whether the number of lines that ends the game has been reached.
    pub fn is_gameover(&self) -> (over: bool)
        ensures
            over == self@.reached(),
    {
        self.score >= self.perfect
    }

    /// Starts counting again from zero.
    pub fn renew(&mut self)
        ensures
            final(self)@ == (ScoreView { lines: 0, perfect: old(self)@.perfect }),
    {
        self.score = 0;
    }

    /// The number of lines cleared so far.
    pub fn lines(&self) -> (n: usize)
        ensures
            n == self@.lines,
    {
        self.score
    }

    /// The number of lines that ends the game.
    pub fn perfect(&self) -> (n: usize)
        ensures
            n == self@.perfect,
    {
        self.perfect
    }
}

} // verus!
