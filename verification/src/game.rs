//! The game: a running score over an endless series of puzzles.

use vstd::prelude::*;
use crate::rng::{SimpleRng, SEED_MIX};
use crate::puzzle::{Puzzle, yes_no, yes_no_text};
use crate::text::{push_decimal, decimal};

verus! {

/// The fewest points a right answer wins.
pub const LEAST_POINTS: u32 = 5;

/// The most points a right answer wins.
pub const MOST_POINTS: u32 = 25;

/// The message after a right answer worth `awarded` points, given in
/// `elapsed` seconds (as shown), with the puzzle's explanation.
pub open spec fn correct_text(awarded: u32, elapsed: Seq<char>, explanation: Seq<char>) -> Seq<char> {
    "Correct. +"@ + decimal(awarded as nat) + " points in "@ + elapsed + "s. "@ + explanation
}

/// The message after a wrong answer given in `elapsed` seconds (as shown).
pub open spec fn wrong_text(elapsed: Seq<char>, answer: bool, explanation: Seq<char>) -> Seq<char> {
    "Wrong after "@ + elapsed + "s. Correct answer: "@ + yes_no_text(answer) + ". "@ + explanation
}

/// The message after a skipped puzzle.
pub open spec fn skipped_text(answer: bool, explanation: Seq<char>) -> Seq<char> {
    "Skipped. Correct answer: "@ + yes_no_text(answer) + ". "@ + explanation
}

/// The state of a game: the random source, the current puzzle, the score,
/// and the message about the last round.
pub struct GameState {
    /// Where puzzles come from.
    pub rng: SimpleRng,
    /// The puzzle being asked.
    pub puzzle: Puzzle,
    /// Points won.
    pub score: u32,
    /// Puzzles answered right.
    pub solved: u32,
    /// Right answers since the last wrong answer or skip.
    pub streak: u32,
    /// The longest streak so far.
    pub best_streak: u32,
    /// What happened in the last round, if there was one.
    pub feedback: Option<String>,
}

impl GameState {
    /// The puzzle is consistent, no streak exceeds the best streak, and the
    /// best streak is no longer than the number of puzzles solved. Every
    /// operation of the game keeps it.
    pub open spec fn inv(&self) -> bool {
        &&& self.puzzle.wf()
        &&& self.streak <= self.best_streak <= self.solved
    }

    /// The score is what `solved` right answers can win, each worth between
    /// `LEAST_POINTS` and `MOST_POINTS`. Every operation keeps it, as long as
    /// each right answer is awarded points in that range.
    pub open spec fn score_in_range(&self) -> bool {
        LEAST_POINTS * self.solved <= self.score <= MOST_POINTS * self.solved
    }

    /// The puzzle of a game that keeps its invariant can be answered.
    pub proof fn lemma_inv_answerable(&self)
        requires
            self.inv(),
        ensures
            self.puzzle.answerable(),
    {
        self.puzzle.lemma_wf_answerable();
    }

    /// A new game seeded with `entropy`: a first puzzle, nothing scored.
    pub fn new(entropy: u64) -> (g: Self)
        ensures
            g.puzzle.drawn_from(entropy ^ SEED_MIX, g.rng@),
            g.score == 0,
            g.solved == 0,
            g.streak == 0,
            g.best_streak == 0,
            g.feedback is None,
            g.inv(),
            g.score_in_range(),
    {
        let mut rng = SimpleRng::seeded(entropy);
        let puzzle = Puzzle::generate(&mut rng);
        GameState { rng, puzzle, score: 0, solved: 0, streak: 0, best_streak: 0, feedback: None }
    }

    /// Answers the current puzzle with `guess`, `elapsed` (the seconds taken,
    /// as shown) after it was posed. A right answer wins `awarded` points and
    /// extends the streak; a wrong one ends the streak. Then a new puzzle is
    /// drawn.
    pub fn answer(&mut self, guess: bool, awarded: u32, elapsed: &str)
        requires
            old(self).puzzle.answerable(),
            guess == old(self).puzzle.answer() ==> {
                &&& old(self).score + awarded <= u32::MAX
                &&& old(self).solved < u32::MAX
                &&& old(self).streak < u32::MAX
            },
        ensures
            final(self).puzzle.wf(),
            final(self).streak <= final(self).best_streak,
            old(self).inv() ==> final(self).inv(),
            old(self).score_in_range() && LEAST_POINTS <= awarded <= MOST_POINTS
                ==> final(self).score_in_range(),
            final(self).puzzle.drawn_from(old(self).rng@, final(self).rng@),
            guess == old(self).puzzle.answer() ==> {
                &&& final(self).score == old(self).score + awarded
                &&& final(self).solved == old(self).solved + 1
                &&& final(self).streak == old(self).streak + 1
                &&& final(self).best_streak == if old(self).streak + 1 > old(self).best_streak {
                    old(self).streak + 1
                } else {
                    old(self).best_streak as int
                }
            },
            guess != old(self).puzzle.answer() ==> {
                &&& final(self).score == old(self).score
                &&& final(self).solved == old(self).solved
                &&& final(self).streak == 0
                &&& final(self).best_streak == old(self).best_streak
            },
            final(self).feedback matches Some(f) && f@ == if guess == old(self).puzzle.answer() {
                correct_text(awarded, elapsed@, old(self).puzzle.explanation_view())
            } else {
                wrong_text(elapsed@, old(self).puzzle.answer(), old(self).puzzle.explanation_view())
            },
    {
        let correct = self.puzzle.is_match();
        let explanation = self.puzzle.explanation();
        let mut message = String::new();
        if guess == correct {
            self.score = self.score + awarded;
            self.solved = self.solved + 1;
            self.streak = self.streak + 1;
            if self.streak > self.best_streak {
                self.best_streak = self.streak;
            }
            message.append("Correct. +");
            push_decimal(&mut message, awarded as usize);
            message.append(" points in ");
            message.append(elapsed);
            message.append("s. ");
            message.append(explanation.as_str());
        } else {
            self.streak = 0;
            message.append("Wrong after ");
            message.append(elapsed);
            message.append("s. Correct answer: ");
            message.append(yes_no(correct));
            message.append(". ");
            message.append(explanation.as_str());
        }
        self.feedback = Some(message);
        self.next_round();
    }

    /// Gives up on the current puzzle: the streak ends, the answer is shown,
    /// and a new puzzle is drawn.
    pub fn skip(&mut self)
        requires
            old(self).puzzle.answerable(),
        ensures
            final(self).puzzle.wf(),
            final(self).streak <= final(self).best_streak,
            old(self).inv() ==> final(self).inv(),
            old(self).score_in_range() ==> final(self).score_in_range(),
            final(self).puzzle.drawn_from(old(self).rng@, final(self).rng@),
            final(self).score == old(self).score,
            final(self).solved == old(self).solved,
            final(self).streak == 0,
            final(self).best_streak == old(self).best_streak,
            final(self).feedback matches Some(f) && f@ == skipped_text(
                old(self).puzzle.answer(),
                old(self).puzzle.explanation_view(),
            ),
    {
        self.streak = 0;
        let correct = self.puzzle.is_match();
        let explanation = self.puzzle.explanation();
        let mut message = String::new();
        message.append("Skipped. Correct answer: ");
        message.append(yes_no(correct));
        message.append(". ");
        message.append(explanation.as_str());
        self.feedback = Some(message);
        self.next_round();
    }

    /// Draws the next puzzle; nothing else changes.
    pub fn next_round(&mut self)
        ensures
            final(self).puzzle.drawn_from(old(self).rng@, final(self).rng@),
            final(self).puzzle.wf(),
            final(self).score == old(self).score,
            final(self).solved == old(self).solved,
            final(self).streak == old(self).streak,
            final(self).best_streak == old(self).best_streak,
            final(self).feedback == old(self).feedback,
            old(self).inv() ==> final(self).inv(),
            old(self).score_in_range() ==> final(self).score_in_range(),
    {
        self.puzzle = Puzzle::generate(&mut self.rng);
    }
}

} // verus!
