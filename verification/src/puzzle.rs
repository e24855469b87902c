//! A puzzle of either kind, and the words the game answers with.

use vstd::prelude::*;
use crate::rng::{SimpleRng, advance, coin};
use crate::dfa::{DfaPuzzle, trace_explanation};
use crate::grammar::{CfgPuzzle, explanation_text};

verus! {

/// The word for an answer.
pub open spec fn yes_no_text(value: bool) -> Seq<char> {
    if value { "Yes"@ } else { "No"@ }
}

/// `"Yes"` or `"No"`.
pub fn yes_no(value: bool) -> (s: &'static str)
    ensures
        s@ == yes_no_text(value),
{
    if value {
        "Yes"
    } else {
        "No"
    }
}

/// A question about an automaton or about a grammar.
pub enum Puzzle {
    /// Does the automaton accept the input?
    Dfa(DfaPuzzle),
    /// Is the input in the grammar's language?
    Cfg(CfgPuzzle),
}

impl Puzzle {
    /// The puzzle is consistent.
    pub open spec fn wf(&self) -> bool {
        match self {
            Puzzle::Dfa(p) => p.wf(),
            Puzzle::Cfg(p) => p.wf(),
        }
    }

    /// The puzzle's answer can be computed.
    pub open spec fn answerable(&self) -> bool {
        match self {
            Puzzle::Dfa(p) => p.answerable(),
            Puzzle::Cfg(_) => true,
        }
    }

    /// The right answer to the question.
    pub open spec fn answer(&self) -> bool {
        match self {
            Puzzle::Dfa(p) => p.accepts(),
            Puzzle::Cfg(p) => p.is_match,
        }
    }

    /// The string the question is about.
    pub open spec fn question_input(&self) -> Seq<char> {
        match self {
            Puzzle::Dfa(p) => p.input@,
            Puzzle::Cfg(p) => p.input@,
        }
    }

    /// The explanation of the answer.
    pub open spec fn explanation_view(&self) -> Seq<char> {
        match self {
            Puzzle::Dfa(p) => trace_explanation(p.trace@, p.accepts()),
            Puzzle::Cfg(p) => explanation_text(p.grammar, p.input@),
        }
    }

    /// The puzzle is the one drawn from generator state `s`, which leaves the
    /// generator in state `end`: a coin, then an automaton puzzle on heads or
    /// a grammar puzzle on tails.
    pub open spec fn drawn_from(&self, s: u64, end: u64) -> bool {
        match self {
            Puzzle::Dfa(p) => coin(advance(s, 1)) && p.drawn_from(advance(s, 1), end),
            Puzzle::Cfg(p) => !coin(advance(s, 1)) && p.drawn_from(advance(s, 1), end),
        }
    }

    /// A consistent puzzle can be answered.
    pub proof fn lemma_wf_answerable(&self)
        requires
            self.wf(),
        ensures
            self.answerable(),
    {
        if let Puzzle::Dfa(p) = self {
            p.lemma_wf_answerable();
        }
    }

    /// A random puzzle: a coin picks an automaton or a grammar.
    pub fn generate(rng: &mut SimpleRng) -> (p: Self)
        ensures
            p.drawn_from(old(rng)@, final(rng)@),
            p.wf(),
    {
        let ghost s0 = rng@;
        let heads = rng.gen_bool();
        assert(rng@ == advance(s0, 1)) by {
            reveal_with_fuel(advance, 2);
        }
        if heads {
            Puzzle::Dfa(DfaPuzzle::generate(rng))
        } else {
            Puzzle::Cfg(CfgPuzzle::generate(rng))
        }
    }

    /// The short name of the puzzle's kind.
    pub fn kind_name(&self) -> (s: &'static str)
        ensures
            s@ == (if self is Dfa { "FSA"@ } else { "CFG"@ }),
    {
        match self {
            Puzzle::Dfa(_) => "FSA",
            Puzzle::Cfg(_) => "CFG",
        }
    }

    /// The title of the puzzle's kind.
    pub fn title(&self) -> (s: &'static str)
        ensures
            s@ == (if self is Dfa { "Finite State Automaton"@ } else { "Context-Free Grammar"@ }),
    {
        match self {
            Puzzle::Dfa(_) => "Finite State Automaton",
            Puzzle::Cfg(_) => "Context-Free Grammar",
        }
    }

    /// The string the question is about.
    pub fn test_string(&self) -> (s: &str)
        ensures
            s@ == self.question_input(),
    {
        match self {
            Puzzle::Dfa(puzzle) => puzzle.input.as_str(),
            Puzzle::Cfg(puzzle) => puzzle.input.as_str(),
        }
    }

    /// Whether the puzzle's answer can be computed: the last state of an
    /// automaton's trace has an accepting flag.
    pub fn is_answerable(&self) -> (r: bool)
        ensures
            r == self.answerable(),
    {
        match self {
            Puzzle::Dfa(p) => p.trace.len() == 0 || p.trace[p.trace.len() - 1] < p.accepting.len(),
            Puzzle::Cfg(_) => true,
        }
    }

    /// The right answer.
    pub fn is_match(&self) -> (r: bool)
        requires
            self.answerable(),
        ensures
            r == self.answer(),
    {
        match self {
            Puzzle::Dfa(puzzle) => puzzle.is_match(),
            Puzzle::Cfg(puzzle) => puzzle.is_match(),
        }
    }

    /// Why the answer is what it is.
    pub fn explanation(&self) -> (out: String)
        requires
            self.answerable(),
        ensures
            out@ == self.explanation_view(),
    {
        match self {
            Puzzle::Dfa(puzzle) => puzzle.explanation(),
            Puzzle::Cfg(puzzle) => puzzle.explanation(),
        }
    }
}

} // verus!
