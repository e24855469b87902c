use clingfun::game::{GameState, LEAST_POINTS, MOST_POINTS};
use clingfun::puzzle::{yes_no, Puzzle};
use clingfun::rng::SimpleRng;

#[test]
fn puzzle_kinds() {
    let mut dfa = None;
    let mut cfg = None;
    for seed in 0..50u64 {
        let mut rng = SimpleRng::seeded(seed);
        match Puzzle::generate(&mut rng) {
            p @ Puzzle::Dfa(_) => dfa = Some(p),
            p @ Puzzle::Cfg(_) => cfg = Some(p),
        }
    }
    let dfa = dfa.unwrap();
    let cfg = cfg.unwrap();
    assert_eq!(dfa.kind_name(), "FSA");
    assert_eq!(dfa.title(), "Finite State Automaton");
    assert_eq!(cfg.kind_name(), "CFG");
    assert_eq!(cfg.title(), "Context-Free Grammar");
    if let Puzzle::Dfa(p) = &dfa {
        assert_eq!(dfa.test_string(), p.input);
        assert_eq!(dfa.is_match(), p.is_match());
        assert_eq!(dfa.explanation(), p.explanation());
    }
    if let Puzzle::Cfg(p) = &cfg {
        assert_eq!(cfg.test_string(), p.input);
        assert_eq!(cfg.is_match(), p.is_match);
        assert_eq!(cfg.explanation(), p.explanation());
    }
}

#[test]
fn puzzle_kind_follows_first_coin() {
    for seed in 0..100u64 {
        let mut a = SimpleRng::seeded(seed);
        let mut b = SimpleRng::seeded(seed);
        let p = Puzzle::generate(&mut a);
        assert_eq!(matches!(p, Puzzle::Dfa(_)), b.gen_bool());
    }
}

#[test]
fn new_game_starts_empty() {
    let g = GameState::new(1234);
    assert_eq!((g.score, g.solved, g.streak, g.best_streak), (0, 0, 0, 0));
    assert!(g.feedback.is_none());
    let mut rng = SimpleRng::seeded(1234);
    let p = Puzzle::generate(&mut rng);
    assert_eq!(g.puzzle.test_string(), p.test_string());
}

#[test]
fn right_and_wrong_answers() {
    let mut g = GameState::new(5);
    let answer = g.puzzle.is_match();
    let explanation = g.puzzle.explanation();
    g.answer(answer, 25, "1.3");
    assert_eq!((g.score, g.solved, g.streak, g.best_streak), (25, 1, 1, 1));
    assert_eq!(g.feedback.as_deref().unwrap(), format!("Correct. +25 points in 1.3s. {explanation}"));

    let answer = g.puzzle.is_match();
    g.answer(answer, 18, "2.5");
    assert_eq!((g.score, g.solved, g.streak, g.best_streak), (43, 2, 2, 2));

    let answer = g.puzzle.is_match();
    let explanation = g.puzzle.explanation();
    g.answer(!answer, 12, "4.0");
    assert_eq!((g.score, g.solved, g.streak, g.best_streak), (43, 2, 0, 2));
    assert_eq!(
        g.feedback.as_deref().unwrap(),
        format!("Wrong after 4.0s. Correct answer: {}. {explanation}", yes_no(answer))
    );

    let answer = g.puzzle.is_match();
    g.answer(answer, 5, "12.0");
    assert_eq!((g.score, g.solved, g.streak, g.best_streak), (48, 3, 1, 2));
}

#[test]
fn skipping_ends_the_streak() {
    let mut g = GameState::new(77);
    let answer = g.puzzle.is_match();
    g.answer(answer, 8, "9.9");
    let answer = g.puzzle.is_match();
    let explanation = g.puzzle.explanation();
    g.skip();
    assert_eq!((g.score, g.solved, g.streak, g.best_streak), (8, 1, 0, 1));
    assert_eq!(
        g.feedback.as_deref().unwrap(),
        format!("Skipped. Correct answer: {}. {explanation}", yes_no(answer))
    );
}

#[test]
fn each_round_draws_the_next_puzzle() {
    let mut g = GameState::new(9);
    let mut rng = SimpleRng::seeded(9);
    let _first = Puzzle::generate(&mut rng);
    let second = Puzzle::generate(&mut rng);
    g.skip();
    assert_eq!(g.puzzle.test_string(), second.test_string());
    assert_eq!(g.puzzle.kind_name(), second.kind_name());
    let third = Puzzle::generate(&mut rng);
    g.next_round();
    assert_eq!(g.puzzle.test_string(), third.test_string());
}

#[test]
fn streak_never_exceeds_best() {
    let mut g = GameState::new(2024);
    for round in 0..200u32 {
        let answer = g.puzzle.is_match();
        match round % 3 {
            0 => g.answer(answer, 25, "1.0"),
            1 => g.answer(!answer, 25, "1.0"),
            _ => g.skip(),
        }
        assert!(g.streak <= g.best_streak);
    }
}

#[test]
fn score_stays_within_points_per_solve() {
    let mut g = GameState::new(31);
    let points = [25, 18, 12, 8, 5];
    for round in 0..300usize {
        assert!(g.puzzle.is_answerable());
        let answer = g.puzzle.is_match();
        match round % 4 {
            3 => g.skip(),
            2 => g.answer(!answer, points[round % 5], "3.0"),
            _ => g.answer(answer, points[round % 5], "3.0"),
        }
        assert!(g.streak <= g.best_streak && g.best_streak <= g.solved);
        assert!(LEAST_POINTS * g.solved <= g.score && g.score <= MOST_POINTS * g.solved);
    }
}
