use clingfun::dfa::{run_dfa, DfaPuzzle};
use clingfun::rng::SimpleRng;

fn sample_puzzle(input: &str) -> DfaPuzzle {
    let transitions = vec![[1, 0], [2, 1], [2, 2]];
    let trace = run_dfa(&transitions, input);
    DfaPuzzle {
        transitions,
        accepting: vec![false, false, true],
        input: input.to_string(),
        trace,
    }
}

#[test]
fn run_follows_the_table() {
    let t = [[1, 0], [2, 1], [2, 2]];
    assert_eq!(run_dfa(&t, ""), vec![0]);
    assert_eq!(run_dfa(&t, "011"), vec![0, 1, 1, 1]);
    assert_eq!(run_dfa(&t, "00"), vec![0, 1, 2]);
    // Any character other than '0' reads column 1.
    assert_eq!(run_dfa(&t, "0x"), vec![0, 1, 1]);
}

#[test]
fn render_lists_states_and_table() {
    let p = sample_puzzle("011");
    assert_eq!(
        p.render(),
        "Alphabet: {0, 1}\nStart state: q0\nAccepting: q2\n\nTransitions\n  q0: 0 -> q1, 1 -> q0\n  q1: 0 -> q2, 1 -> q1\n  q2: 0 -> q2, 1 -> q2\n"
    );
    let mut q = sample_puzzle("011");
    q.accepting = vec![true, false, true];
    assert!(q.render().contains("Accepting: q0, q2\n"));
    q.accepting = vec![false, false, false];
    assert!(q.render().contains("Accepting: \n\nTransitions"));
}

#[test]
fn match_and_explanation() {
    let rejecting = sample_puzzle("011");
    assert!(!rejecting.is_match());
    assert_eq!(
        rejecting.explanation(),
        "Trace: q0 -> q1 -> q1 -> q1. Final state 1 is not accepting."
    );
    let accepting = sample_puzzle("00");
    assert!(accepting.is_match());
    assert_eq!(accepting.explanation(), "Trace: q0 -> q1 -> q2. Final state 2 is accepting.");
}

#[test]
fn empty_trace_does_not_match() {
    let mut p = sample_puzzle("0");
    p.trace = Vec::new();
    assert!(!p.is_match());
    assert_eq!(p.explanation(), "Trace: . Final state 0 is not accepting.");
}

#[test]
fn generated_automata_are_well_formed() {
    for seed in 0..500u64 {
        let mut rng = SimpleRng::seeded(seed);
        let p = DfaPuzzle::generate(&mut rng);
        let n = p.transitions.len();
        assert!((3..6).contains(&n));
        assert_eq!(p.accepting.len(), n);
        assert!(p.transitions.iter().all(|row| row[0] < n && row[1] < n));
        assert!(p.accepting.iter().any(|&a| a));
        assert!(p.accepting.iter().any(|&a| !a));
        assert!((3..9).contains(&p.input.len()));
        assert!(p.input.chars().all(|c| c == '0' || c == '1'));
        assert_eq!(p.trace, run_dfa(&p.transitions, &p.input));
        assert_eq!(p.is_match(), p.accepting[*p.trace.last().unwrap()]);
    }
}

#[test]
fn generation_reads_the_draws_in_order() {
    let mut a = SimpleRng::seeded(17);
    let mut b = SimpleRng::seeded(17);
    let p = DfaPuzzle::generate(&mut a);
    let n = b.gen_range(3, 6);
    assert_eq!(p.transitions.len(), n);
    for row in &p.transitions {
        assert_eq!(row[0], b.gen_range(0, n));
        assert_eq!(row[1], b.gen_range(0, n));
    }
    let mut flags: Vec<bool> = (0..n).map(|_| b.gen_ratio(2, 5)).collect();
    if !flags.iter().any(|&v| v) {
        let i = b.gen_range(0, n);
        flags[i] = true;
    }
    if flags.iter().all(|&v| v) {
        let i = b.gen_range(0, n);
        flags[i] = false;
    }
    assert_eq!(p.accepting, flags);
    let len = b.gen_range(3, 9);
    let input: String = (0..len).map(|_| if b.gen_bool() { '0' } else { '1' }).collect();
    assert_eq!(p.input, input);
    assert_eq!(a.next_u64(), b.next_u64());
}
