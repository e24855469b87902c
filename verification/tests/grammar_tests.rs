use clingfun::grammar::{mirror_explanation, CfgPuzzle, GrammarFamily};
use clingfun::rng::SimpleRng;

const FAMILIES: [GrammarFamily; 3] = [
    GrammarFamily::BalancedPairs,
    GrammarFamily::Mirror,
    GrammarFamily::EvenZerosOddOnes,
];

#[test]
fn balanced_pairs_membership() {
    let g = GrammarFamily::BalancedPairs;
    for yes in ["ab", "aabb", "aaabbb", "aaaabbbb"] {
        assert!(g.matches(yes), "{yes}");
    }
    for no in ["", "a", "b", "ba", "aab", "abab", "abb", "aabbb", "aaba", "xy"] {
        assert!(!g.matches(no), "{no}");
    }
}

#[test]
fn mirror_membership() {
    let g = GrammarFamily::Mirror;
    for yes in ["0", "1", "010", "101", "01110", "x", "aba"] {
        assert!(g.matches(yes), "{yes}");
    }
    for no in ["", "01", "0110", "011", "001"] {
        assert!(!g.matches(no), "{no}");
    }
}

#[test]
fn even_zeros_odd_ones_membership() {
    let g = GrammarFamily::EvenZerosOddOnes;
    for yes in ["1", "001", "010", "111", "00111", "11001"] {
        assert!(g.matches(yes), "{yes}");
    }
    for no in ["", "0", "00", "11", "0001", "012", "1a"] {
        assert!(!g.matches(no), "{no}");
    }
}

#[test]
fn render_shows_rules() {
    assert_eq!(GrammarFamily::BalancedPairs.render(), "Alphabet: {a, b}\nRules:\n  S -> a S b | a b");
    assert_eq!(GrammarFamily::Mirror.render(), "Alphabet: {0, 1}\nRules:\n  S -> 0 S 0 | 1 S 1 | 0 | 1");
    assert_eq!(
        GrammarFamily::EvenZerosOddOnes.render(),
        "Alphabet: {0, 1}\nRules:\n  S -> 0 A\n  A -> 0 S | 1 B | ε\n  B -> 1 A"
    );
}

#[test]
fn explanations() {
    assert_eq!(
        GrammarFamily::BalancedPairs.explanation("aaabb"),
        "This grammar generates exactly a^n b^n for n >= 1. Here a-count = 3, b-count = 2."
    );
    assert_eq!(
        GrammarFamily::BalancedPairs.explanation("ba"),
        "This grammar generates exactly a^n b^n for n >= 1. Here a-count = 0, b-count = 0."
    );
    assert_eq!(
        GrammarFamily::Mirror.explanation("011"),
        "This grammar generates odd-length palindromes. Reverse(\"011\") = \"110\"."
    );
    assert_eq!(
        GrammarFamily::EvenZerosOddOnes.explanation("00111"),
        "This grammar generates strings with an even number of 0s and an odd number of 1s. Counts: 0s = 2, 1s = 3."
    );
    assert_eq!(
        mirror_explanation("A", "B"),
        "This grammar generates odd-length palindromes. Reverse(A) = B."
    );
}

#[test]
fn generated_families_follow_the_draw() {
    for seed in 0..100u64 {
        let mut a = SimpleRng::seeded(seed);
        let mut b = SimpleRng::seeded(seed);
        let g = GrammarFamily::generate(&mut a);
        let expected = match b.gen_range(0, 3) {
            0 => GrammarFamily::BalancedPairs,
            1 => GrammarFamily::Mirror,
            _ => GrammarFamily::EvenZerosOddOnes,
        };
        assert_eq!(g, expected);
    }
}

#[test]
fn members_are_members() {
    for g in FAMILIES {
        for seed in 0..300u64 {
            let mut rng = SimpleRng::seeded(seed);
            let w = g.generate_member(&mut rng);
            assert!(g.matches(&w), "{g:?} {w}");
        }
    }
}

#[test]
fn balanced_member_shape() {
    let mut a = SimpleRng::seeded(8);
    let mut b = SimpleRng::seeded(8);
    let w = GrammarFamily::BalancedPairs.generate_member(&mut a);
    let n = b.gen_range(1, 5);
    assert_eq!(w, format!("{}{}", "a".repeat(n), "b".repeat(n)));
}

#[test]
fn non_members_are_not_members() {
    for g in FAMILIES {
        for seed in 0..300u64 {
            let mut rng = SimpleRng::seeded(seed);
            let w = g.generate_non_member(&mut rng);
            assert!(!g.matches(&w), "{g:?} {w}");
        }
    }
}

#[test]
fn fallback_non_members() {
    assert!(!GrammarFamily::BalancedPairs.matches("aab"));
    assert!(!GrammarFamily::Mirror.matches("011"));
    assert!(!GrammarFamily::EvenZerosOddOnes.matches("00"));
}

#[test]
fn grammar_puzzles_answer_their_coin() {
    for seed in 0..300u64 {
        let mut a = SimpleRng::seeded(seed);
        let mut b = SimpleRng::seeded(seed);
        let p = CfgPuzzle::generate(&mut a);
        b.next_u64();
        let should_match = b.gen_bool();
        assert_eq!(p.is_match(), should_match);
        assert_eq!(p.is_match(), p.grammar.matches(&p.input));
        assert_eq!(p.render(), p.grammar.render());
        assert_eq!(p.explanation(), p.grammar.explanation(&p.input));
    }
}
