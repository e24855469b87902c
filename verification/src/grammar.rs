//! Three families of context-free languages over two letters, deciding
//! membership in them, and drawing members and non-members at random.

use vstd::prelude::*;
use crate::rng::{SimpleRng, advance, pick, coin, next_state, lemma_advance_add};
use crate::sample::{random_binary_string, random_ab_string, shuffled_binary_string, binary_draws,
    ab_draws, bit_char, shuffled, lemma_shuffled_keeps_counts};
use crate::text::{chars_of, push_char, push_decimal, decimal, count_char, repeat_char, debug_str,
    debug_repr, reversed, lemma_count_concat, lemma_count_repeat, lemma_binary_by_counts,
    lemma_count_is_filter};

verus! {

/// The grammars a puzzle can show.
#[derive(Clone, Copy, Debug, PartialEq, Eq, Structural)]
pub enum GrammarFamily {
    /// `S -> a S b | a b`: the strings `a^n b^n` with `n >= 1`.
    BalancedPairs,
    /// `S -> 0 S 0 | 1 S 1 | 0 | 1`: the odd-length palindromes over `{0, 1}`.
    Mirror,
    /// The binary strings with an even number of `0`s and an odd number of `1`s.
    EvenZerosOddOnes,
}

/// The family a draw picks: its value read as a number in `0..3`.
pub open spec fn family_of_draw(v: u64) -> GrammarFamily {
    let k = pick(v, 0, 3);
    if k == 0 {
        GrammarFamily::BalancedPairs
    } else if k == 1 {
        GrammarFamily::Mirror
    } else {
        GrammarFamily::EvenZerosOddOnes
    }
}

/// Every character of `s` is `0` or `1`.
pub open spec fn all_binary(s: Seq<char>) -> bool {
    forall|i: int| 0 <= i < s.len() ==> s[i] == '0' || s[i] == '1'
}

/// Membership in the language of each family.
pub open spec fn in_language(g: GrammarFamily, s: Seq<char>) -> bool {
    match g {
        GrammarFamily::BalancedPairs => {
            &&& s.len() > 0
            &&& s.len() % 2 == 0
            &&& forall|i: int| 0 <= i < s.len() / 2 ==> s[i] == 'a'
            &&& forall|i: int| s.len() / 2 <= i < s.len() ==> s[i] == 'b'
        },
        GrammarFamily::Mirror => {
            &&& s.len() % 2 == 1
            &&& forall|i: int| 0 <= i < s.len() ==> #[trigger] s[i] == s[s.len() - 1 - i]
        },
        GrammarFamily::EvenZerosOddOnes => {
            &&& s.len() > 0
            &&& all_binary(s)
            &&& count_char(s, '0') % 2 == 0
            &&& count_char(s, '1') % 2 == 1
        },
    }
}

/// The number of copies of `c` that `s` starts with.
pub open spec fn leading_count(s: Seq<char>, c: char) -> nat
    decreases s.len(),
{
    if s.len() > 0 && s[0] == c {
        1 + leading_count(s.drop_first(), c)
    } else {
        0
    }
}

/// The number of copies of `c` that `s` ends with.
pub open spec fn trailing_count(s: Seq<char>, c: char) -> nat
    decreases s.len(),
{
    if s.len() > 0 && s.last() == c {
        1 + trailing_count(s.drop_last(), c)
    } else {
        0
    }
}

/// The grammar of each family, as shown to the player.
pub open spec fn grammar_text(g: GrammarFamily) -> Seq<char> {
    match g {
        GrammarFamily::BalancedPairs => "Alphabet: {a, b}\nRules:\n  S -> a S b | a b"@,
        GrammarFamily::Mirror => "Alphabet: {0, 1}\nRules:\n  S -> 0 S 0 | 1 S 1 | 0 | 1"@,
        GrammarFamily::EvenZerosOddOnes => "Alphabet: {0, 1}\nRules:\n  S -> 0 A\n  A -> 0 S | 1 B | ε\n  B -> 1 A"@,
    }
}

/// The explanation for a palindrome question, from the quoted input and the
/// quoted reversed input.
pub open spec fn mirror_text(quoted_input: Seq<char>, quoted_reversed: Seq<char>) -> Seq<char> {
    "This grammar generates odd-length palindromes. Reverse("@ + quoted_input + ") = "@
        + quoted_reversed + "."@
}

/// The explanation of each family's answer on `s`.
pub open spec fn explanation_text(g: GrammarFamily, s: Seq<char>) -> Seq<char> {
    match g {
        GrammarFamily::BalancedPairs => "This grammar generates exactly a^n b^n for n >= 1. Here a-count = "@
            + decimal(leading_count(s, 'a')) + ", b-count = "@ + decimal(trailing_count(s, 'b'))
            + "."@,
        GrammarFamily::Mirror => mirror_text(debug_repr(s), debug_repr(s.reverse())),
        GrammarFamily::EvenZerosOddOnes => "This grammar generates strings with an even number of 0s and an odd number of 1s. Counts: 0s = "@
            + decimal(count_char(s, '0')) + ", 1s = "@ + decimal(count_char(s, '1')) + "."@,
    }
}

/// The member of `g`'s language drawn from state `s`, and the state after.
pub open spec fn member_draw(g: GrammarFamily, s: u64) -> (Seq<char>, u64) {
    match g {
        GrammarFamily::BalancedPairs => {
            let n = pick(advance(s, 1), 1, 5) as nat;
            (repeat_char('a', n) + repeat_char('b', n), advance(s, 1))
        },
        GrammarFamily::Mirror => {
            let half = pick(advance(s, 1), 0, 4) as nat;
            let left = binary_draws(advance(s, 1), half);
            let center = bit_char(advance(s, half + 2));
            (left + seq![center] + left.reverse(), advance(s, half + 2))
        },
        GrammarFamily::EvenZerosOddOnes => {
            let zeros = (pick(advance(s, 1), 0, 4) * 2) as nat;
            let ones = (pick(advance(s, 2), 0, 4) * 2 + 1) as nat;
            shuffled(repeat_char('0', zeros) + repeat_char('1', ones), advance(s, 2))
        },
    }
}

/// One random candidate for a non-member drawn from state `s`: a length,
/// then one coin flip per character; and the state after.
pub open spec fn candidate_draw(g: GrammarFamily, s: u64) -> (Seq<char>, u64) {
    match g {
        GrammarFamily::BalancedPairs => {
            let len = pick(advance(s, 1), 1, 9) as nat;
            (ab_draws(advance(s, 1), len), advance(s, 1 + len))
        },
        _ => {
            let len = pick(advance(s, 1), 1, 8) as nat;
            (binary_draws(advance(s, 1), len), advance(s, 1 + len))
        },
    }
}

/// The fixed non-member used when every random candidate was a member.
pub open spec fn fallback_non_member(g: GrammarFamily) -> Seq<char> {
    match g {
        GrammarFamily::BalancedPairs => "aab"@,
        GrammarFamily::Mirror => "011"@,
        GrammarFamily::EvenZerosOddOnes => "00"@,
    }
}

/// Up to `tries` random candidates from state `s`; the first that is not a
/// member, else the fixed non-member; and the state after.
pub open spec fn non_member_search(g: GrammarFamily, s: u64, tries: nat) -> (Seq<char>, u64)
    decreases tries,
{
    if tries == 0 {
        (fallback_non_member(g), s)
    } else {
        let c = candidate_draw(g, s);
        if !in_language(g, c.0) {
            c
        } else {
            non_member_search(g, c.1, (tries - 1) as nat)
        }
    }
}

/// The word `a^n b^n`.
pub open spec fn balanced_word(n: nat) -> Seq<char> {
    repeat_char('a', n) + repeat_char('b', n)
}

/// The balanced-pairs language is exactly the words `a^n b^n` with `n >= 1`.
pub proof fn lemma_balanced_pairs_language(s: Seq<char>)
    ensures
        in_language(GrammarFamily::BalancedPairs, s) <==> exists|n: nat|
            n >= 1 && s == #[trigger] balanced_word(n),
{
    if in_language(GrammarFamily::BalancedPairs, s) {
        let n = s.len() / 2;
        assert(s =~= balanced_word(n));
    }
    if exists|n: nat| n >= 1 && s == #[trigger] balanced_word(n) {
        let n = choose|n: nat| n >= 1 && s == #[trigger] balanced_word(n);
        assert(s.len() / 2 == n);
        assert forall|i: int| 0 <= i < s.len() / 2 implies s[i] == 'a' by {}
        assert forall|i: int| s.len() / 2 <= i < s.len() implies s[i] == 'b' by {}
    }
}

/// The mirror language is exactly the odd-length palindromes: the strings of
/// odd length equal to their reversal.
pub proof fn lemma_mirror_language(s: Seq<char>)
    ensures
        in_language(GrammarFamily::Mirror, s) <==> (s.len() % 2 == 1 && s.reverse() == s),
{
    if s.len() % 2 == 1 {
        if in_language(GrammarFamily::Mirror, s) {
            assert(s.reverse() =~= s);
        }
        if s.reverse() == s {
            assert forall|i: int| 0 <= i < s.len() implies #[trigger] s[i] == s[s.len() - 1 - i] by {
                assert(s.reverse()[i] == s[s.len() - 1 - i]);
            }
        }
    }
}

/// The even-zeros-odd-ones language is exactly the non-empty strings whose
/// every character, the first included, is `0` or `1`, with an even number of
/// `0`s and an odd number of `1`s.
pub proof fn lemma_even_zeros_odd_ones_language(s: Seq<char>)
    ensures
        in_language(GrammarFamily::EvenZerosOddOnes, s) <==> {
            &&& s.len() > 0
            &&& forall|i: int| 0 <= i < s.len() ==> s[i] == '0' || s[i] == '1'
            &&& s.filter(|x: char| x == '0').len() % 2 == 0
            &&& s.filter(|x: char| x == '1').len() % 2 == 1
        },
{
    lemma_count_is_filter(s, '0');
    lemma_count_is_filter(s, '1');
}

/// The explanation for a balanced-pairs question prints the length `ka` of
/// the run of `a`s that starts the input and the length `kb` of the run of
/// `b`s that ends it.
pub proof fn lemma_balanced_explanation(s: Seq<char>, ka: nat, kb: nat)
    requires
        ka <= s.len(),
        forall|j: int| 0 <= j < ka ==> s[j] == 'a',
        ka == s.len() || s[ka as int] != 'a',
        kb <= s.len(),
        forall|j: int| s.len() - kb <= j < s.len() ==> s[j] == 'b',
        kb == s.len() || s[s.len() - 1 - kb] != 'b',
    ensures
        explanation_text(GrammarFamily::BalancedPairs, s)
            == "This grammar generates exactly a^n b^n for n >= 1. Here a-count = "@ + decimal(ka)
            + ", b-count = "@ + decimal(kb) + "."@,
{
    lemma_leading_count(s, 'a', ka);
    lemma_trailing_count(s, 'b', kb);
}

/// The explanation for an even-zeros-odd-ones question prints the number of
/// `0`s and the number of `1`s of the input.
pub proof fn lemma_even_odd_explanation(s: Seq<char>)
    ensures
        explanation_text(GrammarFamily::EvenZerosOddOnes, s)
            == "This grammar generates strings with an even number of 0s and an odd number of 1s. Counts: 0s = "@
            + decimal(s.filter(|x: char| x == '0').len()) + ", 1s = "@ + decimal(
            s.filter(|x: char| x == '1').len(),
        ) + "."@,
{
    lemma_count_is_filter(s, '0');
    lemma_count_is_filter(s, '1');
}

/// The explanation for a palindrome question shows the input and its
/// reversal, each in `Debug` form.
pub proof fn lemma_mirror_explanation(s: Seq<char>)
    ensures
        explanation_text(GrammarFamily::Mirror, s)
            == "This grammar generates odd-length palindromes. Reverse("@ + debug_repr(s) + ") = "@
            + debug_repr(Seq::new(s.len(), |i: int| s[s.len() - 1 - i])) + "."@,
{
    assert(s.reverse() =~= Seq::new(s.len(), |i: int| s[s.len() - 1 - i]));
}

/// Every member drawn for a family is in its language.
pub proof fn lemma_member_draw_in_language(g: GrammarFamily, s: u64)
    ensures
        in_language(g, member_draw(g, s).0),
{
    match g {
        GrammarFamily::BalancedPairs => {
            let n = pick(advance(s, 1), 1, 5) as nat;
            let w = repeat_char('a', n) + repeat_char('b', n);
            assert(w.len() / 2 == n);
            assert forall|i: int| 0 <= i < w.len() / 2 implies w[i] == 'a' by {}
            assert forall|i: int| w.len() / 2 <= i < w.len() implies w[i] == 'b' by {}
        },
        GrammarFamily::Mirror => {
            let half = pick(advance(s, 1), 0, 4) as nat;
            let left = binary_draws(advance(s, 1), half);
            let center = bit_char(advance(s, half + 2));
            let w = left + seq![center] + left.reverse();
            assert(w.len() == 2 * half + 1);
            assert forall|i: int| 0 <= i < w.len() implies #[trigger] w[i] == w[w.len() - 1 - i] by {
                if i < half {
                    assert(w[i] == left[i]);
                    assert(w[w.len() - 1 - i] == left.reverse()[half - 1 - i]);
                } else if i == half {
                } else {
                    assert(w[i] == left.reverse()[i - half - 1]);
                    assert(w[w.len() - 1 - i] == left[2 * half - i]);
                }
            }
        },
        GrammarFamily::EvenZerosOddOnes => {
            let zeros = (pick(advance(s, 1), 0, 4) * 2) as nat;
            let ones = (pick(advance(s, 2), 0, 4) * 2 + 1) as nat;
            let init = repeat_char('0', zeros) + repeat_char('1', ones);
            let w = shuffled(init, advance(s, 2)).0;
            lemma_shuffled_keeps_counts(init, advance(s, 2), '0');
            lemma_shuffled_keeps_counts(init, advance(s, 2), '1');
            lemma_count_concat(repeat_char('0', zeros), repeat_char('1', ones), '0');
            lemma_count_concat(repeat_char('0', zeros), repeat_char('1', ones), '1');
            lemma_count_repeat('0', zeros, '0');
            lemma_count_repeat('0', zeros, '1');
            lemma_count_repeat('1', ones, '0');
            lemma_count_repeat('1', ones, '1');
            lemma_binary_by_counts(w);
        },
    }
}

/// The fixed non-members are not in their languages.
pub proof fn lemma_fallback_not_in_language(g: GrammarFamily)
    ensures
        !in_language(g, fallback_non_member(g)),
{
    reveal_strlit("aab");
    reveal_strlit("011");
    reveal_strlit("00");
    match g {
        GrammarFamily::BalancedPairs => {},
        GrammarFamily::Mirror => {
            let w = "011"@;
            assert(w[0] != w[w.len() - 1 - 0]);
        },
        GrammarFamily::EvenZerosOddOnes => {
            let w = "00"@;
            reveal_with_fuel(count_char, 3);
            assert(w.drop_last().drop_last() == Seq::<char>::empty());
            assert(count_char(w, '1') == 0);
        },
    }
}

/// Whatever the search for a non-member finds is not in the language.
pub proof fn lemma_non_member_search_not_in_language(g: GrammarFamily, s: u64, tries: nat)
    ensures
        !in_language(g, non_member_search(g, s, tries).0),
    decreases tries,
{
    if tries == 0 {
        lemma_fallback_not_in_language(g);
    } else {
        let c = candidate_draw(g, s);
        if in_language(g, c.0) {
            lemma_non_member_search_not_in_language(g, c.1, (tries - 1) as nat);
        }
    }
}

/// The number of leading copies of `c`, found by scanning.
fn leading_in(v: &Vec<char>, c: char) -> (n: usize)
    ensures
        n == leading_count(v@, c),
{
    let mut i: usize = 0;
    while i < v.len() && v[i] == c
        invariant
            i <= v@.len(),
            forall|j: int| 0 <= j < i ==> v@[j] == c,
        decreases v@.len() - i,
    {
        i = i + 1;
    }
    proof {
        lemma_leading_count(v@, c, i as nat);
    }
    i
}

/// A scan that stops at the first other character finds the leading count.
proof fn lemma_leading_count(s: Seq<char>, c: char, i: nat)
    requires
        i <= s.len(),
        forall|j: int| 0 <= j < i ==> s[j] == c,
        i == s.len() || s[i as int] != c,
    ensures
        leading_count(s, c) == i,
    decreases i,
{
    if i > 0 {
        let t = s.drop_first();
        assert forall|j: int| 0 <= j < i - 1 implies t[j] == c by {
            assert(t[j] == s[j + 1]);
        }
        if i < s.len() {
            assert(t[i - 1] == s[i as int]);
        }
        lemma_leading_count(t, c, (i - 1) as nat);
    }
}

/// The number of trailing copies of `c`, found by scanning from the end.
fn trailing_in(v: &Vec<char>, c: char) -> (n: usize)
    ensures
        n == trailing_count(v@, c),
{
    let len = v.len();
    let mut i: usize = 0;
    while i < len && v[len - 1 - i] == c
        invariant
            len == v@.len(),
            i <= len,
            forall|j: int| len - i <= j < len ==> v@[j] == c,
        decreases len - i,
    {
        i = i + 1;
    }
    proof {
        lemma_trailing_count(v@, c, i as nat);
    }
    i
}

/// A scan from the end that stops at the first other character finds the
/// trailing count.
proof fn lemma_trailing_count(s: Seq<char>, c: char, i: nat)
    requires
        i <= s.len(),
        forall|j: int| s.len() - i <= j < s.len() ==> s[j] == c,
        i == s.len() || s[s.len() - 1 - i] != c,
    ensures
        trailing_count(s, c) == i,
    decreases i,
{
    if i > 0 {
        let t = s.drop_last();
        assert forall|j: int| t.len() - (i - 1) <= j < t.len() implies t[j] == c by {
            assert(t[j] == s[j]);
        }
        if i < s.len() {
            assert(t[t.len() - 1 - (i - 1)] == s[s.len() - 1 - i]);
        }
        lemma_trailing_count(t, c, (i - 1) as nat);
    }
}

/// The explanation of a palindrome question from the quoted input and the
/// quoted reversed input.
pub fn mirror_explanation(quoted_input: &str, quoted_reversed: &str) -> (out: String)
    ensures
        out@ == mirror_text(quoted_input@, quoted_reversed@),
{
    let mut out = String::new();
    out.append("This grammar generates odd-length palindromes. Reverse(");
    out.append(quoted_input);
    out.append(") = ");
    out.append(quoted_reversed);
    out.append(".");
    out
}

/// How many entries of `v` equal `c`.
fn count_in(v: &Vec<char>, c: char) -> (n: usize)
    ensures
        n == count_char(v@, c),
{
    let mut n: usize = 0;
    for i in 0..v.len()
        invariant
            n == count_char(v@.take(i as int), c),
            n <= i,
    {
        assert(v@.take(i + 1).drop_last() == v@.take(i as int));
        if v[i] == c {
            n = n + 1;
        }
    }
    assert(v@.take(v@.len() as int) == v@);
    n
}

/// A random `a^n b^n` with `n` in `1..5`.
fn balanced_member(rng: &mut SimpleRng) -> (out: String)
    ensures
        (out@, final(rng)@) == member_draw(GrammarFamily::BalancedPairs, old(rng)@),
{
    let ghost s0 = rng@;
    let n = rng.gen_range(1, 5);
    assert(rng@ == advance(s0, 1)) by {
        reveal_with_fuel(advance, 2);
    }
    let mut out = String::new();
    for i in 0..n
        invariant
            out@ == repeat_char('a', i as nat),
    {
        push_char(&mut out, 'a');
        assert(out@ == repeat_char('a', (i + 1) as nat));
    }
    let ghost a_part = out@;
    for i in 0..n
        invariant
            out@ == a_part + repeat_char('b', i as nat),
    {
        push_char(&mut out, 'b');
        assert(out@ == a_part + repeat_char('b', (i + 1) as nat));
    }
    out
}

/// A random odd-length palindrome: a random half of length `0..4`, a random
/// centre, and the half reversed.
fn mirror_member(rng: &mut SimpleRng) -> (out: String)
    ensures
        (out@, final(rng)@) == member_draw(GrammarFamily::Mirror, old(rng)@),
{
    let ghost s0 = rng@;
    let half = rng.gen_range(0, 4);
    assert(rng@ == advance(s0, 1)) by {
        reveal_with_fuel(advance, 2);
    }
    let left = random_binary_string(rng, half);
    proof {
        lemma_advance_add(s0, 1, half as nat);
    }
    let center = if rng.gen_bool() { '0' } else { '1' };
    let right = reversed(left.as_str());
    let mut out = String::new();
    out.append(left.as_str());
    push_char(&mut out, center);
    out.append(right.as_str());
    out
}

/// A random shuffle of an even number (below 8) of zeros and an odd number
/// (below 8) of ones.
fn even_odd_member(rng: &mut SimpleRng) -> (out: String)
    ensures
        (out@, final(rng)@) == member_draw(GrammarFamily::EvenZerosOddOnes, old(rng)@),
{
    let ghost s0 = rng@;
    let zero_pairs = rng.gen_range(0, 4) * 2;
    let one_count = rng.gen_range(0, 4) * 2 + 1;
    assert(rng@ == advance(s0, 2)) by {
        reveal_with_fuel(advance, 3);
    }
    shuffled_binary_string(rng, zero_pairs, one_count)
}

/// One step of the search for a non-member.
proof fn lemma_search_step(g: GrammarFamily, s: u64, tries: nat)
    requires
        tries > 0,
    ensures
        non_member_search(g, s, tries) == (if !in_language(g, candidate_draw(g, s).0) {
            candidate_draw(g, s)
        } else {
            non_member_search(g, candidate_draw(g, s).1, (tries - 1) as nat)
        }),
{
}

impl GrammarFamily {
    /// A random family: one draw, read as a number in `0..3`.
    pub fn generate(rng: &mut SimpleRng) -> (g: Self)
        ensures
            final(rng)@ == next_state(old(rng)@),
            g == family_of_draw(final(rng)@),
    {
        match rng.gen_range(0, 3) {
            0 => GrammarFamily::BalancedPairs,
            1 => GrammarFamily::Mirror,
            _ => GrammarFamily::EvenZerosOddOnes,
        }
    }

    /// The grammar as text: its alphabet and its rules.
    pub fn render(&self) -> (out: String)
        ensures
            out@ == grammar_text(*self),
    {
        match self {
            GrammarFamily::BalancedPairs => "Alphabet: {a, b}\nRules:\n  S -> a S b | a b".to_string(),
            GrammarFamily::Mirror => "Alphabet: {0, 1}\nRules:\n  S -> 0 S 0 | 1 S 1 | 0 | 1".to_string(),
            GrammarFamily::EvenZerosOddOnes => "Alphabet: {0, 1}\nRules:\n  S -> 0 A\n  A -> 0 S | 1 B | ε\n  B -> 1 A".to_string(),
        }
    }

    /// A random member of the family's language.
    pub fn generate_member(&self, rng: &mut SimpleRng) -> (out: String)
        ensures
            (out@, final(rng)@) == member_draw(*self, old(rng)@),
            in_language(*self, out@),
    {
        let ghost s0 = rng@;
        proof {
            lemma_member_draw_in_language(*self, s0);
        }
        match self {
            GrammarFamily::BalancedPairs => balanced_member(rng),
            GrammarFamily::Mirror => mirror_member(rng),
            GrammarFamily::EvenZerosOddOnes => even_odd_member(rng),
        }
    }

    /// One random candidate for a non-member: a length, then that many
    /// random letters of the family's alphabet.
    fn candidate(&self, rng: &mut SimpleRng) -> (out: String)
        ensures
            (out@, final(rng)@) == candidate_draw(*self, old(rng)@),
    {
        let ghost s0 = rng@;
        match self {
            GrammarFamily::BalancedPairs => {
                let length = rng.gen_range(1, 9);
                assert(rng@ == advance(s0, 1)) by {
                    reveal_with_fuel(advance, 2);
                }
                proof {
                    lemma_advance_add(s0, 1, length as nat);
                }
                random_ab_string(rng, length)
            },
            GrammarFamily::Mirror => {
                let length = rng.gen_range(1, 8);
                assert(rng@ == advance(s0, 1)) by {
                    reveal_with_fuel(advance, 2);
                }
                proof {
                    lemma_advance_add(s0, 1, length as nat);
                }
                random_binary_string(rng, length)
            },
            GrammarFamily::EvenZerosOddOnes => {
                let length = rng.gen_range(1, 8);
                assert(rng@ == advance(s0, 1)) by {
                    reveal_with_fuel(advance, 2);
                }
                proof {
                    lemma_advance_add(s0, 1, length as nat);
                }
                random_binary_string(rng, length)
            },
        }
    }

    /// A string outside the family's language: the first of up to 32 random
    /// candidates that is not a member, else a fixed non-member.
    pub fn generate_non_member(&self, rng: &mut SimpleRng) -> (out: String)
        ensures
            (out@, final(rng)@) == non_member_search(*self, old(rng)@, 32),
            !in_language(*self, out@),
    {
        let ghost s0 = rng@;
        proof {
            lemma_non_member_search_not_in_language(*self, s0, 32);
        }
        for attempt in 0..32usize
            invariant
                s0 == old(rng)@,
                non_member_search(*self, rng@, (32 - attempt) as nat) == non_member_search(
                    *self,
                    s0,
                    32,
                ),
        {
            let ghost st = rng@;
            proof {
                lemma_search_step(*self, st, (32 - attempt) as nat);
            }
            let candidate = self.candidate(rng);
            if !self.matches(candidate.as_str()) {
                return candidate;
            }
        }
        match self {
            GrammarFamily::BalancedPairs => "aab".to_string(),
            GrammarFamily::Mirror => "011".to_string(),
            GrammarFamily::EvenZerosOddOnes => "00".to_string(),
        }
    }

    /// Why `input` is or is not in the language: what the grammar generates,
    /// and the counts or the reversal that decide it.
    pub fn explanation(&self, input: &str) -> (out: String)
        ensures
            out@ == explanation_text(*self, input@),
    {
        match self {
            GrammarFamily::BalancedPairs => {
                let chars = chars_of(input);
                let count_a = leading_in(&chars, 'a');
                let count_b = trailing_in(&chars, 'b');
                let mut out = String::new();
                out.append("This grammar generates exactly a^n b^n for n >= 1. Here a-count = ");
                push_decimal(&mut out, count_a);
                out.append(", b-count = ");
                push_decimal(&mut out, count_b);
                out.append(".");
                out
            },
            GrammarFamily::Mirror => {
                let reversed_input = reversed(input);
                let quoted_input = debug_str(input);
                let quoted_reversed = debug_str(reversed_input.as_str());
                mirror_explanation(quoted_input.as_str(), quoted_reversed.as_str())
            },
            GrammarFamily::EvenZerosOddOnes => {
                let chars = chars_of(input);
                let zeros = count_in(&chars, '0');
                let ones = count_in(&chars, '1');
                let mut out = String::new();
                out.append("This grammar generates strings with an even number of 0s and an odd number of 1s. Counts: 0s = ");
                push_decimal(&mut out, zeros);
                out.append(", 1s = ");
                push_decimal(&mut out, ones);
                out.append(".");
                out
            },
        }
    }

    /// Whether `input` is in the family's language.
    pub fn matches(&self, input: &str) -> (r: bool)
        ensures
            r == in_language(*self, input@),
            *self == GrammarFamily::EvenZerosOddOnes && r ==> forall|i: int|
                0 <= i < input@.len() ==> input@[i] == '0' || input@[i] == '1',
    {
        let chars = chars_of(input);
        let len = chars.len();
        match self {
            GrammarFamily::BalancedPairs => {
                if len == 0 || len % 2 != 0 {
                    return false;
                }
                let half = len / 2;
                for i in 0..half
                    invariant
                        half == len / 2,
                        *self == GrammarFamily::BalancedPairs,
                        len == chars@.len(),
                        chars@ == input@,
                        forall|j: int| 0 <= j < i ==> chars@[j] == 'a',
                {
                    if chars[i] != 'a' {
                        assert(input@[i as int] != 'a');
                        return false;
                    }
                }
                for i in half..len
                    invariant
                        half == len / 2,
                        *self == GrammarFamily::BalancedPairs,
                        len == chars@.len(),
                        chars@ == input@,
                        forall|j: int| half <= j < i ==> chars@[j] == 'b',
                {
                    if chars[i] != 'b' {
                        assert(input@[i as int] != 'b');
                        return false;
                    }
                }
                half >= 1
            },
            GrammarFamily::Mirror => {
                if len == 0 || len % 2 != 1 {
                    return false;
                }
                for i in 0..len
                    invariant
                        *self == GrammarFamily::Mirror,
                        len == chars@.len(),
                        chars@ == input@,
                        forall|j: int| 0 <= j < i ==> #[trigger] chars@[j] == chars@[len - 1 - j],
                {
                    if chars[i] != chars[len - 1 - i] {
                        assert(input@[i as int] != input@[len - 1 - i]);
                        return false;
                    }
                }
                true
            },
            GrammarFamily::EvenZerosOddOnes => {
                let zeros = count_in(&chars, '0');
                let ones = count_in(&chars, '1');
                if len == 0 {
                    return false;
                }
                for i in 0..len
                    invariant
                        *self == GrammarFamily::EvenZerosOddOnes,
                        len == chars@.len(),
                        chars@ == input@,
                        forall|j: int| 0 <= j < i ==> chars@[j] == '0' || chars@[j] == '1',
                {
                    if chars[i] != '0' && chars[i] != '1' {
                        assert(!(input@[i as int] == '0' || input@[i as int] == '1'));
                        return false;
                    }
                }
                zeros % 2 == 0 && ones % 2 == 1
            },
        }
    }
}

/// The input of a grammar puzzle drawn from state `s` (after its family and
/// its coin): a member when the coin says so, else a non-member; and the
/// state after.
pub open spec fn cfg_input_draw(g: GrammarFamily, should_match: bool, s: u64) -> (Seq<char>, u64) {
    if should_match {
        member_draw(g, s)
    } else {
        non_member_search(g, s, 32)
    }
}

/// A puzzle on a grammar: is the input in its language?
pub struct CfgPuzzle {
    /// The grammar shown.
    pub grammar: GrammarFamily,
    /// The string the question is about.
    pub input: String,
    /// The answer: whether the input is in the language.
    pub is_match: bool,
}

impl CfgPuzzle {
    /// The stored answer is the true one.
    pub open spec fn wf(&self) -> bool {
        self.is_match == in_language(self.grammar, self.input@)
    }

    /// The puzzle is the one drawn from generator state `s`, which leaves the
    /// generator in state `end`.
    pub open spec fn drawn_from(&self, s: u64, end: u64) -> bool {
        &&& self.grammar == family_of_draw(advance(s, 1))
        &&& (self.input@, end) == cfg_input_draw(self.grammar, coin(advance(s, 2)), advance(s, 2))
    }

    /// A random puzzle: a random family, a coin, and a member of the language
    /// on heads or a non-member on tails.
    pub fn generate(rng: &mut SimpleRng) -> (p: Self)
        ensures
            p.drawn_from(old(rng)@, final(rng)@),
            p.wf(),
            p.is_match == coin(advance(old(rng)@, 2)),
    {
        let ghost s0 = rng@;
        let grammar = GrammarFamily::generate(rng);
        let should_match = rng.gen_bool();
        assert(rng@ == advance(s0, 2) && grammar == family_of_draw(advance(s0, 1))) by {
            reveal_with_fuel(advance, 3);
        }
        let input = if should_match {
            grammar.generate_member(rng)
        } else {
            grammar.generate_non_member(rng)
        };
        let is_match = grammar.matches(input.as_str());
        CfgPuzzle { grammar, input, is_match }
    }

    /// The stored answer.
    pub fn is_match(&self) -> (r: bool)
        ensures
            r == self.is_match,
    {
        self.is_match
    }

    /// The grammar as text.
    pub fn render(&self) -> (out: String)
        ensures
            out@ == grammar_text(self.grammar),
    {
        self.grammar.render()
    }

    /// Why the input is or is not in the language.
    pub fn explanation(&self) -> (out: String)
        ensures
            out@ == explanation_text(self.grammar, self.input@),
    {
        self.grammar.explanation(self.input.as_str())
    }
}

} // verus!
