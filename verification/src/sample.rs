//! Random strings drawn from a `SimpleRng`: coin-flip strings over two letters
//! and shuffles of a given number of zeros and ones.

use vstd::prelude::*;
use crate::rng::{SimpleRng, next_state, advance, coin, pick};
use crate::text::{push_char, string_from_chars, count_char, repeat_char, lemma_count_swap,
    lemma_count_concat, lemma_count_repeat};

verus! {

/// The binary digit a draw stands for: `'0'` on heads, `'1'` on tails.
pub open spec fn bit_char(v: u64) -> char {
    if coin(v) { '0' } else { '1' }
}

/// The letter a draw stands for: `'a'` on heads, `'b'` on tails.
pub open spec fn ab_char(v: u64) -> char {
    if coin(v) { 'a' } else { 'b' }
}

/// The binary string read off the next `len` draws from state `s`.
pub open spec fn binary_draws(s: u64, len: nat) -> Seq<char> {
    Seq::new(len, |i: int| bit_char(advance(s, (i + 1) as nat)))
}

/// The string over `a` and `b` read off the next `len` draws from state `s`.
pub open spec fn ab_draws(s: u64, len: nat) -> Seq<char> {
    Seq::new(len, |i: int| ab_char(advance(s, (i + 1) as nat)))
}

/// `s` with the characters at `i` and `j` exchanged.
pub open spec fn swap_chars(s: Seq<char>, i: int, j: int) -> Seq<char> {
    s.update(i, s[j]).update(j, s[i])
}

/// Fisher-Yates from position `hi` down to position 1: each step draws a
/// position in `0..=hi` and swaps it with `hi`. Gives the shuffled sequence
/// and the generator's state afterwards.
pub open spec fn shuffle_down(s: Seq<char>, state: u64, hi: nat) -> (Seq<char>, u64)
    decreases hi,
{
    if hi == 0 {
        (s, state)
    } else {
        let v = next_state(state);
        shuffle_down(swap_chars(s, hi as int, pick(v, 0, hi + 1 as int)), v, (hi - 1) as nat)
    }
}

/// A Fisher-Yates shuffle of the whole of `s` from state `state`.
pub open spec fn shuffled(s: Seq<char>, state: u64) -> (Seq<char>, u64) {
    if s.len() == 0 {
        (s, state)
    } else {
        shuffle_down(s, state, (s.len() - 1) as nat)
    }
}

/// A shuffle keeps the length and the count of every character.
pub proof fn lemma_shuffle_down_keeps_counts(s: Seq<char>, state: u64, hi: nat, c: char)
    requires
        hi < s.len(),
    ensures
        shuffle_down(s, state, hi).0.len() == s.len(),
        count_char(shuffle_down(s, state, hi).0, c) == count_char(s, c),
    decreases hi,
{
    if hi > 0 {
        let v = next_state(state);
        let j = pick(v, 0, hi + 1 as int);
        lemma_count_swap(s, hi as int, j, c);
        lemma_shuffle_down_keeps_counts(swap_chars(s, hi as int, j), v, (hi - 1) as nat, c);
    }
}

/// A whole shuffle keeps the length and the count of every character.
pub proof fn lemma_shuffled_keeps_counts(s: Seq<char>, state: u64, c: char)
    ensures
        shuffled(s, state).0.len() == s.len(),
        count_char(shuffled(s, state).0, c) == count_char(s, c),
{
    if s.len() > 0 {
        lemma_shuffle_down_keeps_counts(s, state, (s.len() - 1) as nat, c);
    }
}

/// A string of `len` binary digits, one coin flip each.
pub fn random_binary_string(rng: &mut SimpleRng, len: usize) -> (out: String)
    ensures
        out@ == binary_draws(old(rng)@, len as nat),
        final(rng)@ == advance(old(rng)@, len as nat),
{
    let ghost s0 = rng@;
    let mut out = String::new();
    for i in 0..len
        invariant
            rng@ == advance(s0, i as nat),
            out@ == binary_draws(s0, i as nat),
    {
        let b = rng.gen_bool();
        push_char(&mut out, if b { '0' } else { '1' });
        assert(out@ == binary_draws(s0, (i + 1) as nat));
    }
    out
}

/// A string of `len` letters `a` and `b`, one coin flip each.
pub fn random_ab_string(rng: &mut SimpleRng, len: usize) -> (out: String)
    ensures
        out@ == ab_draws(old(rng)@, len as nat),
        final(rng)@ == advance(old(rng)@, len as nat),
{
    let ghost s0 = rng@;
    let mut out = String::new();
    for i in 0..len
        invariant
            rng@ == advance(s0, i as nat),
            out@ == ab_draws(s0, i as nat),
    {
        let b = rng.gen_bool();
        push_char(&mut out, if b { 'a' } else { 'b' });
        assert(out@ == ab_draws(s0, (i + 1) as nat));
    }
    out
}

/// `zero_count` zeros followed by `one_count` ones, shuffled.
pub fn shuffled_binary_string(rng: &mut SimpleRng, zero_count: usize, one_count: usize) -> (out:
    String)
    requires
        zero_count + one_count <= usize::MAX,
    ensures
        out@ == shuffled(repeat_char('0', zero_count as nat) + repeat_char('1', one_count as nat),
            old(rng)@).0,
        final(rng)@ == shuffled(repeat_char('0', zero_count as nat) + repeat_char(
            '1',
            one_count as nat,
        ), old(rng)@).1,
        out@.len() == zero_count + one_count,
        count_char(out@, '0') == zero_count,
        count_char(out@, '1') == one_count,
{
    let ghost s0 = rng@;
    let ghost init = repeat_char('0', zero_count as nat) + repeat_char('1', one_count as nat);
    let mut chars: Vec<char> = Vec::new();
    for i in 0..zero_count
        invariant
            chars@ == repeat_char('0', i as nat),
    {
        chars.push('0');
        assert(chars@ == repeat_char('0', (i + 1) as nat));
    }
    for i in 0..one_count
        invariant
            chars@ == repeat_char('0', zero_count as nat) + repeat_char('1', i as nat),
    {
        chars.push('1');
        assert(chars@ == repeat_char('0', zero_count as nat) + repeat_char('1', (i + 1) as nat));
    }
    let n = chars.len();
    if n > 1 {
        let mut idx = n - 1;
        while idx >= 1
            invariant
                idx < n,
                chars@.len() == n,
                n == init.len(),
                shuffle_down(chars@, rng@, idx as nat) == shuffled(init, s0),
            decreases idx,
        {
            let j = rng.gen_range(0, idx + 1);
            let a = chars[idx];
            let b = chars[j];
            chars.set(idx, b);
            chars.set(j, a);
            idx = idx - 1;
        }
    }
    proof {
        lemma_shuffled_keeps_counts(init, s0, '0');
        lemma_shuffled_keeps_counts(init, s0, '1');
        lemma_count_concat(repeat_char('0', zero_count as nat), repeat_char('1', one_count as nat), '0');
        lemma_count_concat(repeat_char('0', zero_count as nat), repeat_char('1', one_count as nat), '1');
        lemma_count_repeat('0', zero_count as nat, '0');
        lemma_count_repeat('0', zero_count as nat, '1');
        lemma_count_repeat('1', one_count as nat, '0');
        lemma_count_repeat('1', one_count as nat, '1');
    }
    string_from_chars(&chars)
}

} // verus!
