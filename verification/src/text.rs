//! Strings as sequences of characters: building them, counting in them, and
//! writing numbers in decimal.

use vstd::prelude::*;

verus! {

/// Appends one character to a string.
///
/// Trusted: calls `String::push`, which (as its documentation says) appends
/// the character to the end of the string.
#[verifier::external_body]
pub(crate) fn push_char(s: &mut String, c: char)
    ensures
        final(s)@ == old(s)@.push(c),
{
    s.push(c)
}

/// A name for what `format!("{:?}", s)` gives for a string: the string quoted
/// and escaped the way `Debug` for `str` writes it.
pub uninterp spec fn debug_repr(s: Seq<char>) -> Seq<char>;

/// The `Debug` form of a string.
///
/// Trusted: calls `format!("{:?}", ..)` on the string. The contract says only
/// that the result is a function of the string's characters (named
/// `debug_repr`); the escaping rules are not stated.
#[verifier::external_body]
pub(crate) fn debug_str(s: &str) -> (r: String)
    ensures
        r@ == debug_repr(s@),
{
    format!("{:?}", s)
}

/// The characters of a string, in order.
pub fn chars_of(s: &str) -> (v: Vec<char>)
    ensures
        v@ == s@,
{
    let mut v: Vec<char> = Vec::new();
    for c in it: s.chars()
        invariant
            v@ == it.seq().take(it.index() as int),
            it.seq() == s@,
    {
        v.push(c);
    }
    assert(v@ == s@.take(s@.len() as int));
    v
}

/// The string made of the given characters, in order.
pub fn string_from_chars(chars: &Vec<char>) -> (s: String)
    ensures
        s@ == chars@,
{
    let mut s = String::new();
    for i in 0..chars.len()
        invariant
            s@ == chars@.take(i as int),
    {
        push_char(&mut s, chars[i]);
        assert(chars@.take(i + 1) == chars@.take(i as int).push(chars@[i as int]));
    }
    assert(chars@.take(chars@.len() as int) == chars@);
    s
}

/// The characters of `s` in reverse order.
pub fn reversed(s: &str) -> (r: String)
    ensures
        r@ == s@.reverse(),
{
    let chars = chars_of(s);
    let n = chars.len();
    let mut r = String::new();
    for i in 0..n
        invariant
            n == chars@.len(),
            chars@ == s@,
            r@ == s@.reverse().take(i as int),
    {
        push_char(&mut r, chars[n - 1 - i]);
        assert(r@ == s@.reverse().take(i + 1));
    }
    assert(s@.reverse().take(n as int) == s@.reverse());
    r
}

/// The decimal digit for `d` (taken below ten).
pub open spec fn digit_char(d: nat) -> char {
    ((48 + d) as u8) as char
}

/// The decimal numeral of `n`, without leading zeros.
pub open spec fn decimal(n: nat) -> Seq<char>
    decreases n,
{
    if n < 10 {
        seq![digit_char(n)]
    } else {
        decimal(n / 10).push(digit_char(n % 10))
    }
}

/// The number a string of decimal digits stands for.
pub open spec fn digits_value(s: Seq<char>) -> int
    decreases s.len(),
{
    if s.len() == 0 {
        0
    } else {
        digits_value(s.drop_last()) * 10 + (s.last() as int - 48)
    }
}

/// The numeral of `n` is a non-empty string of decimal digits that stands
/// for `n` and starts with `0` only when `n` is 0.
pub proof fn lemma_decimal_digits(n: nat)
    ensures
        decimal(n).len() >= 1,
        forall|i: int| 0 <= i < decimal(n).len() ==> 48 <= #[trigger] (decimal(n)[i] as int) <= 57,
        digits_value(decimal(n)) == n,
        decimal(n)[0] == '0' ==> n == 0,
    decreases n,
{
    if n >= 10 {
        lemma_decimal_digits(n / 10);
        let prev = decimal(n / 10);
        let d = digit_char(n % 10);
        assert(decimal(n) == prev.push(d));
        assert(decimal(n).drop_last() == prev);
        assert(d as int == 48 + n % 10);
        assert forall|i: int| 0 <= i < decimal(n).len() implies 48 <= #[trigger] (decimal(n)[i] as int) <= 57 by {
            if i < prev.len() {
                assert(decimal(n)[i] == prev[i]);
            }
        }
        assert(decimal(n)[0] == prev[0]);
        assert(digits_value(decimal(n)) == digits_value(prev) * 10 + (d as int - 48));
        assert(n == (n / 10) * 10 + n % 10);
    } else {
        assert(digit_char(n) as int == 48 + n);
        assert(decimal(n).drop_last() =~= Seq::<char>::empty());
        assert(digits_value(decimal(n).drop_last()) == 0);
        assert(digits_value(decimal(n)) == 0 * 10 + (digit_char(n) as int - 48));
    }
}

/// Appends the decimal numeral of `n` to `out`.
pub fn push_decimal(out: &mut String, n: usize)
    ensures
        final(out)@ == old(out)@ + decimal(n as nat),
    decreases n,
{
    if n >= 10 {
        push_decimal(out, n / 10);
    }
    let d: u8 = (n % 10) as u8;
    push_char(out, (48u8 + d) as char);
    assert(decimal(n as nat) == if n < 10 { seq![digit_char(n as nat)] } else { decimal((n / 10) as nat).push(digit_char((n % 10) as nat)) });
}

/// The decimal numeral of `n`.
pub fn decimal_string(n: usize) -> (s: String)
    ensures
        s@ == decimal(n as nat),
{
    let mut s = String::new();
    push_decimal(&mut s, n);
    s
}

/// How many times `c` occurs in `s`.
pub open spec fn count_char(s: Seq<char>, c: char) -> nat
    decreases s.len(),
{
    if s.len() == 0 {
        0
    } else {
        count_char(s.drop_last(), c) + if s.last() == c { 1nat } else { 0nat }
    }
}

/// Counting a character is the length of the subsequence of its copies.
pub proof fn lemma_count_is_filter(s: Seq<char>, c: char)
    ensures
        count_char(s, c) == s.filter(|x: char| x == c).len(),
    decreases s.len(),
{
    reveal(Seq::filter);
    if s.len() > 0 {
        lemma_count_is_filter(s.drop_last(), c);
    }
}

/// Counting in a concatenation adds the counts of its parts.
pub proof fn lemma_count_concat(s: Seq<char>, t: Seq<char>, c: char)
    ensures
        count_char(s + t, c) == count_char(s, c) + count_char(t, c),
    decreases t.len(),
{
    if t.len() > 0 {
        lemma_count_concat(s, t.drop_last(), c);
        assert((s + t).drop_last() == s + t.drop_last());
    } else {
        assert(s + t == s);
    }
}

/// Replacing one character changes the count by what left and what came.
pub proof fn lemma_count_update(s: Seq<char>, i: int, x: char, c: char)
    requires
        0 <= i < s.len(),
    ensures
        count_char(s.update(i, x), c) + (if s[i] == c { 1int } else { 0 }) == count_char(s, c)
            + (if x == c { 1int } else { 0 }),
    decreases s.len(),
{
    if i == s.len() - 1 {
        assert(s.update(i, x).drop_last() == s.drop_last());
    } else {
        lemma_count_update(s.drop_last(), i, x, c);
        assert(s.update(i, x).drop_last() == s.drop_last().update(i, x));
    }
}

/// Swapping two characters keeps every count.
pub proof fn lemma_count_swap(s: Seq<char>, i: int, j: int, c: char)
    requires
        0 <= i < s.len(),
        0 <= j < s.len(),
    ensures
        count_char(s.update(i, s[j]).update(j, s[i]), c) == count_char(s, c),
{
    lemma_count_update(s, i, s[j], c);
    lemma_count_update(s.update(i, s[j]), j, s[i], c);
}

/// A run of `n` copies of `c`.
pub open spec fn repeat_char(c: char, n: nat) -> Seq<char> {
    Seq::new(n, |_i: int| c)
}

/// A run of copies of one character counts its length of that character and
/// none of any other.
pub proof fn lemma_count_repeat(c: char, n: nat, d: char)
    ensures
        count_char(repeat_char(c, n), d) == if c == d { n } else { 0 },
    decreases n,
{
    if n > 0 {
        lemma_count_repeat(c, (n - 1) as nat, d);
        assert(repeat_char(c, n).drop_last() == repeat_char(c, (n - 1) as nat));
    }
}

/// The parts written one after another with `sep` between neighbours.
pub open spec fn join(parts: Seq<Seq<char>>, sep: Seq<char>) -> Seq<char>
    decreases parts.len(),
{
    if parts.len() == 0 {
        Seq::empty()
    } else if parts.len() == 1 {
        parts[0]
    } else {
        join(parts.drop_last(), sep) + sep + parts.last()
    }
}

/// Joining nothing gives nothing, joining one part gives that part, and
/// joining a part in front of others puts the separator between it and the
/// join of the others.
pub proof fn lemma_join_prepend(a: Seq<char>, rest: Seq<Seq<char>>, sep: Seq<char>)
    ensures
        join(Seq::empty(), sep) == Seq::<char>::empty(),
        join(seq![a], sep) == a,
        rest.len() > 0 ==> join(seq![a] + rest, sep) == a + sep + join(rest, sep),
    decreases rest.len(),
{
    let parts = seq![a] + rest;
    if rest.len() > 1 {
        lemma_join_prepend(a, rest.drop_last(), sep);
        assert(parts.drop_last() == seq![a] + rest.drop_last());
        assert(parts.last() == rest.last());
        assert(join(parts, sep) == join(parts.drop_last(), sep) + sep + rest.last());
        assert(join(rest, sep) == join(rest.drop_last(), sep) + sep + rest.last());
        assert(join(parts, sep) =~= a + sep + join(rest, sep));
    } else if rest.len() == 1 {
        assert(parts.drop_last() == seq![a]);
        assert(join(seq![a], sep) == a);
        assert(join(rest, sep) == rest[0]);
        assert(join(parts, sep) =~= a + sep + join(rest, sep));
    }
}

/// Joining one more part appends the separator (unless it is the first part)
/// and the part.
pub proof fn lemma_join_push(parts: Seq<Seq<char>>, sep: Seq<char>, x: Seq<char>)
    ensures
        join(parts.push(x), sep) == if parts.len() == 0 { x } else { join(parts, sep) + sep + x },
{
    assert(parts.push(x).drop_last() == parts);
    if parts.len() == 0 {
        assert(parts.push(x)[0] == x);
    }
}

/// The counts of `0` and `1` add up to at most the length.
pub proof fn lemma_binary_counts_bounded(s: Seq<char>)
    ensures
        count_char(s, '0') + count_char(s, '1') <= s.len(),
    decreases s.len(),
{
    if s.len() > 0 {
        lemma_binary_counts_bounded(s.drop_last());
    }
}

/// Where the counts of `0` and `1` add up to the length, every character is
/// `0` or `1`.
pub proof fn lemma_binary_by_counts(s: Seq<char>)
    requires
        count_char(s, '0') + count_char(s, '1') == s.len(),
    ensures
        forall|i: int| 0 <= i < s.len() ==> s[i] == '0' || s[i] == '1',
    decreases s.len(),
{
    if s.len() > 0 {
        lemma_binary_counts_bounded(s.drop_last());
        lemma_binary_by_counts(s.drop_last());
        assert forall|i: int| 0 <= i < s.len() implies s[i] == '0' || s[i] == '1' by {
            if i < s.len() - 1 {
                assert(s[i] == s.drop_last()[i]);
            }
        }
    }
}

} // verus!
