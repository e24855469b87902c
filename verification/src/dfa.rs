//! Deterministic finite automata over the alphabet {0, 1}: running them,
//! describing them, and drawing random ones as puzzles.

use vstd::prelude::*;
use crate::rng::{SimpleRng, advance, pick, lemma_advance_add};
use crate::sample::{random_binary_string, binary_draws};
use crate::text::{push_decimal, decimal, join, lemma_join_push};

verus! {

/// The column of the transition table that a character selects: `'0'` reads
/// column 0, every other character column 1.
pub open spec fn symbol_index(c: char) -> int {
    if c == '0' { 0 } else { 1 }
}

/// The state reached from `state` on reading `c`.
pub open spec fn dfa_step(t: Seq<[usize; 2]>, state: usize, c: char) -> usize {
    t[state as int][symbol_index(c)]
}

/// The state reached from the start state 0 after reading the first `k`
/// characters of `input`.
pub open spec fn dfa_state_after(t: Seq<[usize; 2]>, input: Seq<char>, k: nat) -> usize
    decreases k,
{
    if k == 0 {
        0
    } else {
        dfa_step(t, dfa_state_after(t, input, (k - 1) as nat), input[k - 1])
    }
}

/// The states visited while reading `input`, the start state first.
pub open spec fn dfa_trace(t: Seq<[usize; 2]>, input: Seq<char>) -> Seq<usize> {
    Seq::new(input.len() + 1, |k: int| dfa_state_after(t, input, k as nat))
}

/// Every state the run on `input` reads a character in is a row of the table.
pub open spec fn run_in_range(t: Seq<[usize; 2]>, input: Seq<char>) -> bool {
    forall|k: nat| k < input.len() ==> #[trigger] dfa_state_after(t, input, k) < t.len()
}

/// Every entry of the table names a row of the table.
pub open spec fn targets_in_range(t: Seq<[usize; 2]>) -> bool {
    forall|k: int, b: int| 0 <= k < t.len() && 0 <= b < 2 ==> #[trigger] t[k][b] < t.len()
}

/// In a table whose entries all name rows, every run stays among the rows.
pub proof fn lemma_run_in_range(t: Seq<[usize; 2]>, input: Seq<char>, k: nat)
    requires
        t.len() >= 1,
        targets_in_range(t),
        k <= input.len(),
    ensures
        dfa_state_after(t, input, k) < t.len(),
    decreases k,
{
    if k > 0 {
        lemma_run_in_range(t, input, (k - 1) as nat);
        let p = dfa_state_after(t, input, (k - 1) as nat);
        assert(t[p as int][symbol_index(input[k - 1])] < t.len());
    }
}

/// A trace starts in state 0, has one more state than the input has
/// characters, and each next state is the step from the one before on the
/// character read.
pub proof fn lemma_trace_shape(t: Seq<[usize; 2]>, input: Seq<char>)
    ensures
        dfa_trace(t, input).len() == input.len() + 1,
        dfa_trace(t, input)[0] == 0,
        forall|k: int|
            0 <= k < input.len() ==> #[trigger] dfa_trace(t, input)[k + 1] == t[dfa_trace(
                t,
                input,
            )[k] as int][if input[k] == '0' { 0 } else { 1 }],
{
}

/// The explanation of a run names its last state as the final one (state 0
/// when the run is empty).
pub proof fn lemma_trace_explanation_last(trace: Seq<usize>, accepted: bool)
    ensures
        trace_explanation(trace, accepted) == "Trace: "@ + join(
            Seq::new(trace.len(), |i: int| "q"@ + decimal(trace[i] as nat)),
            " -> "@,
        ) + ". Final state "@ + decimal(if trace.len() > 0 { trace[trace.len() - 1] as nat } else { 0 })
            + " is "@ + (if accepted { ""@ } else { "not "@ }) + "accepting."@,
{
    assert(trace.map_values(|s: usize| state_name(s as nat)) =~= Seq::new(
        trace.len(),
        |i: int| "q"@ + decimal(trace[i] as nat),
    ));
}

/// The text of an automaton shows, after `Accepting: `, the names of its
/// accepting states separated by `, `, then a blank line, the heading
/// `Transitions` and the table.
pub proof fn lemma_text_accepting_line(t: Seq<[usize; 2]>, acc: Seq<bool>)
    ensures
        dfa_text(t, acc) == "Alphabet: {0, 1}\nStart state: q0\nAccepting: "@ + join(
            accepting_names(acc),
            ", "@,
        ) + "\n"@ + "\n"@ + "Transitions\n"@ + transition_lines(t),
{
}

/// The accepting names are `q` and the number of each accepting state, in
/// increasing order of the numbers: gives those numbers.
pub proof fn lemma_accepting_names_indices(acc: Seq<bool>) -> (idx: Seq<nat>)
    ensures
        forall|i: int, j: int| 0 <= i < j < idx.len() ==> idx[i] < idx[j],
        forall|i: int| 0 <= i < idx.len() ==> idx[i] < acc.len(),
        forall|k: nat| k < acc.len() ==> (acc[k as int] <==> idx.contains(k)),
        accepting_names(acc) == Seq::new(idx.len(), |i: int| "q"@ + decimal(idx[i])),
    decreases acc.len(),
{
    if acc.len() == 0 {
        Seq::empty()
    } else {
        let prev = lemma_accepting_names_indices(acc.drop_last());
        let last = (acc.len() - 1) as nat;
        let idx = if acc.last() { prev.push(last) } else { prev };
        assert forall|k: nat| k < acc.len() implies (acc[k as int] <==> idx.contains(k)) by {
            if k < last {
                assert(acc[k as int] == acc.drop_last()[k as int]);
                if prev.contains(k) {
                    let i = choose|i: int| 0 <= i < prev.len() && prev[i] == k;
                    assert(idx[i] == k);
                }
                if idx.contains(k) {
                    let i = choose|i: int| 0 <= i < idx.len() && idx[i] == k;
                    assert(i < prev.len());
                    assert(prev[i] == k);
                }
            } else {
                if acc.last() {
                    assert(idx[idx.len() - 1] == k);
                } else {
                    if idx.contains(k) {
                        let i = choose|i: int| 0 <= i < idx.len() && idx[i] == k;
                        assert(prev[i] < acc.drop_last().len());
                    }
                }
            }
        }
        assert(accepting_names(acc) =~= Seq::new(idx.len(), |i: int| "q"@ + decimal(idx[i])));
        idx
    }
}

/// The states the automaton visits on `input`, from state 0, one more than
/// there are characters.
pub fn run_dfa(transitions: &[[usize; 2]], input: &str) -> (trace: Vec<usize>)
    requires
        run_in_range(transitions@, input@),
    ensures
        trace@ == dfa_trace(transitions@, input@),
{
    let mut state: usize = 0;
    let mut trace: Vec<usize> = Vec::new();
    trace.push(state);
    for ch in it: input.chars()
        invariant
            it.seq() == input@,
            run_in_range(transitions@, input@),
            trace@.len() == it.index() + 1,
            forall|k: int| 0 <= k <= it.index() ==> trace@[k] == dfa_state_after(transitions@, input@, k as nat),
            state == dfa_state_after(transitions@, input@, it.index() as nat),
    {
        let ghost i = it.index();
        assert(state < transitions@.len());
        let index: usize = if ch == '0' { 0 } else { 1 };
        state = transitions[state][index];
        assert(state == dfa_state_after(transitions@, input@, (i + 1) as nat));
        trace.push(state);
    }
    assert(trace@ == dfa_trace(transitions@, input@));
    trace
}

/// Draws the transition table for `states` states (draws 2 to 2 * states + 1
/// counted from `s0`).
fn draw_table(rng: &mut SimpleRng, states: usize, Ghost(s0): Ghost<u64>) -> (t: Vec<[usize; 2]>)
    requires
        0 < states < 6,
        old(rng)@ == advance(s0, 1),
    ensures
        t@ == drawn_transitions(s0, states as nat),
        final(rng)@ == advance(s0, 1 + 2 * states as nat),
{
    let ghost n = states as nat;
    let mut t: Vec<[usize; 2]> = Vec::new();
    for k in 0..states
        invariant
            n == states,
            0 < states < 6,
            rng@ == advance(s0, 1 + 2 * k as nat),
            t@.len() == k,
            forall|j: int| 0 <= j < k ==> #[trigger] t@[j] == drawn_transitions(s0, n)[j],
    {
        let a = rng.gen_range(0, states);
        let b = rng.gen_range(0, states);
        let row: [usize; 2] = [a, b];
        assert(row == drawn_transitions(s0, n)[k as int]) by {
            assert(row@ =~= drawn_transitions(s0, n)[k as int]@);
        }
        t.push(row);
    }
    assert(t@ =~= drawn_transitions(s0, n));
    t
}

/// Draws the accepting flags for `states` states (the `states` draws after
/// the transition table).
fn draw_flags(rng: &mut SimpleRng, states: usize, Ghost(s0): Ghost<u64>) -> (acc: Vec<bool>)
    requires
        0 < states < 6,
        old(rng)@ == advance(s0, 1 + 2 * states as nat),
    ensures
        acc@ == drawn_flags(s0, states as nat),
        final(rng)@ == advance(s0, 1 + 3 * states as nat),
{
    let ghost n = states as nat;
    let mut acc: Vec<bool> = Vec::new();
    for k in 0..states
        invariant
            n == states,
            0 < states < 6,
            rng@ == advance(s0, 1 + 2 * n + k as nat),
            acc@ == drawn_flags(s0, n).take(k as int),
    {
        let f = rng.gen_ratio(2, 5);
        acc.push(f);
        assert(acc@ == drawn_flags(s0, n).take(k + 1));
    }
    assert(acc@ == drawn_flags(s0, n));
    acc
}

/// Where no entry of `acc` is `flag`, draws a position and sets it to
/// `flag` (draw number `p` counted from `s0`).
fn settle_flag(
    rng: &mut SimpleRng,
    acc: &mut Vec<bool>,
    flag: bool,
    Ghost(s0): Ghost<u64>,
    Ghost(p): Ghost<nat>,
)
    requires
        p >= 1,
        old(rng)@ == advance(s0, (p - 1) as nat),
        old(acc)@.len() >= 2,
    ensures
        (final(acc)@, p + (if old(acc)@.contains(flag) { 0nat } else { 1nat })) == ensure_flag(
            old(acc)@,
            flag,
            s0,
            p,
        ),
        final(rng)@ == advance(s0, (ensure_flag(old(acc)@, flag, s0, p).1 - 1) as nat),
        final(acc)@.len() == old(acc)@.len(),
        final(acc)@.contains(flag),
        old(acc)@.contains(!flag) ==> final(acc)@.contains(!flag),
{
    if !contains_flag(acc, flag) {
        let ghost before = acc@;
        let len = acc.len();
        let idx = rng.gen_range(0, len);
        acc.set(idx, flag);
        assert(acc@[idx as int] == flag);
        let other: usize = if idx == 0 { 1 } else { 0 };
        assert(before[other as int] == !flag);
        assert(acc@[other as int] == !flag);
    }
}

/// Whether some entry of `v` equals `flag`.
fn contains_flag(v: &Vec<bool>, flag: bool) -> (r: bool)
    ensures
        r == v@.contains(flag),
{
    for i in 0..v.len()
        invariant
            forall|j: int| 0 <= j < i ==> v@[j] != flag,
    {
        if v[i] == flag {
            return true;
        }
    }
    false
}

/// The name of state `k`: `q` and its number.
pub open spec fn state_name(k: nat) -> Seq<char> {
    "q"@ + decimal(k)
}

/// The names of the accepting states, in order of their numbers.
pub open spec fn accepting_names(acc: Seq<bool>) -> Seq<Seq<char>>
    decreases acc.len(),
{
    if acc.len() == 0 {
        Seq::empty()
    } else if acc.last() {
        accepting_names(acc.drop_last()).push(state_name((acc.len() - 1) as nat))
    } else {
        accepting_names(acc.drop_last())
    }
}

/// The table line of state `k` whose transitions are `e`.
pub open spec fn transition_line(k: nat, e: [usize; 2]) -> Seq<char> {
    "  q"@ + decimal(k) + ": 0 -> q"@ + decimal(e[0] as nat) + ", 1 -> q"@ + decimal(e[1] as nat)
        + "\n"@
}

/// The table lines of all states, in order.
pub open spec fn transition_lines(t: Seq<[usize; 2]>) -> Seq<char>
    decreases t.len(),
{
    if t.len() == 0 {
        Seq::empty()
    } else {
        transition_lines(t.drop_last()) + transition_line((t.len() - 1) as nat, t.last())
    }
}

/// Appends the table line of state `k`.
fn push_transition_line(out: &mut String, k: usize, row: [usize; 2])
    ensures
        final(out)@ == old(out)@ + transition_line(k as nat, row),
{
    out.append("  q");
    push_decimal(out, k);
    out.append(": 0 -> q");
    push_decimal(out, row[0]);
    out.append(", 1 -> q");
    push_decimal(out, row[1]);
    out.append("\n");
    assert(final(out)@ =~= old(out)@ + transition_line(k as nat, row));
}

/// The text description of an automaton: alphabet, start state, accepting
/// states, and its transition table.
pub open spec fn dfa_text(t: Seq<[usize; 2]>, acc: Seq<bool>) -> Seq<char> {
    "Alphabet: {0, 1}\nStart state: q0\nAccepting: "@ + join(accepting_names(acc), ", "@) + "\n"@
        + "\n"@ + "Transitions\n"@ + transition_lines(t)
}

/// The explanation of a run: the visited states, then whether the last one
/// accepts.
pub open spec fn trace_explanation(trace: Seq<usize>, accepted: bool) -> Seq<char> {
    "Trace: "@ + join(trace.map_values(|s: usize| state_name(s as nat)), " -> "@)
        + ". Final state "@ + decimal(if trace.len() > 0 { trace.last() as nat } else { 0 })
        + " is "@ + (if accepted { ""@ } else { "not "@ }) + "accepting."@
}

/// The number of states a puzzle drawn from state `s` has: the first draw,
/// read as a number in `3..6`.
pub open spec fn drawn_state_count(s: u64) -> nat {
    pick(advance(s, 1), 3, 6) as nat
}

/// The transition table drawn from state `s` for `n` states: draws 2 and 3
/// give row 0, draws 4 and 5 row 1, and so on, each read as a state in `0..n`.
pub open spec fn drawn_transitions(s: u64, n: nat) -> Seq<[usize; 2]> {
    Seq::new(
        n,
        |k: int|
            [
                pick(advance(s, (2 + 2 * k) as nat), 0, n as int) as usize,
                pick(advance(s, (3 + 2 * k) as nat), 0, n as int) as usize,
            ],
    )
}

/// The accepting flags drawn from state `s` for `n` states after the table:
/// each state accepts with chance 2/5.
pub open spec fn drawn_flags(s: u64, n: nat) -> Seq<bool> {
    Seq::new(n, |k: int| pick(advance(s, (2 + 2 * n + k) as nat), 0, 5) < 2)
}

/// Where no flag equals `flag`, draw number `p` from `s` picks a state and
/// sets its flag to `flag`; otherwise nothing is drawn. Gives the flags and
/// the number of the next draw.
pub open spec fn ensure_flag(acc: Seq<bool>, flag: bool, s: u64, p: nat) -> (Seq<bool>, nat) {
    if acc.contains(flag) {
        (acc, p)
    } else {
        (acc.update(pick(advance(s, p), 0, acc.len() as int), flag), p + 1)
    }
}

/// The accepting flags of a puzzle drawn from `s`, after making sure that
/// some state accepts and then that some state rejects; and the number of
/// the next draw.
pub open spec fn drawn_accepting(s: u64) -> (Seq<bool>, nat) {
    let n = drawn_state_count(s);
    let first = ensure_flag(drawn_flags(s, n), true, s, 2 + 3 * n);
    ensure_flag(first.0, false, s, first.1)
}

/// The length of the input of a puzzle drawn from `s`: a number in `3..9`.
pub open spec fn drawn_input_len(s: u64) -> nat {
    pick(advance(s, drawn_accepting(s).1), 3, 9) as nat
}

/// The input of a puzzle drawn from `s`: one coin flip per character.
pub open spec fn drawn_input(s: u64) -> Seq<char> {
    binary_draws(advance(s, drawn_accepting(s).1), drawn_input_len(s))
}

/// The number of draws that drawing a puzzle from `s` takes.
pub open spec fn dfa_draw_count(s: u64) -> nat {
    drawn_accepting(s).1 + drawn_input_len(s)
}

/// A puzzle on an automaton: does it accept the input?
pub struct DfaPuzzle {
    /// Row `k` gives the states reached from state `k` on `0` and on `1`.
    pub transitions: Vec<[usize; 2]>,
    /// Which states accept.
    pub accepting: Vec<bool>,
    /// The string the question is about.
    pub input: String,
    /// The states visited on the input.
    pub trace: Vec<usize>,
}

impl DfaPuzzle {
    /// A consistent puzzle: at least one state, one flag per state, every
    /// transition names a state, and the trace is the run on the input.
    pub open spec fn wf(&self) -> bool {
        &&& self.transitions@.len() >= 1
        &&& self.accepting@.len() == self.transitions@.len()
        &&& targets_in_range(self.transitions@)
        &&& self.trace@ == dfa_trace(self.transitions@, self.input@)
    }

    /// The puzzle is the one drawn from generator state `s`, which leaves the
    /// generator in state `end`.
    pub open spec fn drawn_from(&self, s: u64, end: u64) -> bool {
        &&& self.transitions@ == drawn_transitions(s, drawn_state_count(s))
        &&& self.accepting@ == drawn_accepting(s).0
        &&& self.input@ == drawn_input(s)
        &&& end == advance(s, dfa_draw_count(s))
    }

    /// The last state of the trace can be looked up among the flags.
    pub open spec fn answerable(&self) -> bool {
        self.trace@.len() > 0 ==> self.trace@.last() < self.accepting@.len()
    }

    /// The trace ends in an accepting state.
    pub open spec fn accepts(&self) -> bool {
        self.trace@.len() > 0 && self.accepting@[self.trace@.last() as int]
    }

    /// A consistent puzzle is answered yes exactly when the state reached on
    /// the whole input accepts.
    pub proof fn lemma_accepts_final_state(&self)
        requires
            self.wf(),
        ensures
            self.accepts() == self.accepting@[dfa_state_after(
                self.transitions@,
                self.input@,
                self.input@.len(),
            ) as int],
    {
    }

    /// The explanation of a consistent puzzle lists the states of the run on
    /// the input, names the state reached on the whole input as the final
    /// one, and says whether that state accepts.
    pub proof fn lemma_explanation_final_state(&self)
        requires
            self.wf(),
        ensures
            ({
                let t = self.transitions@;
                let w = self.input@;
                let q = dfa_state_after(t, w, w.len());
                trace_explanation(self.trace@, self.accepts()) == "Trace: "@ + join(
                    Seq::new(w.len() + 1, |k: int| "q"@ + decimal(dfa_state_after(t, w, k as nat) as nat)),
                    " -> "@,
                ) + ". Final state "@ + decimal(q as nat) + " is "@ + (if self.accepting@[q as int] {
                    ""@
                } else {
                    "not "@
                }) + "accepting."@
            }),
    {
        let t = self.transitions@;
        let w = self.input@;
        assert(self.trace@.map_values(|s: usize| state_name(s as nat)) =~= Seq::new(
            w.len() + 1,
            |k: int| "q"@ + decimal(dfa_state_after(t, w, k as nat) as nat),
        ));
    }

    /// A consistent puzzle can be answered.
    pub proof fn lemma_wf_answerable(&self)
        requires
            self.wf(),
        ensures
            self.answerable(),
            self.trace@.len() == self.input@.len() + 1,
    {
        lemma_run_in_range(self.transitions@, self.input@, self.input@.len());
    }

    /// A random puzzle: 3 to 5 states with random transitions, each state
    /// accepting with chance 2/5 (but at least one accepting and one not),
    /// and a random binary input of 3 to 8 characters.
    pub fn generate(rng: &mut SimpleRng) -> (p: Self)
        ensures
            p.drawn_from(old(rng)@, final(rng)@),
            p.wf(),
            3 <= p.transitions@.len() < 6,
            p.accepting@.contains(true),
            p.accepting@.contains(false),
            3 <= p.input@.len() < 9,
    {
        let ghost s0 = rng@;
        let states = rng.gen_range(3, 6);
        let ghost n = states as nat;
        assert(rng@ == advance(s0, 1)) by {
            reveal_with_fuel(advance, 2);
        }
        let transitions = draw_table(rng, states, Ghost(s0));
        let mut accepting = draw_flags(rng, states, Ghost(s0));
        let ghost p = 2 + 3 * n;
        let ghost first = ensure_flag(drawn_flags(s0, n), true, s0, p);
        settle_flag(rng, &mut accepting, true, Ghost(s0), Ghost(p));
        let ghost second = ensure_flag(first.0, false, s0, first.1);
        settle_flag(rng, &mut accepting, false, Ghost(s0), Ghost(first.1));
        let ghost q = second.1;
        let input_len = rng.gen_range(3, 9);
        let ghost after_len = rng@;
        let input = random_binary_string(rng, input_len);
        proof {
            lemma_advance_add(s0, q, input_len as nat);
            assert(targets_in_range(transitions@)) by {
                assert forall|k: int, b: int| 0 <= k < transitions@.len() && 0 <= b < 2 implies #[trigger] transitions@[k][b] < transitions@.len() by {
                    assert(transitions@[k] == drawn_transitions(s0, n)[k]);
                }
            }
            assert forall|k: nat| k < input@.len() implies #[trigger] dfa_state_after(transitions@, input@, k) < transitions@.len() by {
                lemma_run_in_range(transitions@, input@, k);
            }
        }
        let trace = run_dfa(transitions.as_slice(), input.as_str());
        DfaPuzzle { transitions, accepting, input, trace }
    }

    /// Whether the input is accepted: the last state of the trace accepts.
    pub fn is_match(&self) -> (r: bool)
        requires
            self.answerable(),
        ensures
            r == self.accepts(),
    {
        if self.trace.len() > 0 {
            self.accepting[self.trace[self.trace.len() - 1]]
        } else {
            false
        }
    }

    /// The automaton as text: alphabet, start state, accepting states, and
    /// one line per state for its transitions.
    pub fn render(&self) -> (out: String)
        ensures
            out@ == dfa_text(self.transitions@, self.accepting@),
    {
        let mut out = String::new();
        out.append("Alphabet: {0, 1}\nStart state: q0\nAccepting: ");
        let ghost head = out@;
        let mut first = true;
        for idx in 0..self.accepting.len()
            invariant
                out@ == head + join(accepting_names(self.accepting@.take(idx as int)), ", "@),
                first == (accepting_names(self.accepting@.take(idx as int)).len() == 0),
        {
            let ghost prev = self.accepting@.take(idx as int);
            assert(self.accepting@.take(idx + 1).drop_last() == prev);
            if self.accepting[idx] {
                let ghost name = state_name(idx as nat);
                proof {
                    lemma_join_push(accepting_names(prev), ", "@, name);
                }
                if !first {
                    out.append(", ");
                }
                out.append("q");
                push_decimal(&mut out, idx);
                first = false;
            }
        }
        assert(self.accepting@.take(self.accepting@.len() as int) == self.accepting@);
        out.append("\n");
        out.append("\n");
        out.append("Transitions\n");
        let ghost mid = out@;
        for state in 0..self.transitions.len()
            invariant
                out@ == mid + transition_lines(self.transitions@.take(state as int)),
        {
            let row = self.transitions[state];
            let ghost before = out@;
            assert(self.transitions@.take(state + 1).drop_last() == self.transitions@.take(
                state as int,
            ));
            push_transition_line(&mut out, state, row);
            assert(out@ =~= mid + transition_lines(self.transitions@.take(state + 1)));
        }
        assert(self.transitions@.take(self.transitions@.len() as int) == self.transitions@);
        out
    }

    /// The run spelled out: the visited states, and whether the last accepts.
    pub fn explanation(&self) -> (out: String)
        requires
            self.answerable(),
        ensures
            out@ == trace_explanation(self.trace@, self.accepts()),
    {
        let ghost names = self.trace@.map_values(|s: usize| state_name(s as nat));
        let mut out = String::new();
        out.append("Trace: ");
        let ghost head = out@;
        for i in 0..self.trace.len()
            invariant
                names == self.trace@.map_values(|s: usize| state_name(s as nat)),
                out@ == head + join(names.take(i as int), " -> "@),
        {
            proof {
                lemma_join_push(names.take(i as int), " -> "@, names[i as int]);
                assert(names.take(i + 1) == names.take(i as int).push(names[i as int]));
            }
            if i > 0 {
                out.append(" -> ");
            }
            out.append("q");
            push_decimal(&mut out, self.trace[i]);
        }
        assert(names.take(names.len() as int) == names);
        out.append(". Final state ");
        let last: usize = if self.trace.len() > 0 { self.trace[self.trace.len() - 1] } else { 0 };
        push_decimal(&mut out, last);
        out.append(" is ");
        if self.is_match() {
            out.append("");
        } else {
            out.append("not ");
        }
        out.append("accepting.");
        out
    }
}

} // verus!
