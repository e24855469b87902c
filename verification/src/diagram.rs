//! Which arrows a drawing of an automaton has: one per transition, with the
//! two transitions of a state merged when they go to the same state, and the
//! shape each arrow takes.

use vstd::prelude::*;
use crate::dfa::targets_in_range;

verus! {

/// What an arrow is labelled with.
#[derive(Clone, Copy, Debug, PartialEq, Eq, Structural)]
pub enum EdgeLabel {
    /// The transition on `0`.
    Zero,
    /// The transition on `1`.
    One,
    /// Both transitions, which go to the same state.
    Both,
}

/// How an arrow is drawn.
#[derive(Clone, Copy, Debug, PartialEq, Eq, Structural)]
pub enum EdgeShape {
    /// A loop from a state back to itself.
    SelfLoop,
    /// A straight arrow: no arrow runs the other way.
    Straight,
    /// An arrow bent to one side, from a lower-numbered state to a higher one
    /// that also has an arrow back.
    BendPositive,
    /// An arrow bent to the other side, from a higher-numbered state to a
    /// lower one that also has an arrow back.
    BendNegative,
}

/// One arrow of the drawing.
#[derive(Clone, Copy, Debug, PartialEq, Eq, Structural)]
pub struct DfaEdge {
    /// The state the arrow leaves.
    pub source: usize,
    /// The state the arrow enters.
    pub target: usize,
    /// Its label.
    pub label: EdgeLabel,
    /// Its shape.
    pub shape: EdgeShape,
}

impl EdgeLabel {
    /// The text of the label.
    pub fn text(&self) -> (s: &'static str)
        ensures
            s@ == match *self {
                EdgeLabel::Zero => "0"@,
                EdgeLabel::One => "1"@,
                EdgeLabel::Both => "0,1"@,
            },
    {
        match self {
            EdgeLabel::Zero => "0",
            EdgeLabel::One => "1",
            EdgeLabel::Both => "0,1",
        }
    }
}

/// Some transition of `target` leads back to `source`.
pub open spec fn has_reverse(t: Seq<[usize; 2]>, source: usize, target: usize) -> bool {
    t[target as int][0] == source || t[target as int][1] == source
}

/// The shape of the arrow from `source` to `target`.
pub open spec fn edge_shape(t: Seq<[usize; 2]>, source: usize, target: usize) -> EdgeShape {
    if source == target {
        EdgeShape::SelfLoop
    } else if has_reverse(t, source, target) {
        if source < target {
            EdgeShape::BendPositive
        } else {
            EdgeShape::BendNegative
        }
    } else {
        EdgeShape::Straight
    }
}

/// The arrow of `source` on column `b` of its row, with label `label`.
pub open spec fn edge_for(t: Seq<[usize; 2]>, source: usize, b: int, label: EdgeLabel) -> DfaEdge {
    DfaEdge {
        source,
        target: t[source as int][b],
        label,
        shape: edge_shape(t, source, t[source as int][b]),
    }
}

/// The arrows leaving `source`: one labelled `0,1` when both transitions go
/// to the same state, else one labelled `0` and one labelled `1`.
pub open spec fn state_edges(t: Seq<[usize; 2]>, source: usize) -> Seq<DfaEdge> {
    if t[source as int][0] == t[source as int][1] {
        seq![edge_for(t, source, 0, EdgeLabel::Both)]
    } else {
        seq![edge_for(t, source, 0, EdgeLabel::Zero), edge_for(t, source, 1, EdgeLabel::One)]
    }
}

/// The arrows of the first `n` states, state by state.
pub open spec fn edges_upto(t: Seq<[usize; 2]>, n: nat) -> Seq<DfaEdge>
    decreases n,
{
    if n == 0 {
        Seq::empty()
    } else {
        edges_upto(t, (n - 1) as nat) + state_edges(t, (n - 1) as usize)
    }
}

/// What every arrow of the drawing is: it leaves one of the states and
/// enters the state that one of its transitions names; it is labelled `0,1`
/// exactly when both transitions of its state agree, and otherwise by the
/// symbol whose transition it is; it is a loop exactly when it enters the
/// state it leaves; otherwise it is bent exactly when some transition of its
/// target leads back to its source (to one side from a lower to a higher
/// state, to the other side from a higher to a lower one), and straight when
/// none does.
pub open spec fn edge_is_drawn_right(t: Seq<[usize; 2]>, n: nat, e: DfaEdge) -> bool {
    let row = t[e.source as int];
    let back = t[e.target as int][0] == e.source || t[e.target as int][1] == e.source;
    &&& e.source < n
    &&& (e.label == EdgeLabel::Both) == (row[0] == row[1])
    &&& (e.label == EdgeLabel::One ==> e.target == row[1])
    &&& (e.label != EdgeLabel::One ==> e.target == row[0])
    &&& (e.shape == EdgeShape::SelfLoop) == (e.source == e.target)
    &&& (e.source != e.target && back && e.source < e.target) ==> e.shape == EdgeShape::BendPositive
    &&& (e.source != e.target && back && e.source > e.target) ==> e.shape == EdgeShape::BendNegative
    &&& (e.source != e.target && !back) ==> e.shape == EdgeShape::Straight
}

/// Every arrow of the drawing of the first `n` states is drawn right.
pub proof fn lemma_edges_drawn_right(t: Seq<[usize; 2]>, n: nat)
    ensures
        forall|i: int|
            0 <= i < edges_upto(t, n).len() ==> edge_is_drawn_right(t, n, #[trigger] edges_upto(t, n)[i]),
    decreases n,
{
    if n > 0 {
        lemma_edges_drawn_right(t, (n - 1) as nat);
        let prev = edges_upto(t, (n - 1) as nat);
        let all = edges_upto(t, n);
        assert forall|i: int| 0 <= i < all.len() implies edge_is_drawn_right(t, n, #[trigger] all[i]) by {
            if i < prev.len() {
                assert(all[i] == prev[i]);
                assert(edge_is_drawn_right(t, (n - 1) as nat, prev[i]));
            } else {
                assert(all[i] == state_edges(t, (n - 1) as usize)[i - prev.len()]);
            }
        }
    }
}

/// Every transition of the first `n` states is drawn: some arrow leaves its
/// state, enters its target, and carries its symbol (alone, or as `0,1` when
/// both transitions of the state agree).
pub proof fn lemma_every_transition_drawn(t: Seq<[usize; 2]>, n: nat, k: usize, b: int)
    requires
        k < n,
        0 <= b < 2,
    ensures
        exists|i: int|
            0 <= i < edges_upto(t, n).len() && #[trigger] edges_upto(t, n)[i] == edge_for(
                t,
                k,
                b,
                if t[k as int][0] == t[k as int][1] {
                    EdgeLabel::Both
                } else if b == 0 {
                    EdgeLabel::Zero
                } else {
                    EdgeLabel::One
                },
            ),
    decreases n,
{
    let prev = edges_upto(t, (n - 1) as nat);
    let all = edges_upto(t, n);
    if k == n - 1 {
        let j: int = if t[k as int][0] == t[k as int][1] || b == 0 { 0 } else { 1 };
        assert(all[prev.len() + j] == state_edges(t, k)[j]);
    } else {
        lemma_every_transition_drawn(t, (n - 1) as nat, k, b);
        let i = choose|i: int|
            0 <= i < prev.len() && #[trigger] prev[i] == edge_for(
                t,
                k,
                b,
                if t[k as int][0] == t[k as int][1] {
                    EdgeLabel::Both
                } else if b == 0 {
                    EdgeLabel::Zero
                } else {
                    EdgeLabel::One
                },
            );
        assert(all[i] == prev[i]);
    }
}

/// The arrow of `source` on column `b`.
fn make_edge(transitions: &[[usize; 2]], source: usize, b: usize, label: EdgeLabel) -> (e: DfaEdge)
    requires
        source < transitions@.len(),
        b < 2,
        targets_in_range(transitions@),
    ensures
        e == edge_for(transitions@, source, b as int, label),
{
    let target = transitions[source][b];
    assert(transitions@[source as int][b as int] < transitions@.len());
    let shape = if source == target {
        EdgeShape::SelfLoop
    } else if transitions[target][0] == source || transitions[target][1] == source {
        if source < target {
            EdgeShape::BendPositive
        } else {
            EdgeShape::BendNegative
        }
    } else {
        EdgeShape::Straight
    };
    DfaEdge { source, target, label, shape }
}

/// The arrows of a drawing of the automaton, state by state: for each state
/// one arrow per transition, or one arrow labelled `0,1` where both go to the
/// same state.
pub fn dfa_edges(transitions: &[[usize; 2]]) -> (edges: Vec<DfaEdge>)
    requires
        targets_in_range(transitions@),
    ensures
        edges@ == edges_upto(transitions@, transitions@.len()),
        forall|i: int|
            0 <= i < edges@.len() ==> edge_is_drawn_right(transitions@, transitions@.len(), #[trigger] edges@[i]),
{
    let mut edges: Vec<DfaEdge> = Vec::new();
    for source in 0..transitions.len()
        invariant
            targets_in_range(transitions@),
            edges@ == edges_upto(transitions@, source as nat),
    {
        let ghost before = edges@;
        if transitions[source][0] == transitions[source][1] {
            edges.push(make_edge(transitions, source, 0, EdgeLabel::Both));
        } else {
            edges.push(make_edge(transitions, source, 0, EdgeLabel::Zero));
            edges.push(make_edge(transitions, source, 1, EdgeLabel::One));
        }
        assert(edges@ =~= before + state_edges(transitions@, source));
    }
    proof {
        lemma_edges_drawn_right(transitions@, transitions@.len());
    }
    edges
}

} // verus!
