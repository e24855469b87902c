use clingfun::diagram::{dfa_edges, DfaEdge, EdgeLabel, EdgeShape};

fn edge(source: usize, target: usize, label: EdgeLabel, shape: EdgeShape) -> DfaEdge {
    DfaEdge { source, target, label, shape }
}

#[test]
fn edges_merge_bend_and_loop() {
    // q0: 0 -> q1, 1 -> q0; q1: 0 -> q2, 1 -> q0; q2: both -> q2.
    let t = [[1, 0], [2, 0], [2, 2]];
    assert_eq!(
        dfa_edges(&t),
        vec![
            edge(0, 1, EdgeLabel::Zero, EdgeShape::BendPositive),
            edge(0, 0, EdgeLabel::One, EdgeShape::SelfLoop),
            edge(1, 2, EdgeLabel::Zero, EdgeShape::Straight),
            edge(1, 0, EdgeLabel::One, EdgeShape::BendNegative),
            edge(2, 2, EdgeLabel::Both, EdgeShape::SelfLoop),
        ]
    );
}

#[test]
fn merged_edge_to_other_state() {
    let t = [[1, 1], [1, 1]];
    assert_eq!(
        dfa_edges(&t),
        vec![
            edge(0, 1, EdgeLabel::Both, EdgeShape::Straight),
            edge(1, 1, EdgeLabel::Both, EdgeShape::SelfLoop),
        ]
    );
    assert!(dfa_edges(&[]).is_empty());
}

#[test]
fn label_texts() {
    assert_eq!(EdgeLabel::Zero.text(), "0");
    assert_eq!(EdgeLabel::One.text(), "1");
    assert_eq!(EdgeLabel::Both.text(), "0,1");
}
