use learn_pltl_fast::syntax::SyntaxTree;
use learn_pltl_fast::trace::{holds_trace, same_trace, Sample};
use std::sync::Arc;

const ATOM_0: SyntaxTree = SyntaxTree::Atom(0);

const ATOM_1: SyntaxTree = SyntaxTree::Atom(1);

#[test]
fn trace_and() {
    let sample = Sample {
        positive_traces: vec![vec![[true, true]]],
        negative_traces: vec![
            vec![[false, true]],
            vec![[true, false]],
            vec![[false, false]],
        ],
    };

    let formula = SyntaxTree::And(Arc::new(ATOM_0), Arc::new(ATOM_1));

    assert!(sample.is_consistent(&formula));
}

#[test]
fn is_consistent_sees_a_failure_on_either_side() {
    let sample = Sample {
        positive_traces: vec![vec![[true, true]], vec![[true, false]]],
        negative_traces: vec![vec![[false, true]], vec![[false, false]], vec![[false, true]]],
    };
    assert!(sample.is_consistent(&ATOM_0));
    // Fails on the second positive trace.
    assert!(!sample.is_consistent(&ATOM_1));
    // Holds on every positive trace and on the last negative one as well.
    let either = SyntaxTree::Or(Arc::new(ATOM_0), Arc::new(ATOM_1));
    assert!(!sample.is_consistent(&either));
    let longer_negatives = Sample {
        positive_traces: vec![vec![[true]]],
        negative_traces: vec![vec![[false]], vec![[false], [false]], vec![[true], [true]]],
    };
    assert!(!longer_negatives.is_consistent(&SyntaxTree::Atom(0)));
    let fitting = SyntaxTree::Not(Arc::new(SyntaxTree::Next(Arc::new(SyntaxTree::Or(
        Arc::new(SyntaxTree::Atom(0)),
        Arc::new(SyntaxTree::Not(Arc::new(SyntaxTree::Atom(0)))),
    )))));
    assert!(!longer_negatives.is_consistent(&fitting));
    let empty: Sample<1> = Sample::default();
    assert!(empty.is_consistent(&SyntaxTree::Atom(0)));
}

#[test]
fn same_trace_compares_valuation_by_valuation() {
    assert!(same_trace(&[[true, false], [false, false]], &[[true, false], [false, false]]));
    assert!(!same_trace(&[[true, false], [false, false]], &[[true, false], [false, true]]));
    assert!(!same_trace(&[[true, false]], &[[true, false], [true, false]]));
    let none: [[bool; 2]; 0] = [];
    assert!(same_trace(&none, &none));
    let list = vec![vec![[true]], vec![[false], [true]]];
    assert!(holds_trace(&list, &[[false], [true]]));
    assert!(!holds_trace(&list, &[[false]]));
}

#[test]
fn is_solvable_refuses_a_trace_on_both_sides() {
    let solvable = Sample {
        positive_traces: vec![vec![[true], [false]]],
        negative_traces: vec![vec![[true]], vec![[false], [true]]],
    };
    assert!(solvable.is_solvable());
    let unsolvable = Sample {
        positive_traces: vec![vec![[true]], vec![[false], [true]]],
        negative_traces: vec![vec![[false]], vec![[false], [true]]],
    };
    assert!(!unsolvable.is_solvable());
    let empty: Sample<3> = Sample::default();
    assert!(empty.is_solvable());
}

#[test]
fn time_lenght_is_the_longest_trace() {
    let sample = Sample {
        positive_traces: vec![vec![[true]], vec![[true], [false], [true]]],
        negative_traces: vec![vec![[false], [false]]],
    };
    assert_eq!(sample.time_lenght(), 3);
    let other = Sample {
        positive_traces: vec![vec![[true]]],
        negative_traces: vec![vec![[false]; 300], vec![[false], [false]]],
    };
    assert_eq!(other.time_lenght(), 300);
    let empty: Sample<1> = Sample::default();
    assert_eq!(empty.time_lenght(), 0);
}

#[test]
fn vars_lists_the_indices_of_the_valuations() {
    let sample = Sample {
        positive_traces: vec![vec![[true, true, false]]],
        negative_traces: vec![],
    };
    assert_eq!(sample.vars(), vec![0, 1, 2]);
    let empty: Sample<3> = Sample::default();
    assert_eq!(empty.vars(), Vec::<u8>::new());
    let wide: Sample<300> = Sample {
        positive_traces: vec![],
        negative_traces: vec![vec![[false; 300]]],
    };
    let indices = wide.vars();
    assert_eq!(indices.len(), 256);
    assert_eq!(indices[255], 255);
}

#[test]
fn add_positive_trace_refuses_a_negative_trace() {
    let mut sample: Sample<1> = Sample::default();
    assert_eq!(sample.add_negative_trace(vec![[false]]), Ok(()));
    assert_eq!(sample.add_positive_trace(vec![[true]]), Ok(()));
    assert_eq!(sample.add_positive_trace(vec![[false]]), Err(()));
    assert_eq!(sample.positive_traces, vec![vec![[true]]]);
    assert_eq!(sample.negative_traces, vec![vec![[false]]]);
    // A trace that is there already is not added twice.
    assert_eq!(sample.add_positive_trace(vec![[true]]), Ok(()));
    assert_eq!(sample.positive_traces, vec![vec![[true]]]);
    assert_eq!(sample.add_positive_trace(vec![[true], [true]]), Ok(()));
    assert_eq!(sample.positive_traces, vec![vec![[true]], vec![[true], [true]]]);
    assert!(sample.is_solvable());
}

#[test]
fn add_negative_trace_refuses_a_positive_trace() {
    let mut sample: Sample<2> = Sample::default();
    assert_eq!(sample.add_positive_trace(vec![[true, false]]), Ok(()));
    assert_eq!(sample.add_negative_trace(vec![[true, false]]), Err(()));
    assert!(sample.negative_traces.is_empty());
    assert_eq!(sample.add_negative_trace(vec![[true, true]]), Ok(()));
    assert_eq!(sample.add_negative_trace(vec![[true, true]]), Ok(()));
    assert_eq!(sample.negative_traces, vec![vec![[true, true]]]);
    assert_eq!(sample.positive_traces, vec![vec![[true, false]]]);
    assert!(sample.is_solvable());
}

#[test]
fn file_by_labels_a_trace_by_the_formula() {
    let formula = SyntaxTree::Implies(Arc::new(ATOM_0), Arc::new(ATOM_1));
    let mut sample: Sample<2> = Sample::default();
    assert!(sample.file_by(&formula, vec![[true, true]], 2, 1));
    assert!(sample.file_by(&formula, vec![[true, false]], 2, 1));
    assert!(sample.file_by(&formula, vec![[false, false], [true, false]], 2, 1));
    // Both sides are full by now.
    assert!(!sample.file_by(&formula, vec![[false, true]], 2, 1));
    assert!(!sample.file_by(&formula, vec![[true, false], [true, true]], 2, 1));
    assert_eq!(
        sample.positive_traces,
        vec![vec![[true, true]], vec![[false, false], [true, false]]]
    );
    assert_eq!(sample.negative_traces, vec![vec![[true, false]]]);
    assert!(sample.is_consistent(&formula));
}

#[test]
fn is_well_formed_refuses_an_empty_trace() {
    let sample = Sample {
        positive_traces: vec![vec![[true]], vec![[true], [false]]],
        negative_traces: vec![vec![[false]]],
    };
    assert!(sample.is_well_formed());
    let with_empty: Sample<1> = Sample {
        positive_traces: vec![vec![[true]]],
        negative_traces: vec![vec![[false]], vec![]],
    };
    assert!(!with_empty.is_well_formed());
    let empty: Sample<1> = Sample::default();
    assert!(empty.is_well_formed());
}
