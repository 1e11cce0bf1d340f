use learn_pltl_fast::syntax::SyntaxTree;
use std::sync::Arc;

fn formulae() -> Vec<SyntaxTree> {
    let a = SyntaxTree::Atom(0);
    let b = SyntaxTree::Atom(1);
    vec![
        a.clone(),
        b.clone(),
        SyntaxTree::Atom(200),
        SyntaxTree::Not(Arc::new(a.clone())),
        SyntaxTree::Not(Arc::new(b.clone())),
        SyntaxTree::Next(Arc::new(a.clone())),
        SyntaxTree::Globally(Arc::new(b.clone())),
        SyntaxTree::Finally(Arc::new(SyntaxTree::Not(Arc::new(a.clone())))),
        SyntaxTree::And(Arc::new(a.clone()), Arc::new(b.clone())),
        SyntaxTree::And(Arc::new(b.clone()), Arc::new(a.clone())),
        SyntaxTree::And(Arc::new(a.clone()), Arc::new(SyntaxTree::Next(Arc::new(a.clone())))),
        SyntaxTree::Or(Arc::new(a.clone()), Arc::new(b.clone())),
        SyntaxTree::Implies(Arc::new(b.clone()), Arc::new(b.clone())),
        SyntaxTree::Until(Arc::new(a.clone()), Arc::new(b.clone())),
        SyntaxTree::Release(Arc::new(a.clone()), Arc::new(b.clone())),
        SyntaxTree::Release(Arc::new(a), Arc::new(SyntaxTree::Globally(Arc::new(b)))),
    ]
}

#[test]
fn compare_goes_by_operator_then_operands() {
    let a = SyntaxTree::Atom(0);
    let b = SyntaxTree::Atom(1);
    assert_eq!(a.compare(&b), -1);
    assert_eq!(b.compare(&a), 1);
    assert_eq!(a.compare(&a), 0);
    let not_b = SyntaxTree::Not(Arc::new(b.clone()));
    let next_a = SyntaxTree::Next(Arc::new(a.clone()));
    assert_eq!(SyntaxTree::Atom(200).compare(&not_b), -1);
    assert_eq!(not_b.compare(&next_a), -1);
    assert_eq!(next_a.compare(&not_b), 1);
    let a_and_b = SyntaxTree::And(Arc::new(a.clone()), Arc::new(b.clone()));
    let b_and_a = SyntaxTree::And(Arc::new(b.clone()), Arc::new(a.clone()));
    let a_and_a = SyntaxTree::And(Arc::new(a.clone()), Arc::new(a.clone()));
    assert_eq!(a_and_b.compare(&b_and_a), -1);
    assert_eq!(a_and_b.compare(&a_and_a), 1);
    assert_eq!(a_and_b.compare(&SyntaxTree::Or(Arc::new(a.clone()), Arc::new(a))), -1);
    assert_eq!(b_and_a.compare(&SyntaxTree::And(Arc::new(b), Arc::new(SyntaxTree::Atom(0)))), 0);
}

#[test]
fn compare_agrees_with_the_derived_order() {
    let all = formulae();
    for x in &all {
        for y in &all {
            let expected = match x.cmp(y) {
                std::cmp::Ordering::Less => -1,
                std::cmp::Ordering::Equal => 0,
                std::cmp::Ordering::Greater => 1,
            };
            assert_eq!(x.compare(y), expected);
            assert_eq!(x.lt(y), x < y);
            assert_eq!(x.equals(y), x == y);
        }
    }
}

#[test]
fn order_is_total_and_transitive() {
    let all = formulae();
    for x in &all {
        for y in &all {
            assert_eq!(x.compare(y), -y.compare(x));
            assert_eq!(x.compare(y) == 0, x.equals(y));
            for z in &all {
                if x.lt(y) && y.lt(z) {
                    assert!(x.lt(z));
                }
            }
        }
    }
}

#[test]
fn equals_looks_through_sharing() {
    let shared = Arc::new(SyntaxTree::Next(Arc::new(SyntaxTree::Atom(3))));
    let with_sharing = SyntaxTree::Or(shared.clone(), shared);
    let without = SyntaxTree::Or(
        Arc::new(SyntaxTree::Next(Arc::new(SyntaxTree::Atom(3)))),
        Arc::new(SyntaxTree::Next(Arc::new(SyntaxTree::Atom(3)))),
    );
    assert!(with_sharing.equals(&without));
    assert!(!with_sharing.lt(&without));
    assert!(!without.lt(&with_sharing));
}
