use learn_pltl_fast::syntax::SyntaxTree;
use std::sync::Arc;

fn atom(i: u8) -> SyntaxTree {
    SyntaxTree::Atom(i)
}

fn not(f: &SyntaxTree) -> SyntaxTree {
    SyntaxTree::Not(Arc::new(f.clone()))
}

fn next(f: &SyntaxTree) -> SyntaxTree {
    SyntaxTree::Next(Arc::new(f.clone()))
}

fn globally(f: &SyntaxTree) -> SyntaxTree {
    SyntaxTree::Globally(Arc::new(f.clone()))
}

fn finally(f: &SyntaxTree) -> SyntaxTree {
    SyntaxTree::Finally(Arc::new(f.clone()))
}

fn and(a: &SyntaxTree, b: &SyntaxTree) -> SyntaxTree {
    SyntaxTree::And(Arc::new(a.clone()), Arc::new(b.clone()))
}

fn or(a: &SyntaxTree, b: &SyntaxTree) -> SyntaxTree {
    SyntaxTree::Or(Arc::new(a.clone()), Arc::new(b.clone()))
}

fn implies(a: &SyntaxTree, b: &SyntaxTree) -> SyntaxTree {
    SyntaxTree::Implies(Arc::new(a.clone()), Arc::new(b.clone()))
}

fn until(a: &SyntaxTree, b: &SyntaxTree) -> SyntaxTree {
    SyntaxTree::Until(Arc::new(a.clone()), Arc::new(b.clone()))
}

fn release(a: &SyntaxTree, b: &SyntaxTree) -> SyntaxTree {
    SyntaxTree::Release(Arc::new(a.clone()), Arc::new(b.clone()))
}

fn traces() -> Vec<Vec<[bool; 2]>> {
    let valuations = [[false, false], [false, true], [true, false], [true, true]];
    let mut traces: Vec<Vec<[bool; 2]>> = Vec::new();
    for a in valuations {
        traces.push(vec![a]);
        for b in valuations {
            traces.push(vec![a, b]);
            for c in valuations {
                traces.push(vec![a, b, c]);
                for d in valuations {
                    traces.push(vec![a, b, c, d]);
                }
            }
        }
    }
    traces
}

fn same(x: &SyntaxTree, y: &SyntaxTree) -> bool {
    traces().iter().all(|trace| {
        (0..trace.len()).all(|time| x.eval_at_time(trace, time) == y.eval_at_time(trace, time))
    })
}

#[test]
fn unary_filters_rest_on_identities() {
    let a = atom(0);
    assert!(same(&not(&not(&a)), &a));
    assert!(same(&not(&implies(&a, &atom(1))), &and(&a, &not(&atom(1)))));
    assert!(same(&globally(&globally(&a)), &globally(&a)));
    assert!(same(&finally(&finally(&a)), &finally(&a)));
    assert!(same(&globally(&finally(&a)), &finally(&globally(&a))));
    // Not every pair is one: these differ.
    assert!(!same(&globally(&a), &finally(&a)));
    assert!(!same(&next(&next(&a)), &next(&a)));
}

#[test]
fn binary_filters_rest_on_identities() {
    let a = until(&atom(0), &atom(1));
    let b = atom(1);
    let c = next(&atom(0));
    assert!(same(&and(&a, &b), &and(&b, &a)));
    assert!(same(&and(&and(&a, &b), &c), &and(&a, &and(&b, &c))));
    assert!(same(&and(&not(&a), &not(&b)), &not(&or(&a, &b))));
    assert!(same(&and(&next(&a), &next(&b)), &next(&and(&a, &b))));
    assert!(same(&and(&globally(&a), &globally(&b)), &globally(&and(&a, &b))));
    assert!(same(&and(&implies(&a, &b), &implies(&a, &c)), &implies(&a, &and(&b, &c))));
    assert!(same(&and(&implies(&a, &c), &implies(&b, &c)), &implies(&or(&a, &b), &c)));
    assert!(same(&and(&a, &or(&a, &b)), &a));
    assert!(same(&and(&or(&a, &b), &or(&a, &c)), &or(&a, &and(&b, &c))));
    assert!(same(&or(&a, &b), &or(&b, &a)));
    assert!(same(&or(&or(&a, &b), &c), &or(&a, &or(&b, &c))));
    assert!(same(&or(&not(&a), &not(&b)), &not(&and(&a, &b))));
    assert!(same(&or(&next(&a), &next(&b)), &next(&or(&a, &b))));
    assert!(same(&or(&finally(&a), &finally(&b)), &finally(&or(&a, &b))));
    assert!(same(&or(&implies(&a, &b), &implies(&a, &c)), &implies(&a, &or(&b, &c))));
    assert!(same(&or(&implies(&a, &c), &implies(&b, &c)), &implies(&and(&a, &b), &c)));
    assert!(same(&or(&a, &and(&a, &b)), &a));
    assert!(same(&or(&and(&a, &b), &and(&a, &c)), &and(&a, &or(&b, &c))));
    assert!(same(&implies(&not(&a), &b), &or(&a, &b)));
    assert!(same(&implies(&a, &a), &or(&a, &not(&a))));
    assert!(same(&until(&a, &a), &a));
    assert!(same(&until(&next(&a), &next(&b)), &next(&until(&a, &b))));
    assert!(same(&until(&a, &until(&a, &b)), &until(&a, &b)));
    assert!(same(&release(&a, &a), &a));
    assert!(!same(&and(&a, &b), &or(&a, &b)));
}

#[test]
fn release_of_nexts_is_not_next_of_release() {
    // At the last instant `Next` is false, whatever stands under it, so a
    // `Release` over two `Next` wants to be released before the trace ends.
    let a = atom(0);
    let b = atom(1);
    let over_nexts = release(&next(&a), &next(&b));
    let under_next = next(&release(&a, &b));
    let trace = [[false, true], [false, true]];
    assert!(under_next.eval(&trace));
    assert!(!over_nexts.eval(&trace));
}

#[test]
fn leaf_count_counts_the_atoms() {
    let a = atom(0);
    assert_eq!(a.leaf_count(), Some(1));
    assert_eq!(globally(&not(&a)).leaf_count(), Some(1));
    assert_eq!(until(&and(&a, &next(&a)), &or(&a, &atom(3))).leaf_count(), Some(4));
    // Each level shares one subtree twice: the leaves double with each level.
    let mut doubled = Arc::new(atom(0));
    for _ in 0..16 {
        doubled = Arc::new(SyntaxTree::And(doubled.clone(), doubled));
    }
    assert_eq!(doubled.leaf_count(), Some(1 << 16));
}
