use learn_pltl_fast::syntax::SyntaxTree;
use std::sync::Arc;

const ATOM_0: SyntaxTree = SyntaxTree::Atom(0);

const ATOM_1: SyntaxTree = SyntaxTree::Atom(1);

#[test]
fn atomic_prop() {
    let trace = [[true]];
    assert!(ATOM_0.eval(&trace));

    let trace = [[false]];
    assert!(!ATOM_0.eval(&trace));
}

#[test]
fn not() {
    let formula = SyntaxTree::Not(Arc::new(ATOM_0));

    let trace = [[false]];
    assert!(formula.eval(&trace));

    let trace = [[true]];
    assert!(!formula.eval(&trace));
}

#[test]
fn next() {
    let formula = SyntaxTree::Next(Arc::new(ATOM_0));

    let trace = [[false], [true]];
    assert!(formula.eval(&trace));

    let trace = [[true], [false]];
    assert!(!formula.eval(&trace));
}

#[test]
fn globally() {
    let formula = SyntaxTree::Globally(Arc::new(ATOM_0));

    let trace = [[true], [true], [true]];
    assert!(formula.eval(&trace));

    let trace = [[true], [false], [true]];
    assert!(!formula.eval(&trace));
}

#[test]
fn finally() {
    let formula = SyntaxTree::Finally(Arc::new(ATOM_0));

    let trace = [[false], [false], [true]];
    assert!(formula.eval(&trace));

    let trace = [[false], [true], [false]];
    assert!(formula.eval(&trace));

    let trace = [[false], [false], [false]];
    assert!(!formula.eval(&trace));
}

#[test]
fn syntax_and() {
    let formula = SyntaxTree::And(Arc::new(ATOM_0), Arc::new(ATOM_1));

    let trace = [[true, true]];
    assert!(formula.eval(&trace));

    let trace = [[true, false]];
    assert!(!formula.eval(&trace));
}

#[test]
fn or() {
    let formula = SyntaxTree::Or(Arc::new(ATOM_0), Arc::new(ATOM_1));

    let trace = [[true, false]];
    assert!(formula.eval(&trace));

    let trace = [[false, false]];
    assert!(!formula.eval(&trace));
}

#[test]
fn until() {
    let formula = SyntaxTree::Until(Arc::new(ATOM_0), Arc::new(ATOM_1));

    let trace = [[true, false], [false, true], [false, false]];
    assert!(formula.eval(&trace));

    let trace = [[true, false], [true, false], [false, false]];
    assert!(!formula.eval(&trace));

    // Until is not satisfied if its right-hand-side argument never becomes true.
    let trace = [[true, false], [true, false], [true, false]];
    assert!(!formula.eval(&trace));
}

#[test]
fn implies() {
    let formula = SyntaxTree::Implies(Arc::new(ATOM_0), Arc::new(ATOM_1));

    assert!(formula.eval(&[[false, false]]));
    assert!(formula.eval(&[[false, true]]));
    assert!(formula.eval(&[[true, true]]));
    assert!(!formula.eval(&[[true, false]]));
}

#[test]
fn release() {
    let formula = SyntaxTree::Release(Arc::new(ATOM_0), Arc::new(ATOM_1));

    // The right-hand side holds to the end of the trace.
    assert!(formula.eval(&[[false, true], [false, true], [false, true]]));
    // The left-hand side releases the right-hand side at the second instant.
    assert!(formula.eval(&[[false, true], [true, true], [false, false]]));
    // The right-hand side fails before it is released.
    assert!(!formula.eval(&[[false, true], [false, false], [true, true]]));
    // The release has to come with the right-hand side still true.
    assert!(!formula.eval(&[[false, true], [true, false], [false, false]]));
    assert!(!formula.eval(&[[true, false]]));
}

#[test]
fn next_is_false_at_the_last_instant() {
    let formula = SyntaxTree::Next(Arc::new(ATOM_0));
    assert!(!formula.eval(&[[true]]));
    assert!(!formula.eval_at_time(&[[false], [true]], 1));
    let negated = SyntaxTree::Next(Arc::new(SyntaxTree::Not(Arc::new(ATOM_0))));
    assert!(!negated.eval(&[[true]]));
}

#[test]
fn eval_at_time_looks_at_the_suffix() {
    let trace = [[true], [false], [true], [true]];
    let globally = SyntaxTree::Globally(Arc::new(ATOM_0));
    assert!(!globally.eval_at_time(&trace, 0));
    assert!(!globally.eval_at_time(&trace, 1));
    assert!(globally.eval_at_time(&trace, 2));
    assert!(globally.eval_at_time(&trace, 3));
    let finally = SyntaxTree::Finally(Arc::new(SyntaxTree::Not(Arc::new(ATOM_0))));
    assert!(finally.eval_at_time(&trace, 0));
    assert!(finally.eval_at_time(&trace, 1));
    assert!(!finally.eval_at_time(&trace, 2));
    assert!(ATOM_0.eval_at_time(&trace, 3));
    assert!(!ATOM_0.eval_at_time(&trace, 1));
}

fn all_traces() -> Vec<Vec<[bool; 2]>> {
    let valuations = [[false, false], [false, true], [true, false], [true, true]];
    let mut traces: Vec<Vec<[bool; 2]>> = Vec::new();
    for a in valuations {
        traces.push(vec![a]);
        for b in valuations {
            traces.push(vec![a, b]);
            for c in valuations {
                traces.push(vec![a, b, c]);
            }
        }
    }
    traces
}

fn operands() -> Vec<SyntaxTree> {
    vec![
        ATOM_0,
        ATOM_1,
        SyntaxTree::Next(Arc::new(ATOM_0)),
        SyntaxTree::Or(Arc::new(ATOM_0), Arc::new(SyntaxTree::Next(Arc::new(ATOM_1)))),
        SyntaxTree::Until(Arc::new(ATOM_1), Arc::new(ATOM_0)),
    ]
}

#[test]
fn negation_flips_every_verdict() {
    for trace in all_traces() {
        for formula in operands() {
            let negated = SyntaxTree::Not(Arc::new(formula.clone()));
            for time in 0..trace.len() {
                assert_eq!(
                    negated.eval_at_time(&trace, time),
                    !formula.eval_at_time(&trace, time)
                );
            }
        }
    }
}

#[test]
fn globally_is_the_dual_of_finally() {
    for trace in all_traces() {
        for formula in operands() {
            let globally = SyntaxTree::Globally(Arc::new(formula.clone()));
            let dual = SyntaxTree::Finally(Arc::new(SyntaxTree::Not(Arc::new(formula.clone()))));
            for time in 0..trace.len() {
                assert_eq!(globally.eval_at_time(&trace, time), !dual.eval_at_time(&trace, time));
            }
        }
    }
}

#[test]
fn until_is_the_dual_of_release() {
    for trace in all_traces() {
        for left in operands() {
            for right in operands() {
                let until = SyntaxTree::Until(Arc::new(left.clone()), Arc::new(right.clone()));
                let release = SyntaxTree::Release(
                    Arc::new(SyntaxTree::Not(Arc::new(left.clone()))),
                    Arc::new(SyntaxTree::Not(Arc::new(right.clone()))),
                );
                for time in 0..trace.len() {
                    assert_eq!(
                        until.eval_at_time(&trace, time),
                        !release.eval_at_time(&trace, time)
                    );
                }
            }
        }
    }
}

#[test]
fn vars_is_one_more_than_the_highest_index() {
    assert_eq!(ATOM_0.vars(), 1);
    assert_eq!(SyntaxTree::Atom(255).vars(), 256);
    let formula = SyntaxTree::Until(
        Arc::new(SyntaxTree::Not(Arc::new(SyntaxTree::Atom(4)))),
        Arc::new(SyntaxTree::And(Arc::new(ATOM_1), Arc::new(SyntaxTree::Atom(2)))),
    );
    assert_eq!(formula.vars(), 5);
}

#[test]
fn render_puts_every_operand_in_parentheses() {
    assert_eq!(ATOM_0.render(), "x0");
    assert_eq!(SyntaxTree::Atom(7).render(), "x7");
    assert_eq!(SyntaxTree::Atom(42).render(), "x42");
    assert_eq!(SyntaxTree::Atom(105).render(), "x105");
    assert_eq!(SyntaxTree::Atom(255).render(), "x255");
    assert_eq!(SyntaxTree::Not(Arc::new(ATOM_0)).render(), "¬(x0)");
    assert_eq!(SyntaxTree::Next(Arc::new(ATOM_0)).render(), "X(x0)");
    assert_eq!(SyntaxTree::Globally(Arc::new(ATOM_0)).render(), "G(x0)");
    assert_eq!(SyntaxTree::Finally(Arc::new(ATOM_0)).render(), "F(x0)");
    assert_eq!(SyntaxTree::And(Arc::new(ATOM_0), Arc::new(ATOM_1)).render(), "(x0)∧(x1)");
    assert_eq!(SyntaxTree::Or(Arc::new(ATOM_0), Arc::new(ATOM_1)).render(), "(x0)∨(x1)");
    assert_eq!(SyntaxTree::Implies(Arc::new(ATOM_0), Arc::new(ATOM_1)).render(), "(x0)→(x1)");
    assert_eq!(SyntaxTree::Until(Arc::new(ATOM_0), Arc::new(ATOM_1)).render(), "(x0)U(x1)");
    assert_eq!(SyntaxTree::Release(Arc::new(ATOM_0), Arc::new(ATOM_1)).render(), "(x0)R(x1)");
    let nested = SyntaxTree::Globally(Arc::new(SyntaxTree::Implies(
        Arc::new(ATOM_0),
        Arc::new(SyntaxTree::Finally(Arc::new(SyntaxTree::Atom(12)))),
    )));
    assert_eq!(nested.render(), "G((x0)→(F(x12)))");
}

#[test]
fn print_w_named_vars_uses_the_given_names() {
    let names = vec![String::from("door"), String::from("light")];
    let formula = SyntaxTree::Until(
        Arc::new(SyntaxTree::Not(Arc::new(ATOM_0))),
        Arc::new(SyntaxTree::And(Arc::new(ATOM_1), Arc::new(ATOM_0))),
    );
    assert_eq!(formula.print_w_named_vars(&names), "(¬(door))U((light)∧(door))");
    assert_eq!(ATOM_1.print_w_named_vars(&names), "light");
}

#[test]
fn duplicate_gives_the_same_formula() {
    let formula = SyntaxTree::Release(
        Arc::new(SyntaxTree::Next(Arc::new(ATOM_0))),
        Arc::new(SyntaxTree::Or(Arc::new(ATOM_1), Arc::new(ATOM_0))),
    );
    let copy = formula.duplicate();
    assert!(copy.equals(&formula));
    assert_eq!(copy, formula);
    assert_eq!(copy.render(), "(X(x0))R((x1)∨(x0))");
}
