//! The identities that the filters rest on.
//!
//! A filter refuses a formula because another formula, no larger, says the
//! same. Each law below states one such pair and proves that the two hold
//! on the same finite traces at the same instants, and that the second has
//! no more leaves than the first.

use crate::syntax::{earlier, instant, SyntaxTree};
use std::sync::Arc;
use vstd::prelude::*;

verus! {

/// The two formulae hold at the same instants of the same traces.
pub open spec fn equivalent(a: SyntaxTree, b: SyntaxTree) -> bool {
    forall|trace: Seq<Seq<bool>>, t: int|
        0 <= t < trace.len() ==> #[trigger] a.holds(trace, t) == b.holds(trace, t)
}

/// `¬f`.
pub open spec fn negation(f: SyntaxTree) -> SyntaxTree {
    SyntaxTree::Not(Arc::new(f))
}

/// `X f`.
pub open spec fn next_of(f: SyntaxTree) -> SyntaxTree {
    SyntaxTree::Next(Arc::new(f))
}

/// `G f`.
pub open spec fn always(f: SyntaxTree) -> SyntaxTree {
    SyntaxTree::Globally(Arc::new(f))
}

/// `F f`.
pub open spec fn eventually(f: SyntaxTree) -> SyntaxTree {
    SyntaxTree::Finally(Arc::new(f))
}

/// `a ∧ b`.
pub open spec fn conjunction(a: SyntaxTree, b: SyntaxTree) -> SyntaxTree {
    SyntaxTree::And(Arc::new(a), Arc::new(b))
}

/// `a ∨ b`.
pub open spec fn disjunction(a: SyntaxTree, b: SyntaxTree) -> SyntaxTree {
    SyntaxTree::Or(Arc::new(a), Arc::new(b))
}

/// `a → b`.
pub open spec fn implication(a: SyntaxTree, b: SyntaxTree) -> SyntaxTree {
    SyntaxTree::Implies(Arc::new(a), Arc::new(b))
}

/// `a U b`.
pub open spec fn until_of(a: SyntaxTree, b: SyntaxTree) -> SyntaxTree {
    SyntaxTree::Until(Arc::new(a), Arc::new(b))
}

/// `a R b`.
pub open spec fn release_of(a: SyntaxTree, b: SyntaxTree) -> SyntaxTree {
    SyntaxTree::Release(Arc::new(a), Arc::new(b))
}

/// The connectives of propositional logic mean what they mean there, at
/// each instant, and `Next` looks at the instant behind.
pub proof fn lemma_connectives(trace: Seq<Seq<bool>>, t: int)
    ensures
        forall|a: SyntaxTree| #[trigger] negation(a).holds(trace, t) == !a.holds(trace, t),
        forall|a: SyntaxTree, b: SyntaxTree| #[trigger]
            conjunction(a, b).holds(trace, t) == (a.holds(trace, t) && b.holds(trace, t)),
        forall|a: SyntaxTree, b: SyntaxTree| #[trigger]
            disjunction(a, b).holds(trace, t) == (a.holds(trace, t) || b.holds(trace, t)),
        forall|a: SyntaxTree, b: SyntaxTree| #[trigger]
            implication(a, b).holds(trace, t) == (a.holds(trace, t) ==> b.holds(trace, t)),
        forall|a: SyntaxTree| #[trigger]
            next_of(a).holds(trace, t) == (t + 1 < trace.len() && a.holds(trace, t + 1)),
{
    reveal(SyntaxTree::holds);
}

/// ¬¬φ ≡ φ: `Not` is not put over a negation.
pub proof fn law_double_negation(f: SyntaxTree)
    ensures
        equivalent(negation(negation(f)), f),
        f.size() <= negation(negation(f)).size(),
{
    let refused = negation(negation(f));
    let standing = f;
    reveal_with_fuel(SyntaxTree::size, 4);
    assert forall|trace: Seq<Seq<bool>>, t: int| 0 <= t < trace.len() implies (
    #[trigger] refused.holds(trace, t)) == standing.holds(trace, t) by {
        lemma_connectives(trace, t);
    }
}

/// ¬(φ → ψ) ≡ φ ∧ ¬ψ: `Not` is not put over an implication.
pub proof fn law_negated_implication(a: SyntaxTree, b: SyntaxTree)
    ensures
        equivalent(negation(implication(a, b)), conjunction(a, negation(b))),
        conjunction(a, negation(b)).size() <= negation(implication(a, b)).size(),
{
    let refused = negation(implication(a, b));
    let standing = conjunction(a, negation(b));
    reveal_with_fuel(SyntaxTree::size, 4);
    assert forall|trace: Seq<Seq<bool>>, t: int| 0 <= t < trace.len() implies (
    #[trigger] refused.holds(trace, t)) == standing.holds(trace, t) by {
        lemma_connectives(trace, t);
    }
}

/// φ ∧ ψ ≡ ψ ∧ φ: of the two orders of its operands `And` is put over the
/// rising one.
pub proof fn law_and_commutes(a: SyntaxTree, b: SyntaxTree)
    ensures
        equivalent(conjunction(a, b), conjunction(b, a)),
        conjunction(b, a).size() <= conjunction(a, b).size(),
{
    let refused = conjunction(a, b);
    let standing = conjunction(b, a);
    reveal_with_fuel(SyntaxTree::size, 4);
    assert forall|trace: Seq<Seq<bool>>, t: int| 0 <= t < trace.len() implies (
    #[trigger] refused.holds(trace, t)) == standing.holds(trace, t) by {
        lemma_connectives(trace, t);
    }
}

/// φ ∧ φ ≡ φ: `And` is not put over one formula twice.
pub proof fn law_and_idempotent(a: SyntaxTree)
    ensures
        equivalent(conjunction(a, a), a),
        a.size() <= conjunction(a, a).size(),
{
    let refused = conjunction(a, a);
    let standing = a;
    reveal_with_fuel(SyntaxTree::size, 4);
    assert forall|trace: Seq<Seq<bool>>, t: int| 0 <= t < trace.len() implies (
    #[trigger] refused.holds(trace, t)) == standing.holds(trace, t) by {
        lemma_connectives(trace, t);
    }
}

/// (φ ∧ ψ) ∧ χ ≡ φ ∧ (ψ ∧ χ): `And` has no conjunction on its left.
pub proof fn law_and_associates(a: SyntaxTree, b: SyntaxTree, c: SyntaxTree)
    ensures
        equivalent(conjunction(conjunction(a, b), c), conjunction(a, conjunction(b, c))),
        conjunction(a, conjunction(b, c)).size() <= conjunction(conjunction(a, b), c).size(),
{
    let refused = conjunction(conjunction(a, b), c);
    let standing = conjunction(a, conjunction(b, c));
    reveal_with_fuel(SyntaxTree::size, 4);
    assert forall|trace: Seq<Seq<bool>>, t: int| 0 <= t < trace.len() implies (
    #[trigger] refused.holds(trace, t)) == standing.holds(trace, t) by {
        lemma_connectives(trace, t);
    }
}

/// ¬φ ∧ ¬ψ ≡ ¬(φ ∨ ψ): `And` is not put over two negations.
pub proof fn law_and_of_negations(a: SyntaxTree, b: SyntaxTree)
    ensures
        equivalent(conjunction(negation(a), negation(b)), negation(disjunction(a, b))),
        negation(disjunction(a, b)).size() <= conjunction(negation(a), negation(b)).size(),
{
    let refused = conjunction(negation(a), negation(b));
    let standing = negation(disjunction(a, b));
    reveal_with_fuel(SyntaxTree::size, 4);
    assert forall|trace: Seq<Seq<bool>>, t: int| 0 <= t < trace.len() implies (
    #[trigger] refused.holds(trace, t)) == standing.holds(trace, t) by {
        lemma_connectives(trace, t);
    }
}

/// X φ ∧ X ψ ≡ X (φ ∧ ψ): `And` is not put over two `Next`.
pub proof fn law_and_of_nexts(a: SyntaxTree, b: SyntaxTree)
    ensures
        equivalent(conjunction(next_of(a), next_of(b)), next_of(conjunction(a, b))),
        next_of(conjunction(a, b)).size() <= conjunction(next_of(a), next_of(b)).size(),
{
    let refused = conjunction(next_of(a), next_of(b));
    let standing = next_of(conjunction(a, b));
    reveal_with_fuel(SyntaxTree::size, 4);
    assert forall|trace: Seq<Seq<bool>>, t: int| 0 <= t < trace.len() implies (
    #[trigger] refused.holds(trace, t)) == standing.holds(trace, t) by {
        lemma_connectives(trace, t);
        lemma_connectives(trace, t + 1);
    }
}

/// (φ → ψ) ∧ (φ → χ) ≡ φ → (ψ ∧ χ): `And` is not put over two implications
/// with one antecedent.
pub proof fn law_and_same_antecedent(a: SyntaxTree, b: SyntaxTree, c: SyntaxTree)
    ensures
        equivalent(
            conjunction(implication(a, b), implication(a, c)),
            implication(a, conjunction(b, c)),
        ),
        implication(a, conjunction(b, c)).size()
            <= conjunction(implication(a, b), implication(a, c)).size(),
{
    let refused = conjunction(implication(a, b), implication(a, c));
    let standing = implication(a, conjunction(b, c));
    reveal_with_fuel(SyntaxTree::size, 4);
    assert forall|trace: Seq<Seq<bool>>, t: int| 0 <= t < trace.len() implies (
    #[trigger] refused.holds(trace, t)) == standing.holds(trace, t) by {
        lemma_connectives(trace, t);
    }
}

/// (φ → χ) ∧ (ψ → χ) ≡ (φ ∨ ψ) → χ: `And` is not put over two implications
/// with one consequent.
pub proof fn law_and_same_consequent(a: SyntaxTree, b: SyntaxTree, c: SyntaxTree)
    ensures
        equivalent(
            conjunction(implication(a, c), implication(b, c)),
            implication(disjunction(a, b), c),
        ),
        implication(disjunction(a, b), c).size()
            <= conjunction(implication(a, c), implication(b, c)).size(),
{
    let refused = conjunction(implication(a, c), implication(b, c));
    let standing = implication(disjunction(a, b), c);
    reveal_with_fuel(SyntaxTree::size, 4);
    assert forall|trace: Seq<Seq<bool>>, t: int| 0 <= t < trace.len() implies (
    #[trigger] refused.holds(trace, t)) == standing.holds(trace, t) by {
        lemma_connectives(trace, t);
    }
}

/// φ ∧ (φ ∨ ψ) ≡ φ: `And` is not put over a disjunction and one of its
/// operands.
pub proof fn law_and_absorbs(a: SyntaxTree, b: SyntaxTree)
    ensures
        equivalent(conjunction(a, disjunction(a, b)), a),
        a.size() <= conjunction(a, disjunction(a, b)).size(),
{
    let refused = conjunction(a, disjunction(a, b));
    let standing = a;
    reveal_with_fuel(SyntaxTree::size, 4);
    assert forall|trace: Seq<Seq<bool>>, t: int| 0 <= t < trace.len() implies (
    #[trigger] refused.holds(trace, t)) == standing.holds(trace, t) by {
        lemma_connectives(trace, t);
    }
}

/// (φ ∨ ψ) ∧ (φ ∨ χ) ≡ φ ∨ (ψ ∧ χ): `And` is not put over two disjunctions
/// with an operand in common.
pub proof fn law_and_distributes(a: SyntaxTree, b: SyntaxTree, c: SyntaxTree)
    ensures
        equivalent(
            conjunction(disjunction(a, b), disjunction(a, c)),
            disjunction(a, conjunction(b, c)),
        ),
        disjunction(a, conjunction(b, c)).size()
            <= conjunction(disjunction(a, b), disjunction(a, c)).size(),
{
    let refused = conjunction(disjunction(a, b), disjunction(a, c));
    let standing = disjunction(a, conjunction(b, c));
    reveal_with_fuel(SyntaxTree::size, 4);
    assert forall|trace: Seq<Seq<bool>>, t: int| 0 <= t < trace.len() implies (
    #[trigger] refused.holds(trace, t)) == standing.holds(trace, t) by {
        lemma_connectives(trace, t);
    }
}

/// φ ∨ ψ ≡ ψ ∨ φ: of the two orders of its operands `Or` is put over the
/// rising one.
pub proof fn law_or_commutes(a: SyntaxTree, b: SyntaxTree)
    ensures
        equivalent(disjunction(a, b), disjunction(b, a)),
        disjunction(b, a).size() <= disjunction(a, b).size(),
{
    let refused = disjunction(a, b);
    let standing = disjunction(b, a);
    reveal_with_fuel(SyntaxTree::size, 4);
    assert forall|trace: Seq<Seq<bool>>, t: int| 0 <= t < trace.len() implies (
    #[trigger] refused.holds(trace, t)) == standing.holds(trace, t) by {
        lemma_connectives(trace, t);
    }
}

/// φ ∨ φ ≡ φ: `Or` is not put over one formula twice.
pub proof fn law_or_idempotent(a: SyntaxTree)
    ensures
        equivalent(disjunction(a, a), a),
        a.size() <= disjunction(a, a).size(),
{
    let refused = disjunction(a, a);
    let standing = a;
    reveal_with_fuel(SyntaxTree::size, 4);
    assert forall|trace: Seq<Seq<bool>>, t: int| 0 <= t < trace.len() implies (
    #[trigger] refused.holds(trace, t)) == standing.holds(trace, t) by {
        lemma_connectives(trace, t);
    }
}

/// (φ ∨ ψ) ∨ χ ≡ φ ∨ (ψ ∨ χ): `Or` has no disjunction on its left.
pub proof fn law_or_associates(a: SyntaxTree, b: SyntaxTree, c: SyntaxTree)
    ensures
        equivalent(disjunction(disjunction(a, b), c), disjunction(a, disjunction(b, c))),
        disjunction(a, disjunction(b, c)).size() <= disjunction(disjunction(a, b), c).size(),
{
    let refused = disjunction(disjunction(a, b), c);
    let standing = disjunction(a, disjunction(b, c));
    reveal_with_fuel(SyntaxTree::size, 4);
    assert forall|trace: Seq<Seq<bool>>, t: int| 0 <= t < trace.len() implies (
    #[trigger] refused.holds(trace, t)) == standing.holds(trace, t) by {
        lemma_connectives(trace, t);
    }
}

/// ¬φ ∨ ¬ψ ≡ ¬(φ ∧ ψ): `Or` is not put over two negations.
pub proof fn law_or_of_negations(a: SyntaxTree, b: SyntaxTree)
    ensures
        equivalent(disjunction(negation(a), negation(b)), negation(conjunction(a, b))),
        negation(conjunction(a, b)).size() <= disjunction(negation(a), negation(b)).size(),
{
    let refused = disjunction(negation(a), negation(b));
    let standing = negation(conjunction(a, b));
    reveal_with_fuel(SyntaxTree::size, 4);
    assert forall|trace: Seq<Seq<bool>>, t: int| 0 <= t < trace.len() implies (
    #[trigger] refused.holds(trace, t)) == standing.holds(trace, t) by {
        lemma_connectives(trace, t);
    }
}

/// X φ ∨ X ψ ≡ X (φ ∨ ψ): `Or` is not put over two `Next`.
pub proof fn law_or_of_nexts(a: SyntaxTree, b: SyntaxTree)
    ensures
        equivalent(disjunction(next_of(a), next_of(b)), next_of(disjunction(a, b))),
        next_of(disjunction(a, b)).size() <= disjunction(next_of(a), next_of(b)).size(),
{
    let refused = disjunction(next_of(a), next_of(b));
    let standing = next_of(disjunction(a, b));
    reveal_with_fuel(SyntaxTree::size, 4);
    assert forall|trace: Seq<Seq<bool>>, t: int| 0 <= t < trace.len() implies (
    #[trigger] refused.holds(trace, t)) == standing.holds(trace, t) by {
        lemma_connectives(trace, t);
        lemma_connectives(trace, t + 1);
    }
}

/// (φ → ψ) ∨ (φ → χ) ≡ φ → (ψ ∨ χ): `Or` is not put over two implications
/// with one antecedent.
pub proof fn law_or_same_antecedent(a: SyntaxTree, b: SyntaxTree, c: SyntaxTree)
    ensures
        equivalent(
            disjunction(implication(a, b), implication(a, c)),
            implication(a, disjunction(b, c)),
        ),
        implication(a, disjunction(b, c)).size()
            <= disjunction(implication(a, b), implication(a, c)).size(),
{
    let refused = disjunction(implication(a, b), implication(a, c));
    let standing = implication(a, disjunction(b, c));
    reveal_with_fuel(SyntaxTree::size, 4);
    assert forall|trace: Seq<Seq<bool>>, t: int| 0 <= t < trace.len() implies (
    #[trigger] refused.holds(trace, t)) == standing.holds(trace, t) by {
        lemma_connectives(trace, t);
    }
}

/// (φ → χ) ∨ (ψ → χ) ≡ (φ ∧ ψ) → χ: `Or` is not put over two implications
/// with one consequent.
pub proof fn law_or_same_consequent(a: SyntaxTree, b: SyntaxTree, c: SyntaxTree)
    ensures
        equivalent(
            disjunction(implication(a, c), implication(b, c)),
            implication(conjunction(a, b), c),
        ),
        implication(conjunction(a, b), c).size()
            <= disjunction(implication(a, c), implication(b, c)).size(),
{
    let refused = disjunction(implication(a, c), implication(b, c));
    let standing = implication(conjunction(a, b), c);
    reveal_with_fuel(SyntaxTree::size, 4);
    assert forall|trace: Seq<Seq<bool>>, t: int| 0 <= t < trace.len() implies (
    #[trigger] refused.holds(trace, t)) == standing.holds(trace, t) by {
        lemma_connectives(trace, t);
    }
}

/// φ ∨ (φ ∧ ψ) ≡ φ: `Or` is not put over a conjunction and one of its
/// operands.
pub proof fn law_or_absorbs(a: SyntaxTree, b: SyntaxTree)
    ensures
        equivalent(disjunction(a, conjunction(a, b)), a),
        a.size() <= disjunction(a, conjunction(a, b)).size(),
{
    let refused = disjunction(a, conjunction(a, b));
    let standing = a;
    reveal_with_fuel(SyntaxTree::size, 4);
    assert forall|trace: Seq<Seq<bool>>, t: int| 0 <= t < trace.len() implies (
    #[trigger] refused.holds(trace, t)) == standing.holds(trace, t) by {
        lemma_connectives(trace, t);
    }
}

/// (φ ∧ ψ) ∨ (φ ∧ χ) ≡ φ ∧ (ψ ∨ χ): `Or` is not put over two conjunctions
/// with an operand in common.
pub proof fn law_or_distributes(a: SyntaxTree, b: SyntaxTree, c: SyntaxTree)
    ensures
        equivalent(
            disjunction(conjunction(a, b), conjunction(a, c)),
            conjunction(a, disjunction(b, c)),
        ),
        conjunction(a, disjunction(b, c)).size()
            <= disjunction(conjunction(a, b), conjunction(a, c)).size(),
{
    let refused = disjunction(conjunction(a, b), conjunction(a, c));
    let standing = conjunction(a, disjunction(b, c));
    reveal_with_fuel(SyntaxTree::size, 4);
    assert forall|trace: Seq<Seq<bool>>, t: int| 0 <= t < trace.len() implies (
    #[trigger] refused.holds(trace, t)) == standing.holds(trace, t) by {
        lemma_connectives(trace, t);
    }
}

/// ¬φ → ψ ≡ φ ∨ ψ: `Implies` has no negation on its left.
pub proof fn law_implies_of_negation(a: SyntaxTree, b: SyntaxTree)
    ensures
        equivalent(implication(negation(a), b), disjunction(a, b)),
        disjunction(a, b).size() <= implication(negation(a), b).size(),
{
    let refused = implication(negation(a), b);
    let standing = disjunction(a, b);
    reveal_with_fuel(SyntaxTree::size, 4);
    assert forall|trace: Seq<Seq<bool>>, t: int| 0 <= t < trace.len() implies (
    #[trigger] refused.holds(trace, t)) == standing.holds(trace, t) by {
        lemma_connectives(trace, t);
    }
}

/// φ → φ ≡ φ ∨ ¬φ: `Implies` is not put over one formula twice.
pub proof fn law_implies_itself(a: SyntaxTree)
    ensures
        equivalent(implication(a, a), disjunction(a, negation(a))),
        disjunction(a, negation(a)).size() <= implication(a, a).size(),
{
    let refused = implication(a, a);
    let standing = disjunction(a, negation(a));
    reveal_with_fuel(SyntaxTree::size, 4);
    assert forall|trace: Seq<Seq<bool>>, t: int| 0 <= t < trace.len() implies (
    #[trigger] refused.holds(trace, t)) == standing.holds(trace, t) by {
        lemma_connectives(trace, t);
    }
}

/// G G φ ≡ G φ: `Globally` is not put over a `Globally`.
pub proof fn law_globally_twice(f: SyntaxTree)
    ensures
        equivalent(always(always(f)), always(f)),
        always(f).size() <= always(always(f)).size(),
{
    let refused = always(always(f));
    let standing = always(f);
    reveal_with_fuel(SyntaxTree::size, 4);
    assert forall|trace: Seq<Seq<bool>>, t: int| 0 <= t < trace.len() implies (
    #[trigger] refused.holds(trace, t)) == standing.holds(trace, t) by {
        SyntaxTree::lemma_window(always(always(f)), trace, t);
        assert forall|u: int| t <= u implies always(f).holds(trace, u) == (forall|w: int|
            u <= #[trigger] instant(w) < trace.len() ==> f.holds(trace, w)) by {
            SyntaxTree::lemma_window(always(f), trace, u);
        }
        assert(instant(t) == t);
    }
}

/// F F φ ≡ F φ: `Finally` is not put over a `Finally`.
pub proof fn law_finally_twice(f: SyntaxTree)
    ensures
        equivalent(eventually(eventually(f)), eventually(f)),
        eventually(f).size() <= eventually(eventually(f)).size(),
{
    let refused = eventually(eventually(f));
    let standing = eventually(f);
    reveal_with_fuel(SyntaxTree::size, 4);
    assert forall|trace: Seq<Seq<bool>>, t: int| 0 <= t < trace.len() implies (
    #[trigger] refused.holds(trace, t)) == standing.holds(trace, t) by {
        SyntaxTree::lemma_window(eventually(eventually(f)), trace, t);
        assert forall|u: int| t <= u implies eventually(f).holds(trace, u) == (exists|w: int|
            u <= #[trigger] instant(w) < trace.len() && f.holds(trace, w)) by {
            SyntaxTree::lemma_window(eventually(f), trace, u);
        }
        assert(instant(t) == t);
    }
}

/// At the last instant `Globally` and `Finally` say what their operand says.
proof fn lemma_last_instant(f: SyntaxTree, trace: Seq<Seq<bool>>)
    requires
        trace.len() > 0,
    ensures
        always(f).holds(trace, trace.len() - 1) == f.holds(trace, trace.len() - 1),
        eventually(f).holds(trace, trace.len() - 1) == f.holds(trace, trace.len() - 1),
{
    let last = trace.len() - 1;
    SyntaxTree::lemma_window(always(f), trace, last);
    SyntaxTree::lemma_window(eventually(f), trace, last);
    assert(instant(last) == last);
}

/// Where the operand holds at the last instant, `Finally` holds at every
/// instant; where it fails there, `Globally` fails at every instant.
proof fn lemma_last_decides(f: SyntaxTree, trace: Seq<Seq<bool>>, u: int)
    requires
        0 <= u < trace.len(),
    ensures
        f.holds(trace, trace.len() - 1) ==> eventually(f).holds(trace, u),
        !f.holds(trace, trace.len() - 1) ==> !always(f).holds(trace, u),
{
    let last = trace.len() - 1;
    SyntaxTree::lemma_window(always(f), trace, u);
    SyntaxTree::lemma_window(eventually(f), trace, u);
    assert(instant(last) == last);
}

/// On a finite trace G F φ ≡ F G φ, both saying that φ holds at the last
/// instant: `Globally` is not put over a `Finally`.
pub proof fn law_globally_finally(f: SyntaxTree)
    ensures
        equivalent(always(eventually(f)), eventually(always(f))),
        eventually(always(f)).size() <= always(eventually(f)).size(),
{
    let refused = always(eventually(f));
    let standing = eventually(always(f));
    reveal_with_fuel(SyntaxTree::size, 4);
    assert forall|trace: Seq<Seq<bool>>, t: int| 0 <= t < trace.len() implies (
    #[trigger] refused.holds(trace, t)) == standing.holds(trace, t) by {
        let last = trace.len() - 1;
        lemma_last_instant(f, trace);
        assert(instant(last) == last);
        assert(always(eventually(f)).holds(trace, t) == f.holds(trace, last)) by {
            SyntaxTree::lemma_window(always(eventually(f)), trace, t);
            assert forall|u: int| t <= #[trigger] instant(u) < trace.len() && f.holds(
                trace,
                last,
            ) implies eventually(f).holds(trace, u) by {
                lemma_last_decides(f, trace, u);
            }
        }
        assert(eventually(always(f)).holds(trace, t) == f.holds(trace, last)) by {
            SyntaxTree::lemma_window(eventually(always(f)), trace, t);
            assert forall|u: int| t <= #[trigger] instant(u) < trace.len() && !f.holds(
                trace,
                last,
            ) implies !always(f).holds(trace, u) by {
                lemma_last_decides(f, trace, u);
            }
        }
    }
}

/// G φ ∧ G ψ ≡ G (φ ∧ ψ): `And` is not put over two `Globally`.
pub proof fn law_and_of_globallys(a: SyntaxTree, b: SyntaxTree)
    ensures
        equivalent(conjunction(always(a), always(b)), always(conjunction(a, b))),
        always(conjunction(a, b)).size() <= conjunction(always(a), always(b)).size(),
{
    let refused = conjunction(always(a), always(b));
    let standing = always(conjunction(a, b));
    reveal_with_fuel(SyntaxTree::size, 4);
    assert forall|trace: Seq<Seq<bool>>, t: int| 0 <= t < trace.len() implies (
    #[trigger] refused.holds(trace, t)) == standing.holds(trace, t) by {
        lemma_connectives(trace, t);
        SyntaxTree::lemma_window(always(a), trace, t);
        SyntaxTree::lemma_window(always(b), trace, t);
        SyntaxTree::lemma_window(always(conjunction(a, b)), trace, t);
        assert forall|u: int| t <= #[trigger] instant(u) < trace.len() implies conjunction(
            a,
            b,
        ).holds(trace, u) == (a.holds(trace, u) && b.holds(trace, u)) by {
            lemma_connectives(trace, u);
        }
    }
}

/// F φ ∨ F ψ ≡ F (φ ∨ ψ): `Or` is not put over two `Finally`.
pub proof fn law_or_of_finallys(a: SyntaxTree, b: SyntaxTree)
    ensures
        equivalent(disjunction(eventually(a), eventually(b)), eventually(disjunction(a, b))),
        eventually(disjunction(a, b)).size() <= disjunction(eventually(a), eventually(b)).size(),
{
    let refused = disjunction(eventually(a), eventually(b));
    let standing = eventually(disjunction(a, b));
    reveal_with_fuel(SyntaxTree::size, 4);
    assert forall|trace: Seq<Seq<bool>>, t: int| 0 <= t < trace.len() implies (
    #[trigger] refused.holds(trace, t)) == standing.holds(trace, t) by {
        lemma_connectives(trace, t);
        SyntaxTree::lemma_window(eventually(a), trace, t);
        SyntaxTree::lemma_window(eventually(b), trace, t);
        SyntaxTree::lemma_window(eventually(disjunction(a, b)), trace, t);
        assert forall|u: int| t <= #[trigger] instant(u) < trace.len() implies disjunction(
            a,
            b,
        ).holds(trace, u) == (a.holds(trace, u) || b.holds(trace, u)) by {
            lemma_connectives(trace, u);
        }
    }
}

/// φ U φ ≡ φ: `Until` is not put over one formula twice.
pub proof fn law_until_itself(a: SyntaxTree)
    ensures
        equivalent(until_of(a, a), a),
        a.size() <= until_of(a, a).size(),
{
    let refused = until_of(a, a);
    let standing = a;
    reveal_with_fuel(SyntaxTree::size, 4);
    assert forall|trace: Seq<Seq<bool>>, t: int| 0 <= t < trace.len() implies (
    #[trigger] refused.holds(trace, t)) == standing.holds(trace, t) by {
        SyntaxTree::lemma_paired(until_of(a, a), trace, t);
        assert(instant(t) == t && earlier(t) == t);
    }
}

/// φ R φ ≡ φ: `Release` is not put over one formula twice.
pub proof fn law_release_itself(a: SyntaxTree)
    ensures
        equivalent(release_of(a, a), a),
        a.size() <= release_of(a, a).size(),
{
    let refused = release_of(a, a);
    let standing = a;
    reveal_with_fuel(SyntaxTree::size, 4);
    assert forall|trace: Seq<Seq<bool>>, t: int| 0 <= t < trace.len() implies (
    #[trigger] refused.holds(trace, t)) == standing.holds(trace, t) by {
        SyntaxTree::lemma_paired(release_of(a, a), trace, t);
        assert(instant(t) == t && earlier(t) == t);
    }
}

/// φ U (φ U ψ) ≡ φ U ψ: `Until` is not put over a formula and an `Until`
/// that has the formula on its left.
pub proof fn law_until_nested(a: SyntaxTree, b: SyntaxTree)
    ensures
        equivalent(until_of(a, until_of(a, b)), until_of(a, b)),
        until_of(a, b).size() <= until_of(a, until_of(a, b)).size(),
{
    let refused = until_of(a, until_of(a, b));
    let standing = until_of(a, b);
    reveal_with_fuel(SyntaxTree::size, 4);
    assert forall|trace: Seq<Seq<bool>>, t: int| 0 <= t < trace.len() implies (
    #[trigger] refused.holds(trace, t)) == standing.holds(trace, t) by {
        let inner = until_of(a, b);
        let outer = until_of(a, inner);
        SyntaxTree::lemma_paired(outer, trace, t);
        SyntaxTree::lemma_paired(inner, trace, t);
        assert(instant(t) == t);
        if outer.holds(trace, t) && !inner.holds(trace, t) {
            let u = choose|u: int|
                t <= #[trigger] instant(u) < trace.len() && inner.holds(trace, u) && forall|v: int|
                    t <= #[trigger] earlier(v) < u ==> a.holds(trace, v);
            SyntaxTree::lemma_paired(inner, trace, u);
            let w = choose|w: int|
                u <= #[trigger] instant(w) < trace.len() && b.holds(trace, w) && forall|v: int|
                    u <= #[trigger] earlier(v) < w ==> a.holds(trace, v);
            assert(t <= instant(w) < trace.len() && b.holds(trace, w));
            assert forall|v: int| t <= #[trigger] earlier(v) < w implies a.holds(trace, v) by {}
            assert(false);
        }
    }
}

/// X φ U X ψ ≡ X (φ U ψ): `Until` is not put over two `Next`.
pub proof fn law_until_of_nexts(a: SyntaxTree, b: SyntaxTree)
    ensures
        equivalent(until_of(next_of(a), next_of(b)), next_of(until_of(a, b))),
        next_of(until_of(a, b)).size() <= until_of(next_of(a), next_of(b)).size(),
{
    let refused = until_of(next_of(a), next_of(b));
    let standing = next_of(until_of(a, b));
    reveal_with_fuel(SyntaxTree::size, 4);
    assert forall|trace: Seq<Seq<bool>>, t: int| 0 <= t < trace.len() implies (
    #[trigger] refused.holds(trace, t)) == standing.holds(trace, t) by {
        let shifted = until_of(next_of(a), next_of(b));
        let plain = until_of(a, b);
        lemma_connectives(trace, t);
        SyntaxTree::lemma_paired(shifted, trace, t);
        SyntaxTree::lemma_paired(plain, trace, t + 1);
        if shifted.holds(trace, t) {
            let u = choose|u: int|
                t <= #[trigger] instant(u) < trace.len() && next_of(b).holds(trace, u)
                    && forall|v: int|
                    t <= #[trigger] earlier(v) < u ==> next_of(a).holds(trace, v);
            lemma_connectives(trace, u);
            assert(instant(u + 1) == u + 1);
            assert forall|v: int| t + 1 <= #[trigger] earlier(v) < u + 1 implies a.holds(
                trace,
                v,
            ) by {
                assert(earlier(v - 1) == v - 1);
                lemma_connectives(trace, v - 1);
            }
            assert(plain.holds(trace, t + 1));
        }
        if t + 1 < trace.len() && plain.holds(trace, t + 1) {
            let u = choose|u: int|
                t + 1 <= #[trigger] instant(u) < trace.len() && b.holds(trace, u) && forall|v: int|
                    t + 1 <= #[trigger] earlier(v) < u ==> a.holds(trace, v);
            lemma_connectives(trace, u - 1);
            assert(instant(u - 1) == u - 1);
            assert forall|v: int| t <= #[trigger] earlier(v) < u - 1 implies next_of(a).holds(
                trace,
                v,
            ) by {
                assert(earlier(v + 1) == v + 1);
                lemma_connectives(trace, v);
            }
            assert(shifted.holds(trace, t));
        }
    }
}

} // verus!
