//! The filters that keep one formula of a family of equivalent ones.
//!
//! Each filter looks at the operands that an operator is about to be put
//! over and refuses them where another formula with no more leaves says
//! the same. The identities are proved in `identities`; whether the other
//! formula is itself among the candidates is not proved.

use crate::syntax::SyntaxTree;
use std::sync::Arc;
use vstd::prelude::*;

verus! {

/// `Not` is put over any formula but a negation and an implication.
pub open spec fn not_admitted(f: SyntaxTree) -> bool {
    !(f is Not) && !(f is Implies)
}

/// `Next` is put over any formula but a `Next`. No identity stands behind
/// this: what two `Next` in a row say is left to candidates of another shape.
pub open spec fn next_admitted(f: SyntaxTree) -> bool {
    !(f is Next)
}

/// `Globally` is put over any formula but a `Globally` and a `Finally`.
pub open spec fn globally_admitted(f: SyntaxTree) -> bool {
    !(f is Globally) && !(f is Finally)
}

/// `Finally` is put over any formula but a `Finally`.
pub open spec fn finally_admitted(f: SyntaxTree) -> bool {
    !(f is Finally)
}

/// Two formulae of the same operator that have an operand in common.
pub open spec fn share_operand(l: SyntaxTree, r: SyntaxTree) -> bool {
    l.left() == r.left() || l.left() == r.right() || l.right() == r.left() || l.right()
        == r.right()
}

/// `f` is one of the two operands of the binary formula `of`.
pub open spec fn operand_of(f: SyntaxTree, of: SyntaxTree) -> bool {
    of.left() == f || of.right() == f
}

/// The operands that `And` is put over:
/// the left one comes before the right one in the order of formulae, it is
/// no conjunction, the two are not both negations, both `Next` or both
/// `Globally`, not two implications with the same antecedent or the same
/// consequent, neither is a disjunction that has the other as an operand,
/// and they are not two disjunctions with an operand in common.
pub open spec fn and_admitted(l: SyntaxTree, r: SyntaxTree) -> bool {
    &&& l.precedes(r)
    &&& !(l is And)
    &&& !(l is Not && r is Not)
    &&& !(l is Next && r is Next)
    &&& !(l is Globally && r is Globally)
    &&& !(l is Implies && r is Implies && (l.left() == r.left() || l.right() == r.right()))
    &&& !(l is Or && operand_of(r, l))
    &&& !(r is Or && operand_of(l, r))
    &&& !(l is Or && r is Or && share_operand(l, r))
}

/// The operands that `Or` is put over: as for `And`, with conjunction and
/// disjunction in each other's place and `Finally` in that of `Globally`.
pub open spec fn or_admitted(l: SyntaxTree, r: SyntaxTree) -> bool {
    &&& l.precedes(r)
    &&& !(l is Or)
    &&& !(l is Not && r is Not)
    &&& !(l is Next && r is Next)
    &&& !(l is Finally && r is Finally)
    &&& !(l is Implies && r is Implies && (l.left() == r.left() || l.right() == r.right()))
    &&& !(l is And && operand_of(r, l))
    &&& !(r is And && operand_of(l, r))
    &&& !(l is And && r is And && share_operand(l, r))
}

/// `Implies` is put over two different formulae of which the left is no negation.
pub open spec fn implies_admitted(l: SyntaxTree, r: SyntaxTree) -> bool {
    !(l is Not) && l != r
}

/// `Until` is put over two different formulae that are not both `Next`,
/// the right one being no `Until` with the left one as its left operand.
pub open spec fn until_admitted(l: SyntaxTree, r: SyntaxTree) -> bool {
    &&& l != r
    &&& !(l is Next && r is Next)
    &&& !(r is Until && r.left() == l)
}

/// `Release` is put over two different formulae that are not both `Next`.
/// On a finite trace a `Release` over two `Next` is not the `Next` of the
/// `Release`: it fails wherever nothing releases it before the last instant.
pub open spec fn release_admitted(l: SyntaxTree, r: SyntaxTree) -> bool {
    &&& l != r
    &&& !(l is Next && r is Next)
}

/// A sequence of one element where `keep` holds, of none where it does not.
pub open spec fn kept<T>(keep: bool, item: T) -> Seq<T> {
    if keep {
        seq![item]
    } else {
        Seq::empty()
    }
}

/// The formulae that the unary operators give over `f`: in the order `Not`,
/// `Next`, `Globally`, `Finally`, each where its filter admits `f`.
pub open spec fn unary_candidates(f: SyntaxTree) -> Seq<SyntaxTree> {
    kept(not_admitted(f), SyntaxTree::Not(Arc::new(f))) + kept(
        next_admitted(f),
        SyntaxTree::Next(Arc::new(f)),
    ) + kept(globally_admitted(f), SyntaxTree::Globally(Arc::new(f))) + kept(
        finally_admitted(f),
        SyntaxTree::Finally(Arc::new(f)),
    )
}

/// The formulae that the binary operators give over `l` and `r`: in the
/// order `And`, `Or`, `Implies`, `Until`, `Release`, each where its filter
/// admits the two.
pub open spec fn binary_candidates(l: SyntaxTree, r: SyntaxTree) -> Seq<SyntaxTree> {
    kept(and_admitted(l, r), SyntaxTree::And(Arc::new(l), Arc::new(r))) + kept(
        or_admitted(l, r),
        SyntaxTree::Or(Arc::new(l), Arc::new(r)),
    ) + kept(implies_admitted(l, r), SyntaxTree::Implies(Arc::new(l), Arc::new(r))) + kept(
        until_admitted(l, r),
        SyntaxTree::Until(Arc::new(l), Arc::new(r)),
    ) + kept(release_admitted(l, r), SyntaxTree::Release(Arc::new(l), Arc::new(r)))
}

/// What the unary operators give over `f` is a unary operator over `f`.
pub proof fn lemma_unary_candidates(f: SyntaxTree, i: int)
    requires
        0 <= i < unary_candidates(f).len(),
    ensures
        1 <= unary_candidates(f)[i].rank() <= 4,
        unary_candidates(f)[i].left() == f,
{
}

/// What the binary operators give over `l` and `r` is a binary operator over them.
pub proof fn lemma_binary_candidates(l: SyntaxTree, r: SyntaxTree, i: int)
    requires
        0 <= i < binary_candidates(l, r).len(),
    ensures
        5 <= binary_candidates(l, r)[i].rank() <= 9,
        binary_candidates(l, r)[i].left() == l,
        binary_candidates(l, r)[i].right() == r,
{
}

/// Whether `Not` is to be put over `child`.
pub fn check_not(child: &SyntaxTree) -> (r: bool)
    ensures
        r == not_admitted(*child),
{
    match child {
        // ¬¬φ ≡ φ, ¬(φ → ψ) ≡ φ ∧ ¬ψ
        SyntaxTree::Not(_) | SyntaxTree::Implies(_, _) => false,
        _ => true,
    }
}

/// Whether `Next` is to be put over `child`.
pub fn check_next(child: &SyntaxTree) -> (r: bool)
    ensures
        r == next_admitted(*child),
{
    match child {
        SyntaxTree::Next(_) => false,
        _ => true,
    }
}

/// Whether `Globally` is to be put over `child`.
pub fn check_globally(child: &SyntaxTree) -> (r: bool)
    ensures
        r == globally_admitted(*child),
{
    match child {
        // G G φ ≡ G φ; on a finite trace G F φ ≡ F G φ
        SyntaxTree::Globally(_) | SyntaxTree::Finally(_) => false,
        _ => true,
    }
}

/// Whether `Finally` is to be put over `child`.
pub fn check_finally(child: &SyntaxTree) -> (r: bool)
    ensures
        r == finally_admitted(*child),
{
    match child {
        // F F φ ≡ F φ
        SyntaxTree::Finally(_) => false,
        _ => true,
    }
}

/// Whether `And` is to be put over the two operands.
pub fn check_and(left_child: &SyntaxTree, right_child: &SyntaxTree) -> (r: bool)
    ensures
        r == and_admitted(*left_child, *right_child),
{
    // Commutative law: of the two orders of the operands the rising one stays.
    if !left_child.lt(right_child) {
        return false;
    }
    match (left_child, right_child) {
        // Associative law
        (SyntaxTree::And(_, _), _) => false,
        // De Morgan's law
        (SyntaxTree::Not(_), SyntaxTree::Not(_)) => false,
        // X (φ ∧ ψ) ≡ (X φ) ∧ (X ψ)
        (SyntaxTree::Next(_), SyntaxTree::Next(_)) => false,
        // G (φ ∧ ψ) ≡ (G φ) ∧ (G ψ)
        (SyntaxTree::Globally(_), SyntaxTree::Globally(_)) => false,
        // (φ → ψ_1) ∧ (φ → ψ_2) ≡ φ → (ψ_1 ∧ ψ_2)
        // (φ_1 → ψ) ∧ (φ_2 → ψ) ≡ (φ_1 ∨ φ_2) → ψ
        (SyntaxTree::Implies(c_1_0, c_1_1), SyntaxTree::Implies(c_2_0, c_2_1)) => {
            !(c_1_0.equals(c_2_0) || c_1_1.equals(c_2_1))
        },
        // Absorption and distributive laws
        (SyntaxTree::Or(c_1_0, c_1_1), SyntaxTree::Or(c_2_0, c_2_1)) => {
            !(c_1_0.equals(right_child) || c_1_1.equals(right_child) || c_2_0.equals(left_child)
                || c_2_1.equals(left_child) || c_1_0.equals(c_2_0) || c_1_0.equals(c_2_1)
                || c_1_1.equals(c_2_0) || c_1_1.equals(c_2_1))
        },
        // Absorption laws
        (SyntaxTree::Or(c_0, c_1), _) => !(c_0.equals(right_child) || c_1.equals(right_child)),
        (_, SyntaxTree::Or(c_0, c_1)) => !(c_0.equals(left_child) || c_1.equals(left_child)),
        _ => true,
    }
}

/// Whether `Or` is to be put over the two operands.
pub fn check_or(left_child: &SyntaxTree, right_child: &SyntaxTree) -> (r: bool)
    ensures
        r == or_admitted(*left_child, *right_child),
{
    // Commutative law: of the two orders of the operands the rising one stays.
    if !left_child.lt(right_child) {
        return false;
    }
    match (left_child, right_child) {
        // Associative law
        (SyntaxTree::Or(_, _), _) => false,
        // De Morgan's law
        (SyntaxTree::Not(_), SyntaxTree::Not(_)) => false,
        // X (φ ∨ ψ) ≡ (X φ) ∨ (X ψ)
        (SyntaxTree::Next(_), SyntaxTree::Next(_)) => false,
        // F (φ ∨ ψ) ≡ (F φ) ∨ (F ψ)
        (SyntaxTree::Finally(_), SyntaxTree::Finally(_)) => false,
        // (φ → ψ_1) ∨ (φ → ψ_2) ≡ φ → (ψ_1 ∨ ψ_2)
        // (φ_1 → ψ) ∨ (φ_2 → ψ) ≡ (φ_1 ∧ φ_2) → ψ
        (SyntaxTree::Implies(c_1_0, c_1_1), SyntaxTree::Implies(c_2_0, c_2_1)) => {
            !(c_1_0.equals(c_2_0) || c_1_1.equals(c_2_1))
        },
        // Absorption and distributive laws
        (SyntaxTree::And(c_1_0, c_1_1), SyntaxTree::And(c_2_0, c_2_1)) => {
            !(c_1_0.equals(right_child) || c_1_1.equals(right_child) || c_2_0.equals(left_child)
                || c_2_1.equals(left_child) || c_1_0.equals(c_2_0) || c_1_0.equals(c_2_1)
                || c_1_1.equals(c_2_0) || c_1_1.equals(c_2_1))
        },
        // Absorption laws
        (SyntaxTree::And(c_0, c_1), _) => !(c_0.equals(right_child) || c_1.equals(right_child)),
        (_, SyntaxTree::And(c_0, c_1)) => !(c_0.equals(left_child) || c_1.equals(left_child)),
        _ => true,
    }
}

/// Whether `Implies` is to be put over the two operands.
pub fn check_implies(left_child: &SyntaxTree, right_child: &SyntaxTree) -> (r: bool)
    ensures
        r == implies_admitted(*left_child, *right_child),
{
    match left_child {
        // ¬φ → ψ ≡ φ ∨ ψ
        SyntaxTree::Not(_) => false,
        _ => !left_child.equals(right_child),
    }
}

/// Whether `Until` is to be put over the two operands.
pub fn check_until(left_child: &SyntaxTree, right_child: &SyntaxTree) -> (r: bool)
    ensures
        r == until_admitted(*left_child, *right_child),
{
    // φ U φ ≡ φ
    if left_child.equals(right_child) {
        return false;
    }
    match (left_child, right_child) {
        // X (φ U ψ) ≡ (X φ) U (X ψ)
        (SyntaxTree::Next(_), SyntaxTree::Next(_)) => false,
        // φ U ψ ≡ φ U (φ U ψ)
        (_, SyntaxTree::Until(child, _)) => !child.equals(left_child),
        _ => true,
    }
}

/// Whether `Release` is to be put over the two operands.
pub fn check_release(left_child: &SyntaxTree, right_child: &SyntaxTree) -> (r: bool)
    ensures
        r == release_admitted(*left_child, *right_child),
{
    // φ R φ ≡ φ
    if left_child.equals(right_child) {
        return false;
    }
    match (left_child, right_child) {
        // X (φ R ψ) ≡ (X φ) R (X ψ)
        (SyntaxTree::Next(_), SyntaxTree::Next(_)) => false,
        _ => true,
    }
}

} // verus!
