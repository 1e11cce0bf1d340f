//! Structural equality of formulae and a total order on them.
//!
//! The order goes by the operator at the root first, in the order in which
//! the operators are declared, and then by the operands from left to right.

use crate::syntax::SyntaxTree;
use vstd::prelude::*;

verus! {

impl SyntaxTree {
    /// The place of the root operator among the operators.
    pub open spec fn rank(self) -> int {
        match self {
            SyntaxTree::Atom(_) => 0,
            SyntaxTree::Not(_) => 1,
            SyntaxTree::Next(_) => 2,
            SyntaxTree::Globally(_) => 3,
            SyntaxTree::Finally(_) => 4,
            SyntaxTree::And(_, _) => 5,
            SyntaxTree::Or(_, _) => 6,
            SyntaxTree::Implies(_, _) => 7,
            SyntaxTree::Until(_, _) => 8,
            SyntaxTree::Release(_, _) => 9,
        }
    }

    /// The index of an atom; 0 for any other formula.
    pub open spec fn index(self) -> int {
        match self {
            SyntaxTree::Atom(i) => i as int,
            _ => 0,
        }
    }

    /// How `self` stands to `other`: -1 where it comes first, 0 where the two
    /// are the same formula, 1 where it comes last.
    pub open spec fn order(self, other: SyntaxTree) -> int
        decreases self,
    {
        if self.rank() != other.rank() {
            if self.rank() < other.rank() {
                -1
            } else {
                1
            }
        } else {
            match self {
                SyntaxTree::Atom(i) => if i < other.index() {
                    -1
                } else if i == other.index() {
                    0
                } else {
                    1
                },
                SyntaxTree::Not(f)
                | SyntaxTree::Next(f)
                | SyntaxTree::Globally(f)
                | SyntaxTree::Finally(f) => f.order(other.left()),
                SyntaxTree::And(l, r)
                | SyntaxTree::Or(l, r)
                | SyntaxTree::Implies(l, r)
                | SyntaxTree::Until(l, r)
                | SyntaxTree::Release(l, r) => if l.order(other.left()) != 0 {
                    l.order(other.left())
                } else {
                    r.order(other.right())
                },
            }
        }
    }

    /// `self` comes strictly before `other`.
    pub open spec fn precedes(self, other: SyntaxTree) -> bool {
        self.order(other) < 0
    }

    /// The order tells two formulae apart exactly where they differ.
    pub proof fn law_order_equal(a: SyntaxTree, b: SyntaxTree)
        ensures
            (a.order(b) == 0) == (a == b),
        decreases a,
    {
        if a.rank() == b.rank() && !(a is Atom) {
            Self::law_order_equal(a.left(), b.left());
            if a.rank() >= 5 {
                Self::law_order_equal(a.right(), b.right());
            }
        }
    }

    /// Turning a comparison around turns its outcome around, so of two
    /// different formulae exactly one precedes the other.
    pub proof fn law_order_antisymmetric(a: SyntaxTree, b: SyntaxTree)
        ensures
            a.order(b) == -b.order(a),
            -1 <= a.order(b) <= 1,
        decreases a,
    {
        if a.rank() == b.rank() && !(a is Atom) {
            Self::law_order_antisymmetric(a.left(), b.left());
            if a.rank() >= 5 {
                Self::law_order_antisymmetric(a.right(), b.right());
            }
        }
    }

    /// The order is transitive.
    pub proof fn law_order_transitive(a: SyntaxTree, b: SyntaxTree, c: SyntaxTree)
        requires
            a.precedes(b),
            b.precedes(c),
        ensures
            a.precedes(c),
        decreases a,
    {
        if a.rank() == b.rank() && b.rank() == c.rank() && !(a is Atom) {
            Self::law_order_equal(a.left(), b.left());
            Self::law_order_equal(b.left(), c.left());
            Self::law_order_antisymmetric(a.left(), b.left());
            Self::law_order_antisymmetric(b.left(), c.left());
            if a.left().precedes(b.left()) && b.left().precedes(c.left()) {
                Self::law_order_transitive(a.left(), b.left(), c.left());
            } else if a.rank() >= 5 && a.left() == b.left() && b.left() == c.left() {
                Self::law_order_transitive(a.right(), b.right(), c.right());
            }
        }
    }

    /// The place of the root operator among the operators.
    fn tag(&self) -> (r: u8)
        ensures
            r == self.rank(),
    {
        match self {
            SyntaxTree::Atom(_) => 0,
            SyntaxTree::Not(_) => 1,
            SyntaxTree::Next(_) => 2,
            SyntaxTree::Globally(_) => 3,
            SyntaxTree::Finally(_) => 4,
            SyntaxTree::And(_, _) => 5,
            SyntaxTree::Or(_, _) => 6,
            SyntaxTree::Implies(_, _) => 7,
            SyntaxTree::Until(_, _) => 8,
            SyntaxTree::Release(_, _) => 9,
        }
    }

    /// Compares two formulae in time linear in the smaller of them:
    /// -1, 0 or 1 as `self` comes before `other`, is it, or comes after it.
    pub fn compare(&self, other: &SyntaxTree) -> (c: i8)
        ensures
            c == self.order(*other),
        decreases self,
    {
        match (self, other) {
            (SyntaxTree::Atom(i), SyntaxTree::Atom(j)) => {
                if *i < *j {
                    -1
                } else if *i == *j {
                    0
                } else {
                    1
                }
            },
            (SyntaxTree::Not(a), SyntaxTree::Not(b))
            | (SyntaxTree::Next(a), SyntaxTree::Next(b))
            | (SyntaxTree::Globally(a), SyntaxTree::Globally(b))
            | (SyntaxTree::Finally(a), SyntaxTree::Finally(b)) => a.compare(b),
            (SyntaxTree::And(a, c), SyntaxTree::And(b, d))
            | (SyntaxTree::Or(a, c), SyntaxTree::Or(b, d))
            | (SyntaxTree::Implies(a, c), SyntaxTree::Implies(b, d))
            | (SyntaxTree::Until(a, c), SyntaxTree::Until(b, d))
            | (SyntaxTree::Release(a, c), SyntaxTree::Release(b, d)) => {
                let first: i8 = a.compare(b);
                if first != 0 {
                    first
                } else {
                    c.compare(d)
                }
            },
            _ => {
                if self.tag() < other.tag() {
                    -1
                } else {
                    1
                }
            },
        }
    }

    /// Whether `self` comes strictly before `other` in the order.
    pub fn lt(&self, other: &SyntaxTree) -> (r: bool)
        ensures
            r == self.precedes(*other),
    {
        self.compare(other) < 0
    }

    /// Whether the two are the same formula. Shared subtrees are compared by
    /// what they hold, not by where they lie.
    pub fn equals(&self, other: &SyntaxTree) -> (r: bool)
        ensures
            r == (*self == *other),
    {
        proof {
            Self::law_order_equal(*self, *other);
        }
        self.compare(other) == 0
    }
}

} // verus!
