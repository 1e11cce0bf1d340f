//! Formulae of linear temporal logic and their meaning on finite traces.

use crate::lists::share;
use std::sync::Arc;
use vstd::prelude::*;
use vstd::string::StringExecFns;

verus! {

/// The type of indexes of propositional variables.
pub type Idx = u8;

/// A formula represented via its syntax tree.
///
/// Subformulae are held by shared ownership, so one subtree may serve many
/// parents; a formula means the tree that unfolding the sharing gives.
#[derive(Debug, Clone, PartialEq, Eq, PartialOrd, Ord)]
pub enum SyntaxTree {
    Atom(Idx),
    Not(Arc<SyntaxTree>),
    Next(Arc<SyntaxTree>),
    Globally(Arc<SyntaxTree>),
    Finally(Arc<SyntaxTree>),
    And(Arc<SyntaxTree>, Arc<SyntaxTree>),
    Or(Arc<SyntaxTree>, Arc<SyntaxTree>),
    Implies(Arc<SyntaxTree>, Arc<SyntaxTree>),
    Until(Arc<SyntaxTree>, Arc<SyntaxTree>),
    Release(Arc<SyntaxTree>, Arc<SyntaxTree>),
}

/// A trace as the sequence of its valuations, each a sequence of truth values.
pub open spec fn valuations<const N: usize>(trace: Seq<[bool; N]>) -> Seq<Seq<bool>> {
    Seq::new(trace.len(), |t: int| trace[t]@)
}

/// An instant of a trace. It is the identity: a quantifier over instants
/// names its variable through it, and is matched on that term.
pub open spec fn instant(u: int) -> int {
    u
}

/// An instant that a quantifier nested inside one over `instant` ranges over.
/// It is the identity too; keeping the two apart keeps the matching finite.
pub open spec fn earlier(v: int) -> int {
    v
}

/// The character that stands for a decimal digit.
pub open spec fn digit(d: nat) -> char {
    if d == 0 {
        '0'
    } else if d == 1 {
        '1'
    } else if d == 2 {
        '2'
    } else if d == 3 {
        '3'
    } else if d == 4 {
        '4'
    } else if d == 5 {
        '5'
    } else if d == 6 {
        '6'
    } else if d == 7 {
        '7'
    } else if d == 8 {
        '8'
    } else {
        '9'
    }
}

/// A number written in decimal digits, without leading zeros.
pub open spec fn decimal(n: nat) -> Seq<char>
    decreases n,
{
    if n < 10 {
        seq![digit(n)]
    } else {
        decimal(n / 10).push(digit(n % 10))
    }
}

/// A text between parentheses.
pub open spec fn enclosed(text: Seq<char>) -> Seq<char> {
    seq!['('] + text + seq![')']
}

/// The name that a variable prints under where none is given: `x` and its index.
pub open spec fn plain_name(i: nat) -> Seq<char> {
    seq!['x'] + decimal(i)
}

/// The names of all variables where none is given.
pub open spec fn plain_names() -> Seq<Seq<char>> {
    Seq::new(256, |i: int| plain_name(i as nat))
}

/// The given names as sequences of characters.
pub open spec fn names_of(vars: Seq<String>) -> Seq<Seq<char>> {
    Seq::new(vars.len(), |i: int| vars[i]@)
}

fn digit_str(d: u8) -> (r: &'static str)
    requires
        d < 10,
    ensures
        r@ == seq![digit(d as nat)],
{
    let r = if d == 0 {
        "0"
    } else if d == 1 {
        "1"
    } else if d == 2 {
        "2"
    } else if d == 3 {
        "3"
    } else if d == 4 {
        "4"
    } else if d == 5 {
        "5"
    } else if d == 6 {
        "6"
    } else if d == 7 {
        "7"
    } else if d == 8 {
        "8"
    } else {
        "9"
    };
    proof {
        reveal_strlit("0");
        reveal_strlit("1");
        reveal_strlit("2");
        reveal_strlit("3");
        reveal_strlit("4");
        reveal_strlit("5");
        reveal_strlit("6");
        reveal_strlit("7");
        reveal_strlit("8");
        reveal_strlit("9");
        assert(r@ =~= seq![digit(d as nat)]);
    }
    r
}

fn decimal_string(n: u8) -> (r: String)
    ensures
        r@ == decimal(n as nat),
{
    proof {
        reveal_with_fuel(decimal, 3);
    }
    if n < 10 {
        String::from_str(digit_str(n))
    } else if n < 100 {
        let mut text = String::from_str(digit_str(n / 10));
        text.append(digit_str(n % 10));
        assert(text@ =~= decimal(n as nat));
        text
    } else {
        let mut text = String::from_str(digit_str(n / 100));
        text.append(digit_str((n / 10) % 10));
        text.append(digit_str(n % 10));
        assert(n as nat / 10 / 10 == n as nat / 100) by (nonlinear_arith);
        assert(text@ =~= decimal(n as nat));
        text
    }
}

fn enclose(sign: &str, operand: String) -> (r: String)
    ensures
        r@ == sign@ + enclosed(operand@),
{
    proof {
        reveal_strlit("(");
        reveal_strlit(")");
    }
    let mut text = String::from_str(sign);
    text.append("(");
    text.append(operand.as_str());
    text.append(")");
    assert(text@ =~= sign@ + enclosed(operand@));
    text
}

fn join(left: String, sign: &str, right: String) -> (r: String)
    ensures
        r@ == enclosed(left@) + sign@ + enclosed(right@),
{
    proof {
        reveal_strlit("(");
        reveal_strlit(")");
    }
    let mut text = String::from_str("(");
    text.append(left.as_str());
    text.append(")");
    text.append(sign);
    text.append("(");
    text.append(right.as_str());
    text.append(")");
    assert(text@ =~= enclosed(left@) + sign@ + enclosed(right@));
    text
}

impl SyntaxTree {
    /// The sign that the root operator prints as; it is empty for an atom.
    pub open spec fn sign(self) -> Seq<char> {
        match self {
            SyntaxTree::Atom(_) => seq![],
            SyntaxTree::Not(_) => seq!['\u{ac}'],
            SyntaxTree::Next(_) => seq!['X'],
            SyntaxTree::Globally(_) => seq!['G'],
            SyntaxTree::Finally(_) => seq!['F'],
            SyntaxTree::And(_, _) => seq!['\u{2227}'],
            SyntaxTree::Or(_, _) => seq!['\u{2228}'],
            SyntaxTree::Implies(_, _) => seq!['\u{2192}'],
            SyntaxTree::Until(_, _) => seq!['U'],
            SyntaxTree::Release(_, _) => seq!['R'],
        }
    }

    /// The formula in print: an atom by its name, a unary operator before
    /// its operand, a binary one between its operands, and each operand
    /// in parentheses.
    pub open spec fn rendering(self, names: Seq<Seq<char>>) -> Seq<char>
        decreases self,
    {
        match self {
            SyntaxTree::Atom(i) => names[i as int],
            SyntaxTree::Not(f)
            | SyntaxTree::Next(f)
            | SyntaxTree::Globally(f)
            | SyntaxTree::Finally(f) => self.sign() + enclosed(f.rendering(names)),
            SyntaxTree::And(l, r)
            | SyntaxTree::Or(l, r)
            | SyntaxTree::Implies(l, r)
            | SyntaxTree::Until(l, r)
            | SyntaxTree::Release(l, r) => enclosed(l.rendering(names)) + self.sign() + enclosed(
                r.rendering(names),
            ),
        }
    }

    fn symbol(&self) -> (r: &'static str)
        ensures
            r@ == self.sign(),
    {
        let r = match self {
            SyntaxTree::Atom(_) => "",
            SyntaxTree::Not(_) => "\u{ac}",
            SyntaxTree::Next(_) => "X",
            SyntaxTree::Globally(_) => "G",
            SyntaxTree::Finally(_) => "F",
            SyntaxTree::And(_, _) => "\u{2227}",
            SyntaxTree::Or(_, _) => "\u{2228}",
            SyntaxTree::Implies(_, _) => "\u{2192}",
            SyntaxTree::Until(_, _) => "U",
            SyntaxTree::Release(_, _) => "R",
        };
        proof {
            reveal_strlit("");
            reveal_strlit("\u{ac}");
            reveal_strlit("X");
            reveal_strlit("G");
            reveal_strlit("F");
            reveal_strlit("\u{2227}");
            reveal_strlit("\u{2228}");
            reveal_strlit("\u{2192}");
            reveal_strlit("U");
            reveal_strlit("R");
            assert(r@ =~= self.sign());
        }
        r
    }

    /// The formula in print, each variable under the name that `vars` gives it.
    pub fn print_w_named_vars(&self, vars: &[String]) -> (r: String)
        requires
            self.width() <= vars@.len(),
        ensures
            r@ == self.rendering(names_of(vars@)),
        decreases self,
    {
        match self {
            SyntaxTree::Atom(var) => vars[*var as usize].clone(),
            SyntaxTree::Not(branch)
            | SyntaxTree::Next(branch)
            | SyntaxTree::Globally(branch)
            | SyntaxTree::Finally(branch) => enclose(
                self.symbol(),
                branch.print_w_named_vars(vars),
            ),
            SyntaxTree::And(left_branch, right_branch)
            | SyntaxTree::Or(left_branch, right_branch)
            | SyntaxTree::Implies(left_branch, right_branch)
            | SyntaxTree::Until(left_branch, right_branch)
            | SyntaxTree::Release(left_branch, right_branch) => join(
                left_branch.print_w_named_vars(vars),
                self.symbol(),
                right_branch.print_w_named_vars(vars),
            ),
        }
    }

    /// The formula in print, the variable of index `i` as `x` and `i` in decimal.
    pub fn render(&self) -> (r: String)
        ensures
            r@ == self.rendering(plain_names()),
        decreases self,
    {
        match self {
            SyntaxTree::Atom(var) => {
                proof {
                    reveal_strlit("x");
                }
                let mut text = String::from_str("x");
                let digits = decimal_string(*var);
                text.append(digits.as_str());
                assert(text@ =~= plain_name(*var as nat));
                text
            },
            SyntaxTree::Not(branch)
            | SyntaxTree::Next(branch)
            | SyntaxTree::Globally(branch)
            | SyntaxTree::Finally(branch) => enclose(self.symbol(), branch.render()),
            SyntaxTree::And(left_branch, right_branch)
            | SyntaxTree::Or(left_branch, right_branch)
            | SyntaxTree::Implies(left_branch, right_branch)
            | SyntaxTree::Until(left_branch, right_branch)
            | SyntaxTree::Release(left_branch, right_branch) => join(
                left_branch.render(),
                self.symbol(),
                right_branch.render(),
            ),
        }
    }

    /// The number of leaves. Unary operators add nothing to it.
    pub open spec fn size(self) -> nat
        decreases self,
    {
        match self {
            SyntaxTree::Atom(_) => 1,
            SyntaxTree::Not(f)
            | SyntaxTree::Next(f)
            | SyntaxTree::Globally(f)
            | SyntaxTree::Finally(f) => f.size(),
            SyntaxTree::And(l, r)
            | SyntaxTree::Or(l, r)
            | SyntaxTree::Implies(l, r)
            | SyntaxTree::Until(l, r)
            | SyntaxTree::Release(l, r) => l.size() + r.size(),
        }
    }

    /// The left-hand operand of a binary formula, the operand of a unary one.
    pub open spec fn left(self) -> SyntaxTree {
        match self {
            SyntaxTree::Atom(_) => self,
            SyntaxTree::Not(f)
            | SyntaxTree::Next(f)
            | SyntaxTree::Globally(f)
            | SyntaxTree::Finally(f) => *f,
            SyntaxTree::And(l, _)
            | SyntaxTree::Or(l, _)
            | SyntaxTree::Implies(l, _)
            | SyntaxTree::Until(l, _)
            | SyntaxTree::Release(l, _) => *l,
        }
    }

    /// The right-hand operand of a binary formula.
    pub open spec fn right(self) -> SyntaxTree {
        match self {
            SyntaxTree::And(_, r)
            | SyntaxTree::Or(_, r)
            | SyntaxTree::Implies(_, r)
            | SyntaxTree::Until(_, r)
            | SyntaxTree::Release(_, r) => *r,
            _ => self,
        }
    }

    /// One more than the highest index of a propositional variable in the formula.
    pub open spec fn width(self) -> nat
        decreases self,
    {
        match self {
            SyntaxTree::Atom(i) => i as nat + 1,
            SyntaxTree::Not(f)
            | SyntaxTree::Next(f)
            | SyntaxTree::Globally(f)
            | SyntaxTree::Finally(f) => f.width(),
            SyntaxTree::And(l, r)
            | SyntaxTree::Or(l, r)
            | SyntaxTree::Implies(l, r)
            | SyntaxTree::Until(l, r)
            | SyntaxTree::Release(l, r) => if l.width() >= r.width() {
                l.width()
            } else {
                r.width()
            },
        }
    }

    /// Whether the formula holds on `trace` at instant `t`.
    ///
    /// `Next` is false at the last instant, `Until` is strong: its right-hand
    /// side has to hold at some instant of the trace.
    #[verifier::opaque]
    pub open spec fn holds(self, trace: Seq<Seq<bool>>, t: int) -> bool
        decreases self,
    {
        match self {
            SyntaxTree::Atom(i) => trace[t][i as int],
            SyntaxTree::Not(f) => !f.holds(trace, t),
            SyntaxTree::Next(f) => t + 1 < trace.len() && f.holds(trace, t + 1),
            SyntaxTree::Globally(f) => forall|u: int|
                t <= #[trigger] instant(u) < trace.len() ==> f.holds(trace, u),
            SyntaxTree::Finally(f) => exists|u: int|
                t <= #[trigger] instant(u) < trace.len() && f.holds(trace, u),
            SyntaxTree::And(l, r) => l.holds(trace, t) && r.holds(trace, t),
            SyntaxTree::Or(l, r) => l.holds(trace, t) || r.holds(trace, t),
            SyntaxTree::Implies(l, r) => l.holds(trace, t) ==> r.holds(trace, t),
            SyntaxTree::Until(l, r) => exists|u: int|
                t <= #[trigger] instant(u) < trace.len() && r.holds(trace, u) && forall|v: int|
                    t <= #[trigger] earlier(v) < u ==> l.holds(trace, v),
            SyntaxTree::Release(l, r) => forall|u: int|
                t <= #[trigger] instant(u) < trace.len() ==> r.holds(trace, u) || exists|v: int|
                    t <= #[trigger] earlier(v) < u && l.holds(trace, v),
        }
    }

    /// From `from` up to, not including, `to`, `kept` holds at every instant
    /// and `awaited` at none.
    pub open spec fn stretch(
        kept: SyntaxTree,
        awaited: SyntaxTree,
        trace: Seq<Seq<bool>>,
        from: int,
        to: int,
    ) -> bool {
        forall|v: int|
            from <= #[trigger] instant(v) < to ==> kept.holds(trace, v) && !awaited.holds(trace, v)
    }

    /// A stretch, told of the instants of a nested quantifier.
    proof fn lemma_stretch_nested(
        kept: SyntaxTree,
        awaited: SyntaxTree,
        trace: Seq<Seq<bool>>,
        from: int,
        to: int,
    )
        requires
            Self::stretch(kept, awaited, trace, from, to),
        ensures
            forall|v: int|
                from <= #[trigger] earlier(v) < to ==> kept.holds(trace, v) && !awaited.holds(
                    trace,
                    v,
                ),
    {
        assert forall|v: int| from <= #[trigger] earlier(v) < to implies kept.holds(trace, v)
            && !awaited.holds(trace, v) by {
            assert(instant(v) == v);
        }
    }

    /// A stretch grows by the instant behind it, where `kept` holds and
    /// `awaited` does not.
    proof fn lemma_stretch_grows(
        kept: SyntaxTree,
        awaited: SyntaxTree,
        trace: Seq<Seq<bool>>,
        from: int,
        to: int,
    )
        requires
            Self::stretch(kept, awaited, trace, from, to),
            kept.holds(trace, to),
            !awaited.holds(trace, to),
        ensures
            Self::stretch(kept, awaited, trace, from, to + 1),
    {
        assert forall|v: int| from <= #[trigger] instant(v) < to + 1 implies kept.holds(trace, v)
            && !awaited.holds(trace, v) by {}
    }

    /// `Globally` holds at `from` exactly where its operand holds at every
    /// instant from there on; `Finally`, where it holds at one of them.
    pub proof fn lemma_window(f: SyntaxTree, trace: Seq<Seq<bool>>, from: int)
        ensures
            f matches SyntaxTree::Globally(g) ==> f.holds(trace, from) == (forall|u: int|
                from <= #[trigger] instant(u) < trace.len() ==> g.holds(trace, u)),
            f matches SyntaxTree::Finally(g) ==> f.holds(trace, from) == (exists|u: int|
                from <= #[trigger] instant(u) < trace.len() && g.holds(trace, u)),
    {
        reveal(SyntaxTree::holds);
    }

    /// `Until` holds where its right-hand side comes true at the end of a
    /// stretch of its left-hand side.
    proof fn lemma_until_met(f: SyntaxTree, trace: Seq<Seq<bool>>, from: int, at: int)
        requires
            f matches SyntaxTree::Until(l, r) && Self::stretch(*l, *r, trace, from, at) && r.holds(
                trace,
                at,
            ),
            from <= at < trace.len(),
        ensures
            f.holds(trace, from),
    {
        Self::lemma_stretch_nested(f.left(), f.right(), trace, from, at);
        reveal(SyntaxTree::holds);
        assert(instant(at) == at);
    }

    /// `Until` fails where, after a stretch without its right-hand side,
    /// the trace ends or both sides are false.
    proof fn lemma_until_lost(f: SyntaxTree, trace: Seq<Seq<bool>>, from: int, at: int)
        requires
            f matches SyntaxTree::Until(l, r) && Self::stretch(*l, *r, trace, from, at) && (at
                == trace.len() || (!l.holds(trace, at) && !r.holds(trace, at))),
            from <= at <= trace.len(),
        ensures
            !f.holds(trace, from),
    {
        Self::lemma_stretch_nested(f.left(), f.right(), trace, from, at);
        reveal(SyntaxTree::holds);
        assert(earlier(at) == at);
    }

    /// `Release` holds where, after a stretch of its right-hand side alone,
    /// the trace ends or both sides hold.
    proof fn lemma_release_met(f: SyntaxTree, trace: Seq<Seq<bool>>, from: int, at: int)
        requires
            f matches SyntaxTree::Release(l, r) && Self::stretch(*r, *l, trace, from, at) && (at
                == trace.len() || (l.holds(trace, at) && r.holds(trace, at))),
            from <= at <= trace.len(),
        ensures
            f.holds(trace, from),
    {
        Self::lemma_stretch_nested(f.right(), f.left(), trace, from, at);
        reveal(SyntaxTree::holds);
        assert(earlier(at) == at);
    }

    /// `Release` fails where its right-hand side fails at the end of a
    /// stretch without its left-hand side.
    proof fn lemma_release_lost(f: SyntaxTree, trace: Seq<Seq<bool>>, from: int, at: int)
        requires
            f matches SyntaxTree::Release(l, r) && Self::stretch(*r, *l, trace, from, at)
                && !r.holds(trace, at),
            from <= at < trace.len(),
        ensures
            !f.holds(trace, from),
    {
        Self::lemma_stretch_nested(f.right(), f.left(), trace, from, at);
        reveal(SyntaxTree::holds);
        assert(instant(at) == at);
    }

    /// Negation flips the truth of a formula, on every trace and at every instant.
    pub proof fn law_not_negates(f: SyntaxTree, trace: Seq<Seq<bool>>, t: int)
        ensures
            SyntaxTree::Not(Arc::new(f)).holds(trace, t) == !f.holds(trace, t),
    {
        reveal(SyntaxTree::holds);
    }

    /// `Globally` and `Finally` are duals: a formula holds from an instant on
    /// exactly where its negation never comes true from there on.
    pub proof fn law_globally_finally_dual(f: SyntaxTree, trace: Seq<Seq<bool>>, t: int)
        ensures
            SyntaxTree::Globally(Arc::new(f)).holds(trace, t) == !SyntaxTree::Finally(
                Arc::new(SyntaxTree::Not(Arc::new(f))),
            ).holds(trace, t),
            SyntaxTree::Finally(Arc::new(f)).holds(trace, t) == !SyntaxTree::Globally(
                Arc::new(SyntaxTree::Not(Arc::new(f))),
            ).holds(trace, t),
    {
        let not_f = SyntaxTree::Not(Arc::new(f));
        Self::lemma_window(SyntaxTree::Globally(Arc::new(f)), trace, t);
        Self::lemma_window(SyntaxTree::Finally(Arc::new(f)), trace, t);
        Self::lemma_window(SyntaxTree::Globally(Arc::new(not_f)), trace, t);
        Self::lemma_window(SyntaxTree::Finally(Arc::new(not_f)), trace, t);
        assert forall|u: int| not_f.holds(trace, u) == !f.holds(trace, u) by {
            Self::law_not_negates(f, trace, u);
        }
    }

    /// `Until` and `Release` are duals on one trace: each holds exactly where
    /// the other fails on the negated operands.
    pub proof fn law_until_release_dual(
        l: SyntaxTree,
        r: SyntaxTree,
        trace: Seq<Seq<bool>>,
        t: int,
    )
        ensures
            SyntaxTree::Until(Arc::new(l), Arc::new(r)).holds(trace, t) == !SyntaxTree::Release(
                Arc::new(SyntaxTree::Not(Arc::new(l))),
                Arc::new(SyntaxTree::Not(Arc::new(r))),
            ).holds(trace, t),
            SyntaxTree::Release(Arc::new(l), Arc::new(r)).holds(trace, t) == !SyntaxTree::Until(
                Arc::new(SyntaxTree::Not(Arc::new(l))),
                Arc::new(SyntaxTree::Not(Arc::new(r))),
            ).holds(trace, t),
    {
        let not_l = SyntaxTree::Not(Arc::new(l));
        let not_r = SyntaxTree::Not(Arc::new(r));
        Self::lemma_paired(SyntaxTree::Until(Arc::new(l), Arc::new(r)), trace, t);
        Self::lemma_paired(SyntaxTree::Release(Arc::new(l), Arc::new(r)), trace, t);
        Self::lemma_paired(SyntaxTree::Until(Arc::new(not_l), Arc::new(not_r)), trace, t);
        Self::lemma_paired(SyntaxTree::Release(Arc::new(not_l), Arc::new(not_r)), trace, t);
        assert forall|u: int| not_l.holds(trace, u) == !l.holds(trace, u) by {
            Self::law_not_negates(l, trace, u);
        }
        assert forall|u: int| not_r.holds(trace, u) == !r.holds(trace, u) by {
            Self::law_not_negates(r, trace, u);
        }
    }

    /// `Until` and `Release` at `from`, said over their operands.
    pub proof fn lemma_paired(f: SyntaxTree, trace: Seq<Seq<bool>>, from: int)
        ensures
            f is Until ==> f.holds(trace, from) == (exists|u: int|
                from <= #[trigger] instant(u) < trace.len() && f.right().holds(trace, u)
                    && forall|v: int|
                    from <= #[trigger] earlier(v) < u ==> f.left().holds(trace, v)),
            f is Release ==> f.holds(trace, from) == (forall|u: int|
                from <= #[trigger] instant(u) < trace.len() ==> f.right().holds(trace, u)
                    || exists|v: int|
                    from <= #[trigger] earlier(v) < u && f.left().holds(trace, v)),
    {
        reveal(SyntaxTree::holds);
    }

    /// The number of leaves of the formula, where a `usize` holds it. With
    /// shared subtrees a formula can have more leaves than that.
    pub fn leaf_count(&self) -> (r: Option<usize>)
        ensures
            r == if self.size() <= usize::MAX {
                Some(self.size() as usize)
            } else {
                None
            },
        decreases self,
    {
        match self {
            SyntaxTree::Atom(_) => Some(1),
            SyntaxTree::Not(branch)
            | SyntaxTree::Next(branch)
            | SyntaxTree::Globally(branch)
            | SyntaxTree::Finally(branch) => branch.leaf_count(),
            SyntaxTree::And(left_branch, right_branch)
            | SyntaxTree::Or(left_branch, right_branch)
            | SyntaxTree::Implies(left_branch, right_branch)
            | SyntaxTree::Until(left_branch, right_branch)
            | SyntaxTree::Release(left_branch, right_branch) => {
                match (left_branch.leaf_count(), right_branch.leaf_count()) {
                    (Some(left), Some(right)) => left.checked_add(right),
                    _ => None,
                }
            },
        }
    }

    /// A copy of the root node that shares the subtrees.
    pub fn duplicate(&self) -> (r: SyntaxTree)
        ensures
            r == *self,
    {
        match self {
            SyntaxTree::Atom(n) => SyntaxTree::Atom(*n),
            SyntaxTree::Not(branch) => SyntaxTree::Not(share(branch)),
            SyntaxTree::Next(branch) => SyntaxTree::Next(share(branch)),
            SyntaxTree::Globally(branch) => SyntaxTree::Globally(share(branch)),
            SyntaxTree::Finally(branch) => SyntaxTree::Finally(share(branch)),
            SyntaxTree::And(left_branch, right_branch) => SyntaxTree::And(
                share(left_branch),
                share(right_branch),
            ),
            SyntaxTree::Or(left_branch, right_branch) => SyntaxTree::Or(
                share(left_branch),
                share(right_branch),
            ),
            SyntaxTree::Implies(left_branch, right_branch) => SyntaxTree::Implies(
                share(left_branch),
                share(right_branch),
            ),
            SyntaxTree::Until(left_branch, right_branch) => SyntaxTree::Until(
                share(left_branch),
                share(right_branch),
            ),
            SyntaxTree::Release(left_branch, right_branch) => SyntaxTree::Release(
                share(left_branch),
                share(right_branch),
            ),
        }
    }

    /// Returns the highest propositional variable index appearing in the formula, plus 1.
    /// Used to count how many variables are needed to interpret the formula.
    pub fn vars(&self) -> (r: usize)
        ensures
            r == self.width(),
            1 <= r <= 256,
        decreases self,
    {
        match self {
            SyntaxTree::Atom(n) => {
                let index: usize = *n as usize;
                index + 1
            },
            SyntaxTree::Not(branch)
            | SyntaxTree::Next(branch)
            | SyntaxTree::Globally(branch)
            | SyntaxTree::Finally(branch) => branch.vars(),
            SyntaxTree::And(left_branch, right_branch)
            | SyntaxTree::Or(left_branch, right_branch)
            | SyntaxTree::Implies(left_branch, right_branch)
            | SyntaxTree::Until(left_branch, right_branch)
            | SyntaxTree::Release(left_branch, right_branch) => {
                let left: usize = left_branch.vars();
                let right: usize = right_branch.vars();
                if left >= right {
                    left
                } else {
                    right
                }
            },
        }
    }

    /// Evaluate a formula on a trace, at its first instant.
    pub fn eval<const N: usize>(&self, trace: &[[bool; N]]) -> (r: bool)
        requires
            trace@.len() > 0,
            self.width() <= N,
        ensures
            r == self.holds(valuations(trace@), 0),
    {
        self.eval_at_time(trace, 0)
    }

    /// Evaluate a formula on a trace at the given instant.
    pub fn eval_at_time<const N: usize>(&self, trace: &[[bool; N]], time: usize) -> (r: bool)
        requires
            time < trace@.len(),
            self.width() <= N,
        ensures
            r == self.holds(valuations(trace@), time as int),
        decreases self,
    {
        let ghost model = valuations(trace@);
        assert(model.len() == trace@.len());
        match self {
            SyntaxTree::Atom(var) => {
                broadcast use vstd::array::group_array_axioms;

                proof {
                    reveal(SyntaxTree::holds);
                }
                assert(model[time as int] == trace@[time as int]@);
                trace[time][*var as usize]
            },
            SyntaxTree::Not(branch) => {
                proof {
                    reveal(SyntaxTree::holds);
                }
                !branch.eval_at_time(trace, time)
            },
            SyntaxTree::Next(branch) => {
                proof {
                    reveal(SyntaxTree::holds);
                }
                let len: usize = trace.len();
                time < len - 1 && branch.eval_at_time(trace, time + 1)
            },
            // Globally and Finally scan the window from its end: the later
            // instants see a shorter suffix and are decided sooner.
            SyntaxTree::Globally(branch) => {
                let mut t: usize = trace.len();
                while t > time
                    invariant
                        decreases_to!(self => branch),
                        *self == SyntaxTree::Globally(*branch),
                        time <= t <= trace@.len(),
                        branch.width() <= N,
                        model == valuations(trace@),
                        model.len() == trace@.len(),
                        forall|u: int|
                            t <= #[trigger] instant(u) < model.len() ==> branch.holds(model, u),
                    decreases t,
                {
                    t = t - 1;
                    if !branch.eval_at_time(trace, t) {
                        proof {
                            Self::lemma_window(*self, model, time as int);
                            assert(instant(t as int) == t);
                        }
                        return false;
                    }
                }
                proof {
                    Self::lemma_window(*self, model, time as int);
                }
                true
            },
            SyntaxTree::Finally(branch) => {
                let mut t: usize = trace.len();
                while t > time
                    invariant
                        decreases_to!(self => branch),
                        *self == SyntaxTree::Finally(*branch),
                        time <= t <= trace@.len(),
                        branch.width() <= N,
                        model == valuations(trace@),
                        model.len() == trace@.len(),
                        forall|u: int|
                            t <= #[trigger] instant(u) < model.len() ==> !branch.holds(model, u),
                    decreases t,
                {
                    t = t - 1;
                    if branch.eval_at_time(trace, t) {
                        proof {
                            Self::lemma_window(*self, model, time as int);
                            assert(instant(t as int) == t);
                        }
                        return true;
                    }
                }
                proof {
                    Self::lemma_window(*self, model, time as int);
                }
                false
            },
            SyntaxTree::And(left_branch, right_branch) => {
                proof {
                    reveal(SyntaxTree::holds);
                }
                left_branch.eval_at_time(trace, time) && right_branch.eval_at_time(trace, time)
            },
            SyntaxTree::Or(left_branch, right_branch) => {
                proof {
                    reveal(SyntaxTree::holds);
                }
                left_branch.eval_at_time(trace, time) || right_branch.eval_at_time(trace, time)
            },
            SyntaxTree::Implies(left_branch, right_branch) => {
                proof {
                    reveal(SyntaxTree::holds);
                }
                !left_branch.eval_at_time(trace, time) || right_branch.eval_at_time(trace, time)
            },
            SyntaxTree::Until(left_branch, right_branch) => {
                let mut t: usize = time;
                while t < trace.len()
                    invariant
                        decreases_to!(self => left_branch),
                        decreases_to!(self => right_branch),
                        *self == SyntaxTree::Until(*left_branch, *right_branch),
                        time <= t <= trace@.len(),
                        left_branch.width() <= N,
                        right_branch.width() <= N,
                        model == valuations(trace@),
                        model.len() == trace@.len(),
                        Self::stretch(**left_branch, **right_branch, model, time as int, t as int),
                    decreases trace@.len() - t,
                {
                    if right_branch.eval_at_time(trace, t) {
                        proof {
                            Self::lemma_until_met(*self, model, time as int, t as int);
                        }
                        return true;
                    } else if !left_branch.eval_at_time(trace, t) {
                        proof {
                            Self::lemma_until_lost(*self, model, time as int, t as int);
                        }
                        return false;
                    }
                    proof {
                        let ghost kept = **left_branch;
                        let ghost awaited = **right_branch;
                        Self::lemma_stretch_grows(kept, awaited, model,
                            time as int,
                            t as int,
                        );
                    }
                    t = t + 1;
                }
                proof {
                    Self::lemma_until_lost(*self, model, time as int, t as int);
                }
                // (Strong) Until is not satisfied if its right-hand-side argument
                // never becomes true.
                false
            },
            SyntaxTree::Release(left_branch, right_branch) => {
                let mut t: usize = time;
                while t < trace.len()
                    invariant
                        decreases_to!(self => left_branch),
                        decreases_to!(self => right_branch),
                        *self == SyntaxTree::Release(*left_branch, *right_branch),
                        time <= t <= trace@.len(),
                        left_branch.width() <= N,
                        right_branch.width() <= N,
                        model == valuations(trace@),
                        model.len() == trace@.len(),
                        Self::stretch(**right_branch, **left_branch, model, time as int, t as int),
                    decreases trace@.len() - t,
                {
                    if !right_branch.eval_at_time(trace, t) {
                        proof {
                            Self::lemma_release_lost(*self, model, time as int, t as int);
                        }
                        return false;
                    } else if left_branch.eval_at_time(trace, t) {
                        proof {
                            Self::lemma_release_met(*self, model, time as int, t as int);
                        }
                        return true;
                    }
                    proof {
                        let ghost kept = **right_branch;
                        let ghost awaited = **left_branch;
                        Self::lemma_stretch_grows(kept, awaited, model,
                            time as int,
                            t as int,
                        );
                    }
                    t = t + 1;
                }
                proof {
                    Self::lemma_release_met(*self, model, time as int, t as int);
                }
                // Release holds where its right-hand side holds to the end of the trace.
                true
            },
        }
    }
}

} // verus!
