//! Enumeration of candidate formulae by size and the search for one that
//! agrees with a sample.

use crate::prune::{
    check_and, check_finally, check_globally, check_implies, check_next, check_not, check_or,
    check_release, check_until,
};
use crate::prune::{
    and_admitted, finally_admitted, globally_admitted, implies_admitted, kept, next_admitted,
    not_admitted, or_admitted, release_admitted, until_admitted,
};
use crate::prune::{
    binary_candidates, lemma_binary_candidates, lemma_unary_candidates, unary_candidates,
};
use crate::lists::{
    arc_pairs, concat_all, lemma_concat_all_bound, lemma_concat_all_index, lemma_concat_all_place,
    lemma_concat_all_step, lemma_pair_places, lemma_pairs_unshared, pairs, share, share_all,
    unshared,
};
use crate::syntax::{Idx, SyntaxTree};
use crate::trace::Sample;
use rayon::iter::{IntoParallelIterator, ParallelIterator};
use std::sync::Arc;
use vstd::prelude::*;

verus! {

/// A tree structure with unary and binary nodes, but containing no data.
#[derive(Debug, Clone)]
pub enum SkeletonTree {
    Leaf,
    UnaryNode(Arc<SkeletonTree>),
    BinaryNode(Arc<(SkeletonTree, SkeletonTree)>),
}

/// Every index of the list is below `bound`.
pub open spec fn atoms_below(atoms: Seq<Idx>, bound: nat) -> bool {
    forall|i: int| 0 <= i < atoms.len() ==> (#[trigger] atoms[i]) < bound
}

/// The formula has the shape of the skeleton: an atom at each leaf, a unary
/// operator at each unary node and a binary one at each binary node.
pub open spec fn fits(f: SyntaxTree, t: SkeletonTree) -> bool
    decreases t,
{
    match t {
        SkeletonTree::Leaf => f is Atom,
        SkeletonTree::UnaryNode(child) => 1 <= f.rank() <= 4 && fits(f.left(), *child),
        SkeletonTree::BinaryNode(children) => 5 <= f.rank() && fits(f.left(), children.0) && fits(
            f.right(),
            children.1,
        ),
    }
}

/// The formulae of a list of skeletons, skeleton after skeleton.
pub open spec fn formulae_of(list: Seq<SkeletonTree>, atoms: Seq<Idx>) -> Seq<SyntaxTree> {
    concat_all(list.map_values(|t: SkeletonTree| t.formulae(atoms)))
}

/// The candidates of a size: the formulae of its skeletons.
pub open spec fn candidates(size: nat, atoms: Seq<Idx>) -> Seq<SyntaxTree> {
    formulae_of(skeletons(size), atoms)
}

/// Puts a formula behind a list, behind a handle of its own.
fn put(trees: &mut Vec<Arc<SyntaxTree>>, formula: SyntaxTree)
    ensures
        unshared(final(trees)@) == unshared(old(trees)@).push(formula),
{
    let ghost before = unshared(trees@);
    trees.push(Arc::new(formula));
    assert(unshared(trees@) =~= before.push(formula));
}

/// Puts behind a list what the unary operators give over `child`.
fn put_unary(trees: &mut Vec<Arc<SyntaxTree>>, child: &Arc<SyntaxTree>)
    ensures
        unshared(final(trees)@) == unshared(old(trees)@) + unary_candidates(**child),
{
    let ghost before = unshared(trees@);
    if check_not(child) {
        put(trees, SyntaxTree::Not(share(child)));
    }
    let ghost with_not = unshared(trees@);
    assert(with_not =~= before + kept(not_admitted(**child), SyntaxTree::Not(*child)));
    if check_next(child) {
        put(trees, SyntaxTree::Next(share(child)));
    }
    let ghost with_next = unshared(trees@);
    assert(with_next =~= with_not + kept(next_admitted(**child), SyntaxTree::Next(*child)));
    if check_globally(child) {
        put(trees, SyntaxTree::Globally(share(child)));
    }
    let ghost with_globally = unshared(trees@);
    assert(with_globally =~= with_next + kept(
        globally_admitted(**child),
        SyntaxTree::Globally(*child),
    ));
    if check_finally(child) {
        put(trees, SyntaxTree::Finally(share(child)));
    }
    assert(unshared(trees@) =~= with_globally + kept(
        finally_admitted(**child),
        SyntaxTree::Finally(*child),
    ));
}

/// Puts behind a list what the binary operators give over the two children.
fn put_binary(
    trees: &mut Vec<Arc<SyntaxTree>>,
    left_child: &Arc<SyntaxTree>,
    right_child: &Arc<SyntaxTree>,
)
    ensures
        unshared(final(trees)@) == unshared(old(trees)@) + binary_candidates(
            **left_child,
            **right_child,
        ),
{
    let ghost before = unshared(trees@);
    if check_and(left_child, right_child) {
        put(trees, SyntaxTree::And(share(left_child), share(right_child)));
    }
    let ghost with_and = unshared(trees@);
    assert(with_and =~= before + kept(
        and_admitted(**left_child, **right_child),
        SyntaxTree::And(*left_child, *right_child),
    ));
    if check_or(left_child, right_child) {
        put(trees, SyntaxTree::Or(share(left_child), share(right_child)));
    }
    let ghost with_or = unshared(trees@);
    assert(with_or =~= with_and + kept(
        or_admitted(**left_child, **right_child),
        SyntaxTree::Or(*left_child, *right_child),
    ));
    if check_implies(left_child, right_child) {
        put(trees, SyntaxTree::Implies(share(left_child), share(right_child)));
    }
    let ghost with_implies = unshared(trees@);
    assert(with_implies =~= with_or + kept(
        implies_admitted(**left_child, **right_child),
        SyntaxTree::Implies(*left_child, *right_child),
    ));
    if check_until(left_child, right_child) {
        put(trees, SyntaxTree::Until(share(left_child), share(right_child)));
    }
    let ghost with_until = unshared(trees@);
    assert(with_until =~= with_implies + kept(
        until_admitted(**left_child, **right_child),
        SyntaxTree::Until(*left_child, *right_child),
    ));
    if check_release(left_child, right_child) {
        put(trees, SyntaxTree::Release(share(left_child), share(right_child)));
    }
    assert(unshared(trees@) =~= with_until + kept(
        release_admitted(**left_child, **right_child),
        SyntaxTree::Release(*left_child, *right_child),
    ));
}

/// The skeletons of a size: the one leaf for size 1; for a larger size a
/// unary node over each skeleton of the size below, then the binary nodes
/// over each split of the size in two.
pub open spec fn skeletons(size: nat) -> Seq<SkeletonTree>
    decreases size, size,
{
    if size <= 1 {
        seq![SkeletonTree::Leaf]
    } else {
        skeletons((size - 1) as nat).map_values(
            |t: SkeletonTree| SkeletonTree::UnaryNode(Arc::new(t)),
        ) + splits(size, (size - 1) as nat)
    }
}

/// The binary skeletons of a size whose left part has a size of at most `upto`,
/// by rising size of the left part.
pub open spec fn splits(size: nat, upto: nat) -> Seq<SkeletonTree>
    decreases size, upto,
{
    if upto == 0 || upto >= size {
        Seq::empty()
    } else {
        splits(size, (upto - 1) as nat) + grafts(
            pairs(skeletons(upto), skeletons((size - upto) as nat)),
        )
    }
}

/// A binary node over each pair of skeletons.
pub open spec fn grafts(parts: Seq<(SkeletonTree, SkeletonTree)>) -> Seq<SkeletonTree> {
    parts.map_values(
        |p: (SkeletonTree, SkeletonTree)| SkeletonTree::BinaryNode(Arc::new(p)),
    )
}

impl SkeletonTree {
    /// The left part of a binary node, the child of a unary node.
    pub open spec fn left(self) -> SkeletonTree {
        match self {
            SkeletonTree::Leaf => self,
            SkeletonTree::UnaryNode(child) => *child,
            SkeletonTree::BinaryNode(children) => children.0,
        }
    }

    /// The right part of a binary node.
    pub open spec fn right(self) -> SkeletonTree {
        match self {
            SkeletonTree::BinaryNode(children) => children.1,
            _ => self,
        }
    }

    /// The number of leaves.
    pub open spec fn leaves(self) -> nat
        decreases self,
    {
        match self {
            SkeletonTree::Leaf => 1,
            SkeletonTree::UnaryNode(child) => child.leaves(),
            SkeletonTree::BinaryNode(children) => children.0.leaves() + children.1.leaves(),
        }
    }

    /// The number of unary nodes.
    pub open spec fn unaries(self) -> nat
        decreases self,
    {
        match self {
            SkeletonTree::Leaf => 0,
            SkeletonTree::UnaryNode(child) => child.unaries() + 1,
            SkeletonTree::BinaryNode(children) => children.0.unaries() + children.1.unaries(),
        }
    }

    /// The formulae that fit the skeleton, over the given variables and
    /// without those that a filter refuses: an atom for each variable at a
    /// leaf; at a unary node what the unary operators give over each formula
    /// of the child; at a binary node what the binary operators give over
    /// each pair of a formula of the left child and one of the right child.
    pub open spec fn formulae(self, atoms: Seq<Idx>) -> Seq<SyntaxTree>
        decreases self,
    {
        match self {
            SkeletonTree::Leaf => atoms.map_values(|i: Idx| SyntaxTree::Atom(i)),
            SkeletonTree::UnaryNode(child) => concat_all(
                child.formulae(atoms).map_values(|f: SyntaxTree| unary_candidates(f)),
            ),
            SkeletonTree::BinaryNode(children) => concat_all(
                pairs(children.0.formulae(atoms), children.1.formulae(atoms)).map_values(
                    |p: (SyntaxTree, SyntaxTree)| binary_candidates(p.0, p.1),
                ),
            ),
        }
    }

    /// Each formula of a skeleton has its shape, and names no variable but
    /// the given ones.
    pub proof fn lemma_formulae_fit(self, atoms: Seq<Idx>, bound: nat, k: int)
        requires
            0 <= k < self.formulae(atoms).len(),
        ensures
            fits(self.formulae(atoms)[k], self),
            atoms_below(atoms, bound) ==> self.formulae(atoms)[k].width() <= bound,
        decreases self,
    {
        if self is UnaryNode {
            let below = self.left().formulae(atoms);
            let parts = below.map_values(|f: SyntaxTree| unary_candidates(f));
            let at = lemma_concat_all_place(parts, k);
            self.left().lemma_formulae_fit(atoms, bound, at.0);
            lemma_unary_candidates(below[at.0], at.1);
        } else if self is BinaryNode {
            let lefts = self.left().formulae(atoms);
            let rights = self.right().formulae(atoms);
            let parts = pairs(lefts, rights).map_values(
                |p: (SyntaxTree, SyntaxTree)| binary_candidates(p.0, p.1),
            );
            let at = lemma_concat_all_place(parts, k);
            lemma_pair_places(lefts.len(), rights.len(), at.0);
            self.left().lemma_formulae_fit(atoms, bound, at.0 / (rights.len() as int));
            self.right().lemma_formulae_fit(atoms, bound, at.0 % (rights.len() as int));
            lemma_binary_candidates(
                pairs(lefts, rights)[at.0].0,
                pairs(lefts, rights)[at.0].1,
                at.1,
            );
        }
    }

    /// A copy of the root node that shares the subtrees.
    fn duplicate(&self) -> (r: SkeletonTree)
        ensures
            r == *self,
    {
        match self {
            SkeletonTree::Leaf => SkeletonTree::Leaf,
            SkeletonTree::UnaryNode(child) => SkeletonTree::UnaryNode(share(child)),
            SkeletonTree::BinaryNode(children) => SkeletonTree::BinaryNode(share(children)),
        }
    }

    /// The formulae of the skeleton, behind handles that their parents share.
    fn expand(&self, atoms: &[Idx]) -> (r: Vec<Arc<SyntaxTree>>)
        ensures
            unshared(r@) == self.formulae(atoms@),
        decreases self,
    {
        let mut trees: Vec<Arc<SyntaxTree>> = Vec::new();
        match self {
            // Leaves of the `SkeletonTree` correspond to propositional variables
            SkeletonTree::Leaf => {
                let ghost all = atoms@.map_values(|i: Idx| SyntaxTree::Atom(i));
                let mut i: usize = 0;
                while i < atoms.len()
                    invariant
                        i <= atoms@.len(),
                        all == atoms@.map_values(|i: Idx| SyntaxTree::Atom(i)),
                        unshared(trees@) =~= all.take(i as int),
                    decreases atoms@.len() - i,
                {
                    let ghost before = unshared(trees@);
                    trees.push(Arc::new(SyntaxTree::Atom(atoms[i])));
                    assert(unshared(trees@) =~= before.push(all[i as int]));
                    i = i + 1;
                }
                assert(all.take(i as int) =~= all);
            },
            // Unary nodes of the `SkeletonTree` correspond to unary operators of LTL
            SkeletonTree::UnaryNode(child) => {
                let children = child.expand(atoms);
                let ghost below = self.left().formulae(atoms@);
                let ghost parts = below.map_values(|f: SyntaxTree| unary_candidates(f));
                let mut k: usize = 0;
                while k < children.len()
                    invariant
                        k <= children@.len(),
                        unshared(children@) == below,
                        parts == below.map_values(|f: SyntaxTree| unary_candidates(f)),
                        unshared(trees@) =~= concat_all(parts.take(k as int)),
                    decreases children@.len() - k,
                {
                    let ghost before = unshared(trees@);
                    let ghost f = unshared(children@)[k as int];
                    put_unary(&mut trees, &children[k]);
                    proof {
                        lemma_concat_all_step(parts, k as int);
                        assert(unshared(trees@) =~= before + unary_candidates(f));
                    }
                    k = k + 1;
                }
                assert(parts.take(k as int) =~= parts);
            },
            // Binary nodes of the `SkeletonTree` correspond to binary operators of LTL
            SkeletonTree::BinaryNode(children) => {
                let left_children = children.0.expand(atoms);
                let right_children = children.1.expand(atoms);
                let ghost lefts = self.left().formulae(atoms@);
                let ghost rights = self.right().formulae(atoms@);
                let ghost parts = pairs(lefts, rights).map_values(
                    |p: (SyntaxTree, SyntaxTree)| binary_candidates(p.0, p.1),
                );
                proof {
                    lemma_pairs_unshared(left_children@, right_children@);
                }
                let branches = arc_pairs(left_children, right_children);
                let mut k: usize = 0;
                while k < branches.len()
                    invariant
                        k <= branches@.len(),
                        branches@.len() == pairs(lefts, rights).len(),
                        forall|j: int|
                            0 <= j < branches@.len() ==> *(#[trigger] branches@[j]).0 == pairs(
                                lefts,
                                rights,
                            )[j].0 && *branches@[j].1 == pairs(lefts, rights)[j].1,
                        parts == pairs(lefts, rights).map_values(
                            |p: (SyntaxTree, SyntaxTree)| binary_candidates(p.0, p.1),
                        ),
                        unshared(trees@) =~= concat_all(parts.take(k as int)),
                    decreases branches@.len() - k,
                {
                    let ghost l = pairs(lefts, rights)[k as int].0;
                    let ghost r = pairs(lefts, rights)[k as int].1;
                    let ghost before = unshared(trees@);
                    put_binary(&mut trees, &branches[k].0, &branches[k].1);
                    proof {
                        lemma_concat_all_step(parts, k as int);
                        assert(unshared(trees@) =~= before + binary_candidates(l, r));
                    }
                    k = k + 1;
                }
                assert(parts.take(k as int) =~= parts);
            },
        }
        trees
    }

    /// Generates all possible LTL formulae whose structure fits that of the `SkeletonTree`,
    /// in the sense that leaves of the `SkeletonTree` correspond to propositional variables,
    /// unary nodes of the `SkeletonTree` correspond to unary operators of LTL,
    /// and binary nodes of the `SkeletonTree` correspond to binary operators of LTL.
    /// A formula that a filter finds to say the same as another one, which is
    /// among the formulae anyway, is left out.
    /// The const generic N is the number of propositional variables of the
    /// valuations that the formulae are meant for.
    pub fn gen_formulae<const N: usize>(&self, vars: &[Idx]) -> (r: Vec<SyntaxTree>)
        ensures
            r@ == self.formulae(vars@),
            atoms_below(vars@, N as nat) ==> forall|k: int|
                0 <= k < r@.len() ==> (#[trigger] r@[k]).width() <= N,
    {
        let shared = self.expand(vars);
        let mut trees: Vec<SyntaxTree> = Vec::new();
        let mut k: usize = 0;
        while k < shared.len()
            invariant
                k <= shared@.len(),
                trees@ =~= unshared(shared@).take(k as int),
            decreases shared@.len() - k,
        {
            trees.push(shared[k].duplicate());
            k = k + 1;
        }
        assert(unshared(shared@).take(k as int) =~= unshared(shared@));
        proof {
            assert forall|k: int| 0 <= k < trees@.len() && atoms_below(
                vars@,
                N as nat,
            ) implies (#[trigger] trees@[k]).width() <= N by {
                self.lemma_formulae_fit(vars@, N as nat, k);
            }
        }
        trees
    }

    /// Puts a unary node over each of the given skeletons behind `found`.
    fn graft_unary(found: &mut Vec<Arc<SkeletonTree>>, smaller: &Vec<Arc<SkeletonTree>>)
        ensures
            unshared(final(found)@) == unshared(old(found)@) + unshared(smaller@).map_values(
                |t: SkeletonTree| SkeletonTree::UnaryNode(Arc::new(t)),
            ),
    {
        let ghost before = unshared(found@);
        let ghost unary_part = unshared(smaller@).map_values(
            |t: SkeletonTree| SkeletonTree::UnaryNode(Arc::new(t)),
        );
        let mut k: usize = 0;
        while k < smaller.len()
            invariant
                k <= smaller@.len(),
                unary_part == unshared(smaller@).map_values(
                    |t: SkeletonTree| SkeletonTree::UnaryNode(Arc::new(t)),
                ),
                unshared(found@) =~= before + unary_part.take(k as int),
            decreases smaller@.len() - k,
        {
            let ghost so_far = unshared(found@);
            let branch = share(&smaller[k]);
            assert(*branch == unshared(smaller@)[k as int]);
            found.push(Arc::new(SkeletonTree::UnaryNode(branch)));
            assert(unshared(found@) =~= so_far.push(unary_part[k as int]));
            k = k + 1;
        }
        assert(unary_part.take(k as int) =~= unary_part);
    }

    /// Puts a binary node over each pair of a skeleton of `lefts` and one of
    /// `rights` behind `found`. A node holds a copy of the root of each part;
    /// what lies below the roots is shared with the two lists.
    fn graft_binary(
        found: &mut Vec<Arc<SkeletonTree>>,
        lefts: &Vec<Arc<SkeletonTree>>,
        rights: &Vec<Arc<SkeletonTree>>,
    )
        ensures
            unshared(final(found)@) == unshared(old(found)@) + grafts(
                pairs(unshared(lefts@), unshared(rights@)),
            ),
    {
        let ghost before = unshared(found@);
        let ghost parts = pairs(unshared(lefts@), unshared(rights@));
        let left_handles = share_all(lefts);
        let right_handles = share_all(rights);
        proof {
            lemma_pairs_unshared(left_handles@, right_handles@);
        }
        let branches = arc_pairs(left_handles, right_handles);
        let mut j: usize = 0;
        while j < branches.len()
            invariant
                j <= branches@.len(),
                branches@.len() == parts.len(),
                forall|i: int|
                    0 <= i < branches@.len() ==> *(#[trigger] branches@[i]).0 == parts[i].0
                        && *branches@[i].1 == parts[i].1,
                unshared(found@) =~= before + grafts(parts).take(j as int),
            decreases branches@.len() - j,
        {
            let ghost so_far = unshared(found@);
            let left = branches[j].0.duplicate();
            let right = branches[j].1.duplicate();
            found.push(Arc::new(SkeletonTree::BinaryNode(Arc::new((left, right)))));
            assert(unshared(found@) =~= so_far.push(grafts(parts)[j as int]));
            j = j + 1;
        }
        assert(grafts(parts).take(j as int) =~= grafts(parts));
    }

    /// The skeletons of each size from 1 to `size`, those of size `s` at
    /// place `s - 1`. Each size is made once, from the lists of the smaller
    /// sizes, and its skeletons share their parts with those lists.
    fn gen_table(size: usize) -> (table: Vec<Vec<Arc<SkeletonTree>>>)
        requires
            size >= 1,
        ensures
            table@.len() == size,
            forall|s: int|
                0 <= s < size ==> unshared((#[trigger] table@[s])@) == skeletons((s + 1) as nat),
    {
        let mut table: Vec<Vec<Arc<SkeletonTree>>> = Vec::new();
        let mut leaf: Vec<Arc<SkeletonTree>> = Vec::new();
        leaf.push(Arc::new(SkeletonTree::Leaf));
        assert(unshared(leaf@) =~= skeletons(1));
        table.push(leaf);
        while table.len() < size
            invariant
                1 <= table@.len() <= size,
                forall|s: int|
                    0 <= s < table@.len() ==> unshared((#[trigger] table@[s])@) == skeletons(
                        (s + 1) as nat,
                    ),
            decreases size - table@.len(),
        {
            let current: usize = table.len() + 1;
            let mut found: Vec<Arc<SkeletonTree>> = Vec::new();
            Self::graft_unary(&mut found, &table[current - 2]);
            let ghost unary_part = unshared(found@);
            assert(unary_part =~= skeletons((current - 1) as nat).map_values(
                |t: SkeletonTree| SkeletonTree::UnaryNode(Arc::new(t)),
            ));
            let mut left_size: usize = 1;
            while left_size < current
                invariant
                    1 <= left_size <= current,
                    current == table@.len() + 1,
                    forall|s: int|
                        0 <= s < table@.len() ==> unshared((#[trigger] table@[s])@) == skeletons(
                            (s + 1) as nat,
                        ),
                    unshared(found@) =~= unary_part + splits(
                        current as nat,
                        (left_size - 1) as nat,
                    ),
                decreases current - left_size,
            {
                Self::graft_binary(
                    &mut found,
                    &table[left_size - 1],
                    &table[current - left_size - 1],
                );
                left_size = left_size + 1;
            }
            assert(unshared(found@) =~= skeletons(current as nat));
            table.push(found);
        }
        table
    }

    /// Generates all possible `SkeletonTree`s of the given size, in a fixed
    /// order. A leaf counts one, a unary node one more than what it stands
    /// on, a binary node the sum of its two parts.
    pub fn gen(size: usize) -> (r: Vec<SkeletonTree>)
        requires
            size >= 1,
        ensures
            r@ == skeletons(size as nat),
    {
        let table = Self::gen_table(size);
        let shared = &table[size - 1];
        let mut skeletons_found: Vec<SkeletonTree> = Vec::new();
        let mut k: usize = 0;
        while k < shared.len()
            invariant
                k <= shared@.len(),
                skeletons_found@ =~= unshared(shared@).take(k as int),
            decreases shared@.len() - k,
        {
            skeletons_found.push(shared[k].duplicate());
            k = k + 1;
        }
        assert(unshared(shared@).take(k as int) =~= unshared(shared@));
        skeletons_found
    }
}

/// Generates the candidates of a size: the formulae of each skeleton of the
/// size, skeleton after skeleton.
pub fn gen_formulae<const N: usize>(size: usize, vars: &[Idx]) -> (r: Vec<SyntaxTree>)
    requires
        size >= 1,
    ensures
        r@ == candidates(size as nat, vars@),
        atoms_below(vars@, N as nat) ==> forall|k: int|
            0 <= k < r@.len() ==> (#[trigger] r@[k]).width() <= N,
{
    let skeletons_found = SkeletonTree::gen(size);
    let ghost parts = skeletons(size as nat).map_values(|t: SkeletonTree| t.formulae(vars@));
    let mut trees: Vec<SyntaxTree> = Vec::new();
    let mut i: usize = 0;
    while i < skeletons_found.len()
        invariant
            i <= skeletons_found@.len(),
            skeletons_found@ == skeletons(size as nat),
            parts == skeletons(size as nat).map_values(|t: SkeletonTree| t.formulae(vars@)),
            trees@ =~= concat_all(parts.take(i as int)),
            atoms_below(vars@, N as nat) ==> forall|k: int|
                0 <= k < trees@.len() ==> (#[trigger] trees@[k]).width() <= N,
        decreases skeletons_found@.len() - i,
    {
        let mut formulae = skeletons_found[i].gen_formulae::<N>(vars);
        proof {
            lemma_concat_all_step(parts, i as int);
        }
        trees.append(&mut formulae);
        i = i + 1;
    }
    assert(parts.take(i as int) =~= parts);
    trees
}

/// Why a search came back without a formula.
#[derive(Debug, Clone, Copy, PartialEq, Eq)]
pub enum SearchError {
    /// A trace of the sample is labelled both ways: no formula agrees with it.
    Unsolvable,
    /// No candidate up to the largest size asked for agrees with the sample.
    Exhausted,
}

/// From this size on the candidates of a size are tried in parallel.
pub const PARALLEL_THRESHOLD: usize = 6;

/// No candidate of the size agrees with the sample.
pub open spec fn none_consistent<const N: usize>(
    sample: Sample<N>,
    atoms: Seq<Idx>,
    size: nat,
) -> bool {
    forall|k: int|
        0 <= k < candidates(size, atoms).len() ==> !sample.consistent(
            #[trigger] candidates(size, atoms)[k],
        )
}

/// `f` is a candidate of the size that agrees with the sample.
pub open spec fn found_at<const N: usize>(
    sample: Sample<N>,
    atoms: Seq<Idx>,
    size: nat,
    f: SyntaxTree,
) -> bool {
    candidates(size, atoms).contains(f) && sample.consistent(f)
}

/// `f` is the first candidate of the size that agrees with the sample.
pub open spec fn first_at<const N: usize>(
    sample: Sample<N>,
    atoms: Seq<Idx>,
    size: nat,
    f: SyntaxTree,
) -> bool {
    exists|k: int|
        0 <= k < candidates(size, atoms).len() && #[trigger] candidates(size, atoms)[k] == f
            && sample.consistent(f) && forall|j: int|
            0 <= j < k ==> !sample.consistent(#[trigger] candidates(size, atoms)[j])
}

/// Some formula of the given skeletons that agrees with the sample, found by
/// a pool of threads.
///
/// Calls rayon's `into_par_iter`, `flat_map` and `find_any`: the skeletons are
/// handed out to the threads, each skeleton gives its formulae, and
/// `find_any` returns some item that meets the test, not always the first
/// one, or `None` where no item meets it.
#[verifier::external_body]
fn find_any_consistent<const N: usize>(
    sample: &Sample<N>,
    skeletons_found: Vec<SkeletonTree>,
    atoms: &Vec<Idx>,
) -> (r: Option<SyntaxTree>)
    requires
        sample.wf(),
        atoms_below(atoms@, N as nat),
    ensures
        match r {
            Some(f) => formulae_of(skeletons_found@, atoms@).contains(f) && sample.consistent(f),
            None => forall|k: int|
                0 <= k < formulae_of(skeletons_found@, atoms@).len() ==> !sample.consistent(
                    #[trigger] formulae_of(skeletons_found@, atoms@)[k],
                ),
        },
{
    skeletons_found.into_par_iter().flat_map(
        |skeleton| skeleton.gen_formulae::<N>(atoms.as_slice()),
    ).find_any(|formula| sample.is_consistent(formula))
}

/// Searches the candidates of one size for a formula that agrees with the
/// sample. One after the other they are tried in the order of enumeration
/// and the first that agrees is returned; in parallel any that agrees is.
pub fn search_size<const N: usize>(
    sample: &Sample<N>,
    atoms: &Vec<Idx>,
    size: usize,
    parallel: bool,
) -> (r: Option<SyntaxTree>)
    requires
        sample.wf(),
        atoms_below(atoms@, N as nat),
        size >= 1,
    ensures
        match r {
            Some(f) => found_at(*sample, atoms@, size as nat, f) && (!parallel ==> first_at(
                *sample,
                atoms@,
                size as nat,
                f,
            )),
            None => none_consistent(*sample, atoms@, size as nat),
        },
{
    let skeletons_found = SkeletonTree::gen(size);
    if parallel {
        return find_any_consistent(sample, skeletons_found, atoms);
    }
    let ghost parts = skeletons(size as nat).map_values(|t: SkeletonTree| t.formulae(atoms@));
    let ghost all = candidates(size as nat, atoms@);
    let mut i: usize = 0;
    while i < skeletons_found.len()
        invariant
            sample.wf(),
            atoms_below(atoms@, N as nat),
            i <= skeletons_found@.len(),
            skeletons_found@ == skeletons(size as nat),
            parts == skeletons(size as nat).map_values(|t: SkeletonTree| t.formulae(atoms@)),
            all == concat_all(parts),
            concat_all(parts.take(i as int)).len() <= all.len(),
            forall|k: int|
                0 <= k < concat_all(parts.take(i as int)).len() ==> !sample.consistent(
                    #[trigger] all[k],
                ),
        decreases skeletons_found@.len() - i,
    {
        let mut formulae = skeletons_found[i].gen_formulae::<N>(atoms.as_slice());
        let ghost tried = concat_all(parts.take(i as int)).len();
        let ghost part = parts[i as int];
        let mut j: usize = 0;
        while j < formulae.len()
            invariant
                sample.wf(),
                j <= formulae@.len(),
                0 <= i < parts.len(),
                formulae@ == part,
                part == parts[i as int],
                all == concat_all(parts),
                tried == concat_all(parts.take(i as int)).len(),
                tried <= all.len(),
                forall|k: int| 0 <= k < formulae@.len() ==> (#[trigger] formulae@[k]).width() <= N,
                all == candidates(size as nat, atoms@),
                forall|k: int|
                    0 <= k < tried + j && k < all.len() ==> !sample.consistent(#[trigger] all[k]),
            decreases formulae@.len() - j,
        {
            proof {
                lemma_concat_all_index(parts, i as int, j as int);
            }
            if sample.is_consistent(&formulae[j]) {
                let formula = formulae.swap_remove(j);
                proof {
                    let k = tried + j;
                    assert(all[k] == formula);
                    assert(candidates(size as nat, atoms@)[k] == formula);
                    assert(sample.consistent(formula));
                }
                return Some(formula);
            }
            j = j + 1;
        }
        proof {
            lemma_concat_all_step(parts, i as int);
            if i + 1 < parts.len() {
                lemma_concat_all_bound(parts, i as int + 1);
            } else {
                assert(parts.take(i as int + 1) =~= parts);
            }
        }
        i = i + 1;
    }
    assert(parts.take(i as int) =~= parts);
    None
}

/// Find a formula consistent with the given `Sample`, of a size of at most
/// `max_size`.
///
/// Uses a fundamentally brute-force search algorithm: size after size, from 1
/// up, the candidates of the size are tried, and a formula of the first size
/// that has one agreeing with the sample is returned. Below
/// `PARALLEL_THRESHOLD` the candidates are tried one after the other and the
/// first that agrees is returned; from there on they are tried in parallel,
/// which is faster, and any of them that agrees may be returned.
pub fn par_brute_solve<const N: usize>(sample: &Sample<N>, max_size: usize) -> (r: Result<
    SyntaxTree,
    SearchError,
>)
    requires
        sample.wf(),
    ensures
        match r {
            Ok(f) => sample.solvable() && sample.consistent(f) && exists|size: nat|
                1 <= size <= max_size && #[trigger] found_at(*sample, sample.atoms(), size, f) && (
                size < PARALLEL_THRESHOLD ==> first_at(*sample, sample.atoms(), size, f))
                    && forall|smaller: nat|
                    1 <= smaller < size ==> #[trigger] none_consistent(
                        *sample,
                        sample.atoms(),
                        smaller,
                    ),
            Err(SearchError::Unsolvable) => !sample.solvable(),
            Err(SearchError::Exhausted) => sample.solvable() && forall|size: nat|
                1 <= size <= max_size ==> #[trigger] none_consistent(*sample, sample.atoms(), size),
        },
{
    if !sample.is_solvable() {
        return Err(SearchError::Unsolvable);
    }
    let vars = sample.vars();
    let mut size: usize = 1;
    while size <= max_size
        invariant
            sample.wf(),
            sample.solvable(),
            vars@ == sample.atoms(),
            atoms_below(vars@, N as nat),
            1 <= size,
            forall|smaller: nat|
                1 <= smaller < size ==> #[trigger] none_consistent(
                    *sample,
                    sample.atoms(),
                    smaller,
                ),
        decreases max_size + 1 - size,
    {
        // At small size, the overhead of handing the work out is not worth it.
        match search_size(sample, &vars, size, size >= PARALLEL_THRESHOLD) {
            Some(formula) => {
                assert(found_at(*sample, sample.atoms(), size as nat, formula));
                return Ok(formula);
            },
            None => {},
        }
        if size == max_size {
            return Err(SearchError::Exhausted);
        }
        size = size + 1;
    }
    Err(SearchError::Exhausted)
}

/// The leaves and the unary nodes of a skeleton of a size together make
/// the size.
pub proof fn law_skeleton_size(size: nat, i: int)
    requires
        size >= 1,
        0 <= i < skeletons(size).len(),
    ensures
        skeletons(size)[i].leaves() + skeletons(size)[i].unaries() == size,
    decreases size, size,
{
    if size > 1 {
        let unary_part = skeletons((size - 1) as nat).map_values(
            |t: SkeletonTree| SkeletonTree::UnaryNode(Arc::new(t)),
        );
        if i < unary_part.len() {
            law_skeleton_size((size - 1) as nat, i);
        } else {
            lemma_split_size(size, (size - 1) as nat, i - unary_part.len());
        }
    }
}

/// The two parts of a binary skeleton of a size make the size as well.
proof fn lemma_split_size(size: nat, upto: nat, i: int)
    requires
        0 <= i < splits(size, upto).len(),
    ensures
        splits(size, upto)[i].leaves() + splits(size, upto)[i].unaries() == size,
    decreases size, upto,
{
    let before = splits(size, (upto - 1) as nat);
    if i < before.len() {
        lemma_split_size(size, (upto - 1) as nat, i);
    } else {
        let lefts = skeletons(upto);
        let rights = skeletons((size - upto) as nat);
        let at = i - before.len();
        lemma_pair_places(lefts.len(), rights.len(), at);
        law_skeleton_size(upto, at / (rights.len() as int));
        law_skeleton_size((size - upto) as nat, at % (rights.len() as int));
    }
}

/// A formula that has the shape of a skeleton has as many leaves as it.
pub proof fn lemma_fit_size(f: SyntaxTree, t: SkeletonTree)
    requires
        fits(f, t),
    ensures
        f.size() == t.leaves(),
    decreases t,
{
    if t is UnaryNode {
        lemma_fit_size(f.left(), t.left());
    } else if t is BinaryNode {
        lemma_fit_size(f.left(), t.left());
        lemma_fit_size(f.right(), t.right());
    }
}

/// Every formula that a skeleton of a size gives has the shape of the
/// skeleton and so as many leaves as it. Its leaves are as many as the size
/// where the skeleton has no unary node; each unary node takes one from them.
pub proof fn law_candidate_size(size: nat, i: int, atoms: Seq<Idx>, k: int)
    requires
        size >= 1,
        0 <= i < skeletons(size).len(),
        0 <= k < skeletons(size)[i].formulae(atoms).len(),
    ensures
        fits(skeletons(size)[i].formulae(atoms)[k], skeletons(size)[i]),
        skeletons(size)[i].formulae(atoms)[k].size() + skeletons(size)[i].unaries() == size,
        skeletons(size)[i].unaries() == 0 ==> skeletons(size)[i].formulae(atoms)[k].size() == size,
{
    let t = skeletons(size)[i];
    t.lemma_formulae_fit(atoms, 0, k);
    lemma_fit_size(t.formulae(atoms)[k], t);
    law_skeleton_size(size, i);
}

} // verus!
