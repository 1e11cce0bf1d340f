//! Lists of values behind shared handles, their pairs and their
//! concatenation.

use itertools::Itertools;
use std::sync::Arc;
use vstd::prelude::*;

verus! {

/// Another handle on the same shared value.
///
/// Calls `Arc::clone`, which hands out a second pointer to the allocation of
/// the first: both point at one value.
#[verifier::external_body]
pub(crate) fn share<T>(handle: &Arc<T>) -> (r: Arc<T>)
    ensures
        *r == **handle,
{
    Arc::clone(handle)
}

/// What the handles of a list point at.
pub open spec fn unshared<T>(handles: Seq<Arc<T>>) -> Seq<T> {
    Seq::new(handles.len(), |k: int| *handles[k])
}

/// A second handle on each value of a list.
pub(crate) fn share_all<T>(handles: &Vec<Arc<T>>) -> (r: Vec<Arc<T>>)
    ensures
        unshared(r@) == unshared(handles@),
{
    let mut copies: Vec<Arc<T>> = Vec::new();
    let mut k: usize = 0;
    while k < handles.len()
        invariant
            k <= handles@.len(),
            unshared(copies@) =~= unshared(handles@).take(k as int),
        decreases handles@.len() - k,
    {
        let ghost so_far = unshared(copies@);
        let copy = share(&handles[k]);
        assert(*copy == unshared(handles@)[k as int]);
        copies.push(copy);
        assert(unshared(copies@) =~= so_far.push(unshared(handles@)[k as int]));
        k = k + 1;
    }
    assert(unshared(handles@).take(k as int) =~= unshared(handles@));
    copies
}

/// All pairs of an element of `left` with one of `right`: the pairs of the
/// first element of `left` come first, in the order of `right`.
pub open spec fn pairs<A, B>(left: Seq<A>, right: Seq<B>) -> Seq<(A, B)> {
    Seq::new(
        left.len() * right.len(),
        |k: int| (left[k / (right.len() as int)], right[k % (right.len() as int)]),
    )
}

/// All pairs of the handles of two lists.
///
/// Calls `Itertools::cartesian_product` on the two lists and collects what it
/// yields. The adaptor walks the second list once for each item of the first,
/// and pairs a clone of that item, a second handle on the same value, with
/// each item of the second list.
#[verifier::external_body]
pub(crate) fn arc_pairs<T>(left: Vec<Arc<T>>, right: Vec<Arc<T>>) -> (r: Vec<(Arc<T>, Arc<T>)>)
    ensures
        r@ == pairs(left@, right@),
{
    left.into_iter().cartesian_product(right).collect()
}

/// The place `k` among the pairs of two lists names a place in each list.
pub proof fn lemma_pair_places(m: nat, n: nat, k: int)
    requires
        0 <= k < m * n,
    ensures
        n > 0,
        0 <= k / (n as int) < m,
        0 <= k % (n as int) < n,
{
    assert(n > 0) by (nonlinear_arith)
        requires
            0 <= k < m * n,
    ;
    assert(0 <= k / (n as int) < m) by (nonlinear_arith)
        requires
            0 <= k < m * n,
            n > 0,
    ;
    assert(0 <= k % (n as int) < n) by (nonlinear_arith)
        requires
            n > 0,
    ;
}

/// The pairs of the handles of two lists point at the pairs of what the
/// lists point at.
pub proof fn lemma_pairs_unshared<T>(left: Seq<Arc<T>>, right: Seq<Arc<T>>)
    ensures
        pairs(left, right).len() == pairs(unshared(left), unshared(right)).len(),
        forall|j: int|
            0 <= j < pairs(left, right).len() ==> *(#[trigger] pairs(left, right)[j]).0 == pairs(
                unshared(left),
                unshared(right),
            )[j].0 && *pairs(left, right)[j].1 == pairs(unshared(left), unshared(right))[j].1,
{
    assert forall|j: int| 0 <= j < pairs(left, right).len() implies *(#[trigger] pairs(
        left,
        right,
    )[j]).0 == pairs(unshared(left), unshared(right))[j].0 && *pairs(left, right)[j].1 == pairs(
        unshared(left),
        unshared(right),
    )[j].1 by {
        lemma_pair_places(left.len(), right.len(), j);
    }
}

/// The parts of a sequence of sequences, one behind the other.
pub open spec fn concat_all<T>(parts: Seq<Seq<T>>) -> Seq<T>
    decreases parts.len(),
{
    if parts.len() == 0 {
        Seq::empty()
    } else {
        concat_all(parts.drop_last()) + parts.last()
    }
}

/// Each element of the parts put one behind the other lies in one of them.
pub proof fn lemma_concat_all_place<T>(parts: Seq<Seq<T>>, k: int) -> (at: (int, int))
    requires
        0 <= k < concat_all(parts).len(),
    ensures
        0 <= at.0 < parts.len(),
        0 <= at.1 < parts[at.0].len(),
        parts[at.0][at.1] == concat_all(parts)[k],
    decreases parts.len(),
{
    let head = concat_all(parts.drop_last());
    if k < head.len() {
        lemma_concat_all_place(parts.drop_last(), k)
    } else {
        (parts.len() - 1, k - head.len())
    }
}

/// The parts up to and with the one at `k`, one behind the other, are those
/// before it followed by it.
pub proof fn lemma_concat_all_step<T>(parts: Seq<Seq<T>>, k: int)
    requires
        0 <= k < parts.len(),
    ensures
        concat_all(parts.take(k + 1)) == concat_all(parts.take(k)) + parts[k],
{
    assert(parts.take(k + 1).drop_last() =~= parts.take(k));
}

/// The element at `j` of the part at `i` lies behind all elements of the
/// parts before it.
pub proof fn lemma_concat_all_index<T>(parts: Seq<Seq<T>>, i: int, j: int)
    requires
        0 <= i < parts.len(),
        0 <= j < parts[i].len(),
    ensures
        concat_all(parts.take(i)).len() + j < concat_all(parts).len(),
        concat_all(parts)[concat_all(parts.take(i)).len() + j] == parts[i][j],
    decreases parts.len(),
{
    if i == parts.len() - 1 {
        assert(parts.take(i) =~= parts.drop_last());
    } else {
        lemma_concat_all_index(parts.drop_last(), i, j);
        assert(parts.drop_last().take(i) =~= parts.take(i));
    }
}

/// The parts before the one at `i` take no more room than all of them.
pub proof fn lemma_concat_all_bound<T>(parts: Seq<Seq<T>>, i: int)
    requires
        0 <= i <= parts.len(),
    ensures
        concat_all(parts.take(i)).len() <= concat_all(parts).len(),
    decreases parts.len(),
{
    if i == parts.len() {
        assert(parts.take(i) =~= parts);
    } else {
        lemma_concat_all_bound(parts.drop_last(), i);
        assert(parts.drop_last().take(i) =~= parts.take(i));
    }
}

} // verus!
