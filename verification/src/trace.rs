//! Samples: finite traces labelled as positive or negative.

use crate::syntax::{valuations, Idx, SyntaxTree};
use vstd::prelude::*;

verus! {

/// A finite sequence of valuations of `N` propositional variables.
pub type Trace<const N: usize> = Vec<[bool; N]>;

/// The traces that a formula to be learnt has to hold on, and those on which
/// it has to fail.
#[derive(Debug)]
pub struct Sample<const N: usize> {
    pub positive_traces: Vec<Trace<N>>,
    pub negative_traces: Vec<Trace<N>>,
}

/// A list of traces, each as the sequence of its valuations.
pub open spec fn traces_of<const N: usize>(list: Seq<Vec<[bool; N]>>) -> Seq<Seq<Seq<bool>>> {
    Seq::new(list.len(), |k: int| valuations(list[k]@))
}

/// Every trace of the list has at least one instant.
pub open spec fn no_trace_empty(list: Seq<Seq<Seq<bool>>>) -> bool {
    forall|k: int| 0 <= k < list.len() ==> (#[trigger] list[k]).len() > 0
}

/// The length of the longest trace of a list, 0 for an empty list.
pub open spec fn longest(list: Seq<Seq<Seq<bool>>>) -> nat
    decreases list.len(),
{
    if list.len() == 0 {
        0
    } else if longest(list.drop_last()) >= list.last().len() {
        longest(list.drop_last())
    } else {
        list.last().len()
    }
}

/// Whether two traces hold the same valuations in the same order.
pub fn same_trace<const N: usize>(a: &[[bool; N]], b: &[[bool; N]]) -> (r: bool)
    ensures
        r == (valuations(a@) == valuations(b@)),
{
    broadcast use vstd::array::group_array_axioms;

    if a.len() != b.len() {
        assert(valuations(a@).len() != valuations(b@).len());
        return false;
    }
    let mut t: usize = 0;
    while t < a.len()
        invariant
            a@.len() == b@.len(),
            t <= a@.len(),
            forall|u: int| 0 <= u < t ==> (#[trigger] a@[u])@ == b@[u]@,
        decreases a@.len() - t,
    {
        let mut i: usize = 0;
        while i < N
            invariant
                t < a@.len() == b@.len(),
                i <= N,
                forall|j: int| 0 <= j < i ==> (#[trigger] a@[t as int]@[j]) == b@[t as int]@[j],
            decreases N - i,
        {
            if a[t][i] != b[t][i] {
                assert(valuations(a@)[t as int][i as int] != valuations(b@)[t as int][i as int]);
                return false;
            }
            i = i + 1;
        }
        assert(a@[t as int]@ =~= b@[t as int]@);
        t = t + 1;
    }
    assert(valuations(a@) =~= valuations(b@));
    true
}

/// Whether a list of traces holds the given trace.
pub fn holds_trace<const N: usize>(list: &Vec<Trace<N>>, trace: &[[bool; N]]) -> (r: bool)
    ensures
        r == traces_of(list@).contains(valuations(trace@)),
{
    let mut k: usize = 0;
    while k < list.len()
        invariant
            k <= list@.len(),
            forall|j: int| 0 <= j < k ==> (#[trigger] traces_of(list@)[j]) != valuations(trace@),
        decreases list@.len() - k,
    {
        if same_trace(list[k].as_slice(), trace) {
            assert(traces_of(list@)[k as int] == valuations(trace@));
            return true;
        }
        k = k + 1;
    }
    false
}

impl<const N: usize> Default for Sample<N> {
    /// A sample without traces.
    fn default() -> (r: Self)
        ensures
            r.positive_traces@.len() == 0,
            r.negative_traces@.len() == 0,
    {
        Sample { positive_traces: Vec::new(), negative_traces: Vec::new() }
    }
}

impl<const N: usize> Sample<N> {
    /// The positive traces, each as the sequence of its valuations.
    pub open spec fn positives(self) -> Seq<Seq<Seq<bool>>> {
        traces_of(self.positive_traces@)
    }

    /// The negative traces, each as the sequence of its valuations.
    pub open spec fn negatives(self) -> Seq<Seq<Seq<bool>>> {
        traces_of(self.negative_traces@)
    }

    /// Every trace of the sample has at least one instant.
    pub open spec fn wf(self) -> bool {
        no_trace_empty(self.positives()) && no_trace_empty(self.negatives())
    }

    /// The formula holds at the start of every positive trace and of no
    /// negative one.
    pub open spec fn consistent(self, formula: SyntaxTree) -> bool {
        &&& forall|k: int|
            0 <= k < self.positives().len() ==> formula.holds(#[trigger] self.positives()[k], 0)
        &&& forall|k: int|
            0 <= k < self.negatives().len() ==> !formula.holds(#[trigger] self.negatives()[k], 0)
    }

    /// No trace is both positive and negative.
    pub open spec fn solvable(self) -> bool {
        forall|k: int|
            0 <= k < self.positives().len() ==> !self.negatives().contains(
                #[trigger] self.positives()[k],
            )
    }

    /// The indices of the variables that a valuation of the sample carries:
    /// all below `N` that an index can name, once the sample holds a trace.
    pub open spec fn atoms(self) -> Seq<Idx> {
        if self.positives().len() + self.negatives().len() == 0 {
            Seq::empty()
        } else {
            Seq::new(
                if N <= 256 {
                    N as nat
                } else {
                    256
                },
                |i: int| i as Idx,
            )
        }
    }

    /// Whether every trace of the sample has at least one instant, as the
    /// evaluation of a formula asks.
    pub fn is_well_formed(&self) -> (r: bool)
        ensures
            r == self.wf(),
    {
        no_empty_trace(&self.positive_traces) && no_empty_trace(&self.negative_traces)
    }

    /// Whether the formula agrees with the sample: it holds on every positive
    /// trace and fails on every negative one. Positive and negative traces are
    /// tried in turn, so that a disagreement on either side is met early.
    pub fn is_consistent(&self, formula: &SyntaxTree) -> (r: bool)
        requires
            self.wf(),
            formula.width() <= N,
        ensures
            r == self.consistent(*formula),
    {
        let mut k: usize = 0;
        while k < self.positive_traces.len() || k < self.negative_traces.len()
            invariant
                self.wf(),
                formula.width() <= N,
                forall|j: int|
                    0 <= j < k && j < self.positives().len() ==> formula.holds(
                        #[trigger] self.positives()[j],
                        0,
                    ),
                forall|j: int|
                    0 <= j < k && j < self.negatives().len() ==> !formula.holds(
                        #[trigger] self.negatives()[j],
                        0,
                    ),
            decreases self.positive_traces@.len() + self.negative_traces@.len() - k,
        {
            if k < self.positive_traces.len() {
                assert(self.positives()[k as int].len() > 0);
                if !formula.eval(self.positive_traces[k].as_slice()) {
                    return false;
                }
            }
            if k < self.negative_traces.len() {
                assert(self.negatives()[k as int].len() > 0);
                if formula.eval(self.negative_traces[k].as_slice()) {
                    return false;
                }
            }
            k = k + 1;
        }
        true
    }

    /// Whether any formula at all can agree with the sample: whether no trace
    /// is labelled both ways.
    pub fn is_solvable(&self) -> (r: bool)
        ensures
            r == self.solvable(),
    {
        let mut k: usize = 0;
        while k < self.positive_traces.len()
            invariant
                k <= self.positive_traces@.len(),
                forall|j: int|
                    0 <= j < k ==> !self.negatives().contains(#[trigger] self.positives()[j]),
            decreases self.positive_traces@.len() - k,
        {
            if holds_trace(&self.negative_traces, self.positive_traces[k].as_slice()) {
                assert(self.negatives().contains(self.positives()[k as int]));
                return false;
            }
            k = k + 1;
        }
        true
    }

    /// The length of the longest trace of the sample, positive or negative.
    pub fn time_lenght(&self) -> (r: usize)
        ensures
            r == if longest(self.positives()) >= longest(self.negatives()) {
                longest(self.positives())
            } else {
                longest(self.negatives())
            },
    {
        let positive_lenght: usize = longest_of(&self.positive_traces);
        let negative_lenght: usize = longest_of(&self.negative_traces);
        if positive_lenght >= negative_lenght {
            positive_lenght
        } else {
            negative_lenght
        }
    }

    /// The indices of the propositional variables that the sample's
    /// valuations carry, in rising order.
    pub fn vars(&self) -> (r: Vec<Idx>)
        ensures
            r@ == self.atoms(),
    {
        let mut indices: Vec<Idx> = Vec::new();
        if self.positive_traces.len() == 0 && self.negative_traces.len() == 0 {
            assert(indices@ =~= self.atoms());
            return indices;
        }
        let bound: usize = if N <= 256 {
            N
        } else {
            256
        };
        let mut i: usize = 0;
        while i < bound
            invariant
                i <= bound <= 256,
                indices@.len() == i,
                forall|j: int| 0 <= j < i ==> indices@[j] == j,
            decreases bound - i,
        {
            indices.push(i as Idx);
            i = i + 1;
        }
        assert(indices@ =~= self.atoms());
        indices
    }

    /// Adds a trace that the formula has to hold on. A trace that the sample
    /// already holds as negative is refused and the sample stays as it was;
    /// one that it already holds as positive is not added twice.
    pub fn add_positive_trace(&mut self, trace: Trace<N>) -> (r: Result<(), ()>)
        ensures
            r is Err <==> old(self).negatives().contains(valuations(trace@)),
            final(self).negative_traces == old(self).negative_traces,
            final(self).positive_traces@ == if r is Err || old(self).positives().contains(
                valuations(trace@),
            ) {
                old(self).positive_traces@
            } else {
                old(self).positive_traces@.push(trace)
            },
            old(self).solvable() ==> final(self).solvable(),
            old(self).wf() && trace@.len() > 0 ==> final(self).wf(),
    {
        if !holds_trace(&self.negative_traces, trace.as_slice()) {
            if !holds_trace(&self.positive_traces, trace.as_slice()) {
                proof {
                    lemma_traces_of_push(self.positive_traces@, trace);
                }
                self.positive_traces.push(trace);
                proof {
                    let drawn = valuations(trace@);
                    assert(drawn.len() == trace@.len());
                    assert(self.positives() == old(self).positives().push(drawn));
                    assert forall|k: int| 0 <= k < self.positives().len() implies (old(
                        self,
                    ).wf() && trace@.len() > 0 ==> (#[trigger] self.positives()[k]).len() > 0) && (
                    old(self).solvable() ==> !self.negatives().contains(self.positives()[k])) by {
                        if k < old(self).positives().len() {
                            assert(self.positives()[k] == old(self).positives()[k]);
                        }
                    }
                }
            }
            Ok(())
        } else {
            Err(())
        }
    }

    /// Files a trace under the label that the formula gives it: as positive
    /// where the formula holds on it, as negative where it fails. A trace
    /// whose side already holds the wanted number of traces is dropped.
    /// Returns whether the trace was filed.
    pub fn file_by(
        &mut self,
        formula: &SyntaxTree,
        trace: Trace<N>,
        positives: usize,
        negatives: usize,
    ) -> (filed: bool)
        requires
            trace@.len() > 0,
            formula.width() <= N,
        ensures
            filed == if formula.holds(valuations(trace@), 0) {
                old(self).positive_traces@.len() < positives
            } else {
                old(self).negative_traces@.len() < negatives
            },
            final(self).positive_traces@ == if filed && formula.holds(valuations(trace@), 0) {
                old(self).positive_traces@.push(trace)
            } else {
                old(self).positive_traces@
            },
            final(self).negative_traces@ == if filed && !formula.holds(valuations(trace@), 0) {
                old(self).negative_traces@.push(trace)
            } else {
                old(self).negative_traces@
            },
            old(self).wf() ==> final(self).wf(),
            old(self).consistent(*formula) ==> final(self).consistent(*formula),
    {
        let satisfaction = formula.eval(trace.as_slice());
        let ghost drawn = valuations(trace@);
        assert(drawn.len() == trace@.len());
        if satisfaction && self.positive_traces.len() < positives {
            proof {
                lemma_traces_of_push(self.positive_traces@, trace);
            }
            self.positive_traces.push(trace);
            assert(self.positives() == old(self).positives().push(drawn));
            assert forall|k: int| 0 <= k < self.positives().len() implies (old(self).wf() ==> (
            #[trigger] self.positives()[k]).len() > 0) && (old(self).consistent(*formula)
                ==> formula.holds(self.positives()[k], 0)) by {
                if k < old(self).positives().len() {
                    assert(self.positives()[k] == old(self).positives()[k]);
                }
            }
            true
        } else if !satisfaction && self.negative_traces.len() < negatives {
            proof {
                lemma_traces_of_push(self.negative_traces@, trace);
            }
            self.negative_traces.push(trace);
            assert(self.negatives() == old(self).negatives().push(drawn));
            assert forall|k: int| 0 <= k < self.negatives().len() implies (old(self).wf() ==> (
            #[trigger] self.negatives()[k]).len() > 0) && (old(self).consistent(*formula)
                ==> !formula.holds(self.negatives()[k], 0)) by {
                if k < old(self).negatives().len() {
                    assert(self.negatives()[k] == old(self).negatives()[k]);
                }
            }
            true
        } else {
            false
        }
    }

    /// Adds a trace that the formula has to fail on. A trace that the sample
    /// already holds as positive is refused and the sample stays as it was;
    /// one that it already holds as negative is not added twice.
    pub fn add_negative_trace(&mut self, trace: Trace<N>) -> (r: Result<(), ()>)
        ensures
            r is Err <==> old(self).positives().contains(valuations(trace@)),
            final(self).positive_traces == old(self).positive_traces,
            final(self).negative_traces@ == if r is Err || old(self).negatives().contains(
                valuations(trace@),
            ) {
                old(self).negative_traces@
            } else {
                old(self).negative_traces@.push(trace)
            },
            old(self).solvable() ==> final(self).solvable(),
            old(self).wf() && trace@.len() > 0 ==> final(self).wf(),
    {
        if !holds_trace(&self.positive_traces, trace.as_slice()) {
            if !holds_trace(&self.negative_traces, trace.as_slice()) {
                proof {
                    lemma_traces_of_push(self.negative_traces@, trace);
                    if self.solvable() {
                        let grown = traces_of(self.negative_traces@.push(trace));
                        assert forall|k: int|
                            0 <= k < self.positives().len() implies !grown.contains(
                            #[trigger] self.positives()[k],
                        ) by {
                            let p = self.positives()[k];
                            if grown.contains(p) {
                                let j = choose|j: int| 0 <= j < grown.len() && grown[j] == p;
                                if j < self.negatives().len() {
                                    assert(self.negatives()[j] == p);
                                } else {
                                    assert(self.positives().contains(valuations(trace@)));
                                }
                            }
                        }
                    }
                }
                self.negative_traces.push(trace);
                proof {
                    let drawn = valuations(trace@);
                    assert(drawn.len() == trace@.len());
                    assert(self.negatives() == old(self).negatives().push(drawn));
                    assert forall|k: int| 0 <= k < self.negatives().len() implies (old(
                        self,
                    ).wf() && trace@.len() > 0 ==> (#[trigger] self.negatives()[k]).len() > 0) by {
                        if k < old(self).negatives().len() {
                            assert(self.negatives()[k] == old(self).negatives()[k]);
                        }
                    }
                }
            }
            Ok(())
        } else {
            Err(())
        }
    }
}

/// A list of traces with one more trace behind it.
proof fn lemma_traces_of_push<const N: usize>(list: Seq<Vec<[bool; N]>>, trace: Vec<[bool; N]>)
    ensures
        traces_of(list.push(trace)) == traces_of(list).push(valuations(trace@)),
{
    assert(traces_of(list.push(trace)) =~= traces_of(list).push(valuations(trace@)));
}

/// Whether every trace of a list has at least one instant.
fn no_empty_trace<const N: usize>(list: &Vec<Trace<N>>) -> (r: bool)
    ensures
        r == no_trace_empty(traces_of(list@)),
{
    let mut k: usize = 0;
    while k < list.len()
        invariant
            k <= list@.len(),
            forall|j: int| 0 <= j < k ==> (#[trigger] traces_of(list@)[j]).len() > 0,
        decreases list@.len() - k,
    {
        assert(traces_of(list@)[k as int].len() == list@[k as int]@.len());
        if list[k].len() == 0 {
            return false;
        }
        k = k + 1;
    }
    true
}

/// The length of the longest trace of a list.
fn longest_of<const N: usize>(list: &Vec<Trace<N>>) -> (r: usize)
    ensures
        r == longest(traces_of(list@)),
{
    let mut best: usize = 0;
    let mut k: usize = 0;
    while k < list.len()
        invariant
            k <= list@.len(),
            best == longest(traces_of(list@).take(k as int)),
        decreases list@.len() - k,
    {
        let len: usize = list[k].len();
        proof {
            let grown = traces_of(list@).take(k as int + 1);
            assert(grown.drop_last() =~= traces_of(list@).take(k as int));
            assert(grown.last().len() == len);
        }
        if len > best {
            best = len;
        }
        k = k + 1;
    }
    assert(traces_of(list@).take(k as int) =~= traces_of(list@));
    best
}

} // verus!
