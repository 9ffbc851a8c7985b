use vstd::prelude::*;

use rand::seq::SliceRandom;

use crate::category::{same_category, Category};

verus! {

/// Relies on rand's `SliceRandom::shuffle` with the thread-local generator: it permutes the
/// items in place.
#[verifier::external_body]
fn shuffle_in_place(v: &mut Vec<usize>)
    ensures
        final(v)@.len() == old(v)@.len(),
        final(v)@.to_multiset() == old(v)@.to_multiset(),
{
    v.shuffle(&mut rand::thread_rng());
}

/// The positions `0..n` in order.
pub open spec fn positions(n: nat) -> Seq<usize> {
    Seq::new(n, |i: int| i as usize)
}

/// A fresh random order in which to visit `n` samples: each position of `0..n` exactly once.
pub fn epoch_order(n: usize) -> (r: Vec<usize>)
    ensures
        r@.len() == n,
        r@.to_multiset() == positions(n as nat).to_multiset(),
{
    let mut v: Vec<usize> = Vec::new();
    let mut i: usize = 0;
    while i < n
        invariant
            i <= n,
            v@ == positions(i as nat),
        decreases n - i,
    {
        v.push(i);
        i = i + 1;
        assert(v@ =~= positions(i as nat));
    }
    shuffle_in_place(&mut v);
    v
}

/// `r` is the first position of a largest key in `keys`.
pub open spec fn is_first_largest(keys: Seq<u32>, r: int) -> bool {
    &&& 0 <= r < keys.len()
    &&& forall|i: int| 0 <= i < keys.len() ==> keys[i] <= keys[r]
    &&& forall|i: int| 0 <= i < r ==> keys[i] < keys[r]
}

/// The answer node that a sample selects: the first one with the largest output, where
/// `keys[i]` orders the output of answer node `i` as the outputs themselves are ordered.
pub fn largest_node(keys: &Vec<u32>) -> (r: usize)
    requires
        keys@.len() > 0,
    ensures
        is_first_largest(keys@, r as int),
{
    let mut largest: usize = 0;
    let mut i: usize = 1;
    while i < keys.len()
        invariant
            1 <= i <= keys@.len(),
            is_first_largest(keys@.subrange(0, i as int), largest as int),
        decreases keys.len() - i,
    {
        if keys[i] > keys[largest] {
            largest = i;
        }
        i = i + 1;
        assert(is_first_largest(keys@.subrange(0, i as int), largest as int)) by {
            let s = keys@.subrange(0, i as int);
            assert forall|k: int| 0 <= k < s.len() implies s[k] <= s[largest as int] by {
                assert(s[k] == keys@[k]);
            }
            assert forall|k: int| 0 <= k < largest implies s[k] < s[largest as int] by {
                assert(s[k] == keys@[k]);
            }
        }
    }
    assert(keys@.subrange(0, i as int) =~= keys@);
    largest
}

/// The count of labelled samples seen in an epoch, and of those whose predicted category was
/// their label.
#[derive(Clone, Copy, Debug, PartialEq, Eq, Structural)]
pub struct EpochTally {
    pub correct: u64,
    pub count: u64,
}

/// Whether `correct` out of `count` reaches `target` hundredths of a percent; an epoch without
/// labelled samples reaches every target.
pub open spec fn spec_meets_target(correct: nat, count: nat, target: nat) -> bool {
    correct * 10000 >= target * count
}

impl EpochTally {
    pub fn new() -> (r: EpochTally)
        ensures
            r.correct == 0,
            r.count == 0,
    {
        EpochTally { correct: 0, count: 0 }
    }

    /// Records one sample whose predicted category is `predicted`: a labelled sample is counted,
    /// and counted as correct when the prediction is its label; a sample without label is not
    /// counted.
    pub fn record(&mut self, predicted: &Category, label: &Option<Category>)
        requires
            old(self).count < u64::MAX,
            old(self).correct <= old(self).count,
        ensures
            final(self).correct <= final(self).count,
            match label {
                None => *final(self) == *old(self),
                Some(l) => final(self).count == old(self).count + 1 && final(self).correct == old(self).correct
                    + if same_category(*predicted, *l) {
                    1int
                } else {
                    0int
                },
            },
    {
        match label {
            Some(l) => {
                if predicted.matches(l) {
                    self.correct = self.correct + 1;
                }
                self.count = self.count + 1;
            },
            None => {},
        }
    }

    /// Whether the tally reaches `target` hundredths of a percent.
    pub fn meets_target(&self, target: u64) -> (r: bool)
        ensures
            r == spec_meets_target(self.correct as nat, self.count as nat, target as nat),
    {
        let t = target as u128;
        let c = self.count as u128;
        assert(t * c <= u64::MAX * u64::MAX) by (nonlinear_arith)
            requires
                t <= u64::MAX,
                c <= u64::MAX,
        ;
        (self.correct as u128) * 10000 >= t * c
    }
}

/// What to do after an epoch.
#[derive(Clone, Copy, Debug, PartialEq, Eq, Structural)]
pub enum EpochDecision {
    /// Run another epoch.
    Continue,
    /// The epoch reached the target accuracy.
    Converged,
    /// The epoch missed the target and no epoch is left.
    EpochLimitReached,
}

/// The decision after `epochs_done` epochs, the last of which `met` the target or not.
pub open spec fn spec_decision(epochs_done: nat, max_epochs: nat, met: bool) -> EpochDecision {
    if met {
        EpochDecision::Converged
    } else if epochs_done >= max_epochs {
        EpochDecision::EpochLimitReached
    } else {
        EpochDecision::Continue
    }
}

/// When training stops: at the first epoch that reaches `target` hundredths of a percent, or
/// after `max_epochs` epochs.
#[derive(Clone, Copy, Debug, PartialEq, Eq, Structural)]
pub struct TrainingSchedule {
    pub target: u64,
    pub max_epochs: u64,
    pub epochs: u64,
}

impl TrainingSchedule {
    pub fn new(target: u64, max_epochs: u64) -> (r: TrainingSchedule)
        ensures
            r == (TrainingSchedule { target, max_epochs, epochs: 0 }),
    {
        TrainingSchedule { target, max_epochs, epochs: 0 }
    }

    /// Closes an epoch whose samples gave `tally`, and says whether to run another.
    pub fn end_epoch(&mut self, tally: &EpochTally) -> (r: EpochDecision)
        requires
            old(self).epochs < old(self).max_epochs,
        ensures
            final(self).epochs == old(self).epochs + 1,
            final(self).target == old(self).target,
            final(self).max_epochs == old(self).max_epochs,
            r == spec_decision(
                final(self).epochs as nat,
                final(self).max_epochs as nat,
                spec_meets_target(tally.correct as nat, tally.count as nat, old(self).target as nat),
            ),
    {
        self.epochs = self.epochs + 1;
        if tally.meets_target(self.target) {
            EpochDecision::Converged
        } else if self.epochs >= self.max_epochs {
            EpochDecision::EpochLimitReached
        } else {
            EpochDecision::Continue
        }
    }
}

/// Training stops at the first epoch that reaches the target, and never runs more than
/// `max_epochs` epochs: after that many, the decision is not to continue, whatever the
/// accuracy.
pub proof fn lemma_training_stops(epochs_done: nat, max_epochs: nat, met: bool)
    ensures
        met ==> spec_decision(epochs_done, max_epochs, met) == EpochDecision::Converged,
        epochs_done >= max_epochs ==> spec_decision(epochs_done, max_epochs, met) != EpochDecision::Continue,
        spec_decision(epochs_done, max_epochs, met) == EpochDecision::Continue ==> !met && epochs_done
            < max_epochs,
{
}

} // verus!
