//! Best-effort fan-out: one operation over a list of peers in which no
//! failure holds the others up.

use vstd::prelude::*;

verus! {

/// The progress of one operation over a list of peers in which every peer is
/// tried whatever became of the ones before it: a broadcast, or a round of
/// reconnects. Peers are named by their position in the caller's list.
#[derive(Debug)]
pub struct FanOut {
    pub total: usize,
    pub outcomes: Vec<bool>,
}

/// The outcomes on record after the peer that was due turned out `reached`.
/// Whether it was reached or not, the outcome is kept and the next peer is
/// due; once every peer was tried nothing is added.
pub open spec fn recorded(total: nat, outcomes: Seq<bool>, reached: bool) -> Seq<bool> {
    if outcomes.len() < total {
        outcomes.push(reached)
    } else {
        outcomes
    }
}

/// The outcomes on record after the first `upto` of `results` were taken in,
/// one after the other, by a fan-out over `total` peers.
pub open spec fn run(total: nat, results: Seq<bool>, upto: int) -> Seq<bool>
    decreases upto,
{
    if upto <= 0 {
        Seq::empty()
    } else {
        recorded(total, run(total, results, upto - 1), results[upto - 1])
    }
}

impl FanOut {
    /// Progress never runs past the list.
    pub open spec fn wf(&self) -> bool {
        self.outcomes.len() <= self.total
    }

    /// The number of peers that were reached among the first `upto` tried.
    pub open spec fn reached(outcomes: Seq<bool>, upto: int) -> nat
        decreases upto,
    {
        if upto <= 0 {
            0
        } else {
            FanOut::reached(outcomes, upto - 1) + if outcomes[upto - 1] {
                1nat
            } else {
                0nat
            }
        }
    }

    /// A fan-out over `total` peers, none tried yet.
    pub fn new(total: usize) -> (f: FanOut)
        ensures
            f.total == total,
            f.outcomes@ == Seq::<bool>::empty(),
            f.wf(),
    {
        FanOut { total, outcomes: Vec::new() }
    }

    /// The peer to try next, or nothing once every peer was tried.
    pub fn next_target(&self) -> (next: Option<usize>)
        requires
            self.wf(),
        ensures
            next == if self.outcomes.len() < self.total {
                Some(self.outcomes.len())
            } else {
                None
            },
    {
        if self.outcomes.len() < self.total {
            Some(self.outcomes.len())
        } else {
            None
        }
    }

    /// Notes whether the peer that was due was reached. A failure is kept
    /// for the report and stops nothing: the next peer is due. Once every
    /// peer was tried, further outcomes are ignored.
    pub fn record(&mut self, reached: bool)
        requires
            old(self).wf(),
        ensures
            final(self).wf(),
            final(self).total == old(self).total,
            final(self).outcomes@ == recorded(old(self).total as nat, old(self).outcomes@, reached),
    {
        if self.outcomes.len() < self.total {
            self.outcomes.push(reached);
        }
    }

    /// Whether the progress is valid; see [`FanOut::wf`].
    pub fn is_well_formed(&self) -> (r: bool)
        ensures
            r == self.wf(),
    {
        self.outcomes.len() <= self.total
    }

    /// Whether every peer was tried.
    pub fn is_complete(&self) -> (done: bool)
        requires
            self.wf(),
        ensures
            done == (self.outcomes.len() == self.total),
    {
        self.outcomes.len() == self.total
    }

    /// How many peers were reached so far.
    pub fn reached_count(&self) -> (n: usize)
        ensures
            n == FanOut::reached(self.outcomes@, self.outcomes.len() as int),
    {
        let mut n: usize = 0;
        let mut i: usize = 0;
        while i < self.outcomes.len()
            invariant
                i <= self.outcomes.len(),
                n <= i,
                n == FanOut::reached(self.outcomes@, i as int),
            decreases self.outcomes.len() - i,
        {
            if self.outcomes[i] {
                n += 1;
            }
            i += 1;
        }
        n
    }

    /// The positions of the peers that were not reached, in order.
    pub fn failed_targets(&self) -> (failed: Vec<usize>)
        ensures
            forall|k: int| 0 <= k < failed.len() ==> (#[trigger] failed[k]) < self.outcomes.len()
                && !self.outcomes[failed[k] as int],
            forall|i: int|
                0 <= i < self.outcomes.len() && !self.outcomes[i] ==> failed@.contains(i as usize),
            forall|a: int, b: int| 0 <= a < b < failed.len() ==> failed[a] < failed[b],
    {
        let mut failed: Vec<usize> = Vec::new();
        let mut i: usize = 0;
        while i < self.outcomes.len()
            invariant
                i <= self.outcomes.len(),
                forall|k: int| 0 <= k < failed.len() ==> (#[trigger] failed[k]) < i
                    && !self.outcomes[failed[k] as int],
                forall|m: int| 0 <= m < i && !self.outcomes[m] ==> failed@.contains(m as usize),
                forall|a: int, b: int| 0 <= a < b < failed.len() ==> failed[a] < failed[b],
            decreases self.outcomes.len() - i,
        {
            if !self.outcomes[i] {
                let ghost shorter = failed@;
                failed.push(i);
                assert forall|m: int| 0 <= m < i + 1 && !self.outcomes[m] implies failed@.contains(
                    m as usize,
                ) by {
                    if m < i {
                        assert(shorter.contains(m as usize));
                        let k = choose|k: int| 0 <= k < shorter.len() && shorter[k] == m as usize;
                        assert(failed[k] == m as usize);
                    } else {
                        assert(failed[failed.len() - 1] == m as usize);
                    }
                }
            }
            i += 1;
        }
        failed
    }
}

/// No failure holds anything up: fed one outcome per peer, a fan-out has
/// tried every peer, whatever the outcomes were, and has each outcome on
/// record.
pub proof fn lemma_fan_out_tries_every_peer(total: nat, results: Seq<bool>)
    requires
        results.len() == total,
    ensures
        run(total, results, total as int) == results,
{
    lemma_run_prefix(total, results, total as int);
    assert(results.take(total as int) =~= results);
}

proof fn lemma_run_prefix(total: nat, results: Seq<bool>, upto: int)
    requires
        0 <= upto <= results.len() == total,
    ensures
        run(total, results, upto) == results.take(upto),
    decreases upto,
{
    if upto > 0 {
        lemma_run_prefix(total, results, upto - 1);
        assert(results.take(upto) =~= results.take(upto - 1).push(results[upto - 1]));
    } else {
        assert(results.take(0) =~= Seq::<bool>::empty());
    }
}

/// Where one peer of many cannot be reached, all the others still are.
pub proof fn lemma_one_failure_spares_the_others(total: nat, results: Seq<bool>, failed_at: int)
    requires
        results.len() == total,
        0 <= failed_at < total,
        forall|i: int| 0 <= i < total ==> results[i] == (i != failed_at),
    ensures
        FanOut::reached(run(total, results, total as int), total as int) == total - 1,
{
    lemma_fan_out_tries_every_peer(total, results);
    lemma_reached_with_one_failure(results, failed_at, total as int);
}

proof fn lemma_reached_with_one_failure(outcomes: Seq<bool>, failed_at: int, upto: int)
    requires
        0 <= upto <= outcomes.len(),
        0 <= failed_at < outcomes.len(),
        forall|i: int| 0 <= i < outcomes.len() ==> outcomes[i] == (i != failed_at),
    ensures
        FanOut::reached(outcomes, upto) == if failed_at < upto {
            upto - 1
        } else {
            upto
        },
    decreases upto,
{
    if upto > 0 {
        lemma_reached_with_one_failure(outcomes, failed_at, upto - 1);
    }
}

} // verus!
