//! Going through a batch of proposed metadata updates one at a time: each
//! is applied or skipped, and the batch ends with a count of both.
use vstd::prelude::*;

use crate::text::{decimal, decimal_string, push_str};

verus! {

/// A batch being decided on: the proposal shown, those waiting behind it, how
/// many were applied and skipped so far, and how many the batch had.
pub struct ProposalBatch<T> {
    pub current: T,
    pub queue: Vec<T>,
    pub applied: usize,
    pub skipped: usize,
    pub total: usize,
}

/// What a decision on the shown proposal leads to.
pub enum BatchStep<T> {
    /// The next proposal is shown.
    Next(ProposalBatch<T>),
    /// Every proposal was decided on.
    Done { applied: usize, skipped: usize },
    /// Saving the proposal failed; the rest of the batch is dropped.
    Abandoned,
}

impl<T> ProposalBatch<T> {
    /// Every proposal is shown, waiting, applied or skipped.
    pub open spec fn wf(&self) -> bool {
        self.applied + self.skipped + self.queue@.len() + 1 == self.total
    }

    /// Starts on `items`; there is nothing to decide on when it is empty.
    pub fn start(items: Vec<T>) -> (r: Option<ProposalBatch<T>>)
        ensures
            items@.len() == 0 <==> r is None,
            r matches Some(b) ==> {
                &&& b.wf()
                &&& b.current == items@[0]
                &&& b.queue@ == items@.drop_first()
                &&& b.applied == 0
                &&& b.skipped == 0
                &&& b.total == items@.len()
            },
    {
        if items.len() == 0 {
            return None;
        }
        let total = items.len();
        let mut queue = items;
        let current = queue.remove(0);
        Some(ProposalBatch { current, queue, applied: 0, skipped: 0, total })
    }

    /// Shows the first of `queue` next, or ends the batch when none is left.
    fn advance(queue: Vec<T>, applied: usize, skipped: usize, total: usize) -> (s: BatchStep<T>)
        requires
            applied + skipped + queue@.len() == total,
        ensures
            queue@.len() == 0 ==> s == (BatchStep::<T>::Done { applied, skipped }),
            queue@.len() > 0 ==> (s matches BatchStep::Next(b) && b.wf() && b.current == queue@[0]
                && b.queue@ == queue@.drop_first() && b.applied == applied && b.skipped == skipped
                && b.total == total),
    {
        if queue.len() == 0 {
            return BatchStep::Done { applied, skipped };
        }
        let mut queue = queue;
        let current = queue.remove(0);
        BatchStep::Next(ProposalBatch { current, queue, applied, skipped, total })
    }

    /// The shown proposal was saved (`saved`) or could not be: in the first
    /// case it counts as applied and the batch moves on, in the second the
    /// batch is dropped.
    pub fn apply(self, saved: bool) -> (s: BatchStep<T>)
        requires
            self.wf(),
        ensures
            !saved ==> s is Abandoned,
            s matches BatchStep::Done { applied, skipped } ==> applied + skipped == self.total,
            saved && self.queue@.len() == 0 ==> s == (BatchStep::<T>::Done {
                applied: (self.applied + 1) as usize,
                skipped: self.skipped,
            }),
            saved && self.queue@.len() > 0 ==> (s matches BatchStep::Next(b) && b.wf()
                && b.current == self.queue@[0] && b.queue@ == self.queue@.drop_first() && b.applied
                == self.applied + 1 && b.skipped == self.skipped && b.total == self.total),
    {
        if !saved {
            return BatchStep::Abandoned;
        }
        Self::advance(self.queue, self.applied + 1, self.skipped, self.total)
    }

    /// The shown proposal is passed over; the batch moves on.
    pub fn skip(self) -> (s: BatchStep<T>)
        requires
            self.wf(),
        ensures
            s matches BatchStep::Done { applied, skipped } ==> applied + skipped == self.total,
            self.queue@.len() == 0 ==> s == (BatchStep::<T>::Done {
                applied: self.applied,
                skipped: (self.skipped + 1) as usize,
            }),
            self.queue@.len() > 0 ==> (s matches BatchStep::Next(b) && b.wf() && b.current
                == self.queue@[0] && b.queue@ == self.queue@.drop_first() && b.applied
                == self.applied && b.skipped == self.skipped + 1 && b.total == self.total),
    {
        Self::advance(self.queue, self.applied, self.skipped + 1, self.total)
    }

    /// Ends the batch early: what was not decided on counts as skipped. Gives
    /// the counts to report, or nothing when no decision was made at all.
    pub fn finish(self) -> (r: Option<(usize, usize)>)
        requires
            self.wf(),
        ensures
            r is None <==> self.applied == 0 && self.skipped == 0,
            r matches Some((a, s)) ==> a == self.applied && a + s == self.total && s
                == self.skipped + self.queue@.len() + 1,
    {
        if self.applied > 0 || self.skipped > 0 {
            Some((self.applied, self.skipped + self.queue.len() + 1))
        } else {
            None
        }
    }

    /// The position shown in the batch's title, " [n/total] ", for a review
    /// of more than one proposal.
    pub fn batch_label(&self) -> (r: Option<String>)
        requires
            self.wf(),
        ensures
            (r is Some) == (self.queue@.len() > 0 || self.applied > 0 || self.skipped > 0),
            r matches Some(l) ==> l@ == seq![' ', '['] + decimal((self.applied + self.skipped
                + 1) as nat) + seq!['/'] + decimal(self.total as nat) + seq![']', ' '],
    {
        if self.queue.len() == 0 && self.applied == 0 && self.skipped == 0 {
            return None;
        }
        let mut l = String::new();
        push_str(&mut l, " [");
        push_str(&mut l, decimal_string((self.applied + self.skipped + 1) as u64).as_str());
        push_str(&mut l, "/");
        push_str(&mut l, decimal_string(self.total as u64).as_str());
        push_str(&mut l, "] ");
        proof {
            reveal_strlit(" [");
            reveal_strlit("/");
            reveal_strlit("] ");
            assert(l@ =~= seq![' ', '['] + decimal((self.applied + self.skipped + 1) as nat) + seq![
                '/',
            ] + decimal(self.total as nat) + seq![']', ' ']);
        }
        Some(l)
    }
}

/// "Enriched {applied}, skipped {skipped}".
pub fn summary(applied: usize, skipped: usize) -> (m: String)
    ensures
        m@ == "Enriched "@ + decimal(applied as nat) + ", skipped "@ + decimal(skipped as nat),
{
    let mut m = String::new();
    push_str(&mut m, "Enriched ");
    push_str(&mut m, decimal_string(applied as u64).as_str());
    push_str(&mut m, ", skipped ");
    push_str(&mut m, decimal_string(skipped as u64).as_str());
    proof {
        assert(m@ =~= "Enriched "@ + decimal(applied as nat) + ", skipped "@ + decimal(
            skipped as nat,
        ));
    }
    m
}

} // verus!
