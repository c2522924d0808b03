//! The messages handed to a subscriber in one delivery, and how many of them it confirmed.
use vstd::prelude::*;

use crate::queue_with_intervals::{
    contains_in, lemma_contains_one, lemma_contains_split, ranges_set, ranges_wf, QueueWithIntervals,
};
use vstd::set_lib::set_int_range;

verus! {

pub struct DeliveryBucket {
    pub ids: QueueWithIntervals,
    pub confirmed: usize,
}

impl DeliveryBucket {
    pub fn new(ids: QueueWithIntervals) -> (result: Self)
        ensures
            result.ids@ == ids@,
            result.confirmed == 0,
    {
        DeliveryBucket { ids, confirmed: 0 }
    }

    /// Counts the confirmed messages and takes them out of the bucket.
    pub fn confirmed(&mut self, confirmed: &QueueWithIntervals)
        requires
            old(self).confirmed + confirmed@.len() <= usize::MAX,
        ensures
            final(self).confirmed == old(self).confirmed + confirmed@.len(),
            final(self).ids@ == old(self).ids@.difference(confirmed@),
    {
        let amount = confirmed.len();
        self.confirmed = self.confirmed + amount as usize;
        let snapshot = confirmed.get_snapshot();
        let n = snapshot.len();
        let mut k: usize = 0;
        while k < n
            invariant
                n == snapshot@.len(),
                ranges_wf(snapshot@),
                confirmed@ == ranges_set(snapshot@),
                0 <= k <= n,
                self.confirmed == old(self).confirmed + confirmed@.len(),
                self.ids@ == old(self).ids@.difference(
                    Set::new(|id: int| contains_in(snapshot@, 0, k as int, id)),
                ),
            decreases n - k,
        {
            let r = snapshot[k];
            proof {
                assert(0 <= snapshot@[k as int].from_id);
            }
            let ghost before = self.ids@;
            let mut id = r.from_id;
            while id <= r.to_id
                invariant
                    r.from_id <= id <= r.to_id + 1,
                    r.to_id < i64::MAX,
                    self.confirmed == old(self).confirmed + confirmed@.len(),
                    self.ids@ == before.difference(set_int_range(r.from_id as int, id as int)),
                decreases r.to_id + 1 - id,
            {
                let _ = self.ids.remove(id);
                id = id + 1;
                assert(self.ids@ =~= before.difference(set_int_range(r.from_id as int, id as int)));
            }
            proof {
                assert forall|x: int|
                    #![trigger contains_in(snapshot@, 0, k + 1, x)]
                    contains_in(snapshot@, 0, k + 1, x) == (contains_in(snapshot@, 0, k as int, x)
                        || set_int_range(r.from_id as int, r.to_id + 1).contains(x)) by {
                    lemma_contains_split(snapshot@, 0, k as int, k + 1, x);
                    lemma_contains_one(snapshot@, k as int, x);
                }
            }
            k = k + 1;
            assert(self.ids@ =~= old(self).ids@.difference(
                Set::new(|id: int| contains_in(snapshot@, 0, k as int, id)),
            ));
        }
        assert(self.ids@ =~= old(self).ids@.difference(confirmed@));
    }

    /// Counts every message of the bucket as confirmed and empties it.
    pub fn confirm_everything(&mut self)
        requires
            old(self).confirmed + old(self).ids@.len() <= usize::MAX,
        ensures
            final(self).confirmed == old(self).confirmed + old(self).ids@.len(),
            final(self).ids@ == Set::<int>::empty(),
    {
        let amount = self.ids.len();
        self.confirmed = self.confirmed + amount as usize;
        self.ids.clean();
    }

    /// The number of messages still in the bucket (as `usize`, which on targets with a
    /// narrower `usize` keeps only its low bits).
    pub fn messages_count(&self) -> (result: usize)
        ensures
            self.ids@.len() <= usize::MAX ==> result == self.ids@.len(),
    {
        self.ids.len() as usize
    }
}

/// Confirming messages of a bucket moves them from its ids to its count: as long as what is
/// confirmed was in the bucket, the count plus the ids left stays the same.
pub proof fn lemma_confirmation_keeps_total(ids: Set<int>, confirmed_count: int, confirmed: Set<int>)
    requires
        ids.finite(),
        confirmed.subset_of(ids),
    ensures
        (confirmed_count + confirmed.len()) + ids.difference(confirmed).len() == confirmed_count + ids.len(),
{
    vstd::set_lib::lemma_set_subset_finite(ids, confirmed);
    assert(ids.difference(confirmed) + confirmed =~= ids);
    vstd::set_lib::lemma_set_disjoint_lens(ids.difference(confirmed), confirmed);
}

} // verus!
