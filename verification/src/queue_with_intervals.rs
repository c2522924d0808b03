//! A set of message ids kept as sorted, disjoint, non-adjacent closed intervals.
//!
//! The abstract view of a queue is the mathematical set of ids it holds; the
//! order in which ids leave the queue is ascending.
use vstd::prelude::*;
use vstd::set_lib::{lemma_int_range, lemma_set_disjoint_lens, set_int_range};

verus! {

pub type MessageId = i64;

/// A closed interval `[from_id, to_id]` of message ids.
#[derive(Clone, Copy, Debug, PartialEq, Eq, Structural)]
pub struct QueueIndexRange {
    pub from_id: MessageId,
    pub to_id: MessageId,
}

#[derive(Clone, Copy, Debug, PartialEq, Eq, Structural)]
pub enum QueueWithIntervalsError {
    MessagesNotFound,
}

/// The ids this library hands out and stores: non-negative, and below `i64::MAX`
/// so that the id after any stored id is representable.
pub open spec fn valid_message_id(id: int) -> bool {
    0 <= id < i64::MAX
}

pub open spec fn in_range(r: QueueIndexRange, id: int) -> bool {
    r.from_id <= id <= r.to_id
}

/// Some range with index in `[lo, hi)` holds `id`.
pub open spec fn contains_in(s: Seq<QueueIndexRange>, lo: int, hi: int, id: int) -> bool {
    exists|j: int| lo <= j < hi && #[trigger] in_range(s[j], id)
}

pub open spec fn ranges_contain(s: Seq<QueueIndexRange>, id: int) -> bool {
    contains_in(s, 0, s.len() as int, id)
}

/// The set of ids covered by a sequence of ranges.
pub open spec fn ranges_set(s: Seq<QueueIndexRange>) -> Set<int> {
    Set::new(|id: int| ranges_contain(s, id))
}

/// Every range is non-empty and within the id domain; ranges are sorted and
/// separated by at least one id that is not held.
pub open spec fn ranges_wf(s: Seq<QueueIndexRange>) -> bool {
    &&& forall|j: int|
        0 <= j < s.len() ==> 0 <= (#[trigger] s[j]).from_id <= s[j].to_id && s[j].to_id < i64::MAX
    &&& forall|j: int, k: int| #![trigger s[j], s[k]] 0 <= j < k < s.len() ==> s[j].to_id + 1 < s[k].from_id
}

pub open spec fn range_size(r: QueueIndexRange) -> int {
    r.to_id - r.from_id + 1
}

/// The number of ids covered by the ranges, counted range by range.
pub open spec fn ranges_total(s: Seq<QueueIndexRange>) -> int
    decreases s.len(),
{
    if s.len() == 0 {
        0
    } else {
        ranges_total(s.drop_last()) + range_size(s.last())
    }
}

/// The union of the non-empty ranges of `s`; a range with `from_id > to_id` holds nothing.
pub open spec fn snapshot_set(s: Seq<QueueIndexRange>) -> Set<int> {
    ranges_set(s)
}

pub proof fn lemma_contains_split(s: Seq<QueueIndexRange>, lo: int, mid: int, hi: int, id: int)
    requires
        lo <= mid <= hi,
    ensures
        contains_in(s, lo, hi, id) == (contains_in(s, lo, mid, id) || contains_in(s, mid, hi, id)),
{
    if contains_in(s, lo, hi, id) {
        let j = choose|j: int| lo <= j < hi && #[trigger] in_range(s[j], id);
        if j < mid {
            assert(contains_in(s, lo, mid, id));
        } else {
            assert(contains_in(s, mid, hi, id));
        }
    }
    if contains_in(s, lo, mid, id) {
        let j = choose|j: int| lo <= j < mid && #[trigger] in_range(s[j], id);
        assert(in_range(s[j], id));
    }
    if contains_in(s, mid, hi, id) {
        let j = choose|j: int| mid <= j < hi && #[trigger] in_range(s[j], id);
        assert(in_range(s[j], id));
    }
}

pub proof fn lemma_contains_one(s: Seq<QueueIndexRange>, j: int, id: int)
    ensures
        contains_in(s, j, j + 1, id) == in_range(s[j], id),
{
    if in_range(s[j], id) {
        assert(contains_in(s, j, j + 1, id));
    }
}

/// Indices of a subrange map to indices of the whole sequence.
pub proof fn lemma_contains_subrange(s: Seq<QueueIndexRange>, lo: int, hi: int, id: int)
    requires
        0 <= lo <= hi <= s.len(),
    ensures
        ranges_contain(s.subrange(lo, hi), id) == contains_in(s, lo, hi, id),
{
    let t = s.subrange(lo, hi);
    if ranges_contain(t, id) {
        let j = choose|j: int| 0 <= j < t.len() && #[trigger] in_range(t[j], id);
        assert(in_range(s[lo + j], id));
    }
    if contains_in(s, lo, hi, id) {
        let j = choose|j: int| lo <= j < hi && #[trigger] in_range(s[j], id);
        assert(t[j - lo] == s[j]);
        assert(in_range(t[j - lo], id));
    }
}

pub proof fn lemma_contains_concat(x: Seq<QueueIndexRange>, y: Seq<QueueIndexRange>, id: int)
    ensures
        ranges_contain(x + y, id) == (ranges_contain(x, id) || ranges_contain(y, id)),
{
    let z = x + y;
    lemma_contains_split(z, 0, x.len() as int, z.len() as int, id);
    assert(z.subrange(0, x.len() as int) =~= x);
    assert(z.subrange(x.len() as int, z.len() as int) =~= y);
    lemma_contains_subrange(z, 0, x.len() as int, id);
    lemma_contains_subrange(z, x.len() as int, z.len() as int, id);
}

/// In a well-formed sequence, the first range starts at the smallest held id.
pub proof fn lemma_first_is_min(s: Seq<QueueIndexRange>, id: int)
    requires
        ranges_wf(s),
        s.len() > 0,
        ranges_contain(s, id),
    ensures
        s[0].from_id <= id,
{
    let j = choose|j: int| 0 <= j < s.len() && #[trigger] in_range(s[j], id);
    if j > 0 {
        assert(s[0].to_id + 1 < s[j].from_id);
    }
}

pub proof fn lemma_total_nonneg(s: Seq<QueueIndexRange>)
    requires
        ranges_wf(s),
    ensures
        ranges_total(s) >= 0,
    decreases s.len(),
{
    if s.len() > 0 {
        let d = s.drop_last();
        assert(ranges_wf(d)) by {
            assert forall|j: int, k: int| 0 <= j < k < d.len() implies d[j].to_id + 1
                < d[k].from_id by {
                assert(d[j] == s[j] && d[k] == s[k]);
            }
        }
        lemma_total_nonneg(d);
        assert(s.last() == s[s.len() - 1]);
    }
}

/// The total is bounded by the span from the first held id to the last.
pub proof fn lemma_total_bound(s: Seq<QueueIndexRange>)
    requires
        ranges_wf(s),
        s.len() > 0,
    ensures
        ranges_total(s) <= s.last().to_id + 1 - s[0].from_id,
        ranges_total(s) <= i64::MAX,
    decreases s.len(),
{
    let d = s.drop_last();
    assert(ranges_wf(d)) by {
        assert forall|j: int, k: int| 0 <= j < k < d.len() implies d[j].to_id + 1
            < d[k].from_id by {
            assert(d[j] == s[j] && d[k] == s[k]);
        }
    }
    assert(s.last() == s[s.len() - 1]);
    assert(0 <= s[0].from_id);
    assert(s[s.len() - 1].from_id <= s[s.len() - 1].to_id < i64::MAX);
    if d.len() > 0 {
        lemma_total_bound(d);
        assert(d.last() == s[s.len() - 2]);
        assert(d[0] == s[0]);
        assert(s[s.len() - 2].to_id + 1 < s[s.len() - 1].from_id);
        assert(s[s.len() - 2].from_id <= s[s.len() - 2].to_id);
    } else {
        assert(ranges_total(d) == 0);
    }
}

/// Totals of prefixes grow with the prefix.
pub proof fn lemma_total_prefix(s: Seq<QueueIndexRange>, k: int)
    requires
        ranges_wf(s),
        0 <= k <= s.len(),
    ensures
        0 <= ranges_total(s.take(k)) <= ranges_total(s),
    decreases s.len() - k,
{
    lemma_total_nonneg(s);
    lemma_wf_subrange(s, 0, k);
    assert(s.take(k) =~= s.subrange(0, k));
    lemma_total_nonneg(s.take(k));
    if k < s.len() {
        lemma_total_prefix(s, k + 1);
        let t = s.take(k + 1);
        assert(t.drop_last() =~= s.take(k));
        assert(t.last() == s[k]);
        assert(s[k].from_id <= s[k].to_id);
    } else {
        assert(s.take(k) =~= s);
    }
}

/// The set covered by well-formed ranges is finite and has `ranges_total` elements.
pub proof fn lemma_set_len(s: Seq<QueueIndexRange>)
    requires
        ranges_wf(s),
    ensures
        ranges_set(s).finite(),
        ranges_set(s).len() == ranges_total(s),
    decreases s.len(),
{
    if s.len() == 0 {
        assert(ranges_set(s) =~= Set::<int>::empty());
    } else {
        let d = s.drop_last();
        let last = s.last();
        assert(ranges_wf(d)) by {
            assert forall|j: int, k: int| 0 <= j < k < d.len() implies d[j].to_id + 1
                < d[k].from_id by {
                assert(d[j] == s[j] && d[k] == s[k]);
            }
        }
        lemma_set_len(d);
        let r = set_int_range(last.from_id as int, last.to_id + 1);
        lemma_int_range(last.from_id as int, last.to_id + 1);
        assert(s =~= d.push(last));
        assert forall|id: int| #[trigger] ranges_set(s).contains(id) == (ranges_set(d).contains(id)
            || r.contains(id)) by {
            lemma_contains_split(s, 0, d.len() as int, s.len() as int, id);
            lemma_contains_subrange(s, 0, d.len() as int, id);
            assert(s.subrange(0, d.len() as int) =~= d);
            lemma_contains_one(s, d.len() as int, id);
        }
        assert(ranges_set(s) =~= ranges_set(d) + r);
        assert(ranges_set(d).disjoint(r)) by {
            assert forall|id: int| ranges_set(d).contains(id) implies !r.contains(id) by {
                let j = choose|j: int| 0 <= j < d.len() && #[trigger] in_range(d[j], id);
                assert(d[j] == s[j]);
                assert(s[j].to_id + 1 < s[s.len() - 1].from_id);
            }
        }
        lemma_set_disjoint_lens(ranges_set(d), r);
    }
}

/// A range in a well-formed sequence: the ranges before it end before it, those after start after it.
pub proof fn lemma_wf_subrange(s: Seq<QueueIndexRange>, lo: int, hi: int)
    requires
        ranges_wf(s),
        0 <= lo <= hi <= s.len(),
    ensures
        ranges_wf(s.subrange(lo, hi)),
{
    let t = s.subrange(lo, hi);
    assert forall|j: int, k: int| 0 <= j < k < t.len() implies t[j].to_id + 1
        < t[k].from_id by {
        assert(t[j] == s[lo + j] && t[k] == s[lo + k]);
    }
    assert forall|j: int| 0 <= j < t.len() implies 0 <= (#[trigger] t[j]).from_id <= t[j].to_id
        && t[j].to_id < i64::MAX by {
        assert(t[j] == s[lo + j]);
    }
}


pub proof fn lemma_contains_three(p: Seq<QueueIndexRange>, m: QueueIndexRange, q: Seq<QueueIndexRange>, id: int)
    ensures
        ranges_contain(p.push(m) + q, id) == (ranges_contain(p, id) || in_range(m, id)
            || ranges_contain(q, id)),
{
    lemma_contains_concat(p.push(m), q, id);
    assert(p.push(m) =~= p + seq![m]);
    lemma_contains_concat(p, seq![m], id);
    lemma_contains_one(seq![m], 0, id);
}

/// Two well-formed sequences, the first ending before the second starts, join into a well-formed one.
pub proof fn lemma_wf_concat(p: Seq<QueueIndexRange>, q: Seq<QueueIndexRange>)
    requires
        ranges_wf(p),
        ranges_wf(q),
        p.len() > 0 && q.len() > 0 ==> p.last().to_id + 1 < q[0].from_id,
    ensures
        ranges_wf(p + q),
{
    let t = p + q;
    assert forall|j: int| 0 <= j < t.len() implies 0 <= (#[trigger] t[j]).from_id <= t[j].to_id
        && t[j].to_id < i64::MAX by {
        if j < p.len() {
            assert(t[j] == p[j]);
        } else {
            assert(t[j] == q[j - p.len()]);
        }
    }
    assert forall|j: int, k: int| 0 <= j < k < t.len() implies t[j].to_id + 1 < t[k].from_id by {
        if k < p.len() {
            assert(t[j] == p[j] && t[k] == p[k]);
        } else if j >= p.len() {
            assert(t[j] == q[j - p.len()] && t[k] == q[k - p.len()]);
        } else {
            assert(t[j] == p[j] && t[k] == q[k - p.len()]);
            let pl = p.len() - 1;
            if j < pl {
                assert(p[j].to_id + 1 < p[pl].from_id);
            }
            assert(p[pl] == p.last());
            assert(p[pl].from_id <= p[pl].to_id);
            if k - p.len() > 0 {
                assert(q[0].to_id + 1 < q[k - p.len()].from_id);
            }
            assert(q[0].from_id <= q[0].to_id);
        }
    }
}

pub proof fn lemma_wf_single(m: QueueIndexRange)
    requires
        0 <= m.from_id <= m.to_id < i64::MAX,
    ensures
        ranges_wf(seq![m]),
{
}

/// Replacing range `i` of a well-formed sequence by ranges `m` (fitting into its gap) keeps it well formed.
pub proof fn lemma_wf_replace(s: Seq<QueueIndexRange>, i: int, m: Seq<QueueIndexRange>)
    requires
        ranges_wf(s),
        0 <= i < s.len(),
        ranges_wf(m),
        m.len() > 0 && i > 0 ==> s[i - 1].to_id + 1 < m[0].from_id,
        m.len() > 0 && i + 1 < s.len() ==> m.last().to_id + 1 < s[i + 1].from_id,
    ensures
        ranges_wf(s.subrange(0, i) + m + s.subrange(i + 1, s.len() as int)),
{
    let p = s.subrange(0, i);
    let q = s.subrange(i + 1, s.len() as int);
    lemma_wf_subrange(s, 0, i);
    lemma_wf_subrange(s, i + 1, s.len() as int);
    if p.len() > 0 {
        assert(p.last() == s[i - 1]);
    }
    if q.len() > 0 {
        assert(q[0] == s[i + 1]);
    }
    lemma_wf_concat(p, m);
    if m.len() > 0 {
        if q.len() > 0 {
            assert((p + m).last() == m.last());
        }
    } else {
        assert(p + m =~= p);
        if p.len() > 0 && q.len() > 0 {
            assert(s[i - 1].to_id + 1 < s[i + 1].from_id);
        }
    }
    lemma_wf_concat(p + m, q);
}

/// What a sequence with range `i` replaced by `m` covers.
pub proof fn lemma_contains_replace(s: Seq<QueueIndexRange>, i: int, m: Seq<QueueIndexRange>, id: int)
    requires
        0 <= i < s.len(),
    ensures
        ranges_contain(s.subrange(0, i) + m + s.subrange(i + 1, s.len() as int), id) == (
        contains_in(s, 0, i, id) || ranges_contain(m, id) || contains_in(s, i + 1, s.len() as int, id)),
        ranges_contain(s, id) == (contains_in(s, 0, i, id) || in_range(s[i], id) || contains_in(
            s,
            i + 1,
            s.len() as int,
            id,
        )),
{
    let p = s.subrange(0, i);
    let q = s.subrange(i + 1, s.len() as int);
    lemma_contains_concat(p + m, q, id);
    lemma_contains_concat(p, m, id);
    lemma_contains_subrange(s, 0, i, id);
    lemma_contains_subrange(s, i + 1, s.len() as int, id);
    lemma_contains_split(s, 0, i, s.len() as int, id);
    lemma_contains_split(s, i, i + 1, s.len() as int, id);
    lemma_contains_one(s, i, id);
}

/// A held id lies in exactly one range.
pub proof fn lemma_unique_range(s: Seq<QueueIndexRange>, i: int, id: int)
    requires
        ranges_wf(s),
        0 <= i < s.len(),
        in_range(s[i], id),
    ensures
        !contains_in(s, 0, i, id),
        !contains_in(s, i + 1, s.len() as int, id),
{
    if contains_in(s, 0, i, id) {
        let j = choose|j: int| 0 <= j < i && #[trigger] in_range(s[j], id);
        assert(s[j].to_id + 1 < s[i].from_id);
    }
    if contains_in(s, i + 1, s.len() as int, id) {
        let j = choose|j: int| i + 1 <= j < s.len() && #[trigger] in_range(s[j], id);
        assert(s[i].to_id + 1 < s[j].from_id);
    }
}

/// A queue of message ids.
pub struct QueueWithIntervals {
    intervals: Vec<QueueIndexRange>,
}

impl QueueWithIntervals {
    #[verifier::type_invariant]
    spec fn inv(self) -> bool {
        ranges_wf(self.intervals@)
    }

    /// The ranges that hold the ids, in ascending order.
    pub closed spec fn ranges(&self) -> Seq<QueueIndexRange> {
        self.intervals@
    }
}

impl View for QueueWithIntervals {
    type V = Set<int>;

    open spec fn view(&self) -> Set<int> {
        ranges_set(self.ranges())
    }
}

impl QueueWithIntervals {
    pub fn new() -> (result: Self)
        ensures
            result@ == Set::<int>::empty(),
    {
        let result = QueueWithIntervals { intervals: Vec::new() };
        assert(result@ =~= Set::<int>::empty());
        result
    }

    /// Brings the facts that every queue keeps into the proof: its ranges are well
    /// formed, its set is finite and holds valid ids only.
    pub fn well_formed_facts(&self)
        ensures
            ranges_wf(self.ranges()),
            self@.finite(),
            forall|id: int| #[trigger] self@.contains(id) ==> valid_message_id(id),
    {
        proof {
            use_type_invariant(self);
            lemma_set_len(self.intervals@);
            assert forall|id: int| #[trigger] self@.contains(id) implies valid_message_id(id) by {
                let s = self.intervals@;
                let j = choose|j: int| 0 <= j < s.len() && #[trigger] in_range(s[j], id);
                assert(0 <= s[j].from_id);
            }
        }
    }

    /// The number of ids in the queue.
    pub fn len(&self) -> (result: i64)
        ensures
            result == self@.len(),
            self@.finite(),
            0 <= result,
    {
        proof {
            use_type_invariant(self);
            lemma_set_len(self.intervals@);
            lemma_total_nonneg(self.intervals@);
            if self.intervals@.len() > 0 {
                lemma_total_bound(self.intervals@);
            }
        }
        let ghost s = self.intervals@;
        let mut total: i64 = 0;
        let mut i: usize = 0;
        while i < self.intervals.len()
            invariant
                s == self.intervals@,
                ranges_wf(s),
                0 <= i <= s.len(),
                total == ranges_total(s.take(i as int)),
                ranges_total(s) <= i64::MAX,
            decreases s.len() - i,
        {
            proof {
                lemma_total_prefix(s, i + 1);
                let t = s.take(i + 1);
                assert(t.drop_last() =~= s.take(i as int));
                assert(t.last() == s[i as int]);
            }
            let r = self.intervals[i];
            total = total + (r.to_id - r.from_id + 1);
            i = i + 1;
        }
        proof {
            assert(s.take(s.len() as int) =~= s);
        }
        total
    }

    /// The smallest id in the queue, without removing it.
    pub fn peek(&self) -> (result: Option<MessageId>)
        ensures
            match result {
                None => self@ == Set::<int>::empty(),
                Some(id) => self@.contains(id as int) && forall|x: int|
                    #[trigger] self@.contains(x) ==> id <= x,
            },
    {
        proof {
            use_type_invariant(self);
        }
        if self.intervals.len() == 0 {
            assert(self@ =~= Set::<int>::empty());
            None
        } else {
            let first = self.intervals[0];
            proof {
                let s = self.intervals@;
                assert(in_range(s[0], first.from_id as int));
                assert forall|x: int| #[trigger] self@.contains(x) implies first.from_id <= x by {
                    lemma_first_is_min(s, x);
                }
            }
            Some(first.from_id)
        }
    }

    /// The smallest id in the queue.
    pub fn get_min_id(&self) -> (result: Option<MessageId>)
        ensures
            match result {
                None => self@ == Set::<int>::empty(),
                Some(id) => self@.contains(id as int) && forall|x: int|
                    #[trigger] self@.contains(x) ==> id <= x,
            },
    {
        self.peek()
    }



    fn take_intervals(&mut self) -> (v: Vec<QueueIndexRange>)
        ensures
            v@ == old(self).intervals@,
            final(self).intervals@ == Seq::<QueueIndexRange>::empty(),
    {
        let mut v = Vec::new();
        std::mem::swap(&mut v, &mut self.intervals);
        v
    }

    /// Adds every id of `[from_id, to_id]`.
    pub fn enqueue_range(&mut self, from_id: MessageId, to_id: MessageId)
        requires
            valid_message_id(from_id as int),
            valid_message_id(to_id as int),
            from_id <= to_id,
        ensures
            final(self)@ == old(self)@ + set_int_range(from_id as int, to_id + 1),
    {
        proof {
            use_type_invariant(&*self);
        }
        let ghost s = self.intervals@;
        let n = self.intervals.len();
        let mut result: Vec<QueueIndexRange> = Vec::new();
        let mut i: usize = 0;
        while i < n && self.intervals[i].to_id + 1 < from_id
            invariant
                s == self.intervals@,
                n == s.len(),
                ranges_wf(s),
                0 <= i <= n,
                result@ == s.subrange(0, i as int),
                forall|j: int| 0 <= j < i ==> #[trigger] s[j].to_id + 1 < from_id,
            decreases n - i,
        {
            result.push(self.intervals[i]);
            i = i + 1;
            assert(result@ =~= s.subrange(0, i as int));
        }
        let i0 = i;
        let mut lo = from_id;
        let mut hi = to_id;
        while i < n && self.intervals[i].from_id <= hi + 1
            invariant
                s == self.intervals@,
                n == s.len(),
                ranges_wf(s),
                i0 <= i <= n,
                result@ == s.subrange(0, i0 as int),
                0 <= lo <= from_id,
                to_id <= hi < i64::MAX,
                i0 < n ==> s[i0 as int].to_id + 1 >= from_id,
                forall|id: int|
                    #![trigger contains_in(s, i0 as int, i as int, id)]
                    (contains_in(s, i0 as int, i as int, id) || (from_id <= id <= to_id)) <==> (lo <= id
                        <= hi),
                forall|j: int| 0 <= j < i0 ==> #[trigger] s[j].to_id + 1 < lo,
            decreases n - i,
        {
            let r = self.intervals[i];
            proof {
                if i > i0 {
                    assert(s[i0 as int].to_id + 1 < s[i as int].from_id);
                    assert(s[i0 as int].from_id <= s[i0 as int].to_id);
                }
                assert(r.from_id <= r.to_id);
                assert forall|j: int| 0 <= j < i0 implies #[trigger] s[j].to_id + 1 < r.from_id by {
                    assert(s[j].to_id + 1 < s[i as int].from_id);
                }
                assert forall|id: int|
                    #![trigger contains_in(s, i0 as int, i + 1, id)]
                    (contains_in(s, i0 as int, i + 1, id) || (from_id <= id <= to_id)) <==> ((if r.from_id
                        < lo {
                        r.from_id
                    } else {
                        lo
                    }) <= id <= (if r.to_id > hi {
                        r.to_id
                    } else {
                        hi
                    })) by {
                    lemma_contains_split(s, i0 as int, i as int, i + 1, id);
                    lemma_contains_one(s, i as int, id);
                }
            }
            if r.from_id < lo {
                lo = r.from_id;
            }
            if r.to_id > hi {
                hi = r.to_id;
            }
            i = i + 1;
        }
        let i1 = i;
        let mid = QueueIndexRange { from_id: lo, to_id: hi };
        result.push(mid);
        let ghost p = s.subrange(0, i0 as int);
        proof {
            assert(result@ =~= p.push(mid));
        }
        while i < n
            invariant
                s == self.intervals@,
                n == s.len(),
                i1 <= i <= n,
                result@ == p.push(mid) + s.subrange(i1 as int, i as int),
            decreases n - i,
        {
            result.push(self.intervals[i]);
            i = i + 1;
            assert(result@ =~= p.push(mid) + s.subrange(i1 as int, i as int));
        }
        proof {
            let q = s.subrange(i1 as int, n as int);
            lemma_wf_subrange(s, 0, i0 as int);
            lemma_wf_subrange(s, i1 as int, n as int);
            lemma_wf_single(mid);
            assert(p.push(mid) =~= p + seq![mid]);
            if p.len() > 0 {
                assert(p.last() == s[i0 - 1]);
            }
            lemma_wf_concat(p, seq![mid]);
            if q.len() > 0 {
                assert(q[0] == s[i1 as int]);
                assert((p + seq![mid]).last() == mid);
            }
            lemma_wf_concat(p + seq![mid], q);
            assert forall|id: int| #[trigger] ranges_set(result@).contains(id) == (ranges_set(s).contains(
                id,
            ) || set_int_range(from_id as int, to_id + 1).contains(id)) by {
                lemma_contains_three(p, mid, q, id);
                lemma_contains_subrange(s, 0, i0 as int, id);
                lemma_contains_subrange(s, i1 as int, n as int, id);
                lemma_contains_split(s, 0, i0 as int, n as int, id);
                lemma_contains_split(s, i0 as int, i1 as int, n as int, id);
            }
            assert(ranges_set(result@) =~= ranges_set(s) + set_int_range(from_id as int, to_id + 1));
        }
        self.intervals = result;
    }

    /// Adds one id.
    pub fn enqueue(&mut self, id: MessageId)
        requires
            valid_message_id(id as int),
        ensures
            final(self)@ == old(self)@.insert(id as int),
    {
        self.enqueue_range(id, id);
        assert(old(self)@ + set_int_range(id as int, id + 1) =~= old(self)@.insert(id as int));
    }

    /// Removes and returns the smallest id.
    pub fn dequeue(&mut self) -> (result: Option<MessageId>)
        ensures
            match result {
                None => old(self)@ == Set::<int>::empty() && final(self)@ == old(self)@,
                Some(id) => old(self)@.contains(id as int) && (forall|x: int|
                    #[trigger] old(self)@.contains(x) ==> id <= x) && final(self)@ == old(self)@.remove(
                    id as int,
                ),
            },
    {
        proof {
            use_type_invariant(&*self);
        }
        let ghost s = self.intervals@;
        if self.intervals.len() == 0 {
            assert(self@ =~= Set::<int>::empty());
            return None;
        }
        let first = self.intervals[0];
        proof {
            assert(in_range(s[0], first.from_id as int));
            assert forall|x: int| #[trigger] old(self)@.contains(x) implies first.from_id <= x by {
                lemma_first_is_min(s, x);
            }
            lemma_unique_range(s, 0, first.from_id as int);
        }
        if first.from_id == first.to_id {
            proof {
                let m = Seq::<QueueIndexRange>::empty();
                lemma_wf_replace(s, 0, m);
                assert(s.remove(0) =~= s.subrange(0, 0) + m + s.subrange(1, s.len() as int));
                assert forall|id: int| #[trigger] ranges_set(s.remove(0)).contains(id) == ranges_set(
                    s,
                ).remove(first.from_id as int).contains(id) by {
                    lemma_contains_replace(s, 0, m, id);
                }
                assert(ranges_set(s.remove(0)) =~= ranges_set(s).remove(first.from_id as int));
            }
            let mut v = self.take_intervals();
            v.remove(0);
            self.intervals = v;
        } else {
            let next = QueueIndexRange { from_id: first.from_id + 1, to_id: first.to_id };
            proof {
                let m = seq![next];
                lemma_wf_single(next);
                lemma_wf_replace(s, 0, m);
                if s.len() > 1 {
                    assert(s[0].to_id + 1 < s[1].from_id);
                }
                assert(s.update(0, next) =~= s.subrange(0, 0) + m + s.subrange(1, s.len() as int));
                assert forall|id: int| #[trigger] ranges_set(s.update(0, next)).contains(id)
                    == ranges_set(s).remove(first.from_id as int).contains(id) by {
                    lemma_contains_replace(s, 0, m, id);
                    lemma_contains_one(m, 0, id);
                }
                assert(ranges_set(s.update(0, next)) =~= ranges_set(s).remove(first.from_id as int));
            }
            let mut v = self.take_intervals();
            v.set(0, next);
            self.intervals = v;
        }
        Some(first.from_id)
    }

    /// Removes one id; fails when the id is not in the queue.
    pub fn remove(&mut self, id: MessageId) -> (result: Result<(), QueueWithIntervalsError>)
        ensures
            result is Ok <==> old(self)@.contains(id as int),
            result is Err ==> result == Err::<(), QueueWithIntervalsError>(
                QueueWithIntervalsError::MessagesNotFound,
            ),
            final(self)@ == old(self)@.remove(id as int),
    {
        proof {
            use_type_invariant(&*self);
        }
        let ghost s = self.intervals@;
        let n = self.intervals.len();
        let mut i: usize = 0;
        while i < n && self.intervals[i].to_id < id
            invariant
                s == self.intervals@,
                n == s.len(),
                0 <= i <= n,
                forall|j: int| 0 <= j < i ==> #[trigger] s[j].to_id < id,
            decreases n - i,
        {
            i = i + 1;
        }
        if i == n || self.intervals[i].from_id > id {
            proof {
                assert forall|j: int| 0 <= j < n implies !#[trigger] in_range(s[j], id as int) by {
                    if j > i {
                        assert(s[i as int].to_id + 1 < s[j].from_id);
                        assert(s[i as int].from_id <= s[i as int].to_id);
                    }
                }
                assert(!old(self)@.contains(id as int));
                assert(old(self)@.remove(id as int) =~= old(self)@);
            }
            return Err(QueueWithIntervalsError::MessagesNotFound);
        }
        let r = self.intervals[i];
        let ghost ii = i as int;
        proof {
            assert(in_range(s[ii], id as int));
            assert(old(self)@.contains(id as int));
            lemma_unique_range(s, ii, id as int);
            if ii > 0 {
                assert(s[ii - 1].to_id + 1 < s[ii].from_id);
            }
            if ii + 1 < n {
                assert(s[ii].to_id + 1 < s[ii + 1].from_id);
            }
        }
        if r.from_id == r.to_id {
            proof {
                let m = Seq::<QueueIndexRange>::empty();
                lemma_wf_replace(s, ii, m);
                assert(s.remove(ii) =~= s.subrange(0, ii) + m + s.subrange(ii + 1, n as int));
                assert forall|x: int| #[trigger] ranges_set(s.remove(ii)).contains(x) == ranges_set(
                    s,
                ).remove(id as int).contains(x) by {
                    lemma_contains_replace(s, ii, m, x);
                }
                assert(ranges_set(s.remove(ii)) =~= ranges_set(s).remove(id as int));
            }
            let mut v = self.take_intervals();
            v.remove(i);
            self.intervals = v;
        } else if id == r.from_id || id == r.to_id {
            let next = if id == r.from_id {
                QueueIndexRange { from_id: r.from_id + 1, to_id: r.to_id }
            } else {
                QueueIndexRange { from_id: r.from_id, to_id: r.to_id - 1 }
            };
            proof {
                let m = seq![next];
                lemma_wf_single(next);
                lemma_wf_replace(s, ii, m);
                assert(s.update(ii, next) =~= s.subrange(0, ii) + m + s.subrange(ii + 1, n as int));
                assert forall|x: int| #[trigger] ranges_set(s.update(ii, next)).contains(x)
                    == ranges_set(s).remove(id as int).contains(x) by {
                    lemma_contains_replace(s, ii, m, x);
                    lemma_contains_one(m, 0, x);
                }
                assert(ranges_set(s.update(ii, next)) =~= ranges_set(s).remove(id as int));
            }
            let mut v = self.take_intervals();
            v.set(i, next);
            self.intervals = v;
        } else {
            let left = QueueIndexRange { from_id: r.from_id, to_id: id - 1 };
            let right = QueueIndexRange { from_id: id + 1, to_id: r.to_id };
            proof {
                let m1 = seq![left];
                lemma_wf_single(left);
                lemma_wf_replace(s, ii, m1);
                assert(s.update(ii, left) =~= s.subrange(0, ii) + m1 + s.subrange(ii + 1, n as int));
            }
            let mut v = self.take_intervals();
            v.set(i, left);
            proof {
                let m = seq![left, right];
                lemma_wf_single(left);
                lemma_wf_single(right);
                assert(m =~= seq![left] + seq![right]);
                lemma_wf_concat(seq![left], seq![right]);
                lemma_wf_replace(s, ii, m);
                assert(s.update(ii, left).insert(ii + 1, right) =~= s.subrange(0, ii) + m + s.subrange(
                    ii + 1,
                    n as int,
                ));
                assert forall|x: int| #[trigger] ranges_set(s.update(ii, left).insert(ii + 1, right)).contains(
                    x,
                ) == ranges_set(s).remove(id as int).contains(x) by {
                    lemma_contains_replace(s, ii, m, x);
                    lemma_contains_split(m, 0, 1, 2, x);
                    lemma_contains_one(m, 0, x);
                    lemma_contains_one(m, 1, x);
                }
                assert(ranges_set(s.update(ii, left).insert(ii + 1, right)) =~= ranges_set(s).remove(
                    id as int,
                ));
            }
            v.insert(i + 1, right);
            self.intervals = v;
        }
        Ok(())
    }

    /// Adds every id of `other`.
    pub fn merge_with(&mut self, other: &QueueWithIntervals)
        ensures
            final(self)@ == old(self)@ + other@,
    {
        let snapshot = other.get_snapshot();
        let n = snapshot.len();
        let mut k: usize = 0;
        while k < n
            invariant
                n == snapshot@.len(),
                ranges_wf(snapshot@),
                other@ == ranges_set(snapshot@),
                0 <= k <= n,
                self@ == old(self)@ + Set::new(|id: int| contains_in(snapshot@, 0, k as int, id)),
            decreases n - k,
        {
            let r = snapshot[k];
            proof {
                assert(0 <= snapshot@[k as int].from_id);
            }
            self.enqueue_range(r.from_id, r.to_id);
            proof {
                assert forall|id: int|
                    #![trigger contains_in(snapshot@, 0, k + 1, id)]
                    contains_in(snapshot@, 0, k + 1, id) == (contains_in(snapshot@, 0, k as int, id)
                        || set_int_range(r.from_id as int, r.to_id + 1).contains(id)) by {
                    lemma_contains_split(snapshot@, 0, k as int, k + 1, id);
                    lemma_contains_one(snapshot@, k as int, id);
                }
            }
            k = k + 1;
            assert(self@ =~= old(self)@ + Set::new(|id: int| contains_in(snapshot@, 0, k as int, id)));
        }
        assert(self@ =~= old(self)@ + other@);
    }

    /// A queue holding the ids of the given ranges; a range with `from_id > to_id` holds nothing.
    pub fn restore(intervals: Vec<QueueIndexRange>) -> (result: Self)
        requires
            forall|j: int|
                0 <= j < intervals@.len() && #[trigger] intervals@[j].from_id <= intervals@[j].to_id
                    ==> valid_message_id(intervals@[j].from_id as int) && valid_message_id(
                    intervals@[j].to_id as int,
                ),
        ensures
            result@ == snapshot_set(intervals@),
    {
        let mut result = QueueWithIntervals::new();
        let n = intervals.len();
        let mut k: usize = 0;
        while k < n
            invariant
                n == intervals@.len(),
                forall|j: int|
                    0 <= j < intervals@.len() && #[trigger] intervals@[j].from_id <= intervals@[j].to_id
                        ==> valid_message_id(intervals@[j].from_id as int) && valid_message_id(
                        intervals@[j].to_id as int,
                    ),
                0 <= k <= n,
                result@ == Set::new(|id: int| contains_in(intervals@, 0, k as int, id)),
            decreases n - k,
        {
            let r = intervals[k];
            if r.from_id <= r.to_id {
                result.enqueue_range(r.from_id, r.to_id);
            }
            proof {
                assert forall|id: int|
                    #![trigger contains_in(intervals@, 0, k + 1, id)]
                    contains_in(intervals@, 0, k + 1, id) == (contains_in(intervals@, 0, k as int, id)
                        || (r.from_id <= id <= r.to_id)) by {
                    lemma_contains_split(intervals@, 0, k as int, k + 1, id);
                    lemma_contains_one(intervals@, k as int, id);
                }
            }
            k = k + 1;
            assert(result@ =~= Set::new(|id: int| contains_in(intervals@, 0, k as int, id)));
        }
        assert(result@ =~= snapshot_set(intervals@));
        result
    }

    /// Replaces the content of the queue by the ids of the given ranges.
    pub fn reset(&mut self, intervals: Vec<QueueIndexRange>)
        requires
            forall|j: int|
                0 <= j < intervals@.len() && #[trigger] intervals@[j].from_id <= intervals@[j].to_id
                    ==> valid_message_id(intervals@[j].from_id as int) && valid_message_id(
                    intervals@[j].to_id as int,
                ),
        ensures
            final(self)@ == snapshot_set(intervals@),
    {
        *self = QueueWithIntervals::restore(intervals);
    }

    /// Removes every id.
    pub fn clean(&mut self)
        ensures
            final(self)@ == Set::<int>::empty(),
    {
        self.intervals = Vec::new();
        assert(self@ =~= Set::<int>::empty());
    }

    /// The ranges of the queue, ascending.
    pub fn get_snapshot(&self) -> (result: Vec<QueueIndexRange>)
        ensures
            result@ == self.ranges(),
            ranges_wf(result@),
            self@ == ranges_set(result@),
    {
        proof {
            use_type_invariant(self);
        }
        self.intervals.clone()
    }
}

/// The ranges a queue hands out as its snapshot are accepted by `restore`, and restoring them
/// gives back a queue with the same ids.
pub proof fn lemma_snapshot_restores(ranges: Seq<QueueIndexRange>, ids: Set<int>)
    requires
        ranges_wf(ranges),
        ids == ranges_set(ranges),
    ensures
        forall|j: int|
            0 <= j < ranges.len() && #[trigger] ranges[j].from_id <= ranges[j].to_id ==> valid_message_id(
                ranges[j].from_id as int,
            ) && valid_message_id(ranges[j].to_id as int),
        snapshot_set(ranges) == ids,
{
}

/// Ids leave a queue in increasing order: the id that `dequeue` hands out after another one is
/// larger than it.
pub proof fn lemma_dequeue_order(ids: Set<int>, first: int, second: int)
    requires
        ids.contains(first),
        forall|x: int| #[trigger] ids.contains(x) ==> first <= x,
        ids.remove(first).contains(second),
    ensures
        first < second,
{
    assert(ids.contains(second));
}

} // verus!
