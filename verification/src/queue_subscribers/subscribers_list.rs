//! The subscribers of one queue.
use vstd::prelude::*;

use crate::date_time::{positive_or_zero_micros, DateTimeAsMicroseconds};
use crate::queue_subscribers::queue_subscriber::{
    dead_on_delivery_at, same_identity, same_statistics, QueueSubscriber, QueueSubscriberDeliveryState,
};
use crate::queue_subscribers::subscriber_metrics::{
    ticked, ConnectionId, SubscriberId, DELIVERY_MODE_READY_TO_DELIVER, DELIVERY_MODE_RENTED,
};
use crate::queue_with_intervals::MessageId;
use crate::queues::queue_type::TopicQueueType;

verus! {

/// A queue with a single subscriber keeps at most one; the others keep any number.
pub enum SubscribersData {
    MultiSubscribers(Vec<QueueSubscriber>),
    SingleSubscriber(Option<QueueSubscriber>),
}

/// A subscriber found on delivery for too long.
pub struct DeadSubscriber {
    pub subscriber_id: SubscriberId,
    pub session_id: i64,
    /// Microseconds on delivery.
    pub duration: i64,
}

impl DeadSubscriber {
    pub fn new(subscriber: &QueueSubscriber, duration: i64) -> (result: Self)
        ensures
            result.subscriber_id == subscriber.id,
            result.session_id == subscriber.session_id,
            result.duration == duration,
    {
        DeadSubscriber { session_id: subscriber.session_id, subscriber_id: subscriber.id, duration }
    }
}

#[derive(Debug, PartialEq, Eq, Structural)]
pub enum SubscribeErrorResult {
    SubscriberWithIdExists,
    SubscriberOfSameConnectionExists,
}

pub struct SubscribersList {
    pub data: SubscribersData,
    pub snapshot_id: usize,
    pub last_unsubscribe: DateTimeAsMicroseconds,
}

pub open spec fn data_subscribers(data: SubscribersData) -> Seq<QueueSubscriber> {
    match data {
        SubscribersData::MultiSubscribers(v) => v@,
        SubscribersData::SingleSubscriber(single) => match single {
            Some(s) => seq![s],
            None => Seq::empty(),
        },
    }
}

/// The position of the subscriber with the given id, -1 when there is none.
pub open spec fn index_of_id(s: Seq<QueueSubscriber>, id: SubscriberId) -> int {
    if exists|i: int| 0 <= i < s.len() && (#[trigger] s[i]).id == id {
        choose|i: int| 0 <= i < s.len() && (#[trigger] s[i]).id == id
    } else {
        -1
    }
}

/// `b` is `a` after a second is closed in the metrics of each subscriber.
pub open spec fn list_ticked(a: SubscribersList, b: SubscribersList) -> bool {
    &&& b.is_single() == a.is_single()
    &&& b.snapshot_id == a.snapshot_id
    &&& b.last_unsubscribe == a.last_unsubscribe
    &&& b.subscribers().len() == a.subscribers().len()
    &&& forall|i: int| 0 <= i < a.subscribers().len() ==> {
        let x = #[trigger] a.subscribers()[i];
        let y = b.subscribers()[i];
        &&& same_identity(y, x)
        &&& y.delivery_state == x.delivery_state
        &&& ticked(x.metrics, y.metrics)
    }
}

/// The position of the subscriber of the given session, -1 when there is none.
pub open spec fn index_of_session(s: Seq<QueueSubscriber>, session_id: ConnectionId) -> int {
    if exists|i: int| 0 <= i < s.len() && (#[trigger] s[i]).session_id == session_id {
        choose|i: int| 0 <= i < s.len() && (#[trigger] s[i]).session_id == session_id
    } else {
        -1
    }
}

/// A subscriber as `subscribe` creates it.
pub open spec fn fresh_subscriber(
    s: QueueSubscriber,
    id: SubscriberId,
    topic_id: Seq<char>,
    queue_id: Seq<char>,
    session_id: ConnectionId,
    delivery_packet_version: i32,
) -> bool {
    &&& s.wf()
    &&& s.id == id
    &&& s.topic_id@ == topic_id
    &&& s.queue_id@ == queue_id
    &&& s.session_id == session_id
    &&& s.delivery_packet_version == delivery_packet_version
    &&& s.delivery_state == QueueSubscriberDeliveryState::ReadyToDeliver
    &&& s.metrics.delivery_mode == DELIVERY_MODE_READY_TO_DELIVER
    &&& s.metrics.active == 0
    &&& s.metrics.delivered_amount == 0
    &&& s.metrics.delivery_microseconds == 0
    &&& s.metrics.delivery_history@ == Seq::<i32>::empty()
}

/// The subscribers found on delivery for longer than `max_delivery_micros` at `now`, in list order.
pub open spec fn dead_subscribers(s: Seq<QueueSubscriber>, max_delivery_micros: i64, now: DateTimeAsMicroseconds) -> Seq<(SubscriberId, i64, int)>
    decreases s.len(),
{
    if s.len() == 0 {
        Seq::empty()
    } else {
        let rest = dead_subscribers(s.drop_last(), max_delivery_micros, now);
        let last = s.last();
        match last.delivery_state {
            QueueSubscriberDeliveryState::OnDelivery(data) => {
                let d = positive_or_zero_micros(
                    now.unix_microseconds as int,
                    data.inserted.unix_microseconds as int,
                );
                if d > max_delivery_micros {
                    rest.push((last.id, last.session_id, d))
                } else {
                    rest
                }
            },
            _ => rest,
        }
    }
}

/// `result` reports exactly the subscribers of `s` dead on delivery at `now`, in list order, and
/// is `None` when there is none.
pub open spec fn dead_report(result: Option<Vec<DeadSubscriber>>, s: Seq<QueueSubscriber>, max_delivery_micros: i64, now: DateTimeAsMicroseconds) -> bool {
    let d = dead_subscribers(s, max_delivery_micros, now);
    match result {
        None => d.len() == 0,
        Some(v) => {
            &&& d.len() > 0
            &&& v@.len() == d.len()
            &&& forall|i: int| 0 <= i < d.len() ==> (#[trigger] v@[i]).subscriber_id == d[i].0
                && v@[i].session_id == d[i].1 && v@[i].duration == d[i].2
        },
    }
}

/// The entries of `dead_subscribers(s, ..)` are the subscribers of `s` that are dead on delivery,
/// each with its session and the time it has been on delivery; with distinct subscriber ids in
/// `s`, no subscriber is named twice.
proof fn lemma_dead_subscribers_are_the_dead_ones(s: Seq<QueueSubscriber>, max_delivery_micros: i64, now: DateTimeAsMicroseconds)
    ensures
        forall|i: int|
            0 <= i < s.len() && (#[trigger] dead_on_delivery_at(s[i].delivery_state, max_delivery_micros, now)) is Some
                ==> exists|k: int|
                0 <= k < dead_subscribers(s, max_delivery_micros, now).len() && (#[trigger] dead_subscribers(
                    s,
                    max_delivery_micros,
                    now,
                )[k]).0 == s[i].id && dead_subscribers(s, max_delivery_micros, now)[k].1 == s[i].session_id
                    && dead_subscribers(s, max_delivery_micros, now)[k].2 == dead_on_delivery_at(
                    s[i].delivery_state,
                    max_delivery_micros,
                    now,
                )->0,
        forall|k: int|
            0 <= k < dead_subscribers(s, max_delivery_micros, now).len() ==> exists|i: int|
                0 <= i < s.len() && (#[trigger] s[i]).id == (#[trigger] dead_subscribers(s, max_delivery_micros, now)[k]).0
                    && s[i].session_id == dead_subscribers(s, max_delivery_micros, now)[k].1 && dead_on_delivery_at(
                    s[i].delivery_state,
                    max_delivery_micros,
                    now,
                ) == Some(dead_subscribers(s, max_delivery_micros, now)[k].2 as i64)
                    && dead_subscribers(s, max_delivery_micros, now)[k].2 == dead_subscribers(s, max_delivery_micros, now)[k].2 as i64,
        (forall|a: int, b: int| #![trigger s[a], s[b]] 0 <= a < b < s.len() ==> s[a].id != s[b].id) ==> forall|k1: int, k2: int|
            #![trigger dead_subscribers(s, max_delivery_micros, now)[k1], dead_subscribers(s, max_delivery_micros, now)[k2]]
            0 <= k1 < k2 < dead_subscribers(s, max_delivery_micros, now).len() ==> dead_subscribers(
                s,
                max_delivery_micros,
                now,
            )[k1].0 != dead_subscribers(s, max_delivery_micros, now)[k2].0,
    decreases s.len(),
{
    if s.len() > 0 {
        let p = s.drop_last();
        lemma_dead_subscribers_are_the_dead_ones(p, max_delivery_micros, now);
        let d = dead_subscribers(s, max_delivery_micros, now);
        let r = dead_subscribers(p, max_delivery_micros, now);
        let n = s.len() - 1;
        assert(s[n] == s.last());
        assert forall|k: int| 0 <= k < r.len() implies #[trigger] d[k] == r[k] by {}
        assert forall|i: int|
            0 <= i < s.len() && (#[trigger] dead_on_delivery_at(s[i].delivery_state, max_delivery_micros, now)) is Some
                implies exists|k: int|
                0 <= k < d.len() && (#[trigger] d[k]).0 == s[i].id && d[k].1 == s[i].session_id && d[k].2
                    == dead_on_delivery_at(s[i].delivery_state, max_delivery_micros, now)->0 by {
            if i < n {
                assert(p[i] == s[i]);
                assert(dead_on_delivery_at(p[i].delivery_state, max_delivery_micros, now) is Some);
                let k = choose|k: int|
                    0 <= k < r.len() && (#[trigger] r[k]).0 == p[i].id && r[k].1 == p[i].session_id && r[k].2
                        == dead_on_delivery_at(p[i].delivery_state, max_delivery_micros, now)->0;
                assert(d[k] == r[k]);
            } else {
                assert(d[r.len() as int].0 == s[i].id);
            }
        }
        assert forall|k: int| 0 <= k < d.len() implies exists|i: int|
            0 <= i < s.len() && (#[trigger] s[i]).id == (#[trigger] d[k]).0 && s[i].session_id == d[k].1
                && dead_on_delivery_at(s[i].delivery_state, max_delivery_micros, now) == Some(d[k].2 as i64) && d[k].2
                == d[k].2 as i64 by {
            if k < r.len() {
                assert(d[k] == r[k]);
                let i = choose|i: int|
                    0 <= i < p.len() && (#[trigger] p[i]).id == (#[trigger] r[k]).0 && p[i].session_id == r[k].1
                        && dead_on_delivery_at(p[i].delivery_state, max_delivery_micros, now) == Some(r[k].2 as i64)
                        && r[k].2 == r[k].2 as i64;
                assert(s[i] == p[i]);
            } else {
                assert(s[n].id == d[k].0);
            }
        }
        if forall|a: int, b: int| #![trigger s[a], s[b]] 0 <= a < b < s.len() ==> s[a].id != s[b].id {
            assert forall|a: int, b: int| #![trigger p[a], p[b]] 0 <= a < b < p.len() implies p[a].id != p[b].id by {
                assert(s[a] == p[a] && s[b] == p[b]);
            }
            assert forall|k1: int, k2: int|
                #![trigger d[k1], d[k2]]
                0 <= k1 < k2 < d.len() implies d[k1].0 != d[k2].0 by {
                assert(d[k1] == r[k1]);
                if k2 < r.len() {
                    assert(d[k2] == r[k2]);
                } else {
                    let i = choose|i: int|
                        0 <= i < p.len() && (#[trigger] p[i]).id == (#[trigger] r[k1]).0 && p[i].session_id == r[k1].1
                            && dead_on_delivery_at(p[i].delivery_state, max_delivery_micros, now) == Some(r[k1].2 as i64)
                            && r[k1].2 == r[k1].2 as i64;
                    assert(s[i] == p[i]);
                    assert(s[i].id != s[n].id);
                }
            }
        }
    }
}

/// `result` names every subscriber of `s` on delivery for longer than `max_delivery_micros` at
/// `now`, with its session and how long it has been on delivery, and names no other; with distinct
/// ids in `s` it names none twice; there is no report exactly when no subscriber is dead.
pub open spec fn names_the_dead(
    result: Option<Vec<DeadSubscriber>>,
    s: Seq<QueueSubscriber>,
    max_delivery_micros: i64,
    now: DateTimeAsMicroseconds,
) -> bool {
    &&& (forall|i: int|
        0 <= i < s.len() && (#[trigger] dead_on_delivery_at(s[i].delivery_state, max_delivery_micros, now)) is Some
            ==> (result matches Some(v) && exists|k: int|
            0 <= k < v@.len() && (#[trigger] v@[k]).subscriber_id == s[i].id && v@[k].session_id == s[i].session_id
                && v@[k].duration == dead_on_delivery_at(s[i].delivery_state, max_delivery_micros, now)->0))
    &&& (result matches Some(v) ==> forall|k: int|
        0 <= k < v@.len() ==> exists|i: int|
            0 <= i < s.len() && (#[trigger] s[i]).id == (#[trigger] v@[k]).subscriber_id && s[i].session_id
                == v@[k].session_id && dead_on_delivery_at(s[i].delivery_state, max_delivery_micros, now) == Some(
                v@[k].duration,
            ))
    &&& ((forall|a: int, b: int| #![trigger s[a], s[b]] 0 <= a < b < s.len() ==> s[a].id != s[b].id) ==> (
    result matches Some(v) ==> forall|k1: int, k2: int|
        #![trigger v@[k1], v@[k2]]
        0 <= k1 < k2 < v@.len() ==> v@[k1].subscriber_id != v@[k2].subscriber_id))
    &&& (result is None <==> forall|i: int|
        0 <= i < s.len() ==> (#[trigger] dead_on_delivery_at(s[i].delivery_state, max_delivery_micros, now)) is None)
}

/// A dead-on-delivery report names every subscriber of the list that is on delivery for longer
/// than `max_delivery_micros` at `now`, with its session and how long it has been on delivery;
/// it names no other subscriber, and, the ids of the list being distinct, none twice (so it has as
/// many entries as there are such subscribers). There is no report exactly when no subscriber is
/// dead on delivery.
#[verifier::spinoff_prover]
#[verifier::rlimit(80)]
pub proof fn lemma_dead_report_names_every_dead_subscriber(
    result: Option<Vec<DeadSubscriber>>,
    s: Seq<QueueSubscriber>,
    max_delivery_micros: i64,
    now: DateTimeAsMicroseconds,
)
    requires
        dead_report(result, s, max_delivery_micros, now),
    ensures
        (forall|i: int|
            0 <= i < s.len() && (#[trigger] dead_on_delivery_at(s[i].delivery_state, max_delivery_micros, now)) is Some
                ==> (result matches Some(v) && exists|k: int|
                0 <= k < v@.len() && (#[trigger] v@[k]).subscriber_id == s[i].id && v@[k].session_id == s[i].session_id
                    && v@[k].duration == dead_on_delivery_at(s[i].delivery_state, max_delivery_micros, now)->0)),
        (result matches Some(v) ==> forall|k: int|
            0 <= k < v@.len() ==> exists|i: int|
                0 <= i < s.len() && (#[trigger] s[i]).id == (#[trigger] v@[k]).subscriber_id && s[i].session_id
                    == v@[k].session_id && dead_on_delivery_at(s[i].delivery_state, max_delivery_micros, now) == Some(
                    v@[k].duration,
                )),
        ((forall|a: int, b: int| #![trigger s[a], s[b]] 0 <= a < b < s.len() ==> s[a].id != s[b].id) ==> (
        result matches Some(v) ==> forall|k1: int, k2: int|
            #![trigger v@[k1], v@[k2]]
            0 <= k1 < k2 < v@.len() ==> v@[k1].subscriber_id != v@[k2].subscriber_id)),
        (result is None <==> forall|i: int|
            0 <= i < s.len() ==> (#[trigger] dead_on_delivery_at(s[i].delivery_state, max_delivery_micros, now)) is None),
{
    let d = dead_subscribers(s, max_delivery_micros, now);
    assert forall|i: int|
        0 <= i < s.len() && (#[trigger] dead_on_delivery_at(s[i].delivery_state, max_delivery_micros, now)) is Some
            implies (result matches Some(v) && exists|k: int|
            0 <= k < v@.len() && (#[trigger] v@[k]).subscriber_id == s[i].id && v@[k].session_id == s[i].session_id
                && v@[k].duration == dead_on_delivery_at(s[i].delivery_state, max_delivery_micros, now)->0) by {
        lemma_dead_subscribers_are_the_dead_ones(s, max_delivery_micros, now);
        let k = choose|k: int|
            0 <= k < d.len() && (#[trigger] d[k]).0 == s[i].id && d[k].1 == s[i].session_id && d[k].2
                == dead_on_delivery_at(s[i].delivery_state, max_delivery_micros, now)->0;
        let v = result->0;
        assert(v@[k].subscriber_id == d[k].0);
    }
    if let Some(v) = result {
        assert forall|k: int| 0 <= k < v@.len() implies exists|i: int|
            0 <= i < s.len() && (#[trigger] s[i]).id == (#[trigger] v@[k]).subscriber_id && s[i].session_id
                == v@[k].session_id && dead_on_delivery_at(s[i].delivery_state, max_delivery_micros, now) == Some(
                v@[k].duration,
            ) by {
            lemma_dead_subscribers_are_the_dead_ones(s, max_delivery_micros, now);
            assert(v@[k].subscriber_id == d[k].0);
            let i = choose|i: int|
                0 <= i < s.len() && (#[trigger] s[i]).id == (#[trigger] d[k]).0 && s[i].session_id == d[k].1
                    && dead_on_delivery_at(s[i].delivery_state, max_delivery_micros, now) == Some(d[k].2 as i64)
                    && d[k].2 == d[k].2 as i64;
            assert(s[i].id == v@[k].subscriber_id);
        }
        if forall|a: int, b: int| #![trigger s[a], s[b]] 0 <= a < b < s.len() ==> s[a].id != s[b].id {
            assert forall|k1: int, k2: int| #![trigger v@[k1], v@[k2]] 0 <= k1 < k2 < v@.len() implies v@[k1].subscriber_id
                != v@[k2].subscriber_id by {
                lemma_dead_subscribers_are_the_dead_ones(s, max_delivery_micros, now);
                assert(v@[k1].subscriber_id == d[k1].0);
                assert(v@[k2].subscriber_id == d[k2].0);
            }
        }
    }
    if result is None {
        assert forall|i: int| 0 <= i < s.len() implies (#[trigger] dead_on_delivery_at(
            s[i].delivery_state,
            max_delivery_micros,
            now,
        )) is None by {
            lemma_dead_subscribers_are_the_dead_ones(s, max_delivery_micros, now);
            if dead_on_delivery_at(s[i].delivery_state, max_delivery_micros, now) is Some {
                let k = choose|k: int|
                    0 <= k < d.len() && (#[trigger] d[k]).0 == s[i].id && d[k].1 == s[i].session_id && d[k].2
                        == dead_on_delivery_at(s[i].delivery_state, max_delivery_micros, now)->0;
            }
        }
    } else {
        assert(exists|i: int| 0 <= i < s.len() && (#[trigger] dead_on_delivery_at(s[i].delivery_state, max_delivery_micros, now)) is Some) by {
            lemma_dead_subscribers_are_the_dead_ones(s, max_delivery_micros, now);
            assert(d.len() > 0);
            let i = choose|i: int|
                0 <= i < s.len() && (#[trigger] s[i]).id == (#[trigger] d[0]).0 && s[i].session_id == d[0].1
                    && dead_on_delivery_at(s[i].delivery_state, max_delivery_micros, now) == Some(d[0].2 as i64)
                    && d[0].2 == d[0].2 as i64;
            assert(dead_on_delivery_at(s[i].delivery_state, max_delivery_micros, now) is Some);
        }
    }
}

/// The number of ids on delivery over all subscribers.
pub open spec fn on_delivery_total(s: Seq<QueueSubscriber>) -> int
    decreases s.len(),
{
    if s.len() == 0 {
        0
    } else {
        on_delivery_total(s.drop_last()) + match s.last().ids_on_delivery() {
            Some(ids) => ids.len() as int,
            None => 0,
        }
    }
}

/// The subscriber is on delivery of a bucket that holds `x`.
pub open spec fn holds_on_delivery(s: QueueSubscriber, x: int) -> bool {
    s.ids_on_delivery() matches Some(ids) && ids.contains(x)
}

/// Changing one subscriber, but not its id, session or well-formedness, keeps a list well formed.
pub proof fn lemma_update_keeps_wf(before: SubscribersList, after: SubscribersList, i: int)
    requires
        before.wf(),
        0 <= i < before.subscribers().len(),
        after.subscribers() == before.subscribers().update(i, after.subscribers()[i]),
        after.subscribers()[i].wf(),
        after.subscribers()[i].id == before.subscribers()[i].id,
        after.subscribers()[i].session_id == before.subscribers()[i].session_id,
    ensures
        after.wf(),
{
    let s = before.subscribers();
    let t = after.subscribers();
    assert forall|a: int, b: int|
        #![trigger t[a], t[b]]
        0 <= a < b < t.len() implies t[a].id != t[b].id && t[a].session_id != t[b].session_id by {
        assert(s[a].id != s[b].id && s[a].session_id != s[b].session_id);
    }
    assert forall|a: int| 0 <= a < t.len() implies (#[trigger] t[a]).wf() by {
        if a != i {
            assert(t[a] == s[a]);
        }
    }
}

pub proof fn lemma_on_delivery_total_nonneg(s: Seq<QueueSubscriber>)
    ensures
        on_delivery_total(s) >= 0,
    decreases s.len(),
{
    if s.len() > 0 {
        lemma_on_delivery_total_nonneg(s.drop_last());
    }
}

impl SubscribersList {
    pub open spec fn subscribers(&self) -> Seq<QueueSubscriber> {
        data_subscribers(self.data)
    }

    pub open spec fn is_single(&self) -> bool {
        self.data is SingleSubscriber
    }

    pub open spec fn contains_id(&self, id: SubscriberId) -> bool {
        exists|i: int| 0 <= i < self.subscribers().len() && (#[trigger] self.subscribers()[i]).id == id
    }

    pub open spec fn has_session(&self, connection_id: ConnectionId) -> bool {
        exists|i: int| 0 <= i < self.subscribers().len() && (#[trigger] self.subscribers()[i]).session_id == connection_id
    }

    /// Every subscriber is well formed; no two share an id or a session.
    pub open spec fn wf(&self) -> bool {
        &&& forall|i: int| 0 <= i < self.subscribers().len() ==> (#[trigger] self.subscribers()[i]).wf()
        &&& forall|i: int, j: int|
            #![trigger self.subscribers()[i], self.subscribers()[j]]
            0 <= i < j < self.subscribers().len() ==> self.subscribers()[i].id != self.subscribers()[j].id
                && self.subscribers()[i].session_id != self.subscribers()[j].session_id
    }


    pub fn new(queue_type: TopicQueueType) -> (result: Self)
        ensures
            result.wf(),
            result.subscribers() == Seq::<QueueSubscriber>::empty(),
            result.is_single() == (queue_type == TopicQueueType::PermanentWithSingleConnection),
            result.snapshot_id == 0,
    {
        let last_unsubscribe = DateTimeAsMicroseconds::now();
        match queue_type {
            TopicQueueType::Permanent => SubscribersList {
                snapshot_id: 0,
                data: SubscribersData::MultiSubscribers(Vec::new()),
                last_unsubscribe,
            },
            TopicQueueType::DeleteOnDisconnect => SubscribersList {
                snapshot_id: 0,
                data: SubscribersData::MultiSubscribers(Vec::new()),
                last_unsubscribe,
            },
            TopicQueueType::PermanentWithSingleConnection => SubscribersList {
                snapshot_id: 0,
                data: SubscribersData::SingleSubscriber(None),
                last_unsubscribe,
            },
        }
    }

    /// Every subscriber, `None` when there is none.
    pub fn get_all(&self) -> (result: Option<Vec<&QueueSubscriber>>)
        ensures
            match result {
                None => self.subscribers().len() == 0,
                Some(v) => self.subscribers().len() > 0 && v@.len() == self.subscribers().len()
                    && forall|i: int| 0 <= i < v@.len() ==> *v@[i] == #[trigger] self.subscribers()[i],
            },
    {
        match &self.data {
            SubscribersData::MultiSubscribers(subscribers) => {
                if subscribers.len() == 0 {
                    return None;
                }
                let mut result: Vec<&QueueSubscriber> = Vec::new();
                let mut i: usize = 0;
                while i < subscribers.len()
                    invariant
                        0 <= i <= subscribers@.len(),
                        result@.len() == i,
                        forall|j: int| 0 <= j < i ==> *result@[j] == #[trigger] subscribers@[j],
                    decreases subscribers@.len() - i,
                {
                    result.push(&subscribers[i]);
                    i = i + 1;
                }
                Some(result)
            },
            SubscribersData::SingleSubscriber(single) => match single {
                Some(subscriber) => {
                    let mut result: Vec<&QueueSubscriber> = Vec::new();
                    result.push(subscriber);
                    Some(result)
                },
                None => None,
            },
        }
    }

    /// The position of the first subscriber ready to deliver.
    fn first_ready_index(&self) -> (result: Option<usize>)
        ensures
            match result {
                None => forall|j: int|
                    0 <= j < self.subscribers().len() ==> !((#[trigger] self.subscribers()[j]).delivery_state is ReadyToDeliver),
                Some(i) => 0 <= i < self.subscribers().len() && self.subscribers()[i as int].delivery_state is ReadyToDeliver
                    && forall|j: int| 0 <= j < i ==> !((#[trigger] self.subscribers()[j]).delivery_state is ReadyToDeliver),
            },
    {
        match &self.data {
            SubscribersData::MultiSubscribers(v) => {
                let mut i: usize = 0;
                while i < v.len() && !v[i].delivery_state.is_ready_to_deliver()
                    invariant
                        0 <= i <= v@.len(),
                        forall|j: int| 0 <= j < i ==> !((#[trigger] v@[j]).delivery_state is ReadyToDeliver),
                    decreases v@.len() - i,
                {
                    i = i + 1;
                }
                if i < v.len() {
                    Some(i)
                } else {
                    None
                }
            },
            SubscribersData::SingleSubscriber(single) => match single {
                Some(subscriber) => {
                    if subscriber.delivery_state.is_ready_to_deliver() {
                        Some(0)
                    } else {
                        None
                    }
                },
                None => None,
            },
        }
    }

    /// Rents the first subscriber that is ready to deliver.
    pub fn get_and_rent_next_subscriber_ready_to_deliver(&mut self) -> (result: Option<&mut QueueSubscriber>)
        requires
            old(self).wf(),
        ensures
            match result {
                None => (forall|j: int|
                    0 <= j < old(self).subscribers().len() ==> !((#[trigger] old(self).subscribers()[j]).delivery_state is ReadyToDeliver))
                    && *final(self) == *old(self),
                Some(r) => {
                    let i = index_of_id(old(self).subscribers(), r.id);
                    &&& 0 <= i < old(self).subscribers().len()
                    &&& old(self).subscribers()[i].delivery_state is ReadyToDeliver
                    &&& forall|j: int| 0 <= j < i ==> !((#[trigger] old(self).subscribers()[j]).delivery_state is ReadyToDeliver)
                    &&& r.delivery_state == QueueSubscriberDeliveryState::Rented
                    &&& r.metrics.delivery_mode == DELIVERY_MODE_RENTED
                    &&& same_identity(*r, old(self).subscribers()[i])
                    &&& same_statistics(r.metrics, old(self).subscribers()[i].metrics)
                    &&& final(self).subscribers() == old(self).subscribers().update(i, *final(r))
                    &&& final(self).is_single() == old(self).is_single()
                    &&& final(self).snapshot_id == old(self).snapshot_id
                    &&& final(self).last_unsubscribe == old(self).last_unsubscribe
                },
            },
    {
        let found = self.first_ready_index();
        match found {
            None => None,
            Some(i) => {
                let ghost s = self.subscribers();
                proof {
                    let k = index_of_id(s, s[i as int].id);
                    assert(0 <= k < s.len() && s[k].id == s[i as int].id);
                    if k != i {
                        if k < i {
                            assert(s[k].id != s[i as int].id);
                        } else {
                            assert(s[i as int].id != s[k].id);
                        }
                    }
                }
                let subscriber: &mut QueueSubscriber = match &mut self.data {
                    SubscribersData::MultiSubscribers(v) => &mut v[i],
                    SubscribersData::SingleSubscriber(single) => single.as_mut().unwrap(),
                };
                subscriber.rent_me();
                Some(subscriber)
            },
        }
    }

    pub fn get_by_id(&self, subscriber_id: SubscriberId) -> (result: Option<&QueueSubscriber>)
        requires
            self.wf(),
        ensures
            match result {
                None => !self.contains_id(subscriber_id),
                Some(r) => {
                    let i = index_of_id(self.subscribers(), subscriber_id);
                    0 <= i < self.subscribers().len() && *r == self.subscribers()[i] && r.id == subscriber_id
                },
            },
    {
        let found = self.find_index(subscriber_id);
        match found {
            None => None,
            Some(i) => match &self.data {
                SubscribersData::MultiSubscribers(v) => Some(&v[i]),
                SubscribersData::SingleSubscriber(single) => single.as_ref(),
            },
        }
    }

    /// Fails when the session already has a subscriber in the list.
    fn check_that_we_has_already_subscriber_for_that_session(&self, connection_id: ConnectionId) -> (result: Result<(), SubscribeErrorResult>)
        ensures
            result is Ok <==> !self.has_session(connection_id),
            result is Err ==> result == Err::<(), SubscribeErrorResult>(SubscribeErrorResult::SubscriberOfSameConnectionExists),
    {
        match self.resolve_subscriber_id_by_connection_id(connection_id) {
            Some(_) => Err(SubscribeErrorResult::SubscriberOfSameConnectionExists),
            None => Ok(()),
        }
    }

    /// Adds a new subscriber; a single-subscriber list gives back the one it replaces.
    pub fn subscribe(
        &mut self,
        subscriber_id: SubscriberId,
        topic_id: String,
        queue_id: String,
        session_id: i64,
        delivery_packet_version: i32,
    ) -> (result: Result<Option<QueueSubscriber>, SubscribeErrorResult>)
        requires
            old(self).wf(),
        ensures
            final(self).wf(),
            final(self).is_single() == old(self).is_single(),
            final(self).last_unsubscribe == old(self).last_unsubscribe,
            old(self).has_session(session_id) ==> result == Err::<Option<QueueSubscriber>, SubscribeErrorResult>(
                SubscribeErrorResult::SubscriberOfSameConnectionExists,
            ) && *final(self) == *old(self),
            !old(self).has_session(session_id) ==> final(self).snapshot_id == old(self).snapshot_id.wrapping_add(1),
            !old(self).has_session(session_id) && old(self).contains_id(subscriber_id) ==> result
                == Err::<Option<QueueSubscriber>, SubscribeErrorResult>(SubscribeErrorResult::SubscriberWithIdExists)
                && final(self).subscribers() == old(self).subscribers(),
            !old(self).has_session(session_id) && !old(self).contains_id(subscriber_id) ==> {
                &&& result matches Ok(kicked)
                &&& if old(self).is_single() {
                    &&& final(self).subscribers().len() == 1
                    &&& fresh_subscriber(final(self).subscribers()[0], subscriber_id, topic_id@, queue_id@, session_id, delivery_packet_version)
                    &&& kicked == match old(self).data {
                        SubscribersData::SingleSubscriber(single) => single,
                        _ => None,
                    }
                } else {
                    &&& kicked is None
                    &&& final(self).subscribers().len() == old(self).subscribers().len() + 1
                    &&& final(self).subscribers().drop_last() == old(self).subscribers()
                    &&& fresh_subscriber(final(self).subscribers().last(), subscriber_id, topic_id@, queue_id@, session_id, delivery_packet_version)
                }
            },
    {
        self.check_that_we_has_already_subscriber_for_that_session(session_id)?;
        if self.find_index(subscriber_id).is_some() {
            self.snapshot_id = self.snapshot_id.wrapping_add(1);
            return Err(SubscribeErrorResult::SubscriberWithIdExists);
        }
        self.snapshot_id = self.snapshot_id.wrapping_add(1);
        let ghost s = self.subscribers();
        let subscriber = QueueSubscriber::new(subscriber_id, topic_id, queue_id, session_id, delivery_packet_version);
        match &mut self.data {
            SubscribersData::MultiSubscribers(v) => {
                v.push(subscriber);
                proof {
                    assert(v@.drop_last() =~= s);
                }
                Ok(None)
            },
            SubscribersData::SingleSubscriber(single) => {
                let mut old_subscriber = Some(subscriber);
                std::mem::swap(&mut old_subscriber, single);
                Ok(old_subscriber)
            },
        }
    }

    pub fn get_amount(&self) -> (result: usize)
        ensures
            result == self.subscribers().len(),
    {
        match &self.data {
            SubscribersData::MultiSubscribers(v) => v.len(),
            SubscribersData::SingleSubscriber(single) => {
                if single.is_none() {
                    0
                } else {
                    1
                }
            },
        }
    }

    /// Closes the current second of every subscriber's metrics.
    pub fn one_second_tick(&mut self)
        requires
            old(self).wf(),
        ensures
            final(self).wf(),
            list_ticked(*old(self), *final(self)),
    {
        let mut data = SubscribersData::SingleSubscriber(None);
        std::mem::swap(&mut data, &mut self.data);
        let ghost s = data_subscribers(data);
        match data {
            SubscribersData::MultiSubscribers(mut v) => {
                let mut i: usize = 0;
                while i < v.len()
                    invariant
                        0 <= i <= v@.len(),
                        v@.len() == s.len(),
                        forall|j: int| 0 <= j < s.len() ==> (#[trigger] s[j]).wf(),
                        forall|j: int|
                            #![trigger s[j]]
                            #![trigger v@[j]]
                            i <= j < s.len() ==> v@[j] == s[j],
                        forall|j: int| 0 <= j < i ==> {
                            let a = #[trigger] s[j];
                            let b = v@[j];
                            &&& same_identity(b, a)
                            &&& b.delivery_state == a.delivery_state
                            &&& ticked(a.metrics, b.metrics)
                            &&& b.wf()
                        },
                    decreases v@.len() - i,
                {
                    v[i].metrics.one_second_tick();
                    i = i + 1;
                }
                self.data = SubscribersData::MultiSubscribers(v);
            },
            SubscribersData::SingleSubscriber(single) => match single {
                Some(mut subscriber) => {
                    proof {
                        assert(s[0] == subscriber);
                    }
                    subscriber.metrics.one_second_tick();
                    self.data = SubscribersData::SingleSubscriber(Some(subscriber));
                    proof {
                        assert(self.subscribers()[0] == subscriber);
                    }
                },
                None => {
                    self.data = SubscribersData::SingleSubscriber(None);
                },
            },
        }
        proof {
            let t = self.subscribers();
            assert forall|i: int, j: int|
                #![trigger t[i], t[j]]
                0 <= i < j < t.len() implies t[i].id != t[j].id && t[i].session_id != t[j].session_id by {
                assert(s[i].id != s[j].id && s[i].session_id != s[j].session_id);
            }
            assert forall|i: int| 0 <= i < t.len() implies (#[trigger] t[i]).wf() by {
                assert(s[i].wf());
            }
        }
    }

    /// The id of the subscriber of a session.
    fn resolve_subscriber_id_by_connection_id(&self, connection_id: ConnectionId) -> (result: Option<SubscriberId>)
        ensures
            match result {
                None => !self.has_session(connection_id),
                Some(id) => exists|i: int|
                    0 <= i < self.subscribers().len() && (#[trigger] self.subscribers()[i]).session_id == connection_id
                        && self.subscribers()[i].id == id,
            },
    {
        match &self.data {
            SubscribersData::MultiSubscribers(v) => {
                let mut i: usize = 0;
                while i < v.len() && v[i].session_id != connection_id
                    invariant
                        0 <= i <= v@.len(),
                        forall|j: int| 0 <= j < i ==> (#[trigger] v@[j]).session_id != connection_id,
                    decreases v@.len() - i,
                {
                    i = i + 1;
                }
                if i < v.len() {
                    assert(v@[i as int].session_id == connection_id);
                    Some(v[i].id)
                } else {
                    None
                }
            },
            SubscribersData::SingleSubscriber(single) => match single {
                Some(subscriber) => {
                    if subscriber.session_id == connection_id {
                        assert(self.subscribers()[0] == *subscriber);
                        Some(subscriber.id)
                    } else {
                        None
                    }
                },
                None => None,
            },
        }
    }

    /// Removes the subscriber with the given id, if any; counts a new snapshot either way.
    pub fn remove(&mut self, subscriber_id: SubscriberId) -> (result: Option<QueueSubscriber>)
        requires
            old(self).wf(),
        ensures
            final(self).wf(),
            final(self).is_single() == old(self).is_single(),
            final(self).snapshot_id == old(self).snapshot_id.wrapping_add(1),
            match result {
                None => !old(self).contains_id(subscriber_id) && final(self).subscribers() == old(self).subscribers()
                    && final(self).last_unsubscribe == old(self).last_unsubscribe,
                Some(r) => {
                    let i = index_of_id(old(self).subscribers(), subscriber_id);
                    &&& 0 <= i < old(self).subscribers().len()
                    &&& r == old(self).subscribers()[i]
                    &&& final(self).subscribers() == old(self).subscribers().remove(i)
                    &&& final(self).last_unsubscribe.unix_microseconds >= 0
                },
            },
    {
        let found = self.find_index(subscriber_id);
        self.snapshot_id = self.snapshot_id.wrapping_add(1);
        let ghost s = self.subscribers();
        match found {
            None => None,
            Some(i) => {
                self.last_unsubscribe = DateTimeAsMicroseconds::now();
                let result = match &mut self.data {
                    SubscribersData::MultiSubscribers(v) => v.remove(i),
                    SubscribersData::SingleSubscriber(single) => {
                        let mut taken: Option<QueueSubscriber> = None;
                        std::mem::swap(&mut taken, single);
                        taken.unwrap()
                    },
                };
                proof {
                    let t = self.subscribers();
                    assert(t =~= s.remove(i as int));
                    assert forall|a: int, b: int|
                        #![trigger t[a], t[b]]
                        0 <= a < b < t.len() implies t[a].id != t[b].id && t[a].session_id != t[b].session_id by {
                        let a2 = if a < i { a } else { a + 1 };
                        let b2 = if b < i { b } else { b + 1 };
                        assert(t[a] == s[a2] && t[b] == s[b2]);
                        assert(s[a2].id != s[b2].id && s[a2].session_id != s[b2].session_id);
                    }
                    assert forall|a: int| 0 <= a < t.len() implies (#[trigger] t[a]).wf() by {
                        let a2 = if a < i { a } else { a + 1 };
                        assert(t[a] == s[a2]);
                    }
                }
                Some(result)
            },
        }
    }

    /// Removes the subscriber of a session, if any.
    pub fn remove_by_connection_id(&mut self, connection_id: ConnectionId) -> (result: Option<QueueSubscriber>)
        requires
            old(self).wf(),
        ensures
            final(self).wf(),
            final(self).is_single() == old(self).is_single(),
            !final(self).has_session(connection_id),
            match result {
                None => !old(self).has_session(connection_id) && *final(self) == *old(self),
                Some(r) => {
                    let i = index_of_id(old(self).subscribers(), r.id);
                    &&& 0 <= i < old(self).subscribers().len()
                    &&& r == old(self).subscribers()[i]
                    &&& r.session_id == connection_id
                    &&& final(self).subscribers() == old(self).subscribers().remove(i)
                    &&& final(self).snapshot_id == old(self).snapshot_id.wrapping_add(1)
                },
            },
    {
        let subscriber_id = self.resolve_subscriber_id_by_connection_id(connection_id)?;
        proof {
            let s = self.subscribers();
            let w = choose|w: int| 0 <= w < s.len() && (#[trigger] s[w]).session_id == connection_id && s[w].id == subscriber_id;
            let k = index_of_id(s, subscriber_id);
            assert(0 <= k < s.len() && s[k].id == subscriber_id);
            if k != w {
                if k < w {
                    assert(s[k].id != s[w].id);
                } else {
                    assert(s[w].id != s[k].id);
                }
            }
        }
        let ghost s = self.subscribers();
        let result = self.remove(subscriber_id);
        proof {
            let t = self.subscribers();
            let i = index_of_id(s, subscriber_id);
            if self.has_session(connection_id) {
                let w = choose|w: int| 0 <= w < t.len() && (#[trigger] t[w]).session_id == connection_id;
                let w2 = if w < i { w } else { w + 1 };
                assert(t[w] == s[w2]);
                let v = choose|v: int| 0 <= v < s.len() && (#[trigger] s[v]).session_id == connection_id && s[v].id == subscriber_id;
                assert(s[i].id == subscriber_id);
                if v != i {
                    if v < i {
                        assert(s[v].id != s[i].id);
                    } else {
                        assert(s[i].id != s[v].id);
                    }
                }
                if w2 < i {
                    assert(s[w2].session_id != s[i].session_id);
                } else {
                    assert(s[i].session_id != s[w2].session_id);
                }
            }
        }
        result
    }

    /// The subscribers on delivery for longer than `max_delivery_micros` at `now`, in list order.
    pub fn find_subscribers_dead_on_delivery_at(&self, max_delivery_micros: i64, now: DateTimeAsMicroseconds) -> (result: Option<Vec<DeadSubscriber>>)
        ensures
            dead_report(result, self.subscribers(), max_delivery_micros, now),
            names_the_dead(result, self.subscribers(), max_delivery_micros, now),
    {
        let ghost s = self.subscribers();
        let mut result: Vec<DeadSubscriber> = Vec::new();
        let n = self.get_amount();
        let mut i: usize = 0;
        while i < n
            invariant
                n == s.len(),
                s == self.subscribers(),
                0 <= i <= n,
                result@.len() == dead_subscribers(s.take(i as int), max_delivery_micros, now).len(),
                forall|j: int| 0 <= j < result@.len() ==> {
                    let d = dead_subscribers(s.take(i as int), max_delivery_micros, now);
                    &&& (#[trigger] result@[j]).subscriber_id == d[j].0
                    &&& result@[j].session_id == d[j].1
                    &&& result@[j].duration == d[j].2
                },
            decreases n - i,
        {
            let subscriber = self.subscriber_at(i);
            proof {
                assert(s.take(i + 1).drop_last() =~= s.take(i as int));
                assert(s.take(i + 1).last() == s[i as int]);
            }
            if let Some(duration) = subscriber.is_dead_on_delivery_at(max_delivery_micros, now) {
                result.push(DeadSubscriber::new(subscriber, duration));
            }
            i = i + 1;
        }
        proof {
            assert(s.take(n as int) =~= s);
        }
        let report = if result.len() == 0 {
            None
        } else {
            Some(result)
        };
        proof {
            lemma_dead_report_names_every_dead_subscriber(report, s, max_delivery_micros, now);
        }
        report
    }

    /// `find_subscribers_dead_on_delivery_at` the current time.
    pub fn find_subscribers_dead_on_delivery(&self, max_delivery_micros: i64) -> (result: Option<Vec<DeadSubscriber>>)
        ensures
            exists|now: DateTimeAsMicroseconds|
                now.unix_microseconds >= 0 && #[trigger] dead_report(result, self.subscribers(), max_delivery_micros, now)
                    && names_the_dead(result, self.subscribers(), max_delivery_micros, now),
    {
        self.find_subscribers_dead_on_delivery_at(max_delivery_micros, DateTimeAsMicroseconds::now())
    }

    fn subscriber_at(&self, i: usize) -> (result: &QueueSubscriber)
        requires
            i < self.subscribers().len(),
        ensures
            *result == self.subscribers()[i as int],
    {
        match &self.data {
            SubscribersData::MultiSubscribers(v) => &v[i],
            SubscribersData::SingleSubscriber(single) => single.as_ref().unwrap(),
        }
    }


    /// The number of ids on delivery over all subscribers, at most `i64::MAX`.
    pub fn get_on_delivery_amount(&self) -> (result: i64)
        ensures
            result == if on_delivery_total(self.subscribers()) <= i64::MAX {
                on_delivery_total(self.subscribers())
            } else {
                i64::MAX as int
            },
    {
        let ghost s = self.subscribers();
        let n = self.get_amount();
        let mut total: i64 = 0;
        let mut i: usize = 0;
        proof {
            lemma_on_delivery_total_nonneg(s);
        }
        while i < n
            invariant
                n == s.len(),
                s == self.subscribers(),
                0 <= i <= n,
                total == if on_delivery_total(s.take(i as int)) <= i64::MAX {
                    on_delivery_total(s.take(i as int))
                } else {
                    i64::MAX as int
                },
            decreases n - i,
        {
            let subscriber = self.subscriber_at(i);
            let amount: i64 = match &subscriber.delivery_state {
                QueueSubscriberDeliveryState::OnDelivery(state) => state.bucket.ids.len(),
                _ => 0,
            };
            proof {
                assert(s.take(i + 1).drop_last() =~= s.take(i as int));
                assert(s.take(i + 1).last() == s[i as int]);
                lemma_on_delivery_total_nonneg(s.take(i as int));
            }
            total = if total <= i64::MAX - amount {
                total + amount
            } else {
                i64::MAX
            };
            i = i + 1;
        }
        proof {
            assert(s.take(n as int) =~= s);
        }
        total
    }

    /// The smallest id on delivery over all subscribers.
    pub fn get_min_message_id(&self) -> (result: Option<MessageId>)
        ensures
            match result {
                None => forall|i: int, x: int| 0 <= i < self.subscribers().len() ==> !#[trigger] holds_on_delivery(self.subscribers()[i], x),
                Some(m) => (exists|i: int| 0 <= i < self.subscribers().len() && holds_on_delivery(#[trigger] self.subscribers()[i], m as int))
                    && forall|i: int, x: int| 0 <= i < self.subscribers().len() && #[trigger] holds_on_delivery(self.subscribers()[i], x) ==> m <= x,
            },
    {
        let ghost s = self.subscribers();
        let n = self.get_amount();
        let mut result: Option<MessageId> = None;
        let mut i: usize = 0;
        while i < n
            invariant
                n == s.len(),
                s == self.subscribers(),
                0 <= i <= n,
                match result {
                    None => forall|j: int, x: int| 0 <= j < i ==> !#[trigger] holds_on_delivery(s[j], x),
                    Some(m) => (exists|j: int| 0 <= j < i && holds_on_delivery(#[trigger] s[j], m as int))
                        && forall|j: int, x: int| 0 <= j < i && #[trigger] holds_on_delivery(s[j], x) ==> m <= x,
                },
            decreases n - i,
        {
            let subscriber = self.subscriber_at(i);
            let subscriber_min_id = subscriber.get_min_message_id();
            match result {
                Some(result_min_id) => {
                    if let Some(subscriber_min_id) = subscriber_min_id {
                        if subscriber_min_id < result_min_id {
                            result = Some(subscriber_min_id);
                        }
                    }
                },
                None => {
                    result = subscriber_min_id;
                },
            }
            proof {
                assert(holds_on_delivery(s[i as int], 0) == holds_on_delivery(*subscriber, 0));
            }
            i = i + 1;
        }
        result
    }

    pub fn get_by_id_mut(&mut self, subscriber_id: SubscriberId) -> (result: Option<&mut QueueSubscriber>)
        requires
            old(self).wf(),
        ensures
            match result {
                None => !old(self).contains_id(subscriber_id) && *final(self) == *old(self),
                Some(r) => {
                    let i = index_of_id(old(self).subscribers(), subscriber_id);
                    &&& 0 <= i < old(self).subscribers().len()
                    &&& *r == old(self).subscribers()[i]
                    &&& final(self).subscribers() == old(self).subscribers().update(i, *final(r))
                    &&& final(self).is_single() == old(self).is_single()
                    &&& final(self).snapshot_id == old(self).snapshot_id
                    &&& final(self).last_unsubscribe == old(self).last_unsubscribe
                },
            },
    {
        let found = self.find_index(subscriber_id);
        match found {
            None => None,
            Some(i) => match &mut self.data {
                SubscribersData::MultiSubscribers(v) => Some(&mut v[i]),
                SubscribersData::SingleSubscriber(single) => match single {
                    Some(subscriber) => Some(subscriber),
                    None => None,
                },
            },
        }
    }

    /// The position of the subscriber with the given id.
    fn find_index(&self, subscriber_id: SubscriberId) -> (result: Option<usize>)
        requires
            self.wf(),
        ensures
            match result {
                None => !self.contains_id(subscriber_id),
                Some(i) => i == index_of_id(self.subscribers(), subscriber_id) && 0 <= i
                    < self.subscribers().len() && self.subscribers()[i as int].id == subscriber_id,
            },
    {
        let ghost s = self.subscribers();
        let result = match &self.data {
            SubscribersData::MultiSubscribers(v) => {
                let mut i: usize = 0;
                while i < v.len() && v[i].id != subscriber_id
                    invariant
                        s == v@,
                        0 <= i <= v@.len(),
                        forall|j: int| 0 <= j < i ==> (#[trigger] v@[j]).id != subscriber_id,
                    decreases v@.len() - i,
                {
                    i = i + 1;
                }
                if i < v.len() {
                    Some(i)
                } else {
                    None
                }
            },
            SubscribersData::SingleSubscriber(single) => match single {
                Some(subscriber) => {
                    if subscriber.id == subscriber_id {
                        Some(0)
                    } else {
                        None
                    }
                },
                None => None,
            },
        };
        proof {
            match result {
                Some(i) => {
                    assert(s[i as int].id == subscriber_id);
                    let k = index_of_id(s, subscriber_id);
                    assert(0 <= k < s.len() && s[k].id == subscriber_id);
                    if k != i {
                        if k < i {
                            assert(s[k].id != s[i as int].id);
                        } else {
                            assert(s[i as int].id != s[k].id);
                        }
                    }
                },
                None => {},
            }
        }
        result
    }
}

} // verus!
