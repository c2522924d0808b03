//! Delivery statistics of one subscriber.
use vstd::prelude::*;

use crate::date_time::DateTimeAsMicroseconds;

verus! {

pub type SubscriberId = i64;

pub type ConnectionId = i64;

pub const DELIVERY_MODE_READY_TO_DELIVER: u8 = 0;

pub const DELIVERY_MODE_RENTED: u8 = 1;

pub const DELIVERY_MODE_ON_DELIVERY: u8 = 2;

/// How many per-second delivery figures the history keeps.
pub const DELIVERY_HISTORY_LEN: usize = 120;

pub struct SubscriberMetrics {
    pub subscriber_id: SubscriberId,
    pub connection_id: ConnectionId,
    pub start_delivery_time: DateTimeAsMicroseconds,
    /// Messages delivered during the current second.
    pub delivered_amount: usize,
    /// Microseconds spent on the deliveries of the current second.
    pub delivery_microseconds: usize,
    pub active: u8,
    /// Per-second figures, oldest first: the average delivery time of a message,
    /// or a negative value for a failed delivery.
    pub delivery_history: Vec<i32>,
    pub delivery_mode: u8,
}

/// The history after one more figure: the oldest falls out once the history is full.
pub open spec fn history_put(history: Seq<i32>, value: i32) -> Seq<i32> {
    if history.len() >= DELIVERY_HISTORY_LEN {
        history.push(value).subrange(history.len() + 1 - DELIVERY_HISTORY_LEN, history.len() + 1int)
    } else {
        history.push(value)
    }
}

/// The figure recorded for a failed delivery: the delivery time divided by the
/// negated count of messages, both taken as `i32` the way the figure is stored.
pub open spec fn not_delivered_figure(delivered_messages: i32, delivery_micros: i64) -> i32 {
    truncating_div((delivery_micros as i32) as int, -(delivered_messages as int)) as i32
}

/// Integer division rounding toward zero.
pub open spec fn truncating_div(a: int, b: int) -> int {
    if (a >= 0) == (b > 0) {
        abs(a) / abs(b)
    } else {
        -(abs(a) / abs(b))
    }
}

pub open spec fn abs(a: int) -> int {
    if a < 0 {
        -a
    } else {
        a
    }
}

/// `after` is `before` once its current second is closed (see `one_second_tick`).
pub open spec fn ticked(before: SubscriberMetrics, after: SubscriberMetrics) -> bool {
    &&& after.active == if before.active > 0 {
        (before.active - 1) as u8
    } else {
        0u8
    }
    &&& after.delivered_amount == 0
    &&& after.delivery_microseconds == 0
    &&& after.delivery_history@ == if before.delivered_amount > 0 {
        history_put(before.delivery_history@, (before.delivery_microseconds / before.delivered_amount) as i32)
    } else {
        before.delivery_history@
    }
    &&& after.delivery_history@.len() <= DELIVERY_HISTORY_LEN
    &&& after.subscriber_id == before.subscriber_id
    &&& after.connection_id == before.connection_id
    &&& after.start_delivery_time == before.start_delivery_time
    &&& after.delivery_mode == before.delivery_mode
}

impl SubscriberMetrics {
    pub fn new(
        subscriber_id: SubscriberId,
        connection_id: ConnectionId,
        now: DateTimeAsMicroseconds,
    ) -> (result: Self)
        ensures
            result.subscriber_id == subscriber_id,
            result.connection_id == connection_id,
            result.start_delivery_time == now,
            result.delivered_amount == 0,
            result.delivery_microseconds == 0,
            result.active == 0,
            result.delivery_history@ == Seq::<i32>::empty(),
            result.delivery_mode == DELIVERY_MODE_READY_TO_DELIVER,
    {
        SubscriberMetrics {
            subscriber_id,
            connection_id,
            start_delivery_time: now,
            delivered_amount: 0,
            delivery_microseconds: 0,
            active: 0,
            delivery_history: Vec::new(),
            delivery_mode: DELIVERY_MODE_READY_TO_DELIVER,
        }
    }

    fn put_history(&mut self, value: i32)
        requires
            old(self).delivery_history@.len() <= DELIVERY_HISTORY_LEN,
        ensures
            final(self).delivery_history@ == history_put(old(self).delivery_history@, value),
            final(self).delivery_history@.len() <= DELIVERY_HISTORY_LEN,
            final(self).subscriber_id == old(self).subscriber_id,
            final(self).connection_id == old(self).connection_id,
            final(self).start_delivery_time == old(self).start_delivery_time,
            final(self).delivered_amount == old(self).delivered_amount,
            final(self).delivery_microseconds == old(self).delivery_microseconds,
            final(self).active == old(self).active,
            final(self).delivery_mode == old(self).delivery_mode,
    {
        self.delivery_history.push(value);
        if self.delivery_history.len() > DELIVERY_HISTORY_LEN {
            self.delivery_history.remove(0);
            assert(self.delivery_history@ =~= history_put(old(self).delivery_history@, value));
        }
    }

    /// Closes the current second: the activity mark fades, the per-second counters
    /// restart, and the average delivery time of the second enters the history.
    pub fn one_second_tick(&mut self)
        requires
            old(self).delivery_history@.len() <= DELIVERY_HISTORY_LEN,
        ensures
            ticked(*old(self), *final(self)),
    {
        if self.active > 0 {
            self.active = self.active - 1;
        }
        let delivered_amount = self.delivered_amount;
        let delivery_microseconds = self.delivery_microseconds;
        self.delivered_amount = 0;
        self.delivery_microseconds = 0;
        if delivered_amount > 0 {
            let delivered = delivery_microseconds / delivered_amount;
            self.put_history(delivered as i32);
        }
    }

    /// Records a successful delivery of `delivered_messages` messages that took
    /// `delivery_micros` microseconds; the counters stop at `usize::MAX`.
    pub fn set_delivered_statistic(&mut self, delivered_messages: usize, delivery_micros: usize)
        ensures
            final(self).delivery_mode == DELIVERY_MODE_READY_TO_DELIVER,
            final(self).delivered_amount == if old(self).delivered_amount + delivered_messages
                <= usize::MAX {
                (old(self).delivered_amount + delivered_messages) as usize
            } else {
                usize::MAX
            },
            final(self).delivery_microseconds == if old(self).delivery_microseconds + delivery_micros
                <= usize::MAX {
                (old(self).delivery_microseconds + delivery_micros) as usize
            } else {
                usize::MAX
            },
            final(self).delivery_history@ == old(self).delivery_history@,
            final(self).subscriber_id == old(self).subscriber_id,
            final(self).connection_id == old(self).connection_id,
            final(self).start_delivery_time == old(self).start_delivery_time,
            final(self).active == old(self).active,
    {
        self.delivery_mode = DELIVERY_MODE_READY_TO_DELIVER;
        self.delivered_amount = self.delivered_amount.saturating_add(delivered_messages);
        self.delivery_microseconds = self.delivery_microseconds.saturating_add(delivery_micros);
    }

    /// Records a failed delivery: the history gets the delivery time divided by
    /// `-delivered_messages`.
    pub fn set_not_delivered_statistic(&mut self, delivered_messages: i32, delivery_micros: i64)
        requires
            delivered_messages != 0,
            old(self).delivery_history@.len() <= DELIVERY_HISTORY_LEN,
        ensures
            final(self).delivery_mode == DELIVERY_MODE_READY_TO_DELIVER,
            final(self).delivery_history@ == history_put(
                old(self).delivery_history@,
                not_delivered_figure(delivered_messages, delivery_micros),
            ),
            final(self).delivery_history@.len() <= DELIVERY_HISTORY_LEN,
            final(self).delivered_amount == old(self).delivered_amount,
            final(self).delivery_microseconds == old(self).delivery_microseconds,
            final(self).subscriber_id == old(self).subscriber_id,
            final(self).connection_id == old(self).connection_id,
            final(self).start_delivery_time == old(self).start_delivery_time,
            final(self).active == old(self).active,
    {
        self.delivery_mode = DELIVERY_MODE_READY_TO_DELIVER;
        let micros = (delivery_micros as i32) as i64;
        let divisor: i64 = -(delivered_messages as i64);
        let a: i64 = if micros < 0 { -micros } else { micros };
        let b: i64 = if divisor < 0 { -divisor } else { divisor };
        let quotient: i64 = a / b;
        let value = if (micros >= 0) == (divisor > 0) { quotient as i32 } else { (-quotient) as i32 };
        self.put_history(value);
    }

    /// Marks the start of a delivery at `now`.
    pub fn set_started_delivery(&mut self, now: DateTimeAsMicroseconds)
        ensures
            final(self).start_delivery_time == now,
            final(self).active == 2,
            final(self).delivery_mode == DELIVERY_MODE_ON_DELIVERY,
            final(self).delivery_history@ == old(self).delivery_history@,
            final(self).delivered_amount == old(self).delivered_amount,
            final(self).delivery_microseconds == old(self).delivery_microseconds,
            final(self).subscriber_id == old(self).subscriber_id,
            final(self).connection_id == old(self).connection_id,
    {
        self.start_delivery_time = now;
        self.active = 2;
        self.delivery_mode = DELIVERY_MODE_ON_DELIVERY;
    }

    pub fn set_delivery_mode(&mut self, delivery_mode: u8)
        ensures
            final(self).delivery_mode == delivery_mode,
            final(self).delivery_history@ == old(self).delivery_history@,
            final(self).delivered_amount == old(self).delivered_amount,
            final(self).delivery_microseconds == old(self).delivery_microseconds,
            final(self).subscriber_id == old(self).subscriber_id,
            final(self).connection_id == old(self).connection_id,
            final(self).start_delivery_time == old(self).start_delivery_time,
            final(self).active == old(self).active,
    {
        self.delivery_mode = delivery_mode;
    }
}

} // verus!
