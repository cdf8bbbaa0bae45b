//! The notification store: deduplicated events and per-channel deliveries.
//!
//! `NotificationRepository` owns every notification event and delivery
//! and maintains the two uniqueness invariants the engine relies on: at
//! most one event per `(chore, event type, due instant)`, and at most
//! one delivery per `(event, channel)`. Records are created and mutated,
//! never deleted; a delivery that reached `Delivered` never leaves that
//! state.

use vstd::multiset::Multiset;
use vstd::prelude::*;

use crate::models::NotificationChannel;
use crate::models::NotificationDelivery;
use crate::models::NotificationDeliveryStatus;
use crate::models::NotificationEvent;
use crate::models::NotificationEventType;
use crate::models::PendingNotification;

verus! {

/// Ghost image of the store: its records and the next free identifier.
#[verifier::ext_equal]
pub ghost struct StoreModel {
    pub events: Seq<NotificationEvent>,
    pub deliveries: Seq<NotificationDelivery>,
    pub next_id: u128,
}

/// Does this event carry the given natural key? Every event the store
/// creates is a due event, so the event type is pinned here.
pub open spec fn event_key_matches(e: NotificationEvent, chore_id: u128, due_at: i64) -> bool {
    &&& e.chore_id == chore_id
    &&& e.event_type == NotificationEventType::Due
    &&& e.due_at == due_at
}

/// Some event in `events` carries the key.
pub open spec fn event_exists(events: Seq<NotificationEvent>, chore_id: u128, due_at: i64) -> bool {
    exists|i: int| 0 <= i < events.len() && event_key_matches(#[trigger] events[i], chore_id, due_at)
}

/// The identifier of the event carrying the key (unique under `wf`).
pub open spec fn event_id_for(events: Seq<NotificationEvent>, chore_id: u128, due_at: i64) -> u128 {
    let i = choose|i: int|
        0 <= i < events.len() && event_key_matches(#[trigger] events[i], chore_id, due_at);
    events[i].id
}

/// Some event in `events` has this identifier.
pub open spec fn has_event_with_id(events: Seq<NotificationEvent>, id: u128) -> bool {
    exists|j: int| 0 <= j < events.len() && (#[trigger] events[j]).id == id
}

/// Some delivery in `deliveries` carries the natural key.
pub open spec fn delivery_exists(
    deliveries: Seq<NotificationDelivery>,
    event_id: u128,
    channel: NotificationChannel,
) -> bool {
    exists|i: int|
        0 <= i < deliveries.len() && (#[trigger] deliveries[i]).event_id == event_id
            && deliveries[i].channel == channel
}

/// The event record the store creates.
pub open spec fn spec_new_event(
    id: u128,
    chore_id: u128,
    due_at: i64,
    title: String,
    body: String,
    now: i64,
) -> NotificationEvent {
    NotificationEvent {
        id,
        chore_id,
        event_type: NotificationEventType::Due,
        due_at,
        title,
        body,
        created_at: now,
    }
}

/// The pending delivery record the store creates.
pub open spec fn spec_new_delivery(
    id: u128,
    event_id: u128,
    channel: NotificationChannel,
    now: i64,
) -> NotificationDelivery {
    NotificationDelivery {
        id,
        event_id,
        channel,
        status: NotificationDeliveryStatus::Pending,
        attempt_count: 0,
        last_error: None,
        last_attempted_at: None,
        delivered_at: None,
        created_at: now,
        updated_at: now,
    }
}

impl StoreModel {
    /// The store's invariants: identifiers are assigned from a counter
    /// and unique; event and delivery natural keys are unique; every
    /// delivery points at an existing event; every event is a due event.
    pub open spec fn wf(self) -> bool {
        &&& self.next_id as int == self.events.len() + self.deliveries.len()
        &&& forall|i: int| 0 <= i < self.events.len() ==> (#[trigger] self.events[i]).id
            < self.next_id
        &&& forall|i: int| 0 <= i < self.deliveries.len() ==> (#[trigger] self.deliveries[i]).id
            < self.next_id
        &&& forall|i: int, j: int|
            0 <= i < j < self.events.len() ==> (#[trigger] self.events[i]).id != (
            #[trigger] self.events[j]).id
        &&& forall|i: int, j: int|
            0 <= i < j < self.deliveries.len() ==> (#[trigger] self.deliveries[i]).id != (
            #[trigger] self.deliveries[j]).id
        &&& forall|i: int, j: int|
            0 <= i < j < self.events.len() ==> !((#[trigger] self.events[i]).chore_id == (
            #[trigger] self.events[j]).chore_id && self.events[i].due_at == self.events[j].due_at)
        &&& forall|i: int, j: int|
            0 <= i < j < self.deliveries.len() ==> !((#[trigger] self.deliveries[i]).event_id == (
            #[trigger] self.deliveries[j]).event_id && self.deliveries[i].channel
                == self.deliveries[j].channel)
        &&& forall|i: int|
            0 <= i < self.deliveries.len() ==> has_event_with_id(
                self.events,
                (#[trigger] self.deliveries[i]).event_id,
            )
        &&& forall|i: int| 0 <= i < self.events.len() ==> (#[trigger] self.events[i]).event_type
            == NotificationEventType::Due
    }
}

/// Seed one pending delivery per channel, skipping channels that already
/// have one for this event: the second half of the upsert.
pub open spec fn spec_seed_deliveries(
    deliveries: Seq<NotificationDelivery>,
    next_id: u128,
    event_id: u128,
    channels: Seq<NotificationChannel>,
    now: i64,
) -> (Seq<NotificationDelivery>, u128)
    decreases channels.len(),
{
    if channels.len() == 0 {
        (deliveries, next_id)
    } else {
        let (ds, nid) = if delivery_exists(deliveries, event_id, channels[0]) {
            (deliveries, next_id)
        } else {
            (
                deliveries.push(spec_new_delivery(next_id, event_id, channels[0], now)),
                (next_id + 1) as u128,
            )
        };
        spec_seed_deliveries(ds, nid, event_id, channels.drop_first(), now)
    }
}

/// What the upsert does: create the event unless its key is present,
/// then seed the missing deliveries; return the event's identifier.
pub open spec fn spec_upsert(
    s: StoreModel,
    chore_id: u128,
    due_at: i64,
    title: String,
    body: String,
    channels: Seq<NotificationChannel>,
    now: i64,
) -> (StoreModel, u128) {
    let (events1, eid, nid1) = if event_exists(s.events, chore_id, due_at) {
        (s.events, event_id_for(s.events, chore_id, due_at), s.next_id)
    } else {
        (
            s.events.push(spec_new_event(s.next_id, chore_id, due_at, title, body, now)),
            s.next_id,
            (s.next_id + 1) as u128,
        )
    };
    let (deliveries1, nid2) = spec_seed_deliveries(s.deliveries, nid1, eid, channels, now);
    (StoreModel { events: events1, deliveries: deliveries1, next_id: nid2 }, eid)
}

/// A delivery after `mark_delivered` at instant `now`.
pub open spec fn spec_delivered(d: NotificationDelivery, now: i64) -> NotificationDelivery {
    NotificationDelivery {
        status: NotificationDeliveryStatus::Delivered,
        delivered_at: Some(now),
        last_attempted_at: Some(now),
        last_error: None,
        updated_at: now,
        ..d
    }
}

/// A delivery after `mark_failed` at instant `now`: one more attempt,
/// the error recorded. `Delivered` is terminal, so a delivered record is
/// left alone; the attempt counter stops at its ceiling rather than wrap.
pub open spec fn spec_failed(d: NotificationDelivery, error: String, now: i64) -> NotificationDelivery {
    if d.status == NotificationDeliveryStatus::Delivered {
        d
    } else {
        NotificationDelivery {
            status: NotificationDeliveryStatus::Failed,
            attempt_count: if d.attempt_count < u32::MAX {
                (d.attempt_count + 1) as u32
            } else {
                d.attempt_count
            },
            last_error: Some(error),
            last_attempted_at: Some(now),
            updated_at: now,
            ..d
        }
    }
}

/// The store after `mark_delivered(delivery_id)` at instant `now`.
pub open spec fn spec_mark_delivered(s: StoreModel, delivery_id: u128, now: i64) -> StoreModel {
    StoreModel {
        deliveries: Seq::new(
            s.deliveries.len(),
            |i: int|
                if s.deliveries[i].id == delivery_id {
                    spec_delivered(s.deliveries[i], now)
                } else {
                    s.deliveries[i]
                },
        ),
        ..s
    }
}

/// The store after `mark_failed(delivery_id, error)` at instant `now`.
pub open spec fn spec_mark_failed(
    s: StoreModel,
    delivery_id: u128,
    error: String,
    now: i64,
) -> StoreModel {
    StoreModel {
        deliveries: Seq::new(
            s.deliveries.len(),
            |i: int|
                if s.deliveries[i].id == delivery_id {
                    spec_failed(s.deliveries[i], error, now)
                } else {
                    s.deliveries[i]
                },
        ),
        ..s
    }
}

/// Still worth an attempt: pending or failed, with attempts to spare.
pub open spec fn retryable(d: NotificationDelivery, max_attempts: u32) -> bool {
    &&& (d.status == NotificationDeliveryStatus::Pending || d.status
        == NotificationDeliveryStatus::Failed)
    &&& d.attempt_count < max_attempts
}

/// The event with this identifier (unique under `wf`).
pub open spec fn event_for(events: Seq<NotificationEvent>, id: u128) -> NotificationEvent {
    events[choose|j: int| 0 <= j < events.len() && (#[trigger] events[j]).id == id]
}

/// A delivery joined with its event, as the dispatcher receives it.
pub open spec fn spec_join(d: NotificationDelivery, e: NotificationEvent) -> PendingNotification {
    PendingNotification {
        delivery_id: d.id,
        event_id: d.event_id,
        channel: d.channel,
        attempt_count: d.attempt_count,
        chore_id: e.chore_id,
        event_type: e.event_type,
        due_at: e.due_at,
        title: e.title,
        body: e.body,
    }
}

/// A joined pending item together with its fetch-ordering key: the
/// delivery's creation instant and its position in the store.
#[derive(Debug)]
pub struct PendingRow {
    pub item: PendingNotification,
    pub created_at: i64,
    pub idx: usize,
}

impl Clone for PendingRow {
    fn clone(&self) -> (r: Self)
        ensures
            r == *self,
    {
        PendingRow { item: self.item.clone(), created_at: self.created_at, idx: self.idx }
    }
}

/// The dispatcher's fetch order: oldest due instant first, ties by the
/// delivery's creation instant, then by store position. A total order,
/// so the fetched batch is fully determined.
pub open spec fn le_row(a: PendingRow, b: PendingRow) -> bool {
    if a.item.due_at != b.item.due_at {
        a.item.due_at < b.item.due_at
    } else if a.created_at != b.created_at {
        a.created_at < b.created_at
    } else {
        a.idx <= b.idx
    }
}

/// Sorted under `le_row`.
pub open spec fn rows_sorted(s: Seq<PendingRow>) -> bool {
    forall|i: int, j: int| 0 <= i < j < s.len() ==> le_row(s[i], s[j])
}

/// Insert a row behind every row that compares less-or-equal: the
/// insertion step of the batch ordering sort.
pub open spec fn insert_row(x: PendingRow, s: Seq<PendingRow>) -> Seq<PendingRow>
    decreases s.len(),
{
    if s.len() == 0 {
        seq![x]
    } else if le_row(s[0], x) {
        seq![s[0]] + insert_row(x, s.drop_first())
    } else {
        seq![x] + s
    }
}

/// Insertion sort of the retryable rows under `le_row`.
pub open spec fn sort_rows(s: Seq<PendingRow>) -> Seq<PendingRow>
    decreases s.len(),
{
    if s.len() == 0 {
        Seq::empty()
    } else {
        insert_row(s.last(), sort_rows(s.drop_last()))
    }
}

/// The retryable deliveries among the first `n`, joined with their
/// events, in store order.
pub open spec fn spec_retryable_rows_upto(s: StoreModel, max_attempts: u32, n: int) -> Seq<
    PendingRow,
>
    decreases n,
{
    if n <= 0 {
        Seq::empty()
    } else {
        let rest = spec_retryable_rows_upto(s, max_attempts, n - 1);
        if retryable(s.deliveries[n - 1], max_attempts) {
            rest.push(
                PendingRow {
                    item: spec_join(
                        s.deliveries[n - 1],
                        event_for(s.events, s.deliveries[n - 1].event_id),
                    ),
                    created_at: s.deliveries[n - 1].created_at,
                    idx: (n - 1) as usize,
                },
            )
        } else {
            rest
        }
    }
}

/// Every retryable delivery of the store, joined and in store order.
pub open spec fn spec_retryable_rows(s: StoreModel, max_attempts: u32) -> Seq<PendingRow> {
    spec_retryable_rows_upto(s, max_attempts, s.deliveries.len() as int)
}

/// What `list_pending` returns: the retryable deliveries in fetch order,
/// cut to the batch size.
pub open spec fn spec_list_pending(s: StoreModel, limit: int, max_attempts: u32) -> Seq<
    PendingNotification,
> {
    let sorted = sort_rows(spec_retryable_rows(s, max_attempts));
    let cut = if limit < sorted.len() {
        sorted.take(limit)
    } else {
        sorted
    };
    cut.map_values(|r: PendingRow| r.item)
}

/// The notification store. Identifiers come from a private counter; the
/// two uniqueness invariants of `StoreModel::wf` hold between any two
/// operations.
pub struct NotificationRepository {
    events: Vec<NotificationEvent>,
    deliveries: Vec<NotificationDelivery>,
    next_id: u128,
}

impl View for NotificationRepository {
    type V = StoreModel;

    closed spec fn view(&self) -> StoreModel {
        StoreModel { events: self.events@, deliveries: self.deliveries@, next_id: self.next_id }
    }
}

impl NotificationRepository {
    /// An empty store.
    pub fn new() -> (r: Self)
        ensures
            r@ == (StoreModel {
                events: Seq::<NotificationEvent>::empty(),
                deliveries: Seq::<NotificationDelivery>::empty(),
                next_id: 0,
            }),
            r@.wf(),
    {
        NotificationRepository { events: Vec::new(), deliveries: Vec::new(), next_id: 0 }
    }

    /// The stored events, oldest first.
    pub fn events(&self) -> (r: &Vec<NotificationEvent>)
        ensures
            r@ == self@.events,
    {
        &self.events
    }

    /// The stored deliveries, oldest first.
    pub fn deliveries(&self) -> (r: &Vec<NotificationDelivery>)
        ensures
            r@ == self@.deliveries,
    {
        &self.deliveries
    }

    /// Create or fetch the unique due event for `(chore_id, due_at)` and
    /// enqueue a pending delivery for each channel that has none yet.
    ///
    /// Calling this twice with the same key and channels leaves the store
    /// exactly as after the first call, whatever the instants were.
    pub fn upsert_due_event_with_deliveries(
        &mut self,
        chore_id: u128,
        due_at: i64,
        title: String,
        body: String,
        channels: &Vec<NotificationChannel>,
        now: i64,
    ) -> (r: u128)
        requires
            old(self)@.wf(),
        ensures
            final(self)@ == spec_upsert(
                old(self)@,
                chore_id,
                due_at,
                title,
                body,
                channels@,
                now,
            ).0,
            r == spec_upsert(old(self)@, chore_id, due_at, title, body, channels@, now).1,
            final(self)@.wf(),
    {
        let ghost s0 = self@;
        let mut found: Option<usize> = None;
        let mut i: usize = 0;
        while i < self.events.len()
            invariant
                i <= self@.events.len(),
                self@ == s0,
                match found {
                    Some(k) => k < self@.events.len() && event_key_matches(
                        self@.events[k as int],
                        chore_id,
                        due_at,
                    ),
                    None => forall|k: int|
                        0 <= k < i ==> !event_key_matches(
                            #[trigger] self@.events[k],
                            chore_id,
                            due_at,
                        ),
                },
                found is Some ==> event_exists(self@.events, chore_id, due_at),
            decreases self@.events.len() - i,
        {
            if found.is_none() {
                let e = &self.events[i];
                if e.chore_id == chore_id && e.due_at == due_at {
                    found = Some(i);
                }
            }
            i += 1;
        }
        let event_id: u128 = match found {
            Some(k) => self.events[k].id,
            None => {
                let n_events = self.events.len();
                let n_deliveries = self.deliveries.len();
                proof {
                    assert(!event_exists(s0.events, chore_id, due_at));
                    assert(s0.next_id < u128::MAX);
                }
                let id = self.next_id;
                self.events.push(
                    NotificationEvent {
                        id,
                        chore_id,
                        event_type: NotificationEventType::Due,
                        due_at,
                        title,
                        body,
                        created_at: now,
                    },
                );
                self.next_id = self.next_id + 1;
                proof {
                    lemma_push_event_preserves_wf(
                        s0,
                        self@,
                        chore_id,
                        due_at,
                        title,
                        body,
                        now,
                    );
                }
                id
            },
        };
        let ghost s1 = self@;
        let ghost spec_result = spec_upsert(s0, chore_id, due_at, title, body, channels@, now);
        proof {
            assert(s1.events == spec_result.0.events);
            assert(s1.wf());
            let widx: int = match found {
                Some(k) => k as int,
                None => s1.events.len() - 1,
            };
            assert(event_key_matches(s1.events[widx], chore_id, due_at));
            assert(s1.events[widx].id == event_id);
            assert(event_exists(s1.events, chore_id, due_at));
            assert(event_id_for(s1.events, chore_id, due_at) == event_id) by {
                let w = choose|w: int|
                    0 <= w < s1.events.len() && event_key_matches(
                        #[trigger] s1.events[w],
                        chore_id,
                        due_at,
                    );
                if w != widx {
                    assert(false);
                }
            }
        }
        let mut c: usize = 0;
        while c < channels.len()
            invariant
                c <= channels@.len(),
                self@.events == s1.events,
                self@.wf(),
                spec_seed_deliveries(
                    s1.deliveries,
                    s1.next_id,
                    event_id,
                    channels@.take(c as int),
                    now,
                ) == (self@.deliveries, self@.next_id),
                event_exists(self@.events, chore_id, due_at),
                has_event_with_id(self@.events, event_id),
            decreases channels@.len() - c,
        {
            let ghost pre = self@;
            let channel = channels[c];
            let mut exists_delivery = false;
            let mut d: usize = 0;
            while d < self.deliveries.len()
                invariant
                    d <= self@.deliveries.len(),
                    self@ == pre,
                    exists_delivery ==> delivery_exists(self@.deliveries, event_id, channel),
                    !exists_delivery ==> forall|k: int|
                        0 <= k < d ==> !((#[trigger] self@.deliveries[k]).event_id == event_id
                            && self@.deliveries[k].channel == channel),
                decreases self@.deliveries.len() - d,
            {
                let dd = &self.deliveries[d];
                if dd.event_id == event_id && dd.channel == channel {
                    exists_delivery = true;
                }
                d += 1;
            }
            if !exists_delivery {
                let n_events = self.events.len();
                let n_deliveries = self.deliveries.len();
                proof {
                    assert(!delivery_exists(pre.deliveries, event_id, channel));
                    assert(pre.next_id < u128::MAX);
                }
                let id = self.next_id;
                self.deliveries.push(
                    NotificationDelivery {
                        id,
                        event_id,
                        channel,
                        status: NotificationDeliveryStatus::Pending,
                        attempt_count: 0,
                        last_error: None,
                        last_attempted_at: None,
                        delivered_at: None,
                        created_at: now,
                        updated_at: now,
                    },
                );
                self.next_id = self.next_id + 1;
                proof {
                    lemma_push_delivery_preserves_wf(pre, self@, event_id, channel, now);
                }
            }
            proof {
                lemma_seed_deliveries_snoc(
                    s1.deliveries,
                    s1.next_id,
                    event_id,
                    channels@,
                    c as int,
                    now,
                );
                assert(spec_seed_deliveries(
                    s1.deliveries,
                    s1.next_id,
                    event_id,
                    channels@.take(c + 1 as int),
                    now,
                ) == (self@.deliveries, self@.next_id));
            }
            c += 1;
        }
        proof {
            assert(channels@.take(channels@.len() as int) =~= channels@);
            assert(self@ =~= spec_result.0);
        }
        event_id
    }

    /// Position of the event with this identifier.
    fn find_event_index(&self, id: u128) -> (k: usize)
        requires
            self@.wf(),
            has_event_with_id(self@.events, id),
        ensures
            k < self@.events.len(),
            self@.events[k as int] == event_for(self@.events, id),
            self@.events[k as int].id == id,
    {
        let mut k: usize = 0;
        while k < self.events.len()
            invariant
                k <= self@.events.len(),
                self@.wf(),
                has_event_with_id(self@.events, id),
                forall|j: int| 0 <= j < k ==> (#[trigger] self@.events[j]).id != id,
            decreases self@.events.len() - k,
        {
            if self.events[k].id == id {
                proof {
                    let w = choose|j: int|
                        0 <= j < self@.events.len() && (#[trigger] self@.events[j]).id == id;
                    if w != k {
                        assert(self@.events[w].id != self@.events[k as int].id);
                    }
                }
                return k;
            }
            k += 1;
        }
        proof {
            let w = choose|j: int|
                0 <= j < self@.events.len() && (#[trigger] self@.events[j]).id == id;
            assert(false);
        }
        0
    }

    /// Fetch up to `limit` retryable deliveries — pending or failed, with
    /// fewer than `max_attempts` attempts — joined with their events, in
    /// fetch order: oldest due instant first, ties broken by creation
    /// instant and then store position.
    pub fn list_pending(&self, limit: usize, max_attempts: u32) -> (r: Vec<PendingNotification>)
        requires
            self@.wf(),
        ensures
            r@ == spec_list_pending(self@, limit as int, max_attempts),
            forall|i: int, j: int| 0 <= i < j < r@.len() ==> r@[i].due_at <= r@[j].due_at,
            r@.len() <= limit,
    {
        let ghost s = self@;
        let mut rows: Vec<PendingRow> = Vec::new();
        let mut i: usize = 0;
        while i < self.deliveries.len()
            invariant
                i <= self@.deliveries.len(),
                self@ == s,
                s.wf(),
                rows@ == spec_retryable_rows_upto(s, max_attempts, i as int),
            decreases self@.deliveries.len() - i,
        {
            let d = &self.deliveries[i];
            let is_candidate = (matches!(d.status, NotificationDeliveryStatus::Pending)
                || matches!(d.status, NotificationDeliveryStatus::Failed)) && d.attempt_count
                < max_attempts;
            if is_candidate {
                let k = self.find_event_index(d.event_id);
                let e = &self.events[k];
                rows.push(
                    PendingRow {
                        item: PendingNotification {
                            delivery_id: d.id,
                            event_id: d.event_id,
                            channel: d.channel,
                            attempt_count: d.attempt_count,
                            chore_id: e.chore_id,
                            event_type: e.event_type,
                            due_at: e.due_at,
                            title: e.title.clone(),
                            body: e.body.clone(),
                        },
                        created_at: d.created_at,
                        idx: i,
                    },
                );
            }
            i += 1;
        }
        let mut sorted: Vec<PendingRow> = Vec::new();
        let mut i: usize = 0;
        while i < rows.len()
            invariant
                i <= rows@.len(),
                rows@ == spec_retryable_rows(s, max_attempts),
                sorted@ == sort_rows(rows@.take(i as int)),
                rows_sorted(sorted@),
            decreases rows@.len() - i,
        {
            let item = rows[i].clone();
            let ghost prev = sorted@;
            let mut j: usize = sorted.len();
            while j > 0 && !le_row_exec(&sorted[j - 1], &item)
                invariant
                    j <= sorted@.len(),
                    sorted@ == prev,
                    forall|k: int| j <= k < sorted@.len() ==> !le_row(#[trigger] sorted@[k], item),
                decreases j,
            {
                j -= 1;
            }
            proof {
                assert forall|k: int| 0 <= k < j implies le_row(#[trigger] prev[k], item) by {
                    if j > 0 {
                        assert(le_row(prev[j - 1], item));
                        if k < j - 1 {
                            assert(le_row(prev[k], prev[j - 1]));
                        }
                    }
                }
                lemma_insert_row_position(item, prev, j as int);
                lemma_insert_row_sorted(item, prev);
            }
            sorted.insert(j, item);
            proof {
                assert(sorted@ =~= prev.take(j as int) + seq![item] + prev.skip(j as int));
                assert(rows@.take(i + 1 as int).drop_last() =~= rows@.take(i as int));
                assert(rows@.take(i + 1 as int).last() == rows@[i as int]);
                assert(sorted@ == sort_rows(rows@.take(i + 1 as int)));
            }
            i += 1;
        }
        proof {
            assert(rows@.take(rows@.len() as int) =~= rows@);
        }
        let ghost cut = if (limit as int) < sorted@.len() {
            sorted@.take(limit as int)
        } else {
            sorted@
        };
        let mut out: Vec<PendingNotification> = Vec::new();
        let mut i: usize = 0;
        while i < sorted.len() && i < limit
            invariant
                i <= sorted@.len(),
                i <= limit,
                sorted@ == sort_rows(spec_retryable_rows(s, max_attempts)),
                rows_sorted(sorted@),
                cut == (if (limit as int) < sorted@.len() {
                    sorted@.take(limit as int)
                } else {
                    sorted@
                }),
                out@ == cut.take(i as int).map_values(|r: PendingRow| r.item),
                out@.len() == i,
            decreases sorted@.len() - i,
        {
            let row = sorted[i].clone();
            out.push(row.item);
            proof {
                assert(cut.take(i + 1 as int).map_values(|r: PendingRow| r.item) =~= cut.take(
                    i as int,
                ).map_values(|r: PendingRow| r.item).push(cut[i as int].item));
            }
            i += 1;
        }
        proof {
            assert(cut.take(cut.len() as int) =~= cut);
            assert(out@ =~= cut.map_values(|r: PendingRow| r.item));
            assert forall|a: int, b: int| 0 <= a < b < out@.len() implies out@[a].due_at
                <= out@[b].due_at by {
                assert(le_row(cut[a], cut[b]));
            }
        }
        out
    }

    /// Record a successful send: the delivery becomes `Delivered`, the
    /// error is cleared, the delivery instant is `now`. Unknown
    /// identifiers change nothing.
    pub fn mark_delivered(&mut self, delivery_id: u128, now: i64)
        requires
            old(self)@.wf(),
        ensures
            final(self)@ == spec_mark_delivered(old(self)@, delivery_id, now),
            final(self)@.wf(),
    {
        let ghost s0 = self@;
        let mut i: usize = 0;
        while i < self.deliveries.len()
            invariant
                i <= self@.deliveries.len(),
                s0.wf(),
                self@.events == s0.events,
                self@.next_id == s0.next_id,
                self@.deliveries.len() == s0.deliveries.len(),
                forall|k: int|
                    0 <= k < self@.deliveries.len() ==> #[trigger] self@.deliveries[k] == (
                    if s0.deliveries[k].id == delivery_id && k < i {
                        spec_delivered(s0.deliveries[k], now)
                    } else {
                        s0.deliveries[k]
                    }),
            decreases self@.deliveries.len() - i,
        {
            if self.deliveries[i].id == delivery_id {
                let d = self.deliveries[i].clone();
                self.deliveries[i] = NotificationDelivery {
                    status: NotificationDeliveryStatus::Delivered,
                    delivered_at: Some(now),
                    last_attempted_at: Some(now),
                    last_error: None,
                    updated_at: now,
                    ..d
                };
            }
            i += 1;
        }
        proof {
            assert(self@.deliveries =~= spec_mark_delivered(s0, delivery_id, now).deliveries);
            assert(self@ =~= spec_mark_delivered(s0, delivery_id, now));
            lemma_pointwise_update_preserves_wf(s0, self@);
        }
    }

    /// Record a failed send: the delivery becomes `Failed`, its attempt
    /// count grows by one, the error and the attempt instant are kept. A
    /// `Delivered` record is terminal and left alone. Unknown
    /// identifiers change nothing.
    pub fn mark_failed(&mut self, delivery_id: u128, error: String, now: i64)
        requires
            old(self)@.wf(),
        ensures
            final(self)@ == spec_mark_failed(old(self)@, delivery_id, error, now),
            final(self)@.wf(),
    {
        let ghost s0 = self@;
        let mut i: usize = 0;
        while i < self.deliveries.len()
            invariant
                i <= self@.deliveries.len(),
                s0.wf(),
                self@.events == s0.events,
                self@.next_id == s0.next_id,
                self@.deliveries.len() == s0.deliveries.len(),
                forall|k: int|
                    0 <= k < self@.deliveries.len() ==> #[trigger] self@.deliveries[k] == (
                    if s0.deliveries[k].id == delivery_id && k < i {
                        spec_failed(s0.deliveries[k], error, now)
                    } else {
                        s0.deliveries[k]
                    }),
            decreases self@.deliveries.len() - i,
        {
            if self.deliveries[i].id == delivery_id {
                let d = self.deliveries[i].clone();
                if !matches!(d.status, NotificationDeliveryStatus::Delivered) {
                    let attempts = if d.attempt_count < u32::MAX {
                        d.attempt_count + 1
                    } else {
                        d.attempt_count
                    };
                    self.deliveries[i] = NotificationDelivery {
                        status: NotificationDeliveryStatus::Failed,
                        attempt_count: attempts,
                        last_error: Some(error.clone()),
                        last_attempted_at: Some(now),
                        updated_at: now,
                        ..d
                    };
                } else {
                    self.deliveries[i] = d;
                }
            }
            i += 1;
        }
        proof {
            assert(self@.deliveries =~= spec_mark_failed(s0, delivery_id, error, now).deliveries);
            assert(self@ =~= spec_mark_failed(s0, delivery_id, error, now));
            lemma_pointwise_update_preserves_wf(s0, self@);
        }
    }
}

/// A store whose deliveries changed pointwise, keeping identifier,
/// event and channel, is still well formed.
proof fn lemma_pointwise_update_preserves_wf(s0: StoreModel, s1: StoreModel)
    requires
        s0.wf(),
        s1.events == s0.events,
        s1.next_id == s0.next_id,
        s1.deliveries.len() == s0.deliveries.len(),
        forall|k: int|
            0 <= k < s1.deliveries.len() ==> (#[trigger] s1.deliveries[k]).id
                == s0.deliveries[k].id && s1.deliveries[k].event_id == s0.deliveries[k].event_id
                && s1.deliveries[k].channel == s0.deliveries[k].channel,
    ensures
        s1.wf(),
{
    assert forall|i: int| 0 <= i < s1.deliveries.len() implies (#[trigger] s1.deliveries[i]).id
        < s1.next_id by {
        assert(s0.deliveries[i].id < s0.next_id);
    }
    assert forall|i: int, j: int|
        0 <= i < j < s1.deliveries.len() implies (#[trigger] s1.deliveries[i]).id != (
    #[trigger] s1.deliveries[j]).id by {
        assert(s0.deliveries[i].id != s0.deliveries[j].id);
    }
    assert forall|i: int, j: int|
        0 <= i < j < s1.deliveries.len() implies !((#[trigger] s1.deliveries[i]).event_id == (
    #[trigger] s1.deliveries[j]).event_id && s1.deliveries[i].channel
        == s1.deliveries[j].channel) by {
        assert(!(s0.deliveries[i].event_id == s0.deliveries[j].event_id && s0.deliveries[i].channel
            == s0.deliveries[j].channel));
    }
    assert forall|i: int| 0 <= i < s1.deliveries.len() implies has_event_with_id(
        s1.events,
        (#[trigger] s1.deliveries[i]).event_id,
    ) by {
        assert(has_event_with_id(s0.events, s0.deliveries[i].event_id));
    }
}

/// Appending a fresh event with a fresh key and the counter's identifier
/// keeps the store well formed.
proof fn lemma_push_event_preserves_wf(
    s0: StoreModel,
    s1: StoreModel,
    chore_id: u128,
    due_at: i64,
    title: String,
    body: String,
    now: i64,
)
    requires
        s0.wf(),
        !event_exists(s0.events, chore_id, due_at),
        s0.next_id < u128::MAX,
        s1.events == s0.events.push(spec_new_event(s0.next_id, chore_id, due_at, title, body, now)),
        s1.deliveries == s0.deliveries,
        s1.next_id == s0.next_id + 1,
    ensures
        s1.wf(),
{
    let n = s0.events.len() as int;
    assert(s1.events[n] == spec_new_event(s0.next_id, chore_id, due_at, title, body, now));
    assert forall|i: int, j: int|
        0 <= i < j < s1.events.len() implies (#[trigger] s1.events[i]).id != (
    #[trigger] s1.events[j]).id by {
        if j == n {
            assert(s0.events[i].id < s0.next_id);
        }
    }
    assert forall|i: int, j: int|
        0 <= i < j < s1.events.len() implies !((#[trigger] s1.events[i]).chore_id == (
    #[trigger] s1.events[j]).chore_id && s1.events[i].due_at == s1.events[j].due_at) by {
        if j == n {
            assert(!event_key_matches(s0.events[i], chore_id, due_at));
        }
    }
    assert forall|i: int| 0 <= i < s1.deliveries.len() implies has_event_with_id(
        s1.events,
        (#[trigger] s1.deliveries[i]).event_id,
    ) by {
        assert(has_event_with_id(s0.events, s0.deliveries[i].event_id));
        let j = choose|j: int|
            0 <= j < s0.events.len() && (#[trigger] s0.events[j]).id == s0.deliveries[i].event_id;
        assert(0 <= j < s1.events.len() && s1.events[j].id == s1.deliveries[i].event_id);
    }
}

/// Appending a fresh pending delivery with a fresh key, pointing at an
/// existing event, keeps the store well formed.
proof fn lemma_push_delivery_preserves_wf(
    s0: StoreModel,
    s1: StoreModel,
    event_id: u128,
    channel: NotificationChannel,
    now: i64,
)
    requires
        s0.wf(),
        !delivery_exists(s0.deliveries, event_id, channel),
        has_event_with_id(s0.events, event_id),
        s0.next_id < u128::MAX,
        s1.events == s0.events,
        s1.deliveries == s0.deliveries.push(spec_new_delivery(s0.next_id, event_id, channel, now)),
        s1.next_id == s0.next_id + 1,
    ensures
        s1.wf(),
{
    let n = s0.deliveries.len() as int;
    assert(s1.deliveries[n] == spec_new_delivery(s0.next_id, event_id, channel, now));
    assert forall|i: int, j: int|
        0 <= i < j < s1.deliveries.len() implies (#[trigger] s1.deliveries[i]).id != (
    #[trigger] s1.deliveries[j]).id by {
        if j == n {
            assert(s0.deliveries[i].id < s0.next_id);
        }
    }
    assert forall|i: int, j: int|
        0 <= i < j < s1.deliveries.len() implies !((#[trigger] s1.deliveries[i]).event_id == (
    #[trigger] s1.deliveries[j]).event_id && s1.deliveries[i].channel
        == s1.deliveries[j].channel) by {
        if j < n {
            assert(!(s0.deliveries[i].event_id == s0.deliveries[j].event_id
                && s0.deliveries[i].channel == s0.deliveries[j].channel));
        }
    }
    assert forall|i: int| 0 <= i < s1.deliveries.len() implies has_event_with_id(
        s1.events,
        (#[trigger] s1.deliveries[i]).event_id,
    ) by {
        if i < n {
            assert(has_event_with_id(s0.events, s0.deliveries[i].event_id));
        } else {
            assert(s1.deliveries[i].event_id == event_id);
        }
    }
}

/// `le_row` compared, exactly as the specification `le_row` says.
fn le_row_exec(a: &PendingRow, b: &PendingRow) -> (r: bool)
    ensures
        r == le_row(*a, *b),
{
    if a.item.due_at != b.item.due_at {
        a.item.due_at < b.item.due_at
    } else if a.created_at != b.created_at {
        a.created_at < b.created_at
    } else {
        a.idx <= b.idx
    }
}

/// Inserting keeps rows sorted.
proof fn lemma_insert_row_sorted(x: PendingRow, s: Seq<PendingRow>)
    requires
        rows_sorted(s),
    ensures
        rows_sorted(insert_row(x, s)),
    decreases s.len(),
{
    if s.len() == 0 {
    } else if le_row(s[0], x) {
        assert(rows_sorted(s.drop_first()));
        lemma_insert_row_sorted(x, s.drop_first());
        let t = seq![s[0]] + insert_row(x, s.drop_first());
        assert forall|i: int, j: int| 0 <= i < j < t.len() implies le_row(t[i], t[j]) by {
            lemma_insert_row_elements(x, s.drop_first());
            if i == 0 {
                let u = insert_row(x, s.drop_first());
                assert(t[j] == u[j - 1]);
            }
        }
    } else {
        assert forall|i: int, j: int|
            0 <= i < j < (seq![x] + s).len() implies le_row((seq![x] + s)[i], (seq![x] + s)[j]) by {
            if i == 0 {
                assert(!le_row(s[0], x));
                assert(le_row(x, s[0]));
                if j > 1 {
                    assert(le_row(s[0], s[j - 1]));
                }
            }
        }
    }
}

/// Every element of `insert_row(x, s)` is `x` or an element of `s`.
proof fn lemma_insert_row_elements(x: PendingRow, s: Seq<PendingRow>)
    ensures
        forall|k: int|
            0 <= k < insert_row(x, s).len() ==> (insert_row(x, s)[k] == x || s.contains(
                #[trigger] insert_row(x, s)[k],
            )),
        insert_row(x, s).len() == s.len() + 1,
    decreases s.len(),
{
    if s.len() == 0 {
    } else if le_row(s[0], x) {
        lemma_insert_row_elements(x, s.drop_first());
        let t = seq![s[0]] + insert_row(x, s.drop_first());
        assert forall|k: int| 0 <= k < t.len() implies (t[k] == x || s.contains(#[trigger] t[k])) by {
            if k == 0 {
                assert(s[0] == t[0]);
                assert(s.contains(t[0]));
            } else {
                let u = insert_row(x, s.drop_first());
                assert(t[k] == u[k - 1]);
                if u[k - 1] != x {
                    let v = u[k - 1];
                    let i = choose|i: int| 0 <= i < s.drop_first().len() && s.drop_first()[i] == v;
                    assert(s[i + 1] == v);
                }
            }
        }
    }
}

/// Where the insertion lands when the prefix compares less-or-equal.
proof fn lemma_insert_row_position(x: PendingRow, s: Seq<PendingRow>, p: int)
    requires
        0 <= p <= s.len(),
        forall|k: int| 0 <= k < p ==> le_row(#[trigger] s[k], x),
        p < s.len() ==> !le_row(s[p], x),
    ensures
        insert_row(x, s) == s.take(p) + seq![x] + s.skip(p),
    decreases s.len(),
{
    if s.len() == 0 {
        assert(insert_row(x, s) =~= s.take(p) + seq![x] + s.skip(p));
    } else if p == 0 {
        assert(!le_row(s[0], x));
        assert(insert_row(x, s) =~= s.take(0) + seq![x] + s.skip(0));
    } else {
        assert(le_row(s[0], x));
        lemma_insert_row_position(x, s.drop_first(), p - 1);
        assert(insert_row(x, s) == seq![s[0]] + (s.drop_first().take(p - 1) + seq![x]
            + s.drop_first().skip(p - 1)));
        assert(insert_row(x, s) =~= s.take(p) + seq![x] + s.skip(p));
    }
}

/// Sorting the rows permutes them and invents nothing.
pub proof fn lemma_insert_row_multiset(x: PendingRow, s: Seq<PendingRow>)
    ensures
        insert_row(x, s).to_multiset() == s.to_multiset().insert(x),
    decreases s.len(),
{
    broadcast use vstd::seq_lib::group_to_multiset_ensures;

    if s.len() == 0 {
        assert(insert_row(x, s) =~= Seq::empty().push(x));
        assert(Seq::<PendingRow>::empty().push(x).to_multiset() =~= Seq::<
            PendingRow,
        >::empty().to_multiset().insert(x));
        assert(Seq::<PendingRow>::empty().to_multiset() =~= Multiset::empty());
    } else if le_row(s[0], x) {
        lemma_insert_row_multiset(x, s.drop_first());
        let u = insert_row(x, s.drop_first());
        assert(insert_row(x, s) == seq![s[0]] + u);
        assert(seq![s[0]] + u =~= u.insert(0, s[0]));
        assert((u.insert(0, s[0])).to_multiset() =~= u.to_multiset().insert(s[0]));
        assert(s =~= s.drop_first().insert(0, s[0]));
        assert(s.to_multiset() =~= s.drop_first().to_multiset().insert(s[0]));
        assert(insert_row(x, s).to_multiset() =~= s.to_multiset().insert(x));
    } else {
        assert(seq![x] + s =~= s.insert(0, x));
        assert((s.insert(0, x)).to_multiset() =~= s.to_multiset().insert(x));
    }
}

/// See `lemma_insert_row_multiset`.
pub proof fn lemma_sort_rows_multiset(s: Seq<PendingRow>)
    ensures
        sort_rows(s).to_multiset() == s.to_multiset(),
    decreases s.len(),
{
    broadcast use vstd::seq_lib::group_to_multiset_ensures;

    if s.len() == 0 {
        assert(sort_rows(s) =~= s);
    } else {
        lemma_sort_rows_multiset(s.drop_last());
        lemma_insert_row_multiset(s.last(), sort_rows(s.drop_last()));
        assert(s =~= s.drop_last().push(s.last()));
        assert(s.to_multiset() =~= s.drop_last().to_multiset().insert(s.last()));
    }
}

/// Sorting keeps exactly the members of the input.
pub proof fn lemma_sort_rows_contains(s: Seq<PendingRow>, x: PendingRow)
    ensures
        sort_rows(s).contains(x) <==> s.contains(x),
{
    broadcast use vstd::seq_lib::group_to_multiset_ensures;

    lemma_sort_rows_multiset(s);
    assert(sort_rows(s).contains(x) <==> sort_rows(s).to_multiset().count(x) > 0);
    assert(s.contains(x) <==> s.to_multiset().count(x) > 0);
}

/// Seeding only appends: what was there stays, and afterwards every
/// channel in the list has a delivery for the event.
pub proof fn lemma_seed_deliveries_properties(
    deliveries: Seq<NotificationDelivery>,
    next_id: u128,
    event_id: u128,
    channels: Seq<NotificationChannel>,
    now: i64,
)
    ensures
        ({
            let (ds, nid) = spec_seed_deliveries(deliveries, next_id, event_id, channels, now);
            &&& deliveries.is_prefix_of(ds)
            &&& forall|k: int|
                0 <= k < channels.len() ==> delivery_exists(ds, event_id, #[trigger] channels[k])
            &&& forall|eid2: u128, ch2: NotificationChannel|
                delivery_exists(deliveries, eid2, ch2) ==> delivery_exists(ds, eid2, ch2)
            &&& forall|k: int|
                deliveries.len() <= k < ds.len() ==> (#[trigger] ds[k]).event_id == event_id
                    && ds[k].status == NotificationDeliveryStatus::Pending && ds[k].attempt_count
                    == 0 && ds[k].created_at == now
        }),
    decreases channels.len(),
{
    if channels.len() == 0 {
        assert(deliveries.is_prefix_of(deliveries));
    } else {
        let (ds0, nid0) = if delivery_exists(deliveries, event_id, channels[0]) {
            (deliveries, next_id)
        } else {
            (
                deliveries.push(spec_new_delivery(next_id, event_id, channels[0], now)),
                (next_id + 1) as u128,
            )
        };
        assert(deliveries.is_prefix_of(ds0)) by {
            if !delivery_exists(deliveries, event_id, channels[0]) {
                assert(deliveries =~= ds0.take(deliveries.len() as int));
            }
        }
        assert forall|eid2: u128, ch2: NotificationChannel|
            delivery_exists(deliveries, eid2, ch2) implies delivery_exists(ds0, eid2, ch2) by {
            let w = choose|i: int|
                0 <= i < deliveries.len() && (#[trigger] deliveries[i]).event_id == eid2
                    && deliveries[i].channel == ch2;
            assert(ds0[w].event_id == eid2 && ds0[w].channel == ch2);
        }
        assert(delivery_exists(ds0, event_id, channels[0])) by {
            if !delivery_exists(deliveries, event_id, channels[0]) {
                let n = deliveries.len() as int;
                assert(ds0[n].event_id == event_id && ds0[n].channel == channels[0]);
            }
        }
        lemma_seed_deliveries_properties(ds0, nid0, event_id, channels.drop_first(), now);
        let (ds, nid) = spec_seed_deliveries(ds0, nid0, event_id, channels.drop_first(), now);
        assert(spec_seed_deliveries(deliveries, next_id, event_id, channels, now) == (ds, nid));
        assert(deliveries.is_prefix_of(ds)) by {
            assert(ds0.is_prefix_of(ds));
            assert(deliveries =~= ds.take(deliveries.len() as int)) by {
                assert(ds0 =~= ds.take(ds0.len() as int));
            }
        }
        assert forall|k: int|
            0 <= k < channels.len() implies delivery_exists(
            ds,
            event_id,
            #[trigger] channels[k],
        ) by {
            if k == 0 {
                let w = choose|i: int|
                    0 <= i < ds0.len() && (#[trigger] ds0[i]).event_id == event_id
                        && ds0[i].channel == channels[0];
                assert(ds[w].event_id == event_id && ds[w].channel == channels[0]);
            } else {
                assert(channels.drop_first()[k - 1] == channels[k]);
            }
        }
    }
}

/// Seeding channels that all have their delivery already changes nothing.
pub proof fn lemma_seed_deliveries_identity(
    deliveries: Seq<NotificationDelivery>,
    next_id: u128,
    event_id: u128,
    channels: Seq<NotificationChannel>,
    now: i64,
)
    requires
        forall|k: int|
            0 <= k < channels.len() ==> delivery_exists(deliveries, event_id, #[trigger] channels[k]),
    ensures
        spec_seed_deliveries(deliveries, next_id, event_id, channels, now) == (deliveries, next_id),
    decreases channels.len(),
{
    if channels.len() == 0 {
    } else {
        assert(delivery_exists(deliveries, event_id, channels[0]));
        assert forall|k: int|
            0 <= k < channels.drop_first().len() implies delivery_exists(
            deliveries,
            event_id,
            #[trigger] channels.drop_first()[k],
        ) by {
            assert(channels.drop_first()[k] == channels[k + 1]);
        }
        lemma_seed_deliveries_identity(deliveries, next_id, event_id, channels.drop_first(), now);
    }
}

/// What one upsert guarantees: existing records are kept word for word,
/// the key now has its event, and every requested channel its delivery.
pub proof fn lemma_upsert_properties(
    s: StoreModel,
    chore_id: u128,
    due_at: i64,
    title: String,
    body: String,
    channels: Seq<NotificationChannel>,
    now: i64,
)
    requires
        s.wf(),
    ensures
        ({
            let (s2, eid) = spec_upsert(s, chore_id, due_at, title, body, channels, now);
            &&& s.events.is_prefix_of(s2.events)
            &&& s.deliveries.is_prefix_of(s2.deliveries)
            &&& event_exists(s2.events, chore_id, due_at)
            &&& eid == event_id_for(s2.events, chore_id, due_at)
            &&& eid == (if event_exists(s.events, chore_id, due_at) {
                event_id_for(s.events, chore_id, due_at)
            } else {
                s.next_id
            })
            &&& forall|c2: u128, d2: i64|
                event_exists(s.events, c2, d2) ==> event_exists(s2.events, c2, d2)
                    && event_id_for(s2.events, c2, d2) == event_id_for(s.events, c2, d2)
            &&& forall|eid2: u128, ch2: NotificationChannel|
                delivery_exists(s.deliveries, eid2, ch2) ==> delivery_exists(
                    s2.deliveries,
                    eid2,
                    ch2,
                )
            &&& forall|k: int|
                0 <= k < channels.len() ==> delivery_exists(
                    s2.deliveries,
                    eid,
                    #[trigger] channels[k],
                )
            &&& forall|k: int|
                s.events.len() <= k < s2.events.len() ==> #[trigger] s2.events[k]
                    == spec_new_event(s.next_id, chore_id, due_at, title, body, now)
            &&& forall|k: int|
                s.deliveries.len() <= k < s2.deliveries.len() ==> (#[trigger] s2.deliveries[k]).event_id
                    == eid && s2.deliveries[k].status == NotificationDeliveryStatus::Pending
                    && s2.deliveries[k].attempt_count == 0 && s2.deliveries[k].created_at == now
        }),
{
    let (s2, eid) = spec_upsert(s, chore_id, due_at, title, body, channels, now);
    let had = event_exists(s.events, chore_id, due_at);
    let events1 = if had {
        s.events
    } else {
        s.events.push(spec_new_event(s.next_id, chore_id, due_at, title, body, now))
    };
    assert(s.events.is_prefix_of(events1)) by {
        if !had {
            assert(s.events =~= events1.take(s.events.len() as int));
        }
    }
    assert(event_exists(events1, chore_id, due_at)) by {
        if !had {
            let n = s.events.len() as int;
            assert(event_key_matches(events1[n], chore_id, due_at));
        }
    }
    assert forall|c2: u128, d2: i64| event_exists(s.events, c2, d2) implies event_exists(
        events1,
        c2,
        d2,
    ) && event_id_for(events1, c2, d2) == event_id_for(s.events, c2, d2) by {
        let w = choose|i: int|
            0 <= i < s.events.len() && event_key_matches(#[trigger] s.events[i], c2, d2);
        assert(event_key_matches(events1[w], c2, d2));
        let w1 = choose|i: int|
            0 <= i < events1.len() && event_key_matches(#[trigger] events1[i], c2, d2);
        let w0 = choose|i: int|
            0 <= i < s.events.len() && event_key_matches(#[trigger] s.events[i], c2, d2);
        if w1 < s.events.len() {
            if w1 != w0 {
                assert(false);
            }
        } else {
            assert(!had);
            assert(event_key_matches(events1[w1], chore_id, due_at) && event_key_matches(
                events1[w1],
                c2,
                d2,
            ));
            assert(event_key_matches(s.events[w0], chore_id, due_at));
            assert(false);
        }
    }
    assert(eid == event_id_for(events1, chore_id, due_at)) by {
        let w1 = choose|i: int|
            0 <= i < events1.len() && event_key_matches(#[trigger] events1[i], chore_id, due_at);
        if had {
            let w0 = choose|i: int|
                0 <= i < s.events.len() && event_key_matches(
                    #[trigger] s.events[i],
                    chore_id,
                    due_at,
                );
            if w1 != w0 {
                assert(false);
            }
        } else {
            if w1 < s.events.len() {
                assert(event_key_matches(s.events[w1], chore_id, due_at));
                assert(false);
            }
            assert(events1[w1].id == s.next_id);
        }
    }
    let nid1 = if had {
        s.next_id
    } else {
        (s.next_id + 1) as u128
    };
    lemma_seed_deliveries_properties(s.deliveries, nid1, eid, channels, now);
}

/// Upserting the same key and channels a second time changes nothing:
/// the store operation behind event generation is idempotent, whatever
/// the texts and instants of the second call.
pub proof fn lemma_upsert_idempotent(
    s: StoreModel,
    chore_id: u128,
    due_at: i64,
    title: String,
    body: String,
    title2: String,
    body2: String,
    channels: Seq<NotificationChannel>,
    now: i64,
    now2: i64,
)
    requires
        s.wf(),
    ensures
        ({
            let (s1, e1) = spec_upsert(s, chore_id, due_at, title, body, channels, now);
            let (s2, e2) = spec_upsert(s1, chore_id, due_at, title2, body2, channels, now2);
            s2 == s1 && e2 == e1
        }),
{
    let (s1, e1) = spec_upsert(s, chore_id, due_at, title, body, channels, now);
    let (s2, e2) = spec_upsert(s1, chore_id, due_at, title2, body2, channels, now2);
    lemma_upsert_properties(s, chore_id, due_at, title, body, channels, now);
    assert(event_exists(s1.events, chore_id, due_at));
    lemma_seed_deliveries_identity(s1.deliveries, s1.next_id, e1, channels, now2);
    assert(s2 =~= s1);
}

/// Seeding deliveries keeps the store well formed, and spends at most
/// one identifier per channel.
proof fn lemma_seed_preserves_wf(
    s: StoreModel,
    event_id: u128,
    channels: Seq<NotificationChannel>,
    now: i64,
)
    requires
        s.wf(),
        has_event_with_id(s.events, event_id),
        s.next_id + channels.len() <= u128::MAX,
    ensures
        ({
            let (ds, nid) = spec_seed_deliveries(s.deliveries, s.next_id, event_id, channels, now);
            &&& (StoreModel { events: s.events, deliveries: ds, next_id: nid }).wf()
            &&& nid as int <= s.next_id + channels.len()
        }),
    decreases channels.len(),
{
    if channels.len() == 0 {
        assert(StoreModel { events: s.events, deliveries: s.deliveries, next_id: s.next_id } =~= s);
    } else {
        let s1 = if delivery_exists(s.deliveries, event_id, channels[0]) {
            s
        } else {
            StoreModel {
                events: s.events,
                deliveries: s.deliveries.push(
                    spec_new_delivery(s.next_id, event_id, channels[0], now),
                ),
                next_id: (s.next_id + 1) as u128,
            }
        };
        if !delivery_exists(s.deliveries, event_id, channels[0]) {
            lemma_push_delivery_preserves_wf(s, s1, event_id, channels[0], now);
        }
        lemma_seed_preserves_wf(s1, event_id, channels.drop_first(), now);
        assert(spec_seed_deliveries(s.deliveries, s.next_id, event_id, channels, now)
            == spec_seed_deliveries(
            s1.deliveries,
            s1.next_id,
            event_id,
            channels.drop_first(),
            now,
        ));
    }
}

/// The upsert keeps the store well formed, spending at most one
/// identifier for the event and one per channel.
pub proof fn lemma_upsert_preserves_wf(
    s: StoreModel,
    chore_id: u128,
    due_at: i64,
    title: String,
    body: String,
    channels: Seq<NotificationChannel>,
    now: i64,
)
    requires
        s.wf(),
        s.next_id + channels.len() + 1 <= u128::MAX,
    ensures
        spec_upsert(s, chore_id, due_at, title, body, channels, now).0.wf(),
{
    let (s2, eid) = spec_upsert(s, chore_id, due_at, title, body, channels, now);
    lemma_upsert_properties(s, chore_id, due_at, title, body, channels, now);
    let had = event_exists(s.events, chore_id, due_at);
    let s_mid = if had {
        s
    } else {
        StoreModel {
            events: s.events.push(spec_new_event(s.next_id, chore_id, due_at, title, body, now)),
            deliveries: s.deliveries,
            next_id: (s.next_id + 1) as u128,
        }
    };
    if !had {
        lemma_push_event_preserves_wf(s, s_mid, chore_id, due_at, title, body, now);
    }
    assert(has_event_with_id(s_mid.events, eid)) by {
        let w = choose|i: int|
            0 <= i < s_mid.events.len() && event_key_matches(
                #[trigger] s_mid.events[i],
                chore_id,
                due_at,
            );
        assert(s_mid.events[w].id == event_id_for(s_mid.events, chore_id, due_at));
    }
    lemma_seed_preserves_wf(s_mid, eid, channels, now);
    assert(s2 =~= ({
        let (ds, nid) = spec_seed_deliveries(s_mid.deliveries, s_mid.next_id, eid, channels, now);
        StoreModel { events: s_mid.events, deliveries: ds, next_id: nid }
    }));
}

/// After an upsert there is exactly one event for the key and exactly
/// one delivery per requested channel: the deduplication invariant of
/// event generation, stated positively.
pub proof fn lemma_upsert_exactly_one(
    s: StoreModel,
    chore_id: u128,
    due_at: i64,
    title: String,
    body: String,
    channels: Seq<NotificationChannel>,
    now: i64,
)
    requires
        s.wf(),
        s.next_id + channels.len() + 1 <= u128::MAX,
    ensures
        ({
            let (s2, eid) = spec_upsert(s, chore_id, due_at, title, body, channels, now);
            &&& event_exists(s2.events, chore_id, due_at)
            &&& forall|a: int, b: int|
                0 <= a < s2.events.len() && 0 <= b < s2.events.len() && event_key_matches(
                    #[trigger] s2.events[a],
                    chore_id,
                    due_at,
                ) && event_key_matches(#[trigger] s2.events[b], chore_id, due_at) ==> a == b
            &&& forall|ci: int|
                0 <= ci < channels.len() ==> delivery_exists(
                    s2.deliveries,
                    eid,
                    #[trigger] channels[ci],
                )
            &&& forall|a: int, b: int|
                0 <= a < s2.deliveries.len() && 0 <= b < s2.deliveries.len() && (
                #[trigger] s2.deliveries[a]).event_id == eid && (
                #[trigger] s2.deliveries[b]).event_id == eid && s2.deliveries[a].channel
                    == s2.deliveries[b].channel ==> a == b
        }),
{
    let (s2, eid) = spec_upsert(s, chore_id, due_at, title, body, channels, now);
    lemma_upsert_properties(s, chore_id, due_at, title, body, channels, now);
    lemma_upsert_preserves_wf(s, chore_id, due_at, title, body, channels, now);
}

/// Failing a delivery raises its attempt count by exactly one, sets the
/// failed state and the error, and touches no other record.
pub proof fn lemma_mark_failed_accounting(
    s: StoreModel,
    delivery_id: u128,
    error: String,
    now: i64,
    k: int,
)
    requires
        s.wf(),
        0 <= k < s.deliveries.len(),
        s.deliveries[k].id == delivery_id,
        s.deliveries[k].status != NotificationDeliveryStatus::Delivered,
        s.deliveries[k].attempt_count < u32::MAX,
    ensures
        ({
            let s2 = spec_mark_failed(s, delivery_id, error, now);
            &&& s2.deliveries[k].attempt_count == s.deliveries[k].attempt_count + 1
            &&& s2.deliveries[k].status == NotificationDeliveryStatus::Failed
            &&& s2.deliveries[k].last_error == Some(error)
            &&& s2.events == s.events
            &&& forall|i: int|
                0 <= i < s.deliveries.len() && i != k ==> #[trigger] s2.deliveries[i]
                    == s.deliveries[i]
        }),
{
    let s2 = spec_mark_failed(s, delivery_id, error, now);
    assert forall|i: int| 0 <= i < s.deliveries.len() && i != k implies #[trigger] s2.deliveries[i]
        == s.deliveries[i] by {
        if i < k {
            assert(s.deliveries[i].id != s.deliveries[k].id);
        } else {
            assert(s.deliveries[k].id != s.deliveries[i].id);
        }
    }
}

/// Every fetched delivery still has attempts to spare: once the count
/// reaches the cap, the delivery stops appearing in the batch.
pub proof fn lemma_listed_attempts_below_cap(s: StoreModel, limit: int, max_attempts: u32)
    requires
        s.wf(),
        s.deliveries.len() <= usize::MAX,
        0 <= limit,
    ensures
        forall|j: int|
            0 <= j < spec_list_pending(s, limit, max_attempts).len() ==> (
            #[trigger] spec_list_pending(s, limit, max_attempts)[j]).attempt_count < max_attempts,
{
    lemma_list_pending_sources(s, limit, max_attempts);
    assert forall|j: int| 0 <= j < spec_list_pending(s, limit, max_attempts).len() implies (
    #[trigger] spec_list_pending(s, limit, max_attempts)[j]).attempt_count < max_attempts by {
        let k = choose|k: int|
            0 <= k < s.deliveries.len() && retryable(#[trigger] s.deliveries[k], max_attempts)
                && spec_list_pending(s, limit, max_attempts)[j] == spec_join(
                s.deliveries[k],
                event_for(s.events, s.deliveries[k].event_id),
            );
        assert(s.deliveries[k].attempt_count < max_attempts);
    }
}

/// Delivering sets the delivered instant, clears the error, and touches
/// no other record.
pub proof fn lemma_mark_delivered_sets(s: StoreModel, delivery_id: u128, now: i64, k: int)
    requires
        s.wf(),
        0 <= k < s.deliveries.len(),
        s.deliveries[k].id == delivery_id,
    ensures
        ({
            let s2 = spec_mark_delivered(s, delivery_id, now);
            &&& s2.deliveries[k].status == NotificationDeliveryStatus::Delivered
            &&& s2.deliveries[k].delivered_at == Some(now)
            &&& s2.deliveries[k].last_error is None
            &&& s2.deliveries[k].attempt_count == s.deliveries[k].attempt_count
            &&& s2.events == s.events
            &&& forall|i: int|
                0 <= i < s.deliveries.len() && i != k ==> #[trigger] s2.deliveries[i]
                    == s.deliveries[i]
        }),
{
    let s2 = spec_mark_delivered(s, delivery_id, now);
    assert forall|i: int| 0 <= i < s.deliveries.len() && i != k implies #[trigger] s2.deliveries[i]
        == s.deliveries[i] by {
        if i < k {
            assert(s.deliveries[i].id != s.deliveries[k].id);
        } else {
            assert(s.deliveries[k].id != s.deliveries[i].id);
        }
    }
}

/// A delivered delivery never comes back from a fetch: marking it
/// delivered removes it from every later batch.
pub proof fn lemma_delivered_not_listed(
    s: StoreModel,
    delivery_id: u128,
    now: i64,
    limit: int,
    max_attempts: u32,
)
    requires
        s.wf(),
        s.deliveries.len() <= usize::MAX,
        0 <= limit,
    ensures
        forall|j: int|
            0 <= j < spec_list_pending(
                spec_mark_delivered(s, delivery_id, now),
                limit,
                max_attempts,
            ).len() ==> (#[trigger] spec_list_pending(
                spec_mark_delivered(s, delivery_id, now),
                limit,
                max_attempts,
            )[j]).delivery_id != delivery_id,
{
    let s2 = spec_mark_delivered(s, delivery_id, now);
    lemma_pointwise_update_preserves_wf(s, s2);
    lemma_list_pending_sources(s2, limit, max_attempts);
    assert forall|j: int| 0 <= j < spec_list_pending(s2, limit, max_attempts).len() implies (
    #[trigger] spec_list_pending(s2, limit, max_attempts)[j]).delivery_id != delivery_id by {
        let k = choose|k: int|
            0 <= k < s2.deliveries.len() && retryable(#[trigger] s2.deliveries[k], max_attempts)
                && spec_list_pending(s2, limit, max_attempts)[j] == spec_join(
                s2.deliveries[k],
                event_for(s2.events, s2.deliveries[k].event_id),
            );
        if s2.deliveries[k].id == delivery_id {
            assert(s2.deliveries[k] == (if s.deliveries[k].id == delivery_id {
                spec_delivered(s.deliveries[k], now)
            } else {
                s.deliveries[k]
            }));
            assert(s2.deliveries[k].status == NotificationDeliveryStatus::Delivered);
        }
    }
}

/// Whatever happened since, a delivery that stands delivered is not in
/// any fetched batch.
pub proof fn lemma_delivered_never_listed(s: StoreModel, k: int, limit: int, max_attempts: u32)
    requires
        s.wf(),
        s.deliveries.len() <= usize::MAX,
        0 <= limit,
        0 <= k < s.deliveries.len(),
        s.deliveries[k].status == NotificationDeliveryStatus::Delivered,
    ensures
        forall|j: int|
            0 <= j < spec_list_pending(s, limit, max_attempts).len() ==> (
            #[trigger] spec_list_pending(s, limit, max_attempts)[j]).delivery_id
                != s.deliveries[k].id,
{
    lemma_list_pending_sources(s, limit, max_attempts);
    assert forall|j: int| 0 <= j < spec_list_pending(s, limit, max_attempts).len() implies (
    #[trigger] spec_list_pending(s, limit, max_attempts)[j]).delivery_id != s.deliveries[k].id by {
        let w = choose|w: int|
            0 <= w < s.deliveries.len() && retryable(#[trigger] s.deliveries[w], max_attempts)
                && spec_list_pending(s, limit, max_attempts)[j] == spec_join(
                s.deliveries[w],
                event_for(s.events, s.deliveries[w].event_id),
            );
        if s.deliveries[w].id == s.deliveries[k].id {
            if w < k {
                assert(s.deliveries[w].id != s.deliveries[k].id);
            } else if k < w {
                assert(s.deliveries[k].id != s.deliveries[w].id);
            }
            assert(w == k);
            assert(!retryable(s.deliveries[w], max_attempts));
        }
    }
}

/// No operation leads out of the delivered state: the upsert leaves
/// stored deliveries untouched, a failure mark skips delivered records,
/// and a delivery mark keeps the state delivered.
pub proof fn lemma_delivered_terminal(
    s: StoreModel,
    k: int,
    chore_id: u128,
    due_at: i64,
    title: String,
    body: String,
    channels: Seq<NotificationChannel>,
    other_id: u128,
    error: String,
    now: i64,
)
    requires
        s.wf(),
        0 <= k < s.deliveries.len(),
        s.deliveries[k].status == NotificationDeliveryStatus::Delivered,
    ensures
        spec_upsert(s, chore_id, due_at, title, body, channels, now).0.deliveries[k]
            == s.deliveries[k],
        spec_mark_failed(s, other_id, error, now).deliveries[k] == s.deliveries[k],
        spec_mark_delivered(s, other_id, now).deliveries[k].status
            == NotificationDeliveryStatus::Delivered,
{
    lemma_upsert_properties(s, chore_id, due_at, title, body, channels, now);
    let s2 = spec_upsert(s, chore_id, due_at, title, body, channels, now).0;
    assert(s.deliveries.is_prefix_of(s2.deliveries));
    assert(s2.deliveries[k] == s.deliveries[k]);
}

/// The row a retryable delivery contributes to the fetch.
pub open spec fn spec_row_of(s: StoreModel, k: int) -> PendingRow {
    PendingRow {
        item: spec_join(s.deliveries[k], event_for(s.events, s.deliveries[k].event_id)),
        created_at: s.deliveries[k].created_at,
        idx: k as usize,
    }
}

/// Every collected row comes from a retryable delivery, and store order
/// is kept, so row positions rise with store positions.
pub proof fn lemma_rows_elements(s: StoreModel, max_attempts: u32, n: int)
    requires
        n <= s.deliveries.len(),
        n <= usize::MAX,
    ensures
        forall|x: PendingRow|
            spec_retryable_rows_upto(s, max_attempts, n).contains(x) ==> exists|k: int|
                0 <= k < n && retryable(#[trigger] s.deliveries[k], max_attempts) && x
                    == spec_row_of(s, k),
        forall|a: int, b: int|
            0 <= a < b < spec_retryable_rows_upto(s, max_attempts, n).len()
                ==> (#[trigger] spec_retryable_rows_upto(s, max_attempts, n)[a]).idx < (
            #[trigger] spec_retryable_rows_upto(s, max_attempts, n)[b]).idx,
        forall|a: int|
            0 <= a < spec_retryable_rows_upto(s, max_attempts, n).len()
                ==> (#[trigger] spec_retryable_rows_upto(s, max_attempts, n)[a]).idx < n,
    decreases n,
{
    if n <= 0 {
    } else {
        lemma_rows_elements(s, max_attempts, n - 1);
        let rest = spec_retryable_rows_upto(s, max_attempts, n - 1);
        let cur = spec_retryable_rows_upto(s, max_attempts, n);
        if retryable(s.deliveries[n - 1], max_attempts) {
            assert(cur == rest.push(spec_row_of(s, n - 1)));
            assert forall|x: PendingRow| cur.contains(x) implies exists|k: int|
                0 <= k < n && retryable(#[trigger] s.deliveries[k], max_attempts) && x
                    == spec_row_of(s, k) by {
                let w = choose|w: int| 0 <= w < cur.len() && cur[w] == x;
                if w < rest.len() {
                    assert(rest[w] == x);
                    assert(rest.contains(x));
                } else {
                    assert(x == spec_row_of(s, n - 1));
                    assert(retryable(s.deliveries[n - 1], max_attempts));
                }
            }
            assert(spec_row_of(s, n - 1).idx == n - 1);
            assert forall|a: int, b: int| 0 <= a < b < cur.len() implies (#[trigger] cur[a]).idx < (
            #[trigger] cur[b]).idx by {
                if b == cur.len() - 1 {
                    assert(cur[a] == rest[a]);
                    assert(rest[a].idx < n - 1);
                } else {
                    assert(cur[a] == rest[a] && cur[b] == rest[b]);
                }
            }
            assert forall|a: int| 0 <= a < cur.len() implies (#[trigger] cur[a]).idx < n by {
                if a < rest.len() {
                    assert(cur[a] == rest[a]);
                }
            }
        } else {
            assert(cur == rest);
        }
    }
}

/// The fetched batch: every item is a retryable delivery joined with its
/// event, and no delivery appears twice.
pub proof fn lemma_list_pending_sources(s: StoreModel, limit: int, max_attempts: u32)
    requires
        s.wf(),
        s.deliveries.len() <= usize::MAX,
        0 <= limit,
    ensures
        forall|j: int|
            0 <= j < spec_list_pending(s, limit, max_attempts).len() ==> exists|k: int|
                0 <= k < s.deliveries.len() && retryable(#[trigger] s.deliveries[k], max_attempts)
                    && #[trigger] spec_list_pending(s, limit, max_attempts)[j] == spec_join(
                    s.deliveries[k],
                    event_for(s.events, s.deliveries[k].event_id),
                ),
        forall|a: int, b: int|
            0 <= a < b < spec_list_pending(s, limit, max_attempts).len()
                ==> (#[trigger] spec_list_pending(s, limit, max_attempts)[a]).delivery_id != (
            #[trigger] spec_list_pending(s, limit, max_attempts)[b]).delivery_id,
{
    let rows = spec_retryable_rows(s, max_attempts);
    let sorted = sort_rows(rows);
    let cut = if limit < sorted.len() {
        sorted.take(limit)
    } else {
        sorted
    };
    let listed = spec_list_pending(s, limit, max_attempts);
    lemma_rows_elements(s, max_attempts, s.deliveries.len() as int);
    lemma_sort_rows_multiset(rows);
    broadcast use vstd::seq_lib::group_to_multiset_ensures;

    assert(rows.no_duplicates()) by {
        assert forall|a: int, b: int|
            0 <= a < rows.len() && 0 <= b < rows.len() && a != b implies rows[a] != rows[b] by {
            if a < b {
                assert(rows[a].idx < rows[b].idx);
            } else {
                assert(rows[b].idx < rows[a].idx);
            }
        }
    }
    rows.lemma_multiset_has_no_duplicates();
    assert(forall|x: PendingRow|
        sorted.to_multiset().contains(x) ==> sorted.to_multiset().count(x) == 1);
    sorted.lemma_multiset_has_no_duplicates_conv();
    assert forall|j: int| 0 <= j < listed.len() implies exists|k: int|
        0 <= k < s.deliveries.len() && retryable(#[trigger] s.deliveries[k], max_attempts)
            && #[trigger] listed[j] == spec_join(
            s.deliveries[k],
            event_for(s.events, s.deliveries[k].event_id),
        ) by {
        assert(listed[j] == cut[j].item);
        assert(cut[j] == sorted[j]);
        assert(sorted.contains(sorted[j]));
        lemma_sort_rows_contains(rows, sorted[j]);
        assert(rows.contains(sorted[j]));
        let k = choose|k: int|
            0 <= k < s.deliveries.len() && retryable(#[trigger] s.deliveries[k], max_attempts)
                && sorted[j] == spec_row_of(s, k);
        assert(listed[j] == spec_join(s.deliveries[k], event_for(s.events, s.deliveries[k].event_id)));
    }
    assert forall|a: int, b: int|
        0 <= a < b < listed.len() implies (#[trigger] listed[a]).delivery_id != (
    #[trigger] listed[b]).delivery_id by {
        assert(listed[a] == cut[a].item && listed[b] == cut[b].item);
        assert(cut[a] == sorted[a] && cut[b] == sorted[b]);
        assert(sorted[a] != sorted[b]);
        assert(sorted.contains(sorted[a]) && sorted.contains(sorted[b]));
        lemma_sort_rows_contains(rows, sorted[a]);
        lemma_sort_rows_contains(rows, sorted[b]);
        let ka = choose|k: int|
            0 <= k < s.deliveries.len() && retryable(#[trigger] s.deliveries[k], max_attempts)
                && sorted[a] == spec_row_of(s, k);
        let kb = choose|k: int|
            0 <= k < s.deliveries.len() && retryable(#[trigger] s.deliveries[k], max_attempts)
                && sorted[b] == spec_row_of(s, k);
        if listed[a].delivery_id == listed[b].delivery_id {
            assert(s.deliveries[ka].id == s.deliveries[kb].id);
            if ka != kb {
                if ka < kb {
                    assert(s.deliveries[ka].id != s.deliveries[kb].id);
                } else {
                    assert(s.deliveries[kb].id != s.deliveries[ka].id);
                }
            }
            assert(sorted[a] == sorted[b]);
            assert(false);
        }
    }
}

/// Unfolding `spec_seed_deliveries` at the back: seeding one more
/// channel is one more conditional insertion.
proof fn lemma_seed_deliveries_snoc(
    deliveries: Seq<NotificationDelivery>,
    next_id: u128,
    event_id: u128,
    channels: Seq<NotificationChannel>,
    c: int,
    now: i64,
)
    requires
        0 <= c < channels.len(),
    ensures
        spec_seed_deliveries(deliveries, next_id, event_id, channels.take(c + 1), now) == ({
            let (ds, nid) = spec_seed_deliveries(deliveries, next_id, event_id, channels.take(c), now);
            if delivery_exists(ds, event_id, channels[c]) {
                (ds, nid)
            } else {
                (ds.push(spec_new_delivery(nid, event_id, channels[c], now)), (nid + 1) as u128)
            }
        }),
    decreases c,
{
    reveal_with_fuel(spec_seed_deliveries, 3);
    if c == 0 {
        assert(channels.take(0) =~= Seq::<NotificationChannel>::empty());
        assert(channels.take(1)[0] == channels[0]);
        assert(channels.take(1).drop_first() =~= Seq::<NotificationChannel>::empty());
        assert(spec_seed_deliveries(deliveries, next_id, event_id, channels.take(0), now) == (
        deliveries,
        next_id,
        ));
    } else {
        let t1 = channels.take(c + 1);
        let t0 = channels.take(c);
        assert(t1[0] == channels[0]);
        assert(t0[0] == channels[0]);
        let (ds, nid) = if delivery_exists(deliveries, event_id, channels[0]) {
            (deliveries, next_id)
        } else {
            (
                deliveries.push(spec_new_delivery(next_id, event_id, channels[0], now)),
                (next_id + 1) as u128,
            )
        };
        assert(spec_seed_deliveries(deliveries, next_id, event_id, t1, now)
            == spec_seed_deliveries(ds, nid, event_id, t1.drop_first(), now));
        assert(spec_seed_deliveries(deliveries, next_id, event_id, t0, now)
            == spec_seed_deliveries(ds, nid, event_id, t0.drop_first(), now));
        assert(t1.drop_first() =~= channels.drop_first().take(c));
        assert(t0.drop_first() =~= channels.drop_first().take(c - 1));
        lemma_seed_deliveries_snoc(ds, nid, event_id, channels.drop_first(), c - 1, now);
        assert(channels.drop_first()[c - 1] == channels[c]);
    }
}

} // verus!
