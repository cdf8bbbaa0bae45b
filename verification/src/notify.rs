//! The notification engine: event generation and delivery dispatch.
//!
//! One generator tick turns every overdue chore into a deduplicated due
//! event with one pending delivery per configured channel; running a
//! tick twice, or from two processes, adds nothing the second time. One
//! dispatcher tick fetches a batch of retryable deliveries, routes each
//! to the sender registered for its channel, and records the outcome;
//! a channel nobody serves is failed with a descriptive error and so
//! consumes its attempt budget like any other failure.

use vstd::prelude::*;
use vstd::string::StringExecFns;

use crate::due::spec_due_chores;
use crate::models::ChoreWithLastCompletion;
use crate::models::NotificationChannel;
use crate::models::NotificationDelivery;
use crate::models::NotificationDeliveryStatus;
use crate::models::NotificationEvent;
use crate::models::PendingNotification;
use crate::schedule::ChoreService;
use crate::schedule::ChoreWithDueInfo;
use crate::store::NotificationRepository;
use crate::store::StoreModel;
use crate::store::delivery_exists;
use crate::store::event_exists;
use crate::store::event_id_for;
use crate::store::lemma_upsert_properties;
use crate::store::spec_delivered;
use crate::store::spec_failed;
use crate::store::spec_list_pending;
use crate::store::spec_mark_delivered;
use crate::store::spec_mark_failed;
use crate::store::spec_upsert;

verus! {

/// Timing and budget knobs of the two background loops.
#[derive(Debug, Clone, Copy)]
pub struct NotificationRuntimeConfig {
    /// Seconds between generator ticks.
    pub poll_interval_seconds: u64,
    /// Seconds between dispatcher ticks.
    pub dispatch_interval_seconds: u64,
    /// A delivery is retried until it has failed this many times.
    pub max_attempts: u32,
    /// Most deliveries fetched per dispatcher tick.
    pub batch_size: usize,
}

impl Default for NotificationRuntimeConfig {
    /// Poll every minute, dispatch every fifteen seconds, five attempts,
    /// batches of fifty.
    fn default() -> (c: Self)
        ensures
            c.poll_interval_seconds == 60,
            c.dispatch_interval_seconds == 15,
            c.max_attempts == 5,
            c.batch_size == 50,
    {
        NotificationRuntimeConfig {
            poll_interval_seconds: 60,
            dispatch_interval_seconds: 15,
            max_attempts: 5,
            batch_size: 50,
        }
    }
}

/// One delivery transport, implemented once per channel and registered
/// with the dispatcher. Senders live outside this crate; nothing is
/// assumed about `send` beyond its signature, and the dispatcher treats
/// any error alike.
pub trait NotificationChannelSender {
    /// The channel this sender serves, as contracts see it.
    spec fn spec_channel(&self) -> NotificationChannel;

    /// The channel this sender serves.
    fn channel(&self) -> (c: NotificationChannel)
        ensures
            c == self.spec_channel(),
    ;

    /// Attempt one delivery; any error text may come back.
    fn send(&self, notification: &PendingNotification) -> Result<(), String>;
}

/// Some registered sender serves this channel.
pub open spec fn has_sender<S: NotificationChannelSender>(
    senders: Seq<S>,
    c: NotificationChannel,
) -> bool {
    exists|i: int| 0 <= i < senders.len() && (#[trigger] senders[i]).spec_channel() == c
}

/// The error recorded when no sender serves a delivery's channel.
pub open spec fn no_sender_text(c: NotificationChannel) -> Seq<char> {
    match c {
        NotificationChannel::Telegram => "No sender configured for channel: Telegram"@,
    }
}

/// Build the error text for an unroutable channel.
pub fn no_sender_error(c: NotificationChannel) -> (r: String)
    ensures
        r@ == no_sender_text(c),
{
    match c {
        NotificationChannel::Telegram => String::from_str(
            "No sender configured for channel: Telegram",
        ),
    }
}

/// A delivery after the dispatcher handled it at instant `now`: either
/// the send succeeded, or it failed with some error text.
pub open spec fn delivery_outcome(
    a: NotificationDelivery,
    b: NotificationDelivery,
    now: i64,
) -> bool {
    b == spec_delivered(a, now) || exists|e: String| b == #[trigger] spec_failed(a, e, now)
}

/// What the dispatcher did to the delivery a batch item names: with no
/// sender for its channel, it was failed with the no-sender error;
/// otherwise it was delivered or failed, as the send went.
pub open spec fn marked_as_processed<S: NotificationChannelSender>(
    s0: StoreModel,
    s1: StoreModel,
    p: PendingNotification,
    senders: Seq<S>,
    now: i64,
) -> bool {
    forall|k: int|
        0 <= k < s0.deliveries.len() && (#[trigger] s0.deliveries[k]).id == p.delivery_id ==> (
        if !has_sender(senders, p.channel) {
            exists|e: String|
                e@ == no_sender_text(p.channel) && s1.deliveries[k] == #[trigger] spec_failed(
                    s0.deliveries[k],
                    e,
                    now,
                )
        } else {
            delivery_outcome(s0.deliveries[k], s1.deliveries[k], now)
        })
}

/// Some batch item names this delivery.
pub open spec fn batch_has_id(batch: Seq<PendingNotification>, id: u128) -> bool {
    exists|j: int| 0 <= j < batch.len() && (#[trigger] batch[j]).delivery_id == id
}

/// The title of a due event: the chore's name under a fixed prefix.
pub fn format_event_title(name: &str) -> (r: String)
    ensures
        r@ == "Chore due: "@ + name@,
{
    let mut s = String::from_str("Chore due: ");
    s.append(name);
    s
}

/// The body of a due event: the chore's name and the due instant,
/// rendered to the minute in UTC.
pub fn format_event_body(name: &str, due_at: i64) -> (r: String)
    ensures
        r@ == name@ + " is due at "@ + minute_text(due_at as int) + " UTC."@,
{
    let mut s = String::from_str(name);
    s.append(" is due at ");
    let stamp = format_minute(due_at);
    s.append(stamp.as_str());
    s.append(" UTC.");
    proof {
        assert(s@ =~= name@ + " is due at "@ + minute_text(due_at as int) + " UTC."@);
    }
    s
}

/// The instant `t` rendered as `YYYY-MM-DD hh:mm` in UTC. Writing the
/// Gregorian calendar out here would restate chrono, so the text only
/// gets a name: it is a function of the instant alone.
pub uninterp spec fn minute_text(t: int) -> Seq<char>;

/// Relies on chrono's `DateTime::<Utc>::from_timestamp` and `format`
/// with the fixed pattern `%Y-%m-%d %H:%M`: for one instant the
/// rendered text is always the same.
#[verifier::external_body]
fn format_minute(t: i64) -> (r: String)
    ensures
        r@ == minute_text(t as int),
{
    match chrono::DateTime::<chrono::Utc>::from_timestamp(t, 0) {
        Some(dt) => dt.format("%Y-%m-%d %H:%M").to_string(),
        None => String::new(),
    }
}

/// An event record the generator may append: it carries the key of one
/// entry of the due list, and the texts formatted from that chore.
pub open spec fn generated_event(
    e: NotificationEvent,
    due_list: Seq<ChoreWithDueInfo>,
    now: i64,
) -> bool {
    &&& e.created_at == now
    &&& exists|jj: int|
        0 <= jj < due_list.len() && (#[trigger] due_list[jj]).next_due == Some(e.due_at)
            && due_list[jj].chore.id == e.chore_id && e.title@ == "Chore due: "@
            + due_list[jj].chore.name@ && e.body@ == due_list[jj].chore.name@ + " is due at "@
            + minute_text(e.due_at as int) + " UTC."@
}

/// One generator tick: collect the overdue chores and upsert one due
/// event with its per-channel deliveries for each. Existing records are
/// kept word for word, so a repeated tick adds nothing; everything that
/// is added names an overdue chore and starts out pending.
pub fn generate_due_events_once(
    store: &mut NotificationRepository,
    chores: &Vec<ChoreWithLastCompletion>,
    channels: &Vec<NotificationChannel>,
    now: i64,
)
    requires
        old(store)@.wf(),
        forall|i: int| 0 <= i < chores@.len() ==> (#[trigger] chores@[i]).wf(),
    ensures
        final(store)@.wf(),
        old(store)@.events.is_prefix_of(final(store)@.events),
        old(store)@.deliveries.is_prefix_of(final(store)@.deliveries),
        forall|j: int|
            0 <= j < spec_due_chores(chores@, now, false).len() ==> match (
            #[trigger] spec_due_chores(chores@, now, false)[j]).next_due {
                Some(d) => event_exists(
                    final(store)@.events,
                    spec_due_chores(chores@, now, false)[j].chore.id,
                    d,
                ) && forall|ci: int|
                    0 <= ci < channels@.len() ==> delivery_exists(
                        final(store)@.deliveries,
                        event_id_for(
                            final(store)@.events,
                            spec_due_chores(chores@, now, false)[j].chore.id,
                            d,
                        ),
                        #[trigger] channels@[ci],
                    ),
                None => true,
            },
        forall|k: int|
            old(store)@.events.len() <= k < final(store)@.events.len() ==> generated_event(
                #[trigger] final(store)@.events[k],
                spec_due_chores(chores@, now, false),
                now,
            ),
        forall|k: int|
            old(store)@.deliveries.len() <= k < final(store)@.deliveries.len() ==> (
            #[trigger] final(store)@.deliveries[k]).status == NotificationDeliveryStatus::Pending
                && final(store)@.deliveries[k].attempt_count == 0
                && final(store)@.deliveries[k].created_at == now,
{
    let ghost s0 = store@;
    let due = ChoreService::get_due_chores(chores, now, false);
    let ghost due_list = spec_due_chores(chores@, now, false);
    let mut j: usize = 0;
    while j < due.len()
        invariant
            j <= due@.len(),
            due@ == due_list,
            store@.wf(),
            s0.events.is_prefix_of(store@.events),
            s0.deliveries.is_prefix_of(store@.deliveries),
            forall|jj: int|
                0 <= jj < j ==> match (#[trigger] due_list[jj]).next_due {
                    Some(d) => event_exists(store@.events, due_list[jj].chore.id, d) && forall|
                        ci: int,
                    |
                        0 <= ci < channels@.len() ==> delivery_exists(
                            store@.deliveries,
                            event_id_for(store@.events, due_list[jj].chore.id, d),
                            #[trigger] channels@[ci],
                        ),
                    None => true,
                },
            forall|k: int|
                s0.events.len() <= k < store@.events.len() ==> generated_event(
                    #[trigger] store@.events[k],
                    due_list,
                    now,
                ),
            forall|k: int|
                s0.deliveries.len() <= k < store@.deliveries.len() ==> (
                #[trigger] store@.deliveries[k]).status == NotificationDeliveryStatus::Pending
                    && store@.deliveries[k].attempt_count == 0 && store@.deliveries[k].created_at
                    == now,
        decreases due@.len() - j,
    {
        let item = &due[j];
        match item.next_due {
            Some(d) => {
                let ghost pre = store@;
                let title = format_event_title(item.chore.name.as_str());
                let body = format_event_body(item.chore.name.as_str(), d);
                let chore_id = item.chore.id;
                proof {
                    lemma_upsert_properties(pre, chore_id, d, title, body, channels@, now);
                }
                store.upsert_due_event_with_deliveries(chore_id, d, title, body, channels, now);
                proof {
                    lemma_prefix_transitive(s0.events, pre.events, store@.events);
                    lemma_prefix_transitive(s0.deliveries, pre.deliveries, store@.deliveries);
                    assert forall|k: int|
                        s0.events.len() <= k < store@.events.len() implies generated_event(
                        #[trigger] store@.events[k],
                        due_list,
                        now,
                    ) by {
                        if k < pre.events.len() {
                            assert(store@.events[k] == pre.events[k]);
                        } else {
                            assert(store@.events[k] == crate::store::spec_new_event(
                                pre.next_id,
                                chore_id,
                                d,
                                title,
                                body,
                                now,
                            ));
                            assert(due_list[j as int].next_due == Some(d));
                        }
                    }
                    assert forall|k: int|
                        s0.deliveries.len() <= k < store@.deliveries.len() implies (
                    #[trigger] store@.deliveries[k]).status == NotificationDeliveryStatus::Pending
                        && store@.deliveries[k].attempt_count == 0
                        && store@.deliveries[k].created_at == now by {
                        if k < pre.deliveries.len() {
                            assert(store@.deliveries[k] == pre.deliveries[k]);
                        }
                    }
                }
            },
            None => {},
        }
        j += 1;
    }
}

/// A prefix of a prefix is a prefix.
proof fn lemma_prefix_transitive<T>(a: Seq<T>, b: Seq<T>, c: Seq<T>)
    requires
        a.is_prefix_of(b),
        b.is_prefix_of(c),
    ensures
        a.is_prefix_of(c),
{
    assert(a =~= c.take(a.len() as int)) by {
        assert(a =~= b.take(a.len() as int));
        assert(b =~= c.take(b.len() as int));
    }
}

/// One dispatcher tick: fetch up to `batch_size` retryable deliveries
/// and resolve each one. Per batch item: no registered sender for its
/// channel fails it with the no-sender error; otherwise the sender runs
/// and the delivery is marked delivered or failed as the send went.
/// Deliveries outside the batch are untouched.
pub fn dispatch_pending_once<S: NotificationChannelSender>(
    store: &mut NotificationRepository,
    senders: &Vec<S>,
    batch_size: usize,
    max_attempts: u32,
    now: i64,
)
    requires
        old(store)@.wf(),
    ensures
        final(store)@.wf(),
        final(store)@.events == old(store)@.events,
        final(store)@.next_id == old(store)@.next_id,
        final(store)@.deliveries.len() == old(store)@.deliveries.len(),
        forall|k: int|
            0 <= k < old(store)@.deliveries.len() ==> (#[trigger] final(store)@.deliveries[k]
                == old(store)@.deliveries[k] || delivery_outcome(
                old(store)@.deliveries[k],
                final(store)@.deliveries[k],
                now,
            )),
        forall|k: int|
            0 <= k < old(store)@.deliveries.len() && !batch_has_id(
                spec_list_pending(old(store)@, batch_size as int, max_attempts),
                (#[trigger] old(store)@.deliveries[k]).id,
            ) ==> final(store)@.deliveries[k] == old(store)@.deliveries[k],
        forall|j: int|
            0 <= j < spec_list_pending(old(store)@, batch_size as int, max_attempts).len()
                ==> marked_as_processed(
                old(store)@,
                final(store)@,
                #[trigger] spec_list_pending(old(store)@, batch_size as int, max_attempts)[j],
                senders@,
                now,
            ),
{
    let ghost s0 = store@;
    let n_deliveries = store.deliveries().len();
    let pending = store.list_pending(batch_size, max_attempts);
    let ghost batch = pending@;
    proof {
        assert(s0.deliveries.len() == n_deliveries);
        crate::store::lemma_list_pending_sources(s0, batch_size as int, max_attempts);
    }
    let mut j: usize = 0;
    while j < pending.len()
        invariant
            j <= pending@.len(),
            pending@ == batch,
            batch == spec_list_pending(s0, batch_size as int, max_attempts),
            store@.wf(),
            store@.events == s0.events,
            store@.next_id == s0.next_id,
            store@.deliveries.len() == s0.deliveries.len(),
            forall|a: int, b: int|
                0 <= a < b < batch.len() ==> (#[trigger] batch[a]).delivery_id != (
                #[trigger] batch[b]).delivery_id,
            forall|k: int|
                0 <= k < s0.deliveries.len() ==> (#[trigger] store@.deliveries[k]).id
                    == s0.deliveries[k].id,
            forall|k: int|
                0 <= k < s0.deliveries.len() ==> (#[trigger] store@.deliveries[k]
                    == s0.deliveries[k] || delivery_outcome(
                    s0.deliveries[k],
                    store@.deliveries[k],
                    now,
                )),
            forall|k: int|
                0 <= k < s0.deliveries.len() && !batch_has_id(
                    batch.take(j as int),
                    (#[trigger] s0.deliveries[k]).id,
                ) ==> store@.deliveries[k] == s0.deliveries[k],
            forall|jj: int|
                0 <= jj < j ==> marked_as_processed(
                    s0,
                    store@,
                    #[trigger] batch[jj],
                    senders@,
                    now,
                ),
        decreases pending@.len() - j,
    {
        let ghost pre = store@;
        let delivery_id = pending[j].delivery_id;
        let channel = pending[j].channel;
        let mut sender_idx: Option<usize> = None;
        let mut si: usize = 0;
        while si < senders.len()
            invariant
                si <= senders@.len(),
                match sender_idx {
                    Some(w) => w < senders@.len() && senders@[w as int].spec_channel() == channel,
                    None => forall|i: int|
                        0 <= i < si ==> (#[trigger] senders@[i]).spec_channel() != channel,
                },
            decreases senders@.len() - si,
        {
            if sender_idx.is_none() {
                if senders[si].channel() == channel {
                    sender_idx = Some(si);
                }
            }
            si += 1;
        }
        match sender_idx {
            None => {
                proof {
                    assert(!has_sender(senders@, channel));
                }
                let err = no_sender_error(channel);
                store.mark_failed(delivery_id, err, now);
                proof {
                    assert forall|k: int|
                        0 <= k < s0.deliveries.len() && (#[trigger] s0.deliveries[k]).id
                            == delivery_id implies exists|e: String|
                        e@ == no_sender_text(channel) && store@.deliveries[k]
                            == #[trigger] spec_failed(s0.deliveries[k], e, now) by {
                        assert(!batch_has_id(batch.take(j as int), s0.deliveries[k].id));
                        assert(pre.deliveries[k] == s0.deliveries[k]);
                        assert(store@.deliveries[k] == spec_failed(s0.deliveries[k], err, now));
                    }
                }
            },
            Some(w) => {
                proof {
                    assert(has_sender(senders@, channel));
                }
                match senders[w].send(&pending[j]) {
                    Ok(_) => {
                        store.mark_delivered(delivery_id, now);
                        proof {
                            assert forall|k: int|
                                0 <= k < s0.deliveries.len() && (#[trigger] s0.deliveries[k]).id
                                    == delivery_id implies delivery_outcome(
                                s0.deliveries[k],
                                store@.deliveries[k],
                                now,
                            ) by {
                                assert(!batch_has_id(batch.take(j as int), s0.deliveries[k].id));
                                assert(pre.deliveries[k] == s0.deliveries[k]);
                                assert(store@.deliveries[k] == spec_delivered(
                                    s0.deliveries[k],
                                    now,
                                ));
                            }
                        }
                    },
                    Err(e) => {
                        store.mark_failed(delivery_id, e, now);
                        proof {
                            assert forall|k: int|
                                0 <= k < s0.deliveries.len() && (#[trigger] s0.deliveries[k]).id
                                    == delivery_id implies delivery_outcome(
                                s0.deliveries[k],
                                store@.deliveries[k],
                                now,
                            ) by {
                                assert(!batch_has_id(batch.take(j as int), s0.deliveries[k].id));
                                assert(pre.deliveries[k] == s0.deliveries[k]);
                            }
                        }
                    },
                }
            },
        }
        proof {
            assert(batch.take(j + 1 as int).drop_last() =~= batch.take(j as int));
            assert forall|k: int|
                0 <= k < s0.deliveries.len() && !batch_has_id(
                    batch.take(j + 1 as int),
                    (#[trigger] s0.deliveries[k]).id,
                ) implies store@.deliveries[k] == s0.deliveries[k] by {
                assert(!batch_has_id(batch.take(j as int), s0.deliveries[k].id)) by {
                    if batch_has_id(batch.take(j as int), s0.deliveries[k].id) {
                        let w = choose|w: int|
                            0 <= w < batch.take(j as int).len() && (#[trigger] batch.take(
                                j as int,
                            )[w]).delivery_id == s0.deliveries[k].id;
                        assert(batch.take(j + 1 as int)[w].delivery_id == s0.deliveries[k].id);
                    }
                }
                assert(s0.deliveries[k].id != delivery_id) by {
                    assert(batch.take(j + 1 as int)[j as int].delivery_id == batch[j as int].delivery_id);
                }
                assert(pre.deliveries[k] == s0.deliveries[k]);
            }
            assert forall|jj: int| 0 <= jj < j + 1 implies marked_as_processed(
                s0,
                store@,
                #[trigger] batch[jj],
                senders@,
                now,
            ) by {
                if jj < j {
                    assert(marked_as_processed(s0, pre, batch[jj], senders@, now));
                    assert forall|k: int|
                        0 <= k < s0.deliveries.len() && (#[trigger] s0.deliveries[k]).id
                            == batch[jj].delivery_id implies store@.deliveries[k]
                        == pre.deliveries[k] by {
                        assert(batch[jj].delivery_id != batch[j as int].delivery_id);
                        assert(pre.deliveries[k].id == s0.deliveries[k].id);
                    }
                }
            }
        }
        j += 1;
    }
    proof {
        assert(batch.take(batch.len() as int) =~= batch);
    }
}

} // verus!
