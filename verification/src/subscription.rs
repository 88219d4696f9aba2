//! A subscription to events: it reads what has happened, waits for more, and reads again.
use crate::events::{
    cursor_after,
    deliver_batch,
    deliver_notified,
    emitted,
    event_id_of,
    event_views,
    in_order_beyond,
    is_stale,
};
use crate::model::{EventRecord, EventView};
use crate::rpc::{FilterView, SubscribeFilter};
use crate::text::opt_nat_u64;
use vstd::prelude::*;

verus! {

/// How many events are read at a time.
pub const BATCH_LIMIT: u32 = 256;

/// How many are read after notifications were lost.
pub const CATCH_UP_LIMIT: u32 = 1024;

/// What a subscription does next.
#[derive(Debug, Clone, Copy, PartialEq, Eq, Structural)]
pub enum SubscriptionStep {
    /// Read the events behind the cursor, at most so many.
    List { limit: u32 },
    /// Wait to be notified.
    Wait,
    End,
}

/// What a subscriber that waits is told.
#[derive(Debug, Clone)]
pub enum Notification {
    Event(EventRecord),
    /// Notifications came too fast, and some were lost.
    Lagged,
    /// There will be no more.
    Closed,
}

/// A subscription, behind the event `cursor`.
#[derive(Debug, Clone)]
pub struct Subscription {
    pub cursor: Option<u64>,
    pub filter: SubscribeFilter,
    pub step: SubscriptionStep,
}

#[verifier::ext_equal]
pub struct SubscriptionView {
    pub cursor: Option<nat>,
    pub filter: FilterView,
    pub step: SubscriptionStep,
}

impl View for Subscription {
    type V = SubscriptionView;

    open spec fn view(&self) -> SubscriptionView {
        SubscriptionView {
            cursor: opt_nat_u64(self.cursor),
            filter: self.filter@,
            step: self.step,
        }
    }
}

impl SubscriptionView {
    /// The subscription once a list of events was read. An ordinary list that is empty says that
    /// there is nothing to do but wait.
    pub open spec fn listed(self, events: Seq<EventView>) -> SubscriptionView {
        SubscriptionView {
            cursor: cursor_after(self.cursor, events),
            step: if events.len() == 0 && self.step == (SubscriptionStep::List {
                limit: BATCH_LIMIT,
            }) {
                SubscriptionStep::Wait
            } else {
                SubscriptionStep::List { limit: BATCH_LIMIT }
            },
            ..self
        }
    }

    /// The subscription once it was notified of an event: it reads again.
    pub open spec fn notified(self, event: EventView) -> SubscriptionView {
        SubscriptionView {
            cursor: if is_stale(self.cursor, event) {
                self.cursor
            } else {
                event_id_of(event)
            },
            step: SubscriptionStep::List { limit: BATCH_LIMIT },
            ..self
        }
    }

    /// What is sent on to the subscriber for a notification.
    pub open spec fn sent_for(self, event: EventView) -> Seq<EventView> {
        if !is_stale(self.cursor, event) && self.filter.admits(event) {
            seq![event]
        } else {
            Seq::empty()
        }
    }
}

impl Subscription {
    /// A subscription that begins behind the event `cursor`.
    pub fn new(cursor: u64, filter: SubscribeFilter) -> (r: Subscription)
        ensures
            r@ == (SubscriptionView {
                cursor: Some(cursor as nat),
                filter: filter@,
                step: SubscriptionStep::List { limit: BATCH_LIMIT },
            }),
    {
        Subscription {
            cursor: Some(cursor),
            filter,
            step: SubscriptionStep::List { limit: BATCH_LIMIT },
        }
    }

    /// Takes in the events that were asked for, and gives those to be sent on.
    pub fn take_listed(&mut self, events: Vec<EventRecord>) -> (r: Vec<EventRecord>)
        requires
            old(self)@.step is List,
        ensures
            final(self)@ == old(self)@.listed(event_views(events@)),
            event_views(r@) == emitted(event_views(events@), old(self)@.filter),
    {
        let waits = events.len() == 0 && match self.step {
            SubscriptionStep::List { limit } => limit == BATCH_LIMIT,
            _ => false,
        };
        proof {
            assert(event_views(events@).len() == events@.len());
        }
        let (cursor, sent) = deliver_batch(self.cursor, events, &self.filter);
        self.cursor = cursor;
        self.step = if waits {
            SubscriptionStep::Wait
        } else {
            SubscriptionStep::List { limit: BATCH_LIMIT }
        };
        sent
    }

    /// Takes in a notification, and gives the event to be sent on, if there is one.
    pub fn take_notification(&mut self, notification: Notification) -> (r: Option<EventRecord>)
        requires
            old(self)@.step is Wait,
        ensures
            match notification {
                Notification::Event(e) => {
                    &&& final(self)@ == old(self)@.notified(e@)
                    &&& old(self)@.sent_for(e@) == match r {
                        Some(x) => seq![x@],
                        None => Seq::empty(),
                    }
                },
                Notification::Lagged => {
                    &&& r is None
                    &&& final(self)@ == (SubscriptionView {
                        step: SubscriptionStep::List { limit: CATCH_UP_LIMIT },
                        ..old(self)@
                    })
                },
                Notification::Closed => {
                    &&& r is None
                    &&& final(self)@ == (SubscriptionView {
                        step: SubscriptionStep::End,
                        ..old(self)@
                    })
                },
            },
    {
        match notification {
            Notification::Event(e) => {
                let (cursor, sent) = deliver_notified(self.cursor, e, &self.filter);
                self.cursor = cursor;
                self.step = SubscriptionStep::List { limit: BATCH_LIMIT };
                sent
            },
            Notification::Lagged => {
                self.step = SubscriptionStep::List { limit: CATCH_UP_LIMIT };
                None
            },
            Notification::Closed => {
                self.step = SubscriptionStep::End;
                None
            },
        }
    }
}

// ---------------------------------------------------------------------------
// Laws
// ---------------------------------------------------------------------------

/// How many events of the log are at or before the cursor.
pub open spec fn passed(log: Seq<EventView>, cursor: nat) -> int
    decreases log.len(),
{
    if log.len() == 0 {
        0
    } else if event_id_of(log.last())->0 <= cursor {
        log.len() as int
    } else {
        passed(log.drop_last(), cursor)
    }
}

/// The events behind the cursor, at most `limit` of them.
pub open spec fn log_page(log: Seq<EventView>, cursor: nat, limit: int) -> Seq<EventView> {
    let k = passed(log, cursor);
    if k + limit <= log.len() {
        log.subrange(k, k + limit)
    } else {
        log.subrange(k, log.len() as int)
    }
}

proof fn lemma_shorter_log(log: Seq<EventView>)
    requires
        in_order_beyond(log, 0),
        log.len() > 0,
    ensures
        in_order_beyond(log.drop_last(), 0),
{
    let init = log.drop_last();
    assert forall|i: int| 0 <= i < init.len() implies event_id_of(#[trigger] init[i]) is Some
        && event_id_of(init[i])->0 > 0 by {
        assert(init[i] == log[i]);
    }
    assert forall|i: int, j: int| 0 <= i < j < init.len() implies event_id_of(
        #[trigger] init[i],
    )->0 < event_id_of(#[trigger] init[j])->0 by {
        assert(init[i] == log[i] && init[j] == log[j]);
    }
}

proof fn lemma_passed(log: Seq<EventView>, cursor: nat)
    requires
        in_order_beyond(log, 0),
    ensures
        0 <= passed(log, cursor) <= log.len(),
        forall|i: int|
            0 <= i < passed(log, cursor) ==> event_id_of(#[trigger] log[i])->0 <= cursor,
        forall|i: int|
            passed(log, cursor) <= i < log.len() ==> event_id_of(#[trigger] log[i])->0 > cursor,
    decreases log.len(),
{
    if log.len() > 0 {
        let init = log.drop_last();
        lemma_shorter_log(log);
        lemma_passed(init, cursor);
        assert(log.last() == log[log.len() - 1]);
        if event_id_of(log.last())->0 > cursor {
            assert forall|i: int| 0 <= i < passed(log, cursor) implies event_id_of(
                #[trigger] log[i],
            )->0 <= cursor by {
                assert(init[i] == log[i]);
            }
            assert forall|i: int| passed(log, cursor) <= i < log.len() implies event_id_of(
                #[trigger] log[i],
            )->0 > cursor by {
                if i < init.len() {
                    assert(init[i] == log[i]);
                }
            }
        }
    }
}

/// At the event at `i`, all up to it are passed.
proof fn lemma_passed_at(log: Seq<EventView>, i: int)
    requires
        in_order_beyond(log, 0),
        0 <= i < log.len(),
    ensures
        passed(log, event_id_of(log[i])->0) == i + 1,
{
    let c = event_id_of(log[i])->0;
    lemma_passed(log, c);
    let k = passed(log, c);
    if k <= i {
        assert(event_id_of(log[i])->0 > c);
    }
    if k > i + 1 {
        assert(event_id_of(log[i + 1])->0 <= c);
        assert(event_id_of(log[i])->0 < event_id_of(log[i + 1])->0);
    }
}

/// What a subscriber that began behind `start` has been sent once it is at `cursor`.
pub open spec fn sent_so_far(
    log: Seq<EventView>,
    filter: FilterView,
    start: nat,
    cursor: nat,
) -> Seq<EventView> {
    emitted(log.subrange(passed(log, start), passed(log, cursor)), filter)
}

/// Nothing is missed and nothing is sent twice where events are read from the log: what has been
/// sent remains exactly the events between the start and the cursor that the filter admits.
pub proof fn lemma_reading_misses_nothing(
    log: Seq<EventView>,
    filter: FilterView,
    start: nat,
    cursor: nat,
    limit: int,
)
    requires
        in_order_beyond(log, 0),
        start <= cursor,
        limit > 0,
    ensures
        ({
            let page = log_page(log, cursor, limit);
            let next = cursor_after(Some(cursor), page);
            &&& next is Some
            &&& next->0 >= cursor
            &&& sent_so_far(log, filter, start, next->0) == sent_so_far(log, filter, start, cursor)
                + emitted(page, filter)
            &&& page.len() == 0 ==> passed(log, cursor) == log.len()
        }),
{
    lemma_passed(log, start);
    lemma_passed(log, cursor);
    let s = passed(log, start);
    let k = passed(log, cursor);
    if s > k {
        assert(event_id_of(log[k])->0 > cursor);
        assert(event_id_of(log[k])->0 <= start);
    }
    let page = log_page(log, cursor, limit);
    let keep = |e: EventView| filter.admits(e);
    if page.len() > 0 {
        let m = k + page.len();
        assert(page.last() == log[m - 1]);
        lemma_passed_at(log, m - 1);
        assert(event_id_of(log[m - 1])->0 > cursor);
        assert(log.subrange(s, m) =~= log.subrange(s, k) + page);
        Seq::filter_distributes_over_add(log.subrange(s, k), page, keep);
    } else {
        reveal(Seq::filter);
        assert(page.filter(keep) =~= Seq::empty());
        assert(sent_so_far(log, filter, start, cursor) + emitted(page, filter) =~= sent_so_far(
            log,
            filter,
            start,
            cursor,
        ));
    }
}

/// Nor where a notification brings the next event of the log.
pub proof fn lemma_notification_misses_nothing(
    log: Seq<EventView>,
    s: SubscriptionView,
    start: nat,
    event: EventView,
)
    requires
        in_order_beyond(log, 0),
        s.cursor is Some,
        start <= s.cursor->0,
        passed(log, s.cursor->0) < log.len(),
        event == log[passed(log, s.cursor->0)],
    ensures
        s.notified(event).cursor is Some,
        sent_so_far(log, s.filter, start, s.notified(event).cursor->0) == sent_so_far(
            log,
            s.filter,
            start,
            s.cursor->0,
        ) + s.sent_for(event),
{
    let cursor = s.cursor->0;
    lemma_passed(log, start);
    lemma_passed(log, cursor);
    let a = passed(log, start);
    let k = passed(log, cursor);
    if a > k {
        assert(event_id_of(log[k])->0 > cursor);
        assert(event_id_of(log[k])->0 <= start);
    }
    lemma_passed_at(log, k);
    assert(event_id_of(log[k])->0 > cursor);
    let keep = |e: EventView| s.filter.admits(e);
    let one = seq![event];
    assert(log.subrange(a, k + 1) =~= log.subrange(a, k) + one);
    Seq::filter_distributes_over_add(log.subrange(a, k), one, keep);
    reveal(Seq::filter);
    assert(one.drop_last() =~= Seq::empty());
    assert(Seq::<EventView>::empty().filter(keep) =~= Seq::empty());
    assert(one.filter(keep) =~= s.sent_for(event));
}

/// Nor where a notification brings an event that was read already: it changes nothing.
pub proof fn lemma_stale_notification_is_ignored(s: SubscriptionView, event: EventView)
    requires
        is_stale(s.cursor, event),
    ensures
        s.notified(event).cursor == s.cursor,
        s.sent_for(event) == Seq::<EventView>::empty(),
{
}

/// A subscription reads on as long as there is something to read, waits only when there is nothing
/// left, and reads anew whenever it is told of something. It never loses its filter.
pub proof fn lemma_subscription_goes_on(
    s: SubscriptionView,
    events: Seq<EventView>,
    event: EventView,
)
    ensures
        s.listed(events).step is Wait <==> events.len() == 0 && s.step == (SubscriptionStep::List {
            limit: 256,
        }),
        !(s.listed(events).step is Wait) ==> s.listed(events).step == (SubscriptionStep::List {
            limit: 256,
        }),
        s.listed(events).filter == s.filter,
        events.len() == 0 ==> s.listed(events).cursor == s.cursor,
        s.notified(event).step == (SubscriptionStep::List { limit: 256 }),
        s.notified(event).filter == s.filter,
        CATCH_UP_LIMIT == 1024,
{
}

/// A subscriber that is told of an event behind its cursor gets it exactly where its filter admits
/// it, and goes on from there.
pub proof fn lemma_notified_event_is_sent(s: SubscriptionView, event: EventView, c: nat, id: nat)
    requires
        s.cursor == Some(c),
        event_id_of(event) == Some(id),
        c < id,
    ensures
        s.filter.admits(event) ==> s.sent_for(event) == seq![event],
        !s.filter.admits(event) ==> s.sent_for(event).len() == 0,
        s.notified(event).cursor == Some(id),
{
}

} // verus!
