//! Events: how they are read, delivered to subscribers, and dropped once they are old.
use crate::index_error::{ErrorView, IndexError};
use crate::lists::reversed;
use crate::model::{opt_string, EventKind, EventRecord, EventView};
use crate::rpc::{should_emit_event, FilterView, SubscribeFilter};
use crate::status::{answers, status_of, Code, Status, StatusView};
use crate::text::{
    blank,
    decimal,
    is_blank,
    lemma_decimal_round_trip,
    opt_int_i64,
    opt_nat_u64,
    parse_i64,
    parse_signed,
    parse_u64,
    parse_unsigned,
    push_decimal,
    signed_decimal,
    signed_decimal_text,
    trim,
    trim_text,
};
use vstd::prelude::*;
use vstd::string::StringExecFns;

verus! {

pub open spec fn event_views(v: Seq<EventRecord>) -> Seq<EventView> {
    v.map_values(|e: EventRecord| e@)
}

// ---------------------------------------------------------------------------
// Rows
// ---------------------------------------------------------------------------

/// An event as the database hands it out; `path` is that of its node, empty where it is gone.
#[derive(Debug, Clone)]
pub struct EventRow {
    pub id: i64,
    pub kind: String,
    pub node_id: Option<String>,
    pub payload_json: String,
    pub created_at_ns: i64,
    pub path: String,
}

/// The record of an event: its cursor is its id in decimal digits.
pub open spec fn row_event(row: EventRow, workspace_id: Seq<char>) -> EventView {
    EventView {
        cursor: signed_decimal(row.id as int),
        created_at_unix_nano: row.created_at_ns,
        kind: EventKind::named(row.kind@),
        workspace_id,
        node_id: match opt_string(row.node_id) {
            Some(n) => n,
            None => Seq::empty(),
        },
        payload_json: row.payload_json@,
        path: row.path@,
    }
}

pub fn map_event_row(row: EventRow, workspace_id: &str) -> (r: EventRecord)
    ensures
        r@ == row_event(row, workspace_id@),
{
    EventRecord {
        cursor: signed_decimal_text(row.id),
        created_at_unix_nano: row.created_at_ns,
        kind: EventKind::from_db(row.kind.as_str()),
        workspace_id: workspace_id.to_owned(),
        node_id: match row.node_id {
            Some(n) => n,
            None => String::new(),
        },
        payload_json: row.payload_json,
        path: row.path,
    }
}

/// The payload of an event that tells of a finished indexing.
pub open spec fn index_updated_payload_text(index_version: nat, chunks_indexed: nat) -> Seq<char> {
    "{\"index_version\":"@ + decimal(index_version) + ",\"chunks_indexed\":"@ + decimal(
        chunks_indexed,
    ) + "}"@
}

pub fn index_updated_payload(index_version: u64, chunks_indexed: u32) -> (r: String)
    ensures
        r@ == index_updated_payload_text(index_version as nat, chunks_indexed as nat),
{
    let mut r = "{\"index_version\":".to_owned();
    push_decimal(&mut r, index_version);
    r.append(",\"chunks_indexed\":");
    push_decimal(&mut r, chunks_indexed as u64);
    r.append("}");
    r
}

// ---------------------------------------------------------------------------
// Cursors
// ---------------------------------------------------------------------------

pub const MAX_EVENT_PAGE: u32 = 1024;

/// The page of events to read: those with an id beyond `after`, at most `limit` of them.
#[derive(Debug, Clone, Copy, PartialEq, Eq, Structural)]
pub struct EventPage {
    pub after: i64,
    pub limit: i64,
}

pub open spec fn event_page_limit(limit: u32) -> int {
    if limit < 1 {
        1
    } else if limit > MAX_EVENT_PAGE {
        MAX_EVENT_PAGE as int
    } else {
        limit as int
    }
}

/// Plans to list the events behind a cursor; without one, all of them.
pub fn list_events_since(since_cursor: Option<u64>, limit: u32) -> (r: Result<
    EventPage,
    IndexError,
>)
    ensures
        match r {
            Ok(p) => p.after >= 0 && p.after as int == (match since_cursor {
                Some(c) => c as int,
                None => 0,
            }) && p.limit == event_page_limit(limit),
            Err(e) => since_cursor matches Some(c) && c > i64::MAX && e@
                == ErrorView::NumericConversion,
        },
{
    let cursor: u64 = match since_cursor {
        Some(c) => c,
        None => 0,
    };
    if cursor > 0x7fff_ffff_ffff_ffffu64 {
        return Err(IndexError::NumericConversion);
    }
    let limit: i64 = if limit < 1 {
        1
    } else if limit > MAX_EVENT_PAGE {
        MAX_EVENT_PAGE as i64
    } else {
        limit as i64
    };
    Ok(EventPage { after: cursor as i64, limit })
}

/// The event id that a subscriber acknowledges.
pub fn acknowledged_cursor(cursor: &str) -> (r: Result<i64, IndexError>)
    ensures
        match r {
            Ok(id) => parse_signed(cursor@, i64::MAX as nat) == Some(id as int),
            Err(e) => parse_signed(cursor@, i64::MAX as nat) is None && e@
                == ErrorView::InvalidCursor,
        },
{
    match parse_i64(cursor) {
        Some(id) => {
            assert(parse_signed(cursor@, i64::MAX as nat) == opt_int_i64(Some(id)));
            Ok(id)
        },
        None => {
            assert(parse_signed(cursor@, i64::MAX as nat) == opt_int_i64(None));
            Err(IndexError::InvalidCursor)
        },
    }
}

/// A stored event id as a cursor.
pub fn stored_cursor(value: Option<i64>) -> (r: Result<Option<u64>, IndexError>)
    ensures
        match r {
            Ok(None) => value is None,
            Ok(Some(c)) => value matches Some(v) && v >= 0 && c == v,
            Err(e) => value matches Some(v) && v < 0 && e@ == ErrorView::NumericConversion,
        },
{
    match value {
        None => Ok(None),
        Some(v) => {
            if v < 0 {
                Err(IndexError::NumericConversion)
            } else {
                Ok(Some(v as u64))
            }
        },
    }
}

// ---------------------------------------------------------------------------
// Subscriptions
// ---------------------------------------------------------------------------

/// Where a subscription starts.
#[derive(Debug, Clone, PartialEq, Eq)]
pub enum SubscribeStart {
    /// Behind the cursor that the request gives.
    At(u64),
    /// Behind the latest event.
    Latest,
    /// Behind what the subscriber acknowledged last, else behind the latest event.
    Subscriber(String),
}

#[verifier::ext_equal]
pub enum SubscribeStartView {
    At(nat),
    Latest,
    Subscriber(Seq<char>),
}

impl View for SubscribeStart {
    type V = SubscribeStartView;

    open spec fn view(&self) -> SubscribeStartView {
        match *self {
            SubscribeStart::At(c) => SubscribeStartView::At(c as nat),
            SubscribeStart::Latest => SubscribeStartView::Latest,
            SubscribeStart::Subscriber(s) => SubscribeStartView::Subscriber(s@),
        }
    }
}

pub open spec fn subscribe_start_of(
    workspace_id: Seq<char>,
    since_cursor: Seq<char>,
    subscriber_id: Seq<char>,
) -> Result<SubscribeStartView, StatusView> {
    if is_blank(workspace_id) {
        Err(status_of(Code::InvalidArgument, "workspace_id cannot be empty"@))
    } else if is_blank(since_cursor) {
        if trim(subscriber_id).len() == 0 {
            Ok(SubscribeStartView::Latest)
        } else {
            Ok(SubscribeStartView::Subscriber(trim(subscriber_id)))
        }
    } else {
        match parse_unsigned(since_cursor, u64::MAX as nat) {
            Some(c) => Ok(SubscribeStartView::At(c)),
            None => Err(status_of(Code::InvalidArgument, "since_cursor must be numeric"@)),
        }
    }
}

pub fn subscribe_start(workspace_id: &str, since_cursor: &str, subscriber_id: &str) -> (r: Result<
    SubscribeStart,
    Status,
>)
    ensures
        answers(r, subscribe_start_of(workspace_id@, since_cursor@, subscriber_id@)),
{
    if blank(workspace_id) {
        return Err(Status::new(Code::InvalidArgument, "workspace_id cannot be empty"));
    }
    if blank(since_cursor) {
        let subscriber = trim_text(subscriber_id);
        if subscriber.as_str().is_empty() {
            return Ok(SubscribeStart::Latest);
        }
        return Ok(SubscribeStart::Subscriber(subscriber));
    }
    match parse_u64(since_cursor) {
        Some(c) => {
            assert(parse_unsigned(since_cursor@, u64::MAX as nat) == opt_nat_u64(Some(c)));
            Ok(SubscribeStart::At(c))
        },
        None => {
            assert(parse_unsigned(since_cursor@, u64::MAX as nat) == opt_nat_u64(None));
            Err(Status::new(Code::InvalidArgument, "since_cursor must be numeric"))
        },
    }
}

/// The cursor that a subscription starts from, given what the subscriber acknowledged and which
/// event is the latest.
pub fn start_cursor(start: &SubscribeStart, acknowledged: Option<u64>, latest: Option<u64>) -> (r:
    u64)
    ensures
        r == match (*start, acknowledged, latest) {
            (SubscribeStart::At(c), _, _) => c,
            (SubscribeStart::Subscriber(_), Some(a), _) => a,
            (_, _, Some(l)) => l,
            _ => 0,
        },
{
    match start {
        SubscribeStart::At(c) => *c,
        SubscribeStart::Latest => match latest {
            Some(l) => l,
            None => 0,
        },
        SubscribeStart::Subscriber(_) => match acknowledged {
            Some(a) => a,
            None => match latest {
                Some(l) => l,
                None => 0,
            },
        },
    }
}

/// The id that an event's cursor stands for.
pub open spec fn event_id_of(event: EventView) -> Option<nat> {
    parse_unsigned(event.cursor, u64::MAX as nat)
}

/// The cursor behind a batch of events.
pub open spec fn cursor_after(cursor: Option<nat>, events: Seq<EventView>) -> Option<nat> {
    if events.len() == 0 {
        cursor
    } else {
        event_id_of(events.last())
    }
}

/// The events of a batch that the subscriber is to see.
pub open spec fn emitted(events: Seq<EventView>, filter: FilterView) -> Seq<EventView> {
    events.filter(|e: EventView| filter.admits(e))
}

/// Delivers a batch that was read behind the cursor: the events to send, and the new cursor.
pub fn deliver_batch(cursor: Option<u64>, events: Vec<EventRecord>, filter: &SubscribeFilter) -> (r: (
    Option<u64>,
    Vec<EventRecord>,
))
    ensures
        opt_nat_u64(r.0) == cursor_after(opt_nat_u64(cursor), event_views(events@)),
        event_views(r.1@) == emitted(event_views(events@), filter@),
{
    let ghost all = event_views(events@);
    let ghost keep = |e: EventView| filter@.admits(e);
    let mut rest = events;
    let mut backwards: Vec<EventRecord> = Vec::new();
    let mut next = cursor;
    if rest.len() > 0 {
        let last = &rest[rest.len() - 1];
        proof {
            assert(all.last() == last@);
        }
        next = parse_u64(last.cursor.as_str());
    }
    proof {
        assert(all.take(all.len() as int) =~= all);
        reveal(Seq::filter);
        assert(all.skip(all.len() as int) =~= Seq::empty());
        assert(event_views(backwards@).reverse() =~= Seq::empty());
        assert(Seq::<EventView>::empty().filter(keep) =~= Seq::empty());
        assert(event_views(rest@) =~= all.take(rest@.len() as int));
    }
    while rest.len() > 0
        invariant
            keep == (|e: EventView| filter@.admits(e)),
            rest@.len() <= all.len(),
            event_views(rest@) == all.take(rest@.len() as int),
            all.filter(keep) == all.take(rest@.len() as int).filter(keep) + event_views(
                backwards@,
            ).reverse(),
        decreases rest@.len(),
    {
        let ghost n = rest@.len() as int;
        let ghost views = event_views(rest@);
        let ghost tail = event_views(backwards@);
        let e = rest.pop().unwrap();
        let ghost ev = e@;
        proof {
            reveal(Seq::filter);
            assert(ev == views[n - 1]);
            assert(all.take(n).drop_last() =~= all.take(n - 1));
            assert(event_views(rest@) =~= all.take(n - 1));
        }
        if should_emit_event(&e, filter) {
            backwards.push(e);
            proof {
                assert(event_views(backwards@) =~= tail.push(ev));
                assert(all.take(n - 1).filter(keep).push(ev) + tail.reverse() =~= all.take(
                    n - 1,
                ).filter(keep) + tail.push(ev).reverse());
            }
        }
    }
    proof {
        reveal(Seq::filter);
        assert(all.take(0) =~= Seq::empty());
        assert(Seq::<EventView>::empty() + event_views(backwards@).reverse() =~= event_views(
            backwards@,
        ).reverse());
    }
    let ghost whole = backwards@;
    let out = reversed(backwards);
    proof {
        assert(event_views(out@) =~= event_views(whole).reverse());
    }
    (next, out)
}

/// An event that the subscriber has seen already, by its id.
pub open spec fn is_stale(cursor: Option<nat>, event: EventView) -> bool {
    match (cursor, event_id_of(event)) {
        (Some(c), Some(id)) => id <= c,
        _ => false,
    }
}

/// Delivers an event of which the subscriber is notified while it waits.
pub fn deliver_notified(cursor: Option<u64>, event: EventRecord, filter: &SubscribeFilter) -> (r: (
    Option<u64>,
    Option<EventRecord>,
))
    ensures
        if is_stale(opt_nat_u64(cursor), event@) {
            r.0 == cursor && r.1 is None
        } else {
            opt_nat_u64(r.0) == event_id_of(event@) && match r.1 {
                Some(e) => filter@.admits(event@) && e == event,
                None => !filter@.admits(event@),
            }
        },
{
    let id = parse_u64(event.cursor.as_str());
    assert(opt_nat_u64(id) == event_id_of(event@));
    match (cursor, id) {
        (Some(c), Some(e)) => {
            if e <= c {
                return (cursor, None);
            }
        },
        _ => {},
    }
    if should_emit_event(&event, filter) {
        (id, Some(event))
    } else {
        (id, None)
    }
}

/// The events have ids, which grow, and all are beyond the cursor.
pub open spec fn in_order_beyond(events: Seq<EventView>, cursor: nat) -> bool {
    &&& forall|i: int| 0 <= i < events.len() ==> event_id_of(#[trigger] events[i]) is Some
    &&& forall|i: int| 0 <= i < events.len() ==> event_id_of(#[trigger] events[i])->0 > cursor
    &&& forall|i: int, j: int|
        0 <= i < j < events.len() ==> event_id_of(#[trigger] events[i])->0 < event_id_of(
            #[trigger] events[j],
        )->0
}

/// A subscriber sees events in the order of their ids and none of them twice: what a batch sends
/// is in order and beyond the old cursor, and the new cursor is at or beyond all of it.
pub proof fn lemma_delivery_in_order(events: Seq<EventView>, filter: FilterView, cursor: nat)
    requires
        in_order_beyond(events, cursor),
    ensures
        in_order_beyond(emitted(events, filter), cursor),
        cursor_after(Some(cursor), events) is Some,
        cursor_after(Some(cursor), events)->0 >= cursor,
        forall|i: int|
            0 <= i < emitted(events, filter).len() ==> event_id_of(
                #[trigger] emitted(events, filter)[i],
            )->0 <= cursor_after(Some(cursor), events)->0,
    decreases events.len(),
{
    reveal(Seq::filter);
    let keep = |e: EventView| filter.admits(e);
    if events.len() > 0 {
        let init = events.drop_last();
        assert(in_order_beyond(init, cursor)) by {
            assert forall|i: int| 0 <= i < init.len() implies event_id_of(
                #[trigger] init[i],
            ) is Some && event_id_of(init[i])->0 > cursor by {
                assert(init[i] == events[i]);
            }
            assert forall|i: int, j: int| 0 <= i < j < init.len() implies event_id_of(
                #[trigger] init[i],
            )->0 < event_id_of(#[trigger] init[j])->0 by {
                assert(init[i] == events[i] && init[j] == events[j]);
            }
        }
        lemma_delivery_in_order(init, filter, cursor);
        let before = init.filter(keep);
        let sent = events.filter(keep);
        let last = events.last();
        assert(last == events[events.len() - 1]);
        assert(cursor_after(Some(cursor), init)->0 < event_id_of(last)->0) by {
            if init.len() > 0 {
                assert(init.last() == events[events.len() - 2]);
            }
        }
        if keep(last) {
            assert(sent =~= before.push(last));
            assert forall|i: int| 0 <= i < sent.len() implies event_id_of(
                #[trigger] sent[i],
            ) is Some && event_id_of(sent[i])->0 > cursor && event_id_of(sent[i])->0
                <= event_id_of(last)->0 by {
                if i < before.len() {
                    assert(sent[i] == before[i]);
                }
            }
            assert forall|i: int, j: int| 0 <= i < j < sent.len() implies event_id_of(
                #[trigger] sent[i],
            )->0 < event_id_of(#[trigger] sent[j])->0 by {
                assert(sent[i] == before[i]);
                if j < before.len() {
                    assert(sent[j] == before[j]);
                }
            }
        } else {
            assert(sent =~= before);
        }
    } else {
        assert(events.filter(keep) =~= Seq::empty());
    }
}

/// The cursor of a stored event is read as its id.
pub proof fn lemma_event_cursor_is_id(row: EventRow, workspace_id: Seq<char>)
    requires
        row.id >= 0,
    ensures
        event_id_of(row_event(row, workspace_id)) == Some(row.id as nat),
{
    lemma_decimal_round_trip(row.id as nat);
}

/// The subscriber that an acknowledgement is for, where the request is well formed.
pub open spec fn acknowledge_subscriber_of(
    workspace_id: Seq<char>,
    cursor: Seq<char>,
    subscriber_id: Seq<char>,
) -> Result<Seq<char>, StatusView> {
    if is_blank(workspace_id) {
        Err(status_of(Code::InvalidArgument, "workspace_id cannot be empty"@))
    } else if is_blank(cursor) {
        Err(status_of(Code::InvalidArgument, "cursor cannot be empty"@))
    } else if trim(subscriber_id).len() == 0 {
        Ok("default"@)
    } else {
        Ok(trim(subscriber_id))
    }
}

pub fn acknowledge_subscriber(workspace_id: &str, cursor: &str, subscriber_id: &str) -> (r: Result<
    String,
    Status,
>)
    ensures
        answers(r, acknowledge_subscriber_of(workspace_id@, cursor@, subscriber_id@)),
{
    if blank(workspace_id) {
        return Err(Status::new(Code::InvalidArgument, "workspace_id cannot be empty"));
    }
    if blank(cursor) {
        return Err(Status::new(Code::InvalidArgument, "cursor cannot be empty"));
    }
    let subscriber = trim_text(subscriber_id);
    if subscriber.as_str().is_empty() {
        Ok("default".to_owned())
    } else {
        Ok(subscriber)
    }
}

// ---------------------------------------------------------------------------
// Retention
// ---------------------------------------------------------------------------

/// Which events of a workspace may go: those created before `cutoff_unix_nano` with an id below
/// that of the event at position `keep_offset`, counted from the latest. Where there is no event
/// at that position, none goes.
#[derive(Debug, Clone, Copy, PartialEq, Eq, Structural)]
pub struct RetentionPlan {
    pub cutoff_unix_nano: i64,
    pub keep_offset: i64,
}

/// `a - b`, at the least number there is.
pub open spec fn saturated_difference(a: i64, b: int) -> int {
    if a - b < i64::MIN {
        i64::MIN as int
    } else {
        a - b
    }
}

/// The largest number of nanoseconds that counts as an age.
pub open spec fn age_ns(max_age_nanos: int) -> int {
    if max_age_nanos > i64::MAX {
        i64::MAX as int
    } else {
        max_age_nanos
    }
}

/// Plans to drop events that are older than `max_age_nanos` at the time `now_ns`.
pub fn retention_cutoff(now_ns: i64, max_age_nanos: u128) -> (r: i64)
    ensures
        r == saturated_difference(now_ns, age_ns(max_age_nanos as int)),
{
    let age: i64 = if max_age_nanos > 0x7fff_ffff_ffff_ffffu128 {
        0x7fff_ffff_ffff_ffffi64
    } else {
        max_age_nanos as i64
    };
    if now_ns < i64::MIN + age {
        i64::MIN
    } else {
        now_ns - age
    }
}

/// The number of the latest events that a retention keeps in any case: one, if 0 is asked for.
pub open spec fn kept_at_least(min_events: u64) -> int {
    if min_events == 0 {
        1
    } else {
        min_events as int
    }
}

pub fn retention_plan(cutoff_unix_nano: i64, min_events_per_workspace: u64) -> (r: Result<
    RetentionPlan,
    IndexError,
>)
    ensures
        match r {
            Ok(p) => p.cutoff_unix_nano == cutoff_unix_nano && p.keep_offset == kept_at_least(
                min_events_per_workspace,
            ) - 1,
            Err(e) => kept_at_least(min_events_per_workspace) - 1 > i64::MAX && e@
                == ErrorView::NumericConversion,
        },
{
    let offset: u64 = min_events_per_workspace.saturating_sub(1);
    if offset > 0x7fff_ffff_ffff_ffffu64 {
        return Err(IndexError::NumericConversion);
    }
    Ok(RetentionPlan { cutoff_unix_nano, keep_offset: offset as i64 })
}

/// An event of a workspace, by its id and its time.
pub struct LoggedEvent {
    pub id: int,
    pub created_at_ns: int,
}

/// The events are listed from the latest on.
pub open spec fn latest_first(log: Seq<LoggedEvent>) -> bool {
    forall|i: int, j: int| 0 <= i < j < log.len() ==> #[trigger] log[i].id > #[trigger] log[j].id
}

/// A retention drops the event.
pub open spec fn is_dropped(log: Seq<LoggedEvent>, plan: RetentionPlan, e: LoggedEvent) -> bool {
    &&& 0 <= plan.keep_offset < log.len()
    &&& e.created_at_ns < plan.cutoff_unix_nano
    &&& e.id < log[plan.keep_offset as int].id
}

/// A retention keeps the latest events, however old they are, and every event that is not older
/// than the cutoff, and drops all the others.
pub proof fn lemma_retention(
    log: Seq<LoggedEvent>,
    plan: RetentionPlan,
    min_events: u64,
    i: int,
)
    requires
        latest_first(log),
        plan.keep_offset == kept_at_least(min_events) - 1,
        0 <= i < log.len(),
    ensures
        is_dropped(log, plan, log[i]) <==> i >= kept_at_least(min_events) && log[i].created_at_ns
            < plan.cutoff_unix_nano,
{
    if plan.keep_offset < log.len() {
        let k = plan.keep_offset as int;
        if i > k {
            assert(log[k].id > log[i].id);
        }
        if i < k {
            assert(log[i].id > log[k].id);
        }
    }
}

/// An event is what its row says: its cursor is the number of the row.
pub proof fn lemma_event_is_its_row(row: EventRow, workspace_id: Seq<char>)
    ensures
        ({
            let e = row_event(row, workspace_id);
            &&& e.cursor == signed_decimal(row.id as int)
            &&& e.created_at_unix_nano == row.created_at_ns
            &&& e.workspace_id == workspace_id
            &&& row.node_id is Some ==> e.node_id == row.node_id->0@
            &&& row.node_id is None ==> e.node_id.len() == 0
            &&& e.payload_json == row.payload_json@
            &&& e.path == row.path@
            &&& row.kind@ == "NodeCreated"@ ==> e.kind == EventKind::NodeCreated
            &&& row.kind@ == "NodeModified"@ ==> e.kind == EventKind::NodeModified
            &&& row.kind@ == "NodeDeleted"@ ==> e.kind == EventKind::NodeDeleted
            &&& row.kind@ == "NodeRenamed"@ ==> e.kind == EventKind::NodeRenamed
            &&& row.kind@ == "AttrsChanged"@ ==> e.kind == EventKind::AttrsChanged
            &&& row.kind@ == "IndexUpdated"@ ==> e.kind == EventKind::IndexUpdated
        }),
{
    crate::model::lemma_event_kind_round_trip(EventKind::NodeCreated);
    crate::model::lemma_event_kind_round_trip(EventKind::NodeModified);
    crate::model::lemma_event_kind_round_trip(EventKind::NodeDeleted);
    crate::model::lemma_event_kind_round_trip(EventKind::NodeRenamed);
    crate::model::lemma_event_kind_round_trip(EventKind::AttrsChanged);
    crate::model::lemma_event_kind_round_trip(EventKind::IndexUpdated);
    assert(EventKind::NodeCreated.name() == "NodeCreated"@);
    assert(EventKind::NodeModified.name() == "NodeModified"@);
    assert(EventKind::NodeDeleted.name() == "NodeDeleted"@);
    assert(EventKind::NodeRenamed.name() == "NodeRenamed"@);
    assert(EventKind::AttrsChanged.name() == "AttrsChanged"@);
    assert(EventKind::IndexUpdated.name() == "IndexUpdated"@);
}

/// A subscriber begins behind the cursor that it gives, else behind what it acknowledged, else
/// behind the latest event.
pub proof fn lemma_where_a_subscriber_begins(
    workspace_id: Seq<char>,
    since_cursor: Seq<char>,
    subscriber_id: Seq<char>,
    n: nat,
)
    ensures
        is_blank(workspace_id) ==> subscribe_start_of(workspace_id, since_cursor, subscriber_id)
            is Err,
        !is_blank(workspace_id) && is_blank(since_cursor) && is_blank(subscriber_id)
            ==> subscribe_start_of(workspace_id, since_cursor, subscriber_id) == Ok::<
            SubscribeStartView,
            StatusView,
        >(SubscribeStartView::Latest),
        !is_blank(workspace_id) && is_blank(since_cursor) && !is_blank(subscriber_id)
            ==> subscribe_start_of(workspace_id, since_cursor, subscriber_id) == Ok::<
            SubscribeStartView,
            StatusView,
        >(SubscribeStartView::Subscriber(trim(subscriber_id))),
        !is_blank(workspace_id) && n <= u64::MAX ==> subscribe_start_of(
            workspace_id,
            decimal(n),
            subscriber_id,
        ) == Ok::<SubscribeStartView, StatusView>(SubscribeStartView::At(n)),
        subscribe_start_of(workspace_id, since_cursor, subscriber_id) matches Err(e) ==> e.code
            == Code::InvalidArgument,
{
    crate::text::lemma_blank_trims_to_nothing(subscriber_id);
    lemma_decimal_round_trip(n);
    crate::text::lemma_decimal_shape(n);
    let d = decimal(n);
    assert(crate::text::is_digit(d[0]));
    crate::text::lemma_white_space(d[0]);
}

/// Of the events that were read, exactly those are sent that the filter admits, once each; the
/// cursor moves to the last that was read, sent or not.
pub proof fn lemma_delivered_are_admitted(
    cursor: Option<nat>,
    events: Seq<EventView>,
    filter: FilterView,
    e: EventView,
)
    ensures
        emitted(events, filter).contains(e) <==> events.contains(e) && filter.admits(e),
        emitted(events, filter).len() <= events.len(),
        events.len() == 0 ==> cursor_after(cursor, events) == cursor,
        events.len() > 0 ==> cursor_after(cursor, events) == parse_unsigned(
            events.last().cursor,
            u64::MAX as nat,
        ),
        filter.admits(e) ==> emitted(events.push(e), filter) == emitted(events, filter).push(e),
        !filter.admits(e) ==> emitted(events.push(e), filter) == emitted(events, filter),
{
    let keep = |e: EventView| filter.admits(e);
    crate::rpc::lemma_filtered(events, keep, e);
    events.lemma_filter_len(keep);
    reveal(Seq::filter);
    assert(events.push(e).drop_last() =~= events);
}

/// An event that is not behind the cursor was sent before.
pub proof fn lemma_stale_events(c: nat, event: EventView, id: nat)
    requires
        parse_unsigned(event.cursor, u64::MAX as nat) == Some(id),
    ensures
        is_stale(Some(c), event) <==> id <= c,
        !is_stale(None, event),
{
}

/// An acknowledgement is kept under the name of its subscriber, and of `default` where it has none.
pub proof fn lemma_acknowledgements(
    workspace_id: Seq<char>,
    cursor: Seq<char>,
    subscriber_id: Seq<char>,
)
    ensures
        ({
            let r = acknowledge_subscriber_of(workspace_id, cursor, subscriber_id);
            &&& is_blank(workspace_id) || is_blank(cursor) <==> r is Err
            &&& r matches Err(e) ==> e.code == Code::InvalidArgument
            &&& r is Ok && is_blank(subscriber_id) ==> r->Ok_0 == "default"@
            &&& r is Ok && !is_blank(subscriber_id) ==> r->Ok_0 == trim(subscriber_id)
        }),
{
    crate::text::lemma_blank_trims_to_nothing(subscriber_id);
}

/// Pages hold what was asked for, at least one event and at most 1024. Events are kept for the age
/// that was given, and never fewer than were asked for, or than one.
pub proof fn lemma_event_limits(limit: u32, now: i64, age: int, min_events: u64)
    requires
        0 <= age,
    ensures
        1 <= limit <= 1024 ==> event_page_limit(limit) == limit,
        limit == 0 ==> event_page_limit(limit) == 1,
        limit > 1024 ==> event_page_limit(limit) == 1024,
        0 <= now && age <= i64::MAX ==> saturated_difference(now, age_ns(age)) == now - age,
        age > i64::MAX ==> age_ns(age) == i64::MAX,
        min_events > 0 ==> kept_at_least(min_events) == min_events,
        kept_at_least(0) == 1,
{
}

/// A subscriber begins where it says, or behind what it acknowledged last, or at the latest event.
pub proof fn lemma_where_to_begin(
    c: u64,
    name: String,
    a: u64,
    l: u64,
    acknowledged: Option<u64>,
    latest: Option<u64>,
    at: u64,
    known: u64,
    new: u64,
    first: u64,
)
    requires
        call_ensures(start_cursor, (&SubscribeStart::At(c), acknowledged, latest), at),
        call_ensures(start_cursor, (&SubscribeStart::Subscriber(name), Some(a), latest), known),
        call_ensures(start_cursor, (&SubscribeStart::Subscriber(name), None, Some(l)), new),
        call_ensures(start_cursor, (&SubscribeStart::Subscriber(name), None, None), first),
    ensures
        at == c,
        known == a,
        new == l,
        first == 0,
{
}

/// A cursor that is stored is the one that is read, and none is below zero.
pub proof fn lemma_cursors_are_read(v: i64, r: Result<Option<u64>, IndexError>)
    requires
        call_ensures(stored_cursor, (Some(v),), r),
    ensures
        r is Ok <==> v >= 0,
        r is Ok ==> r->Ok_0 is Some && r->Ok_0->0 == v,
{
}

/// Events are listed from behind the cursor, or from the first, at most as many as were asked for.
pub proof fn lemma_pages_of_events(
    c: u64,
    limit: u32,
    r: Result<EventPage, IndexError>,
    first: Result<EventPage, IndexError>,
)
    requires
        call_ensures(list_events_since, (Some(c), limit), r),
        call_ensures(list_events_since, (None, limit), first),
    ensures
        r is Ok <==> c <= i64::MAX,
        r is Ok ==> r->Ok_0.after == c,
        first is Ok && first->Ok_0.after == 0,
        r is Ok && 1 <= limit <= 1024 ==> r->Ok_0.limit == limit,
        r is Ok && limit > 1024 ==> r->Ok_0.limit == 1024,
{
}

/// A batch is delivered without what the filter holds back, and an event that is told of is
/// delivered once.
pub proof fn lemma_what_is_delivered(
    cursor: Option<u64>,
    events: Vec<EventRecord>,
    filter: &SubscribeFilter,
    batch: (Option<u64>, Vec<EventRecord>),
    e: EventView,
    event: EventRecord,
    told: (Option<u64>, Option<EventRecord>),
)
    requires
        call_ensures(deliver_batch, (cursor, events, filter), batch),
        call_ensures(deliver_notified, (cursor, event, filter), told),
    ensures
        event_views(batch.1@).contains(e) <==> event_views(events@).contains(e) && filter@.admits(e),
        events@.len() == 0 ==> batch.0 == cursor,
        told.1 is Some ==> told.1->0 == event && filter@.admits(event@),
        !filter@.admits(event@) ==> told.1 is None,
        filter@.admits(event@) && !is_stale(opt_nat_u64(cursor), event@) ==> told.1 is Some,
        is_stale(opt_nat_u64(cursor), event@) ==> told.1 is None && told.0 == cursor,
{
    lemma_delivered_are_admitted(opt_nat_u64(cursor), event_views(events@), filter@, e);
    assert(event_views(events@).len() == events@.len());
}

/// Events are dropped from beyond their age on, and as many stay as have to.
pub proof fn lemma_what_retention_is_told(
    now_ns: i64,
    max_age_nanos: u128,
    cutoff: i64,
    min_events: u64,
    plan: Result<RetentionPlan, IndexError>,
)
    requires
        0 <= now_ns,
        call_ensures(retention_cutoff, (now_ns, max_age_nanos), cutoff),
        call_ensures(retention_plan, (cutoff, min_events), plan),
    ensures
        max_age_nanos <= i64::MAX ==> cutoff == now_ns - max_age_nanos,
        max_age_nanos > i64::MAX ==> cutoff == now_ns - i64::MAX,
        plan is Ok ==> plan->Ok_0.cutoff_unix_nano == cutoff,
        plan is Ok && min_events > 0 ==> plan->Ok_0.keep_offset == min_events - 1,
        plan is Ok && min_events == 0 ==> plan->Ok_0.keep_offset == 0,
        min_events <= i64::MAX ==> plan is Ok,
{
}

/// An event that is read is what its row holds.
pub proof fn lemma_events_are_read(row: EventRow, workspace_id: &str, r: EventRecord)
    requires
        call_ensures(map_event_row, (row, workspace_id), r),
    ensures
        r@.cursor == signed_decimal(row.id as int),
        r@.created_at_unix_nano == row.created_at_ns,
        r@.workspace_id == workspace_id@,
        r@.payload_json == row.payload_json@,
        r@.path == row.path@,
        row.node_id is Some ==> r@.node_id == row.node_id->0@,
        row.kind@ == "NodeCreated"@ ==> r@.kind == EventKind::NodeCreated,
        row.kind@ == "NodeModified"@ ==> r@.kind == EventKind::NodeModified,
        row.kind@ == "NodeDeleted"@ ==> r@.kind == EventKind::NodeDeleted,
        row.kind@ == "NodeRenamed"@ ==> r@.kind == EventKind::NodeRenamed,
        row.kind@ == "AttrsChanged"@ ==> r@.kind == EventKind::AttrsChanged,
        row.kind@ == "IndexUpdated"@ ==> r@.kind == EventKind::IndexUpdated,
{
    lemma_event_is_its_row(row, workspace_id@);
}

} // verus!
