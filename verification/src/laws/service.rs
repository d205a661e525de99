//! Laws of the service: what a submitter's request becomes, what the state shows,
//! and what a follower is told.

use vstd::prelude::*;

use crate::auth::{
    first_repeat, law_token_identifies_one_submitter, SubmitterCredentials, SubmitterRegistry,
};
use crate::bridge::{
    admitted_instruments, is_submission, journal_instrument_ids, AdmissionReceipt, BridgeError,
    LimitOrderRequest, OrderSide, TimeInForce,
};
use crate::grpc::{
    authenticate, cancel_response, cancel_status, definition_of, event_of, header_identifies,
    header_text, instruments_of, law_follower_sees_every_entry_once,
    law_state_shows_defined_instruments, law_state_shows_own_orders, open_only, parse_cursor,
    shown_instruments, shows, state_response, submit_intake, submit_response, submit_status,
    take_snapshot, tells, visible_orders, watch_step, AdmissionResponse, CachedOrder, CoreSnapshot,
    EventKind, GetStateResponse, InstrumentInfo, JournalEvent, OrderView, Status, StatusCode,
    SubmitIntake, SubmitOrderRequest, WatchStep,
};
use crate::identifiers::{canonical_price, canonical_quantity};
use crate::journal::{
    entries_after, law_scan_has_no_gaps, scanned, AdmissionRecord, BusinessJournal, JournalEntry,
    JournalOutcome, Row, StoredRow,
};
use crate::readiness::{Readiness, ReadinessGate};
use crate::text::{lemma_parsed_numeral, numeral, parsed, precedes, views};

verus! {

// ---------------------------------------------------------------------------
// State
// ---------------------------------------------------------------------------

/// The open orders are those orders that are not closed.
proof fn lemma_open_only(orders: Seq<CachedOrder>)
    ensures
        forall|k: int|
            0 <= k < open_only(orders).len() ==> exists|i: int|
                0 <= i < orders.len() && #[trigger] orders[i] == #[trigger] open_only(orders)[k]
                    && !orders[i].closed,
        forall|i: int|
            0 <= i < orders.len() && !(#[trigger] orders[i]).closed ==> exists|k: int|
                0 <= k < open_only(orders).len() && #[trigger] open_only(orders)[k] == orders[i],
    decreases orders.len(),
{
    if orders.len() > 0 {
        let rest = orders.drop_last();
        let n = orders.len() - 1;
        lemma_open_only(rest);
        assert(orders[n] == orders.last());
        assert forall|k: int| 0 <= k < open_only(orders).len() implies exists|i: int|
            0 <= i < orders.len() && #[trigger] orders[i] == #[trigger] open_only(orders)[k]
                && !orders[i].closed by {
            if k < open_only(rest).len() {
                assert(open_only(orders)[k] == open_only(rest)[k]);
                let i = choose|i: int|
                    0 <= i < rest.len() && #[trigger] rest[i] == open_only(rest)[k]
                        && !rest[i].closed;
                assert(orders[i] == rest[i]);
            } else {
                assert(open_only(orders)[k] == orders[n]);
            }
        }
        assert forall|i: int| 0 <= i < orders.len() && !(#[trigger] orders[i]).closed implies exists|
            k: int,
        |
            0 <= k < open_only(orders).len() && #[trigger] open_only(orders)[k] == orders[i] by {
            if i < n {
                assert(rest[i] == orders[i]);
                let k = choose|k: int|
                    0 <= k < open_only(rest).len() && #[trigger] open_only(rest)[k] == rest[i];
                assert(open_only(orders)[k] == open_only(rest)[k]);
            } else {
                assert(open_only(orders)[open_only(orders).len() - 1] == orders[n]);
            }
        }
    }
}

/// No two of the orders have the same ID.
pub open spec fn order_ids_differ(orders: Seq<CachedOrder>) -> bool {
    forall|i: int, j: int|
        0 <= i < j < orders.len() ==> (#[trigger] orders[i]).client_order_id@ != (
        #[trigger] orders[j]).client_order_id@
}

/// The state shows the cached orders as they are: an order that is shown agrees with
/// the cached order of its ID in every field of the same name, and every order that
/// has not reached a terminal state is shown, and no other.
pub proof fn law_state_shows_orders_as_cached(
    journal: &BusinessJournal,
    orders: &Vec<CachedOrder>,
    snapshot: CoreSnapshot,
)
    requires
        call_ensures(take_snapshot, (journal, orders), snapshot),
        order_ids_differ(orders@),
    ensures
        snapshot.epoch == journal@.epoch,
        snapshot.cursor == journal@.last_seq,
        forall|k: int, i: int|
            #![trigger snapshot.orders@[k], orders@[i]]
            0 <= k < snapshot.orders@.len() && 0 <= i < orders@.len()
                && snapshot.orders@[k].client_order_id@ == orders@[i].client_order_id@ ==> {
                let view = snapshot.orders@[k];
                let order = orders@[i];
                &&& !order.closed
                &&& view.strategy_id@ == order.strategy_id@
                &&& view.instrument_id@ == order.instrument_id@
                &&& view.side@ == order.side@
                &&& view.quantity@ == order.quantity@
                &&& order.price matches Some(price) ==> view.price@ == price@
                &&& order.price is None ==> view.price@ == "-"@
                &&& view.status@ == order.status@
                &&& view.filled_quantity@ == order.filled_quantity@
            },
        forall|i: int|
            0 <= i < orders@.len() ==> (!(#[trigger] orders@[i]).closed <==> exists|k: int|
                0 <= k < snapshot.orders@.len() && (
                #[trigger] snapshot.orders@[k]).client_order_id@ == orders@[i].client_order_id@),
        forall|k: int|
            0 <= k < snapshot.orders@.len() ==> exists|i: int|
                0 <= i < orders@.len() && (#[trigger] orders@[i]).client_order_id@ == (
                #[trigger] snapshot.orders@[k]).client_order_id@,
{
    let open = open_only(orders@);
    lemma_open_only(orders@);
    assert forall|k: int| 0 <= k < snapshot.orders@.len() implies exists|i: int|
        0 <= i < orders@.len() && #[trigger] orders@[i] == open[k] && !orders@[i].closed && shows(
            #[trigger] snapshot.orders@[k],
            orders@[i],
        ) by {
        assert(shows(snapshot.orders@[k], open[k]));
        let i = choose|i: int|
            0 <= i < orders@.len() && #[trigger] orders@[i] == open[k] && !orders@[i].closed;
        assert(orders@[i] == open[k]);
    }
    assert forall|k: int, i: int|
        #![trigger snapshot.orders@[k], orders@[i]]
        0 <= k < snapshot.orders@.len() && 0 <= i < orders@.len()
            && snapshot.orders@[k].client_order_id@ == orders@[i].client_order_id@ implies shows(
        snapshot.orders@[k],
        orders@[i],
    ) && !orders@[i].closed by {
        let j = choose|j: int|
            0 <= j < orders@.len() && #[trigger] orders@[j] == open[k] && !orders@[j].closed
                && shows(snapshot.orders@[k], orders@[j]);
        if i < j {
            assert(orders@[i].client_order_id@ != orders@[j].client_order_id@);
        } else if j < i {
            assert(orders@[j].client_order_id@ != orders@[i].client_order_id@);
        }
    }
    assert forall|i: int| 0 <= i < orders@.len() implies (!(#[trigger] orders@[i]).closed
        <==> exists|k: int|
        0 <= k < snapshot.orders@.len() && (#[trigger] snapshot.orders@[k]).client_order_id@
            == orders@[i].client_order_id@) by {
        if !orders@[i].closed {
            let k = choose|k: int| 0 <= k < open.len() && #[trigger] open[k] == orders@[i];
            assert(shows(snapshot.orders@[k], open[k]));
        }
    }
}

/// The open orders keep their order.
proof fn lemma_open_in_order(orders: Seq<CachedOrder>, k: int, l: int) -> (r: (int, int))
    requires
        0 <= k < l < open_only(orders).len(),
    ensures
        0 <= r.0 < r.1 < orders.len(),
        orders[r.0] == open_only(orders)[k],
        orders[r.1] == open_only(orders)[l],
    decreases orders.len(),
{
    let rest = orders.drop_last();
    let before = open_only(rest);
    assert(orders[orders.len() - 1] == orders.last());
    if l < before.len() {
        let (i, j) = lemma_open_in_order(rest, k, l);
        assert(orders[i] == rest[i] && orders[j] == rest[j]);
        (i, j)
    } else {
        lemma_open_only(rest);
        let i = choose|i: int|
            0 <= i < rest.len() && #[trigger] rest[i] == before[k] && !rest[i].closed;
        assert(orders[i] == rest[i]);
        (i, orders.len() - 1)
    }
}

/// The state shows each order once, and the orders in the order of the cache.
pub proof fn law_state_keeps_the_order_of_orders(
    journal: &BusinessJournal,
    orders: &Vec<CachedOrder>,
    snapshot: CoreSnapshot,
    k: int,
    l: int,
    i: int,
    j: int,
)
    requires
        call_ensures(take_snapshot, (journal, orders), snapshot),
        order_ids_differ(orders@),
        0 <= k < l < snapshot.orders@.len(),
        0 <= i < orders@.len(),
        0 <= j < orders@.len(),
        snapshot.orders@[k].client_order_id@ == orders@[i].client_order_id@,
        snapshot.orders@[l].client_order_id@ == orders@[j].client_order_id@,
    ensures
        i < j,
        snapshot.orders@[k].client_order_id@ != snapshot.orders@[l].client_order_id@,
{
    let open = open_only(orders@);
    let (from, to) = lemma_open_in_order(orders@, k, l);
    assert(shows(snapshot.orders@[k], open[k]));
    assert(shows(snapshot.orders@[l], open[l]));
    assert(orders@[from].client_order_id@ == orders@[i].client_order_id@);
    assert(orders@[to].client_order_id@ == orders@[j].client_order_id@);
    assert(from == i && to == j);
}

/// What is shown of an order depends on that order's own fields, each by itself: of
/// two orders, in whatever caches, the states show the same in a field exactly if the
/// orders agree in it.
pub proof fn law_shown_fields_are_independent(
    journal: &BusinessJournal,
    orders: &Vec<CachedOrder>,
    snapshot: CoreSnapshot,
    other_orders: &Vec<CachedOrder>,
    other_snapshot: CoreSnapshot,
    i: int,
    j: int,
    k: int,
    l: int,
)
    requires
        call_ensures(take_snapshot, (journal, orders), snapshot),
        call_ensures(take_snapshot, (journal, other_orders), other_snapshot),
        order_ids_differ(orders@),
        order_ids_differ(other_orders@),
        0 <= i < orders@.len(),
        0 <= j < other_orders@.len(),
        0 <= k < snapshot.orders@.len(),
        0 <= l < other_snapshot.orders@.len(),
        snapshot.orders@[k].client_order_id@ == orders@[i].client_order_id@,
        other_snapshot.orders@[l].client_order_id@ == other_orders@[j].client_order_id@,
    ensures
        snapshot.orders@[k].filled_quantity@ == other_snapshot.orders@[l].filled_quantity@
            <==> orders@[i].filled_quantity@ == other_orders@[j].filled_quantity@,
        snapshot.orders@[k].quantity@ == other_snapshot.orders@[l].quantity@
            <==> orders@[i].quantity@ == other_orders@[j].quantity@,
        snapshot.orders@[k].status@ == other_snapshot.orders@[l].status@ <==> orders@[i].status@
            == other_orders@[j].status@,
        snapshot.orders@[k].side@ == other_snapshot.orders@[l].side@ <==> orders@[i].side@
            == other_orders@[j].side@,
        snapshot.orders@[k].strategy_id@ == other_snapshot.orders@[l].strategy_id@
            <==> orders@[i].strategy_id@ == other_orders@[j].strategy_id@,
        snapshot.orders@[k].instrument_id@ == other_snapshot.orders@[l].instrument_id@
            <==> orders@[i].instrument_id@ == other_orders@[j].instrument_id@,
        orders@[i].price is Some && other_orders@[j].price is Some ==> (
        snapshot.orders@[k].price@ == other_snapshot.orders@[l].price@
            <==> orders@[i].price->0@ == other_orders@[j].price->0@),
{
    law_state_shows_orders_as_cached(journal, orders, snapshot);
    law_state_shows_orders_as_cached(journal, other_orders, other_snapshot);
    assert(snapshot.orders@[k].client_order_id@ == orders@[i].client_order_id@);
    assert(other_snapshot.orders@[l].client_order_id@ == other_orders@[j].client_order_id@);
}

/// The instruments of some orders are those that one of them is of.
proof fn lemma_instruments_of(orders: Seq<CachedOrder>, id: Seq<char>)
    ensures
        instruments_of(orders).contains(id) <==> exists|i: int|
            0 <= i < orders.len() && (#[trigger] orders[i]).instrument_id@ == id,
    decreases orders.len(),
{
    if orders.len() > 0 {
        let rest = orders.drop_last();
        lemma_instruments_of(rest, id);
        assert(orders[orders.len() - 1] == orders.last());
        if instruments_of(rest).contains(id) {
            let i = choose|i: int| 0 <= i < rest.len() && (#[trigger] rest[i]).instrument_id@ == id;
            assert(orders[i] == rest[i]);
        }
        if exists|i: int| 0 <= i < orders.len() && (#[trigger] orders[i]).instrument_id@ == id {
            let i = choose|i: int|
                0 <= i < orders.len() && (#[trigger] orders[i]).instrument_id@ == id;
            if i < rest.len() {
                assert(rest[i] == orders[i]);
            }
        }
    }
}

/// The instruments of some entries are those of their submissions.
proof fn lemma_admitted_instruments(entries: Seq<(u64, JournalEntry)>, id: Seq<char>)
    ensures
        admitted_instruments(entries).contains(id) <==> !"CANCEL:"@.is_prefix_of(id) && exists|
            i: int,
        |
            0 <= i < entries.len() && ((#[trigger] entries[i]).1 matches JournalEntry::Admission(
                record,
            ) && record.instrument_id@ == id),
    decreases entries.len(),
{
    if entries.len() > 0 {
        let rest = entries.drop_last();
        lemma_admitted_instruments(rest, id);
        assert(entries[entries.len() - 1] == entries.last());
        if exists|i: int|
            0 <= i < rest.len() && ((#[trigger] rest[i]).1 matches JournalEntry::Admission(record)
                && record.instrument_id@ == id) {
            let i = choose|i: int|
                0 <= i < rest.len() && ((#[trigger] rest[i]).1 matches JournalEntry::Admission(
                    record,
                ) && record.instrument_id@ == id);
            assert(entries[i] == rest[i]);
        }
        if exists|i: int|
            0 <= i < entries.len() && ((#[trigger] entries[i]).1 matches JournalEntry::Admission(
                record,
            ) && record.instrument_id@ == id) {
            let i = choose|i: int|
                0 <= i < entries.len() && ((#[trigger] entries[i]).1 matches JournalEntry::Admission(
                    record,
                ) && record.instrument_id@ == id);
            if i < rest.len() {
                assert(rest[i] == entries[i]);
            }
        }
    }
}

/// The state lists an instrument exactly if an open order is of it or a submission
/// in the journal was for it: once, and in ascending order. Cancel requests are for
/// none.
pub proof fn law_state_lists_every_instrument_once(
    journal: &BusinessJournal,
    orders: &Vec<CachedOrder>,
    snapshot: CoreSnapshot,
    admitted: Vec<String>,
    id: Seq<char>,
)
    requires
        call_ensures(take_snapshot, (journal, orders), snapshot),
        call_ensures(journal_instrument_ids, (journal,), admitted),
        journal@.intact(),
    ensures
        (exists|k: int|
            0 <= k < admitted@.len() && (#[trigger] admitted@[k])@ == id) <==> !"CANCEL:"@.is_prefix_of(
            id,
        ) && exists|i: int|
            0 <= i < journal@.rows.len() && ((
            #[trigger] journal@.rows[i]).stored matches StoredRow::Entry(
                JournalEntry::Admission(record),
            ) && record.instrument_id@ == id),
        (exists|k: int|
            0 <= k < snapshot.instrument_ids@.len() && (#[trigger] snapshot.instrument_ids@[k])@
                == id) <==> (exists|k: int|
            0 <= k < admitted@.len() && (#[trigger] admitted@[k])@ == id) || exists|i: int|
            0 <= i < orders@.len() && !(#[trigger] orders@[i]).closed && orders@[i].instrument_id@
                == id,
        forall|k: int, l: int|
            0 <= k < l < snapshot.instrument_ids@.len() ==> precedes(
                (#[trigger] snapshot.instrument_ids@[k])@,
                (#[trigger] snapshot.instrument_ids@[l])@,
            ),
{
    let open = open_only(orders@);
    let entries = entries_after(journal@.rows, 0);
    law_scan_has_no_gaps(journal@, 0);
    lemma_admitted_instruments(entries, id);
    lemma_instruments_of(open, id);
    lemma_open_only(orders@);
    lemma_views_contain(admitted@, id);
    lemma_views_contain(snapshot.instrument_ids@, id);
    if exists|i: int|
        0 <= i < journal@.rows.len() && ((
        #[trigger] journal@.rows[i]).stored matches StoredRow::Entry(
            JournalEntry::Admission(record),
        ) && record.instrument_id@ == id) {
        let i = choose|i: int|
            0 <= i < journal@.rows.len() && ((
            #[trigger] journal@.rows[i]).stored matches StoredRow::Entry(
                JournalEntry::Admission(record),
            ) && record.instrument_id@ == id);
        assert(entries[i].1 == journal@.rows[0 + i].stored->Entry_0);
    }
    if exists|i: int|
        0 <= i < entries.len() && ((#[trigger] entries[i]).1 matches JournalEntry::Admission(record)
            && record.instrument_id@ == id) {
        let i = choose|i: int|
            0 <= i < entries.len() && ((#[trigger] entries[i]).1 matches JournalEntry::Admission(
                record,
            ) && record.instrument_id@ == id);
        assert(entries[i].1 == journal@.rows[0 + i].stored->Entry_0);
        assert(journal@.rows[i].stored is Entry);
    }
    if exists|i: int| 0 <= i < open.len() && (#[trigger] open[i]).instrument_id@ == id {
        let k = choose|k: int| 0 <= k < open.len() && (#[trigger] open[k]).instrument_id@ == id;
        let i = choose|i: int|
            0 <= i < orders@.len() && #[trigger] orders@[i] == open[k] && !orders@[i].closed;
        assert(orders@[i].instrument_id@ == id);
    }
    if exists|i: int|
        0 <= i < orders@.len() && !(#[trigger] orders@[i]).closed && orders@[i].instrument_id@
            == id {
        let i = choose|i: int|
            0 <= i < orders@.len() && !(#[trigger] orders@[i]).closed && orders@[i].instrument_id@
                == id;
        let k = choose|k: int| 0 <= k < open.len() && #[trigger] open[k] == orders@[i];
        assert(open[k].instrument_id@ == id);
    }
    assert forall|k: int, l: int| 0 <= k < l < snapshot.instrument_ids@.len() implies precedes(
        (#[trigger] snapshot.instrument_ids@[k])@,
        (#[trigger] snapshot.instrument_ids@[l])@,
    ) by {
        assert(views(snapshot.instrument_ids@)[k] == snapshot.instrument_ids@[k]@);
        assert(views(snapshot.instrument_ids@)[l] == snapshot.instrument_ids@[l]@);
    }
}

/// A text is among some strings.
proof fn lemma_views_contain(texts: Seq<String>, id: Seq<char>)
    ensures
        views(texts).to_set().contains(id) <==> exists|k: int|
            0 <= k < texts.len() && (#[trigger] texts[k])@ == id,
{
    if views(texts).to_set().contains(id) {
        assert(views(texts).contains(id));
        let k = choose|k: int| 0 <= k < views(texts).len() && views(texts)[k] == id;
        assert(texts[k]@ == id);
    }
    if exists|k: int| 0 <= k < texts.len() && (#[trigger] texts[k])@ == id {
        let k = choose|k: int| 0 <= k < texts.len() && (#[trigger] texts[k])@ == id;
        assert(views(texts)[k] == id);
    }
}

/// The answer to a request for the state can be read back: the numbers are those of
/// the snapshot, it is writable exactly if the hub is ready, and it shows an order
/// exactly if the submitter may act for the order's strategy.
pub proof fn law_state_response_reads_back(
    snapshot: CoreSnapshot,
    found: &Vec<InstrumentInfo>,
    gate: &ReadinessGate,
    credentials: &SubmitterCredentials,
    r: GetStateResponse,
    order: OrderView,
    info: InstrumentInfo,
)
    requires
        call_ensures(state_response, (snapshot, found, gate, credentials), r),
    ensures
        parsed(r.journal_epoch@, u64::MAX as nat) == Some(snapshot.epoch as nat),
        parsed(r.state_cursor@, u64::MAX as nat) == Some(snapshot.cursor as nat),
        r.writable <==> gate.state() == Readiness::Ready,
        r.readiness@ == (match gate.state() {
            Readiness::Booting => "booting"@,
            Readiness::Restoring => "restoring"@,
            Readiness::Ready => "ready"@,
            Readiness::Halted => "halted"@,
        }),
        r.active_orders@.contains(order) <==> snapshot.orders@.contains(order) && exists|i: int|
            0 <= i < credentials.strategies@.len() && (#[trigger] credentials.strategies@[i])@
                == order.strategy_id@,
        r.instruments@.contains(info) ==> found@.contains(info) && exists|k: int|
            0 <= k < snapshot.instrument_ids@.len() && (#[trigger] snapshot.instrument_ids@[k])@
                == info.instrument_id@,
{
    lemma_parsed_numeral(snapshot.epoch as nat, u64::MAX as nat);
    lemma_parsed_numeral(snapshot.cursor as nat, u64::MAX as nat);
    law_state_shows_own_orders(snapshot.orders@, *credentials, order);
    law_state_shows_defined_instruments(views(snapshot.instrument_ids@), found@, info);
    lemma_views_contain(snapshot.instrument_ids@, info.instrument_id@);
    if views(snapshot.instrument_ids@).contains(info.instrument_id@) {
        assert(views(snapshot.instrument_ids@).to_set().contains(info.instrument_id@));
    }
}

/// The first definition of an instrument is the one that counts.
proof fn lemma_first_definition(found: Seq<InstrumentInfo>, at: int)
    requires
        0 <= at < found.len(),
        forall|i: int|
            0 <= i < at ==> (#[trigger] found[i]).instrument_id@ != found[at].instrument_id@,
    ensures
        definition_of(found[at].instrument_id@, found) == Some(found[at]),
    decreases found.len(),
{
    let rest = found.drop_last();
    let id = found[at].instrument_id@;
    if at < rest.len() {
        assert forall|i: int| 0 <= i < at implies (#[trigger] rest[i]).instrument_id@
            != rest[at].instrument_id@ by {
            assert(found[i].instrument_id@ != id);
        }
        assert(rest[at] == found[at]);
        lemma_first_definition(rest, at);
    } else {
        assert forall|i: int| 0 <= i < rest.len() implies (#[trigger] rest[i]).instrument_id@
            != id by {
            assert(found[i].instrument_id@ != id);
        }
        lemma_no_definition(rest, id);
    }
}

/// What no definition is of has none.
proof fn lemma_no_definition(found: Seq<InstrumentInfo>, id: Seq<char>)
    requires
        forall|i: int| 0 <= i < found.len() ==> (#[trigger] found[i]).instrument_id@ != id,
    ensures
        definition_of(id, found) is None,
    decreases found.len(),
{
    if found.len() > 0 {
        let rest = found.drop_last();
        assert forall|i: int| 0 <= i < rest.len() implies (#[trigger] rest[i]).instrument_id@
            != id by {
            assert(found[i].instrument_id@ != id);
        }
        assert(found[found.len() - 1].instrument_id@ != id);
        lemma_no_definition(rest, id);
    }
}

/// What is shown of instruments in ascending order is in ascending order.
proof fn lemma_shown_in_order(ids: Seq<Seq<char>>, found: Seq<InstrumentInfo>)
    requires
        forall|k: int, l: int|
            0 <= k < l < ids.len() ==> precedes(#[trigger] ids[k], #[trigger] ids[l]),
    ensures
        forall|k: int, l: int|
            0 <= k < l < shown_instruments(ids, found).len() ==> precedes(
                (#[trigger] shown_instruments(ids, found)[k]).instrument_id@,
                (#[trigger] shown_instruments(ids, found)[l]).instrument_id@,
            ),
    decreases ids.len(),
{
    if ids.len() > 0 {
        let rest = ids.drop_last();
        let before = shown_instruments(rest, found);
        let shown = shown_instruments(ids, found);
        assert forall|k: int, l: int| 0 <= k < l < rest.len() implies precedes(
            #[trigger] rest[k],
            #[trigger] rest[l],
        ) by {
            assert(precedes(ids[k], ids[l]));
        }
        lemma_shown_in_order(rest, found);
        assert forall|k: int, l: int| 0 <= k < l < shown.len() implies precedes(
            (#[trigger] shown[k]).instrument_id@,
            (#[trigger] shown[l]).instrument_id@,
        ) by {
            assert(shown[k] == before[k]);
            law_state_shows_defined_instruments(rest, found, before[k]);
            assert(before.contains(before[k]));
            let at = choose|at: int| 0 <= at < rest.len() && rest[at] == before[k].instrument_id@;
            assert(ids[at] == rest[at]);
            if l < before.len() {
                assert(shown[l] == before[l]);
            } else {
                law_state_shows_defined_instruments(ids, found, shown[l]);
                assert(definition_of(ids.last(), found) == Some(shown[l]));
                lemma_definition_is_of(ids.last(), found);
                assert(precedes(ids[at], ids[ids.len() - 1]));
            }
        }
    }
}

/// A definition is of the instrument that it was looked up for.
proof fn lemma_definition_is_of(id: Seq<char>, found: Seq<InstrumentInfo>)
    ensures
        definition_of(id, found) matches Some(info) ==> info.instrument_id@ == id,
    decreases found.len(),
{
    if found.len() > 0 {
        lemma_definition_is_of(id, found.drop_last());
    }
}

/// The state shows every instrument that is listed and whose definition was found, by
/// the first definition of it, and in the order of the list.
pub proof fn law_state_shows_what_was_found(
    snapshot: CoreSnapshot,
    found: &Vec<InstrumentInfo>,
    gate: &ReadinessGate,
    credentials: &SubmitterCredentials,
    r: GetStateResponse,
    at: int,
)
    requires
        call_ensures(state_response, (snapshot, found, gate, credentials), r),
        0 <= at < found@.len(),
        forall|i: int|
            0 <= i < at ==> (#[trigger] found@[i]).instrument_id@ != found@[at].instrument_id@,
    ensures
        (exists|k: int|
            0 <= k < snapshot.instrument_ids@.len() && (#[trigger] snapshot.instrument_ids@[k])@
                == found@[at].instrument_id@) ==> r.instruments@.contains(found@[at]),
        (forall|k: int, l: int|
            0 <= k < l < snapshot.instrument_ids@.len() ==> precedes(
                (#[trigger] snapshot.instrument_ids@[k])@,
                (#[trigger] snapshot.instrument_ids@[l])@,
            )) ==> forall|k: int, l: int|
            0 <= k < l < r.instruments@.len() ==> precedes(
                (#[trigger] r.instruments@[k]).instrument_id@,
                (#[trigger] r.instruments@[l]).instrument_id@,
            ),
{
    let ids = views(snapshot.instrument_ids@);
    lemma_first_definition(found@, at);
    law_state_shows_defined_instruments(ids, found@, found@[at]);
    if exists|k: int|
        0 <= k < snapshot.instrument_ids@.len() && (#[trigger] snapshot.instrument_ids@[k])@
            == found@[at].instrument_id@ {
        let k = choose|k: int|
            0 <= k < snapshot.instrument_ids@.len() && (#[trigger] snapshot.instrument_ids@[k])@
                == found@[at].instrument_id@;
        assert(ids[k] == found@[at].instrument_id@);
    }
    if forall|k: int, l: int|
        0 <= k < l < snapshot.instrument_ids@.len() ==> precedes(
            (#[trigger] snapshot.instrument_ids@[k])@,
            (#[trigger] snapshot.instrument_ids@[l])@,
        ) {
        assert forall|k: int, l: int| 0 <= k < l < ids.len() implies precedes(
            #[trigger] ids[k],
            #[trigger] ids[l],
        ) by {
            assert(precedes(snapshot.instrument_ids@[k]@, snapshot.instrument_ids@[l]@));
        }
        lemma_shown_in_order(ids, found@);
    }
}

/// The visible orders keep their order.
proof fn lemma_visible_in_order(
    orders: Seq<OrderView>,
    credentials: SubmitterCredentials,
    k: int,
    l: int,
) -> (r: (int, int))
    requires
        0 <= k < l < visible_orders(orders, credentials).len(),
    ensures
        0 <= r.0 < r.1 < orders.len(),
        orders[r.0] == visible_orders(orders, credentials)[k],
        orders[r.1] == visible_orders(orders, credentials)[l],
    decreases orders.len(),
{
    let rest = orders.drop_last();
    let before = visible_orders(rest, credentials);
    assert(orders[orders.len() - 1] == orders.last());
    if l < before.len() {
        let (i, j) = lemma_visible_in_order(rest, credentials, k, l);
        assert(orders[i] == rest[i] && orders[j] == rest[j]);
        (i, j)
    } else {
        law_state_shows_own_orders(rest, credentials, before[k]);
        assert(before.contains(before[k]));
        let i = choose|i: int| 0 <= i < rest.len() && rest[i] == before[k];
        assert(orders[i] == rest[i]);
        (i, orders.len() - 1)
    }
}

/// A submitter is shown the own orders in the order of the state, and none that the
/// state has once is shown twice.
pub proof fn law_own_orders_keep_their_order(
    snapshot: CoreSnapshot,
    found: &Vec<InstrumentInfo>,
    gate: &ReadinessGate,
    credentials: &SubmitterCredentials,
    r: GetStateResponse,
    k: int,
    l: int,
)
    requires
        call_ensures(state_response, (snapshot, found, gate, credentials), r),
        0 <= k < l < r.active_orders@.len(),
    ensures
        exists|i: int, j: int|
            #![trigger snapshot.orders@[i], snapshot.orders@[j]]
            0 <= i < j < snapshot.orders@.len() && snapshot.orders@[i] == r.active_orders@[k]
                && snapshot.orders@[j] == r.active_orders@[l],
{
    let (i, j) = lemma_visible_in_order(snapshot.orders@, *credentials, k, l);
    assert(snapshot.orders@[i] == r.active_orders@[k]);
    assert(snapshot.orders@[j] == r.active_orders@[l]);
}

// ---------------------------------------------------------------------------
// Registry
// ---------------------------------------------------------------------------

/// A registry is made exactly if no token occurs twice; else the submitter is named
/// whose token is the first to occur again.
pub proof fn law_registry_names_the_first_repeat(
    submitters: Vec<SubmitterCredentials>,
    r: Result<SubmitterRegistry, String>,
    first: int,
    again: int,
)
    requires
        call_ensures(SubmitterRegistry::try_new, (submitters,), r),
    ensures
        r matches Ok(registry) ==> registry@ == submitters@,
        0 <= first < again < submitters@.len() && submitters@[first].token@
            == submitters@[again].token@ ==> r is Err,
        0 <= first < again < submitters@.len() && submitters@[first].token@
            == submitters@[again].token@ && (forall|i: int, j: int|
            0 <= i < j < again ==> (#[trigger] submitters@[i]).token@ != (
            #[trigger] submitters@[j]).token@) ==> (r matches Err(id) && id@
            == submitters@[again].submitter_id@),
        (forall|i: int, j: int|
            0 <= i < j < submitters@.len() ==> (#[trigger] submitters@[i]).token@ != (
            #[trigger] submitters@[j]).token@) ==> r is Ok,
{
    if let Err(id) = r {
        let index = choose|index: int| #[trigger]
            first_repeat(submitters@, index) && id@ == submitters@[index].submitter_id@;
        let before = submitters@.take(index);
        if 0 <= first < again < index {
            assert(before[first].token@ != before[again].token@);
        }
    }
}

// ---------------------------------------------------------------------------
// Submissions
// ---------------------------------------------------------------------------

/// What a submission becomes is what it asks for, on behalf of the submitter whose
/// token it carries, whatever it calls that submitter itself: side and time in force
/// by their names, quantity and price in the notation of the execution chain. Recorded
/// in the journal, it still has the names that it came with.
pub proof fn law_submission_becomes_what_it_asks_for(
    registry: &SubmitterRegistry,
    header: Option<&str>,
    req: SubmitOrderRequest,
    made: LimitOrderRequest,
    record: AdmissionRecord,
    ts_init_ns: u64,
)
    requires
        registry.wf(),
        call_ensures(submit_intake, (registry, header, req), SubmitIntake::Request(made)),
        is_submission(record, made, ts_init_ns),
    ensures
        header matches Some(text) && exists|i: int|
            0 <= i < registry@.len() && text@ == "Bearer "@ + (#[trigger] registry@[i]).token@
                && made.submitter_id@ == registry@[i].submitter_id@ && exists|j: int|
                0 <= j < registry@[i].strategies@.len() && (
                #[trigger] registry@[i].strategies@[j])@ == req.strategy_id@,
        made.request_id@ == req.request_id@,
        made.strategy_id@ == req.strategy_id@,
        made.instrument_id@ == req.instrument_id@,
        made.side == OrderSide::Buy <==> req.side@ == "BUY"@,
        made.side == OrderSide::Sell <==> req.side@ == "SELL"@,
        canonical_quantity(req.quantity@) == Some(made.quantity@),
        canonical_price(req.price@) == Some(made.price@),
        made.time_in_force == TimeInForce::Gtc <==> req.time_in_force@ == "GTC"@,
        made.time_in_force == TimeInForce::Ioc <==> req.time_in_force@ == "IOC"@,
        made.time_in_force == TimeInForce::Fok <==> req.time_in_force@ == "FOK"@,
        made.time_in_force == TimeInForce::Day <==> req.time_in_force@ == "DAY"@,
        made.post_only == req.post_only,
        made.reduce_only == req.reduce_only,
        made.client_id is None,
        made.submit_before_ns == req.submit_before_ns,
        record.submitter_id@ == made.submitter_id@,
        record.request_id@ == req.request_id@,
        record.strategy_id@ == req.strategy_id@,
        record.instrument_id@ == req.instrument_id@,
        record.order_side@ == req.side@,
        record.time_in_force@ == req.time_in_force@,
        Some(record.quantity@) == canonical_quantity(req.quantity@),
        Some(record.price@) == canonical_price(req.price@),
        record.post_only == req.post_only,
        record.reduce_only == req.reduce_only,
        record.submit_before_ns == req.submit_before_ns,
{
    reveal_strlit("");
    reveal_strlit("BUY");
    reveal_strlit("SELL");
    reveal_strlit("GTC");
    reveal_strlit("IOC");
    reveal_strlit("FOK");
    reveal_strlit("DAY");
    reveal_strlit("Bearer ");
    assert("BUY"@.len() == 3 && "SELL"@.len() == 4);
    assert("GTC"@[0] == 'G' && "IOC"@[0] == 'I' && "FOK"@[0] == 'F' && "DAY"@[0] == 'D');
    let credentials = choose|credentials: SubmitterCredentials| #[trigger]
        header_identifies(registry@, header_text(header), credentials) && credentials.covers(
            req.strategy_id@,
        ) && made.submitter_id@ == credentials.submitter_id@;
    let i = choose|i: int| 0 <= i < registry@.len() && registry@[i] == credentials;
    assert(registry@[i] == credentials);
    assert(header_text(header).len() >= 7);
}

/// A submission is refused for want of permission exactly if its token is that of no
/// submitter, or of one who may not act for its strategy; of the others those are
/// refused whose side or time in force has no such name.
pub proof fn law_submissions_are_refused_for_cause(
    registry: &SubmitterRegistry,
    header: Option<&str>,
    req: SubmitOrderRequest,
    r: SubmitIntake,
    i: int,
)
    requires
        registry.wf(),
        call_ensures(submit_intake, (registry, header, req), r),
        0 <= i < registry@.len(),
    ensures
        header is None ==> (r matches SubmitIntake::Refused(status) && status.code
            == StatusCode::PermissionDenied),
        header matches Some(text) ==> (text@ == "Bearer "@ + registry@[i].token@ ==> {
            let own = exists|j: int|
                0 <= j < registry@[i].strategies@.len() && (
                #[trigger] registry@[i].strategies@[j])@ == req.strategy_id@;
            &&& !own ==> (r matches SubmitIntake::Refused(status) && status.code
                == StatusCode::PermissionDenied && status.message@
                == "strategy not authorized for this submitter"@)
            &&& own && req.side@ != "BUY"@ && req.side@ != "SELL"@ ==> (
            r matches SubmitIntake::Refused(status) && status.code == StatusCode::InvalidArgument
                && status.message@ == "invalid side "@ + req.side@)
            &&& own && (req.side@ == "BUY"@ || req.side@ == "SELL"@) && req.time_in_force@
                != "GTC"@ && req.time_in_force@ != "IOC"@ && req.time_in_force@ != "FOK"@
                && req.time_in_force@ != "DAY"@ ==> (r matches SubmitIntake::Refused(status)
                && status.code == StatusCode::InvalidArgument && status.message@
                == "invalid time_in_force "@ + req.time_in_force@)
            &&& r matches SubmitIntake::Refused(status) ==> (status.code
                == StatusCode::PermissionDenied ==> !own)
        }),
{
    reveal_strlit("Bearer ");
    if let Some(text) = header {
        if text@ == "Bearer "@ + registry@[i].token@ {
            assert(header_identifies(registry@, header_text(header), registry@[i]));
            assert forall|credentials: SubmitterCredentials| #[trigger]
                header_identifies(registry@, header_text(header), credentials) implies credentials
                == registry@[i] by {
                let j = choose|j: int| 0 <= j < registry@.len() && registry@[j] == credentials;
                let n = "Bearer "@.len() as int;
                assert(text@.skip(n) =~= credentials.token@);
                assert(text@.skip(n) =~= registry@[i].token@);
                law_token_identifies_one_submitter(*registry, i, j);
            }
        }
    } else {
        assert forall|credentials: SubmitterCredentials| !#[trigger] header_identifies(
            registry@,
            header_text(header),
            credentials,
        ) by {
            assert(("Bearer "@ + credentials.token@).len() >= 7);
        }
    }
}

/// A token opens exactly the door of its submitter.
pub proof fn law_token_authenticates_its_submitter(
    registry: &SubmitterRegistry,
    header: Option<&str>,
    r: Result<&SubmitterCredentials, Status>,
    i: int,
)
    requires
        registry.wf(),
        call_ensures(authenticate, (registry, header), r),
        0 <= i < registry@.len(),
    ensures
        header matches Some(text) ==> (text@ == "Bearer "@ + registry@[i].token@ ==> (r matches Ok(
            credentials,
        ) && *credentials == registry@[i])),
        r matches Ok(credentials) ==> registry@.contains(*credentials) && (header matches Some(text)
            && text@ == "Bearer "@ + credentials.token@),
        r matches Err(status) ==> status.code == StatusCode::PermissionDenied,
{
    reveal_strlit("Bearer ");
    if let Ok(credentials) = r {
        assert(("Bearer "@ + credentials.token@).len() >= 7);
        let j = choose|j: int| 0 <= j < registry@.len() && registry@[j] == *credentials;
        let n = "Bearer "@.len() as int;
        if let Some(text) = header {
            if text@ == "Bearer "@ + registry@[i].token@ {
                assert(text@.skip(n) =~= credentials.token@);
                assert(text@.skip(n) =~= registry@[i].token@);
                law_token_identifies_one_submitter(*registry, i, j);
            }
        }
    }
}

// ---------------------------------------------------------------------------
// Answers
// ---------------------------------------------------------------------------

/// The answers to a submission and to a cancel request can be read back into the
/// receipt, and tell the two kinds of request apart.
pub proof fn law_answers_read_back(
    receipt: AdmissionReceipt,
    client_order_id: &str,
    submitted: AdmissionResponse,
    cancelled: AdmissionResponse,
)
    requires
        call_ensures(submit_response, (&receipt,), submitted),
        call_ensures(cancel_response, (&receipt, client_order_id), cancelled),
    ensures
        parsed(submitted.journal_epoch@, u64::MAX as nat) == Some(receipt.journal_epoch as nat),
        parsed(submitted.seq@, u64::MAX as nat) == Some(receipt.seq as nat),
        submitted.client_order_id@ == receipt.client_order_id@,
        submitted.already_admitted == receipt.already_admitted,
        parsed(cancelled.journal_epoch@, u64::MAX as nat) == Some(receipt.journal_epoch as nat),
        parsed(cancelled.seq@, u64::MAX as nat) == Some(receipt.seq as nat),
        cancelled.client_order_id@ == client_order_id@,
        cancelled.already_admitted == receipt.already_admitted,
        submitted.result@ == "ADMITTED"@,
        cancelled.result@ == "CANCEL_INTENT_ACCEPTED"@,
        submitted.reason@.len() == 0,
        cancelled.reason@.len() == 0,
{
    lemma_parsed_numeral(receipt.journal_epoch as nat, u64::MAX as nat);
    lemma_parsed_numeral(receipt.seq as nat, u64::MAX as nat);
}

/// A failure is answered by its kind: a conflict as a request that exists already, an
/// order that cannot be had as a wrong argument, anything else as an internal failure.
/// The answer says what the failure says.
pub proof fn law_failures_are_answered_by_kind(
    error: BridgeError,
    submitted: Status,
    cancelled: Status,
    text: String,
)
    requires
        call_ensures(submit_status, (&error,), submitted),
        call_ensures(cancel_status, (&error,), cancelled),
        call_ensures(BridgeError::message, (&error,), text),
    ensures
        submitted.code == StatusCode::AlreadyExists <==> error is IdempotencyConflict,
        submitted.code == StatusCode::InvalidArgument <==> error is Order,
        submitted.code == StatusCode::Internal <==> !(error is IdempotencyConflict
            || error is Order),
        error matches BridgeError::Order(reason) ==> submitted.message@ == reason@,
        !(error is Order) ==> submitted.message@ == text@,
        cancelled.code == StatusCode::AlreadyExists <==> error is IdempotencyConflict,
        cancelled.code == StatusCode::Internal <==> !(error is IdempotencyConflict),
        cancelled.message@ == text@,
        error matches BridgeError::Journal(reason) ==> text@ == "journal error: "@ + reason@,
        error matches BridgeError::Order(reason) ==> text@ == "order construction error: "@
            + reason@,
        error matches BridgeError::Cache(reason) ==> text@ == "cache registration error: "@
            + reason@,
        error matches BridgeError::NotReady { state, reason } ==> text@ == "order hub not ready ("@
            + state@ + "): "@ + reason@,
        error matches BridgeError::IdempotencyConflict {
            submitter_id,
            request_id,
            original_fingerprint,
            new_fingerprint,
        } ==> text@ == "idempotency conflict for key "@ + submitter_id@ + "|SubmitOrder|"@
            + request_id@,
{
}

// ---------------------------------------------------------------------------
// Events
// ---------------------------------------------------------------------------

/// An event can be read back into its entry: its number, the epoch, and what the
/// entry says, each under its own name. The outcomes of different kinds have different
/// names.
pub proof fn law_event_tells_its_entry(
    epoch: u64,
    seq: u64,
    entry: JournalEntry,
    event: JournalEvent,
)
    requires
        call_ensures(event_of, (epoch, seq, &entry), event),
    ensures
        parsed(event.seq@, u64::MAX as nat) == Some(seq as nat),
        parsed(event.journal_epoch@, u64::MAX as nat) == Some(epoch as nat),
        entry matches JournalEntry::Admission(record) ==> (event.kind matches EventKind::Admission {
            submitter_id,
            request_id,
            strategy_id,
            instrument_id,
            request_kind,
        } && submitter_id@ == record.submitter_id@ && request_id@ == record.request_id@
            && strategy_id@ == record.strategy_id@ && instrument_id@ == record.instrument_id@
            && request_kind@ == "SubmitOrder"@),
        entry matches JournalEntry::Outcome { origin_seq, outcome } ==> (
        event.kind matches EventKind::Outcome {
            origin_seq: origin,
            client_order_id,
            outcome: name,
            reason,
        } && parsed(origin@, u64::MAX as nat) == Some(origin_seq as nat) && match outcome {
            JournalOutcome::Admitted { client_order_id: id } => name@ == "ADMITTED"@
                && client_order_id@ == id@ && reason@.len() == 0,
            JournalOutcome::DispatchStarted { client_order_id: id } => name@
                == "DISPATCH_STARTED"@ && client_order_id@ == id@ && reason@.len() == 0,
            JournalOutcome::Denied { reason: why } => name@ == "DENIED"@ && reason@ == why@
                && client_order_id@.len() == 0,
            JournalOutcome::Filled { client_order_id: id, filled_qty } => name@ == "FILLED"@
                && client_order_id@ == id@ && reason@.len() == 0,
            JournalOutcome::Canceled { client_order_id: id } => name@ == "CANCELED"@
                && client_order_id@ == id@ && reason@.len() == 0,
        }),
{
    lemma_parsed_numeral(epoch as nat, u64::MAX as nat);
    lemma_parsed_numeral(seq as nat, u64::MAX as nat);
    if let JournalEntry::Outcome { origin_seq, outcome } = entry {
        lemma_parsed_numeral(origin_seq as nat, u64::MAX as nat);
    }
}

/// A follower that goes on from the cursor that it was given sees the journal as it
/// is: one event for each entry behind the cursor, in order, each with the number of
/// its entry and with what it says; then the cursor is at the end. Where there is
/// nothing new it is told so, and the cursor stays.
pub proof fn law_follower_is_told_every_entry(
    journal: &BusinessJournal,
    after: u64,
    step: WatchStep,
    i: int,
)
    requires
        call_ensures(watch_step, (journal, after), step),
        journal@.intact(),
    ensures
        after >= journal@.last_seq ==> (step matches WatchStep::Progress { event, cursor } && cursor
            == after && (event.kind matches EventKind::Progress { state_cursor } && parsed(
            state_cursor@,
            u64::MAX as nat,
        ) == Some(after as nat))),
        after < journal@.last_seq ==> {
            &&& step matches WatchStep::Events { events, cursor }
            &&& cursor == journal@.last_seq
            &&& events@.len() == journal@.last_seq - after
            &&& 0 <= i < events@.len() ==> {
                &&& parsed(events@[i].seq@, u64::MAX as nat) == Some((after + 1 + i) as nat)
                &&& parsed(events@[i].journal_epoch@, u64::MAX as nat) == Some(
                    journal@.epoch as nat,
                )
                &&& journal@.rows[after + i].stored matches StoredRow::Entry(
                    JournalEntry::Admission(record),
                ) ==> (events@[i].kind matches EventKind::Admission {
                    submitter_id,
                    request_id,
                    strategy_id,
                    instrument_id,
                    request_kind,
                } && submitter_id@ == record.submitter_id@ && request_id@ == record.request_id@
                    && strategy_id@ == record.strategy_id@ && instrument_id@
                    == record.instrument_id@ && request_kind@ == "SubmitOrder"@)
                &&& journal@.rows[after + i].stored matches StoredRow::Entry(
                    JournalEntry::Outcome { origin_seq, outcome },
                ) ==> (events@[i].kind matches EventKind::Outcome {
                    origin_seq: origin,
                    client_order_id,
                    outcome: name,
                    reason,
                } && parsed(origin@, u64::MAX as nat) == Some(origin_seq as nat) && match outcome {
                    JournalOutcome::Admitted { client_order_id: id } => name@ == "ADMITTED"@
                        && client_order_id@ == id@,
                    JournalOutcome::DispatchStarted { client_order_id: id } => name@
                        == "DISPATCH_STARTED"@ && client_order_id@ == id@,
                    JournalOutcome::Denied { reason: why } => name@ == "DENIED"@ && reason@
                        == why@,
                    JournalOutcome::Filled { client_order_id: id, filled_qty } => name@
                        == "FILLED"@ && client_order_id@ == id@,
                    JournalOutcome::Canceled { client_order_id: id } => name@ == "CANCELED"@
                        && client_order_id@ == id@,
                })
            }
        },
{
    law_follower_sees_every_entry_once(journal@, after, step);
    lemma_parsed_numeral(journal@.epoch as nat, u64::MAX as nat);
    lemma_parsed_numeral(after as nat, u64::MAX as nat);
    if after < journal@.last_seq && 0 <= i < journal@.last_seq - after {
        let events = step->events@;
        let entry = journal@.rows[after + i].stored->Entry_0;
        assert(tells(events[i], journal@.epoch, (after + 1 + i) as u64, entry));
        lemma_parsed_numeral((after + 1 + i) as nat, u64::MAX as nat);
        if let JournalEntry::Outcome { origin_seq, outcome } = entry {
            lemma_parsed_numeral(origin_seq as nat, u64::MAX as nat);
        }
    }
}

/// The entries behind a cursor hold an entry for each readable row behind it, and are
/// unreadable if such a row is.
proof fn lemma_scanned_rows(rows: Seq<Row>, after: u64)
    ensures
        scanned(rows, after) is Err <==> exists|i: int|
            0 <= i < rows.len() && (#[trigger] rows[i]).seq > after && rows[i].stored is Unreadable,
        scanned(rows, after) matches Ok(entries) ==> (entries.len() == 0 <==> forall|i: int|
            0 <= i < rows.len() ==> (#[trigger] rows[i]).seq <= after),
    decreases rows.len(),
{
    if rows.len() > 0 {
        let rest = rows.drop_last();
        lemma_scanned_rows(rest, after);
        assert(rows[rows.len() - 1] == rows.last());
        assert forall|i: int| 0 <= i < rest.len() implies #[trigger] rest[i] == rows[i] by {}
        if scanned(rest, after) is Err {
            let i = choose|i: int|
                0 <= i < rest.len() && (#[trigger] rest[i]).seq > after
                    && rest[i].stored is Unreadable;
            assert(rows[i] == rest[i]);
        } else {
            if exists|i: int|
                0 <= i < rows.len() && (#[trigger] rows[i]).seq > after
                    && rows[i].stored is Unreadable {
                let i = choose|i: int|
                    0 <= i < rows.len() && (#[trigger] rows[i]).seq > after
                        && rows[i].stored is Unreadable;
                if i < rest.len() {
                    assert(rest[i] == rows[i]);
                }
            }
            if forall|i: int| 0 <= i < rest.len() ==> (#[trigger] rest[i]).seq <= after {
                assert forall|i: int| 0 <= i < rest.len() implies (#[trigger] rows[i]).seq
                    <= after by {
                    assert(rest[i].seq <= after);
                }
            } else {
                let i = choose|i: int| 0 <= i < rest.len() && (#[trigger] rest[i]).seq > after;
                assert(rows[i].seq > after);
            }
        }
    }
}

/// A follower is told of a failure exactly if an entry behind the cursor cannot be
/// read; of progress, up to the end of the journal and never back, exactly if there is
/// none; and else of the entries.
pub proof fn law_follower_is_never_sent_back(
    journal: &BusinessJournal,
    after: u64,
    step: WatchStep,
)
    requires
        call_ensures(watch_step, (journal, after), step),
    ensures
        step is Failed <==> exists|i: int|
            0 <= i < journal@.rows.len() && (#[trigger] journal@.rows[i]).seq > after
                && journal@.rows[i].stored is Unreadable,
        step matches WatchStep::Failed(status) ==> status.code == StatusCode::Internal,
        step is Progress <==> forall|i: int|
            0 <= i < journal@.rows.len() ==> (#[trigger] journal@.rows[i]).seq <= after,
        step matches WatchStep::Progress { event, cursor } ==> {
            &&& after <= cursor
            &&& journal@.last_seq <= cursor
            &&& cursor == after || cursor == journal@.last_seq
            &&& parsed(event.seq@, u64::MAX as nat) == Some(cursor as nat)
            &&& event.kind matches EventKind::Progress { state_cursor }
            &&& parsed(state_cursor@, u64::MAX as nat) == Some(cursor as nat)
        },
{
    lemma_scanned_rows(journal@.rows, after);
    if let WatchStep::Progress { event, cursor } = step {
        lemma_parsed_numeral(cursor as nat, u64::MAX as nat);
    }
}

/// A cursor that was told can be asked for: the number of an event reads back into
/// the cursor of the next request.
pub proof fn law_told_cursor_can_be_asked_for(cursor: u64, text: &str, r: Result<u64, Status>)
    requires
        text@ == numeral(cursor as nat),
        call_ensures(parse_cursor, (text,), r),
    ensures
        r == Ok::<u64, Status>(cursor),
{
    lemma_parsed_numeral(cursor as nat, u64::MAX as nat);
}

} // verus!
