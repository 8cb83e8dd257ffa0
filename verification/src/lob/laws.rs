//! What holds of every depth book, proved of the state machine.
//!
//! Two predicates describe the books these laws speak of.  A book `runs`
//! when it is valid, its buffered deltas carry ids in stream order, and the
//! drain stopped at a gap: that is what `fresh` gives and every update keeps.
//! A book is `tidy` when all its levels, buffered ones included, lie on the
//! tick grid in strict side order.

use crate::common::{Id, Level};
use crate::lob::merge::{capped, capped_tidy, tidy, updated, updated_tidy};
use crate::lob::model::{
    find_first_id, keyed, put, put_back, put_commutes, put_head, put_keyed, BookState,
    DepthUpdateError,
};
use crate::structure::{DeltaView, MDResponseView, Side, SnapshotView};
use vstd::prelude::*;

verus! {

impl DeltaView {
    /// Both diffs lie on the tick grid in strict side order.
    pub open spec fn tidy(self, tick: crate::common::Price) -> bool {
        tidy(self.buy, Side::Buy, tick) && tidy(self.sell, Side::Sell, tick)
    }
}

impl SnapshotView {
    /// Both ladders lie on the tick grid in strict side order.
    pub open spec fn tidy(self, tick: crate::common::Price) -> bool {
        tidy(self.buy, Side::Buy, tick) && tidy(self.sell, Side::Sell, tick)
    }
}

impl MDResponseView {
    /// The levels a message carries lie on the tick grid in strict side
    /// order.
    pub open spec fn tidy(self, tick: crate::common::Price) -> bool {
        match self {
            MDResponseView::Delta(d) => d.tidy(tick),
            MDResponseView::Snapshot(s) => s.tidy(tick),
            _ => true,
        }
    }

    /// The ids of a delta follow the stream; other messages carry no such
    /// ids.
    pub open spec fn chained(self) -> bool {
        match self {
            MDResponseView::Delta(d) => d.chained(),
            _ => true,
        }
    }
}

impl BookState {
    /// Every buffered delta carries ids in stream order.
    pub open spec fn chained(self) -> bool {
        forall|i: int| 0 <= i < self.scheduled.len() ==> (#[trigger] self.scheduled[i]).chained()
    }

    /// The drain has stopped at a gap: the first buffered delta, if there is
    /// one, lies ahead of the book.
    pub open spec fn settled(self) -> bool {
        self.scheduled.len() > 0 ==> self.scheduled[0].last_stream.0 > self.last_applied.0
    }

    /// The books that updates with stream-ordered ids produce from a fresh
    /// one.
    pub open spec fn runs(self) -> bool {
        self.wf() && self.chained() && self.settled()
    }

    /// The price tick is positive and all levels of the book, buffered ones
    /// included, lie on its grid in strict side order.
    pub open spec fn tidy(self) -> bool {
        &&& self.precision.price.0 > 0
        &&& tidy(self.buy, Side::Buy, self.precision.price)
        &&& tidy(self.sell, Side::Sell, self.precision.price)
        &&& forall|i: int|
            0 <= i < self.scheduled.len() ==> (#[trigger] self.scheduled[i]).tidy(
                self.precision.price,
            )
    }

    /// The settings of a book, which no update changes.
    pub open spec fn same_settings(self, other: BookState) -> bool {
        &&& self.skip_limit == other.skip_limit
        &&& self.depth_limit == other.depth_limit
        &&& self.precision == other.precision
    }
}

/// A fresh book is valid, runs, and is tidy under a positive price tick.
pub proof fn fresh_runs(precision: crate::common::Precision, depth_limit: nat, skip_limit: Id)
    ensures
        BookState::fresh(precision, depth_limit, skip_limit).runs(),
        precision.price.0 > 0 ==> BookState::fresh(precision, depth_limit, skip_limit).tidy(),
{
}

/// Applying a diff keeps a book valid; with tidy levels on both sides it
/// keeps the ladders tidy.
pub proof fn add_diff_keeps(s: BookState, d: DeltaView)
    requires
        s.wf(),
    ensures
        s.add_diff(d).wf(),
        s.add_diff(d).scheduled == s.scheduled,
        s.add_diff(d).snapshot_requested == s.snapshot_requested,
        s.add_diff(d).same_settings(s),
        s.tidy() && d.tidy(s.precision.price) ==> s.add_diff(d).tidy(),
{
    if s.tidy() && d.tidy(s.precision.price) {
        updated_tidy(s.sell, d.sell, Side::Sell, s.precision, s.depth_limit);
        updated_tidy(s.buy, d.buy, Side::Buy, s.precision, s.depth_limit);
    }
}

/// What the drain of the buffer leaves behind, whatever it had noted before.
///
/// The book stays valid and keeps its settings.  With stream-ordered ids in
/// the buffer the book runs afterwards and has not moved backwards.  A drain
/// that ends without a gap has emptied the buffer, and every delta that was
/// in it then lies behind the book.  A book that waits for a snapshot still
/// waits and never asks again.  A tidy book stays tidy.
pub proof fn drain_keeps(s: BookState, noted: Option<DepthUpdateError>)
    requires
        s.wf(),
    ensures
        s.drain(noted).0.wf(),
        s.drain(noted).0.same_settings(s),
        s.snapshot_requested ==> s.drain(noted).0.snapshot_requested && (noted != Some(
            DepthUpdateError::DepthStale,
        ) ==> s.drain(noted).1 != Some(DepthUpdateError::DepthStale)),
        s.drain(noted).1 is None || s.drain(noted).1 == Some(DepthUpdateError::StaleUpdate)
            ==> s.drain(noted).0.scheduled.len() == 0,
        s.chained() ==> {
            &&& s.drain(noted).0.runs()
            &&& s.drain(noted).0.last_applied.0 >= s.last_applied.0
            &&& (s.drain(noted).0.scheduled.len() == 0 ==> forall|i: int|
                0 <= i < s.scheduled.len() ==> (#[trigger] s.scheduled[i]).last_stream.0 < s.drain(
                    noted,
                ).0.last_applied.0)
        },
        s.tidy() ==> s.drain(noted).0.tidy(),
    decreases s.scheduled.len(),
{
    if s.scheduled.len() > 0 {
        let d = s.scheduled[0];
        let p = s.popped();
        assert forall|i: int| 0 <= i < p.scheduled.len() implies #[trigger] p.scheduled[i]
            == s.scheduled[i + 1] by {}
        assert(keyed(p.scheduled)) by {
            assert forall|i: int, j: int| 0 <= i < j < p.scheduled.len() implies p.scheduled[i].first.0
                < p.scheduled[j].first.0 by {
                assert(p.scheduled[i] == s.scheduled[i + 1]);
                assert(p.scheduled[j] == s.scheduled[j + 1]);
            }
        }
        assert(p.wf());
        if s.chained() {
            assert(p.chained()) by {
                assert forall|i: int| 0 <= i < p.scheduled.len() implies (
                #[trigger] p.scheduled[i]).chained() by {
                    assert(p.scheduled[i] == s.scheduled[i + 1]);
                }
            }
        }
        if s.tidy() {
            assert(p.tidy()) by {
                assert forall|i: int| 0 <= i < p.scheduled.len() implies (
                #[trigger] p.scheduled[i]).tidy(p.precision.price) by {
                    assert(p.scheduled[i] == s.scheduled[i + 1]);
                }
            }
        }
        if d.last_stream.0 < s.last_applied.0 {
            drain_keeps(p, Some(DepthUpdateError::StaleUpdate));
            let t = p.drain(Some(DepthUpdateError::StaleUpdate)).0;
            if s.chained() && t.scheduled.len() == 0 {
                assert forall|i: int| 0 <= i < s.scheduled.len() implies (
                #[trigger] s.scheduled[i]).last_stream.0 < t.last_applied.0 by {
                    if i > 0 {
                        assert(s.scheduled[i] == p.scheduled[i - 1]);
                    }
                }
            }
        } else if d.last_stream.0 == s.last_applied.0 {
            let q = p.add_diff(d);
            add_diff_keeps(p, d);
            if s.tidy() {
                assert(d.tidy(s.precision.price));
            }
            drain_keeps(q, None);
            let t = q.drain(None).0;
            if s.chained() {
                assert(d.chained());
                assert(q.chained());
                if t.scheduled.len() == 0 {
                    assert forall|i: int| 0 <= i < s.scheduled.len() implies (
                    #[trigger] s.scheduled[i]).last_stream.0 < t.last_applied.0 by {
                        if i > 0 {
                            assert(s.scheduled[i] == p.scheduled[i - 1]);
                            assert(q.scheduled[i - 1] == p.scheduled[i - 1]);
                        }
                    }
                }
            }
        } else {
            put_back(s.scheduled);
            assert(put(p.scheduled, d) == s.scheduled);
        }
    }
}

/// Every update keeps a book valid and its settings as they are.
pub proof fn apply_keeps_valid(s: BookState, upd: MDResponseView)
    requires
        s.wf(),
    ensures
        s.apply(upd).0.wf(),
        s.apply(upd).0.same_settings(s),
{
    match upd {
        MDResponseView::Delta(d) => {
            put_keyed(s.scheduled, d);
            drain_keeps(BookState { scheduled: put(s.scheduled, d), ..s }, None);
        },
        MDResponseView::Snapshot(snap) => {
            let heard = BookState { snapshot_requested: false, ..s };
            if heard.is_stale_depth(snap.last) {
                let replaced = BookState {
                    buy: capped(snap.buy, s.depth_limit),
                    sell: capped(snap.sell, s.depth_limit),
                    ..heard
                };
                match find_first_id(snap.last, s.scheduled) {
                    Some(x) => {
                        drain_keeps(BookState { last_applied: x, ..replaced }, None);
                    },
                    None => {},
                }
            }
        },
        _ => {},
    }
}

/// A running book keeps running under every update whose ids follow the
/// stream.
pub proof fn apply_keeps_running(s: BookState, upd: MDResponseView)
    requires
        s.runs(),
        upd.chained(),
    ensures
        s.apply(upd).0.runs(),
{
    match upd {
        MDResponseView::Delta(d) => {
            put_keyed(s.scheduled, d);
            let buffered = BookState { scheduled: put(s.scheduled, d), ..s };
            assert(buffered.chained()) by {
                assert forall|i: int| 0 <= i < buffered.scheduled.len() implies (
                #[trigger] buffered.scheduled[i]).chained() by {
                    assert(buffered.scheduled.contains(buffered.scheduled[i]));
                    if buffered.scheduled[i] != d {
                        let k = choose|k: int|
                            0 <= k < s.scheduled.len() && s.scheduled[k] == buffered.scheduled[i];
                    }
                }
            }
            drain_keeps(buffered, None);
        },
        MDResponseView::Snapshot(snap) => {
            let heard = BookState { snapshot_requested: false, ..s };
            if heard.is_stale_depth(snap.last) {
                let replaced = BookState {
                    buy: capped(snap.buy, s.depth_limit),
                    sell: capped(snap.sell, s.depth_limit),
                    ..heard
                };
                match find_first_id(snap.last, s.scheduled) {
                    Some(x) => {
                        drain_keeps(BookState { last_applied: x, ..replaced }, None);
                    },
                    None => {},
                }
            }
        },
        _ => {},
    }
}

/// Strict order is kept.  A tidy book that takes a tidy message is tidy
/// afterwards, whatever the outcome: each ladder is strictly monotone in
/// price under the tick and holds at most `depth_limit` levels.
pub proof fn apply_keeps_tidy(s: BookState, upd: MDResponseView)
    requires
        s.wf(),
        s.tidy(),
        upd.tidy(s.precision.price),
    ensures
        s.apply(upd).0.tidy(),
        s.apply(upd).0.buy.len() <= s.depth_limit,
        s.apply(upd).0.sell.len() <= s.depth_limit,
{
    apply_keeps_valid(s, upd);
    match upd {
        MDResponseView::Delta(d) => {
            put_keyed(s.scheduled, d);
            let buffered = BookState { scheduled: put(s.scheduled, d), ..s };
            assert(buffered.tidy()) by {
                assert forall|i: int| 0 <= i < buffered.scheduled.len() implies (
                #[trigger] buffered.scheduled[i]).tidy(s.precision.price) by {
                    assert(buffered.scheduled.contains(buffered.scheduled[i]));
                    if buffered.scheduled[i] != d {
                        let k = choose|k: int|
                            0 <= k < s.scheduled.len() && s.scheduled[k] == buffered.scheduled[i];
                    }
                }
            }
            drain_keeps(buffered, None);
        },
        MDResponseView::Snapshot(snap) => {
            let heard = BookState { snapshot_requested: false, ..s };
            if heard.is_stale_depth(snap.last) {
                capped_tidy(snap.buy, Side::Buy, s.precision.price, s.depth_limit);
                capped_tidy(snap.sell, Side::Sell, s.precision.price, s.depth_limit);
                let replaced = BookState {
                    buy: capped(snap.buy, s.depth_limit),
                    sell: capped(snap.sell, s.depth_limit),
                    ..heard
                };
                match find_first_id(snap.last, s.scheduled) {
                    Some(x) => {
                        drain_keeps(BookState { last_applied: x, ..replaced }, None);
                    },
                    None => {},
                }
            }
        },
        _ => {},
    }
}

/// The book never moves backwards on success.  When a running book takes a
/// message whose ids follow the stream and the update succeeds, the id the
/// book is current at has not decreased.
pub proof fn last_applied_never_decreases(s: BookState, upd: MDResponseView)
    requires
        s.runs(),
        upd.chained(),
        s.apply(upd).1 is None,
    ensures
        s.apply(upd).0.last_applied.0 >= s.last_applied.0,
{
    match upd {
        MDResponseView::Delta(d) => {
            delta_never_moves_back(s, d);
        },
        MDResponseView::Snapshot(snap) => {
            let heard = BookState { snapshot_requested: false, ..s };
            if heard.is_stale_depth(snap.last) {
                let replaced = BookState {
                    buy: capped(snap.buy, s.depth_limit),
                    sell: capped(snap.sell, s.depth_limit),
                    ..heard
                };
                match find_first_id(snap.last, s.scheduled) {
                    Some(x) => {
                        let moved = BookState { last_applied: x, ..replaced };
                        drain_keeps(moved, None);
                        assert(s.scheduled.len() > 0);
                        assert(moved.scheduled[0].last_stream.0 <= x.0);
                    },
                    None => {},
                }
            }
        },
        _ => {},
    }
}

/// A delta never moves the book backwards, whatever the outcome of the
/// update.
pub proof fn delta_never_moves_back(s: BookState, d: DeltaView)
    requires
        s.wf(),
        s.chained(),
        d.chained(),
    ensures
        s.apply_delta(d).0.last_applied.0 >= s.last_applied.0,
{
    put_keyed(s.scheduled, d);
    let buffered = BookState { scheduled: put(s.scheduled, d), ..s };
    assert(buffered.chained()) by {
        assert forall|i: int| 0 <= i < buffered.scheduled.len() implies (
        #[trigger] buffered.scheduled[i]).chained() by {
            assert(buffered.scheduled.contains(buffered.scheduled[i]));
            if buffered.scheduled[i] != d {
                let k = choose|k: int|
                    0 <= k < s.scheduled.len() && s.scheduled[k] == buffered.scheduled[i];
            }
        }
    }
    drain_keeps(buffered, None);
}

/// At most one snapshot is in flight.  While a book waits for a snapshot, no
/// delta makes it ask for another: the outcome is never `DepthStale`, and
/// the book still waits afterwards.
pub proof fn waiting_book_never_asks_again(s: BookState, d: DeltaView)
    requires
        s.wf(),
        s.snapshot_requested,
    ensures
        s.apply_delta(d).1 != Some(DepthUpdateError::DepthStale),
        s.apply_delta(d).0.snapshot_requested,
{
    put_keyed(s.scheduled, d);
    drain_keeps(BookState { scheduled: put(s.scheduled, d), ..s }, None);
}

/// While a running book waits for a snapshot, a delta that lies ahead of it
/// and beyond the horizon, with nothing nearer in the buffer, yields
/// `WaitSnapshot`; the delta is buffered and nothing else changes.
pub proof fn waiting_book_answers_wait(s: BookState, d: DeltaView)
    requires
        s.runs(),
        s.snapshot_requested,
        d.last_stream.0 > s.last_applied.0,
        s.is_stale_depth(d.first),
        s.scheduled.len() > 0 ==> s.is_stale_depth(s.scheduled[0].first),
    ensures
        s.apply_delta(d).1 == Some(DepthUpdateError::WaitSnapshot),
        s.apply_delta(d).0 == (BookState { scheduled: put(s.scheduled, d), ..s }),
{
    put_keyed(s.scheduled, d);
    put_head(s.scheduled, d);
    put_back(put(s.scheduled, d));
}

/// A delta ahead of a running book is buffered: the ladders and the id the
/// book is current at stay as they are, and the book keeps running.
pub proof fn gap_is_buffered(s: BookState, d: DeltaView)
    requires
        s.wf(),
        s.settled(),
        d.last_stream.0 > s.last_applied.0,
    ensures
        s.apply_delta(d).0.scheduled == put(s.scheduled, d),
        s.apply_delta(d).0.buy == s.buy,
        s.apply_delta(d).0.sell == s.sell,
        s.apply_delta(d).0.last_applied == s.last_applied,
        s.apply_delta(d).0.wf(),
        s.apply_delta(d).0.settled(),
        s.apply_delta(d).1 is Some,
        s.apply_delta(d).1 != Some(DepthUpdateError::StaleUpdate),
{
    put_keyed(s.scheduled, d);
    put_head(s.scheduled, d);
    put_back(put(s.scheduled, d));
}

/// The order of arrival does not matter to what waits.  Two deltas ahead of
/// a running book, with different first ids, leave the same buffer, the same
/// ladders and the same id the book is current at, whichever arrives first.
pub proof fn buffering_order_is_immaterial(s: BookState, d1: DeltaView, d2: DeltaView)
    requires
        s.wf(),
        s.settled(),
        d1.first != d2.first,
        d1.last_stream.0 > s.last_applied.0,
        d2.last_stream.0 > s.last_applied.0,
    ensures
        ({
            let in_order = s.apply_delta(d1).0.apply_delta(d2).0;
            let swapped = s.apply_delta(d2).0.apply_delta(d1).0;
            &&& in_order.scheduled == swapped.scheduled
            &&& in_order.buy == swapped.buy
            &&& in_order.sell == swapped.sell
            &&& in_order.last_applied == swapped.last_applied
        }),
{
    gap_is_buffered(s, d1);
    gap_is_buffered(s.apply_delta(d1).0, d2);
    gap_is_buffered(s, d2);
    gap_is_buffered(s.apply_delta(d2).0, d1);
    put_commutes(s.scheduled, d1, d2);
}

/// Replay is safe.  When a running book has taken a delta and the drain went
/// through the whole buffer, the same delta once more yields `StaleUpdate`
/// and leaves the book exactly as it was.
pub proof fn replay_is_stale(s: BookState, d: DeltaView)
    requires
        s.runs(),
        d.chained(),
        s.apply_delta(d).1 is None || s.apply_delta(d).1 == Some(DepthUpdateError::StaleUpdate),
    ensures
        s.apply_delta(d).0.apply_delta(d) == (
            s.apply_delta(d).0,
            Some(DepthUpdateError::StaleUpdate),
        ),
{
    put_keyed(s.scheduled, d);
    let buffered = BookState { scheduled: put(s.scheduled, d), ..s };
    assert(buffered.chained()) by {
        assert forall|i: int| 0 <= i < buffered.scheduled.len() implies (
        #[trigger] buffered.scheduled[i]).chained() by {
            assert(buffered.scheduled.contains(buffered.scheduled[i]));
            if buffered.scheduled[i] != d {
                let k = choose|k: int|
                    0 <= k < s.scheduled.len() && s.scheduled[k] == buffered.scheduled[i];
            }
        }
    }
    drain_keeps(buffered, None);
    let t = s.apply_delta(d).0;
    assert(t.scheduled.len() == 0);
    let kd = choose|k: int| 0 <= k < buffered.scheduled.len() && buffered.scheduled[k] == d;
    assert(d.last_stream.0 < t.last_applied.0);
    let again = BookState { scheduled: put(t.scheduled, d), ..t };
    assert(again.scheduled =~= seq![d]);
    assert(again.popped().scheduled =~= t.scheduled);
    assert(again.popped() == t);
    reveal_with_fuel(BookState::drain, 3);
}

/// The order of arrival does not matter.  Two deltas that continue a book
/// with an empty buffer one after the other give the same ladders, and the
/// same id the book is current at, whether the first or the second arrives
/// first; in both orders the last update succeeds and the buffer is empty.
pub proof fn arrival_order_is_immaterial(s: BookState, d1: DeltaView, d2: DeltaView)
    requires
        s.wf(),
        s.scheduled.len() == 0,
        d1.chained(),
        d2.chained(),
        d1.last_stream == s.last_applied,
        d2.last_stream == d1.last,
    ensures
        ({
            let in_order = s.apply_delta(d1).0.apply_delta(d2);
            let swapped = s.apply_delta(d2).0.apply_delta(d1);
            &&& in_order.1 is None
            &&& swapped.1 is None
            &&& in_order.0.buy == swapped.0.buy
            &&& in_order.0.sell == swapped.0.sell
            &&& in_order.0.last_applied == d2.last
            &&& swapped.0.last_applied == d2.last
            &&& in_order.0.scheduled.len() == 0
            &&& swapped.0.scheduled.len() == 0
            &&& in_order.0.buy == s.add_diff(d1).add_diff(d2).buy
            &&& in_order.0.sell == s.add_diff(d1).add_diff(d2).sell
        }),
{
    reveal_with_fuel(BookState::drain, 4);
    reveal_with_fuel(put, 3);
    let none = Seq::<DeltaView>::empty();
    assert(s.scheduled =~= none);
    // in order
    let b1 = BookState { scheduled: put(s.scheduled, d1), ..s };
    assert(b1.scheduled =~= seq![d1]);
    assert(b1.popped().scheduled =~= none);
    let a1 = s.apply_delta(d1).0;
    assert(a1 == b1.popped().add_diff(d1));
    let b2 = BookState { scheduled: put(a1.scheduled, d2), ..a1 };
    assert(b2.scheduled =~= seq![d2]);
    assert(b2.popped().scheduled =~= none);
    assert(b2.popped() == a1);
    // swapped
    let c1 = BookState { scheduled: put(s.scheduled, d2), ..s };
    assert(c1.scheduled =~= seq![d2]);
    assert(c1.popped().scheduled =~= none);
    assert(put(c1.popped().scheduled, d2) =~= seq![d2]);
    let w1 = s.apply_delta(d2).0;
    assert(w1.scheduled =~= seq![d2]);
    let c2 = BookState { scheduled: put(w1.scheduled, d1), ..w1 };
    assert(c2.scheduled =~= seq![d1, d2]);
    assert(c2.popped().scheduled =~= seq![d2]);
    let w2 = c2.popped().add_diff(d1);
    assert(w2.scheduled =~= seq![d2]);
    assert(w2.popped().scheduled =~= none);
}

/// The deltas that end before the snapshot are passed over: the search from
/// the front gives what the search from place `i` gives, where every delta
/// before `i` ends before `snap`.
pub proof fn continuity_point_skips(snap: Id, events: Seq<DeltaView>, i: int)
    requires
        0 <= i <= events.len(),
        forall|j: int| 0 <= j < i ==> (#[trigger] events[j]).last.0 < snap.0,
    ensures
        find_first_id(snap, events) == find_first_id(snap, events.skip(i)),
    decreases i,
{
    if i == 0 {
        assert(events.skip(0) =~= events);
    } else {
        let rest = events.drop_first();
        assert(events[0].last.0 < snap.0);
        assert forall|j: int| 0 <= j < i - 1 implies (#[trigger] rest[j]).last.0 < snap.0 by {
            assert(rest[j] == events[j + 1]);
        }
        continuity_point_skips(snap, rest, i - 1);
        assert(rest.skip(i - 1) =~= events.skip(i));
    }
}

/// What a continuity point is.  Where a delta at place `i` of the buffer
/// does not end before the snapshot, and every delta before it does, the
/// search finds the precursor of that delta if it begins at or before the
/// snapshot, and nothing otherwise.  Where every buffered delta ends before
/// the snapshot, it finds nothing.
pub proof fn continuity_point_covers(snap: Id, events: Seq<DeltaView>, i: int)
    requires
        0 <= i <= events.len(),
        forall|j: int| 0 <= j < i ==> (#[trigger] events[j]).last.0 < snap.0,
        i < events.len() ==> events[i].last.0 >= snap.0,
    ensures
        find_first_id(snap, events) == if i < events.len() && events[i].first.0 <= snap.0 {
            Some(events[i].last_stream)
        } else {
            None
        },
{
    continuity_point_skips(snap, events, i);
    if i < events.len() {
        assert(events.skip(i)[0] == events[i]);
    }
}

} // verus!
