//! The depth book as a state machine on mathematical values.
//!
//! A book holds two ladders, the deltas it could not apply yet, and the id up
//! to which the ladders are current.  Buffered deltas are kept in ascending
//! order of their first id, at most one per first id.  Every update is a
//! function from a state and a message to the next state and an outcome; the
//! executable book is specified as computing exactly that function.

use crate::common::{Id, Level, Precision};
use crate::lob::merge::{capped, updated};
use crate::structure::{DeltaView, MDResponseView, Side, SnapshotView};
use vstd::prelude::*;

verus! {

/// Why an update did not leave the book current.
#[derive(Clone, Copy, Debug, PartialEq, Eq, Structural)]
pub enum DepthUpdateError {
    /// The book has fallen behind the stream beyond repair: a snapshot must be
    /// fetched and fed back.
    DepthStale,
    /// A delta is missing, but the gap is within the horizon.
    MissedUpdate,
    /// A snapshot has been asked for and has not arrived yet.
    WaitSnapshot,
    /// The last delta looked at was already covered by the book.
    StaleUpdate,
    /// The registry holds no book for the instrument.
    UnknownInstrument,
}

/// Buffered deltas in ascending order of first id, no first id twice.
pub open spec fn keyed(s: Seq<DeltaView>) -> bool {
    forall|i: int, j: int| 0 <= i < j < s.len() ==> s[i].first.0 < s[j].first.0
}

/// Inserts `d` at the place of its first id; a buffered delta with the same
/// first id is replaced.
pub open spec fn put(s: Seq<DeltaView>, d: DeltaView) -> Seq<DeltaView>
    decreases s.len(),
{
    if s.len() == 0 {
        seq![d]
    } else if d.first.0 < s[0].first.0 {
        seq![d] + s
    } else if d.first.0 == s[0].first.0 {
        seq![d] + s.drop_first()
    } else {
        seq![s[0]] + put(s.drop_first(), d)
    }
}

/// The continuity point a snapshot with id `snap` finds among the buffered
/// deltas: pass over the deltas that end before `snap`; the first one that
/// does not must have begun at or before `snap`, and then supplies its
/// precursor id.
pub open spec fn find_first_id(snap: Id, events: Seq<DeltaView>) -> Option<Id>
    decreases events.len(),
{
    if events.len() == 0 {
        None
    } else if events[0].last.0 < snap.0 {
        find_first_id(snap, events.drop_first())
    } else if events[0].first.0 <= snap.0 {
        Some(events[0].last_stream)
    } else {
        None
    }
}

/// The mathematical content of a depth book.
pub struct BookState {
    pub buy: Seq<Level>,
    pub sell: Seq<Level>,
    pub scheduled: Seq<DeltaView>,
    pub snapshot_requested: bool,
    pub last_applied: Id,
    pub skip_limit: Id,
    pub depth_limit: nat,
    pub precision: Precision,
}

impl BookState {
    /// The book of an instrument that has seen no message yet.
    pub open spec fn fresh(precision: Precision, depth_limit: nat, skip_limit: Id) -> BookState {
        BookState {
            buy: Seq::empty(),
            sell: Seq::empty(),
            scheduled: Seq::empty(),
            snapshot_requested: false,
            last_applied: Id(0),
            skip_limit,
            depth_limit,
            precision,
        }
    }

    /// Structural validity: the buffer is keyed and no ladder exceeds the
    /// depth limit.
    pub open spec fn wf(self) -> bool {
        &&& keyed(self.scheduled)
        &&& self.buy.len() <= self.depth_limit
        &&& self.sell.len() <= self.depth_limit
    }

    /// The staleness predicate: `id` lies beyond the horizon of the book.
    pub open spec fn is_stale_depth(self, id: Id) -> bool {
        self.last_applied.0 + self.skip_limit.0 < id.0
    }

    /// Both ladders after the diff of `d`, current up to the last id of `d`.
    pub open spec fn add_diff(self, d: DeltaView) -> BookState {
        BookState {
            sell: updated(self.sell, d.sell, Side::Sell, self.precision, self.depth_limit),
            buy: updated(self.buy, d.buy, Side::Buy, self.precision, self.depth_limit),
            last_applied: d.last,
            ..self
        }
    }

    /// One delta taken from the buffer, by its precursor id: already covered,
    /// it is dropped; contiguous, it is applied; ahead of the book, it goes
    /// back into the buffer and the gap is reported.
    pub open spec fn try_apply_delta(self, d: DeltaView) -> (BookState, Option<DepthUpdateError>) {
        if d.last_stream.0 < self.last_applied.0 {
            (self, Some(DepthUpdateError::StaleUpdate))
        } else if d.last_stream.0 == self.last_applied.0 {
            (self.add_diff(d), None)
        } else {
            let kept = BookState { scheduled: put(self.scheduled, d), ..self };
            if self.is_stale_depth(d.first) {
                if self.snapshot_requested {
                    (kept, Some(DepthUpdateError::WaitSnapshot))
                } else {
                    (
                        BookState { snapshot_requested: true, ..kept },
                        Some(DepthUpdateError::DepthStale),
                    )
                }
            } else {
                (kept, Some(DepthUpdateError::MissedUpdate))
            }
        }
    }

    /// The book without its first buffered delta.
    pub open spec fn popped(self) -> BookState {
        BookState { scheduled: self.scheduled.drop_first(), ..self }
    }

    /// Drains the buffer from the front.  `noted` is the outcome of the delta
    /// looked at last.  A delta that is dropped as covered, or applied, lets
    /// the drain go on; a gap ends it with its error.
    pub open spec fn drain(self, noted: Option<DepthUpdateError>) -> (
        BookState,
        Option<DepthUpdateError>,
    )
        decreases self.scheduled.len(),
    {
        if self.scheduled.len() == 0 {
            (self, noted)
        } else {
            let d = self.scheduled[0];
            if d.last_stream.0 < self.last_applied.0 {
                self.popped().drain(Some(DepthUpdateError::StaleUpdate))
            } else if d.last_stream.0 == self.last_applied.0 {
                self.popped().add_diff(d).drain(None)
            } else {
                self.popped().try_apply_delta(d)
            }
        }
    }

    /// The drain of the whole buffer, with nothing noted at its start.
    pub open spec fn try_apply_scheduled(self) -> (BookState, Option<DepthUpdateError>) {
        self.drain(None)
    }

    /// A delta arrives: it is buffered by its first id, and the buffer is
    /// drained.
    pub open spec fn apply_delta(self, d: DeltaView) -> (BookState, Option<DepthUpdateError>) {
        (BookState { scheduled: put(self.scheduled, d), ..self }).try_apply_scheduled()
    }

    /// A snapshot arrives.  It ends the wait for one.  Within the horizon it
    /// is obsolete and changes nothing else.  Beyond it, its ladders replace
    /// those of the book; a buffered delta that covers its id makes the book
    /// current up to that delta's precursor, and the buffer is drained; with
    /// no such delta another snapshot is asked for.
    pub open spec fn apply_snapshot(self, s: SnapshotView) -> (
        BookState,
        Option<DepthUpdateError>,
    ) {
        let heard = BookState { snapshot_requested: false, ..self };
        if !heard.is_stale_depth(s.last) {
            (heard, None)
        } else {
            let replaced = BookState {
                buy: capped(s.buy, self.depth_limit),
                sell: capped(s.sell, self.depth_limit),
                ..heard
            };
            match find_first_id(s.last, self.scheduled) {
                Some(x) => (BookState { last_applied: x, ..replaced }).try_apply_scheduled(),
                None => (
                    BookState { snapshot_requested: true, ..replaced },
                    Some(DepthUpdateError::DepthStale),
                ),
            }
        }
    }

    /// The transition of the book on one message.  Trades pass without
    /// effect; a ping carries nothing for a book.
    pub open spec fn apply(self, upd: MDResponseView) -> (BookState, Option<DepthUpdateError>) {
        match upd {
            MDResponseView::Trade(_) => (self, None),
            MDResponseView::Snapshot(s) => self.apply_snapshot(s),
            MDResponseView::Delta(d) => self.apply_delta(d),
            MDResponseView::Ping => (self, None),
        }
    }
}

/// The views of a run of deltas, in their order.
pub open spec fn delta_views(s: Seq<crate::structure::Delta>) -> Seq<DeltaView> {
    s.map_values(|d: crate::structure::Delta| d@)
}

/// Where `put` places a delta: `i` is the first position whose first id is
/// not below that of `d`.
pub proof fn put_at(s: Seq<DeltaView>, d: DeltaView, i: int)
    requires
        0 <= i <= s.len(),
        forall|k: int| 0 <= k < i ==> (#[trigger] s[k]).first.0 < d.first.0,
        i < s.len() ==> d.first.0 <= s[i].first.0,
    ensures
        i == s.len() ==> put(s, d) == s.push(d),
        i < s.len() && s[i].first.0 == d.first.0 ==> put(s, d) == s.update(i, d),
        i < s.len() && s[i].first.0 != d.first.0 ==> put(s, d) == s.insert(i, d),
    decreases s.len(),
{
    if s.len() == 0 {
        assert(seq![d] =~= s.push(d));
    } else if i == 0 {
        if d.first.0 == s[0].first.0 {
            assert(seq![d] + s.drop_first() =~= s.update(0, d));
        } else {
            assert(seq![d] + s =~= s.insert(0, d));
        }
    } else {
        let t = s.drop_first();
        assert(s[0].first.0 < d.first.0);
        assert forall|k: int| 0 <= k < i - 1 implies (#[trigger] t[k]).first.0 < d.first.0 by {
            assert(t[k] == s[k + 1]);
        }
        put_at(t, d, i - 1);
        if i == s.len() {
            assert(seq![s[0]] + t.push(d) =~= s.push(d));
        } else if s[i].first.0 == d.first.0 {
            assert(seq![s[0]] + t.update(i - 1, d) =~= s.update(i, d));
        } else {
            assert(seq![s[0]] + t.insert(i - 1, d) =~= s.insert(i, d));
        }
    }
}

/// `put` keeps a keyed buffer keyed, holds the new delta, and holds besides
/// it exactly the old deltas with another first id.
pub proof fn put_keyed(s: Seq<DeltaView>, d: DeltaView)
    requires
        keyed(s),
    ensures
        keyed(put(s, d)),
        put(s, d).contains(d),
        forall|x: DeltaView| #[trigger]
            put(s, d).contains(x) <==> x == d || (s.contains(x) && x.first != d.first),
    decreases s.len(),
{
    let r = put(s, d);
    if s.len() == 0 {
        assert(r[0] == d);
        assert forall|x: DeltaView| #[trigger] r.contains(x) implies x == d by {
            let k = choose|k: int| 0 <= k < r.len() && r[k] == x;
        }
    } else if d.first.0 < s[0].first.0 {
        assert(r[0] == d);
        assert forall|x: DeltaView| #[trigger]
            r.contains(x) <==> x == d || (s.contains(x) && x.first != d.first) by {
            if r.contains(x) {
                let k = choose|k: int| 0 <= k < r.len() && r[k] == x;
                if k > 0 {
                    assert(r[k] == s[k - 1]);
                    assert(s[0].first.0 <= s[k - 1].first.0);
                }
            }
            if s.contains(x) && x.first != d.first {
                let k = choose|k: int| 0 <= k < s.len() && s[k] == x;
                assert(r[k + 1] == x);
            }
        }
        assert forall|i: int, j: int| 0 <= i < j < r.len() implies r[i].first.0
            < r[j].first.0 by {
            if i > 0 {
                assert(r[i] == s[i - 1] && r[j] == s[j - 1]);
            } else {
                assert(r[j] == s[j - 1]);
                assert(s[0].first.0 <= s[j - 1].first.0);
            }
        }
    } else if d.first.0 == s[0].first.0 {
        let t = s.drop_first();
        assert(r[0] == d);
        assert forall|x: DeltaView| #[trigger]
            r.contains(x) <==> x == d || (s.contains(x) && x.first != d.first) by {
            if r.contains(x) {
                let k = choose|k: int| 0 <= k < r.len() && r[k] == x;
                if k > 0 {
                    assert(r[k] == s[k]);
                }
            }
            if s.contains(x) && x.first != d.first {
                let k = choose|k: int| 0 <= k < s.len() && s[k] == x;
                assert(k > 0);
                assert(r[k] == x);
            }
        }
        assert forall|i: int, j: int| 0 <= i < j < r.len() implies r[i].first.0
            < r[j].first.0 by {
            assert(r[j] == s[j]);
            if i > 0 {
                assert(r[i] == s[i]);
            }
        }
    } else {
        let t = s.drop_first();
        assert forall|i: int, j: int| 0 <= i < j < t.len() implies t[i].first.0
            < t[j].first.0 by {
            assert(t[i] == s[i + 1] && t[j] == s[j + 1]);
        }
        put_keyed(t, d);
        let u = put(t, d);
        assert(r[0] == s[0]);
        assert forall|k: int| 0 <= k < u.len() implies s[0].first.0 < (#[trigger] u[k]).first.0 by {
            assert(u.contains(u[k]));
            if u[k] != d {
                assert(t.contains(u[k]));
                let m = choose|m: int| 0 <= m < t.len() && t[m] == u[k];
                assert(t[m] == s[m + 1]);
            }
        }
        assert forall|i: int, j: int| 0 <= i < j < r.len() implies r[i].first.0
            < r[j].first.0 by {
            assert(r[j] == u[j - 1]);
            if i > 0 {
                assert(r[i] == u[i - 1]);
            }
        }
        assert(u.contains(d));
        let kd = choose|k: int| 0 <= k < u.len() && u[k] == d;
        assert(r[kd + 1] == d);
        assert forall|x: DeltaView| #[trigger]
            r.contains(x) <==> x == d || (s.contains(x) && x.first != d.first) by {
            if r.contains(x) {
                let k = choose|k: int| 0 <= k < r.len() && r[k] == x;
                if k > 0 {
                    assert(r[k] == u[k - 1]);
                    assert(u.contains(x));
                    if x != d {
                        assert(t.contains(x));
                        let m = choose|m: int| 0 <= m < t.len() && t[m] == x;
                        assert(s[m + 1] == x);
                    }
                } else {
                    assert(s[0] == x);
                }
            }
            if s.contains(x) && x.first != d.first {
                let k = choose|k: int| 0 <= k < s.len() && s[k] == x;
                if k == 0 {
                    assert(r[0] == x);
                } else {
                    assert(t[k - 1] == x);
                    assert(t.contains(x));
                    assert(u.contains(x));
                    let m = choose|m: int| 0 <= m < u.len() && u[m] == x;
                    assert(r[m + 1] == x);
                }
            }
        }
    }
}

/// Putting the first delta of a keyed buffer back gives the buffer again.
pub proof fn put_back(s: Seq<DeltaView>)
    requires
        keyed(s),
        s.len() > 0,
    ensures
        put(s.drop_first(), s[0]) == s,
{
    let t = s.drop_first();
    if t.len() == 0 {
        assert(seq![s[0]] =~= s);
    } else {
        assert(t[0] == s[1]);
        assert(seq![s[0]] + t =~= s);
    }
}

/// `put` onto a buffer with a known first delta.
pub proof fn put_onto(head: DeltaView, rest: Seq<DeltaView>, d: DeltaView)
    ensures
        put(seq![head] + rest, d) == if d.first.0 < head.first.0 {
            seq![d] + (seq![head] + rest)
        } else if d.first.0 == head.first.0 {
            seq![d] + rest
        } else {
            seq![head] + put(rest, d)
        },
{
    let s = seq![head] + rest;
    assert(s[0] == head);
    assert(s.drop_first() =~= rest);
}

/// Two deltas with different first ids take their places in the buffer
/// whichever is put first.
pub proof fn put_commutes(s: Seq<DeltaView>, d1: DeltaView, d2: DeltaView)
    requires
        d1.first != d2.first,
    ensures
        put(put(s, d1), d2) == put(put(s, d2), d1),
    decreases s.len(),
{
    let none = Seq::<DeltaView>::empty();
    if s.len() == 0 {
        assert(seq![d1] =~= seq![d1] + none);
        assert(seq![d2] =~= seq![d2] + none);
        put_onto(d1, none, d2);
        put_onto(d2, none, d1);
        assert(put(none, d1) == seq![d1]);
        assert(put(none, d2) == seq![d2]);
        if d1.first.0 < d2.first.0 {
            assert(seq![d1] + put(none, d2) =~= seq![d1] + (seq![d2] + none));
        } else {
            assert(seq![d2] + put(none, d1) =~= seq![d2] + (seq![d1] + none));
        }
    } else {
        let h = s[0];
        let t = s.drop_first();
        assert(s =~= seq![h] + t);
        put_onto(h, t, d1);
        put_onto(h, t, d2);
        let a = d1.first.0;
        let b = d2.first.0;
        let k = h.first.0;
        if a > k && b > k {
            put_commutes(t, d1, d2);
            put_onto(h, put(t, d1), d2);
            put_onto(h, put(t, d2), d1);
        } else if a > k {
            // d2 goes to the front, d1 behind the head
            put_onto(h, put(t, d1), d2);
            if b < k {
                put_onto(d2, seq![h] + t, d1);
                put_onto(h, t, d1);
            } else {
                put_onto(d2, t, d1);
            }
        } else if b > k {
            put_onto(h, put(t, d2), d1);
            if a < k {
                put_onto(d1, seq![h] + t, d2);
                put_onto(h, t, d2);
            } else {
                put_onto(d1, t, d2);
            }
        } else {
            // both go to the front
            if a < k {
                put_onto(d1, seq![h] + t, d2);
            } else {
                put_onto(d1, t, d2);
            }
            if b < k {
                put_onto(d2, seq![h] + t, d1);
            } else {
                put_onto(d2, t, d1);
            }
            if a == k && b < k {
                assert(put(seq![d2] + (seq![h] + t), d1) =~= seq![d2] + put(seq![h] + t, d1));
            }
            if b == k && a < k {
                assert(put(seq![d1] + (seq![h] + t), d2) =~= seq![d1] + put(seq![h] + t, d2));
            }
        }
    }
}

/// The first delta of a buffer after `put` is the new delta or the old first
/// one.
pub proof fn put_head(s: Seq<DeltaView>, d: DeltaView)
    ensures
        put(s, d).len() > 0,
        put(s, d)[0] == d || (s.len() > 0 && put(s, d)[0] == s[0]),
{
}

} // verus!
