//! A run of deltas that continue one another, and what a book makes of it
//! whatever the order in which its deltas arrive.
//!
//! A chain starts at the id a book is current at; each of its deltas has the
//! last id of the one before it as its precursor.  Fed to a book with an
//! empty buffer, in any order and with any repetitions, the deltas of a chain
//! leave the ladders that applying them one after the other in the order of
//! the chain gives.

use crate::common::Id;
use crate::lob::laws::add_diff_keeps;
use crate::lob::model::{keyed, put, put_back, put_onto, BookState, DepthUpdateError};
use crate::structure::DeltaView;
use vstd::prelude::*;

verus! {

/// The id a book is current at after the first `m` deltas of the chain `c`
/// that starts at `from`.
pub open spec fn reached(c: Seq<DeltaView>, from: Id, m: int) -> Id {
    if m <= 0 {
        from
    } else {
        c[m - 1].last
    }
}

/// The delta at place `k` of `c` continues what came before it: its ids
/// follow the stream, and its precursor is the id reached before it.
pub open spec fn link_at(c: Seq<DeltaView>, from: Id, k: int) -> bool {
    c[k].chained() && c[k].last_stream == reached(c, from, k)
}

/// `c` is a chain from `from`: every delta of it continues what came before
/// it.
pub open spec fn linked(c: Seq<DeltaView>, from: Id) -> bool {
    forall|k: int| 0 <= k < c.len() ==> #[trigger] link_at(c, from, k)
}

/// The book after the first `m` deltas of `c` were applied to `s` one after
/// the other.
pub open spec fn run(s: BookState, c: Seq<DeltaView>, m: int) -> BookState
    decreases m,
{
    if m <= 0 {
        s
    } else {
        run(s, c, m - 1).add_diff(c[m - 1])
    }
}

/// The deltas of `c` from place `from` on whose places are in `g`, in the
/// order of the chain.
pub open spec fn pick(c: Seq<DeltaView>, from: int, g: Set<int>) -> Seq<DeltaView>
    decreases c.len() - from,
{
    if from < 0 || from >= c.len() {
        Seq::empty()
    } else if g.contains(from) {
        seq![c[from]] + pick(c, from + 1, g)
    } else {
        pick(c, from + 1, g)
    }
}

/// The first place from `from` on that is not in `g`; the end `n` where
/// there is none.
pub open spec fn missing(g: Set<int>, from: int, n: int) -> int
    decreases n - from,
{
    if from >= n || !g.contains(from) {
        from
    } else {
        missing(g, from + 1, n)
    }
}

/// The places that occur in a run of arrivals.
pub open spec fn arrived(order: Seq<int>) -> Set<int> {
    Set::new(|k: int| order.contains(k))
}

/// The book after the deltas of `c` arrived at `s` in the order `order` of
/// their places.
pub open spec fn fed(s: BookState, c: Seq<DeltaView>, order: Seq<int>) -> BookState
    decreases order.len(),
{
    if order.len() == 0 {
        s
    } else {
        fed(s, c, order.drop_last()).apply_delta(c[order.last()]).0
    }
}

/// Along a chain the ids reached grow strictly.
pub proof fn reached_grows(c: Seq<DeltaView>, from: Id, a: int, b: int)
    requires
        linked(c, from),
        0 <= a < b <= c.len(),
    ensures
        reached(c, from, a).0 < reached(c, from, b).0,
    decreases b - a,
{
    assert(link_at(c, from, b - 1));
    if a < b - 1 {
        reached_grows(c, from, a, b - 1);
    }
}

/// Along a chain the first ids grow strictly.
pub proof fn firsts_grow(c: Seq<DeltaView>, from: Id, j: int, k: int)
    requires
        linked(c, from),
        0 <= j < k < c.len(),
    ensures
        c[j].first.0 < c[k].first.0,
{
    assert(link_at(c, from, k));
    assert(link_at(c, from, j));
    if j + 1 < k {
        reached_grows(c, from, j + 1, k);
    }
}

/// Where `missing` stops: every place before it is in `g`, and it is not.
pub proof fn missing_stops(g: Set<int>, from: int, n: int)
    requires
        from <= n,
    ensures
        from <= missing(g, from, n) <= n,
        forall|k: int| from <= k < missing(g, from, n) ==> g.contains(k),
        missing(g, from, n) < n ==> !g.contains(missing(g, from, n)),
    decreases n - from,
{
    if from < n && g.contains(from) {
        missing_stops(g, from + 1, n);
    }
}

/// `pick` reads `g` only from `from` on.
pub proof fn pick_reads_from(c: Seq<DeltaView>, from: int, g: Set<int>, h: Set<int>)
    requires
        forall|k: int| from <= k < c.len() ==> (g.contains(k) <==> h.contains(k)),
    ensures
        pick(c, from, g) == pick(c, from, h),
    decreases c.len() - from,
{
    if 0 <= from < c.len() {
        pick_reads_from(c, from + 1, g, h);
    }
}

/// The first delta that `pick` gives lies at or after `from`, and so does not
/// begin before the delta at `from`.
pub proof fn pick_begins(c: Seq<DeltaView>, start: Id, from: int, g: Set<int>)
    requires
        linked(c, start),
        0 <= from < c.len(),
        pick(c, from, g).len() > 0,
    ensures
        pick(c, from, g)[0].first.0 >= c[from].first.0,
        pick(c, from, g)[0].last_stream.0 >= c[from].last_stream.0,
        g.contains(from) ==> pick(c, from, g)[0] == c[from],
    decreases c.len() - from,
{
    if !g.contains(from) {
        reveal_with_fuel(pick, 2);
        assert(from + 1 < c.len());
        pick_begins(c, start, from + 1, g);
        firsts_grow(c, start, from, from + 1);
        reached_grows(c, start, from, from + 1);
        assert(link_at(c, start, from + 1));
        assert(link_at(c, start, from));
    }
}

/// Putting a delta of the chain into what `pick` gives is picking with its
/// place added.
pub proof fn put_into_pick(c: Seq<DeltaView>, start: Id, from: int, g: Set<int>, j: int)
    requires
        linked(c, start),
        0 <= from <= j < c.len(),
    ensures
        put(pick(c, from, g), c[j]) == pick(c, from, g.insert(j)),
    decreases j - from,
{
    let d = c[j];
    if from == j {
        let rest = pick(c, j + 1, g);
        pick_reads_from(c, j + 1, g, g.insert(j));
        if j + 1 < c.len() && rest.len() > 0 {
            pick_begins(c, start, j + 1, g);
            firsts_grow(c, start, j, j + 1);
        }
        if g.contains(j) {
            put_onto(c[j], rest, d);
        } else if rest.len() > 0 {
            assert(rest =~= seq![rest[0]] + rest.drop_first());
            put_onto(rest[0], rest.drop_first(), d);
        }
    } else {
        put_into_pick(c, start, from + 1, g, j);
        firsts_grow(c, start, from, j);
        if g.contains(from) {
            put_onto(c[from], pick(c, from + 1, g), d);
        }
    }
}

/// What the drain makes of a buffer picked from a chain.  With the book
/// current at the id reached before place `m`, and the buffer holding the
/// deltas from `m` on whose places are in `g`, the drain applies the deltas
/// from `m` up to the first place that is missing, and leaves the others.
pub proof fn drain_of_chain(
    s: BookState,
    c: Seq<DeltaView>,
    x: BookState,
    m: int,
    g: Set<int>,
    noted: Option<DepthUpdateError>,
)
    requires
        linked(c, s.last_applied),
        0 <= m <= c.len(),
        x.wf(),
        x.same_settings(s),
        x.last_applied == reached(c, s.last_applied, m),
        x.scheduled == pick(c, m, g),
        x.buy == run(s, c, m).buy,
        x.sell == run(s, c, m).sell,
        run(s, c, m).same_settings(s),
    ensures
        ({
            let m2 = missing(g, m, c.len() as int);
            let y = x.drain(noted).0;
            &&& y.wf()
            &&& y.same_settings(s)
            &&& y.last_applied == reached(c, s.last_applied, m2)
            &&& y.scheduled == pick(c, m2, g)
            &&& y.buy == run(s, c, m2).buy
            &&& y.sell == run(s, c, m2).sell
            &&& run(s, c, m2).same_settings(s)
            &&& pick(c, m2, g).len() == 0 && m2 > m ==> x.drain(noted).1 is None
        }),
    decreases c.len() - m,
{
    let n = c.len() as int;
    let start = s.last_applied;
    if m < n {
        if g.contains(m) {
            let rest = pick(c, m + 1, g);
            assert(x.scheduled[0] == c[m]);
            assert(x.scheduled.drop_first() =~= rest);
            assert(link_at(c, start, m));
            let q = x.popped().add_diff(c[m]);
            assert(x.popped().wf()) by {
                assert forall|i: int, j: int| 0 <= i < j < rest.len() implies rest[i].first.0
                    < rest[j].first.0 by {
                    assert(rest[i] == x.scheduled[i + 1] && rest[j] == x.scheduled[j + 1]);
                }
            }
            add_diff_keeps(x.popped(), c[m]);
            assert(q.last_applied == reached(c, start, m + 1));
            drain_of_chain(s, c, q, m + 1, g, None);
            missing_stops(g, m + 1, n);
        } else if x.scheduled.len() > 0 {
            reveal_with_fuel(pick, 2);
            assert(m + 1 < n);
            pick_begins(c, start, m + 1, g);
            reached_grows(c, start, m, m + 1);
            assert(link_at(c, start, m + 1));
            put_back(x.scheduled);
        }
    }
}

/// With no place arrived nothing is picked.
pub proof fn pick_of_none(c: Seq<DeltaView>, from: int)
    ensures
        pick(c, from, Set::<int>::empty()) == Seq::<DeltaView>::empty(),
    decreases c.len() - from,
{
    if 0 <= from < c.len() {
        pick_of_none(c, from + 1);
    }
}

/// After any run of arrivals the book stands where the chain leads it: the
/// deltas up to the first missing place are applied, and the others that
/// have arrived wait in the buffer.
pub proof fn fed_follows_chain(s: BookState, c: Seq<DeltaView>, order: Seq<int>)
    requires
        s.wf(),
        s.scheduled.len() == 0,
        linked(c, s.last_applied),
        forall|t: int| 0 <= t < order.len() ==> 0 <= #[trigger] order[t] < c.len(),
    ensures
        ({
            let g = arrived(order);
            let m = missing(g, 0, c.len() as int);
            let x = fed(s, c, order);
            &&& x.wf()
            &&& x.same_settings(s)
            &&& x.last_applied == reached(c, s.last_applied, m)
            &&& x.scheduled == pick(c, m, g)
            &&& x.buy == run(s, c, m).buy
            &&& x.sell == run(s, c, m).sell
            &&& run(s, c, m).same_settings(s)
        }),
    decreases order.len(),
{
    let n = c.len() as int;
    let start = s.last_applied;
    let g = arrived(order);
    if order.len() == 0 {
        assert(g =~= Set::<int>::empty());
        pick_of_none(c, missing(g, 0, n));
        assert(s.scheduled =~= Seq::<DeltaView>::empty());
        missing_stops(g, 0, n);
        assert(missing(g, 0, n) == 0 || n == 0);
    } else {
        let prev = order.drop_last();
        let j = order.last();
        let h = arrived(prev);
        assert forall|t: int| 0 <= t < prev.len() implies 0 <= #[trigger] prev[t] < c.len() by {
            assert(prev[t] == order[t]);
        }
        fed_follows_chain(s, c, prev);
        assert(g =~= h.insert(j)) by {
            assert forall|k: int| g.contains(k) <==> h.insert(j).contains(k) by {
                if order.contains(k) {
                    let t = choose|t: int| 0 <= t < order.len() && order[t] == k;
                    if t < prev.len() {
                        assert(prev[t] == k);
                    }
                }
                if prev.contains(k) {
                    let t = choose|t: int| 0 <= t < prev.len() && prev[t] == k;
                    assert(order[t] == k);
                }
                if k == j {
                    assert(order[order.len() - 1] == j);
                }
            }
        }
        let m = missing(h, 0, n);
        let x = fed(s, c, prev);
        missing_stops(h, 0, n);
        missing_stops(g, 0, n);
        let d = c[j];
        let buffered = BookState { scheduled: put(x.scheduled, d), ..x };
        crate::lob::model::put_keyed(x.scheduled, d);
        if j < m {
            // already applied: the delta goes to the front and is dropped
            reached_grows(c, start, j, m);
            assert(link_at(c, start, j));
            let w = x.scheduled;
            if w.len() > 0 {
                pick_begins(c, start, m, h);
                firsts_grow(c, start, j, m);
                assert(w =~= seq![w[0]] + w.drop_first());
                put_onto(w[0], w.drop_first(), d);
            }
            assert(buffered.scheduled =~= seq![d] + w);
            assert(buffered.popped().scheduled =~= w);
            assert(buffered.popped() == x);
            pick_reads_from(c, m, h, g);
            missing_skips(g, 0, m, n);
            drain_of_chain(s, c, x, m, g, Some(DepthUpdateError::StaleUpdate));
        } else {
            put_into_pick(c, start, m, h, j);
            missing_skips(g, 0, m, n);
            drain_of_chain(s, c, buffered, m, g, None);
        }
    }
}

/// `missing` passes over places that are in `g`.
pub proof fn missing_skips(g: Set<int>, a: int, b: int, n: int)
    requires
        a <= b <= n,
        forall|k: int| a <= k < b ==> g.contains(k),
    ensures
        missing(g, a, n) == missing(g, b, n),
    decreases b - a,
{
    if a < b {
        missing_skips(g, a + 1, b, n);
    }
}

/// The order of arrival does not matter.  When all deltas of a chain have
/// arrived at a book with an empty buffer, in whatever order and however
/// often, the ladders are those that the chain gives applied in its own
/// order, the book is current at the end of the chain, and the buffer is
/// empty.
pub proof fn any_order_gives_the_chain(s: BookState, c: Seq<DeltaView>, order: Seq<int>)
    requires
        s.wf(),
        s.scheduled.len() == 0,
        linked(c, s.last_applied),
        forall|t: int| 0 <= t < order.len() ==> 0 <= #[trigger] order[t] < c.len(),
        forall|k: int| 0 <= k < c.len() ==> order.contains(k),
    ensures
        fed(s, c, order).buy == run(s, c, c.len() as int).buy,
        fed(s, c, order).sell == run(s, c, c.len() as int).sell,
        fed(s, c, order).last_applied == reached(c, s.last_applied, c.len() as int),
        fed(s, c, order).scheduled.len() == 0,
{
    fed_follows_chain(s, c, order);
    missing_stops(arrived(order), 0, c.len() as int);
}

/// Two orders of arrival of the same chain give the same ladders.
pub proof fn two_orders_agree(s: BookState, c: Seq<DeltaView>, one: Seq<int>, other: Seq<int>)
    requires
        s.wf(),
        s.scheduled.len() == 0,
        linked(c, s.last_applied),
        forall|t: int| 0 <= t < one.len() ==> 0 <= #[trigger] one[t] < c.len(),
        forall|t: int| 0 <= t < other.len() ==> 0 <= #[trigger] other[t] < c.len(),
        forall|k: int| 0 <= k < c.len() ==> one.contains(k) && other.contains(k),
    ensures
        fed(s, c, one).buy == fed(s, c, other).buy,
        fed(s, c, one).sell == fed(s, c, other).sell,
        fed(s, c, one).last_applied == fed(s, c, other).last_applied,
        fed(s, c, one).scheduled == fed(s, c, other).scheduled,
{
    any_order_gives_the_chain(s, c, one);
    any_order_gives_the_chain(s, c, other);
    assert(fed(s, c, one).scheduled =~= fed(s, c, other).scheduled);
}

} // verus!
