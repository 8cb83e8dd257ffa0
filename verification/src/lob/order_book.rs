//! One side of the book as a bounded ladder, and the depth book that
//! reconciles deltas with snapshots.

use crate::common::{near, tick_near, Id, Level, Precision, Price, Qty};
use crate::decimal::{push_fixed, text_of};
use crate::lob::merge::{
    capped, emit, merged, merged_step, rank, resting, resting_step, updated, Rank,
};
pub use crate::lob::model::DepthUpdateError;
use crate::lob::model::{delta_views, find_first_id, put, put_at, put_back, put_keyed, BookState};
use crate::structure;
use crate::structure::{Delta, MDResponse, Snapshot, Trade};
use vstd::prelude::*;
use vstd::string::*;

verus! {

/// Executable form of [`rank`].
pub fn rank_of(x: &Level, y: &Level, side: structure::Side, tick: &Price) -> (r: Rank)
    ensures
        r == rank(*x, *y, side, *tick),
{
    if near(x.price.0, y.price.0, tick.0) {
        Rank::Same
    } else if x.price.0 > y.price.0 {
        match side {
            structure::Side::Buy => Rank::Before,
            structure::Side::Sell => Rank::After,
        }
    } else {
        match side {
            structure::Side::Buy => Rank::After,
            structure::Side::Sell => Rank::Before,
        }
    }
}

/// One side of the book: levels in side order, at most `limit` of them.
#[derive(Debug)]
pub struct Side {
    pub levels: Vec<Level>,
    limit: usize,
}

impl View for Side {
    type V = Seq<Level>;

    closed spec fn view(&self) -> Seq<Level> {
        self.levels@
    }
}

impl Side {
    /// The most levels the ladder retains.
    pub closed spec fn bound(self) -> nat {
        self.limit as nat
    }

    /// The most levels the ladder retains.
    pub fn limit(&self) -> (r: usize)
        ensures
            r == self.bound(),
    {
        self.limit
    }

    /// A ladder of the first `limit` of `levels`.
    pub fn from_vec(levels: Vec<Level>, limit: usize) -> (r: Self)
        ensures
            r@ == capped(levels@, limit as nat),
            r.bound() == limit,
    {
        let mut levels = levels;
        levels.truncate(limit);
        Side { levels, limit }
    }

    /// The levels of the ladder, best price first.
    pub fn levels(&self) -> (r: &Vec<Level>)
        ensures
            r@ == self@,
    {
        &self.levels
    }

    /// Appends `lvl` to `lvls` unless its quantity is tick-equivalent to
    /// zero; says whether it did.
    pub fn push_level(lvls: &mut Vec<Level>, lvl: Level, tick: &Qty) -> (r: bool)
        ensures
            r == !lvl.vanishes(*tick),
            final(lvls)@ == old(lvls)@ + emit(lvl, *tick),
    {
        let need_insert = !lvl.qty.same_tick(*tick);
        if need_insert {
            lvls.push(lvl);
        }
        need_insert
    }

    /// The index of the first level whose price is tick-equivalent to
    /// `price`; none on a ladder of fewer than two levels.
    pub fn get_level_id(&self, price: Price, tick_sz: &Precision) -> (r: Option<usize>)
        ensures
            match r {
                Some(i) => {
                    &&& self@.len() >= 2
                    &&& i < self@.len()
                    &&& tick_near(
                        self@[i as int].price.0 as int,
                        price.0 as int,
                        tick_sz.price.0 as int,
                    )
                    &&& forall|k: int|
                        0 <= k < i ==> !tick_near(
                            (#[trigger] self@[k]).price.0 as int,
                            price.0 as int,
                            tick_sz.price.0 as int,
                        )
                },
                None => self@.len() < 2 || forall|k: int|
                    0 <= k < self@.len() ==> !tick_near(
                        (#[trigger] self@[k]).price.0 as int,
                        price.0 as int,
                        tick_sz.price.0 as int,
                    ),
            },
    {
        if self.levels.len() < 2 {
            return None;
        }
        let mut idx: usize = 0;
        while idx < self.levels.len()
            invariant
                idx <= self.levels.len(),
                self.levels.len() >= 2,
                forall|k: int|
                    0 <= k < idx ==> !tick_near(
                        (#[trigger] self.levels@[k]).price.0 as int,
                        price.0 as int,
                        tick_sz.price.0 as int,
                    ),
            decreases self.levels.len() - idx,
        {
            if self.levels[idx].price.near(&price, &tick_sz.price) {
                return Some(idx);
            }
            idx = idx + 1;
        }
        None
    }

    /// Merges the diff `lvl` into the ladder under the order of `side` and
    /// cuts the result to the depth limit.
    pub fn update_diff(&mut self, lvl: Vec<Level>, side: structure::Side, prec: &Precision) -> (r:
        &Self)
        ensures
            final(self)@ == updated(old(self)@, lvl@, side, *prec, old(self).bound()),
            final(self).bound() == old(self).bound(),
            *r == *final(self),
    {
        let ghost a = self.levels@;
        let ghost b = lvl@;
        let ghost whole = merged(a, b, side, *prec);
        let mut new_levels: Vec<Level> = Vec::new();
        let mut i: usize = 0;
        let mut j: usize = 0;
        proof {
            assert(a.skip(0) =~= a);
            assert(b.skip(0) =~= b);
        }
        while i < self.levels.len() && j < lvl.len()
            invariant
                self.levels@ == a,
                lvl@ == b,
                i <= a.len(),
                j <= b.len(),
                new_levels@ + merged(a.skip(i as int), b.skip(j as int), side, *prec) == whole,
            decreases a.len() - i + b.len() - j,
        {
            let l1 = self.levels[i];
            let l2 = lvl[j];
            let ghost before = new_levels@;
            let ghost rest = merged(a.skip(i as int), b.skip(j as int), side, *prec);
            proof {
                merged_step(a, b, i as int, j as int, side, *prec);
            }
            match rank_of(&l1, &l2, side, &prec.price) {
                Rank::Before => {
                    Self::push_level(&mut new_levels, l1, &prec.qty);
                    i = i + 1;
                },
                Rank::Same => {
                    Self::push_level(&mut new_levels, l2, &prec.qty);
                    i = i + 1;
                    j = j + 1;
                },
                Rank::After => {
                    Self::push_level(&mut new_levels, l2, &prec.qty);
                    j = j + 1;
                },
            }
            proof {
                let next = merged(a.skip(i as int), b.skip(j as int), side, *prec);
                let put = new_levels@.skip(before.len() as int);
                assert(new_levels@ =~= before + put);
                assert(rest == put + next);
                assert(before + (put + next) =~= (before + put) + next);
            }
        }
        proof {
            if i == a.len() {
                assert(resting(a.skip(i as int), prec.qty) =~= Seq::<Level>::empty());
            } else {
                assert(resting(b.skip(j as int), prec.qty) =~= Seq::<Level>::empty());
            }
            assert(merged(a.skip(i as int), b.skip(j as int), side, *prec) =~= resting(
                a.skip(i as int),
                prec.qty,
            ) + resting(b.skip(j as int), prec.qty));
        }
        while i < self.levels.len()
            invariant
                self.levels@ == a,
                i <= a.len(),
                j <= b.len(),
                new_levels@ + (resting(a.skip(i as int), prec.qty) + resting(
                    b.skip(j as int),
                    prec.qty,
                )) == whole,
            decreases a.len() - i,
        {
            let ghost before = new_levels@;
            let ghost tail = resting(b.skip(j as int), prec.qty);
            proof {
                resting_step(a, i as int, prec.qty);
            }
            Self::push_level(&mut new_levels, self.levels[i], &prec.qty);
            proof {
                let put = emit(a[i as int], prec.qty);
                let next = resting(a.skip(i + 1), prec.qty);
                assert(before + ((put + next) + tail) =~= (before + put) + (next + tail));
            }
            i = i + 1;
        }
        proof {
            assert(resting(a.skip(i as int), prec.qty) =~= Seq::<Level>::empty());
            assert(new_levels@ + resting(b.skip(j as int), prec.qty) =~= whole);
        }
        while j < lvl.len()
            invariant
                lvl@ == b,
                j <= b.len(),
                new_levels@ + resting(b.skip(j as int), prec.qty) == whole,
            decreases b.len() - j,
        {
            let ghost before = new_levels@;
            proof {
                resting_step(b, j as int, prec.qty);
            }
            Self::push_level(&mut new_levels, lvl[j], &prec.qty);
            proof {
                let put = emit(b[j as int], prec.qty);
                let next = resting(b.skip(j + 1), prec.qty);
                assert(before + (put + next) =~= (before + put) + next);
            }
            j = j + 1;
        }
        proof {
            assert(resting(b.skip(j as int), prec.qty) =~= Seq::<Level>::empty());
            assert(new_levels@ =~= whole);
        }
        new_levels.truncate(self.limit);
        self.levels = new_levels;
        self
    }
}

/// How the precursor id of a delta stands to the id the book is current at.
#[derive(Clone, Copy, Debug, PartialEq, Eq, Structural)]
pub enum Continuity {
    /// The precursor lies behind the book: the delta is already covered.
    Covered,
    /// The precursor is the id the book is current at.
    Contiguous,
    /// The precursor lies ahead of the book: deltas are missing in between.
    Gap,
}

/// Buffers `d` at the place of its first id, replacing a delta with the same
/// first id.
pub fn schedule(events: &mut Vec<Delta>, d: Delta)
    ensures
        delta_views(final(events)@) == put(delta_views(old(events)@), d@),
{
    let ghost before = delta_views(events@);
    let mut i: usize = 0;
    while i < events.len() && events[i].first.0 < d.first.0
        invariant
            i <= events.len(),
            events@ == old(events)@,
            forall|k: int| 0 <= k < i ==> (#[trigger] events@[k]).first.0 < d.first.0,
        decreases events.len() - i,
    {
        i = i + 1;
    }
    proof {
        assert forall|k: int| 0 <= k < i implies (#[trigger] before[k]).first.0 < d.first.0 by {
            assert(before[k] == events@[k]@);
        }
        put_at(before, d@, i as int);
    }
    if i == events.len() {
        events.push(d);
        proof {
            assert(delta_views(events@) =~= before.push(d@));
        }
    } else if events[i].first.0 == d.first.0 {
        events.set(i, d);
        proof {
            assert(delta_views(events@) =~= before.update(i as int, d@));
        }
    } else {
        events.insert(i, d);
        proof {
            assert(delta_views(events@) =~= before.insert(i as int, d@));
        }
    }
}

/// One line of a shown ladder: the price, a dash between blanks, the
/// quantity, and a line feed.
pub open spec fn row_text(l: Level) -> Seq<char> {
    text_of(l.price.0 as int) + " - "@ + text_of(l.qty.0 as int) + "\n"@
}

/// The lines of a run of levels, in its order.
pub open spec fn rows_text(s: Seq<Level>) -> Seq<char>
    decreases s.len(),
{
    if s.len() == 0 {
        Seq::empty()
    } else {
        rows_text(s.drop_last()) + row_text(s.last())
    }
}

/// A shown book: a heading, the asks from the highest price down, a rule,
/// and the bids from the highest price down.
pub open spec fn book_text(asks: Seq<Level>, bids: Seq<Level>) -> Seq<char> {
    "depthbook updated: \n"@ + rows_text(asks) + "=======================\n"@ + rows_text(bids)
}

/// Appends the lines of `levels` to `out`.
fn push_rows(out: &mut String, levels: &Vec<Level>)
    ensures
        final(out)@ == old(out)@ + rows_text(levels@),
{
    let ghost start = out@;
    let mut i: usize = 0;
    proof {
        assert(levels@.take(0) =~= Seq::<Level>::empty());
        assert(out@ =~= start + rows_text(levels@.take(0)));
    }
    while i < levels.len()
        invariant
            i <= levels.len(),
            out@ == start + rows_text(levels@.take(i as int)),
        decreases levels.len() - i,
    {
        let ghost before = out@;
        let l = levels[i];
        push_fixed(out, l.price.0);
        out.append(" - ");
        push_fixed(out, l.qty.0);
        out.append("\n");
        proof {
            assert(levels@.take(i + 1).drop_last() =~= levels@.take(i as int));
            assert(levels@.take(i + 1).last() == l);
            assert(out@ =~= before + row_text(l));
            assert(out@ =~= start + rows_text(levels@.take(i + 1)));
        }
        i = i + 1;
    }
    proof {
        assert(levels@.take(levels@.len() as int) =~= levels@);
    }
}

/// What a book shows: the asks from the highest price down, and below them
/// the bids from the highest price down.
#[derive(Debug)]
pub struct BookRows {
    pub asks: Vec<Level>,
    pub bids: Vec<Level>,
}

impl BookRows {
    /// The rows as text.
    pub fn to_string(&self) -> (r: String)
        ensures
            r@ == book_text(self.asks@, self.bids@),
    {
        let mut out = String::new();
        out.append("depthbook updated: \n");
        push_rows(&mut out, &self.asks);
        out.append("=======================\n");
        push_rows(&mut out, &self.bids);
        proof {
            assert(out@ =~= book_text(self.asks@, self.bids@));
        }
        out
    }
}

/// The depth book of one instrument.
#[derive(Debug)]
pub struct OrderBook {
    buy: Side,
    sell: Side,
    scheduled: Vec<Delta>,
    snapshot_requested: bool,
    last_applied: Id,
    skip_limit: Id,
    depth_limit: usize,
    precision: Precision,
}

impl View for OrderBook {
    type V = BookState;

    closed spec fn view(&self) -> BookState {
        BookState {
            buy: self.buy@,
            sell: self.sell@,
            scheduled: delta_views(self.scheduled@),
            snapshot_requested: self.snapshot_requested,
            last_applied: self.last_applied,
            skip_limit: self.skip_limit,
            depth_limit: self.depth_limit as nat,
            precision: self.precision,
        }
    }
}

impl OrderBook {
    /// Both ladders are bounded by the depth limit of the book.
    pub closed spec fn limits_agree(&self) -> bool {
        self.buy.bound() == self.depth_limit && self.sell.bound() == self.depth_limit
    }

    /// Validity of a book: every constructor gives it and every update keeps
    /// it.
    pub open spec fn wf(&self) -> bool {
        self@.wf() && self.limits_agree()
    }

    /// The fresh book of an instrument with tick sizes `precision`, ladders
    /// of at most `depth_limit` levels and a horizon of 100 ids.
    pub fn new(precision: Precision, depth_limit: usize) -> (r: OrderBook)
        ensures
            r.wf(),
            r@ == BookState::fresh(precision, depth_limit as nat, Id(100)),
    {
        let r = OrderBook {
            buy: Side::from_vec(Vec::new(), depth_limit),
            sell: Side::from_vec(Vec::new(), depth_limit),
            scheduled: Vec::new(),
            snapshot_requested: false,
            last_applied: Id(0),
            skip_limit: Id(100),
            depth_limit,
            precision,
        };
        proof {
            assert(r@.scheduled =~= Seq::<structure::DeltaView>::empty());
            assert(r@.buy =~= Seq::<Level>::empty());
            assert(r@.sell =~= Seq::<Level>::empty());
        }
        r
    }

    /// The same book with a horizon of `skip_limit` ids.
    pub fn with_skip_limit(self, skip_limit: Id) -> (r: OrderBook)
        requires
            self.wf(),
        ensures
            r.wf(),
            r@ == (BookState { skip_limit, ..self@ }),
    {
        let mut r = self;
        r.skip_limit = skip_limit;
        r
    }

    /// The buy ladder, highest price first.
    pub fn buy_levels(&self) -> (r: &Vec<Level>)
        ensures
            r@ == self@.buy,
    {
        self.buy.levels()
    }

    /// The sell ladder, lowest price first.
    pub fn sell_levels(&self) -> (r: &Vec<Level>)
        ensures
            r@ == self@.sell,
    {
        self.sell.levels()
    }

    /// The id up to which the ladders are current.
    pub fn last_applied(&self) -> (r: Id)
        ensures
            r == self@.last_applied,
    {
        self.last_applied
    }

    /// The horizon: how many ids the book may lag before it is stale.
    pub fn skip_limit(&self) -> (r: Id)
        ensures
            r == self@.skip_limit,
    {
        self.skip_limit
    }

    /// The most levels either ladder retains.
    pub fn depth_limit(&self) -> (r: usize)
        ensures
            r == self@.depth_limit,
    {
        self.depth_limit
    }

    /// The tick sizes the book compares with.
    pub fn precision(&self) -> (r: Precision)
        ensures
            r == self@.precision,
    {
        self.precision
    }

    /// Whether a snapshot has been asked for and not yet received.
    pub fn snapshot_requested(&self) -> (r: bool)
        ensures
            r == self@.snapshot_requested,
    {
        self.snapshot_requested
    }

    /// How many deltas wait in the buffer.
    pub fn scheduled_len(&self) -> (r: usize)
        ensures
            r == self@.scheduled.len(),
    {
        self.scheduled.len()
    }

    /// The ladders in the order in which a book is shown.
    pub fn rows(&self) -> (r: BookRows)
        ensures
            r.asks@ == self@.sell.reverse(),
            r.bids@ == self@.buy,
    {
        let sells = self.sell.levels();
        let n = sells.len();
        let mut asks: Vec<Level> = Vec::new();
        let mut i: usize = 0;
        while i < n
            invariant
                i <= n,
                n == sells@.len(),
                asks@.len() == i,
                forall|k: int| 0 <= k < i ==> #[trigger] asks@[k] == sells@[n - 1 - k],
            decreases n - i,
        {
            asks.push(sells[n - 1 - i]);
            i = i + 1;
        }
        proof {
            assert(asks@ =~= sells@.reverse());
        }
        BookRows { asks, bids: self.buy.levels().clone() }
    }

    /// The book as it is shown.
    pub fn to_string(&self) -> (r: String)
        ensures
            r@ == book_text(self@.sell.reverse(), self@.buy),
    {
        self.rows().to_string()
    }

    /// Applies one message to the book.  A ping is no message for a book.
    pub fn apply(&mut self, upd: MDResponse) -> (r: Result<&Self, DepthUpdateError>)
        requires
            old(self).wf(),
            !(upd is Ping),
        ensures
            final(self).wf(),
            final(self)@ == old(self)@.apply(upd@).0,
            match r {
                Ok(book) => old(self)@.apply(upd@).1 is None && *book == *final(self),
                Err(e) => old(self)@.apply(upd@).1 == Some(e),
            },
    {
        match upd {
            MDResponse::Trade(trade) => self.apply_trade(trade),
            MDResponse::Snapshot(snapshot) => self.apply_snapshot(snapshot),
            MDResponse::Delta(delta) => {
                proof {
                    put_keyed(self@.scheduled, delta@);
                }
                schedule(&mut self.scheduled, delta);
                self.try_apply_scheduled()
            },
            MDResponse::Ping => Ok(self),
        }
    }

    /// The continuity point that a snapshot with id `snap_id` finds among the
    /// buffered deltas.
    pub fn find_first_id(snap_id: Id, events: &Vec<Delta>) -> (r: Option<Id>)
        ensures
            r == find_first_id(snap_id, delta_views(events@)),
    {
        let ghost all = delta_views(events@);
        let mut i: usize = 0;
        proof {
            assert(all.skip(0) =~= all);
        }
        while i < events.len()
            invariant
                i <= events.len(),
                all == delta_views(events@),
                find_first_id(snap_id, all.skip(i as int)) == find_first_id(snap_id, all),
            decreases events.len() - i,
        {
            let v = &events[i];
            proof {
                assert(all.skip(i as int)[0] == v@);
                assert(all.skip(i as int).drop_first() =~= all.skip(i + 1));
            }
            if v.last.0 < snap_id.0 {
                i = i + 1;
            } else if v.first.0 <= snap_id.0 {
                return Some(v.last_stream);
            } else {
                return None;
            }
        }
        None
    }

    fn apply_snapshot(&mut self, snapshot: Snapshot) -> (r: Result<&Self, DepthUpdateError>)
        requires
            old(self).wf(),
        ensures
            final(self).wf(),
            final(self)@ == old(self)@.apply_snapshot(snapshot@).0,
            match r {
                Ok(book) => *book == *final(self) && old(self)@.apply_snapshot(
                    snapshot@,
                ).1 is None,
                Err(e) => old(self)@.apply_snapshot(snapshot@).1 == Some(e),
            },
    {
        self.snapshot_requested = false;
        if !self.is_stale_depth(snapshot.last) {
            return Ok(self);
        }
        self.buy = Side::from_vec(snapshot.buy, self.depth_limit);
        self.sell = Side::from_vec(snapshot.sell, self.depth_limit);
        match Self::find_first_id(snapshot.last, &self.scheduled) {
            Some(x) => {
                self.last_applied = x;
                self.try_apply_scheduled()
            },
            None => {
                self.snapshot_requested = true;
                Err(DepthUpdateError::DepthStale)
            },
        }
    }

    /// The place and the quantity of the ladder level that `lvl` names on
    /// `side`, as [`Side::get_level_id`] finds it.
    pub fn match_lvl(&self, lvl: Level, side: structure::Side) -> (r: Option<(usize, Qty)>)
        ensures
            ({
                let ladder = match side {
                    structure::Side::Buy => self@.buy,
                    structure::Side::Sell => self@.sell,
                };
                let tick = self@.precision.price.0 as int;
                match r {
                    Some((i, qty)) => {
                        &&& ladder.len() >= 2
                        &&& i < ladder.len()
                        &&& qty == ladder[i as int].qty
                        &&& tick_near(ladder[i as int].price.0 as int, lvl.price.0 as int, tick)
                        &&& forall|k: int|
                            0 <= k < i ==> !tick_near(
                                (#[trigger] ladder[k]).price.0 as int,
                                lvl.price.0 as int,
                                tick,
                            )
                    },
                    None => ladder.len() < 2 || forall|k: int|
                        0 <= k < ladder.len() ==> !tick_near(
                            (#[trigger] ladder[k]).price.0 as int,
                            lvl.price.0 as int,
                            tick,
                        ),
                }
            }),
    {
        let direction = match side {
            structure::Side::Buy => &self.buy,
            structure::Side::Sell => &self.sell,
        };
        match direction.get_level_id(lvl.price, &self.precision) {
            Some(lvl_id) => Some((lvl_id, direction.levels[lvl_id].qty)),
            None => None,
        }
    }

    fn apply_trade(&mut self, _upd: Trade) -> (r: Result<&Self, DepthUpdateError>)
        ensures
            *final(self) == *old(self),
            r matches Ok(book) && *book == *final(self),
    {
        Ok(self)
    }

    fn add_diff(&mut self, delta: Delta)
        requires
            old(self).wf(),
        ensures
            final(self).wf(),
            final(self)@ == old(self)@.add_diff(delta@),
    {
        self.sell.update_diff(delta.sell, structure::Side::Sell, &self.precision);
        self.buy.update_diff(delta.buy, structure::Side::Buy, &self.precision);
        self.last_applied = delta.last;
    }

    fn match_id(&self, id: Id) -> (r: Continuity)
        ensures
            id.0 < self@.last_applied.0 ==> r == Continuity::Covered,
            id.0 == self@.last_applied.0 ==> r == Continuity::Contiguous,
            id.0 > self@.last_applied.0 ==> r == Continuity::Gap,
    {
        if id.0 < self.last_applied.0 {
            Continuity::Covered
        } else if id.0 == self.last_applied.0 {
            Continuity::Contiguous
        } else {
            Continuity::Gap
        }
    }

    /// Whether `id` lies beyond the horizon of the book.
    pub fn is_stale_depth(&self, id: Id) -> (r: bool)
        ensures
            r == self@.is_stale_depth(id),
    {
        let reach: u128 = self.last_applied.0 as u128 + self.skip_limit.0 as u128;
        reach < id.0 as u128
    }

    fn try_apply_scheduled(&mut self) -> (r: Result<&Self, DepthUpdateError>)
        requires
            old(self).wf(),
        ensures
            final(self).wf(),
            final(self)@ == old(self)@.try_apply_scheduled().0,
            match r {
                Ok(book) => old(self)@.try_apply_scheduled().1 is None && *book == *final(self),
                Err(e) => old(self)@.try_apply_scheduled().1 == Some(e),
            },
    {
        let ghost start = self@;
        let mut error: Option<DepthUpdateError> = None;
        while self.scheduled.len() > 0
            invariant
                self.wf(),
                start == old(self)@,
                self@.drain(error) == start.drain(None),
            decreases self.scheduled.len(),
        {
            let ghost prev = self@;
            let v = self.scheduled.remove(0);
            proof {
                assert(v@ == prev.scheduled[0]);
                assert(delta_views(self.scheduled@) =~= prev.scheduled.drop_first());
                assert(self@ == prev.popped());
                put_back(prev.scheduled);
                put_keyed(self@.scheduled, v@);
            }
            let res = self.try_apply_delta(v);
            match res {
                Some(DepthUpdateError::StaleUpdate) => {
                    error = Some(DepthUpdateError::StaleUpdate);
                },
                Some(err) => {
                    return Err(err);
                },
                None => {
                    error = None;
                },
            }
        }
        match error {
            None => Ok(self),
            Some(err) => Err(err),
        }
    }

    fn try_apply_delta(&mut self, delta: Delta) -> (r: Option<DepthUpdateError>)
        requires
            old(self).wf(),
        ensures
            final(self).wf(),
            (final(self)@, r) == old(self)@.try_apply_delta(delta@),
    {
        match self.match_id(delta.last_stream) {
            Continuity::Covered => Some(DepthUpdateError::StaleUpdate),
            Continuity::Contiguous => {
                self.add_diff(delta);
                None
            },
            Continuity::Gap => {
                let id = delta.first;
                proof {
                    put_keyed(self@.scheduled, delta@);
                }
                schedule(&mut self.scheduled, delta);
                Some(
                    if self.is_stale_depth(id) {
                        if self.snapshot_requested {
                            DepthUpdateError::WaitSnapshot
                        } else {
                            self.snapshot_requested = true;
                            DepthUpdateError::DepthStale
                        }
                    } else {
                        DepthUpdateError::MissedUpdate
                    },
                )
            },
        }
    }
}

} // verus!
