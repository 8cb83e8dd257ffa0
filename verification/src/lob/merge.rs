//! The merge of a ladder with an incoming diff, as a mathematical function.
//!
//! A ladder and a diff are both sequences of levels in side order: best price
//! first, so descending prices on the buy side and ascending prices on the
//! sell side.  The merge walks both from the front.  Where the heads name the
//! same price under the tick, the diff's level supersedes the ladder's; a
//! level whose quantity is tick-equivalent to zero is never emitted, which is
//! how a diff deletes a price.

use crate::common::{tick_near, Level, Precision, Price, Qty};
use crate::structure::Side;
use vstd::prelude::*;

verus! {

/// Where one level stands relative to another in side order.
pub enum Rank {
    /// Strictly better-priced: it comes first.
    Before,
    /// The same price under the tick.
    Same,
    /// Strictly worse-priced: it comes later.
    After,
}

/// The side order on levels: tick-equivalent prices rank the same; otherwise
/// the higher price comes first on the buy side and later on the sell side.
pub open spec fn rank(x: Level, y: Level, side: Side, tick: Price) -> Rank {
    if tick_near(x.price.0 as int, y.price.0 as int, tick.0 as int) {
        Rank::Same
    } else if x.price.0 > y.price.0 {
        match side {
            Side::Buy => Rank::Before,
            Side::Sell => Rank::After,
        }
    } else {
        match side {
            Side::Buy => Rank::After,
            Side::Sell => Rank::Before,
        }
    }
}

/// What emitting one level adds to the output: the level itself, or nothing
/// when its quantity is tick-equivalent to zero.
pub open spec fn emit(l: Level, qty_tick: Qty) -> Seq<Level> {
    if l.vanishes(qty_tick) {
        Seq::empty()
    } else {
        seq![l]
    }
}

/// The levels of `s` that rest in the book, in their order: all but those of
/// vanishing quantity.
pub open spec fn resting(s: Seq<Level>, qty_tick: Qty) -> Seq<Level>
    decreases s.len(),
{
    if s.len() == 0 {
        Seq::empty()
    } else {
        emit(s[0], qty_tick) + resting(s.drop_first(), qty_tick)
    }
}

/// The merge of ladder `a` with diff `b` before truncation.
pub open spec fn merged(a: Seq<Level>, b: Seq<Level>, side: Side, prec: Precision) -> Seq<Level>
    decreases a.len() + b.len(),
{
    if a.len() == 0 {
        resting(b, prec.qty)
    } else if b.len() == 0 {
        resting(a, prec.qty)
    } else {
        match rank(a[0], b[0], side, prec.price) {
            Rank::Before => emit(a[0], prec.qty) + merged(a.drop_first(), b, side, prec),
            Rank::Same => emit(b[0], prec.qty) + merged(
                a.drop_first(),
                b.drop_first(),
                side,
                prec,
            ),
            Rank::After => emit(b[0], prec.qty) + merged(a, b.drop_first(), side, prec),
        }
    }
}

/// The first `limit` elements of `s`, or all of it when it has fewer.
pub open spec fn capped<T>(s: Seq<T>, limit: nat) -> Seq<T> {
    if s.len() > limit {
        s.take(limit as int)
    } else {
        s
    }
}

/// The ladder after a diff: the merge, cut to the depth limit.
pub open spec fn updated(
    a: Seq<Level>,
    b: Seq<Level>,
    side: Side,
    prec: Precision,
    limit: nat,
) -> Seq<Level> {
    capped(merged(a, b, side, prec), limit)
}

/// Unfolds `resting` one level from position `i` of `s`.
pub proof fn resting_step(s: Seq<Level>, i: int, qty_tick: Qty)
    requires
        0 <= i < s.len(),
    ensures
        resting(s.skip(i), qty_tick) == emit(s[i], qty_tick) + resting(s.skip(i + 1), qty_tick),
{
    assert(s.skip(i).drop_first() =~= s.skip(i + 1));
}

/// Unfolds `merged` one step from positions `i` of `a` and `j` of `b`.
pub proof fn merged_step(a: Seq<Level>, b: Seq<Level>, i: int, j: int, side: Side, prec: Precision)
    requires
        0 <= i < a.len(),
        0 <= j < b.len(),
    ensures
        merged(a.skip(i), b.skip(j), side, prec) == match rank(a[i], b[j], side, prec.price) {
            Rank::Before => emit(a[i], prec.qty) + merged(a.skip(i + 1), b.skip(j), side, prec),
            Rank::Same => emit(b[j], prec.qty) + merged(
                a.skip(i + 1),
                b.skip(j + 1),
                side,
                prec,
            ),
            Rank::After => emit(b[j], prec.qty) + merged(a.skip(i), b.skip(j + 1), side, prec),
        },
{
    assert(a.skip(i).drop_first() =~= a.skip(i + 1));
    assert(b.skip(j).drop_first() =~= b.skip(j + 1));
}

/// Every price of `s` is a whole number of ticks.
pub open spec fn aligned(s: Seq<Level>, tick: Price) -> bool {
    forall|i: int| 0 <= i < s.len() ==> (#[trigger] s[i]).price.0 as int % tick.0 as int == 0
}

/// `s` is strictly monotone in side order: each level ranks before every
/// later one, so no two of its prices are tick-equivalent.
pub open spec fn ordered(s: Seq<Level>, side: Side, tick: Price) -> bool {
    forall|i: int, j: int| 0 <= i < j < s.len() ==> rank(s[i], s[j], side, tick) is Before
}

/// A ladder in good order: on the tick grid and strictly monotone.
pub open spec fn tidy(s: Seq<Level>, side: Side, tick: Price) -> bool {
    aligned(s, tick) && ordered(s, side, tick)
}

/// On the tick grid, two prices are tick-equivalent only when they are equal,
/// and the side order is the strict order of the prices.
pub proof fn rank_on_grid(x: Level, y: Level, side: Side, tick: Price)
    requires
        tick.0 > 0,
        x.price.0 as int % tick.0 as int == 0,
        y.price.0 as int % tick.0 as int == 0,
    ensures
        rank(x, y, side, tick) is Same <==> x.price.0 == y.price.0,
        rank(x, y, side, tick) is Before <==> match side {
            Side::Buy => x.price.0 > y.price.0,
            Side::Sell => x.price.0 < y.price.0,
        },
{
    let t = tick.0 as int;
    let a = x.price.0 as int;
    let b = y.price.0 as int;
    if a != b {
        let qa = a / t;
        let qb = b / t;
        assert(a == t * qa && b == t * qb) by {
            vstd::arithmetic::div_mod::lemma_fundamental_div_mod(a, t);
            vstd::arithmetic::div_mod::lemma_fundamental_div_mod(b, t);
        }
        assert(qa != qb);
        if qa > qb {
            assert(a - b >= t) by (nonlinear_arith)
                requires
                    a == t * qa,
                    b == t * qb,
                    qa > qb,
                    t > 0,
            ;
        } else {
            assert(b - a >= t) by (nonlinear_arith)
                requires
                    a == t * qa,
                    b == t * qb,
                    qa < qb,
                    t > 0,
            ;
        }
        assert(!tick_near(a, b, t));
    }
}

/// The resting levels of a run are levels of the run, and stay in order.
pub proof fn resting_ordered(s: Seq<Level>, side: Side, prec: Precision)
    requires
        ordered(s, side, prec.price),
    ensures
        ordered(resting(s, prec.qty), side, prec.price),
        forall|k: int|
            0 <= k < resting(s, prec.qty).len() ==> s.contains(#[trigger] resting(s, prec.qty)[k]),
        forall|k: int|
            0 <= k < resting(s, prec.qty).len() ==> !(#[trigger] resting(s, prec.qty)[k]).vanishes(
                prec.qty,
            ),
    decreases s.len(),
{
    let r = resting(s, prec.qty);
    if s.len() > 0 {
        let t = s.drop_first();
        let rt = resting(t, prec.qty);
        assert forall|i: int, j: int| 0 <= i < j < t.len() implies rank(
            t[i],
            t[j],
            side,
            prec.price,
        ) is Before by {
            assert(t[i] == s[i + 1] && t[j] == s[j + 1]);
        }
        resting_ordered(t, side, prec);
        let head = emit(s[0], prec.qty);
        assert forall|k: int| 0 <= k < rt.len() implies s.contains(#[trigger] rt[k]) && rank(
            s[0],
            rt[k],
            side,
            prec.price,
        ) is Before by {
            assert(t.contains(rt[k]));
            let m = choose|m: int| 0 <= m < t.len() && t[m] == rt[k];
            assert(s[m + 1] == rt[k]);
        }
        assert forall|k: int| 0 <= k < r.len() implies s.contains(#[trigger] r[k]) && !r[
            k
        ].vanishes(prec.qty) by {
            if k < head.len() {
                assert(r[k] == s[0]);
            } else {
                assert(r[k] == rt[k - head.len()]);
            }
        }
        assert forall|i: int, j: int| 0 <= i < j < r.len() implies rank(
            r[i],
            r[j],
            side,
            prec.price,
        ) is Before by {
            if i < head.len() {
                assert(r[i] == s[0]);
                assert(r[j] == rt[j - head.len()]);
            } else {
                assert(r[i] == rt[i - head.len()]);
                assert(r[j] == rt[j - head.len()]);
            }
        }
    }
}

/// The merge of two ladders in good order is in good order, and every level
/// of it is a level of one of the two that does not vanish.
pub proof fn merged_tidy(a: Seq<Level>, b: Seq<Level>, side: Side, prec: Precision)
    requires
        prec.price.0 > 0,
        tidy(a, side, prec.price),
        tidy(b, side, prec.price),
    ensures
        tidy(merged(a, b, side, prec), side, prec.price),
        forall|k: int|
            0 <= k < merged(a, b, side, prec).len() ==> {
                let l = #[trigger] merged(a, b, side, prec)[k];
                (a.contains(l) || b.contains(l)) && !l.vanishes(prec.qty)
            },
    decreases a.len() + b.len(),
{
    let m = merged(a, b, side, prec);
    let tick = prec.price;
    if a.len() == 0 {
        resting_ordered(b, side, prec);
    } else if b.len() == 0 {
        resting_ordered(a, side, prec);
    } else {
        let a1 = a.drop_first();
        let b1 = b.drop_first();
        assert forall|i: int| 0 <= i < a1.len() implies #[trigger] a1[i] == a[i + 1] by {}
        assert forall|i: int| 0 <= i < b1.len() implies #[trigger] b1[i] == b[i + 1] by {}
        assert(tidy(a1, side, tick)) by {
            assert forall|i: int, j: int| 0 <= i < j < a1.len() implies rank(
                a1[i],
                a1[j],
                side,
                tick,
            ) is Before by {
                assert(a1[i] == a[i + 1] && a1[j] == a[j + 1]);
            }
        }
        assert(tidy(b1, side, tick)) by {
            assert forall|i: int, j: int| 0 <= i < j < b1.len() implies rank(
                b1[i],
                b1[j],
                side,
                tick,
            ) is Before by {
                assert(b1[i] == b[i + 1] && b1[j] == b[j + 1]);
            }
        }
        rank_on_grid(a[0], b[0], side, tick);
        let (head, rest, ra, rb) = match rank(a[0], b[0], side, tick) {
            Rank::Before => (a[0], merged(a1, b, side, prec), a1, b),
            Rank::Same => (b[0], merged(a1, b1, side, prec), a1, b1),
            Rank::After => (b[0], merged(a, b1, side, prec), a, b1),
        };
        merged_tidy(ra, rb, side, prec);
        let put = emit(head, prec.qty);
        assert(m == put + rest);
        assert forall|k: int| 0 <= k < rest.len() implies {
            let l = #[trigger] rest[k];
            &&& (a.contains(l) || b.contains(l))
            &&& l.price.0 as int % tick.0 as int == 0
            &&& rank(head, l, side, tick) is Before
        } by {
            let l = rest[k];
            assert(ra.contains(l) || rb.contains(l));
            if ra.contains(l) {
                let i = choose|i: int| 0 <= i < ra.len() && ra[i] == l;
                if rank(a[0], b[0], side, tick) is After {
                    assert(a[i] == l);
                    rank_on_grid(a[0], l, side, tick);
                    rank_on_grid(head, l, side, tick);
                } else {
                    assert(a[i + 1] == l);
                    assert(rank(a[0], a[i + 1], side, tick) is Before);
                    rank_on_grid(a[0], l, side, tick);
                    rank_on_grid(head, l, side, tick);
                }
            } else {
                let j = choose|j: int| 0 <= j < rb.len() && rb[j] == l;
                if rank(a[0], b[0], side, tick) is Before {
                    assert(b[j] == l);
                    rank_on_grid(b[0], l, side, tick);
                    rank_on_grid(head, l, side, tick);
                } else {
                    assert(b[j + 1] == l);
                    assert(rank(b[0], b[j + 1], side, tick) is Before);
                    rank_on_grid(b[0], l, side, tick);
                    rank_on_grid(head, l, side, tick);
                }
            }
        }
        assert(a.contains(a[0]) && b.contains(b[0]));
        assert forall|k: int| 0 <= k < m.len() implies {
            let l = #[trigger] m[k];
            (a.contains(l) || b.contains(l)) && !l.vanishes(prec.qty) && l.price.0 as int
                % tick.0 as int == 0
        } by {
            if k < put.len() {
                assert(m[k] == head);
            } else {
                assert(m[k] == rest[k - put.len()]);
            }
        }
        assert forall|i: int, j: int| 0 <= i < j < m.len() implies rank(
            m[i],
            m[j],
            side,
            tick,
        ) is Before by {
            if i < put.len() {
                assert(m[i] == head);
                assert(m[j] == rest[j - put.len()]);
            } else {
                assert(m[i] == rest[i - put.len()]);
                assert(m[j] == rest[j - put.len()]);
            }
        }
    }
}

/// Cutting a ladder in good order to a limit leaves it in good order.
pub proof fn capped_tidy(s: Seq<Level>, side: Side, tick: Price, limit: nat)
    requires
        tidy(s, side, tick),
    ensures
        tidy(capped(s, limit), side, tick),
        capped(s, limit).len() <= limit,
        forall|k: int| 0 <= k < capped(s, limit).len() ==> #[trigger] capped(s, limit)[k] == s[k],
{
}

/// A ladder in good order, updated with a diff in good order, is in good
/// order, within its limit, and free of vanishing levels.
pub proof fn updated_tidy(a: Seq<Level>, b: Seq<Level>, side: Side, prec: Precision, limit: nat)
    requires
        prec.price.0 > 0,
        tidy(a, side, prec.price),
        tidy(b, side, prec.price),
    ensures
        tidy(updated(a, b, side, prec, limit), side, prec.price),
        updated(a, b, side, prec, limit).len() <= limit,
        forall|k: int|
            0 <= k < updated(a, b, side, prec, limit).len() ==> !(#[trigger] updated(
                a,
                b,
                side,
                prec,
                limit,
            )[k]).vanishes(prec.qty),
{
    merged_tidy(a, b, side, prec);
    capped_tidy(merged(a, b, side, prec), side, prec.price, limit);
}

} // verus!
