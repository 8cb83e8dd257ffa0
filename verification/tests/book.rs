use depthbook::common::{Id, Level, Precision, Price, Qty};
use depthbook::lob::order_book::{DepthUpdateError, OrderBook, Side};
use depthbook::structure;
use depthbook::structure::{Coin, Delta, Exchange, Feed, Instrument, MDResponse, Snapshot, Trade};

const UNIT: i64 = 100_000_000;

fn lvl(price: f64, qty: f64) -> Level {
    Level::new(
        Price::new((price * UNIT as f64).round() as i64),
        Qty::new((qty * UNIT as f64).round() as i64),
    )
}

fn gen_prec(price: f64, qty: f64) -> Precision {
    Precision::new(
        Price::new((price * UNIT as f64).round() as i64),
        Qty::new((qty * UNIT as f64).round() as i64),
    )
}

fn any_inst(tick_sz: f64) -> Instrument {
    Instrument::new(
        Coin("BTC".into()),
        Coin("USD".into()),
        Feed::PERP,
        Exchange::BINANCE,
        gen_prec(tick_sz, tick_sz),
        "BTCUSD".into(),
    )
}

fn compare_lvls(lvl1: &Vec<Level>, lvl2: &Vec<Level>, precision: &Precision) {
    for (v1, v2) in lvl1.iter().zip(lvl2.iter()) {
        assert!(v1.eq(*v2, precision));
    }
}

fn compare(depth: &OrderBook, buy: Vec<Level>, sell: Vec<Level>, precision: &Precision) {
    compare_lvls(&buy, depth.buy_levels(), precision);
    compare_lvls(&sell, depth.sell_levels(), precision);
}

fn delta(buy: Vec<Level>, sell: Vec<Level>, first: u64, last: u64, last_stream: u64) -> MDResponse {
    MDResponse::Delta(Delta::new(any_inst(0.01), buy, sell, Id(first), Id(last), Id(last_stream)))
}

fn snapshot(buy: Vec<Level>, sell: Vec<Level>, last: u64) -> MDResponse {
    MDResponse::Snapshot(Snapshot::new(any_inst(0.01), buy, sell, Id(last), 0))
}

fn delta1() -> MDResponse {
    delta(
        vec![lvl(10., 10.), lvl(11., 10.)],
        vec![lvl(9.99, 100.), lvl(9.98, 100.)],
        199,
        201,
        198,
    )
}

fn delta2() -> MDResponse {
    delta(
        vec![lvl(101., 5.), lvl(102., 10.)],
        vec![lvl(99.99, 10.), lvl(99.98, 10.)],
        202,
        210,
        201,
    )
}

fn snapshot202() -> MDResponse {
    snapshot(
        vec![lvl(100., 100.), lvl(101., 10.)],
        vec![lvl(99.99, 100.), lvl(99.98, 100.)],
        202,
    )
}

#[test]
fn simple_update() {
    const TICK_SZ: f64 = 0.01;
    let inst: Instrument = any_inst(TICK_SZ);
    const FINAL_SZ: usize = 4;

    let mut book = OrderBook::new(inst.precision, FINAL_SZ);

    let buy_prev = vec![lvl(10., 10.), lvl(11., 10.)];
    let sell_prev = vec![lvl(9.99, 100.), lvl(9.98, 100.)];
    let delta1 = MDResponse::Delta(Delta::new(
        inst.clone(),
        buy_prev,
        sell_prev,
        book.skip_limit() + Id(99),
        book.skip_limit() + Id(101),
        book.skip_limit() + Id(98),
    ));

    let buy_post = vec![lvl(101., 5.), lvl(102., 10.)];
    let sell_post = vec![lvl(99.99, 10.), lvl(99.98, 10.)];
    let delta2 = MDResponse::Delta(Delta::new(
        inst.clone(),
        buy_post.clone(),
        sell_post.clone(),
        book.skip_limit() + Id(102),
        book.skip_limit() + Id(110),
        book.skip_limit() + Id(101),
    ));

    let buy = vec![lvl(100., 100.), lvl(101., 10.)];
    let sell = vec![lvl(99.99, 100.), lvl(99.98, 100.)];
    let _false_snapshot = MDResponse::Snapshot(Snapshot::new(
        inst.clone(),
        buy.clone(),
        sell.clone(),
        book.skip_limit() + Id(100),
        0,
    ));
    let snapshot = MDResponse::Snapshot(Snapshot::new(
        inst.clone(),
        buy.clone(),
        sell.clone(),
        book.skip_limit() + Id(102),
        0,
    ));

    assert_eq!(book.apply(delta1).err(), Some(DepthUpdateError::DepthStale)); // request snapshot
    assert_eq!(book.apply(delta2).err(), Some(DepthUpdateError::WaitSnapshot)); // wait snapshot
    compare(
        book.apply(snapshot).unwrap(),
        Side::from_vec(buy, FINAL_SZ + 1)
            .update_diff(buy_post, structure::Side::Buy, &inst.precision)
            .levels
            .clone(),
        Side::from_vec(sell, FINAL_SZ + 1)
            .update_diff(sell_post, structure::Side::Sell, &inst.precision)
            .levels
            .clone(),
        &inst.precision,
    ); // receive snapshot, apply updates
}

#[test]
fn fresh_book() {
    let book = OrderBook::new(gen_prec(0.01, 0.01), 4);
    assert_eq!(book.last_applied(), Id(0));
    assert_eq!(book.skip_limit(), Id(100));
    assert_eq!(book.depth_limit(), 4);
    assert_eq!(book.precision(), gen_prec(0.01, 0.01));
    assert!(!book.snapshot_requested());
    assert_eq!(book.scheduled_len(), 0);
    assert!(book.buy_levels().is_empty());
    assert!(book.sell_levels().is_empty());
}

#[test]
fn first_delta_beyond_the_horizon_is_stale() {
    let mut book = OrderBook::new(gen_prec(0.01, 0.01), 4);
    assert_eq!(book.apply(delta1()).err(), Some(DepthUpdateError::DepthStale));
    assert!(book.snapshot_requested());
    assert_eq!(book.scheduled_len(), 1);
    assert_eq!(book.last_applied(), Id(0));
    assert!(book.buy_levels().is_empty());
}

#[test]
fn second_delta_waits_for_the_snapshot() {
    let mut book = OrderBook::new(gen_prec(0.01, 0.01), 4);
    assert_eq!(book.apply(delta1()).err(), Some(DepthUpdateError::DepthStale));
    assert_eq!(book.apply(delta2()).err(), Some(DepthUpdateError::WaitSnapshot));
    assert!(book.snapshot_requested());
    assert_eq!(book.scheduled_len(), 2);
}

#[test]
fn snapshot_aligns_and_drains() {
    let mut book = OrderBook::new(gen_prec(0.01, 0.01), 4);
    assert_eq!(book.apply(delta1()).err(), Some(DepthUpdateError::DepthStale));
    assert_eq!(book.apply(delta2()).err(), Some(DepthUpdateError::WaitSnapshot));
    assert!(book.apply(snapshot202()).is_ok());
    assert_eq!(book.last_applied(), Id(210));
    assert!(!book.snapshot_requested());
    assert_eq!(book.scheduled_len(), 0);
    assert_eq!(
        book.buy_levels(),
        &vec![lvl(101., 5.), lvl(102., 10.), lvl(100., 100.), lvl(101., 10.)]
    );
    assert_eq!(book.sell_levels(), &vec![lvl(99.99, 10.), lvl(99.98, 10.)]);
}

#[test]
fn replay_is_stale_and_changes_nothing() {
    let mut book = OrderBook::new(gen_prec(0.01, 0.01), 4);
    assert_eq!(book.apply(delta1()).err(), Some(DepthUpdateError::DepthStale));
    assert_eq!(book.apply(delta2()).err(), Some(DepthUpdateError::WaitSnapshot));
    assert!(book.apply(snapshot202()).is_ok());
    let buy = book.buy_levels().clone();
    let sell = book.sell_levels().clone();
    assert_eq!(book.apply(delta2()).err(), Some(DepthUpdateError::StaleUpdate));
    assert_eq!(book.buy_levels(), &buy);
    assert_eq!(book.sell_levels(), &sell);
    assert_eq!(book.last_applied(), Id(210));
    assert_eq!(book.scheduled_len(), 0);
    assert!(!book.snapshot_requested());
}

#[test]
fn replay_right_after_success_is_stale() {
    let mut book = OrderBook::new(gen_prec(0.01, 0.01), 4);
    let first = || delta(vec![lvl(10., 1.)], vec![lvl(11., 1.)], 1, 5, 0);
    assert!(book.apply(first()).is_ok());
    assert_eq!(book.last_applied(), Id(5));
    assert_eq!(book.apply(first()).err(), Some(DepthUpdateError::StaleUpdate));
    assert_eq!(book.last_applied(), Id(5));
    assert_eq!(book.buy_levels(), &vec![lvl(10., 1.)]);
    assert_eq!(book.sell_levels(), &vec![lvl(11., 1.)]);
}

#[test]
fn buffered_out_of_order() {
    let mut book = OrderBook::new(gen_prec(0.01, 0.01), 4);
    let a = delta(vec![lvl(10., 1.)], vec![lvl(11., 1.)], 202, 210, 201);
    let b = delta(vec![lvl(9., 2.)], vec![lvl(12., 2.)], 211, 220, 210);
    assert_eq!(book.apply(a).err(), Some(DepthUpdateError::DepthStale));
    assert_eq!(book.apply(b).err(), Some(DepthUpdateError::WaitSnapshot));
    let snap = snapshot(vec![lvl(10., 5.)], vec![lvl(11., 5.)], 205);
    assert!(book.apply(snap).is_ok());
    assert_eq!(book.last_applied(), Id(220));
    assert_eq!(book.scheduled_len(), 0);
    assert_eq!(book.buy_levels(), &vec![lvl(10., 1.), lvl(9., 2.)]);
    assert_eq!(book.sell_levels(), &vec![lvl(11., 1.), lvl(12., 2.)]);
}

#[test]
fn drain_ends_on_a_covered_delta() {
    let mut book = OrderBook::new(gen_prec(0.01, 0.01), 4);
    let a = delta(vec![lvl(10., 1.)], vec![lvl(11., 1.)], 202, 210, 201);
    let late = delta(vec![lvl(9., 2.)], vec![lvl(12., 2.)], 300, 310, 150);
    assert_eq!(book.apply(a).err(), Some(DepthUpdateError::DepthStale));
    assert_eq!(book.apply(late).err(), Some(DepthUpdateError::WaitSnapshot));
    let snap = snapshot(vec![lvl(10., 5.)], vec![lvl(11., 5.)], 205);
    assert_eq!(book.apply(snap).err(), Some(DepthUpdateError::StaleUpdate));
    assert_eq!(book.last_applied(), Id(210));
    assert_eq!(book.scheduled_len(), 0);
    assert_eq!(book.buy_levels(), &vec![lvl(10., 1.)]);
    assert_eq!(book.sell_levels(), &vec![lvl(11., 1.)]);
}

#[test]
fn gap_within_the_horizon_is_a_missed_update() {
    let mut book = OrderBook::new(gen_prec(0.01, 0.01), 4);
    let ahead = delta(vec![lvl(10., 1.)], vec![], 50, 60, 49);
    assert_eq!(book.apply(ahead).err(), Some(DepthUpdateError::MissedUpdate));
    assert!(!book.snapshot_requested());
    assert_eq!(book.scheduled_len(), 1);
    // the horizon is inclusive: 0 + 100 < 100 does not hold
    let edge = delta(vec![], vec![], 100, 100, 99);
    let mut book = OrderBook::new(gen_prec(0.01, 0.01), 4);
    assert_eq!(book.apply(edge).err(), Some(DepthUpdateError::MissedUpdate));
    let beyond = delta(vec![], vec![], 101, 101, 100);
    let mut book = OrderBook::new(gen_prec(0.01, 0.01), 4);
    assert_eq!(book.apply(beyond).err(), Some(DepthUpdateError::DepthStale));
}

#[test]
fn missing_delta_releases_the_buffer() {
    let mut book = OrderBook::new(gen_prec(0.01, 0.01), 4);
    let second = delta(vec![lvl(9., 2.)], vec![lvl(12., 2.)], 6, 9, 5);
    let first = delta(vec![lvl(10., 1.)], vec![lvl(11., 1.)], 1, 5, 0);
    assert_eq!(book.apply(second).err(), Some(DepthUpdateError::MissedUpdate));
    assert!(book.apply(first).is_ok());
    assert_eq!(book.last_applied(), Id(9));
    assert_eq!(book.buy_levels(), &vec![lvl(10., 1.), lvl(9., 2.)]);
    assert_eq!(book.sell_levels(), &vec![lvl(11., 1.), lvl(12., 2.)]);

    let mut in_order = OrderBook::new(gen_prec(0.01, 0.01), 4);
    let second = delta(vec![lvl(9., 2.)], vec![lvl(12., 2.)], 6, 9, 5);
    let first = delta(vec![lvl(10., 1.)], vec![lvl(11., 1.)], 1, 5, 0);
    assert!(in_order.apply(first).is_ok());
    assert!(in_order.apply(second).is_ok());
    assert_eq!(in_order.buy_levels(), book.buy_levels());
    assert_eq!(in_order.sell_levels(), book.sell_levels());
    assert_eq!(in_order.last_applied(), book.last_applied());
}

#[test]
fn snapshot_within_the_horizon_is_obsolete() {
    let mut book = OrderBook::new(gen_prec(0.01, 0.01), 4);
    assert_eq!(book.apply(delta1()).err(), Some(DepthUpdateError::DepthStale));
    let early = snapshot(vec![lvl(100., 100.)], vec![lvl(101., 100.)], 100);
    assert!(book.apply(early).is_ok());
    assert!(!book.snapshot_requested());
    assert!(book.buy_levels().is_empty());
    assert!(book.sell_levels().is_empty());
    assert_eq!(book.last_applied(), Id(0));
    assert_eq!(book.scheduled_len(), 1);
}

#[test]
fn snapshot_in_a_gap_asks_again() {
    let mut book = OrderBook::new(gen_prec(0.01, 0.01), 4);
    assert_eq!(book.apply(delta2()).err(), Some(DepthUpdateError::DepthStale));
    let before = snapshot(vec![lvl(100., 100.)], vec![lvl(101., 100.)], 150);
    assert_eq!(book.apply(before).err(), Some(DepthUpdateError::DepthStale));
    assert!(book.snapshot_requested());
    assert_eq!(book.buy_levels(), &vec![lvl(100., 100.)]);
    assert_eq!(book.sell_levels(), &vec![lvl(101., 100.)]);
    assert_eq!(book.last_applied(), Id(0));
    // a snapshot on an empty buffer finds no continuity point either
    let mut book = OrderBook::new(gen_prec(0.01, 0.01), 4);
    let alone = snapshot(vec![lvl(100., 100.)], vec![lvl(101., 100.)], 150);
    assert_eq!(book.apply(alone).err(), Some(DepthUpdateError::DepthStale));
    assert!(book.snapshot_requested());
}

#[test]
fn snapshot_ladders_are_cut_to_the_depth() {
    let mut book = OrderBook::new(gen_prec(0.01, 0.01), 2);
    assert_eq!(book.apply(delta2()).err(), Some(DepthUpdateError::DepthStale));
    let wide = snapshot(
        vec![lvl(100., 1.), lvl(99., 1.), lvl(98., 1.)],
        vec![lvl(101., 1.), lvl(102., 1.), lvl(103., 1.)],
        150,
    );
    assert_eq!(book.apply(wide).err(), Some(DepthUpdateError::DepthStale));
    assert_eq!(book.buy_levels(), &vec![lvl(100., 1.), lvl(99., 1.)]);
    assert_eq!(book.sell_levels(), &vec![lvl(101., 1.), lvl(102., 1.)]);
}

#[test]
fn delta_with_the_same_first_id_replaces_the_buffered_one() {
    let mut book = OrderBook::new(gen_prec(0.01, 0.01), 4);
    let ahead = delta(vec![lvl(10., 1.)], vec![], 50, 60, 49);
    let again = delta(vec![lvl(10., 7.)], vec![], 50, 61, 49);
    assert_eq!(book.apply(ahead).err(), Some(DepthUpdateError::MissedUpdate));
    assert_eq!(book.apply(again).err(), Some(DepthUpdateError::MissedUpdate));
    assert_eq!(book.scheduled_len(), 1);
    let bridge = delta(vec![], vec![], 1, 49, 0);
    assert!(book.apply(bridge).is_ok());
    assert_eq!(book.last_applied(), Id(61));
    assert_eq!(book.buy_levels(), &vec![lvl(10., 7.)]);
}

#[test]
fn ladders_stay_strictly_ordered_and_bounded() {
    let mut book = OrderBook::new(gen_prec(0.01, 0.01), 3);
    let steps = vec![
        delta(vec![lvl(10., 1.), lvl(9., 1.)], vec![lvl(11., 1.), lvl(12., 1.)], 1, 2, 0),
        delta(vec![lvl(10.5, 1.), lvl(9., 0.)], vec![lvl(11.5, 2.), lvl(13., 1.)], 3, 4, 2),
        delta(vec![lvl(10., 0.), lvl(8., 3.)], vec![lvl(11., 0.), lvl(14., 1.)], 5, 6, 4),
    ];
    let mut last = 0;
    for step in steps {
        assert!(book.apply(step).is_ok());
        assert!(book.last_applied().0 >= last);
        last = book.last_applied().0;
        assert!(book.buy_levels().len() <= 3);
        assert!(book.sell_levels().len() <= 3);
        for pair in book.buy_levels().windows(2) {
            assert!(pair[0].price.0 > pair[1].price.0);
            assert!(!pair[0].price.near(&pair[1].price, &book.precision().price));
        }
        for pair in book.sell_levels().windows(2) {
            assert!(pair[0].price.0 < pair[1].price.0);
            assert!(!pair[0].price.near(&pair[1].price, &book.precision().price));
        }
    }
    assert_eq!(book.buy_levels(), &vec![lvl(10.5, 1.), lvl(8., 3.)]);
    assert_eq!(book.sell_levels(), &vec![lvl(11.5, 2.), lvl(12., 1.), lvl(14., 1.)]);
}

#[test]
fn trade_changes_nothing() {
    let mut book = OrderBook::new(gen_prec(0.01, 0.01), 4);
    let first = delta(vec![lvl(10., 1.)], vec![lvl(11., 1.)], 1, 5, 0);
    assert!(book.apply(first).is_ok());
    let trade = MDResponse::Trade(Trade::new(
        any_inst(0.01),
        lvl(10., 1.),
        structure::Side::Buy,
        Id(6),
        Id(7),
    ));
    assert!(book.apply(trade).is_ok());
    assert_eq!(book.last_applied(), Id(5));
    assert_eq!(book.buy_levels(), &vec![lvl(10., 1.)]);
    assert_eq!(book.sell_levels(), &vec![lvl(11., 1.)]);
    assert_eq!(book.scheduled_len(), 0);
}

#[test]
fn horizon_can_be_set() {
    let mut book = OrderBook::new(gen_prec(0.01, 0.01), 4).with_skip_limit(Id(10));
    assert_eq!(book.skip_limit(), Id(10));
    let ahead = delta(vec![], vec![], 11, 12, 10);
    assert_eq!(book.apply(ahead).err(), Some(DepthUpdateError::DepthStale));
    let mut book = OrderBook::new(gen_prec(0.01, 0.01), 4).with_skip_limit(Id(u64::MAX));
    let far = delta(vec![], vec![], u64::MAX, u64::MAX, u64::MAX - 1);
    assert_eq!(book.apply(far).err(), Some(DepthUpdateError::MissedUpdate));
}

#[test]
fn find_first_id_follows_the_buffer() {
    let mk = |first: u64, last: u64, ls: u64| {
        Delta::new(any_inst(0.01), vec![], vec![], Id(first), Id(last), Id(ls))
    };
    let events = vec![mk(10, 20, 9), mk(21, 30, 20), mk(40, 50, 30)];
    assert_eq!(OrderBook::find_first_id(Id(25), &events), Some(Id(20)));
    assert_eq!(OrderBook::find_first_id(Id(20), &events), Some(Id(9)));
    assert_eq!(OrderBook::find_first_id(Id(30), &events), Some(Id(20)));
    assert_eq!(OrderBook::find_first_id(Id(35), &events), None);
    assert_eq!(OrderBook::find_first_id(Id(5), &events), None);
    assert_eq!(OrderBook::find_first_id(Id(51), &events), None);
    assert_eq!(OrderBook::find_first_id(Id(51), &vec![]), None);
}

#[test]
fn match_lvl_reads_the_ladder() {
    let mut book = OrderBook::new(gen_prec(0.01, 0.01), 4);
    let first = delta(
        vec![lvl(10., 1.), lvl(9., 2.)],
        vec![lvl(11., 3.), lvl(12., 4.)],
        1,
        5,
        0,
    );
    assert!(book.apply(first).is_ok());
    assert_eq!(
        book.match_lvl(lvl(9., 0.), structure::Side::Buy),
        Some((1, Qty::new(2 * UNIT)))
    );
    assert_eq!(
        book.match_lvl(lvl(11., 0.), structure::Side::Sell),
        Some((0, Qty::new(3 * UNIT)))
    );
    assert_eq!(book.match_lvl(lvl(11., 0.), structure::Side::Buy), None);
}

#[test]
fn rows_show_asks_from_the_top() {
    let mut book = OrderBook::new(gen_prec(0.01, 0.01), 4);
    let first = delta(
        vec![lvl(10., 1.), lvl(9., 2.)],
        vec![lvl(11., 3.), lvl(12., 4.)],
        1,
        5,
        0,
    );
    assert!(book.apply(first).is_ok());
    let rows = book.rows();
    assert_eq!(rows.asks, vec![lvl(12., 4.), lvl(11., 3.)]);
    assert_eq!(rows.bids, vec![lvl(10., 1.), lvl(9., 2.)]);
}

#[test]
fn is_stale_depth_does_not_overflow() {
    let book = OrderBook::new(gen_prec(0.01, 0.01), 4).with_skip_limit(Id(u64::MAX));
    assert!(!book.is_stale_depth(Id(u64::MAX)));
    let book = OrderBook::new(gen_prec(0.01, 0.01), 4);
    assert!(!book.is_stale_depth(Id(100)));
    assert!(book.is_stale_depth(Id(101)));
}

#[test]
fn ids_add_and_compare() {
    assert_eq!(Id(100) + Id(99), Id(199));
    assert_eq!(Id(0) + Id(0), Id(0));
    assert_eq!(Id(u64::MAX - 1) + Id(1), Id(u64::MAX));
    assert!(Id(1) < Id(2));
    assert!(Id(2) >= Id(2));
    assert_eq!(Id::default(), Id(0));
}

#[test]
fn book_as_text() {
    let mut book = OrderBook::new(gen_prec(0.01, 0.01), 4);
    let first = delta(
        vec![lvl(10., 1.), lvl(9.5, 2.)],
        vec![lvl(11., 3.), lvl(12., 4.)],
        1,
        5,
        0,
    );
    assert!(book.apply(first).is_ok());
    let shown = "depthbook updated: \n\
12.00000000 - 4.00000000\n\
11.00000000 - 3.00000000\n\
=======================\n\
10.00000000 - 1.00000000\n\
9.50000000 - 2.00000000\n";
    assert_eq!(book.to_string(), shown);
    assert_eq!(book.rows().to_string(), shown);
    let empty = OrderBook::new(gen_prec(0.01, 0.01), 4);
    assert_eq!(empty.to_string(), "depthbook updated: \n=======================\n");
}

#[test]
fn chain_in_any_order() {
    let chain = |k: usize| match k {
        0 => delta(vec![lvl(10., 1.), lvl(9., 1.)], vec![lvl(11., 1.)], 1, 5, 0),
        1 => delta(vec![lvl(10., 0.), lvl(8., 2.)], vec![lvl(11., 4.), lvl(12., 1.)], 6, 9, 5),
        2 => delta(vec![lvl(9.5, 3.)], vec![lvl(11., 0.)], 10, 10, 9),
        _ => delta(vec![lvl(9., 7.)], vec![lvl(11.5, 2.), lvl(12., 0.)], 11, 20, 10),
    };
    let mut straight = OrderBook::new(gen_prec(0.01, 0.01), 4);
    for k in 0..4 {
        assert!(straight.apply(chain(k)).is_ok());
    }
    assert_eq!(straight.last_applied(), Id(20));
    assert_eq!(straight.buy_levels(), &vec![lvl(9.5, 3.), lvl(9., 7.), lvl(8., 2.)]);
    assert_eq!(straight.sell_levels(), &vec![lvl(11.5, 2.)]);
    let orders: Vec<Vec<usize>> = vec![
        vec![2, 0, 3, 1],
        vec![3, 2, 1, 0],
        vec![1, 3, 2, 0],
        vec![1, 1, 3, 0, 2, 0],
        vec![0, 0, 1, 3, 3, 2, 1],
    ];
    for order in orders {
        let mut book = OrderBook::new(gen_prec(0.01, 0.01), 4);
        for k in order {
            let _ = book.apply(chain(k));
        }
        assert_eq!(book.last_applied(), straight.last_applied());
        assert_eq!(book.buy_levels(), straight.buy_levels());
        assert_eq!(book.sell_levels(), straight.sell_levels());
        assert_eq!(book.scheduled_len(), 0);
    }
}
