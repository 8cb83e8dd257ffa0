use depthbook::common::{Id, Level, Precision, Price, Qty};
use depthbook::config::{ExchangeConfig, MDConfig};
use depthbook::scheme::binance::{
    find_member, pair_to_levels, Api, Connect, Delta, ExchangeInfo, Filter, Frame, FrameKind,
    Member, Snapshot, Symbol, Trade,
};
use depthbook::scheme::connector::{AliasInstrument, WssStream};
use depthbook::structure;
use depthbook::structure::{Coin, Exchange, Feed, Instrument, MDResponse};

fn cfg(http_api: &str) -> ExchangeConfig {
    ExchangeConfig::new(
        Exchange::BINANCE,
        http_api.into(),
        "/fapi/v1/exchangeInfo".into(),
        "/fapi/v1/depth".into(),
        "wss://fstream.binance.com/ws".into(),
        "@depth".into(),
        "@aggTrade".into(),
    )
}

fn inst(raw: &str) -> Instrument {
    Instrument::new(
        Coin("BTC".into()),
        Coin("USDT".into()),
        Feed::PERP,
        Exchange::BINANCE,
        Precision::new(Price::new(10_000_000), Qty::new(100_000)),
        raw.into(),
    )
}

fn pairs(of: &[(&str, &str)]) -> Vec<(String, String)> {
    of.iter().map(|(p, q)| (p.to_string(), q.to_string())).collect()
}

fn member(name: &str, text: Option<&str>) -> Member {
    Member { name: name.into(), text: text.map(|t| t.to_string()) }
}

fn price_filter(tick: &str) -> Filter {
    Filter::Object(vec![
        member("minPrice", Some("0.10")),
        member("filterType", Some("PRICE_FILTER")),
        member("tickSize", Some(tick)),
    ])
}

fn lot_size(step: &str) -> Filter {
    Filter::Object(vec![
        member("filterType", Some("LOT_SIZE")),
        member("stepSize", Some(step)),
    ])
}

fn symbol(filters: Vec<Filter>) -> Symbol {
    Symbol {
        symbol: "BTCUSDT".into(),
        base_asset: "BTC".into(),
        quote_asset: "USDT".into(),
        contract_type: "PERPETUAL".into(),
        filters,
        delivery_date: 4133404800000,
    }
}

#[test]
fn feed_from_raw() {
    assert_eq!(Feed::from_raw("PERP", 7), Some(Feed::PERP));
    assert_eq!(Feed::from_raw("OPTION", 7), Some(Feed::OPTION));
    assert_eq!(Feed::from_raw("SPOT", 7), Some(Feed::SPOT));
    assert_eq!(Feed::from_raw("CURRENT_QUARTER", 7), Some(Feed::FUTURE(7)));
    assert_eq!(Feed::from_raw("perp", 8), Some(Feed::FUTURE(8)));
    assert_eq!(Feed::from_raw("", 9), Some(Feed::FUTURE(9)));
}

#[test]
fn config_finds_the_first_entry() {
    let config = MDConfig::new(vec![cfg("https://a.example"), cfg("https://b.example")]);
    let found = config.get(Exchange::BINANCE).unwrap();
    assert_eq!(found.http_api, "https://a.example");
    assert_eq!(found.exchange(), Exchange::BINANCE);
    assert_eq!(found.snapshot(), "/fapi/v1/depth");
    assert_eq!(found.exchange_info(), "/fapi/v1/exchangeInfo");
    assert_eq!(found.wss_api(), "wss://fstream.binance.com/ws");
    assert_eq!(found.clone().http_api(), "https://a.example");
    assert!(MDConfig::new(vec![]).get(Exchange::BINANCE).is_none());
}

#[test]
fn topics_are_lower_case_symbol_at_channel() {
    let subs = Connect::get_sub(&inst("BTCUSDT"), &vec![WssStream::Depth, WssStream::Trade]);
    assert_eq!(subs, vec!["btcusdt@depth".to_string(), "btcusdt@aggTrade".to_string()]);
    assert!(Connect::get_sub(&inst("BTCUSDT"), &vec![]).is_empty());
}

#[test]
fn envelope_lists_every_instrument() {
    let streams = vec![WssStream::Depth, WssStream::Trade];
    let connect = Connect::new(42, &vec![inst("BTCUSDT"), inst("EthUsdt")], &streams);
    assert_eq!(connect.method(), "SUBSCRIBE");
    assert_eq!(connect.id(), 42);
    assert_eq!(
        connect.params(),
        &vec![
            "btcusdt@depth".to_string(),
            "btcusdt@aggTrade".to_string(),
            "ethusdt@depth".to_string(),
            "ethusdt@aggTrade".to_string(),
        ]
    );
    let single = Connect::new_single(7, &inst("BTCUSDT"), &vec![WssStream::Trade]);
    assert_eq!(single.method(), "SUBSCRIBE");
    assert_eq!(single.id(), 7);
    assert_eq!(single.params(), &vec!["btcusdt@aggTrade".to_string()]);
    let none = Connect::new(1, &vec![], &streams);
    assert!(none.params().is_empty());
}

#[test]
fn adapter_addresses() {
    let api = Api::new(cfg("https://fapi.binance.com"));
    assert_eq!(api.get_api_url("/fapi/v1/ping"), "https://fapi.binance.com/fapi/v1/ping");
    assert_eq!(api.exchange_info_url(), "https://fapi.binance.com/fapi/v1/exchangeInfo");
    assert_eq!(api.connect_uri(), "wss://fstream.binance.com/ws");
    assert_eq!(api.pong(), "pong");
    assert_eq!(
        api.snapshot_url(&inst("BTCUSDT")),
        Some("https://fapi.binance.com/fapi/v1/depth?symbol=BTCUSDT".to_string())
    );
    assert_eq!(
        api.snapshot_url(&inst("BTC USDT&x")),
        Some("https://fapi.binance.com/fapi/v1/depth?symbol=BTC+USDT%26x".to_string())
    );
    let relative = Api::new(cfg("fapi.binance.com"));
    assert_eq!(relative.snapshot_url(&inst("BTCUSDT")), None);
}

#[test]
fn adapter_subscribes() {
    let api = Api::new(cfg("https://fapi.binance.com"));
    let streams = vec![WssStream::Depth];
    let all = api.subscribe(5, &vec![inst("BTCUSDT")], &streams);
    assert_eq!(all.id(), 5);
    assert_eq!(all.params(), &vec!["btcusdt@depth".to_string()]);
    let one = api.subscribe_single(6, &inst("ETHUSDT"), &streams);
    assert_eq!(one.id(), 6);
    assert_eq!(one.params(), &vec!["ethusdt@depth".to_string()]);
}

#[test]
fn request_id_is_the_clock() {
    assert_eq!(Api::get_sub_id(Some(1_700_000_000)), 1_700_000_000);
    assert_eq!(Api::get_sub_id(Some(0)), 0);
    let _any: u64 = Api::get_sub_id(None);
}

#[test]
fn frames_are_told_by_the_seventh_byte() {
    assert_eq!(Api::classify("{\"e\":\"aggTrade\",\"s\":\"BTCUSDT\"}"), FrameKind::Trade);
    assert_eq!(Api::classify("{\"e\":\"depthUpdate\",\"s\":\"BTCUSDT\"}"), FrameKind::Delta);
    assert_eq!(Api::classify("ping"), FrameKind::Ping);
    assert_eq!(Api::classify(""), FrameKind::Unknown);
    assert_eq!(Api::classify("pong"), FrameKind::Unknown);
    assert_eq!(Api::classify("{\"result\":null,\"id\":1}"), FrameKind::Unknown);
    assert_eq!(Api::classify("0123456"), FrameKind::Unknown);
    assert_eq!(Api::classify("012345a"), FrameKind::Trade);
    assert_eq!(Api::classify("012345d"), FrameKind::Delta);
}

#[test]
fn levels_from_texts() {
    let given = pairs(&[("10.5", "1"), ("bad", "1"), ("11", "0.5")]);
    assert_eq!(
        pair_to_levels(&given, false),
        vec![
            Level::new(Price::new(1_050_000_000), Qty::new(100_000_000)),
            Level::new(Price::new(1_100_000_000), Qty::new(50_000_000)),
        ]
    );
    assert_eq!(
        pair_to_levels(&given, true),
        vec![
            Level::new(Price::new(1_100_000_000), Qty::new(50_000_000)),
            Level::new(Price::new(1_050_000_000), Qty::new(100_000_000)),
        ]
    );
    assert!(pair_to_levels(&vec![], true).is_empty());
}

#[test]
fn delta_frame_to_message() {
    let api = Api::new(cfg("https://fapi.binance.com"));
    let map = AliasInstrument::new(&vec![inst("BTCUSDT")]);
    let frame = Delta {
        symbol: "BTCUSDT".into(),
        first_id: 10,
        last_id: 20,
        last_stream: 9,
        buy: pairs(&[("99", "1"), ("100", "2")]),
        sell: pairs(&[("101", "3"), ("102", "4")]),
    };
    match api.handle_response(Some(Frame::Delta(frame)), &map) {
        Some(MDResponse::Delta(d)) => {
            assert_eq!(d.first, Id(10));
            assert_eq!(d.last, Id(20));
            assert_eq!(d.last_stream, Id(9));
            assert_eq!(d.inst.to_raw_string(), "BTCUSDT");
            assert_eq!(
                d.buy,
                vec![
                    Level::new(Price::new(10_000_000_000), Qty::new(200_000_000)),
                    Level::new(Price::new(9_900_000_000), Qty::new(100_000_000)),
                ]
            );
            assert_eq!(
                d.sell,
                vec![
                    Level::new(Price::new(10_100_000_000), Qty::new(300_000_000)),
                    Level::new(Price::new(10_200_000_000), Qty::new(400_000_000)),
                ]
            );
        }
        _ => panic!("a delta frame of a known symbol is a delta"),
    }
    let stranger = Delta {
        symbol: "ETHUSDT".into(),
        first_id: 10,
        last_id: 20,
        last_stream: 9,
        buy: vec![],
        sell: vec![],
    };
    assert!(api.handle_response(Some(Frame::Delta(stranger)), &map).is_none());
    assert!(api.handle_response(None, &map).is_none());
    assert!(matches!(api.handle_response(Some(Frame::Ping), &map), Some(MDResponse::Ping)));
}

#[test]
fn trade_frame_to_message() {
    let map = AliasInstrument::new(&vec![inst("BTCUSDT")]);
    let trade = |price: &str, maker: bool| Trade {
        symbol: "BTCUSDT".into(),
        price: price.into(),
        qty: "0.5".into(),
        first_id: 1,
        last_id: 2,
        is_mm: maker,
    };
    assert!(trade("100", true).to_regular(&map).is_some());
    assert!(trade("100", false).to_regular(&map).is_some());
    assert!(trade("1e2", false).to_regular(&map).is_none());
    let api = Api::new(cfg("https://fapi.binance.com"));
    assert!(matches!(
        api.handle_response(Some(Frame::Trade(trade("100", true))), &map),
        Some(MDResponse::Trade(_))
    ));
    assert!(api
        .handle_response(Some(Frame::Trade(trade("", true))), &map)
        .is_none());
    let unknown = Trade {
        symbol: "ETHUSDT".into(),
        price: "1".into(),
        qty: "1".into(),
        first_id: 1,
        last_id: 2,
        is_mm: true,
    };
    assert!(unknown.to_regular(&map).is_none());
}

#[test]
fn snapshot_reply_to_message() {
    let reply = Snapshot {
        message_time: 77,
        last_id: 500,
        buy: pairs(&[("99", "1"), ("100", "2")]),
        sell: pairs(&[("101", "3")]),
    };
    let snap: structure::Snapshot = reply.to_regular(inst("BTCUSDT")).unwrap();
    assert_eq!(snap.last, Id(500));
    assert_eq!(snap.time, 77);
    assert_eq!(snap.buy[0].price, Price::new(10_000_000_000));
    assert_eq!(snap.buy[1].price, Price::new(9_900_000_000));
    assert_eq!(snap.sell, vec![Level::new(Price::new(10_100_000_000), Qty::new(300_000_000))]);
}

#[test]
fn alias_table_finds_by_symbol() {
    let mut second = inst("BTCUSDT");
    second.precision = Precision::new(Price::new(1), Qty::new(1));
    let map = AliasInstrument::new(&vec![inst("BTCUSDT"), inst("ETHUSDT"), second]);
    assert_eq!(map.get("ETHUSDT").unwrap().to_raw_string(), "ETHUSDT");
    assert_eq!(map.get("BTCUSDT").unwrap().precision, Precision::new(Price::new(1), Qty::new(1)));
    assert!(map.get("btcusdt").is_none());
    assert!(AliasInstrument::new(&vec![]).get("BTCUSDT").is_none());
}

#[test]
fn filters_are_found_by_type() {
    let filters = vec![price_filter("0.10"), lot_size("0.001")];
    assert!(matches!(Symbol::find_filter(&filters, "LOT_SIZE"), Some(Filter::Object(m)) if m.len() == 2));
    assert!(matches!(Symbol::find_filter(&filters, "PRICE_FILTER"), Some(Filter::Object(m)) if m.len() == 3));
    assert!(Symbol::find_filter(&filters, "MARKET_LOT_SIZE").is_none());
    assert!(Symbol::find_filter(&vec![], "LOT_SIZE").is_none());
    // the search gives up at an entry that is no object, or has no type
    let broken = vec![Filter::Other, lot_size("0.001")];
    assert!(Symbol::find_filter(&broken, "LOT_SIZE").is_none());
    let untyped = vec![Filter::Object(vec![member("stepSize", Some("1"))]), lot_size("0.001")];
    assert!(Symbol::find_filter(&untyped, "LOT_SIZE").is_none());
    // a type that is no text is passed over
    let odd = vec![Filter::Object(vec![member("filterType", None)]), lot_size("0.001")];
    assert!(Symbol::find_filter(&odd, "LOT_SIZE").is_some());
    let members = vec![member("a", Some("1")), member("b", None), member("a", Some("2"))];
    assert_eq!(find_member(&members, "a").unwrap().text, Some("1".to_string()));
    assert!(find_member(&members, "b").unwrap().text.is_none());
    assert!(find_member(&members, "c").is_none());
}

#[test]
fn precision_from_filters() {
    let listed = symbol(vec![price_filter("0.10"), lot_size("0.001")]);
    assert_eq!(
        listed.get_precision(),
        Some(Precision::new(Price::new(10_000_000), Qty::new(100_000)))
    );
    assert_eq!(symbol(vec![price_filter("0.10")]).get_precision(), None);
    assert_eq!(symbol(vec![lot_size("0.001")]).get_precision(), None);
    assert_eq!(symbol(vec![price_filter("x"), lot_size("0.001")]).get_precision(), None);
    let no_tick = Filter::Object(vec![member("filterType", Some("PRICE_FILTER"))]);
    assert_eq!(symbol(vec![no_tick, lot_size("0.001")]).get_precision(), None);
    let tick_no_text = Filter::Object(vec![
        member("filterType", Some("PRICE_FILTER")),
        member("tickSize", None),
    ]);
    assert_eq!(symbol(vec![tick_no_text, lot_size("0.001")]).get_precision(), None);
}

#[test]
fn instruments_from_the_list() {
    let info = ExchangeInfo {
        symbols: vec![symbol(vec![price_filter("0.10"), lot_size("0.001")])],
    };
    let insts = info.instruments().unwrap();
    assert_eq!(insts.len(), 1);
    assert_eq!(insts[0].to_raw_string(), "BTCUSDT");
    assert_eq!(insts[0].feed, Feed::FUTURE(4133404800000));
    assert_eq!(insts[0].exchange, Exchange::BINANCE);
    assert_eq!(insts[0].base, Coin("BTC".into()));
    assert_eq!(insts[0].margin, Coin("USDT".into()));
    assert_eq!(insts[0].precision, Precision::new(Price::new(10_000_000), Qty::new(100_000)));
    let broken = ExchangeInfo {
        symbols: vec![symbol(vec![price_filter("0.10"), lot_size("0.001")]), symbol(vec![])],
    };
    assert!(broken.instruments().is_none());
    assert_eq!(ExchangeInfo { symbols: vec![] }.instruments().unwrap().len(), 0);
    assert!(symbol(vec![]).to_instrument().is_none());
}
