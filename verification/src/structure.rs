//! Instruments and the market-data messages that reach the depth book.

use crate::common::{Id, Level, Precision};
use crate::text::same_text;
use vstd::prelude::*;

verus! {

/// An asset symbol.
#[derive(Debug, PartialEq, Eq, Hash)]
pub struct Coin(pub String);

impl View for Coin {
    type V = Seq<char>;

    open spec fn view(&self) -> Seq<char> {
        self.0@
    }
}

impl Clone for Coin {
    fn clone(&self) -> (r: Coin)
        ensures
            r@ == self@,
    {
        Coin(self.0.clone())
    }
}

/// The side of the book a level or a trade belongs to.
#[derive(Clone, Copy, Debug, PartialEq, Eq, Hash, Structural)]
pub enum Side {
    Buy,
    Sell,
}

/// The kind of market an instrument trades on; a future carries its delivery
/// date.
#[derive(Clone, Copy, Debug, PartialEq, Eq, Hash, Structural)]
pub enum Feed {
    FUTURE(u64),
    PERP,
    OPTION,
    SPOT,
}

impl Feed {
    /// What a contract-type tag names: the three fixed tags, and a future
    /// delivered at `date` for every other tag.
    pub open spec fn of_tag(tag: Seq<char>, date: u64) -> Feed {
        if tag == "PERP"@ {
            Feed::PERP
        } else if tag == "OPTION"@ {
            Feed::OPTION
        } else if tag == "SPOT"@ {
            Feed::SPOT
        } else {
            Feed::FUTURE(date)
        }
    }

    pub fn from_raw(input: &str, date: u64) -> (r: Option<Feed>)
        ensures
            r == Some(Feed::of_tag(input@, date)),
    {
        if same_text(input, "PERP") {
            Some(Feed::PERP)
        } else if same_text(input, "OPTION") {
            Some(Feed::OPTION)
        } else if same_text(input, "SPOT") {
            Some(Feed::SPOT)
        } else {
            Some(Feed::FUTURE(date))
        }
    }
}

/// The venues this crate knows.
#[derive(Clone, Copy, Debug, PartialEq, Eq, Hash, Structural)]
pub enum Exchange {
    BINANCE,
}

/// What identifies an instrument: its wire symbol, its feed and its venue.
pub struct InstrumentKey {
    pub raw: Seq<char>,
    pub feed: Feed,
    pub exchange: Exchange,
}

/// The mathematical content of an [`Instrument`].
pub struct InstrumentView {
    pub base: Seq<char>,
    pub margin: Seq<char>,
    pub feed: Feed,
    pub exchange: Exchange,
    pub precision: Precision,
    pub raw: Seq<char>,
}

impl InstrumentView {
    pub open spec fn key(self) -> InstrumentKey {
        InstrumentKey { raw: self.raw, feed: self.feed, exchange: self.exchange }
    }
}

/// A tradable instrument with the tick sizes the venue publishes for it.
#[derive(Debug)]
pub struct Instrument {
    pub base: Coin,
    pub margin: Coin,
    pub feed: Feed,
    pub exchange: Exchange,
    pub precision: Precision,
    raw: String,
}

impl View for Instrument {
    type V = InstrumentView;

    closed spec fn view(&self) -> InstrumentView {
        InstrumentView {
            base: self.base@,
            margin: self.margin@,
            feed: self.feed,
            exchange: self.exchange,
            precision: self.precision,
            raw: self.raw@,
        }
    }
}

impl Instrument {
    pub fn new(
        base: Coin,
        margin: Coin,
        feed: Feed,
        exchange: Exchange,
        precision: Precision,
        raw: String,
    ) -> (r: Instrument)
        ensures
            r@ == (InstrumentView {
                base: base@,
                margin: margin@,
                feed,
                exchange,
                precision,
                raw: raw@,
            }),
    {
        Instrument { base, margin, feed, exchange, precision, raw }
    }

    pub fn to_raw_string(&self) -> (r: &String)
        ensures
            r@ == self@.raw,
    {
        &self.raw
    }

    /// The tick sizes of the instrument.
    pub fn precision(&self) -> (r: Precision)
        ensures
            r == self@.precision,
    {
        self.precision
    }

    /// The feed of the instrument.
    pub fn feed(&self) -> (r: Feed)
        ensures
            r == self@.feed,
    {
        self.feed
    }

    /// The venue of the instrument.
    pub fn exchange(&self) -> (r: Exchange)
        ensures
            r == self@.exchange,
    {
        self.exchange
    }

    /// Whether two instruments are the same one: same wire symbol, feed and
    /// venue.  Assets and tick sizes take no part.
    pub fn same(&self, other: &Instrument) -> (r: bool)
        ensures
            r == (self@.key() == other@.key()),
    {
        same_text(self.raw.as_str(), other.raw.as_str()) && self.feed == other.feed
            && self.exchange == other.exchange
    }
}

impl Clone for Instrument {
    fn clone(&self) -> (r: Instrument)
        ensures
            r@ == self@,
    {
        Instrument {
            base: self.base.clone(),
            margin: self.margin.clone(),
            feed: self.feed,
            exchange: self.exchange,
            precision: self.precision,
            raw: self.raw.clone(),
        }
    }
}

impl PartialEq for Instrument {
    fn eq(&self, other: &Instrument) -> (r: bool) {
        self.same(other)
    }
}

impl Eq for Instrument {

}

impl vstd::std_specs::cmp::PartialEqSpecImpl for Instrument {
    open spec fn obeys_eq_spec() -> bool {
        true
    }

    open spec fn eq_spec(&self, other: &Instrument) -> bool {
        self@.key() == other@.key()
    }
}

/// The mathematical content of a [`Trade`].
pub struct TradeView {
    pub inst: InstrumentView,
    pub info: Level,
    pub side: Side,
    pub first: Id,
    pub last: Id,
}

/// An aggregated trade.  The depth book carries it through untouched.
#[derive(Debug)]
pub struct Trade {
    inst: Instrument,
    info: Level,
    pub(crate) side: Side,
    first: Id,
    last: Id,
}

impl View for Trade {
    type V = TradeView;

    closed spec fn view(&self) -> TradeView {
        TradeView {
            inst: self.inst@,
            info: self.info,
            side: self.side,
            first: self.first,
            last: self.last,
        }
    }
}

impl Trade {
    pub fn new(inst: Instrument, info: Level, side: Side, first: Id, last: Id) -> (r: Trade)
        ensures
            r@ == (TradeView { inst: inst@, info, side, first, last }),
    {
        Trade { inst, info, side, first, last }
    }
}

/// The mathematical content of a [`Delta`].
pub struct DeltaView {
    pub inst: InstrumentView,
    pub buy: Seq<Level>,
    pub sell: Seq<Level>,
    pub first: Id,
    pub last: Id,
    pub last_stream: Id,
}

impl DeltaView {
    /// The ids of a delta follow the stream: its precursor lies before the
    /// range it covers, and the range is not empty.
    pub open spec fn chained(self) -> bool {
        self.last_stream.0 < self.first.0 <= self.last.0
    }
}

/// An incremental depth update covering the ids `first..=last`;
/// `last_stream` is the last id of the delta before it.
#[derive(Debug)]
pub struct Delta {
    pub inst: Instrument,
    pub buy: Vec<Level>,
    pub sell: Vec<Level>,
    pub first: Id,
    pub last: Id,
    pub last_stream: Id,
}

impl View for Delta {
    type V = DeltaView;

    open spec fn view(&self) -> DeltaView {
        DeltaView {
            inst: self.inst@,
            buy: self.buy@,
            sell: self.sell@,
            first: self.first,
            last: self.last,
            last_stream: self.last_stream,
        }
    }
}

impl Delta {
    pub fn new(
        inst: Instrument,
        buy: Vec<Level>,
        sell: Vec<Level>,
        first: Id,
        last: Id,
        last_stream: Id,
    ) -> (r: Delta)
        ensures
            r@ == (DeltaView { inst: inst@, buy: buy@, sell: sell@, first, last, last_stream }),
    {
        Delta { inst, buy, sell, first, last, last_stream }
    }
}

/// The mathematical content of a [`Snapshot`].
pub struct SnapshotView {
    pub inst: InstrumentView,
    pub buy: Seq<Level>,
    pub sell: Seq<Level>,
    pub last: Id,
    pub time: u64,
}

/// A full ladder at the point in time that `last` identifies.
#[derive(Debug)]
pub struct Snapshot {
    pub inst: Instrument,
    pub buy: Vec<Level>,
    pub sell: Vec<Level>,
    pub last: Id,
    pub time: u64,
}

impl View for Snapshot {
    type V = SnapshotView;

    open spec fn view(&self) -> SnapshotView {
        SnapshotView {
            inst: self.inst@,
            buy: self.buy@,
            sell: self.sell@,
            last: self.last,
            time: self.time,
        }
    }
}

impl Snapshot {
    pub fn new(inst: Instrument, buy: Vec<Level>, sell: Vec<Level>, last: Id, time: u64) -> (r:
        Snapshot)
        ensures
            r@ == (SnapshotView { inst: inst@, buy: buy@, sell: sell@, last, time }),
    {
        Snapshot { inst, buy, sell, last, time }
    }
}

/// The mathematical content of an [`MDResponse`].
pub enum MDResponseView {
    Trade(TradeView),
    Snapshot(SnapshotView),
    Delta(DeltaView),
    Ping,
}

impl MDResponseView {
    /// The instrument a message speaks of; a ping speaks of none.
    pub open spec fn inst(self) -> Option<InstrumentView> {
        match self {
            MDResponseView::Ping => None,
            MDResponseView::Delta(d) => Some(d.inst),
            MDResponseView::Snapshot(s) => Some(s.inst),
            MDResponseView::Trade(t) => Some(t.inst),
        }
    }
}

/// One decoded market-data message.
#[derive(Debug)]
pub enum MDResponse {
    Trade(Trade),
    Snapshot(Snapshot),
    Delta(Delta),
    Ping,
}

impl View for MDResponse {
    type V = MDResponseView;

    open spec fn view(&self) -> MDResponseView {
        match self {
            MDResponse::Trade(t) => MDResponseView::Trade(t@),
            MDResponse::Snapshot(s) => MDResponseView::Snapshot(s@),
            MDResponse::Delta(d) => MDResponseView::Delta(d@),
            MDResponse::Ping => MDResponseView::Ping,
        }
    }
}

impl MDResponse {
    pub fn get_inst(&self) -> (r: Option<Instrument>)
        ensures
            r is Some == self@.inst() is Some,
            r matches Some(inst) ==> Some(inst@) == self@.inst(),
    {
        Some(
            match self {
                MDResponse::Ping => return None,
                MDResponse::Delta(d) => d.inst.clone(),
                MDResponse::Snapshot(d) => d.inst.clone(),
                MDResponse::Trade(d) => d.inst.clone(),
            },
        )
    }
}

} // verus!
