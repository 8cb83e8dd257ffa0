//! The Binance futures adapter: subscription envelopes, the frames of the
//! stream, the instrument list and the address of the depth snapshot.

use crate::common::{Id, Level, Precision, Price, Qty};
use crate::config::ExchangeConfig;
use crate::decimal::fixed_point;
use crate::scheme::connector::{instrument_views, AliasInstrument, WssStream};
use crate::structure;
use crate::structure::{
    Coin, DeltaView, Exchange, Feed, Instrument, InstrumentView, MDResponse, Side, SnapshotView,
    TradeView,
};
use crate::text::same_text;
use vstd::prelude::*;
use vstd::string::*;

verus! {

/// The lower-case form of a text, as the standard library computes it.
pub uninterp spec fn lowercase(s: Seq<char>) -> Seq<char>;

/// `str::to_lowercase` of the standard library.  The contract only names its
/// result: the lower-case form is a function of the text alone.
#[verifier::external_body]
fn to_lowercase(s: &str) -> (r: String)
    ensures
        r@ == lowercase(s@),
{
    s.to_lowercase()
}

/// The views of a run of strings, in their order.
pub open spec fn texts(s: Seq<String>) -> Seq<Seq<char>> {
    s.map_values(|t: String| t@)
}

/// The name of a channel on the wire.
pub open spec fn stream_name(stream: WssStream) -> Seq<char> {
    match stream {
        WssStream::Trade => "aggTrade"@,
        WssStream::Depth => "depth"@,
    }
}

/// The topic of one channel of one instrument: the symbol in lower case, an
/// at sign, the name of the channel.
pub open spec fn topic(raw: Seq<char>, stream: WssStream) -> Seq<char> {
    lowercase(raw) + "@"@ + stream_name(stream)
}

/// The topics of one instrument, one per channel, in the order of the
/// channels.
pub open spec fn topics(raw: Seq<char>, streams: Seq<WssStream>) -> Seq<Seq<char>> {
    Seq::new(streams.len(), |j: int| topic(raw, streams[j]))
}

/// The topics of several instruments: those of the first, then those of the
/// second, and so on.
pub open spec fn all_topics(insts: Seq<InstrumentView>, streams: Seq<WssStream>) -> Seq<Seq<char>>
    decreases insts.len(),
{
    if insts.len() == 0 {
        Seq::empty()
    } else {
        all_topics(insts.drop_last(), streams) + topics(insts.last().raw, streams)
    }
}

/// The mathematical content of a [`Connect`].
pub struct ConnectView {
    pub method: Seq<char>,
    pub params: Seq<Seq<char>>,
    pub id: u64,
}

/// A subscription envelope.
#[derive(Debug)]
pub struct Connect {
    method: String,
    params: Vec<String>,
    id: u64,
}

impl View for Connect {
    type V = ConnectView;

    closed spec fn view(&self) -> ConnectView {
        ConnectView { method: self.method@, params: texts(self.params@), id: self.id }
    }
}

impl Connect {
    /// The topics of `inst` on `streams`.
    pub fn get_sub(inst: &Instrument, streams: &Vec<WssStream>) -> (r: Vec<String>)
        ensures
            texts(r@) == topics(inst@.raw, streams@),
    {
        let mut out: Vec<String> = Vec::new();
        let mut j: usize = 0;
        while j < streams.len()
            invariant
                j <= streams.len(),
                out@.len() == j,
                forall|k: int| 0 <= k < j ==> (#[trigger] out@[k])@ == topic(inst@.raw, streams@[k]),
            decreases streams.len() - j,
        {
            let name = match streams[j] {
                WssStream::Trade => "aggTrade",
                WssStream::Depth => "depth",
            };
            let mut t = to_lowercase(inst.to_raw_string().as_str());
            t.append("@");
            t.append(name);
            out.push(t);
            j = j + 1;
        }
        proof {
            assert(texts(out@) =~= topics(inst@.raw, streams@));
        }
        out
    }

    /// The envelope that subscribes to `stream` for all of `insts`, under the
    /// request id `id`.
    pub fn new(id: u64, insts: &Vec<Instrument>, stream: &Vec<WssStream>) -> (r: Connect)
        ensures
            r@ == (ConnectView {
                method: "SUBSCRIBE"@,
                params: all_topics(instrument_views(insts@), stream@),
                id,
            }),
    {
        let mut params: Vec<String> = Vec::new();
        let ghost all = instrument_views(insts@);
        let mut n: usize = 0;
        proof {
            assert(all.take(0) =~= Seq::<InstrumentView>::empty());
            assert(texts(params@) =~= Seq::<Seq<char>>::empty());
        }
        while n < insts.len()
            invariant
                n <= insts.len(),
                all == instrument_views(insts@),
                texts(params@) == all_topics(all.take(n as int), stream@),
            decreases insts.len() - n,
        {
            let mut sub = Self::get_sub(&insts[n], stream);
            let ghost before = params@;
            let ghost added = sub@;
            params.append(&mut sub);
            proof {
                assert(all.take(n + 1).drop_last() =~= all.take(n as int));
                assert(all.take(n + 1).last() == insts@[n as int]@);
                assert(texts(params@) =~= texts(before) + texts(added));
            }
            n = n + 1;
        }
        proof {
            assert(all.take(n as int) =~= all);
        }
        Connect { method: "SUBSCRIBE".to_string(), id, params }
    }

    /// The envelope that subscribes to `stream` for `inst` alone.
    pub fn new_single(id: u64, inst: &Instrument, stream: &Vec<WssStream>) -> (r: Connect)
        ensures
            r@ == (ConnectView {
                method: "SUBSCRIBE"@,
                params: topics(inst@.raw, stream@),
                id,
            }),
    {
        Connect { method: "SUBSCRIBE".to_string(), id, params: Self::get_sub(inst, stream) }
    }

    /// The method of the envelope.
    pub fn method(&self) -> (r: &String)
        ensures
            r@ == self@.method,
    {
        &self.method
    }

    /// The topics of the envelope.
    pub fn params(&self) -> (r: &Vec<String>)
        ensures
            texts(r@) == self@.params,
    {
        &self.params
    }

    /// The request id of the envelope.
    pub fn id(&self) -> (r: u64)
        ensures
            r == self@.id,
    {
        self.id
    }
}

/// The views of a run of text pairs, in their order.
pub open spec fn pair_views(s: Seq<(String, String)>) -> Seq<(Seq<char>, Seq<char>)> {
    s.map_values(|p: (String, String)| (p.0@, p.1@))
}

/// The levels that a run of price and quantity texts denotes, in its order;
/// a pair that denotes no level is left out.
pub open spec fn levels_of(pairs: Seq<(Seq<char>, Seq<char>)>) -> Seq<Level>
    decreases pairs.len(),
{
    if pairs.len() == 0 {
        Seq::empty()
    } else {
        levels_of(pairs.drop_last()) + (match Level::of_texts(pairs.last().0, pairs.last().1) {
            Some(l) => seq![l],
            None => Seq::empty(),
        })
    }
}

/// The levels of `pairs`, read from the back when `reversed`.
pub fn pair_to_levels(pairs: &Vec<(String, String)>, reversed: bool) -> (r: Vec<Level>)
    ensures
        r@ == levels_of(
            if reversed {
                pair_views(pairs@).reverse()
            } else {
                pair_views(pairs@)
            },
        ),
{
    let ghost src = if reversed {
        pair_views(pairs@).reverse()
    } else {
        pair_views(pairs@)
    };
    let n = pairs.len();
    let mut out: Vec<Level> = Vec::new();
    let mut i: usize = 0;
    proof {
        assert(src.take(0) =~= Seq::<(Seq<char>, Seq<char>)>::empty());
    }
    while i < n
        invariant
            i <= n,
            n == pairs.len(),
            src.len() == n,
            src == if reversed {
                pair_views(pairs@).reverse()
            } else {
                pair_views(pairs@)
            },
            out@ == levels_of(src.take(i as int)),
        decreases n - i,
    {
        let at = if reversed {
            n - 1 - i
        } else {
            i
        };
        let pair = &pairs[at];
        proof {
            assert(src[i as int] == (pair.0@, pair.1@));
            assert(src.take(i + 1).drop_last() =~= src.take(i as int));
            assert(src.take(i + 1).last() == src[i as int]);
        }
        match Level::from_str_pair(pair) {
            Some(l) => {
                out.push(l);
            },
            None => {
                proof {
                    assert(out@ + Seq::<Level>::empty() =~= out@);
                }
            },
        }
        i = i + 1;
    }
    proof {
        assert(src.take(n as int) =~= src);
    }
    out
}

/// An aggregated trade as the stream carries it.
#[derive(Debug)]
pub struct Trade {
    pub symbol: String,
    pub price: String,
    pub qty: String,
    pub first_id: u64,
    pub last_id: u64,
    pub is_mm: bool,
}

impl Trade {
    /// The trade this frame denotes: its instrument found by symbol, its
    /// level read from the decimal texts, on the sell side when the buyer was
    /// the maker.  None where the symbol is unknown or a text is no value.
    pub open spec fn regular(self, insts_map: Map<Seq<char>, InstrumentView>) -> Option<TradeView> {
        if insts_map.contains_key(self.symbol@) {
            match (fixed_point(self.price@), fixed_point(self.qty@)) {
                (Some(p), Some(q)) => Some(
                    TradeView {
                        inst: insts_map[self.symbol@],
                        info: Level { price: Price(p), qty: Qty(q) },
                        side: if self.is_mm {
                            Side::Sell
                        } else {
                            Side::Buy
                        },
                        first: Id(self.first_id),
                        last: Id(self.last_id),
                    },
                ),
                _ => None,
            }
        } else {
            None
        }
    }

    pub fn to_regular(self, insts_map: &AliasInstrument) -> (r: Option<structure::Trade>)
        ensures
            r is Some == self.regular(insts_map@) is Some,
            r matches Some(t) ==> Some(t@) == self.regular(insts_map@),
    {
        let inst = match insts_map.get(self.symbol.as_str()) {
            Some(inst) => inst.clone(),
            None => {
                return None;
            },
        };
        let price = match Price::from_str(self.price.as_str()) {
            Ok(p) => p,
            Err(_) => {
                return None;
            },
        };
        let qty = match Qty::from_str(self.qty.as_str()) {
            Ok(q) => q,
            Err(_) => {
                return None;
            },
        };
        Some(
            structure::Trade::new(
                inst,
                Level::new(price, qty),
                if self.is_mm {
                    Side::Sell
                } else {
                    Side::Buy
                },
                Id(self.first_id),
                Id(self.last_id),
            ),
        )
    }
}

/// A depth delta as the stream carries it, bids and asks as texts.
#[derive(Debug)]
pub struct Delta {
    pub symbol: String,
    pub first_id: u64,
    pub last_id: u64,
    pub last_stream: u64,
    pub buy: Vec<(String, String)>,
    pub sell: Vec<(String, String)>,
}

impl Delta {
    /// The delta this frame denotes: its instrument found by symbol, the
    /// bids read from the back so that the best price comes first, the asks
    /// in their order.  None where the symbol is unknown.
    pub open spec fn regular(self, insts_map: Map<Seq<char>, InstrumentView>) -> Option<DeltaView> {
        if insts_map.contains_key(self.symbol@) {
            Some(
                DeltaView {
                    inst: insts_map[self.symbol@],
                    buy: levels_of(pair_views(self.buy@).reverse()),
                    sell: levels_of(pair_views(self.sell@)),
                    first: Id(self.first_id),
                    last: Id(self.last_id),
                    last_stream: Id(self.last_stream),
                },
            )
        } else {
            None
        }
    }

    pub fn to_regular(self, insts_map: &AliasInstrument) -> (r: Option<structure::Delta>)
        ensures
            r is Some == self.regular(insts_map@) is Some,
            r matches Some(d) ==> Some(d@) == self.regular(insts_map@),
    {
        let inst = match insts_map.get(self.symbol.as_str()) {
            Some(inst) => inst.clone(),
            None => {
                return None;
            },
        };
        Some(
            structure::Delta::new(
                inst,
                pair_to_levels(&self.buy, true),
                pair_to_levels(&self.sell, false),
                Id(self.first_id),
                Id(self.last_id),
                Id(self.last_stream),
            ),
        )
    }
}

/// A depth snapshot as the HTTP interface returns it.
#[derive(Debug)]
pub struct Snapshot {
    pub message_time: u64,
    pub last_id: u64,
    pub buy: Vec<(String, String)>,
    pub sell: Vec<(String, String)>,
}

impl Snapshot {
    /// The snapshot of `inst` this reply denotes: the bids read from the
    /// back, the asks in their order.
    pub open spec fn regular(self, inst: InstrumentView) -> SnapshotView {
        SnapshotView {
            inst,
            buy: levels_of(pair_views(self.buy@).reverse()),
            sell: levels_of(pair_views(self.sell@)),
            last: Id(self.last_id),
            time: self.message_time,
        }
    }

    pub fn to_regular(self, inst: Instrument) -> (r: Option<structure::Snapshot>)
        ensures
            r matches Some(s) && s@ == self.regular(inst@),
    {
        Some(
            structure::Snapshot::new(
                inst,
                pair_to_levels(&self.buy, true),
                pair_to_levels(&self.sell, false),
                Id(self.last_id),
                self.message_time,
            ),
        )
    }
}

/// One member of a filter object: its name, and its text where its value is
/// a string.
#[derive(Debug)]
pub struct Member {
    pub name: String,
    pub text: Option<String>,
}

/// One entry of a symbol's filter list, as far as the adapter reads it: an
/// object with its members, or a value of any other kind.
#[derive(Debug)]
pub enum Filter {
    Other,
    Object(Vec<Member>),
}

/// The place of the first member named `name`.
pub open spec fn member_at(members: Seq<Member>, name: Seq<char>) -> Option<int>
    decreases members.len(),
{
    if members.len() == 0 {
        None
    } else if members[0].name@ == name {
        Some(0)
    } else {
        match member_at(members.drop_first(), name) {
            Some(i) => Some(i + 1),
            None => None,
        }
    }
}

/// The place of the filter of type `name`: the first object whose member
/// `filterType` is the text `name`.  The search gives up at an entry that is
/// no object or has no such member.
pub open spec fn filter_at(filters: Seq<Filter>, name: Seq<char>) -> Option<int>
    decreases filters.len(),
{
    if filters.len() == 0 {
        None
    } else {
        match filters[0] {
            Filter::Other => None,
            Filter::Object(members) => match member_at(members@, "filterType"@) {
                None => None,
                Some(i) => if members@[i].text matches Some(t) && t@ == name {
                    Some(0)
                } else {
                    match filter_at(filters.drop_first(), name) {
                        Some(k) => Some(k + 1),
                        None => None,
                    }
                },
            },
        }
    }
}

/// The fixed-point value of the member `field` of the filter of type `kind`.
pub open spec fn filter_value(filters: Seq<Filter>, kind: Seq<char>, field: Seq<char>) -> Option<
    i64,
> {
    match filter_at(filters, kind) {
        Some(k) => match filters[k] {
            Filter::Object(members) => match member_at(members@, field) {
                Some(i) => match members@[i].text {
                    Some(t) => fixed_point(t@),
                    None => None,
                },
                None => None,
            },
            Filter::Other => None,
        },
        None => None,
    }
}

/// The tick sizes that a filter list publishes: the `tickSize` of its
/// `PRICE_FILTER` and the `stepSize` of its `LOT_SIZE`.
pub open spec fn precision_of(filters: Seq<Filter>) -> Option<Precision> {
    match (
        filter_value(filters, "PRICE_FILTER"@, "tickSize"@),
        filter_value(filters, "LOT_SIZE"@, "stepSize"@),
    ) {
        (Some(p), Some(q)) => Some(Precision { price: Price(p), qty: Qty(q) }),
        _ => None,
    }
}

/// The first member named `name`.
pub fn find_member<'a>(members: &'a Vec<Member>, name: &str) -> (r: Option<&'a Member>)
    ensures
        match member_at(members@, name@) {
            Some(i) => 0 <= i < members@.len() && r == Some(&members@[i]),
            None => r is None,
        },
{
    let mut i: usize = 0;
    proof {
        assert(members@.skip(0) =~= members@);
    }
    while i < members.len()
        invariant
            i <= members.len(),
            member_at(members@, name@) == match member_at(members@.skip(i as int), name@) {
                Some(k) => Some(k + i),
                None => None,
            },
        decreases members.len() - i,
    {
        proof {
            assert(members@.skip(i as int)[0] == members@[i as int]);
            assert(members@.skip(i as int).drop_first() =~= members@.skip(i + 1));
        }
        if same_text(members[i].name.as_str(), name) {
            return Some(&members[i]);
        }
        i = i + 1;
    }
    None
}

/// An instrument as the venue lists it.
#[derive(Debug)]
pub struct Symbol {
    pub symbol: String,
    pub base_asset: String,
    pub quote_asset: String,
    pub contract_type: String,
    pub filters: Vec<Filter>,
    pub delivery_date: u64,
}

impl Symbol {
    /// The filter of type `name` in `filters`.
    pub fn find_filter<'a>(filters: &'a Vec<Filter>, name: &str) -> (r: Option<&'a Filter>)
        ensures
            match filter_at(filters@, name@) {
                Some(k) => 0 <= k < filters@.len() && r == Some(&filters@[k]),
                None => r is None,
            },
    {
        let mut i: usize = 0;
        proof {
            assert(filters@.skip(0) =~= filters@);
        }
        while i < filters.len()
            invariant
                i <= filters.len(),
                filter_at(filters@, name@) == match filter_at(filters@.skip(i as int), name@) {
                    Some(k) => Some(k + i),
                    None => None,
                },
            decreases filters.len() - i,
        {
            proof {
                assert(filters@.skip(i as int)[0] == filters@[i as int]);
                assert(filters@.skip(i as int).drop_first() =~= filters@.skip(i + 1));
            }
            match &filters[i] {
                Filter::Other => {
                    return None;
                },
                Filter::Object(members) => {
                    match find_member(members, "filterType") {
                        None => {
                            return None;
                        },
                        Some(m) => {
                            let hit = match &m.text {
                                Some(t) => same_text(t.as_str(), name),
                                None => false,
                            };
                            if hit {
                                return Some(&filters[i]);
                            }
                        },
                    }
                },
            }
            i = i + 1;
        }
        None
    }

    /// The fixed-point value of the member `field` of the filter of type
    /// `kind`.
    fn filter_value(filters: &Vec<Filter>, kind: &str, field: &str) -> (r: Option<i64>)
        ensures
            r == filter_value(filters@, kind@, field@),
    {
        match Self::find_filter(filters, kind) {
            Some(Filter::Object(members)) => match find_member(members, field) {
                Some(m) => match &m.text {
                    Some(t) => crate::decimal::parse_fixed(t.as_str()),
                    None => None,
                },
                None => None,
            },
            _ => None,
        }
    }

    /// The tick sizes the venue publishes for the instrument; none where the
    /// filter list does not hold them as decimal texts.
    pub fn get_precision(&self) -> (r: Option<Precision>)
        ensures
            r == precision_of(self.filters@),
    {
        let price = match Self::filter_value(&self.filters, "PRICE_FILTER", "tickSize") {
            Some(p) => p,
            None => {
                return None;
            },
        };
        let qty = match Self::filter_value(&self.filters, "LOT_SIZE", "stepSize") {
            Some(q) => q,
            None => {
                return None;
            },
        };
        Some(Precision::new(Price::new(price), Qty::new(qty)))
    }

    /// The instrument this entry lists; none where its tick sizes are
    /// missing.
    pub open spec fn instrument(self) -> Option<InstrumentView> {
        match precision_of(self.filters@) {
            Some(precision) => Some(
                InstrumentView {
                    base: self.base_asset@,
                    margin: self.quote_asset@,
                    feed: Feed::of_tag(self.contract_type@, self.delivery_date),
                    exchange: Exchange::BINANCE,
                    precision,
                    raw: self.symbol@,
                },
            ),
            None => None,
        }
    }

    pub fn to_instrument(&self) -> (r: Option<Instrument>)
        ensures
            r is Some == self.instrument() is Some,
            r matches Some(i) ==> Some(i@) == self.instrument(),
    {
        let feed = match Feed::from_raw(self.contract_type.as_str(), self.delivery_date) {
            Some(f) => f,
            None => {
                return None;
            },
        };
        let precision = match self.get_precision() {
            Some(p) => p,
            None => {
                return None;
            },
        };
        Some(
            Instrument::new(
                Coin(self.base_asset.clone()),
                Coin(self.quote_asset.clone()),
                feed,
                Exchange::BINANCE,
                precision,
                self.symbol.clone(),
            ),
        )
    }
}

/// The instrument list of the venue.
#[derive(Debug)]
pub struct ExchangeInfo {
    pub symbols: Vec<Symbol>,
}

impl ExchangeInfo {
    /// The instruments of the list, in its order; none where an entry lacks
    /// its tick sizes.
    pub fn instruments(&self) -> (r: Option<Vec<Instrument>>)
        ensures
            match r {
                Some(v) => v@.len() == self.symbols@.len() && forall|i: int|
                    0 <= i < v@.len() ==> Some((#[trigger] v@[i])@) == self.symbols@[i].instrument(),
                None => exists|i: int|
                    0 <= i < self.symbols@.len() && (
                    #[trigger] self.symbols@[i]).instrument() is None,
            },
    {
        let mut out: Vec<Instrument> = Vec::new();
        let mut i: usize = 0;
        while i < self.symbols.len()
            invariant
                i <= self.symbols.len(),
                out@.len() == i,
                forall|k: int|
                    0 <= k < i ==> Some((#[trigger] out@[k])@) == self.symbols@[k].instrument(),
            decreases self.symbols.len() - i,
        {
            match self.symbols[i].to_instrument() {
                Some(inst) => {
                    out.push(inst);
                },
                None => {
                    return None;
                },
            }
            i = i + 1;
        }
        Some(out)
    }
}

/// The address that `Url::parse_with_params` of the `url` crate gives for a
/// base address with one query parameter; none where the base is no absolute
/// address.
pub uninterp spec fn url_with_param(base: Seq<char>, key: Seq<char>, value: Seq<char>) -> Option<
    Seq<char>,
>;

/// The most bytes of text that go into one address.
pub const MAX_URL_TEXT: usize = 0x0100_0000;

/// `Url::parse_with_params` of the `url` crate, as `reqwest` hands it on,
/// with one parameter, followed by `Url::as_str`.  The contract only names
/// the result: the serialised address is a function of the three texts
/// alone.  Texts beyond [`MAX_URL_TEXT`] are kept out, because the crate
/// counts the positions inside an address in 32 bits.
#[verifier::external_body]
fn parse_with_param(base: &str, key: &str, value: &str) -> (r: Option<String>)
    requires
        base.spec_bytes().len() + key.spec_bytes().len() + value.spec_bytes().len()
            <= MAX_URL_TEXT,
    ensures
        r is Some == url_with_param(base@, key@, value@) is Some,
        r matches Some(u) ==> Some(u@) == url_with_param(base@, key@, value@),
{
    match reqwest::Url::parse_with_params(base, &[(key, value)]) {
        Ok(url) => Some(url.as_str().to_string()),
        Err(_) => None,
    }
}

/// `rand::random` for a 64-bit integer.  Nothing is claimed of the value.
#[verifier::external_body]
fn random_id() -> u64 {
    rand::random()
}

/// What kind of frame a text of the stream is.
#[derive(Clone, Copy, Debug, PartialEq, Eq, Structural)]
pub enum FrameKind {
    Trade,
    Delta,
    Ping,
    Unknown,
}

/// The kind of a frame, told from its seventh byte: `a` begins the event
/// name of an aggregated trade, `d` that of a depth update.  The text `ping`
/// is the heartbeat.
pub open spec fn frame_kind(resp: &str) -> FrameKind {
    let bytes = resp.spec_bytes();
    if bytes.len() > 6 && bytes[6] == 97 {
        FrameKind::Trade
    } else if bytes.len() > 6 && bytes[6] == 100 {
        FrameKind::Delta
    } else if resp@ == "ping"@ {
        FrameKind::Ping
    } else {
        FrameKind::Unknown
    }
}

/// A frame of the stream, decoded.
#[derive(Debug)]
pub enum Frame {
    Trade(Trade),
    Delta(Delta),
    Ping,
}

/// The adapter of one configured Binance endpoint.
pub struct Api {
    cfg: ExchangeConfig,
}

impl Api {
    /// The entry the adapter was made with.
    pub closed spec fn cfg(&self) -> crate::config::ExchangeConfigView {
        self.cfg@
    }

    pub fn new(cfg: ExchangeConfig) -> (r: Api)
        ensures
            r.cfg() == cfg@,
    {
        Api { cfg }
    }

    /// The address of the path `s` on the HTTP interface.
    pub fn get_api_url(&self, s: &str) -> (r: String)
        ensures
            r@ == self.cfg().http_api + s@,
    {
        self.cfg.http_api().clone().concat(s)
    }

    /// The address of the instrument list.
    pub fn exchange_info_url(&self) -> (r: String)
        ensures
            r@ == self.cfg().http_api + self.cfg().exchange_info,
    {
        self.get_api_url(self.cfg.exchange_info().as_str())
    }

    /// The address of the depth snapshot of `inst`: the snapshot path with
    /// the wire symbol as the parameter `symbol`.  None where the configured
    /// address is no absolute address, and where the texts are too long for
    /// one.
    pub fn snapshot_url(&self, inst: &Instrument) -> (r: Option<String>)
        ensures
            ({
                let base = self.cfg().http_api + self.cfg().snapshot;
                let named = url_with_param(base, "symbol"@, inst@.raw);
                if vstd::utf8::encode_utf8(base).len() + vstd::utf8::encode_utf8(inst@.raw).len()
                    > MAX_URL_TEXT - 6 {
                    r is None
                } else {
                    match r {
                        Some(u) => named == Some(u@),
                        None => named is None,
                    }
                }
            }),
    {
        let base = self.get_api_url(self.cfg.snapshot().as_str());
        let raw = inst.to_raw_string();
        proof {
            reveal_strlit("symbol");
            assert("symbol".spec_bytes().len() == 6) by {
                is_ascii_spec_bytes("symbol");
            }
        }
        let base_len = base.as_str().as_bytes().len();
        let raw_len = raw.as_str().as_bytes().len();
        if base_len > MAX_URL_TEXT - 6 || raw_len > MAX_URL_TEXT - 6 - base_len {
            return None;
        }
        parse_with_param(base.as_str(), "symbol", raw.as_str())
    }

    /// A request id: the seconds of the clock where it gave any, a random
    /// number otherwise.
    pub fn get_sub_id(clock: Option<u64>) -> (r: u64)
        ensures
            clock matches Some(n) ==> r == n,
    {
        match clock {
            Some(n) => n,
            None => random_id(),
        }
    }

    /// The address of the stream.
    pub fn connect_uri(&self) -> (r: &String)
        ensures
            r@ == self.cfg().wss_api,
    {
        self.cfg.wss_api()
    }

    /// The reply to a heartbeat.
    pub fn pong(&self) -> (r: &'static str)
        ensures
            r@ == "pong"@,
    {
        "pong"
    }

    /// The envelope that subscribes to `stream` for all of `inst`.
    pub fn subscribe(&self, id: u64, inst: &Vec<Instrument>, stream: &Vec<WssStream>) -> (r:
        Connect)
        ensures
            r@ == (ConnectView {
                method: "SUBSCRIBE"@,
                params: all_topics(instrument_views(inst@), stream@),
                id,
            }),
    {
        Connect::new(id, inst, stream)
    }

    /// The envelope that subscribes to `stream` for `inst` alone.
    pub fn subscribe_single(&self, id: u64, inst: &Instrument, stream: &Vec<WssStream>) -> (r:
        Connect)
        ensures
            r@ == (ConnectView {
                method: "SUBSCRIBE"@,
                params: topics(inst@.raw, stream@),
                id,
            }),
    {
        Connect::new_single(id, inst, stream)
    }

    /// Tells the kind of a frame before it is decoded.
    pub fn classify(resp: &str) -> (r: FrameKind)
        ensures
            r == frame_kind(resp),
    {
        let bytes = resp.as_bytes();
        if bytes.len() > 6 && bytes[6] == 97 {
            FrameKind::Trade
        } else if bytes.len() > 6 && bytes[6] == 100 {
            FrameKind::Delta
        } else if same_text(resp, "ping") {
            FrameKind::Ping
        } else {
            FrameKind::Unknown
        }
    }

    /// The message that a decoded frame carries.  A frame that could not be
    /// decoded, a symbol that is not subscribed and a trade whose texts are no
    /// values carry none.
    pub fn handle_response(&self, frame: Option<Frame>, insts_map: &AliasInstrument) -> (r: Option<
        MDResponse,
    >)
        ensures
            match frame {
                None => r is None,
                Some(Frame::Ping) => r matches Some(m) && m is Ping,
                Some(Frame::Trade(t)) => match t.regular(insts_map@) {
                    Some(v) => r matches Some(m) && m@ == structure::MDResponseView::Trade(v),
                    None => r is None,
                },
                Some(Frame::Delta(d)) => match d.regular(insts_map@) {
                    Some(v) => r matches Some(m) && m@ == structure::MDResponseView::Delta(v),
                    None => r is None,
                },
            },
    {
        match frame {
            None => None,
            Some(Frame::Ping) => Some(MDResponse::Ping),
            Some(Frame::Trade(t)) => match t.to_regular(insts_map) {
                Some(trade) => Some(MDResponse::Trade(trade)),
                None => None,
            },
            Some(Frame::Delta(d)) => match d.to_regular(insts_map) {
                Some(delta) => Some(MDResponse::Delta(delta)),
                None => None,
            },
        }
    }
}

} // verus!
