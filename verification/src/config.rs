//! Endpoints of the venues, one entry per venue.

use crate::structure::Exchange;
use vstd::prelude::*;

verus! {

/// The mathematical content of an [`ExchangeConfig`].
pub struct ExchangeConfigView {
    pub exchange: Exchange,
    pub http_api: Seq<char>,
    pub exchange_info: Seq<char>,
    pub snapshot: Seq<char>,
    pub wss_api: Seq<char>,
    pub delta_stream: Seq<char>,
    pub trades_stream: Seq<char>,
}

/// Where one venue is reached: the base of its HTTP interface with the paths
/// of the instrument list and of the depth snapshot, and the address of its
/// stream with the suffixes of the depth and trade channels.
#[derive(Debug)]
pub struct ExchangeConfig {
    exchange: Exchange,
    pub http_api: String,
    pub exchange_info: String,
    pub snapshot: String,
    pub wss_api: String,
    pub delta_stream: String,
    pub trades_stream: String,
}

impl View for ExchangeConfig {
    type V = ExchangeConfigView;

    closed spec fn view(&self) -> ExchangeConfigView {
        ExchangeConfigView {
            exchange: self.exchange,
            http_api: self.http_api@,
            exchange_info: self.exchange_info@,
            snapshot: self.snapshot@,
            wss_api: self.wss_api@,
            delta_stream: self.delta_stream@,
            trades_stream: self.trades_stream@,
        }
    }
}

impl ExchangeConfig {
    pub fn new(
        exchange: Exchange,
        http_api: String,
        exchange_info: String,
        snapshot: String,
        wss_api: String,
        delta_stream: String,
        trades_stream: String,
    ) -> (r: ExchangeConfig)
        ensures
            r@ == (ExchangeConfigView {
                exchange,
                http_api: http_api@,
                exchange_info: exchange_info@,
                snapshot: snapshot@,
                wss_api: wss_api@,
                delta_stream: delta_stream@,
                trades_stream: trades_stream@,
            }),
    {
        ExchangeConfig {
            exchange,
            http_api,
            exchange_info,
            snapshot,
            wss_api,
            delta_stream,
            trades_stream,
        }
    }

    /// The venue the entry is for.
    pub fn exchange(&self) -> (r: Exchange)
        ensures
            r == self@.exchange,
    {
        self.exchange
    }

    /// The base address of the HTTP interface.
    pub fn http_api(&self) -> (r: &String)
        ensures
            r@ == self@.http_api,
    {
        &self.http_api
    }

    /// The path of the instrument list.
    pub fn exchange_info(&self) -> (r: &String)
        ensures
            r@ == self@.exchange_info,
    {
        &self.exchange_info
    }

    /// The path of the depth snapshot.
    pub fn snapshot(&self) -> (r: &String)
        ensures
            r@ == self@.snapshot,
    {
        &self.snapshot
    }

    /// The address of the stream.
    pub fn wss_api(&self) -> (r: &String)
        ensures
            r@ == self@.wss_api,
    {
        &self.wss_api
    }
}

impl Clone for ExchangeConfig {
    fn clone(&self) -> (r: ExchangeConfig)
        ensures
            r@ == self@,
    {
        ExchangeConfig {
            exchange: self.exchange,
            http_api: self.http_api.clone(),
            exchange_info: self.exchange_info.clone(),
            snapshot: self.snapshot.clone(),
            wss_api: self.wss_api.clone(),
            delta_stream: self.delta_stream.clone(),
            trades_stream: self.trades_stream.clone(),
        }
    }
}

/// The views of a run of entries, in their order.
pub open spec fn entry_views(s: Seq<ExchangeConfig>) -> Seq<ExchangeConfigView> {
    s.map_values(|c: ExchangeConfig| c@)
}

/// The configured venues.
#[derive(Debug)]
pub struct MDConfig {
    endpoint: Vec<ExchangeConfig>,
}

impl View for MDConfig {
    type V = Seq<ExchangeConfigView>;

    closed spec fn view(&self) -> Seq<ExchangeConfigView> {
        entry_views(self.endpoint@)
    }
}

impl MDConfig {
    /// The configuration with the entries of `endpoint`, in their order.
    pub fn new(endpoint: Vec<ExchangeConfig>) -> (r: MDConfig)
        ensures
            r@ == entry_views(endpoint@),
    {
        MDConfig { endpoint }
    }

    /// The first entry for the venue `exch`; none where no entry is for it.
    pub fn get(&self, exch: Exchange) -> (r: Option<&ExchangeConfig>)
        ensures
            match r {
                Some(c) => exists|i: int|
                    0 <= i < self@.len() && #[trigger] self@[i] == c@ && c@.exchange == exch
                        && forall|j: int| 0 <= j < i ==> (#[trigger] self@[j]).exchange != exch,
                None => forall|j: int| 0 <= j < self@.len() ==> (#[trigger] self@[j]).exchange != exch,
            },
    {
        let mut i: usize = 0;
        while i < self.endpoint.len()
            invariant
                i <= self.endpoint.len(),
                forall|j: int| 0 <= j < i ==> (#[trigger] self@[j]).exchange != exch,
            decreases self.endpoint.len() - i,
        {
            if self.endpoint[i].exchange == exch {
                proof {
                    assert(self@[i as int] == self.endpoint[i as int]@);
                }
                return Some(&self.endpoint[i]);
            }
            proof {
                assert(self@[i as int] == self.endpoint[i as int]@);
            }
            i = i + 1;
        }
        None
    }
}

} // verus!
