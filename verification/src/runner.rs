//! The decisions of the two loops that drive the books.
//!
//! The ingestion loop reads frames from a venue and forwards depth messages
//! to a bounded queue.  The reconciliation loop takes messages from the
//! queue, routes them to the books and fetches a snapshot where a book has
//! gone stale.  Reading, sending and fetching are done by the caller; what to
//! do next is decided here.

use crate::lob::model::DepthUpdateError;
use crate::lob::order_book::BookRows;
use crate::lob::orderbooks::DepthBookManager;
use crate::scheme::connector::WssStream;
use crate::structure::{Exchange, Instrument, MDResponse};
use vstd::prelude::*;

verus! {

/// What the ingestion loop does with a frame.
#[derive(Debug)]
pub enum Ingest {
    /// The frame could not be decoded: it is reported and dropped.
    Unparsed,
    /// A heartbeat: it is answered on the same connection.
    Pong,
    /// A trade: the books have no use for it.
    Ignore,
    /// A snapshot or a delta: it goes to the queue.
    Forward(MDResponse),
}

/// How an attempt to put a message on the queue ended.
#[derive(Clone, Copy, Debug, PartialEq, Eq, Structural)]
pub enum Sent {
    Delivered,
    /// The queue was full and the message is lost.
    Full,
    /// The queue is closed.
    Closed,
}

/// Whether a loop goes on.
#[derive(Clone, Copy, Debug, PartialEq, Eq, Structural)]
pub enum Flow {
    Continue,
    Stop,
}

/// What the reconciliation loop does after a message.
#[derive(Debug)]
pub enum Step {
    /// The book is current: it is shown.
    Publish(BookRows),
    /// The book is stale: a snapshot of the instrument is fetched and put
    /// on the queue.
    Fetch(Instrument),
    /// Nothing is to be done but to report the outcome.
    Report(DepthUpdateError),
    /// A snapshot is on its way: nothing is to be done.
    Wait,
}

pub struct Runner;

impl Runner {
    /// The channels every connection subscribes to: depth, then trades.
    pub fn get_streams() -> (r: Vec<WssStream>)
        ensures
            r@ == seq![WssStream::Depth, WssStream::Trade],
    {
        let mut r: Vec<WssStream> = Vec::new();
        r.push(WssStream::Depth);
        r.push(WssStream::Trade);
        proof {
            assert(r@ =~= seq![WssStream::Depth, WssStream::Trade]);
        }
        r
    }

    /// What to do with a frame, given what the adapter decoded from it.
    pub fn on_frame(decoded: Option<MDResponse>) -> (r: Ingest)
        ensures
            match decoded {
                None => r is Unparsed,
                Some(MDResponse::Ping) => r is Pong,
                Some(MDResponse::Trade(_)) => r is Ignore,
                Some(m) => r matches Ingest::Forward(f) && f == m,
            },
    {
        match decoded {
            None => Ingest::Unparsed,
            Some(MDResponse::Ping) => Ingest::Pong,
            Some(MDResponse::Trade(_)) => Ingest::Ignore,
            Some(m) => Ingest::Forward(m),
        }
    }

    /// Whether a loop goes on after an attempt to send: it ends when the
    /// queue is closed; a message lost to a full queue does not end it.
    pub fn after_send(outcome: Sent) -> (r: Flow)
        ensures
            r == if outcome == Sent::Closed {
                Flow::Stop
            } else {
                Flow::Continue
            },
    {
        match outcome {
            Sent::Closed => Flow::Stop,
            _ => Flow::Continue,
        }
    }

    /// The place in `exchanges` of the first adapter for `wanted`.
    pub fn pick_api(exchanges: &Vec<Exchange>, wanted: Exchange) -> (r: Option<usize>)
        ensures
            match r {
                Some(i) => i < exchanges@.len() && exchanges@[i as int] == wanted && forall|k: int|
                    0 <= k < i ==> exchanges@[k] != wanted,
                None => forall|k: int| 0 <= k < exchanges@.len() ==> exchanges@[k] != wanted,
            },
    {
        let mut i: usize = 0;
        while i < exchanges.len()
            invariant
                i <= exchanges.len(),
                forall|k: int| 0 <= k < i ==> exchanges@[k] != wanted,
            decreases exchanges.len() - i,
        {
            if exchanges[i] == wanted {
                return Some(i);
            }
            i = i + 1;
        }
        None
    }

    /// Routes one message of the queue to its book and says what the loop
    /// does next.  Every message on the queue speaks of an instrument.
    pub fn on_message(depthbooks: &mut DepthBookManager, msg: MDResponse) -> (r: Step)
        requires
            old(depthbooks).wf(),
            !(msg is Ping),
        ensures
            final(depthbooks).wf(),
            ({
                let key = msg@.inst()->0.key();
                let books = old(depthbooks)@;
                if !books.contains_key(key) {
                    &&& final(depthbooks)@ == books
                    &&& r matches Step::Report(e)
                    &&& e == DepthUpdateError::UnknownInstrument
                } else {
                    let step = books[key].apply(msg@);
                    &&& final(depthbooks)@ == books.insert(key, step.0)
                    &&& match step.1 {
                        None => r matches Step::Publish(rows) && rows.asks@ == step.0.sell.reverse()
                            && rows.bids@ == step.0.buy,
                        Some(DepthUpdateError::DepthStale) => r matches Step::Fetch(inst)
                            && inst@ == msg@.inst()->0,
                        Some(DepthUpdateError::WaitSnapshot) => r is Wait,
                        Some(e) => r matches Step::Report(x) && x == e,
                    }
                }
            }),
    {
        let inst = match msg.get_inst() {
            Some(inst) => inst,
            None => {
                return Step::Wait;
            },
        };
        match depthbooks.update(&inst, msg) {
            Ok(depth) => Step::Publish(depth.rows()),
            Err(DepthUpdateError::DepthStale) => Step::Fetch(inst),
            Err(DepthUpdateError::WaitSnapshot) => Step::Wait,
            Err(e) => Step::Report(e),
        }
    }
}

} // verus!
