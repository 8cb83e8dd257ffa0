//! What every venue adapter shares: the streams one can subscribe to and the
//! table that finds an instrument by its wire symbol.

use crate::structure::{Instrument, InstrumentView};
use vstd::hash_map::StringHashMap;
use vstd::prelude::*;

verus! {

/// A channel of the venue's stream.
#[derive(Clone, Copy, Debug, PartialEq, Eq, Structural)]
pub enum WssStream {
    Trade,
    Depth,
}

pub type Streams = Vec<WssStream>;

pub type Instruments = Vec<Instrument>;

/// The views of a run of instruments, in their order.
pub open spec fn instrument_views(s: Seq<Instrument>) -> Seq<InstrumentView> {
    s.map_values(|i: Instrument| i@)
}

/// Instruments by wire symbol.
pub struct AliasInstrument {
    by_symbol: StringHashMap<Instrument>,
}

impl View for AliasInstrument {
    type V = Map<Seq<char>, InstrumentView>;

    closed spec fn view(&self) -> Map<Seq<char>, InstrumentView> {
        Map::new(
            |symbol: Seq<char>| self.by_symbol@.contains_key(symbol),
            |symbol: Seq<char>| self.by_symbol@[symbol]@,
        )
    }
}

/// Whether some instrument among the first `n` of `insts` has the wire symbol
/// `symbol`.
pub open spec fn listed(insts: Seq<Instrument>, n: int, symbol: Seq<char>) -> bool {
    exists|i: int| 0 <= i < n && (#[trigger] insts[i])@.raw == symbol
}

/// Whether the instrument at `i` is the last among the first `n` of `insts`
/// with its wire symbol.
pub open spec fn stands(insts: Seq<Instrument>, n: int, i: int) -> bool {
    forall|j: int| i < j < n ==> (#[trigger] insts[j])@.raw != insts[i]@.raw
}

impl AliasInstrument {
    /// Enters `inst` under its wire symbol, in place of what stood there.
    fn enter(&mut self, inst: &Instrument)
        ensures
            final(self)@ == old(self)@.insert(inst@.raw, inst@),
    {
        self.by_symbol.insert(inst.to_raw_string().clone(), inst.clone());
        proof {
            assert(self@ =~= old(self)@.insert(inst@.raw, inst@));
        }
    }

    /// The table of `insts` by their wire symbols.  Where a symbol occurs
    /// more than once, its last occurrence stands.
    pub fn new(insts: &Vec<Instrument>) -> (r: AliasInstrument)
        ensures
            forall|symbol: Seq<char>|
                #[trigger] r@.contains_key(symbol) <==> listed(insts@, insts@.len() as int, symbol),
            forall|i: int|
                0 <= i < insts@.len() && #[trigger] stands(insts@, insts@.len() as int, i) ==> r@[insts@[i]@.raw]
                    == insts@[i]@,
    {
        let mut r = AliasInstrument { by_symbol: StringHashMap::new() };
        let mut n: usize = 0;
        proof {
            assert(r@ =~= Map::<Seq<char>, InstrumentView>::empty());
        }
        while n < insts.len()
            invariant
                n <= insts.len(),
                forall|symbol: Seq<char>|
                    #[trigger] r@.contains_key(symbol) <==> listed(insts@, n as int, symbol),
                forall|i: int|
                    0 <= i < n && #[trigger] stands(insts@, n as int, i) ==> r@[insts@[i]@.raw]
                        == insts@[i]@,
            decreases insts.len() - n,
        {
            let ghost before = r@;
            r.enter(&insts[n]);
            proof {
                let added = insts@[n as int]@.raw;
                assert forall|symbol: Seq<char>| #[trigger]
                    r@.contains_key(symbol) <==> listed(insts@, n + 1, symbol) by {
                    if listed(insts@, n + 1, symbol) {
                        let i = choose|i: int|
                            0 <= i < n + 1 && (#[trigger] insts@[i])@.raw == symbol;
                        if i < n {
                            assert(listed(insts@, n as int, symbol));
                        }
                    }
                    if before.contains_key(symbol) {
                        assert(listed(insts@, n as int, symbol));
                        let i = choose|i: int| 0 <= i < n && (#[trigger] insts@[i])@.raw == symbol;
                        assert(insts@[i]@.raw == symbol);
                    }
                    if symbol == added {
                        assert(insts@[n as int]@.raw == symbol);
                    }
                }
                assert forall|i: int| 0 <= i < n + 1 && #[trigger] stands(insts@, n + 1, i) implies r@[insts@[i]@.raw]
                    == insts@[i]@ by {
                    if i < n {
                        assert(insts@[n as int]@.raw != insts@[i]@.raw);
                        assert(stands(insts@, n as int, i));
                    }
                }
            }
            n = n + 1;
        }
        r
    }

    /// The instrument with the wire symbol `symbol`.
    pub fn get(&self, symbol: &str) -> (r: Option<&Instrument>)
        ensures
            r is Some == self@.contains_key(symbol@),
            r matches Some(inst) ==> inst@ == self@[symbol@],
    {
        self.by_symbol.get(symbol)
    }
}

} // verus!
