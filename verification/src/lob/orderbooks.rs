//! The registry of depth books, one per instrument.

use crate::common::Id;
use crate::lob::model::{BookState, DepthUpdateError};
use crate::lob::order_book::OrderBook;
use crate::structure::{Instrument, InstrumentKey, InstrumentView, MDResponse};
use vstd::prelude::*;

verus! {

/// The depth of the ladders a registry gives its books.
pub const REGISTRY_DEPTH: usize = 20;

/// The keys of a run of instruments, in their order.
pub open spec fn keys_of(insts: Seq<Instrument>) -> Seq<InstrumentKey> {
    insts.map_values(|i: Instrument| i@.key())
}

/// The place of `k` among `keys`, where it occurs.
pub open spec fn place_of(keys: Seq<InstrumentKey>, k: InstrumentKey) -> int {
    choose|i: int| 0 <= i < keys.len() && keys[i] == k
}

/// The books of the subscribed instruments.  An instrument is found by its
/// key; no key is held twice.
pub struct DepthBookManager {
    insts: Vec<Instrument>,
    books: Vec<OrderBook>,
}

impl View for DepthBookManager {
    type V = Map<InstrumentKey, BookState>;

    closed spec fn view(&self) -> Map<InstrumentKey, BookState> {
        Map::new(
            |k: InstrumentKey| keys_of(self.insts@).contains(k),
            |k: InstrumentKey| self.books@[place_of(keys_of(self.insts@), k)]@,
        )
    }
}

impl DepthBookManager {
    /// Validity of a registry: one valid book per instrument, no instrument
    /// twice.
    pub closed spec fn wf(&self) -> bool {
        &&& self.insts@.len() == self.books@.len()
        &&& keys_of(self.insts@).no_duplicates()
        &&& forall|i: int| 0 <= i < self.books@.len() ==> (#[trigger] self.books@[i]).wf()
    }

    fn find(&self, instrument: &Instrument) -> (r: Option<usize>)
        requires
            self.wf(),
        ensures
            match r {
                Some(p) => p < self.insts@.len() && keys_of(self.insts@)[p as int]
                    == instrument@.key() && p == place_of(
                    keys_of(self.insts@),
                    instrument@.key(),
                ),
                None => !keys_of(self.insts@).contains(instrument@.key()),
            },
    {
        let ghost keys = keys_of(self.insts@);
        let mut p: usize = 0;
        while p < self.insts.len()
            invariant
                p <= self.insts.len(),
                keys == keys_of(self.insts@),
                keys.no_duplicates(),
                forall|i: int| 0 <= i < p ==> keys[i] != instrument@.key(),
            decreases self.insts.len() - p,
        {
            if self.insts[p].same(instrument) {
                proof {
                    assert(keys[p as int] == instrument@.key());
                    let q = place_of(keys, instrument@.key());
                    assert(keys[q] == keys[p as int]);
                }
                return Some(p);
            }
            p = p + 1;
        }
        None
    }

    /// Gives `inst` a fresh book, in place of the one it had, if any.
    fn enroll(&mut self, inst: &Instrument, skip_limit: Id)
        requires
            old(self).wf(),
        ensures
            final(self).wf(),
            final(self)@ == old(self)@.insert(
                inst@.key(),
                BookState::fresh(inst@.precision, REGISTRY_DEPTH as nat, skip_limit),
            ),
    {
        let book = OrderBook::new(inst.precision(), REGISTRY_DEPTH).with_skip_limit(skip_limit);
        let ghost old_keys = keys_of(self.insts@);
        let ghost key = inst@.key();
        match self.find(inst) {
            Some(p) => {
                self.books.set(p, book);
                proof {
                    assert(keys_of(self.insts@) == old_keys);
                    assert forall|k: InstrumentKey|
                        old_keys.contains(k) && k != key implies place_of(old_keys, k) != p by {
                        let q = place_of(old_keys, k);
                        assert(old_keys[q] == k);
                    }
                    assert(old_keys.contains(key));
                    assert(self@ =~= old(self)@.insert(key, book@));
                }
            },
            None => {
                self.insts.push(inst.clone());
                self.books.push(book);
                proof {
                    let new_keys = keys_of(self.insts@);
                    assert(new_keys =~= old_keys.push(key));
                    assert forall|a: int, b: int|
                        0 <= a < new_keys.len() && 0 <= b < new_keys.len() && a
                            != b implies new_keys[a] != new_keys[b] by {
                        if a < old_keys.len() {
                            assert(old_keys.contains(old_keys[a]));
                        }
                        if b < old_keys.len() {
                            assert(old_keys.contains(old_keys[b]));
                        }
                    }
                    assert forall|k: InstrumentKey| old_keys.contains(k) implies place_of(
                        new_keys,
                        k,
                    ) == place_of(old_keys, k) && new_keys.contains(k) by {
                        let q = place_of(old_keys, k);
                        assert(new_keys[q] == k);
                        let q2 = place_of(new_keys, k);
                        assert(new_keys[q2] == k);
                    }
                    assert(new_keys[old_keys.len() as int] == key);
                    assert(new_keys.contains(key));
                    assert(place_of(new_keys, key) == old_keys.len()) by {
                        let q2 = place_of(new_keys, key);
                        assert(new_keys[q2] == key);
                    }
                    assert forall|k: InstrumentKey| new_keys.contains(k) implies k == key
                        || old_keys.contains(k) by {
                        let m = choose|m: int| 0 <= m < new_keys.len() && new_keys[m] == k;
                        if m < old_keys.len() {
                            assert(old_keys[m] == k);
                        }
                    }
                    assert(self@ =~= old(self)@.insert(key, book@));
                }
            },
        }
    }

    /// A registry with a fresh book for every instrument of `insts`, each
    /// with ladders of [`REGISTRY_DEPTH`] levels and a horizon of 100 ids.
    /// Where an instrument occurs more than once, its last occurrence gives
    /// the tick sizes.
    pub fn new(insts: &Vec<Instrument>) -> (r: DepthBookManager)
        ensures
            r.wf(),
            forall|k: InstrumentKey| r@.contains_key(k) <==> keys_of(insts@).contains(k),
            forall|i: int|
                0 <= i < insts@.len() && (forall|j: int|
                    i < j < insts@.len() ==> keys_of(insts@)[j] != keys_of(insts@)[i]) ==> r@[(
                #[trigger] insts@[i])@.key()] == BookState::fresh(
                    insts@[i]@.precision,
                    REGISTRY_DEPTH as nat,
                    Id(100),
                ),
    {
        Self::with_skip_limit(insts, Id(100))
    }

    /// A registry with a fresh book for every instrument of `insts`, each
    /// with ladders of [`REGISTRY_DEPTH`] levels and a horizon of `skip_limit`
    /// ids.  Where an instrument occurs more than once, its last occurrence
    /// gives the tick sizes.
    pub fn with_skip_limit(insts: &Vec<Instrument>, skip_limit: Id) -> (r: DepthBookManager)
        ensures
            r.wf(),
            forall|k: InstrumentKey| r@.contains_key(k) <==> keys_of(insts@).contains(k),
            forall|i: int|
                0 <= i < insts@.len() && (forall|j: int|
                    i < j < insts@.len() ==> keys_of(insts@)[j] != keys_of(insts@)[i]) ==> r@[(
                #[trigger] insts@[i])@.key()] == BookState::fresh(
                    insts@[i]@.precision,
                    REGISTRY_DEPTH as nat,
                    skip_limit,
                ),
    {
        let mut r = DepthBookManager { insts: Vec::new(), books: Vec::new() };
        let ghost given = keys_of(insts@);
        let mut n: usize = 0;
        proof {
            assert forall|k: InstrumentKey| !r@.contains_key(k) by {}
        }
        while n < insts.len()
            invariant
                n <= insts.len(),
                given == keys_of(insts@),
                r.wf(),
                forall|k: InstrumentKey|
                    r@.contains_key(k) <==> exists|i: int| 0 <= i < n && #[trigger] given[i] == k,
                forall|i: int|
                    0 <= i < n && (forall|j: int| i < j < n ==> given[j] != given[i]) ==> r@[(
                    #[trigger] insts@[i])@.key()] == BookState::fresh(
                        insts@[i]@.precision,
                        REGISTRY_DEPTH as nat,
                        skip_limit,
                    ),
            decreases insts.len() - n,
        {
            let ghost before = r@;
            let ghost key = insts@[n as int]@.key();
            assert(given[n as int] == key);
            r.enroll(&insts[n], skip_limit);
            proof {
                assert forall|i: int|
                    0 <= i < n + 1 && (forall|j: int|
                        i < j < n + 1 ==> given[j] != given[i]) implies r@[(
                #[trigger] insts@[i])@.key()] == BookState::fresh(
                    insts@[i]@.precision,
                    REGISTRY_DEPTH as nat,
                    skip_limit,
                ) by {
                    assert(given[i] == insts@[i]@.key());
                    if i < n {
                        assert(given[i] != given[n as int]);
                    }
                }
            }
            n = n + 1;
        }
        proof {
            assert forall|k: InstrumentKey| r@.contains_key(k) <==> given.contains(k) by {
                if given.contains(k) {
                    let m = choose|m: int| 0 <= m < given.len() && given[m] == k;
                }
            }
        }
        r
    }

    /// Routes `response` to the book of `instrument`.  Without such a book
    /// nothing changes and the outcome is `UnknownInstrument`; otherwise that
    /// book, and no other, takes the message.
    pub fn update(&mut self, instrument: &Instrument, response: MDResponse) -> (r: Result<
        &OrderBook,
        DepthUpdateError,
    >)
        requires
            old(self).wf(),
            !(response is Ping),
        ensures
            final(self).wf(),
            !old(self)@.contains_key(instrument@.key()) ==> final(self)@ == old(self)@ && r == Err::<
                &OrderBook,
                DepthUpdateError,
            >(DepthUpdateError::UnknownInstrument),
            old(self)@.contains_key(instrument@.key()) ==> {
                let step = old(self)@[instrument@.key()].apply(response@);
                &&& final(self)@ == old(self)@.insert(instrument@.key(), step.0)
                &&& match r {
                    Ok(book) => step.1 is None && book@ == step.0,
                    Err(e) => step.1 == Some(e),
                }
            },
    {
        let ghost keys = keys_of(self.insts@);
        let ghost key = instrument@.key();
        match self.find(instrument) {
            None => Err(DepthUpdateError::UnknownInstrument),
            Some(p) => {
                let ghost before = self.books@;
                let ghost step = before[p as int]@.apply(response@);
                let outcome = match self.books[p].apply(response) {
                    Ok(_) => None,
                    Err(e) => Some(e),
                };
                proof {
                    assert(keys_of(self.insts@) == keys);
                    assert(self.books@ =~= before.update(p as int, self.books@[p as int]));
                    assert(self.books@[p as int]@ == step.0);
                    assert(self@ =~= old(self)@.insert(key, step.0)) by {
                        assert forall|k: InstrumentKey| keys.contains(k) && k != key implies place_of(
                            keys,
                            k,
                        ) != p by {
                            let q = place_of(keys, k);
                            assert(keys[q] == k);
                        }
                    }
                }
                match outcome {
                    None => Ok(&self.books[p]),
                    Some(e) => Err(e),
                }
            },
        }
    }

    /// The book of `instrument`, if the registry holds one.
    pub fn book(&self, instrument: &Instrument) -> (r: Option<&OrderBook>)
        requires
            self.wf(),
        ensures
            r is Some == self@.contains_key(instrument@.key()),
            r matches Some(book) ==> book@ == self@[instrument@.key()] && book.wf(),
    {
        match self.find(instrument) {
            None => None,
            Some(p) => Some(&self.books[p]),
        }
    }
}

} // verus!
