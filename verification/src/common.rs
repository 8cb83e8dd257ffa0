//! Scalars of the depth book: sequence ids, fixed-point prices and quantities,
//! tick sizes and price levels.
//!
//! Prices and quantities are signed 64-bit counts of a fixed-point unit.  Two
//! of them denote the same level when they lie within a quarter tick of each
//! other; that relation, [`tick_near`], is the only equality the book applies
//! to them.

use crate::decimal::{fixed_point, parse_fixed};
use vstd::prelude::*;

verus! {

/// Tick-relative equality on fixed-point values: `a` and `b` are the same
/// level iff `|a - b| * 4 < tick`.
pub open spec fn tick_near(a: int, b: int, tick: int) -> bool {
    (if a >= b {
        a - b
    } else {
        b - a
    }) * 4 < tick
}

/// Executable form of [`tick_near`]; the difference is formed in 128 bits, so
/// no pair of 64-bit values overflows.
pub fn near(a: i64, b: i64, tick: i64) -> (r: bool)
    ensures
        r == tick_near(a as int, b as int, tick as int),
{
    let wide_a: i128 = a as i128;
    let wide_b: i128 = b as i128;
    let gap: i128 = if wide_a >= wide_b {
        wide_a - wide_b
    } else {
        wide_b - wide_a
    };
    gap * 4 < tick as i128
}

/// Decimal text that is ill formed or too large for 64 bits.
#[derive(Clone, Copy, Debug, PartialEq, Eq, Structural)]
pub struct ParseDecimalError;

/// A price in fixed-point units.
#[derive(Clone, Copy, Debug, PartialEq, Eq, Structural)]
pub struct Price(pub i64);

impl Price {
    pub fn new(value: i64) -> (r: Price)
        ensures
            r == Price(value),
    {
        Price(value)
    }

    /// Magnitude of the price.  The one value without a positive counterpart
    /// saturates at `i64::MAX`.
    pub fn abs(self) -> (r: Price)
        ensures
            self.0 >= 0 ==> r.0 == self.0,
            i64::MIN < self.0 < 0 ==> r.0 == -self.0,
            self.0 == i64::MIN ==> r.0 == i64::MAX,
    {
        if self.0 >= 0 {
            self
        } else if self.0 == i64::MIN {
            Price(i64::MAX)
        } else {
            Price(-self.0)
        }
    }

    /// Whether this value, read as a price difference, is tick-equivalent to
    /// zero.
    pub fn same_tick(self, tick: &Price) -> (r: bool)
        ensures
            r == tick_near(self.0 as int, 0, tick.0 as int),
    {
        near(self.0, 0, tick.0)
    }

    /// The price that decimal text denotes.
    pub fn from_str(s: &str) -> (r: Result<Price, ParseDecimalError>)
        ensures
            match fixed_point(s@) {
                Some(v) => r == Ok::<Price, ParseDecimalError>(Price(v)),
                None => r is Err,
            },
    {
        match parse_fixed(s) {
            Some(v) => Ok(Price(v)),
            None => Err(ParseDecimalError),
        }
    }

    /// Whether two prices name the same level under `tick`.
    pub fn near(&self, other: &Price, tick: &Price) -> (r: bool)
        ensures
            r == tick_near(self.0 as int, other.0 as int, tick.0 as int),
    {
        near(self.0, other.0, tick.0)
    }
}

impl Default for Price {
    fn default() -> (r: Price)
        ensures
            r == Price(0),
    {
        Price(0)
    }
}

/// A quantity in fixed-point units.
#[derive(Clone, Copy, Debug, PartialEq, Eq, Structural)]
pub struct Qty(pub i64);

impl Qty {
    pub fn new(value: i64) -> (r: Qty)
        ensures
            r == Qty(value),
    {
        Qty(value)
    }

    /// Magnitude of the quantity.  The one value without a positive
    /// counterpart saturates at `i64::MAX`.
    pub fn abs(self) -> (r: Qty)
        ensures
            self.0 >= 0 ==> r.0 == self.0,
            i64::MIN < self.0 < 0 ==> r.0 == -self.0,
            self.0 == i64::MIN ==> r.0 == i64::MAX,
    {
        if self.0 >= 0 {
            self
        } else if self.0 == i64::MIN {
            Qty(i64::MAX)
        } else {
            Qty(-self.0)
        }
    }

    /// Whether this quantity is tick-equivalent to zero.
    pub fn same_tick(self, tick: Qty) -> (r: bool)
        ensures
            r == tick_near(self.0 as int, 0, tick.0 as int),
    {
        near(self.0, 0, tick.0)
    }

    /// The quantity that decimal text denotes.
    pub fn from_str(s: &str) -> (r: Result<Qty, ParseDecimalError>)
        ensures
            match fixed_point(s@) {
                Some(v) => r == Ok::<Qty, ParseDecimalError>(Qty(v)),
                None => r is Err,
            },
    {
        match parse_fixed(s) {
            Some(v) => Ok(Qty(v)),
            None => Err(ParseDecimalError),
        }
    }

    /// Whether two quantities are equal under `tick`.
    pub fn near(&self, other: &Qty, tick: &Qty) -> (r: bool)
        ensures
            r == tick_near(self.0 as int, other.0 as int, tick.0 as int),
    {
        near(self.0, other.0, tick.0)
    }
}

impl Default for Qty {
    fn default() -> (r: Qty)
        ensures
            r == Qty(0),
    {
        Qty(0)
    }
}

/// Tick sizes of one instrument: the smallest price and quantity increments.
#[derive(Clone, Copy, Debug, PartialEq, Eq, Structural)]
pub struct Precision {
    pub price: Price,
    pub qty: Qty,
}

impl Precision {
    pub fn new(price: Price, qty: Qty) -> (r: Precision)
        ensures
            r == (Precision { price, qty }),
    {
        Precision { price, qty }
    }
}

/// A sequence id of the depth stream.
#[derive(Clone, Copy, Debug, PartialEq, Eq, PartialOrd, Ord, Hash, Structural)]
pub struct Id(pub u64);

impl core::ops::Add for Id {
    type Output = Id;

    fn add(self, rhs: Id) -> (r: Id) {
        Id(self.0 + rhs.0)
    }
}

impl vstd::std_specs::ops::AddSpecImpl for Id {
    open spec fn obeys_add_spec() -> bool {
        true
    }

    /// Ids are added within 64 bits.
    open spec fn add_req(self, rhs: Id) -> bool {
        self.0 + rhs.0 <= u64::MAX
    }

    open spec fn add_spec(self, rhs: Id) -> Id {
        Id((self.0 + rhs.0) as u64)
    }
}

impl Default for Id {
    fn default() -> (r: Id)
        ensures
            r == Id(0),
    {
        Id(0)
    }
}

/// One rung of a ladder: a price and the quantity resting at it.
#[derive(Clone, Copy, Debug, PartialEq, Eq, Structural)]
pub struct Level {
    pub price: Price,
    pub qty: Qty,
}

impl Level {
    pub fn new(price: Price, qty: Qty) -> (r: Level)
        ensures
            r == (Level { price, qty }),
    {
        Level { price, qty }
    }

    /// The level that a pair of decimal texts denotes, price first; none
    /// where either text is no fixed-point value.
    pub open spec fn of_texts(price: Seq<char>, qty: Seq<char>) -> Option<Level> {
        match (fixed_point(price), fixed_point(qty)) {
            (Some(p), Some(q)) => Some(Level { price: Price(p), qty: Qty(q) }),
            _ => None,
        }
    }

    pub fn from_str_pair(pair: &(String, String)) -> (r: Option<Level>)
        ensures
            r == Level::of_texts(pair.0@, pair.1@),
    {
        match parse_fixed(pair.0.as_str()) {
            Some(p) => match parse_fixed(pair.1.as_str()) {
                Some(q) => Some(Level::new(Price(p), Qty(q))),
                None => None,
            },
            None => None,
        }
    }

    /// Two levels agree when both price and quantity are tick-equivalent.
    pub open spec fn agrees(self, rhs: Level, precision: Precision) -> bool {
        tick_near(rhs.price.0 as int, self.price.0 as int, precision.price.0 as int) && tick_near(
            rhs.qty.0 as int,
            self.qty.0 as int,
            precision.qty.0 as int,
        )
    }

    /// A level whose quantity is tick-equivalent to zero stands for the
    /// deletion of its price.
    pub open spec fn vanishes(self, qty_tick: Qty) -> bool {
        tick_near(self.qty.0 as int, 0, qty_tick.0 as int)
    }

    pub fn eq(&self, rhs: Level, precision: &Precision) -> (r: bool)
        ensures
            r == self.agrees(rhs, *precision),
    {
        rhs.price.near(&self.price, &precision.price) && rhs.qty.near(&self.qty, &precision.qty)
    }
}

impl Default for Level {
    fn default() -> (r: Level)
        ensures
            r == (Level { price: Price(0), qty: Qty(0) }),
    {
        Level { price: Price(0), qty: Qty(0) }
    }
}

} // verus!
