//! Venues, price levels, and the order in which levels are ranked.

use crate::decimal::int_order;
use crate::decimal::Dec;
use crate::decimal::Order;
use vstd::prelude::*;
use vstd::relations::total_ordering;

verus! {

/// A trading venue that sends depth.
#[derive(Clone, Copy, Debug, PartialEq, Eq, Structural)]
pub enum Exchange {
    Bitstamp,
    Binance,
}

impl Exchange {
    /// The place of the venue among the venues: `Bitstamp` comes before
    /// `Binance`.
    pub open spec fn spec_rank(&self) -> u8 {
        match self {
            Exchange::Bitstamp => 0,
            Exchange::Binance => 1,
        }
    }

    /// The venue's name in lower case.
    pub open spec fn name(self) -> Seq<char> {
        match self {
            Exchange::Bitstamp => "bitstamp"@,
            Exchange::Binance => "binance"@,
        }
    }

    /// The place of the venue among the venues: `Bitstamp` comes before
    /// `Binance`.
    #[verifier::when_used_as_spec(spec_rank)]
    pub fn rank(&self) -> (r: u8)
        ensures
            r == self.rank(),
    {
        match self {
            Exchange::Bitstamp => 0,
            Exchange::Binance => 1,
        }
    }

    /// The venue's name in lower case.
    pub fn to_string(&self) -> (s: String)
        ensures
            s@ == self.name(),
    {
        match self {
            Exchange::Bitstamp => "bitstamp".to_owned(),
            Exchange::Binance => "binance".to_owned(),
        }
    }
}

/// One price point of one venue: a price, the amount offered at it, and the
/// venue.
#[derive(Clone, Copy, Debug, PartialEq, Eq, Structural)]
pub struct Level {
    pub price: Dec,
    pub amount: Dec,
    pub exchange: Exchange,
}

/// The first of the orders that is not `Equal`; `Equal` if both are.
pub open spec fn first_unequal(first: Order, second: Order) -> Order {
    if first == Order::Equal {
        second
    } else {
        first
    }
}

impl Level {
    /// The level of a price and an amount at a venue.
    pub fn new(price: Dec, amount: Dec, exchange: Exchange) -> (level: Level)
        ensures
            level == (Level { price, amount, exchange }),
    {
        Level { price, amount, exchange }
    }

    /// How this level stands to the other in the ranking: by price, then by
    /// amount, both by value, then by venue. Levels that still tie are told
    /// apart by the scale of the price, then by the scale of the amount, so
    /// that only a level itself is `Equal` to it.
    pub open spec fn order(self, other: Level) -> Order {
        first_unequal(
            self.price.order(other.price),
            first_unequal(
                self.amount.order(other.amount),
                first_unequal(
                    int_order(self.exchange.rank() as int, other.exchange.rank() as int),
                    first_unequal(
                        int_order(self.price.scale() as int, other.price.scale() as int),
                        int_order(self.amount.scale() as int, other.amount.scale() as int),
                    ),
                ),
            ),
        )
    }

    /// Whether this level ranks at or before the other.
    pub open spec fn leq(self, other: Level) -> bool {
        self.order(other) != Order::Greater
    }

    /// How this level stands to the other in the ranking.
    pub fn compare(&self, other: &Level) -> (r: Order)
        ensures
            r == self.order(*other),
    {
        let by_price: Order = self.price.compare(&other.price);
        if !is_equal(by_price) {
            return by_price;
        }
        let by_amount: Order = self.amount.compare(&other.amount);
        if !is_equal(by_amount) {
            return by_amount;
        }
        let by_venue: Order = order_u32(self.exchange.rank() as u32, other.exchange.rank() as u32);
        if !is_equal(by_venue) {
            return by_venue;
        }
        let by_price_scale: Order = order_u32(self.price.scale(), other.price.scale());
        if !is_equal(by_price_scale) {
            return by_price_scale;
        }
        order_u32(self.amount.scale(), other.amount.scale())
    }
}

fn is_equal(order: Order) -> (r: bool)
    ensures
        r == (order == Order::Equal),
{
    match order {
        Order::Equal => true,
        _ => false,
    }
}

fn order_u32(a: u32, b: u32) -> (r: Order)
    ensures
        r == int_order(a as int, b as int),
{
    if a < b {
        Order::Less
    } else if a == b {
        Order::Equal
    } else {
        Order::Greater
    }
}

/// The ranking of levels as a relation: [`Level::leq`].
pub open spec fn level_leq() -> spec_fn(Level, Level) -> bool {
    |a: Level, b: Level| a.leq(b)
}

/// Only a level itself is `Equal` to it in the ranking.
pub proof fn lemma_order_equal_is_same(a: Level, b: Level)
    ensures
        a.order(b) == Order::Equal <==> a == b,
{
    if a.order(b) == Order::Equal {
        Dec::lemma_value_and_scale_determine(a.price, b.price);
        Dec::lemma_value_and_scale_determine(a.amount, b.amount);
    }
}

/// A level that ranks at or before another has no higher price.
pub proof fn lemma_leq_orders_prices(a: Level, b: Level)
    requires
        a.leq(b),
    ensures
        a.price.value() <= b.price.value(),
{
}

/// The ranking is a total order: any two levels are comparable, and two
/// levels that rank at or before each other are the same level.
pub proof fn lemma_level_order_total()
    ensures
        total_ordering(level_leq()),
{
    let leq = level_leq();
    assert forall|x: Level, y: Level| #[trigger] leq(x, y) && #[trigger] leq(y, x) implies x
        == y by {
        lemma_order_equal_is_same(x, y);
    }
}

/// What can be turned into a level: a venue's own record of a price point.
pub trait ToLevel {
    /// The level that this record stands for.
    spec fn level(&self) -> Level;

    /// The level that this record stands for.
    fn to_level(&self) -> (level: Level)
        ensures
            level == self.level(),
    ;
}

impl ToLevel for Level {
    open spec fn level(&self) -> Level {
        *self
    }

    fn to_level(&self) -> (level: Level) {
        *self
    }
}

/// The levels of the first `depth` of the records, in their order.
pub open spec fn first_levels<T: ToLevel>(records: Seq<T>, depth: usize) -> Seq<Level> {
    Seq::new(
        if records.len() > depth {
            depth as nat
        } else {
            records.len()
        },
        |i: int| records[i].level(),
    )
}

/// What can be turned into levels: a venue's own record of one side of its
/// depth.
pub trait ToLevels {
    /// The levels that the first `depth` records stand for.
    spec fn levels(&self, depth: usize) -> Seq<Level>;

    /// The levels of the first `depth` records, in their order; of all of them
    /// where there are no more than `depth`.
    fn to_levels(&self, depth: usize) -> (levels: Vec<Level>)
        ensures
            levels@ == self.levels(depth),
    ;
}

impl<T> ToLevels for Vec<T> where T: ToLevel + Clone {
    open spec fn levels(&self, depth: usize) -> Seq<Level> {
        first_levels(self@, depth)
    }

    fn to_levels(&self, depth: usize) -> (levels: Vec<Level>) {
        let count: usize = if self.len() > depth {
            depth
        } else {
            self.len()
        };
        let mut levels: Vec<Level> = Vec::new();
        let mut i: usize = 0;
        while i < count
            invariant
                i <= count <= self.len(),
                count == first_levels(self@, depth).len(),
                levels@ == first_levels(self@, depth).take(i as int),
            decreases count - i,
        {
            levels.push(self[i].to_level());
            i += 1;
        }
        levels
    }
}

} // verus!
