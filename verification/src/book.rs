//! The book: the latest depth of every venue, and the merged view of it.

use crate::decimal::Dec;
use crate::level::Exchange;
use crate::level::Level;
use crate::level::lemma_leq_orders_prices;
use crate::rank::ascending;
use crate::rank::descending;
use crate::rank::end_of_ranking;
use crate::rank::lemma_ranked_ignores_order;
use crate::rank::lemma_ranked_is_ascending_permutation;
use crate::rank::lemma_reverse_is_descending;
use crate::rank::rank;
use crate::rank::ranked;
use vstd::pervasive::unreached;
use vstd::prelude::*;

verus! {

/// How many levels a side of the merged view holds at most.
pub const DEPTH: usize = 10;

/// The first [`DEPTH`] of the levels; all of them where there are no more.
pub open spec fn top(levels: Seq<Level>) -> Seq<Level> {
    if levels.len() > DEPTH {
        levels.take(DEPTH as int)
    } else {
        levels
    }
}

/// The spread between two sides, each with its best level first: the best
/// ask's price minus the best bid's price where both sides hold a level, else
/// zero. `None` where the difference of the prices does not fit a decimal.
pub open spec fn spread_of(bids: Seq<Level>, asks: Seq<Level>) -> Option<Dec> {
    if bids.len() > 0 && asks.len() > 0 {
        asks[0].price.difference(bids[0].price)
    } else {
        Some(Dec::zero())
    }
}

/// One venue's full depth at one moment.
#[derive(Debug)]
pub struct InTick {
    pub exchange: Exchange,
    pub bids: Vec<Level>,
    pub asks: Vec<Level>,
}

/// What an [`InTick`] holds.
pub struct InTickView {
    pub exchange: Exchange,
    pub bids: Seq<Level>,
    pub asks: Seq<Level>,
}

impl View for InTick {
    type V = InTickView;

    open spec fn view(&self) -> InTickView {
        InTickView { exchange: self.exchange, bids: self.bids@, asks: self.asks@ }
    }
}

/// What can be turned into a tick: a venue's own message. `None` where the
/// message is no depth update.
pub trait ToTick {
    fn maybe_to_tick(&self) -> Option<InTick>;
}

/// The merged view of all venues: the best bids, highest price first, the best
/// asks, lowest price first, and the spread between the two.
#[derive(Debug, PartialEq, Clone)]
pub struct OutTick {
    pub spread: Dec,
    pub bids: Vec<Level>,
    pub asks: Vec<Level>,
}

/// What an [`OutTick`] holds.
pub struct OutTickView {
    pub spread: Dec,
    pub bids: Seq<Level>,
    pub asks: Seq<Level>,
}

impl View for OutTick {
    type V = OutTickView;

    open spec fn view(&self) -> OutTickView {
        OutTickView { spread: self.spread, bids: self.bids@, asks: self.asks@ }
    }
}

impl OutTickView {
    /// Prices do not rise along the bids and do not fall along the asks.
    pub open spec fn prices_ordered(self) -> bool {
        &&& forall|i: int, j: int|
            #![trigger self.bids[i], self.bids[j]]
            0 <= i < j < self.bids.len() ==> self.bids[i].price.value()
                >= self.bids[j].price.value()
        &&& forall|i: int, j: int|
            #![trigger self.asks[i], self.asks[j]]
            0 <= i < j < self.asks.len() ==> self.asks[i].price.value()
                <= self.asks[j].price.value()
    }

    /// Neither side holds more than [`DEPTH`] levels.
    pub open spec fn bounded(self) -> bool {
        self.bids.len() <= DEPTH && self.asks.len() <= DEPTH
    }

    /// The spread is the best ask's price minus the best bid's price where
    /// both sides hold a level, else zero.
    pub open spec fn spread_is_of_best(self) -> bool {
        Some(self.spread) == spread_of(self.bids, self.asks)
    }

    /// Every level of the view is a level of the book, unchanged: a bid one
    /// of its bids, an ask one of its asks.
    pub open spec fn drawn_from(self, book: ExchangesView) -> bool {
        &&& forall|i: int|
            0 <= i < self.bids.len() ==> book.all_bids().contains(#[trigger] self.bids[i])
        &&& forall|i: int|
            0 <= i < self.asks.len() ==> book.all_asks().contains(#[trigger] self.asks[i])
    }
}

impl OutTick {
    /// The view of nothing: no bids, no asks, and a spread of zero.
    pub fn new() -> (tick: OutTick)
        ensures
            tick@ == (OutTickView { spread: Dec::zero(), bids: Seq::empty(), asks: Seq::empty() }),
    {
        OutTick { spread: Dec::zero(), bids: Vec::new(), asks: Vec::new() }
    }

    /// The view that shows these two sides, each with its best level first.
    ///
    /// `difference` is what subtracting the best bid's price from the best
    /// ask's price gave. It is the spread where both sides hold a level, and is
    /// not looked at where one is empty: the spread is zero then.
    pub fn assemble(bids: Vec<Level>, asks: Vec<Level>, difference: Option<Dec>) -> (tick: OutTick)
        requires
            bids@.len() > 0 && asks@.len() > 0 ==> difference is Some,
        ensures
            tick.bids@ == bids@,
            tick.asks@ == asks@,
            tick.spread == if bids@.len() > 0 && asks@.len() > 0 {
                difference->Some_0
            } else {
                Dec::zero()
            },
    {
        let spread: Dec = if bids.len() > 0 && asks.len() > 0 {
            match difference {
                Some(d) => d,
                None => unreached(),
            }
        } else {
            Dec::zero()
        };
        OutTick { spread, bids, asks }
    }
}

/// The latest depth of one venue.
#[derive(Debug, PartialEq)]
pub struct OrderDepths {
    pub bids: Vec<Level>,
    pub asks: Vec<Level>,
}

/// What an [`OrderDepths`] holds.
pub struct OrderDepthsView {
    pub bids: Seq<Level>,
    pub asks: Seq<Level>,
}

impl View for OrderDepths {
    type V = OrderDepthsView;

    open spec fn view(&self) -> OrderDepthsView {
        OrderDepthsView { bids: self.bids@, asks: self.asks@ }
    }
}

impl OrderDepths {
    /// No depth.
    pub fn new() -> (depths: OrderDepths)
        ensures
            depths@ == (OrderDepthsView { bids: Seq::empty(), asks: Seq::empty() }),
    {
        OrderDepths { bids: Vec::new(), asks: Vec::new() }
    }
}

/// The book: the latest depth of every venue.
#[derive(Debug, PartialEq)]
pub struct Exchanges {
    pub bitstamp: OrderDepths,
    pub binance: OrderDepths,
}

/// What an [`Exchanges`] holds, and what follows from it.
pub struct ExchangesView {
    pub bitstamp: OrderDepthsView,
    pub binance: OrderDepthsView,
}

impl View for Exchanges {
    type V = ExchangesView;

    open spec fn view(&self) -> ExchangesView {
        ExchangesView { bitstamp: self.bitstamp@, binance: self.binance@ }
    }
}

impl ExchangesView {
    /// The book before any venue has sent depth.
    pub open spec fn empty() -> ExchangesView {
        ExchangesView {
            bitstamp: OrderDepthsView { bids: Seq::empty(), asks: Seq::empty() },
            binance: OrderDepthsView { bids: Seq::empty(), asks: Seq::empty() },
        }
    }

    /// The depth held for a venue.
    pub open spec fn depths(self, exchange: Exchange) -> OrderDepthsView {
        match exchange {
            Exchange::Bitstamp => self.bitstamp,
            Exchange::Binance => self.binance,
        }
    }

    /// The book after a tick: the tick's bids and asks stand in place of what
    /// was held for its venue, and the other venue is as before.
    pub open spec fn update(self, t: InTickView) -> ExchangesView {
        let depths = OrderDepthsView { bids: t.bids, asks: t.asks };
        match t.exchange {
            Exchange::Bitstamp => ExchangesView { bitstamp: depths, binance: self.binance },
            Exchange::Binance => ExchangesView { bitstamp: self.bitstamp, binance: depths },
        }
    }

    /// The bids of all venues.
    pub open spec fn all_bids(self) -> Seq<Level> {
        self.bitstamp.bids + self.binance.bids
    }

    /// The asks of all venues.
    pub open spec fn all_asks(self) -> Seq<Level> {
        self.bitstamp.asks + self.binance.asks
    }

    /// The bids of the merged view: the last [`DEPTH`] of the ranking of all
    /// bids, the last of them first.
    pub open spec fn bids(self) -> Seq<Level> {
        top(ranked(self.all_bids()).reverse())
    }

    /// The asks of the merged view: the first [`DEPTH`] of the ranking of all
    /// asks.
    pub open spec fn asks(self) -> Seq<Level> {
        top(ranked(self.all_asks()))
    }

    /// Whether the spread of the merged view fits a decimal.
    pub open spec fn has_spread(self) -> bool {
        spread_of(self.bids(), self.asks()) is Some
    }

    /// The merged view.
    pub open spec fn tick(self) -> OutTickView {
        OutTickView {
            spread: spread_of(self.bids(), self.asks())->Some_0,
            bids: self.bids(),
            asks: self.asks(),
        }
    }
}

/// Whether every one of the levels names this venue.
pub open spec fn all_of_venue(levels: Seq<Level>, exchange: Exchange) -> bool {
    forall|i: int| 0 <= i < levels.len() ==> (#[trigger] levels[i]).exchange == exchange
}

impl InTickView {
    /// Whether every level of the tick names the tick's venue.
    pub open spec fn well_tagged(self) -> bool {
        all_of_venue(self.bids, self.exchange) && all_of_venue(self.asks, self.exchange)
    }
}

impl ExchangesView {
    /// Whether every level held for a venue names that venue.
    pub open spec fn well_tagged(self) -> bool {
        &&& all_of_venue(self.bitstamp.bids, Exchange::Bitstamp)
        &&& all_of_venue(self.bitstamp.asks, Exchange::Bitstamp)
        &&& all_of_venue(self.binance.bids, Exchange::Binance)
        &&& all_of_venue(self.binance.asks, Exchange::Binance)
    }

    /// After a tick the book holds for the tick's venue exactly the tick's
    /// bids and asks, whatever it held before, and for the other venue what it
    /// held before.
    pub proof fn lemma_update_replaces(self, other: ExchangesView, t: InTickView)
        ensures
            self.update(t).depths(t.exchange) == (OrderDepthsView { bids: t.bids, asks: t.asks }),
            self.update(t).depths(t.exchange) == other.update(t).depths(t.exchange),
            forall|exchange: Exchange|
                exchange != t.exchange ==> #[trigger] self.update(t).depths(exchange)
                    == self.depths(exchange),
    {
    }

    /// Taking the same tick twice leaves the book, and so its merged view, as
    /// taking it once.
    pub proof fn lemma_update_is_idempotent(self, t: InTickView)
        ensures
            self.update(t).update(t) == self.update(t),
            self.update(t).update(t).has_spread() == self.update(t).has_spread(),
            self.update(t).update(t).tick() == self.update(t).tick(),
    {
    }

    /// Only the latest tick of a venue counts.
    pub proof fn lemma_update_forgets_earlier(self, earlier: InTickView, later: InTickView)
        requires
            earlier.exchange == later.exchange,
        ensures
            self.update(earlier).update(later) == self.update(later),
    {
    }

    /// Ticks of two venues can be taken in either order.
    pub proof fn lemma_updates_of_two_venues_commute(self, first: InTickView, second: InTickView)
        requires
            first.exchange != second.exchange,
        ensures
            self.update(first).update(second) == self.update(second).update(first),
    {
    }

    /// Along the bids of the merged view every level ranks at or after the
    /// next, along the asks at or before it; so prices do not rise along the
    /// bids and do not fall along the asks.
    pub proof fn lemma_tick_is_ordered(self)
        ensures
            descending(self.bids()),
            ascending(self.asks()),
            self.tick().prices_ordered(),
    {
        lemma_ranked_is_ascending_permutation(self.all_bids());
        lemma_ranked_is_ascending_permutation(self.all_asks());
        lemma_reverse_is_descending(ranked(self.all_bids()));
        let bids = self.bids();
        let asks = self.asks();
        let all_bids = ranked(self.all_bids()).reverse();
        let all_asks = ranked(self.all_asks());
        assert forall|i: int, j: int| 0 <= i < j < bids.len() implies #[trigger] bids[j].leq(
            bids[i],
        ) by {
            assert(all_bids[j].leq(all_bids[i]));
        }
        assert forall|i: int, j: int| 0 <= i < j < asks.len() implies #[trigger] asks[i].leq(
            asks[j],
        ) by {
            assert(all_asks[i].leq(all_asks[j]));
        }
        assert forall|i: int, j: int|
            #![trigger bids[i], bids[j]]
            0 <= i < j < bids.len() implies bids[i].price.value() >= bids[j].price.value() by {
            assert(bids[j].leq(bids[i]));
            lemma_leq_orders_prices(bids[j], bids[i]);
        }
        assert forall|i: int, j: int|
            #![trigger asks[i], asks[j]]
            0 <= i < j < asks.len() implies asks[i].price.value() <= asks[j].price.value() by {
            assert(asks[i].leq(asks[j]));
            lemma_leq_orders_prices(asks[i], asks[j]);
        }
    }

    /// Neither side of the merged view holds more than [`DEPTH`] levels,
    /// however many the book holds; each holds all where the book holds no
    /// more than [`DEPTH`].
    pub proof fn lemma_tick_is_bounded(self)
        ensures
            self.tick().bounded(),
            self.bids().len() == if self.all_bids().len() > DEPTH {
                DEPTH as nat
            } else {
                self.all_bids().len()
            },
            self.asks().len() == if self.all_asks().len() > DEPTH {
                DEPTH as nat
            } else {
                self.all_asks().len()
            },
    {
        lemma_ranked_is_ascending_permutation(self.all_bids());
        lemma_ranked_is_ascending_permutation(self.all_asks());
    }

    /// A side of the merged view is empty exactly if no venue holds a level
    /// of that side; and where a side is empty, the view has a spread.
    pub proof fn lemma_empty_side_has_spread(self)
        ensures
            self.bids().len() == 0 <==> self.all_bids().len() == 0,
            self.asks().len() == 0 <==> self.all_asks().len() == 0,
            self.all_bids().len() == 0 || self.all_asks().len() == 0 ==> self.has_spread(),
    {
        lemma_ranked_is_ascending_permutation(self.all_bids());
        lemma_ranked_is_ascending_permutation(self.all_asks());
    }

    /// The spread of the merged view is its best ask's price minus its best
    /// bid's price where it has both, and zero where a side is empty.
    pub proof fn lemma_tick_spread(self)
        requires
            self.has_spread(),
        ensures
            self.tick().spread_is_of_best(),
            self.bids().len() > 0 && self.asks().len() > 0 ==> Some(self.tick().spread)
                == self.asks()[0].price.difference(self.bids()[0].price),
            self.bids().len() == 0 || self.asks().len() == 0 ==> self.tick().spread == Dec::zero(),
    {
    }

    /// Every level of the merged view is a level that the book holds, with
    /// its price, its amount and its venue as they are there.
    pub proof fn lemma_tick_is_drawn_from_book(self)
        ensures
            self.tick().drawn_from(self),
    {
        lemma_ranked_is_ascending_permutation(self.all_bids());
        lemma_ranked_is_ascending_permutation(self.all_asks());
        let ranked_bids = ranked(self.all_bids());
        let ranked_asks = ranked(self.all_asks());
        let bids = self.bids();
        let asks = self.asks();
        assert forall|i: int| 0 <= i < bids.len() implies self.all_bids().contains(
            #[trigger] bids[i],
        ) by {
            assert(bids[i] == ranked_bids[ranked_bids.len() - 1 - i]);
            assert(ranked_bids.contains(bids[i]));
        }
        assert forall|i: int| 0 <= i < asks.len() implies self.all_asks().contains(
            #[trigger] asks[i],
        ) by {
            assert(asks[i] == ranked_asks[i]);
            assert(ranked_asks.contains(asks[i]));
        }
    }

    /// Where every level in the book names the venue that it is held for,
    /// every level of the merged view is among the levels held for the venue
    /// that it names.
    pub proof fn lemma_tick_keeps_venues(self)
        requires
            self.well_tagged(),
        ensures
            forall|i: int|
                0 <= i < self.bids().len() ==> self.depths(
                    (#[trigger] self.bids()[i]).exchange,
                ).bids.contains(self.bids()[i]),
            forall|i: int|
                0 <= i < self.asks().len() ==> self.depths(
                    (#[trigger] self.asks()[i]).exchange,
                ).asks.contains(self.asks()[i]),
    {
        self.lemma_tick_is_drawn_from_book();
        assert forall|i: int| 0 <= i < self.bids().len() implies self.depths(
            (#[trigger] self.bids()[i]).exchange,
        ).bids.contains(self.bids()[i]) by {
            assert(self.all_bids().contains(self.tick().bids[i]));
        }
        assert forall|i: int| 0 <= i < self.asks().len() implies self.depths(
            (#[trigger] self.asks()[i]).exchange,
        ).asks.contains(self.asks()[i]) by {
            assert(self.all_asks().contains(self.tick().asks[i]));
        }
    }

    /// The empty book is well tagged, and a well-tagged tick keeps a book so.
    pub proof fn lemma_update_keeps_tags(self, t: InTickView)
        requires
            self.well_tagged(),
            t.well_tagged(),
        ensures
            ExchangesView::empty().well_tagged(),
            self.update(t).well_tagged(),
    {
    }

    /// Where the book holds no more than [`DEPTH`] bids, the merged view
    /// shows every one of them, as often as the book holds it; likewise for
    /// the asks. Levels of one price are not folded into one.
    pub proof fn lemma_tick_shows_all_of_small_book(self)
        ensures
            self.all_bids().len() <= DEPTH ==> self.bids().to_multiset()
                == self.all_bids().to_multiset(),
            self.all_asks().len() <= DEPTH ==> self.asks().to_multiset()
                == self.all_asks().to_multiset(),
    {
        lemma_ranked_is_ascending_permutation(self.all_bids());
        lemma_ranked_is_ascending_permutation(self.all_asks());
        ranked(self.all_bids()).lemma_reverse_to_multiset();
    }

    /// The merged view does not depend on the order in which the levels
    /// stand in the book, nor on which venue's list holds them.
    pub proof fn lemma_tick_ignores_arrangement(self, other: ExchangesView)
        requires
            self.all_bids().to_multiset() == other.all_bids().to_multiset(),
            self.all_asks().to_multiset() == other.all_asks().to_multiset(),
        ensures
            self.has_spread() == other.has_spread(),
            self.tick() == other.tick(),
    {
        lemma_ranked_ignores_order(self.all_bids(), other.all_bids());
        lemma_ranked_ignores_order(self.all_asks(), other.all_asks());
    }
}

/// The first [`DEPTH`] of the levels.
fn first_top(levels: &Vec<Level>) -> (out: Vec<Level>)
    ensures
        out@ == top(levels@),
{
    let count: usize = if levels.len() > DEPTH {
        DEPTH
    } else {
        levels.len()
    };
    let mut out: Vec<Level> = Vec::new();
    let mut i: usize = 0;
    while i < count
        invariant
            i <= count <= levels.len(),
            count == top(levels@).len(),
            out@ == top(levels@).take(i as int),
        decreases count - i,
    {
        out.push(levels[i]);
        i += 1;
    }
    out
}

/// The last [`DEPTH`] of the levels, the last of them first.
fn last_top(levels: &Vec<Level>) -> (out: Vec<Level>)
    ensures
        out@ == top(levels@.reverse()),
{
    let count: usize = if levels.len() > DEPTH {
        DEPTH
    } else {
        levels.len()
    };
    let mut out: Vec<Level> = Vec::new();
    let mut i: usize = 0;
    while i < count
        invariant
            i <= count <= levels.len(),
            count == top(levels@.reverse()).len(),
            out@ == top(levels@.reverse()).take(i as int),
        decreases count - i,
    {
        out.push(levels[levels.len() - 1 - i]);
        i += 1;
    }
    out
}

/// What subtracting the best bid's price from the best ask's price gives,
/// where each side holds a level; `None` where one is empty, and where the
/// difference does not fit a decimal.
fn best_difference(bids: &Vec<Level>, asks: &Vec<Level>) -> (difference: Option<Dec>)
    ensures
        bids@.len() > 0 && asks@.len() > 0 ==> difference == spread_of(bids@, asks@),
{
    if bids.len() > 0 && asks.len() > 0 {
        asks[0].price.checked_sub(&bids[0].price)
    } else {
        None
    }
}

impl Exchanges {
    /// The book before any venue has sent depth.
    pub fn new() -> (exchanges: Exchanges)
        ensures
            exchanges@ == ExchangesView::empty(),
    {
        Exchanges { bitstamp: OrderDepths::new(), binance: OrderDepths::new() }
    }

    /// Takes a venue's tick: its bids and asks replace what the book held for
    /// that venue.
    pub fn update(&mut self, t: InTick)
        ensures
            final(self)@ == old(self)@.update(t@),
    {
        match t.exchange {
            Exchange::Bitstamp => {
                self.bitstamp.bids = t.bids;
                self.bitstamp.asks = t.asks;
            },
            Exchange::Binance => {
                self.binance.bids = t.bids;
                self.binance.asks = t.asks;
            },
        }
    }

    /// All levels of the two lists in one, ranked: every level as often as the
    /// two lists hold it, in ascending order.
    pub fn merge(first: Vec<Level>, second: Vec<Level>) -> (levels: Vec<Level>)
        ensures
            levels@ == ranked(first@ + second@),
            ascending(levels@),
            levels@.to_multiset() == (first@ + second@).to_multiset(),
    {
        let mut levels: Vec<Level> = first;
        let mut rest: Vec<Level> = second;
        levels.append(&mut rest);
        proof {
            lemma_ranked_is_ascending_permutation(levels@);
        }
        rank(&levels)
    }

    /// The two sides of the merged view.
    fn sides(&self) -> (sides: (Vec<Level>, Vec<Level>))
        ensures
            sides.0@ == self@.bids(),
            sides.1@ == self@.asks(),
    {
        let bids: Vec<Level> = last_top(
            &Self::merge(self.bitstamp.bids.clone(), self.binance.bids.clone()),
        );
        let asks: Vec<Level> = first_top(
            &Self::merge(self.bitstamp.asks.clone(), self.binance.asks.clone()),
        );
        (bids, asks)
    }

    /// The best bid of the merged view: the bid that ranks last among the
    /// bids of all venues. `None` where no venue holds a bid.
    pub fn best_bid(&self) -> (best: Option<Level>)
        ensures
            best == if self@.bids().len() > 0 {
                Some(self@.bids()[0])
            } else {
                None
            },
    {
        proof {
            lemma_ranked_is_ascending_permutation(self@.all_bids());
        }
        end_of_ranking(&self.bitstamp.bids, &self.binance.bids, true)
    }

    /// The best ask of the merged view: the ask that ranks first among the
    /// asks of all venues. `None` where no venue holds an ask.
    pub fn best_ask(&self) -> (best: Option<Level>)
        ensures
            best == if self@.asks().len() > 0 {
                Some(self@.asks()[0])
            } else {
                None
            },
    {
        proof {
            lemma_ranked_is_ascending_permutation(self@.all_asks());
        }
        end_of_ranking(&self.bitstamp.asks, &self.binance.asks, false)
    }

    /// Whether the spread of the merged view fits a decimal.
    pub fn has_spread(&self) -> (r: bool)
        ensures
            r == self@.has_spread(),
            self@.all_bids().len() == 0 || self@.all_asks().len() == 0 ==> r,
    {
        proof {
            self@.lemma_empty_side_has_spread();
        }
        match (self.best_bid(), self.best_ask()) {
            (Some(bid), Some(ask)) => ask.price.checked_sub(&bid.price).is_some(),
            _ => true,
        }
    }

    /// The merged view of the book: of the bids of all venues the last
    /// [`DEPTH`] of the ranking, best first, of the asks the first [`DEPTH`],
    /// and the spread between the best of each.
    ///
    /// The spread has to fit a decimal; [`Exchanges::try_to_tick`] asks
    /// nothing.
    pub fn to_tick(&self) -> (tick: OutTick)
        requires
            self@.has_spread(),
        ensures
            tick@ == self@.tick(),
            tick@.prices_ordered(),
            tick@.bounded(),
            tick@.spread_is_of_best(),
            tick@.drawn_from(self@),
    {
        let (bids, asks) = self.sides();
        let difference: Option<Dec> = best_difference(&bids, &asks);
        proof {
            self@.lemma_tick_is_ordered();
            self@.lemma_tick_is_drawn_from_book();
        }
        OutTick::assemble(bids, asks, difference)
    }

    /// The merged view of the book; `None` where its spread does not fit a
    /// decimal.
    pub fn try_to_tick(&self) -> (r: Option<OutTick>)
        ensures
            r is Some <==> self@.has_spread(),
            self@.all_bids().len() == 0 || self@.all_asks().len() == 0 ==> r is Some,
            r matches Some(tick) ==> {
                &&& tick@ == self@.tick()
                &&& tick@.prices_ordered()
                &&& tick@.bounded()
                &&& tick@.spread_is_of_best()
                &&& tick@.drawn_from(self@)
            },
    {
        if self.has_spread() {
            Some(self.to_tick())
        } else {
            None
        }
    }
}

} // verus!
