//! Market data and position records.
use vstd::prelude::*;
use crate::double;
use crate::double::{Double, INFINITE};
use crate::text;

verus! {

/// The most price levels that one side of a book keeps.
pub const BOOK_DEPTH: usize = 50;

#[derive(Clone, Copy, Debug, PartialEq, Eq, Structural, Hash)]
pub enum Side {
    Long,
    Short,
}

impl Side {
    pub open spec fn name(self) -> Seq<char> {
        match self {
            Side::Long => "LONG"@,
            Side::Short => "SHORT"@,
        }
    }

    pub fn as_str(&self) -> (r: &'static str)
        ensures
            r@ == self.name(),
    {
        match self {
            Side::Long => "LONG",
            Side::Short => "SHORT",
        }
    }

    pub open spec fn spec_direction(self) -> Double {
        match self {
            Side::Long => Double::one(),
            Side::Short => Double::one().neg(),
        }
    }

    /// 1 for a long position, -1 for a short one.
    #[verifier::when_used_as_spec(spec_direction)]
    pub fn direction(self) -> (r: Double)
        ensures
            r == self.spec_direction(),
    {
        match self {
            Side::Long => Double::one(),
            Side::Short => Double::one().neg(),
        }
    }

    pub open spec fn spec_inverted(self) -> Side {
        match self {
            Side::Long => Side::Short,
            Side::Short => Side::Long,
        }
    }

    #[verifier::when_used_as_spec(spec_inverted)]
    pub fn inverted(self) -> (r: Side)
        ensures
            r == self.spec_inverted(),
    {
        match self {
            Side::Long => Side::Short,
            Side::Short => Side::Long,
        }
    }
}

/// A price and the size resting at it.
pub type Level = (Double, Double);

/// The order of prices in a book: numeric, both zeros one price, every NaN one price
/// above all others.
pub open spec fn price_key(price: Double) -> int {
    if price.nan() {
        INFINITE + 1
    } else {
        double::ordinal(price)
    }
}

fn price_before(a: Double, b: Double) -> (r: bool)
    ensures
        r == (price_key(a) < price_key(b)),
{
    if a.is_nan() {
        false
    } else if b.is_nan() {
        true
    } else {
        a.lt(b)
    }
}

/// Strictly ascending prices.
pub open spec fn ascending(levels: Seq<Level>) -> bool {
    forall|i: int, j: int|
        0 <= i < j < levels.len() ==> price_key(#[trigger] levels[i].0) < price_key(
            #[trigger] levels[j].0,
        )
}

/// `i` splits the levels into those priced below `key` and the rest.
pub open spec fn is_slot(levels: Seq<Level>, key: int, i: int) -> bool {
    &&& 0 <= i <= levels.len()
    &&& forall|j: int| 0 <= j < i ==> price_key(#[trigger] levels[j].0) < key
    &&& forall|j: int| i <= j < levels.len() ==> price_key(#[trigger] levels[j].0) >= key
}

/// How many levels are priced below `key`.
pub open spec fn slot(levels: Seq<Level>, key: int) -> int {
    choose|i: int| is_slot(levels, key, i)
}

/// The size resting at a price, if any.
pub open spec fn size_at(levels: Seq<Level>, price: Double) -> Option<Double> {
    let i = slot(levels, price_key(price));
    if i < levels.len() && price_key(levels[i].0) == price_key(price) {
        Some(levels[i].1)
    } else {
        None
    }
}

/// The levels after one update: size zero takes the price out, any other size replaces
/// what rests there.
pub open spec fn with_level(levels: Seq<Level>, update: Level) -> Seq<Level> {
    let i = slot(levels, price_key(update.0));
    let hit = i < levels.len() && price_key(levels[i].0) == price_key(update.0);
    if update.1.same(Double::zero()) {
        if hit {
            levels.remove(i)
        } else {
            levels
        }
    } else if hit {
        levels.update(i, (levels[i].0, update.1))
    } else {
        levels.insert(i, update)
    }
}

/// The levels after a run of updates, in order.
pub open spec fn with_levels(levels: Seq<Level>, updates: Seq<Level>) -> Seq<Level>
    decreases updates.len(),
{
    if updates.len() == 0 {
        levels
    } else {
        with_level(with_levels(levels, updates.drop_last()), updates.last())
    }
}

/// The highest-priced levels that a book keeps.
pub open spec fn highest(levels: Seq<Level>) -> Seq<Level> {
    if levels.len() > BOOK_DEPTH {
        levels.subrange(levels.len() - BOOK_DEPTH, levels.len() as int)
    } else {
        levels
    }
}

/// The lowest-priced levels that a book keeps.
pub open spec fn lowest(levels: Seq<Level>) -> Seq<Level> {
    if levels.len() > BOOK_DEPTH {
        levels.subrange(0, BOOK_DEPTH as int)
    } else {
        levels
    }
}

proof fn lemma_slot_is(levels: Seq<Level>, key: int, i: int)
    requires
        is_slot(levels, key, i),
    ensures
        slot(levels, key) == i,
{
    let s = slot(levels, key);
    assert(is_slot(levels, key, s));
    if s < i {
        assert(price_key(levels[s].0) < key);
    }
    if i < s {
        assert(price_key(levels[i].0) < key);
    }
}

proof fn lemma_with_level_ascending(levels: Seq<Level>, update: Level, i: int)
    requires
        ascending(levels),
        is_slot(levels, price_key(update.0), i),
    ensures
        ascending(with_level(levels, update)),
{
    lemma_slot_is(levels, price_key(update.0), i);
    let r = with_level(levels, update);
    let hit = i < levels.len() && price_key(levels[i].0) == price_key(update.0);
    assert forall|a: int, b: int| 0 <= a < b < r.len() implies price_key(#[trigger] r[a].0)
        < price_key(#[trigger] r[b].0) by {
        if update.1.same(Double::zero()) {
            if hit {
                let x = if a < i {
                    a
                } else {
                    a + 1
                };
                let y = if b < i {
                    b
                } else {
                    b + 1
                };
                assert(r[a] == levels[x] && r[b] == levels[y]);
            }
        } else if hit {
            assert(price_key(r[a].0) == price_key(levels[a].0));
            assert(price_key(r[b].0) == price_key(levels[b].0));
        } else {
            if i < levels.len() {
                assert(price_key(levels[i].0) > price_key(update.0));
            }
            if a < i {
                assert(r[a] == levels[a]);
            } else if a > i {
                assert(r[a] == levels[a - 1]);
            }
            if b < i {
                assert(r[b] == levels[b]);
            } else if b > i {
                assert(r[b] == levels[b - 1]);
                if a == i && b - 1 > i {
                    assert(price_key(levels[i].0) < price_key(levels[b - 1].0));
                }
            }
        }
    }
}

/// One side of a book: price levels, each price once, in ascending order.
#[derive(Debug)]
pub struct Ladder {
    levels: Vec<Level>,
}

impl Ladder {
    #[verifier::type_invariant]
    spec fn inv(self) -> bool {
        ascending(self.levels@)
    }

    /// The levels, lowest price first.
    pub closed spec fn view(&self) -> Seq<Level> {
        self.levels@
    }

    pub fn new() -> (r: Ladder)
        ensures
            r@ == Seq::<Level>::empty(),
    {
        Ladder { levels: Vec::new() }
    }

    pub fn len(&self) -> (n: usize)
        ensures
            n == self@.len(),
    {
        self.levels.len()
    }

    /// The level at a place counted from the lowest price.
    pub fn at(&self, i: usize) -> (r: Level)
        requires
            i < self@.len(),
        ensures
            r == self@[i as int],
    {
        self.levels[i]
    }

    fn find(&self, price: Double) -> (i: usize)
        ensures
            is_slot(self@, price_key(price), i as int),
            i == slot(self@, price_key(price)),
    {
        proof {
            use_type_invariant(self);
        }
        let mut i: usize = 0;
        while i < self.levels.len() && price_before(self.levels[i].0, price)
            invariant
                i <= self.levels@.len(),
                forall|j: int|
                    0 <= j < i ==> price_key(#[trigger] self.levels@[j].0) < price_key(price),
            decreases self.levels@.len() - i,
        {
            i = i + 1;
        }
        proof {
            assert forall|j: int| i <= j < self.levels@.len() implies price_key(
                #[trigger] self.levels@[j].0,
            ) >= price_key(price) by {
                if j > i {
                    assert(price_key(self.levels@[i as int].0) < price_key(self.levels@[j].0));
                }
            }
            lemma_slot_is(self@, price_key(price), i as int);
        }
        i
    }

    /// The size resting at a price, if any.
    pub fn get(&self, price: Double) -> (r: Option<Double>)
        ensures
            r == size_at(self@, price),
    {
        let i = self.find(price);
        if i < self.levels.len() && !price_before(price, self.levels[i].0) {
            Some(self.levels[i].1)
        } else {
            None
        }
    }

    /// Applies one update.
    pub fn set(&mut self, price: Double, size: Double)
        ensures
            final(self)@ == with_level(old(self)@, (price, size)),
    {
        let i = self.find(price);
        proof {
            use_type_invariant(&*self);
            lemma_with_level_ascending(self@, (price, size), i as int);
        }
        let mut levels: Vec<Level> = Vec::new();
        std::mem::swap(&mut levels, &mut self.levels);
        let hit = i < levels.len() && !price_before(price, levels[i].0);
        if size.same(Double::zero()) {
            if hit {
                levels.remove(i);
            }
        } else if hit {
            let kept = levels[i].0;
            levels.set(i, (kept, size));
        } else {
            levels.insert(i, (price, size));
        }
        self.levels = levels;
    }

    /// Applies a run of updates, in order.
    fn set_all(&mut self, updates: &Vec<Level>)
        ensures
            final(self)@ == with_levels(old(self)@, updates@),
    {
        let mut i: usize = 0;
        assert(updates@.take(0) =~= Seq::<Level>::empty());
        while i < updates.len()
            invariant
                i <= updates@.len(),
                self@ == with_levels(old(self)@, updates@.take(i as int)),
            decreases updates@.len() - i,
        {
            assert(updates@.take(i + 1).drop_last() =~= updates@.take(i as int));
            self.set(updates[i].0, updates[i].1);
            i = i + 1;
        }
        assert(updates@.take(i as int) =~= updates@);
    }

    fn keep_highest(&mut self)
        ensures
            final(self)@ == highest(old(self)@),
    {
        proof {
            use_type_invariant(&*self);
        }
        let n = self.levels.len();
        if n > BOOK_DEPTH {
            let mut levels: Vec<Level> = Vec::new();
            std::mem::swap(&mut levels, &mut self.levels);
            let kept = levels.split_off(n - BOOK_DEPTH);
            assert(kept@ =~= highest(old(self)@));
            self.levels = kept;
        }
    }

    fn keep_lowest(&mut self)
        ensures
            final(self)@ == lowest(old(self)@),
    {
        proof {
            use_type_invariant(&*self);
        }
        if self.levels.len() > BOOK_DEPTH {
            let mut levels: Vec<Level> = Vec::new();
            std::mem::swap(&mut levels, &mut self.levels);
            levels.truncate(BOOK_DEPTH);
            assert(levels@ =~= lowest(old(self)@));
            self.levels = levels;
        }
    }
}

/// A limit order book.
#[derive(Debug)]
pub struct OrderBook {
    pub bids: Ladder,
    pub asks: Ladder,
    pub updated_at: Double,
    pub sequence: i64,
}

/// A book by its contents, each side by ascending price.
#[verifier::ext_equal]
pub struct BookView {
    pub bids: Seq<Level>,
    pub asks: Seq<Level>,
    pub updated_at: Double,
    pub sequence: i64,
}

impl BookView {
    pub open spec fn empty() -> BookView {
        BookView {
            bids: Seq::empty(),
            asks: Seq::empty(),
            updated_at: Double::zero(),
            sequence: 0,
        }
    }

    /// Whether an update of this kind and sequence number is taken: a snapshot always
    /// is, anything else only when it is ahead of the book.
    pub open spec fn accepts(self, kind: Seq<char>, sequence: i64) -> bool {
        kind == "snapshot"@ || sequence > self.sequence
    }

    /// The book after an update that is taken. A snapshot starts from empty sides.
    pub open spec fn updated(
        self,
        kind: Seq<char>,
        bids: Seq<Level>,
        asks: Seq<Level>,
        sequence: i64,
        clock: Double,
    ) -> BookView {
        let base = if kind == "snapshot"@ {
            BookView::empty()
        } else {
            self
        };
        BookView {
            bids: highest(with_levels(base.bids, bids)),
            asks: lowest(with_levels(base.asks, asks)),
            updated_at: clock,
            sequence,
        }
    }
}

/// The best bid and the best ask; zero for an empty side.
pub open spec fn best_prices(book: BookView) -> (Double, Double) {
    (
        if book.bids.len() > 0 {
            book.bids.last().0
        } else {
            Double::zero()
        },
        if book.asks.len() > 0 {
            book.asks.first().0
        } else {
            Double::zero()
        },
    )
}

impl Default for OrderBook {
    /// A book without levels.
    fn default() -> (r: OrderBook)
        ensures
            r@ == BookView::empty(),
    {
        OrderBook::new()
    }
}

impl OrderBook {
    pub open spec fn view(&self) -> BookView {
        BookView {
            bids: self.bids@,
            asks: self.asks@,
            updated_at: self.updated_at,
            sequence: self.sequence,
        }
    }

    pub fn new() -> (r: OrderBook)
        ensures
            r@ == BookView::empty(),
    {
        OrderBook {
            bids: Ladder::new(),
            asks: Ladder::new(),
            updated_at: Double::zero(),
            sequence: 0,
        }
    }

    /// Applies a market-data update received at `clock`. A stale delta changes nothing
    /// and returns false.
    pub fn apply(
        &mut self,
        kind: &str,
        bids: &Vec<Level>,
        asks: &Vec<Level>,
        sequence: i64,
        clock: Double,
    ) -> (accepted: bool)
        ensures
            accepted == old(self)@.accepts(kind@, sequence),
            !accepted ==> *final(self) == *old(self),
            accepted ==> final(self)@ == old(self)@.updated(kind@, bids@, asks@, sequence, clock),
            accepted ==> final(self)@.bids.len() <= BOOK_DEPTH && final(self)@.asks.len()
                <= BOOK_DEPTH,
            ascending(final(self)@.bids),
            ascending(final(self)@.asks),
    {
        let snapshot = text::text_eq(kind, "snapshot");
        if !snapshot && sequence <= self.sequence {
            proof {
                use_type_invariant(&self.bids);
                use_type_invariant(&self.asks);
            }
            return false;
        }
        if snapshot {
            self.bids = Ladder::new();
            self.asks = Ladder::new();
        }
        self.bids.set_all(bids);
        self.asks.set_all(asks);
        self.bids.keep_highest();
        self.asks.keep_lowest();
        self.sequence = sequence;
        self.updated_at = clock;
        proof {
            use_type_invariant(&self.bids);
            use_type_invariant(&self.asks);
        }
        true
    }

    /// Best bid and best ask; zero for an empty side.
    pub fn quote(&self) -> (r: (Double, Double))
        ensures
            r == best_prices(self@),
    {
        let n = self.bids.len();
        let bid = if n > 0 {
            self.bids.at(n - 1).0
        } else {
            Double::zero()
        };
        let ask = if self.asks.len() > 0 {
            self.asks.at(0).0
        } else {
            Double::zero()
        };
        (bid, ask)
    }
}

/// After an update its price holds the new size, or nothing if the size was zero, and every
/// other price holds what it held before.
pub proof fn an_update_changes_one_price(levels: Seq<Level>, update: Level, price: Double)
    requires
        ascending(levels),
    ensures
        ascending(with_level(levels, update)),
        size_at(with_level(levels, update), price) == if price_key(price) == price_key(update.0) {
            if update.1.same(Double::zero()) {
                None
            } else {
                Some(update.1)
            }
        } else {
            size_at(levels, price)
        },
{
    let key = price_key(update.0);
    let other = price_key(price);
    let i = lemma_slot_exists(levels, key);
    let o = lemma_slot_exists(levels, other);
    lemma_slot_is(levels, key, i);
    lemma_slot_is(levels, other, o);
    lemma_with_level_ascending(levels, update, i);
    let next = with_level(levels, update);
    let n = lemma_slot_exists(next, other);
    lemma_slot_is(next, other, n);
    let hit = i < levels.len() && price_key(levels[i].0) == key;
    let gone = update.1.same(Double::zero());
    if gone && !hit {
    } else if gone {
        let place = if other <= key {
            o
        } else {
            o - 1
        };
        assert forall|j: int| 0 <= j < place implies price_key(#[trigger] next[j].0) < other by {
            if j < i {
                assert(next[j] == levels[j]);
            } else {
                assert(next[j] == levels[j + 1]);
            }
        }
        assert forall|j: int| place <= j < next.len() implies price_key(#[trigger] next[j].0)
            >= other by {
            if j < i {
                assert(next[j] == levels[j]);
            } else {
                assert(next[j] == levels[j + 1]);
                assert(price_key(levels[i].0) < price_key(levels[j + 1].0));
            }
        }
        lemma_slot_is(next, other, place);
        if place < next.len() {
            if place < i {
                assert(next[place] == levels[place]);
            } else {
                assert(next[place] == levels[place + 1]);
                assert(price_key(levels[i].0) < price_key(levels[place + 1].0));
            }
        }
        if other < key && o < levels.len() {
            assert(o <= i);
        }
    } else if hit {
        assert forall|j: int| 0 <= j < o implies price_key(#[trigger] next[j].0) < other by {
            assert(price_key(next[j].0) == price_key(levels[j].0));
        }
        assert forall|j: int| o <= j < next.len() implies price_key(#[trigger] next[j].0)
            >= other by {
            assert(price_key(next[j].0) == price_key(levels[j].0));
        }
        lemma_slot_is(next, other, o);
    } else {
        let place = if other <= key {
            o
        } else {
            o + 1
        };
        assert forall|j: int| 0 <= j < place implies price_key(#[trigger] next[j].0) < other by {
            if j < i {
                assert(next[j] == levels[j]);
            } else if j > i {
                assert(next[j] == levels[j - 1]);
            }
        }
        assert forall|j: int| place <= j < next.len() implies price_key(#[trigger] next[j].0)
            >= other by {
            if j < i {
                assert(next[j] == levels[j]);
            } else if j > i {
                assert(next[j] == levels[j - 1]);
            }
        }
        lemma_slot_is(next, other, place);
        if other < key {
            if o < levels.len() {
                if o < i {
                    assert(next[o] == levels[o]);
                } else {
                    assert(next[o] == update);
                    assert(price_key(levels[i].0) >= key);
                }
            }
        } else if other > key {
            assert(o >= i) by {
                if o < i {
                    assert(price_key(levels[o].0) < key);
                }
            }
            if o < levels.len() {
                assert(next[o + 1] == levels[o]);
            }
        } else {
            assert(o == i);
        }
    }
}

/// A price has one place in a book, and an update of it changes the number of levels by at most
/// one.
pub proof fn slots_are_places(levels: Seq<Level>, price: Double)
    requires
        ascending(levels),
    ensures
        is_slot(levels, price_key(price), slot(levels, price_key(price))),
        forall|size: Double| (#[trigger] with_level(levels, (price, size))).len() <= levels.len() + 1,
{
    let i = lemma_slot_exists(levels, price_key(price));
    lemma_slot_is(levels, price_key(price), i);
}

proof fn lemma_slot_exists(levels: Seq<Level>, key: int) -> (i: int)
    requires
        ascending(levels),
    ensures
        is_slot(levels, key, i),
    decreases levels.len(),
{
    if levels.len() == 0 {
        0
    } else {
        let before = levels.drop_last();
        assert(ascending(before)) by {
            assert forall|a: int, b: int| 0 <= a < b < before.len() implies price_key(
                #[trigger] before[a].0,
            ) < price_key(#[trigger] before[b].0) by {
                assert(price_key(levels[a].0) < price_key(levels[b].0));
            }
        }
        let i = lemma_slot_exists(before, key);
        if price_key(levels.last().0) < key {
            assert forall|j: int| 0 <= j < levels.len() implies price_key(#[trigger] levels[j].0)
                < key by {
                if j < levels.len() - 1 {
                    assert(price_key(levels[j].0) < price_key(levels[levels.len() - 1].0));
                }
            }
            levels.len() as int
        } else {
            assert forall|j: int| 0 <= j < i implies price_key(#[trigger] levels[j].0) < key by {
                assert(before[j] == levels[j]);
            }
            assert forall|j: int| i <= j < levels.len() implies price_key(#[trigger] levels[j].0)
                >= key by {
                if j < levels.len() - 1 {
                    assert(before[j] == levels[j]);
                }
            }
            i
        }
    }
}

/// One public trade.
#[derive(Clone, Copy, Debug, PartialEq, Eq, Structural)]
pub struct TradeTick {
    pub timestamp: Double,
    pub is_buy: bool,
    pub price: Double,
    pub size: Double,
}

/// A liquid perpetual contract that the radar selected.
#[derive(Debug)]
pub struct Instrument {
    pub symbol: String,
    pub price: Double,
    pub turnover24h: Double,
    pub spread_pct: Double,
}

/// The side of a book that a liquidity wall stands on.
#[derive(Clone, Copy, Debug, PartialEq, Eq, Structural)]
pub enum WallSide {
    Bid,
    Ask,
}

impl WallSide {
    pub open spec fn name(self) -> Seq<char> {
        match self {
            WallSide::Bid => "bid"@,
            WallSide::Ask => "ask"@,
        }
    }

    pub fn as_str(&self) -> (r: &'static str)
        ensures
            r@ == self.name(),
    {
        match self {
            WallSide::Bid => "bid",
            WallSide::Ask => "ask",
        }
    }
}

/// One active liquidity-wall observation.
#[derive(Clone, Copy, Debug, PartialEq, Eq, Structural)]
pub struct WallTrack {
    pub side: WallSide,
    pub price: Double,
    pub initial_size: Double,
    pub peak_size: Double,
    pub started_at: Double,
    pub verified: bool,
    pub triggered: bool,
}

/// What an observed wall has lost, and how much of it was traded away.
#[derive(Clone, Copy, Debug, PartialEq, Eq, Structural)]
pub struct Absorption {
    pub side: WallSide,
    pub price: Double,
    pub initial_size: Double,
    pub current_size: Double,
    pub depleted_quantity: Double,
    pub depletion_ratio: Double,
    pub executed_quantity: Double,
    pub matched_ratio: Double,
    pub verified_for: Double,
    pub absorbed: bool,
}

/// Qualified absorption waiting for breakout and held retest.
#[derive(Clone, Copy, Debug, PartialEq, Eq, Structural)]
pub struct PendingSignal {
    pub side: Side,
    pub wall: Double,
    pub created: Double,
    pub broken: bool,
    pub hold_ticks: u32,
    pub score: i64,
    pub absorption: Absorption,
}

/// The direction of the BTC trend filter.
#[derive(Clone, Copy, Debug, PartialEq, Eq, Structural)]
pub enum TrendDirection {
    Unknown,
    Up,
    Down,
    Flat,
}

impl TrendDirection {
    pub open spec fn name(self) -> Seq<char> {
        match self {
            TrendDirection::Unknown => "UNKNOWN"@,
            TrendDirection::Up => "UP"@,
            TrendDirection::Down => "DOWN"@,
            TrendDirection::Flat => "FLAT"@,
        }
    }

    pub fn as_str(&self) -> (r: &'static str)
        ensures
            r@ == self.name(),
    {
        match self {
            TrendDirection::Unknown => "UNKNOWN",
            TrendDirection::Up => "UP",
            TrendDirection::Down => "DOWN",
            TrendDirection::Flat => "FLAT",
        }
    }
}

/// What the market looked like when a position was opened.
#[derive(Clone, Copy, Debug, PartialEq, Eq, Structural)]
pub struct SignalSnapshot {
    pub wall: Double,
    pub score: i64,
    pub imbalance: Double,
    pub flow: Double,
    pub btc_trend: TrendDirection,
    pub spread_pct: Double,
    pub cost_pct: Double,
    pub net_rr: Double,
    pub sequence: i64,
}

/// What the market looked like when a position was closed.
#[derive(Clone, Copy, Debug, PartialEq, Eq, Structural)]
pub struct ExitSnapshot {
    pub bid: Double,
    pub ask: Double,
    pub imbalance: Double,
    pub flow: Double,
}

/// An open paper position; the account keeps it under its symbol.
#[derive(Clone, Copy, Debug, PartialEq, Eq, Structural)]
pub struct Position {
    pub side: Side,
    pub entry: Double,
    pub quantity: Double,
    pub opened_at: Double,
    pub mark: Double,
    pub stop_price: Double,
    pub target_price: Double,
    pub risk_per_unit: Double,
    pub entry_fee: Double,
    pub entry_slippage_cost: Double,
    pub signal_snapshot: SignalSnapshot,
    pub unrealized: Double,
    pub breakeven_armed: bool,
    pub peak_return: Double,
    pub trough_return: Double,
    pub mfe: Double,
    pub mae: Double,
    pub reversal_streak: u32,
    pub last_status_log: Double,
}

/// Why a position was closed.
#[derive(Clone, Copy, Debug, PartialEq, Eq, Structural)]
pub enum ExitReason {
    StructuralStop,
    Target,
    Breakeven,
    FlowInvalidation,
    Trail,
}

impl ExitReason {
    pub open spec fn name(self) -> Seq<char> {
        match self {
            ExitReason::StructuralStop => "STRUCTURAL STOP"@,
            ExitReason::Target => "R-MULTIPLE TARGET"@,
            ExitReason::Breakeven => "COST-PROTECTED BREAKEVEN"@,
            ExitReason::FlowInvalidation => "CONFIRMED FLOW INVALIDATION"@,
            ExitReason::Trail => "R-BASED TRAIL"@,
        }
    }

    pub fn as_str(&self) -> (r: &'static str)
        ensures
            r@ == self.name(),
    {
        match self {
            ExitReason::StructuralStop => "STRUCTURAL STOP",
            ExitReason::Target => "R-MULTIPLE TARGET",
            ExitReason::Breakeven => "COST-PROTECTED BREAKEVEN",
            ExitReason::FlowInvalidation => "CONFIRMED FLOW INVALIDATION",
            ExitReason::Trail => "R-BASED TRAIL",
        }
    }
}

/// The result of a closed position.
#[derive(Clone, Copy, Debug, PartialEq, Eq, Structural)]
pub struct TradeResult {
    pub side: Side,
    pub entry: Double,
    pub exit: Double,
    pub pnl: Double,
    pub gross_pnl: Double,
    pub fees: Double,
    pub slippage_cost: Double,
    pub reason: ExitReason,
    pub opened_at: Double,
    pub closed_at: Double,
    pub mfe: Double,
    pub mae: Double,
    pub signal_snapshot: SignalSnapshot,
    pub exit_snapshot: ExitSnapshot,
}

/// A closed position of one symbol.
#[derive(Debug)]
pub struct ClosedTrade {
    pub symbol: String,
    pub result: TradeResult,
}

/// One line of the event log.
#[derive(Debug)]
pub struct LogEvent {
    pub level: String,
    pub message: String,
    pub symbol: String,
    pub timestamp: Double,
}

} // verus!
