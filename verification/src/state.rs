//! Everything that the engine knows about the market and its paper account.
use vstd::prelude::*;
use std::collections::VecDeque;
use crate::brain::{RadarRow, Sample};
use crate::double::Double;
use crate::journal::{Journal, JournalView};
use crate::journal;
use crate::models::{
    BookView, ClosedTrade, Instrument, OrderBook, PendingSignal, Position, TradeResult, TradeTick,
    WallTrack,
};
use crate::mtf_fvg::{BarsView, MtfBars};
use crate::mtf_tracker::{MtfFvgTracker, TrackerView};
use crate::table;
use crate::table::Table;

verus! {

/// The most trades that the tape of a symbol keeps.
pub const TRADES_MAXLEN: usize = 1200;

/// The most closed trades that the account keeps.
pub const CLOSED_MAXLEN: usize = 1000;

pub struct MarketState {
    pub books: Table<OrderBook>,
    pub trades: Table<VecDeque<TradeTick>>,
    pub mtf_bars: Table<MtfBars>,
    pub mtf_fvg: Table<MtfFvgTracker>,
    pub positions: Table<Position>,
    pub closed: VecDeque<ClosedTrade>,
    pub journal: Journal,
    pub radar: Vec<Instrument>,
    pub metrics: Table<RadarRow>,
    pub cooldowns: Table<Double>,
    pub bid_walls: Table<WallTrack>,
    pub ask_walls: Table<WallTrack>,
    pub pending_signals: Table<PendingSignal>,
    pub data_quality_errors: u64,
    pub btc_mid_history: VecDeque<Sample>,
    pub source: String,
    pub connections: i64,
    pub last_scan: Double,
    pub started_at: Double,
    pub session: u64,
}

/// A closed trade by its contents.
#[verifier::ext_equal]
pub struct ClosedRow {
    pub symbol: Seq<char>,
    pub result: TradeResult,
}

impl ClosedTrade {
    pub open spec fn view(&self) -> ClosedRow {
        ClosedRow { symbol: self.symbol@, result: self.result }
    }
}

/// Closed trades by their contents.
pub open spec fn closed_rows(closed: Seq<ClosedTrade>) -> Seq<ClosedRow> {
    closed.map_values(|t: ClosedTrade| t@)
}

/// A radar row by its contents.
#[verifier::ext_equal]
pub struct InstrumentView {
    pub symbol: Seq<char>,
    pub price: Double,
    pub turnover24h: Double,
    pub spread_pct: Double,
}

impl Instrument {
    pub open spec fn view(&self) -> InstrumentView {
        InstrumentView {
            symbol: self.symbol@,
            price: self.price,
            turnover24h: self.turnover24h,
            spread_pct: self.spread_pct,
        }
    }
}

/// Radar rows by their contents.
pub open spec fn instrument_rows(rows: Seq<Instrument>) -> Seq<InstrumentView> {
    rows.map_values(|i: Instrument| i@)
}

/// Books by their contents.
pub open spec fn book_views(books: Map<Seq<char>, OrderBook>) -> Map<Seq<char>, BookView> {
    books.map_values(|b: OrderBook| b@)
}

/// Tapes by their contents.
pub open spec fn tape_views(trades: Map<Seq<char>, VecDeque<TradeTick>>) -> Map<
    Seq<char>,
    Seq<TradeTick>,
> {
    trades.map_values(|t: VecDeque<TradeTick>| t@)
}

/// Candles by their contents.
pub open spec fn bar_views(bars: Map<Seq<char>, MtfBars>) -> Map<Seq<char>, BarsView> {
    bars.map_values(|b: MtfBars| b@)
}

/// Setup trackers by their contents.
pub open spec fn tracker_views(trackers: Map<Seq<char>, MtfFvgTracker>) -> Map<
    Seq<char>,
    TrackerView,
> {
    trackers.map_values(|t: MtfFvgTracker| t@)
}

/// The state by its contents.
#[verifier::ext_equal]
pub struct MarketView {
    pub books: Map<Seq<char>, BookView>,
    pub trades: Map<Seq<char>, Seq<TradeTick>>,
    pub mtf_bars: Map<Seq<char>, BarsView>,
    pub mtf_fvg: Map<Seq<char>, TrackerView>,
    pub positions: Map<Seq<char>, Position>,
    pub closed: Seq<ClosedRow>,
    pub journal: JournalView,
    pub radar: Seq<InstrumentView>,
    pub metrics: Map<Seq<char>, RadarRow>,
    pub cooldowns: Map<Seq<char>, Double>,
    pub bid_walls: Map<Seq<char>, WallTrack>,
    pub ask_walls: Map<Seq<char>, WallTrack>,
    pub pending_signals: Map<Seq<char>, PendingSignal>,
    pub data_quality_errors: u64,
    pub btc_mid_history: Seq<Sample>,
    pub source: Seq<char>,
    pub connections: i64,
    pub last_scan: Double,
    pub started_at: Double,
    pub session: u64,
}

/// The closed trades with one more in front; a full list loses its oldest.
pub open spec fn with_closed(closed: Seq<ClosedRow>, row: ClosedRow) -> Seq<ClosedRow> {
    seq![row] + if closed.len() >= CLOSED_MAXLEN {
        closed.drop_last()
    } else {
        closed
    }
}

/// A tape with one more trade; a full tape loses its oldest.
pub open spec fn with_trade(tape: Seq<TradeTick>, tick: TradeTick) -> Seq<TradeTick> {
    if tape.len() >= TRADES_MAXLEN {
        tape.drop_first().push(tick)
    } else {
        tape.push(tick)
    }
}

impl MarketView {
    /// The state after one public trade.
    pub open spec fn ticked(self, symbol: Seq<char>, tick: TradeTick) -> MarketView {
        MarketView {
            mtf_bars: self.mtf_bars.insert(
                symbol,
                table::entry_or(self.mtf_bars, symbol, BarsView::empty()).ticked(tick),
            ),
            trades: self.trades.insert(
                symbol,
                with_trade(table::entry_or(self.trades, symbol, Seq::empty()), tick),
            ),
            ..self
        }
    }
}

impl MarketState {
    pub open spec fn view(&self) -> MarketView {
        MarketView {
            books: book_views(self.books@),
            trades: tape_views(self.trades@),
            mtf_bars: bar_views(self.mtf_bars@),
            mtf_fvg: tracker_views(self.mtf_fvg@),
            positions: self.positions@,
            closed: closed_rows(self.closed@),
            journal: self.journal@,
            radar: instrument_rows(self.radar@),
            metrics: self.metrics@,
            cooldowns: self.cooldowns@,
            bid_walls: self.bid_walls@,
            ask_walls: self.ask_walls@,
            pending_signals: self.pending_signals@,
            data_quality_errors: self.data_quality_errors,
            btc_mid_history: self.btc_mid_history@,
            source: self.source@,
            connections: self.connections,
            last_scan: self.last_scan,
            started_at: self.started_at,
            session: self.session,
        }
    }

    /// The state of an engine started at `clock`.
    pub fn new(clock: Double) -> (r: MarketState)
        ensures
            r@ == (MarketView {
                books: Map::empty(),
                trades: Map::empty(),
                mtf_bars: Map::empty(),
                mtf_fvg: Map::empty(),
                positions: Map::empty(),
                closed: Seq::empty(),
                journal: JournalView {
                    logs: Seq::empty(),
                    reject_counts: Map::empty(),
                    throttle: Map::empty(),
                    notifier: None,
                },
                radar: Seq::empty(),
                metrics: Map::empty(),
                cooldowns: Map::empty(),
                bid_walls: Map::empty(),
                ask_walls: Map::empty(),
                pending_signals: Map::empty(),
                data_quality_errors: 0,
                btc_mid_history: Seq::empty(),
                source: "CONNECTING"@,
                connections: 0,
                last_scan: Double::zero(),
                started_at: clock,
                session: 1,
            }),
    {
        let r = MarketState {
            books: Table::new(),
            trades: Table::new(),
            mtf_bars: Table::new(),
            mtf_fvg: Table::new(),
            positions: Table::new(),
            closed: VecDeque::new(),
            journal: Journal::new(),
            radar: Vec::new(),
            metrics: Table::new(),
            cooldowns: Table::new(),
            bid_walls: Table::new(),
            ask_walls: Table::new(),
            pending_signals: Table::new(),
            data_quality_errors: 0,
            btc_mid_history: VecDeque::new(),
            source: "CONNECTING".to_owned(),
            connections: 0,
            last_scan: Double::zero(),
            started_at: clock,
            session: 1,
        };
        proof {
            assert(r@.books =~= Map::<Seq<char>, BookView>::empty());
            assert(r@.trades =~= Map::<Seq<char>, Seq<TradeTick>>::empty());
            assert(r@.mtf_bars =~= Map::<Seq<char>, BarsView>::empty());
            assert(r@.mtf_fvg =~= Map::<Seq<char>, TrackerView>::empty());
            assert(r@.closed =~= Seq::<ClosedRow>::empty());
            assert(r@.radar =~= Seq::<InstrumentView>::empty());
        }
        r
    }

    /// Takes a public trade into the candles and the tape of its symbol.
    pub fn push_tick(&mut self, symbol: &str, tick: TradeTick)
        ensures
            final(self)@ == old(self)@.ticked(symbol@, tick),
    {
        let mut bars = match self.mtf_bars.remove(symbol) {
            Some(bars) => bars,
            None => MtfBars::new(),
        };
        bars.update(&tick);
        self.mtf_bars.insert(symbol, bars);
        let mut tape: VecDeque<TradeTick> = match self.trades.remove(symbol) {
            Some(tape) => tape,
            None => VecDeque::new(),
        };
        let ghost before = tape@;
        if tape.len() >= TRADES_MAXLEN {
            let _ = tape.pop_front();
        }
        tape.push_back(tick);
        assert(tape@ =~= with_trade(before, tick));
        self.trades.insert(symbol, tape);
        proof {
            let was = old(self)@;
            assert(self@.mtf_bars =~= was.ticked(symbol@, tick).mtf_bars);
            assert(self@.trades =~= was.ticked(symbol@, tick).trades);
        }
    }

    /// Puts a closed trade in front of the others.
    pub fn push_closed(&mut self, trade: ClosedTrade)
        ensures
            final(self)@ == (MarketView {
                closed: with_closed(old(self)@.closed, trade@),
                ..old(self)@
            }),
            old(self)@.closed.len() <= CLOSED_MAXLEN ==> final(self)@.closed.len()
                <= CLOSED_MAXLEN,
    {
        let ghost before = closed_rows(self.closed@);
        if self.closed.len() >= CLOSED_MAXLEN {
            let _ = self.closed.pop_back();
            assert(closed_rows(self.closed@) =~= before.drop_last());
        }
        self.closed.push_front(trade);
        assert(closed_rows(self.closed@) =~= with_closed(before, trade@));
    }

    /// Writes a line into the log unless it is throttled.
    pub fn log(&mut self, level: &str, message: &str, symbol: &str, throttle: Double, clock: Double)
        ensures
            final(self)@ == (MarketView {
                journal: journal::logged(
                    old(self)@.journal,
                    level@,
                    message@,
                    symbol@,
                    throttle,
                    clock,
                ),
                ..old(self)@
            }),
    {
        self.journal.log(level, message, symbol, throttle, clock);
    }

    /// Counts, logs and reports a rejected entry.
    pub fn reject(&mut self, symbol: &str, reason: &str, clock: Double)
        ensures
            final(self)@ == (MarketView {
                journal: journal::entry_rejected(old(self)@.journal, symbol@, reason@, clock),
                ..old(self)@
            }),
    {
        self.journal.reject(symbol, reason, clock);
    }
}

} // verus!
