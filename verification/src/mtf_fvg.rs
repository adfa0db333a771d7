//! Fair value gaps on three timeframes: an M15 context, an M1 confirmation, an S5
//! inversion and its retest.
use vstd::prelude::*;
use std::collections::VecDeque;
use crate::config::Settings;
use crate::double::Double;
use crate::models::{Side, TradeTick};
use crate::sorting;

verus! {

/// The candles that an average true range is taken over.
pub const ATR_PERIOD: usize = 14;

pub const S5_RETENTION: usize = 720;

pub const M1_RETENTION: usize = 240;

pub const M15_RETENTION: usize = 128;

/// The most contexts that a tracker remembers as used.
pub const CONSUMED_MAXLEN: usize = 64;

#[derive(Clone, Copy, Debug, PartialEq, Eq, Structural, Hash)]
pub enum Timeframe {
    S5,
    M1,
    M15,
}

impl Timeframe {
    pub open spec fn spec_seconds(self) -> i64 {
        match self {
            Timeframe::S5 => 5,
            Timeframe::M1 => 60,
            Timeframe::M15 => 900,
        }
    }

    #[verifier::when_used_as_spec(spec_seconds)]
    pub fn seconds(self) -> (r: i64)
        ensures
            r == self.spec_seconds(),
    {
        match self {
            Timeframe::S5 => 5,
            Timeframe::M1 => 60,
            Timeframe::M15 => 900,
        }
    }

    pub open spec fn name(self) -> Seq<char> {
        match self {
            Timeframe::S5 => "S5"@,
            Timeframe::M1 => "M1"@,
            Timeframe::M15 => "M15"@,
        }
    }

    pub fn as_str(self) -> (r: &'static str)
        ensures
            r@ == self.name(),
    {
        match self {
            Timeframe::S5 => "S5",
            Timeframe::M1 => "M1",
            Timeframe::M15 => "M15",
        }
    }

    pub open spec fn spec_retention(self) -> usize {
        match self {
            Timeframe::S5 => S5_RETENTION,
            Timeframe::M1 => M1_RETENTION,
            Timeframe::M15 => M15_RETENTION,
        }
    }

    /// The most candles that a series keeps.
    #[verifier::when_used_as_spec(spec_retention)]
    pub fn retention(self) -> (r: usize)
        ensures
            r == self.spec_retention(),
    {
        match self {
            Timeframe::S5 => S5_RETENTION,
            Timeframe::M1 => M1_RETENTION,
            Timeframe::M15 => M15_RETENTION,
        }
    }
}

/// The start of the candle that a moment falls into.
pub open spec fn spec_bucket(timestamp: i64, timeframe: Timeframe) -> i64 {
    ((timestamp as int / timeframe.seconds() as int) as i64).wrapping_mul(timeframe.seconds())
}

#[verifier::when_used_as_spec(spec_bucket)]
pub fn bucket(timestamp: i64, timeframe: Timeframe) -> (r: i64)
    ensures
        r == spec_bucket(timestamp, timeframe),
{
    let d = timeframe.seconds();
    proof {
        let t = timestamp as int;
        assert(i64::MIN <= t / 5 <= i64::MAX);
        assert(i64::MIN <= t / 60 <= i64::MAX);
        assert(i64::MIN <= t / 900 <= i64::MAX);
    }
    let q = match timestamp.checked_div_euclid(d) {
        Some(q) => q,
        None => 0,
    };
    q.wrapping_mul(d)
}

#[derive(Clone, Copy, Debug, PartialEq, Eq, Structural)]
pub struct Candle {
    pub timeframe: Timeframe,
    pub started_at: i64,
    pub open: Double,
    pub high: Double,
    pub low: Double,
    pub close: Double,
    pub volume: Double,
    pub trades: u64,
}

impl Candle {
    pub open spec fn spec_is_closed(self, now: Double) -> bool {
        self.started_at.wrapping_add(self.timeframe.seconds()) <= now.floor()
    }

    #[verifier::when_used_as_spec(spec_is_closed)]
    pub fn is_closed(self, now: Double) -> (r: bool)
        ensures
            r == self.spec_is_closed(now),
    {
        self.started_at.wrapping_add(self.timeframe.seconds()) <= now.floor()
    }

    /// A candle that history may be seeded with: finite prices, a positive low not above
    /// the high.
    pub open spec fn usable(self, timeframe: Timeframe) -> bool {
        &&& self.timeframe == timeframe
        &&& self.open.finite()
        &&& self.high.finite()
        &&& self.low.finite()
        &&& self.close.finite()
        &&& !self.low.le(Double::zero())
        &&& !self.low.gt(self.high)
    }

    fn is_usable(self, timeframe: Timeframe) -> (r: bool)
        ensures
            r == self.usable(timeframe),
    {
        self.timeframe == timeframe && self.open.is_finite() && self.high.is_finite()
            && self.low.is_finite() && self.close.is_finite() && !self.low.le(Double::zero())
            && !self.low.gt(self.high)
    }
}

/// Candles of three timeframes, each series in order of time.
#[derive(Debug)]
pub struct MtfBars {
    pub s5: VecDeque<Candle>,
    pub m1: VecDeque<Candle>,
    pub m15: VecDeque<Candle>,
    pub valid_from: Option<i64>,
}

/// Candles of three timeframes by their contents.
#[verifier::ext_equal]
pub struct BarsView {
    pub s5: Seq<Candle>,
    pub m1: Seq<Candle>,
    pub m15: Seq<Candle>,
    pub valid_from: Option<i64>,
}

impl BarsView {
    pub open spec fn empty() -> BarsView {
        BarsView { s5: Seq::empty(), m1: Seq::empty(), m15: Seq::empty(), valid_from: None }
    }

    pub open spec fn series(self, timeframe: Timeframe) -> Seq<Candle> {
        match timeframe {
            Timeframe::S5 => self.s5,
            Timeframe::M1 => self.m1,
            Timeframe::M15 => self.m15,
        }
    }

    pub open spec fn with_series(self, timeframe: Timeframe, series: Seq<Candle>) -> BarsView {
        match timeframe {
            Timeframe::S5 => BarsView { s5: series, ..self },
            Timeframe::M1 => BarsView { m1: series, ..self },
            Timeframe::M15 => BarsView { m15: series, ..self },
        }
    }

    /// The candles after one trade; a trade without a finite time, a positive finite price
    /// and a finite size that is not negative changes nothing.
    pub open spec fn ticked(self, tick: TradeTick) -> BarsView {
        if !tick.timestamp.finite() || !tick.price.finite() || tick.price.le(Double::zero())
            || !tick.size.finite() || tick.size.lt(Double::zero()) {
            self
        } else {
            BarsView {
                s5: series_ticked(self.s5, Timeframe::S5, tick),
                m1: series_ticked(self.m1, Timeframe::M1, tick),
                m15: series_ticked(self.m15, Timeframe::M15, tick),
                ..self
            }
        }
    }

    /// The candles once some history is put in.
    pub open spec fn seeded(self, timeframe: Timeframe, candles: Seq<Candle>) -> BarsView {
        self.with_series(
            timeframe,
            newest(
                by_start(with_candles(self.series(timeframe), timeframe, candles)),
                timeframe.retention(),
            ),
        )
    }

    /// The candles after the market stream broke off: only closed ones of the slower
    /// timeframes are left.
    pub open spec fn disconnected(self, now: Double) -> BarsView {
        BarsView {
            s5: Seq::empty(),
            m1: closed_candles(self.m1, now),
            m15: closed_candles(self.m15, now),
            valid_from: Some(now.floor()),
        }
    }
}

/// A candle after one trade in it.
pub open spec fn traded(candle: Candle, tick: TradeTick) -> Candle {
    Candle {
        high: candle.high.max(tick.price),
        low: candle.low.min(tick.price),
        close: tick.price,
        volume: candle.volume.add(tick.size),
        trades: candle.trades.wrapping_add(1),
        ..candle
    }
}

/// The candle that a trade opens.
pub open spec fn first_traded(timeframe: Timeframe, started_at: i64, tick: TradeTick) -> Candle {
    Candle {
        timeframe,
        started_at,
        open: tick.price,
        high: tick.price,
        low: tick.price,
        close: tick.price,
        volume: tick.size,
        trades: 1,
    }
}

/// A series after one trade: the trade counts for the last candle, opens a later one, or
/// comes too late.
pub open spec fn series_ticked(series: Seq<Candle>, timeframe: Timeframe, tick: TradeTick) -> Seq<
    Candle,
> {
    let started_at = bucket(tick.timestamp.floor(), timeframe);
    let fresh = first_traded(timeframe, started_at, tick);
    if series.len() > 0 && series.last().started_at == started_at {
        series.drop_last().push(traded(series.last(), tick))
    } else if series.len() > 0 && started_at <= series.last().started_at {
        series
    } else if series.len() >= timeframe.retention() {
        series.drop_first().push(fresh)
    } else {
        series.push(fresh)
    }
}

/// A series with a candle put in: in place of the first one of the same start, else behind.
pub open spec fn with_candle(series: Seq<Candle>, candle: Candle) -> Seq<Candle>
    decreases series.len(),
{
    if series.len() == 0 {
        seq![candle]
    } else if series[0].started_at == candle.started_at {
        series.update(0, candle)
    } else {
        seq![series[0]] + with_candle(series.drop_first(), candle)
    }
}

/// A series with the usable ones of some candles put in.
pub open spec fn with_candles(
    series: Seq<Candle>,
    timeframe: Timeframe,
    candles: Seq<Candle>,
) -> Seq<Candle>
    decreases candles.len(),
{
    if candles.len() == 0 {
        series
    } else {
        let before = with_candles(series, timeframe, candles.drop_last());
        if candles.last().usable(timeframe) {
            with_candle(before, candles.last())
        } else {
            before
        }
    }
}

pub open spec fn start_keys(series: Seq<Candle>) -> Seq<i128> {
    Seq::new(series.len(), |i: int| series[i].started_at as i128)
}

/// A series by start, candles of the same start in their old order.
pub open spec fn by_start(series: Seq<Candle>) -> Seq<Candle> {
    sorting::picked(series, sorting::order(start_keys(series)))
}

/// The last candles of a series.
pub open spec fn newest(series: Seq<Candle>, count: usize) -> Seq<Candle> {
    if series.len() > count {
        series.subrange(series.len() - count, series.len() as int)
    } else {
        series
    }
}

/// The candles of a series that are closed.
pub open spec fn closed_candles(series: Seq<Candle>, now: Double) -> Seq<Candle>
    decreases series.len(),
{
    if series.len() == 0 {
        series
    } else {
        let before = closed_candles(series.drop_last(), now);
        if series.last().is_closed(now) {
            before.push(series.last())
        } else {
            before
        }
    }
}

proof fn lemma_with_candle(series: Seq<Candle>, candle: Candle, i: int)
    requires
        0 <= i <= series.len(),
        forall|j: int| 0 <= j < i ==> (#[trigger] series[j]).started_at != candle.started_at,
        i < series.len() ==> series[i].started_at == candle.started_at,
    ensures
        with_candle(series, candle) == if i < series.len() {
            series.update(i, candle)
        } else {
            series.push(candle)
        },
    decreases series.len(),
{
    if series.len() == 0 {
        assert(series.push(candle) =~= seq![candle]);
    } else if i == 0 {
    } else {
        let rest = series.drop_first();
        assert(series[0].started_at != candle.started_at);
        lemma_with_candle(rest, candle, i - 1);
        if i < series.len() {
            assert(seq![series[0]] + rest.update(i - 1, candle) =~= series.update(i, candle));
        } else {
            assert(seq![series[0]] + rest.push(candle) =~= series.push(candle));
        }
    }
}

fn update_series(series: &mut VecDeque<Candle>, timeframe: Timeframe, tick: &TradeTick)
    ensures
        final(series)@ == series_ticked(old(series)@, timeframe, *tick),
        old(series)@.len() <= timeframe.retention() ==> final(series)@.len()
            <= timeframe.retention(),
{
    let started_at = bucket(tick.timestamp.floor(), timeframe);
    let n = series.len();
    if n > 0 {
        let last = series[n - 1];
        if last.started_at == started_at {
            let _ = series.pop_back();
            let mut next = last;
            next.high = last.high.max(tick.price);
            next.low = last.low.min(tick.price);
            next.close = tick.price;
            next.volume = last.volume.add(tick.size);
            next.trades = last.trades.wrapping_add(1);
            series.push_back(next);
            assert(series@ =~= series_ticked(old(series)@, timeframe, *tick));
            return;
        }
        if started_at <= last.started_at {
            return;
        }
    }
    if n >= timeframe.retention() {
        let _ = series.pop_front();
    }
    series.push_back(
        Candle {
            timeframe,
            started_at,
            open: tick.price,
            high: tick.price,
            low: tick.price,
            close: tick.price,
            volume: tick.size,
            trades: 1,
        },
    );
    assert(series@ =~= series_ticked(old(series)@, timeframe, *tick));
}

/// Copies a series.
fn listed(series: &VecDeque<Candle>) -> (r: Vec<Candle>)
    ensures
        r@ == series@,
{
    let mut r: Vec<Candle> = Vec::new();
    let mut i: usize = 0;
    while i < series.len()
        invariant
            i <= series@.len(),
            r@ == series@.take(i as int),
        decreases series@.len() - i,
    {
        r.push(series[i]);
        i = i + 1;
        assert(r@ =~= series@.take(i as int));
    }
    assert(series@.take(i as int) =~= series@);
    r
}

/// Copies the closed candles of a series.
fn listed_closed(series: &VecDeque<Candle>, now: Double) -> (r: Vec<Candle>)
    ensures
        r@ == closed_candles(series@, now),
{
    let mut r: Vec<Candle> = Vec::new();
    let mut i: usize = 0;
    while i < series.len()
        invariant
            i <= series@.len(),
            r@ == closed_candles(series@.take(i as int), now),
        decreases series@.len() - i,
    {
        assert(series@.take(i + 1).drop_last() =~= series@.take(i as int));
        if series[i].is_closed(now) {
            r.push(series[i]);
        }
        i = i + 1;
    }
    assert(series@.take(i as int) =~= series@);
    r
}

/// Puts a candle into a series.
fn put_candle(series: &mut Vec<Candle>, candle: Candle)
    ensures
        final(series)@ == with_candle(old(series)@, candle),
{
    let mut i: usize = 0;
    while i < series.len() && series[i].started_at != candle.started_at
        invariant
            series@ == old(series)@,
            i <= series@.len(),
            forall|j: int| 0 <= j < i ==> (#[trigger] series@[j]).started_at != candle.started_at,
        decreases series@.len() - i,
    {
        i = i + 1;
    }
    proof {
        lemma_with_candle(series@, candle, i as int);
    }
    if i < series.len() {
        series.set(i, candle);
    } else {
        series.push(candle);
    }
}

/// The newest candles of a list by start, as a series.
fn arranged(candles: &Vec<Candle>, count: usize) -> (r: VecDeque<Candle>)
    ensures
        r@ == newest(by_start(candles@), count),
        r@.len() <= count,
{
    let mut keys: Vec<i128> = Vec::new();
    let mut i: usize = 0;
    while i < candles.len()
        invariant
            i <= candles@.len(),
            keys@ == start_keys(candles@.take(i as int)),
        decreases candles@.len() - i,
    {
        keys.push(candles[i].started_at as i128);
        i = i + 1;
        assert(keys@ =~= start_keys(candles@.take(i as int)));
    }
    assert(candles@.take(i as int) =~= candles@);
    let p = sorting::stable_order(&keys);
    let ghost sorted = by_start(candles@);
    let n = p.len();
    let from: usize = if n > count {
        n - count
    } else {
        0
    };
    let mut r: VecDeque<Candle> = VecDeque::new();
    let mut j: usize = from;
    while j < n
        invariant
            n == p@.len() == candles@.len(),
            from <= j <= n,
            sorting::is_stable_order(start_keys(candles@), p@),
            sorted == sorting::picked(candles@, p@),
            r@ == sorted.subrange(from as int, j as int),
        decreases n - j,
    {
        assert(p@[j as int] < candles@.len());
        r.push_back(candles[p[j]]);
        j = j + 1;
        assert(r@ =~= sorted.subrange(from as int, j as int));
    }
    assert(r@ =~= newest(sorted, count));
    r
}

impl Default for MtfBars {
    /// Bars without candles.
    fn default() -> (r: MtfBars)
        ensures
            r@ == BarsView::empty(),
    {
        MtfBars::new()
    }
}

impl MtfBars {
    pub open spec fn view(&self) -> BarsView {
        BarsView { s5: self.s5@, m1: self.m1@, m15: self.m15@, valid_from: self.valid_from }
    }

    pub fn new() -> (r: MtfBars)
        ensures
            r@ == BarsView::empty(),
    {
        MtfBars {
            s5: VecDeque::new(),
            m1: VecDeque::new(),
            m15: VecDeque::new(),
            valid_from: None,
        }
    }

    /// Takes a trade into all three timeframes.
    pub fn update(&mut self, tick: &TradeTick)
        ensures
            final(self)@ == old(self)@.ticked(*tick),
    {
        if !tick.timestamp.is_finite() || !tick.price.is_finite() || tick.price.le(Double::zero())
            || !tick.size.is_finite() || tick.size.lt(Double::zero()) {
            return;
        }
        update_series(&mut self.s5, Timeframe::S5, tick);
        update_series(&mut self.m1, Timeframe::M1, tick);
        update_series(&mut self.m15, Timeframe::M15, tick);
    }

    /// Puts history into one timeframe.
    pub fn seed(&mut self, timeframe: Timeframe, candles: &Vec<Candle>)
        ensures
            final(self)@ == old(self)@.seeded(timeframe, candles@),
            final(self)@.series(timeframe).len() <= timeframe.retention(),
    {
        let mut list = match timeframe {
            Timeframe::S5 => listed(&self.s5),
            Timeframe::M1 => listed(&self.m1),
            Timeframe::M15 => listed(&self.m15),
        };
        let ghost start = list@;
        let mut i: usize = 0;
        assert(candles@.take(0) =~= Seq::<Candle>::empty());
        while i < candles.len()
            invariant
                i <= candles@.len(),
                list@ == with_candles(start, timeframe, candles@.take(i as int)),
            decreases candles@.len() - i,
        {
            assert(candles@.take(i + 1).drop_last() =~= candles@.take(i as int));
            if candles[i].is_usable(timeframe) {
                put_candle(&mut list, candles[i]);
            }
            i = i + 1;
        }
        assert(candles@.take(i as int) =~= candles@);
        let series = arranged(&list, timeframe.retention());
        match timeframe {
            Timeframe::S5 => {
                self.s5 = series;
            },
            Timeframe::M1 => {
                self.m1 = series;
            },
            Timeframe::M15 => {
                self.m15 = series;
            },
        }
    }

    fn series(&self, timeframe: Timeframe) -> (r: &VecDeque<Candle>)
        ensures
            r@ == self@.series(timeframe),
    {
        match timeframe {
            Timeframe::S5 => &self.s5,
            Timeframe::M1 => &self.m1,
            Timeframe::M15 => &self.m15,
        }
    }

    /// Forgets what a broken market stream may have left incomplete.
    pub fn handle_disconnect(&mut self, now: Double)
        ensures
            final(self)@ == old(self)@.disconnected(now),
    {
        self.s5.clear();
        let m1 = listed_closed(&self.m1, now);
        self.m1 = queue(&m1);
        let m15 = listed_closed(&self.m15, now);
        self.m15 = queue(&m15);
        self.valid_from = Some(now.floor());
    }

    pub fn mark_history_valid(&mut self)
        ensures
            final(self)@ == (BarsView { valid_from: None, ..old(self)@ }),
    {
        self.valid_from = None;
    }
}

fn queue(candles: &Vec<Candle>) -> (r: VecDeque<Candle>)
    ensures
        r@ == candles@,
{
    let mut r: VecDeque<Candle> = VecDeque::new();
    let mut i: usize = 0;
    while i < candles.len()
        invariant
            i <= candles@.len(),
            r@ == candles@.take(i as int),
        decreases candles@.len() - i,
    {
        r.push_back(candles[i]);
        i = i + 1;
        assert(r@ =~= candles@.take(i as int));
    }
    assert(candles@.take(i as int) =~= candles@);
    r
}

#[derive(Clone, Copy, Debug, PartialEq, Eq, Structural, Hash)]
pub struct ZoneId {
    pub timeframe: Timeframe,
    pub first_started_at: i64,
    pub third_started_at: i64,
    pub side: Side,
}

/// A price range that three candles in a row left untraded.
#[derive(Clone, Copy, Debug, PartialEq, Eq, Structural)]
pub struct FvgZone {
    pub id: ZoneId,
    pub side: Side,
    pub lower: Double,
    pub upper: Double,
    pub created_at: i64,
    pub middle_range_atr: Double,
    pub middle_body_ratio: Double,
    pub gap_atr: Double,
}

/// A complete setup.
#[derive(Clone, Copy, Debug, PartialEq, Eq, Structural)]
pub struct MtfSetup {
    pub side: Side,
    pub context: FvgZone,
    pub confirmation: FvgZone,
    pub trigger: FvgZone,
    pub context_touched_at: i64,
    pub inverted_at: i64,
    pub retested_at: i64,
    pub entry_deadline: i64,
    pub entry_level: Double,
}

/// What a tracker waits for.
#[derive(Clone, Copy, Debug, PartialEq, Eq, Structural)]
pub enum MtfPhase {
    WaitingContext,
    WaitingContextTouch { context: FvgZone, approached: bool },
    WaitingM1 { context: FvgZone, touched_at: i64, first_eligible_m1: i64, deadline: i64 },
    WaitingS5Candidate {
        context: FvgZone,
        confirmation: FvgZone,
        touched_at: i64,
        deadline: i64,
    },
    WaitingS5Inversion {
        context: FvgZone,
        confirmation: FvgZone,
        trigger: FvgZone,
        touched_at: i64,
        deadline: i64,
    },
    WaitingS5Retest {
        context: FvgZone,
        confirmation: FvgZone,
        trigger: FvgZone,
        touched_at: i64,
        inverted_at: i64,
        deadline: i64,
    },
    Ready(MtfSetup),
}

/// The least that a gap must measure.
#[derive(Clone, Copy, Debug, PartialEq, Eq, Structural)]
pub struct Quality {
    pub min_gap_atr: Double,
    pub min_displacement_atr: Double,
    pub min_body_ratio: Double,
}

#[derive(Clone, Copy, Debug, PartialEq, Eq, Structural)]
pub struct MtfConfig {
    pub m15_min_gap_atr: Double,
    pub m15_min_displacement_atr: Double,
    pub m15_min_body_ratio: Double,
    pub m15_max_age_bars: i64,
    pub m1_min_gap_atr: Double,
    pub m1_min_displacement_atr: Double,
    pub m1_min_body_ratio: Double,
    pub m1_confirmation_bars: i64,
    pub s5_min_gap_pct: Double,
    pub s5_min_body_ratio: Double,
    pub s5_inversion_bars: i64,
    pub s5_retest_bars: i64,
    pub s5_entry_depth: Double,
    pub invalidation_buffer_pct: Double,
}

impl From<&Settings> for MtfConfig {
    fn from(settings: &Settings) -> (r: MtfConfig) {
        MtfConfig {
            m15_min_gap_atr: settings.fvg_m15_min_gap_atr,
            m15_min_displacement_atr: settings.fvg_m15_min_displacement_atr,
            m15_min_body_ratio: settings.fvg_m15_min_body_ratio,
            m15_max_age_bars: settings.fvg_m15_max_age_bars as i64,
            m1_min_gap_atr: settings.fvg_m1_min_gap_atr,
            m1_min_displacement_atr: settings.fvg_m1_min_displacement_atr,
            m1_min_body_ratio: settings.fvg_m1_min_body_ratio,
            m1_confirmation_bars: settings.fvg_m1_confirmation_bars as i64,
            s5_min_gap_pct: settings.fvg_s5_min_gap_pct,
            s5_min_body_ratio: settings.fvg_s5_min_body_ratio,
            s5_inversion_bars: settings.fvg_s5_inversion_bars as i64,
            s5_retest_bars: settings.fvg_s5_retest_bars as i64,
            s5_entry_depth: settings.fvg_s5_entry_depth,
            invalidation_buffer_pct: settings.fvg_stop_buffer_pct,
        }
    }
}

impl vstd::std_specs::convert::FromSpecImpl<&Settings> for MtfConfig {
    open spec fn obeys_from_spec() -> bool {
        true
    }

    open spec fn from_spec(settings: &Settings) -> MtfConfig {
        MtfConfig::of(*settings)
    }
}

impl MtfConfig {
    pub open spec fn of(settings: Settings) -> MtfConfig {
        MtfConfig {
            m15_min_gap_atr: settings.fvg_m15_min_gap_atr,
            m15_min_displacement_atr: settings.fvg_m15_min_displacement_atr,
            m15_min_body_ratio: settings.fvg_m15_min_body_ratio,
            m15_max_age_bars: settings.fvg_m15_max_age_bars as i64,
            m1_min_gap_atr: settings.fvg_m1_min_gap_atr,
            m1_min_displacement_atr: settings.fvg_m1_min_displacement_atr,
            m1_min_body_ratio: settings.fvg_m1_min_body_ratio,
            m1_confirmation_bars: settings.fvg_m1_confirmation_bars as i64,
            s5_min_gap_pct: settings.fvg_s5_min_gap_pct,
            s5_min_body_ratio: settings.fvg_s5_min_body_ratio,
            s5_inversion_bars: settings.fvg_s5_inversion_bars as i64,
            s5_retest_bars: settings.fvg_s5_retest_bars as i64,
            s5_entry_depth: settings.fvg_s5_entry_depth,
            invalidation_buffer_pct: settings.fvg_stop_buffer_pct,
        }
    }

    pub open spec fn spec_m15_quality(self) -> Quality {
        Quality {
            min_gap_atr: self.m15_min_gap_atr,
            min_displacement_atr: self.m15_min_displacement_atr,
            min_body_ratio: self.m15_min_body_ratio,
        }
    }

    #[verifier::when_used_as_spec(spec_m15_quality)]
    pub fn m15_quality(self) -> (r: Quality)
        ensures
            r == self.spec_m15_quality(),
    {
        Quality {
            min_gap_atr: self.m15_min_gap_atr,
            min_displacement_atr: self.m15_min_displacement_atr,
            min_body_ratio: self.m15_min_body_ratio,
        }
    }

    pub open spec fn spec_m1_quality(self) -> Quality {
        Quality {
            min_gap_atr: self.m1_min_gap_atr,
            min_displacement_atr: self.m1_min_displacement_atr,
            min_body_ratio: self.m1_min_body_ratio,
        }
    }

    #[verifier::when_used_as_spec(spec_m1_quality)]
    pub fn m1_quality(self) -> (r: Quality)
        ensures
            r == self.spec_m1_quality(),
    {
        Quality {
            min_gap_atr: self.m1_min_gap_atr,
            min_displacement_atr: self.m1_min_displacement_atr,
            min_body_ratio: self.m1_min_body_ratio,
        }
    }
}

/// The true range of a candle after a close.
pub open spec fn true_range(candle: Candle, previous_close: Double) -> Double {
    candle.high.sub(candle.low).max(candle.high.sub(previous_close).abs()).max(
        candle.low.sub(previous_close).abs(),
    )
}

/// The true ranges of the candles after `start` up to `end`, summed.
pub open spec fn range_sum(candles: Seq<Candle>, start: int, end: int) -> Double
    decreases end - start,
{
    if end <= start {
        Double::zero()
    } else {
        range_sum(candles, start, end - 1).add(true_range(candles[end], candles[end - 1].close))
    }
}

/// The average true range over the period that ends with a candle; none without enough
/// candles before it or without movement.
pub open spec fn average_range(candles: Seq<Candle>, end: int) -> Option<Double> {
    let atr = range_sum(candles, end - ATR_PERIOD, end).div(Double::whole(ATR_PERIOD as u64));
    if end < ATR_PERIOD || end >= candles.len() || !(atr.finite() && atr.gt(Double::zero())) {
        None
    } else {
        Some(atr)
    }
}

fn atr_at(candles: &Vec<Candle>, end: usize) -> (r: Option<Double>)
    ensures
        r == average_range(candles@, end as int),
{
    if end < ATR_PERIOD || end >= candles.len() {
        return None;
    }
    let start: usize = end - ATR_PERIOD;
    let mut total = Double::zero();
    let mut i: usize = start;
    while i < end
        invariant
            start <= i <= end < candles@.len(),
            total == range_sum(candles@, start as int, i as int),
        decreases end - i,
    {
        let previous_close = candles[i].close;
        i = i + 1;
        let candle = candles[i];
        let range = candle.high.sub(candle.low).max(candle.high.sub(previous_close).abs()).max(
            candle.low.sub(previous_close).abs(),
        );
        total = total.add(range);
    }
    let atr = total.div(Double::whole(ATR_PERIOD as u64));
    if atr.is_finite() && atr.gt(Double::zero()) {
        Some(atr)
    } else {
        None
    }
}

/// The gap between a first and a third candle, if there is one.
pub open spec fn spec_gap_between(first: Candle, last: Candle) -> Option<(Side, Double, Double)> {
    if last.low.gt(first.high) {
        Some((Side::Long, first.high, last.low))
    } else if last.high.lt(first.low) {
        Some((Side::Short, last.high, first.low))
    } else {
        None
    }
}

#[verifier::when_used_as_spec(spec_gap_between)]
pub fn gap_between(first: Candle, last: Candle) -> (r: Option<(Side, Double, Double)>)
    ensures
        r == spec_gap_between(first, last),
{
    if last.low.gt(first.high) {
        Some((Side::Long, first.high, last.low))
    } else if last.high.lt(first.low) {
        Some((Side::Short, last.high, first.low))
    } else {
        None
    }
}

/// The middle candle moves with the gap.
pub open spec fn spec_moves_with(middle: Candle, side: Side) -> bool {
    match side {
        Side::Long => middle.close.gt(middle.open),
        Side::Short => middle.close.lt(middle.open),
    }
}

#[verifier::when_used_as_spec(spec_moves_with)]
pub fn moves_with(middle: Candle, side: Side) -> (r: bool)
    ensures
        r == spec_moves_with(middle, side),
{
    match side {
        Side::Long => middle.close.gt(middle.open),
        Side::Short => middle.close.lt(middle.open),
    }
}

/// Three candles of one timeframe stand side by side.
pub open spec fn spec_consecutive(first: Candle, middle: Candle, last: Candle) -> bool {
    let duration = first.timeframe.seconds();
    &&& middle.timeframe == first.timeframe
    &&& last.timeframe == first.timeframe
    &&& middle.started_at == first.started_at.wrapping_add(duration)
    &&& last.started_at == middle.started_at.wrapping_add(duration)
}

#[verifier::when_used_as_spec(spec_consecutive)]
pub fn consecutive(first: Candle, middle: Candle, last: Candle) -> (r: bool)
    ensures
        r == spec_consecutive(first, middle, last),
{
    let duration = first.timeframe.seconds();
    middle.timeframe == first.timeframe && last.timeframe == first.timeframe && middle.started_at
        == first.started_at.wrapping_add(duration) && last.started_at
        == middle.started_at.wrapping_add(duration)
}

/// The gap that three candles leave, the last of them at a place in the list, if it is
/// good enough.
#[verifier::opaque]
pub open spec fn zone_at(candles: Seq<Candle>, third: int, quality: Quality) -> Option<FvgZone> {
    let first = candles[third - 2];
    let middle = candles[third - 1];
    let last = candles[third];
    if third < 2 || !consecutive(first, middle, last) {
        None
    } else {
        match gap_between(first, last) {
            None => None,
            Some((side, lower, upper)) => {
                let range = middle.high.sub(middle.low);
                let body_ratio = middle.close.sub(middle.open).abs().div(range);
                if !moves_with(middle, side) || range.le(Double::zero()) {
                    None
                } else {
                    match average_range(candles, third) {
                        None => None,
                        Some(atr) => {
                            let gap_atr = upper.sub(lower).div(atr);
                            let displacement_atr = range.div(atr);
                            if gap_atr.lt(quality.min_gap_atr) || displacement_atr.lt(
                                quality.min_displacement_atr,
                            ) || body_ratio.lt(quality.min_body_ratio) {
                                None
                            } else {
                                Some(
                                    FvgZone {
                                        id: ZoneId {
                                            timeframe: first.timeframe,
                                            first_started_at: first.started_at,
                                            third_started_at: last.started_at,
                                            side,
                                        },
                                        side,
                                        lower,
                                        upper,
                                        created_at: last.started_at.wrapping_add(
                                            first.timeframe.seconds(),
                                        ),
                                        middle_range_atr: displacement_atr,
                                        middle_body_ratio: body_ratio,
                                        gap_atr,
                                    },
                                )
                            }
                        },
                    }
                }
            },
        }
    }
}

/// The gap that ends with a candle of a list, if it is good enough.
pub fn detect_at(candles: &Vec<Candle>, third: usize, quality: Quality) -> (r: Option<FvgZone>)
    requires
        third < candles@.len(),
    ensures
        r == zone_at(candles@, third as int, quality),
{
    proof {
        reveal(zone_at);
    }
    if third < 2 {
        return None;
    }
    let first = candles[third - 2];
    let middle = candles[third - 1];
    let last = candles[third];
    if !consecutive(first, middle, last) {
        return None;
    }
    let (side, lower, upper) = match gap_between(first, last) {
        Some(gap) => gap,
        None => {
            return None;
        },
    };
    let range = middle.high.sub(middle.low);
    if !moves_with(middle, side) || range.le(Double::zero()) {
        return None;
    }
    let body_ratio = middle.close.sub(middle.open).abs().div(range);
    let atr = match atr_at(candles, third) {
        Some(atr) => atr,
        None => {
            return None;
        },
    };
    let gap_atr = upper.sub(lower).div(atr);
    let displacement_atr = range.div(atr);
    if gap_atr.lt(quality.min_gap_atr) || displacement_atr.lt(quality.min_displacement_atr)
        || body_ratio.lt(quality.min_body_ratio) {
        return None;
    }
    Some(
        FvgZone {
            id: ZoneId {
                timeframe: first.timeframe,
                first_started_at: first.started_at,
                third_started_at: last.started_at,
                side,
            },
            side,
            lower,
            upper,
            created_at: last.started_at.wrapping_add(first.timeframe.seconds()),
            middle_range_atr: displacement_atr,
            middle_body_ratio: body_ratio,
            gap_atr,
        },
    )
}

/// The gaps that end before a place in a list, in order.
pub open spec fn zones_before(candles: Seq<Candle>, end: int, quality: Quality) -> Seq<FvgZone>
    decreases end,
{
    if end <= 2 {
        Seq::empty()
    } else {
        let before = zones_before(candles, end - 1, quality);
        match zone_at(candles, end - 1, quality) {
            Some(zone) => before.push(zone),
            None => before,
        }
    }
}

/// The gaps between the closed candles of a series, in order.
pub open spec fn zones_of(series: Seq<Candle>, now: Double, quality: Quality) -> Seq<FvgZone> {
    let candles = closed_candles(series, now);
    zones_before(candles, candles.len() as int, quality)
}

pub fn detected_zones(bars: &MtfBars, timeframe: Timeframe, now: Double, quality: Quality) -> (r: Vec<
    FvgZone,
>)
    ensures
        r@ == zones_of(bars@.series(timeframe), now, quality),
{
    let candles = listed_closed(bars.series(timeframe), now);
    let mut r: Vec<FvgZone> = Vec::new();
    let mut third: usize = 2;
    while third < candles.len()
        invariant
            2 <= third,
            third <= candles@.len() || third == 2,
            r@ == zones_before(candles@, third as int, quality),
        decreases candles@.len() - third,
    {
        match detect_at(&candles, third, quality) {
            Some(zone) => {
                r.push(zone);
            },
            None => {},
        }
        third = third + 1;
    }
    r
}

/// The five-second gap that ends with a candle of a list, if it is good enough.
#[verifier::opaque]
pub open spec fn s5_zone_at(candles: Seq<Candle>, third: int, config: MtfConfig) -> Option<
    FvgZone,
> {
    let first = candles[third - 2];
    let middle = candles[third - 1];
    let last = candles[third];
    if middle.started_at != first.started_at.wrapping_add(5) || last.started_at
        != middle.started_at.wrapping_add(5) {
        None
    } else {
        match gap_between(first, last) {
            None => None,
            Some((side, lower, upper)) => {
                let range = middle.high.sub(middle.low);
                let body_ratio = middle.close.sub(middle.open).abs().div(range);
                let midpoint = lower.add(upper).div(Double::whole(2));
                if !moves_with(middle, side) || range.le(Double::zero()) || body_ratio.lt(
                    config.s5_min_body_ratio,
                ) || upper.sub(lower).div(midpoint).lt(config.s5_min_gap_pct) {
                    None
                } else {
                    Some(
                        FvgZone {
                            id: ZoneId {
                                timeframe: Timeframe::S5,
                                first_started_at: first.started_at,
                                third_started_at: last.started_at,
                                side,
                            },
                            side,
                            lower,
                            upper,
                            created_at: last.started_at.wrapping_add(5),
                            middle_range_atr: Double::zero(),
                            middle_body_ratio: body_ratio,
                            gap_atr: Double::zero(),
                        },
                    )
                }
            },
        }
    }
}

fn detect_s5_at(candles: &Vec<Candle>, third: usize, config: &MtfConfig) -> (r: Option<FvgZone>)
    requires
        2 <= third < candles@.len(),
    ensures
        r == s5_zone_at(candles@, third as int, *config),
{
    proof {
        reveal(s5_zone_at);
    }
    let first = candles[third - 2];
    let middle = candles[third - 1];
    let last = candles[third];
    if middle.started_at != first.started_at.wrapping_add(5) || last.started_at
        != middle.started_at.wrapping_add(5) {
        return None;
    }
    let (side, lower, upper) = match gap_between(first, last) {
        Some(gap) => gap,
        None => {
            return None;
        },
    };
    let range = middle.high.sub(middle.low);
    let body_ratio = middle.close.sub(middle.open).abs().div(range);
    let midpoint = lower.add(upper).div(Double::whole(2));
    if !moves_with(middle, side) || range.le(Double::zero()) || body_ratio.lt(
        config.s5_min_body_ratio,
    ) || upper.sub(lower).div(midpoint).lt(config.s5_min_gap_pct) {
        return None;
    }
    Some(
        FvgZone {
            id: ZoneId {
                timeframe: Timeframe::S5,
                first_started_at: first.started_at,
                third_started_at: last.started_at,
                side,
            },
            side,
            lower,
            upper,
            created_at: last.started_at.wrapping_add(5),
            middle_range_atr: Double::zero(),
            middle_body_ratio: body_ratio,
            gap_atr: Double::zero(),
        },
    )
}

/// The five-second gaps that end before a place in a list, in order.
pub open spec fn s5_zones_before(candles: Seq<Candle>, end: int, config: MtfConfig) -> Seq<FvgZone>
    decreases end,
{
    if end <= 2 {
        Seq::empty()
    } else {
        let before = s5_zones_before(candles, end - 1, config);
        match s5_zone_at(candles, end - 1, config) {
            Some(zone) => before.push(zone),
            None => before,
        }
    }
}

/// The gaps between closed five-second candles, in order.
pub open spec fn s5_zones_of(series: Seq<Candle>, now: Double, config: MtfConfig) -> Seq<FvgZone> {
    let candles = closed_candles(series, now);
    s5_zones_before(candles, candles.len() as int, config)
}

pub fn detected_s5_zones(bars: &MtfBars, now: Double, config: &MtfConfig) -> (r: Vec<FvgZone>)
    ensures
        r@ == s5_zones_of(bars@.s5, now, *config),
{
    let candles = listed_closed(&bars.s5, now);
    let mut r: Vec<FvgZone> = Vec::new();
    let mut third: usize = 2;
    while third < candles.len()
        invariant
            2 <= third,
            third <= candles@.len() || third == 2,
            r@ == s5_zones_before(candles@, third as int, *config),
        decreases candles@.len() - third,
    {
        match detect_s5_at(&candles, third, config) {
            Some(zone) => {
                r.push(zone);
            },
            None => {},
        }
        third = third + 1;
    }
    r
}

/// The start of the candle after the one that a moment falls into.
pub open spec fn spec_next_boundary(timestamp: i64, timeframe: Timeframe) -> i64 {
    bucket(timestamp, timeframe).wrapping_add(timeframe.seconds())
}

#[verifier::when_used_as_spec(spec_next_boundary)]
pub fn next_boundary(timestamp: i64, timeframe: Timeframe) -> (r: i64)
    ensures
        r == spec_next_boundary(timestamp, timeframe),
{
    bucket(timestamp, timeframe).wrapping_add(timeframe.seconds())
}

/// The next boundary is a whole number of candles after the epoch, later than the moment,
/// and at most one candle later.
pub proof fn next_boundary_is_the_next_multiple(timestamp: i64, timeframe: Timeframe)
    requires
        i64::MIN + 900 <= timestamp <= i64::MAX - 900,
    ensures
        next_boundary(timestamp, timeframe) % timeframe.seconds() == 0,
        timestamp < next_boundary(timestamp, timeframe) <= timestamp + timeframe.seconds(),
{
    let t = timestamp as int;
    let d = timeframe.seconds() as int;
    let q = t / d;
    match timeframe {
        Timeframe::S5 => {
            assert(5 * q <= t < 5 * q + 5);
        },
        Timeframe::M1 => {
            assert(60 * q <= t < 60 * q + 60);
        },
        Timeframe::M15 => {
            assert(900 * q <= t < 900 * q + 900);
        },
    }
    assert(bucket(timestamp, timeframe) == q * d);
    assert((q * d + d) % d == 0) by (nonlinear_arith)
        requires
            d > 0,
    ;
}

} // verus!
