//! The way of one symbol from an M15 context to a retested S5 inversion.
use vstd::prelude::*;
use std::collections::VecDeque;
use crate::double;
use crate::double::Double;
use crate::models::Side;
use crate::mtf_fvg;
use crate::mtf_fvg::{
    BarsView, Candle, FvgZone, MtfBars, MtfConfig, MtfPhase, MtfSetup, Timeframe, ZoneId,
    CONSUMED_MAXLEN,
};

verus! {

/// The edge of a zone, moved out by a share of its price.
pub open spec fn spec_lower_edge(zone: FvgZone, buffer_pct: Double) -> Double {
    zone.lower.mul(Double::one().sub(buffer_pct))
}

#[verifier::when_used_as_spec(spec_lower_edge)]
pub fn lower_edge(zone: FvgZone, buffer_pct: Double) -> (r: Double)
    ensures
        r == spec_lower_edge(zone, buffer_pct),
{
    zone.lower.mul(Double::one().sub(buffer_pct))
}

pub open spec fn spec_upper_edge(zone: FvgZone, buffer_pct: Double) -> Double {
    zone.upper.mul(Double::one().add(buffer_pct))
}

#[verifier::when_used_as_spec(spec_upper_edge)]
pub fn upper_edge(zone: FvgZone, buffer_pct: Double) -> (r: Double)
    ensures
        r == spec_upper_edge(zone, buffer_pct),
{
    zone.upper.mul(Double::one().add(buffer_pct))
}

/// A price range is beyond the far edge of a zone for a side.
pub open spec fn spec_breached(
    side: Side,
    zone: FvgZone,
    low: Double,
    high: Double,
    buffer_pct: Double,
) -> bool {
    match side {
        Side::Long => low.lt(lower_edge(zone, buffer_pct)),
        Side::Short => high.gt(upper_edge(zone, buffer_pct)),
    }
}

#[verifier::when_used_as_spec(spec_breached)]
pub fn breached(side: Side, zone: FvgZone, low: Double, high: Double, buffer_pct: Double) -> (r:
    bool)
    ensures
        r == spec_breached(side, zone, low, high, buffer_pct),
{
    match side {
        Side::Long => low.lt(lower_edge(zone, buffer_pct)),
        Side::Short => high.gt(upper_edge(zone, buffer_pct)),
    }
}

/// A context is void: the mark, or a five-second candle since it formed, is beyond its far
/// edge.
pub open spec fn invalidated(
    context: FvgZone,
    s5: Seq<Candle>,
    mark: Double,
    buffer_pct: Double,
) -> bool {
    breached(context.side, context, mark, mark, buffer_pct) || exists|i: int|
        0 <= i < s5.len() && (#[trigger] s5[i]).started_at >= context.created_at && breached(
            context.side,
            context,
            s5[i].low,
            s5[i].high,
            buffer_pct,
        )
}

fn context_invalidated(context: &FvgZone, bars: &MtfBars, mark: Double, buffer_pct: Double) -> (r:
    bool)
    ensures
        r == invalidated(*context, bars@.s5, mark, buffer_pct),
{
    if breached(context.side, *context, mark, mark, buffer_pct) {
        return true;
    }
    let mut i: usize = 0;
    while i < bars.s5.len()
        invariant
            i <= bars.s5@.len(),
            !breached(context.side, *context, mark, mark, buffer_pct),
            forall|j: int|
                0 <= j < i ==> !((#[trigger] bars.s5@[j]).started_at >= context.created_at
                    && breached(
                    context.side,
                    *context,
                    bars.s5@[j].low,
                    bars.s5@[j].high,
                    buffer_pct,
                )),
        decreases bars.s5@.len() - i,
    {
        let bar = bars.s5[i];
        if bar.started_at >= context.created_at && breached(
            context.side,
            *context,
            bar.low,
            bar.high,
            buffer_pct,
        ) {
            assert(bars@.s5[i as int] == bar);
            return true;
        }
        i = i + 1;
    }
    false
}

/// A candle trades inside a zone.
pub open spec fn spec_zone_intersects(candle: Candle, zone: FvgZone) -> bool {
    candle.low.le(zone.upper) && candle.high.ge(zone.lower)
}

#[verifier::when_used_as_spec(spec_zone_intersects)]
pub fn zone_intersects(candle: Candle, zone: FvgZone) -> (r: bool)
    ensures
        r == spec_zone_intersects(candle, zone),
{
    candle.low.le(zone.upper) && candle.high.ge(zone.lower)
}

/// A candle since a zone formed has traded inside it.
pub open spec fn revisited(series: Seq<Candle>, zone: FvgZone) -> bool {
    exists|i: int|
        0 <= i < series.len() && (#[trigger] series[i]).started_at >= zone.created_at
            && zone_intersects(series[i], zone)
}

fn is_revisited(series: &VecDeque<Candle>, zone: &FvgZone) -> (r: bool)
    ensures
        r == revisited(series@, *zone),
{
    let mut i: usize = 0;
    while i < series.len()
        invariant
            i <= series@.len(),
            forall|j: int|
                0 <= j < i ==> !((#[trigger] series@[j]).started_at >= zone.created_at
                    && zone_intersects(series@[j], *zone)),
        decreases series@.len() - i,
    {
        let bar = series[i];
        if bar.started_at >= zone.created_at && zone_intersects(bar, *zone) {
            assert(series@[i as int] == bar);
            return true;
        }
        i = i + 1;
    }
    false
}

/// A tracker by its contents.
#[verifier::ext_equal]
pub struct TrackerView {
    pub phase: MtfPhase,
    pub consumed: Seq<ZoneId>,
    pub reason: Seq<char>,
}

/// The contexts that count as used once one more is.
pub open spec fn with_consumed(consumed: Seq<ZoneId>, id: ZoneId) -> Seq<ZoneId> {
    let kept = if consumed.len() >= CONSUMED_MAXLEN {
        consumed.drop_first()
    } else {
        consumed
    };
    if kept.contains(id) {
        kept
    } else {
        kept.push(id)
    }
}

/// The age of a context in seconds is within the limit.
pub open spec fn spec_young(created_at: i64, timestamp: i64, config: MtfConfig) -> bool {
    timestamp.wrapping_sub(created_at) <= config.m15_max_age_bars.wrapping_mul(
        Timeframe::M15.seconds(),
    )
}

#[verifier::when_used_as_spec(spec_young)]
pub fn young(created_at: i64, timestamp: i64, config: MtfConfig) -> (r: bool)
    ensures
        r == spec_young(created_at, timestamp, config),
{
    timestamp.wrapping_sub(created_at) <= config.m15_max_age_bars.wrapping_mul(
        Timeframe::M15.seconds(),
    )
}

/// A gap can be the context of a setup: young enough, from a time with complete history,
/// not used before and not traded into since.
pub open spec fn eligible(
    zone: FvgZone,
    bars: BarsView,
    consumed: Seq<ZoneId>,
    timestamp: i64,
    config: MtfConfig,
) -> bool {
    &&& young(zone.created_at, timestamp, config)
    &&& (bars.valid_from matches Some(from) ==> zone.created_at >= from)
    &&& !consumed.contains(zone.id)
    &&& !revisited(bars.m15, zone)
}

/// The newest gap that can be a context.
pub open spec fn newest_context(
    zones: Seq<FvgZone>,
    bars: BarsView,
    consumed: Seq<ZoneId>,
    timestamp: i64,
    config: MtfConfig,
) -> Option<FvgZone>
    decreases zones.len(),
{
    if zones.len() == 0 {
        None
    } else if eligible(zones.last(), bars, consumed, timestamp, config) {
        Some(zones.last())
    } else {
        newest_context(zones.drop_last(), bars, consumed, timestamp, config)
    }
}

/// The mark is on the side from which a context is to be approached.
pub open spec fn spec_outside(context: FvgZone, mark: Double) -> bool {
    match context.side {
        Side::Long => mark.gt(context.upper),
        Side::Short => mark.lt(context.lower),
    }
}

#[verifier::when_used_as_spec(spec_outside)]
pub fn outside(context: FvgZone, mark: Double) -> (r: bool)
    ensures
        r == spec_outside(context, mark),
{
    match context.side {
        Side::Long => mark.gt(context.upper),
        Side::Short => mark.lt(context.lower),
    }
}

/// A five-second candle since a context formed was on the side from which it is to be
/// approached.
pub open spec fn seen_outside(context: FvgZone, s5: Seq<Candle>) -> bool {
    exists|i: int|
        0 <= i < s5.len() && (#[trigger] s5[i]).started_at >= context.created_at && (
        match context.side {
            Side::Long => s5[i].high.gt(context.upper),
            Side::Short => s5[i].low.lt(context.lower),
        })
}

fn was_outside(context: &FvgZone, s5: &VecDeque<Candle>) -> (r: bool)
    ensures
        r == seen_outside(*context, s5@),
{
    let mut i: usize = 0;
    while i < s5.len()
        invariant
            i <= s5@.len(),
            forall|j: int|
                0 <= j < i ==> !((#[trigger] s5@[j]).started_at >= context.created_at && (
                match context.side {
                    Side::Long => s5@[j].high.gt(context.upper),
                    Side::Short => s5@[j].low.lt(context.lower),
                })),
        decreases s5@.len() - i,
    {
        let bar = s5[i];
        let out = match context.side {
            Side::Long => bar.high.gt(context.upper),
            Side::Short => bar.low.lt(context.lower),
        };
        if bar.started_at >= context.created_at && out {
            assert(s5@[i as int] == bar);
            return true;
        }
        i = i + 1;
    }
    false
}

/// The market is inside a context: the mark, or the last five-second candle.
pub open spec fn touching(context: FvgZone, s5: Seq<Candle>, mark: Double) -> bool {
    ||| mark.ge(context.lower) && mark.le(context.upper)
    ||| s5.len() > 0 && s5.last().started_at >= context.created_at && zone_intersects(
        s5.last(),
        context,
    )
}

fn is_touching(context: &FvgZone, s5: &VecDeque<Candle>, mark: Double) -> (r: bool)
    ensures
        r == touching(*context, s5@, mark),
{
    if mark.ge(context.lower) && mark.le(context.upper) {
        return true;
    }
    let n = s5.len();
    if n == 0 {
        return false;
    }
    let last = s5[n - 1];
    last.started_at >= context.created_at && zone_intersects(last, *context)
}

/// The first gap that confirms a context in time.
pub open spec fn first_confirmation(
    zones: Seq<FvgZone>,
    side: Side,
    first_eligible: i64,
    deadline: i64,
) -> Option<FvgZone>
    decreases zones.len(),
{
    if zones.len() == 0 {
        None
    } else {
        let zone = zones[0];
        if zone.side == side && zone.id.first_started_at >= first_eligible && zone.created_at
            <= deadline {
            Some(zone)
        } else {
            first_confirmation(zones.drop_first(), side, first_eligible, deadline)
        }
    }
}

fn find_confirmation(zones: &Vec<FvgZone>, side: Side, first_eligible: i64, deadline: i64) -> (r:
    Option<FvgZone>)
    ensures
        r == first_confirmation(zones@, side, first_eligible, deadline),
{
    let mut i: usize = 0;
    assert(zones@.skip(0) =~= zones@);
    while i < zones.len()
        invariant
            i <= zones@.len(),
            first_confirmation(zones@, side, first_eligible, deadline) == first_confirmation(
                zones@.skip(i as int),
                side,
                first_eligible,
                deadline,
            ),
        decreases zones@.len() - i,
    {
        let zone = zones[i];
        assert(zones@.skip(i as int)[0] == zone);
        assert(zones@.skip(i as int).drop_first() =~= zones@.skip(i + 1));
        if zone.side == side && zone.id.first_started_at >= first_eligible && zone.created_at
            <= deadline {
            return Some(zone);
        }
        i = i + 1;
    }
    None
}

/// How far the mark is from a zone.
pub open spec fn spec_distance(zone: FvgZone, mark: Double) -> Double {
    if mark.lt(zone.lower) {
        zone.lower.sub(mark)
    } else if mark.gt(zone.upper) {
        mark.sub(zone.upper)
    } else {
        Double::zero()
    }
}

#[verifier::when_used_as_spec(spec_distance)]
pub fn distance(zone: FvgZone, mark: Double) -> (r: Double)
    ensures
        r == spec_distance(zone, mark),
{
    if mark.lt(zone.lower) {
        zone.lower.sub(mark)
    } else if mark.gt(zone.upper) {
        mark.sub(zone.upper)
    } else {
        Double::zero()
    }
}

/// The gap nearest to the mark that can trigger a setup; of equally near ones the first.
pub open spec fn nearest_trigger(
    zones: Seq<FvgZone>,
    side: Side,
    from: i64,
    deadline: i64,
    mark: Double,
) -> Option<FvgZone>
    decreases zones.len(),
{
    if zones.len() == 0 {
        None
    } else {
        let best = nearest_trigger(zones.drop_last(), side, from, deadline, mark);
        let zone = zones.last();
        if !(zone.side == side && zone.id.first_started_at >= from && zone.created_at <= deadline) {
            best
        } else {
            match best {
                Some(b) => if double::rank(distance(zone, mark)) < double::rank(
                    distance(b, mark),
                ) {
                    Some(zone)
                } else {
                    best
                },
                None => Some(zone),
            }
        }
    }
}

fn find_trigger(zones: &Vec<FvgZone>, side: Side, from: i64, deadline: i64, mark: Double) -> (r:
    Option<FvgZone>)
    ensures
        r == nearest_trigger(zones@, side, from, deadline, mark),
{
    let mut best: Option<FvgZone> = None;
    let mut i: usize = 0;
    while i < zones.len()
        invariant
            i <= zones@.len(),
            best == nearest_trigger(zones@.take(i as int), side, from, deadline, mark),
        decreases zones@.len() - i,
    {
        assert(zones@.take(i + 1).drop_last() =~= zones@.take(i as int));
        let zone = zones[i];
        if zone.side == side && zone.id.first_started_at >= from && zone.created_at <= deadline {
            best = match best {
                Some(b) => if distance(zone, mark).total_lt(distance(b, mark)) {
                    Some(zone)
                } else {
                    Some(b)
                },
                None => Some(zone),
            };
        }
        i = i + 1;
    }
    assert(zones@.take(i as int) =~= zones@);
    best
}

/// A closed candle since trigger and confirmation formed closes beyond the trigger, in the
/// direction of the setup.
pub open spec fn spec_inverts(
    bar: Candle,
    side: Side,
    trigger: FvgZone,
    confirmation: FvgZone,
    now: Double,
) -> bool {
    &&& bar.is_closed(now)
    &&& bar.started_at >= trigger.created_at
    &&& bar.started_at >= confirmation.created_at
    &&& match side {
        Side::Long => bar.close.gt(trigger.upper),
        Side::Short => bar.close.lt(trigger.lower),
    }
}

#[verifier::when_used_as_spec(spec_inverts)]
pub fn inverts(bar: Candle, side: Side, trigger: FvgZone, confirmation: FvgZone, now: Double) -> (r:
    bool)
    ensures
        r == spec_inverts(bar, side, trigger, confirmation, now),
{
    bar.is_closed(now) && bar.started_at >= trigger.created_at && bar.started_at
        >= confirmation.created_at && match side {
        Side::Long => bar.close.gt(trigger.upper),
        Side::Short => bar.close.lt(trigger.lower),
    }
}

/// The first candle that inverts a trigger.
pub open spec fn first_inversion(
    s5: Seq<Candle>,
    side: Side,
    trigger: FvgZone,
    confirmation: FvgZone,
    now: Double,
) -> Option<Candle>
    decreases s5.len(),
{
    if s5.len() == 0 {
        None
    } else if inverts(s5[0], side, trigger, confirmation, now) {
        Some(s5[0])
    } else {
        first_inversion(s5.drop_first(), side, trigger, confirmation, now)
    }
}

fn find_inversion(
    s5: &VecDeque<Candle>,
    side: Side,
    trigger: FvgZone,
    confirmation: FvgZone,
    now: Double,
) -> (r: Option<Candle>)
    ensures
        r == first_inversion(s5@, side, trigger, confirmation, now),
{
    let mut i: usize = 0;
    assert(s5@.skip(0) =~= s5@);
    while i < s5.len()
        invariant
            i <= s5@.len(),
            first_inversion(s5@, side, trigger, confirmation, now) == first_inversion(
                s5@.skip(i as int),
                side,
                trigger,
                confirmation,
                now,
            ),
        decreases s5@.len() - i,
    {
        let bar = s5[i];
        assert(s5@.skip(i as int)[0] == bar);
        assert(s5@.skip(i as int).drop_first() =~= s5@.skip(i + 1));
        if inverts(bar, side, trigger, confirmation, now) {
            return Some(bar);
        }
        i = i + 1;
    }
    None
}

/// How the wait for a retest ends.
#[derive(Clone, Copy, Debug, PartialEq, Eq, Structural)]
pub enum Retest {
    /// The far edge of the trigger was breached first.
    Breached,
    /// A candle reached the entry level and closed on the right side of it.
    Held { started_at: i64 },
}

/// The price at which an inverted trigger counts as retested.
pub open spec fn spec_entry_price(side: Side, trigger: FvgZone, depth: Double) -> Double {
    let gap = trigger.upper.sub(trigger.lower);
    match side {
        Side::Long => trigger.upper.sub(gap.mul(depth)),
        Side::Short => trigger.lower.add(gap.mul(depth)),
    }
}

#[verifier::when_used_as_spec(spec_entry_price)]
pub fn entry_price(side: Side, trigger: FvgZone, depth: Double) -> (r: Double)
    ensures
        r == spec_entry_price(side, trigger, depth),
{
    let gap = trigger.upper.sub(trigger.lower);
    match side {
        Side::Long => trigger.upper.sub(gap.mul(depth)),
        Side::Short => trigger.lower.add(gap.mul(depth)),
    }
}

/// What one candle says about the retest; a breach wins over a retest.
pub open spec fn spec_retest_by(
    bar: Candle,
    side: Side,
    trigger: FvgZone,
    inverted_at: i64,
    deadline: i64,
    now: Double,
    config: MtfConfig,
) -> Option<Retest> {
    let level = entry_price(side, trigger, config.s5_entry_depth);
    if !(bar.is_closed(now) && bar.started_at > inverted_at && bar.started_at <= deadline) {
        None
    } else if breached(side, trigger, bar.low, bar.high, config.invalidation_buffer_pct) {
        Some(Retest::Breached)
    } else if match side {
        Side::Long => bar.low.le(level) && bar.close.ge(level),
        Side::Short => bar.high.ge(level) && bar.close.le(level),
    } {
        Some(Retest::Held { started_at: bar.started_at })
    } else {
        None
    }
}

#[verifier::when_used_as_spec(spec_retest_by)]
pub fn retest_by(
    bar: Candle,
    side: Side,
    trigger: FvgZone,
    inverted_at: i64,
    deadline: i64,
    now: Double,
    config: MtfConfig,
) -> (r: Option<Retest>)
    ensures
        r == spec_retest_by(bar, side, trigger, inverted_at, deadline, now, config),
{
    let level = entry_price(side, trigger, config.s5_entry_depth);
    if !(bar.is_closed(now) && bar.started_at > inverted_at && bar.started_at <= deadline) {
        return None;
    }
    if breached(side, trigger, bar.low, bar.high, config.invalidation_buffer_pct) {
        return Some(Retest::Breached);
    }
    let held = match side {
        Side::Long => bar.low.le(level) && bar.close.ge(level),
        Side::Short => bar.high.ge(level) && bar.close.le(level),
    };
    if held {
        Some(Retest::Held { started_at: bar.started_at })
    } else {
        None
    }
}

/// How the wait for a retest ends, if it does.
pub open spec fn first_retest(
    s5: Seq<Candle>,
    side: Side,
    trigger: FvgZone,
    inverted_at: i64,
    deadline: i64,
    now: Double,
    config: MtfConfig,
) -> Option<Retest>
    decreases s5.len(),
{
    if s5.len() == 0 {
        None
    } else {
        match retest_by(s5[0], side, trigger, inverted_at, deadline, now, config) {
            Some(end) => Some(end),
            None => first_retest(
                s5.drop_first(),
                side,
                trigger,
                inverted_at,
                deadline,
                now,
                config,
            ),
        }
    }
}

fn find_retest(
    s5: &VecDeque<Candle>,
    side: Side,
    trigger: FvgZone,
    inverted_at: i64,
    deadline: i64,
    now: Double,
    config: &MtfConfig,
) -> (r: Option<Retest>)
    ensures
        r == first_retest(s5@, side, trigger, inverted_at, deadline, now, *config),
{
    let mut i: usize = 0;
    assert(s5@.skip(0) =~= s5@);
    while i < s5.len()
        invariant
            i <= s5@.len(),
            first_retest(s5@, side, trigger, inverted_at, deadline, now, *config)
                == first_retest(
                s5@.skip(i as int),
                side,
                trigger,
                inverted_at,
                deadline,
                now,
                *config,
            ),
        decreases s5@.len() - i,
    {
        let bar = s5[i];
        assert(s5@.skip(i as int)[0] == bar);
        assert(s5@.skip(i as int).drop_first() =~= s5@.skip(i + 1));
        match retest_by(bar, side, trigger, inverted_at, deadline, now, *config) {
            Some(end) => {
                return Some(end);
            },
            None => {},
        }
        i = i + 1;
    }
    None
}

impl TrackerView {
    pub open spec fn start() -> TrackerView {
        TrackerView {
            phase: MtfPhase::WaitingContext,
            consumed: Seq::empty(),
            reason: "waiting for M15 context"@,
        }
    }

    /// A context is used up, and the wait starts over.
    pub open spec fn dropping(self, context: FvgZone, reason: Seq<char>) -> TrackerView {
        TrackerView {
            phase: MtfPhase::WaitingContext,
            consumed: with_consumed(self.consumed, context.id),
            reason,
        }
    }

    pub open spec fn entering(self, phase: MtfPhase, reason: Seq<char>) -> TrackerView {
        TrackerView { phase, reason, ..self }
    }

    /// Waiting for a context: the newest eligible M15 gap becomes one.
    pub open spec fn after_context(
        self,
        bars: BarsView,
        now: Double,
        mark: Double,
        config: MtfConfig,
    ) -> TrackerView {
        match newest_context(
            mtf_fvg::zones_of(bars.m15, now, config.m15_quality()),
            bars,
            self.consumed,
            now.floor(),
            config,
        ) {
            Some(context) => self.entering(
                MtfPhase::WaitingContextTouch { context, approached: outside(context, mark) },
                context.side.name() + " context armed"@,
            ),
            None => self,
        }
    }

    /// Waiting for the first touch of a context: it counts only once the market has been on
    /// the side from which the context is to be approached.
    pub open spec fn after_touch(
        self,
        context: FvgZone,
        approached: bool,
        bars: BarsView,
        now: Double,
        mark: Double,
        config: MtfConfig,
    ) -> TrackerView {
        let timestamp = now.floor();
        let near = approached || outside(context, mark) || seen_outside(context, bars.s5);
        let eligible_from = mtf_fvg::next_boundary(timestamp, Timeframe::M1);
        if !young(context.created_at, timestamp, config) {
            self.dropping(context, "M15 context expired"@)
        } else if invalidated(context, bars.s5, mark, config.invalidation_buffer_pct) {
            self.dropping(context, "M15 context invalidated"@)
        } else if near && touching(context, bars.s5, mark) {
            self.entering(
                MtfPhase::WaitingM1 {
                    context,
                    touched_at: timestamp,
                    first_eligible_m1: eligible_from,
                    deadline: eligible_from.wrapping_add(
                        config.m1_confirmation_bars.wrapping_mul(Timeframe::M1.seconds()),
                    ),
                },
                "M15 first touch confirmed"@,
            )
        } else {
            self.entering(
                MtfPhase::WaitingContextTouch { context, approached: near },
                self.reason,
            )
        }
    }

    /// Waiting for an M1 gap on the side of the context.
    pub open spec fn after_m1(
        self,
        context: FvgZone,
        touched_at: i64,
        first_eligible_m1: i64,
        deadline: i64,
        bars: BarsView,
        now: Double,
        mark: Double,
        config: MtfConfig,
    ) -> TrackerView {
        if invalidated(context, bars.s5, mark, config.invalidation_buffer_pct) {
            self.dropping(context, "M15 invalidated while waiting for M1"@)
        } else if now.floor() > deadline {
            self.dropping(context, "M1 confirmation expired"@)
        } else {
            match first_confirmation(
                mtf_fvg::zones_of(bars.m1, now, config.m1_quality()),
                context.side,
                first_eligible_m1,
                deadline,
            ) {
                Some(confirmation) => self.entering(
                    MtfPhase::WaitingS5Candidate {
                        context,
                        confirmation,
                        touched_at,
                        deadline: confirmation.created_at.wrapping_add(
                            config.s5_inversion_bars.wrapping_mul(Timeframe::S5.seconds()),
                        ),
                    },
                    "aligned M1 FVG confirmed"@,
                ),
                None => self,
            }
        }
    }

    /// Waiting for an S5 gap against the context.
    pub open spec fn after_candidate(
        self,
        context: FvgZone,
        confirmation: FvgZone,
        touched_at: i64,
        deadline: i64,
        bars: BarsView,
        now: Double,
        mark: Double,
        config: MtfConfig,
    ) -> TrackerView {
        if invalidated(context, bars.s5, mark, config.invalidation_buffer_pct) {
            self.dropping(context, "M15 invalidated before S5 trigger"@)
        } else if now.floor() > deadline {
            self.dropping(context, "S5 candidate expired"@)
        } else {
            match nearest_trigger(
                mtf_fvg::s5_zones_of(bars.s5, now, config),
                context.side.inverted(),
                confirmation.created_at,
                deadline,
                mark,
            ) {
                Some(trigger) => self.entering(
                    MtfPhase::WaitingS5Inversion {
                        context,
                        confirmation,
                        trigger,
                        touched_at,
                        deadline: trigger.created_at.wrapping_add(
                            config.s5_inversion_bars.wrapping_mul(Timeframe::S5.seconds()),
                        ),
                    },
                    "opposing S5 FVG selected"@,
                ),
                None => self,
            }
        }
    }

    /// Waiting for the S5 gap to fail.
    pub open spec fn after_inversion(
        self,
        context: FvgZone,
        confirmation: FvgZone,
        trigger: FvgZone,
        touched_at: i64,
        deadline: i64,
        bars: BarsView,
        now: Double,
        mark: Double,
        config: MtfConfig,
    ) -> TrackerView {
        if invalidated(context, bars.s5, mark, config.invalidation_buffer_pct) {
            self.dropping(context, "M15 invalidated before S5 inversion"@)
        } else if now.floor() > deadline {
            self.dropping(context, "S5 inversion expired"@)
        } else {
            match first_inversion(bars.s5, context.side, trigger, confirmation, now) {
                Some(bar) => self.entering(
                    MtfPhase::WaitingS5Retest {
                        context,
                        confirmation,
                        trigger,
                        touched_at,
                        inverted_at: bar.started_at,
                        deadline: bar.started_at.wrapping_add(
                            Timeframe::S5.seconds(),
                        ).wrapping_add(
                            config.s5_retest_bars.wrapping_mul(Timeframe::S5.seconds()),
                        ),
                    },
                    "S5 FVG inverted"@,
                ),
                None => self,
            }
        }
    }

    /// Waiting for the failed gap to be retested.
    pub open spec fn after_retest(
        self,
        context: FvgZone,
        confirmation: FvgZone,
        trigger: FvgZone,
        touched_at: i64,
        inverted_at: i64,
        deadline: i64,
        bars: BarsView,
        now: Double,
        mark: Double,
        config: MtfConfig,
    ) -> TrackerView {
        if invalidated(context, bars.s5, mark, config.invalidation_buffer_pct) {
            self.dropping(context, "M15 invalidated before iFVG retest"@)
        } else if now.floor() > deadline {
            self.dropping(context, "S5 iFVG retest expired"@)
        } else {
            match first_retest(
                bars.s5,
                context.side,
                trigger,
                inverted_at,
                deadline,
                now,
                config,
            ) {
                Some(Retest::Breached) => self.dropping(
                    context,
                    "S5 iFVG invalidated before retest"@,
                ),
                Some(Retest::Held { started_at }) => self.entering(
                    MtfPhase::Ready(
                        MtfSetup {
                            side: context.side,
                            context,
                            confirmation,
                            trigger,
                            context_touched_at: touched_at,
                            inverted_at,
                            retested_at: started_at,
                            entry_deadline: started_at.wrapping_add(20),
                            entry_level: entry_price(
                                context.side,
                                trigger,
                                config.s5_entry_depth,
                            ),
                        },
                    ),
                    "S5 iFVG retest confirmed"@,
                ),
                None => self,
            }
        }
    }

    /// A complete setup lasts until its deadline, unless trigger or context are breached.
    pub open spec fn after_ready(
        self,
        setup: MtfSetup,
        bars: BarsView,
        now: Double,
        mark: Double,
        config: MtfConfig,
    ) -> TrackerView {
        let buffer = config.invalidation_buffer_pct;
        if now.floor() > setup.entry_deadline || breached(
            setup.side,
            setup.trigger,
            mark,
            mark,
            buffer,
        ) || invalidated(setup.context, bars.s5, mark, buffer) {
            self.dropping(setup.context, "entry-ready setup expired or invalidated"@)
        } else {
            self
        }
    }

    /// The tracker after one look at the candles and the mark.
    pub open spec fn advanced(
        self,
        bars: BarsView,
        now: Double,
        mark: Double,
        config: MtfConfig,
    ) -> TrackerView {
        match self.phase {
            MtfPhase::WaitingContext => self.after_context(bars, now, mark, config),
            MtfPhase::WaitingContextTouch { context, approached } => self.after_touch(
                context,
                approached,
                bars,
                now,
                mark,
                config,
            ),
            MtfPhase::WaitingM1 { context, touched_at, first_eligible_m1, deadline } =>
            self.after_m1(
                context,
                touched_at,
                first_eligible_m1,
                deadline,
                bars,
                now,
                mark,
                config,
            ),
            MtfPhase::WaitingS5Candidate { context, confirmation, touched_at, deadline } =>
            self.after_candidate(
                context,
                confirmation,
                touched_at,
                deadline,
                bars,
                now,
                mark,
                config,
            ),
            MtfPhase::WaitingS5Inversion {
                context,
                confirmation,
                trigger,
                touched_at,
                deadline,
            } => self.after_inversion(
                context,
                confirmation,
                trigger,
                touched_at,
                deadline,
                bars,
                now,
                mark,
                config,
            ),
            MtfPhase::WaitingS5Retest {
                context,
                confirmation,
                trigger,
                touched_at,
                inverted_at,
                deadline,
            } => self.after_retest(
                context,
                confirmation,
                trigger,
                touched_at,
                inverted_at,
                deadline,
                bars,
                now,
                mark,
                config,
            ),
            MtfPhase::Ready(setup) => self.after_ready(setup, bars, now, mark, config),
        }
    }
}

/// The setup tracker of one symbol.
#[derive(Debug)]
pub struct MtfFvgTracker {
    pub phase: MtfPhase,
    pub consumed_contexts: VecDeque<ZoneId>,
    pub last_reason: String,
}

/// A phase by name.
pub open spec fn phase_label(phase: MtfPhase) -> Seq<char> {
    match phase {
        MtfPhase::WaitingContext => "WAIT_M15_CONTEXT"@,
        MtfPhase::WaitingContextTouch { .. } => "WAIT_M15_TOUCH"@,
        MtfPhase::WaitingM1 { .. } => "WAIT_M1_CONFIRMATION"@,
        MtfPhase::WaitingS5Candidate { .. } => "WAIT_S5_FVG"@,
        MtfPhase::WaitingS5Inversion { .. } => "WAIT_S5_INVERSION"@,
        MtfPhase::WaitingS5Retest { .. } => "WAIT_S5_RETEST"@,
        MtfPhase::Ready(_) => "ENTRY_READY"@,
    }
}

fn holds(ids: &VecDeque<ZoneId>, id: ZoneId) -> (r: bool)
    ensures
        r == ids@.contains(id),
{
    let mut i: usize = 0;
    while i < ids.len()
        invariant
            i <= ids@.len(),
            forall|j: int| 0 <= j < i ==> #[trigger] ids@[j] != id,
        decreases ids@.len() - i,
    {
        if ids[i] == id {
            assert(ids@[i as int] == id);
            return true;
        }
        i = i + 1;
    }
    false
}

impl Default for MtfFvgTracker {
    /// A tracker that waits for a context.
    fn default() -> (r: MtfFvgTracker)
        ensures
            r@ == TrackerView::start(),
    {
        MtfFvgTracker::new()
    }
}

impl MtfFvgTracker {
    pub open spec fn view(&self) -> TrackerView {
        TrackerView {
            phase: self.phase,
            consumed: self.consumed_contexts@,
            reason: self.last_reason@,
        }
    }

    pub fn new() -> (r: MtfFvgTracker)
        ensures
            r@ == TrackerView::start(),
    {
        MtfFvgTracker {
            phase: MtfPhase::WaitingContext,
            consumed_contexts: VecDeque::new(),
            last_reason: "waiting for M15 context".to_owned(),
        }
    }

    fn consume(&mut self, context: &FvgZone, reason: &str)
        ensures
            final(self)@ == old(self)@.dropping(*context, reason@),
    {
        if self.consumed_contexts.len() >= CONSUMED_MAXLEN {
            let _ = self.consumed_contexts.pop_front();
            assert(self.consumed_contexts@ =~= old(self).consumed_contexts@.drop_first());
        }
        if !holds(&self.consumed_contexts, context.id) {
            self.consumed_contexts.push_back(context.id);
        }
        self.phase = MtfPhase::WaitingContext;
        self.last_reason = reason.to_owned();
    }

    fn enter(&mut self, phase: MtfPhase, reason: &str)
        ensures
            final(self)@ == old(self)@.entering(phase, reason@),
    {
        self.phase = phase;
        self.last_reason = reason.to_owned();
    }

    /// Uses the context of a complete setup up, once the setup was entered.
    pub fn mark_entry_consumed(&mut self)
        ensures
            final(self)@ == (match old(self)@.phase {
                MtfPhase::Ready(setup) => old(self)@.dropping(setup.context, "setup entered"@),
                _ => old(self)@,
            }),
    {
        match self.phase {
            MtfPhase::Ready(setup) => self.consume(&setup.context, "setup entered"),
            _ => {},
        }
    }

    /// Uses the context of a complete setup up, because the setup was rejected.
    pub fn reject_ready(&mut self, reason: &str)
        ensures
            final(self)@ == (match old(self)@.phase {
                MtfPhase::Ready(setup) => old(self)@.dropping(setup.context, reason@),
                _ => old(self)@,
            }),
    {
        match self.phase {
            MtfPhase::Ready(setup) => self.consume(&setup.context, reason),
            _ => {},
        }
    }

    /// The setup, once it is complete.
    pub fn ready(&self) -> (r: Option<&MtfSetup>)
        ensures
            match r {
                Some(setup) => self@.phase == MtfPhase::Ready(*setup),
                None => !(self@.phase is Ready),
            },
    {
        match &self.phase {
            MtfPhase::Ready(setup) => Some(setup),
            _ => None,
        }
    }

    pub fn phase_name(&self) -> (r: &'static str)
        ensures
            r@ == phase_label(self@.phase),
    {
        match self.phase {
            MtfPhase::WaitingContext => "WAIT_M15_CONTEXT",
            MtfPhase::WaitingContextTouch { .. } => "WAIT_M15_TOUCH",
            MtfPhase::WaitingM1 { .. } => "WAIT_M1_CONFIRMATION",
            MtfPhase::WaitingS5Candidate { .. } => "WAIT_S5_FVG",
            MtfPhase::WaitingS5Inversion { .. } => "WAIT_S5_INVERSION",
            MtfPhase::WaitingS5Retest { .. } => "WAIT_S5_RETEST",
            MtfPhase::Ready(_) => "ENTRY_READY",
        }
    }

    fn find_context(&self, bars: &MtfBars, now: Double, config: &MtfConfig) -> (r: Option<FvgZone>)
        ensures
            r == newest_context(
                mtf_fvg::zones_of(bars@.m15, now, config.m15_quality()),
                bars@,
                self@.consumed,
                now.floor(),
                *config,
            ),
    {
        let timestamp = now.floor();
        let zones = mtf_fvg::detected_zones(bars, Timeframe::M15, now, config.m15_quality());
        let mut n = zones.len();
        assert(zones@.take(n as int) =~= zones@);
        while n > 0
            invariant
                n <= zones@.len(),
                timestamp == now.floor(),
                zones@ == mtf_fvg::zones_of(bars@.m15, now, config.m15_quality()),
                newest_context(zones@, bars@, self@.consumed, timestamp, *config)
                    == newest_context(
                    zones@.take(n as int),
                    bars@,
                    self@.consumed,
                    timestamp,
                    *config,
                ),
            decreases n,
        {
            let zone = zones[n - 1];
            assert(zones@.take(n as int).last() == zone);
            assert(zones@.take(n as int).drop_last() =~= zones@.take(n - 1));
            let complete = match bars.valid_from {
                Some(from) => zone.created_at >= from,
                None => true,
            };
            if young(zone.created_at, timestamp, *config) && complete && !holds(
                &self.consumed_contexts,
                zone.id,
            ) && !is_revisited(&bars.m15, &zone) {
                return Some(zone);
            }
            n = n - 1;
        }
        None
    }

    fn advance_touch(
        &mut self,
        context: FvgZone,
        approached: bool,
        bars: &MtfBars,
        now: Double,
        mark: Double,
        config: &MtfConfig,
    )
        ensures
            final(self)@ == old(self)@.after_touch(context, approached, bars@, now, mark, *config),
    {
        let timestamp = now.floor();
        if !young(context.created_at, timestamp, *config) {
            self.consume(&context, "M15 context expired");
            return;
        }
        if context_invalidated(&context, bars, mark, config.invalidation_buffer_pct) {
            self.consume(&context, "M15 context invalidated");
            return;
        }
        let near = approached || outside(context, mark) || was_outside(&context, &bars.s5);
        if near && is_touching(&context, &bars.s5, mark) {
            let first_eligible_m1 = mtf_fvg::next_boundary(timestamp, Timeframe::M1);
            let deadline = first_eligible_m1.wrapping_add(
                config.m1_confirmation_bars.wrapping_mul(Timeframe::M1.seconds()),
            );
            self.enter(
                MtfPhase::WaitingM1 {
                    context,
                    touched_at: timestamp,
                    first_eligible_m1,
                    deadline,
                },
                "M15 first touch confirmed",
            );
        } else {
            self.phase = MtfPhase::WaitingContextTouch { context, approached: near };
        }
    }

    fn advance_m1(
        &mut self,
        context: FvgZone,
        touched_at: i64,
        first_eligible_m1: i64,
        deadline: i64,
        bars: &MtfBars,
        now: Double,
        mark: Double,
        config: &MtfConfig,
    )
        ensures
            final(self)@ == old(self)@.after_m1(
                context,
                touched_at,
                first_eligible_m1,
                deadline,
                bars@,
                now,
                mark,
                *config,
            ),
    {
        if context_invalidated(&context, bars, mark, config.invalidation_buffer_pct) {
            self.consume(&context, "M15 invalidated while waiting for M1");
            return;
        }
        if now.floor() > deadline {
            self.consume(&context, "M1 confirmation expired");
            return;
        }
        let zones = mtf_fvg::detected_zones(bars, Timeframe::M1, now, config.m1_quality());
        match find_confirmation(&zones, context.side, first_eligible_m1, deadline) {
            Some(confirmation) => {
                let deadline = confirmation.created_at.wrapping_add(
                    config.s5_inversion_bars.wrapping_mul(Timeframe::S5.seconds()),
                );
                self.enter(
                    MtfPhase::WaitingS5Candidate { context, confirmation, touched_at, deadline },
                    "aligned M1 FVG confirmed",
                );
            },
            None => {},
        }
    }

    fn advance_candidate(
        &mut self,
        context: FvgZone,
        confirmation: FvgZone,
        touched_at: i64,
        deadline: i64,
        bars: &MtfBars,
        now: Double,
        mark: Double,
        config: &MtfConfig,
    )
        ensures
            final(self)@ == old(self)@.after_candidate(
                context,
                confirmation,
                touched_at,
                deadline,
                bars@,
                now,
                mark,
                *config,
            ),
    {
        if context_invalidated(&context, bars, mark, config.invalidation_buffer_pct) {
            self.consume(&context, "M15 invalidated before S5 trigger");
            return;
        }
        if now.floor() > deadline {
            self.consume(&context, "S5 candidate expired");
            return;
        }
        let zones = mtf_fvg::detected_s5_zones(bars, now, config);
        let opposite = context.side.inverted();
        match find_trigger(&zones, opposite, confirmation.created_at, deadline, mark) {
            Some(trigger) => {
                let deadline = trigger.created_at.wrapping_add(
                    config.s5_inversion_bars.wrapping_mul(Timeframe::S5.seconds()),
                );
                self.enter(
                    MtfPhase::WaitingS5Inversion {
                        context,
                        confirmation,
                        trigger,
                        touched_at,
                        deadline,
                    },
                    "opposing S5 FVG selected",
                );
            },
            None => {},
        }
    }

    fn advance_inversion(
        &mut self,
        context: FvgZone,
        confirmation: FvgZone,
        trigger: FvgZone,
        touched_at: i64,
        deadline: i64,
        bars: &MtfBars,
        now: Double,
        mark: Double,
        config: &MtfConfig,
    )
        ensures
            final(self)@ == old(self)@.after_inversion(
                context,
                confirmation,
                trigger,
                touched_at,
                deadline,
                bars@,
                now,
                mark,
                *config,
            ),
    {
        if context_invalidated(&context, bars, mark, config.invalidation_buffer_pct) {
            self.consume(&context, "M15 invalidated before S5 inversion");
            return;
        }
        if now.floor() > deadline {
            self.consume(&context, "S5 inversion expired");
            return;
        }
        match find_inversion(&bars.s5, context.side, trigger, confirmation, now) {
            Some(bar) => {
                let deadline = bar.started_at.wrapping_add(Timeframe::S5.seconds()).wrapping_add(
                    config.s5_retest_bars.wrapping_mul(Timeframe::S5.seconds()),
                );
                self.enter(
                    MtfPhase::WaitingS5Retest {
                        context,
                        confirmation,
                        trigger,
                        touched_at,
                        inverted_at: bar.started_at,
                        deadline,
                    },
                    "S5 FVG inverted",
                );
            },
            None => {},
        }
    }

    fn advance_retest(
        &mut self,
        context: FvgZone,
        confirmation: FvgZone,
        trigger: FvgZone,
        touched_at: i64,
        inverted_at: i64,
        deadline: i64,
        bars: &MtfBars,
        now: Double,
        mark: Double,
        config: &MtfConfig,
    )
        ensures
            final(self)@ == old(self)@.after_retest(
                context,
                confirmation,
                trigger,
                touched_at,
                inverted_at,
                deadline,
                bars@,
                now,
                mark,
                *config,
            ),
    {
        if context_invalidated(&context, bars, mark, config.invalidation_buffer_pct) {
            self.consume(&context, "M15 invalidated before iFVG retest");
            return;
        }
        if now.floor() > deadline {
            self.consume(&context, "S5 iFVG retest expired");
            return;
        }
        match find_retest(&bars.s5, context.side, trigger, inverted_at, deadline, now, config) {
            Some(Retest::Breached) => {
                self.consume(&context, "S5 iFVG invalidated before retest");
            },
            Some(Retest::Held { started_at }) => {
                let setup = MtfSetup {
                    side: context.side,
                    context,
                    confirmation,
                    trigger,
                    context_touched_at: touched_at,
                    inverted_at,
                    retested_at: started_at,
                    entry_deadline: started_at.wrapping_add(20),
                    entry_level: entry_price(context.side, trigger, config.s5_entry_depth),
                };
                self.enter(MtfPhase::Ready(setup), "S5 iFVG retest confirmed");
            },
            None => {},
        }
    }

    /// Looks at the candles and the mark once.
    pub fn advance(&mut self, bars: &MtfBars, now: Double, mark: Double, config: &MtfConfig)
        ensures
            final(self)@ == old(self)@.advanced(bars@, now, mark, *config),
    {
        match self.phase {
            MtfPhase::WaitingContext => {
                match self.find_context(bars, now, config) {
                    Some(context) => {
                        let mut reason = context.side.as_str().to_owned();
                        reason.append(" context armed");
                        let approached = outside(context, mark);
                        self.enter(
                            MtfPhase::WaitingContextTouch { context, approached },
                            reason.as_str(),
                        );
                    },
                    None => {},
                }
            },
            MtfPhase::WaitingContextTouch { context, approached } => {
                self.advance_touch(context, approached, bars, now, mark, config);
            },
            MtfPhase::WaitingM1 { context, touched_at, first_eligible_m1, deadline } => {
                self.advance_m1(
                    context,
                    touched_at,
                    first_eligible_m1,
                    deadline,
                    bars,
                    now,
                    mark,
                    config,
                );
            },
            MtfPhase::WaitingS5Candidate { context, confirmation, touched_at, deadline } => {
                self.advance_candidate(
                    context,
                    confirmation,
                    touched_at,
                    deadline,
                    bars,
                    now,
                    mark,
                    config,
                );
            },
            MtfPhase::WaitingS5Inversion {
                context,
                confirmation,
                trigger,
                touched_at,
                deadline,
            } => {
                self.advance_inversion(
                    context,
                    confirmation,
                    trigger,
                    touched_at,
                    deadline,
                    bars,
                    now,
                    mark,
                    config,
                );
            },
            MtfPhase::WaitingS5Retest {
                context,
                confirmation,
                trigger,
                touched_at,
                inverted_at,
                deadline,
            } => {
                self.advance_retest(
                    context,
                    confirmation,
                    trigger,
                    touched_at,
                    inverted_at,
                    deadline,
                    bars,
                    now,
                    mark,
                    config,
                );
            },
            MtfPhase::Ready(setup) => {
                let buffer = config.invalidation_buffer_pct;
                if now.floor() > setup.entry_deadline || breached(
                    setup.side,
                    setup.trigger,
                    mark,
                    mark,
                    buffer,
                ) || context_invalidated(&setup.context, bars, mark, buffer) {
                    self.consume(&setup.context, "entry-ready setup expired or invalidated");
                }
            },
        }
    }
}

/// How far a phase is along the way.
pub open spec fn stage(phase: MtfPhase) -> int {
    match phase {
        MtfPhase::WaitingContext => 0,
        MtfPhase::WaitingContextTouch { .. } => 1,
        MtfPhase::WaitingM1 { .. } => 2,
        MtfPhase::WaitingS5Candidate { .. } => 3,
        MtfPhase::WaitingS5Inversion { .. } => 4,
        MtfPhase::WaitingS5Retest { .. } => 5,
        MtfPhase::Ready(_) => 6,
    }
}

/// The context that a phase rests on.
pub open spec fn context_of(phase: MtfPhase) -> Option<FvgZone> {
    match phase {
        MtfPhase::WaitingContext => None,
        MtfPhase::WaitingContextTouch { context, .. } => Some(context),
        MtfPhase::WaitingM1 { context, .. } => Some(context),
        MtfPhase::WaitingS5Candidate { context, .. } => Some(context),
        MtfPhase::WaitingS5Inversion { context, .. } => Some(context),
        MtfPhase::WaitingS5Retest { context, .. } => Some(context),
        MtfPhase::Ready(setup) => Some(setup.context),
    }
}

/// The parts of a setup fit together: the confirmation is on the side of the context and
/// the trigger against it; the trigger's candles start after the confirmation formed, the
/// inversion after both, and the retest after the inversion.
pub open spec fn coherent(phase: MtfPhase) -> bool {
    match phase {
        MtfPhase::WaitingContext => true,
        MtfPhase::WaitingContextTouch { .. } => true,
        MtfPhase::WaitingM1 { .. } => true,
        MtfPhase::WaitingS5Candidate { context, confirmation, .. } => confirmation.side
            == context.side,
        MtfPhase::WaitingS5Inversion { context, confirmation, trigger, .. } => {
            &&& confirmation.side == context.side
            &&& trigger.side == context.side.inverted()
            &&& trigger.id.first_started_at >= confirmation.created_at
        },
        MtfPhase::WaitingS5Retest { context, confirmation, trigger, inverted_at, .. } => {
            &&& confirmation.side == context.side
            &&& trigger.side == context.side.inverted()
            &&& trigger.id.first_started_at >= confirmation.created_at
            &&& inverted_at >= trigger.created_at
            &&& inverted_at >= confirmation.created_at
        },
        MtfPhase::Ready(setup) => {
            &&& setup.side == setup.context.side
            &&& setup.confirmation.side == setup.side
            &&& setup.trigger.side == setup.side.inverted()
            &&& setup.trigger.id.first_started_at >= setup.confirmation.created_at
            &&& setup.inverted_at >= setup.trigger.created_at
            &&& setup.inverted_at >= setup.confirmation.created_at
            &&& setup.retested_at > setup.inverted_at
        },
    }
}

proof fn lemma_context(
    zones: Seq<FvgZone>,
    bars: BarsView,
    consumed: Seq<ZoneId>,
    timestamp: i64,
    config: MtfConfig,
)
    ensures
        newest_context(zones, bars, consumed, timestamp, config) matches Some(z) ==> eligible(
            z,
            bars,
            consumed,
            timestamp,
            config,
        ),
    decreases zones.len(),
{
    if zones.len() > 0 {
        lemma_context(zones.drop_last(), bars, consumed, timestamp, config);
    }
}

proof fn lemma_confirmation(zones: Seq<FvgZone>, side: Side, from: i64, deadline: i64)
    ensures
        first_confirmation(zones, side, from, deadline) matches Some(z) ==> z.side == side,
    decreases zones.len(),
{
    if zones.len() > 0 {
        lemma_confirmation(zones.drop_first(), side, from, deadline);
    }
}

proof fn lemma_trigger(zones: Seq<FvgZone>, side: Side, from: i64, deadline: i64, mark: Double)
    ensures
        nearest_trigger(zones, side, from, deadline, mark) matches Some(z) ==> z.side == side
            && z.id.first_started_at >= from,
    decreases zones.len(),
{
    if zones.len() > 0 {
        lemma_trigger(zones.drop_last(), side, from, deadline, mark);
    }
}

proof fn lemma_inversion(
    s5: Seq<Candle>,
    side: Side,
    trigger: FvgZone,
    confirmation: FvgZone,
    now: Double,
)
    ensures
        first_inversion(s5, side, trigger, confirmation, now) matches Some(bar) ==> inverts(
            bar,
            side,
            trigger,
            confirmation,
            now,
        ),
    decreases s5.len(),
{
    if s5.len() > 0 {
        lemma_inversion(s5.drop_first(), side, trigger, confirmation, now);
    }
}

proof fn lemma_retest(
    s5: Seq<Candle>,
    side: Side,
    trigger: FvgZone,
    inverted_at: i64,
    deadline: i64,
    now: Double,
    config: MtfConfig,
)
    ensures
        first_retest(s5, side, trigger, inverted_at, deadline, now, config) matches Some(
            Retest::Held { started_at },
        ) ==> started_at > inverted_at,
    decreases s5.len(),
{
    if s5.len() > 0 {
        lemma_retest(s5.drop_first(), side, trigger, inverted_at, deadline, now, config);
    }
}

/// A tracker moves one phase on, stays, or starts over; it never skips a phase. In
/// particular a setup is ready only after its retest was waited for.
pub proof fn phases_are_never_skipped(
    tracker: TrackerView,
    bars: BarsView,
    now: Double,
    mark: Double,
    config: MtfConfig,
)
    ensures
        ({
            let next = tracker.advanced(bars, now, mark, config);
            let from = stage(tracker.phase);
            let to = stage(next.phase);
            &&& to == from || to == from + 1 || to == 0
            &&& from > 0 && to > 0 ==> context_of(next.phase) == context_of(tracker.phase)
        }),
{
}

/// The parts of a setup fit together at every step.
pub proof fn setups_stay_coherent(
    tracker: TrackerView,
    bars: BarsView,
    now: Double,
    mark: Double,
    config: MtfConfig,
)
    requires
        coherent(tracker.phase),
    ensures
        coherent(tracker.advanced(bars, now, mark, config).phase),
{
    match tracker.phase {
        MtfPhase::WaitingM1 { context, touched_at, first_eligible_m1, deadline } => {
            lemma_confirmation(
                mtf_fvg::zones_of(bars.m1, now, config.m1_quality()),
                context.side,
                first_eligible_m1,
                deadline,
            );
        },
        MtfPhase::WaitingS5Candidate { context, confirmation, touched_at, deadline } => {
            lemma_trigger(
                mtf_fvg::s5_zones_of(bars.s5, now, config),
                context.side.inverted(),
                confirmation.created_at,
                deadline,
                mark,
            );
        },
        MtfPhase::WaitingS5Inversion { context, confirmation, trigger, touched_at, deadline } => {
            lemma_inversion(bars.s5, context.side, trigger, confirmation, now);
        },
        MtfPhase::WaitingS5Retest {
            context,
            confirmation,
            trigger,
            touched_at,
            inverted_at,
            deadline,
        } => {
            lemma_retest(
                bars.s5,
                context.side,
                trigger,
                inverted_at,
                deadline,
                now,
                config,
            );
        },
        _ => {},
    }
}

/// A context that was used is not taken up again while the tracker remembers it, and a
/// tracker that starts over remembers the context that it had.
pub proof fn used_contexts_are_not_rearmed(
    tracker: TrackerView,
    bars: BarsView,
    now: Double,
    mark: Double,
    config: MtfConfig,
)
    ensures
        ({
            let next = tracker.advanced(bars, now, mark, config);
            &&& tracker.phase is WaitingContext && context_of(next.phase) is Some
                ==> !tracker.consumed.contains((context_of(next.phase)->0).id)
            &&& context_of(tracker.phase) is Some && next.phase is WaitingContext
                ==> next.consumed.contains((context_of(tracker.phase)->0).id)
        }),
{
    lemma_context(
        mtf_fvg::zones_of(bars.m15, now, config.m15_quality()),
        bars,
        tracker.consumed,
        now.floor(),
        config,
    );
    if context_of(tracker.phase) is Some {
        let id = (context_of(tracker.phase)->0).id;
        let kept = if tracker.consumed.len() >= CONSUMED_MAXLEN {
            tracker.consumed.drop_first()
        } else {
            tracker.consumed
        };
        if !kept.contains(id) {
            assert(kept.push(id).last() == id);
        }
        assert(with_consumed(tracker.consumed, id).contains(id));
    }
}

/// A tracker never remembers more than the most used contexts.
pub proof fn used_contexts_are_bounded(
    tracker: TrackerView,
    bars: BarsView,
    now: Double,
    mark: Double,
    config: MtfConfig,
)
    requires
        tracker.consumed.len() <= CONSUMED_MAXLEN,
    ensures
        tracker.advanced(bars, now, mark, config).consumed.len() <= CONSUMED_MAXLEN,
{
}

} // verus!
