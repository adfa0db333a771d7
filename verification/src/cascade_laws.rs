//! What each step of the way from an M15 context to a retested S5 inversion means.
use vstd::prelude::*;
use crate::double;
use crate::double::Double;
use crate::models::Side;
use crate::mtf_fvg;
use crate::mtf_fvg::{BarsView, Candle, FvgZone, MtfConfig, MtfPhase, Timeframe};
use crate::mtf_tracker;
use crate::mtf_tracker::{Retest, TrackerView};
use crate::number_laws;

verus! {

/// Prices fell through a zone that was to hold from above, or rose through one that was to
/// hold from below, by more than a share of its far edge.
pub open spec fn lost(side: Side, zone: FvgZone, low: Double, high: Double, buffer: Double) -> bool {
    match side {
        Side::Long => low.lt(zone.lower.mul(Double::one().sub(buffer))),
        Side::Short => zone.upper.mul(Double::one().add(buffer)).lt(high),
    }
}

/// A context is lost to the mark or to a five-second candle that started since it formed.
pub open spec fn context_lost(
    context: FvgZone,
    s5: Seq<Candle>,
    mark: Double,
    buffer: Double,
) -> bool {
    ||| lost(context.side, context, mark, mark, buffer)
    ||| exists|i: int|
        0 <= i < s5.len() && (#[trigger] s5[i]).started_at >= context.created_at && lost(
            context.side,
            context,
            s5[i].low,
            s5[i].high,
            buffer,
        )
}

/// A candle that may answer a wait: over by now, and started after one moment and not after
/// another.
pub open spec fn answers(bar: Candle, after: i64, until: i64, now: Double) -> bool {
    &&& bar.started_at.wrapping_add(bar.timeframe.seconds()) <= now.floor()
    &&& after < bar.started_at
    &&& bar.started_at <= until
}

/// A candle came back to a level and closed on the setup's side of it.
pub open spec fn held(side: Side, bar: Candle, level: Double) -> bool {
    match side {
        Side::Long => bar.low.le(level) && level.le(bar.close),
        Side::Short => level.le(bar.high) && bar.close.le(level),
    }
}

/// A price inside a zone never loses it, on either side, whatever share is left for noise.
pub proof fn a_price_inside_a_zone_never_loses_it(
    side: Side,
    zone: FvgZone,
    price: Double,
    buffer: Double,
)
    requires
        zone.lower.finite(),
        zone.upper.finite(),
        buffer.finite(),
        Double::zero().le(buffer),
        buffer.le(Double::one()),
        Double::zero().le(zone.lower),
        zone.lower.le(price),
        price.le(zone.upper),
    ensures
        !mtf_tracker::breached(side, zone, price, price, buffer),
        !lost(side, zone, price, price, buffer),
{
    let one = Double::one();
    number_laws::difference_with_non_negative(one, buffer);
    number_laws::difference_sign(buffer, one);
    number_laws::sum_with_non_negative(one, buffer);
    number_laws::sum_keeps_order(buffer, one, one);
    number_laws::sums_commute(one, buffer);
    number_laws::one_and_one();
    number_laws::product_with_at_most_one(zone.lower, one.sub(buffer));
    number_laws::product_with_at_least_one(zone.upper, one.add(buffer));
}

/// The first answer that a list of candles gives to a question about each of them.
spec fn first_answer(s5: Seq<Candle>, ask: spec_fn(Candle) -> Option<Retest>) -> Option<Retest>
    decreases s5.len(),
{
    if s5.len() == 0 {
        None
    } else {
        match ask(s5[0]) {
            Some(end) => Some(end),
            None => first_answer(s5.drop_first(), ask),
        }
    }
}

proof fn lemma_first_answer(s5: Seq<Candle>, ask: spec_fn(Candle) -> Option<Retest>) -> (k: int)
    ensures
        first_answer(s5, ask) is None ==> forall|i: int|
            0 <= i < s5.len() ==> ask(#[trigger] s5[i]) is None,
        first_answer(s5, ask) is Some ==> 0 <= k < s5.len() && ask(s5[k]) == first_answer(s5, ask)
            && forall|j: int| 0 <= j < k ==> ask(#[trigger] s5[j]) is None,
    decreases s5.len(),
{
    if s5.len() == 0 || ask(s5[0]) is Some {
        0
    } else {
        let rest = s5.drop_first();
        let k = lemma_first_answer(rest, ask);
        assert forall|i: int| 0 <= i < s5.len() && (i == 0 || ask(rest[i - 1]) is None) implies ask(
            #[trigger] s5[i],
        ) is None by {
            if i > 0 {
                assert(rest[i - 1] == s5[i]);
            }
        }
        k + 1
    }
}

proof fn lemma_retest_is_first_answer(
    s5: Seq<Candle>,
    side: Side,
    trigger: FvgZone,
    inverted_at: i64,
    deadline: i64,
    now: Double,
    config: MtfConfig,
)
    ensures
        mtf_tracker::first_retest(s5, side, trigger, inverted_at, deadline, now, config)
            == first_answer(
            s5,
            |bar: Candle|
                mtf_tracker::retest_by(bar, side, trigger, inverted_at, deadline, now, config),
        ),
    decreases s5.len(),
{
    if s5.len() > 0 {
        lemma_retest_is_first_answer(
            s5.drop_first(),
            side,
            trigger,
            inverted_at,
            deadline,
            now,
            config,
        );
    }
}

proof fn lemma_one_answer(
    bar: Candle,
    side: Side,
    trigger: FvgZone,
    inverted_at: i64,
    deadline: i64,
    now: Double,
    config: MtfConfig,
)
    ensures
        ({
            let level = mtf_tracker::entry_price(side, trigger, config.s5_entry_depth);
            let fell = lost(side, trigger, bar.low, bar.high, config.invalidation_buffer_pct);
            match mtf_tracker::retest_by(
                bar,
                side,
                trigger,
                inverted_at,
                deadline,
                now,
                config,
            ) {
                None => answers(bar, inverted_at, deadline, now) ==> !fell && !held(
                    side,
                    bar,
                    level,
                ),
                Some(Retest::Breached) => answers(bar, inverted_at, deadline, now) && fell,
                Some(Retest::Held { started_at }) => answers(bar, inverted_at, deadline, now)
                    && !fell && held(side, bar, level) && started_at == bar.started_at,
            }
        }),
{
}

proof fn lemma_retest_answer(
    s5: Seq<Candle>,
    side: Side,
    trigger: FvgZone,
    inverted_at: i64,
    deadline: i64,
    now: Double,
    config: MtfConfig,
)
    ensures
        ({
            let level = mtf_tracker::entry_price(side, trigger, config.s5_entry_depth);
            let buffer = config.invalidation_buffer_pct;
            match mtf_tracker::first_retest(
                s5,
                side,
                trigger,
                inverted_at,
                deadline,
                now,
                config,
            ) {
                None => forall|i: int|
                    0 <= i < s5.len() && answers(#[trigger] s5[i], inverted_at, deadline, now)
                        ==> !lost(side, trigger, s5[i].low, s5[i].high, buffer) && !held(
                        side,
                        s5[i],
                        level,
                    ),
                Some(end) => exists|i: int|
                    #![trigger s5[i]]
                    {
                        &&& 0 <= i < s5.len()
                        &&& answers(s5[i], inverted_at, deadline, now)
                        &&& forall|j: int|
                            0 <= j < i && answers(#[trigger] s5[j], inverted_at, deadline, now)
                                ==> !lost(side, trigger, s5[j].low, s5[j].high, buffer) && !held(
                                side,
                                s5[j],
                                level,
                            )
                        &&& match end {
                            Retest::Breached => lost(
                                side,
                                trigger,
                                s5[i].low,
                                s5[i].high,
                                buffer,
                            ),
                            Retest::Held { started_at } => started_at == s5[i].started_at && held(
                                side,
                                s5[i],
                                level,
                            ) && !lost(side, trigger, s5[i].low, s5[i].high, buffer),
                        }
                    },
            }
        }),
{
    lemma_retest_is_first_answer(s5, side, trigger, inverted_at, deadline, now, config);
    let ask = |bar: Candle|
        mtf_tracker::retest_by(bar, side, trigger, inverted_at, deadline, now, config);
    let k = lemma_first_answer(s5, ask);
    let end = first_answer(s5, ask);
    let level = mtf_tracker::entry_price(side, trigger, config.s5_entry_depth);
    let buffer = config.invalidation_buffer_pct;
    assert forall|i: int|
        0 <= i < s5.len() && (end is None || i < k) && answers(
            #[trigger] s5[i],
            inverted_at,
            deadline,
            now,
        ) implies !lost(side, trigger, s5[i].low, s5[i].high, buffer) && !held(
        side,
        s5[i],
        level,
    ) by {
        assert(ask(s5[i]) is None);
        lemma_one_answer(s5[i], side, trigger, inverted_at, deadline, now, config);
    }
    if end is Some {
        lemma_one_answer(s5[k], side, trigger, inverted_at, deadline, now, config);
    }
}

/// A setup gets ready only by a retest that held: a five-second candle that is over, started
/// after the inversion and not after the deadline, came back to the entry level and closed on
/// the setup's side of it, without falling through the trigger; and no such candle before it
/// had already decided. The setup carries what was waited for.
pub proof fn a_setup_gets_ready_by_a_held_retest(
    tracker: TrackerView,
    bars: BarsView,
    now: Double,
    mark: Double,
    config: MtfConfig,
)
    requires
        tracker.phase is WaitingS5Retest,
        tracker.advanced(bars, now, mark, config).phase is Ready,
    ensures
        ({
            let setup = tracker.advanced(bars, now, mark, config).phase->Ready_0;
            match tracker.phase {
                MtfPhase::WaitingS5Retest {
                    context,
                    confirmation,
                    trigger,
                    touched_at,
                    inverted_at,
                    deadline,
                } => {
                    &&& setup.side == context.side
                    &&& setup.context == context
                    &&& setup.confirmation == confirmation
                    &&& setup.trigger == trigger
                    &&& setup.context_touched_at == touched_at
                    &&& setup.inverted_at == inverted_at
                    &&& setup.entry_deadline == setup.retested_at.wrapping_add(20)
                    &&& now.floor() <= deadline
                    &&& exists|i: int|
                        #![trigger bars.s5[i]]
                        {
                            let bar = bars.s5[i];
                            &&& 0 <= i < bars.s5.len()
                            &&& bar.started_at == setup.retested_at
                            &&& inverted_at < bar.started_at <= deadline
                            &&& bar.started_at.wrapping_add(bar.timeframe.seconds()) <= now.floor()
                            &&& match setup.side {
                                Side::Long => bar.low.le(setup.entry_level)
                                    && setup.entry_level.le(bar.close) && !bar.low.lt(
                                    trigger.lower.mul(
                                        Double::one().sub(config.invalidation_buffer_pct),
                                    ),
                                ),
                                Side::Short => bar.close.le(setup.entry_level)
                                    && setup.entry_level.le(bar.high) && !trigger.upper.mul(
                                    Double::one().add(config.invalidation_buffer_pct),
                                ).lt(bar.high),
                            }
                        }
                },
                _ => false,
            }
        }),
{
    match tracker.phase {
        MtfPhase::WaitingS5Retest {
            context,
            confirmation,
            trigger,
            touched_at,
            inverted_at,
            deadline,
        } => {
            lemma_retest_answer(
                bars.s5,
                context.side,
                trigger,
                inverted_at,
                deadline,
                now,
                config,
            );
        },
        _ => {},
    }
}

/// While a retest is waited for nothing has decided: no candle in the window has held the
/// entry level or fallen through the trigger, the deadline has not passed and the context is
/// not lost. A wait that is given up has one of these as its cause.
pub proof fn a_retest_is_waited_for_until_it_is_decided(
    tracker: TrackerView,
    bars: BarsView,
    now: Double,
    mark: Double,
    config: MtfConfig,
)
    requires
        tracker.phase is WaitingS5Retest,
    ensures
        ({
            let next = tracker.advanced(bars, now, mark, config).phase;
            let buffer = config.invalidation_buffer_pct;
            match tracker.phase {
                MtfPhase::WaitingS5Retest { context, trigger, inverted_at, deadline, .. } => {
                    let gap = trigger.upper.sub(trigger.lower);
                    let level = match context.side {
                        Side::Long => trigger.upper.sub(gap.mul(config.s5_entry_depth)),
                        Side::Short => trigger.lower.add(gap.mul(config.s5_entry_depth)),
                    };
                    &&& context_lost(context, bars.s5, mark, buffer) || now.floor() > deadline
                        ==> next is WaitingContext
                    &&& next is WaitingS5Retest ==> next == tracker.phase && forall|i: int|
                        0 <= i < bars.s5.len() && answers(
                            #[trigger] bars.s5[i],
                            inverted_at,
                            deadline,
                            now,
                        ) ==> !held(context.side, bars.s5[i], level) && !lost(
                            context.side,
                            trigger,
                            bars.s5[i].low,
                            bars.s5[i].high,
                            buffer,
                        )
                    &&& next is WaitingContext ==> {
                        ||| context_lost(context, bars.s5, mark, buffer)
                        ||| now.floor() > deadline
                        ||| exists|i: int|
                            0 <= i < bars.s5.len() && answers(
                                #[trigger] bars.s5[i],
                                inverted_at,
                                deadline,
                                now,
                            ) && lost(
                                context.side,
                                trigger,
                                bars.s5[i].low,
                                bars.s5[i].high,
                                buffer,
                            )
                    }
                    &&& next is Ready ==> (next->Ready_0).entry_level == level
                },
                _ => false,
            }
        }),
{
    match tracker.phase {
        MtfPhase::WaitingS5Retest {
            context,
            confirmation,
            trigger,
            touched_at,
            inverted_at,
            deadline,
        } => {
            lemma_retest_answer(
                bars.s5,
                context.side,
                trigger,
                inverted_at,
                deadline,
                now,
                config,
            );
            lemma_lost(context, bars.s5, mark, config.invalidation_buffer_pct);
        },
        _ => {},
    }
}

proof fn lemma_lost(context: FvgZone, s5: Seq<Candle>, mark: Double, buffer: Double)
    ensures
        mtf_tracker::invalidated(context, s5, mark, buffer) == context_lost(
            context,
            s5,
            mark,
            buffer,
        ),
{
    if mtf_tracker::invalidated(context, s5, mark, buffer) {
        if !lost(context.side, context, mark, mark, buffer) {
            let i = choose|i: int|
                0 <= i < s5.len() && (#[trigger] s5[i]).started_at >= context.created_at
                    && mtf_tracker::breached(
                    context.side,
                    context,
                    s5[i].low,
                    s5[i].high,
                    buffer,
                );
            assert(lost(context.side, context, s5[i].low, s5[i].high, buffer));
        }
    }
    if context_lost(context, s5, mark, buffer) {
        if !lost(context.side, context, mark, mark, buffer) {
            let i = choose|i: int|
                0 <= i < s5.len() && (#[trigger] s5[i]).started_at >= context.created_at && lost(
                    context.side,
                    context,
                    s5[i].low,
                    s5[i].high,
                    buffer,
                );
            assert(mtf_tracker::breached(
                context.side,
                context,
                s5[i].low,
                s5[i].high,
                buffer,
            ));
        }
    }
}

proof fn lemma_newest(
    zones: Seq<FvgZone>,
    bars: BarsView,
    consumed: Seq<mtf_fvg::ZoneId>,
    timestamp: i64,
    config: MtfConfig,
) -> (k: int)
    ensures
        match mtf_tracker::newest_context(zones, bars, consumed, timestamp, config) {
            Some(z) => 0 <= k < zones.len() && zones[k] == z && mtf_tracker::eligible(
                z,
                bars,
                consumed,
                timestamp,
                config,
            ) && forall|i: int|
                k < i < zones.len() ==> !mtf_tracker::eligible(
                    #[trigger] zones[i],
                    bars,
                    consumed,
                    timestamp,
                    config,
                ),
            None => forall|i: int|
                0 <= i < zones.len() ==> !mtf_tracker::eligible(
                    #[trigger] zones[i],
                    bars,
                    consumed,
                    timestamp,
                    config,
                ),
        },
    decreases zones.len(),
{
    if zones.len() == 0 {
        0
    } else if mtf_tracker::eligible(zones.last(), bars, consumed, timestamp, config) {
        zones.len() - 1
    } else {
        let rest = zones.drop_last();
        let k = lemma_newest(rest, bars, consumed, timestamp, config);
        assert(forall|i: int| 0 <= i < rest.len() ==> rest[i] == zones[i]);
        k
    }
}

/// A gap that can be a context: not too old, formed when the history was complete, not used
/// before, and with no M15 candle since that traded inside it.
pub open spec fn can_be_context(
    zone: FvgZone,
    bars: BarsView,
    consumed: Seq<mtf_fvg::ZoneId>,
    now: Double,
    config: MtfConfig,
) -> bool {
    &&& now.floor().wrapping_sub(zone.created_at) <= config.m15_max_age_bars.wrapping_mul(900)
    &&& bars.valid_from is Some ==> bars.valid_from->0 <= zone.created_at
    &&& !consumed.contains(zone.id)
    &&& forall|i: int|
        0 <= i < bars.m15.len() && zone.created_at <= (#[trigger] bars.m15[i]).started_at
            ==> !bars.m15[i].low.le(zone.upper) || !zone.lower.le(bars.m15[i].high)
}

/// A context is the newest M15 gap that can be one; it counts as approached at once only if
/// the mark is beyond it on the side from which it is to be touched: above for a long, below
/// for a short. Without such a gap nothing changes.
pub proof fn the_newest_fit_gap_becomes_the_context(
    tracker: TrackerView,
    bars: BarsView,
    now: Double,
    mark: Double,
    config: MtfConfig,
)
    requires
        tracker.phase is WaitingContext,
    ensures
        ({
            let next = tracker.advanced(bars, now, mark, config);
            let zones = mtf_fvg::zones_of(bars.m15, now, config.m15_quality());
            match next.phase {
                MtfPhase::WaitingContextTouch { context, approached } => {
                    &&& next.consumed == tracker.consumed
                    &&& can_be_context(context, bars, tracker.consumed, now, config)
                    &&& approached == match context.side {
                        Side::Long => context.upper.lt(mark),
                        Side::Short => mark.lt(context.lower),
                    }
                    &&& exists|k: int|
                        #![trigger zones[k]]
                        0 <= k < zones.len() && zones[k] == context && forall|i: int|
                            k < i < zones.len() ==> !can_be_context(
                                #[trigger] zones[i],
                                bars,
                                tracker.consumed,
                                now,
                                config,
                            )
                },
                _ => next == tracker && forall|i: int|
                    0 <= i < zones.len() ==> !can_be_context(
                        #[trigger] zones[i],
                        bars,
                        tracker.consumed,
                        now,
                        config,
                    ),
            }
        }),
{
    let zones = mtf_fvg::zones_of(bars.m15, now, config.m15_quality());
    let k = lemma_newest(zones, bars, tracker.consumed, now.floor(), config);
    assert forall|zone: FvgZone| #[trigger]
        can_be_context(zone, bars, tracker.consumed, now, config) == mtf_tracker::eligible(
            zone,
            bars,
            tracker.consumed,
            now.floor(),
            config,
        ) by {
        lemma_eligible(zone, bars, tracker.consumed, now, config);
    }
    assert forall|i: int| 0 <= i < zones.len() implies can_be_context(
        #[trigger] zones[i],
        bars,
        tracker.consumed,
        now,
        config,
    ) == mtf_tracker::eligible(zones[i], bars, tracker.consumed, now.floor(), config) by {
        lemma_eligible(zones[i], bars, tracker.consumed, now, config);
    }
}

proof fn lemma_eligible(
    zone: FvgZone,
    bars: BarsView,
    consumed: Seq<mtf_fvg::ZoneId>,
    now: Double,
    config: MtfConfig,
)
    ensures
        can_be_context(zone, bars, consumed, now, config) == mtf_tracker::eligible(
            zone,
            bars,
            consumed,
            now.floor(),
            config,
        ),
{
    if mtf_tracker::revisited(bars.m15, zone) {
        let i = choose|i: int|
            0 <= i < bars.m15.len() && (#[trigger] bars.m15[i]).started_at >= zone.created_at
                && mtf_tracker::zone_intersects(bars.m15[i], zone);
        assert(zone.created_at <= bars.m15[i].started_at);
    } else {
        assert forall|i: int|
            0 <= i < bars.m15.len() && zone.created_at <= (
            #[trigger] bars.m15[i]).started_at implies !bars.m15[i].low.le(zone.upper)
            || !zone.lower.le(bars.m15[i].high) by {
            assert(!mtf_tracker::zone_intersects(bars.m15[i], zone));
        }
    }
}

/// A context is given up when it is too old or lost, and touched only after the market was
/// beyond it on the side it is to be approached from, by the mark or the last five-second
/// candle inside it. Being beyond it is remembered. A touch starts the wait for whole M1
/// candles that begin after it.
pub proof fn a_context_is_touched_from_its_side(
    tracker: TrackerView,
    bars: BarsView,
    now: Double,
    mark: Double,
    config: MtfConfig,
)
    requires
        tracker.phase is WaitingContextTouch,
    ensures
        ({
            let next = tracker.advanced(bars, now, mark, config);
            match tracker.phase {
                MtfPhase::WaitingContextTouch { context, approached } => {
                    let s5 = bars.s5;
                    let old = now.floor().wrapping_sub(context.created_at)
                        > config.m15_max_age_bars.wrapping_mul(900);
                    let gone = context_lost(context, s5, mark, config.invalidation_buffer_pct);
                    let beyond = approached || (match context.side {
                        Side::Long => context.upper.lt(mark),
                        Side::Short => mark.lt(context.lower),
                    }) || exists|i: int|
                        0 <= i < s5.len() && (#[trigger] s5[i]).started_at >= context.created_at
                            && match context.side {
                            Side::Long => context.upper.lt(s5[i].high),
                            Side::Short => s5[i].low.lt(context.lower),
                        };
                    let inside = (context.lower.le(mark) && mark.le(context.upper)) || (s5.len() > 0
                        && s5.last().started_at >= context.created_at && s5.last().low.le(
                        context.upper,
                    ) && context.lower.le(s5.last().high));
                    &&& old || gone ==> next.phase is WaitingContext
                    &&& !old && !gone && beyond && inside ==> next.phase == (MtfPhase::WaitingM1 {
                        context,
                        touched_at: now.floor(),
                        first_eligible_m1: mtf_fvg::next_boundary(now.floor(), Timeframe::M1),
                        deadline: mtf_fvg::next_boundary(
                            now.floor(),
                            Timeframe::M1,
                        ).wrapping_add(config.m1_confirmation_bars.wrapping_mul(60)),
                    })
                    &&& !old && !gone && !(beyond && inside) ==> next.phase
                        == (MtfPhase::WaitingContextTouch { context, approached: beyond })
                },
                _ => false,
            }
        }),
{
    match tracker.phase {
        MtfPhase::WaitingContextTouch { context, approached } => {
            lemma_lost(context, bars.s5, mark, config.invalidation_buffer_pct);
            lemma_beyond(context, bars.s5);
        },
        _ => {},
    }
}

proof fn lemma_beyond(context: FvgZone, s5: Seq<Candle>)
    ensures
        mtf_tracker::seen_outside(context, s5) == exists|i: int|
            0 <= i < s5.len() && (#[trigger] s5[i]).started_at >= context.created_at
                && match context.side {
                Side::Long => context.upper.lt(s5[i].high),
                Side::Short => s5[i].low.lt(context.lower),
            },
{
}

proof fn lemma_first_confirmation(zones: Seq<FvgZone>, side: Side, from: i64, until: i64) -> (k: int)
    ensures
        match mtf_tracker::first_confirmation(zones, side, from, until) {
            Some(z) => 0 <= k < zones.len() && zones[k] == z && z.side == side
                && z.id.first_started_at >= from && z.created_at <= until && forall|i: int|
                0 <= i < k ==> !((#[trigger] zones[i]).side == side && zones[i].id.first_started_at
                    >= from && zones[i].created_at <= until),
            None => forall|i: int|
                0 <= i < zones.len() ==> !((#[trigger] zones[i]).side == side
                    && zones[i].id.first_started_at >= from && zones[i].created_at <= until),
        },
    decreases zones.len(),
{
    if zones.len() == 0 {
        0
    } else if zones[0].side == side && zones[0].id.first_started_at >= from && zones[0].created_at
        <= until {
        0
    } else {
        let rest = zones.drop_first();
        let k = lemma_first_confirmation(rest, side, from, until);
        assert forall|i: int|
            0 <= i < zones.len() && (i == 0 || !(rest[i - 1].side == side && rest[i
                - 1].id.first_started_at >= from && rest[i - 1].created_at
                <= until)) implies !((#[trigger] zones[i]).side == side
            && zones[i].id.first_started_at >= from && zones[i].created_at <= until) by {
            if i > 0 {
                assert(rest[i - 1] == zones[i]);
            }
        }
        k + 1
    }
}

/// A context is confirmed by the first M1 gap on its own side whose candles all began after
/// the touch and which formed in time; the wait for a trigger is counted from that gap. A
/// context that is lost, or whose time is over, is given up first.
pub proof fn a_confirmation_is_on_the_side_of_the_context(
    tracker: TrackerView,
    bars: BarsView,
    now: Double,
    mark: Double,
    config: MtfConfig,
)
    requires
        tracker.phase is WaitingM1,
    ensures
        ({
            let next = tracker.advanced(bars, now, mark, config);
            let zones = mtf_fvg::zones_of(bars.m1, now, config.m1_quality());
            match tracker.phase {
                MtfPhase::WaitingM1 { context, touched_at, first_eligible_m1, deadline } => {
                    let over = now.floor() > deadline || context_lost(
                        context,
                        bars.s5,
                        mark,
                        config.invalidation_buffer_pct,
                    );
                    &&& over <==> next.phase is WaitingContext
                    &&& next.phase is WaitingM1 ==> next == tracker && forall|i: int|
                        0 <= i < zones.len() ==> !((#[trigger] zones[i]).side == context.side
                            && zones[i].id.first_started_at >= first_eligible_m1
                            && zones[i].created_at <= deadline)
                    &&& !(next.phase is WaitingContext) && !(next.phase is WaitingM1) ==> exists|
                        k: int,
                    |
                        #![trigger zones[k]]
                        {
                            &&& 0 <= k < zones.len()
                            &&& zones[k].side == context.side
                            &&& zones[k].id.first_started_at >= first_eligible_m1
                            &&& zones[k].created_at <= deadline
                            &&& forall|i: int|
                                0 <= i < k ==> !((#[trigger] zones[i]).side == context.side
                                    && zones[i].id.first_started_at >= first_eligible_m1
                                    && zones[i].created_at <= deadline)
                            &&& next.phase == (MtfPhase::WaitingS5Candidate {
                                context,
                                confirmation: zones[k],
                                touched_at,
                                deadline: zones[k].created_at.wrapping_add(
                                    config.s5_inversion_bars.wrapping_mul(5),
                                ),
                            })
                        }
                },
                _ => false,
            }
        }),
{
    match tracker.phase {
        MtfPhase::WaitingM1 { context, touched_at, first_eligible_m1, deadline } => {
            lemma_lost(context, bars.s5, mark, config.invalidation_buffer_pct);
            let k = lemma_first_confirmation(
                mtf_fvg::zones_of(bars.m1, now, config.m1_quality()),
                context.side,
                first_eligible_m1,
                deadline,
            );
        },
        _ => {},
    }
}

/// How far a price is from a zone.
pub open spec fn gap_to(zone: FvgZone, mark: Double) -> Double {
    if mark.lt(zone.lower) {
        zone.lower.sub(mark)
    } else if zone.upper.lt(mark) {
        mark.sub(zone.upper)
    } else {
        Double::zero()
    }
}

proof fn lemma_nearest(
    zones: Seq<FvgZone>,
    side: Side,
    from: i64,
    until: i64,
    mark: Double,
) -> (k: int)
    ensures
        match mtf_tracker::nearest_trigger(zones, side, from, until, mark) {
            Some(z) => {
                &&& 0 <= k < zones.len()
                &&& zones[k] == z
                &&& z.side == side && z.id.first_started_at >= from && z.created_at <= until
                &&& forall|i: int|
                    0 <= i < zones.len() && (#[trigger] zones[i]).side == side
                        && zones[i].id.first_started_at >= from && zones[i].created_at <= until
                        ==> double::rank(mtf_tracker::distance(z, mark)) <= double::rank(
                        mtf_tracker::distance(zones[i], mark),
                    )
            },
            None => forall|i: int|
                0 <= i < zones.len() ==> !((#[trigger] zones[i]).side == side
                    && zones[i].id.first_started_at >= from && zones[i].created_at <= until),
        },
    decreases zones.len(),
{
    if zones.len() == 0 {
        0
    } else {
        let rest = zones.drop_last();
        let k = lemma_nearest(rest, side, from, until, mark);
        assert(forall|i: int| 0 <= i < rest.len() ==> rest[i] == zones[i]);
        match mtf_tracker::nearest_trigger(zones, side, from, until, mark) {
            Some(z) => {
                if mtf_tracker::nearest_trigger(rest, side, from, until, mark) == Some(z) {
                    k
                } else {
                    zones.len() - 1
                }
            },
            None => 0,
        }
    }
}

/// A trigger is an S5 gap against the context, of candles that began after the confirmation
/// formed, formed in time, and none such is nearer to the mark. A context that is lost, or
/// whose time is over, is given up first.
pub proof fn a_trigger_is_against_the_context(
    tracker: TrackerView,
    bars: BarsView,
    now: Double,
    mark: Double,
    config: MtfConfig,
)
    requires
        tracker.phase is WaitingS5Candidate,
    ensures
        ({
            let next = tracker.advanced(bars, now, mark, config);
            let zones = mtf_fvg::s5_zones_of(bars.s5, now, config);
            match tracker.phase {
                MtfPhase::WaitingS5Candidate { context, confirmation, touched_at, deadline } => {
                    let over = now.floor() > deadline || context_lost(
                        context,
                        bars.s5,
                        mark,
                        config.invalidation_buffer_pct,
                    );
                    &&& over <==> next.phase is WaitingContext
                    &&& next.phase is WaitingS5Candidate ==> next == tracker && forall|i: int|
                        0 <= i < zones.len() ==> !((#[trigger] zones[i]).side != context.side
                            && zones[i].id.first_started_at >= confirmation.created_at
                            && zones[i].created_at <= deadline)
                    &&& next.phase matches MtfPhase::WaitingS5Inversion {
                        context: c,
                        confirmation: f,
                        trigger,
                        touched_at: t,
                        deadline: d,
                    } ==> {
                        &&& c == context && f == confirmation && t == touched_at
                        &&& d == trigger.created_at.wrapping_add(
                            config.s5_inversion_bars.wrapping_mul(5),
                        )
                        &&& zones.contains(trigger)
                        &&& trigger.side != context.side
                        &&& trigger.id.first_started_at >= confirmation.created_at
                        &&& trigger.created_at <= deadline
                        &&& forall|i: int|
                            0 <= i < zones.len() && (#[trigger] zones[i]).side != context.side
                                && zones[i].id.first_started_at >= confirmation.created_at
                                && zones[i].created_at <= deadline ==> double::rank(
                                gap_to(trigger, mark),
                            ) <= double::rank(gap_to(zones[i], mark))
                    }
                },
                _ => false,
            }
        }),
{
    match tracker.phase {
        MtfPhase::WaitingS5Candidate { context, confirmation, touched_at, deadline } => {
            lemma_lost(context, bars.s5, mark, config.invalidation_buffer_pct);
            let zones = mtf_fvg::s5_zones_of(bars.s5, now, config);
            let k = lemma_nearest(
                zones,
                context.side.inverted(),
                confirmation.created_at,
                deadline,
                mark,
            );
            assert forall|z: FvgZone| #[trigger]
                gap_to(z, mark) == mtf_tracker::distance(z, mark) by {}
            if tracker.advanced(bars, now, mark, config).phase is WaitingS5Inversion {
                assert(zones.contains(zones[k]));
            }
        },
        _ => {},
    }
}

proof fn lemma_first_inversion(
    s5: Seq<Candle>,
    side: Side,
    trigger: FvgZone,
    confirmation: FvgZone,
    now: Double,
) -> (k: int)
    ensures
        match mtf_tracker::first_inversion(s5, side, trigger, confirmation, now) {
            Some(bar) => 0 <= k < s5.len() && s5[k] == bar && mtf_tracker::inverts(
                bar,
                side,
                trigger,
                confirmation,
                now,
            ) && forall|i: int|
                0 <= i < k ==> !mtf_tracker::inverts(
                    #[trigger] s5[i],
                    side,
                    trigger,
                    confirmation,
                    now,
                ),
            None => forall|i: int|
                0 <= i < s5.len() ==> !mtf_tracker::inverts(
                    #[trigger] s5[i],
                    side,
                    trigger,
                    confirmation,
                    now,
                ),
        },
    decreases s5.len(),
{
    if s5.len() == 0 {
        0
    } else if mtf_tracker::inverts(s5[0], side, trigger, confirmation, now) {
        0
    } else {
        let rest = s5.drop_first();
        let k = lemma_first_inversion(rest, side, trigger, confirmation, now);
        assert forall|i: int|
            0 <= i < s5.len() && (i == 0 || !mtf_tracker::inverts(
                rest[i - 1],
                side,
                trigger,
                confirmation,
                now,
            )) implies !mtf_tracker::inverts(
            #[trigger] s5[i],
            side,
            trigger,
            confirmation,
            now,
        ) by {
            if i > 0 {
                assert(rest[i - 1] == s5[i]);
            }
        }
        k + 1
    }
}

/// A candle that turned a trigger over: over by now, started after trigger and confirmation
/// had formed, and closed beyond the trigger on the side of the context, above it for a long
/// and below it for a short.
pub open spec fn turned_over(
    bar: Candle,
    side: Side,
    trigger: FvgZone,
    confirmation: FvgZone,
    now: Double,
) -> bool {
    &&& bar.started_at.wrapping_add(bar.timeframe.seconds()) <= now.floor()
    &&& trigger.created_at <= bar.started_at
    &&& confirmation.created_at <= bar.started_at
    &&& match side {
        Side::Long => trigger.upper.lt(bar.close),
        Side::Short => bar.close.lt(trigger.lower),
    }
}

/// An inversion is the first candle that turned the trigger over; the retest is waited for
/// from the end of that candle on. A context that is lost, or whose time is over, is given up
/// first.
pub proof fn an_inversion_closes_beyond_the_trigger(
    tracker: TrackerView,
    bars: BarsView,
    now: Double,
    mark: Double,
    config: MtfConfig,
)
    requires
        tracker.phase is WaitingS5Inversion,
    ensures
        ({
            let next = tracker.advanced(bars, now, mark, config);
            let s5 = bars.s5;
            match tracker.phase {
                MtfPhase::WaitingS5Inversion {
                    context,
                    confirmation,
                    trigger,
                    touched_at,
                    deadline,
                } => {
                    let over = now.floor() > deadline || context_lost(
                        context,
                        s5,
                        mark,
                        config.invalidation_buffer_pct,
                    );
                    &&& over <==> next.phase is WaitingContext
                    &&& next.phase is WaitingS5Inversion ==> next == tracker && forall|i: int|
                        0 <= i < s5.len() ==> !turned_over(
                            #[trigger] s5[i],
                            context.side,
                            trigger,
                            confirmation,
                            now,
                        )
                    &&& !(next.phase is WaitingContext) && !(next.phase is WaitingS5Inversion)
                        ==> exists|k: int|
                        #![trigger s5[k]]
                        {
                            &&& 0 <= k < s5.len()
                            &&& turned_over(s5[k], context.side, trigger, confirmation, now)
                            &&& forall|i: int|
                                0 <= i < k ==> !turned_over(
                                    #[trigger] s5[i],
                                    context.side,
                                    trigger,
                                    confirmation,
                                    now,
                                )
                            &&& next.phase == (MtfPhase::WaitingS5Retest {
                                context,
                                confirmation,
                                trigger,
                                touched_at,
                                inverted_at: s5[k].started_at,
                                deadline: s5[k].started_at.wrapping_add(5).wrapping_add(
                                    config.s5_retest_bars.wrapping_mul(5),
                                ),
                            })
                        }
                },
                _ => false,
            }
        }),
{
    match tracker.phase {
        MtfPhase::WaitingS5Inversion { context, confirmation, trigger, touched_at, deadline } => {
            lemma_lost(context, bars.s5, mark, config.invalidation_buffer_pct);
            let s5 = bars.s5;
            let k = lemma_first_inversion(s5, context.side, trigger, confirmation, now);
            assert forall|i: int| 0 <= i < s5.len() implies turned_over(
                #[trigger] s5[i],
                context.side,
                trigger,
                confirmation,
                now,
            ) == mtf_tracker::inverts(s5[i], context.side, trigger, confirmation, now) by {}
        },
        _ => {},
    }
}

/// A ready setup lasts exactly until its deadline has passed, its trigger is lost to the mark,
/// or its context is lost.
pub proof fn a_ready_setup_lasts_while_it_holds(
    tracker: TrackerView,
    bars: BarsView,
    now: Double,
    mark: Double,
    config: MtfConfig,
)
    requires
        tracker.phase is Ready,
    ensures
        ({
            let next = tracker.advanced(bars, now, mark, config);
            let setup = tracker.phase->Ready_0;
            let buffer = config.invalidation_buffer_pct;
            let over = now.floor() > setup.entry_deadline || lost(
                setup.side,
                setup.trigger,
                mark,
                mark,
                buffer,
            ) || context_lost(setup.context, bars.s5, mark, buffer);
            &&& over ==> next.phase is WaitingContext
            &&& !over ==> next == tracker
        }),
{
    lemma_lost(
        (tracker.phase->Ready_0).context,
        bars.s5,
        mark,
        config.invalidation_buffer_pct,
    );
}

/// The entry level lies inside the failed gap at its near edge or deeper: at or below the upper
/// edge for a long, at or above the lower edge for a short; and more depth never brings it back.
pub proof fn the_entry_level_is_measured_from_the_near_edge(
    trigger: FvgZone,
    shallow: Double,
    deep: Double,
)
    requires
        trigger.lower.finite(),
        trigger.upper.finite(),
        trigger.lower.le(trigger.upper),
        shallow.finite(),
        deep.finite(),
        Double::zero().le(shallow),
        shallow.le(deep),
        trigger.upper.sub(trigger.lower).finite(),
        trigger.upper.sub(trigger.lower).mul(deep).finite(),
    ensures
        mtf_tracker::entry_price(Side::Long, trigger, shallow).le(trigger.upper),
        trigger.lower.le(mtf_tracker::entry_price(Side::Short, trigger, shallow)),
        mtf_tracker::entry_price(Side::Long, trigger, deep).le(
            mtf_tracker::entry_price(Side::Long, trigger, shallow),
        ),
        mtf_tracker::entry_price(Side::Short, trigger, shallow).le(
            mtf_tracker::entry_price(Side::Short, trigger, deep),
        ),
{
    let gap = trigger.upper.sub(trigger.lower);
    number_laws::difference_sign(trigger.lower, trigger.upper);
    number_laws::products_commute(gap, shallow);
    number_laws::products_commute(gap, deep);
    number_laws::product_keeps_order(shallow, deep, gap);
    number_laws::product_sign(gap, shallow);
    lemma_entry_levels(trigger.lower, trigger.upper, gap.mul(shallow), gap.mul(deep));
}

proof fn lemma_entry_levels(lower: Double, upper: Double, a: Double, b: Double)
    requires
        lower.finite(),
        upper.finite(),
        b.finite(),
        Double::zero().le(a),
        a.le(b),
    ensures
        upper.sub(a).le(upper),
        lower.le(lower.add(a)),
        upper.sub(b).le(upper.sub(a)),
        lower.add(a).le(lower.add(b)),
{
    assert(a.finite());
    number_laws::difference_with_non_negative(upper, a);
    number_laws::sum_with_non_negative(lower, a);
    let na = a.neg();
    let nb = b.neg();
    assert(na.index() == a.index() && nb.index() == b.index());
    number_laws::sum_keeps_order(nb, na, upper);
    number_laws::sums_commute(nb, upper);
    number_laws::sums_commute(na, upper);
    number_laws::sum_keeps_order(a, b, lower);
    number_laws::sums_commute(a, lower);
    number_laws::sums_commute(b, lower);
}

/// The context that a tracker gives up is remembered behind the others, once, and of sixty-four
/// the oldest is forgotten for it; a tracker that gives none up remembers what it did.
pub proof fn a_context_given_up_is_remembered(
    tracker: TrackerView,
    bars: BarsView,
    now: Double,
    mark: Double,
    config: MtfConfig,
)
    ensures
        ({
            let next = tracker.advanced(bars, now, mark, config);
            let given_up = !(tracker.phase is WaitingContext) && next.phase is WaitingContext;
            let id = (mtf_tracker::context_of(tracker.phase)->0).id;
            let kept = if tracker.consumed.len() >= 64 {
                tracker.consumed.drop_first()
            } else {
                tracker.consumed
            };
            &&& !given_up ==> next.consumed == tracker.consumed
            &&& given_up && kept.contains(id) ==> next.consumed == kept
            &&& given_up && !kept.contains(id) ==> next.consumed == kept.push(id)
        }),
{
}

/// A tracker says what it found last, and keeps saying it while it waits.
pub proof fn a_tracker_says_what_it_found(
    tracker: TrackerView,
    bars: BarsView,
    now: Double,
    mark: Double,
    config: MtfConfig,
)
    ensures
        ({
            let next = tracker.advanced(bars, now, mark, config);
            match (tracker.phase, next.phase) {
                (MtfPhase::WaitingContext, MtfPhase::WaitingContextTouch { context, .. }) =>
                match context.side {
                    Side::Long => next.reason == Side::Long.name() + " context armed"@,
                    Side::Short => next.reason == Side::Short.name() + " context armed"@,
                },
                (MtfPhase::WaitingContextTouch { .. }, MtfPhase::WaitingM1 { .. }) => next.reason
                    == "M15 first touch confirmed"@,
                (MtfPhase::WaitingM1 { .. }, MtfPhase::WaitingS5Candidate { .. }) => next.reason
                    == "aligned M1 FVG confirmed"@,
                (MtfPhase::WaitingS5Candidate { .. }, MtfPhase::WaitingS5Inversion { .. }) =>
                next.reason == "opposing S5 FVG selected"@,
                (MtfPhase::WaitingS5Inversion { .. }, MtfPhase::WaitingS5Retest { .. }) =>
                next.reason == "S5 FVG inverted"@,
                (MtfPhase::WaitingS5Retest { .. }, MtfPhase::Ready(_)) => next.reason
                    == "S5 iFVG retest confirmed"@,
                (MtfPhase::Ready(_), MtfPhase::WaitingContext) => next.reason
                    == "entry-ready setup expired or invalidated"@,
                (_, MtfPhase::WaitingContext) => true,
                _ => next.reason == tracker.reason,
            }
        }),
{
}

/// A tracker that gives a context up says why: that the context did not hold, or that it was waited
/// for too long; of a context that was not touched yet its age is said first, later its loss.
pub proof fn a_tracker_says_why_it_gave_up(
    tracker: TrackerView,
    bars: BarsView,
    now: Double,
    mark: Double,
    config: MtfConfig,
)
    requires
        tracker.advanced(bars, now, mark, config).phase is WaitingContext,
    ensures
        ({
            let reason = tracker.advanced(bars, now, mark, config).reason;
            let buffer = config.invalidation_buffer_pct;
            match tracker.phase {
                MtfPhase::WaitingContextTouch { context, .. } => if now.floor().wrapping_sub(
                    context.created_at,
                ) > config.m15_max_age_bars.wrapping_mul(900) {
                    reason == "M15 context expired"@
                } else {
                    context_lost(context, bars.s5, mark, buffer) && reason
                        == "M15 context invalidated"@
                },
                MtfPhase::WaitingM1 { context, deadline, .. } => if context_lost(
                    context,
                    bars.s5,
                    mark,
                    buffer,
                ) {
                    reason == "M15 invalidated while waiting for M1"@
                } else {
                    deadline < now.floor() && reason == "M1 confirmation expired"@
                },
                MtfPhase::WaitingS5Candidate { context, deadline, .. } => if context_lost(
                    context,
                    bars.s5,
                    mark,
                    buffer,
                ) {
                    reason == "M15 invalidated before S5 trigger"@
                } else {
                    deadline < now.floor() && reason == "S5 candidate expired"@
                },
                MtfPhase::WaitingS5Inversion { context, deadline, .. } => if context_lost(
                    context,
                    bars.s5,
                    mark,
                    buffer,
                ) {
                    reason == "M15 invalidated before S5 inversion"@
                } else {
                    deadline < now.floor() && reason == "S5 inversion expired"@
                },
                MtfPhase::WaitingS5Retest { context, deadline, .. } => if context_lost(
                    context,
                    bars.s5,
                    mark,
                    buffer,
                ) {
                    reason == "M15 invalidated before iFVG retest"@
                } else if deadline < now.floor() {
                    reason == "S5 iFVG retest expired"@
                } else {
                    reason == "S5 iFVG invalidated before retest"@
                },
                _ => true,
            }
        }),
{
    let buffer = config.invalidation_buffer_pct;
    match tracker.phase {
        MtfPhase::WaitingContextTouch { context, .. } => {
            lemma_lost(context, bars.s5, mark, buffer);
        },
        MtfPhase::WaitingM1 { context, .. } => {
            lemma_lost(context, bars.s5, mark, buffer);
        },
        MtfPhase::WaitingS5Candidate { context, .. } => {
            lemma_lost(context, bars.s5, mark, buffer);
        },
        MtfPhase::WaitingS5Inversion { context, .. } => {
            lemma_lost(context, bars.s5, mark, buffer);
        },
        MtfPhase::WaitingS5Retest { context, .. } => {
            lemma_lost(context, bars.s5, mark, buffer);
        },
        _ => {},
    }
}

} // verus!
