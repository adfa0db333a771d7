//! What a fair value gap is, and what candles hold of the trades they are made of.
use vstd::prelude::*;
use crate::double::Double;
use crate::models::{Side, TradeTick};
use crate::mtf_fvg;
use crate::mtf_fvg::{BarsView, Candle, FvgZone, MtfConfig, Quality, Timeframe};
use crate::sorting;

verus! {

/// Three candles in a row, the last of them at a place in a list.
pub open spec fn in_a_row(candles: Seq<Candle>, third: int) -> bool {
    &&& 2 <= third < candles.len()
    &&& candles[third - 1].timeframe == candles[third - 2].timeframe
    &&& candles[third].timeframe == candles[third - 2].timeframe
    &&& candles[third - 1].started_at == candles[third - 2].started_at.wrapping_add(
        candles[third - 2].timeframe.seconds(),
    )
    &&& candles[third].started_at == candles[third - 1].started_at.wrapping_add(
        candles[third - 2].timeframe.seconds(),
    )
}

/// A timeframe is as many seconds long as its name says.
pub proof fn timeframes_have_their_lengths()
    ensures
        Timeframe::S5.seconds() == 5,
        Timeframe::M1.seconds() == 60,
        Timeframe::M15.seconds() == 900,
{
}

/// A gap is a range that nothing of its first and third candle touched: it lies between the
/// first candle's high and the third's low for a long, and between the third's high and the
/// first's low for a short. The candle between moved the same way, and gap, range and body are
/// as large as was asked for, against the average true range. It exists from the end of the
/// third candle on. Three candles in a row that leave such a range make the gap.
pub proof fn a_gap_is_what_three_candles_left_untraded(
    candles: Seq<Candle>,
    third: int,
    quality: Quality,
)
    requires
        0 <= third < candles.len(),
    ensures
        ({
            let found = mtf_fvg::zone_at(candles, third, quality);
            let first = candles[third - 2];
            let middle = candles[third - 1];
            let last = candles[third];
            let range = middle.high.sub(middle.low);
            let body = middle.close.sub(middle.open).abs().div(range);
            let up = first.high.lt(last.low);
            let down = !up && last.high.lt(first.low);
            let (lower, upper) = if up {
                (first.high, last.low)
            } else {
                (last.high, first.low)
            };
            let moved = if up {
                middle.open.lt(middle.close)
            } else {
                middle.close.lt(middle.open)
            };
            let atr = mtf_fvg::average_range(candles, third);
            let good = {
                &&& in_a_row(candles, third)
                &&& up || down
                &&& moved
                &&& !range.le(Double::zero())
                &&& atr is Some
                &&& !upper.sub(lower).div(atr->0).lt(quality.min_gap_atr)
                &&& !range.div(atr->0).lt(quality.min_displacement_atr)
                &&& !body.lt(quality.min_body_ratio)
            };
            &&& found is Some <==> good
            &&& found is Some ==> {
                let z = found->0;
                &&& z.side == if up {
                    Side::Long
                } else {
                    Side::Short
                }
                &&& z.lower == lower && z.upper == upper
                &&& z.lower.lt(z.upper)
                &&& z.created_at == last.started_at.wrapping_add(first.timeframe.seconds())
                &&& z.id.timeframe == first.timeframe && z.id.side == z.side
                &&& z.id.first_started_at == first.started_at
                &&& z.id.third_started_at == last.started_at
                &&& z.gap_atr == upper.sub(lower).div(atr->0)
                &&& z.middle_range_atr == range.div(atr->0)
                &&& z.middle_body_ratio == body
            }
        }),
{
    reveal(mtf_fvg::zone_at);
}

/// A five-second gap is one in the same sense, five seconds between its candles, with a body
/// and a width in relation to its middle that are large enough.
pub proof fn a_fast_gap_is_what_three_candles_left_untraded(
    candles: Seq<Candle>,
    third: int,
    config: MtfConfig,
)
    requires
        2 <= third < candles.len(),
    ensures
        ({
            let found = mtf_fvg::s5_zone_at(candles, third, config);
            let first = candles[third - 2];
            let middle = candles[third - 1];
            let last = candles[third];
            let range = middle.high.sub(middle.low);
            let body = middle.close.sub(middle.open).abs().div(range);
            let up = first.high.lt(last.low);
            let down = !up && last.high.lt(first.low);
            let (lower, upper) = if up {
                (first.high, last.low)
            } else {
                (last.high, first.low)
            };
            let moved = if up {
                middle.open.lt(middle.close)
            } else {
                middle.close.lt(middle.open)
            };
            let good = {
                &&& middle.started_at == first.started_at.wrapping_add(5)
                &&& last.started_at == middle.started_at.wrapping_add(5)
                &&& up || down
                &&& moved
                &&& !range.le(Double::zero())
                &&& !body.lt(config.s5_min_body_ratio)
                &&& !upper.sub(lower).div(lower.add(upper).div(Double::whole(2))).lt(
                    config.s5_min_gap_pct,
                )
            };
            &&& found is Some <==> good
            &&& found is Some ==> {
                let z = found->0;
                &&& z.side == if up {
                    Side::Long
                } else {
                    Side::Short
                }
                &&& z.lower == lower && z.upper == upper
                &&& z.lower.lt(z.upper)
                &&& z.created_at == last.started_at.wrapping_add(5)
                &&& z.id.timeframe == Timeframe::S5 && z.id.side == z.side
                &&& z.id.first_started_at == first.started_at
                &&& z.id.third_started_at == last.started_at
                &&& z.middle_body_ratio == body
            }
        }),
{
    reveal(mtf_fvg::s5_zone_at);
}

/// A true range is the largest of a candle's own range and its distances from the close before.
pub proof fn a_true_range_is_the_largest_distance(candle: Candle, close: Double)
    ensures
        ({
            let r = mtf_fvg::true_range(candle, close);
            let own = candle.high.sub(candle.low);
            let up = candle.high.sub(close).abs();
            let down = candle.low.sub(close).abs();
            &&& r == own || r == up || r == down
            &&& !r.lt(own) && !r.lt(up) && !r.lt(down)
        }),
{
}

/// An average true range is taken over fourteen candles and the close before each, and there is
/// none before so many have gone by.
pub proof fn an_average_range_is_over_fourteen(candles: Seq<Candle>, end: int)
    ensures
        end < 14 || end >= candles.len() ==> mtf_fvg::average_range(candles, end) is None,
        14 <= end < candles.len() ==> ({
            let mean = mtf_fvg::range_sum(candles, end - 14, end).div(Double::whole(14));
            mtf_fvg::average_range(candles, end) == if mean.finite() && Double::zero().lt(mean) {
                Some(mean)
            } else {
                None
            }
        }),
        end > 0 ==> mtf_fvg::range_sum(candles, end - 1, end) == Double::zero().add(
            mtf_fvg::true_range(candles[end], candles[end - 1].close),
        ),
{
    reveal_with_fuel(mtf_fvg::range_sum, 2);
}

/// The candles of a list that are over at a moment.
pub open spec fn finished(candles: Seq<Candle>, now: Double) -> Seq<Candle> {
    candles.filter(
        |c: Candle| c.started_at.wrapping_add(c.timeframe.seconds()) <= now.floor(),
    )
}

proof fn lemma_finished(candles: Seq<Candle>, now: Double)
    ensures
        mtf_fvg::closed_candles(candles, now) == finished(candles, now),
    decreases candles.len(),
{
    reveal(Seq::filter);
    if candles.len() > 0 {
        lemma_finished(candles.drop_last(), now);
    } else {
        assert(finished(candles, now) =~= candles);
    }
}

proof fn lemma_zones_before(candles: Seq<Candle>, end: int, quality: Quality)
    requires
        end <= candles.len(),
    ensures
        forall|z: FvgZone| #[trigger]
            mtf_fvg::zones_before(candles, end, quality).contains(z) <==> exists|third: int|
                2 <= third < end && #[trigger] mtf_fvg::zone_at(candles, third, quality) == Some(z),
    decreases end,
{
    let all = mtf_fvg::zones_before(candles, end, quality);
    if end > 2 {
        lemma_zones_before(candles, end - 1, quality);
        let before = mtf_fvg::zones_before(candles, end - 1, quality);
        let here = mtf_fvg::zone_at(candles, end - 1, quality);
        assert forall|z: FvgZone| #[trigger] all.contains(z) <==> exists|third: int|
            2 <= third < end && #[trigger] mtf_fvg::zone_at(candles, third, quality) == Some(z) by {
            if all.contains(z) {
                let i = choose|i: int| 0 <= i < all.len() && all[i] == z;
                if i < before.len() {
                    assert(before[i] == z);
                    assert(before.contains(z));
                }
            }
            if exists|third: int|
                2 <= third < end && #[trigger] mtf_fvg::zone_at(candles, third, quality) == Some(
                    z,
                ) {
                let third = choose|third: int|
                    2 <= third < end && #[trigger] mtf_fvg::zone_at(candles, third, quality)
                        == Some(z);
                if third < end - 1 {
                    assert(before.contains(z));
                    let i = choose|i: int| 0 <= i < before.len() && before[i] == z;
                    assert(all[i] == z);
                } else {
                    assert(all.last() == z);
                }
            }
        }
    }
}

/// The gaps of a series are those that its finished candles leave, each of them and nothing
/// else.
pub proof fn gaps_come_from_finished_candles(series: Seq<Candle>, now: Double, quality: Quality)
    ensures
        forall|z: FvgZone| #[trigger]
            mtf_fvg::zones_of(series, now, quality).contains(z) <==> exists|third: int|
                2 <= third < finished(series, now).len() && #[trigger] mtf_fvg::zone_at(
                    finished(series, now),
                    third,
                    quality,
                ) == Some(z),
{
    lemma_finished(series, now);
    let candles = finished(series, now);
    lemma_zones_before(candles, candles.len() as int, quality);
}

proof fn lemma_s5_zones_before(candles: Seq<Candle>, end: int, config: MtfConfig)
    requires
        end <= candles.len(),
    ensures
        forall|z: FvgZone| #[trigger]
            mtf_fvg::s5_zones_before(candles, end, config).contains(z) <==> exists|third: int|
                2 <= third < end && #[trigger] mtf_fvg::s5_zone_at(candles, third, config) == Some(
                    z,
                ),
    decreases end,
{
    let all = mtf_fvg::s5_zones_before(candles, end, config);
    if end > 2 {
        lemma_s5_zones_before(candles, end - 1, config);
        let before = mtf_fvg::s5_zones_before(candles, end - 1, config);
        assert forall|z: FvgZone| #[trigger] all.contains(z) <==> exists|third: int|
            2 <= third < end && #[trigger] mtf_fvg::s5_zone_at(candles, third, config) == Some(
                z,
            ) by {
            if all.contains(z) {
                let i = choose|i: int| 0 <= i < all.len() && all[i] == z;
                if i < before.len() {
                    assert(before[i] == z);
                    assert(before.contains(z));
                }
            }
            if exists|third: int|
                2 <= third < end && #[trigger] mtf_fvg::s5_zone_at(candles, third, config) == Some(
                    z,
                ) {
                let third = choose|third: int|
                    2 <= third < end && #[trigger] mtf_fvg::s5_zone_at(candles, third, config)
                        == Some(z);
                if third < end - 1 {
                    assert(before.contains(z));
                    let i = choose|i: int| 0 <= i < before.len() && before[i] == z;
                    assert(all[i] == z);
                } else {
                    assert(all.last() == z);
                }
            }
        }
    }
}

/// The five-second gaps of a series are those that its finished candles leave, each of them
/// and nothing else.
pub proof fn fast_gaps_come_from_finished_candles(series: Seq<Candle>, now: Double, config: MtfConfig)
    ensures
        forall|z: FvgZone| #[trigger]
            mtf_fvg::s5_zones_of(series, now, config).contains(z) <==> exists|third: int|
                2 <= third < finished(series, now).len() && #[trigger] mtf_fvg::s5_zone_at(
                    finished(series, now),
                    third,
                    config,
                ) == Some(z),
{
    lemma_finished(series, now);
    let candles = finished(series, now);
    lemma_s5_zones_before(candles, candles.len() as int, config);
}

/// A trade is in the candle of its moment: the last candle closes at its price, spans it and
/// counts its size, or a later candle begins with it. A trade from before the last candle, and
/// one without a usable time, price or size, changes nothing; and no earlier candle ever
/// changes.
pub proof fn a_trade_enters_the_candle_of_its_moment(
    bars: BarsView,
    tick: TradeTick,
    timeframe: Timeframe,
)
    ensures
        ({
            let before = bars.series(timeframe);
            let after = bars.ticked(tick).series(timeframe);
            let usable = tick.timestamp.finite() && tick.price.finite() && Double::zero().lt(
                tick.price,
            ) && tick.size.finite() && Double::zero().le(tick.size);
            let start = mtf_fvg::bucket(tick.timestamp.floor(), timeframe);
            let last = before.last();
            let most = match timeframe {
                Timeframe::S5 => 720int,
                Timeframe::M1 => 240int,
                Timeframe::M15 => 128int,
            };
            &&& bars.ticked(tick).valid_from == bars.valid_from
            &&& !usable ==> after == before
            &&& usable && before.len() > 0 && start < last.started_at ==> after == before
            &&& usable && before.len() > 0 && start == last.started_at ==> {
                let new = after.last();
                &&& after.len() == before.len()
                &&& after.drop_last() == before.drop_last()
                &&& new.started_at == start && new.timeframe == last.timeframe
                &&& new.open == last.open
                &&& new.close == tick.price
                &&& tick.price.le(new.high) && new.low.le(tick.price)
                &&& !new.high.lt(last.high) && !last.low.lt(new.low)
                &&& new.high == last.high || new.high == tick.price
                &&& new.low == last.low || new.low == tick.price
                &&& new.volume == last.volume.add(tick.size)
                &&& new.trades == last.trades.wrapping_add(1)
            }
            &&& usable && (before.len() == 0 || start > last.started_at) ==> {
                &&& after.len() > 0
                &&& after.last() == (Candle {
                    timeframe,
                    started_at: start,
                    open: tick.price,
                    high: tick.price,
                    low: tick.price,
                    close: tick.price,
                    volume: tick.size,
                    trades: 1,
                })
                &&& before.len() < most ==> after.drop_last() == before
                &&& before.len() >= most ==> after.drop_last() == before.drop_first()
            }
        }),
{
    let before = bars.series(timeframe);
    let after = bars.ticked(tick).series(timeframe);
    if before.len() > 0 {
        assert(before.drop_last().push(mtf_fvg::traded(before.last(), tick)).drop_last()
            =~= before.drop_last());
        let start = mtf_fvg::bucket(tick.timestamp.floor(), timeframe);
        let fresh = mtf_fvg::first_traded(timeframe, start, tick);
        assert(before.drop_first().push(fresh).drop_last() =~= before.drop_first());
    }
    let start = mtf_fvg::bucket(tick.timestamp.floor(), timeframe);
    let fresh = mtf_fvg::first_traded(timeframe, start, tick);
    assert(before.push(fresh).drop_last() =~= before);
}

/// A candle begins at a whole number of its lengths after the epoch, at most one length before
/// the moment it is for.
pub proof fn candles_begin_at_whole_multiples(timestamp: i64, timeframe: Timeframe)
    requires
        i64::MIN + 900 <= timestamp <= i64::MAX - 900,
    ensures
        mtf_fvg::bucket(timestamp, timeframe) % timeframe.seconds() == 0,
        mtf_fvg::bucket(timestamp, timeframe) <= timestamp,
        timestamp < mtf_fvg::bucket(timestamp, timeframe) + timeframe.seconds(),
{
    let t = timestamp as int;
    let d = timeframe.seconds() as int;
    let q = t / d;
    match timeframe {
        Timeframe::S5 => {
            assert(5 * q <= t < 5 * q + 5);
        },
        Timeframe::M1 => {
            assert(60 * q <= t < 60 * q + 60);
        },
        Timeframe::M15 => {
            assert(900 * q <= t < 900 * q + 900);
        },
    }
    assert(mtf_fvg::bucket(timestamp, timeframe) == q * d);
    assert((q * d) % d == 0) by (nonlinear_arith)
        requires
            d > 0,
    ;
}

/// A broken stream leaves the finished candles of the slower timeframes, nothing of the fast
/// one, and marks the moment from which history counts again.
pub proof fn a_broken_stream_leaves_finished_candles(bars: BarsView, now: Double)
    ensures
        bars.disconnected(now).s5.len() == 0,
        bars.disconnected(now).m1 == finished(bars.m1, now),
        bars.disconnected(now).m15 == finished(bars.m15, now),
        bars.disconnected(now).valid_from == Some(now.floor()),
{
    lemma_finished(bars.m1, now);
    lemma_finished(bars.m15, now);
}

/// History that is put in ends up in order of time, as much of the newest as is kept, and the
/// other timeframes are left alone.
pub proof fn seeded_history_is_in_order(bars: BarsView, timeframe: Timeframe, candles: Seq<Candle>)
    requires
        bars.series(timeframe).len() + candles.len() <= usize::MAX,
    ensures
        ({
            let after = bars.seeded(timeframe, candles);
            let series = after.series(timeframe);
            &&& forall|i: int, j: int|
                0 <= i < j < series.len() ==> (#[trigger] series[i]).started_at <= (
                #[trigger] series[j]).started_at
            &&& series.len() <= match timeframe {
                Timeframe::S5 => 720int,
                Timeframe::M1 => 240int,
                Timeframe::M15 => 128int,
            }
            &&& after.valid_from == bars.valid_from
            &&& timeframe != Timeframe::S5 ==> after.s5 == bars.s5
            &&& timeframe != Timeframe::M1 ==> after.m1 == bars.m1
            &&& timeframe != Timeframe::M15 ==> after.m15 == bars.m15
        }),
{
    let list = mtf_fvg::with_candles(bars.series(timeframe), timeframe, candles);
    lemma_puts_length(bars.series(timeframe), timeframe, candles);
    let keys = mtf_fvg::start_keys(list);
    sorting::every_list_has_an_order(keys);
    let p = sorting::order(keys);
    let sorted = mtf_fvg::by_start(list);
    assert forall|i: int, j: int| 0 <= i < j < sorted.len() implies (
    #[trigger] sorted[i]).started_at <= (#[trigger] sorted[j]).started_at by {
        assert(p[i] < list.len() && p[j] < list.len());
        assert(keys[p[i] as int] <= keys[p[j] as int]);
    }
}

proof fn lemma_put(series: Seq<Candle>, candle: Candle)
    ensures
        mtf_fvg::with_candle(series, candle).contains(candle),
        forall|c: Candle| #[trigger]
            mtf_fvg::with_candle(series, candle).contains(c) ==> c == candle || series.contains(c),
        forall|c: Candle|
            series.contains(c) && c.started_at != candle.started_at ==> #[trigger]
            mtf_fvg::with_candle(series, candle).contains(c),
    decreases series.len(),
{
    let after = mtf_fvg::with_candle(series, candle);
    if series.len() == 0 {
        assert(after[0] == candle);
    } else if series[0].started_at == candle.started_at {
        assert(after[0] == candle);
        assert forall|c: Candle| #[trigger] after.contains(c) implies c == candle
            || series.contains(c) by {
            let i = choose|i: int| 0 <= i < after.len() && after[i] == c;
            if i > 0 {
                assert(series[i] == c);
            }
        }
        assert forall|c: Candle|
            series.contains(c) && c.started_at != candle.started_at implies #[trigger] after.contains(
            c,
        ) by {
            let i = choose|i: int| 0 <= i < series.len() && series[i] == c;
            assert(after[i] == c);
        }
    } else {
        let rest = series.drop_first();
        let inner = mtf_fvg::with_candle(rest, candle);
        lemma_put(rest, candle);
        assert(after =~= seq![series[0]] + inner);
        let k = choose|k: int| 0 <= k < inner.len() && inner[k] == candle;
        assert(after[k + 1] == candle);
        assert forall|c: Candle| #[trigger] after.contains(c) implies c == candle
            || series.contains(c) by {
            let i = choose|i: int| 0 <= i < after.len() && after[i] == c;
            if i == 0 {
                assert(series[0] == c);
            } else {
                assert(inner[i - 1] == c);
                assert(inner.contains(c));
                if rest.contains(c) {
                    let j = choose|j: int| 0 <= j < rest.len() && rest[j] == c;
                    assert(series[j + 1] == c);
                }
            }
        }
        assert forall|c: Candle|
            series.contains(c) && c.started_at != candle.started_at implies #[trigger] after.contains(
            c,
        ) by {
            let i = choose|i: int| 0 <= i < series.len() && series[i] == c;
            if i == 0 {
                assert(after[0] == c);
            } else {
                assert(rest[i - 1] == c);
                assert(rest.contains(c));
                assert(inner.contains(c));
                let j = choose|j: int| 0 <= j < inner.len() && inner[j] == c;
                assert(after[j + 1] == c);
            }
        }
    }
}

/// One candle of history replaces the one of the same start and stands beside every other; one
/// that is not usable, of another timeframe, without finite prices, with a low that is not
/// positive or above the high, is left out.
pub proof fn history_replaces_by_start(bars: BarsView, timeframe: Timeframe, candle: Candle)
    requires
        bars.series(timeframe).len() < 128,
    ensures
        ({
            let before = bars.series(timeframe);
            let after = bars.seeded(timeframe, seq![candle]).series(timeframe);
            let usable = {
                &&& candle.timeframe == timeframe
                &&& candle.open.finite() && candle.high.finite()
                &&& candle.low.finite() && candle.close.finite()
                &&& Double::zero().lt(candle.low)
                &&& candle.low.le(candle.high)
            };
            &&& usable ==> after.contains(candle)
            &&& forall|c: Candle| #[trigger]
                after.contains(c) ==> (usable && c == candle) || before.contains(c)
            &&& forall|c: Candle|
                before.contains(c) && (!usable || c.started_at != candle.started_at)
                    ==> #[trigger] after.contains(c)
        }),
{
    reveal_with_fuel(mtf_fvg::with_candles, 2);
    let before = bars.series(timeframe);
    let after = bars.seeded(timeframe, seq![candle]).series(timeframe);
    let one = seq![candle];
    assert(one.drop_last() =~= Seq::empty());
    let list = mtf_fvg::with_candles(before, timeframe, one);
    lemma_put(before, candle);
    if candle.usable(timeframe) {
        assert(list == mtf_fvg::with_candle(before, candle));
        lemma_put_length(before, candle);
    } else {
        assert(list == before);
    }
    let keys = mtf_fvg::start_keys(list);
    sorting::every_list_has_an_order(keys);
    let p = sorting::order(keys);
    assert(after == mtf_fvg::by_start(list));
    assert forall|c: Candle| #[trigger] after.contains(c) implies list.contains(c) by {
        let i = choose|i: int| 0 <= i < after.len() && after[i] == c;
        assert(list[p[i] as int] == c);
    }
    assert forall|c: Candle| list.contains(c) implies #[trigger] after.contains(c) by {
        let i = choose|i: int| 0 <= i < list.len() && list[i] == c;
        lemma_order_covers(keys, i);
        let j = choose|j: int| 0 <= j < p.len() && #[trigger] p[j] == i;
        assert(after[j] == c);
    }
}

proof fn lemma_put_length(series: Seq<Candle>, candle: Candle)
    ensures
        mtf_fvg::with_candle(series, candle).len() <= series.len() + 1,
    decreases series.len(),
{
    if series.len() > 0 && series[0].started_at != candle.started_at {
        lemma_put_length(series.drop_first(), candle);
    }
}

proof fn lemma_puts_length(series: Seq<Candle>, timeframe: Timeframe, candles: Seq<Candle>)
    ensures
        mtf_fvg::with_candles(series, timeframe, candles).len() <= series.len() + candles.len(),
    decreases candles.len(),
{
    if candles.len() > 0 {
        lemma_puts_length(series, timeframe, candles.drop_last());
        lemma_put_length(
            mtf_fvg::with_candles(series, timeframe, candles.drop_last()),
            candles.last(),
        );
    }
}

proof fn lemma_order_covers(keys: Seq<i128>, i: int)
    requires
        0 <= i < keys.len() <= usize::MAX,
    ensures
        exists|j: int| 0 <= j < sorting::order(keys).len() && #[trigger] sorting::order(keys)[j] == i,
{
    sorting::every_list_has_an_order(keys);
    let p = sorting::order(keys);
    assert(p.contains(i as usize));
    let j = choose|j: int| 0 <= j < p.len() && p[j] == i as usize;
    assert(p[j] == i);
}

} // verus!
