//! What the tape, the book's metrics and the BTC trend say of the trades and quotes they are
//! made of.
use vstd::prelude::*;
use crate::brain;
use crate::brain::{BtcTrend, Sample, Window};
use crate::config::Settings;
use crate::double;
use crate::double::Double;
use crate::models;
use crate::models::{BookView, Level, Side, TradeTick, TrendDirection};
use crate::sorting;

verus! {

/// A trade counts for the side that was the aggressor, in the last second or in the second
/// before it, by its price times its size, and nowhere else.
pub proof fn a_trade_counts_once_on_the_tape(ticks: Seq<TradeTick>, tick: TradeTick, now: Double)
    ensures
        ({
            let before = brain::tape_at(ticks, now);
            let after = brain::tape_at(ticks.push(tick), now);
            let money = tick.price.mul(tick.size);
            let new = now.sub(Double::one()).le(tick.timestamp);
            let recent = !new && now.sub(Double::whole(2)).le(tick.timestamp);
            &&& after.current_buy_notional == if tick.is_buy && new {
                before.current_buy_notional.add(money)
            } else {
                before.current_buy_notional
            }
            &&& after.current_sell_notional == if !tick.is_buy && new {
                before.current_sell_notional.add(money)
            } else {
                before.current_sell_notional
            }
            &&& after.previous_buy_notional == if tick.is_buy && recent {
                before.previous_buy_notional.add(money)
            } else {
                before.previous_buy_notional
            }
            &&& after.previous_sell_notional == if !tick.is_buy && recent {
                before.previous_sell_notional.add(money)
            } else {
                before.previous_sell_notional
            }
            &&& brain::tape_at(Seq::empty(), now).current_buy_notional == Double::zero()
            &&& brain::tape_at(Seq::empty(), now).current_sell_notional == Double::zero()
            &&& brain::tape_at(Seq::empty(), now).previous_buy_notional == Double::zero()
            &&& brain::tape_at(Seq::empty(), now).previous_sell_notional == Double::zero()
        }),
{
    assert(ticks.push(tick).drop_last() =~= ticks);
}

/// What the tape says of one side follows from its two sums and the total of the last second:
/// its share of the total, one half of nothing; how many times what it did before it does now,
/// at most a hundred, and nothing unless before was at least a hundred and a twentieth of the
/// total; and it accelerates with three times as much and seven tenths of the total.
pub open spec fn says(
    now: Double,
    before: Double,
    total: Double,
    share: Double,
    times: Double,
    counts: bool,
    accelerates: bool,
) -> bool {
    &&& Double::zero().lt(total) ==> share == now.div(total)
    &&& !Double::zero().lt(total) ==> share == Double::ratio(1, 2)
    &&& counts ==> Double::whole(100).le(before) && !before.lt(total.mul(Double::ratio(5, 100)))
    &&& Double::whole(100).le(before) && total.mul(Double::ratio(5, 100)).le(before) ==> counts
    &&& counts ==> times == now.div(before) || times == Double::whole(100)
    &&& counts ==> !Double::whole(100).lt(times) && !now.div(before).lt(times)
    &&& !counts ==> times == Double::zero()
    &&& accelerates <==> counts && Double::zero().lt(now) && Double::whole(3).le(times)
        && Double::ratio(7, 10).le(share)
}

/// Both sides of the tape mean what they say, each of its own sums.
pub proof fn the_tape_means_what_it_says(ticks: Seq<TradeTick>, now: Double)
    ensures
        ({
            let t = brain::tape_at(ticks, now);
            let total = t.current_buy_notional.add(t.current_sell_notional);
            &&& says(
                t.current_buy_notional,
                t.previous_buy_notional,
                total,
                t.buy_dominance,
                t.buy_acceleration,
                t.buy_baseline_valid,
                t.buy_accelerating,
            )
            &&& says(
                t.current_sell_notional,
                t.previous_sell_notional,
                total,
                t.sell_dominance,
                t.sell_acceleration,
                t.sell_baseline_valid,
                t.sell_accelerating,
            )
        }),
{
    crate::number_laws::whole_numbers_are_numbers(100);
}

/// The flow looks at trades of the last three seconds and is the share of buyers in them.
pub proof fn the_flow_is_the_share_of_buyers(
    settings: Settings,
    book: BookView,
    ticks: Seq<TradeTick>,
    tick: TradeTick,
    now: Double,
)
    ensures
        ({
            let bought = brain::notional(ticks, now, Window::Flow, true);
            let sold = brain::notional(ticks, now, Window::Flow, false);
            let flow = brain::metrics_of(settings, book, ticks, now).flow;
            let money = tick.price.mul(tick.size);
            let late = now.sub(tick.timestamp).le(Double::whole(3));
            &&& Double::zero().lt(bought.add(sold)) ==> flow == bought.div(bought.add(sold))
            &&& !Double::zero().lt(bought.add(sold)) ==> flow == Double::ratio(1, 2)
            &&& brain::notional(ticks.push(tick), now, Window::Flow, true) == if late
                && tick.is_buy {
                bought.add(money)
            } else {
                bought
            }
            &&& brain::notional(ticks.push(tick), now, Window::Flow, false) == if late
                && !tick.is_buy {
                sold.add(money)
            } else {
                sold
            }
        }),
{
    assert(ticks.push(tick).drop_last() =~= ticks);
}

/// The ten best levels of a side, best first: the highest bids, the lowest asks.
pub open spec fn best_ten(levels: Seq<Level>, bids: bool) -> Seq<Level> {
    Seq::new(
        if levels.len() < 10 {
            levels.len()
        } else {
            10
        },
        |i: int|
            if bids {
                levels[levels.len() - 1 - i]
            } else {
                levels[i]
            },
    )
}

/// The metrics of a book: the best bid is the highest and the best ask the lowest price, with
/// the middle and the spread between them; the imbalance is the share of bids in the ten best
/// levels of each side; a wall is as large as the median level of these times the setting.
pub proof fn metrics_measure_the_book(
    settings: Settings,
    book: BookView,
    ticks: Seq<TradeTick>,
    now: Double,
)
    ensures
        ({
            let m = brain::metrics_of(settings, book, ticks, now);
            let bids = best_ten(book.bids, true);
            let asks = best_ten(book.asks, false);
            let bid_size = brain::sum(bids.map_values(|l: Level| l.1));
            let ask_size = brain::sum(asks.map_values(|l: Level| l.1));
            let total = bid_size.add(ask_size);
            let two_sided = Double::zero().lt(m.bid) && Double::zero().lt(m.ask);
            &&& book.bids.len() > 0 ==> m.bid == book.bids[book.bids.len() - 1].0
            &&& book.bids.len() == 0 ==> m.bid == Double::zero()
            &&& book.asks.len() > 0 ==> m.ask == book.asks[0].0
            &&& book.asks.len() == 0 ==> m.ask == Double::zero()
            &&& two_sided ==> m.mid == m.bid.add(m.ask).div(Double::whole(2))
            &&& two_sided ==> m.spread == m.ask.sub(m.bid).div(m.bid).mul(Double::whole(100))
            &&& !two_sided ==> m.mid == Double::zero() && m.spread == Double::whole(999)
            &&& m.freshness == now.sub(book.updated_at)
            &&& Double::zero().lt(total) ==> m.imbalance == bid_size.div(total)
            &&& !Double::zero().lt(total) ==> m.imbalance == Double::ratio(1, 2)
            &&& m.wall_threshold == brain::median(
                bids.map_values(|l: Level| l.1) + asks.map_values(|l: Level| l.1),
            ).mul(settings.alternative_wall_multiplier)
            &&& m.tape == brain::tape_at(ticks, now)
        }),
{
    assert(best_ten(book.bids, true) =~= brain::top_bids(book.bids));
    assert(best_ten(book.asks, false) =~= brain::top_asks(book.asks));
    let bids = best_ten(book.bids, true);
    let asks = best_ten(book.asks, false);
    assert(bids.map_values(|l: Level| l.1) =~= brain::sizes(bids));
    assert(asks.map_values(|l: Level| l.1) =~= brain::sizes(asks));
}

/// A median is the middle in order of size, and for an even count the mean of the two middle
/// ones, however the order is found.
pub proof fn a_median_is_the_middle_in_order(xs: Seq<Double>, p: Seq<usize>)
    requires
        xs.len() <= usize::MAX,
        p.len() == xs.len(),
        forall|i: int| 0 <= i < p.len() ==> #[trigger] p[i] < xs.len(),
        forall|x: usize| x < xs.len() ==> #[trigger] p.contains(x),
        forall|i: int, j: int|
            0 <= i < j < p.len() ==> double::rank(xs[(#[trigger] p[i]) as int]) < double::rank(
                xs[(#[trigger] p[j]) as int],
            ) || (double::rank(xs[p[i] as int]) == double::rank(xs[p[j] as int]) && p[i] < p[j]),
    ensures
        xs.len() == 0 ==> brain::median(xs) == Double::zero(),
        xs.len() % 2 == 1 ==> brain::median(xs) == xs[p[xs.len() as int / 2] as int],
        xs.len() > 0 && xs.len() % 2 == 0 ==> brain::median(xs) == xs[p[xs.len() as int / 2
            - 1] as int].add(xs[p[xs.len() as int / 2] as int]).div(Double::whole(2)),
{
    let keys = sorting::rank_keys(xs);
    sorting::every_list_has_an_order(keys);
    assert forall|i: int, j: int| 0 <= i < j < p.len() implies sorting::before(
        keys,
        #[trigger] p[i],
        #[trigger] p[j],
    ) by {
        assert(p[i] < xs.len() && p[j] < xs.len());
        assert(double::rank(xs[p[i] as int]) == keys[p[i] as int]);
        assert(double::rank(xs[p[j] as int]) == keys[p[j] as int]);
    }
    assert(sorting::is_stable_order(keys, p));
    sorting::stable_order_is_unique(keys, p, sorting::order(keys));
}

proof fn lemma_strongest(levels: Seq<Level>, threshold: Double)
    ensures
        match brain::strongest(levels, threshold) {
            None => forall|i: int|
                0 <= i < levels.len() ==> !(Double::zero().lt(threshold) && threshold.le(
                    (#[trigger] levels[i]).1,
                )),
            Some(best) => {
                &&& levels.contains(best)
                &&& Double::zero().lt(threshold)
                &&& threshold.le(best.1)
                &&& forall|i: int|
                    0 <= i < levels.len() && threshold.le((#[trigger] levels[i]).1)
                        ==> double::rank(levels[i].1) <= double::rank(best.1)
            },
        },
    decreases levels.len(),
{
    if levels.len() > 0 {
        let rest = levels.drop_last();
        lemma_strongest(rest, threshold);
        assert forall|i: int| 0 <= i < rest.len() implies rest[i] == #[trigger] levels[i] by {}
        match brain::strongest(levels, threshold) {
            Some(best) => {
                if best == levels.last() {
                    assert(levels[levels.len() - 1] == best);
                } else {
                    let i = choose|i: int| 0 <= i < rest.len() && rest[i] == best;
                    assert(levels[i] == best);
                }
            },
            None => {},
        }
    }
}

/// A wall is the largest of a side's ten best levels, and at least as large as the threshold;
/// there is none exactly when no level is, or when the threshold is nothing.
pub proof fn a_wall_is_the_largest_level(
    settings: Settings,
    book: BookView,
    ticks: Seq<TradeTick>,
    now: Double,
)
    ensures
        ({
            let m = brain::metrics_of(settings, book, ticks, now);
            let t = m.wall_threshold;
            let bids = best_ten(book.bids, true);
            let asks = best_ten(book.asks, false);
            &&& m.strongest_bid_wall is None ==> forall|i: int|
                0 <= i < bids.len() ==> !(Double::zero().lt(t) && t.le((#[trigger] bids[i]).1))
            &&& m.strongest_ask_wall is None ==> forall|i: int|
                0 <= i < asks.len() ==> !(Double::zero().lt(t) && t.le((#[trigger] asks[i]).1))
            &&& m.strongest_bid_wall matches Some(w) ==> bids.contains(w) && Double::zero().lt(t)
                && t.le(w.1) && forall|i: int|
                0 <= i < bids.len() && t.le((#[trigger] bids[i]).1) ==> double::rank(bids[i].1)
                    <= double::rank(w.1)
            &&& m.strongest_ask_wall matches Some(w) ==> asks.contains(w) && Double::zero().lt(t)
                && t.le(w.1) && forall|i: int|
                0 <= i < asks.len() && t.le((#[trigger] asks[i]).1) ==> double::rank(asks[i].1)
                    <= double::rank(w.1)
        }),
{
    let t = brain::metrics_of(settings, book, ticks, now).wall_threshold;
    assert(best_ten(book.bids, true) =~= brain::top_bids(book.bids));
    assert(best_ten(book.asks, false) =~= brain::top_asks(book.asks));
    lemma_strongest(best_ten(book.bids, true), t);
    lemma_strongest(best_ten(book.asks, false), t);
}

proof fn lemma_last_strongest(levels: Seq<Level>, threshold: Double) -> (k: int)
    requires
        brain::strongest(levels, threshold) is Some,
    ensures
        0 <= k < levels.len(),
        levels[k] == brain::strongest(levels, threshold)->0,
        forall|i: int|
            k < i < levels.len() && threshold.le((#[trigger] levels[i]).1) ==> double::rank(
                levels[i].1,
            ) < double::rank(levels[k].1),
    decreases levels.len(),
{
    let rest = levels.drop_last();
    let n = levels.len() - 1;
    let l = levels.last();
    let best = brain::strongest(rest, threshold);
    lemma_strongest(levels, threshold);
    if threshold.le(l.1) && (best is None || !(double::rank(l.1) < double::rank((best->0).1))) {
        n
    } else {
        let k = lemma_last_strongest(rest, threshold);
        assert(levels[k] == rest[k]);
        assert forall|i: int| k < i < levels.len() && threshold.le((#[trigger] levels[i]).1) implies
            double::rank(levels[i].1) < double::rank(levels[k].1) by {
            if i < n {
                assert(rest[i] == levels[i]);
            }
        }
        k
    }
}

/// Of levels of the same size the one farther from the touch is the wall: none that lies behind
/// the wall among the ten best is as large.
pub proof fn of_equal_levels_the_farther_is_the_wall(
    settings: Settings,
    book: BookView,
    ticks: Seq<TradeTick>,
    now: Double,
)
    ensures
        ({
            let m = brain::metrics_of(settings, book, ticks, now);
            let t = m.wall_threshold;
            let bids = best_ten(book.bids, true);
            let asks = best_ten(book.asks, false);
            &&& m.strongest_bid_wall is Some ==> exists|k: int|
                #![trigger bids[k]]
                0 <= k < bids.len() && bids[k] == m.strongest_bid_wall->0 && forall|i: int|
                    k < i < bids.len() && t.le((#[trigger] bids[i]).1) ==> double::rank(bids[i].1)
                        < double::rank(bids[k].1)
            &&& m.strongest_ask_wall is Some ==> exists|k: int|
                #![trigger asks[k]]
                0 <= k < asks.len() && asks[k] == m.strongest_ask_wall->0 && forall|i: int|
                    k < i < asks.len() && t.le((#[trigger] asks[i]).1) ==> double::rank(asks[i].1)
                        < double::rank(asks[k].1)
        }),
{
    let m = brain::metrics_of(settings, book, ticks, now);
    let t = m.wall_threshold;
    let bids = best_ten(book.bids, true);
    let asks = best_ten(book.asks, false);
    assert(bids =~= brain::top_bids(book.bids));
    assert(asks =~= brain::top_asks(book.asks));
    if m.strongest_bid_wall is Some {
        let k = lemma_last_strongest(bids, t);
        assert(bids[k] == m.strongest_bid_wall->0);
    }
    if m.strongest_ask_wall is Some {
        let k = lemma_last_strongest(asks, t);
        assert(asks[k] == m.strongest_ask_wall->0);
    }
}

/// A sum is taken of every number, one after the other.
pub proof fn a_sum_takes_every_number(xs: Seq<Double>, x: Double)
    ensures
        brain::sum(Seq::empty()) == Double::zero(),
        brain::sum(xs.push(x)) == brain::sum(xs).add(x),
{
    assert(xs.push(x).drop_last() =~= xs);
}

proof fn lemma_recent(history: Seq<Sample>, cutoff: Double)
    ensures
        brain::since(history, cutoff) == history.filter(|s: Sample| cutoff.le(s.0)),
    decreases history.len(),
{
    reveal(Seq::filter);
    if history.len() > 0 {
        lemma_recent(history.drop_last(), cutoff);
    } else {
        assert(history.filter(|s: Sample| cutoff.le(s.0)) =~= history);
    }
}

/// The BTC trend is taken from the oldest to the newest sample of the last minute. It is known
/// only with two samples that are at least forty-five seconds apart; it is up with a rise of
/// two hundredths of a percent or more, down with a fall of as much or more, and flat between.
pub proof fn the_trend_is_the_move_of_a_minute(history: Seq<Sample>, now: Double)
    ensures
        ({
            let t = brain::trend_at(history, now);
            let samples = history.filter(|s: Sample| now.sub(Double::whole(60)).le(s.0));
            let first = samples[0];
            let last = samples[samples.len() - 1];
            let covered = last.0.sub(first.0);
            let change = if Double::zero().lt(first.1) {
                last.1.sub(first.1).div(first.1)
            } else {
                Double::zero()
            };
            let least = Double::ratio(2, 10_000);
            &&& samples.len() < 2 ==> !t.ready && t.direction == TrendDirection::Unknown
                && t.change_pct == Double::zero() && t.coverage == Double::zero()
            &&& samples.len() >= 2 ==> {
                &&& t.coverage == covered && t.change_pct == change
                &&& covered.lt(Double::whole(45)) ==> !t.ready && t.direction
                    == TrendDirection::Unknown
                &&& !covered.lt(Double::whole(45)) ==> t.ready && t.direction == if least.le(
                    change,
                ) {
                    TrendDirection::Up
                } else if change.le(least.neg()) {
                    TrendDirection::Down
                } else {
                    TrendDirection::Flat
                }
            }
        }),
{
    lemma_recent(history, now.sub(Double::whole(60)));
}

/// The filter lets a long pass only in a known rising trend and a short only in a known falling
/// one; only BTC is never held back.
pub proof fn the_filter_follows_the_trend(symbol: Seq<char>, side: Side, trend: BtcTrend)
    ensures
        symbol == "BTCUSDT"@ ==> brain::trend_allows(symbol, side, trend),
        symbol != "BTCUSDT"@ ==> (brain::trend_allows(symbol, side, trend) <==> trend.ready
            && match side {
            Side::Long => trend.direction == TrendDirection::Up,
            Side::Short => trend.direction == TrendDirection::Down,
        }),
{
}

/// The BTC history takes the middle of a two-sided quote at most four times a second, keeps at
/// most four hundred samples, newest last, and forgets what is older than sixty-five seconds.
pub proof fn the_history_keeps_a_minute(history: Seq<Sample>, book: BookView, now: Double)
    requires
        history.len() <= 400,
    ensures
        ({
            let after = brain::recorded(history, Some(book), now);
            let (bid, ask) = models::best_prices(book);
            let quoted = !bid.le(Double::zero()) && !ask.le(Double::zero());
            let due = history.len() == 0 || Double::ratio(1, 4).le(now.sub(history.last().0));
            let oldest = now.sub(Double::whole(60).add(Double::whole(5)));
            let mid = (now, bid.add(ask).div(Double::whole(2)));
            let grown = if !due {
                history
            } else if history.len() < 400 {
                history.push(mid)
            } else {
                history.drop_first().push(mid)
            };
            &&& brain::recorded(history, None, now) == history
            &&& !quoted ==> after == history
            &&& quoted ==> after.len() <= 400 && after.len() <= grown.len()
            &&& quoted ==> after == grown.skip(grown.len() - after.len())
            &&& quoted && after.len() > 0 ==> !after[0].0.lt(oldest)
            &&& quoted ==> forall|i: int|
                0 <= i < grown.len() - after.len() ==> (#[trigger] grown[i]).0.lt(oldest)
        }),
{
    let (bid, ask) = models::best_prices(book);
    let oldest = now.sub(Double::whole(60).add(Double::whole(5)));
    let grown = brain::with_sample(history, now, bid.add(ask).div(Double::whole(2)));
    lemma_forgotten(grown, oldest);
}

proof fn lemma_forgotten(history: Seq<Sample>, cutoff: Double)
    ensures
        ({
            let kept = brain::from_moment(history, cutoff);
            &&& kept.len() <= history.len()
            &&& kept == history.skip(history.len() - kept.len())
            &&& kept.len() > 0 ==> !kept[0].0.lt(cutoff)
            &&& forall|i: int|
                0 <= i < history.len() - kept.len() ==> (#[trigger] history[i]).0.lt(cutoff)
        }),
    decreases history.len(),
{
    if history.len() > 0 && history[0].0.lt(cutoff) {
        let rest = history.drop_first();
        lemma_forgotten(rest, cutoff);
        let kept = brain::from_moment(history, cutoff);
        assert(rest.skip(rest.len() - kept.len()) =~= history.skip(history.len() - kept.len()));
        assert forall|i: int| 0 <= i < history.len() - kept.len() implies (
        #[trigger] history[i]).0.lt(cutoff) by {
            if i > 0 {
                assert(rest[i - 1] == history[i]);
            }
        }
    } else {
        assert(history.skip(0) =~= history);
    }
}

} // verus!
