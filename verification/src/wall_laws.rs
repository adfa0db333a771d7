//! What it means that a wall was absorbed.
use vstd::prelude::*;
use crate::brain;
use crate::double::Double;
use crate::models;
use crate::models::{BookView, Level, TradeTick, WallSide, WallTrack};
use crate::number_laws;

verus! {

/// The trades of one aggressor.
pub open spec fn trades_by(ticks: Seq<TradeTick>, is_buy: bool) -> Seq<TradeTick> {
    ticks.filter(|t: TradeTick| t.is_buy == is_buy)
}

proof fn lemma_tolerance(book: BookView, price: Double)
    requires
        price.finite(),
        Double::zero().le(price),
        models::best_prices(book).0.finite(),
        models::best_prices(book).1.finite(),
    ensures
        !brain::tolerance(book, price).nan(),
        Double::zero().le(brain::tolerance(book, price)),
{
    let part = Double::ratio(1, 10_000);
    number_laws::ratios_are_numbers(1, 10_000);
    number_laws::product_sign(price, part);
}

proof fn lemma_within_reach(price: Double, reach: Double)
    requires
        price.finite(),
        !reach.nan(),
        Double::zero().le(reach),
    ensures
        price.ge(price.sub(reach)),
        price.le(price.add(reach)),
{
    if reach.finite() {
        number_laws::difference_with_non_negative(price, reach);
        number_laws::sum_with_non_negative(price, reach);
    }
}

/// A wall is eaten by the aggressor opposite to it and by nobody else: a sell at the price of
/// a bid wall adds its size to what was executed there and a buy adds nothing, a buy at the
/// price of an ask wall adds its size and a sell adds nothing; and that only within the time
/// that the wall was watched.
pub proof fn the_opposite_aggressor_eats_a_wall(
    book: BookView,
    ticks: Seq<TradeTick>,
    tick: TradeTick,
    track: WallTrack,
    side: WallSide,
    now: Double,
)
    requires
        tick.price == track.price,
        track.price.finite(),
        Double::zero().le(track.price),
        models::best_prices(book).0.finite(),
        models::best_prices(book).1.finite(),
        !tick.timestamp.nan() && !track.started_at.nan() && !now.nan(),
    ensures
        ({
            let before = brain::absorption_at(book, ticks, track, side, now).executed_quantity;
            let after = brain::absorption_at(
                book,
                ticks.push(tick),
                track,
                side,
                now,
            ).executed_quantity;
            let in_time = track.started_at.le(tick.timestamp) && tick.timestamp.le(now);
            &&& side == WallSide::Bid && !tick.is_buy && in_time ==> after == before.add(tick.size)
            &&& side == WallSide::Ask && tick.is_buy && in_time ==> after == before.add(tick.size)
            &&& side == WallSide::Bid && tick.is_buy ==> after == before
            &&& side == WallSide::Ask && !tick.is_buy ==> after == before
            &&& !in_time ==> after == before
        }),
{
    let reach = brain::tolerance(book, track.price);
    lemma_tolerance(book, track.price);
    lemma_within_reach(track.price, reach);
    assert(ticks.push(tick).drop_last() =~= ticks);
}

/// A trade beyond the tolerance on the far side of a wall did not eat it: a buy below an ask
/// wall by more than the tolerance, or a sell above a bid wall by more, adds nothing.
pub proof fn trades_away_from_a_wall_do_not_eat_it(
    book: BookView,
    ticks: Seq<TradeTick>,
    tick: TradeTick,
    track: WallTrack,
    side: WallSide,
    now: Double,
)
    requires
        ({
            let (bid, ask) = models::best_prices(book);
            let spread = if bid.gt(Double::zero()) && ask.gt(Double::zero()) {
                ask.sub(bid)
            } else {
                Double::zero()
            };
            let reach = spread.max(track.price.mul(Double::ratio(1, 10_000)));
            match side {
                WallSide::Ask => tick.price.lt(track.price.sub(reach)),
                WallSide::Bid => track.price.add(reach).lt(tick.price),
            }
        }),
    ensures
        brain::absorption_at(book, ticks.push(tick), track, side, now).executed_quantity
            == brain::absorption_at(book, ticks, track, side, now).executed_quantity,
{
    assert(ticks.push(tick).drop_last() =~= ticks);
}

proof fn lemma_one_side_counts(
    ticks: Seq<TradeTick>,
    side: WallSide,
    wall_price: Double,
    started_at: Double,
    now: Double,
    reach: Double,
)
    ensures
        brain::executed(ticks, side, wall_price, started_at, now, reach) == brain::executed(
            trades_by(ticks, side == WallSide::Ask),
            side,
            wall_price,
            started_at,
            now,
            reach,
        ),
    decreases ticks.len(),
{
    reveal(Seq::filter);
    if ticks.len() > 0 {
        let rest = ticks.drop_last();
        lemma_one_side_counts(rest, side, wall_price, started_at, now, reach);
        let kept = trades_by(ticks, side == WallSide::Ask);
        if ticks.last().is_buy == (side == WallSide::Ask) {
            assert(kept =~= trades_by(rest, side == WallSide::Ask).push(ticks.last()));
            assert(kept.drop_last() =~= trades_by(rest, side == WallSide::Ask));
        } else {
            assert(kept =~= trades_by(rest, side == WallSide::Ask));
        }
    }
}

/// What was executed at a bid wall does not change when every buy is taken out of the tape,
/// and what was executed at an ask wall does not change when every sell is.
pub proof fn the_same_side_never_eats_its_wall(
    book: BookView,
    ticks: Seq<TradeTick>,
    track: WallTrack,
    now: Double,
)
    ensures
        brain::absorption_at(book, ticks, track, WallSide::Bid, now).executed_quantity
            == brain::absorption_at(
            book,
            trades_by(ticks, false),
            track,
            WallSide::Bid,
            now,
        ).executed_quantity,
        brain::absorption_at(book, ticks, track, WallSide::Ask, now).executed_quantity
            == brain::absorption_at(
            book,
            trades_by(ticks, true),
            track,
            WallSide::Ask,
            now,
        ).executed_quantity,
        brain::absorption_at(
            book,
            trades_by(ticks, true),
            track,
            WallSide::Bid,
            now,
        ).executed_quantity == Double::zero(),
        brain::absorption_at(
            book,
            trades_by(ticks, false),
            track,
            WallSide::Ask,
            now,
        ).executed_quantity == Double::zero(),
{
    let reach = brain::tolerance(book, track.price);
    let from = track.started_at;
    lemma_one_side_counts(ticks, WallSide::Bid, track.price, from, now, reach);
    lemma_one_side_counts(ticks, WallSide::Ask, track.price, from, now, reach);
    lemma_one_side_counts(trades_by(ticks, true), WallSide::Bid, track.price, from, now, reach);
    lemma_one_side_counts(trades_by(ticks, false), WallSide::Ask, track.price, from, now, reach);
    lemma_no_trades(ticks, true);
    lemma_no_trades(ticks, false);
}

proof fn lemma_no_trades(ticks: Seq<TradeTick>, is_buy: bool)
    ensures
        trades_by(trades_by(ticks, is_buy), !is_buy) =~= Seq::empty(),
    decreases ticks.len(),
{
    reveal(Seq::filter);
    if ticks.len() > 0 {
        lemma_no_trades(ticks.drop_last(), is_buy);
        let inner = trades_by(ticks.drop_last(), is_buy);
        if ticks.last().is_buy == is_buy {
            let all = trades_by(ticks, is_buy);
            assert(all =~= inner.push(ticks.last()));
            assert(all.drop_last() =~= inner);
        }
    }
}

/// A wall that is reported as absorbed had stood for three seconds, has lost a fifth of its
/// size or more, trades account for nine tenths of the loss, and the tape runs into it: buyers
/// into an ask wall, sellers into a bid wall. A wall of which all of that is true is reported.
pub proof fn a_wall_is_absorbed_exactly_by_trades_and_tape(
    track: WallTrack,
    book: BookView,
    ticks: Seq<TradeTick>,
    side: WallSide,
    candidate: Option<Level>,
    now: Double,
)
    requires
        track.verified,
        !track.triggered,
    ensures
        ({
            let (next, report) = brain::wall_step(
                Some(track),
                book,
                ticks,
                side,
                candidate,
                now,
            );
            let levels = match side {
                WallSide::Bid => book.bids,
                WallSide::Ask => book.asks,
            };
            let here = match models::size_at(levels, track.price) {
                Some(size) => size,
                None => Double::zero(),
            };
            let tape = brain::tape_at(ticks, now);
            &&& report is Some
            &&& ({
                let a = report->0;
                let gone = track.initial_size.sub(here);
                &&& a.side == side
                &&& a.price == track.price
                &&& a.initial_size == track.initial_size
                &&& a.current_size == here
                &&& gone.gt(Double::zero()) ==> a.depleted_quantity == gone
                &&& gone.le(Double::zero()) ==> a.depleted_quantity.same(Double::zero())
                &&& track.initial_size.gt(Double::zero()) ==> a.depletion_ratio
                    == a.depleted_quantity.div(track.initial_size)
                &&& a.depleted_quantity.gt(Double::zero()) ==> a.matched_ratio
                    == a.executed_quantity.div(a.depleted_quantity)
                &&& !a.depleted_quantity.gt(Double::zero()) ==> a.matched_ratio == Double::zero()
                &&& a.verified_for == now.sub(track.started_at)
                &&& a.absorbed <==> {
                    &&& Double::ratio(20, 100).le(a.depletion_ratio)
                    &&& a.depleted_quantity.mul(Double::ratio(90, 100)).le(a.executed_quantity)
                    &&& match side {
                        WallSide::Bid => tape.sell_accelerating,
                        WallSide::Ask => tape.buy_accelerating,
                    }
                }
                &&& a.absorbed ==> next == Some(WallTrack { triggered: true, ..track })
                &&& !a.absorbed ==> next == None::<WallTrack> || next == Some(track)
                &&& !a.absorbed && next is None ==> here.le(Double::zero())
                &&& !a.absorbed && Double::zero().lt(here) ==> next == Some(track)
            })
        }),
{
}

/// A wall is watched from the moment it is seen, with the size it has then. It is verified
/// only once it was seen for three seconds at the same place; before that it is forgotten when
/// it is gone or has lost a fifth, and starts over when it moved or grew by more than a
/// twentieth. Nothing is reported of a wall before it is verified, or again after it was
/// absorbed.
pub proof fn a_wall_is_verified_by_standing(
    watched: Option<WallTrack>,
    book: BookView,
    ticks: Seq<TradeTick>,
    side: WallSide,
    candidate: Option<Level>,
    now: Double,
)
    ensures
        ({
            let (next, report) = brain::wall_step(watched, book, ticks, side, candidate, now);
            let levels = match side {
                WallSide::Bid => book.bids,
                WallSide::Ask => book.asks,
            };
            let (bid, ask) = models::best_prices(book);
            let spread = if bid.gt(Double::zero()) && ask.gt(Double::zero()) {
                ask.sub(bid)
            } else {
                Double::zero()
            };
            &&& watched is None && candidate is None ==> next is None && report is None
            &&& watched is None && candidate is Some ==> report is None && next == Some(
                WallTrack {
                    side,
                    price: (candidate->0).0,
                    initial_size: (candidate->0).1,
                    peak_size: (candidate->0).1,
                    started_at: now,
                    verified: false,
                    triggered: false,
                },
            )
            &&& watched is Some && (watched->0).verified && (watched->0).triggered ==> next
                == watched && report is None
            &&& watched is Some && !(watched->0).verified ==> {
                let track = watched->0;
                let reach = spread.max(track.price.mul(Double::ratio(1, 10_000)));
                let here = match models::size_at(levels, track.price) {
                    Some(size) => size,
                    None => Double::zero(),
                };
                match candidate {
                    None => next is None && report is None,
                    Some((price, size)) => {
                        let near = price.sub(track.price).abs().le(reach);
                        let grew = track.peak_size.mul(Double::ratio(105, 100)).lt(size);
                        let fell = track.initial_size.mul(Double::ratio(20, 100)).le(
                            track.initial_size.sub(here),
                        );
                        let stood = Double::whole(3).le(now.sub(track.started_at));
                        &&& report is Some ==> near && !grew && !fell && stood && !track.triggered
                        &&& near && !grew && !fell && stood && !track.triggered ==> report is Some
                        &&& !near ==> next is Some && (next->0).started_at == now && (
                        next->0).price == price && (next->0).initial_size == size
                            && !(next->0).verified
                        &&& near && grew ==> next is Some && (next->0).started_at == now && (
                        next->0).initial_size == size && (next->0).peak_size == size && (
                        next->0).price == track.price && !(next->0).verified
                        &&& near && !grew && fell ==> next is None
                        &&& near && !grew && !fell && !stood ==> next is Some && !(
                        next->0).verified && (next->0).started_at == track.started_at && (
                        next->0).initial_size == track.initial_size && (next->0).price
                            == track.price && (next->0).peak_size == track.peak_size.max(size)
                        &&& next is Some && (next->0).verified ==> near && !grew && !fell && stood
                    },
                }
            }
        }),
{
}

/// Whether a trade counts against a wall: it came while the wall was watched, from the side that
/// trades into the wall, and at a price no more than the live spread, or a ten-thousandth of the
/// wall's price if that is more, short of it. Such a trade adds its size and any other nothing.
pub proof fn a_trade_counts_within_reach_of_its_wall(
    book: BookView,
    ticks: Seq<TradeTick>,
    tick: TradeTick,
    track: WallTrack,
    side: WallSide,
    now: Double,
)
    ensures
        ({
            let before = brain::absorption_at(book, ticks, track, side, now).executed_quantity;
            let after = brain::absorption_at(
                book,
                ticks.push(tick),
                track,
                side,
                now,
            ).executed_quantity;
            let (bid, ask) = models::best_prices(book);
            let spread = if Double::zero().lt(bid) && Double::zero().lt(ask) {
                ask.sub(bid)
            } else {
                Double::zero()
            };
            let reach = spread.max(track.price.mul(Double::ratio(1, 10_000)));
            let counts = !tick.timestamp.lt(track.started_at) && !now.lt(tick.timestamp)
                && match side {
                WallSide::Ask => tick.is_buy && track.price.sub(reach).le(tick.price),
                WallSide::Bid => !tick.is_buy && tick.price.le(track.price.add(reach)),
            };
            &&& counts ==> after == before.add(tick.size)
            &&& !counts ==> after == before
            &&& brain::absorption_at(book, Seq::empty(), track, side, now).executed_quantity
                == Double::zero()
        }),
{
    assert(ticks.push(tick).drop_last() =~= ticks);
}

/// A verified wall is forgotten exactly when nothing of it is left and trades do not account for
/// that: it was pulled, not eaten.
pub proof fn a_wall_that_was_pulled_is_forgotten(
    track: WallTrack,
    book: BookView,
    ticks: Seq<TradeTick>,
    side: WallSide,
    candidate: Option<Level>,
    now: Double,
)
    requires
        track.verified,
        !track.triggered,
    ensures
        ({
            let (next, report) = brain::wall_step(
                Some(track),
                book,
                ticks,
                side,
                candidate,
                now,
            );
            let a = report->0;
            let pulled = a.depletion_ratio.lt(Double::ratio(20, 100)) || a.executed_quantity.lt(
                a.depleted_quantity.mul(Double::ratio(90, 100)),
            );
            next is None <==> !a.absorbed && a.current_size.le(Double::zero()) && pulled
        }),
{
}

/// A wall that is verified by a look is judged by that look like one that was verified before.
pub proof fn a_wall_is_judged_once_it_is_verified(
    track: WallTrack,
    book: BookView,
    ticks: Seq<TradeTick>,
    side: WallSide,
    candidate: Level,
    now: Double,
)
    requires
        !track.verified,
        brain::wall_step(Some(track), book, ticks, side, Some(candidate), now).1 is Some,
    ensures
        brain::wall_step(Some(track), book, ticks, side, Some(candidate), now) == brain::wall_step(
            Some(
                WallTrack { verified: true, peak_size: track.peak_size.max(candidate.1), ..track },
            ),
            book,
            ticks,
            side,
            None,
            now,
        ),
{
}

} // verus!
