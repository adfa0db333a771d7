//! What fills, results and costs mean.
use vstd::prelude::*;
use crate::config::Settings;
use crate::double::Double;
use crate::execution;
use crate::models::Side;
use crate::number_laws;

verus! {

/// The two sides are opposite: each is the inverse of the other, one gains upwards and one
/// downwards.
pub proof fn sides_are_opposite(side: Side)
    ensures
        side.inverted() != side,
        side.inverted().inverted() == side,
        Side::Long.direction() == Double::one(),
        Side::Short.direction() == Double::one().neg(),
        Side::Long.name() == "LONG"@,
        Side::Short.name() == "SHORT"@,
{
}

/// An entry takes the side of the book that is there to be taken: a long the ask, a short the
/// bid; an exit the other. The price is worse than that by the slippage, the fee is a share of
/// what changes hands, and the slippage is paid on every unit.
pub proof fn fills_cross_the_spread(
    settings: Settings,
    bid: Double,
    ask: Double,
    quantity: Double,
)
    ensures
        ({
            let one = Double::one();
            let s = settings.slippage_pct;
            let up = one.mul(s);
            let down = one.neg().mul(s);
            let buy = execution::entry_filled(settings, Side::Long, bid, ask, quantity);
            let short = execution::entry_filled(settings, Side::Short, bid, ask, quantity);
            let sell = execution::exit_filled(settings, Side::Long, bid, ask, quantity);
            let cover = execution::exit_filled(settings, Side::Short, bid, ask, quantity);
            &&& buy.price == ask.mul(one.add(up))
            &&& short.price == bid.mul(one.add(down))
            &&& sell.price == bid.mul(one.sub(up))
            &&& cover.price == ask.mul(one.sub(down))
            &&& buy.fee == buy.price.mul(quantity).mul(settings.taker_fee_pct)
            &&& short.fee == short.price.mul(quantity).mul(settings.taker_fee_pct)
            &&& sell.fee == sell.price.mul(quantity).mul(settings.taker_fee_pct)
            &&& cover.fee == cover.price.mul(quantity).mul(settings.taker_fee_pct)
            &&& buy.slippage_cost == buy.price.sub(ask).abs().mul(quantity)
            &&& short.slippage_cost == short.price.sub(bid).abs().mul(quantity)
            &&& sell.slippage_cost == sell.price.sub(bid).abs().mul(quantity)
            &&& cover.slippage_cost == cover.price.sub(ask).abs().mul(quantity)
        }),
{
}

/// A long gains when the price rises and loses when it falls, a short the other way round, by
/// the move times the quantity; the net result is the gross one less both fees.
pub proof fn results_have_the_sign_of_the_move(
    entry: Double,
    exit: Double,
    quantity: Double,
    entry_fee: Double,
    exit_fee: Double,
)
    requires
        entry.finite(),
        exit.finite(),
        quantity.finite(),
        Double::zero().le(quantity),
        exit.sub(entry).finite(),
        exit.sub(entry).mul(quantity).finite(),
    ensures
        ({
            let long = execution::pnl(Side::Long, entry, exit, quantity, entry_fee, exit_fee);
            let short = execution::pnl(Side::Short, entry, exit, quantity, entry_fee, exit_fee);
            &&& long.0 == exit.sub(entry).mul(quantity)
            &&& short.0 == long.0.neg()
            &&& entry.le(exit) ==> Double::zero().le(long.0) && short.0.le(Double::zero())
            &&& exit.le(entry) ==> long.0.le(Double::zero()) && Double::zero().le(short.0)
            &&& long.1 == long.0.sub(entry_fee).sub(exit_fee)
            &&& short.1 == short.0.sub(entry_fee).sub(exit_fee)
        }),
{
    let moved = exit.sub(entry);
    lemma_turned(moved.mul(quantity));
    lemma_scaled(moved, quantity);
    lemma_moved(entry, exit);
}

proof fn lemma_moved(entry: Double, exit: Double)
    requires
        entry.finite(),
        exit.finite(),
    ensures
        entry.le(exit) ==> Double::zero().le(exit.sub(entry)),
        exit.le(entry) ==> exit.sub(entry).le(Double::zero()),
{
    if entry.le(exit) {
        number_laws::difference_sign(entry, exit);
    }
    if exit.le(entry) {
        number_laws::difference_sign(exit, entry);
    }
}

proof fn lemma_scaled(moved: Double, quantity: Double)
    requires
        moved.finite(),
        quantity.finite(),
        Double::zero().le(quantity),
    ensures
        Double::zero().le(moved) ==> Double::zero().le(moved.mul(quantity)),
        moved.le(Double::zero()) ==> moved.mul(quantity).le(Double::zero()),
{
    number_laws::product_sign(moved, quantity);
}

proof fn lemma_turned(x: Double)
    requires
        x.finite(),
    ensures
        x.mul(Double::one()) == x,
        x.mul(Double::one().neg()) == x.neg(),
        Double::zero().le(x) ==> x.neg().le(Double::zero()),
        x.le(Double::zero()) ==> Double::zero().le(x.neg()),
{
    number_laws::product_with_one(x);
    number_laws::product_with_minus_one(x);
}

proof fn lemma_at_least_nothing(x: Double)
    ensures
        Double::zero().le(x.max(Double::zero())),
{
}

/// The cost of a round trip is the spread in relation to the middle, and fee and slippage
/// twice, all times the safety factor; without a two-sided quote it is infinite.
pub proof fn a_round_trip_costs_spread_fees_and_slippage(settings: Settings, bid: Double, ask: Double)
    ensures
        bid.le(Double::zero()) || ask.le(Double::zero()) ==> execution::round_trip_cost(
            settings,
            bid,
            ask,
        ) == Double::infinity(),
        !bid.le(Double::zero()) && !ask.le(Double::zero()) ==> ({
            let two = Double::whole(2);
            let spread = ask.sub(bid).div(ask.add(bid).div(two));
            let each = settings.taker_fee_pct.add(settings.slippage_pct);
            execution::round_trip_cost(settings, bid, ask) == spread.add(two.mul(each)).mul(
                settings.cost_safety_multiplier,
            )
        }),
{
}

/// The ratio of reward to risk takes the cost off the one and adds it to the other.
pub proof fn costs_count_on_both_sides(target: Double, stop: Double, cost: Double)
    ensures
        !stop.add(cost).le(Double::zero()) ==> execution::reward_risk(target, stop, cost)
            == target.sub(cost).div(stop.add(cost)),
        stop.add(cost).le(Double::zero()) ==> execution::reward_risk(target, stop, cost)
            == Double::zero(),
{
}

/// A target is granted exactly for usable distances and bounds that it does not pass; it is
/// then the larger of the multiple of the stop and of what the ratio after costs needs.
pub proof fn a_target_pays_after_costs(
    stop: Double,
    cost: Double,
    multiple: Double,
    ratio: Double,
    most: Double,
)
    ensures
        ({
            let granted = execution::target_granted(stop, cost, multiple, ratio, most);
            let gross = stop.mul(multiple);
            let needed = cost.add(ratio.mul(stop.add(cost)));
            let zero = Double::zero();
            let usable = stop.finite() && cost.finite() && zero.lt(stop) && zero.le(cost)
                && !multiple.le(zero) && !ratio.le(zero) && !most.le(zero);
            &&& granted is Some ==> usable && (granted->0 == gross || granted->0 == needed)
                && !(granted->0).lt(gross) && !(granted->0).lt(needed) && (granted->0).le(most)
                && (granted->0).finite()
            &&& usable && gross.finite() && needed.finite() && gross.le(most) && needed.le(most)
                ==> granted is Some
        }),
{
}

/// What a unit loses at its stop is the loss of entering at the quote and leaving at the stop,
/// both with slippage and fees, and never less than nothing; without positive prices it is
/// infinite.
pub proof fn a_stop_loses_entry_to_stop_and_fees(
    settings: Settings,
    side: Side,
    bid: Double,
    ask: Double,
    stop: Double,
)
    ensures
        ({
            let zero = Double::zero();
            let one = Double::one();
            let loss = execution::stop_loss(settings, side, bid, ask, stop);
            let sign = match side {
                Side::Long => one,
                Side::Short => one.neg(),
            };
            let taken = match side {
                Side::Long => ask,
                Side::Short => bid,
            };
            let entry = taken.mul(one.add(sign.mul(settings.slippage_pct)));
            let exit = stop.mul(one.sub(sign.mul(settings.slippage_pct)));
            let net = exit.sub(entry).mul(one).mul(sign).sub(
                entry.mul(one).mul(settings.taker_fee_pct),
            ).sub(exit.mul(one).mul(settings.taker_fee_pct));
            &&& bid.le(zero) || ask.le(zero) || stop.le(zero) ==> loss == Double::infinity()
            &&& !bid.le(zero) && !ask.le(zero) && !stop.le(zero) ==> loss == net.neg().max(zero)
                && zero.le(loss)
        }),
{
    let one = Double::one();
    let sign = match side {
        Side::Long => one,
        Side::Short => one.neg(),
    };
    let taken = match side {
        Side::Long => ask,
        Side::Short => bid,
    };
    let entry = taken.mul(one.add(sign.mul(settings.slippage_pct)));
    let exit = stop.mul(one.sub(sign.mul(settings.slippage_pct)));
    lemma_at_least_nothing(
        exit.sub(entry).mul(one).mul(sign).sub(entry.mul(one).mul(settings.taker_fee_pct)).sub(
            exit.mul(one).mul(settings.taker_fee_pct),
        ).neg(),
    );
}

} // verus!
