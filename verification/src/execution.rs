//! Simulated fills: marketable prices, fees, slippage and after-cost targets.
use vstd::prelude::*;
use crate::config::Settings;
use crate::double::Double;
use crate::models::Side;
use crate::number_laws;

verus! {

#[derive(Clone, Copy, Debug, PartialEq, Eq, Structural)]
pub struct Fill {
    pub price: Double,
    pub fee: Double,
    pub slippage_cost: Double,
}

/// A fill at `price` for a quote of `touch`.
pub open spec fn filled(settings: Settings, touch: Double, price: Double, quantity: Double) -> Fill {
    Fill {
        price,
        fee: price.mul(quantity).mul(settings.taker_fee_pct),
        slippage_cost: price.sub(touch).abs().mul(quantity),
    }
}

pub open spec fn entry_touch(side: Side, bid: Double, ask: Double) -> Double {
    match side {
        Side::Long => ask,
        Side::Short => bid,
    }
}

pub open spec fn entry_filled(
    settings: Settings,
    side: Side,
    bid: Double,
    ask: Double,
    quantity: Double,
) -> Fill {
    let touch = entry_touch(side, bid, ask);
    filled(
        settings,
        touch,
        touch.mul(Double::one().add(side.direction().mul(settings.slippage_pct))),
        quantity,
    )
}

pub open spec fn exit_filled(
    settings: Settings,
    side: Side,
    bid: Double,
    ask: Double,
    quantity: Double,
) -> Fill {
    let touch = entry_touch(side.inverted(), bid, ask);
    filled(
        settings,
        touch,
        touch.mul(Double::one().sub(side.direction().mul(settings.slippage_pct))),
        quantity,
    )
}

fn fill(settings: &Settings, touch: Double, price: Double, quantity: Double) -> (r: Fill)
    ensures
        r == filled(*settings, touch, price, quantity),
{
    Fill {
        price,
        fee: price.mul(quantity).mul(settings.taker_fee_pct),
        slippage_cost: price.sub(touch).abs().mul(quantity),
    }
}

/// Marketable entry: a long pays the ask, a short sells the bid.
pub fn entry_fill(
    settings: &Settings,
    side: Side,
    bid: Double,
    ask: Double,
    quantity: Double,
) -> (r: Fill)
    ensures
        r == entry_filled(*settings, side, bid, ask, quantity),
{
    let touch = match side {
        Side::Long => ask,
        Side::Short => bid,
    };
    let price = touch.mul(Double::one().add(side.direction().mul(settings.slippage_pct)));
    fill(settings, touch, price, quantity)
}

/// Liquidating exit: crosses to the opposite side of the spread.
pub fn exit_fill(
    settings: &Settings,
    side: Side,
    bid: Double,
    ask: Double,
    quantity: Double,
) -> (r: Fill)
    ensures
        r == exit_filled(*settings, side, bid, ask, quantity),
{
    let touch = match side {
        Side::Long => bid,
        Side::Short => ask,
    };
    let price = touch.mul(Double::one().sub(side.direction().mul(settings.slippage_pct)));
    fill(settings, touch, price, quantity)
}

/// Gross and net result of a round trip.
pub open spec fn pnl(
    side: Side,
    entry: Double,
    exit_price: Double,
    quantity: Double,
    entry_fee: Double,
    exit_fee: Double,
) -> (Double, Double) {
    let gross = exit_price.sub(entry).mul(quantity).mul(side.direction());
    (gross, gross.sub(entry_fee).sub(exit_fee))
}

/// Gross and net result of a round trip, with explicit fees.
pub fn trade_pnl(
    side: Side,
    entry: Double,
    exit_price: Double,
    quantity: Double,
    entry_fee: Double,
    exit_fee: Double,
) -> (r: (Double, Double))
    ensures
        r == pnl(side, entry, exit_price, quantity, entry_fee, exit_fee),
{
    let gross = exit_price.sub(entry).mul(quantity).mul(side.direction());
    (gross, gross.sub(entry_fee).sub(exit_fee))
}

/// Relative cost of crossing the spread twice, with fees, slippage and a safety factor;
/// infinite without a two-sided quote.
pub open spec fn round_trip_cost(settings: Settings, bid: Double, ask: Double) -> Double {
    if bid.le(Double::zero()) || ask.le(Double::zero()) {
        Double::infinity()
    } else {
        let two = Double::whole(2);
        let spread = ask.sub(bid).div(ask.add(bid).div(two));
        spread.add(two.mul(settings.taker_fee_pct.add(settings.slippage_pct))).mul(
            settings.cost_safety_multiplier,
        )
    }
}

pub fn estimated_round_trip_cost_pct(settings: &Settings, bid: Double, ask: Double) -> (r: Double)
    ensures
        r == round_trip_cost(*settings, bid, ask),
{
    if bid.le(Double::zero()) || ask.le(Double::zero()) {
        return Double::infinity();
    }
    let two = Double::whole(2);
    let spread = ask.sub(bid).div(ask.add(bid).div(two));
    let variable = spread.add(two.mul(settings.taker_fee_pct.add(settings.slippage_pct)));
    variable.mul(settings.cost_safety_multiplier)
}

/// The target distance that both the gross multiple and the after-cost ratio ask for.
pub open spec fn wanted_distance(
    stop_distance_pct: Double,
    cost_pct: Double,
    base_target_r: Double,
    min_net_reward_risk: Double,
) -> Double {
    stop_distance_pct.mul(base_target_r).max(
        cost_pct.add(min_net_reward_risk.mul(stop_distance_pct.add(cost_pct))),
    )
}

/// The target distance if the inputs are usable and it is within the allowed maximum.
pub open spec fn target_granted(
    stop_distance_pct: Double,
    cost_pct: Double,
    base_target_r: Double,
    min_net_reward_risk: Double,
    max_target_pct: Double,
) -> Option<Double> {
    let zero = Double::zero();
    let distance = wanted_distance(
        stop_distance_pct,
        cost_pct,
        base_target_r,
        min_net_reward_risk,
    );
    if !stop_distance_pct.finite() || !cost_pct.finite() || stop_distance_pct.le(zero)
        || cost_pct.lt(zero) || base_target_r.le(zero) || min_net_reward_risk.le(zero)
        || max_target_pct.le(zero) || !distance.finite() || !distance.le(max_target_pct) {
        None
    } else {
        Some(distance)
    }
}

/// The least target distance that satisfies the after-cost reward-to-risk gate, with the
/// configured gross multiple as a lower bound; none if the inputs are not usable or the
/// distance is past the allowed maximum.
pub fn cost_aware_target_distance_pct(
    stop_distance_pct: Double,
    cost_pct: Double,
    base_target_r: Double,
    min_net_reward_risk: Double,
    max_target_pct: Double,
) -> (r: Option<Double>)
    ensures
        r == target_granted(
            stop_distance_pct,
            cost_pct,
            base_target_r,
            min_net_reward_risk,
            max_target_pct,
        ),
{
    let zero = Double::zero();
    if !stop_distance_pct.is_finite() || !cost_pct.is_finite() || stop_distance_pct.le(zero)
        || cost_pct.lt(zero) || base_target_r.le(zero) || min_net_reward_risk.le(zero)
        || max_target_pct.le(zero) {
        return None;
    }
    let base_distance = stop_distance_pct.mul(base_target_r);
    let after_cost_distance = cost_pct.add(
        min_net_reward_risk.mul(stop_distance_pct.add(cost_pct)),
    );
    let distance = base_distance.max(after_cost_distance);
    if distance.is_finite() && distance.le(max_target_pct) {
        Some(distance)
    } else {
        None
    }
}

/// After-cost reward over after-cost risk; zero without risk.
pub open spec fn reward_risk(
    target_distance_pct: Double,
    stop_distance_pct: Double,
    cost_pct: Double,
) -> Double {
    let net_risk = stop_distance_pct.add(cost_pct);
    if net_risk.le(Double::zero()) {
        Double::zero()
    } else {
        target_distance_pct.sub(cost_pct).div(net_risk)
    }
}

pub fn net_reward_risk(
    target_distance_pct: Double,
    stop_distance_pct: Double,
    cost_pct: Double,
) -> (r: Double)
    ensures
        r == reward_risk(target_distance_pct, stop_distance_pct, cost_pct),
{
    let net_risk = stop_distance_pct.add(cost_pct);
    if net_risk.le(Double::zero()) {
        return Double::zero();
    }
    target_distance_pct.sub(cost_pct).div(net_risk)
}

/// Estimated net loss per unit when the structural stop is reached; infinite without
/// positive prices.
pub open spec fn stop_loss(
    settings: Settings,
    side: Side,
    bid: Double,
    ask: Double,
    stop_price: Double,
) -> Double {
    let zero = Double::zero();
    if bid.le(zero) || ask.le(zero) || stop_price.le(zero) {
        Double::infinity()
    } else {
        let one = Double::one();
        let entry = entry_filled(settings, side, bid, ask, one);
        let exit = exit_filled(settings, side, stop_price, stop_price, one);
        pnl(side, entry.price, exit.price, one, entry.fee, exit.fee).1.neg().max(zero)
    }
}

pub fn stop_loss_per_unit(
    settings: &Settings,
    side: Side,
    bid: Double,
    ask: Double,
    stop_price: Double,
) -> (r: Double)
    ensures
        r == stop_loss(*settings, side, bid, ask, stop_price),
{
    let zero = Double::zero();
    if bid.le(zero) || ask.le(zero) || stop_price.le(zero) {
        return Double::infinity();
    }
    let one = Double::one();
    let entry = entry_fill(settings, side, bid, ask, one);
    let exit = exit_fill(settings, side, stop_price, stop_price, one);
    let (_, net) = trade_pnl(side, entry.price, exit.price, one, entry.fee, exit.fee);
    net.neg().max(zero)
}

/// The slippage setting is a share between nothing and everything.
pub open spec fn sane_slippage(settings: Settings) -> bool {
    &&& settings.slippage_pct.finite()
    &&& Double::zero().le(settings.slippage_pct)
    &&& settings.slippage_pct.le(Double::one())
}

proof fn lemma_slippage_factors(settings: Settings)
    requires
        sane_slippage(settings),
    ensures
        ({
            let one = Double::one();
            let s = settings.slippage_pct;
            let up = one.add(Side::Long.direction().mul(s));
            let down = one.add(Side::Short.direction().mul(s));
            &&& one.sub(Side::Long.direction().mul(s)) == down
            &&& one.sub(Side::Short.direction().mul(s)) == up
            &&& up.finite()
            &&& one.le(up)
            &&& down.finite()
            &&& Double::zero().le(down)
            &&& down.le(one)
        }),
{
    let one = Double::one();
    let s = settings.slippage_pct;
    number_laws::product_with_one(s);
    number_laws::products_commute(s, one);
    number_laws::negated_product(one, s);
    number_laws::sum_with_non_negative(one, s);
    number_laws::difference_with_non_negative(one, s);
    number_laws::difference_sign(s, one);
    number_laws::sum_keeps_order(s, one, one);
    number_laws::sums_commute(one, s);
    number_laws::one_and_one();
}

/// An entry never fills better than the touch: a long pays at least the ask, a short
/// gets at most the bid.
pub proof fn entry_is_never_better_than_touch(
    settings: Settings,
    side: Side,
    bid: Double,
    ask: Double,
    quantity: Double,
)
    requires
        sane_slippage(settings),
        bid.finite(),
        ask.finite(),
        Double::zero().le(bid),
        Double::zero().le(ask),
    ensures
        side == Side::Long ==> ask.le(entry_filled(settings, side, bid, ask, quantity).price),
        side == Side::Short ==> entry_filled(settings, side, bid, ask, quantity).price.le(bid),
{
    lemma_slippage_factors(settings);
    let one = Double::one();
    let s = settings.slippage_pct;
    number_laws::product_with_at_least_one(ask, one.add(Side::Long.direction().mul(s)));
    number_laws::product_with_at_most_one(bid, one.add(Side::Short.direction().mul(s)));
}

/// An exit never fills better than the touch: a long gets at most the bid, a short pays
/// at least the ask.
pub proof fn exit_is_never_better_than_touch(
    settings: Settings,
    side: Side,
    bid: Double,
    ask: Double,
    quantity: Double,
)
    requires
        sane_slippage(settings),
        bid.finite(),
        ask.finite(),
        Double::zero().le(bid),
        Double::zero().le(ask),
    ensures
        side == Side::Long ==> exit_filled(settings, side, bid, ask, quantity).price.le(bid),
        side == Side::Short ==> ask.le(exit_filled(settings, side, bid, ask, quantity).price),
{
    lemma_slippage_factors(settings);
    let one = Double::one();
    let s = settings.slippage_pct;
    number_laws::product_with_at_least_one(ask, one.add(Side::Long.direction().mul(s)));
    number_laws::product_with_at_most_one(bid, one.add(Side::Short.direction().mul(s)));
}

proof fn lemma_losing_prices(
    side: Side,
    entry: Double,
    exit: Double,
    quantity: Double,
    entry_fee: Double,
    exit_fee: Double,
)
    requires
        entry.finite(),
        exit.finite(),
        quantity.finite(),
        entry_fee.finite(),
        exit_fee.finite(),
        Double::zero().le(quantity),
        Double::zero().le(entry_fee),
        Double::zero().le(exit_fee),
        side == Side::Long ==> exit.le(entry),
        side == Side::Short ==> entry.le(exit),
        pnl(side, entry, exit, quantity, entry_fee, exit_fee).0.finite(),
    ensures
        pnl(side, entry, exit, quantity, entry_fee, exit_fee).1.le(Double::zero()),
{
    let zero = Double::zero();
    let moved = exit.sub(entry);
    let scaled = moved.mul(quantity);
    let gross = scaled.mul(side.direction());
    number_laws::finite_products_have_finite_factors(scaled, side.direction());
    number_laws::finite_products_have_finite_factors(moved, quantity);
    assert(gross.le(zero)) by {
        number_laws::product_sign(moved, quantity);
        match side {
            Side::Long => {
                number_laws::difference_sign(exit, entry);
                number_laws::product_with_one(scaled);
            },
            Side::Short => {
                number_laws::difference_sign(entry, exit);
                number_laws::product_with_minus_one(scaled);
            },
        }
    }
    number_laws::differences_stay_not_positive(gross, entry_fee, exit_fee);
}

/// Crossing the spread twice at an unchanged quote never gains: whatever side and quantity,
/// the net result is not positive.
pub proof fn flat_round_trip_never_gains(
    settings: Settings,
    side: Side,
    bid: Double,
    ask: Double,
    quantity: Double,
)
    requires
        sane_slippage(settings),
        settings.taker_fee_pct.finite(),
        Double::zero().le(settings.taker_fee_pct),
        bid.finite(),
        ask.finite(),
        quantity.finite(),
        Double::zero().le(bid),
        bid.le(ask),
        Double::zero().le(quantity),
        ({
            let entry = entry_filled(settings, side, bid, ask, quantity);
            let exit = exit_filled(settings, side, bid, ask, quantity);
            &&& entry.price.mul(quantity).finite() && entry.fee.finite() && entry.price.finite()
            &&& exit.price.mul(quantity).finite() && exit.fee.finite() && exit.price.finite()
            &&& pnl(side, entry.price, exit.price, quantity, entry.fee, exit.fee).0.finite()
        }),
    ensures
        ({
            let entry = entry_filled(settings, side, bid, ask, quantity);
            let exit = exit_filled(settings, side, bid, ask, quantity);
            pnl(side, entry.price, exit.price, quantity, entry.fee, exit.fee).1.le(Double::zero())
        }),
{
    let zero = Double::zero();
    let one = Double::one();
    let entry = entry_filled(settings, side, bid, ask, quantity);
    let exit = exit_filled(settings, side, bid, ask, quantity);
    entry_is_never_better_than_touch(settings, side, bid, ask, quantity);
    exit_is_never_better_than_touch(settings, side, bid, ask, quantity);
    lemma_slippage_factors(settings);
    let up = one.add(Side::Long.direction().mul(settings.slippage_pct));
    let down = one.add(Side::Short.direction().mul(settings.slippage_pct));
    number_laws::product_sign(ask, up);
    number_laws::product_sign(bid, down);
    assert(zero.le(entry.price) && zero.le(exit.price));
    number_laws::product_sign(entry.price, quantity);
    number_laws::product_sign(exit.price, quantity);
    number_laws::product_sign(entry.price.mul(quantity), settings.taker_fee_pct);
    number_laws::product_sign(exit.price.mul(quantity), settings.taker_fee_pct);
    assert(zero.le(entry.fee) && zero.le(exit.fee));
    lemma_losing_prices(side, entry.price, exit.price, quantity, entry.fee, exit.fee);
}

/// A target that is granted is no nearer than the gross multiple asks for, no farther than
/// allowed, and finite; and the rule is monotone: a larger allowance never takes it away.
pub proof fn granted_targets_keep_their_bounds(
    stop: Double,
    cost: Double,
    base_r: Double,
    min_rr: Double,
    most: Double,
    more: Double,
)
    requires
        target_granted(stop, cost, base_r, min_rr, most) is Some,
        most.le(more),
    ensures
        ({
            let d = target_granted(stop, cost, base_r, min_rr, most)->0;
            &&& d.finite()
            &&& d.le(most)
            &&& !d.lt(stop.mul(base_r))
            &&& !d.lt(cost.add(min_rr.mul(stop.add(cost))))
            &&& target_granted(stop, cost, base_r, min_rr, more) == Some(d)
        }),
{
}

} // verus!
