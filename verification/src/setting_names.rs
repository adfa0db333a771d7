//! The names of the settings that can be changed while the engine runs.
use vstd::prelude::*;
use crate::text;

verus! {

/// Texts by their characters.
pub open spec fn names(keys: Seq<&'static str>) -> Seq<Seq<char>> {
    keys.map_values(|k: &'static str| k@)
}

/// The settings that an administrator can change, in the order in which they are saved.
pub open spec fn admin_keys() -> Seq<Seq<char>> {
    seq![
        "force_demo"@,
        "invert_sides"@,
        "demo_fallback"@,
        "scan_interval"@,
        "max_symbols"@,
        "min_turnover"@,
        "min_price"@,
        "max_spread_pct"@,
        "ws_chunk_size"@,
        "wall_multiplier"@,
        "demo_symbols"@,
        "trading_mode"@,
        "strategy_mode"@,
        "settings_profile"@,
        "account_equity"@,
        "risk_per_trade_pct"@,
        "max_position_notional"@,
        "max_open_positions"@,
        "max_daily_loss_pct"@,
        "max_consecutive_losses"@,
        "cooldown_seconds"@,
        "loss_cooldown_seconds"@,
        "taker_fee_pct"@,
        "slippage_pct"@,
        "cost_safety_multiplier"@,
        "max_holding_seconds"@,
        "trail_arm_r"@,
        "trail_giveback_r"@,
        "breakeven_arm_r"@,
        "reversal_confirm_ticks"@,
        "reversal_confirm_seconds"@,
        "reversal_min_hold_seconds"@,
        "alternative_wall_multiplier"@,
        "alternative_signal_expiry_seconds"@,
        "alternative_retest_tolerance_pct"@,
        "alternative_retest_hold_ticks"@,
        "alternative_min_confluence_score"@,
        "alternative_min_net_reward_risk"@,
        "alternative_target_r_multiple"@,
        "alternative_max_target_pct"@,
        "alternative_min_stop_pct"@,
        "alternative_max_stop_pct"@,
        "alternative_structure_buffer_pct"@,
        "fvg_candle_seconds"@,
        "fvg_min_gap_pct"@,
        "fvg_signal_expiry_seconds"@,
        "fvg_entry_depth"@,
        "fvg_min_confluence_score"@,
        "fvg_min_net_reward_risk"@,
        "fvg_target_r_multiple"@,
        "fvg_max_target_pct"@,
        "fvg_min_stop_pct"@,
        "fvg_max_stop_pct"@,
        "fvg_stop_buffer_pct"@,
        "fvg_m15_min_gap_atr"@,
        "fvg_m15_min_displacement_atr"@,
        "fvg_m15_min_body_ratio"@,
        "fvg_m15_max_age_bars"@,
        "fvg_m1_min_gap_atr"@,
        "fvg_m1_min_displacement_atr"@,
        "fvg_m1_min_body_ratio"@,
        "fvg_m1_confirmation_bars"@,
        "fvg_s5_min_gap_pct"@,
        "fvg_s5_min_body_ratio"@,
        "fvg_s5_inversion_bars"@,
        "fvg_s5_retest_bars"@,
        "fvg_s5_entry_depth"@,
        "min_live_trades"@,
        "min_live_profit_factor"@,
        "min_live_expectancy"@,
        "max_live_drawdown_pct"@,
    ]
}

/// The settings that an administrator can change, in the order in which they are saved.
pub fn admin_setting_keys() -> (r: Vec<&'static str>)
    ensures
        names(r@) == admin_keys(),
{
    let r: Vec<&'static str> = vec![
        "force_demo",
        "invert_sides",
        "demo_fallback",
        "scan_interval",
        "max_symbols",
        "min_turnover",
        "min_price",
        "max_spread_pct",
        "ws_chunk_size",
        "wall_multiplier",
        "demo_symbols",
        "trading_mode",
        "strategy_mode",
        "settings_profile",
        "account_equity",
        "risk_per_trade_pct",
        "max_position_notional",
        "max_open_positions",
        "max_daily_loss_pct",
        "max_consecutive_losses",
        "cooldown_seconds",
        "loss_cooldown_seconds",
        "taker_fee_pct",
        "slippage_pct",
        "cost_safety_multiplier",
        "max_holding_seconds",
        "trail_arm_r",
        "trail_giveback_r",
        "breakeven_arm_r",
        "reversal_confirm_ticks",
        "reversal_confirm_seconds",
        "reversal_min_hold_seconds",
        "alternative_wall_multiplier",
        "alternative_signal_expiry_seconds",
        "alternative_retest_tolerance_pct",
        "alternative_retest_hold_ticks",
        "alternative_min_confluence_score",
        "alternative_min_net_reward_risk",
        "alternative_target_r_multiple",
        "alternative_max_target_pct",
        "alternative_min_stop_pct",
        "alternative_max_stop_pct",
        "alternative_structure_buffer_pct",
        "fvg_candle_seconds",
        "fvg_min_gap_pct",
        "fvg_signal_expiry_seconds",
        "fvg_entry_depth",
        "fvg_min_confluence_score",
        "fvg_min_net_reward_risk",
        "fvg_target_r_multiple",
        "fvg_max_target_pct",
        "fvg_min_stop_pct",
        "fvg_max_stop_pct",
        "fvg_stop_buffer_pct",
        "fvg_m15_min_gap_atr",
        "fvg_m15_min_displacement_atr",
        "fvg_m15_min_body_ratio",
        "fvg_m15_max_age_bars",
        "fvg_m1_min_gap_atr",
        "fvg_m1_min_displacement_atr",
        "fvg_m1_min_body_ratio",
        "fvg_m1_confirmation_bars",
        "fvg_s5_min_gap_pct",
        "fvg_s5_min_body_ratio",
        "fvg_s5_inversion_bars",
        "fvg_s5_retest_bars",
        "fvg_s5_entry_depth",
        "min_live_trades",
        "min_live_profit_factor",
        "min_live_expectancy",
        "max_live_drawdown_pct",
    ];
    assert(names(r@) =~= admin_keys());
    r
}

/// The settings that the recommended profile manages.
pub open spec fn managed_keys() -> Seq<Seq<char>> {
    seq![
        "invert_sides"@,
        "risk_per_trade_pct"@,
        "max_open_positions"@,
        "max_daily_loss_pct"@,
        "max_consecutive_losses"@,
        "cooldown_seconds"@,
        "loss_cooldown_seconds"@,
        "cost_safety_multiplier"@,
        "max_holding_seconds"@,
        "trail_arm_r"@,
        "trail_giveback_r"@,
        "breakeven_arm_r"@,
        "reversal_confirm_ticks"@,
        "reversal_confirm_seconds"@,
        "reversal_min_hold_seconds"@,
        "alternative_wall_multiplier"@,
        "alternative_signal_expiry_seconds"@,
        "alternative_retest_tolerance_pct"@,
        "alternative_retest_hold_ticks"@,
        "alternative_min_confluence_score"@,
        "alternative_min_net_reward_risk"@,
        "alternative_target_r_multiple"@,
        "alternative_max_target_pct"@,
        "alternative_min_stop_pct"@,
        "alternative_max_stop_pct"@,
        "alternative_structure_buffer_pct"@,
        "fvg_min_net_reward_risk"@,
        "fvg_target_r_multiple"@,
        "fvg_max_target_pct"@,
        "fvg_min_stop_pct"@,
        "fvg_max_stop_pct"@,
        "fvg_stop_buffer_pct"@,
        "fvg_m15_min_gap_atr"@,
        "fvg_m15_min_displacement_atr"@,
        "fvg_m15_min_body_ratio"@,
        "fvg_m15_max_age_bars"@,
        "fvg_m1_min_gap_atr"@,
        "fvg_m1_min_displacement_atr"@,
        "fvg_m1_min_body_ratio"@,
        "fvg_m1_confirmation_bars"@,
        "fvg_s5_min_gap_pct"@,
        "fvg_s5_min_body_ratio"@,
        "fvg_s5_inversion_bars"@,
        "fvg_s5_retest_bars"@,
        "fvg_s5_entry_depth"@,
    ]
}

/// The settings that the recommended profile manages.
pub fn ai_managed_keys() -> (r: Vec<&'static str>)
    ensures
        names(r@) == managed_keys(),
{
    let r: Vec<&'static str> = vec![
        "invert_sides",
        "risk_per_trade_pct",
        "max_open_positions",
        "max_daily_loss_pct",
        "max_consecutive_losses",
        "cooldown_seconds",
        "loss_cooldown_seconds",
        "cost_safety_multiplier",
        "max_holding_seconds",
        "trail_arm_r",
        "trail_giveback_r",
        "breakeven_arm_r",
        "reversal_confirm_ticks",
        "reversal_confirm_seconds",
        "reversal_min_hold_seconds",
        "alternative_wall_multiplier",
        "alternative_signal_expiry_seconds",
        "alternative_retest_tolerance_pct",
        "alternative_retest_hold_ticks",
        "alternative_min_confluence_score",
        "alternative_min_net_reward_risk",
        "alternative_target_r_multiple",
        "alternative_max_target_pct",
        "alternative_min_stop_pct",
        "alternative_max_stop_pct",
        "alternative_structure_buffer_pct",
        "fvg_min_net_reward_risk",
        "fvg_target_r_multiple",
        "fvg_max_target_pct",
        "fvg_min_stop_pct",
        "fvg_max_stop_pct",
        "fvg_stop_buffer_pct",
        "fvg_m15_min_gap_atr",
        "fvg_m15_min_displacement_atr",
        "fvg_m15_min_body_ratio",
        "fvg_m15_max_age_bars",
        "fvg_m1_min_gap_atr",
        "fvg_m1_min_displacement_atr",
        "fvg_m1_min_body_ratio",
        "fvg_m1_confirmation_bars",
        "fvg_s5_min_gap_pct",
        "fvg_s5_min_body_ratio",
        "fvg_s5_inversion_bars",
        "fvg_s5_retest_bars",
        "fvg_s5_entry_depth",
    ];
    assert(names(r@) =~= managed_keys());
    r
}

/// Whether a list of names has one.
pub fn has_name(keys: &Vec<&'static str>, key: &str) -> (r: bool)
    ensures
        r == names(keys@).contains(key@),
{
    let ghost all = names(keys@);
    let mut i: usize = 0;
    while i < keys.len()
        invariant
            i <= keys@.len(),
            all == names(keys@),
            forall|j: int| 0 <= j < i ==> #[trigger] all[j] != key@,
        decreases keys@.len() - i,
    {
        assert(all[i as int] == keys@[i as int]@);
        if text::text_eq(keys[i], key) {
            return true;
        }
        i = i + 1;
    }
    false
}

/// Whether the recommended profile manages a setting.
pub fn is_ai_managed(key: &str) -> (r: bool)
    ensures
        r == managed_keys().contains(key@),
{
    has_name(&ai_managed_keys(), key)
}

} // verus!
