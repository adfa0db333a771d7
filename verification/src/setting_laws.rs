//! What settings are accepted, and how profiles, defaults and variables agree with each other.
use vstd::prelude::*;
use crate::admin;
use crate::config;
use crate::config::Settings;
use crate::double::Double;
use crate::json;
use crate::json::{Json, JsonNumber};
use crate::mtf_fvg::MtfConfig;
use crate::number_laws;
use crate::parsing;
use crate::presets;
use crate::presets::Preset;
use crate::reading;
use crate::saving;
use crate::setting_names;
use crate::text;
use crate::text::Edge;
use crate::text_laws;

verus! {

/// Whether a number is at least zero and at most one.
pub open spec fn is_share(x: Double) -> bool {
    Double::zero().le(x) && x.le(Double::one())
}

/// Settings are safe exactly when the mode sends no orders, strategy and profile are known ones,
/// every target pays more than the least net reward and that more than nothing, every stop range
/// is one, and every length, size and share is within its bounds.
pub proof fn safe_settings_are_within_their_bounds(s: Settings)
    ensures
        admin::refusal(s) is None <==> {
            let zero = Double::zero();
            &&& s.trading_mode@ == "paper"@ || s.trading_mode@ == "replay"@ || s.trading_mode@
                == "simulator"@
            &&& s.strategy_mode@ == "alternative"@ || s.strategy_mode@ == "fvg"@
            &&& s.settings_profile@ == "custom"@ || s.settings_profile@ == "ai_recommended"@
            &&& zero.lt(s.alternative_min_net_reward_risk)
            &&& s.alternative_min_net_reward_risk.lt(s.alternative_target_r_multiple)
            &&& zero.lt(s.fvg_min_net_reward_risk)
            &&& s.fvg_min_net_reward_risk.lt(s.fvg_target_r_multiple)
            &&& zero.lt(s.alternative_max_target_pct)
            &&& zero.lt(s.fvg_max_target_pct)
            &&& zero.lt(s.alternative_min_stop_pct)
            &&& s.alternative_min_stop_pct.le(s.alternative_max_stop_pct)
            &&& zero.lt(s.fvg_min_stop_pct)
            &&& s.fvg_min_stop_pct.le(s.fvg_max_stop_pct)
            &&& 1 <= s.ws_chunk_size
            &&& zero.lt(s.fvg_candle_seconds)
            &&& zero.lt(s.fvg_min_gap_pct)
            &&& zero.lt(s.fvg_signal_expiry_seconds)
            &&& is_share(s.fvg_entry_depth)
            &&& zero.lt(s.fvg_m15_min_gap_atr)
            &&& zero.lt(s.fvg_m15_min_displacement_atr)
            &&& is_share(s.fvg_m15_min_body_ratio)
            &&& 1 <= s.fvg_m15_max_age_bars
            &&& zero.lt(s.fvg_m1_min_gap_atr)
            &&& zero.lt(s.fvg_m1_min_displacement_atr)
            &&& is_share(s.fvg_m1_min_body_ratio)
            &&& 1 <= s.fvg_m1_confirmation_bars
            &&& zero.lt(s.fvg_s5_min_gap_pct)
            &&& is_share(s.fvg_s5_min_body_ratio)
            &&& 1 <= s.fvg_s5_inversion_bars
            &&& 1 <= s.fvg_s5_retest_bars
            &&& is_share(s.fvg_s5_entry_depth)
            &&& 1 <= s.reversal_confirm_ticks
            &&& zero.lt(s.reversal_confirm_seconds)
            &&& zero.lt(s.reversal_min_hold_seconds)
            &&& zero.lt(s.max_holding_seconds)
            &&& zero.lt(s.account_equity)
            &&& zero.lt(s.risk_per_trade_pct)
        },
{
}

proof fn lemma_finite(value: Json)
    requires
        json::unsigned_in(value) is Some,
        json::unsigned_in(value)->0 > 0,
    ensures
        json::double_in(value) is Some,
        (json::double_in(value)->0).finite(),
{
    number_laws::whole_numbers_are_at_least_one(json::unsigned_in(value)->0);
}

/// Of settings that an administrator gives, every number that passes is finite.
pub proof fn accepted_numbers_are_finite(values: Map<Seq<char>, Json>, i: int)
    requires
        admin::fault(values) is None,
        0 <= i < setting_names::admin_keys().len(),
        values.dom().contains(setting_names::admin_keys()[i]),
    ensures
        ({
            let value = values[setting_names::admin_keys()[i]];
            &&& value is Number ==> json::double_in(value) is Some && (json::double_in(
                value,
            )->0).finite()
            &&& !(value is Null) && !(value is Object)
        }),
{
    let keys = setting_names::admin_keys();
    admin::lemma_fit(keys, values, i);
    let value = values[keys[i]];
    if json::unsigned_in(value) is Some && json::unsigned_in(value)->0 > 0 {
        lemma_finite(value);
    }
}

proof fn lemma_lengths_1()
    ensures
        "invert_sides"@.len() == 12,
        "risk_per_trade_pct"@.len() == 18,
        "max_open_positions"@.len() == 18,
        "max_daily_loss_pct"@.len() == 18,
        "max_consecutive_losses"@.len() == 22,
        "cooldown_seconds"@.len() == 16,
        "loss_cooldown_seconds"@.len() == 21,
        "cost_safety_multiplier"@.len() == 22,
        "max_holding_seconds"@.len() == 19,
{
    reveal_strlit("invert_sides");
    reveal_strlit("risk_per_trade_pct");
    reveal_strlit("max_open_positions");
    reveal_strlit("max_daily_loss_pct");
    reveal_strlit("max_consecutive_losses");
    reveal_strlit("cooldown_seconds");
    reveal_strlit("loss_cooldown_seconds");
    reveal_strlit("cost_safety_multiplier");
    reveal_strlit("max_holding_seconds");
}

proof fn lemma_lengths_2()
    ensures
        "trail_arm_r"@.len() == 11,
        "trail_giveback_r"@.len() == 16,
        "breakeven_arm_r"@.len() == 15,
        "reversal_confirm_ticks"@.len() == 22,
        "reversal_confirm_seconds"@.len() == 24,
        "reversal_min_hold_seconds"@.len() == 25,
        "alternative_wall_multiplier"@.len() == 27,
        "alternative_signal_expiry_seconds"@.len() == 33,
        "alternative_retest_tolerance_pct"@.len() == 32,
{
    reveal_strlit("trail_arm_r");
    reveal_strlit("trail_giveback_r");
    reveal_strlit("breakeven_arm_r");
    reveal_strlit("reversal_confirm_ticks");
    reveal_strlit("reversal_confirm_seconds");
    reveal_strlit("reversal_min_hold_seconds");
    reveal_strlit("alternative_wall_multiplier");
    reveal_strlit("alternative_signal_expiry_seconds");
    reveal_strlit("alternative_retest_tolerance_pct");
}

proof fn lemma_lengths_3()
    ensures
        "alternative_retest_hold_ticks"@.len() == 29,
        "alternative_min_confluence_score"@.len() == 32,
        "alternative_min_net_reward_risk"@.len() == 31,
        "alternative_target_r_multiple"@.len() == 29,
        "alternative_max_target_pct"@.len() == 26,
        "alternative_min_stop_pct"@.len() == 24,
        "alternative_max_stop_pct"@.len() == 24,
        "alternative_structure_buffer_pct"@.len() == 32,
        "fvg_min_net_reward_risk"@.len() == 23,
{
    reveal_strlit("alternative_retest_hold_ticks");
    reveal_strlit("alternative_min_confluence_score");
    reveal_strlit("alternative_min_net_reward_risk");
    reveal_strlit("alternative_target_r_multiple");
    reveal_strlit("alternative_max_target_pct");
    reveal_strlit("alternative_min_stop_pct");
    reveal_strlit("alternative_max_stop_pct");
    reveal_strlit("alternative_structure_buffer_pct");
    reveal_strlit("fvg_min_net_reward_risk");
}

proof fn lemma_lengths_4()
    ensures
        "fvg_target_r_multiple"@.len() == 21,
        "fvg_max_target_pct"@.len() == 18,
        "fvg_min_stop_pct"@.len() == 16,
        "fvg_max_stop_pct"@.len() == 16,
        "fvg_stop_buffer_pct"@.len() == 19,
        "fvg_m15_min_gap_atr"@.len() == 19,
        "fvg_m15_min_displacement_atr"@.len() == 28,
        "fvg_m15_min_body_ratio"@.len() == 22,
        "fvg_m15_max_age_bars"@.len() == 20,
{
    reveal_strlit("fvg_target_r_multiple");
    reveal_strlit("fvg_max_target_pct");
    reveal_strlit("fvg_min_stop_pct");
    reveal_strlit("fvg_max_stop_pct");
    reveal_strlit("fvg_stop_buffer_pct");
    reveal_strlit("fvg_m15_min_gap_atr");
    reveal_strlit("fvg_m15_min_displacement_atr");
    reveal_strlit("fvg_m15_min_body_ratio");
    reveal_strlit("fvg_m15_max_age_bars");
}

proof fn lemma_lengths_5()
    ensures
        "fvg_m1_min_gap_atr"@.len() == 18,
        "fvg_m1_min_displacement_atr"@.len() == 27,
        "fvg_m1_min_body_ratio"@.len() == 21,
        "fvg_m1_confirmation_bars"@.len() == 24,
        "fvg_s5_min_gap_pct"@.len() == 18,
        "fvg_s5_min_body_ratio"@.len() == 21,
        "fvg_s5_inversion_bars"@.len() == 21,
        "fvg_s5_retest_bars"@.len() == 18,
        "fvg_s5_entry_depth"@.len() == 18,
{
    reveal_strlit("fvg_m1_min_gap_atr");
    reveal_strlit("fvg_m1_min_displacement_atr");
    reveal_strlit("fvg_m1_min_body_ratio");
    reveal_strlit("fvg_m1_confirmation_bars");
    reveal_strlit("fvg_s5_min_gap_pct");
    reveal_strlit("fvg_s5_min_body_ratio");
    reveal_strlit("fvg_s5_inversion_bars");
    reveal_strlit("fvg_s5_retest_bars");
    reveal_strlit("fvg_s5_entry_depth");
}

proof fn lemma_lengths_6()
    ensures
        "force_demo"@.len() == 10,
        "demo_fallback"@.len() == 13,
        "demo_symbols"@.len() == 12,
        "trading_mode"@.len() == 12,
        "strategy_mode"@.len() == 13,
        "settings_profile"@.len() == 16,
        "ws_chunk_size"@.len() == 13,
{
    reveal_strlit("force_demo");
    reveal_strlit("demo_fallback");
    reveal_strlit("demo_symbols");
    reveal_strlit("trading_mode");
    reveal_strlit("strategy_mode");
    reveal_strlit("settings_profile");
    reveal_strlit("ws_chunk_size");
}

proof fn lemma_apart_12()
    ensures
        "demo_symbols"@ != "invert_sides"@,
        "trading_mode"@ != "invert_sides"@,
        "trading_mode"@ != "demo_symbols"@,
{
    reveal_strlit("invert_sides");
    reveal_strlit("demo_symbols");
    reveal_strlit("trading_mode");
    assert("demo_symbols"@[0] == 'd' && "invert_sides"@[0] == 'i');
    assert("trading_mode"@[0] == 't' && "invert_sides"@[0] == 'i');
    assert("trading_mode"@[0] == 't' && "demo_symbols"@[0] == 'd');
}

proof fn lemma_apart_13()
    ensures
        "strategy_mode"@ != "demo_fallback"@,
        "ws_chunk_size"@ != "demo_fallback"@,
        "ws_chunk_size"@ != "strategy_mode"@,
{
    reveal_strlit("demo_fallback");
    reveal_strlit("strategy_mode");
    reveal_strlit("ws_chunk_size");
    assert("strategy_mode"@[0] == 's' && "demo_fallback"@[0] == 'd');
    assert("ws_chunk_size"@[0] == 'w' && "demo_fallback"@[0] == 'd');
    assert("ws_chunk_size"@[0] == 'w' && "strategy_mode"@[0] == 's');
}

proof fn lemma_apart_16()
    ensures
        "trail_giveback_r"@ != "cooldown_seconds"@,
        "fvg_min_stop_pct"@ != "cooldown_seconds"@,
        "fvg_min_stop_pct"@ != "trail_giveback_r"@,
        "fvg_max_stop_pct"@ != "cooldown_seconds"@,
        "fvg_max_stop_pct"@ != "trail_giveback_r"@,
        "fvg_max_stop_pct"@ != "fvg_min_stop_pct"@,
        "settings_profile"@ != "cooldown_seconds"@,
        "settings_profile"@ != "trail_giveback_r"@,
        "settings_profile"@ != "fvg_min_stop_pct"@,
        "settings_profile"@ != "fvg_max_stop_pct"@,
{
    reveal_strlit("cooldown_seconds");
    reveal_strlit("trail_giveback_r");
    reveal_strlit("fvg_min_stop_pct");
    reveal_strlit("fvg_max_stop_pct");
    reveal_strlit("settings_profile");
    assert("trail_giveback_r"@[0] == 't' && "cooldown_seconds"@[0] == 'c');
    assert("fvg_min_stop_pct"@[0] == 'f' && "cooldown_seconds"@[0] == 'c');
    assert("fvg_min_stop_pct"@[0] == 'f' && "trail_giveback_r"@[0] == 't');
    assert("fvg_max_stop_pct"@[0] == 'f' && "cooldown_seconds"@[0] == 'c');
    assert("fvg_max_stop_pct"@[0] == 'f' && "trail_giveback_r"@[0] == 't');
    assert("fvg_max_stop_pct"@[5] == 'a' && "fvg_min_stop_pct"@[5] == 'i');
    assert("settings_profile"@[0] == 's' && "cooldown_seconds"@[0] == 'c');
    assert("settings_profile"@[0] == 's' && "trail_giveback_r"@[0] == 't');
    assert("settings_profile"@[0] == 's' && "fvg_min_stop_pct"@[0] == 'f');
    assert("settings_profile"@[0] == 's' && "fvg_max_stop_pct"@[0] == 'f');
}

proof fn lemma_apart_18()
    ensures
        "max_open_positions"@ != "risk_per_trade_pct"@,
        "max_daily_loss_pct"@ != "risk_per_trade_pct"@,
        "max_daily_loss_pct"@ != "max_open_positions"@,
        "fvg_max_target_pct"@ != "risk_per_trade_pct"@,
        "fvg_max_target_pct"@ != "max_open_positions"@,
        "fvg_max_target_pct"@ != "max_daily_loss_pct"@,
        "fvg_m1_min_gap_atr"@ != "risk_per_trade_pct"@,
        "fvg_m1_min_gap_atr"@ != "max_open_positions"@,
        "fvg_m1_min_gap_atr"@ != "max_daily_loss_pct"@,
        "fvg_m1_min_gap_atr"@ != "fvg_max_target_pct"@,
        "fvg_s5_min_gap_pct"@ != "risk_per_trade_pct"@,
        "fvg_s5_min_gap_pct"@ != "max_open_positions"@,
        "fvg_s5_min_gap_pct"@ != "max_daily_loss_pct"@,
        "fvg_s5_min_gap_pct"@ != "fvg_max_target_pct"@,
        "fvg_s5_min_gap_pct"@ != "fvg_m1_min_gap_atr"@,
        "fvg_s5_retest_bars"@ != "risk_per_trade_pct"@,
        "fvg_s5_retest_bars"@ != "max_open_positions"@,
        "fvg_s5_retest_bars"@ != "max_daily_loss_pct"@,
        "fvg_s5_retest_bars"@ != "fvg_max_target_pct"@,
        "fvg_s5_retest_bars"@ != "fvg_m1_min_gap_atr"@,
        "fvg_s5_retest_bars"@ != "fvg_s5_min_gap_pct"@,
        "fvg_s5_entry_depth"@ != "risk_per_trade_pct"@,
        "fvg_s5_entry_depth"@ != "max_open_positions"@,
        "fvg_s5_entry_depth"@ != "max_daily_loss_pct"@,
        "fvg_s5_entry_depth"@ != "fvg_max_target_pct"@,
        "fvg_s5_entry_depth"@ != "fvg_m1_min_gap_atr"@,
        "fvg_s5_entry_depth"@ != "fvg_s5_min_gap_pct"@,
        "fvg_s5_entry_depth"@ != "fvg_s5_retest_bars"@,
{
    reveal_strlit("risk_per_trade_pct");
    reveal_strlit("max_open_positions");
    reveal_strlit("max_daily_loss_pct");
    reveal_strlit("fvg_max_target_pct");
    reveal_strlit("fvg_m1_min_gap_atr");
    reveal_strlit("fvg_s5_min_gap_pct");
    reveal_strlit("fvg_s5_retest_bars");
    reveal_strlit("fvg_s5_entry_depth");
    assert("max_open_positions"@[0] == 'm' && "risk_per_trade_pct"@[0] == 'r');
    assert("max_daily_loss_pct"@[0] == 'm' && "risk_per_trade_pct"@[0] == 'r');
    assert("max_daily_loss_pct"@[4] == 'd' && "max_open_positions"@[4] == 'o');
    assert("fvg_max_target_pct"@[0] == 'f' && "risk_per_trade_pct"@[0] == 'r');
    assert("fvg_max_target_pct"@[0] == 'f' && "max_open_positions"@[0] == 'm');
    assert("fvg_max_target_pct"@[0] == 'f' && "max_daily_loss_pct"@[0] == 'm');
    assert("fvg_m1_min_gap_atr"@[0] == 'f' && "risk_per_trade_pct"@[0] == 'r');
    assert("fvg_m1_min_gap_atr"@[0] == 'f' && "max_open_positions"@[0] == 'm');
    assert("fvg_m1_min_gap_atr"@[0] == 'f' && "max_daily_loss_pct"@[0] == 'm');
    assert("fvg_m1_min_gap_atr"@[5] == '1' && "fvg_max_target_pct"@[5] == 'a');
    assert("fvg_s5_min_gap_pct"@[0] == 'f' && "risk_per_trade_pct"@[0] == 'r');
    assert("fvg_s5_min_gap_pct"@[0] == 'f' && "max_open_positions"@[0] == 'm');
    assert("fvg_s5_min_gap_pct"@[0] == 'f' && "max_daily_loss_pct"@[0] == 'm');
    assert("fvg_s5_min_gap_pct"@[4] == 's' && "fvg_max_target_pct"@[4] == 'm');
    assert("fvg_s5_min_gap_pct"@[4] == 's' && "fvg_m1_min_gap_atr"@[4] == 'm');
    assert("fvg_s5_retest_bars"@[0] == 'f' && "risk_per_trade_pct"@[0] == 'r');
    assert("fvg_s5_retest_bars"@[0] == 'f' && "max_open_positions"@[0] == 'm');
    assert("fvg_s5_retest_bars"@[0] == 'f' && "max_daily_loss_pct"@[0] == 'm');
    assert("fvg_s5_retest_bars"@[4] == 's' && "fvg_max_target_pct"@[4] == 'm');
    assert("fvg_s5_retest_bars"@[4] == 's' && "fvg_m1_min_gap_atr"@[4] == 'm');
    assert("fvg_s5_retest_bars"@[7] == 'r' && "fvg_s5_min_gap_pct"@[7] == 'm');
    assert("fvg_s5_entry_depth"@[0] == 'f' && "risk_per_trade_pct"@[0] == 'r');
    assert("fvg_s5_entry_depth"@[0] == 'f' && "max_open_positions"@[0] == 'm');
    assert("fvg_s5_entry_depth"@[0] == 'f' && "max_daily_loss_pct"@[0] == 'm');
    assert("fvg_s5_entry_depth"@[4] == 's' && "fvg_max_target_pct"@[4] == 'm');
    assert("fvg_s5_entry_depth"@[4] == 's' && "fvg_m1_min_gap_atr"@[4] == 'm');
    assert("fvg_s5_entry_depth"@[7] == 'e' && "fvg_s5_min_gap_pct"@[7] == 'm');
    assert("fvg_s5_entry_depth"@[7] == 'e' && "fvg_s5_retest_bars"@[7] == 'r');
}

proof fn lemma_apart_19()
    ensures
        "fvg_stop_buffer_pct"@ != "max_holding_seconds"@,
        "fvg_m15_min_gap_atr"@ != "max_holding_seconds"@,
        "fvg_m15_min_gap_atr"@ != "fvg_stop_buffer_pct"@,
{
    reveal_strlit("max_holding_seconds");
    reveal_strlit("fvg_stop_buffer_pct");
    reveal_strlit("fvg_m15_min_gap_atr");
    assert("fvg_stop_buffer_pct"@[0] == 'f' && "max_holding_seconds"@[0] == 'm');
    assert("fvg_m15_min_gap_atr"@[0] == 'f' && "max_holding_seconds"@[0] == 'm');
    assert("fvg_m15_min_gap_atr"@[4] == 'm' && "fvg_stop_buffer_pct"@[4] == 's');
}

proof fn lemma_apart_21()
    ensures
        "fvg_target_r_multiple"@ != "loss_cooldown_seconds"@,
        "fvg_m1_min_body_ratio"@ != "loss_cooldown_seconds"@,
        "fvg_m1_min_body_ratio"@ != "fvg_target_r_multiple"@,
        "fvg_s5_min_body_ratio"@ != "loss_cooldown_seconds"@,
        "fvg_s5_min_body_ratio"@ != "fvg_target_r_multiple"@,
        "fvg_s5_min_body_ratio"@ != "fvg_m1_min_body_ratio"@,
        "fvg_s5_inversion_bars"@ != "loss_cooldown_seconds"@,
        "fvg_s5_inversion_bars"@ != "fvg_target_r_multiple"@,
        "fvg_s5_inversion_bars"@ != "fvg_m1_min_body_ratio"@,
        "fvg_s5_inversion_bars"@ != "fvg_s5_min_body_ratio"@,
{
    reveal_strlit("loss_cooldown_seconds");
    reveal_strlit("fvg_target_r_multiple");
    reveal_strlit("fvg_m1_min_body_ratio");
    reveal_strlit("fvg_s5_min_body_ratio");
    reveal_strlit("fvg_s5_inversion_bars");
    assert("fvg_target_r_multiple"@[0] == 'f' && "loss_cooldown_seconds"@[0] == 'l');
    assert("fvg_m1_min_body_ratio"@[0] == 'f' && "loss_cooldown_seconds"@[0] == 'l');
    assert("fvg_m1_min_body_ratio"@[4] == 'm' && "fvg_target_r_multiple"@[4] == 't');
    assert("fvg_s5_min_body_ratio"@[0] == 'f' && "loss_cooldown_seconds"@[0] == 'l');
    assert("fvg_s5_min_body_ratio"@[4] == 's' && "fvg_target_r_multiple"@[4] == 't');
    assert("fvg_s5_min_body_ratio"@[4] == 's' && "fvg_m1_min_body_ratio"@[4] == 'm');
    assert("fvg_s5_inversion_bars"@[0] == 'f' && "loss_cooldown_seconds"@[0] == 'l');
    assert("fvg_s5_inversion_bars"@[4] == 's' && "fvg_target_r_multiple"@[4] == 't');
    assert("fvg_s5_inversion_bars"@[4] == 's' && "fvg_m1_min_body_ratio"@[4] == 'm');
    assert("fvg_s5_inversion_bars"@[7] == 'i' && "fvg_s5_min_body_ratio"@[7] == 'm');
}

proof fn lemma_apart_22()
    ensures
        "cost_safety_multiplier"@ != "max_consecutive_losses"@,
        "reversal_confirm_ticks"@ != "max_consecutive_losses"@,
        "reversal_confirm_ticks"@ != "cost_safety_multiplier"@,
        "fvg_m15_min_body_ratio"@ != "max_consecutive_losses"@,
        "fvg_m15_min_body_ratio"@ != "cost_safety_multiplier"@,
        "fvg_m15_min_body_ratio"@ != "reversal_confirm_ticks"@,
{
    reveal_strlit("max_consecutive_losses");
    reveal_strlit("cost_safety_multiplier");
    reveal_strlit("reversal_confirm_ticks");
    reveal_strlit("fvg_m15_min_body_ratio");
    assert("cost_safety_multiplier"@[0] == 'c' && "max_consecutive_losses"@[0] == 'm');
    assert("reversal_confirm_ticks"@[0] == 'r' && "max_consecutive_losses"@[0] == 'm');
    assert("reversal_confirm_ticks"@[0] == 'r' && "cost_safety_multiplier"@[0] == 'c');
    assert("fvg_m15_min_body_ratio"@[0] == 'f' && "max_consecutive_losses"@[0] == 'm');
    assert("fvg_m15_min_body_ratio"@[0] == 'f' && "cost_safety_multiplier"@[0] == 'c');
    assert("fvg_m15_min_body_ratio"@[0] == 'f' && "reversal_confirm_ticks"@[0] == 'r');
}

proof fn lemma_apart_24()
    ensures
        "alternative_min_stop_pct"@ != "reversal_confirm_seconds"@,
        "alternative_max_stop_pct"@ != "reversal_confirm_seconds"@,
        "alternative_max_stop_pct"@ != "alternative_min_stop_pct"@,
        "fvg_m1_confirmation_bars"@ != "reversal_confirm_seconds"@,
        "fvg_m1_confirmation_bars"@ != "alternative_min_stop_pct"@,
        "fvg_m1_confirmation_bars"@ != "alternative_max_stop_pct"@,
{
    reveal_strlit("reversal_confirm_seconds");
    reveal_strlit("alternative_min_stop_pct");
    reveal_strlit("alternative_max_stop_pct");
    reveal_strlit("fvg_m1_confirmation_bars");
    assert("alternative_min_stop_pct"@[0] == 'a' && "reversal_confirm_seconds"@[0] == 'r');
    assert("alternative_max_stop_pct"@[0] == 'a' && "reversal_confirm_seconds"@[0] == 'r');
    assert("alternative_max_stop_pct"@[13] == 'a' && "alternative_min_stop_pct"@[13] == 'i');
    assert("fvg_m1_confirmation_bars"@[0] == 'f' && "reversal_confirm_seconds"@[0] == 'r');
    assert("fvg_m1_confirmation_bars"@[0] == 'f' && "alternative_min_stop_pct"@[0] == 'a');
    assert("fvg_m1_confirmation_bars"@[0] == 'f' && "alternative_max_stop_pct"@[0] == 'a');
}

proof fn lemma_apart_27()
    ensures
        "fvg_m1_min_displacement_atr"@ != "alternative_wall_multiplier"@,
{
    reveal_strlit("alternative_wall_multiplier");
    reveal_strlit("fvg_m1_min_displacement_atr");
    assert("fvg_m1_min_displacement_atr"@[0] == 'f' && "alternative_wall_multiplier"@[0] == 'a');
}

proof fn lemma_apart_29()
    ensures
        "alternative_target_r_multiple"@ != "alternative_retest_hold_ticks"@,
{
    reveal_strlit("alternative_retest_hold_ticks");
    reveal_strlit("alternative_target_r_multiple");
    assert("alternative_target_r_multiple"@[12] == 't' && "alternative_retest_hold_ticks"@[12] == 'r');
}

proof fn lemma_apart_32()
    ensures
        "alternative_min_confluence_score"@ != "alternative_retest_tolerance_pct"@,
        "alternative_structure_buffer_pct"@ != "alternative_retest_tolerance_pct"@,
        "alternative_structure_buffer_pct"@ != "alternative_min_confluence_score"@,
{
    reveal_strlit("alternative_retest_tolerance_pct");
    reveal_strlit("alternative_min_confluence_score");
    reveal_strlit("alternative_structure_buffer_pct");
    assert("alternative_min_confluence_score"@[12] == 'm' && "alternative_retest_tolerance_pct"@[12] == 'r');
    assert("alternative_structure_buffer_pct"@[12] == 's' && "alternative_retest_tolerance_pct"@[12] == 'r');
    assert("alternative_structure_buffer_pct"@[12] == 's' && "alternative_min_confluence_score"@[12] == 'm');
}

/// The names of the settings that are told apart here are all different.
proof fn lemma_names_differ()
    ensures
        "invert_sides"@.len() == 12,
        "risk_per_trade_pct"@.len() == 18,
        "max_open_positions"@.len() == 18,
        "max_daily_loss_pct"@.len() == 18,
        "max_consecutive_losses"@.len() == 22,
        "cooldown_seconds"@.len() == 16,
        "loss_cooldown_seconds"@.len() == 21,
        "cost_safety_multiplier"@.len() == 22,
        "max_holding_seconds"@.len() == 19,
        "trail_arm_r"@.len() == 11,
        "trail_giveback_r"@.len() == 16,
        "breakeven_arm_r"@.len() == 15,
        "reversal_confirm_ticks"@.len() == 22,
        "reversal_confirm_seconds"@.len() == 24,
        "reversal_min_hold_seconds"@.len() == 25,
        "alternative_wall_multiplier"@.len() == 27,
        "alternative_signal_expiry_seconds"@.len() == 33,
        "alternative_retest_tolerance_pct"@.len() == 32,
        "alternative_retest_hold_ticks"@.len() == 29,
        "alternative_min_confluence_score"@.len() == 32,
        "alternative_min_net_reward_risk"@.len() == 31,
        "alternative_target_r_multiple"@.len() == 29,
        "alternative_max_target_pct"@.len() == 26,
        "alternative_min_stop_pct"@.len() == 24,
        "alternative_max_stop_pct"@.len() == 24,
        "alternative_structure_buffer_pct"@.len() == 32,
        "fvg_min_net_reward_risk"@.len() == 23,
        "fvg_target_r_multiple"@.len() == 21,
        "fvg_max_target_pct"@.len() == 18,
        "fvg_min_stop_pct"@.len() == 16,
        "fvg_max_stop_pct"@.len() == 16,
        "fvg_stop_buffer_pct"@.len() == 19,
        "fvg_m15_min_gap_atr"@.len() == 19,
        "fvg_m15_min_displacement_atr"@.len() == 28,
        "fvg_m15_min_body_ratio"@.len() == 22,
        "fvg_m15_max_age_bars"@.len() == 20,
        "fvg_m1_min_gap_atr"@.len() == 18,
        "fvg_m1_min_displacement_atr"@.len() == 27,
        "fvg_m1_min_body_ratio"@.len() == 21,
        "fvg_m1_confirmation_bars"@.len() == 24,
        "fvg_s5_min_gap_pct"@.len() == 18,
        "fvg_s5_min_body_ratio"@.len() == 21,
        "fvg_s5_inversion_bars"@.len() == 21,
        "fvg_s5_retest_bars"@.len() == 18,
        "fvg_s5_entry_depth"@.len() == 18,
        "force_demo"@.len() == 10,
        "demo_fallback"@.len() == 13,
        "demo_symbols"@.len() == 12,
        "trading_mode"@.len() == 12,
        "strategy_mode"@.len() == 13,
        "settings_profile"@.len() == 16,
        "ws_chunk_size"@.len() == 13,
        "demo_symbols"@ != "invert_sides"@,
        "trading_mode"@ != "invert_sides"@,
        "trading_mode"@ != "demo_symbols"@,
        "strategy_mode"@ != "demo_fallback"@,
        "ws_chunk_size"@ != "demo_fallback"@,
        "ws_chunk_size"@ != "strategy_mode"@,
        "trail_giveback_r"@ != "cooldown_seconds"@,
        "fvg_min_stop_pct"@ != "cooldown_seconds"@,
        "fvg_min_stop_pct"@ != "trail_giveback_r"@,
        "fvg_max_stop_pct"@ != "cooldown_seconds"@,
        "fvg_max_stop_pct"@ != "trail_giveback_r"@,
        "fvg_max_stop_pct"@ != "fvg_min_stop_pct"@,
        "settings_profile"@ != "cooldown_seconds"@,
        "settings_profile"@ != "trail_giveback_r"@,
        "settings_profile"@ != "fvg_min_stop_pct"@,
        "settings_profile"@ != "fvg_max_stop_pct"@,
        "max_open_positions"@ != "risk_per_trade_pct"@,
        "max_daily_loss_pct"@ != "risk_per_trade_pct"@,
        "max_daily_loss_pct"@ != "max_open_positions"@,
        "fvg_max_target_pct"@ != "risk_per_trade_pct"@,
        "fvg_max_target_pct"@ != "max_open_positions"@,
        "fvg_max_target_pct"@ != "max_daily_loss_pct"@,
        "fvg_m1_min_gap_atr"@ != "risk_per_trade_pct"@,
        "fvg_m1_min_gap_atr"@ != "max_open_positions"@,
        "fvg_m1_min_gap_atr"@ != "max_daily_loss_pct"@,
        "fvg_m1_min_gap_atr"@ != "fvg_max_target_pct"@,
        "fvg_s5_min_gap_pct"@ != "risk_per_trade_pct"@,
        "fvg_s5_min_gap_pct"@ != "max_open_positions"@,
        "fvg_s5_min_gap_pct"@ != "max_daily_loss_pct"@,
        "fvg_s5_min_gap_pct"@ != "fvg_max_target_pct"@,
        "fvg_s5_min_gap_pct"@ != "fvg_m1_min_gap_atr"@,
        "fvg_s5_retest_bars"@ != "risk_per_trade_pct"@,
        "fvg_s5_retest_bars"@ != "max_open_positions"@,
        "fvg_s5_retest_bars"@ != "max_daily_loss_pct"@,
        "fvg_s5_retest_bars"@ != "fvg_max_target_pct"@,
        "fvg_s5_retest_bars"@ != "fvg_m1_min_gap_atr"@,
        "fvg_s5_retest_bars"@ != "fvg_s5_min_gap_pct"@,
        "fvg_s5_entry_depth"@ != "risk_per_trade_pct"@,
        "fvg_s5_entry_depth"@ != "max_open_positions"@,
        "fvg_s5_entry_depth"@ != "max_daily_loss_pct"@,
        "fvg_s5_entry_depth"@ != "fvg_max_target_pct"@,
        "fvg_s5_entry_depth"@ != "fvg_m1_min_gap_atr"@,
        "fvg_s5_entry_depth"@ != "fvg_s5_min_gap_pct"@,
        "fvg_s5_entry_depth"@ != "fvg_s5_retest_bars"@,
        "fvg_stop_buffer_pct"@ != "max_holding_seconds"@,
        "fvg_m15_min_gap_atr"@ != "max_holding_seconds"@,
        "fvg_m15_min_gap_atr"@ != "fvg_stop_buffer_pct"@,
        "fvg_target_r_multiple"@ != "loss_cooldown_seconds"@,
        "fvg_m1_min_body_ratio"@ != "loss_cooldown_seconds"@,
        "fvg_m1_min_body_ratio"@ != "fvg_target_r_multiple"@,
        "fvg_s5_min_body_ratio"@ != "loss_cooldown_seconds"@,
        "fvg_s5_min_body_ratio"@ != "fvg_target_r_multiple"@,
        "fvg_s5_min_body_ratio"@ != "fvg_m1_min_body_ratio"@,
        "fvg_s5_inversion_bars"@ != "loss_cooldown_seconds"@,
        "fvg_s5_inversion_bars"@ != "fvg_target_r_multiple"@,
        "fvg_s5_inversion_bars"@ != "fvg_m1_min_body_ratio"@,
        "fvg_s5_inversion_bars"@ != "fvg_s5_min_body_ratio"@,
        "cost_safety_multiplier"@ != "max_consecutive_losses"@,
        "reversal_confirm_ticks"@ != "max_consecutive_losses"@,
        "reversal_confirm_ticks"@ != "cost_safety_multiplier"@,
        "fvg_m15_min_body_ratio"@ != "max_consecutive_losses"@,
        "fvg_m15_min_body_ratio"@ != "cost_safety_multiplier"@,
        "fvg_m15_min_body_ratio"@ != "reversal_confirm_ticks"@,
        "alternative_min_stop_pct"@ != "reversal_confirm_seconds"@,
        "alternative_max_stop_pct"@ != "reversal_confirm_seconds"@,
        "alternative_max_stop_pct"@ != "alternative_min_stop_pct"@,
        "fvg_m1_confirmation_bars"@ != "reversal_confirm_seconds"@,
        "fvg_m1_confirmation_bars"@ != "alternative_min_stop_pct"@,
        "fvg_m1_confirmation_bars"@ != "alternative_max_stop_pct"@,
        "fvg_m1_min_displacement_atr"@ != "alternative_wall_multiplier"@,
        "alternative_target_r_multiple"@ != "alternative_retest_hold_ticks"@,
        "alternative_min_confluence_score"@ != "alternative_retest_tolerance_pct"@,
        "alternative_structure_buffer_pct"@ != "alternative_retest_tolerance_pct"@,
        "alternative_structure_buffer_pct"@ != "alternative_min_confluence_score"@,
{
    lemma_lengths_1();
    lemma_lengths_2();
    lemma_lengths_3();
    lemma_lengths_4();
    lemma_lengths_5();
    lemma_lengths_6();
    lemma_apart_12();
    lemma_apart_13();
    lemma_apart_16();
    lemma_apart_18();
    lemma_apart_19();
    lemma_apart_21();
    lemma_apart_22();
    lemma_apart_24();
    lemma_apart_27();
    lemma_apart_29();
    lemma_apart_32();
}

/// Modes, profiles and switches that pass are known ones: whatever else is given, the mode stays
/// one that sends no orders, switches are true or false, and counts are whole and above zero.
pub proof fn accepted_modes_are_known(values: Map<Seq<char>, Json>)
    requires
        admin::fault(values) is None,
    ensures
        values.dom().contains("trading_mode"@) ==> ({
            let mode = json::text_in(values["trading_mode"@]);
            mode == Some("paper"@) || mode == Some("replay"@) || mode == Some("simulator"@)
        }),
        values.dom().contains("strategy_mode"@) ==> ({
            let mode = json::text_in(values["strategy_mode"@]);
            mode == Some("alternative"@) || mode == Some("fvg"@)
        }),
        values.dom().contains("settings_profile"@) ==> ({
            let profile = json::text_in(values["settings_profile"@]);
            profile == Some("custom"@) || profile == Some("ai_recommended"@)
        }),
        values.dom().contains("force_demo"@) ==> values["force_demo"@] is Bool,
        values.dom().contains("invert_sides"@) ==> values["invert_sides"@] is Bool,
        values.dom().contains("demo_fallback"@) ==> values["demo_fallback"@] is Bool,
        values.dom().contains("ws_chunk_size"@) ==> json::unsigned_in(
            values["ws_chunk_size"@],
        ) is Some && json::unsigned_in(values["ws_chunk_size"@])->0 > 0,
        values.dom().contains("fvg_m15_max_age_bars"@) ==> json::unsigned_in(
            values["fvg_m15_max_age_bars"@],
        ) is Some && json::unsigned_in(values["fvg_m15_max_age_bars"@])->0 > 0,
        values.dom().contains("fvg_m1_confirmation_bars"@) ==> json::unsigned_in(
            values["fvg_m1_confirmation_bars"@],
        ) is Some && json::unsigned_in(values["fvg_m1_confirmation_bars"@])->0 > 0,
        values.dom().contains("fvg_s5_inversion_bars"@) ==> json::unsigned_in(
            values["fvg_s5_inversion_bars"@],
        ) is Some && json::unsigned_in(values["fvg_s5_inversion_bars"@])->0 > 0,
        values.dom().contains("fvg_s5_retest_bars"@) ==> json::unsigned_in(
            values["fvg_s5_retest_bars"@],
        ) is Some && json::unsigned_in(values["fvg_s5_retest_bars"@])->0 > 0,
{
    let keys = setting_names::admin_keys();
    lemma_names_differ();
    if values.dom().contains("force_demo"@) {
        assert(keys[0] == "force_demo"@);
        admin::lemma_fit(keys, values, 0);
    }
    if values.dom().contains("invert_sides"@) {
        assert(keys[1] == "invert_sides"@);
        admin::lemma_fit(keys, values, 1);
    }
    if values.dom().contains("demo_fallback"@) {
        assert(keys[2] == "demo_fallback"@);
        admin::lemma_fit(keys, values, 2);
    }
    if values.dom().contains("trading_mode"@) {
        assert(keys[11] == "trading_mode"@);
        admin::lemma_fit(keys, values, 11);
    }
    if values.dom().contains("strategy_mode"@) {
        assert(keys[12] == "strategy_mode"@);
        admin::lemma_fit(keys, values, 12);
    }
    if values.dom().contains("settings_profile"@) {
        assert(keys[13] == "settings_profile"@);
        admin::lemma_fit(keys, values, 13);
    }
    if values.dom().contains("ws_chunk_size"@) {
        assert(keys[8] == "ws_chunk_size"@);
        admin::lemma_fit(keys, values, 8);
    }
    if values.dom().contains("fvg_m15_max_age_bars"@) {
        assert(keys[57] == "fvg_m15_max_age_bars"@);
        admin::lemma_fit(keys, values, 57);
    }
    if values.dom().contains("fvg_m1_confirmation_bars"@) {
        assert(keys[61] == "fvg_m1_confirmation_bars"@);
        admin::lemma_fit(keys, values, 61);
    }
    if values.dom().contains("fvg_s5_inversion_bars"@) {
        assert(keys[64] == "fvg_s5_inversion_bars"@);
        admin::lemma_fit(keys, values, 64);
    }
    if values.dom().contains("fvg_s5_retest_bars"@) {
        assert(keys[65] == "fvg_s5_retest_bars"@);
        admin::lemma_fit(keys, values, 65);
    }
}

/// Whether a number that is given is a share.
pub open spec fn given_share(values: Map<Seq<char>, Json>, key: Seq<char>) -> bool {
    values.dom().contains(key) && json::double_in(values[key]) is Some ==> is_share(
        json::double_in(values[key])->0,
    )
}

/// Whether a number that is given is above zero.
pub open spec fn given_size(values: Map<Seq<char>, Json>, key: Seq<char>) -> bool {
    values.dom().contains(key) && json::double_in(values[key]) is Some ==> Double::zero().lt(
        json::double_in(values[key])->0,
    )
}

/// Shares that pass lie between zero and one, and sizes that pass above zero.
pub proof fn accepted_shares_and_sizes_are_such(values: Map<Seq<char>, Json>)
    requires
        admin::fault(values) is None,
    ensures
        given_share(values, "fvg_entry_depth"@),
        given_share(values, "fvg_m15_min_body_ratio"@),
        given_share(values, "fvg_m1_min_body_ratio"@),
        given_share(values, "fvg_s5_min_body_ratio"@),
        given_share(values, "fvg_s5_entry_depth"@),
        given_size(values, "fvg_m15_min_gap_atr"@),
        given_size(values, "fvg_m15_min_displacement_atr"@),
        given_size(values, "fvg_m1_min_gap_atr"@),
        given_size(values, "fvg_m1_min_displacement_atr"@),
        given_size(values, "fvg_s5_min_gap_pct"@),
{
    assert(setting_names::admin_keys()[54] == "fvg_m15_min_gap_atr"@);
    if values.dom().contains("fvg_m15_min_gap_atr"@) && json::double_in(values["fvg_m15_min_gap_atr"@]) is Some {
        accepted_numbers_are_finite(values, 54);
    }
    assert(setting_names::admin_keys()[55] == "fvg_m15_min_displacement_atr"@);
    if values.dom().contains("fvg_m15_min_displacement_atr"@) && json::double_in(values["fvg_m15_min_displacement_atr"@]) is Some {
        accepted_numbers_are_finite(values, 55);
    }
    assert(setting_names::admin_keys()[58] == "fvg_m1_min_gap_atr"@);
    if values.dom().contains("fvg_m1_min_gap_atr"@) && json::double_in(values["fvg_m1_min_gap_atr"@]) is Some {
        accepted_numbers_are_finite(values, 58);
    }
    assert(setting_names::admin_keys()[59] == "fvg_m1_min_displacement_atr"@);
    if values.dom().contains("fvg_m1_min_displacement_atr"@) && json::double_in(values["fvg_m1_min_displacement_atr"@]) is Some {
        accepted_numbers_are_finite(values, 59);
    }
    assert(setting_names::admin_keys()[62] == "fvg_s5_min_gap_pct"@);
    if values.dom().contains("fvg_s5_min_gap_pct"@) && json::double_in(values["fvg_s5_min_gap_pct"@]) is Some {
        accepted_numbers_are_finite(values, 62);
    }
}

/// A target and a least net reward that are both given and pass are in order, and so are the ends
/// of a stop range.
pub proof fn accepted_targets_and_stops_are_in_order(values: Map<Seq<char>, Json>, t: Double, m: Double)
    requires
        admin::fault(values) is None,
        t.finite(),
        m.finite(),
    ensures
        values.dom().contains("alternative_target_r_multiple"@) && values.dom().contains("alternative_min_net_reward_risk"@) && json::double_in(
            values["alternative_target_r_multiple"@],
        ) == Some(t) && json::double_in(values["alternative_min_net_reward_risk"@]) == Some(m) ==> Double::zero().lt(m)
            && m.lt(t),
        values.dom().contains("fvg_target_r_multiple"@) && values.dom().contains("fvg_min_net_reward_risk"@) && json::double_in(
            values["fvg_target_r_multiple"@],
        ) == Some(t) && json::double_in(values["fvg_min_net_reward_risk"@]) == Some(m) ==> Double::zero().lt(m)
            && m.lt(t),
        values.dom().contains("alternative_min_stop_pct"@) && values.dom().contains("alternative_max_stop_pct"@) && json::double_in(
            values["alternative_min_stop_pct"@],
        ) == Some(m) && json::double_in(values["alternative_max_stop_pct"@]) == Some(t) ==> Double::zero().lt(m)
            && m.le(t),
        values.dom().contains("fvg_min_stop_pct"@) && values.dom().contains("fvg_max_stop_pct"@) && json::double_in(
            values["fvg_min_stop_pct"@],
        ) == Some(m) && json::double_in(values["fvg_max_stop_pct"@]) == Some(t) ==> Double::zero().lt(m)
            && m.le(t),
{
}

proof fn lemma_profile_1(s: Settings)
    ensures
        presets::recommended("invert_sides"@) == Some(Preset::Flag(presets::with_recommended(s).invert_sides)),
        presets::recommended("risk_per_trade_pct"@) == Some(Preset::Number(presets::with_recommended(s).risk_per_trade_pct)),
        presets::recommended("max_open_positions"@) == Some(Preset::Count(presets::with_recommended(s).max_open_positions as u64)),
        presets::recommended("max_daily_loss_pct"@) == Some(Preset::Number(presets::with_recommended(s).max_daily_loss_pct)),
        presets::recommended("max_consecutive_losses"@) == Some(Preset::Count(presets::with_recommended(s).max_consecutive_losses as u64)),
        presets::recommended("cooldown_seconds"@) == Some(Preset::Number(presets::with_recommended(s).cooldown_seconds)),
        presets::recommended("loss_cooldown_seconds"@) == Some(Preset::Number(presets::with_recommended(s).loss_cooldown_seconds)),
        presets::recommended("cost_safety_multiplier"@) == Some(Preset::Number(presets::with_recommended(s).cost_safety_multiplier)),
        presets::recommended("max_holding_seconds"@) == Some(Preset::Number(presets::with_recommended(s).max_holding_seconds)),
{
    lemma_names_differ();
}

proof fn lemma_profile_2(s: Settings)
    ensures
        presets::recommended("trail_arm_r"@) == Some(Preset::Number(presets::with_recommended(s).trail_arm_r)),
        presets::recommended("trail_giveback_r"@) == Some(Preset::Number(presets::with_recommended(s).trail_giveback_r)),
        presets::recommended("breakeven_arm_r"@) == Some(Preset::Number(presets::with_recommended(s).breakeven_arm_r)),
        presets::recommended("reversal_confirm_ticks"@) == Some(Preset::Count(presets::with_recommended(s).reversal_confirm_ticks as u64)),
        presets::recommended("reversal_confirm_seconds"@) == Some(Preset::Number(presets::with_recommended(s).reversal_confirm_seconds)),
        presets::recommended("reversal_min_hold_seconds"@) == Some(Preset::Number(presets::with_recommended(s).reversal_min_hold_seconds)),
        presets::recommended("alternative_wall_multiplier"@) == Some(Preset::Number(presets::with_recommended(s).alternative_wall_multiplier)),
        presets::recommended("alternative_signal_expiry_seconds"@) == Some(Preset::Number(presets::with_recommended(s).alternative_signal_expiry_seconds)),
        presets::recommended("alternative_retest_tolerance_pct"@) == Some(Preset::Number(presets::with_recommended(s).alternative_retest_tolerance_pct)),
{
    lemma_names_differ();
}

proof fn lemma_profile_3(s: Settings)
    ensures
        presets::recommended("alternative_retest_hold_ticks"@) == Some(Preset::Count(presets::with_recommended(s).alternative_retest_hold_ticks as u64)),
        presets::recommended("alternative_min_confluence_score"@) == Some(Preset::Count(presets::with_recommended(s).alternative_min_confluence_score as u64)),
        presets::recommended("alternative_min_net_reward_risk"@) == Some(Preset::Number(presets::with_recommended(s).alternative_min_net_reward_risk)),
        presets::recommended("alternative_target_r_multiple"@) == Some(Preset::Number(presets::with_recommended(s).alternative_target_r_multiple)),
        presets::recommended("alternative_max_target_pct"@) == Some(Preset::Number(presets::with_recommended(s).alternative_max_target_pct)),
        presets::recommended("alternative_min_stop_pct"@) == Some(Preset::Number(presets::with_recommended(s).alternative_min_stop_pct)),
        presets::recommended("alternative_max_stop_pct"@) == Some(Preset::Number(presets::with_recommended(s).alternative_max_stop_pct)),
        presets::recommended("alternative_structure_buffer_pct"@) == Some(Preset::Number(presets::with_recommended(s).alternative_structure_buffer_pct)),
        presets::recommended("fvg_min_net_reward_risk"@) == Some(Preset::Number(presets::with_recommended(s).fvg_min_net_reward_risk)),
{
    lemma_names_differ();
}

proof fn lemma_profile_4(s: Settings)
    ensures
        presets::recommended("fvg_target_r_multiple"@) == Some(Preset::Number(presets::with_recommended(s).fvg_target_r_multiple)),
        presets::recommended("fvg_max_target_pct"@) == Some(Preset::Number(presets::with_recommended(s).fvg_max_target_pct)),
        presets::recommended("fvg_min_stop_pct"@) == Some(Preset::Number(presets::with_recommended(s).fvg_min_stop_pct)),
        presets::recommended("fvg_max_stop_pct"@) == Some(Preset::Number(presets::with_recommended(s).fvg_max_stop_pct)),
        presets::recommended("fvg_stop_buffer_pct"@) == Some(Preset::Number(presets::with_recommended(s).fvg_stop_buffer_pct)),
        presets::recommended("fvg_m15_min_gap_atr"@) == Some(Preset::Number(presets::with_recommended(s).fvg_m15_min_gap_atr)),
        presets::recommended("fvg_m15_min_displacement_atr"@) == Some(Preset::Number(presets::with_recommended(s).fvg_m15_min_displacement_atr)),
        presets::recommended("fvg_m15_min_body_ratio"@) == Some(Preset::Number(presets::with_recommended(s).fvg_m15_min_body_ratio)),
        presets::recommended("fvg_m15_max_age_bars"@) == Some(Preset::Count(presets::with_recommended(s).fvg_m15_max_age_bars as u64)),
{
    lemma_names_differ();
}

proof fn lemma_profile_5(s: Settings)
    ensures
        presets::recommended("fvg_m1_min_gap_atr"@) == Some(Preset::Number(presets::with_recommended(s).fvg_m1_min_gap_atr)),
        presets::recommended("fvg_m1_min_displacement_atr"@) == Some(Preset::Number(presets::with_recommended(s).fvg_m1_min_displacement_atr)),
        presets::recommended("fvg_m1_min_body_ratio"@) == Some(Preset::Number(presets::with_recommended(s).fvg_m1_min_body_ratio)),
        presets::recommended("fvg_m1_confirmation_bars"@) == Some(Preset::Count(presets::with_recommended(s).fvg_m1_confirmation_bars as u64)),
        presets::recommended("fvg_s5_min_gap_pct"@) == Some(Preset::Number(presets::with_recommended(s).fvg_s5_min_gap_pct)),
        presets::recommended("fvg_s5_min_body_ratio"@) == Some(Preset::Number(presets::with_recommended(s).fvg_s5_min_body_ratio)),
        presets::recommended("fvg_s5_inversion_bars"@) == Some(Preset::Count(presets::with_recommended(s).fvg_s5_inversion_bars as u64)),
        presets::recommended("fvg_s5_retest_bars"@) == Some(Preset::Count(presets::with_recommended(s).fvg_s5_retest_bars as u64)),
        presets::recommended("fvg_s5_entry_depth"@) == Some(Preset::Number(presets::with_recommended(s).fvg_s5_entry_depth)),
{
    lemma_names_differ();
}

/// The recommended profile sets each of the settings it manages to what it recommends for its
/// name.
pub proof fn the_profile_sets_what_it_recommends(s: Settings)
    ensures
        ({
            let r = presets::with_recommended(s);
            &&& presets::recommended("invert_sides"@) == Some(Preset::Flag(r.invert_sides))
            &&& presets::recommended("risk_per_trade_pct"@) == Some(Preset::Number(r.risk_per_trade_pct))
            &&& presets::recommended("max_open_positions"@) == Some(Preset::Count(r.max_open_positions as u64))
            &&& presets::recommended("max_daily_loss_pct"@) == Some(Preset::Number(r.max_daily_loss_pct))
            &&& presets::recommended("max_consecutive_losses"@) == Some(Preset::Count(r.max_consecutive_losses as u64))
            &&& presets::recommended("cooldown_seconds"@) == Some(Preset::Number(r.cooldown_seconds))
            &&& presets::recommended("loss_cooldown_seconds"@) == Some(Preset::Number(r.loss_cooldown_seconds))
            &&& presets::recommended("cost_safety_multiplier"@) == Some(Preset::Number(r.cost_safety_multiplier))
            &&& presets::recommended("max_holding_seconds"@) == Some(Preset::Number(r.max_holding_seconds))
            &&& presets::recommended("trail_arm_r"@) == Some(Preset::Number(r.trail_arm_r))
            &&& presets::recommended("trail_giveback_r"@) == Some(Preset::Number(r.trail_giveback_r))
            &&& presets::recommended("breakeven_arm_r"@) == Some(Preset::Number(r.breakeven_arm_r))
            &&& presets::recommended("reversal_confirm_ticks"@) == Some(Preset::Count(r.reversal_confirm_ticks as u64))
            &&& presets::recommended("reversal_confirm_seconds"@) == Some(Preset::Number(r.reversal_confirm_seconds))
            &&& presets::recommended("reversal_min_hold_seconds"@) == Some(Preset::Number(r.reversal_min_hold_seconds))
            &&& presets::recommended("alternative_wall_multiplier"@) == Some(Preset::Number(r.alternative_wall_multiplier))
            &&& presets::recommended("alternative_signal_expiry_seconds"@) == Some(Preset::Number(r.alternative_signal_expiry_seconds))
            &&& presets::recommended("alternative_retest_tolerance_pct"@) == Some(Preset::Number(r.alternative_retest_tolerance_pct))
            &&& presets::recommended("alternative_retest_hold_ticks"@) == Some(Preset::Count(r.alternative_retest_hold_ticks as u64))
            &&& presets::recommended("alternative_min_confluence_score"@) == Some(Preset::Count(r.alternative_min_confluence_score as u64))
            &&& presets::recommended("alternative_min_net_reward_risk"@) == Some(Preset::Number(r.alternative_min_net_reward_risk))
            &&& presets::recommended("alternative_target_r_multiple"@) == Some(Preset::Number(r.alternative_target_r_multiple))
            &&& presets::recommended("alternative_max_target_pct"@) == Some(Preset::Number(r.alternative_max_target_pct))
            &&& presets::recommended("alternative_min_stop_pct"@) == Some(Preset::Number(r.alternative_min_stop_pct))
            &&& presets::recommended("alternative_max_stop_pct"@) == Some(Preset::Number(r.alternative_max_stop_pct))
            &&& presets::recommended("alternative_structure_buffer_pct"@) == Some(Preset::Number(r.alternative_structure_buffer_pct))
            &&& presets::recommended("fvg_min_net_reward_risk"@) == Some(Preset::Number(r.fvg_min_net_reward_risk))
            &&& presets::recommended("fvg_target_r_multiple"@) == Some(Preset::Number(r.fvg_target_r_multiple))
            &&& presets::recommended("fvg_max_target_pct"@) == Some(Preset::Number(r.fvg_max_target_pct))
            &&& presets::recommended("fvg_min_stop_pct"@) == Some(Preset::Number(r.fvg_min_stop_pct))
            &&& presets::recommended("fvg_max_stop_pct"@) == Some(Preset::Number(r.fvg_max_stop_pct))
            &&& presets::recommended("fvg_stop_buffer_pct"@) == Some(Preset::Number(r.fvg_stop_buffer_pct))
            &&& presets::recommended("fvg_m15_min_gap_atr"@) == Some(Preset::Number(r.fvg_m15_min_gap_atr))
            &&& presets::recommended("fvg_m15_min_displacement_atr"@) == Some(Preset::Number(r.fvg_m15_min_displacement_atr))
            &&& presets::recommended("fvg_m15_min_body_ratio"@) == Some(Preset::Number(r.fvg_m15_min_body_ratio))
            &&& presets::recommended("fvg_m15_max_age_bars"@) == Some(Preset::Count(r.fvg_m15_max_age_bars as u64))
            &&& presets::recommended("fvg_m1_min_gap_atr"@) == Some(Preset::Number(r.fvg_m1_min_gap_atr))
            &&& presets::recommended("fvg_m1_min_displacement_atr"@) == Some(Preset::Number(r.fvg_m1_min_displacement_atr))
            &&& presets::recommended("fvg_m1_min_body_ratio"@) == Some(Preset::Number(r.fvg_m1_min_body_ratio))
            &&& presets::recommended("fvg_m1_confirmation_bars"@) == Some(Preset::Count(r.fvg_m1_confirmation_bars as u64))
            &&& presets::recommended("fvg_s5_min_gap_pct"@) == Some(Preset::Number(r.fvg_s5_min_gap_pct))
            &&& presets::recommended("fvg_s5_min_body_ratio"@) == Some(Preset::Number(r.fvg_s5_min_body_ratio))
            &&& presets::recommended("fvg_s5_inversion_bars"@) == Some(Preset::Count(r.fvg_s5_inversion_bars as u64))
            &&& presets::recommended("fvg_s5_retest_bars"@) == Some(Preset::Count(r.fvg_s5_retest_bars as u64))
            &&& presets::recommended("fvg_s5_entry_depth"@) == Some(Preset::Number(r.fvg_s5_entry_depth))
        }),
{
    lemma_profile_1(s);
    lemma_profile_2(s);
    lemma_profile_3(s);
    lemma_profile_4(s);
    lemma_profile_5(s);
}

/// The recommended profile leaves every setting that it does not manage, and a profile changes
/// nothing unless it is the recommended one.
pub proof fn a_profile_leaves_the_rest(s: Settings)
    ensures
        ({
            let r = presets::with_recommended(s);
            &&& r.rest_url == s.rest_url
            &&& r.ws_url == s.ws_url
            &&& r.host == s.host
            &&& r.port == s.port
            &&& r.force_demo == s.force_demo
            &&& r.demo_fallback == s.demo_fallback
            &&& r.trading_mode == s.trading_mode
            &&& r.strategy_mode == s.strategy_mode
            &&& r.settings_profile == s.settings_profile
            &&& r.scan_interval == s.scan_interval
            &&& r.max_symbols == s.max_symbols
            &&& r.min_turnover == s.min_turnover
            &&& r.min_price == s.min_price
            &&& r.max_spread_pct == s.max_spread_pct
            &&& r.ws_chunk_size == s.ws_chunk_size
            &&& r.taker_fee_pct == s.taker_fee_pct
            &&& r.slippage_pct == s.slippage_pct
            &&& r.account_equity == s.account_equity
            &&& r.max_position_notional == s.max_position_notional
            &&& r.fvg_candle_seconds == s.fvg_candle_seconds
            &&& r.fvg_min_gap_pct == s.fvg_min_gap_pct
            &&& r.fvg_signal_expiry_seconds == s.fvg_signal_expiry_seconds
            &&& r.fvg_entry_depth == s.fvg_entry_depth
            &&& r.fvg_min_confluence_score == s.fvg_min_confluence_score
            &&& r.min_live_trades == s.min_live_trades
            &&& r.min_live_profit_factor == s.min_live_profit_factor
            &&& r.min_live_expectancy == s.min_live_expectancy
            &&& r.max_live_drawdown_pct == s.max_live_drawdown_pct
            &&& r.demo_symbols == s.demo_symbols
        }),
        s.settings_profile@ == "ai_recommended"@ ==> config::profiled(s)
            == presets::with_recommended(s),
        s.settings_profile@ != "ai_recommended"@ ==> config::profiled(s) == s,
{
}

proof fn lemma_default_1()
    ensures
        presets::custom_default("invert_sides"@) == Some(Preset::Flag(false)),
        presets::custom_default("risk_per_trade_pct"@) == Some(Preset::Number(Double::ratio(25, 10_000))),
        presets::custom_default("max_open_positions"@) == Some(Preset::Count(2)),
        presets::custom_default("max_daily_loss_pct"@) == Some(Preset::Number(Double::ratio(15, 1_000))),
        presets::custom_default("max_consecutive_losses"@) == Some(Preset::Count(4)),
        presets::custom_default("cooldown_seconds"@) == Some(Preset::Number(Double::whole(180))),
        presets::custom_default("loss_cooldown_seconds"@) == Some(Preset::Number(Double::whole(900))),
        presets::custom_default("cost_safety_multiplier"@) == Some(Preset::Number(Double::ratio(135, 100))),
        presets::custom_default("max_holding_seconds"@) == Some(Preset::Number(Double::whole(900))),
{
    lemma_names_differ();
}

proof fn lemma_unset_1(env: Map<Seq<char>, String>, s: Settings)
    requires
        config::read_from(env, s),
    ensures
        !env.dom().contains("INVERT_SIDES"@) ==> s.invert_sides == false,
        !env.dom().contains("RISK_PER_TRADE_PCT"@) ==> s.risk_per_trade_pct == Double::ratio(25, 10_000),
        !env.dom().contains("MAX_OPEN_POSITIONS"@) ==> s.max_open_positions == 2,
        !env.dom().contains("MAX_DAILY_LOSS_PCT"@) ==> s.max_daily_loss_pct == Double::ratio(15, 1_000),
        !env.dom().contains("MAX_CONSECUTIVE_LOSSES"@) ==> s.max_consecutive_losses == 4,
        !env.dom().contains("COOLDOWN_SECONDS"@) ==> s.cooldown_seconds == Double::whole(180),
        !env.dom().contains("LOSS_COOLDOWN_SECONDS"@) ==> s.loss_cooldown_seconds == Double::whole(900),
        !env.dom().contains("COST_SAFETY_MULTIPLIER"@) ==> s.cost_safety_multiplier == Double::ratio(135, 100),
        !env.dom().contains("MAX_HOLDING_SECONDS"@) ==> s.max_holding_seconds == Double::whole(900),
{
}

proof fn lemma_default_2()
    ensures
        presets::custom_default("trail_arm_r"@) == Some(Preset::Number(Double::whole(1))),
        presets::custom_default("trail_giveback_r"@) == Some(Preset::Number(Double::ratio(55, 100))),
        presets::custom_default("breakeven_arm_r"@) == Some(Preset::Number(Double::ratio(8, 10))),
        presets::custom_default("reversal_confirm_ticks"@) == Some(Preset::Count(3)),
        presets::custom_default("reversal_confirm_seconds"@) == Some(Preset::Number(Double::whole(3))),
        presets::custom_default("reversal_min_hold_seconds"@) == Some(Preset::Number(Double::whole(30))),
        presets::custom_default("alternative_wall_multiplier"@) == Some(Preset::Number(Double::whole(15))),
        presets::custom_default("alternative_signal_expiry_seconds"@) == Some(Preset::Number(Double::whole(8))),
        presets::custom_default("alternative_retest_tolerance_pct"@) == Some(Preset::Number(Double::ratio(8, 10_000))),
{
    lemma_names_differ();
}

proof fn lemma_unset_2(env: Map<Seq<char>, String>, s: Settings)
    requires
        config::read_from(env, s),
    ensures
        !env.dom().contains("TRAIL_ARM_R"@) ==> s.trail_arm_r == Double::whole(1),
        !env.dom().contains("TRAIL_GIVEBACK_R"@) ==> s.trail_giveback_r == Double::ratio(55, 100),
        !env.dom().contains("BREAKEVEN_ARM_R"@) ==> s.breakeven_arm_r == Double::ratio(8, 10),
        !env.dom().contains("REVERSAL_CONFIRM_TICKS"@) ==> s.reversal_confirm_ticks == 3,
        !env.dom().contains("REVERSAL_CONFIRM_SECONDS"@) ==> s.reversal_confirm_seconds == Double::whole(3),
        !env.dom().contains("REVERSAL_MIN_HOLD_SECONDS"@) ==> s.reversal_min_hold_seconds == Double::whole(30),
        !env.dom().contains("ALTERNATIVE_WALL_MULTIPLIER"@) ==> s.alternative_wall_multiplier == Double::whole(15),
        !env.dom().contains("ALTERNATIVE_SIGNAL_EXPIRY_SECONDS"@) ==> s.alternative_signal_expiry_seconds == Double::whole(8),
        !env.dom().contains("ALTERNATIVE_RETEST_TOLERANCE_PCT"@) ==> s.alternative_retest_tolerance_pct == Double::ratio(8, 10_000),
{
}

proof fn lemma_default_3()
    ensures
        presets::custom_default("alternative_retest_hold_ticks"@) == Some(Preset::Count(3)),
        presets::custom_default("alternative_min_confluence_score"@) == Some(Preset::Count(85)),
        presets::custom_default("alternative_min_net_reward_risk"@) == Some(Preset::Number(Double::ratio(135, 100))),
        presets::custom_default("alternative_target_r_multiple"@) == Some(Preset::Number(Double::ratio(18, 10))),
        presets::custom_default("alternative_max_target_pct"@) == Some(Preset::Number(Double::ratio(1, 100))),
        presets::custom_default("alternative_min_stop_pct"@) == Some(Preset::Number(Double::ratio(2, 1_000))),
        presets::custom_default("alternative_max_stop_pct"@) == Some(Preset::Number(Double::ratio(75, 10_000))),
        presets::custom_default("alternative_structure_buffer_pct"@) == Some(Preset::Number(Double::ratio(8, 10_000))),
        presets::custom_default("fvg_min_net_reward_risk"@) == Some(Preset::Number(Double::ratio(135, 100))),
{
    lemma_names_differ();
}

proof fn lemma_unset_3(env: Map<Seq<char>, String>, s: Settings)
    requires
        config::read_from(env, s),
    ensures
        !env.dom().contains("ALTERNATIVE_RETEST_HOLD_TICKS"@) ==> s.alternative_retest_hold_ticks == 3,
        !env.dom().contains("ALTERNATIVE_MIN_CONFLUENCE_SCORE"@) ==> s.alternative_min_confluence_score == 85,
        !env.dom().contains("ALTERNATIVE_MIN_NET_REWARD_RISK"@) ==> s.alternative_min_net_reward_risk == Double::ratio(135, 100),
        !env.dom().contains("ALTERNATIVE_TARGET_R_MULTIPLE"@) ==> s.alternative_target_r_multiple == Double::ratio(18, 10),
        !env.dom().contains("ALTERNATIVE_MAX_TARGET_PCT"@) ==> s.alternative_max_target_pct == Double::ratio(1, 100),
        !env.dom().contains("ALTERNATIVE_MIN_STOP_PCT"@) ==> s.alternative_min_stop_pct == Double::ratio(2, 1_000),
        !env.dom().contains("ALTERNATIVE_MAX_STOP_PCT"@) ==> s.alternative_max_stop_pct == Double::ratio(75, 10_000),
        !env.dom().contains("ALTERNATIVE_STRUCTURE_BUFFER_PCT"@) ==> s.alternative_structure_buffer_pct == Double::ratio(8, 10_000),
        !env.dom().contains("FVG_MIN_NET_REWARD_RISK"@) ==> s.fvg_min_net_reward_risk == Double::ratio(135, 100),
{
}

proof fn lemma_default_4()
    ensures
        presets::custom_default("fvg_target_r_multiple"@) == Some(Preset::Number(Double::ratio(18, 10))),
        presets::custom_default("fvg_max_target_pct"@) == Some(Preset::Number(Double::ratio(1, 100))),
        presets::custom_default("fvg_min_stop_pct"@) == Some(Preset::Number(Double::ratio(2, 1_000))),
        presets::custom_default("fvg_max_stop_pct"@) == Some(Preset::Number(Double::ratio(75, 10_000))),
        presets::custom_default("fvg_stop_buffer_pct"@) == Some(Preset::Number(Double::ratio(8, 10_000))),
        presets::custom_default("fvg_m15_min_gap_atr"@) == Some(Preset::Number(Double::ratio(1, 10))),
        presets::custom_default("fvg_m15_min_displacement_atr"@) == Some(Preset::Number(Double::whole(1))),
        presets::custom_default("fvg_m15_min_body_ratio"@) == Some(Preset::Number(Double::ratio(6, 10))),
        presets::custom_default("fvg_m15_max_age_bars"@) == Some(Preset::Count(16)),
{
    lemma_names_differ();
}

proof fn lemma_unset_4(env: Map<Seq<char>, String>, s: Settings)
    requires
        config::read_from(env, s),
    ensures
        !env.dom().contains("FVG_TARGET_R_MULTIPLE"@) ==> s.fvg_target_r_multiple == Double::ratio(18, 10),
        !env.dom().contains("FVG_MAX_TARGET_PCT"@) ==> s.fvg_max_target_pct == Double::ratio(1, 100),
        !env.dom().contains("FVG_MIN_STOP_PCT"@) ==> s.fvg_min_stop_pct == Double::ratio(2, 1_000),
        !env.dom().contains("FVG_MAX_STOP_PCT"@) ==> s.fvg_max_stop_pct == Double::ratio(75, 10_000),
        !env.dom().contains("FVG_STOP_BUFFER_PCT"@) ==> s.fvg_stop_buffer_pct == Double::ratio(8, 10_000),
        !env.dom().contains("FVG_M15_MIN_GAP_ATR"@) ==> s.fvg_m15_min_gap_atr == Double::ratio(1, 10),
        !env.dom().contains("FVG_M15_MIN_DISPLACEMENT_ATR"@) ==> s.fvg_m15_min_displacement_atr == Double::whole(1),
        !env.dom().contains("FVG_M15_MIN_BODY_RATIO"@) ==> s.fvg_m15_min_body_ratio == Double::ratio(6, 10),
        !env.dom().contains("FVG_M15_MAX_AGE_BARS"@) ==> s.fvg_m15_max_age_bars == 16,
{
}

proof fn lemma_default_5()
    ensures
        presets::custom_default("fvg_m1_min_gap_atr"@) == Some(Preset::Number(Double::ratio(5, 100))),
        presets::custom_default("fvg_m1_min_displacement_atr"@) == Some(Preset::Number(Double::ratio(8, 10))),
        presets::custom_default("fvg_m1_min_body_ratio"@) == Some(Preset::Number(Double::ratio(6, 10))),
        presets::custom_default("fvg_m1_confirmation_bars"@) == Some(Preset::Count(15)),
        presets::custom_default("fvg_s5_min_gap_pct"@) == Some(Preset::Number(Double::ratio(15, 100_000))),
        presets::custom_default("fvg_s5_min_body_ratio"@) == Some(Preset::Number(Double::ratio(55, 100))),
        presets::custom_default("fvg_s5_inversion_bars"@) == Some(Preset::Count(24)),
        presets::custom_default("fvg_s5_retest_bars"@) == Some(Preset::Count(12)),
        presets::custom_default("fvg_s5_entry_depth"@) == Some(Preset::Number(Double::ratio(5, 10))),
{
    lemma_names_differ();
}

proof fn lemma_unset_5(env: Map<Seq<char>, String>, s: Settings)
    requires
        config::read_from(env, s),
    ensures
        !env.dom().contains("FVG_M1_MIN_GAP_ATR"@) ==> s.fvg_m1_min_gap_atr == Double::ratio(5, 100),
        !env.dom().contains("FVG_M1_MIN_DISPLACEMENT_ATR"@) ==> s.fvg_m1_min_displacement_atr == Double::ratio(8, 10),
        !env.dom().contains("FVG_M1_MIN_BODY_RATIO"@) ==> s.fvg_m1_min_body_ratio == Double::ratio(6, 10),
        !env.dom().contains("FVG_M1_CONFIRMATION_BARS"@) ==> s.fvg_m1_confirmation_bars == 15,
        !env.dom().contains("FVG_S5_MIN_GAP_PCT"@) ==> s.fvg_s5_min_gap_pct == Double::ratio(15, 100_000),
        !env.dom().contains("FVG_S5_MIN_BODY_RATIO"@) ==> s.fvg_s5_min_body_ratio == Double::ratio(55, 100),
        !env.dom().contains("FVG_S5_INVERSION_BARS"@) ==> s.fvg_s5_inversion_bars == 24,
        !env.dom().contains("FVG_S5_RETEST_BARS"@) ==> s.fvg_s5_retest_bars == 12,
        !env.dom().contains("FVG_S5_ENTRY_DEPTH"@) ==> s.fvg_s5_entry_depth == Double::ratio(5, 10),
{
}

/// A managed setting whose variable is not set starts with its custom default.
pub proof fn settings_start_with_their_defaults(env: Map<Seq<char>, String>, s: Settings)
    requires
        config::read_from(env, s),
    ensures
        !env.dom().contains("INVERT_SIDES"@) ==> presets::custom_default("invert_sides"@) == Some(
            Preset::Flag(s.invert_sides),
        ),
        !env.dom().contains("RISK_PER_TRADE_PCT"@) ==> presets::custom_default("risk_per_trade_pct"@) == Some(
            Preset::Number(s.risk_per_trade_pct),
        ),
        !env.dom().contains("MAX_OPEN_POSITIONS"@) ==> presets::custom_default("max_open_positions"@) == Some(
            Preset::Count(s.max_open_positions as u64),
        ),
        !env.dom().contains("MAX_DAILY_LOSS_PCT"@) ==> presets::custom_default("max_daily_loss_pct"@) == Some(
            Preset::Number(s.max_daily_loss_pct),
        ),
        !env.dom().contains("MAX_CONSECUTIVE_LOSSES"@) ==> presets::custom_default("max_consecutive_losses"@) == Some(
            Preset::Count(s.max_consecutive_losses as u64),
        ),
        !env.dom().contains("COOLDOWN_SECONDS"@) ==> presets::custom_default("cooldown_seconds"@) == Some(
            Preset::Number(s.cooldown_seconds),
        ),
        !env.dom().contains("LOSS_COOLDOWN_SECONDS"@) ==> presets::custom_default("loss_cooldown_seconds"@) == Some(
            Preset::Number(s.loss_cooldown_seconds),
        ),
        !env.dom().contains("COST_SAFETY_MULTIPLIER"@) ==> presets::custom_default("cost_safety_multiplier"@) == Some(
            Preset::Number(s.cost_safety_multiplier),
        ),
        !env.dom().contains("MAX_HOLDING_SECONDS"@) ==> presets::custom_default("max_holding_seconds"@) == Some(
            Preset::Number(s.max_holding_seconds),
        ),
        !env.dom().contains("TRAIL_ARM_R"@) ==> presets::custom_default("trail_arm_r"@) == Some(
            Preset::Number(s.trail_arm_r),
        ),
        !env.dom().contains("TRAIL_GIVEBACK_R"@) ==> presets::custom_default("trail_giveback_r"@) == Some(
            Preset::Number(s.trail_giveback_r),
        ),
        !env.dom().contains("BREAKEVEN_ARM_R"@) ==> presets::custom_default("breakeven_arm_r"@) == Some(
            Preset::Number(s.breakeven_arm_r),
        ),
        !env.dom().contains("REVERSAL_CONFIRM_TICKS"@) ==> presets::custom_default("reversal_confirm_ticks"@) == Some(
            Preset::Count(s.reversal_confirm_ticks as u64),
        ),
        !env.dom().contains("REVERSAL_CONFIRM_SECONDS"@) ==> presets::custom_default("reversal_confirm_seconds"@) == Some(
            Preset::Number(s.reversal_confirm_seconds),
        ),
        !env.dom().contains("REVERSAL_MIN_HOLD_SECONDS"@) ==> presets::custom_default("reversal_min_hold_seconds"@) == Some(
            Preset::Number(s.reversal_min_hold_seconds),
        ),
        !env.dom().contains("ALTERNATIVE_WALL_MULTIPLIER"@) ==> presets::custom_default("alternative_wall_multiplier"@) == Some(
            Preset::Number(s.alternative_wall_multiplier),
        ),
        !env.dom().contains("ALTERNATIVE_SIGNAL_EXPIRY_SECONDS"@) ==> presets::custom_default("alternative_signal_expiry_seconds"@) == Some(
            Preset::Number(s.alternative_signal_expiry_seconds),
        ),
        !env.dom().contains("ALTERNATIVE_RETEST_TOLERANCE_PCT"@) ==> presets::custom_default("alternative_retest_tolerance_pct"@) == Some(
            Preset::Number(s.alternative_retest_tolerance_pct),
        ),
        !env.dom().contains("ALTERNATIVE_RETEST_HOLD_TICKS"@) ==> presets::custom_default("alternative_retest_hold_ticks"@) == Some(
            Preset::Count(s.alternative_retest_hold_ticks as u64),
        ),
        !env.dom().contains("ALTERNATIVE_MIN_CONFLUENCE_SCORE"@) ==> presets::custom_default("alternative_min_confluence_score"@) == Some(
            Preset::Count(s.alternative_min_confluence_score as u64),
        ),
        !env.dom().contains("ALTERNATIVE_MIN_NET_REWARD_RISK"@) ==> presets::custom_default("alternative_min_net_reward_risk"@) == Some(
            Preset::Number(s.alternative_min_net_reward_risk),
        ),
        !env.dom().contains("ALTERNATIVE_TARGET_R_MULTIPLE"@) ==> presets::custom_default("alternative_target_r_multiple"@) == Some(
            Preset::Number(s.alternative_target_r_multiple),
        ),
        !env.dom().contains("ALTERNATIVE_MAX_TARGET_PCT"@) ==> presets::custom_default("alternative_max_target_pct"@) == Some(
            Preset::Number(s.alternative_max_target_pct),
        ),
        !env.dom().contains("ALTERNATIVE_MIN_STOP_PCT"@) ==> presets::custom_default("alternative_min_stop_pct"@) == Some(
            Preset::Number(s.alternative_min_stop_pct),
        ),
        !env.dom().contains("ALTERNATIVE_MAX_STOP_PCT"@) ==> presets::custom_default("alternative_max_stop_pct"@) == Some(
            Preset::Number(s.alternative_max_stop_pct),
        ),
        !env.dom().contains("ALTERNATIVE_STRUCTURE_BUFFER_PCT"@) ==> presets::custom_default("alternative_structure_buffer_pct"@) == Some(
            Preset::Number(s.alternative_structure_buffer_pct),
        ),
        !env.dom().contains("FVG_MIN_NET_REWARD_RISK"@) ==> presets::custom_default("fvg_min_net_reward_risk"@) == Some(
            Preset::Number(s.fvg_min_net_reward_risk),
        ),
        !env.dom().contains("FVG_TARGET_R_MULTIPLE"@) ==> presets::custom_default("fvg_target_r_multiple"@) == Some(
            Preset::Number(s.fvg_target_r_multiple),
        ),
        !env.dom().contains("FVG_MAX_TARGET_PCT"@) ==> presets::custom_default("fvg_max_target_pct"@) == Some(
            Preset::Number(s.fvg_max_target_pct),
        ),
        !env.dom().contains("FVG_MIN_STOP_PCT"@) ==> presets::custom_default("fvg_min_stop_pct"@) == Some(
            Preset::Number(s.fvg_min_stop_pct),
        ),
        !env.dom().contains("FVG_MAX_STOP_PCT"@) ==> presets::custom_default("fvg_max_stop_pct"@) == Some(
            Preset::Number(s.fvg_max_stop_pct),
        ),
        !env.dom().contains("FVG_STOP_BUFFER_PCT"@) ==> presets::custom_default("fvg_stop_buffer_pct"@) == Some(
            Preset::Number(s.fvg_stop_buffer_pct),
        ),
        !env.dom().contains("FVG_M15_MIN_GAP_ATR"@) ==> presets::custom_default("fvg_m15_min_gap_atr"@) == Some(
            Preset::Number(s.fvg_m15_min_gap_atr),
        ),
        !env.dom().contains("FVG_M15_MIN_DISPLACEMENT_ATR"@) ==> presets::custom_default("fvg_m15_min_displacement_atr"@) == Some(
            Preset::Number(s.fvg_m15_min_displacement_atr),
        ),
        !env.dom().contains("FVG_M15_MIN_BODY_RATIO"@) ==> presets::custom_default("fvg_m15_min_body_ratio"@) == Some(
            Preset::Number(s.fvg_m15_min_body_ratio),
        ),
        !env.dom().contains("FVG_M15_MAX_AGE_BARS"@) ==> presets::custom_default("fvg_m15_max_age_bars"@) == Some(
            Preset::Count(s.fvg_m15_max_age_bars as u64),
        ),
        !env.dom().contains("FVG_M1_MIN_GAP_ATR"@) ==> presets::custom_default("fvg_m1_min_gap_atr"@) == Some(
            Preset::Number(s.fvg_m1_min_gap_atr),
        ),
        !env.dom().contains("FVG_M1_MIN_DISPLACEMENT_ATR"@) ==> presets::custom_default("fvg_m1_min_displacement_atr"@) == Some(
            Preset::Number(s.fvg_m1_min_displacement_atr),
        ),
        !env.dom().contains("FVG_M1_MIN_BODY_RATIO"@) ==> presets::custom_default("fvg_m1_min_body_ratio"@) == Some(
            Preset::Number(s.fvg_m1_min_body_ratio),
        ),
        !env.dom().contains("FVG_M1_CONFIRMATION_BARS"@) ==> presets::custom_default("fvg_m1_confirmation_bars"@) == Some(
            Preset::Count(s.fvg_m1_confirmation_bars as u64),
        ),
        !env.dom().contains("FVG_S5_MIN_GAP_PCT"@) ==> presets::custom_default("fvg_s5_min_gap_pct"@) == Some(
            Preset::Number(s.fvg_s5_min_gap_pct),
        ),
        !env.dom().contains("FVG_S5_MIN_BODY_RATIO"@) ==> presets::custom_default("fvg_s5_min_body_ratio"@) == Some(
            Preset::Number(s.fvg_s5_min_body_ratio),
        ),
        !env.dom().contains("FVG_S5_INVERSION_BARS"@) ==> presets::custom_default("fvg_s5_inversion_bars"@) == Some(
            Preset::Count(s.fvg_s5_inversion_bars as u64),
        ),
        !env.dom().contains("FVG_S5_RETEST_BARS"@) ==> presets::custom_default("fvg_s5_retest_bars"@) == Some(
            Preset::Count(s.fvg_s5_retest_bars as u64),
        ),
        !env.dom().contains("FVG_S5_ENTRY_DEPTH"@) ==> presets::custom_default("fvg_s5_entry_depth"@) == Some(
            Preset::Number(s.fvg_s5_entry_depth),
        ),
{
    lemma_default_1();
    lemma_unset_1(env, s);
    lemma_default_2();
    lemma_unset_2(env, s);
    lemma_default_3();
    lemma_unset_3(env, s);
    lemma_default_4();
    lemma_unset_4(env, s);
    lemma_default_5();
    lemma_unset_5(env, s);
}

/// The number that a variable holds.
pub open spec fn number_in(env: Map<Seq<char>, String>, name: Seq<char>) -> Option<Double> {
    if env.dom().contains(name) {
        reading::double_of(env[name]@)
    } else {
        None
    }
}

/// The count that a variable holds.
pub open spec fn count_in(env: Map<Seq<char>, String>, name: Seq<char>) -> Option<u64> {
    if env.dom().contains(name) {
        parsing::unsigned_of(env[name]@)
    } else {
        None
    }
}

/// A setting that is a number is what the variable of its name holds, where that is a number.
pub proof fn numbers_come_from_their_variables(env: Map<Seq<char>, String>, s: Settings, x: Double)
    requires
        config::read_from(env, s),
    ensures
        number_in(env, "MIN_TURNOVER"@) == Some(x) ==> s.min_turnover == x,
        number_in(env, "MIN_PRICE"@) == Some(x) ==> s.min_price == x,
        number_in(env, "MAX_SPREAD_PCT"@) == Some(x) ==> s.max_spread_pct == x,
        number_in(env, "TAKER_FEE_PCT"@) == Some(x) ==> s.taker_fee_pct == x,
        number_in(env, "SLIPPAGE_PCT"@) == Some(x) ==> s.slippage_pct == x,
        number_in(env, "COST_SAFETY_MULTIPLIER"@) == Some(x) ==> s.cost_safety_multiplier == x,
        number_in(env, "MAX_HOLDING_SECONDS"@) == Some(x) ==> s.max_holding_seconds == x,
        number_in(env, "TRAIL_ARM_R"@) == Some(x) ==> s.trail_arm_r == x,
        number_in(env, "TRAIL_GIVEBACK_R"@) == Some(x) ==> s.trail_giveback_r == x,
        number_in(env, "BREAKEVEN_ARM_R"@) == Some(x) ==> s.breakeven_arm_r == x,
        number_in(env, "REVERSAL_CONFIRM_SECONDS"@) == Some(x) ==> s.reversal_confirm_seconds == x,
        number_in(env, "REVERSAL_MIN_HOLD_SECONDS"@) == Some(x) ==> s.reversal_min_hold_seconds == x,
        number_in(env, "ACCOUNT_EQUITY"@) == Some(x) ==> s.account_equity == x,
        number_in(env, "RISK_PER_TRADE_PCT"@) == Some(x) ==> s.risk_per_trade_pct == x,
        number_in(env, "MAX_POSITION_NOTIONAL"@) == Some(x) ==> s.max_position_notional == x,
        number_in(env, "MAX_DAILY_LOSS_PCT"@) == Some(x) ==> s.max_daily_loss_pct == x,
        number_in(env, "COOLDOWN_SECONDS"@) == Some(x) ==> s.cooldown_seconds == x,
        number_in(env, "LOSS_COOLDOWN_SECONDS"@) == Some(x) ==> s.loss_cooldown_seconds == x,
        number_in(env, "ALTERNATIVE_WALL_MULTIPLIER"@) == Some(x) ==> s.alternative_wall_multiplier == x,
        number_in(env, "ALTERNATIVE_SIGNAL_EXPIRY_SECONDS"@) == Some(x) ==> s.alternative_signal_expiry_seconds == x,
        number_in(env, "ALTERNATIVE_RETEST_TOLERANCE_PCT"@) == Some(x) ==> s.alternative_retest_tolerance_pct == x,
        number_in(env, "ALTERNATIVE_MIN_NET_REWARD_RISK"@) == Some(x) ==> s.alternative_min_net_reward_risk == x,
        number_in(env, "ALTERNATIVE_TARGET_R_MULTIPLE"@) == Some(x) ==> s.alternative_target_r_multiple == x,
        number_in(env, "ALTERNATIVE_MAX_TARGET_PCT"@) == Some(x) ==> s.alternative_max_target_pct == x,
        number_in(env, "ALTERNATIVE_MIN_STOP_PCT"@) == Some(x) ==> s.alternative_min_stop_pct == x,
        number_in(env, "ALTERNATIVE_MAX_STOP_PCT"@) == Some(x) ==> s.alternative_max_stop_pct == x,
        number_in(env, "ALTERNATIVE_STRUCTURE_BUFFER_PCT"@) == Some(x) ==> s.alternative_structure_buffer_pct == x,
        number_in(env, "FVG_CANDLE_SECONDS"@) == Some(x) ==> s.fvg_candle_seconds == x,
        number_in(env, "FVG_MIN_GAP_PCT"@) == Some(x) ==> s.fvg_min_gap_pct == x,
        number_in(env, "FVG_SIGNAL_EXPIRY_SECONDS"@) == Some(x) ==> s.fvg_signal_expiry_seconds == x,
        number_in(env, "FVG_ENTRY_DEPTH"@) == Some(x) ==> s.fvg_entry_depth == x,
        number_in(env, "FVG_MIN_NET_REWARD_RISK"@) == Some(x) ==> s.fvg_min_net_reward_risk == x,
        number_in(env, "FVG_TARGET_R_MULTIPLE"@) == Some(x) ==> s.fvg_target_r_multiple == x,
        number_in(env, "FVG_MAX_TARGET_PCT"@) == Some(x) ==> s.fvg_max_target_pct == x,
        number_in(env, "FVG_MIN_STOP_PCT"@) == Some(x) ==> s.fvg_min_stop_pct == x,
        number_in(env, "FVG_MAX_STOP_PCT"@) == Some(x) ==> s.fvg_max_stop_pct == x,
        number_in(env, "FVG_STOP_BUFFER_PCT"@) == Some(x) ==> s.fvg_stop_buffer_pct == x,
        number_in(env, "FVG_M15_MIN_GAP_ATR"@) == Some(x) ==> s.fvg_m15_min_gap_atr == x,
        number_in(env, "FVG_M15_MIN_DISPLACEMENT_ATR"@) == Some(x) ==> s.fvg_m15_min_displacement_atr == x,
        number_in(env, "FVG_M15_MIN_BODY_RATIO"@) == Some(x) ==> s.fvg_m15_min_body_ratio == x,
        number_in(env, "FVG_M1_MIN_GAP_ATR"@) == Some(x) ==> s.fvg_m1_min_gap_atr == x,
        number_in(env, "FVG_M1_MIN_DISPLACEMENT_ATR"@) == Some(x) ==> s.fvg_m1_min_displacement_atr == x,
        number_in(env, "FVG_M1_MIN_BODY_RATIO"@) == Some(x) ==> s.fvg_m1_min_body_ratio == x,
        number_in(env, "FVG_S5_MIN_GAP_PCT"@) == Some(x) ==> s.fvg_s5_min_gap_pct == x,
        number_in(env, "FVG_S5_MIN_BODY_RATIO"@) == Some(x) ==> s.fvg_s5_min_body_ratio == x,
        number_in(env, "FVG_S5_ENTRY_DEPTH"@) == Some(x) ==> s.fvg_s5_entry_depth == x,
        number_in(env, "MIN_LIVE_PROFIT_FACTOR"@) == Some(x) ==> s.min_live_profit_factor == x,
        number_in(env, "MIN_LIVE_EXPECTANCY"@) == Some(x) ==> s.min_live_expectancy == x,
        number_in(env, "MAX_LIVE_DRAWDOWN_PCT"@) == Some(x) ==> s.max_live_drawdown_pct == x,
{
}

/// A setting that is a count is what the variable of its name holds, where that is a count.
pub proof fn counts_come_from_their_variables(env: Map<Seq<char>, String>, s: Settings, n: u64)
    requires
        config::read_from(env, s),
    ensures
        count_in(env, "PORT"@) == Some(n) ==> s.port == n as u16,
        count_in(env, "SCAN_INTERVAL"@) == Some(n) ==> s.scan_interval == n,
        count_in(env, "MAX_SYMBOLS"@) == Some(n) ==> s.max_symbols == n as usize,
        count_in(env, "WS_CHUNK_SIZE"@) == Some(n) ==> s.ws_chunk_size == n as usize,
        count_in(env, "REVERSAL_CONFIRM_TICKS"@) == Some(n) ==> s.reversal_confirm_ticks == n as u32,
        count_in(env, "MAX_OPEN_POSITIONS"@) == Some(n) ==> s.max_open_positions == n as usize,
        count_in(env, "MAX_CONSECUTIVE_LOSSES"@) == Some(n) ==> s.max_consecutive_losses == n as usize,
        count_in(env, "ALTERNATIVE_RETEST_HOLD_TICKS"@) == Some(n) ==> s.alternative_retest_hold_ticks == n as u32,
        count_in(env, "ALTERNATIVE_MIN_CONFLUENCE_SCORE"@) == Some(n) ==> s.alternative_min_confluence_score == n as i64,
        count_in(env, "FVG_MIN_CONFLUENCE_SCORE"@) == Some(n) ==> s.fvg_min_confluence_score == n as i64,
        count_in(env, "FVG_M15_MAX_AGE_BARS"@) == Some(n) ==> s.fvg_m15_max_age_bars == n as u32,
        count_in(env, "FVG_M1_CONFIRMATION_BARS"@) == Some(n) ==> s.fvg_m1_confirmation_bars == n as u32,
        count_in(env, "FVG_S5_INVERSION_BARS"@) == Some(n) ==> s.fvg_s5_inversion_bars == n as u32,
        count_in(env, "FVG_S5_RETEST_BARS"@) == Some(n) ==> s.fvg_s5_retest_bars == n as u32,
        count_in(env, "MIN_LIVE_TRADES"@) == Some(n) ==> s.min_live_trades == n as usize,
{
}

/// The equity falls back on an older name of its variable.
pub proof fn the_equity_has_an_older_name(env: Map<Seq<char>, String>, s: Settings, x: Double)
    requires
        config::read_from(env, s),
        number_in(env, "ACCOUNT_EQUITY"@) is None,
    ensures
        number_in(env, "PAPER_EQUITY"@) == Some(x) ==> s.account_equity == x,
{
}

/// A switch is on exactly when its variable says yes in one of four ways, in letters of any
/// size; without a variable the feed falls back to the demo one, and nothing is inverted or
/// forced.
pub proof fn switches_say_yes(env: Map<Seq<char>, String>, s: Settings)
    requires
        config::read_from(env, s),
    ensures
        env.dom().contains("INVERT_SIDES"@) ==> (s.invert_sides <==> says_yes(
            env["INVERT_SIDES"@]@,
        )),
        env.dom().contains("DEMO_FALLBACK"@) ==> (s.demo_fallback <==> says_yes(
            env["DEMO_FALLBACK"@]@,
        )),
        !env.dom().contains("INVERT_SIDES"@) ==> !s.invert_sides,
        !env.dom().contains("DEMO_FALLBACK"@) ==> s.demo_fallback,
        env.dom().contains("FORCE_DEMO"@) && says_yes(env["FORCE_DEMO"@]@) ==> s.force_demo,
        env.dom().contains("DATA_MODE"@) && reading::same_letters(env["DATA_MODE"@]@, "demo"@)
            ==> s.force_demo,
        env.dom().contains("DATA_MODE"@) && !reading::same_letters(env["DATA_MODE"@]@, "demo"@)
            && !env.dom().contains("FORCE_DEMO"@) ==> !s.force_demo,
{
}

/// Whether a text says yes.
pub open spec fn says_yes(value: Seq<char>) -> bool {
    let lower = text::lowercased(value);
    lower == "1"@ || lower == "true"@ || lower == "yes"@ || lower == "on"@
}

/// A list takes its entries in order, without the space around them and in capitals, and leaves
/// out what is empty.
pub proof fn a_list_takes_its_entries(parts: Seq<Seq<char>>, part: Seq<char>)
    ensures
        config::listed(Seq::empty()).len() == 0,
        text::stripped(part, Edge::Space).len() == 0 ==> config::listed(parts.push(part))
            == config::listed(parts),
        text::stripped(part, Edge::Space).len() > 0 ==> config::listed(parts.push(part))
            == config::listed(parts).push(text::uppercased(text::stripped(part, Edge::Space))),
{
    assert(parts.push(part).drop_last() =~= parts);
}

/// A line of a settings file sets exactly one variable, the last line that sets it wins, and a
/// line that is empty, a remark or without a name sets none.
pub proof fn a_line_sets_one_variable(
    env: Map<Seq<char>, Seq<char>>,
    lines: Seq<Seq<char>>,
    line: Seq<char>,
    other: Seq<char>,
)
    ensures
        config::loaded(env, Seq::empty()) == env,
        ({
            let before = config::loaded(env, lines);
            let after = config::loaded(env, lines.push(line));
            let bare = text::stripped(line, Edge::Space);
            match config::assignment(line) {
                Some((name, value)) => {
                    &&& name.len() > 0
                    &&& bare.len() > 0 && bare[0] != '#'
                    &&& after.dom().contains(name)
                    &&& after[name] == value
                    &&& other != name ==> (after.dom().contains(other)
                        <==> before.dom().contains(other))
                    &&& other != name && before.dom().contains(other) ==> after[other]
                        == before[other]
                },
                None => after == before,
            }
        }),
{
    assert(lines.push(line).drop_last() =~= lines);
}

/// The gap strategy takes each of its limits from the setting of that name, with the lengths of
/// each timeframe its own, and the room behind its zones from the stop buffer.
pub proof fn the_gap_strategy_takes_its_own_settings(s: Settings)
    ensures
        ({
            let c = MtfConfig::of(s);
            &&& c.m15_min_gap_atr == s.fvg_m15_min_gap_atr
            &&& c.m15_min_displacement_atr == s.fvg_m15_min_displacement_atr
            &&& c.m15_min_body_ratio == s.fvg_m15_min_body_ratio
            &&& c.m15_max_age_bars == s.fvg_m15_max_age_bars
            &&& c.m1_min_gap_atr == s.fvg_m1_min_gap_atr
            &&& c.m1_min_displacement_atr == s.fvg_m1_min_displacement_atr
            &&& c.m1_min_body_ratio == s.fvg_m1_min_body_ratio
            &&& c.m1_confirmation_bars == s.fvg_m1_confirmation_bars
            &&& c.s5_min_gap_pct == s.fvg_s5_min_gap_pct
            &&& c.s5_min_body_ratio == s.fvg_s5_min_body_ratio
            &&& c.s5_inversion_bars == s.fvg_s5_inversion_bars
            &&& c.s5_retest_bars == s.fvg_s5_retest_bars
            &&& c.s5_entry_depth == s.fvg_s5_entry_depth
            &&& c.invalidation_buffer_pct == s.fvg_stop_buffer_pct
            &&& c.m15_quality().min_gap_atr == s.fvg_m15_min_gap_atr
            &&& c.m15_quality().min_displacement_atr == s.fvg_m15_min_displacement_atr
            &&& c.m15_quality().min_body_ratio == s.fvg_m15_min_body_ratio
            &&& c.m1_quality().min_gap_atr == s.fvg_m1_min_gap_atr
            &&& c.m1_quality().min_displacement_atr == s.fvg_m1_min_displacement_atr
            &&& c.m1_quality().min_body_ratio == s.fvg_m1_min_body_ratio
        }),
{
}

/// An administrator is let in with exactly the password that is set, and never with an empty one.
pub proof fn only_the_password_lets_in(env: Map<Seq<char>, String>, password: Seq<char>)
    ensures
        admin::is_password(env, password) ==> password.len() > 0 && env.dom().contains(
            "ADMIN_PASSWORD"@,
        ) && env["ADMIN_PASSWORD"@]@ == password,
        env.dom().contains("ADMIN_PASSWORD"@) && env["ADMIN_PASSWORD"@]@.len() > 0
            ==> admin::is_password(env, env["ADMIN_PASSWORD"@]@),
        !env.dom().contains("ADMIN_PASSWORD"@) ==> !admin::has_password(env),
        env.dom().contains("ADMIN_PASSWORD"@) ==> (admin::has_password(env) <==> text::stripped(
            env["ADMIN_PASSWORD"@]@,
            Edge::Space,
        ).len() > 0),
{
}

/// A setting is written in place of the first line that sets its variable, or behind all lines
/// where there is none; every line that sets another one stays as it was.
pub proof fn a_setting_is_written_in_its_place(
    lines: Seq<Seq<char>>,
    name: Seq<char>,
    value: Seq<char>,
    i: int,
)
    ensures
        ({
            let after = saving::with_setting(lines, name, value);
            let line = name + "="@ + value;
            let set_before = exists|k: int| 0 <= k < lines.len() && saving::sets(
                #[trigger] lines[k],
                name,
            );
            &&& 0 <= i < lines.len() && !saving::sets(lines[i], name) ==> after[i] == lines[i]
            &&& set_before ==> after.len() == lines.len()
            &&& !set_before ==> after == lines.push(line)
            &&& 0 <= i < lines.len() && saving::sets(lines[i], name) && (forall|k: int|
                0 <= k < i ==> !saving::sets(#[trigger] lines[k], name)) ==> after[i] == line
        }),
{
    lemma_setting_line(lines, name);
    let at = saving::setting_line(lines, name) as int;
    if 0 <= i < lines.len() && saving::sets(lines[i], name) && at < i {
        assert(saving::sets(lines[at], name));
    }
}

proof fn lemma_setting_line(lines: Seq<Seq<char>>, name: Seq<char>)
    ensures
        saving::setting_line(lines, name) <= lines.len(),
        forall|k: int|
            0 <= k < saving::setting_line(lines, name) ==> !saving::sets(#[trigger] lines[k], name),
        saving::setting_line(lines, name) < lines.len() ==> saving::sets(
            lines[saving::setting_line(lines, name) as int],
            name,
        ),
    decreases lines.len(),
{
    if lines.len() > 0 && !saving::sets(lines[0], name) {
        let rest = lines.drop_first();
        lemma_setting_line(rest, name);
        let n = saving::setting_line(rest, name) as int;
        assert forall|k: int| 0 <= k < n + 1 implies !saving::sets(#[trigger] lines[k], name) by {
            if k > 0 {
                assert(rest[k - 1] == lines[k]);
            }
        }
        if n < rest.len() {
            assert(rest[n] == lines[n + 1]);
        }
    }
}

/// A line sets the variable whose name stands before its first `=`, without the space around it.
pub proof fn a_line_sets_what_stands_before_its_sign(left: Seq<char>, right: Seq<char>, name: Seq<char>)
    requires
        !left.contains('='),
    ensures
        saving::sets(left + seq!['='] + right, name) <==> text::stripped(left, Edge::Space)
            == name,
{
    let line = left + seq!['='] + right;
    text_laws::halves_lie_around_the_first_separator(line, '=');
    assert(line[left.len() as int] == '=');
    match text::halves(line, '=') {
        Some((a, b)) => {
            if a.len() < left.len() {
                assert(line[a.len() as int] == '=');
                assert(left[a.len() as int] == '=');
            } else if a.len() > left.len() {
                assert(a[left.len() as int] == line[left.len() as int]);
            }
            assert(a =~= left);
        },
        None => {
            assert(line.contains('='));
        },
    }
}

/// Under the recommended profile, asked for or already set, the settings that it manages are not
/// saved; under any other everything that is given is.
pub proof fn a_profile_keeps_its_settings(
    settings: Settings,
    values: Map<Seq<char>, Json>,
    key: Seq<char>,
)
    ensures
        ({
            let asked = values.dom().contains("settings_profile"@) && values["settings_profile"@]
                is Text;
            let profile = if asked {
                json::text_in(values["settings_profile"@])->0
            } else {
                settings.settings_profile@
            };
            let chosen = saving::chosen(settings, values);
            let held_back = profile == "ai_recommended"@ && setting_names::managed_keys().contains(
                key,
            );
            &&& chosen.dom().contains(key) <==> values.dom().contains(key) && !held_back
            &&& chosen.dom().contains(key) ==> chosen[key] == values[key]
        }),
{
}

/// A switch is written as a word, a count in digits, a text as it is, and only values of these
/// kinds, numbers and lists of texts are written at all.
pub proof fn values_are_written_by_their_kind(value: Json)
    ensures
        match value {
            Json::Bool(b) => saving::written_value(value) == Ok::<Seq<char>, Seq<char>>(
                if b {
                    "true"@
                } else {
                    "false"@
                },
            ),
            Json::Text(s) => saving::written_value(value) == Ok::<Seq<char>, Seq<char>>(s@),
            Json::Number(JsonNumber::Unsigned(n)) => match saving::written_value(value) {
                Ok(s) => parsing::unsigned_of(s) == Some(n),
                Err(_) => false,
            },
            Json::Number(JsonNumber::Negative(n)) => match saving::written_value(value) {
                Ok(s) => parsing::signed_of(s) == Some(n),
                Err(_) => false,
            },
            Json::Null => saving::written_value(value) is Err,
            Json::Object(_) => saving::written_value(value) is Err,
            _ => true,
        },
{
    match value {
        Json::Number(JsonNumber::Unsigned(n)) => {
            text_laws::counts_are_read_back(n);
        },
        Json::Number(JsonNumber::Negative(n)) => {
            text_laws::whole_numbers_are_read_back(n);
        },
        _ => {},
    }
}

} // verus!
