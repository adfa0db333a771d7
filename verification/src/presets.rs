//! The recommended profile.
use vstd::prelude::*;
use crate::config::Settings;
use crate::double::Double;
use crate::setting_names;
use crate::text;

verus! {

/// The value of a setting in a profile.
#[derive(Clone, Copy, Debug, PartialEq, Eq, Structural)]
pub enum Preset {
    Flag(bool),
    Count(u64),
    Number(Double),
}

/// What the recommended profile sets a setting to.
pub open spec fn recommended(key: Seq<char>) -> Option<Preset> {
    if key == "invert_sides"@ {
        Some(Preset::Flag(false))
    } else if key == "risk_per_trade_pct"@ {
        Some(Preset::Number(Double::ratio(25, 10_000)))
    } else if key == "max_open_positions"@ {
        Some(Preset::Count(2))
    } else if key == "max_daily_loss_pct"@ {
        Some(Preset::Number(Double::ratio(15, 1_000)))
    } else if key == "max_consecutive_losses"@ {
        Some(Preset::Count(4))
    } else if key == "cooldown_seconds"@ {
        Some(Preset::Number(Double::whole(180)))
    } else if key == "loss_cooldown_seconds"@ {
        Some(Preset::Number(Double::whole(900)))
    } else if key == "cost_safety_multiplier"@ {
        Some(Preset::Number(Double::ratio(135, 100)))
    } else if key == "max_holding_seconds"@ {
        Some(Preset::Number(Double::whole(900)))
    } else if key == "trail_arm_r"@ {
        Some(Preset::Number(Double::whole(1)))
    } else if key == "trail_giveback_r"@ {
        Some(Preset::Number(Double::ratio(55, 100)))
    } else if key == "breakeven_arm_r"@ {
        Some(Preset::Number(Double::ratio(8, 10)))
    } else if key == "reversal_confirm_ticks"@ {
        Some(Preset::Count(3))
    } else if key == "reversal_confirm_seconds"@ {
        Some(Preset::Number(Double::whole(3)))
    } else if key == "reversal_min_hold_seconds"@ {
        Some(Preset::Number(Double::whole(30)))
    } else if key == "alternative_wall_multiplier"@ {
        Some(Preset::Number(Double::whole(15)))
    } else if key == "alternative_signal_expiry_seconds"@ {
        Some(Preset::Number(Double::whole(8)))
    } else if key == "alternative_retest_tolerance_pct"@ {
        Some(Preset::Number(Double::ratio(8, 10_000)))
    } else if key == "alternative_retest_hold_ticks"@ {
        Some(Preset::Count(3))
    } else if key == "alternative_min_confluence_score"@ {
        Some(Preset::Count(85))
    } else if key == "alternative_min_net_reward_risk"@ {
        Some(Preset::Number(Double::ratio(135, 100)))
    } else if key == "alternative_target_r_multiple"@ {
        Some(Preset::Number(Double::ratio(18, 10)))
    } else if key == "alternative_max_target_pct"@ {
        Some(Preset::Number(Double::ratio(1, 100)))
    } else if key == "alternative_min_stop_pct"@ {
        Some(Preset::Number(Double::ratio(2, 1_000)))
    } else if key == "alternative_max_stop_pct"@ {
        Some(Preset::Number(Double::ratio(75, 10_000)))
    } else if key == "alternative_structure_buffer_pct"@ {
        Some(Preset::Number(Double::ratio(8, 10_000)))
    } else if key == "fvg_min_net_reward_risk"@ {
        Some(Preset::Number(Double::ratio(15, 10)))
    } else if key == "fvg_target_r_multiple"@ {
        Some(Preset::Number(Double::whole(2)))
    } else if key == "fvg_max_target_pct"@ {
        Some(Preset::Number(Double::ratio(12, 1_000)))
    } else if key == "fvg_min_stop_pct"@ {
        Some(Preset::Number(Double::ratio(15, 10_000)))
    } else if key == "fvg_max_stop_pct"@ {
        Some(Preset::Number(Double::ratio(6, 1_000)))
    } else if key == "fvg_stop_buffer_pct"@ {
        Some(Preset::Number(Double::ratio(5, 10_000)))
    } else if key == "fvg_m15_min_gap_atr"@ {
        Some(Preset::Number(Double::ratio(1, 10)))
    } else if key == "fvg_m15_min_displacement_atr"@ {
        Some(Preset::Number(Double::whole(1)))
    } else if key == "fvg_m15_min_body_ratio"@ {
        Some(Preset::Number(Double::ratio(6, 10)))
    } else if key == "fvg_m15_max_age_bars"@ {
        Some(Preset::Count(16))
    } else if key == "fvg_m1_min_gap_atr"@ {
        Some(Preset::Number(Double::ratio(5, 100)))
    } else if key == "fvg_m1_min_displacement_atr"@ {
        Some(Preset::Number(Double::ratio(8, 10)))
    } else if key == "fvg_m1_min_body_ratio"@ {
        Some(Preset::Number(Double::ratio(6, 10)))
    } else if key == "fvg_m1_confirmation_bars"@ {
        Some(Preset::Count(15))
    } else if key == "fvg_s5_min_gap_pct"@ {
        Some(Preset::Number(Double::ratio(15, 100_000)))
    } else if key == "fvg_s5_min_body_ratio"@ {
        Some(Preset::Number(Double::ratio(55, 100)))
    } else if key == "fvg_s5_inversion_bars"@ {
        Some(Preset::Count(24))
    } else if key == "fvg_s5_retest_bars"@ {
        Some(Preset::Count(12))
    } else if key == "fvg_s5_entry_depth"@ {
        Some(Preset::Number(Double::ratio(5, 10)))
    } else {
        None
    }
}

/// What the recommended profile sets a setting to.
pub fn ai_recommended(key: &str) -> (r: Option<Preset>)
    ensures
        r == recommended(key@),
{
    if text::text_eq(key, "invert_sides") {
        Some(Preset::Flag(false))
    } else if text::text_eq(key, "risk_per_trade_pct") {
        Some(Preset::Number(Double::ratio(25, 10_000)))
    } else if text::text_eq(key, "max_open_positions") {
        Some(Preset::Count(2))
    } else if text::text_eq(key, "max_daily_loss_pct") {
        Some(Preset::Number(Double::ratio(15, 1_000)))
    } else if text::text_eq(key, "max_consecutive_losses") {
        Some(Preset::Count(4))
    } else if text::text_eq(key, "cooldown_seconds") {
        Some(Preset::Number(Double::whole(180)))
    } else if text::text_eq(key, "loss_cooldown_seconds") {
        Some(Preset::Number(Double::whole(900)))
    } else if text::text_eq(key, "cost_safety_multiplier") {
        Some(Preset::Number(Double::ratio(135, 100)))
    } else if text::text_eq(key, "max_holding_seconds") {
        Some(Preset::Number(Double::whole(900)))
    } else if text::text_eq(key, "trail_arm_r") {
        Some(Preset::Number(Double::whole(1)))
    } else if text::text_eq(key, "trail_giveback_r") {
        Some(Preset::Number(Double::ratio(55, 100)))
    } else if text::text_eq(key, "breakeven_arm_r") {
        Some(Preset::Number(Double::ratio(8, 10)))
    } else if text::text_eq(key, "reversal_confirm_ticks") {
        Some(Preset::Count(3))
    } else if text::text_eq(key, "reversal_confirm_seconds") {
        Some(Preset::Number(Double::whole(3)))
    } else if text::text_eq(key, "reversal_min_hold_seconds") {
        Some(Preset::Number(Double::whole(30)))
    } else if text::text_eq(key, "alternative_wall_multiplier") {
        Some(Preset::Number(Double::whole(15)))
    } else if text::text_eq(key, "alternative_signal_expiry_seconds") {
        Some(Preset::Number(Double::whole(8)))
    } else if text::text_eq(key, "alternative_retest_tolerance_pct") {
        Some(Preset::Number(Double::ratio(8, 10_000)))
    } else if text::text_eq(key, "alternative_retest_hold_ticks") {
        Some(Preset::Count(3))
    } else if text::text_eq(key, "alternative_min_confluence_score") {
        Some(Preset::Count(85))
    } else if text::text_eq(key, "alternative_min_net_reward_risk") {
        Some(Preset::Number(Double::ratio(135, 100)))
    } else if text::text_eq(key, "alternative_target_r_multiple") {
        Some(Preset::Number(Double::ratio(18, 10)))
    } else if text::text_eq(key, "alternative_max_target_pct") {
        Some(Preset::Number(Double::ratio(1, 100)))
    } else if text::text_eq(key, "alternative_min_stop_pct") {
        Some(Preset::Number(Double::ratio(2, 1_000)))
    } else if text::text_eq(key, "alternative_max_stop_pct") {
        Some(Preset::Number(Double::ratio(75, 10_000)))
    } else if text::text_eq(key, "alternative_structure_buffer_pct") {
        Some(Preset::Number(Double::ratio(8, 10_000)))
    } else if text::text_eq(key, "fvg_min_net_reward_risk") {
        Some(Preset::Number(Double::ratio(15, 10)))
    } else if text::text_eq(key, "fvg_target_r_multiple") {
        Some(Preset::Number(Double::whole(2)))
    } else if text::text_eq(key, "fvg_max_target_pct") {
        Some(Preset::Number(Double::ratio(12, 1_000)))
    } else if text::text_eq(key, "fvg_min_stop_pct") {
        Some(Preset::Number(Double::ratio(15, 10_000)))
    } else if text::text_eq(key, "fvg_max_stop_pct") {
        Some(Preset::Number(Double::ratio(6, 1_000)))
    } else if text::text_eq(key, "fvg_stop_buffer_pct") {
        Some(Preset::Number(Double::ratio(5, 10_000)))
    } else if text::text_eq(key, "fvg_m15_min_gap_atr") {
        Some(Preset::Number(Double::ratio(1, 10)))
    } else if text::text_eq(key, "fvg_m15_min_displacement_atr") {
        Some(Preset::Number(Double::whole(1)))
    } else if text::text_eq(key, "fvg_m15_min_body_ratio") {
        Some(Preset::Number(Double::ratio(6, 10)))
    } else if text::text_eq(key, "fvg_m15_max_age_bars") {
        Some(Preset::Count(16))
    } else if text::text_eq(key, "fvg_m1_min_gap_atr") {
        Some(Preset::Number(Double::ratio(5, 100)))
    } else if text::text_eq(key, "fvg_m1_min_displacement_atr") {
        Some(Preset::Number(Double::ratio(8, 10)))
    } else if text::text_eq(key, "fvg_m1_min_body_ratio") {
        Some(Preset::Number(Double::ratio(6, 10)))
    } else if text::text_eq(key, "fvg_m1_confirmation_bars") {
        Some(Preset::Count(15))
    } else if text::text_eq(key, "fvg_s5_min_gap_pct") {
        Some(Preset::Number(Double::ratio(15, 100_000)))
    } else if text::text_eq(key, "fvg_s5_min_body_ratio") {
        Some(Preset::Number(Double::ratio(55, 100)))
    } else if text::text_eq(key, "fvg_s5_inversion_bars") {
        Some(Preset::Count(24))
    } else if text::text_eq(key, "fvg_s5_retest_bars") {
        Some(Preset::Count(12))
    } else if text::text_eq(key, "fvg_s5_entry_depth") {
        Some(Preset::Number(Double::ratio(5, 10)))
    } else {
        None
    }
}

/// What the custom profile starts from.
pub open spec fn custom_default(key: Seq<char>) -> Option<Preset> {
    if key == "fvg_min_net_reward_risk"@ {
        Some(Preset::Number(Double::ratio(135, 100)))
    } else if key == "fvg_target_r_multiple"@ {
        Some(Preset::Number(Double::ratio(18, 10)))
    } else if key == "fvg_max_target_pct"@ {
        Some(Preset::Number(Double::ratio(1, 100)))
    } else if key == "fvg_min_stop_pct"@ {
        Some(Preset::Number(Double::ratio(2, 1_000)))
    } else if key == "fvg_max_stop_pct"@ {
        Some(Preset::Number(Double::ratio(75, 10_000)))
    } else if key == "fvg_stop_buffer_pct"@ {
        Some(Preset::Number(Double::ratio(8, 10_000)))
    } else {
        recommended(key)
    }
}

pub fn custom_start(key: &str) -> (r: Option<Preset>)
    ensures
        r == custom_default(key@),
{
    if text::text_eq(key, "fvg_min_net_reward_risk") {
        Some(Preset::Number(Double::ratio(135, 100)))
    } else if text::text_eq(key, "fvg_target_r_multiple") {
        Some(Preset::Number(Double::ratio(18, 10)))
    } else if text::text_eq(key, "fvg_max_target_pct") {
        Some(Preset::Number(Double::ratio(1, 100)))
    } else if text::text_eq(key, "fvg_min_stop_pct") {
        Some(Preset::Number(Double::ratio(2, 1_000)))
    } else if text::text_eq(key, "fvg_max_stop_pct") {
        Some(Preset::Number(Double::ratio(75, 10_000)))
    } else if text::text_eq(key, "fvg_stop_buffer_pct") {
        Some(Preset::Number(Double::ratio(8, 10_000)))
    } else {
        ai_recommended(key)
    }
}

/// Settings with what the recommended profile manages.
pub open spec fn with_recommended(s: Settings) -> Settings {
    Settings {
        invert_sides: false,
        risk_per_trade_pct: Double::ratio(25, 10_000),
        max_open_positions: 2,
        max_daily_loss_pct: Double::ratio(15, 1_000),
        max_consecutive_losses: 4,
        cooldown_seconds: Double::whole(180),
        loss_cooldown_seconds: Double::whole(900),
        cost_safety_multiplier: Double::ratio(135, 100),
        max_holding_seconds: Double::whole(900),
        trail_arm_r: Double::whole(1),
        trail_giveback_r: Double::ratio(55, 100),
        breakeven_arm_r: Double::ratio(8, 10),
        reversal_confirm_ticks: 3,
        reversal_confirm_seconds: Double::whole(3),
        reversal_min_hold_seconds: Double::whole(30),
        alternative_wall_multiplier: Double::whole(15),
        alternative_signal_expiry_seconds: Double::whole(8),
        alternative_retest_tolerance_pct: Double::ratio(8, 10_000),
        alternative_retest_hold_ticks: 3,
        alternative_min_confluence_score: 85,
        alternative_min_net_reward_risk: Double::ratio(135, 100),
        alternative_target_r_multiple: Double::ratio(18, 10),
        alternative_max_target_pct: Double::ratio(1, 100),
        alternative_min_stop_pct: Double::ratio(2, 1_000),
        alternative_max_stop_pct: Double::ratio(75, 10_000),
        alternative_structure_buffer_pct: Double::ratio(8, 10_000),
        fvg_min_net_reward_risk: Double::ratio(15, 10),
        fvg_target_r_multiple: Double::whole(2),
        fvg_max_target_pct: Double::ratio(12, 1_000),
        fvg_min_stop_pct: Double::ratio(15, 10_000),
        fvg_max_stop_pct: Double::ratio(6, 1_000),
        fvg_stop_buffer_pct: Double::ratio(5, 10_000),
        fvg_m15_min_gap_atr: Double::ratio(1, 10),
        fvg_m15_min_displacement_atr: Double::whole(1),
        fvg_m15_min_body_ratio: Double::ratio(6, 10),
        fvg_m15_max_age_bars: 16,
        fvg_m1_min_gap_atr: Double::ratio(5, 100),
        fvg_m1_min_displacement_atr: Double::ratio(8, 10),
        fvg_m1_min_body_ratio: Double::ratio(6, 10),
        fvg_m1_confirmation_bars: 15,
        fvg_s5_min_gap_pct: Double::ratio(15, 100_000),
        fvg_s5_min_body_ratio: Double::ratio(55, 100),
        fvg_s5_inversion_bars: 24,
        fvg_s5_retest_bars: 12,
        fvg_s5_entry_depth: Double::ratio(5, 10),
        ..s
    }
}

impl Settings {
    /// Applies the recommended profile.
    pub fn apply_ai_recommended(&mut self)
        ensures
            *final(self) == with_recommended(*old(self)),
    {
        self.invert_sides = false;
        self.risk_per_trade_pct = Double::ratio(25, 10_000);
        self.max_open_positions = 2;
        self.max_daily_loss_pct = Double::ratio(15, 1_000);
        self.max_consecutive_losses = 4;
        self.cooldown_seconds = Double::whole(180);
        self.loss_cooldown_seconds = Double::whole(900);
        self.cost_safety_multiplier = Double::ratio(135, 100);
        self.max_holding_seconds = Double::whole(900);
        self.trail_arm_r = Double::whole(1);
        self.trail_giveback_r = Double::ratio(55, 100);
        self.breakeven_arm_r = Double::ratio(8, 10);
        self.reversal_confirm_ticks = 3;
        self.reversal_confirm_seconds = Double::whole(3);
        self.reversal_min_hold_seconds = Double::whole(30);
        self.alternative_wall_multiplier = Double::whole(15);
        self.alternative_signal_expiry_seconds = Double::whole(8);
        self.alternative_retest_tolerance_pct = Double::ratio(8, 10_000);
        self.alternative_retest_hold_ticks = 3;
        self.alternative_min_confluence_score = 85;
        self.alternative_min_net_reward_risk = Double::ratio(135, 100);
        self.alternative_target_r_multiple = Double::ratio(18, 10);
        self.alternative_max_target_pct = Double::ratio(1, 100);
        self.alternative_min_stop_pct = Double::ratio(2, 1_000);
        self.alternative_max_stop_pct = Double::ratio(75, 10_000);
        self.alternative_structure_buffer_pct = Double::ratio(8, 10_000);
        self.fvg_min_net_reward_risk = Double::ratio(15, 10);
        self.fvg_target_r_multiple = Double::whole(2);
        self.fvg_max_target_pct = Double::ratio(12, 1_000);
        self.fvg_min_stop_pct = Double::ratio(15, 10_000);
        self.fvg_max_stop_pct = Double::ratio(6, 1_000);
        self.fvg_stop_buffer_pct = Double::ratio(5, 10_000);
        self.fvg_m15_min_gap_atr = Double::ratio(1, 10);
        self.fvg_m15_min_displacement_atr = Double::whole(1);
        self.fvg_m15_min_body_ratio = Double::ratio(6, 10);
        self.fvg_m15_max_age_bars = 16;
        self.fvg_m1_min_gap_atr = Double::ratio(5, 100);
        self.fvg_m1_min_displacement_atr = Double::ratio(8, 10);
        self.fvg_m1_min_body_ratio = Double::ratio(6, 10);
        self.fvg_m1_confirmation_bars = 15;
        self.fvg_s5_min_gap_pct = Double::ratio(15, 100_000);
        self.fvg_s5_min_body_ratio = Double::ratio(55, 100);
        self.fvg_s5_inversion_bars = 24;
        self.fvg_s5_retest_bars = 12;
        self.fvg_s5_entry_depth = Double::ratio(5, 10);
    }
}

/// The recommended profile has a value for every setting that it manages.
pub proof fn every_managed_setting_is_recommended(key: Seq<char>)
    requires
        setting_names::managed_keys().contains(key),
    ensures
        recommended(key) is Some,
{
}

} // verus!
