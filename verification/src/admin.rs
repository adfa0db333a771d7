//! Checking, showing and saving settings.
use vstd::prelude::*;
use crate::config;
use crate::config::Settings;
use crate::double::Double;
use crate::json;
use crate::json::{Json, JsonNumber};
use crate::number_laws;
use crate::presets;
use crate::presets::Preset;
use crate::reading;
use crate::setting_names;
use crate::sorting;
use crate::table::Table;
use crate::text;
use crate::text::Edge;

verus! {

pub open spec fn spec_positive(x: Double) -> bool {
    x.gt(Double::zero())
}

#[verifier::when_used_as_spec(spec_positive)]
pub fn positive(x: Double) -> (r: bool)
    ensures
        r == spec_positive(x),
{
    x.gt(Double::zero())
}

/// A share between nothing and everything.
pub open spec fn spec_share(x: Double) -> bool {
    x.ge(Double::zero()) && x.le(Double::one())
}

#[verifier::when_used_as_spec(spec_share)]
pub fn share(x: Double) -> (r: bool)
    ensures
        r == spec_share(x),
{
    x.ge(Double::zero()) && x.le(Double::one())
}

/// A mode in which no real order can be sent.
pub open spec fn harmless(mode: Seq<char>) -> bool {
    mode == "paper"@ || mode == "replay"@ || mode == "simulator"@
}

/// What is said of any other mode.
pub open spec fn locked() -> Seq<char> {
    "LIVE TRADING IS LOCKED: only paper/replay/simulator modes are allowed"@
}

/// Why the engine does not start with some settings, if it does not: the first rule that is
/// broken.
pub open spec fn refusal(s: Settings) -> Option<Seq<char>> {
    if !harmless(s.trading_mode@) {
        Some(locked())
    } else if !(s.strategy_mode@ == "alternative"@ || s.strategy_mode@ == "fvg"@) {
        Some("STRATEGY_MODE must be alternative or fvg"@)
    } else if !(s.settings_profile@ == "custom"@ || s.settings_profile@ == "ai_recommended"@) {
        Some("SETTINGS_PROFILE must be custom or ai_recommended"@)
    } else if !(s.alternative_target_r_multiple.gt(s.alternative_min_net_reward_risk) && positive(s.alternative_min_net_reward_risk)) {
        Some("ALTERNATIVE_TARGET_R_MULTIPLE must be greater than ALTERNATIVE_MIN_NET_REWARD_RISK > 0"@)
    } else if !(s.fvg_target_r_multiple.gt(s.fvg_min_net_reward_risk) && positive(s.fvg_min_net_reward_risk)) {
        Some("FVG_TARGET_R_MULTIPLE must be greater than FVG_MIN_NET_REWARD_RISK > 0"@)
    } else if !(positive(s.alternative_max_target_pct) && positive(s.fvg_max_target_pct)) {
        Some("Strategy max target settings must be positive"@)
    } else if !(positive(s.alternative_min_stop_pct) && s.alternative_min_stop_pct.le(s.alternative_max_stop_pct) && positive(s.fvg_min_stop_pct) && s.fvg_min_stop_pct.le(s.fvg_max_stop_pct)) {
        Some("Strategy stop ranges are invalid"@)
    } else if !(s.ws_chunk_size > 0) {
        Some("WS_CHUNK_SIZE must be positive"@)
    } else if !(positive(s.fvg_candle_seconds) && positive(s.fvg_min_gap_pct) && positive(s.fvg_signal_expiry_seconds) && share(s.fvg_entry_depth)) {
        Some("FVG settings are invalid"@)
    } else if !(positive(s.fvg_m15_min_gap_atr) && positive(s.fvg_m15_min_displacement_atr) && share(s.fvg_m15_min_body_ratio) && s.fvg_m15_max_age_bars > 0 && positive(s.fvg_m1_min_gap_atr) && positive(s.fvg_m1_min_displacement_atr) && share(s.fvg_m1_min_body_ratio) && s.fvg_m1_confirmation_bars > 0 && positive(s.fvg_s5_min_gap_pct) && share(s.fvg_s5_min_body_ratio) && s.fvg_s5_inversion_bars > 0 && s.fvg_s5_retest_bars > 0 && share(s.fvg_s5_entry_depth)) {
        Some("MTF FVG settings are invalid"@)
    } else if !(s.reversal_confirm_ticks > 0 && positive(s.reversal_confirm_seconds) && positive(s.reversal_min_hold_seconds)) {
        Some("Reversal confirmation settings must be positive"@)
    } else if !(positive(s.max_holding_seconds)) {
        Some("MAX_HOLDING_SECONDS must be positive"@)
    } else if !(positive(s.account_equity) && positive(s.risk_per_trade_pct)) {
        Some("ACCOUNT_EQUITY and RISK_PER_TRADE_PCT must be positive"@)
    } else {
        None
    }
}

impl Settings {
    /// Whether the engine may start with these settings; if not, why. Live trading is
    /// locked: no mode that could send a real order is ever accepted.
    pub fn assert_safe_mode(&self) -> (r: Result<(), &'static str>)
        ensures
            match r {
                Ok(_) => refusal(*self) is None,
                Err(why) => refusal(*self) == Some(why@),
            },
    {
        if !(text::text_eq(self.trading_mode.as_str(), "paper") || text::text_eq(self.trading_mode.as_str(), "replay") || text::text_eq(self.trading_mode.as_str(), "simulator")) {
            return Err("LIVE TRADING IS LOCKED: only paper/replay/simulator modes are allowed");
        }
        if !(text::text_eq(self.strategy_mode.as_str(), "alternative") || text::text_eq(self.strategy_mode.as_str(), "fvg")) {
            return Err("STRATEGY_MODE must be alternative or fvg");
        }
        if !(text::text_eq(self.settings_profile.as_str(), "custom") || text::text_eq(self.settings_profile.as_str(), "ai_recommended")) {
            return Err("SETTINGS_PROFILE must be custom or ai_recommended");
        }
        if !(self.alternative_target_r_multiple.gt(self.alternative_min_net_reward_risk) && positive(self.alternative_min_net_reward_risk)) {
            return Err("ALTERNATIVE_TARGET_R_MULTIPLE must be greater than ALTERNATIVE_MIN_NET_REWARD_RISK > 0");
        }
        if !(self.fvg_target_r_multiple.gt(self.fvg_min_net_reward_risk) && positive(self.fvg_min_net_reward_risk)) {
            return Err("FVG_TARGET_R_MULTIPLE must be greater than FVG_MIN_NET_REWARD_RISK > 0");
        }
        if !(positive(self.alternative_max_target_pct) && positive(self.fvg_max_target_pct)) {
            return Err("Strategy max target settings must be positive");
        }
        if !(positive(self.alternative_min_stop_pct) && self.alternative_min_stop_pct.le(self.alternative_max_stop_pct) && positive(self.fvg_min_stop_pct) && self.fvg_min_stop_pct.le(self.fvg_max_stop_pct)) {
            return Err("Strategy stop ranges are invalid");
        }
        if !(self.ws_chunk_size > 0) {
            return Err("WS_CHUNK_SIZE must be positive");
        }
        if !(positive(self.fvg_candle_seconds) && positive(self.fvg_min_gap_pct) && positive(self.fvg_signal_expiry_seconds) && share(self.fvg_entry_depth)) {
            return Err("FVG settings are invalid");
        }
        if !(positive(self.fvg_m15_min_gap_atr) && positive(self.fvg_m15_min_displacement_atr) && share(self.fvg_m15_min_body_ratio) && self.fvg_m15_max_age_bars > 0 && positive(self.fvg_m1_min_gap_atr) && positive(self.fvg_m1_min_displacement_atr) && share(self.fvg_m1_min_body_ratio) && self.fvg_m1_confirmation_bars > 0 && positive(self.fvg_s5_min_gap_pct) && share(self.fvg_s5_min_body_ratio) && self.fvg_s5_inversion_bars > 0 && self.fvg_s5_retest_bars > 0 && share(self.fvg_s5_entry_depth)) {
            return Err("MTF FVG settings are invalid");
        }
        if !(self.reversal_confirm_ticks > 0 && positive(self.reversal_confirm_seconds) && positive(self.reversal_min_hold_seconds)) {
            return Err("Reversal confirmation settings must be positive");
        }
        if !(positive(self.max_holding_seconds)) {
            return Err("MAX_HOLDING_SECONDS must be positive");
        }
        if !(positive(self.account_equity) && positive(self.risk_per_trade_pct)) {
            return Err("ACCOUNT_EQUITY and RISK_PER_TRADE_PCT must be positive");
        }
        Ok(())
    }

    /// Whether an administrator's password is set.
    pub fn admin_password_configured(&self, env: &Table<String>) -> (r: bool)
        ensures
            r == has_password(env@),
    {
        match env.get("ADMIN_PASSWORD") {
            Some(value) => text::strip(value.as_str(), Edge::Space).unicode_len() > 0,
            None => false,
        }
    }

    /// Whether a password is the administrator's; an empty one never is.
    pub fn admin_password_matches(&self, env: &Table<String>, password: &str) -> (r: bool)
        ensures
            r == is_password(env@, password@),
    {
        match env.get("ADMIN_PASSWORD") {
            Some(value) => value.as_str().unicode_len() > 0 && text::text_eq(
                value.as_str(),
                password,
            ),
            None => false,
        }
    }
}

/// The administrator's password is set and not blank.
pub open spec fn has_password(env: Map<Seq<char>, String>) -> bool {
    match config::variable(env, "ADMIN_PASSWORD"@) {
        Some(value) => text::stripped(value, Edge::Space).len() > 0,
        None => false,
    }
}

/// A password is the administrator's, which is not empty.
pub open spec fn is_password(env: Map<Seq<char>, String>, password: Seq<char>) -> bool {
    match config::variable(env, "ADMIN_PASSWORD"@) {
        Some(value) => value.len() > 0 && value == password,
        None => false,
    }
}

/// Live trading is locked: the engine starts only in a mode that sends no real orders, and
/// the live mode is refused, whatever else is set.
pub proof fn live_trading_is_locked(s: Settings)
    ensures
        refusal(s) is None ==> harmless(s.trading_mode@),
        s.trading_mode@ == "live"@ ==> refusal(s) == Some(locked()),
{
    lemma_live_is_not_harmless();
}

/// The live mode is none of the harmless ones, and is written in small letters.
pub proof fn lemma_live_is_not_harmless()
    ensures
        !harmless("live"@),
        text::ascii("live"@),
        text::smalls("live"@) == "live"@,
{
    reveal_strlit("paper");
    reveal_strlit("replay");
    reveal_strlit("simulator");
    reveal_strlit("live");
    assert("paper"@.len() == 5 && "replay"@.len() == 6 && "simulator"@.len() == 9 && "live"@.len()
        == 4);
    assert(text::smalls("live"@) =~= "live"@);
}

/// The value of a setting.
#[derive(Debug)]
pub enum SettingValue {
    Flag(bool),
    Count(u64),
    Whole(i64),
    Number(Double),
    Text(String),
    List(Vec<String>),
}

/// The value of a setting by its contents.
#[verifier::ext_equal]
pub enum SettingView {
    Flag(bool),
    Count(u64),
    Whole(i64),
    Number(Double),
    Text(Seq<char>),
    List(Seq<Seq<char>>),
}

impl SettingValue {
    pub open spec fn view(&self) -> SettingView {
        match self {
            SettingValue::Flag(x) => SettingView::Flag(*x),
            SettingValue::Count(x) => SettingView::Count(*x),
            SettingValue::Whole(x) => SettingView::Whole(*x),
            SettingValue::Number(x) => SettingView::Number(*x),
            SettingValue::Text(x) => SettingView::Text(x@),
            SettingValue::List(x) => SettingView::List(sorting::texts(x@)),
        }
    }
}

/// Named values by their contents.
pub open spec fn setting_rows(rows: Seq<(&'static str, SettingValue)>) -> Seq<
    (Seq<char>, SettingView),
> {
    rows.map_values(|row: (&'static str, SettingValue)| (row.0@, row.1@))
}

/// Copies texts.
fn copied(items: &Vec<String>) -> (r: Vec<String>)
    ensures
        sorting::texts(r@) == sorting::texts(items@),
{
    let mut r: Vec<String> = Vec::new();
    let mut i: usize = 0;
    assert(sorting::texts(r@) =~= sorting::texts(items@).take(0));
    while i < items.len()
        invariant
            i <= items@.len(),
            sorting::texts(r@) == sorting::texts(items@).take(i as int),
        decreases items@.len() - i,
    {
        let ghost before = sorting::texts(r@);
        let item = items[i].clone();
        r.push(item);
        proof {
            let all = sorting::texts(items@);
            assert(sorting::texts(r@) =~= before.push(item@));
            assert(all[i as int] == item@);
            assert(all.take(i + 1) =~= all.take(i as int).push(item@));
        }
        i = i + 1;
    }
    assert(sorting::texts(items@).take(i as int) =~= sorting::texts(items@));
    r
}

/// What an administrator sees of the settings.
pub open spec fn shown(s: Settings) -> Seq<(Seq<char>, SettingView)> {
    seq![
        ("force_demo"@, SettingView::Flag(s.force_demo)),
        ("invert_sides"@, SettingView::Flag(s.invert_sides)),
        ("demo_fallback"@, SettingView::Flag(s.demo_fallback)),
        ("trading_mode"@, SettingView::Text(s.trading_mode@)),
        ("strategy_mode"@, SettingView::Text(s.strategy_mode@)),
        ("settings_profile"@, SettingView::Text(s.settings_profile@)),
        ("scan_interval"@, SettingView::Count(s.scan_interval)),
        ("max_symbols"@, SettingView::Count(s.max_symbols as u64)),
        ("min_turnover"@, SettingView::Number(s.min_turnover)),
        ("min_price"@, SettingView::Number(s.min_price)),
        ("max_spread_pct"@, SettingView::Number(s.max_spread_pct)),
        ("ws_chunk_size"@, SettingView::Count(s.ws_chunk_size as u64)),
        ("demo_symbols"@, SettingView::List(sorting::texts(s.demo_symbols@))),
        ("account_equity"@, SettingView::Number(s.account_equity)),
        ("risk_per_trade_pct"@, SettingView::Number(s.risk_per_trade_pct)),
        ("max_position_notional"@, SettingView::Number(s.max_position_notional)),
        ("max_open_positions"@, SettingView::Count(s.max_open_positions as u64)),
        ("max_daily_loss_pct"@, SettingView::Number(s.max_daily_loss_pct)),
        ("max_consecutive_losses"@, SettingView::Count(s.max_consecutive_losses as u64)),
        ("cooldown_seconds"@, SettingView::Number(s.cooldown_seconds)),
        ("loss_cooldown_seconds"@, SettingView::Number(s.loss_cooldown_seconds)),
        ("taker_fee_pct"@, SettingView::Number(s.taker_fee_pct)),
        ("slippage_pct"@, SettingView::Number(s.slippage_pct)),
        ("cost_safety_multiplier"@, SettingView::Number(s.cost_safety_multiplier)),
        ("max_holding_seconds"@, SettingView::Number(s.max_holding_seconds)),
        ("trail_arm_r"@, SettingView::Number(s.trail_arm_r)),
        ("trail_giveback_r"@, SettingView::Number(s.trail_giveback_r)),
        ("breakeven_arm_r"@, SettingView::Number(s.breakeven_arm_r)),
        ("reversal_confirm_ticks"@, SettingView::Count(s.reversal_confirm_ticks as u64)),
        ("reversal_confirm_seconds"@, SettingView::Number(s.reversal_confirm_seconds)),
        ("reversal_min_hold_seconds"@, SettingView::Number(s.reversal_min_hold_seconds)),
        ("alternative_wall_multiplier"@, SettingView::Number(s.alternative_wall_multiplier)),
        ("alternative_signal_expiry_seconds"@, SettingView::Number(s.alternative_signal_expiry_seconds)),
        ("alternative_retest_tolerance_pct"@, SettingView::Number(s.alternative_retest_tolerance_pct)),
        ("alternative_retest_hold_ticks"@, SettingView::Count(s.alternative_retest_hold_ticks as u64)),
        ("alternative_min_confluence_score"@, SettingView::Whole(s.alternative_min_confluence_score)),
        ("alternative_min_net_reward_risk"@, SettingView::Number(s.alternative_min_net_reward_risk)),
        ("alternative_target_r_multiple"@, SettingView::Number(s.alternative_target_r_multiple)),
        ("alternative_max_target_pct"@, SettingView::Number(s.alternative_max_target_pct)),
        ("alternative_min_stop_pct"@, SettingView::Number(s.alternative_min_stop_pct)),
        ("alternative_max_stop_pct"@, SettingView::Number(s.alternative_max_stop_pct)),
        ("alternative_structure_buffer_pct"@, SettingView::Number(s.alternative_structure_buffer_pct)),
        ("fvg_candle_seconds"@, SettingView::Number(s.fvg_candle_seconds)),
        ("fvg_min_gap_pct"@, SettingView::Number(s.fvg_min_gap_pct)),
        ("fvg_signal_expiry_seconds"@, SettingView::Number(s.fvg_signal_expiry_seconds)),
        ("fvg_entry_depth"@, SettingView::Number(s.fvg_entry_depth)),
        ("fvg_min_confluence_score"@, SettingView::Whole(s.fvg_min_confluence_score)),
        ("fvg_min_net_reward_risk"@, SettingView::Number(s.fvg_min_net_reward_risk)),
        ("fvg_target_r_multiple"@, SettingView::Number(s.fvg_target_r_multiple)),
        ("fvg_max_target_pct"@, SettingView::Number(s.fvg_max_target_pct)),
        ("fvg_min_stop_pct"@, SettingView::Number(s.fvg_min_stop_pct)),
        ("fvg_max_stop_pct"@, SettingView::Number(s.fvg_max_stop_pct)),
        ("fvg_stop_buffer_pct"@, SettingView::Number(s.fvg_stop_buffer_pct)),
        ("fvg_m15_min_gap_atr"@, SettingView::Number(s.fvg_m15_min_gap_atr)),
        ("fvg_m15_min_displacement_atr"@, SettingView::Number(s.fvg_m15_min_displacement_atr)),
        ("fvg_m15_min_body_ratio"@, SettingView::Number(s.fvg_m15_min_body_ratio)),
        ("fvg_m15_max_age_bars"@, SettingView::Count(s.fvg_m15_max_age_bars as u64)),
        ("fvg_m1_min_gap_atr"@, SettingView::Number(s.fvg_m1_min_gap_atr)),
        ("fvg_m1_min_displacement_atr"@, SettingView::Number(s.fvg_m1_min_displacement_atr)),
        ("fvg_m1_min_body_ratio"@, SettingView::Number(s.fvg_m1_min_body_ratio)),
        ("fvg_m1_confirmation_bars"@, SettingView::Count(s.fvg_m1_confirmation_bars as u64)),
        ("fvg_s5_min_gap_pct"@, SettingView::Number(s.fvg_s5_min_gap_pct)),
        ("fvg_s5_min_body_ratio"@, SettingView::Number(s.fvg_s5_min_body_ratio)),
        ("fvg_s5_inversion_bars"@, SettingView::Count(s.fvg_s5_inversion_bars as u64)),
        ("fvg_s5_retest_bars"@, SettingView::Count(s.fvg_s5_retest_bars as u64)),
        ("fvg_s5_entry_depth"@, SettingView::Number(s.fvg_s5_entry_depth)),
        ("min_live_trades"@, SettingView::Count(s.min_live_trades as u64)),
        ("min_live_profit_factor"@, SettingView::Number(s.min_live_profit_factor)),
        ("min_live_expectancy"@, SettingView::Number(s.min_live_expectancy)),
        ("max_live_drawdown_pct"@, SettingView::Number(s.max_live_drawdown_pct)),
    ]
}

impl Settings {
    /// What an administrator sees of the settings.
    pub fn public_settings(&self) -> (r: Vec<(&'static str, SettingValue)>)
        ensures
            setting_rows(r@) == shown(*self),
    {
        let r: Vec<(&'static str, SettingValue)> = vec![
            ("force_demo", SettingValue::Flag(self.force_demo)),
            ("invert_sides", SettingValue::Flag(self.invert_sides)),
            ("demo_fallback", SettingValue::Flag(self.demo_fallback)),
            ("trading_mode", SettingValue::Text(self.trading_mode.clone())),
            ("strategy_mode", SettingValue::Text(self.strategy_mode.clone())),
            ("settings_profile", SettingValue::Text(self.settings_profile.clone())),
            ("scan_interval", SettingValue::Count(self.scan_interval)),
            ("max_symbols", SettingValue::Count(self.max_symbols as u64)),
            ("min_turnover", SettingValue::Number(self.min_turnover)),
            ("min_price", SettingValue::Number(self.min_price)),
            ("max_spread_pct", SettingValue::Number(self.max_spread_pct)),
            ("ws_chunk_size", SettingValue::Count(self.ws_chunk_size as u64)),
            ("demo_symbols", SettingValue::List(copied(&self.demo_symbols))),
            ("account_equity", SettingValue::Number(self.account_equity)),
            ("risk_per_trade_pct", SettingValue::Number(self.risk_per_trade_pct)),
            ("max_position_notional", SettingValue::Number(self.max_position_notional)),
            ("max_open_positions", SettingValue::Count(self.max_open_positions as u64)),
            ("max_daily_loss_pct", SettingValue::Number(self.max_daily_loss_pct)),
            ("max_consecutive_losses", SettingValue::Count(self.max_consecutive_losses as u64)),
            ("cooldown_seconds", SettingValue::Number(self.cooldown_seconds)),
            ("loss_cooldown_seconds", SettingValue::Number(self.loss_cooldown_seconds)),
            ("taker_fee_pct", SettingValue::Number(self.taker_fee_pct)),
            ("slippage_pct", SettingValue::Number(self.slippage_pct)),
            ("cost_safety_multiplier", SettingValue::Number(self.cost_safety_multiplier)),
            ("max_holding_seconds", SettingValue::Number(self.max_holding_seconds)),
            ("trail_arm_r", SettingValue::Number(self.trail_arm_r)),
            ("trail_giveback_r", SettingValue::Number(self.trail_giveback_r)),
            ("breakeven_arm_r", SettingValue::Number(self.breakeven_arm_r)),
            ("reversal_confirm_ticks", SettingValue::Count(self.reversal_confirm_ticks as u64)),
            ("reversal_confirm_seconds", SettingValue::Number(self.reversal_confirm_seconds)),
            ("reversal_min_hold_seconds", SettingValue::Number(self.reversal_min_hold_seconds)),
            ("alternative_wall_multiplier", SettingValue::Number(self.alternative_wall_multiplier)),
            ("alternative_signal_expiry_seconds", SettingValue::Number(self.alternative_signal_expiry_seconds)),
            ("alternative_retest_tolerance_pct", SettingValue::Number(self.alternative_retest_tolerance_pct)),
            ("alternative_retest_hold_ticks", SettingValue::Count(self.alternative_retest_hold_ticks as u64)),
            ("alternative_min_confluence_score", SettingValue::Whole(self.alternative_min_confluence_score)),
            ("alternative_min_net_reward_risk", SettingValue::Number(self.alternative_min_net_reward_risk)),
            ("alternative_target_r_multiple", SettingValue::Number(self.alternative_target_r_multiple)),
            ("alternative_max_target_pct", SettingValue::Number(self.alternative_max_target_pct)),
            ("alternative_min_stop_pct", SettingValue::Number(self.alternative_min_stop_pct)),
            ("alternative_max_stop_pct", SettingValue::Number(self.alternative_max_stop_pct)),
            ("alternative_structure_buffer_pct", SettingValue::Number(self.alternative_structure_buffer_pct)),
            ("fvg_candle_seconds", SettingValue::Number(self.fvg_candle_seconds)),
            ("fvg_min_gap_pct", SettingValue::Number(self.fvg_min_gap_pct)),
            ("fvg_signal_expiry_seconds", SettingValue::Number(self.fvg_signal_expiry_seconds)),
            ("fvg_entry_depth", SettingValue::Number(self.fvg_entry_depth)),
            ("fvg_min_confluence_score", SettingValue::Whole(self.fvg_min_confluence_score)),
            ("fvg_min_net_reward_risk", SettingValue::Number(self.fvg_min_net_reward_risk)),
            ("fvg_target_r_multiple", SettingValue::Number(self.fvg_target_r_multiple)),
            ("fvg_max_target_pct", SettingValue::Number(self.fvg_max_target_pct)),
            ("fvg_min_stop_pct", SettingValue::Number(self.fvg_min_stop_pct)),
            ("fvg_max_stop_pct", SettingValue::Number(self.fvg_max_stop_pct)),
            ("fvg_stop_buffer_pct", SettingValue::Number(self.fvg_stop_buffer_pct)),
            ("fvg_m15_min_gap_atr", SettingValue::Number(self.fvg_m15_min_gap_atr)),
            ("fvg_m15_min_displacement_atr", SettingValue::Number(self.fvg_m15_min_displacement_atr)),
            ("fvg_m15_min_body_ratio", SettingValue::Number(self.fvg_m15_min_body_ratio)),
            ("fvg_m15_max_age_bars", SettingValue::Count(self.fvg_m15_max_age_bars as u64)),
            ("fvg_m1_min_gap_atr", SettingValue::Number(self.fvg_m1_min_gap_atr)),
            ("fvg_m1_min_displacement_atr", SettingValue::Number(self.fvg_m1_min_displacement_atr)),
            ("fvg_m1_min_body_ratio", SettingValue::Number(self.fvg_m1_min_body_ratio)),
            ("fvg_m1_confirmation_bars", SettingValue::Count(self.fvg_m1_confirmation_bars as u64)),
            ("fvg_s5_min_gap_pct", SettingValue::Number(self.fvg_s5_min_gap_pct)),
            ("fvg_s5_min_body_ratio", SettingValue::Number(self.fvg_s5_min_body_ratio)),
            ("fvg_s5_inversion_bars", SettingValue::Count(self.fvg_s5_inversion_bars as u64)),
            ("fvg_s5_retest_bars", SettingValue::Count(self.fvg_s5_retest_bars as u64)),
            ("fvg_s5_entry_depth", SettingValue::Number(self.fvg_s5_entry_depth)),
            ("min_live_trades", SettingValue::Count(self.min_live_trades as u64)),
            ("min_live_profit_factor", SettingValue::Number(self.min_live_profit_factor)),
            ("min_live_expectancy", SettingValue::Number(self.min_live_expectancy)),
            ("max_live_drawdown_pct", SettingValue::Number(self.max_live_drawdown_pct)),
        ];
        assert(setting_rows(r@) =~= shown(*self));
        r
    }
}

/// What the custom profile has for a managed setting: its start, overridden by the
/// environment where that is usable.
pub open spec fn custom_value(env: Map<Seq<char>, String>, key: Seq<char>) -> Option<Preset> {
    match presets::custom_default(key) {
        None => None,
        Some(start) => match config::variable(env, text::capitals(key)) {
            None => Some(start),
            Some(raw) => match start {
                Preset::Flag(_) => Some(Preset::Flag(config::affirms(text::lowercased(raw)))),
                _ => match reading::double_of(raw) {
                    Some(x) => if x.finite() {
                        Some(Preset::Number(x))
                    } else {
                        Some(start)
                    },
                    None => Some(start),
                },
            },
        },
    }
}

fn custom_setting(env: &Table<String>, key: &str) -> (r: Option<Preset>)
    ensures
        r == custom_value(env@, key@),
{
    let start = match presets::custom_start(key) {
        Some(start) => start,
        None => {
            return None;
        },
    };
    let name = text::capitalize(key);
    let raw = match env.get(name.as_str()) {
        Some(raw) => raw,
        None => {
            return Some(start);
        },
    };
    match start {
        Preset::Flag(_) => {
            let lower = text::to_lowercase(raw.as_str());
            Some(Preset::Flag(config::is_affirmative(lower.as_str())))
        },
        _ => match reading::parse_double(raw.as_str()) {
            Some(x) => if x.is_finite() {
                Some(Preset::Number(x))
            } else {
                Some(start)
            },
            None => Some(start),
        },
    }
}

/// What the custom profile has for each managed setting.
pub fn saved_custom_settings(env: &Table<String>) -> (r: Vec<(&'static str, Option<Preset>)>)
    ensures
        r@.len() == setting_names::managed_keys().len(),
        forall|i: int|
            0 <= i < r@.len() ==> (#[trigger] r@[i]).0@ == setting_names::managed_keys()[i]
                && r@[i].1 == custom_value(env@, setting_names::managed_keys()[i]),
{
    let keys = setting_names::ai_managed_keys();
    let ghost all = setting_names::managed_keys();
    let mut r: Vec<(&'static str, Option<Preset>)> = Vec::new();
    let mut i: usize = 0;
    while i < keys.len()
        invariant
            i <= keys@.len(),
            r@.len() == i,
            all == setting_names::names(keys@),
            forall|j: int|
                0 <= j < i ==> (#[trigger] r@[j]).0@ == all[j] && r@[j].1 == custom_value(
                    env@,
                    all[j],
                ),
        decreases keys@.len() - i,
    {
        let key = keys[i];
        assert(all[i as int] == key@);
        r.push((key, custom_setting(env, key)));
        i = i + 1;
    }
    r
}

/// What the recommended profile has for each managed setting.
pub fn ai_recommended_settings() -> (r: Vec<(&'static str, Option<Preset>)>)
    ensures
        r@.len() == setting_names::managed_keys().len(),
        forall|i: int|
            0 <= i < r@.len() ==> (#[trigger] r@[i]).0@ == setting_names::managed_keys()[i]
                && r@[i].1 == presets::recommended(setting_names::managed_keys()[i]),
{
    let keys = setting_names::ai_managed_keys();
    let ghost all = setting_names::managed_keys();
    let mut r: Vec<(&'static str, Option<Preset>)> = Vec::new();
    let mut i: usize = 0;
    while i < keys.len()
        invariant
            i <= keys@.len(),
            r@.len() == i,
            all == setting_names::names(keys@),
            forall|j: int|
                0 <= j < i ==> (#[trigger] r@[j]).0@ == all[j] && r@[j].1 == presets::recommended(
                    all[j],
                ),
        decreases keys@.len() - i,
    {
        let key = keys[i];
        assert(all[i as int] == key@);
        r.push((key, presets::ai_recommended(key)));
        i = i + 1;
    }
    r
}

/// What a setting has to be.
#[derive(Clone, Copy, Debug, PartialEq, Eq, Structural)]
pub enum Rule {
    Flag,
    Symbols,
    TradingMode,
    StrategyMode,
    Profile,
    PositiveCount,
    Number,
}

pub open spec fn rule_of(key: Seq<char>) -> Rule {
    if key == "force_demo"@ || key == "invert_sides"@ || key == "demo_fallback"@ {
        Rule::Flag
    } else if key == "demo_symbols"@ {
        Rule::Symbols
    } else if key == "trading_mode"@ {
        Rule::TradingMode
    } else if key == "strategy_mode"@ {
        Rule::StrategyMode
    } else if key == "settings_profile"@ {
        Rule::Profile
    } else if key == "ws_chunk_size"@ || key == "fvg_m15_max_age_bars"@ || key
        == "fvg_m1_confirmation_bars"@ || key == "fvg_s5_inversion_bars"@ || key
        == "fvg_s5_retest_bars"@ {
        Rule::PositiveCount
    } else {
        Rule::Number
    }
}

fn find_rule(key: &str) -> (r: Rule)
    ensures
        r == rule_of(key@),
{
    if text::text_eq(key, "force_demo") || text::text_eq(key, "invert_sides") || text::text_eq(
        key,
        "demo_fallback",
    ) {
        Rule::Flag
    } else if text::text_eq(key, "demo_symbols") {
        Rule::Symbols
    } else if text::text_eq(key, "trading_mode") {
        Rule::TradingMode
    } else if text::text_eq(key, "strategy_mode") {
        Rule::StrategyMode
    } else if text::text_eq(key, "settings_profile") {
        Rule::Profile
    } else if text::text_eq(key, "ws_chunk_size") || text::text_eq(key, "fvg_m15_max_age_bars")
        || text::text_eq(key, "fvg_m1_confirmation_bars") || text::text_eq(
        key,
        "fvg_s5_inversion_bars",
    ) || text::text_eq(key, "fvg_s5_retest_bars") {
        Rule::PositiveCount
    } else {
        Rule::Number
    }
}

/// A list of texts.
pub open spec fn is_text_list(value: Json) -> bool {
    json::items_in(value) is Some && forall|i: int|
        0 <= i < (json::items_in(value)->0).len() ==> json::text_in(
            #[trigger] (json::items_in(value)->0)[i],
        ) is Some
}

fn holds_texts(value: &Json) -> (r: bool)
    ensures
        r == is_text_list(*value),
{
    let items = match value.as_list() {
        Some(items) => items,
        None => {
            return false;
        },
    };
    let mut i: usize = 0;
    while i < items.len()
        invariant
            i <= items@.len(),
            json::items_in(*value) == Some(items@),
            forall|j: int| 0 <= j < i ==> json::text_in(#[trigger] items@[j]) is Some,
        decreases items@.len() - i,
    {
        if items[i].as_text().is_none() {
            assert(json::text_in((json::items_in(*value)->0)[i as int]) is None);
            return false;
        }
        i = i + 1;
    }
    true
}

/// A value that a rule accepts.
pub open spec fn fits(rule: Rule, value: Json) -> bool {
    match rule {
        Rule::Flag => value is Bool,
        Rule::Symbols => is_text_list(value),
        Rule::TradingMode => json::text_in(value) == Some("paper"@) || json::text_in(value) == Some(
            "replay"@,
        ) || json::text_in(value) == Some("simulator"@),
        Rule::StrategyMode => json::text_in(value) == Some("alternative"@) || json::text_in(value)
            == Some("fvg"@),
        Rule::Profile => json::text_in(value) == Some("custom"@) || json::text_in(value) == Some(
            "ai_recommended"@,
        ),
        Rule::PositiveCount => json::unsigned_in(value) is Some && json::unsigned_in(value)->0 > 0,
        Rule::Number => json::double_in(value) is Some && (json::double_in(value)->0).finite(),
    }
}

fn is_fit(rule: Rule, value: &Json) -> (r: bool)
    ensures
        r == fits(rule, *value),
{
    match rule {
        Rule::Flag => match value {
            Json::Bool(_) => true,
            _ => false,
        },
        Rule::Symbols => holds_texts(value),
        Rule::TradingMode => value.is_text("paper") || value.is_text("replay") || value.is_text(
            "simulator",
        ),
        Rule::StrategyMode => value.is_text("alternative") || value.is_text("fvg"),
        Rule::Profile => value.is_text("custom") || value.is_text("ai_recommended"),
        Rule::PositiveCount => match value.as_unsigned() {
            Some(n) => n > 0,
            None => false,
        },
        Rule::Number => match value.as_double() {
            Some(x) => x.is_finite(),
            None => false,
        },
    }
}

/// What is said of a value that its rule does not accept.
pub open spec fn complaint(key: Seq<char>) -> Seq<char> {
    match rule_of(key) {
        Rule::Flag => key + " must be boolean"@,
        Rule::Symbols => "demo_symbols must be a string list"@,
        Rule::TradingMode => "trading_mode must remain paper, replay, or simulator"@,
        Rule::StrategyMode => "strategy_mode must be alternative or fvg"@,
        Rule::Profile => "settings_profile must be custom or ai_recommended"@,
        Rule::PositiveCount => key + " must be a positive integer"@,
        Rule::Number => key + " must be a finite number"@,
    }
}

fn complain(key: &str) -> (r: String)
    ensures
        r@ == complaint(key@),
{
    match find_rule(key) {
        Rule::Flag => with_ending(key, " must be boolean"),
        Rule::Symbols => "demo_symbols must be a string list".to_owned(),
        Rule::TradingMode => "trading_mode must remain paper, replay, or simulator".to_owned(),
        Rule::StrategyMode => "strategy_mode must be alternative or fvg".to_owned(),
        Rule::Profile => "settings_profile must be custom or ai_recommended".to_owned(),
        Rule::PositiveCount => with_ending(key, " must be a positive integer"),
        Rule::Number => with_ending(key, " must be a finite number"),
    }
}

fn with_ending(start: &str, end: &str) -> (r: String)
    ensures
        r@ == start@ + end@,
{
    let mut r = start.to_owned();
    r.append(end);
    r
}

/// The complaint about the first setting of a list whose value does not fit.
pub open spec fn first_misfit(keys: Seq<Seq<char>>, values: Map<Seq<char>, Json>) -> Option<
    Seq<char>,
>
    decreases keys.len(),
{
    if keys.len() == 0 {
        None
    } else {
        let key = keys[0];
        if values.dom().contains(key) && !fits(rule_of(key), values[key]) {
            Some(complaint(key))
        } else {
            first_misfit(keys.drop_first(), values)
        }
    }
}

/// The values that are looked at: with the recommended profile, not those of the settings
/// that it manages.
pub open spec fn considered(values: Map<Seq<char>, Json>, preset: bool) -> Map<Seq<char>, Json> {
    if preset {
        Map::new(
            |key: Seq<char>|
                values.dom().contains(key) && !setting_names::managed_keys().contains(key),
            |key: Seq<char>| values[key],
        )
    } else {
        values
    }
}

/// A value that is looked at.
pub fn look_up<'a>(values: &'a Table<Json>, preset: bool, key: &str) -> (r: Option<&'a Json>)
    ensures
        match r {
            Some(v) => considered(values@, preset).dom().contains(key@) && *v == considered(
                values@,
                preset,
            )[key@],
            None => !considered(values@, preset).dom().contains(key@),
        },
{
    if preset && setting_names::is_ai_managed(key) {
        None
    } else {
        values.get(key)
    }
}

/// The number that a setting is to have, if it is among the values and a number.
pub open spec fn number_at(values: Map<Seq<char>, Json>, key: Seq<char>) -> Option<Double> {
    if values.dom().contains(key) {
        json::double_in(values[key])
    } else {
        None
    }
}

fn find_number(values: &Table<Json>, preset: bool, key: &str) -> (r: Option<Double>)
    ensures
        r == number_at(considered(values@, preset), key@),
{
    match look_up(values, preset, key) {
        Some(value) => value.as_double(),
        None => None,
    }
}

/// A target that is not above its least reward, or a least reward that is not positive.
pub open spec fn target_fault(
    values: Map<Seq<char>, Json>,
    target: Seq<char>,
    least: Seq<char>,
) -> Option<Seq<char>> {
    match (number_at(values, target), number_at(values, least)) {
        (Some(t), Some(m)) => if t.le(m) || m.le(Double::zero()) {
            Some(target + " must be greater than "@ + least + " > 0"@)
        } else {
            None
        },
        _ => None,
    }
}

fn find_target_fault(values: &Table<Json>, preset: bool, target: &str, least: &str) -> (r: Option<String>)
    ensures
        text_view(r) == target_fault(considered(values@, preset), target@, least@),
{
    match (find_number(values, preset, target), find_number(values, preset, least)) {
        (Some(t), Some(m)) => if t.le(m) || m.le(Double::zero()) {
            let mut r = target.to_owned();
            r.append(" must be greater than ");
            r.append(least);
            r.append(" > 0");
            Some(r)
        } else {
            None
        },
        _ => None,
    }
}

/// A share that is none.
pub open spec fn share_fault(values: Map<Seq<char>, Json>, key: Seq<char>) -> Option<Seq<char>> {
    match number_at(values, key) {
        Some(x) => if !share(x) {
            Some(key + " must be between 0 and 1"@)
        } else {
            None
        },
        None => None,
    }
}

fn find_share_fault(values: &Table<Json>, preset: bool, key: &str) -> (r: Option<String>)
    ensures
        text_view(r) == share_fault(considered(values@, preset), key@),
{
    match find_number(values, preset, key) {
        Some(x) => if !share(x) {
            Some(with_ending(key, " must be between 0 and 1"))
        } else {
            None
        },
        None => None,
    }
}

/// A size that is not positive.
pub open spec fn size_fault(values: Map<Seq<char>, Json>, key: Seq<char>) -> Option<Seq<char>> {
    match number_at(values, key) {
        Some(x) => if x.le(Double::zero()) {
            Some(key + " must be positive"@)
        } else {
            None
        },
        None => None,
    }
}

fn find_size_fault(values: &Table<Json>, preset: bool, key: &str) -> (r: Option<String>)
    ensures
        text_view(r) == size_fault(considered(values@, preset), key@),
{
    match find_number(values, preset, key) {
        Some(x) => if x.le(Double::zero()) {
            Some(with_ending(key, " must be positive"))
        } else {
            None
        },
        None => None,
    }
}

/// A range that is empty or does not start above zero.
pub open spec fn range_fault(
    values: Map<Seq<char>, Json>,
    least: Seq<char>,
    most: Seq<char>,
) -> Option<Seq<char>> {
    match (number_at(values, least), number_at(values, most)) {
        (Some(a), Some(b)) => if a.le(Double::zero()) || a.gt(b) {
            Some(least + " must be positive and no greater than "@ + most)
        } else {
            None
        },
        _ => None,
    }
}

fn find_range_fault(values: &Table<Json>, preset: bool, least: &str, most: &str) -> (r: Option<String>)
    ensures
        text_view(r) == range_fault(considered(values@, preset), least@, most@),
{
    match (find_number(values, preset, least), find_number(values, preset, most)) {
        (Some(a), Some(b)) => if a.le(Double::zero()) || a.gt(b) {
            let mut r = least.to_owned();
            r.append(" must be positive and no greater than ");
            r.append(most);
            Some(r)
        } else {
            None
        },
        _ => None,
    }
}

/// An optional text by its characters.
pub open spec fn text_view(s: Option<String>) -> Option<Seq<char>> {
    match s {
        Some(s) => Some(s@),
        None => None,
    }
}

/// The first of two faults.
pub open spec fn either(a: Option<Seq<char>>, b: Option<Seq<char>>) -> Option<Seq<char>> {
    match a {
        Some(_) => a,
        None => b,
    }
}

/// What is wrong with new values for settings, if anything: first each value for itself, in
/// the order of the settings, then what has to hold between them.
pub open spec fn fault(values: Map<Seq<char>, Json>) -> Option<Seq<char>> {
    either(
        first_misfit(setting_names::admin_keys(), values),
        either(
            target_fault(
                values,
                "alternative_target_r_multiple"@,
                "alternative_min_net_reward_risk"@,
            ),
            either(
                target_fault(values, "fvg_target_r_multiple"@, "fvg_min_net_reward_risk"@),
                either(
                    share_fault(values, "fvg_entry_depth"@),
                    either(shares_fault(values), either(sizes_fault(values), ranges_fault(values))),
                ),
            ),
        ),
    )
}

pub open spec fn shares_fault(values: Map<Seq<char>, Json>) -> Option<Seq<char>> {
    either(
        share_fault(values, "fvg_m15_min_body_ratio"@),
        either(
            share_fault(values, "fvg_m1_min_body_ratio"@),
            either(
                share_fault(values, "fvg_s5_min_body_ratio"@),
                share_fault(values, "fvg_s5_entry_depth"@),
            ),
        ),
    )
}

pub open spec fn sizes_fault(values: Map<Seq<char>, Json>) -> Option<Seq<char>> {
    either(
        size_fault(values, "fvg_m15_min_gap_atr"@),
        either(
            size_fault(values, "fvg_m15_min_displacement_atr"@),
            either(
                size_fault(values, "fvg_m1_min_gap_atr"@),
                either(
                    size_fault(values, "fvg_m1_min_displacement_atr"@),
                    size_fault(values, "fvg_s5_min_gap_pct"@),
                ),
            ),
        ),
    )
}

pub open spec fn ranges_fault(values: Map<Seq<char>, Json>) -> Option<Seq<char>> {
    either(
        range_fault(values, "alternative_min_stop_pct"@, "alternative_max_stop_pct"@),
        range_fault(values, "fvg_min_stop_pct"@, "fvg_max_stop_pct"@),
    )
}

fn find_misfit(values: &Table<Json>, preset: bool) -> (r: Option<String>)
    ensures
        text_view(r) == first_misfit(setting_names::admin_keys(), considered(values@, preset)),
{
    let keys = setting_names::admin_setting_keys();
    let ghost all = setting_names::admin_keys();
    let mut i: usize = 0;
    assert(all.skip(0) =~= all);
    while i < keys.len()
        invariant
            i <= keys@.len(),
            all == setting_names::names(keys@),
            all == setting_names::admin_keys(),
            first_misfit(all, considered(values@, preset)) == first_misfit(all.skip(i as int), considered(values@, preset)),
        decreases keys@.len() - i,
    {
        let key = keys[i];
        assert(all.skip(i as int)[0] == key@);
        assert(all.skip(i as int).drop_first() =~= all.skip(i + 1));
        match look_up(values, preset, key) {
            Some(value) => {
                if !is_fit(find_rule(key), value) {
                    return Some(complain(key));
                }
            },
            None => {},
        }
        i = i + 1;
    }
    None
}

fn find_either(a: Option<String>, b: Option<String>) -> (r: Option<String>)
    ensures
        text_view(r) == either(text_view(a), text_view(b)),
{
    match a {
        Some(s) => Some(s),
        None => b,
    }
}

/// What is wrong with new values for settings, if anything.
pub fn find_fault(values: &Table<Json>, preset: bool) -> (r: Option<String>)
    ensures
        text_view(r) == fault(considered(values@, preset)),
{
    find_either(
        find_misfit(values, preset),
        find_either(
            find_target_fault(
                values, preset,
                "alternative_target_r_multiple",
                "alternative_min_net_reward_risk",
            ),
            find_either(
                find_target_fault(values, preset, "fvg_target_r_multiple", "fvg_min_net_reward_risk"),
                find_either(
                    find_share_fault(values, preset, "fvg_entry_depth"),
                    find_either(
                        find_shares_fault(values, preset),
                        find_either(find_sizes_fault(values, preset), find_ranges_fault(values, preset)),
                    ),
                ),
            ),
        ),
    )
}

/// Checks new values for settings.
pub fn validate_admin_settings(values: &Table<Json>) -> (r: Result<(), String>)
    ensures
        match r {
            Ok(_) => fault(values@) is None,
            Err(why) => fault(values@) == Some(why@),
        },
{
    match find_fault(values, false) {
        Some(why) => Err(why),
        None => Ok(()),
    }
}

fn find_shares_fault(values: &Table<Json>, preset: bool) -> (r: Option<String>)
    ensures
        text_view(r) == shares_fault(considered(values@, preset)),
{
    find_either(
        find_share_fault(values, preset, "fvg_m15_min_body_ratio"),
        find_either(
            find_share_fault(values, preset, "fvg_m1_min_body_ratio"),
            find_either(
                find_share_fault(values, preset, "fvg_s5_min_body_ratio"),
                find_share_fault(values, preset, "fvg_s5_entry_depth"),
            ),
        ),
    )
}

fn find_sizes_fault(values: &Table<Json>, preset: bool) -> (r: Option<String>)
    ensures
        text_view(r) == sizes_fault(considered(values@, preset)),
{
    find_either(
        find_size_fault(values, preset, "fvg_m15_min_gap_atr"),
        find_either(
            find_size_fault(values, preset, "fvg_m15_min_displacement_atr"),
            find_either(
                find_size_fault(values, preset, "fvg_m1_min_gap_atr"),
                find_either(
                    find_size_fault(values, preset, "fvg_m1_min_displacement_atr"),
                    find_size_fault(values, preset, "fvg_s5_min_gap_pct"),
                ),
            ),
        ),
    )
}

fn find_ranges_fault(values: &Table<Json>, preset: bool) -> (r: Option<String>)
    ensures
        text_view(r) == ranges_fault(considered(values@, preset)),
{
    find_either(
        find_range_fault(values, preset, "alternative_min_stop_pct", "alternative_max_stop_pct"),
        find_range_fault(values, preset, "fvg_min_stop_pct", "fvg_max_stop_pct"),
    )
}

/// What passes the checks keeps the risk geometry of both strategies: a target is above its
/// least net reward, which is above zero; a stop range starts above zero and is not empty.
pub proof fn accepted_settings_keep_the_risk_geometry(values: Map<Seq<char>, Json>)
    requires
        fault(values) is None,
    ensures
        target_is_sound(
            values,
            "alternative_target_r_multiple"@,
            "alternative_min_net_reward_risk"@,
        ),
        target_is_sound(values, "fvg_target_r_multiple"@, "fvg_min_net_reward_risk"@),
        range_is_sound(values, "alternative_min_stop_pct"@, "alternative_max_stop_pct"@),
        range_is_sound(values, "fvg_min_stop_pct"@, "fvg_max_stop_pct"@),
{
    lemma_number(values, 38);
    lemma_number(values, 37);
    lemma_number(values, 49);
    lemma_number(values, 48);
    lemma_number(values, 40);
    lemma_number(values, 41);
    lemma_number(values, 51);
    lemma_number(values, 52);
}

proof fn lemma_number(values: Map<Seq<char>, Json>, i: int)
    requires
        0 <= i < setting_names::admin_keys().len(),
        fault(values) is None,
    ensures
        number_at(values, setting_names::admin_keys()[i]) is Some ==> !(number_at(
            values,
            setting_names::admin_keys()[i],
        )->0).nan(),
{
    let keys = setting_names::admin_keys();
    if values.dom().contains(keys[i]) {
        lemma_fit(keys, values, i);
        match values[keys[i]] {
            Json::Number(JsonNumber::Unsigned(n)) => {
                number_laws::whole_numbers_are_numbers(n);
            },
            Json::Number(JsonNumber::Negative(n)) => {
                number_laws::whole_numbers_are_numbers((-(n as int)) as u64);
            },
            _ => {},
        }
    }
}

/// A target above its least net reward, which is above zero, wherever both are given.
pub open spec fn target_is_sound(
    values: Map<Seq<char>, Json>,
    target: Seq<char>,
    least: Seq<char>,
) -> bool {
    match (number_at(values, target), number_at(values, least)) {
        (Some(t), Some(m)) => t.gt(m) && m.gt(Double::zero()),
        _ => true,
    }
}

/// A range that starts above zero and is not empty, wherever both ends are given.
pub open spec fn range_is_sound(
    values: Map<Seq<char>, Json>,
    least: Seq<char>,
    most: Seq<char>,
) -> bool {
    match (number_at(values, least), number_at(values, most)) {
        (Some(a), Some(b)) => a.gt(Double::zero()) && a.le(b),
        _ => true,
    }
}

/// A setting that is checked fits its rule.
pub proof fn lemma_fit(keys: Seq<Seq<char>>, values: Map<Seq<char>, Json>, i: int)
    requires
        first_misfit(keys, values) is None,
        0 <= i < keys.len(),
        values.dom().contains(keys[i]),
    ensures
        fits(rule_of(keys[i]), values[keys[i]]),
    decreases i,
{
    if i > 0 {
        assert(keys.drop_first()[i - 1] == keys[i]);
        lemma_fit(keys.drop_first(), values, i - 1);
    }
}

} // verus!
