//! Engine settings from the environment.
use vstd::prelude::*;
use crate::admin;
use crate::double::Double;
use crate::parsing;
use crate::presets;
use crate::reading;
use crate::sorting;
use crate::table::Table;
use crate::text;
use crate::text::Edge;

verus! {

#[derive(Debug)]
pub struct Settings {
    pub rest_url: String,
    pub ws_url: String,
    pub host: String,
    pub port: u16,
    pub force_demo: bool,
    pub invert_sides: bool,
    pub demo_fallback: bool,
    pub trading_mode: String,
    pub strategy_mode: String,
    pub settings_profile: String,
    pub scan_interval: u64,
    pub max_symbols: usize,
    pub min_turnover: Double,
    pub min_price: Double,
    pub max_spread_pct: Double,
    pub ws_chunk_size: usize,
    // Cost-aware execution.
    pub taker_fee_pct: Double,
    pub slippage_pct: Double,
    pub cost_safety_multiplier: Double,

    pub max_holding_seconds: Double,
    pub trail_arm_r: Double,
    pub trail_giveback_r: Double,
    pub breakeven_arm_r: Double,
    pub reversal_confirm_ticks: u32,
    pub reversal_confirm_seconds: Double,
    pub reversal_min_hold_seconds: Double,

    // Portfolio circuit breakers.
    pub account_equity: Double,
    pub risk_per_trade_pct: Double,
    pub max_position_notional: Double,
    pub max_open_positions: usize,
    pub max_daily_loss_pct: Double,
    pub max_consecutive_losses: usize,
    pub cooldown_seconds: Double,
    pub loss_cooldown_seconds: Double,

    // Alternative: absorbed wall -> breakout -> held retest.
    pub alternative_wall_multiplier: Double,
    pub alternative_signal_expiry_seconds: Double,
    pub alternative_retest_tolerance_pct: Double,
    pub alternative_retest_hold_ticks: u32,
    pub alternative_min_confluence_score: i64,
    pub alternative_min_net_reward_risk: Double,
    pub alternative_target_r_multiple: Double,
    pub alternative_max_target_pct: Double,
    pub alternative_min_stop_pct: Double,
    pub alternative_max_stop_pct: Double,
    pub alternative_structure_buffer_pct: Double,

    // Single-timeframe FVG settings, kept for persisted configuration.
    pub fvg_candle_seconds: Double,
    pub fvg_min_gap_pct: Double,
    pub fvg_signal_expiry_seconds: Double,
    pub fvg_entry_depth: Double,
    pub fvg_min_confluence_score: i64,
    pub fvg_min_net_reward_risk: Double,
    pub fvg_target_r_multiple: Double,
    pub fvg_max_target_pct: Double,
    pub fvg_min_stop_pct: Double,
    pub fvg_max_stop_pct: Double,
    pub fvg_stop_buffer_pct: Double,

    // M15 context -> M1 confirmation -> S5 inverse-FVG retest.
    pub fvg_m15_min_gap_atr: Double,
    pub fvg_m15_min_displacement_atr: Double,
    pub fvg_m15_min_body_ratio: Double,
    pub fvg_m15_max_age_bars: u32,
    pub fvg_m1_min_gap_atr: Double,
    pub fvg_m1_min_displacement_atr: Double,
    pub fvg_m1_min_body_ratio: Double,
    pub fvg_m1_confirmation_bars: u32,
    pub fvg_s5_min_gap_pct: Double,
    pub fvg_s5_min_body_ratio: Double,
    pub fvg_s5_inversion_bars: u32,
    pub fvg_s5_retest_bars: u32,
    pub fvg_s5_entry_depth: Double,

    // Readiness gate.
    pub min_live_trades: usize,
    pub min_live_profit_factor: Double,
    pub min_live_expectancy: Double,
    pub max_live_drawdown_pct: Double,
    pub demo_symbols: Vec<String>,
}

/// The value of an environment variable.
pub open spec fn variable(env: Map<Seq<char>, String>, name: Seq<char>) -> Option<Seq<char>> {
    if env.dom().contains(name) {
        Some(env[name]@)
    } else {
        None
    }
}

/// A variable, or a default where it is not set.
pub open spec fn text_or(env: Map<Seq<char>, String>, name: Seq<char>, missing: Seq<char>) -> Seq<
    char,
> {
    match variable(env, name) {
        Some(value) => value,
        None => missing,
    }
}

/// A variable that is a number, or a default.
pub open spec fn number_or(env: Map<Seq<char>, String>, name: Seq<char>, missing: Double) -> Double {
    match variable(env, name) {
        Some(value) => match reading::double_of(value) {
            Some(x) => x,
            None => missing,
        },
        None => missing,
    }
}

/// A variable that is an unsigned whole number, or a default.
pub open spec fn count_or(env: Map<Seq<char>, String>, name: Seq<char>, missing: u64) -> u64 {
    match variable(env, name) {
        Some(value) => match parsing::unsigned_of(value) {
            Some(n) => n,
            None => missing,
        },
        None => missing,
    }
}

/// A text in small letters that says yes.
pub open spec fn affirms(lower: Seq<char>) -> bool {
    lower == "1"@ || lower == "true"@ || lower == "yes"@ || lower == "on"@
}

/// A variable that says yes in any case of letters, or a default where it is not set.
pub open spec fn flag_or(env: Map<Seq<char>, String>, name: Seq<char>, missing: bool) -> bool {
    match variable(env, name) {
        Some(value) => affirms(text::lowercased(value)),
        None => missing,
    }
}

/// The parts of a list that are not blank, without space around them and in capitals.
pub open spec fn listed(parts: Seq<Seq<char>>) -> Seq<Seq<char>>
    decreases parts.len(),
{
    if parts.len() == 0 {
        Seq::empty()
    } else {
        let before = listed(parts.drop_last());
        let part = text::stripped(parts.last(), Edge::Space);
        if part.len() == 0 {
            before
        } else {
            before.push(text::uppercased(part))
        }
    }
}

/// A variable that is a list with at least one entry, or a default.
pub open spec fn list_or(
    env: Map<Seq<char>, String>,
    name: Seq<char>,
    missing: Seq<Seq<char>>,
) -> Seq<Seq<char>> {
    match variable(env, name) {
        Some(value) => {
            let entries = listed(text::pieces(value, ','));
            if entries.len() == 0 {
                missing
            } else {
                entries
            }
        },
        None => missing,
    }
}

fn env_text(env: &Table<String>, name: &str, missing: &str) -> (r: String)
    ensures
        r@ == text_or(env@, name@, missing@),
{
    match env.get(name) {
        Some(value) => value.clone(),
        None => missing.to_owned(),
    }
}

fn env_number(env: &Table<String>, name: &str, missing: Double) -> (r: Double)
    ensures
        r == number_or(env@, name@, missing),
{
    match env.get(name) {
        Some(value) => match reading::parse_double(value.as_str()) {
            Some(x) => x,
            None => missing,
        },
        None => missing,
    }
}

/// A variable that is an unsigned whole number, or a default.
pub fn env_count(env: &Table<String>, name: &str, missing: u64) -> (r: u64)
    ensures
        r == count_or(env@, name@, missing),
{
    match env.get(name) {
        Some(value) => match parsing::parse_unsigned(value.as_str()) {
            Some(n) => n,
            None => missing,
        },
        None => missing,
    }
}

/// Whether a text in small letters says yes.
pub fn is_affirmative(lower: &str) -> (r: bool)
    ensures
        r == affirms(lower@),
{
    text::text_eq(lower, "1") || text::text_eq(lower, "true") || text::text_eq(lower, "yes")
        || text::text_eq(lower, "on")
}

/// A variable that says yes, or a default where it is not set.
pub fn env_flag(env: &Table<String>, name: &str, missing: bool) -> (r: bool)
    ensures
        r == flag_or(env@, name@, missing),
        match variable(env@, name@) {
            Some(value) => text::ascii(value) ==> r == affirms(text::smalls(value)),
            None => r == missing,
        },
{
    match env.get(name) {
        Some(value) => {
            let lower = text::to_lowercase(value.as_str());
            is_affirmative(lower.as_str())
        },
        None => missing,
    }
}

/// The entries of a list that is split already.
fn list_entries(parts: &Vec<String>) -> (r: Vec<String>)
    ensures
        sorting::texts(r@) == listed(sorting::texts(parts@)),
{
    let ghost all = sorting::texts(parts@);
    let mut r: Vec<String> = Vec::new();
    let mut i: usize = 0;
    assert(sorting::texts(r@) =~= listed(all.take(0)));
    while i < parts.len()
        invariant
            i <= parts@.len(),
            all == sorting::texts(parts@),
            sorting::texts(r@) == listed(all.take(i as int)),
        decreases parts@.len() - i,
    {
        assert(all.take(i + 1).drop_last() =~= all.take(i as int));
        assert(all.take(i + 1).last() == parts@[i as int]@);
        let part = text::strip(parts[i].as_str(), Edge::Space);
        if part.unicode_len() > 0 {
            let ghost before = sorting::texts(r@);
            let entry = text::to_uppercase(part);
            r.push(entry);
            assert(sorting::texts(r@) =~= before.push(entry@));
        }
        i = i + 1;
    }
    assert(all.take(i as int) =~= all);
    r
}

fn env_list(env: &Table<String>, name: &str, missing: Vec<String>) -> (r: Vec<String>)
    ensures
        sorting::texts(r@) == list_or(env@, name@, sorting::texts(missing@)),
{
    match env.get(name) {
        Some(value) => {
            let entries = list_entries(&text::split(value.as_str(), ','));
            assert(sorting::texts(entries@).len() == entries@.len());
            if entries.len() == 0 {
                missing
            } else {
                entries
            }
        },
        None => missing,
    }
}

/// The symbols of the demo feed.
pub open spec fn demo_names() -> Seq<Seq<char>> {
    seq![
        "BTCUSDT"@,
        "ETHUSDT"@,
        "SOLUSDT"@,
        "XRPUSDT"@,
        "DOGEUSDT"@,
        "LINKUSDT"@,
        "AVAXUSDT"@,
        "SUIUSDT"@,
    ]
}

fn demo_default() -> (r: Vec<String>)
    ensures
        sorting::texts(r@) == demo_names(),
{
    let r: Vec<String> = vec![
        "BTCUSDT".to_owned(),
        "ETHUSDT".to_owned(),
        "SOLUSDT".to_owned(),
        "XRPUSDT".to_owned(),
        "DOGEUSDT".to_owned(),
        "LINKUSDT".to_owned(),
        "AVAXUSDT".to_owned(),
        "SUIUSDT".to_owned(),
    ];
    assert(sorting::texts(r@) =~= demo_names());
    r
}

/// The file that settings are kept in.
pub fn env_file_path(env: &Table<String>) -> (r: String)
    ensures
        r@ == text_or(env@, "PULSEBOOK_ENV_FILE"@, "pulsebook.env"@),
{
    env_text(env, "PULSEBOOK_ENV_FILE", "pulsebook.env")
}

/// What a line of a settings file sets, if anything: blank lines, comments and lines
/// without a name before an equals sign set nothing.
pub open spec fn assignment(line: Seq<char>) -> Option<(Seq<char>, Seq<char>)> {
    let line = text::stripped(line, Edge::Space);
    if line.len() == 0 || line[0] == '#' {
        None
    } else {
        match text::halves(line, '=') {
            None => None,
            Some((name, value)) => {
                let name = text::stripped(name, Edge::Space);
                if name.len() == 0 {
                    None
                } else {
                    Some((name, text::stripped(text::stripped(value, Edge::Space), Edge::Quote)))
                }
            },
        }
    }
}

fn read_assignment(line: &str) -> (r: Option<(String, String)>)
    ensures
        match r {
            Some((name, value)) => assignment(line@) == Some((name@, value@)),
            None => assignment(line@) is None,
        },
{
    let line = text::strip(line, Edge::Space);
    if line.unicode_len() == 0 || line.get_char(0) == '#' {
        return None;
    }
    match text::split_once(line, '=') {
        None => None,
        Some((name, value)) => {
            let name = text::strip(name, Edge::Space);
            if name.unicode_len() == 0 {
                return None;
            }
            let value = text::strip(text::strip(value, Edge::Space), Edge::Quote);
            Some((name.to_owned(), value.to_owned()))
        },
    }
}

/// The variables, by their characters.
pub open spec fn variables(env: Map<Seq<char>, String>) -> Map<Seq<char>, Seq<char>> {
    env.map_values(|s: String| s@)
}

/// The variables after the lines of a settings file; a later line wins over an earlier one
/// and over what was set before.
pub open spec fn loaded(env: Map<Seq<char>, Seq<char>>, lines: Seq<Seq<char>>) -> Map<
    Seq<char>,
    Seq<char>,
>
    decreases lines.len(),
{
    if lines.len() == 0 {
        env
    } else {
        let before = loaded(env, lines.drop_last());
        match assignment(lines.last()) {
            Some((name, value)) => before.insert(name, value),
            None => before,
        }
    }
}

/// Sets the variables that a settings file sets.
pub fn load_env_file(env: &mut Table<String>, contents: &str)
    ensures
        variables(final(env)@) == loaded(variables(old(env)@), text::lines_of(contents@)),
{
    let lines = text::lines(contents);
    let ghost all = sorting::texts(lines@);
    let mut i: usize = 0;
    assert(all.take(0) =~= Seq::empty());
    while i < lines.len()
        invariant
            i <= lines@.len(),
            all == sorting::texts(lines@),
            variables(env@) == loaded(variables(old(env)@), all.take(i as int)),
        decreases lines@.len() - i,
    {
        assert(all.take(i + 1).drop_last() =~= all.take(i as int));
        assert(all.take(i + 1).last() == lines@[i as int]@);
        match read_assignment(lines[i].as_str()) {
            Some((name, value)) => {
                let ghost before = variables(env@);
                env.insert(name.as_str(), value);
                assert(variables(env@) =~= before.insert(name@, value@));
            },
            None => {},
        }
        i = i + 1;
    }
    assert(all.take(i as int) =~= all);
}

/// Settings as the environment gives them, before a profile is applied.
pub open spec fn read_from(env: Map<Seq<char>, String>, s: Settings) -> bool {
    &&& s.rest_url@ == "https://api.bybit.com"@
    &&& s.ws_url@ == "wss://stream.bybit.com/v5/public/linear"@
    &&& s.host@ == text_or(env, "HOST"@, "0.0.0.0"@)
    &&& s.port == count_or(env, "PORT"@, 8000) as u16
    &&& s.force_demo == (flag_or(env, "FORCE_DEMO"@, false) || reading::same_letters(text_or(env, "DATA_MODE"@, "real"@), "demo"@))
    &&& s.invert_sides == flag_or(env, "INVERT_SIDES"@, false)
    &&& s.demo_fallback == flag_or(env, "DEMO_FALLBACK"@, true)
    &&& s.trading_mode@ == text::lowercased(text_or(env, "TRADING_MODE"@, "paper"@))
    &&& s.strategy_mode@ == text::lowercased(text_or(env, "STRATEGY_MODE"@, "alternative"@))
    &&& s.settings_profile@ == text::lowercased(text_or(env, "SETTINGS_PROFILE"@, "custom"@))
    &&& s.scan_interval == count_or(env, "SCAN_INTERVAL"@, 3600)
    &&& s.max_symbols == count_or(env, "MAX_SYMBOLS"@, 40) as usize
    &&& s.min_turnover == number_or(env, "MIN_TURNOVER"@, Double::whole(10_000_000))
    &&& s.min_price == number_or(env, "MIN_PRICE"@, Double::ratio(5, 1_000))
    &&& s.max_spread_pct == number_or(env, "MAX_SPREAD_PCT"@, Double::ratio(1, 10))
    &&& s.ws_chunk_size == count_or(env, "WS_CHUNK_SIZE"@, 20) as usize
    &&& s.taker_fee_pct == number_or(env, "TAKER_FEE_PCT"@, Double::ratio(5, 10_000))
    &&& s.slippage_pct == number_or(env, "SLIPPAGE_PCT"@, Double::ratio(3, 10_000))
    &&& s.cost_safety_multiplier == number_or(env, "COST_SAFETY_MULTIPLIER"@, Double::ratio(135, 100))
    &&& s.max_holding_seconds == number_or(env, "MAX_HOLDING_SECONDS"@, Double::whole(900))
    &&& s.trail_arm_r == number_or(env, "TRAIL_ARM_R"@, Double::whole(1))
    &&& s.trail_giveback_r == number_or(env, "TRAIL_GIVEBACK_R"@, Double::ratio(55, 100))
    &&& s.breakeven_arm_r == number_or(env, "BREAKEVEN_ARM_R"@, Double::ratio(8, 10))
    &&& s.reversal_confirm_ticks == count_or(env, "REVERSAL_CONFIRM_TICKS"@, 3) as u32
    &&& s.reversal_confirm_seconds == number_or(env, "REVERSAL_CONFIRM_SECONDS"@, Double::whole(3))
    &&& s.reversal_min_hold_seconds == number_or(env, "REVERSAL_MIN_HOLD_SECONDS"@, Double::whole(30))
    &&& s.account_equity == number_or(env, "ACCOUNT_EQUITY"@, number_or(env, "PAPER_EQUITY"@, Double::whole(10_000)))
    &&& s.risk_per_trade_pct == number_or(env, "RISK_PER_TRADE_PCT"@, Double::ratio(25, 10_000))
    &&& s.max_position_notional == number_or(env, "MAX_POSITION_NOTIONAL"@, Double::whole(1_000))
    &&& s.max_open_positions == count_or(env, "MAX_OPEN_POSITIONS"@, 2) as usize
    &&& s.max_daily_loss_pct == number_or(env, "MAX_DAILY_LOSS_PCT"@, Double::ratio(15, 1_000))
    &&& s.max_consecutive_losses == count_or(env, "MAX_CONSECUTIVE_LOSSES"@, 4) as usize
    &&& s.cooldown_seconds == number_or(env, "COOLDOWN_SECONDS"@, Double::whole(180))
    &&& s.loss_cooldown_seconds == number_or(env, "LOSS_COOLDOWN_SECONDS"@, Double::whole(900))
    &&& s.alternative_wall_multiplier == number_or(env, "ALTERNATIVE_WALL_MULTIPLIER"@, Double::whole(15))
    &&& s.alternative_signal_expiry_seconds == number_or(env, "ALTERNATIVE_SIGNAL_EXPIRY_SECONDS"@, Double::whole(8))
    &&& s.alternative_retest_tolerance_pct == number_or(env, "ALTERNATIVE_RETEST_TOLERANCE_PCT"@, Double::ratio(8, 10_000))
    &&& s.alternative_retest_hold_ticks == count_or(env, "ALTERNATIVE_RETEST_HOLD_TICKS"@, 3) as u32
    &&& s.alternative_min_confluence_score == count_or(env, "ALTERNATIVE_MIN_CONFLUENCE_SCORE"@, 85) as i64
    &&& s.alternative_min_net_reward_risk == number_or(env, "ALTERNATIVE_MIN_NET_REWARD_RISK"@, Double::ratio(135, 100))
    &&& s.alternative_target_r_multiple == number_or(env, "ALTERNATIVE_TARGET_R_MULTIPLE"@, Double::ratio(18, 10))
    &&& s.alternative_max_target_pct == number_or(env, "ALTERNATIVE_MAX_TARGET_PCT"@, Double::ratio(1, 100))
    &&& s.alternative_min_stop_pct == number_or(env, "ALTERNATIVE_MIN_STOP_PCT"@, Double::ratio(2, 1_000))
    &&& s.alternative_max_stop_pct == number_or(env, "ALTERNATIVE_MAX_STOP_PCT"@, Double::ratio(75, 10_000))
    &&& s.alternative_structure_buffer_pct == number_or(env, "ALTERNATIVE_STRUCTURE_BUFFER_PCT"@, Double::ratio(8, 10_000))
    &&& s.fvg_candle_seconds == number_or(env, "FVG_CANDLE_SECONDS"@, Double::whole(300))
    &&& s.fvg_min_gap_pct == number_or(env, "FVG_MIN_GAP_PCT"@, Double::ratio(8, 10_000))
    &&& s.fvg_signal_expiry_seconds == number_or(env, "FVG_SIGNAL_EXPIRY_SECONDS"@, Double::whole(120))
    &&& s.fvg_entry_depth == number_or(env, "FVG_ENTRY_DEPTH"@, Double::ratio(5, 10))
    &&& s.fvg_min_confluence_score == count_or(env, "FVG_MIN_CONFLUENCE_SCORE"@, 60) as i64
    &&& s.fvg_min_net_reward_risk == number_or(env, "FVG_MIN_NET_REWARD_RISK"@, Double::ratio(135, 100))
    &&& s.fvg_target_r_multiple == number_or(env, "FVG_TARGET_R_MULTIPLE"@, Double::ratio(18, 10))
    &&& s.fvg_max_target_pct == number_or(env, "FVG_MAX_TARGET_PCT"@, Double::ratio(1, 100))
    &&& s.fvg_min_stop_pct == number_or(env, "FVG_MIN_STOP_PCT"@, Double::ratio(2, 1_000))
    &&& s.fvg_max_stop_pct == number_or(env, "FVG_MAX_STOP_PCT"@, Double::ratio(75, 10_000))
    &&& s.fvg_stop_buffer_pct == number_or(env, "FVG_STOP_BUFFER_PCT"@, Double::ratio(8, 10_000))
    &&& s.fvg_m15_min_gap_atr == number_or(env, "FVG_M15_MIN_GAP_ATR"@, Double::ratio(1, 10))
    &&& s.fvg_m15_min_displacement_atr == number_or(env, "FVG_M15_MIN_DISPLACEMENT_ATR"@, Double::whole(1))
    &&& s.fvg_m15_min_body_ratio == number_or(env, "FVG_M15_MIN_BODY_RATIO"@, Double::ratio(6, 10))
    &&& s.fvg_m15_max_age_bars == count_or(env, "FVG_M15_MAX_AGE_BARS"@, 16) as u32
    &&& s.fvg_m1_min_gap_atr == number_or(env, "FVG_M1_MIN_GAP_ATR"@, Double::ratio(5, 100))
    &&& s.fvg_m1_min_displacement_atr == number_or(env, "FVG_M1_MIN_DISPLACEMENT_ATR"@, Double::ratio(8, 10))
    &&& s.fvg_m1_min_body_ratio == number_or(env, "FVG_M1_MIN_BODY_RATIO"@, Double::ratio(6, 10))
    &&& s.fvg_m1_confirmation_bars == count_or(env, "FVG_M1_CONFIRMATION_BARS"@, 15) as u32
    &&& s.fvg_s5_min_gap_pct == number_or(env, "FVG_S5_MIN_GAP_PCT"@, Double::ratio(15, 100_000))
    &&& s.fvg_s5_min_body_ratio == number_or(env, "FVG_S5_MIN_BODY_RATIO"@, Double::ratio(55, 100))
    &&& s.fvg_s5_inversion_bars == count_or(env, "FVG_S5_INVERSION_BARS"@, 24) as u32
    &&& s.fvg_s5_retest_bars == count_or(env, "FVG_S5_RETEST_BARS"@, 12) as u32
    &&& s.fvg_s5_entry_depth == number_or(env, "FVG_S5_ENTRY_DEPTH"@, Double::ratio(5, 10))
    &&& s.min_live_trades == count_or(env, "MIN_LIVE_TRADES"@, 200) as usize
    &&& s.min_live_profit_factor == number_or(env, "MIN_LIVE_PROFIT_FACTOR"@, Double::ratio(12, 10))
    &&& s.min_live_expectancy == number_or(env, "MIN_LIVE_EXPECTANCY"@, Double::zero())
    &&& s.max_live_drawdown_pct == number_or(env, "MAX_LIVE_DRAWDOWN_PCT"@, Double::ratio(1, 10))
    &&& sorting::texts(s.demo_symbols@) == list_or(env, "DEMO_SYMBOLS"@, demo_names())
}

/// Settings once their profile is applied.
pub open spec fn profiled(s: Settings) -> Settings {
    if s.settings_profile@ == "ai_recommended"@ {
        presets::with_recommended(s)
    } else {
        s
    }
}

impl Settings {
    /// Settings from the environment: each variable has a default, and the recommended
    /// profile overrides what it manages.
    pub fn new(env: &Table<String>) -> (r: Settings)
        ensures
            exists|base: Settings| #[trigger] read_from(env@, base) && r == profiled(base),
            ({
                let mode = text_or(env@, "TRADING_MODE"@, "paper"@);
                text::ascii(mode) ==> r.trading_mode@ == text::smalls(mode)
            }),
            text_or(env@, "TRADING_MODE"@, "paper"@) == "live"@ ==> admin::refusal(r) == Some(
                admin::locked(),
            ),
            ({
                let mode = text_or(env@, "STRATEGY_MODE"@, "alternative"@);
                text::ascii(mode) ==> r.strategy_mode@ == text::smalls(mode)
            }),
            ({
                let profile = text_or(env@, "SETTINGS_PROFILE"@, "custom"@);
                text::ascii(profile) ==> r.settings_profile@ == text::smalls(profile)
            }),
    {
        proof {
            admin::lemma_live_is_not_harmless();
        }
        let mut settings = Settings {
            rest_url: "https://api.bybit.com".to_owned(),
            ws_url: "wss://stream.bybit.com/v5/public/linear".to_owned(),
            host: env_text(env, "HOST", "0.0.0.0"),
            port: env_count(env, "PORT", 8000) as u16,
            force_demo: env_flag(env, "FORCE_DEMO", false) || reading::same_word(env_text(env, "DATA_MODE", "real").as_str(), "demo"),
            invert_sides: env_flag(env, "INVERT_SIDES", false),
            demo_fallback: env_flag(env, "DEMO_FALLBACK", true),
            trading_mode: text::to_lowercase(env_text(env, "TRADING_MODE", "paper").as_str()),
            strategy_mode: text::to_lowercase(env_text(env, "STRATEGY_MODE", "alternative").as_str()),
            settings_profile: text::to_lowercase(env_text(env, "SETTINGS_PROFILE", "custom").as_str()),
            scan_interval: env_count(env, "SCAN_INTERVAL", 3600),
            max_symbols: env_count(env, "MAX_SYMBOLS", 40) as usize,
            min_turnover: env_number(env, "MIN_TURNOVER", Double::whole(10_000_000)),
            min_price: env_number(env, "MIN_PRICE", Double::ratio(5, 1_000)),
            max_spread_pct: env_number(env, "MAX_SPREAD_PCT", Double::ratio(1, 10)),
            ws_chunk_size: env_count(env, "WS_CHUNK_SIZE", 20) as usize,
            taker_fee_pct: env_number(env, "TAKER_FEE_PCT", Double::ratio(5, 10_000)),
            slippage_pct: env_number(env, "SLIPPAGE_PCT", Double::ratio(3, 10_000)),
            cost_safety_multiplier: env_number(env, "COST_SAFETY_MULTIPLIER", Double::ratio(135, 100)),
            max_holding_seconds: env_number(env, "MAX_HOLDING_SECONDS", Double::whole(900)),
            trail_arm_r: env_number(env, "TRAIL_ARM_R", Double::whole(1)),
            trail_giveback_r: env_number(env, "TRAIL_GIVEBACK_R", Double::ratio(55, 100)),
            breakeven_arm_r: env_number(env, "BREAKEVEN_ARM_R", Double::ratio(8, 10)),
            reversal_confirm_ticks: env_count(env, "REVERSAL_CONFIRM_TICKS", 3) as u32,
            reversal_confirm_seconds: env_number(env, "REVERSAL_CONFIRM_SECONDS", Double::whole(3)),
            reversal_min_hold_seconds: env_number(env, "REVERSAL_MIN_HOLD_SECONDS", Double::whole(30)),
            account_equity: env_number(env, "ACCOUNT_EQUITY", env_number(env, "PAPER_EQUITY", Double::whole(10_000))),
            risk_per_trade_pct: env_number(env, "RISK_PER_TRADE_PCT", Double::ratio(25, 10_000)),
            max_position_notional: env_number(env, "MAX_POSITION_NOTIONAL", Double::whole(1_000)),
            max_open_positions: env_count(env, "MAX_OPEN_POSITIONS", 2) as usize,
            max_daily_loss_pct: env_number(env, "MAX_DAILY_LOSS_PCT", Double::ratio(15, 1_000)),
            max_consecutive_losses: env_count(env, "MAX_CONSECUTIVE_LOSSES", 4) as usize,
            cooldown_seconds: env_number(env, "COOLDOWN_SECONDS", Double::whole(180)),
            loss_cooldown_seconds: env_number(env, "LOSS_COOLDOWN_SECONDS", Double::whole(900)),
            alternative_wall_multiplier: env_number(env, "ALTERNATIVE_WALL_MULTIPLIER", Double::whole(15)),
            alternative_signal_expiry_seconds: env_number(env, "ALTERNATIVE_SIGNAL_EXPIRY_SECONDS", Double::whole(8)),
            alternative_retest_tolerance_pct: env_number(env, "ALTERNATIVE_RETEST_TOLERANCE_PCT", Double::ratio(8, 10_000)),
            alternative_retest_hold_ticks: env_count(env, "ALTERNATIVE_RETEST_HOLD_TICKS", 3) as u32,
            alternative_min_confluence_score: env_count(env, "ALTERNATIVE_MIN_CONFLUENCE_SCORE", 85) as i64,
            alternative_min_net_reward_risk: env_number(env, "ALTERNATIVE_MIN_NET_REWARD_RISK", Double::ratio(135, 100)),
            alternative_target_r_multiple: env_number(env, "ALTERNATIVE_TARGET_R_MULTIPLE", Double::ratio(18, 10)),
            alternative_max_target_pct: env_number(env, "ALTERNATIVE_MAX_TARGET_PCT", Double::ratio(1, 100)),
            alternative_min_stop_pct: env_number(env, "ALTERNATIVE_MIN_STOP_PCT", Double::ratio(2, 1_000)),
            alternative_max_stop_pct: env_number(env, "ALTERNATIVE_MAX_STOP_PCT", Double::ratio(75, 10_000)),
            alternative_structure_buffer_pct: env_number(env, "ALTERNATIVE_STRUCTURE_BUFFER_PCT", Double::ratio(8, 10_000)),
            fvg_candle_seconds: env_number(env, "FVG_CANDLE_SECONDS", Double::whole(300)),
            fvg_min_gap_pct: env_number(env, "FVG_MIN_GAP_PCT", Double::ratio(8, 10_000)),
            fvg_signal_expiry_seconds: env_number(env, "FVG_SIGNAL_EXPIRY_SECONDS", Double::whole(120)),
            fvg_entry_depth: env_number(env, "FVG_ENTRY_DEPTH", Double::ratio(5, 10)),
            fvg_min_confluence_score: env_count(env, "FVG_MIN_CONFLUENCE_SCORE", 60) as i64,
            fvg_min_net_reward_risk: env_number(env, "FVG_MIN_NET_REWARD_RISK", Double::ratio(135, 100)),
            fvg_target_r_multiple: env_number(env, "FVG_TARGET_R_MULTIPLE", Double::ratio(18, 10)),
            fvg_max_target_pct: env_number(env, "FVG_MAX_TARGET_PCT", Double::ratio(1, 100)),
            fvg_min_stop_pct: env_number(env, "FVG_MIN_STOP_PCT", Double::ratio(2, 1_000)),
            fvg_max_stop_pct: env_number(env, "FVG_MAX_STOP_PCT", Double::ratio(75, 10_000)),
            fvg_stop_buffer_pct: env_number(env, "FVG_STOP_BUFFER_PCT", Double::ratio(8, 10_000)),
            fvg_m15_min_gap_atr: env_number(env, "FVG_M15_MIN_GAP_ATR", Double::ratio(1, 10)),
            fvg_m15_min_displacement_atr: env_number(env, "FVG_M15_MIN_DISPLACEMENT_ATR", Double::whole(1)),
            fvg_m15_min_body_ratio: env_number(env, "FVG_M15_MIN_BODY_RATIO", Double::ratio(6, 10)),
            fvg_m15_max_age_bars: env_count(env, "FVG_M15_MAX_AGE_BARS", 16) as u32,
            fvg_m1_min_gap_atr: env_number(env, "FVG_M1_MIN_GAP_ATR", Double::ratio(5, 100)),
            fvg_m1_min_displacement_atr: env_number(env, "FVG_M1_MIN_DISPLACEMENT_ATR", Double::ratio(8, 10)),
            fvg_m1_min_body_ratio: env_number(env, "FVG_M1_MIN_BODY_RATIO", Double::ratio(6, 10)),
            fvg_m1_confirmation_bars: env_count(env, "FVG_M1_CONFIRMATION_BARS", 15) as u32,
            fvg_s5_min_gap_pct: env_number(env, "FVG_S5_MIN_GAP_PCT", Double::ratio(15, 100_000)),
            fvg_s5_min_body_ratio: env_number(env, "FVG_S5_MIN_BODY_RATIO", Double::ratio(55, 100)),
            fvg_s5_inversion_bars: env_count(env, "FVG_S5_INVERSION_BARS", 24) as u32,
            fvg_s5_retest_bars: env_count(env, "FVG_S5_RETEST_BARS", 12) as u32,
            fvg_s5_entry_depth: env_number(env, "FVG_S5_ENTRY_DEPTH", Double::ratio(5, 10)),
            min_live_trades: env_count(env, "MIN_LIVE_TRADES", 200) as usize,
            min_live_profit_factor: env_number(env, "MIN_LIVE_PROFIT_FACTOR", Double::ratio(12, 10)),
            min_live_expectancy: env_number(env, "MIN_LIVE_EXPECTANCY", Double::zero()),
            max_live_drawdown_pct: env_number(env, "MAX_LIVE_DRAWDOWN_PCT", Double::ratio(1, 10)),
            demo_symbols: env_list(env, "DEMO_SYMBOLS", demo_default()),
        };
        let ghost base = settings;
        assert(read_from(env@, base));
        if text::text_eq(settings.settings_profile.as_str(), "ai_recommended") {
            settings.apply_ai_recommended();
        }
        settings
    }
}

} // verus!
