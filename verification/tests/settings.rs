use pulsebook::admin::{
    ai_recommended_settings, saved_custom_settings, validate_admin_settings, SettingValue,
};
use pulsebook::config::{env_file_path, load_env_file, Settings};
use pulsebook::double::Double;
use pulsebook::json::{Json, JsonNumber};
use pulsebook::presets::Preset;
use pulsebook::saving::env_value;
use pulsebook::setting_names::{ai_managed_keys, admin_setting_keys, is_ai_managed};
use pulsebook::table::Table;

fn f(x: Double) -> f64 {
    f64::from_bits(x.to_bits())
}

fn text(s: &str) -> Json {
    Json::Text(s.to_string())
}

fn count(n: u64) -> Json {
    Json::Number(JsonNumber::Unsigned(n))
}

fn rational(x: f64) -> Json {
    Json::Number(JsonNumber::Real {
        value: Double::from_bits(x.to_bits()),
        text: format!("{x}"),
    })
}

fn table(rows: Vec<(&str, Json)>) -> Table<Json> {
    let mut r = Table::new();
    for (key, value) in rows {
        r.insert(key, value);
    }
    r
}

fn preset(key: &str) -> f64 {
    let rows = ai_recommended_settings();
    let row = rows.iter().find(|row| row.0 == key).unwrap();
    match row.1 {
        Some(Preset::Number(x)) => f(x),
        Some(Preset::Count(n)) => n as f64,
        _ => panic!("no number for {key}"),
    }
}

#[test]
fn ai_preset_defines_every_managed_setting() {
    let preset = ai_recommended_settings();
    for key in ai_managed_keys() {
        let row = preset.iter().find(|row| row.0 == key);
        assert!(row.is_some_and(|row| row.1.is_some()), "missing AI preset for {key}");
    }
}

#[test]
fn ai_preset_keeps_risk_geometry_valid() {
    assert!(preset("fvg_target_r_multiple") > preset("fvg_min_net_reward_risk"));
    assert!(preset("fvg_min_stop_pct") <= preset("fvg_max_stop_pct"));
    assert!((0.0..=1.0).contains(&preset("fvg_s5_entry_depth")));
}

#[test]
fn unknown_settings_profile_is_rejected() {
    let values = table(vec![("settings_profile", text("automatic"))]);
    assert!(validate_admin_settings(&values).is_err());
}

#[test]
fn each_rule_has_its_complaint() {
    let complaint = |rows: Vec<(&str, Json)>| validate_admin_settings(&table(rows)).unwrap_err();
    assert_eq!(complaint(vec![("force_demo", text("yes"))]), "force_demo must be boolean");
    assert_eq!(
        complaint(vec![("demo_symbols", Json::List(vec![count(1)]))]),
        "demo_symbols must be a string list"
    );
    assert_eq!(
        complaint(vec![("trading_mode", text("live"))]),
        "trading_mode must remain paper, replay, or simulator"
    );
    assert_eq!(
        complaint(vec![("strategy_mode", text("both"))]),
        "strategy_mode must be alternative or fvg"
    );
    assert_eq!(
        complaint(vec![("settings_profile", Json::Null)]),
        "settings_profile must be custom or ai_recommended"
    );
    assert_eq!(
        complaint(vec![("ws_chunk_size", count(0))]),
        "ws_chunk_size must be a positive integer"
    );
    assert_eq!(
        complaint(vec![("fvg_s5_retest_bars", rational(2.5))]),
        "fvg_s5_retest_bars must be a positive integer"
    );
    assert_eq!(
        complaint(vec![("account_equity", text("10"))]),
        "account_equity must be a finite number"
    );
    assert_eq!(
        complaint(vec![
            ("fvg_target_r_multiple", rational(1.5)),
            ("fvg_min_net_reward_risk", rational(1.5)),
        ]),
        "fvg_target_r_multiple must be greater than fvg_min_net_reward_risk > 0"
    );
    assert_eq!(
        complaint(vec![
            ("alternative_target_r_multiple", count(1)),
            ("alternative_min_net_reward_risk", count(0)),
        ]),
        "alternative_target_r_multiple must be greater than alternative_min_net_reward_risk > 0"
    );
    assert_eq!(
        complaint(vec![("fvg_entry_depth", rational(1.1))]),
        "fvg_entry_depth must be between 0 and 1"
    );
    assert_eq!(
        complaint(vec![("fvg_m1_min_body_ratio", Json::Number(JsonNumber::Negative(-1)))]),
        "fvg_m1_min_body_ratio must be between 0 and 1"
    );
    assert_eq!(
        complaint(vec![("fvg_m15_min_gap_atr", count(0))]),
        "fvg_m15_min_gap_atr must be positive"
    );
    assert_eq!(
        complaint(vec![("fvg_min_stop_pct", rational(0.02)), ("fvg_max_stop_pct", rational(0.01))]),
        "fvg_min_stop_pct must be positive and no greater than fvg_max_stop_pct"
    );
    assert!(validate_admin_settings(&table(vec![
        ("fvg_min_stop_pct", rational(0.01)),
        ("fvg_max_stop_pct", rational(0.01)),
        ("trading_mode", text("replay")),
        ("demo_symbols", Json::List(vec![text("BTCUSDT")])),
    ]))
    .is_ok());
}

#[test]
fn values_are_written_for_the_environment_file() {
    assert_eq!(env_value(&Json::Bool(true)).unwrap(), "true");
    assert_eq!(env_value(&Json::Bool(false)).unwrap(), "false");
    assert_eq!(env_value(&count(20)).unwrap(), "20");
    assert_eq!(env_value(&Json::Number(JsonNumber::Negative(-7))).unwrap(), "-7");
    assert_eq!(env_value(&rational(0.25)).unwrap(), "0.25");
    assert_eq!(env_value(&text("paper")).unwrap(), "paper");
    assert_eq!(env_value(&Json::List(vec![text("A"), text("B")])).unwrap(), "A,B");
    assert_eq!(
        env_value(&Json::List(vec![text("A"), count(1)])).unwrap_err(),
        "List settings must contain strings"
    );
    assert_eq!(
        env_value(&Json::Null).unwrap_err(),
        "Settings must contain booleans, numbers, or string lists"
    );
}

#[test]
fn saving_replaces_lines_and_adds_new_ones() {
    let settings = Settings::new(&Table::new());
    let existing = "# kept\r\nTRADING_MODE = paper\nOTHER=1\n";
    let values = Json::Object(table(vec![
        ("trading_mode", text("replay")),
        ("ws_chunk_size", count(5)),
    ]));
    let saved = settings.save_admin_settings(&values, existing).unwrap();
    let lines: Vec<&str> = saved.lines().collect();
    assert_eq!(lines.len(), 4);
    assert_eq!(lines[0], "# kept");
    assert_eq!(lines[1], "TRADING_MODE=replay");
    assert_eq!(lines[2], "OTHER=1");
    assert_eq!(lines[3], "WS_CHUNK_SIZE=5");
    assert!(saved.ends_with('\n'));

    let mut env = Table::new();
    load_env_file(&mut env, &saved);
    let read = Settings::new(&env);
    assert_eq!(read.trading_mode, "replay");
    assert_eq!(read.ws_chunk_size, 5);
}

#[test]
fn refused_settings_are_not_saved() {
    let settings = Settings::new(&Table::new());
    assert_eq!(
        settings.save_admin_settings(&Json::Null, "").unwrap_err(),
        "Settings payload must be a JSON object"
    );
    let values = Json::Object(table(vec![("zeta", count(1)), ("alpha", count(2))]));
    assert_eq!(
        settings.save_admin_settings(&values, "").unwrap_err(),
        "Unsupported setting: alpha"
    );
    let values = Json::Object(table(vec![("trading_mode", text("live"))]));
    assert_eq!(
        settings.save_admin_settings(&values, "").unwrap_err(),
        "trading_mode must remain paper, replay, or simulator"
    );
}

#[test]
fn the_recommended_profile_leaves_managed_settings_alone() {
    let settings = Settings::new(&Table::new());
    let values = Json::Object(table(vec![
        ("settings_profile", text("ai_recommended")),
        ("fvg_entry_depth", rational(0.5)),
        ("fvg_m15_min_gap_atr", text("ignored")),
    ]));
    let saved = settings.save_admin_settings(&values, "").unwrap();
    assert!(is_ai_managed("fvg_m15_min_gap_atr"));
    assert!(!saved.contains("FVG_M15_MIN_GAP_ATR"));
    assert!(saved.contains("SETTINGS_PROFILE=ai_recommended\n"));
}

#[test]
fn settings_files_are_read_line_by_line() {
    let mut env = Table::new();
    load_env_file(
        &mut env,
        "  # comment\n\nPORT = \"9000\"\nHOST='127.0.0.1'\nnothing\n=empty\nPORT=9001",
    );
    let s = Settings::new(&env);
    assert_eq!(s.port, 9001);
    assert_eq!(s.host, "127.0.0.1");
    assert_eq!(env.len(), 2);
    assert_eq!(env_file_path(&env), "pulsebook.env");
}

#[test]
fn settings_have_defaults_and_follow_the_environment() {
    let s = Settings::new(&Table::new());
    assert_eq!(s.trading_mode, "paper");
    assert_eq!(s.min_live_trades, 200);
    assert_eq!(f(s.account_equity), 10_000.0);
    assert!(s.assert_safe_mode().is_ok());
    let mut env = Table::new();
    env.insert("FORCE_DEMO", "YES".to_string());
    env.insert("DEMO_SYMBOLS", " btcusdt, ,ethusdt ".to_string());
    env.insert("MIN_PRICE", "1e-3".to_string());
    env.insert("TRADING_MODE", "live".to_string());
    let s = Settings::new(&env);
    assert!(s.force_demo);
    assert_eq!(s.demo_symbols, vec!["BTCUSDT", "ETHUSDT"]);
    assert_eq!(f(s.min_price), 0.001);
    assert_eq!(
        s.assert_safe_mode().unwrap_err(),
        "LIVE TRADING IS LOCKED: only paper/replay/simulator modes are allowed"
    );
}

#[test]
fn the_recommended_profile_overrides_managed_settings() {
    let mut env = Table::new();
    env.insert("SETTINGS_PROFILE", "ai_recommended".to_string());
    env.insert("FVG_TARGET_R_MULTIPLE", "9".to_string());
    let s = Settings::new(&env);
    assert_eq!(f(s.fvg_target_r_multiple), preset("fvg_target_r_multiple"));
    assert_eq!(s.max_open_positions, 2);
}

#[test]
fn the_password_is_never_empty() {
    let s = Settings::new(&Table::new());
    let mut env = Table::new();
    assert!(!s.admin_password_configured(&env));
    assert!(!s.admin_password_matches(&env, ""));
    env.insert("ADMIN_PASSWORD", "  ".to_string());
    assert!(!s.admin_password_configured(&env));
    env.insert("ADMIN_PASSWORD", "pw".to_string());
    assert!(s.admin_password_configured(&env));
    assert!(s.admin_password_matches(&env, "pw"));
    assert!(!s.admin_password_matches(&env, "PW"));
}

#[test]
fn public_settings_show_what_is_in_use() {
    let s = Settings::new(&Table::new());
    let rows = s.public_settings();
    let mode = rows.iter().find(|row| row.0 == "trading_mode").unwrap();
    assert!(matches!(&mode.1, SettingValue::Text(t) if t == "paper"));
    assert_eq!(admin_setting_keys().len(), 71);
    assert_eq!(ai_managed_keys().len(), 45);
}

fn refused(name: &str, value: &str) -> &'static str {
    let mut env = Table::new();
    env.insert(name, value.to_string());
    Settings::new(&env).assert_safe_mode().unwrap_err()
}

#[test]
fn each_refusal_to_start_has_its_words() {
    let locked = "LIVE TRADING IS LOCKED: only paper/replay/simulator modes are allowed";
    assert_eq!(refused("TRADING_MODE", "LIVE"), locked);
    assert_eq!(refused("TRADING_MODE", ""), locked);
    assert_eq!(refused("STRATEGY_MODE", "x"), "STRATEGY_MODE must be alternative or fvg");
    assert_eq!(
        refused("SETTINGS_PROFILE", "x"),
        "SETTINGS_PROFILE must be custom or ai_recommended"
    );
    assert_eq!(
        refused("ALTERNATIVE_MIN_NET_REWARD_RISK", "0"),
        "ALTERNATIVE_TARGET_R_MULTIPLE must be greater than ALTERNATIVE_MIN_NET_REWARD_RISK > 0"
    );
    assert_eq!(
        refused("FVG_TARGET_R_MULTIPLE", "0.1"),
        "FVG_TARGET_R_MULTIPLE must be greater than FVG_MIN_NET_REWARD_RISK > 0"
    );
    assert_eq!(
        refused("FVG_MAX_TARGET_PCT", "0"),
        "Strategy max target settings must be positive"
    );
    assert_eq!(refused("FVG_MIN_STOP_PCT", "0.5"), "Strategy stop ranges are invalid");
    assert_eq!(refused("WS_CHUNK_SIZE", "0"), "WS_CHUNK_SIZE must be positive");
    assert_eq!(refused("FVG_ENTRY_DEPTH", "1.5"), "FVG settings are invalid");
    assert_eq!(refused("FVG_S5_RETEST_BARS", "0"), "MTF FVG settings are invalid");
    assert_eq!(
        refused("REVERSAL_CONFIRM_TICKS", "0"),
        "Reversal confirmation settings must be positive"
    );
    assert_eq!(refused("MAX_HOLDING_SECONDS", "-1"), "MAX_HOLDING_SECONDS must be positive");
    assert_eq!(
        refused("RISK_PER_TRADE_PCT", "0"),
        "ACCOUNT_EQUITY and RISK_PER_TRADE_PCT must be positive"
    );
}

#[test]
fn saved_settings_win_over_recommended_ones() {
    let mut env = Table::new();
    env.insert("MAX_OPEN_POSITIONS", "7".to_string());
    env.insert("FVG_TARGET_R_MULTIPLE", "2.5".to_string());
    env.insert("MAX_DAILY_LOSS_PCT", "bad".to_string());
    let rows = saved_custom_settings(&env);
    let at = |key: &str| &rows.iter().find(|row| row.0 == key).unwrap().1;
    assert!(matches!(at("max_open_positions"), Some(Preset::Number(x)) if f(*x) == 7.0));
    assert!(matches!(at("fvg_target_r_multiple"), Some(Preset::Number(x)) if f(*x) == 2.5));
    let start = saved_custom_settings(&Table::new());
    let before = &start.iter().find(|row| row.0 == "max_daily_loss_pct").unwrap().1;
    assert_eq!(at("max_daily_loss_pct"), before);
    assert_eq!(rows.len(), ai_managed_keys().len());
}
