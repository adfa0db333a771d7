use pulsebook::double::Double;
use pulsebook::messages::{
    notify_entry, notify_exit, sent_text, startup_text, EntryNotification, ExitNotification,
    TelegramConfig,
};
use pulsebook::table::Table;
use pulsebook::telegram::{notify_rejection, send_immediate, truncate, Notifier};

fn d(x: f64) -> Double {
    Double::from_bits(x.to_bits())
}

#[test]
fn unicode_truncation_keeps_valid_utf8() {
    assert_eq!(truncate("тест", 5), "те");
}

#[test]
fn short_text_is_not_changed() {
    assert_eq!(truncate("BTCUSDT", 32), "BTCUSDT");
}

#[test]
fn truncation_keeps_what_fits() {
    assert_eq!(truncate("тест", 0), "");
    assert_eq!(truncate("тест", 8), "тест");
    assert_eq!(truncate("a🙂b", 4), "a");
    assert_eq!(truncate("a🙂b", 5), "a🙂");
    assert_eq!(sent_text(&"x".repeat(5000)).len(), 4096);
}

#[test]
fn telegram_needs_a_token_and_a_chat() {
    let mut env = Table::new();
    assert!(TelegramConfig::from_env(&env).is_none());
    env.insert("TELEGRAM_BOT_TOKEN", " token ".to_string());
    env.insert("TELEGRAM_CHAT_ID", "  ".to_string());
    assert!(TelegramConfig::from_env(&env).is_none());
    env.insert("TELEGRAM_CHAT_ID", "42".to_string());
    env.insert("TELEGRAM_THREAD_ID", " -7 ".to_string());
    env.insert("TELEGRAM_REJECT_SUMMARY_SECONDS", "5".to_string());
    env.insert("TELEGRAM_NOTIFY_STARTUP", "OFF".to_string());
    let config = TelegramConfig::from_env(&env).unwrap();
    assert_eq!(config.token, "token");
    assert_eq!(config.chat_id, "42");
    assert_eq!(config.thread_id, Some(-7));
    assert_eq!(config.rejection_summary_seconds, 30);
    assert!(config.notify_rejections);
    assert!(!config.notify_startup);
}

#[test]
fn entries_and_exits_are_reported() {
    let mut notifier = Some(Notifier::new(true));
    notify_entry(
        &mut notifier,
        EntryNotification {
            symbol: "BTCUSDT",
            side: "LONG",
            entry: d(100.5),
            quantity: d(0.25),
            stop: d(99.0),
            target: d(104.0),
            risk_budget: d(25.0),
            net_rr: d(1.5),
            target_r: d(2.0),
        },
    );
    notify_exit(
        &mut notifier,
        ExitNotification {
            symbol: "BTCUSDT",
            side: "LONG",
            reason: "R-BASED TRAIL",
            entry: d(100.5),
            exit: d(102.0),
            pnl: d(3.25),
            gross_pnl: d(3.5),
            fees: d(0.25),
            held_seconds: d(61.4),
            mfe: d(4.0),
            mae: d(-1.0),
        },
    );
    let sent = notifier.as_mut().unwrap().take_messages();
    assert_eq!(
        sent[0],
        format!(
            "ОТКРЫТА PAPER-СДЕЛКА\n\n{} {}\nВход: {:.6}\nКоличество: {:.6}\nСтоп: {:.6}\nЦель: {:.6}\nРиск: {:.2} USDT\nNet R/R: {:.2}\nЦель: {:.2}R",
            "BTCUSDT", "LONG", 100.5, 0.25, 99.0, 104.0, 25.0, 1.5, 2.0
        )
    );
    assert_eq!(
        sent[1],
        "ЗАКРЫТА PAPER-СДЕЛКА [ПРИБЫЛЬ]\n\nBTCUSDT LONG\nПричина: R-BASED TRAIL\nВход: 100.500000\nВыход: 102.000000\nNet PnL: +3.25 USDT\nGross PnL: +3.50 USDT\nКомиссии: 0.25 USDT\nУдержание: 61 сек\nMFE / MAE: +4.00 / -1.00 USDT"
    );
    assert!(notifier.as_mut().unwrap().take_messages().is_empty());
}

#[test]
fn the_result_of_an_exit_has_a_word() {
    for (pnl, word) in [(1.0, "[ПРИБЫЛЬ]"), (-1.0, "[УБЫТОК]"), (0.0, "[БЕЗУБЫТОК]")] {
        let mut notifier = Some(Notifier::new(true));
        notify_exit(
            &mut notifier,
            ExitNotification {
                symbol: "A",
                side: "SHORT",
                reason: "r",
                entry: d(1.0),
                exit: d(1.0),
                pnl: d(pnl),
                gross_pnl: d(pnl),
                fees: d(0.0),
                held_seconds: d(0.0),
                mfe: d(0.0),
                mae: d(0.0),
            },
        );
        assert!(notifier.unwrap().outbox[0].contains(word));
    }
}

#[test]
fn rejections_are_counted_and_summed_up_once() {
    let mut notifier = Some(Notifier::new(true));
    notify_rejection(&mut notifier, "ETHUSDT", "spread");
    notify_rejection(&mut notifier, "BTCUSDT", "score");
    notify_rejection(&mut notifier, "BTCUSDT", "score");
    let n = notifier.as_mut().unwrap();
    assert_eq!(
        n.take_summary(300).unwrap(),
        "СВОДКА ОТКЛОНЕНИЙ СДЕЛОК\n\nПериод: 300 сек\nВсего: 3\n\nBTCUSDT: score × 2\nETHUSDT: spread × 1"
    );
    assert!(n.take_summary(300).is_none());
}

#[test]
fn a_long_summary_names_what_it_leaves_out() {
    let mut notifier = Some(Notifier::new(true));
    for i in 0..25 {
        notify_rejection(&mut notifier, &format!("S{i:02}"), "reason");
    }
    let text = notifier.as_mut().unwrap().take_summary(60).unwrap();
    assert!(text.contains("\nS19: reason × 1"));
    assert!(!text.contains("S20"));
    assert!(text.ends_with("\n\nИ ещё 5 групп причин."));

    let long = "x".repeat(300);
    for i in 0..40 {
        let reason = format!("{i}{long}");
        notify_rejection(&mut notifier, &format!("SYMBOL{i}"), &reason);
    }
    let text = notifier.unwrap().take_summary(60).unwrap();
    assert!(text.len() <= 4096);
}

#[test]
fn nothing_is_queued_without_a_notifier() {
    let mut none: Option<Notifier> = None;
    send_immediate(&mut none, "text".to_string());
    notify_rejection(&mut none, "A", "b");
    assert!(none.is_none());
    let mut quiet = Some(Notifier::new(false));
    notify_rejection(&mut quiet, "A", "b");
    assert!(quiet.unwrap().rejections.is_empty());
}

#[test]
fn the_startup_message_names_the_mode_in_capitals() {
    assert!(startup_text("paper").starts_with("PulseBook запущен\n\nРежим: PAPER\nLive trading: "));
}
