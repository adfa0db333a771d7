pub mod admin;
pub mod bignat;
pub mod book_laws;
pub mod brain;
pub mod cascade_laws;
pub mod coinglass;
pub mod config;
pub mod decimal;
pub mod detail;
pub mod double;
pub mod engine;
pub mod engine_laws;
pub mod entry_laws;
pub mod execution;
pub mod exit_laws;
pub mod feeds;
pub mod figures;
pub mod fill_laws;
pub mod gap_laws;
pub mod journal;
pub mod journal_laws;
pub mod json;
pub mod message_laws;
pub mod messages;
pub mod models;
pub mod mtf_fvg;
pub mod mtf_tracker;
pub mod notices;
pub mod number_laws;
pub mod page_laws;
pub mod parsing;
pub mod persistence;
pub mod presets;
pub mod readiness;
pub mod readiness_laws;
pub mod reading;
pub mod recorder;
pub mod replay;
pub mod replay_laws;
pub mod rounding;
pub mod routes;
pub mod saving;
pub mod scanner;
pub mod scanner_laws;
pub mod setting_laws;
pub mod setting_names;
pub mod snapshot;
pub mod sorting;
pub mod standing_laws;
pub mod standings;
pub mod state;
pub mod stream;
pub mod stream_laws;
pub mod table;
pub mod tape_laws;
pub mod telegram;
pub mod text;
pub mod text_laws;
pub mod trading;
pub mod wall_laws;
