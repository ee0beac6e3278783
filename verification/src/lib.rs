//! Core of a Japanese input method: romaji to kana input, kana utilities,
//! candidate lists, segmented conversions, clause resizing, dictionaries and
//! learning data, together with the pure decision logic of the input session.

pub mod error;
pub mod text;
pub mod mozc_table;
pub mod romaji;
pub mod kana;
pub mod candidate;
pub mod context;
pub mod segment;
pub mod extend_clause;
pub mod system_dict;
pub mod user_dict;
pub mod dictionary;
pub mod clock;
pub mod frequency;
pub mod learning;
pub mod observation;
pub mod correction;
pub mod engine;
pub mod session;
pub mod candidate_window;
pub mod config;
pub mod settings;
pub mod ime;
pub mod panel;
pub mod keys;
