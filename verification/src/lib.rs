//! Extracts a 3D coordinate announcement from free-form text and tracks,
//! over a run of samples, whether a live position moves toward or away from
//! a fixed reference point.
//!
//! The text grammar is `"Coordinates: x:<num> y:<num> z:<num>"`, where each
//! `<num>` is a run of digits or minus signs, one free character (the decimal
//! point in practice), and a run of digits. The parser collects every
//! substring of that `<num>` shape, in order of occurrence, and assigns the
//! first three to x, y and z.

mod pattern;
mod validate;
mod parser;
mod tracker;
mod laws;

pub use pattern::digit;
pub use pattern::run_char;
pub use pattern::free_char;
pub use pattern::dash_run_len;
pub use pattern::digit_run_len;
pub use pattern::token_split;
pub use pattern::token_range;
pub use pattern::lit_at;
pub use pattern::header;
pub use pattern::y_label;
pub use pattern::z_label;
pub use validate::is_valid;
pub use validate::announcement_at;
pub use validate::contains_announcement;
pub use validate::x_tail;
pub use validate::y_tail;
pub use validate::z_tail;
pub use validate::token_end_at;
pub use parser::Coordinate;
pub use parser::ParsingError;
pub use parser::parse_coordinate;
pub use parser::field_sp;
pub use parser::tokens_from;
pub use parser::starts_token;
pub use parser::token_end;
pub use parser::lemma_starts_token_iff;
pub use tracker::Tracker;
pub use tracker::Evaluation;
pub use tracker::Trend;
pub use tracker::classify;
pub use tracker::trend_of;
pub use tracker::trends_of;
pub use tracker::lemma_approaching_run;
pub use tracker::lemma_receding_run;
pub use laws::announcement_text;
pub use laws::decimal_start;
pub use laws::decimal_split;
pub use laws::decimal_token;
pub use laws::lemma_wellformed_announcement;
