//! A log of tracked work sessions, its editable text form and the reading of that
//! text back, with the readable form of durations and the exported rows.
pub mod text;
pub mod time;
pub mod duration;
pub mod log;
pub mod parse;
pub mod laws;
pub mod csv_row;
pub mod status;
