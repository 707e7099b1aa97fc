//! Picks photos by name: a list of typed names is matched, ignoring extension
//! and case, against the files of a source folder, and the matches are copied
//! to a destination folder. This crate holds the decisions and the report; the
//! folder walking and copying are done by its caller.
pub mod case_laws;
pub mod exts;
pub mod laws;
pub mod matching;
pub mod outcome;
pub mod path;
pub mod request;
pub mod run;
pub mod text;
