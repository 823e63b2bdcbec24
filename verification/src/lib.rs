//! Summer summarizes the contents of a directory.
//!
//! The library is split in three modules:
//!
//! * `config` defines the settings that drive a run.
//! * `summarizer` classifies the entries of a directory, sorts them, and
//!   builds the columns that describe them.
//! * `display` lays the columns out as text.

pub mod config;
pub mod display;
pub mod summarizer;
