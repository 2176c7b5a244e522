//! The WLD world format: its encoded strings and its fragments.
pub mod parse;
pub mod strings;
pub mod records;
pub mod pieces;
pub mod words;
pub mod var_records;
pub mod fragments;
