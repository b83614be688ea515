//! Parsing of the on-board sensor fields of NMEA 0183 `OBS` sentences.
pub mod common;
pub mod fields;
pub mod obs;
