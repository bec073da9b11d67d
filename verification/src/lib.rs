//! Verified core of the QsoRipper tools: CW transcript stitching, Morse
//! tables, Maidenhead locators, duration formatting and the stress-run ledger.

pub mod textual;
pub mod snapshot;
pub mod morse;
pub mod stabilizer;
pub mod append_decode;
pub mod duration;
pub mod geodesy;
pub mod stress;
pub mod ledger;
pub mod rng;
pub mod rhythm;
pub mod storage;
pub mod form;
pub mod preview;
pub mod catalog;
pub mod requests;
pub mod baseline;
pub mod header;
pub mod ring;
pub mod stats_line;
