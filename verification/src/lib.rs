//! A directory summarizer's verified core: for each immediate member of a
//! directory it builds a display record — normalized path, entry kind, a
//! size scaled to the run's unit, and local-time stamps — and renders the
//! records as an aligned text table with a total-item count. Reading the
//! directory and the command line stay outside; this crate holds the pure
//! pipeline from scanned entries to the finished report, plus the line
//! matcher.

pub mod path;
pub mod record;
pub mod report;
pub mod search;
pub mod table;
pub mod text;
pub mod units;
