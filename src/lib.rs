//! Parsing and summarising free-form time-tracking notes.
//!
//! Each line of the text is an interval (`12:15-1:30 code2`), a note on the
//! interval above it (`- did Y`), or blank. The report gives the start of the
//! first interval and the end of the last, the minutes worked, the minutes
//! between consecutive intervals, a summary per project, and warnings about
//! whatever could not be read or does not add up.
use vstd::prelude::*;

pub mod text;
pub mod time;
pub mod entry;
pub mod report;
pub mod laws;

pub use entry::{parse_entries, Entry, Interval};
pub use report::{parse_time_tracking_data, summarize, ProjectSummary, Report};
pub use time::Time;

verus! {

} // verus!
