//! Course-schedule extraction for the university's class-registration site:
//! decoding of time slots and table rows, the paging rules of a scrape,
//! semester discovery, the freshness gate of cached output and the grouping
//! of classes into courses.
pub mod text;
pub mod time_slot;
pub mod row;
pub mod campus;
pub mod paging;
pub mod discovery;
pub mod cache;
pub mod outcome;
pub mod export;
