//! Interactive filtering core of an application launcher.
//!
//! The library owns a partition of launchable items into a `shown` sequence
//! (those matching the current query, ranked by match quality) and a `hidden`
//! sequence (the rest), together with the query, a selection index into
//! `shown`, and a leveled detail projection of the selected item.

pub mod item;
pub mod matcher;
pub mod numfmt;
pub mod order;
pub mod refilter;
pub mod segment;
pub mod ui;
