//! Core model of a timetable application: a tolerant row parser for an
//! HTML-table export, a deduplicating course registry, a post-processing
//! pass that orders the data and derives multiplicity flags, and a per-day
//! span aggregate used to size a rendering grid.

pub mod laws;
pub mod models;
pub mod services;
pub mod views;
pub mod text;
