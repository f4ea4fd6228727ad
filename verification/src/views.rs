//! View-model state for the presentation layer: the course list's search
//! filter and ordering, and the placeholder view's identity.

pub mod courses_view;
pub mod placeholder_view;
