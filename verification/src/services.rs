//! The computational services: the chrono bridge, the row scanner, the
//! standard course parser, and the course registry.

pub mod chrono_parse;
pub mod course_manager;
pub mod row_scanner;
pub mod standard_course_parser;
