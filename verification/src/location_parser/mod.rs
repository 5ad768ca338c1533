//! The capability that finds the descriptions of locations in a text.

pub mod service;
pub mod mock;
pub mod openai;

pub use crate::location_parser::service::LocationParser;
pub use crate::location_parser::service::LocationParserService;
