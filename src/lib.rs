//! Parsing of routine aviation weather reports, their flight-category
//! classification, and the freshness rules of a read-through report store.
pub mod acquisition;
pub mod calendar;
pub mod classify;
pub mod codec;
pub mod decimal;
pub mod freshness;
pub mod grammar;
pub mod lookup;
pub mod parser;
pub mod refresh;
pub mod report;
pub mod service;
pub mod text;
