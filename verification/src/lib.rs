//! Verified core of a cryptocurrency price reporter.
//!
//! The library turns a quote-API response body into a CSV report:
//! it resolves the startup configuration, parses the JSON response
//! for the documented schema, and renders one CSV row per currency.
//! All I/O (command line, environment, HTTP, files) lives outside.

pub mod config;
pub mod csvout;
pub mod json;
pub mod model;
pub mod run;
