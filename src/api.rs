//! Plain data of the REST service around the codec: options, metadata, configuration.
pub mod error_codes;
pub mod handlers;
pub mod models;
