//! Turns captured HTTP request/response traffic into a generated
//! API-description document: for each sample it infers a path template
//! with typed parameters, an operation identity, query-parameter types,
//! and a tree of named schema components, and assembles them into one
//! document with a shared base URL.

pub mod bridge;
pub mod command;
pub mod error;
pub mod http;
pub mod jsonval;
pub mod numlit;
pub mod openapi;
pub mod strutil;
