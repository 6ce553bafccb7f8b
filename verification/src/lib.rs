//! Core engine of a small text-protocol client: a wire-response parser that
//! classifies raw server bytes into a typed response, a lightweight markup
//! parser that turns a response body into a sequence of typed blocks, a
//! resolver that computes the next absolute request from a location and a
//! target string, and a navigation engine that drives the fetch cycle over a
//! bounded history.  Transport and presentation live outside this crate.

pub mod engine;
pub mod gemtext;
pub mod resolve;
pub mod response;
pub mod text;
