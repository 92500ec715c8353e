//! Detection of HTTP request smuggling: the probe requests with conflicting
//! `Content-Length` and `Transfer-Encoding` framing, a byte-level reader for
//! the responses, and the timing and race detectors that decide from them.
//!
//! The library does no I/O. Its callers write the requests it builds, feed
//! the bytes they read to its scanners and decoders, and hand the outcomes
//! of each request back to the detectors, which say what to send next.

pub mod args;
pub mod chunked;
pub mod detections;
pub mod raw_requests;
pub mod reader;
pub mod structs;
pub mod text;
pub mod utils;
