//! Archives the lifecycle events of a Lambda extension: every invocation becomes one JSON
//! object in object storage, under a key made of the function name and the time of upload.
//!
//! The library decides and computes; it performs no input or output. `processor` says what
//! an event calls for and how a write ends, `record` and `frame` give the stored object its
//! form and read it back, `json` and `clock` hold the calls into serde_json and chrono.

pub mod ascii;
pub mod clock;
pub mod decimal;
pub mod error;
pub mod event;
pub mod frame;
pub mod json;
pub mod processor;
pub mod record;
