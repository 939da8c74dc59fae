//! The core of a gateway policy that observes HTTP traffic and reports it as
//! sanitized events.
//!
//! A request is admitted or skipped ([`request`]), by the filter on its path
//! ([`path_filter`]) and by sampling ([`sampling`], [`sampler`],
//! [`sample_rate`]). The event of an admitted request is completed by its
//! response ([`response`]), whose body is observed within fixed bounds
//! ([`response_capture`]), and waits in a bounded queue ([`queue`]) for the next
//! batch ([`delivery`]).
//!
//! What ships is sanitized: headers by name ([`headers`]), JSON values by key
//! and by the operator's rules ([`sanitize`], [`pii_rules`], [`pattern`]),
//! addresses as pseudonyms ([`hash`], [`ip`], [`source_ip`]). Bodies that hold
//! prompts or model output can be withheld ([`ai_content`]).
//!
//! The library does no input or output: it takes what was read from the proxy as
//! plain values and returns what is to be sent.

pub mod ai_content;
pub mod config;
pub mod delivery;
pub mod event;
pub mod groups;
pub mod hash;
pub mod headers;
pub mod ip;
pub mod json;
pub mod path_filter;
pub mod pattern;
pub mod pii_rules;
pub mod policy;
pub mod query;
pub mod queue;
pub mod request;
pub mod response;
pub mod response_capture;
pub mod sample_rate;
pub mod sampler;
pub mod sampling;
pub mod sanitize;
pub mod source_ip;
pub mod text;
pub mod timestamp;

pub use crate::headers::content_type_is_json;
