//! Word-entry generation core: a validation-and-repair engine for model
//! output, a retry/classification policy for one word's pipeline, and a
//! bounded, order-preserving batch scheduler.
pub mod errors;
pub mod json;
pub mod text;
pub mod validate;
pub mod policy;
pub mod batch;
pub mod api;
pub mod model;
