//! Declarative validation and coercion of JSON-shaped input.
//!
//! A [`ParamSet`] describes the expected shape of an object: which keys are
//! required, what type each must have, nested shapes, allowed values and
//! constraints across keys. Applying it to a [`Json`] value coerces
//! compatible representations in place and reports every failure with a
//! JSON-pointer path.
pub mod json;
pub mod text;
pub mod errors;
pub mod coercers;
pub mod params;
pub mod builder;
pub mod laws;
pub mod pattern;

pub use builder::Builder;
pub use json::{JValue, Json};
pub use params::ParamSet;
