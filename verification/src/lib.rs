//! A verified field-bag construction engine.
//!
//! A caller declares a linear chain of levels, each owning an ordered,
//! named, typed field set with a per-field resolution policy (required,
//! default value, or skip), and then constructs every level's instance in
//! one call by supplying only a subset of fields across the whole chain.
//! Unsupplied fields fall back to their policy's default.
//!
//! The heart of the crate is the slot-bag algebra: levels' field sets are
//! merged into one flat assignable bag, the bag is filled by at-most-once
//! positional assignment, and the bag is later split back into per-level
//! value tuples. Merging and splitting are exact inverses, duplicate
//! supply always surfaces as a conflict, and a required field left
//! undefined always fails resolution before any instance is built.

pub mod bag;
pub mod chain;
pub mod errors;
pub mod field;
pub mod nest;
pub mod props;
pub mod value;
