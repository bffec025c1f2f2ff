//! An attribute computation engine: named numeric attributes whose effective
//! value is a raw value folded through an ordered stack of keyed modifiers,
//! memoized per instance and kept coherent as values and modifiers change.
pub mod attribute;
pub mod prelude;
