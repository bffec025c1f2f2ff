pub use crate::attribute::{
    Attribute, clamp,
    instance::{AttributeBuilder, AttributeInstance},
    map::AttributeMap,
    modifier::{AttributeModifier, CloneableFn, Operation, Value},
    supplier::{AttributeSupplier, AttributeSupplierBuilder},
};
