use vstd::prelude::*;
use core::cmp::Ordering;
use vstd::std_specs::cmp::PartialOrdSpec;

pub mod eval;
pub mod instance;
pub mod laws;
pub mod map;
pub mod modifier;
pub mod supplier;

verus! {

/// The result of `clamp` as read through `T`'s comparison: a value that is
/// unordered with `min` or below it becomes `min`, one above `max` becomes
/// `max`, any other stays as it is.
pub open spec fn spec_clamp<T: PartialOrd>(value: T, min: T, max: T) -> T {
    match value.partial_cmp_spec(&min) {
        None | Some(Ordering::Less) => min,
        _ => if value.partial_cmp_spec(&max) == Some(Ordering::Greater) {
            max
        } else {
            value
        },
    }
}

/// Clamps `value` into `[min, max]`; a value that does not compare with `min`
/// (a NaN) is taken as `min`.
pub fn clamp<T: PartialOrd>(value: T, min: T, max: T) -> (r: T)
    ensures
        T::obeys_partial_cmp_spec() ==> r == spec_clamp(value, min, max),
{
    match value.partial_cmp(&min) {
        None | Some(Ordering::Less) => min,
        _ => {
            if value > max {
                max
            } else {
                value
            }
        },
    }
}

/// The shape of an attribute: a plain default, a default with inclusive
/// bounds, or a value made of modifiers alone.
pub enum Attribute {
    Value(i64),
    Ranged(i64, i64, i64),
    Derived,
}

impl Clone for Attribute {
    fn clone(&self) -> (r: Self)
        ensures
            r == *self,
    {
        match self {
            Attribute::Value(d) => Attribute::Value(*d),
            Attribute::Ranged(d, lo, hi) => Attribute::Ranged(*d, *lo, *hi),
            Attribute::Derived => Attribute::Derived,
        }
    }
}

impl Attribute {
    pub open spec fn spec_default_value(self) -> i64 {
        match self {
            Attribute::Value(d) => d,
            Attribute::Ranged(d, _, _) => d,
            Attribute::Derived => 0,
        }
    }

    pub open spec fn spec_sanitize_value(self, value: i64) -> i64 {
        match self {
            Attribute::Ranged(_, lo, hi) => if value < lo {
                lo
            } else if value > hi {
                hi
            } else {
                value
            },
            _ => value,
        }
    }

    /// The intrinsic default: the given one, or zero for a derived attribute.
    pub fn default_value(&self) -> (r: i64)
        ensures
            r == self.spec_default_value(),
    {
        match self {
            Attribute::Ranged(d, _, _) | Attribute::Value(d) => *d,
            Attribute::Derived => 0,
        }
    }

    /// Clamps a ranged attribute's value into its bounds; the identity otherwise.
    pub fn sanitize_value(&self, value: i64) -> (r: i64)
        ensures
            r == self.spec_sanitize_value(value),
    {
        match self {
            Attribute::Ranged(_, lo, hi) => clamp(value, *lo, *hi),
            _ => value,
        }
    }
}

} // verus!
