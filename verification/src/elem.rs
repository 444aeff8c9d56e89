use vstd::prelude::*;

verus! {

/// A type with a distinguished default value that can be produced at runtime.
///
/// The growable array materializes every allocated slot eagerly, so its
/// element type must say which value fills fresh slots, both in
/// specifications (`default_spec`) and in executable code (`default_value`).
pub trait DefaultValue: Sized {
    /// The default value, as seen by specifications.
    spec fn default_spec() -> Self;

    /// Produce the default value at runtime.
    fn default_value() -> (r: Self)
        ensures
            r == Self::default_spec(),
    ;
}

impl DefaultValue for u32 {
    open spec fn default_spec() -> u32 {
        0
    }

    fn default_value() -> (r: u32) {
        0
    }
}

impl DefaultValue for i32 {
    open spec fn default_spec() -> i32 {
        0
    }

    fn default_value() -> (r: i32) {
        0
    }
}

} // verus!
