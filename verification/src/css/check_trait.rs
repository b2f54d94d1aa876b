//! A compile-time check that a type may appear in the binary format.

use vstd::prelude::*;

verus! {

/// Implemented by the types that may appear in a serialized style sheet;
/// `check` visits the component types.
pub trait CompatibilityCheck {
    fn check() {
    }
}

impl CompatibilityCheck for () {}

impl CompatibilityCheck for u8 {}

impl CompatibilityCheck for i32 {}

impl CompatibilityCheck for u32 {}

impl CompatibilityCheck for u16 {}

impl CompatibilityCheck for usize {}

impl CompatibilityCheck for String {}

impl CompatibilityCheck for bool {}

impl<T: CompatibilityCheck> CompatibilityCheck for Vec<T> {
    fn check() {
        T::check();
    }
}

impl<T: CompatibilityCheck> CompatibilityCheck for Box<T> {
    fn check() {
        T::check();
    }
}

impl<T: CompatibilityCheck> CompatibilityCheck for Box<[T]> {
    fn check() {
        T::check();
    }
}

impl<T: CompatibilityCheck> CompatibilityCheck for Option<T> {
    fn check() {
        T::check();
    }
}

} // verus!
