//! The multiplicative identity of a type, which seeds a product.

use vstd::prelude::*;

verus! {

/// A type with a multiplicative identity.
pub trait One: Sized {
    /// The identity: the value that leaves every other unchanged under `*`.
    spec fn one_spec() -> Self;

    fn one() -> (unit: Self)
        ensures
            unit == Self::one_spec(),
    ;
}

impl One for u8 {
    open spec fn one_spec() -> u8 {
        1
    }

    fn one() -> (unit: u8) {
        1
    }
}

impl One for u16 {
    open spec fn one_spec() -> u16 {
        1
    }

    fn one() -> (unit: u16) {
        1
    }
}

impl One for u32 {
    open spec fn one_spec() -> u32 {
        1
    }

    fn one() -> (unit: u32) {
        1
    }
}

impl One for u64 {
    open spec fn one_spec() -> u64 {
        1
    }

    fn one() -> (unit: u64) {
        1
    }
}

impl One for u128 {
    open spec fn one_spec() -> u128 {
        1
    }

    fn one() -> (unit: u128) {
        1
    }
}

impl One for usize {
    open spec fn one_spec() -> usize {
        1
    }

    fn one() -> (unit: usize) {
        1
    }
}

impl One for i8 {
    open spec fn one_spec() -> i8 {
        1
    }

    fn one() -> (unit: i8) {
        1
    }
}

impl One for i16 {
    open spec fn one_spec() -> i16 {
        1
    }

    fn one() -> (unit: i16) {
        1
    }
}

impl One for i32 {
    open spec fn one_spec() -> i32 {
        1
    }

    fn one() -> (unit: i32) {
        1
    }
}

impl One for i64 {
    open spec fn one_spec() -> i64 {
        1
    }

    fn one() -> (unit: i64) {
        1
    }
}

impl One for i128 {
    open spec fn one_spec() -> i128 {
        1
    }

    fn one() -> (unit: i128) {
        1
    }
}

impl One for isize {
    open spec fn one_spec() -> isize {
        1
    }

    fn one() -> (unit: isize) {
        1
    }
}

} // verus!
