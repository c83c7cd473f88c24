//! Folds, and what can be built from them: the aggregates of a sequence as
//! instances of one left fold, and a small register machine whose batch
//! execution is a fold over its instructions.
//!
//! The fold and the aggregates that are used most stand here at the root, with
//! the contracts that they have in [`paper`], which holds them all.

use paper::identity::One;
use paper::{
    computes, count_step, fold_of, fold_requires, folds_to, is_default, product_defined,
    product_of, sum_defined, sum_of,
};
use vstd::prelude::*;
use vstd::std_specs::iter::IteratorSpec;
use vstd::std_specs::ops::{AddSpec, MulSpec};
use std::ops::{Add, Mul};

pub mod paper;
pub mod virtual_machine;

verus! {

/// Threads `acc` through `f` over the items of `iter`, left to right, one call
/// per item, and returns the last accumulator; the seed itself when `iter` is
/// empty.
pub fn fold<Alpha, Beta, List, F>(f: F, acc: Alpha, iter: List) -> (out: Alpha) where
    F: Fn(Beta, Alpha) -> Alpha,
    List: Iterator<Item = Beta>,

    requires
        iter.obeys_prophetic_iter_laws(),
        iter.decrease() is Some,
        fold_requires(f, acc, iter.remaining()),
    ensures
        folds_to(f, acc, iter.remaining(), out),
        forall|g: spec_fn(Beta, Alpha) -> Alpha| #[trigger]
            computes(f, g) ==> out == fold_of(g, acc, iter.remaining()),
{
    paper::fold(f, acc, iter)
}

/// The sum of the items of `iter`, on top of `Alpha::default()`.
pub fn sum<Alpha, List>(iter: List) -> (total: Alpha) where
    Alpha: Add<Output = Alpha> + Default,
    List: Iterator<Item = Alpha>,

    requires
        iter.obeys_prophetic_iter_laws(),
        iter.decrease() is Some,
        Alpha::obeys_add_spec(),
        forall|zero: Alpha| is_default(zero) ==> sum_defined(zero, iter.remaining()),
    ensures
        exists|zero: Alpha| is_default(zero) && total == sum_of(zero, iter.remaining()),
{
    paper::sum(iter)
}

/// The product of the items of `iter`, on top of the multiplicative identity
/// of `Alpha`; the identity itself when `iter` is empty.
pub fn product<Alpha, List>(iter: List) -> (total: Alpha) where
    Alpha: Mul<Output = Alpha> + One,
    List: Iterator<Item = Alpha>,

    requires
        iter.obeys_prophetic_iter_laws(),
        iter.decrease() is Some,
        Alpha::obeys_mul_spec(),
        product_defined(Alpha::one_spec(), iter.remaining()),
    ensures
        total == product_of(Alpha::one_spec(), iter.remaining()),
{
    paper::product(iter)
}

/// Whether all the items of `iter` are true; true when there is none.
pub fn and<List>(iter: List) -> (all: bool) where List: Iterator<Item = bool>
    requires
        iter.obeys_prophetic_iter_laws(),
        iter.decrease() is Some,
    ensures
        all <==> forall|i: int| 0 <= i < iter.remaining().len() ==> iter.remaining()[i],
{
    paper::and(iter)
}

/// Whether some item of `iter` is true; false when there is none.
pub fn or<List>(iter: List) -> (any: bool) where List: Iterator<Item = bool>
    requires
        iter.obeys_prophetic_iter_laws(),
        iter.decrease() is Some,
    ensures
        any <==> exists|i: int| 0 <= i < iter.remaining().len() && iter.remaining()[i],
{
    paper::or(iter)
}

/// The number of items of `iter`.
pub fn length<List>(iter: List) -> (n: usize) where List: Iterator
    requires
        iter.obeys_prophetic_iter_laws(),
        iter.decrease() is Some,
        iter.remaining().len() <= usize::MAX,
    ensures
        n == iter.remaining().len(),
        n == fold_of(count_step::<List::Item>(), 0usize, iter.remaining()),
{
    paper::length(iter)
}

/// The items of `iter` in a new vector, last item first.
pub fn reverse<Alpha, List>(iter: List) -> (reversed: Vec<Alpha>) where
    Alpha: Copy,
    List: Iterator<Item = Alpha>,

    requires
        iter.obeys_prophetic_iter_laws(),
        iter.decrease() is Some,
    ensures
        reversed@ == iter.remaining().reverse(),
{
    paper::reverse(iter)
}

} // verus!
