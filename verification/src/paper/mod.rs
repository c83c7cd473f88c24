//! The left fold and the aggregates that derive from it.
//!
//! A sequence is handed in as an iterator. What an iterator will yield is its
//! `remaining()` sequence; every contract below speaks of that sequence. Each
//! function asks of its iterator that it obeys the iterator laws of vstd (it
//! yields that sequence and then ends) and that it has a measure by which a
//! loop over it terminates.
//!
//! A function that is handed in may return any value that its own contract
//! allows, so `fold`, `map` and `filter` say what they return as a relation
//! between the items and the result; where the function computes a function
//! in the mathematical sense, the result is the one value that `fold_of` or
//! `Seq::filter` gives.

use vstd::prelude::*;
use vstd::std_specs::iter::IteratorSpec;
use vstd::std_specs::ops::{AddSpec, MulSpec};
use std::ops::{Add, Mul};

pub mod identity;

pub mod laws;

use identity::One;

verus! {

/// Whether `f` can be folded over `items` starting from `acc`: every call
/// meets the precondition of `f`, whatever the earlier calls returned.
pub open spec fn fold_requires<Alpha, Beta, F: Fn(Beta, Alpha) -> Alpha>(
    f: F,
    acc: Alpha,
    items: Seq<Beta>,
) -> bool
    decreases items.len(),
{
    items.len() > 0 ==> {
        &&& call_requires(f, (items[0], acc))
        &&& forall|next: Alpha| #[trigger]
            call_ensures(f, (items[0], acc), next) ==> fold_requires(f, next, items.drop_first())
    }
}

/// Whether `out` is a possible result of threading `acc` through `f`, once
/// per item, from the first item to the last.
pub open spec fn folds_to<Alpha, Beta, F: Fn(Beta, Alpha) -> Alpha>(
    f: F,
    acc: Alpha,
    items: Seq<Beta>,
    out: Alpha,
) -> bool
    decreases items.len(),
{
    if items.len() == 0 {
        out == acc
    } else {
        exists|next: Alpha| #[trigger]
            call_ensures(f, (items[0], acc), next) && folds_to(f, next, items.drop_first(), out)
    }
}

/// The left fold of a combining function `g` over `items`, seeded with `acc`.
pub open spec fn fold_of<Alpha, Beta>(
    g: spec_fn(Beta, Alpha) -> Alpha,
    acc: Alpha,
    items: Seq<Beta>,
) -> Alpha
    decreases items.len(),
{
    if items.len() == 0 {
        acc
    } else {
        fold_of(g, g(items[0], acc), items.drop_first())
    }
}

/// Whether every call of `f` returns what the combining function `g` gives.
pub open spec fn computes<Alpha, Beta, F: Fn(Beta, Alpha) -> Alpha>(
    f: F,
    g: spec_fn(Beta, Alpha) -> Alpha,
) -> bool {
    forall|x: Beta, acc: Alpha, next: Alpha| #[trigger]
        call_ensures(f, (x, acc), next) ==> next == g(x, acc)
}

/// Threads `acc` through `f` over the items of `iter`, left to right, one call
/// per item, and returns the last accumulator; the seed itself when `iter` is
/// empty.
pub fn fold<Alpha, Beta, List, F>(f: F, acc: Alpha, iter: List) -> (out: Alpha) where
    F: Fn(Beta, Alpha) -> Alpha,
    List: Iterator<Item = Beta>,

    requires
        iter.obeys_prophetic_iter_laws(),
        iter.decrease() is Some,
        fold_requires(f, acc, iter.remaining()),
    ensures
        folds_to(f, acc, iter.remaining(), out),
        forall|g: spec_fn(Beta, Alpha) -> Alpha| #[trigger]
            computes(f, g) ==> out == fold_of(g, acc, iter.remaining()),
{
    let ghost seed = acc;
    let ghost items = iter.remaining();
    let mut acc = acc;
    let mut iter = iter;
    loop
        invariant
            iter.obeys_prophetic_iter_laws(),
            iter.decrease() is Some,
            fold_requires(f, acc, iter.remaining()),
            forall|out: Alpha|
                folds_to(f, acc, iter.remaining(), out) ==> folds_to(f, seed, items, out),
        ensures
            iter.remaining().len() == 0,
        decreases iter.decrease()->0,
    {
        match iter.next() {
            Some(x) => {
                acc = f(x, acc);
            },
            None => {
                break ;
            },
        }
    }
    proof {
        assert forall|g: spec_fn(Beta, Alpha) -> Alpha| #[trigger] computes(f, g) implies acc
            == fold_of(g, seed, items) by {
            laws::lemma_fold_of(f, g, seed, items, acc);
        }
    }
    acc
}

/// Whether `zero` is a value that `Alpha::default()` may return.
pub open spec fn is_default<Alpha: Default>(zero: Alpha) -> bool {
    call_ensures(Alpha::default, (), zero)
}

/// The combining function of a sum: the accumulator plus the item.
pub open spec fn add_step<Alpha: Add<Output = Alpha>>() -> spec_fn(Alpha, Alpha) -> Alpha {
    |x: Alpha, acc: Alpha| acc.add_spec(x)
}

/// The sum of `items` on top of `zero`, added up from the first item to the
/// last.
pub open spec fn sum_of<Alpha: Add<Output = Alpha>>(zero: Alpha, items: Seq<Alpha>) -> Alpha {
    fold_of(add_step::<Alpha>(), zero, items)
}

/// Whether every addition on the way to `sum_of(zero, items)` is one that
/// `Alpha` admits (for the integer types: one that does not overflow).
pub open spec fn sum_defined<Alpha: Add<Output = Alpha>>(zero: Alpha, items: Seq<Alpha>) -> bool {
    forall|i: int|
        0 <= i < items.len() ==> (#[trigger] sum_of(zero, items.take(i))).add_req(items[i])
}

/// The sum of the items of `iter`, on top of `Alpha::default()`.
pub fn sum<Alpha, List>(iter: List) -> (total: Alpha) where
    Alpha: Add<Output = Alpha> + Default,
    List: Iterator<Item = Alpha>,

    requires
        iter.obeys_prophetic_iter_laws(),
        iter.decrease() is Some,
        Alpha::obeys_add_spec(),
        forall|zero: Alpha| is_default(zero) ==> sum_defined(zero, iter.remaining()),
    ensures
        exists|zero: Alpha| is_default(zero) && total == sum_of(zero, iter.remaining()),
{
    let ghost items = iter.remaining();
    let zero = Alpha::default();
    let step = |x: Alpha, acc: Alpha| -> (next: Alpha)
        requires
            Alpha::obeys_add_spec(),
            acc.add_req(x),
        ensures
            next == acc.add_spec(x),
        { acc + x };
    let ghost inv = |i: int, a: Alpha| 0 <= i <= items.len() && a == sum_of(zero, items.take(i));
    proof {
        assert(is_default(zero));
        assert(sum_defined(zero, items));
        assert(items.take(0).len() == 0);
        assert forall|i: int, a: Alpha| 0 <= i < items.len() && #[trigger] inv(i, a) implies
            call_requires(step, (items[i], a)) by {
            assert(sum_of(zero, items.take(i)).add_req(items[i]));
        }
        assert forall|i: int, a: Alpha, next: Alpha|
            0 <= i < items.len() && inv(i, a) && #[trigger] call_ensures(
                step,
                (items[i], a),
                next,
            ) implies inv(i + 1, next) by {
            laws::lemma_fold_of_take(add_step::<Alpha>(), zero, items, i);
        }
        laws::lemma_fold_requires(step, zero, items, inv);
    }
    let total = fold(step, zero, iter);
    proof {
        laws::lemma_folds_to(step, zero, items, total, inv);
        assert(items.take(items.len() as int) =~= items);
        assert(is_default(zero) && total == sum_of(zero, items));
    }
    total
}

/// The combining function of a product: the accumulator times the item.
pub open spec fn mul_step<Alpha: Mul<Output = Alpha>>() -> spec_fn(Alpha, Alpha) -> Alpha {
    |x: Alpha, acc: Alpha| acc.mul_spec(x)
}

/// The product of `items` on top of `one`, multiplied up from the first item
/// to the last.
pub open spec fn product_of<Alpha: Mul<Output = Alpha>>(one: Alpha, items: Seq<Alpha>) -> Alpha {
    fold_of(mul_step::<Alpha>(), one, items)
}

/// Whether every multiplication on the way to `product_of(one, items)` is one
/// that `Alpha` admits (for the integer types: one that does not overflow).
pub open spec fn product_defined<Alpha: Mul<Output = Alpha>>(
    one: Alpha,
    items: Seq<Alpha>,
) -> bool {
    forall|i: int|
        0 <= i < items.len() ==> (#[trigger] product_of(one, items.take(i))).mul_req(items[i])
}

/// The product of the items of `iter`, on top of the multiplicative identity
/// of `Alpha`; the identity itself when `iter` is empty.
pub fn product<Alpha, List>(iter: List) -> (total: Alpha) where
    Alpha: Mul<Output = Alpha> + One,
    List: Iterator<Item = Alpha>,

    requires
        iter.obeys_prophetic_iter_laws(),
        iter.decrease() is Some,
        Alpha::obeys_mul_spec(),
        product_defined(Alpha::one_spec(), iter.remaining()),
    ensures
        total == product_of(Alpha::one_spec(), iter.remaining()),
{
    let ghost items = iter.remaining();
    let one = Alpha::one();
    let step = |x: Alpha, acc: Alpha| -> (next: Alpha)
        requires
            Alpha::obeys_mul_spec(),
            acc.mul_req(x),
        ensures
            next == acc.mul_spec(x),
        { acc * x };
    let ghost inv = |i: int, a: Alpha|
        0 <= i <= items.len() && a == product_of(one, items.take(i));
    proof {
        assert(items.take(0).len() == 0);
        assert forall|i: int, a: Alpha| 0 <= i < items.len() && #[trigger] inv(i, a) implies
            call_requires(step, (items[i], a)) by {
            assert(product_of(one, items.take(i)).mul_req(items[i]));
        }
        assert forall|i: int, a: Alpha, next: Alpha|
            0 <= i < items.len() && inv(i, a) && #[trigger] call_ensures(
                step,
                (items[i], a),
                next,
            ) implies inv(i + 1, next) by {
            laws::lemma_fold_of_take(mul_step::<Alpha>(), one, items, i);
        }
        laws::lemma_fold_requires(step, one, items, inv);
    }
    let total = fold(step, one, iter);
    proof {
        laws::lemma_folds_to(step, one, items, total, inv);
        assert(items.take(items.len() as int) =~= items);
    }
    total
}

/// Whether all the items of `iter` are true; true when there is none.
pub fn and<List>(iter: List) -> (all: bool) where List: Iterator<Item = bool>
    requires
        iter.obeys_prophetic_iter_laws(),
        iter.decrease() is Some,
    ensures
        all <==> forall|i: int| 0 <= i < iter.remaining().len() ==> iter.remaining()[i],
{
    let ghost items = iter.remaining();
    let step = |x: bool, acc: bool| -> (next: bool)
        ensures
            next == (acc && x),
        { acc && x };
    let ghost inv = |i: int, a: bool| a <==> forall|j: int| 0 <= j < i ==> items[j];
    proof {
        laws::lemma_fold_requires_total(step, true, items);
    }
    let all = fold(step, true, iter);
    proof {
        laws::lemma_folds_to(step, true, items, all, inv);
    }
    all
}

/// Whether some item of `iter` is true; false when there is none.
pub fn or<List>(iter: List) -> (any: bool) where List: Iterator<Item = bool>
    requires
        iter.obeys_prophetic_iter_laws(),
        iter.decrease() is Some,
    ensures
        any <==> exists|i: int| 0 <= i < iter.remaining().len() && iter.remaining()[i],
{
    let ghost items = iter.remaining();
    let step = |x: bool, acc: bool| -> (next: bool)
        ensures
            next == (acc || x),
        { acc || x };
    let ghost inv = |i: int, a: bool| a <==> exists|j: int| 0 <= j < i && items[j];
    proof {
        laws::lemma_fold_requires_total(step, false, items);
    }
    let any = fold(step, false, iter);
    proof {
        laws::lemma_folds_to(step, false, items, any, inv);
    }
    any
}

/// The combining function of a count: one more than the accumulator,
/// whatever the item.
pub open spec fn count_step<Beta>() -> spec_fn(Beta, usize) -> usize {
    |_x: Beta, acc: usize| (acc + 1) as usize
}

/// The number of items of `iter`.
pub fn length<List>(iter: List) -> (n: usize) where List: Iterator
    requires
        iter.obeys_prophetic_iter_laws(),
        iter.decrease() is Some,
        iter.remaining().len() <= usize::MAX,
    ensures
        n == iter.remaining().len(),
        n == fold_of(count_step::<List::Item>(), 0usize, iter.remaining()),
{
    let ghost items = iter.remaining();
    let step = |_x: List::Item, acc: usize| -> (next: usize)
        requires
            acc < usize::MAX,
        ensures
            next == acc + 1,
        { 1 + acc };
    let ghost inv = |i: int, a: usize| a == i;
    proof {
        laws::lemma_fold_requires(step, 0usize, items, inv);
    }
    let n = fold(step, 0usize, iter);
    proof {
        laws::lemma_folds_to(step, 0usize, items, n, inv);
        assert(computes(step, count_step::<List::Item>()));
    }
    n
}

/// The items of `iter` in a new vector, last item first.
pub fn reverse<Alpha, List>(iter: List) -> (reversed: Vec<Alpha>) where
    Alpha: Copy,
    List: Iterator<Item = Alpha>,

    requires
        iter.obeys_prophetic_iter_laws(),
        iter.decrease() is Some,
    ensures
        reversed@ == iter.remaining().reverse(),
{
    let ghost items = iter.remaining();
    let step = |x: Alpha, acc: Vec<Alpha>| -> (next: Vec<Alpha>)
        ensures
            next@ == acc@.insert(0, x),
        {
            let mut acc = acc;
            acc.insert(0, x);
            acc
        };
    let ghost inv = |i: int, a: Vec<Alpha>| 0 <= i <= items.len() && a@ == items.take(i).reverse();
    let seed: Vec<Alpha> = Vec::new();
    proof {
        assert(items.take(0).reverse() =~= seed@);
        assert forall|i: int, a: Vec<Alpha>, next: Vec<Alpha>|
            0 <= i < items.len() && inv(i, a) && #[trigger] call_ensures(
                step,
                (items[i], a),
                next,
            ) implies inv(i + 1, next) by {
            assert(items.take(i + 1).reverse() =~= items.take(i).reverse().insert(0, items[i]));
        }
        laws::lemma_fold_requires_total(step, seed, items);
    }
    let reversed = fold(step, seed, iter);
    proof {
        laws::lemma_folds_to(step, seed, items, reversed, inv);
        assert(items.take(items.len() as int) =~= items);
    }
    reversed
}

/// Whether every call of `f` returns what the function `g` gives.
pub open spec fn applies<Alpha, Beta, MapF: Fn(Alpha) -> Beta>(
    f: MapF,
    g: spec_fn(Alpha) -> Beta,
) -> bool {
    forall|x: Alpha, y: Beta| #[trigger] call_ensures(f, (x,), y) ==> y == g(x)
}

/// The results of `f` on the items of `iter`, in the order of the items.
pub fn map<Alpha, Beta, List, MapF>(f: MapF, iter: List) -> (mapped: Vec<Beta>) where
    Alpha: Copy,
    List: Iterator<Item = Alpha>,
    MapF: Fn(Alpha) -> Beta,

    requires
        iter.obeys_prophetic_iter_laws(),
        iter.decrease() is Some,
        forall|i: int|
            0 <= i < iter.remaining().len() ==> call_requires(f, (#[trigger] iter.remaining()[i],)),
    ensures
        mapped.len() == iter.remaining().len(),
        forall|i: int|
            0 <= i < iter.remaining().len() ==> call_ensures(
                f,
                (iter.remaining()[i],),
                #[trigger] mapped[i],
            ),
        forall|g: spec_fn(Alpha) -> Beta| #[trigger]
            applies(f, g) ==> mapped@ == iter.remaining().map_values(g),
{
    let ghost items = iter.remaining();
    let call = &f;
    let step = |x: Alpha, acc: Vec<Beta>| -> (next: Vec<Beta>)
        requires
            call_requires(call, (x,)),
        ensures
            next@.len() == acc@.len() + 1,
            forall|j: int| 0 <= j < acc@.len() ==> next@[j] == acc@[j],
            call_ensures(call, (x,), next@[acc@.len() as int]),
        {
            let mut acc = acc;
            acc.push(call(x));
            acc
        };
    let ghost inv = |i: int, a: Vec<Beta>|
        {
            &&& a@.len() == i
            &&& forall|j: int| 0 <= j < i ==> call_ensures(f, (items[j],), #[trigger] a@[j])
        };
    let seed: Vec<Beta> = Vec::new();
    proof {
        assert forall|i: int, a: Vec<Beta>, next: Vec<Beta>|
            0 <= i < items.len() && inv(i, a) && #[trigger] call_ensures(
                step,
                (items[i], a),
                next,
            ) implies inv(i + 1, next) by {
            assert forall|j: int| 0 <= j < i + 1 implies call_ensures(
                f,
                (items[j],),
                #[trigger] next@[j],
            ) by {
                if j < i {
                    assert(next@[j] == a@[j]);
                }
            }
        }
        laws::lemma_fold_requires(step, seed, items, inv);
    }
    let mapped = fold(step, seed, iter);
    proof {
        laws::lemma_folds_to(step, seed, items, mapped, inv);
        assert forall|g: spec_fn(Alpha) -> Beta| #[trigger] applies(f, g) implies mapped@
            == items.map_values(g) by {
            assert(mapped@ =~= items.map_values(g));
        }
    }
    mapped
}

/// Whether `kept` is a possible selection from `items` by `f`: the items, in
/// their order, on which a call of `f` returned true.
pub open spec fn filters_to<Alpha, MapF: Fn(Alpha) -> bool>(
    f: MapF,
    items: Seq<Alpha>,
    kept: Seq<Alpha>,
) -> bool
    decreases items.len(),
{
    if items.len() == 0 {
        kept.len() == 0
    } else {
        ||| {
            &&& call_ensures(f, (items.last(),), true)
            &&& kept.len() > 0
            &&& kept.last() == items.last()
            &&& filters_to(f, items.drop_last(), kept.drop_last())
        }
        ||| {
            &&& call_ensures(f, (items.last(),), false)
            &&& filters_to(f, items.drop_last(), kept)
        }
    }
}

/// Whether every call of `f` returns what the predicate `p` gives.
pub open spec fn decides<Alpha, MapF: Fn(Alpha) -> bool>(f: MapF, p: spec_fn(Alpha) -> bool) -> bool {
    forall|x: Alpha, keep: bool| #[trigger] call_ensures(f, (x,), keep) ==> keep == p(x)
}

/// The items of `iter` on which `f` returns true, in the order of the items.
pub fn filter<Alpha, List, MapF>(f: MapF, iter: List) -> (kept: Vec<Alpha>) where
    Alpha: Copy,
    List: Iterator<Item = Alpha>,
    MapF: Fn(Alpha) -> bool,

    requires
        iter.obeys_prophetic_iter_laws(),
        iter.decrease() is Some,
        forall|i: int|
            0 <= i < iter.remaining().len() ==> call_requires(f, (#[trigger] iter.remaining()[i],)),
    ensures
        filters_to(f, iter.remaining(), kept@),
        forall|p: spec_fn(Alpha) -> bool| #[trigger]
            decides(f, p) ==> kept@ == iter.remaining().filter(p),
{
    let ghost items = iter.remaining();
    let call = &f;
    let step = |x: Alpha, acc: Vec<Alpha>| -> (next: Vec<Alpha>)
        requires
            call_requires(call, (x,)),
        ensures
            call_ensures(call, (x,), true) && next@ == acc@.push(x) || call_ensures(
                call,
                (x,),
                false,
            ) && next@ == acc@,
        {
            let mut acc = acc;
            if call(x) {
                acc.push(x);
            }
            acc
        };
    let ghost inv = |i: int, a: Vec<Alpha>|
        0 <= i <= items.len() && filters_to(f, items.take(i), a@);
    let seed: Vec<Alpha> = Vec::new();
    proof {
        assert(items.take(0).len() == 0);
        assert forall|i: int, a: Vec<Alpha>, next: Vec<Alpha>|
            0 <= i < items.len() && inv(i, a) && #[trigger] call_ensures(
                step,
                (items[i], a),
                next,
            ) implies inv(i + 1, next) by {
            assert(items.take(i + 1).drop_last() =~= items.take(i));
            assert(items.take(i + 1).last() == items[i]);
            if next@ == a@.push(items[i]) {
                assert(next@.drop_last() =~= a@);
            }
        }
        laws::lemma_fold_requires(step, seed, items, inv);
    }
    let kept = fold(step, seed, iter);
    proof {
        laws::lemma_folds_to(step, seed, items, kept, inv);
        assert(items.take(items.len() as int) =~= items);
        assert forall|p: spec_fn(Alpha) -> bool| #[trigger] decides(f, p) implies kept@
            == items.filter(p) by {
            laws::lemma_filters_to_filter(f, p, items, kept@);
        }
    }
    kept
}

/// The combining function that adds an item to a sum and counts it.
pub open spec fn sum_count_step<Alpha: Add<Output = Alpha>>() -> spec_fn(
    Alpha,
    (Alpha, usize),
) -> (Alpha, usize) {
    |x: Alpha, acc: (Alpha, usize)| (acc.0.add_spec(x), (acc.1 + 1) as usize)
}

/// The sum of `items` on top of `zero`, and their number, as one fold
/// computes the two together.
pub open spec fn sumlength_of<Alpha: Add<Output = Alpha>>(zero: Alpha, items: Seq<Alpha>) -> (
    Alpha,
    usize,
) {
    fold_of(sum_count_step::<Alpha>(), (zero, 0usize), items)
}

/// The sum of the items of `iter`, on top of `Alpha::default()`, and their
/// number, computed in one traversal.
pub fn sumlength<Alpha, List>(iter: List) -> (both: (Alpha, usize)) where
    Alpha: Add<Output = Alpha> + Default,
    List: Iterator<Item = Alpha>,

    requires
        iter.obeys_prophetic_iter_laws(),
        iter.decrease() is Some,
        Alpha::obeys_add_spec(),
        forall|zero: Alpha| is_default(zero) ==> sum_defined(zero, iter.remaining()),
        iter.remaining().len() <= usize::MAX,
    ensures
        exists|zero: Alpha|
            {
                &&& is_default(zero)
                &&& both == sumlength_of(zero, iter.remaining())
                &&& both.0 == sum_of(zero, iter.remaining())
            },
        both.1 == iter.remaining().len(),
{
    let ghost items = iter.remaining();
    let zero = Alpha::default();
    let step = |x: Alpha, acc: (Alpha, usize)| -> (next: (Alpha, usize))
        requires
            Alpha::obeys_add_spec(),
            acc.0.add_req(x),
            acc.1 < usize::MAX,
        ensures
            next == (acc.0.add_spec(x), (acc.1 + 1) as usize),
        { (acc.0 + x, acc.1 + 1) };
    let ghost inv = |i: int, a: (Alpha, usize)|
        {
            &&& 0 <= i <= items.len()
            &&& a == sumlength_of(zero, items.take(i))
            &&& a.0 == sum_of(zero, items.take(i))
            &&& a.1 == i
        };
    proof {
        assert(is_default(zero));
        assert(sum_defined(zero, items));
        assert(items.take(0).len() == 0);
        assert forall|i: int, a: (Alpha, usize)| 0 <= i < items.len() && #[trigger] inv(i, a)
            implies call_requires(step, (items[i], a)) by {
            assert(sum_of(zero, items.take(i)).add_req(items[i]));
        }
        assert forall|i: int, a: (Alpha, usize), next: (Alpha, usize)|
            0 <= i < items.len() && inv(i, a) && #[trigger] call_ensures(
                step,
                (items[i], a),
                next,
            ) implies inv(i + 1, next) by {
            laws::lemma_fold_of_take(add_step::<Alpha>(), zero, items, i);
            laws::lemma_fold_of_take(sum_count_step::<Alpha>(), (zero, 0usize), items, i);
        }
        laws::lemma_fold_requires(step, (zero, 0usize), items, inv);
    }
    let both = fold(step, (zero, 0usize), iter);
    proof {
        laws::lemma_folds_to(step, (zero, 0usize), items, both, inv);
        assert(items.take(items.len() as int) =~= items);
        assert(is_default(zero) && both == sumlength_of(zero, items) && both.0 == sum_of(
            zero,
            items,
        ));
    }
    both
}

} // verus!
