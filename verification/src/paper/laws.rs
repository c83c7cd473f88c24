//! What holds of folds, and of the aggregates among themselves.

use super::{
    add_step, computes, count_step, decides, filters_to, fold_of, fold_requires, folds_to,
    sum_count_step, sum_of, sumlength_of,
};
use vstd::prelude::*;
use vstd::std_specs::ops::AddSpec;
use std::ops::Add;

verus! {

/// A fold is safe to run when some invariant of the accumulator, indexed by
/// the number of items folded so far, holds of the seed, makes each call
/// admissible and survives each call.
pub proof fn lemma_fold_requires<Alpha, Beta, F: Fn(Beta, Alpha) -> Alpha>(
    f: F,
    acc: Alpha,
    items: Seq<Beta>,
    inv: spec_fn(int, Alpha) -> bool,
)
    requires
        inv(0, acc),
        forall|i: int, a: Alpha|
            0 <= i < items.len() && #[trigger] inv(i, a) ==> call_requires(f, (items[i], a)),
        forall|i: int, a: Alpha, next: Alpha|
            0 <= i < items.len() && inv(i, a) && #[trigger] call_ensures(f, (items[i], a), next)
                ==> inv(i + 1, next),
    ensures
        fold_requires(f, acc, items),
    decreases items.len(),
{
    if items.len() > 0 {
        let rest = items.drop_first();
        let shifted = |i: int, a: Alpha| inv(i + 1, a);
        assert forall|next: Alpha| #[trigger]
            call_ensures(f, (items[0], acc), next) implies fold_requires(f, next, rest) by {
            assert(inv(0int + 1, next));
            assert(shifted(0, next));
            assert forall|i: int, a: Alpha| 0 <= i < rest.len() && #[trigger] shifted(i, a)
                implies call_requires(f, (rest[i], a)) by {
                assert(inv(i + 1, a));
                assert(rest[i] == items[i + 1]);
            }
            assert forall|i: int, a: Alpha, n: Alpha|
                0 <= i < rest.len() && shifted(i, a) && #[trigger] call_ensures(f, (rest[i], a), n)
                implies shifted(i + 1, n) by {
                assert(inv(i + 1, a));
                assert(rest[i] == items[i + 1]);
                assert(inv(i + 1 + 1, n));
            }
            lemma_fold_requires(f, next, rest, shifted);
        }
    }
}

/// A function that can be called on every item and accumulator can be folded
/// over every sequence, from every seed.
pub proof fn lemma_fold_requires_total<Alpha, Beta, F: Fn(Beta, Alpha) -> Alpha>(
    f: F,
    acc: Alpha,
    items: Seq<Beta>,
)
    requires
        forall|x: Beta, a: Alpha| #[trigger] call_requires(f, (x, a)),
    ensures
        fold_requires(f, acc, items),
{
    lemma_fold_requires(f, acc, items, |i: int, a: Alpha| true);
}

/// An invariant of the accumulator, indexed by the number of items folded so
/// far, that holds of the seed and survives each call holds of every result
/// of the fold.
pub proof fn lemma_folds_to<Alpha, Beta, F: Fn(Beta, Alpha) -> Alpha>(
    f: F,
    acc: Alpha,
    items: Seq<Beta>,
    out: Alpha,
    inv: spec_fn(int, Alpha) -> bool,
)
    requires
        inv(0, acc),
        forall|i: int, a: Alpha, next: Alpha|
            0 <= i < items.len() && inv(i, a) && #[trigger] call_ensures(f, (items[i], a), next)
                ==> inv(i + 1, next),
        folds_to(f, acc, items, out),
    ensures
        inv(items.len() as int, out),
    decreases items.len(),
{
    if items.len() > 0 {
        let rest = items.drop_first();
        let shifted = |i: int, a: Alpha| inv(i + 1, a);
        let next = choose|next: Alpha| #[trigger]
            call_ensures(f, (items[0], acc), next) && folds_to(f, next, rest, out);
        assert(inv(0int + 1, next));
        assert(shifted(0, next));
        assert forall|i: int, a: Alpha, n: Alpha|
            0 <= i < rest.len() && shifted(i, a) && #[trigger] call_ensures(f, (rest[i], a), n)
            implies shifted(i + 1, n) by {
            assert(inv(i + 1, a));
            assert(rest[i] == items[i + 1]);
            assert(inv(i + 1 + 1, n));
        }
        lemma_folds_to(f, next, rest, out, shifted);
        assert(shifted(rest.len() as int, out));
    }
}

/// Where `f` computes the combining function `g`, the fold of `f` has one
/// result: the fold of `g`.
pub proof fn lemma_fold_of<Alpha, Beta, F: Fn(Beta, Alpha) -> Alpha>(
    f: F,
    g: spec_fn(Beta, Alpha) -> Alpha,
    acc: Alpha,
    items: Seq<Beta>,
    out: Alpha,
)
    requires
        computes(f, g),
        folds_to(f, acc, items, out),
    ensures
        out == fold_of(g, acc, items),
    decreases items.len(),
{
    if items.len() > 0 {
        let next = choose|next: Alpha| #[trigger]
            call_ensures(f, (items[0], acc), next) && folds_to(
                f,
                next,
                items.drop_first(),
                out,
            );
        lemma_fold_of(f, g, next, items.drop_first(), out);
    }
}

/// Folding one more item at the end applies the combining function once more
/// to what the fold of the items before it gave.
pub proof fn lemma_fold_of_push<Alpha, Beta>(
    g: spec_fn(Beta, Alpha) -> Alpha,
    acc: Alpha,
    items: Seq<Beta>,
    x: Beta,
)
    ensures
        fold_of(g, acc, items.push(x)) == g(x, fold_of(g, acc, items)),
    decreases items.len(),
{
    let longer = items.push(x);
    if items.len() == 0 {
        assert(longer.drop_first().len() == 0);
        assert(fold_of(g, g(longer[0], acc), longer.drop_first()) == g(x, acc));
    } else {
        assert(longer.drop_first() =~= items.drop_first().push(x));
        lemma_fold_of_push(g, g(items[0], acc), items.drop_first(), x);
    }
}

/// Folding over the first `i + 1` items applies the combining function to
/// item `i` and the fold over the first `i` items.
pub proof fn lemma_fold_of_take<Alpha, Beta>(
    g: spec_fn(Beta, Alpha) -> Alpha,
    acc: Alpha,
    items: Seq<Beta>,
    i: int,
)
    requires
        0 <= i < items.len(),
    ensures
        fold_of(g, acc, items.take(i + 1)) == g(items[i], fold_of(g, acc, items.take(i))),
{
    assert(items.take(i + 1) =~= items.take(i).push(items[i]));
    lemma_fold_of_push(g, acc, items.take(i), items[i]);
}


/// The length of a sequence is the fold that starts from zero and adds one
/// for each item.
pub proof fn lemma_length_is_fold<Beta>(items: Seq<Beta>)
    requires
        items.len() <= usize::MAX,
    ensures
        fold_of(count_step::<Beta>(), 0usize, items) == items.len(),
    decreases items.len(),
{
    if items.len() > 0 {
        let front = items.drop_last();
        lemma_length_is_fold(front);
        assert(items =~= front.push(items.last()));
        lemma_fold_of_push(count_step::<Beta>(), 0usize, front, items.last());
    }
}

/// Reversing twice gives the sequence back.
pub proof fn lemma_reverse_involution<Alpha>(items: Seq<Alpha>)
    ensures
        items.reverse().reverse() == items,
{
    assert(items.reverse().reverse() =~= items);
}

/// The fold that adds up and counts in one traversal gives the sum and the
/// length that two traversals give.
pub proof fn lemma_sumlength_is_sum_and_length<Alpha: Add<Output = Alpha>>(
    zero: Alpha,
    items: Seq<Alpha>,
)
    requires
        items.len() <= usize::MAX,
    ensures
        sumlength_of(zero, items) == (sum_of(zero, items), items.len() as usize),
    decreases items.len(),
{
    if items.len() > 0 {
        let front = items.drop_last();
        lemma_sumlength_is_sum_and_length(zero, front);
        assert(items =~= front.push(items.last()));
        lemma_fold_of_push(sum_count_step::<Alpha>(), (zero, 0usize), front, items.last());
        lemma_fold_of_push(add_step::<Alpha>(), zero, front, items.last());
    }
}

/// Where `f` decides by the predicate `p`, a selection by `f` is the
/// filter of the items by `p`.
pub proof fn lemma_filters_to_filter<Alpha, MapF: Fn(Alpha) -> bool>(
    f: MapF,
    p: spec_fn(Alpha) -> bool,
    items: Seq<Alpha>,
    kept: Seq<Alpha>,
)
    requires
        decides(f, p),
        filters_to(f, items, kept),
    ensures
        kept == items.filter(p),
    decreases items.len(),
{
    reveal(Seq::filter);
    if items.len() == 0 {
        assert(kept =~= items.filter(p));
    } else if call_ensures(f, (items.last(),), true) && kept.len() > 0 && kept.last()
        == items.last() && filters_to(f, items.drop_last(), kept.drop_last()) {
        lemma_filters_to_filter(f, p, items.drop_last(), kept.drop_last());
        assert(kept =~= kept.drop_last().push(kept.last()));
    } else {
        lemma_filters_to_filter(f, p, items.drop_last(), kept);
    }
}

/// A sequence whose items all satisfy `p` is its own filter by `p`.
pub proof fn lemma_filter_keeps_all<Alpha>(items: Seq<Alpha>, p: spec_fn(Alpha) -> bool)
    requires
        forall|i: int| 0 <= i < items.len() ==> p(#[trigger] items[i]),
    ensures
        items.filter(p) == items,
    decreases items.len(),
{
    reveal(Seq::filter);
    if items.len() > 0 {
        lemma_filter_keeps_all(items.drop_last(), p);
        assert(items =~= items.drop_last().push(items.last()));
    }
}

/// Filtering is idempotent: where `f` decides by a predicate, filtering by
/// `f` what was filtered by `f` changes nothing.
pub proof fn lemma_filter_idempotent<Alpha, MapF: Fn(Alpha) -> bool>(
    f: MapF,
    p: spec_fn(Alpha) -> bool,
    items: Seq<Alpha>,
    once: Seq<Alpha>,
    twice: Seq<Alpha>,
)
    requires
        decides(f, p),
        filters_to(f, items, once),
        filters_to(f, once, twice),
    ensures
        twice == once,
{
    lemma_filters_to_filter(f, p, items, once);
    lemma_filters_to_filter(f, p, once, twice);
    assert forall|i: int| 0 <= i < once.len() implies p(#[trigger] once[i]) by {
        items.lemma_filter_pred(p, i);
    }
    lemma_filter_keeps_all(once, p);
}

/// Filtering keeps the order of the items: what is kept can be found in
/// `items` at indices that rise with the indices in `kept`.
pub proof fn lemma_filter_preserves_order<Alpha, MapF: Fn(Alpha) -> bool>(
    f: MapF,
    items: Seq<Alpha>,
    kept: Seq<Alpha>,
) -> (at: Seq<int>)
    requires
        filters_to(f, items, kept),
    ensures
        at.len() == kept.len(),
        forall|j: int| 0 <= j < kept.len() ==> 0 <= #[trigger] at[j] < items.len() && kept[j] == items[at[j]],
        forall|j: int, k: int| 0 <= j < k < kept.len() ==> at[j] < at[k],
    decreases items.len(),
{
    if items.len() == 0 {
        Seq::empty()
    } else if call_ensures(f, (items.last(),), true) && kept.len() > 0 && kept.last()
        == items.last() && filters_to(f, items.drop_last(), kept.drop_last()) {
        let front = lemma_filter_preserves_order(f, items.drop_last(), kept.drop_last());
        front.push(items.len() - 1)
    } else {
        lemma_filter_preserves_order(f, items.drop_last(), kept)
    }
}

} // verus!
