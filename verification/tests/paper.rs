use fuh_rs::paper;
use fuh_rs::paper::identity::One;

#[test]
fn fold_counts_the_items() {
    let count = paper::fold(|_, acc| 1 + acc, 0, 0..10);
    assert_eq!(count, 10);
}

#[test]
fn fold_of_nothing_is_the_seed() {
    let none: Vec<u8> = Vec::new();
    let out = paper::fold(|x: u8, acc: u32| acc * 2 + x as u32, 41, none.into_iter());
    assert_eq!(out, 41);
}

#[test]
fn fold_goes_left_to_right() {
    let digits = paper::fold(|x: u32, acc: u32| acc * 10 + x, 0, vec![1, 2, 3].into_iter());
    assert_eq!(digits, 123);
    let seen = paper::fold(
        |x: char, mut acc: String| {
            acc.push(x);
            acc
        },
        String::new(),
        "abc".chars(),
    );
    assert_eq!(seen, "abc");
}

#[test]
fn sum_of_one_to_ten() {
    let sum: i32 = paper::sum(1..=10);
    assert_eq!(sum, 1 + 2 + 3 + 4 + 5 + 6 + 7 + 8 + 9 + 10);
    assert_eq!(sum, 55);
}

#[test]
fn sum_of_nothing_is_the_default() {
    let none: Vec<i64> = Vec::new();
    assert_eq!(paper::sum(none.into_iter()), 0i64);
}

#[test]
fn product_of_one_to_ten() {
    let product: i32 = paper::product(1..=10);
    assert_eq!(product, 1 * 2 * 3 * 4 * 5 * 6 * 7 * 8 * 9 * 10);
    assert_eq!(product, 3628800);
    assert_ne!(product, 0);
}

#[test]
fn product_of_nothing_is_one() {
    let none: Vec<u64> = Vec::new();
    assert_eq!(paper::product(none.into_iter()), 1u64);
}

#[test]
fn product_with_a_zero_is_zero() {
    assert_eq!(paper::product(vec![3u8, 0, 5].into_iter()), 0u8);
}

#[test]
fn one_is_one_for_every_integer_type() {
    assert_eq!(<u8 as One>::one(), 1u8);
    assert_eq!(<u16 as One>::one(), 1u16);
    assert_eq!(<u32 as One>::one(), 1u32);
    assert_eq!(<u64 as One>::one(), 1u64);
    assert_eq!(<u128 as One>::one(), 1u128);
    assert_eq!(<usize as One>::one(), 1usize);
    assert_eq!(<i8 as One>::one(), 1i8);
    assert_eq!(<i16 as One>::one(), 1i16);
    assert_eq!(<i32 as One>::one(), 1i32);
    assert_eq!(<i64 as One>::one(), 1i64);
    assert_eq!(<i128 as One>::one(), 1i128);
    assert_eq!(<isize as One>::one(), 1isize);
}

#[test]
fn and_of_odd_tests() {
    let and = paper::and([1, 3, 5, 7, 9].iter().map(|x| x % 2 == 1));
    assert_eq!(and, true);
}

#[test]
fn and_is_true_iff_all_are_true() {
    let none: Vec<bool> = Vec::new();
    assert_eq!(paper::and(none.into_iter()), true);
    assert_eq!(paper::and(vec![true].into_iter()), true);
    assert_eq!(paper::and(vec![false].into_iter()), false);
    assert_eq!(paper::and(vec![true, true, true].into_iter()), true);
    assert_eq!(paper::and(vec![true, false, true].into_iter()), false);
    assert_eq!(paper::and(vec![false, true, true].into_iter()), false);
    assert_eq!(paper::and(vec![true, true, false].into_iter()), false);
}

#[test]
fn or_of_even_tests() {
    let or = paper::or([1, 3, 5, 7, 9].iter().map(|x| x % 2 != 1));
    assert_eq!(or, false);
}

#[test]
fn or_is_true_iff_one_is_true() {
    let none: Vec<bool> = Vec::new();
    assert_eq!(paper::or(none.into_iter()), false);
    assert_eq!(paper::or(vec![true].into_iter()), true);
    assert_eq!(paper::or(vec![false].into_iter()), false);
    assert_eq!(paper::or(vec![false, false, false].into_iter()), false);
    assert_eq!(paper::or(vec![false, false, true].into_iter()), true);
    assert_eq!(paper::or(vec![true, false, false].into_iter()), true);
}

#[test]
fn and_or_traverse_everything() {
    let mut seen = 0;
    let all = paper::and(
        vec![false, true, true]
            .into_iter()
            .inspect(|_| seen += 1),
    );
    assert_eq!(all, false);
    assert_eq!(seen, 3);
    let mut seen = 0;
    let any = paper::or(
        vec![true, false, false, false]
            .into_iter()
            .inspect(|_| seen += 1),
    );
    assert_eq!(any, true);
    assert_eq!(seen, 4);
}

#[test]
fn length_of_a_range() {
    let length = paper::length(0..10);
    assert_eq!(length, 10);
    assert_eq!(paper::length(0..0), 0);
    assert_eq!(paper::length("héllo".chars()), 5);
}

#[test]
fn length_is_the_counting_fold() {
    for n in 0..20usize {
        let items: Vec<usize> = (0..n).collect();
        let counted = paper::fold(|_, acc: usize| acc + 1, 0, items.clone().into_iter());
        assert_eq!(paper::length(items.into_iter()), counted);
        assert_eq!(counted, n);
    }
}

#[test]
fn reverse_of_a_range() {
    let reverse = paper::reverse(0..10);
    assert_eq!(reverse, vec![9, 8, 7, 6, 5, 4, 3, 2, 1, 0]);
    let none: Vec<u8> = Vec::new();
    assert_eq!(paper::reverse(none.clone().into_iter()), none);
    assert_eq!(paper::reverse(vec!['a'].into_iter()), vec!['a']);
}

#[test]
fn reverse_twice_is_the_sequence() {
    let items = vec![3, 1, 4, 1, 5, 9, 2, 6];
    let twice = paper::reverse(paper::reverse(items.clone().into_iter()).into_iter());
    assert_eq!(twice, items);
}

#[test]
fn map_to_floats() {
    let mapped = paper::map(|x| x as f32, 0..3);
    assert_eq!(vec![0.0f32, 1.0f32, 2.0f32], mapped);
}

#[test]
fn map_keeps_length_and_order() {
    let items = vec![5u32, 3, 8, 1];
    let mapped = paper::map(|x: u32| x * x + 1, items.clone().into_iter());
    assert_eq!(mapped.len(), items.len());
    for i in 0..items.len() {
        assert_eq!(mapped[i], items[i] * items[i] + 1);
    }
    assert_eq!(mapped, vec![26, 10, 65, 2]);
    let none: Vec<u32> = Vec::new();
    assert_eq!(paper::map(|x: u32| x + 1, none.into_iter()), Vec::<u32>::new());
}

#[test]
fn filter_the_even() {
    let filtered = paper::filter(|x| x % 2 == 0, 0..10);
    assert_eq!(filtered, vec![0, 2, 4, 6, 8]);
}

#[test]
fn filter_keeps_order_and_values() {
    let items = vec![9, 4, 7, 4, 2, 8, 1];
    assert_eq!(
        paper::filter(|x: i32| x > 3, items.clone().into_iter()),
        vec![9, 4, 7, 4, 8]
    );
    assert_eq!(
        paper::filter(|_: i32| false, items.clone().into_iter()),
        Vec::<i32>::new()
    );
    assert_eq!(paper::filter(|_: i32| true, items.clone().into_iter()), items);
}

#[test]
fn filter_is_idempotent() {
    let items = vec![9, 4, 7, 4, 2, 8, 1];
    let once = paper::filter(|x: i32| x % 2 == 0, items.into_iter());
    let twice = paper::filter(|x: i32| x % 2 == 0, once.clone().into_iter());
    assert_eq!(twice, once);
    assert_eq!(once, vec![4, 4, 2, 8]);
}

#[test]
fn sumlength_of_a_range() {
    let sumlength = paper::sumlength(0..10);
    assert_eq!(sumlength, (45, 10));
    let none: Vec<i32> = Vec::new();
    assert_eq!(paper::sumlength(none.into_iter()), (0, 0));
}

#[test]
fn sumlength_is_sum_and_length() {
    let items = vec![12i64, -7, 0, 100, 3];
    let both = paper::sumlength(items.clone().into_iter());
    let sum: i64 = paper::sum(items.clone().into_iter());
    let length = paper::length(items.into_iter());
    assert_eq!(both, (sum, length));
    assert_eq!(both, (108, 5));
}
