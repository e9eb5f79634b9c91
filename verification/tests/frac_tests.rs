use hayate::frac::{lex_less, FracIndex};

#[test]
fn open_ends() {
    let a = FracIndex::between(None, None);
    let b = FracIndex::after(Some(&a));
    let c = FracIndex::before(Some(&a));
    assert!(c < a, "{c:?} < {a:?}");
    assert!(a < b, "{a:?} < {b:?}");
}

#[test]
fn strictly_between() {
    let lo = FracIndex(vec![128]);
    let hi = FracIndex(vec![129]);
    let m = FracIndex::between(Some(&lo), Some(&hi));
    assert!(lo < m && m < hi, "lo={lo:?} m={m:?} hi={hi:?}");
}

#[test]
fn repeated_subdivision_stays_ordered() {
    // Inserting 100 times between the same two points must not break ordering.
    let mut lo = FracIndex::between(None, None);
    let hi = FracIndex::after(Some(&lo));
    let mut prev = lo.clone();
    for _ in 0..100 {
        let m = FracIndex::between(Some(&lo), Some(&hi));
        assert!(lo < m && m < hi, "lo={lo:?} m={m:?} hi={hi:?}");
        assert!(m > prev || prev == lo, "monotonic shrink toward lo");
        prev = m.clone();
        lo = m;
    }
}

#[test]
fn sequence_of_appends_is_increasing() {
    let mut keys = Vec::new();
    let mut last: Option<FracIndex> = None;
    for _ in 0..50 {
        let k = FracIndex::after(last.as_ref());
        if let Some(p) = &last {
            assert!(p < &k);
        }
        last = Some(k.clone());
        keys.push(k);
    }
    let mut sorted = keys.clone();
    sorted.sort();
    assert_eq!(keys, sorted, "append order matches sorted order");
}

#[test]
fn between_open_ends_is_one_half() {
    assert_eq!(FracIndex::between(None, None), FracIndex(vec![128]));
    assert_eq!(FracIndex::after(Some(&FracIndex(vec![128]))), FracIndex(vec![192]));
    assert_eq!(FracIndex::before(Some(&FracIndex(vec![128]))), FracIndex(vec![64]));
}

#[test]
fn between_adjacent_digits_descends() {
    // 128 and 129 are adjacent: take 128, then the midpoint of the open upper half.
    let m = FracIndex::between(Some(&FracIndex(vec![128])), Some(&FracIndex(vec![129])));
    assert_eq!(m, FracIndex(vec![128, 128]));
    // A lower bound ending in 255 carries past it.
    let m = FracIndex::between(Some(&FracIndex(vec![255])), None);
    assert_eq!(m, FracIndex(vec![255, 128]));
}

#[test]
fn between_prefix_lower_bound() {
    // lo = [] (0.0) below hi = [0, 1]: descend through the shared zero digit.
    let m = FracIndex::between(None, Some(&FracIndex(vec![0, 1])));
    assert_eq!(m, FracIndex(vec![0, 0, 128]));
    assert!(m < FracIndex(vec![0, 1]));
}

#[test]
fn lex_less_matches_vec_order() {
    assert!(lex_less(&vec![1, 2], &vec![1, 3]));
    assert!(lex_less(&vec![1], &vec![1, 0]));
    assert!(!lex_less(&vec![1, 0], &vec![1]));
    assert!(!lex_less(&vec![5], &vec![5]));
}
