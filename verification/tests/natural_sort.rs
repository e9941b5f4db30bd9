use std::cmp::Ordering;

use nae::natural_sort::NaturalSort;

#[test]
fn test_natural_sort_1() {
    let mut vec = vec!["10", "9", "8", "7", "5", "1", "2", "3", "4", "6"];
    let expected = vec!["1", "2", "3", "4", "5", "6", "7", "8", "9", "10"];
    NaturalSort::natural_sort(&mut vec);
    assert_eq!(vec, expected);
}

#[test]
fn test_natural_sort_2() {
    let mut vec = vec![
        "a100a", "a100", "a", "a10", "a2", "a200", "a20", "a1", "a100a10", "a100a1",
    ];
    let expected = vec![
        "a", "a1", "a2", "a10", "a20", "a100", "a100a", "a100a1", "a100a10", "a200",
    ];
    NaturalSort::natural_sort(&mut vec);
    assert_eq!(vec, expected);
}

#[test]
fn test_strcmp_natural() {
    assert_eq!(NaturalSort::strcmp_natural("1", "2"), Ordering::Less);
    assert_eq!(NaturalSort::strcmp_natural("2", "2"), Ordering::Equal);
    assert_eq!(NaturalSort::strcmp_natural("3", "2"), Ordering::Greater);
}

#[test]
fn test_strcmp_natural_equal() {
    let a = "a100";
    let b = "a100";

    let result = NaturalSort::strcmp_natural(a, b);
    assert!(result == Ordering::Equal);
}

#[test]
fn test_strcmp_natural_equal_alpha() {
    let a = "aaa";
    let b = "aaa";

    let result = NaturalSort::strcmp_natural(a, b);
    assert!(result == Ordering::Equal);
}

#[test]
fn test_strcmp_natural_greater_1() {
    let a = "a100";
    let b = "a10";

    let result = NaturalSort::strcmp_natural(a, b);
    assert!(result == Ordering::Greater);
}

#[test]
fn test_strcmp_natural_greater_2() {
    let a = "a10b";
    let b = "a10a";

    let result = NaturalSort::strcmp_natural(a, b);
    assert!(result == Ordering::Greater);
}

#[test]
fn test_strcmp_natural_greater_3() {
    let a = "a10a100";
    let b = "a10a10";

    let result = NaturalSort::strcmp_natural(a, b);
    assert!(result == Ordering::Greater);
}

#[test]
fn test_strcmp_natural_greater_4() {
    let a = "a200";
    let b = "a100a";

    let result = NaturalSort::strcmp_natural(a, b);
    assert!(result == Ordering::Greater);
}

#[test]
fn test_strcmp_natural_less_1() {
    let a = "a10";
    let b = "a100";

    let result = NaturalSort::strcmp_natural(a, b);
    assert!(result == Ordering::Less);
}

#[test]
fn test_strcmp_natural_less_2() {
    let a = "a10a";
    let b = "a10b";

    let result = NaturalSort::strcmp_natural(a, b);
    assert!(result == Ordering::Less);
}

#[test]
fn test_strcmp_natural_less_3() {
    let a = "a10a100";
    let b = "a10b10";

    let result = NaturalSort::strcmp_natural(a, b);
    assert!(result == Ordering::Less);
}

#[test]
fn test_strcmp_natural_less_4() {
    let a = "a100a";
    let b = "a200";

    let result = NaturalSort::strcmp_natural(a, b);
    assert!(result == Ordering::Less);
}

#[test]
fn test_strcmp_natural_greater_alpha_1() {
    let a = "baa";
    let b = "aaa";

    let result = NaturalSort::strcmp_natural(a, b);
    assert!(result == Ordering::Greater);
}

#[test]
fn test_strcmp_natural_greater_alpha_2() {
    let a = "aba";
    let b = "aaa";

    let result = NaturalSort::strcmp_natural(a, b);
    assert!(result == Ordering::Greater);
}

#[test]
fn test_strcmp_natural_greater_alpha_3() {
    let a = "aab";
    let b = "aaa";

    let result = NaturalSort::strcmp_natural(a, b);
    assert!(result == Ordering::Greater);
}

#[test]
fn test_strcmp_natural_less_alpha_1() {
    let a = "aaa";
    let b = "baa";

    let result = NaturalSort::strcmp_natural(a, b);
    assert!(result == Ordering::Less);
}

#[test]
fn test_strcmp_natural_less_alpha_2() {
    let a = "aaa";
    let b = "aba";

    let result = NaturalSort::strcmp_natural(a, b);
    assert!(result == Ordering::Less);
}

#[test]
fn test_strcmp_natural_less_alpha_3() {
    let a = "aaa";
    let b = "aab";

    let result = NaturalSort::strcmp_natural(a, b);
    assert!(result == Ordering::Less);
}

#[test]
fn test_strcmp_natural_greater_number_1() {
    let a = "100b";
    let b = "100a";

    let result = NaturalSort::strcmp_natural(a, b);
    assert!(result == Ordering::Greater);
}

#[test]
fn test_strcmp_natural_less_number_1() {
    let a = "100a";
    let b = "100b";

    let result = NaturalSort::strcmp_natural(a, b);
    assert!(result == Ordering::Less);
}

#[test]
fn test_strcmp_natural_leading_zeros_equal() {
    assert_eq!(NaturalSort::strcmp_natural("007", "7"), Ordering::Equal);
    assert_eq!(NaturalSort::strcmp_natural("010", "10"), Ordering::Equal);
}

#[test]
fn test_strcmp_natural_reflexive_mixed() {
    for s in ["", "abc", "a10b20", "0", "???", "ファイル12"] {
        assert_eq!(NaturalSort::strcmp_natural(s, s), Ordering::Equal);
    }
}

#[test]
fn test_strcmp_natural_empty_and_shorter() {
    assert_eq!(NaturalSort::strcmp_natural("", ""), Ordering::Equal);
    assert_eq!(NaturalSort::strcmp_natural("", "a"), Ordering::Less);
    assert_eq!(NaturalSort::strcmp_natural("ab", "a"), Ordering::Greater);
}

#[test]
fn test_natural_sort_empty_and_single() {
    let mut empty: Vec<&str> = vec![];
    NaturalSort::natural_sort(&mut empty);
    assert_eq!(empty, Vec::<&str>::new());

    let mut one = vec!["x"];
    NaturalSort::natural_sort(&mut one);
    assert_eq!(one, vec!["x"]);
}

#[test]
fn test_natural_sort_equal_keys() {
    let mut vec = vec!["07", "7", "007"];
    NaturalSort::natural_sort(&mut vec);
    // the three keys compare equal, so any order is acceptable; the multiset
    // must be unchanged
    let mut copy = vec.clone();
    copy.sort();
    assert_eq!(copy, vec!["007", "07", "7"]);
}

#[test]
fn test_strcmp_natural_big_digit_runs() {
    // digit runs wider than any native integer must still compare by value
    let a = "f340282366920938463463374607431768211456"; // 39 digits
    let b = "f999999999999999999999999999999999999999"; // 39 nines
    assert_eq!(NaturalSort::strcmp_natural(a, b), Ordering::Less);
    assert_eq!(NaturalSort::strcmp_natural(b, a), Ordering::Greater);
    let c = "f99999999999999999999999999999999999999"; // 38 nines
    assert_eq!(NaturalSort::strcmp_natural(a, c), Ordering::Greater);
}
