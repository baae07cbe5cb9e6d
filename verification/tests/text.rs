use mesc::text::bytes_contain;
use mesc::text::bytes_order;
use mesc::text::str_contains;
use mesc::text::str_equal;
use mesc::text::str_order;
use mesc::Order;
use std::cmp::Ordering;

fn as_order(o: Ordering) -> Order {
    match o {
        Ordering::Less => Order::Less,
        Ordering::Equal => Order::Equal,
        Ordering::Greater => Order::Greater,
    }
}

#[test]
fn the_order_of_texts_is_that_of_str() {
    let samples = ["", "a", "ab", "abc", "abd", "b", "B", "alpha", "beta", "gamma", "é", "z", "日本", "a\u{10FFFF}"];
    for a in samples {
        for b in samples {
            assert_eq!(str_order(a, b), as_order(a.cmp(b)), "{:?} {:?}", a, b);
            assert_eq!(str_equal(a, b), a == b);
        }
    }
}

#[test]
fn a_prefix_comes_first() {
    assert_eq!(str_order("main", "mainnet"), Order::Less);
    assert_eq!(str_order("mainnet", "main"), Order::Greater);
    assert_eq!(str_order("", ""), Order::Equal);
    assert_eq!(bytes_order(&[1, 2], &[1, 2, 0]), Order::Less);
    assert_eq!(bytes_order(&[2], &[1, 255]), Order::Greater);
}

#[test]
fn substrings_are_found_as_str_finds_them() {
    let hays = ["", "a", "alpha", "beta", "gamma", "https://node.example/v1", "aaa", "日本語"];
    let needles = ["", "a", "al", "ha", "mm", "x", "example", "aaaa", "本", "//"];
    for hay in hays {
        for needle in needles {
            assert_eq!(str_contains(hay, needle), hay.contains(needle), "{:?} {:?}", hay, needle);
        }
    }
}

#[test]
fn the_empty_text_is_in_every_text() {
    assert!(str_contains("", ""));
    assert!(str_contains("abc", ""));
    assert!(!str_contains("", "a"));
    assert!(bytes_contain(&[1, 2, 3], &[2, 3]));
    assert!(!bytes_contain(&[1, 2, 3], &[3, 2]));
    assert!(bytes_contain(&[1, 2, 3], &[1, 2, 3]));
    assert!(!bytes_contain(&[1, 2, 3], &[1, 2, 3, 4]));
}
