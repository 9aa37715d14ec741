use hashrename::sorter::{natural_cmp, sort_names};
use std::cmp::Ordering;

fn sorted<'a>(names: &[&'a str]) -> Vec<&'a str> {
    let mut v: Vec<&str> = names.to_vec();
    sort_names(&mut v);
    v
}

#[test]
fn numeric_order() {
    assert_eq!(
        sorted(&["10.jpg", "2.jpg", "1.jpg", "20.jpg"]),
        vec!["1.jpg", "2.jpg", "10.jpg", "20.jpg"]
    );
    assert_eq!(
        sorted(&["IMG_10.jpg", "IMG_2.jpg", "IMG_1.jpg"]),
        vec!["IMG_1.jpg", "IMG_2.jpg", "IMG_10.jpg"]
    );
    assert_eq!(
        sorted(&["100.jpg", "10.jpg", "1.jpg"]),
        vec!["1.jpg", "10.jpg", "100.jpg"]
    );
}

#[test]
fn leading_zeros() {
    assert_eq!(
        sorted(&["002.jpg", "2.jpg", "1.jpg", "03.jpg", "003.jpg"]),
        vec!["1.jpg", "2.jpg", "002.jpg", "03.jpg", "003.jpg"]
    );
}

#[test]
fn case_insensitive_text() {
    assert_eq!(
        sorted(&["BANANA.jpg", "apple.jpg", "Apple.jpg"]),
        vec!["Apple.jpg", "apple.jpg", "BANANA.jpg"]
    );
}

#[test]
fn unicode_and_emoji() {
    assert_eq!(
        sorted(&["文件10.txt", "文件2.txt", "文件1.txt"]),
        vec!["文件1.txt", "文件2.txt", "文件10.txt"]
    );
    let mut v = vec!["🍎2.jpg", "🍎1.jpg"];
    sort_names(&mut v);
    assert_eq!(v, vec!["🍎1.jpg", "🍎2.jpg"]);
}

#[test]
fn mixed_text_and_numbers() {
    assert_eq!(
        sorted(&["a10b", "a2b", "a1b", "ab", "a2a"]),
        vec!["a1b", "a2a", "a2b", "a10b", "ab"]
    );
}

#[test]
fn spaces_and_special() {
    assert_eq!(
        sorted(&["file 10.jpg", "file 2.jpg", "file.jpg"]),
        vec!["file 2.jpg", "file 10.jpg", "file.jpg"]
    );
}

#[test]
fn total_order_deterministic() {
    let names = vec!["a.jpg", "A.jpg", "1.jpg", "01.jpg", "á.jpg", "z", "Z"];
    let r1 = sorted(&names);
    let r2 = sorted(&names);
    assert_eq!(r1, r2);
}

#[test]
fn big_numbers_no_overflow() {
    let big = "1".repeat(100);
    let bigger = "2".repeat(100);
    let mut v = vec![bigger.as_str(), big.as_str()];
    sort_names(&mut v);
    assert_eq!(v, vec![big.as_str(), bigger.as_str()]);
}

#[test]
fn natural_cmp_is_reflexive_and_antisymmetric() {
    let names = ["a.jpg", "A.jpg", "1.jpg", "01.jpg", "á.jpg", "z", "Z", "file 2", "file 10"];
    for a in names.iter() {
        assert_eq!(natural_cmp(a, a), Ordering::Equal);
        for b in names.iter() {
            assert_eq!(natural_cmp(a, b), natural_cmp(b, a).reverse());
            if natural_cmp(a, b) == Ordering::Equal {
                assert_eq!(a, b);
            }
        }
    }
}

#[test]
fn natural_cmp_is_transitive_on_samples() {
    let names = ["x1", "x01", "X1", "x2", "x10", "x", "y", "1", "001", "a b"];
    for a in names.iter() {
        for b in names.iter() {
            for c in names.iter() {
                if natural_cmp(a, b) != Ordering::Greater && natural_cmp(b, c) != Ordering::Greater {
                    assert_ne!(natural_cmp(a, c), Ordering::Greater);
                }
            }
        }
    }
}

#[test]
fn numbers_compare_by_value_then_zeros() {
    assert_eq!(natural_cmp("9", "10"), Ordering::Less);
    assert_eq!(natural_cmp("2", "02"), Ordering::Less);
    assert_eq!(natural_cmp("abc", "ABD"), Ordering::Less);
    assert_eq!(natural_cmp("B", "b"), Ordering::Less);
}
