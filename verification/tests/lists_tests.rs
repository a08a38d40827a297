use rust_days::collections::{max, sum, third_item, word_counts};
use rust_days::iterators::{count_exceeding, parse_ints, positive_even_tripled, product};

fn count_of(counts: &[(String, usize)], w: &str) -> Option<usize> {
    counts.iter().find(|(k, _)| k == w).map(|(_, c)| *c)
}

#[test]
fn slices_sum_max_third() {
    let numbers = vec![7, 2, 10, 4];
    assert_eq!(sum(&numbers), 23);
    assert_eq!(sum(&[]), 0);
    assert_eq!(max(&numbers), Some(10));
    assert_eq!(max(&[]), None);
    assert_eq!(max(&[-3, -1, -2]), Some(-1));
    let words = vec![String::from("rust"), String::from("is"), String::from("fun")];
    assert_eq!(third_item(&words), Some(&String::from("fun")));
    assert_eq!(third_item(&words[..2]), None);
}

#[test]
fn word_counts_over_slices() {
    let input_words = vec!["rust", "is", "fun", "rust", "rust", "fun"];
    let counts = word_counts(&input_words);
    assert_eq!(counts.len(), 3);
    assert_eq!(count_of(&counts, "rust"), Some(3));
    assert_eq!(count_of(&counts, "is"), Some(1));
    assert_eq!(count_of(&counts, "fun"), Some(2));
    assert!(word_counts(&[]).is_empty());
}

#[test]
fn iterator_exercises() {
    assert_eq!(
        positive_even_tripled(vec![-4, 0, 2, 3, 4, 5, 6, 7, 8]),
        vec![6, 12, 18, 24]
    );
    assert_eq!(rust_days::iterators::sum(&[1, 2, 3, 4]), 10);
    assert_eq!(product(&[1, 2, 3, 4]), 24);
    assert_eq!(product(&[]), 1);
    assert_eq!(parse_ints(vec!["10", "x", "-7", "42", "3.14"]), vec![10, -7, 42]);
    assert_eq!(parse_ints(vec![" 1"]), Vec::<i32>::new());
    assert_eq!(count_exceeding(&[1, 6, 3, 8, 5, 12], 5), 3);
    assert_eq!(count_exceeding(&[], 0), 0);
}

#[test]
fn folds_over_concatenations() {
    let a = [3, -4, 5];
    let b = [2, 7];
    let ab = [a.as_slice(), b.as_slice()].concat();
    assert_eq!(sum(&ab), sum(&a) + sum(&b));
    assert_eq!(sum(&[]), 0);
    assert_eq!(product(&ab), product(&a) * product(&b));
    assert_eq!(product(&[]), 1);
    assert_eq!(product(&[1, 2, 3, 4]), 24);
}

#[test]
fn decimal_texts_parse_back() {
    let v = vec![0, -7, 42, i32::MIN, i32::MAX];
    let texts: Vec<String> = v.iter().map(|n| n.to_string()).collect();
    let refs: Vec<&str> = texts.iter().map(String::as_str).collect();
    assert_eq!(parse_ints(refs), v);
    assert_eq!(parse_ints(vec!["10", "x", "-7", "42", "3.14"]), vec![10, -7, 42]);
}

#[test]
fn count_falls_as_threshold_rises() {
    let readings = [1, 6, 3, 8, 5, 12];
    assert_eq!(count_exceeding(&readings, 5), 3);
    let mut last = usize::MAX;
    for t in -1..14 {
        let n = count_exceeding(&readings, t);
        assert!(n <= last);
        last = n;
    }
}
