use rust_days::options::{
    bonus_points, describe, label_or_else, non_empty_len, simulate_expensive_default, square_chain,
};

#[test]
fn bonus_points_by_tier() {
    assert_eq!(bonus_points(None), 0);
    assert_eq!(bonus_points(Some("Gold")), 100);
    assert_eq!(bonus_points(Some("Silver")), 50);
    assert_eq!(bonus_points(Some("Bronze")), 0);
    assert_eq!(bonus_points(Some("gold")), 0);
}

#[test]
fn describe_and_lengths() {
    assert_eq!(describe(None), "none");
    assert_eq!(describe(Some(42)), "some: 42");
    assert_eq!(describe(Some(-7)), "some: -7");
    assert_eq!(describe(Some(i32::MIN)), "some: -2147483648");
    assert_eq!(non_empty_len(None), None);
    assert_eq!(non_empty_len(Some(String::new())), None);
    assert_eq!(non_empty_len(Some("hi".to_string())), Some(2));
    assert_eq!(non_empty_len(Some("é".to_string())), Some(2));
}

#[test]
fn square_chain_steps() {
    assert_eq!(square_chain(None), None);
    assert_eq!(square_chain(Some(4)), Some(17));
    assert_eq!(square_chain(Some(10)), Some(101));
    assert_eq!(square_chain(Some(-10)), Some(101));
    assert_eq!(square_chain(Some(12)), None);
}

#[test]
fn expensive_default_counts_calls() {
    let mut calls: u64 = 0;
    assert_eq!(simulate_expensive_default(&mut calls), 99);
    assert_eq!(simulate_expensive_default(&mut calls), 99);
    assert_eq!(calls, 2);
    // `unwrap_or` evaluates its argument even for `Some`; `unwrap_or_else` does not.
    let mut eager: u64 = 0;
    let _ = Some(1i64).unwrap_or(simulate_expensive_default(&mut eager));
    assert_eq!(eager, 1);
    let mut lazy: u64 = 0;
    let _ = Some(1i64).unwrap_or_else(|| simulate_expensive_default(&mut lazy));
    assert_eq!(lazy, 0);
    let mut top = u64::MAX;
    simulate_expensive_default(&mut top);
    assert_eq!(top, 0);
}

#[test]
fn label_falls_back_in_order() {
    let s = |x: &str| Some(x.to_string());
    assert_eq!(label_or_else(s("given"), s("u"), s("n")), "given");
    assert_eq!(label_or_else(None, s("u"), s("n")), "u");
    assert_eq!(label_or_else(None, None, s("n")), "n");
    assert_eq!(label_or_else(None, None, None), "guest");
}
