use rust_days::validation::{build_user, parse_port, User};

#[test]
fn accepts_bounds_and_trims() {
    assert_eq!(parse_port(" 8080 ").unwrap(), 8080);
    assert_eq!(parse_port("1024").unwrap(), 1024);
    assert_eq!(parse_port("65535").unwrap(), 65535);
}

#[test]
fn rejects_empty_and_range() {
    assert!(parse_port("").unwrap_err().contains("empty"));
    assert!(parse_port("   ").unwrap_err().contains("empty"));
    assert!(parse_port("1022").unwrap_err().contains("1024"));
    assert!(parse_port("1023").unwrap_err().contains("1024"));
}

#[test]
fn build_user_ok() {
    assert_eq!(
        build_user("  Ada ", 42).unwrap(),
        User {
            name: "Ada".to_string(),
            age: 42,
        }
    );
    assert_eq!(build_user("x", 0).unwrap().age, 0);
    assert_eq!(build_user("x", 130).unwrap().age, 130);
}

#[test]
fn build_user_rejects_name_and_age() {
    assert!(build_user("", 20).unwrap_err().contains("name"));
    assert!(build_user("   ", 20).unwrap_err().contains("name"));
    assert!(build_user("a", -1).unwrap_err().contains("age"));
    assert!(build_user("a", 131).unwrap_err().contains("age"));
}

#[test]
fn exercise_d_unwrap_or() {
    assert_eq!(parse_port("").unwrap_or(4444), 4444);
    assert_eq!(parse_port("8080").unwrap_or(4444), 8080);
}

#[test]
fn exercise_d_unwrap_or_else() {
    let n = parse_port("not-a-number").unwrap_or_else(|_| 5555);
    assert_eq!(n, 5555);
}

#[test]
fn exercise_d_or_else_fallback() {
    let r = parse_port("1023").or_else(|_| parse_port("9000"));
    assert_eq!(r.unwrap(), 9000);
}

#[test]
fn exact_port_messages() {
    assert_eq!(parse_port("").unwrap_err(), "port must not be empty");
    assert_eq!(
        parse_port("80").unwrap_err(),
        "port must be between 1024 and 65535 (inclusive), got 80"
    );
    assert_eq!(
        parse_port(" 65536 ").unwrap_err(),
        "invalid port \"65536\": number too large to fit in target type"
    );
    assert_eq!(
        parse_port("oops").unwrap_err(),
        "invalid port \"oops\": invalid digit found in string"
    );
    assert_eq!(
        build_user("a", -5).unwrap_err(),
        "age must be between 0 and 130 (inclusive), got -5"
    );
    assert_eq!(build_user(" ", 5).unwrap_err(), "name must not be empty");
}
