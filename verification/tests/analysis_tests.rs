use rust_days::word_report::{analyze_text, format_result, AnalysisResult};
use rust_days::word_stats::normalize_text;

#[test]
fn analyze_table_driven_cases() {
    let cases = vec![
        ("Hello, hello!", 2, 1),
        ("Rust; rust: RUST", 3, 1),
        ("", 0, 0),
        ("a b c a", 4, 3),
    ];

    for (input, total, unique) in cases {
        let result = analyze_text(input);
        assert_eq!(result.total_words, total);
        assert_eq!(result.unique_words, unique);
    }
}

#[test]
fn analyze_property_style_randomish_inputs_respect_bounds() {
    const PUNCTUATION: &str = ".,!?;:";
    let mut seed: u64 = 0xC0FFEE;

    for _ in 0..150 {
        let mut input = String::new();
        for _ in 0..120 {
            seed = seed.wrapping_mul(1103515245).wrapping_add(12345);
            let bucket = (seed % 12) as u8;
            let ch = match bucket {
                0..=4 => (b'A' + ((seed >> 8) % 26) as u8) as char,
                5..=8 => (b'a' + ((seed >> 16) % 26) as u8) as char,
                9 => ' ',
                10 => '\n',
                _ => {
                    let idx = ((seed >> 24) as usize) % PUNCTUATION.len();
                    PUNCTUATION.as_bytes()[idx] as char
                }
            };
            input.push(ch);
        }

        let result = analyze_text(&input);
        assert!(result.unique_words <= result.total_words);
        assert!(result.total_words <= input.len());
    }
}

#[test]
fn normalize_table_driven_cases() {
    let cases = vec![
        ("Rust; rust: RUST", "rust  rust  rust"),
        ("Hello, hello!", "hello  hello "),
        ("", ""),
        ("MiXeD CaSe", "mixed case"),
    ];

    for (input, expected) in cases {
        assert_eq!(normalize_text(input), expected);
    }
}

#[test]
fn normalize_property_style_randomish_inputs_remove_target_punctuation() {
    const PUNCTUATION: &str = ".,!?;:";
    let mut seed: u64 = 0xA11CE5EED;

    for _ in 0..200 {
        let mut input = String::new();
        for _ in 0..80 {
            seed = seed.wrapping_mul(6364136223846793005).wrapping_add(1);
            let bucket = (seed % 10) as u8;
            let ch = match bucket {
                0..=2 => (b'A' + ((seed >> 8) % 26) as u8) as char,
                3..=5 => (b'a' + ((seed >> 16) % 26) as u8) as char,
                6 => ' ',
                7 => '\t',
                _ => {
                    let idx = ((seed >> 24) as usize) % PUNCTUATION.len();
                    PUNCTUATION.as_bytes()[idx] as char
                }
            };
            input.push(ch);
        }

        let normalized = normalize_text(&input);
        assert!(!normalized.chars().any(|c| PUNCTUATION.contains(c)));
        assert_eq!(normalized, normalized.to_lowercase());
    }
}

#[test]
fn public_api_returns_expected_counts_for_case_and_punctuation() {
    let result = analyze_text("Rust; rust: RUST");
    assert_eq!(result.total_words, 3);
    assert_eq!(result.unique_words, 1);
}

#[test]
fn analyze_counts_words() {
    let result = analyze_text("one two three");
    assert_eq!(result.total_words, 3);
    assert_eq!(result.unique_words, 3);
}

#[test]
fn analyze_treats_same_word_after_normalize_as_one() {
    let result = analyze_text("Hello, hello");
    assert_eq!(result.total_words, 2);
    assert_eq!(result.unique_words, 1);
}

#[test]
fn normalize_basic() {
    assert_eq!(normalize_text("A,B"), "a b");
    assert_eq!(normalize_text("Hello!"), "hello ");
}

#[test]
fn format_result_basic() {
    let result = AnalysisResult {
        total_words: 5,
        unique_words: 2,
    };
    assert_eq!(format_result(&result), "Total words: 5\nUnique words: 2");
}

#[test]
fn analyze_text_public_api() {
    let result = analyze_text("Hello, hello world");
    assert_eq!(result.total_words, 3);
    assert_eq!(result.unique_words, 2);
}

#[test]
fn format_result_public_api() {
    let result = analyze_text("a b a");
    let output = format_result(&result);
    assert_eq!(output, "Total words: 3\nUnique words: 2");
}
