use rust_days::word_freq::{
    frequency_report, normalize, parse_args, render_top, top_n, word_counts, DEFAULT_TOP_N, STOP_WORDS,
};

fn args(v: &[&str]) -> Vec<String> {
    v.iter().map(|s| s.to_string()).collect()
}

#[test]
fn normalize_lowercases_and_blanks_punctuation() {
    assert_eq!(normalize("Hello, World!"), "hello  world ");
    assert_eq!(normalize("A;b:C?"), "a b c ");
    assert_eq!(normalize(""), "");
}

#[test]
fn counts_skip_stop_words_and_rank() {
    let counts = word_counts("The cat and the hat. A cat!", &STOP_WORDS);
    let top = top_n(&counts, 10);
    assert_eq!(top, vec![("cat".to_string(), 2), ("hat".to_string(), 1)]);
    let counts = word_counts("b a c b a b", &[]);
    assert_eq!(
        top_n(&counts, 2),
        vec![("b".to_string(), 3), ("a".to_string(), 2)]
    );
    assert_eq!(top_n(&counts, 0), vec![]);
    let tied = word_counts("z y x", &[]);
    assert_eq!(
        top_n(&tied, 5),
        vec![("x".to_string(), 1), ("y".to_string(), 1), ("z".to_string(), 1)]
    );
}

#[test]
fn parse_args_reads_flags() {
    let cfg = parse_args(&args(&["prog"])).ok().expect("ok");
    assert_eq!(cfg.input, None);
    assert_eq!(cfg.top_n, DEFAULT_TOP_N);
    assert!(!cfg.as_json && !cfg.bench);
    let cfg = parse_args(&args(&["prog", "file.txt", "--top", "3", "--json", "--bench"]))
        .ok()
        .expect("ok");
    assert_eq!(cfg.input.as_deref(), Some("file.txt"));
    assert_eq!(cfg.top_n, 3);
    assert!(cfg.as_json && cfg.bench);
    let cfg = parse_args(&args(&["prog", "-"])).ok().expect("ok");
    assert_eq!(cfg.input.as_deref(), Some("-"));
}

#[test]
fn parse_args_errors() {
    assert_eq!(
        parse_args(&args(&["prog", "--top"])).err(),
        Some("missing value for --top".to_string())
    );
    assert_eq!(
        parse_args(&args(&["prog", "--top", "x"])).err(),
        Some("--top must be a positive number".to_string())
    );
    assert_eq!(
        parse_args(&args(&["prog", "--nope"])).err(),
        Some("unknown flag: --nope".to_string())
    );
    assert_eq!(
        parse_args(&args(&["prog", "a", "b"])).err(),
        Some("only one input source is supported (FILE or -)".to_string())
    );
}

#[test]
fn render_top_as_text_and_json() {
    let top = vec![("cat".to_string(), 2), ("hat".to_string(), 1)];
    assert_eq!(render_top(&top, false), "2\tcat\n1\that\n");
    assert_eq!(render_top(&vec![], false), "");
    let json = render_top(&top, true);
    assert_eq!(render_top(&vec![], true), "[]");
    let expected = "[\n  [\n    \"cat\",\n    2\n  ],\n  [\n    \"hat\",\n    1\n  ]\n]";
    assert_eq!(json, expected);
    let parsed: Vec<(String, usize)> = serde_json::from_str(&json).expect("valid json");
    assert_eq!(parsed, top);
}

#[test]
fn frequency_report_for_texts() {
    assert_eq!(frequency_report("   \n", 10, false), None);
    assert_eq!(frequency_report("the a of", 10, false), None);
    assert_eq!(
        frequency_report("  The cat and the hat. A cat!\n", 10, false),
        Some("2\tcat\n1\that\n".to_string())
    );
    assert_eq!(frequency_report("b a b", 1, false), Some("2\tb\n".to_string()));
    assert_eq!(
        frequency_report("b a b", 1, true),
        Some("[\n  [\n    \"b\",\n    2\n  ]\n]".to_string())
    );
}
