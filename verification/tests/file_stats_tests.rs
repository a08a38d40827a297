use rust_days::file_stats::{
    count_lines, count_words, parse_first_line_i32, run_report, select_input, AppError,
};

#[test]
fn count_lines_empty_branch() {
    assert_eq!(count_lines("").unwrap_err(), AppError::EmptyFile);
}

#[test]
fn count_words_whitespace_branch() {
    assert_eq!(count_words("   \n\t ").unwrap_err(), AppError::WhitespaceOnly);
}

#[test]
fn parse_first_line_missing_branch() {
    assert_eq!(parse_first_line_i32("").unwrap_err(), AppError::NoFirstLine);
}

#[test]
fn parse_first_line_invalid_branch() {
    assert_eq!(
        parse_first_line_i32("abc\n2").unwrap_err(),
        AppError::InvalidFirstLine("abc".to_string())
    );
}

#[test]
fn run_with_args_usage_branch() {
    let args: Vec<String> = vec![];
    assert!(matches!(select_input(&args).err(), Some(AppError::Usage(_))));
}

#[test]
fn strict_mode_returns_error() {
    let args = vec![
        "input.txt".to_string(),
        "--strict-first-line-int".to_string(),
    ];
    let plan = select_input(&args).ok().expect("a path was given");
    assert!(plan.strict);
    assert_eq!(plan.path, "input.txt");
    let report = run_report("not-an-int\nhello world", plan.strict);
    assert_eq!(report.lines, vec!["Lines: 2".to_string(), "Words: 3".to_string()]);
    assert!(matches!(report.outcome, Err(AppError::InvalidFirstLine(_))));
}

#[test]
fn counts_and_first_line() {
    assert_eq!(count_lines("a\nb").unwrap(), 2);
    assert_eq!(count_lines("a\nb\n").unwrap(), 2);
    assert_eq!(count_lines("\n\n").unwrap(), 2);
    assert_eq!(count_lines("x\r\ny").unwrap(), 2);
    assert_eq!(count_words(" one two\nthree ").unwrap(), 3);
    assert_eq!(parse_first_line_i32(" 42 \r\nrest").unwrap(), 42);
    assert_eq!(
        parse_first_line_i32("x\r\n").unwrap_err(),
        AppError::InvalidFirstLine("x".to_string())
    );
    let report = run_report("7\nseven words here", false);
    assert_eq!(report.lines, vec!["Lines: 2", "Words: 4", "First line as i32: 7"]);
    assert_eq!(report.outcome, Ok(()));
    let lax = run_report("no\nnumber", false);
    assert_eq!(
        lax.lines,
        vec!["Lines: 2", "Words: 2", "First line parse skipped: First line is not a valid i32: 'no'"]
    );
    assert_eq!(lax.outcome, Ok(()));
    let empty = run_report("", true);
    assert!(empty.lines.is_empty());
    assert_eq!(empty.outcome, Err(AppError::EmptyFile));
    let blank = run_report(" \n", true);
    assert!(blank.lines.is_empty());
    assert_eq!(blank.outcome, Err(AppError::WhitespaceOnly));
}

#[test]
fn error_messages() {
    assert_eq!(AppError::EmptyFile.message(), "File is empty");
    assert_eq!(AppError::WhitespaceOnly.message(), "File contains only whitespace");
    assert_eq!(AppError::NoFirstLine.message(), "No first line found");
    assert_eq!(
        AppError::InvalidFirstLine("abc".to_string()).message(),
        "First line is not a valid i32: 'abc'"
    );
    assert_eq!(AppError::Io("boom".to_string()).message(), "boom");
    let args = vec!["--strict-first-line-int".to_string()];
    assert_eq!(
        select_input(&args).err(),
        Some(AppError::Usage(
            "Usage: cargo run -- <file_path> [--strict-first-line-int]".to_string()
        ))
    );
    let args = vec!["a".to_string(), "b".to_string()];
    let plan = select_input(&args).ok().expect("path");
    assert_eq!(plan.path, "a");
    assert!(!plan.strict);
}
