use meowmic::logfile::{file_prefix, log_line, rotation_due, trimmed_lines};

#[test]
fn log_line_format() {
    assert_eq!(log_line("2026-01-01 00:00:00.000", "hi"), "[2026-01-01 00:00:00.000] hi\n");
}

#[test]
fn new_files_start_with_a_byte_order_mark() {
    assert_eq!(file_prefix(true), vec![0xEF, 0xBB, 0xBF]);
    assert_eq!(file_prefix(false), Vec::<u8>::new());
}

#[test]
fn rotation_after_two_thousand_lines() {
    assert!(!rotation_due(2000));
    assert!(rotation_due(2001));
}

#[test]
fn trimming_keeps_the_most_recent_lines() {
    let lines: Vec<String> = (1..=5).map(|i| format!("line {}", i)).collect();
    assert_eq!(trimmed_lines(&lines, 5, 2), None);
    assert_eq!(trimmed_lines(&lines, 3, 2), Some(vec!["line 4".to_string(), "line 5".to_string()]));
    assert_eq!(trimmed_lines(&lines, 3, 10), Some(lines.clone()));
}
