use datatex::log_parser::parse_log;

#[test]
fn test_parse_log_error_with_line_marker() {
    let log = "\
This is pdfTeX\n\
! Undefined control sequence.\n\
<recently read> \\foo\n\
l.42 \\foo\n\
more text\n";
    let entries = parse_log(log);
    assert_eq!(entries.len(), 1);
    assert_eq!(entries[0].kind, "error");
    assert_eq!(entries[0].message, b"Undefined control sequence.".to_vec());
    assert_eq!(entries[0].line, 42);
    assert!(entries[0].file.is_none());
}

#[test]
fn test_parse_log_error_without_line_marker() {
    let log = "! Emergency stop.\nno marker here\n";
    let entries = parse_log(log);
    assert_eq!(entries.len(), 1);
    assert_eq!(entries[0].kind, "error");
    assert_eq!(entries[0].message, b"Emergency stop.".to_vec());
    assert_eq!(entries[0].line, 0);
}

#[test]
fn test_parse_log_error_marker_beyond_window_is_missed() {
    // The marker is sought only on the next few lines.
    let mut log = String::from("! Too far.\n");
    for _ in 0..10 {
        log.push_str("filler\n");
    }
    log.push_str("l.7\n");
    let entries = parse_log(&log);
    assert_eq!(entries.len(), 1);
    assert_eq!(entries[0].line, 0);
}

#[test]
fn test_parse_log_latex_warning() {
    let log = "LaTeX Warning: Reference `fig:one' undefined on input line 12.\n";
    let entries = parse_log(log);
    assert_eq!(entries.len(), 1);
    assert_eq!(entries[0].kind, "warning");
    assert_eq!(entries[0].message, b"Reference `fig:one' undefined".to_vec());
    assert_eq!(entries[0].line, 12);
}

#[test]
fn test_parse_log_package_warning_with_continuation() {
    let log = "\
Package hyperref Warning: Token not allowed\n\
(hyperref) in a PDF string on input line 33.\n\
unrelated\n";
    let entries = parse_log(log);
    assert_eq!(entries.len(), 1);
    assert_eq!(entries[0].kind, "warning");
    assert_eq!(
        entries[0].message,
        b"hyperref: Token not allowed (hyperref) in a PDF string on input line 33.".to_vec()
    );
    assert_eq!(entries[0].line, 33);
}

#[test]
fn test_parse_log_class_warning_same_line_number() {
    let log = "Class article Warning: Some notice on input line 5.\n";
    let entries = parse_log(log);
    assert_eq!(entries.len(), 1);
    assert_eq!(entries[0].kind, "warning");
    assert_eq!(entries[0].message, b"article: Some notice on input line 5.".to_vec());
    assert_eq!(entries[0].line, 5);
}

#[test]
fn test_parse_log_mixed_and_ordered() {
    let log = "\
! Missing $ inserted.\n\
l.3 x_\n\
LaTeX Warning: Citation `a' undefined on input line 9.\n\
plain line\n";
    let entries = parse_log(log);
    assert_eq!(entries.len(), 2);
    assert_eq!(entries[0].kind, "error");
    assert_eq!(entries[0].line, 3);
    assert_eq!(entries[1].kind, "warning");
    assert_eq!(entries[1].line, 9);
}

#[test]
fn test_parse_log_ignores_plain_text() {
    let log = "This is XeTeX\nOutput written on main.pdf (3 pages).\n";
    assert!(parse_log(log).is_empty());
    assert!(parse_log("").is_empty());
}

#[test]
fn test_parse_log_bang_needs_following_space() {
    // A bare `!` or one glued to text opens no error report.
    let log = "!\n!boom\n";
    assert!(parse_log(log).is_empty());
}
