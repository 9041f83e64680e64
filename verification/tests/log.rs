use dsh_desktop::log::{clamp_tail_lines, read_log_tail, MAX_TAIL_LINES};

#[test]
fn read_log_tail_returns_last_lines() {
    let content = Some("line1\nline2\nline3\nline4\n");
    assert_eq!(read_log_tail(content, 2), "line3\nline4");
    assert_eq!(read_log_tail(content, 0), "");
    assert_eq!(read_log_tail(content, 100), "line1\nline2\nline3\nline4");

    // empty file / missing file
    assert_eq!(read_log_tail(None, 5), "");
    assert_eq!(read_log_tail(Some(""), 5), "");
}

#[test]
fn read_log_tail_follows_line_endings() {
    assert_eq!(read_log_tail(Some("a\r\nb\r\n"), 5), "a\nb");
    assert_eq!(read_log_tail(Some("a\n\nb"), 2), "\nb");
    assert_eq!(read_log_tail(Some("\n"), 3), "");
    assert_eq!(read_log_tail(Some("a\rb\r"), 1), "a\rb\r");
    assert_eq!(read_log_tail(Some("x\n\n"), 1), "");
    assert_eq!(read_log_tail(Some("日志\n第二行"), 1), "第二行");
}

#[test]
fn tail_request_is_capped() {
    assert_eq!(clamp_tail_lines(10), 10);
    assert_eq!(clamp_tail_lines(5000), 5000);
    assert_eq!(clamp_tail_lines(usize::MAX), MAX_TAIL_LINES);
}
