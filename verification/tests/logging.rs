use winassoc::logging::{log_lines, needs_rotation, tail_lines, MAX_LOG_BYTES};

#[test]
fn rotation_above_one_mebibyte() {
    assert_eq!(MAX_LOG_BYTES, 1024 * 1024);
    assert!(!needs_rotation(1024 * 1024));
    assert!(needs_rotation(1024 * 1024 + 1));
}

#[test]
fn lines_split_like_str_lines() {
    for text in ["", "a", "a\n", "a\r\nb", "a\n\nb\n", "x\ry", "end\r", "\n", "a\r\n\r\n"] {
        let expected: Vec<String> = text.lines().map(|l| l.to_string()).collect();
        assert_eq!(log_lines(text), expected, "text {text:?}");
    }
}

#[test]
fn tail_keeps_the_last_lines() {
    let text = "1\n2\n3\n4\n";
    assert_eq!(tail_lines(text, 2), vec!["3", "4"]);
    assert_eq!(tail_lines(text, 10), vec!["1", "2", "3", "4"]);
    assert!(tail_lines(text, 0).is_empty());
    assert!(tail_lines("", 3).is_empty());
}
