use llamasay::wrap::wrap_text;

#[test]
fn wrap_text_respects_max_width() {
    let text = "This is a sample message that should wrap nicely";
    let wrapped = wrap_text(text, 10);
    let lines: Vec<&str> = wrapped.lines().collect();

    assert_eq!(
        lines,
        vec![
            "This is a",
            "sample",
            "message",
            "that",
            "should",
            "wrap",
            "nicely"
        ]
    );

    assert!(lines.iter().all(|line| line.len() <= 10));
}

#[test]
fn wrap_text_empty_input_gives_no_lines() {
    assert_eq!(wrap_text("", 10), "");
    assert_eq!(wrap_text("   \t\n  ", 10), "");
}

#[test]
fn wrap_text_keeps_overlong_word_whole() {
    let wrapped = wrap_text("tiny incomprehensibilities end", 7);
    let lines: Vec<&str> = wrapped.lines().collect();
    assert_eq!(lines, vec!["tiny", "incomprehensibilities", "end"]);
}

#[test]
fn wrap_text_normalizes_short_text_to_one_line() {
    assert_eq!(wrap_text("hello there", 60), "hello there");
    assert_eq!(wrap_text("  hello \t there \n", 60), "hello there");
}

#[test]
fn wrap_text_exact_fit_boundary() {
    // "ab cd" is exactly five characters: it stays on one line at width 5
    // and splits at width 4.
    assert_eq!(wrap_text("ab cd", 5), "ab cd");
    assert_eq!(wrap_text("ab cd", 4), "ab\ncd");
}
