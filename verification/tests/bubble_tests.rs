use llamasay::bubble::format_bubble;
use llamasay::wrap::wrap_text;

#[test]
fn format_bubble_aligns_all_lines() {
    let text = "This longer bit of text should wrap across multiple lines \
                    and still be aligned inside the bubble.";
    let bubble = format_bubble(text);
    let wrapped = wrap_text(text, 60);
    let wrapped_lines: Vec<&str> = wrapped.lines().collect();
    let bubble_lines: Vec<&str> = bubble.lines().collect();
    let max_width = wrapped_lines.iter().map(|l| l.len()).max().unwrap_or(0);

    assert_eq!(bubble_lines.len(), wrapped_lines.len() + 2);
    assert_eq!(
        bubble_lines.first().unwrap(),
        &format!(" {}", "_".repeat(max_width + 2))
    );
    assert_eq!(
        bubble_lines.last().unwrap(),
        &format!(" {}", "-".repeat(max_width + 2))
    );

    for (idx, wrapped_line) in wrapped_lines.iter().enumerate() {
        let body_line = bubble_lines[idx + 1];
        assert_eq!(
            body_line,
            format!("/ {:<width$} \\", wrapped_line, width = max_width)
        );
    }
}

#[test]
fn format_bubble_renders_hi() {
    assert_eq!(format_bubble("hi"), " ____\n/ hi \\\n ----");
}

#[test]
fn format_bubble_body_lines_have_exact_width() {
    let text = "one two three four five six seven eight nine ten eleven twelve thirteen";
    let bubble = format_bubble(text);
    let lines: Vec<&str> = bubble.lines().collect();
    let max_width = lines[0].len() - 3;
    for (idx, line) in lines.iter().enumerate() {
        if idx == 0 || idx == lines.len() - 1 {
            assert_eq!(line.len(), max_width + 3);
        } else {
            assert_eq!(line.len(), max_width + 4);
        }
    }
}

#[test]
fn format_bubble_collapses_on_empty_text() {
    assert_eq!(format_bubble(""), " __\n --");
    assert_eq!(format_bubble(" \t \n "), " __\n --");
}
