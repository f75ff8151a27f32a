use llamasay::message::{build_prompt, clean_message, endpoint_url};

#[test]
fn clean_message_trims_whitespace_and_quotes() {
    assert_eq!(clean_message("  \"hello\"  "), "hello");
    assert_eq!(clean_message("plain"), "plain");
    assert_eq!(clean_message("\t spaced out \n"), "spaced out");
}

#[test]
fn clean_message_trims_whitespace_inside_quotes() {
    assert_eq!(clean_message(" \" padded \" "), "padded");
}

#[test]
fn clean_message_strips_one_quote_layer() {
    assert_eq!(clean_message("\"hi\""), "hi");
    assert_eq!(clean_message("\"\"hi\"\""), "\"hi\"");
}

#[test]
fn clean_message_keeps_inner_quotes() {
    assert_eq!(clean_message("  \"say \"hi\" now\"  "), "say \"hi\" now");
}

#[test]
fn clean_message_empty_results() {
    assert_eq!(clean_message(""), "");
    assert_eq!(clean_message(" \"\" "), "");
}

#[test]
fn build_prompt_prepends_instruction() {
    assert_eq!(
        build_prompt("hi"),
        "Answer concisely in 2-3 sentences with a touch of humor. \
         Plain text only, no formatting or quotes., Answer the following\n hi"
    );
}

#[test]
fn endpoint_url_appends_generate_path() {
    assert_eq!(
        endpoint_url("http://localhost:11434"),
        "http://localhost:11434/api/generate"
    );
}
