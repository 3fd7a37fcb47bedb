use ponopush::num::parse_i32;
use ponopush::prompt::build_prompt;
use ponopush::request::{build_request_body, draft_from_outcome, message_from_response};
use ponopush::text::{contains_sub, is_blank, trim_ws};

#[test]
fn prompt_is_template_then_diff_with_no_separator() {
    assert_eq!(build_prompt("Write a commit message.\n", "diff --git a b\n"),
        "Write a commit message.\ndiff --git a b\n");
}

#[test]
fn prompt_with_empty_diff_is_template_unchanged() {
    assert_eq!(build_prompt("Template only", ""), "Template only");
}

#[test]
fn prompt_with_empty_template_is_diff() {
    assert_eq!(build_prompt("", "just the diff"), "just the diff");
}

#[test]
fn request_body_exact_text() {
    let body = build_request_body("gpt-4o", 300, "hello");
    assert_eq!(
        body,
        "{\"model\":\"gpt-4o\",\"messages\":[{\"role\":\"user\",\"content\":\"hello\"}],\"max_tokens\":300}"
    );
}

#[test]
fn request_body_escapes_the_prompt() {
    let body = build_request_body("m", 1, "a\"b\\c\nd\te\rf\u{1}g");
    assert_eq!(
        body,
        "{\"model\":\"m\",\"messages\":[{\"role\":\"user\",\"content\":\"a\\\"b\\\\c\\nd\\te\\rf\\u0001g\"}],\"max_tokens\":1}"
    );
}

#[test]
fn request_body_is_valid_json_for_serde() {
    let body = build_request_body("gpt-4o", 500, "tpl\ndiff \"quoted\"");
    let v: serde_json::Value = serde_json::from_str(&body).expect("body must be valid JSON");
    assert_eq!(v["model"].as_str(), Some("gpt-4o"));
    assert_eq!(v["max_tokens"].as_i64(), Some(500));
    assert_eq!(v["messages"][0]["role"].as_str(), Some("user"));
    assert_eq!(v["messages"][0]["content"].as_str(), Some("tpl\ndiff \"quoted\""));
}

#[test]
fn request_body_carries_negative_cap() {
    let body = build_request_body("m", -5, "p");
    assert!(body.ends_with("\"max_tokens\":-5}"));
}

#[test]
fn response_content_is_extracted() {
    let body = "{\"choices\":[{\"message\":{\"content\":\"Add parser tests\"}}]}";
    assert_eq!(message_from_response(body).as_deref(), Some("Add parser tests"));
}

#[test]
fn parsed_response_without_content_gives_placeholder() {
    assert_eq!(message_from_response("{\"choices\":[]}").as_deref(), Some("No response"));
    assert_eq!(message_from_response("{}").as_deref(), Some("No response"));
    assert_eq!(
        message_from_response("{\"choices\":[{\"message\":{}}]}").as_deref(),
        Some("No response")
    );
}

#[test]
fn unparsable_response_gives_nothing() {
    // Not JSON at all: no draft; the workflow treats this like a failed request.
    assert_eq!(message_from_response("not json at all"), None);
    assert_eq!(message_from_response("<html>502 Bad Gateway</html>"), None);
}

#[test]
fn draft_from_outcome_cases() {
    assert_eq!(draft_from_outcome(Some(Some("msg".to_string()))).as_deref(), Some("msg"));
    assert_eq!(draft_from_outcome(Some(None)).as_deref(), Some("No response"));
    assert_eq!(draft_from_outcome(None), None);
}

#[test]
fn parse_i32_cases() {
    assert_eq!(parse_i32("500"), Some(500));
    assert_eq!(parse_i32("-3"), Some(-3));
    assert_eq!(parse_i32("+7"), Some(7));
    assert_eq!(parse_i32("2147483647"), Some(2147483647));
    assert_eq!(parse_i32("-2147483648"), Some(-2147483648));
    assert_eq!(parse_i32("2147483648"), None);
    assert_eq!(parse_i32("-2147483649"), None);
    assert_eq!(parse_i32("12a"), None);
    assert_eq!(parse_i32(""), None);
    assert_eq!(parse_i32("-"), None);
    assert_eq!(parse_i32("007"), Some(7));
}

#[test]
fn blank_detection() {
    assert!(is_blank("   \n"));
    assert!(is_blank(""));
    assert!(is_blank("\t\r\n "));
    assert!(!is_blank("  x  "));
}

#[test]
fn blank_detection_covers_unicode_whitespace() {
    // The same characters str::trim treats as whitespace count as blank.
    assert!(is_blank("\u{000C}"));
    assert!(is_blank("\u{00A0}\u{2003}\u{3000}"));
    assert_eq!(is_blank("\u{00A0}x"), "\u{00A0}x".trim().is_empty());
    assert_eq!(is_blank("\u{00A0}\u{2028}"), "\u{00A0}\u{2028}".trim().is_empty());
}

#[test]
fn trimming_the_entered_token() {
    assert_eq!(trim_ws(" sk-test \n"), "sk-test");
    assert_eq!(trim_ws("sk-test"), "sk-test");
    assert_eq!(trim_ws(" \n "), "");
    assert_eq!(trim_ws("a b"), "a b");
    assert_eq!(trim_ws("\u{00A0}sk\u{00A0}"), "\u{00A0}sk\u{00A0}".trim());
}

#[test]
fn status_output_substring_search() {
    assert!(contains_sub("M .gitignore\nA src/lib.rs", ".gitignore"));
    assert!(!contains_sub("A src/lib.rs", ".gitignore"));
    assert!(contains_sub("anything", ""));
    assert!(!contains_sub("", ".gitignore"));
}
