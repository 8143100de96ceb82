use age_inbox_cli::disposition::parse_content_disposition_filename;
use age_inbox_cli::startup::{build_method, password_source, PasswordSource, PASSWORD_VARIABLE};
use age_inbox_cli::status::status_is_success;
use age_inbox_cli::text::{chars_of, split_chars, trim_char_chars, trim_space_chars};

fn string_from_chars(chars: &[char]) -> String {
    chars.iter().collect()
}

#[test]
fn disposition_example_from_docs() {
    assert_eq!(
        parse_content_disposition_filename("attachment; filename=\"report.pdf\""),
        Some("report.pdf".to_string())
    );
}

#[test]
fn disposition_without_filename() {
    assert_eq!(parse_content_disposition_filename("attachment"), None);
    assert_eq!(parse_content_disposition_filename(""), None);
    assert_eq!(parse_content_disposition_filename("inline; name=\"x\""), None);
}

#[test]
fn disposition_key_is_case_insensitive_and_trimmed() {
    assert_eq!(
        parse_content_disposition_filename("attachment;   FileName=notes.txt  "),
        Some("notes.txt".to_string())
    );
    assert_eq!(
        parse_content_disposition_filename("FILENAME=\"A.B\""),
        Some("A.B".to_string())
    );
}

#[test]
fn disposition_empty_value_is_skipped() {
    assert_eq!(
        parse_content_disposition_filename("attachment; filename=\"\"; filename=second.bin"),
        Some("second.bin".to_string())
    );
    assert_eq!(parse_content_disposition_filename("attachment; filename="), None);
}

#[test]
fn disposition_first_named_piece_wins() {
    assert_eq!(
        parse_content_disposition_filename("filename=one; filename=two"),
        Some("one".to_string())
    );
}

#[test]
fn disposition_quotes_are_all_trimmed_and_semicolon_splits() {
    assert_eq!(
        parse_content_disposition_filename("attachment; filename=\"\"x\"\""),
        Some("x".to_string())
    );
    assert_eq!(
        parse_content_disposition_filename("attachment; filename=\"a;b\""),
        Some("a".to_string())
    );
}

#[test]
fn disposition_non_ascii_lookalike_key_is_not_a_key() {
    // U+0130 lower-cases to "i" followed by a combining dot, so this is no `filename=`.
    assert_eq!(parse_content_disposition_filename("f\u{130}lename=x"), None);
}

#[test]
fn trimming_and_splitting() {
    let v = chars_of("\u{3000} a b \t");
    assert_eq!(string_from_chars(&trim_space_chars(&v)), "a b");
    let q = chars_of("\"\"q\"");
    assert_eq!(string_from_chars(&trim_char_chars(&q, '"')), "q");
    let pieces = split_chars(&chars_of(";a;;b"), ';');
    let texts: Vec<String> = pieces.iter().map(|p| string_from_chars(p)).collect();
    assert_eq!(texts, vec!["", "a", "", "b"]);
    assert_eq!(split_chars(&chars_of(""), ';').len(), 1);
}

#[test]
fn build_method_names_profile() {
    assert_eq!(build_method(true), "debug profile");
    assert_eq!(build_method(false), "release profile");
}

#[test]
fn password_from_environment_wins_over_prompt() {
    assert_eq!(PASSWORD_VARIABLE, "AGE_INBOX_PASSWORD");
    match password_source(Some("super-secret".to_string())) {
        PasswordSource::Environment(p) => assert_eq!(p, "super-secret"),
        PasswordSource::Prompt => panic!("expected the environment password"),
    }
    assert!(matches!(password_source(None), PasswordSource::Prompt));
}

#[test]
fn success_statuses() {
    assert!(status_is_success(200));
    assert!(status_is_success(204));
    assert!(status_is_success(299));
    assert!(!status_is_success(199));
    assert!(!status_is_success(300));
    assert!(!status_is_success(404));
}
