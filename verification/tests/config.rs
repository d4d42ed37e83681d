use hookpop::config::{keepa_key_from_file, non_blank};

#[test]
fn blank_secrets_are_missing() {
    assert_eq!(non_blank(None), None);
    assert_eq!(non_blank(Some("".into())), None);
    assert_eq!(non_blank(Some(" \t\n".into())), None);
    assert_eq!(non_blank(Some(" sk-1 ".into())), Some(" sk-1 ".to_string()));
}

#[test]
fn key_file_member_is_trimmed() {
    assert_eq!(keepa_key_from_file("{\"KEEPA_API_KEY\": \"  abc123 \"}"), Some("abc123".to_string()));
    assert_eq!(keepa_key_from_file("{\"OTHER\": 1, \"KEEPA_API_KEY\": \"k\"}"), Some("k".to_string()));
}

#[test]
fn key_file_without_usable_key() {
    assert_eq!(keepa_key_from_file("{\"KEEPA_API_KEY\": \"   \"}"), None);
    assert_eq!(keepa_key_from_file("{\"KEEPA_API_KEY\": 42}"), None);
    assert_eq!(keepa_key_from_file("{}"), None);
    assert_eq!(keepa_key_from_file("[\"KEEPA_API_KEY\"]"), None);
    assert_eq!(keepa_key_from_file("not json"), None);
}
