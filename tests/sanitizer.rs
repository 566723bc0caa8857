use sentrylogmon::sanitizer::{is_sensitive_key, is_sensitive_lowered, sanitize_command};

#[test]
fn test_sanitize_command() {
    let cases = vec![
        (
            vec!["curl", "-u", "user:password", "http://example.com"],
            "curl -u user:password http://example.com",
        ),
        (
            vec!["myapp", "--password", "secret123"],
            "myapp --password [REDACTED]",
        ),
        (vec!["myapp", "--token=secret123"], "myapp --token=[REDACTED]"),
        (
            vec!["myapp", "--api-key", "abcdef"],
            "myapp --api-key [REDACTED]",
        ),
        (vec!["db", "--db_password=secure"], "db --db_password=[REDACTED]"),
        (
            vec!["service", "--aws_secret_access_key=XYZ"],
            "service --aws_secret_access_key=[REDACTED]",
        ),
        (vec!["ssh", "-p", "2222"], "ssh -p 2222"),
    ];

    for (input, expected) in cases {
        let input_vec: Vec<String> = input.iter().map(|s| s.to_string()).collect();
        assert_eq!(sanitize_command(&input_vec), expected, "Failed on input: {:?}", input);
    }
}

fn args(v: &[&str]) -> Vec<String> {
    v.iter().map(|s| s.to_string()).collect()
}

#[test]
fn redacts_password_value_that_follows() {
    assert_eq!(
        sanitize_command(&args(&["app", "--password", "secret123"])),
        "app --password [REDACTED]"
    );
}

#[test]
fn redacts_token_given_with_equals() {
    assert_eq!(sanitize_command(&args(&["app", "--token=abc"])), "app --token=[REDACTED]");
}

#[test]
fn empty_command_gives_empty_text() {
    assert_eq!(sanitize_command(&args(&[])), "");
}

#[test]
fn sensitive_flag_as_last_argument_is_kept() {
    assert_eq!(sanitize_command(&args(&["app", "--secret"])), "app --secret");
}

#[test]
fn key_check_ignores_case() {
    assert!(is_sensitive_key("PASSWORD"));
    assert!(is_sensitive_key("Db_Password"));
    assert!(is_sensitive_key("AUTH"));
    assert!(!is_sensitive_key("USER"));
    assert!(!is_sensitive_lowered("PASSWORD"));
    assert!(is_sensitive_lowered("password"));
}

#[test]
fn upper_case_key_with_equals_is_redacted() {
    assert_eq!(
        sanitize_command(&args(&["app", "--API_KEY=zzz"])),
        "app --API_KEY=[REDACTED]"
    );
}

#[test]
fn listed_flag_with_equals_is_redacted() {
    assert_eq!(
        sanitize_command(&args(&["app", "--apikey=zzz", "-p=1"])),
        "app --apikey=[REDACTED] -p=[REDACTED]"
    );
}
