use forgejo_actions_orchestrator::secret::{
    credential_file_name, from_file, non_empty, source, unreadable, unset, Source,
};

#[test]
fn derives_the_credential_file_name_from_the_variable() {
    assert_eq!(
        credential_file_name("FORGEJO_RUNNER_TOKEN"),
        "forgejo-runner-token"
    );
    assert_eq!(credential_file_name("HETZNER_TOKEN"), "hetzner-token");
}

#[test]
fn rejects_an_empty_credential() {
    let error = non_empty("", "hetzner-token").unwrap_err();
    assert!(error.contains("hetzner-token is empty"), "{error}");
}

#[test]
fn keeps_a_value_that_has_content() {
    assert_eq!(non_empty("abc", "x").unwrap(), "abc");
}

#[test]
fn drops_the_newlines_a_file_ends_in() {
    assert_eq!(from_file("abc\n\n", "/x").unwrap(), "abc");
    assert_eq!(from_file("a\nb", "/x").unwrap(), "a\nb");
    assert_eq!(from_file("\n", "/x").unwrap_err(), "/x is empty");
}

#[test]
fn a_directory_that_is_named_wins_over_the_variable() {
    assert_eq!(
        source(Some("/run/c"), "VULTR_TOKEN"),
        Source::File("vultr-token".to_string())
    );
    assert_eq!(source(Some(""), "VULTR_TOKEN"), Source::Variable);
    assert_eq!(source(None, "VULTR_TOKEN"), Source::Variable);
}

#[test]
fn tells_what_is_missing() {
    assert_eq!(
        unreadable("/run/c/vultr-token", "VULTR_TOKEN"),
        "reading credential /run/c/vultr-token: is LoadCredential=vultr-token missing from the unit?"
    );
    assert_eq!(unset("VULTR_TOKEN"), "VULTR_TOKEN is not set");
}
