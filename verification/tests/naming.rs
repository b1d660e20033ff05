use forgejo_actions_orchestrator::naming::{
    is_hostname_label, machine_name, serves, split, truncated_handle, DEFAULT_PREFIX, HANDLE_LEN,
};

fn labels(names: &[&str]) -> Vec<String> {
    names.iter().map(|name| name.to_string()).collect()
}

#[test]
fn a_name_belongs_to_the_prefix_that_made_it() {
    let name = machine_name("ci-hloth", "build-vultr", "abcdef01-2345");
    assert_eq!(
        split("ci-hloth", &name, &labels(&["build-vultr"])),
        Some(("build-vultr", "abcdef01-2345"))
    );
    assert_eq!(
        split("ci-og", &name, &labels(&["build-vultr"])),
        None,
        "another orchestrator sharing the cloud account must not claim it"
    );
}

#[test]
fn never_ends_a_name_with_a_hyphen() {
    let uuid = "9baa37c2-8d04-4025-86d7-fa1b2c3d4e5f";
    assert_eq!(truncated_handle(uuid), "9baa37c2-8d04-4025-86d7");
    let name = machine_name(DEFAULT_PREFIX, "hetzner-verify", uuid);
    assert!(
        !name.ends_with('-'),
        "RFC 1123 forbids a trailing hyphen: {name}"
    );
    assert_eq!(
        split(DEFAULT_PREFIX, &name, &labels(&["hetzner-verify"])),
        Some(("hetzner-verify", "9baa37c2-8d04-4025-86d7"))
    );
}

#[test]
fn round_trips_a_simple_label() {
    let name = machine_name(DEFAULT_PREFIX, "check", "H1");
    assert_eq!(
        split(DEFAULT_PREFIX, &name, &labels(&["check"])),
        Some(("check", "h1"))
    );
}

#[test]
fn round_trips_a_label_containing_hyphens() {
    let name = machine_name(DEFAULT_PREFIX, "release-builder-1-cherry", "abc");
    assert_eq!(
        split(DEFAULT_PREFIX, &name, &labels(&["release-builder-1-cherry"])),
        Some(("release-builder-1-cherry", "abc"))
    );
}

#[test]
fn prefers_the_longest_matching_label() {
    let name = machine_name(DEFAULT_PREFIX, "check-big", "H");
    assert_eq!(
        split(DEFAULT_PREFIX, &name, &labels(&["check", "check-big"])),
        Some(("check-big", "h"))
    );
}

#[test]
fn ignores_names_that_are_not_ours() {
    assert_eq!(
        split(DEFAULT_PREFIX, "someone-elses-server", &labels(&["check"])),
        None
    );
    assert_eq!(
        split(DEFAULT_PREFIX, "ci-orc-other-H", &labels(&["check"])),
        None
    );
}

#[test]
fn strips_characters_a_hostname_cannot_carry() {
    assert_eq!(truncated_handle("A_b/c:d"), "abcd");
}

#[test]
fn truncates_a_long_handle_deterministically() {
    let handle = "a".repeat(100);
    assert_eq!(truncated_handle(&handle).len(), HANDLE_LEN);
    assert_eq!(truncated_handle(&handle), truncated_handle(&handle));
}

#[test]
fn a_truncated_handle_is_not_truncated_further() {
    let handle = truncated_handle("9baa37c2-8d04-4025-86d7-fa1b2c3d4e5f");
    assert_eq!(truncated_handle(&handle), handle);
}

#[test]
fn a_handle_of_nothing_a_hostname_carries_is_empty() {
    assert_eq!(truncated_handle("__::"), "");
    assert_eq!(truncated_handle("---"), "");
}

#[test]
fn a_name_serves_the_handle_it_ends_in() {
    let name = machine_name(DEFAULT_PREFIX, "old-label", "abc");
    assert!(serves(&name, "abc"));
    assert!(!serves(&name, "bc"));
    assert!(!serves("abc", "abc"));
}

#[test]
fn tells_hostname_labels() {
    for good in ["a", "1", "ci-orc", "4c8g"] {
        assert!(is_hostname_label(good), "{good}");
    }
    for bad in ["", "-a", "a-", "A", "a_b", "ä"] {
        assert!(!is_hostname_label(bad), "{bad}");
    }
}
