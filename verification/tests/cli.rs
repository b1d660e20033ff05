use forgejo_actions_orchestrator::cli::{parse, Invocation, USAGE};

fn parsed(args: &[&str]) -> Result<Invocation, String> {
    parse(args.iter().map(|a| a.to_string()).collect())
}

fn path(args: &[&str]) -> String {
    match parsed(args).unwrap() {
        Invocation::Run(path) => path,
        Invocation::Usage => panic!("expected a config path"),
    }
}

fn error(args: &[&str]) -> String {
    parsed(args).err().expect("should have failed")
}

#[test]
fn accepts_the_long_flag() {
    assert_eq!(path(&["--config", "/etc/orc.toml"]), "/etc/orc.toml");
}

#[test]
fn accepts_the_short_flag() {
    assert_eq!(path(&["-c", "/etc/orc.toml"]), "/etc/orc.toml");
}

#[test]
fn accepts_the_joined_form() {
    assert_eq!(path(&["--config=/etc/orc.toml"]), "/etc/orc.toml");
}

#[test]
fn requires_the_flag() {
    assert!(error(&[]).contains("--config is required"));
}

#[test]
fn rejects_a_flag_with_no_value() {
    assert!(error(&["--config"]).contains("needs a path"));
    assert!(error(&["-c"]).contains("needs a path"));
    assert!(error(&["--config="]).contains("needs a path"));
}

#[test]
fn rejects_a_positional_argument() {
    let error = error(&["/etc/orc.toml"]);
    assert!(error.contains("unexpected argument"), "{error}");
    assert!(error.contains(USAGE), "{error}");
}

#[test]
fn rejects_an_unknown_flag() {
    assert!(error(&["--verbose"]).contains("unexpected argument"));
}

#[test]
fn asks_for_usage() {
    assert!(matches!(parsed(&["--help"]).unwrap(), Invocation::Usage));
    assert!(matches!(parsed(&["-h"]).unwrap(), Invocation::Usage));
}

#[test]
fn the_last_flag_wins() {
    assert_eq!(path(&["-c", "a.toml", "--config", "b.toml"]), "b.toml");
}

#[test]
fn paths_may_be_named_in_every_form() {
    assert_eq!(
        path(&["-c", "a", "--config=--help", "--config", "-h", "--config=d"]),
        "d"
    );
    for wrong in [&["--config=a", "b"][..], &["-c"], &["--config="], &[]] {
        assert!(error(wrong).ends_with(USAGE));
    }
}

#[test]
fn rejects_an_empty_value() {
    assert_eq!(
        error(&["-c", ""]),
        "-c needs a path\nusage: forgejo-actions-orchestrator --config <path>"
    );
}

#[test]
fn usage_wins_over_what_follows_it() {
    assert!(matches!(
        parsed(&["-c", "a.toml", "--help", "--nonsense"]).unwrap(),
        Invocation::Usage
    ));
}
