use forgejo_actions_orchestrator::config::{
    default_machine_prefix, default_poll_interval, default_reconcile_grace, Config, Daemon,
    Forgejo, Grant, Host, Labels, PerProvider, Provider, Repo, Spec,
};
use forgejo_actions_orchestrator::config::Class;
use forgejo_actions_orchestrator::policy::{admits, resolve, Denial, JobRequest};
use forgejo_actions_orchestrator::table::Table;

fn texts(items: &[&str]) -> Vec<String> {
    items.iter().map(|item| item.to_string()).collect()
}

fn host(locations: &[&str]) -> Host {
    Host {
        locations: texts(locations),
        ssh_key: None,
    }
}

fn ids(pairs: &[(Provider, &str)]) -> PerProvider<String> {
    let mut ids = PerProvider::new();
    for (kind, id) in pairs {
        ids.insert(*kind, id.to_string());
    }
    ids
}

fn ladders(pairs: &[(Provider, &[&str])]) -> PerProvider<Vec<String>> {
    let mut ladders = PerProvider::new();
    for (kind, plans) in pairs {
        ladders.insert(*kind, texts(plans));
    }
    ladders
}

fn grant(pairs: &[(Provider, usize)]) -> Grant {
    let mut max_vms = PerProvider::new();
    for (kind, max) in pairs {
        max_vms.insert(*kind, *max);
    }
    Grant { max_vms }
}

fn sets(sets: &[&[&str]]) -> Labels {
    Labels::Many(sets.iter().map(|set| texts(set)).collect())
}

/// What a valid configuration reads as.
fn draft() -> Config {
    let mut providers = PerProvider::new();
    providers.insert(Provider::Hetzner, host(&["fsn1", "nbg1"]));
    providers.insert(Provider::Cherry, host(&["LT-Siauliai"]));
    let mut images = Table::new();
    images.insert("toolchain".to_string(), ids(&[(Provider::Hetzner, "snapshot-1")]));
    images.insert(
        "debian".to_string(),
        ids(&[
            (Provider::Hetzner, "debian-12"),
            (Provider::Cherry, "debian_12_64bit"),
        ]),
    );
    let mut plans = Table::new();
    plans.insert(
        "4c8g".to_string(),
        ladders(&[(Provider::Hetzner, &["cx43", "cx53"])]),
    );
    plans.insert(
        "8c16g".to_string(),
        ladders(&[
            (Provider::Hetzner, &["cx53"]),
            (Provider::Cherry, &["e5_1620v4"]),
        ]),
    );
    let mut grants = Table::new();
    grants.insert(
        "acme/widgets".to_string(),
        grant(&[(Provider::Hetzner, 2), (Provider::Cherry, 1)]),
    );
    grants.insert("acme/gadgets".to_string(), grant(&[(Provider::Hetzner, 1)]));
    Config {
        forgejo: Forgejo {
            url: "https://git.example.org".to_string(),
        },
        daemon: Daemon {
            poll_interval_secs: default_poll_interval(),
            reconcile_grace_secs: default_reconcile_grace(),
            runner_version: "12.13.2".to_string(),
            runner_sha256_amd64: "deadbeef".to_string(),
            runner_sha256_arm64: "cafebabe".to_string(),
            machine_prefix: default_machine_prefix(),
        },
        providers,
        images,
        plans,
        machines: vec![
            Spec {
                labels: Labels::One(texts(&["check", "hetzner"])),
                image: "toolchain".to_string(),
                plans: "4c8g".to_string(),
                lifetime_minutes: 90,
                job_timeout_minutes: 70,
                allowed_events: texts(&["pull_request"]),
                allow_fork_pull_request: true,
            },
            Spec {
                labels: sets(&[&["build", "hetzner"], &["build", "cherry"]]),
                image: "debian".to_string(),
                plans: "8c16g".to_string(),
                lifetime_minutes: 60,
                job_timeout_minutes: 45,
                allowed_events: texts(&["push"]),
                allow_fork_pull_request: false,
            },
            Spec {
                labels: Labels::One(texts(&["hetzner"])),
                image: "debian".to_string(),
                plans: "4c8g".to_string(),
                lifetime_minutes: 30,
                job_timeout_minutes: 20,
                allowed_events: texts(&["push"]),
                allow_fork_pull_request: false,
            },
        ],
        grants,
        alert: None,
        repos: Vec::new(),
        classes: Vec::new(),
    }
}

fn valid() -> Config {
    accept(draft())
}

fn accept(config: Config) -> Config {
    match Config::parse(config) {
        Ok(config) => config,
        Err(why) => panic!("{why}"),
    }
}

fn widgets() -> Repo {
    Repo {
        owner: "acme".into(),
        name: "widgets".into(),
    }
}

fn gadgets() -> Repo {
    Repo {
        owner: "acme".into(),
        name: "gadgets".into(),
    }
}

fn decide<'a>(
    config: &'a Config,
    repo: &Repo,
    request: &JobRequest,
    live: usize,
) -> Result<&'a Class, Denial> {
    let class = resolve(config, request)?;
    admits(config, class, repo, request, live)?;
    Ok(class)
}

fn request(labels: &[&str], event: &str, fork: bool) -> JobRequest {
    JobRequest {
        runs_on: labels.iter().map(|s| (*s).to_string()).collect(),
        event: event.to_string(),
        is_fork_pull_request: fork,
    }
}

#[test]
fn allows_a_fork_pull_request_on_a_fork_open_set() {
    let config = valid();
    let class = decide(
        &config,
        &widgets(),
        &request(&["check", "hetzner"], "pull_request", true),
        0,
    )
    .unwrap();
    assert_eq!(class.name(), "check-hetzner");
}

#[test]
fn refuses_a_set_the_event_may_not_use() {
    let config = valid();
    let denial = decide(
        &config,
        &widgets(),
        &request(&["build", "hetzner"], "pull_request", true),
        0,
    )
    .unwrap_err();
    assert_eq!(
        denial,
        Denial::EventNotAllowed {
            class: "build-hetzner".into(),
            event: "pull_request".into()
        }
    );
}

#[test]
fn refuses_a_fork_pull_request_even_on_an_allowed_event() {
    let config = valid();
    let denial = decide(
        &config,
        &widgets(),
        &request(&["build", "hetzner"], "push", true),
        0,
    )
    .unwrap_err();
    assert_eq!(denial, Denial::ForkPullRequest("build-hetzner".into()));
}

#[test]
fn allows_a_trusted_push_on_a_fork_closed_set() {
    let config = valid();
    let class = decide(
        &config,
        &widgets(),
        &request(&["build", "hetzner"], "push", false),
        0,
    )
    .unwrap();
    assert_eq!(class.name(), "build-hetzner");
}

#[test]
fn refuses_an_unknown_token() {
    let config = valid();
    let denial = decide(
        &config,
        &widgets(),
        &request(&["nope", "hetzner"], "push", false),
        0,
    )
    .unwrap_err();
    assert!(matches!(denial, Denial::Unresolvable(_)));
}

#[test]
fn refuses_a_runs_on_no_entry_answers_to() {
    let config = valid();
    let denial = decide(
        &config,
        &widgets(),
        &request(&["check"], "pull_request", false),
        0,
    )
    .unwrap_err();
    assert!(matches!(denial, Denial::Unresolvable(_)));
}

#[test]
fn refuses_a_run_that_reports_no_event() {
    let config = valid();
    let denial = decide(
        &config,
        &widgets(),
        &request(&["check", "hetzner"], "", false),
        0,
    )
    .unwrap_err();
    assert_eq!(
        denial,
        Denial::NoEvent,
        "an unknown event must refuse, never fall through to an allowed_events mismatch"
    );
}

#[test]
fn refuses_a_job_with_no_label() {
    let config = valid();
    let denial = decide(&config, &widgets(), &request(&[], "push", false), 0).unwrap_err();
    assert_eq!(denial, Denial::NoLabel);
}

#[test]
fn refuses_a_provider_the_repository_was_never_granted() {
    let config = valid();
    let denial = decide(
        &config,
        &gadgets(),
        &request(&["build", "cherry"], "push", false),
        0,
    )
    .unwrap_err();
    assert_eq!(
        denial,
        Denial::NotGranted {
            repo: "acme/gadgets".into(),
            provider: Provider::Cherry
        }
    );
}

#[test]
fn refuses_once_the_repository_fills_its_grant() {
    let config = valid();
    let denial = decide(
        &config,
        &gadgets(),
        &request(&["check", "hetzner"], "pull_request", true),
        1,
    )
    .unwrap_err();
    assert_eq!(
        denial,
        Denial::AtCapacity {
            repo: "acme/gadgets".into(),
            provider: Provider::Hetzner,
            max: 1
        }
    );
}

#[test]
fn one_repository_filling_its_grant_leaves_another_room() {
    let config = valid();
    decide(
        &config,
        &widgets(),
        &request(&["check", "hetzner"], "pull_request", true),
        1,
    )
    .expect("widgets is granted two, so its second machine is allowed");
}

#[test]
fn every_denial_says_why() {
    let said = |denial: Denial| denial.reason();
    assert_eq!(said(Denial::NoLabel), "job declares no runs-on label");
    assert_eq!(said(Denial::NoEvent), "run reports no triggering event");
    assert_eq!(said(Denial::Unresolvable("why".into())), "why");
    assert_eq!(
        said(Denial::EventNotAllowed {
            class: "c".into(),
            event: "e".into()
        }),
        "class c is not available to e events"
    );
    assert_eq!(
        said(Denial::ForkPullRequest("c".into())),
        "class c is not available to fork pull requests"
    );
    assert_eq!(
        said(Denial::NotGranted {
            repo: "a/b".into(),
            provider: Provider::Vultr
        }),
        "a/b is not granted any vultr machine"
    );
    assert_eq!(
        said(Denial::AtCapacity {
            repo: "a/b".into(),
            provider: Provider::Gcore,
            max: 12
        }),
        "a/b already has 12 machine(s) running at gcore"
    );
}
