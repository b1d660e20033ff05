use forgejo_actions_orchestrator::config::{
    default_machine_prefix, default_poll_interval, default_reconcile_grace, Config, Daemon,
    Forgejo, Grant, Host, Labels, PerProvider, Provider, Repo, Spec,
};
use forgejo_actions_orchestrator::naming;
use forgejo_actions_orchestrator::provider::Clouds;
use forgejo_actions_orchestrator::table::Table;

fn texts(items: &[&str]) -> Vec<String> {
    items.iter().map(|item| item.to_string()).collect()
}

fn host(locations: &[&str]) -> Host {
    Host {
        locations: texts(locations),
        ssh_key: None,
    }
}

fn ids(pairs: &[(Provider, &str)]) -> PerProvider<String> {
    let mut ids = PerProvider::new();
    for (kind, id) in pairs {
        ids.insert(*kind, id.to_string());
    }
    ids
}

fn ladders(pairs: &[(Provider, &[&str])]) -> PerProvider<Vec<String>> {
    let mut ladders = PerProvider::new();
    for (kind, plans) in pairs {
        ladders.insert(*kind, texts(plans));
    }
    ladders
}

fn grant(pairs: &[(Provider, usize)]) -> Grant {
    let mut max_vms = PerProvider::new();
    for (kind, max) in pairs {
        max_vms.insert(*kind, *max);
    }
    Grant { max_vms }
}

fn sets(sets: &[&[&str]]) -> Labels {
    Labels::Many(sets.iter().map(|set| texts(set)).collect())
}

/// What a valid configuration reads as.
fn draft() -> Config {
    let mut providers = PerProvider::new();
    providers.insert(Provider::Hetzner, host(&["fsn1", "nbg1"]));
    providers.insert(Provider::Cherry, host(&["LT-Siauliai"]));
    let mut images = Table::new();
    images.insert("toolchain".to_string(), ids(&[(Provider::Hetzner, "snapshot-1")]));
    images.insert(
        "debian".to_string(),
        ids(&[
            (Provider::Hetzner, "debian-12"),
            (Provider::Cherry, "debian_12_64bit"),
        ]),
    );
    let mut plans = Table::new();
    plans.insert(
        "4c8g".to_string(),
        ladders(&[(Provider::Hetzner, &["cx43", "cx53"])]),
    );
    plans.insert(
        "8c16g".to_string(),
        ladders(&[
            (Provider::Hetzner, &["cx53"]),
            (Provider::Cherry, &["e5_1620v4"]),
        ]),
    );
    let mut grants = Table::new();
    grants.insert(
        "acme/widgets".to_string(),
        grant(&[(Provider::Hetzner, 2), (Provider::Cherry, 1)]),
    );
    grants.insert("acme/gadgets".to_string(), grant(&[(Provider::Hetzner, 1)]));
    Config {
        forgejo: Forgejo {
            url: "https://git.example.org".to_string(),
        },
        daemon: Daemon {
            poll_interval_secs: default_poll_interval(),
            reconcile_grace_secs: default_reconcile_grace(),
            runner_version: "12.13.2".to_string(),
            runner_sha256_amd64: "deadbeef".to_string(),
            runner_sha256_arm64: "cafebabe".to_string(),
            machine_prefix: default_machine_prefix(),
        },
        providers,
        images,
        plans,
        machines: vec![
            Spec {
                labels: Labels::One(texts(&["check", "hetzner"])),
                image: "toolchain".to_string(),
                plans: "4c8g".to_string(),
                lifetime_minutes: 90,
                job_timeout_minutes: 70,
                allowed_events: texts(&["pull_request"]),
                allow_fork_pull_request: true,
            },
            Spec {
                labels: sets(&[&["build", "hetzner"], &["build", "cherry"]]),
                image: "debian".to_string(),
                plans: "8c16g".to_string(),
                lifetime_minutes: 60,
                job_timeout_minutes: 45,
                allowed_events: texts(&["push"]),
                allow_fork_pull_request: false,
            },
            Spec {
                labels: Labels::One(texts(&["hetzner"])),
                image: "debian".to_string(),
                plans: "4c8g".to_string(),
                lifetime_minutes: 30,
                job_timeout_minutes: 20,
                allowed_events: texts(&["push"]),
                allow_fork_pull_request: false,
            },
        ],
        grants,
        alert: None,
        repos: Vec::new(),
        classes: Vec::new(),
    }
}

fn valid() -> Config {
    accept(draft())
}

fn accept(config: Config) -> Config {
    match Config::parse(config) {
        Ok(config) => config,
        Err(why) => panic!("{why}"),
    }
}

fn rejects(config: Config, expected: &str) {
    match Config::parse(config) {
        Ok(_) => panic!("config should have been rejected"),
        Err(error) => assert!(
            error.contains(expected),
            "expected {expected:?}, got {error:?}"
        ),
    }
}

fn runs_on(tokens: &[&str]) -> Vec<String> {
    texts(tokens)
}

#[test]
fn parses_a_valid_config() {
    let config = valid();
    let mut repos: Vec<String> = config.repos.iter().map(|repo| repo.full_name()).collect();
    repos.sort();
    assert_eq!(repos, vec!["acme/gadgets", "acme/widgets"]);
    assert_eq!(config.poll_interval(), 15);
}

#[test]
fn answers_only_to_its_exact_label_set() {
    let config = valid();
    let class = config.class_for(&runs_on(&["check", "hetzner"])).unwrap();
    assert_eq!(class.name(), "check-hetzner");
    assert_eq!(class.plans, vec!["cx43", "cx53"]);
    assert_eq!(class.image, "snapshot-1");
    assert!(class.allow_fork_pull_request);
    assert!(
        config.class_for(&runs_on(&["check"])).is_err(),
        "a subset is a different set"
    );
    assert!(
        config
            .class_for(&runs_on(&["check", "hetzner", "more"]))
            .is_err(),
        "a superset is a different set"
    );
}

#[test]
fn a_set_of_one_label_is_a_set_like_any_other() {
    let config = valid();
    let class = config
        .class_for(&runs_on(&["hetzner"]))
        .expect("one label is a set");
    assert_eq!(class.name(), "hetzner");
    assert_eq!(class.provider, Provider::Hetzner);
}

#[test]
fn one_entry_can_answer_to_several_sets() {
    let config = valid();
    let hetzner = config.class_for(&runs_on(&["build", "hetzner"])).unwrap();
    let cherry = config.class_for(&runs_on(&["build", "cherry"])).unwrap();
    assert_eq!(
        hetzner.lifetime_minutes, cherry.lifetime_minutes,
        "one entry, so its limits are written once"
    );
    assert_eq!(hetzner.image, "debian-12");
    assert_eq!(cherry.image, "debian_12_64bit");
    assert_eq!(cherry.provider, Provider::Cherry);
}

#[test]
fn the_label_order_does_not_matter() {
    let config = valid();
    assert_eq!(
        config
            .class_for(&runs_on(&["hetzner", "check"]))
            .unwrap()
            .name(),
        "check-hetzner"
    );
}

#[test]
fn a_refusal_names_the_closest_set_configured() {
    let config = valid();
    let error = config
        .class_for(&runs_on(&["check", "cherry"]))
        .unwrap_err();
    assert!(
        error.contains("the closest set configured is ["),
        "got {error}"
    );
}

#[test]
fn the_closest_set_is_the_last_of_those_that_share_most() {
    let config = valid();
    assert_eq!(
        config.class_for(&runs_on(&["check", "cherry"])).unwrap_err(),
        "no [[machine]] answers to runs-on [check, cherry]; the closest set configured is [build, cherry]"
    );
    assert_eq!(
        config.class_for(&runs_on(&["nope"])).unwrap_err(),
        "no [[machine]] answers to runs-on [nope]"
    );
}

#[test]
fn a_grant_is_both_the_allowlist_and_the_quota() {
    let config = valid();
    let widgets = Repo {
        owner: "acme".into(),
        name: "widgets".into(),
    };
    let gadgets = Repo {
        owner: "acme".into(),
        name: "gadgets".into(),
    };
    assert_eq!(config.max_vms(&widgets, Provider::Hetzner), 2);
    assert_eq!(
        config.max_vms(&gadgets, Provider::Cherry),
        0,
        "a provider a repo was never granted must read as no machines"
    );
}

#[test]
fn polls_for_every_label_any_set_carries() {
    let config = valid();
    assert_eq!(
        config.all_labels(),
        vec!["build", "check", "cherry", "hetzner"]
    );
}

#[test]
fn defaults_the_machine_prefix() {
    assert_eq!(valid().machine_prefix(), naming::DEFAULT_PREFIX);
}

#[test]
fn finds_a_class_by_its_name() {
    let config = valid();
    assert_eq!(config.class("build-cherry").unwrap().lifetime_minutes, 60);
    assert!(config.class("build").is_none());
    assert_eq!(
        config.entry_names(),
        vec!["check-hetzner", "build-hetzner", "build-cherry", "hetzner"]
    );
    assert_eq!(config.longest_lifetime_minutes(), 90);
    assert_eq!(config.reconcile_grace(), 300);
}

#[test]
fn rejects_a_machine_prefix_that_overflows_the_hostname_limit() {
    let mut config = draft();
    config.daemon.machine_prefix = "a".repeat(40);
    rejects(config, "over the 63 hostname limit");
}

#[test]
fn rejects_a_machine_prefix_that_is_not_a_hostname_label() {
    let mut config = draft();
    config.daemon.machine_prefix = "CI_Orc".to_string();
    rejects(config, "must be a hostname label");
}

#[test]
fn rejects_a_config_with_no_repositories() {
    let mut config = draft();
    config.grants = Table::new();
    rejects(config, "no [repo] entries");
}

#[test]
fn rejects_a_repository_key_that_is_not_owner_slash_name() {
    for key in ["widgets", "/widgets", "acme/", "acme/widgets/extra"] {
        let mut config = draft();
        config.grants.insert(key.to_string(), grant(&[(Provider::Hetzner, 1)]));
        rejects(config, "must be named \"owner/name\"");
    }
}

#[test]
fn rejects_a_config_with_no_machines() {
    let mut config = draft();
    config.machines = Vec::new();
    rejects(config, "no [[machine]] entries");
}

#[test]
fn rejects_a_config_with_no_providers() {
    let mut config = draft();
    config.providers = PerProvider::new();
    rejects(config, "no [provider] entries");
}

#[test]
fn rejects_a_machine_with_no_allowed_events() {
    let mut config = draft();
    config.machines[0].allowed_events = Vec::new();
    rejects(config, "no allowed_events");
}

#[test]
fn rejects_a_job_timeout_that_outlives_the_machine() {
    let mut config = draft();
    config.machines[0].job_timeout_minutes = 90;
    rejects(config, "job_timeout_minutes");
    let mut config = draft();
    config.machines[1].job_timeout_minutes = 0;
    rejects(
        config,
        "[[machine]] labels = [build, hetzner] has job_timeout_minutes = 0, which must be between 1 and lifetime_minutes (60) exclusive",
    );
}

#[test]
fn rejects_a_plans_table_with_no_plans() {
    let mut config = draft();
    config
        .plans
        .insert("4c8g".to_string(), ladders(&[(Provider::Hetzner, &[])]));
    rejects(config, "has no plans for");
}

#[test]
fn rejects_tables_that_name_no_provider() {
    let mut config = draft();
    config.plans.insert("none".to_string(), PerProvider::new());
    rejects(config, "[plans.none] names no provider");
    let mut config = draft();
    config.images.insert("none".to_string(), PerProvider::new());
    rejects(config, "[image.none] names no provider");
    let mut config = draft();
    config.grants.insert("acme/none".to_string(), grant(&[]));
    rejects(config, "[repo.\"acme/none\"] grants no provider");
}

#[test]
fn rejects_an_image_with_an_empty_id() {
    let mut config = draft();
    config
        .images
        .insert("toolchain".to_string(), ids(&[(Provider::Hetzner, "")]));
    rejects(config, "[image.toolchain] has an empty id for hetzner");
}

#[test]
fn rejects_a_provider_with_no_locations() {
    let mut config = draft();
    config.providers.insert(Provider::Hetzner, host(&[]));
    rejects(config, "has no locations");
}

#[test]
fn rejects_a_provider_with_an_empty_location() {
    let mut config = draft();
    config.providers.insert(Provider::Hetzner, host(&["fsn1", ""]));
    rejects(config, "[provider.hetzner] has an empty location");
}

#[test]
fn rejects_a_machine_name_that_prefixes_another() {
    let mut config = draft();
    config.machines[2].labels = Labels::One(texts(&["hetzner", "big"]));
    config.machines[0].labels = Labels::One(texts(&["hetzner"]));
    rejects(config, "is a prefix of");
}

#[test]
fn rejects_a_grant_that_can_hold_no_machines() {
    let mut config = draft();
    config
        .grants
        .insert("acme/widgets".to_string(), grant(&[(Provider::Hetzner, 0)]));
    rejects(config, "max_vms.hetzner = 0");
}

#[test]
fn rejects_a_provider_no_table_declares() {
    let mut config = draft();
    config
        .grants
        .insert("acme/widgets".to_string(), grant(&[(Provider::Vultr, 1)]));
    rejects(config, "has no [provider.vultr] table");
    let mut config = draft();
    config.machines[0].labels = Labels::One(texts(&["check", "vultr"]));
    rejects(config, "has no [provider.vultr] table");
}

#[test]
fn rejects_an_image_alias_that_does_not_exist() {
    let mut config = draft();
    config.machines[0].image = "missing".to_string();
    rejects(config, "which no [image] table defines");
}

#[test]
fn rejects_a_plans_name_that_does_not_exist() {
    let mut config = draft();
    config.machines[0].plans = "missing".to_string();
    rejects(config, "wants plans \"missing\", which no [plans] table defines");
}

#[test]
fn rejects_a_class_whose_machine_name_would_not_fit() {
    let mut config = draft();
    let long = "a".repeat(30);
    config.machines[0].labels = Labels::One(texts(&[&long, "hetzner"]));
    rejects(config, "over the 63 hostname limit");
}

#[test]
fn rejects_a_config_with_no_runner_version() {
    let mut config = draft();
    config.daemon.runner_version = String::new();
    rejects(config, "runner_version");
}

#[test]
fn rejects_a_set_that_names_no_provider() {
    let mut config = draft();
    config.machines[0].labels = Labels::One(texts(&["check"]));
    rejects(config, "names no provider");
}

#[test]
fn rejects_a_set_that_names_two_providers() {
    let mut config = draft();
    config.machines[0].labels = Labels::One(texts(&["check", "hetzner", "cherry"]));
    rejects(config, "names 2 providers");
}

#[test]
fn rejects_two_entries_answering_to_the_same_set() {
    let mut config = draft();
    config.machines[2].labels = Labels::One(texts(&["hetzner", "check"]));
    config.machines[2].image = "toolchain".to_string();
    rejects(config, "answer to the same label set");
}

#[test]
fn rejects_an_image_with_no_id_for_the_provider_a_set_names() {
    let mut config = draft();
    config.machines[0].labels = Labels::One(texts(&["check", "cherry"]));
    rejects(config, "[image.toolchain] does not define for cherry");
}

#[test]
fn rejects_plans_with_no_ladder_for_the_provider_a_set_names() {
    let mut config = draft();
    config.machines[1].plans = "4c8g".to_string();
    rejects(config, "[plans.4c8g] does not define for cherry");
}

#[test]
fn rejects_a_label_that_is_not_a_hostname_label() {
    let mut config = draft();
    config.machines[0].labels = Labels::One(texts(&["Check", "hetzner"]));
    rejects(config, "is not a hostname label");
}

#[test]
fn rejects_a_repeated_label() {
    let mut config = draft();
    config.machines[0].labels = Labels::One(texts(&["check", "check", "hetzner"]));
    rejects(config, "names check twice");
}

#[test]
fn rejects_an_empty_label_set() {
    let mut config = draft();
    config.machines[0].labels = sets(&[&["check", "hetzner"], &[]]);
    rejects(config, "empty label set");
}

#[test]
fn a_machine_name_leads_back_to_its_class() {
    let config = valid();
    let names = config.entry_names();
    for name in &names {
        let machine = naming::machine_name(config.machine_prefix(), name, "0123abc");
        assert_eq!(
            naming::split(config.machine_prefix(), &machine, &names),
            Some((name.as_str(), "0123abc"))
        );
        assert!(machine.len() <= 63);
    }
}

#[test]
fn loads_a_backend_for_each_declared_provider() {
    let config = valid();
    let clouds: Clouds<String> =
        Clouds::from_env(&config, |kind| Ok::<String, String>(kind.title().to_string()))
            .ok()
            .unwrap();
    assert_eq!(clouds.kinds(), vec![Provider::Cherry, Provider::Hetzner]);
    assert_eq!(clouds.get(Provider::Hetzner).unwrap(), "Hetzner");
    assert!(clouds.get(Provider::Vultr).is_err());
    let failed = Clouds::<String>::from_env(&config, |kind| {
        Err::<String, String>(format!("{} has no token", kind.as_str()))
    });
    assert_eq!(failed.err().unwrap(), "cherry has no token");
}
