use forgejo_actions_orchestrator::config::{
    default_machine_prefix, default_poll_interval, default_reconcile_grace, Config, Daemon,
    Forgejo, Grant, Host, Labels, PerProvider, Provider, Repo, Spec,
};
use forgejo_actions_orchestrator::alert::Kind;
use forgejo_actions_orchestrator::forgejo::{Job, Registration, Run, Runner, StatusState};
use forgejo_actions_orchestrator::naming;
use forgejo_actions_orchestrator::provider::{Machine, Moment};
use forgejo_actions_orchestrator::reconcile::task::{Clock, Event, Fault, Notice, Request};
use forgejo_actions_orchestrator::reconcile::tick::Turn;
use forgejo_actions_orchestrator::reconcile::Orchestrator;
use forgejo_actions_orchestrator::table::Table;

fn texts(items: &[&str]) -> Vec<String> {
    items.iter().map(|item| item.to_string()).collect()
}

fn host(locations: &[&str]) -> Host {
    Host {
        locations: texts(locations),
        ssh_key: None,
    }
}

fn ids(pairs: &[(Provider, &str)]) -> PerProvider<String> {
    let mut ids = PerProvider::new();
    for (kind, id) in pairs {
        ids.insert(*kind, id.to_string());
    }
    ids
}

fn ladders(pairs: &[(Provider, &[&str])]) -> PerProvider<Vec<String>> {
    let mut ladders = PerProvider::new();
    for (kind, plans) in pairs {
        ladders.insert(*kind, texts(plans));
    }
    ladders
}

fn grant(pairs: &[(Provider, usize)]) -> Grant {
    let mut max_vms = PerProvider::new();
    for (kind, max) in pairs {
        max_vms.insert(*kind, *max);
    }
    Grant { max_vms }
}

fn sets(sets: &[&[&str]]) -> Labels {
    Labels::Many(sets.iter().map(|set| texts(set)).collect())
}

/// What a valid configuration reads as.
fn draft() -> Config {
    let mut providers = PerProvider::new();
    providers.insert(Provider::Hetzner, host(&["fsn1", "nbg1"]));
    providers.insert(Provider::Cherry, host(&["LT-Siauliai"]));
    let mut images = Table::new();
    images.insert("toolchain".to_string(), ids(&[(Provider::Hetzner, "snapshot-1")]));
    images.insert(
        "debian".to_string(),
        ids(&[
            (Provider::Hetzner, "debian-12"),
            (Provider::Cherry, "debian_12_64bit"),
        ]),
    );
    let mut plans = Table::new();
    plans.insert(
        "4c8g".to_string(),
        ladders(&[(Provider::Hetzner, &["cx43", "cx53"])]),
    );
    plans.insert(
        "8c16g".to_string(),
        ladders(&[
            (Provider::Hetzner, &["cx53"]),
            (Provider::Cherry, &["e5_1620v4"]),
        ]),
    );
    let mut grants = Table::new();
    grants.insert(
        "acme/widgets".to_string(),
        grant(&[(Provider::Hetzner, 2), (Provider::Cherry, 1)]),
    );
    grants.insert("acme/gadgets".to_string(), grant(&[(Provider::Hetzner, 1)]));
    Config {
        forgejo: Forgejo {
            url: "https://git.example.org".to_string(),
        },
        daemon: Daemon {
            poll_interval_secs: default_poll_interval(),
            reconcile_grace_secs: default_reconcile_grace(),
            runner_version: "12.13.2".to_string(),
            runner_sha256_amd64: "deadbeef".to_string(),
            runner_sha256_arm64: "cafebabe".to_string(),
            machine_prefix: default_machine_prefix(),
        },
        providers,
        images,
        plans,
        machines: vec![
            Spec {
                labels: Labels::One(texts(&["check", "hetzner"])),
                image: "toolchain".to_string(),
                plans: "4c8g".to_string(),
                lifetime_minutes: 90,
                job_timeout_minutes: 70,
                allowed_events: texts(&["pull_request"]),
                allow_fork_pull_request: true,
            },
            Spec {
                labels: sets(&[&["build", "hetzner"], &["build", "cherry"]]),
                image: "debian".to_string(),
                plans: "8c16g".to_string(),
                lifetime_minutes: 60,
                job_timeout_minutes: 45,
                allowed_events: texts(&["push"]),
                allow_fork_pull_request: false,
            },
            Spec {
                labels: Labels::One(texts(&["hetzner"])),
                image: "debian".to_string(),
                plans: "4c8g".to_string(),
                lifetime_minutes: 30,
                job_timeout_minutes: 20,
                allowed_events: texts(&["push"]),
                allow_fork_pull_request: false,
            },
        ],
        grants,
        alert: None,
        repos: Vec::new(),
        classes: Vec::new(),
    }
}

fn valid() -> Config {
    accept(draft())
}

fn accept(config: Config) -> Config {
    match Config::parse(config) {
        Ok(config) => config,
        Err(why) => panic!("{why}"),
    }
}

const NOW: i64 = 1_800_000_000;
const SECOND: u64 = 1_000_000_000;

fn clock(seconds: u64) -> Clock {
    Clock {
        wall: Moment {
            seconds: NOW + seconds as i64,
            nanos: 0,
        },
        ticks: seconds * SECOND,
    }
}

fn fault(why: &str) -> Fault {
    Fault {
        brief: why.to_string(),
        detail: format!("{why}: in full"),
    }
}

/// A world with one provider and a queue for each repository.
struct World {
    jobs: Result<Vec<Job>, String>,
    elsewhere: Vec<Job>,
    runners: Vec<Runner>,
    runners_fail: bool,
    machines: Vec<Machine>,
    list_fails: bool,
    destroy_fails: bool,
    rejected_placements: usize,
    run_fails: bool,
    event: &'static str,
    polled: Vec<String>,
    labels: Vec<Vec<String>>,
    destroyed: Vec<String>,
    created: Vec<String>,
    tried: Vec<String>,
    registered: Vec<(String, String)>,
    deleted: Vec<i64>,
    statuses: Vec<(StatusState, String)>,
    notices: Vec<Notice>,
    prefixes: Vec<String>,
}

fn world() -> World {
    World {
        jobs: Ok(Vec::new()),
        elsewhere: Vec::new(),
        runners: Vec::new(),
        runners_fail: false,
        machines: Vec::new(),
        list_fails: false,
        destroy_fails: false,
        rejected_placements: 0,
        run_fails: false,
        event: "pull_request",
        polled: Vec::new(),
        labels: Vec::new(),
        destroyed: Vec::new(),
        created: Vec::new(),
        tried: Vec::new(),
        registered: Vec::new(),
        deleted: Vec::new(),
        statuses: Vec::new(),
        notices: Vec::new(),
        prefixes: Vec::new(),
    }
}

impl World {
    fn answer(&mut self, request: Request, clock: Clock) -> Event {
        match request {
            Request::List(kind, prefix) => {
                self.prefixes.push(prefix);
                Event::Listed(if kind != Provider::Hetzner {
                    Ok(Vec::new())
                } else if self.list_fails {
                    Err(fault("provider unreachable"))
                } else {
                    Ok(self.machines.clone())
                })
            }
            Request::Poll(repo, labels) => {
                self.polled.push(repo.full_name());
                self.labels.push(labels);
                Event::Polled(if repo.name != "widgets" {
                    Ok(self.elsewhere.clone())
                } else {
                    match &self.jobs {
                        Ok(jobs) => Ok(jobs.clone()),
                        Err(why) => Err(fault(why)),
                    }
                })
            }
            Request::Destroy(_, id) => {
                if self.destroy_fails {
                    return Event::Destroyed(Err(fault("still there")));
                }
                self.destroyed.push(id);
                Event::Destroyed(Ok(()))
            }
            Request::Runners(repo) => Event::RunnersListed(if self.runners_fail {
                Err(fault("no runners"))
            } else if repo.name != "widgets" {
                Ok(Vec::new())
            } else {
                Ok(self
                    .runners
                    .iter()
                    .map(|runner| Runner {
                        id: runner.id,
                        name: runner.name.clone(),
                        ephemeral: runner.ephemeral,
                    })
                    .collect())
            }),
            Request::DeleteRunner(_, id) => {
                self.deleted.push(id);
                Event::RunnerDeleted(Ok(()))
            }
            Request::Run(_, _) => Event::RunRead(if self.run_fails {
                Err(fault("no such run"))
            } else {
                Ok(Run {
                    event: self.event.into(),
                    trigger_event: String::new(),
                    is_fork_pull_request: self.event == "pull_request",
                    commit_sha: Some("sha".into()),
                    event_payload: Some(r#"{"pull_request":{"head":{"sha":"head"}}}"#.into()),
                    html_url: None,
                })
            }),
            Request::SetStatus(status) => {
                self.statuses.push((status.state, status.description));
                Event::StatusSet
            }
            Request::Register(repo, name) => {
                self.registered.push((repo.full_name(), name));
                Event::Registered(Ok(Registration {
                    id: 1,
                    uuid: "u".into(),
                    token: "t".into(),
                }))
            }
            Request::Create(creation) => {
                self.tried
                    .push(format!("{}/{}", creation.plan, creation.location));
                if self.tried.len() <= self.rejected_placements {
                    return Event::Created(Err(fault("no capacity")));
                }
                self.created.push(creation.name.clone());
                Event::Created(Ok(Machine {
                    id: "new".into(),
                    name: creation.name,
                    created_at: Some(clock.wall),
                }))
            }
        }
    }

    fn tick(&mut self, orc: &mut Orchestrator, clock: Clock) {
        orc.tick();
        loop {
            match orc.advance(clock) {
                Turn::Over => break,
                Turn::Continue => {}
                Turn::Ask(request) => {
                    let event = self.answer(request, clock);
                    assert!(orc.answer(event, clock));
                }
            }
            self.notices.extend(orc.take_notices());
        }
    }

    fn alerts(&self) -> Vec<(Kind, String)> {
        self.notices
            .iter()
            .filter_map(|notice| match notice {
                Notice::Alert(raised) => Some((raised.kind, raised.subject.clone())),
                _ => None,
            })
            .collect()
    }
}

fn orchestrator() -> Orchestrator {
    Orchestrator::new(valid())
}

/// Every repository is granted one machine.
fn capped() -> Orchestrator {
    let mut config = draft();
    config
        .grants
        .insert("acme/widgets".to_string(), grant(&[(Provider::Hetzner, 1)]));
    Orchestrator::new(accept(config))
}

fn job(handle: &str) -> Job {
    Job {
        run_id: 1,
        handle: handle.into(),
        status: "waiting".into(),
        runs_on: texts(&["check", "hetzner"]),
    }
}

fn name(handle: &str) -> String {
    naming::machine_name(naming::DEFAULT_PREFIX, "check-hetzner", handle)
}

fn machine(handle: &str) -> Machine {
    Machine {
        id: format!("id-{handle}"),
        name: name(handle),
        created_at: Some(clock(0).wall),
    }
}

fn aged_machine(handle: &str, minutes: i64) -> Machine {
    Machine {
        created_at: Some(Moment {
            seconds: NOW - minutes * 60,
            nanos: 0,
        }),
        ..machine(handle)
    }
}

fn runner(id: i64, handle: &str) -> Runner {
    Runner {
        id,
        name: name(handle),
        ephemeral: true,
    }
}

#[test]
fn logs_a_stable_refusal_once_and_again_after_it_settles() {
    let mut orc = orchestrator();
    assert!(orc.refusals.is_empty());

    orc.log_refusal("h1", "label build-hetzner already has 1 machine(s)");
    orc.log_refusal("h1", "label build-hetzner already has 1 machine(s)");
    assert_eq!(orc.refusals.len(), 1, "a repeat must not re-log");
    assert_eq!(orc.take_notices().len(), 1);

    orc.log_refusal("h1", "a different reason");
    assert_eq!(orc.refusals.get("h1").unwrap(), "a different reason");

    orc.forget_settled_refusals();
    assert!(
        orc.refusals.is_empty(),
        "a handle that left the queue must log again if it returns"
    );
}

#[test]
fn destroys_a_machine_whose_job_left_the_queue() {
    let mut world = world();
    world.machines = vec![machine("gone")];
    let mut orc = orchestrator();
    world.tick(&mut orc, clock(0));
    assert!(
        world.destroyed.is_empty(),
        "one missing poll is not yet proof the job is over"
    );
    world.tick(&mut orc, clock(15));
    assert_eq!(world.destroyed, ["id-gone"]);
    assert!(orc.missed_polls.is_empty());
}

#[test]
fn keeps_a_machine_whose_job_is_still_queued() {
    let mut world = world();
    world.jobs = Ok(vec![job("live")]);
    world.machines = vec![machine("live")];
    let mut orc = orchestrator();
    world.tick(&mut orc, clock(0));
    world.tick(&mut orc, clock(15));
    assert!(world.destroyed.is_empty());
}

#[test]
fn a_failed_queue_poll_never_destroys_anything() {
    let mut world = world();
    world.jobs = Err("forgejo down".into());
    world.machines = vec![machine("gone")];
    let mut orc = orchestrator();
    for round in 0..4 {
        world.tick(&mut orc, clock(round * 15));
    }
    assert!(
        world.destroyed.is_empty(),
        "a machine was destroyed on the strength of a failed poll"
    );
    assert!(world
        .alerts()
        .contains(&(Kind::PollFailed, "acme/widgets".to_string())));
}

#[test]
fn an_unreachable_provider_holds_back_provisioning() {
    let mut world = world();
    world.jobs = Ok(vec![job("new")]);
    world.list_fails = true;
    let mut orc = orchestrator();
    world.tick(&mut orc, clock(0));
    assert!(
        world.created.is_empty(),
        "provisioned while blind to that provider's machines"
    );
    assert!(world.registered.is_empty());
    assert!(world.notices.iter().any(|notice| matches!(
        notice,
        Notice::HeldBack(handle, Provider::Hetzner) if handle == "new"
    )));
    assert!(world
        .alerts()
        .contains(&(Kind::PollFailed, "Hetzner".to_string())));
}

#[test]
fn destroys_a_machine_no_label_explains() {
    let mut world = world();
    world.machines = vec![Machine {
        id: "id-orphan".into(),
        name: format!("{}-renamed-label-abc", naming::DEFAULT_PREFIX),
        created_at: Some(clock(0).wall),
    }];
    let mut orc = orchestrator();
    world.tick(&mut orc, clock(0));
    world.tick(&mut orc, clock(15));
    assert_eq!(
        world.destroyed,
        ["id-orphan"],
        "a machine carrying our prefix but no known label must not be left billing"
    );
    assert!(world
        .alerts()
        .contains(&(Kind::Abandoned, "ci-orc-renamed-label-abc".to_string())));
}

#[test]
fn a_renamed_class_keeps_the_machine_of_a_queued_job() {
    let mut world = world();
    world.machines = vec![Machine {
        id: "id-renamed".into(),
        name: format!("{}-renamed-label-live", naming::DEFAULT_PREFIX),
        created_at: Some(clock(0).wall),
    }];
    world.jobs = Ok(vec![job("live")]);
    let mut orc = orchestrator();
    for round in 0..3 {
        world.tick(&mut orc, clock(round * 15));
    }
    assert!(world.destroyed.is_empty());
    assert!(world.created.is_empty());
    let renamed = format!("{}-renamed-label-live", naming::DEFAULT_PREFIX);
    assert!(world.alerts().contains(&(Kind::Abandoned, renamed.clone())));
    assert_eq!(orc.alerts.count(Kind::Abandoned, &renamed), 3);
    // The longest lifetime is 90 minutes, and the grace five.
    world.tick(&mut orc, clock(95 * 60));
    assert!(world.destroyed.is_empty());
    world.tick(&mut orc, clock(95 * 60 + 1));
    assert_eq!(world.destroyed, ["id-renamed"]);
}

#[test]
fn a_machine_does_not_live_by_the_end_of_its_handle() {
    let mut world = world();
    world.machines = vec![machine("a-b"), machine("b")];
    let mut other = job("b");
    other.status = "running".into();
    world.jobs = Ok(vec![other]);
    let mut orc = orchestrator();
    world.tick(&mut orc, clock(0));
    assert!(world.destroyed.is_empty());
    world.tick(&mut orc, clock(15));
    assert_eq!(world.destroyed, ["id-a-b"]);
}

#[test]
fn a_poll_that_sees_the_job_starts_the_count_over() {
    let mut world = world();
    world.machines = vec![machine("on-off")];
    let mut orc = orchestrator();
    for round in 0..4 {
        world.jobs = Ok(if round % 2 == 0 {
            Vec::new()
        } else {
            vec![job("on-off")]
        });
        world.tick(&mut orc, clock(round * 15));
    }
    assert!(world.destroyed.is_empty());
    assert!(orc.missed_polls.is_empty());
}

#[test]
fn provisions_for_a_queued_job() {
    let mut world = world();
    world.jobs = Ok(vec![job("new")]);
    let mut orc = orchestrator();
    world.tick(&mut orc, clock(0));
    assert_eq!(world.created, [name("new")]);
    let told: Vec<&str> = world.statuses.iter().map(|(_, text)| text.as_str()).collect();
    assert_eq!(
        told,
        vec!["provisioning a check-hetzner machine", "running on cx43 in fsn1"]
    );
    assert_eq!(world.statuses[0].0, StatusState::Pending);
    assert_eq!(world.statuses[1].0, StatusState::Success);
    assert!(orc.unseen.contains_key(&name("new")));
}

#[test]
fn does_not_provision_twice_for_the_same_job() {
    let mut world = world();
    world.jobs = Ok(vec![job("served")]);
    world.machines = vec![machine("served")];
    let mut orc = orchestrator();
    world.tick(&mut orc, clock(0));
    assert!(world.created.is_empty());
}

#[test]
fn a_machine_no_listing_shows_yet_serves_its_job() {
    let mut world = world();
    world.jobs = Ok(vec![job("new")]);
    let mut orc = orchestrator();
    world.tick(&mut orc, clock(0));
    world.tick(&mut orc, clock(15));
    assert_eq!(world.created.len(), 1);
}

#[test]
fn respects_the_per_label_machine_cap() {
    let mut world = world();
    world.jobs = Ok(vec![job("a"), job("b")]);
    world.machines = vec![machine("a")];
    let mut orc = capped();
    world.tick(&mut orc, clock(0));
    assert!(
        world.created.is_empty(),
        "max_vms = 1 but a second machine was created"
    );
}

#[test]
fn a_restart_does_not_immediately_destroy_live_machines() {
    let mut world = world();
    world.jobs = Ok(vec![job("live")]);
    world.machines = vec![machine("live")];
    let mut orc = orchestrator();
    world.tick(&mut orc, clock(0));
    assert!(world.destroyed.is_empty());
    assert!(
        orc.missed_polls.is_empty(),
        "a live handle must clear any recorded miss"
    );
}

#[test]
fn deletes_a_runner_record_with_no_machine() {
    let mut world = world();
    world.runners = vec![runner(42, "vanished")];
    let mut orc = orchestrator();
    world.tick(&mut orc, clock(0));
    assert!(
        world.deleted.is_empty(),
        "one listing without the machine is not yet proof it is gone"
    );
    world.tick(&mut orc, clock(300));
    assert_eq!(world.deleted, [42]);
    assert!(orc.missed_machines.is_empty());
}

#[test]
fn keeps_a_runner_whose_machine_the_provider_has_not_listed_yet() {
    let mut world = world();
    world.runners = vec![runner(42, "fresh")];
    let mut orc = orchestrator();
    world.tick(&mut orc, clock(0));
    world.machines = vec![machine("fresh")];
    world.tick(&mut orc, clock(300));
    assert!(
        world.deleted.is_empty(),
        "a machine that surfaced one tick late must keep its registration"
    );
    assert!(
        !orc.missed_machines.contains_key(&name("fresh")),
        "seeing the machine must clear the streak"
    );
}

#[test]
fn keeps_a_runner_whose_provider_lists_the_machine_minutes_late() {
    let mut world = world();
    world.runners = vec![runner(42, "slowlist")];
    let mut orc = orchestrator();
    for round in 0..8 {
        world.tick(&mut orc, clock(round * 15));
    }
    assert!(
        world.deleted.is_empty(),
        "a miss streak alone must not revoke a registration inside the grace"
    );
    assert_eq!(
        orc.missed_machines.get(&name("slowlist")).unwrap().0,
        8,
        "the streak still counts"
    );
}

#[test]
fn leaves_runners_of_others_alone() {
    let mut world = world();
    world.runners = vec![Runner {
        id: 9,
        name: "someone-elses".into(),
        ephemeral: false,
    }];
    let mut orc = orchestrator();
    world.tick(&mut orc, clock(0));
    world.tick(&mut orc, clock(1000));
    assert!(world.deleted.is_empty());
    assert!(orc.missed_machines.is_empty());
}

#[test]
fn a_blind_tick_reaps_no_runner() {
    let mut world = world();
    world.runners = vec![runner(42, "vanished")];
    world.list_fails = true;
    let mut orc = orchestrator();
    for round in 0..4 {
        world.tick(&mut orc, clock(round * 300));
    }
    assert!(world.deleted.is_empty());
}

#[test]
fn forgets_a_runner_that_is_gone_once_every_repository_was_listed() {
    let mut world = world();
    world.runners = vec![runner(42, "vanished")];
    let mut orc = orchestrator();
    world.tick(&mut orc, clock(0));
    assert_eq!(orc.missed_machines.len(), 1);
    world.runners = Vec::new();
    world.runners_fail = true;
    world.tick(&mut orc, clock(15));
    assert_eq!(orc.missed_machines.len(), 1);
    world.runners_fail = false;
    world.tick(&mut orc, clock(30));
    assert!(orc.missed_machines.is_empty());
}

#[test]
fn polls_only_allowlisted_repositories() {
    let mut world = world();
    let mut orc = orchestrator();
    world.tick(&mut orc, clock(0));
    assert_eq!(world.polled, ["acme/gadgets", "acme/widgets"]);
    assert_eq!(world.labels[0], ["build", "check", "cherry", "hetzner"]);
    assert_eq!(world.prefixes, ["ci-orc", "ci-orc"]);
}

#[test]
fn provisions_for_every_allowlisted_repository() {
    let mut world = world();
    world.jobs = Ok(vec![job("A")]);
    world.elsewhere = vec![job("B")];
    let mut orc = orchestrator();
    world.tick(&mut orc, clock(0));
    assert_eq!(world.created, [name("B"), name("A")]);
}

#[test]
fn registers_the_runner_in_the_repository_that_asked_for_it() {
    let mut world = world();
    world.elsewhere = vec![job("B")];
    let mut orc = orchestrator();
    world.tick(&mut orc, clock(0));
    assert_eq!(
        world.registered,
        [("acme/gadgets".to_string(), name("B"))]
    );
}

#[test]
fn one_repository_failing_to_poll_holds_back_every_sweep() {
    let mut world = world();
    world.jobs = Err("forgejo down".into());
    world.elsewhere = vec![job("B")];
    world.machines = vec![machine("gone")];
    let mut orc = orchestrator();
    world.tick(&mut orc, clock(0));
    world.tick(&mut orc, clock(15));
    assert!(
        world.destroyed.is_empty(),
        "a machine may belong to the queue we could not read"
    );
}

#[test]
fn provisions_once_for_a_handle_listed_twice() {
    let mut world = world();
    world.jobs = Ok(vec![job("A"), job("A")]);
    let mut orc = orchestrator();
    world.tick(&mut orc, clock(0));
    assert_eq!(world.created, [name("A")]);
}

#[test]
fn the_machine_cap_counts_machines_made_earlier_in_the_same_tick() {
    let mut world = world();
    world.jobs = Ok(vec![job("a"), job("b")]);
    let mut orc = capped();
    world.tick(&mut orc, clock(0));
    assert_eq!(
        world.created.len(),
        1,
        "max_vms = 1, but the tick-start snapshot showed an empty fleet for both jobs"
    );
    assert!(
        world.statuses.iter().any(|(state, text)| *state == StatusState::Error
            && text.contains("already has 1 machine(s) running")),
        "the second job should be told why it was refused: {:?}",
        world.statuses
    );
}

#[test]
fn a_tick_makes_as_many_machines_as_are_granted() {
    let mut world = world();
    world.jobs = Ok(vec![job("a"), job("b"), job("c")]);
    let mut orc = orchestrator();
    world.tick(&mut orc, clock(0));
    assert_eq!(world.created, [name("a"), name("b")]);
    assert!(world.statuses.contains(&(
        StatusState::Error,
        "acme/widgets already has 2 machine(s) running at hetzner".to_string()
    )));
}

#[test]
fn a_machine_that_was_listed_and_then_removed_by_hand_is_gone() {
    let mut world = world();
    world.jobs = Ok(vec![job("new")]);
    let mut orc = orchestrator();
    world.tick(&mut orc, clock(0));
    assert!(orc.unseen.contains_key(&name("new")));
    world.runners = vec![runner(42, "new")];
    world.jobs = Ok(Vec::new());
    world.tick(&mut orc, clock(15));
    world.machines = vec![machine("new")];
    world.tick(&mut orc, clock(30));
    assert!(orc.unseen.is_empty());
    world.machines = Vec::new();
    world.tick(&mut orc, clock(45));
    assert!(world.deleted.is_empty());
    world.tick(&mut orc, clock(344));
    assert!(world.deleted.is_empty());
    world.tick(&mut orc, clock(345));
    assert_eq!(world.deleted, [42]);
}

#[test]
fn without_a_grace_a_runner_still_outlasts_one_listing() {
    let mut config = draft();
    config.daemon.reconcile_grace_secs = 0;
    let mut orc = Orchestrator::new(accept(config));
    let mut world = world();
    world.runners = vec![runner(42, "vanished")];
    world.tick(&mut orc, clock(0));
    assert!(world.deleted.is_empty());
    world.tick(&mut orc, clock(0));
    assert_eq!(world.deleted, [42]);
}

#[test]
fn destroys_a_machine_past_its_lifetime_even_while_its_job_is_queued() {
    let mut world = world();
    world.jobs = Ok(vec![job("old")]);
    world.machines = vec![aged_machine("old", 200)];
    let mut orc = orchestrator();
    world.tick(&mut orc, clock(0));
    assert_eq!(
        world.destroyed,
        ["id-old"],
        "a powered-off machine still bills, so age must win over queue presence"
    );
}

#[test]
fn an_unreadable_queue_still_reaps_an_overdue_machine() {
    let mut world = world();
    world.jobs = Err("forgejo down".into());
    world.machines = vec![aged_machine("old", 200)];
    let mut orc = orchestrator();
    world.tick(&mut orc, clock(0));
    assert_eq!(world.destroyed, ["id-old"]);
}

#[test]
fn leaves_a_machine_that_is_still_within_its_lifetime() {
    let mut world = world();
    world.jobs = Ok(vec![job("young")]);
    world.machines = vec![aged_machine("young", 5)];
    let mut orc = orchestrator();
    world.tick(&mut orc, clock(0));
    assert!(world.destroyed.is_empty());
}

#[test]
fn a_machine_of_unknown_age_ages_from_its_first_sight() {
    let mut world = world();
    world.jobs = Ok(vec![job("odd")]);
    world.machines = vec![Machine {
        created_at: None,
        ..machine("odd")
    }];
    let mut orc = orchestrator();
    world.tick(&mut orc, clock(1000));
    world.tick(&mut orc, clock(1000 + 95 * 60));
    assert!(world.destroyed.is_empty());
    world.tick(&mut orc, clock(1000 + 95 * 60 + 1));
    assert_eq!(world.destroyed, ["id-odd"]);
    assert!(orc.first_seen.is_empty());
}

#[test]
fn a_running_job_keeps_its_machine() {
    let mut running = job("busy");
    running.status = "running".into();
    let mut world = world();
    world.jobs = Ok(vec![running]);
    world.machines = vec![machine("busy")];
    let mut orc = orchestrator();
    for round in 0..5 {
        world.tick(&mut orc, clock(round * 15));
    }
    assert!(
        world.destroyed.is_empty(),
        "Forgejo returns waiting AND running jobs, so liveness must ignore status"
    );
    assert!(
        world.created.is_empty(),
        "a running job must not be provisioned a second machine"
    );
}

#[test]
fn a_machine_that_was_never_listed_is_destroyed_at_its_end() {
    let mut world = world();
    world.jobs = Ok(vec![job("new")]);
    let mut orc = orchestrator();
    world.tick(&mut orc, clock(0));
    world.jobs = Ok(Vec::new());
    world.tick(&mut orc, clock(95 * 60));
    assert!(world.destroyed.is_empty());
    world.tick(&mut orc, clock(95 * 60 + 1));
    assert_eq!(world.destroyed, ["new"]);
    assert!(orc.unseen.is_empty());
}

#[test]
fn a_provider_that_cannot_be_listed_keeps_its_machines() {
    let mut world = world();
    world.jobs = Ok(vec![job("new")]);
    let mut orc = orchestrator();
    world.tick(&mut orc, clock(0));
    world.jobs = Ok(Vec::new());
    world.machines = vec![aged_machine("old", 200)];
    world.list_fails = true;
    for pass in 0..3 {
        world.tick(&mut orc, clock(96 * 60 + pass));
    }
    assert!(world.destroyed.is_empty());
    let mut kept: Vec<String> = Vec::new();
    for at in 0..orc.unseen.len() {
        assert_eq!(orc.unseen.key_at(at), orc.unseen.value_at(at).1.name);
        kept.push(orc.unseen.key_at(at).to_string());
    }
    assert_eq!(kept, [name("new")]);
    world.list_fails = false;
    world.tick(&mut orc, clock(96 * 60 + 3));
    assert_eq!(world.destroyed, ["id-old", "new"]);
}

#[test]
fn a_failed_destruction_raises_the_alarm_and_is_tried_again() {
    let mut world = world();
    world.machines = vec![aged_machine("old", 200)];
    world.destroy_fails = true;
    let mut orc = orchestrator();
    world.tick(&mut orc, clock(0));
    assert!(world.alerts().contains(&(Kind::SweepFailed, name("old"))));
    assert_eq!(orc.alerts.count(Kind::SweepFailed, &name("old")), 1);
    world.destroy_fails = false;
    world.tick(&mut orc, clock(15));
    assert_eq!(world.destroyed[0], "id-old");
    assert_eq!(orc.alerts.count(Kind::SweepFailed, &name("old")), 0);
    assert_eq!(orc.alerts.count(Kind::Abandoned, &name("old")), 0);
}

#[test]
fn tries_every_plan_in_every_location() {
    let mut world = world();
    world.jobs = Ok(vec![job("new")]);
    world.rejected_placements = 2;
    let mut orc = orchestrator();
    world.tick(&mut orc, clock(0));
    assert_eq!(world.tried, ["cx43/fsn1", "cx43/nbg1", "cx53/fsn1"]);
    assert_eq!(world.statuses[1].1, "running on cx53 in fsn1");
}

#[test]
fn a_machine_that_fits_nowhere_leaves_no_runner() {
    let mut world = world();
    world.jobs = Ok(vec![job("new")]);
    world.rejected_placements = 100;
    let mut orc = orchestrator();
    world.tick(&mut orc, clock(0));
    assert_eq!(world.tried.len(), 4);
    assert_eq!(world.deleted, [1]);
    assert_eq!(world.statuses[1], (StatusState::Error, "no capacity".to_string()));
    assert!(world.notices.iter().any(|notice| matches!(
        notice,
        Notice::Alert(raised) if raised.kind == Kind::CreateFailed
            && raised.subject == "new"
            && raised.detail == "no capacity: in full"
    )));
    assert!(orc.unseen.is_empty());
}

#[test]
fn a_job_whose_run_cannot_be_read_raises_the_alarm() {
    let mut world = world();
    world.jobs = Ok(vec![job("new")]);
    world.run_fails = true;
    let mut orc = orchestrator();
    world.tick(&mut orc, clock(0));
    assert!(world.created.is_empty());
    assert!(world.alerts().contains(&(Kind::CreateFailed, "new".to_string())));
}

#[test]
fn a_refused_job_is_told_on_its_commit() {
    let mut world = world();
    world.jobs = Ok(vec![job("new")]);
    world.event = "push";
    let mut orc = orchestrator();
    world.tick(&mut orc, clock(0));
    world.tick(&mut orc, clock(15));
    let why = "class check-hetzner is not available to push events";
    assert_eq!(world.statuses.len(), 2);
    assert!(world.statuses.iter().all(|(state, text)| *state == StatusState::Error
        && text == why));
    let told = world
        .notices
        .iter()
        .filter(|notice| matches!(notice, Notice::Refused(_, _)))
        .count();
    assert_eq!(told, 1);
    world.jobs = Ok(Vec::new());
    world.tick(&mut orc, clock(30));
    assert!(orc.refusals.is_empty());
}

#[test]
fn an_answer_to_another_question_changes_nothing() {
    let mut orc = orchestrator();
    assert!(!orc.answer(Event::StatusSet, clock(0)));
    orc.tick();
    assert!(matches!(
        orc.advance(clock(0)),
        Turn::Ask(Request::List(Provider::Cherry, _))
    ));
    assert!(!orc.answer(Event::StatusSet, clock(0)));
    assert!(orc.answer(Event::Listed(Ok(Vec::new())), clock(0)));
    assert!(matches!(
        orc.advance(clock(0)),
        Turn::Ask(Request::List(Provider::Hetzner, _))
    ));
}
