//! What a tick does, told by what is asked for and what is answered.

use vstd::prelude::*;

use super::grants;
use super::laws;
use super::provision;
use super::sweep;
use super::task::{
    AttemptView, Clock, Event, Fault, NoticeView, OrderView, QueuedView, ReportView, RequestView,
    TaskView,
};
use super::tick;
use super::State;
use crate::alert::Kind;
use crate::config;
use crate::config::accept;
use crate::config::kinds;
use crate::config::{ClassView, Config, Provider, RepoView};
use crate::forgejo;
use crate::forgejo::{Registration, Run, StatusState};
use crate::naming;
use crate::policy;
use crate::provider::{Machine, Moment, PlacementView};
use crate::text;

verus! {

/// The name is one of ours and carries the handle: the prefix and a hyphen stand at
/// its beginning, a hyphen and the handle at its end.
pub open spec fn carries(config: &Config, name: Seq<char>, handle: Seq<char>) -> bool {
    &&& exists|rest: Seq<char>| name == config.daemon.machine_prefix@ + "-"@ + rest
    &&& exists|front: Seq<char>|
        name == #[trigger] (front + ("-"@ + naming::truncated(handle)))
}

/// A machine of this name is listed at the provider.
pub open spec fn stands_at(s: State, provider: Provider, name: Seq<char>) -> bool {
    exists|at: int|
        {
            &&& 0 <= at < s.fleet.len()
            &&& (#[trigger] s.fleet[at]).0 == provider
            &&& s.fleet[at].1.name@ == name
            &&& forall|j: int| 0 <= j < at ==> (#[trigger] s.fleet[j]).1.name@ != name
        }
}

/// A job of the repository, whatever its status, is in the queue, and the name carries
/// its handle.
pub open spec fn has_job(config: &Config, s: State, repo: RepoView, name: Seq<char>) -> bool {
    exists|i: int|
        0 <= i < s.queued.len() && (#[trigger] s.queued[i]).repo == repo && carries(
            config,
            name,
            s.queued[i].job.handle,
        )
}

proof fn lemma_carries(config: &Config, s: State, repo: RepoView, name: Seq<char>)
    ensures
        has_job(config, s, repo, name) <==> provision::serves_repo(config, s, repo, name),
{
    let head = config.daemon.machine_prefix@ + "-"@;
    if has_job(config, s, repo, name) {
        let i = choose|i: int|
            0 <= i < s.queued.len() && (#[trigger] s.queued[i]).repo == repo && carries(
                config,
                name,
                s.queued[i].job.handle,
            );
        let rest = choose|rest: Seq<char>| name == config.daemon.machine_prefix@ + "-"@ + rest;
        let tail = "-"@ + naming::truncated(s.queued[i].job.handle);
        let front = choose|front: Seq<char>| name == #[trigger] (front + tail);
        assert(head =~= name.subrange(0, head.len() as int));
        assert(tail =~= name.subrange(name.len() - tail.len(), name.len() as int));
        assert(naming::ends_in(name, naming::truncated(s.queued[i].job.handle)));
    }
    if provision::serves_repo(config, s, repo, name) {
        let i = choose|i: int|
            0 <= i < s.queued.len() && (#[trigger] s.queued[i]).repo == repo && naming::ends_in(
                name,
                naming::truncated(s.queued[i].job.handle),
            );
        let tail = "-"@ + naming::truncated(s.queued[i].job.handle);
        let front = name.take(name.len() - tail.len());
        assert(name =~= front + tail);
        assert(name =~= head + name.skip(head.len() as int));
        assert(carries(config, name, s.queued[i].job.handle));
    }
}

/// A machine that is listed at a provider counts against the grant of a repository as
/// long as the queue of the repository holds its job, waiting or running.
pub proof fn law_the_machine_of_every_job_counts(
    config: &Config,
    s: State,
    repo: RepoView,
    provider: Provider,
    name: Seq<char>,
)
    requires
        stands_at(s, provider, name),
        has_job(config, s, repo, name),
    ensures
        provision::counted_names(config, s, repo, provider).contains(name),
{
    lemma_carries(config, s, repo, name);
    let at = choose|at: int|
        {
            &&& 0 <= at < s.fleet.len()
            &&& (#[trigger] s.fleet[at]).0 == provider
            &&& s.fleet[at].1.name@ == name
            &&& forall|j: int| 0 <= j < at ==> (#[trigger] s.fleet[j]).1.name@ != name
        };
    assert(provision::first_listed(s.fleet, name, at) && s.fleet[at].0 == provider);
}

/// A machine that was made and that no listing shows yet counts in the same way.
pub proof fn law_an_unlisted_machine_counts(
    config: &Config,
    s: State,
    repo: RepoView,
    provider: Provider,
    name: Seq<char>,
)
    requires
        s.unseen.contains_key(name),
        s.unseen[name].0 == provider,
        forall|i: int| 0 <= i < s.fleet.len() ==> (#[trigger] s.fleet[i]).1.name@ != name,
        has_job(config, s, repo, name),
    ensures
        provision::counted_names(config, s, repo, provider).contains(name),
{
    lemma_carries(config, s, repo, name);
}

/// Nothing else counts: neither a machine elsewhere, nor one of another repository's
/// jobs, nor one whose job is gone.
pub proof fn law_nothing_else_counts(
    config: &Config,
    s: State,
    repo: RepoView,
    provider: Provider,
    name: Seq<char>,
)
    requires
        provision::counted_names(config, s, repo, provider).contains(name),
        forall|i: int|
            0 <= i < s.pending.len() ==> !((#[trigger] s.pending[i]).repo == repo
                && s.pending[i].provider == provider && s.pending[i].name == name),
    ensures
        has_job(config, s, repo, name),
        stands_at(s, provider, name) || (s.unseen.contains_key(name) && s.unseen[name].0
            == provider),
{
    lemma_carries(config, s, repo, name);
    assert(!provision::made_names(s, repo, provider).contains(name));
    assert(provision::live_names(config, s, repo, provider).contains(name));
    if exists|at: int| #[trigger]
        provision::first_listed(s.fleet, name, at) && s.fleet[at].0 == provider {
        let at = choose|at: int| #[trigger]
            provision::first_listed(s.fleet, name, at) && s.fleet[at].0 == provider;
        assert(s.fleet[at].0 == provider);
    }
}

/// The most machines that the configuration grants the repository at the provider.
pub open spec fn allows(config: &Config, repo: RepoView, provider: Provider) -> nat {
    let key = repo.owner + "/"@ + repo.name;
    if config.grants@.contains_key(key) && config.grants@[key].max_vms@.contains_key(provider) {
        config.grants@[key].max_vms@[provider] as nat
    } else {
        0
    }
}

/// The class wants exactly the labels of the job.
pub open spec fn wants(class: ClassView, runs_on: Seq<Seq<char>>) -> bool {
    &&& class.labels.len() == runs_on.len()
    &&& runs_on.len() > 0
    &&& forall|i: int|
        0 <= i < class.labels.len() ==> runs_on.contains(#[trigger] class.labels[i])
}

pub(super) proof fn lemma_wanted(config: &Config, c: int, runs_on: Seq<Seq<char>>)
    requires
        config.accepted(),
        0 <= c < config.class_views().len(),
        wants(config.class_views()[c], runs_on),
    ensures
        policy::resolved(config, runs_on) == Ok::<ClassView, policy::DenialView>(
            config.class_views()[c],
        ),
{
    let classes = config.class_views();
    assert(classes[c].matches(runs_on));
    assert forall|j: int| 0 <= j < c implies !(#[trigger] classes[j]).matches(runs_on) by {
        if classes[j].matches(runs_on) {
            accept::law_one_class_answers(config, runs_on, j, c);
        }
    }
    assert(config::answers(classes, runs_on, c));
    let at = choose|at: int| config::answers(classes, runs_on, at);
    assert(config::answers(classes, runs_on, at));
    accept::law_one_class_answers(config, runs_on, at, c);
}

/// The tasks that an answer put in front of the others.
pub open spec fn put_in_front(s: State, after: State) -> Seq<TaskView> {
    after.agenda.take(after.agenda.len() - s.agenda.len() + 1)
}

/// With as many machines at the provider of its class as its repository was granted,
/// whatever the status of their jobs, a job gets no runner and no machine.
pub proof fn law_a_full_grant_makes_nothing(
    config: &Config,
    s: State,
    entry: QueuedView,
    run: Run,
    now: u64,
    c: int,
    names: Set<Seq<char>>,
)
    requires
        config.accepted(),
        s.agenda.len() > 0,
        s.agenda[0] == TaskView::Arrived(entry),
        0 <= c < config.class_views().len(),
        wants(config.class_views()[c], entry.job.runs_on),
        s.unseen.dom().finite(),
        forall|name: Seq<char>| #[trigger]
            names.contains(name) ==> stands_at(s, config.class_views()[c].provider, name)
                && has_job(config, s, entry.repo, name),
        names.len() >= allows(config, entry.repo, config.class_views()[c].provider),
    ensures
        ({
            let after = tick::answered(config, s, Event::RunRead(Ok(run)), now);
            grants::makes_nothing(put_in_front(s, after))
        }),
{
    let class = config.class_views()[c];
    let rest = s.taken();
    let counted = provision::counted_names(config, rest, entry.repo, class.provider);
    lemma_wanted(config, c, entry.job.runs_on);
    laws::lemma_counted_finite(config, rest, entry.repo, class.provider);
    assert forall|name: Seq<char>| names.contains(name) implies counted.contains(name) by {
        assert(stands_at(s, class.provider, name) && has_job(config, s, entry.repo, name));
        assert(rest.queued == s.queued && rest.fleet == s.fleet);
        let i = choose|i: int|
            0 <= i < s.queued.len() && (#[trigger] s.queued[i]).repo == entry.repo && carries(
                config,
                name,
                s.queued[i].job.handle,
            );
        assert(rest.queued[i].repo == entry.repo);
        assert(carries(config, name, rest.queued[i].job.handle));
        law_the_machine_of_every_job_counts(config, rest, entry.repo, class.provider, name);
    }
    vstd::set_lib::lemma_len_subset(names, counted);
    let after = tick::answered(config, s, Event::RunRead(Ok(run)), now);
    assert(policy::refusal(
        config,
        class,
        entry.repo,
        forgejo::triggering(run),
        run.is_fork_pull_request,
        provision::running(config, rest, entry.repo, class.provider),
    ) is Some);
    let tasks = put_in_front(s, after);
    assert(tasks.len() == 1);
    assert(tasks[0] is Tell);
}

/// The event that the run goes by.
pub open spec fn goes_by(run: Run, event: Seq<char>) -> bool {
    let own = run.trigger_event@;
    if own == "workflow_dispatch"@ || own == "schedule"@ || own == "package"@ || run.event@.len()
        == 0 {
        event == own
    } else {
        event == run.event@
    }
}

/// Whatever is decided on a job once its run was read, each status that is told of it
/// goes to its repository and to the commit that the payload of the run names: the head
/// of the pull request, or what was pushed, and the commit of the run only where the
/// payload names none. A machine that is ordered is reported on the same commit.
pub proof fn law_statuses_go_to_the_commit_of_the_run(
    config: &Config,
    s: State,
    entry: QueuedView,
    run: Run,
    event: Seq<char>,
    now: u64,
)
    requires
        s.agenda.len() > 0,
        s.agenda[0] == TaskView::Arrived(entry),
        goes_by(run, event),
    ensures
        ({
            let after = tick::answered(config, s, Event::RunRead(Ok(run)), now);
            let tasks = put_in_front(s, after);
            &&& after.agenda == tasks + s.agenda.drop_first()
            &&& forall|i: int|
                0 <= i < tasks.len() ==> match #[trigger] tasks[i] {
                    TaskView::Tell(report) => {
                        &&& report.repo == entry.repo
                        &&& forgejo::is_reported_on(run, event, report.sha)
                        &&& report.url == match run.html_url {
                            Some(url) => Some(url@),
                            None => None,
                        }
                    },
                    TaskView::Register(order) => {
                        &&& order.queued == entry
                        &&& forgejo::is_reported_on(run, event, order.sha)
                        &&& order.url == match run.html_url {
                            Some(url) => Some(url@),
                            None => None,
                        }
                    },
                    _ => false,
                }
        }),
{
    forgejo::lemma_reported_on(run);
    let after = tick::answered(config, s, Event::RunRead(Ok(run)), now);
    let tasks = put_in_front(s, after);
    assert(after.agenda =~= tasks + s.agenda.drop_first());
}

/// A status that is to be told is posted on its commit as it stands; where there is no
/// commit, nothing is posted.
pub proof fn law_a_status_is_posted_as_it_stands(
    config: &Config,
    s: State,
    report: ReportView,
    clock: Clock,
)
    requires
        s.agenda.len() > 0,
        s.agenda[0] == TaskView::Tell(report),
    ensures
        match tick::begun(config, s, clock).1 {
            Some(RequestView::SetStatus(status)) => {
                &&& report.sha == Some(status.sha)
                &&& status.repo == report.repo
                &&& status.url == report.url
                &&& status.state == report.state
                &&& status.description == report.description
            },
            Some(_) => false,
            None => report.sha is None,
        },
{
}

/// The machine that was ordered is tried where the class says, plan by plan, and from
/// the registration of its runner on keeps its order.
pub proof fn law_a_registered_runner_gets_its_machine(
    config: &Config,
    s: State,
    order: OrderView,
    registration: Registration,
    now: u64,
)
    requires
        s.agenda.len() > 0,
        s.agenda[0] == TaskView::Register(order),
    ensures
        ({
            let after = tick::answered(config, s, Event::Registered(Ok(registration)), now);
            &&& after.agenda.len() == s.agenda.len()
            &&& after.agenda[0] matches TaskView::Create(attempt)
            &&& attempt.order == order
            &&& attempt.registration == registration.id
            &&& attempt.last is None
            &&& attempt.placements.len() == order.class.plans.len() * order.class.locations.len()
                || order.class.plans.len() == 0 || order.class.locations.len() == 0
            &&& forall|plan: int, location: int|
                0 <= plan < order.class.plans.len() && 0 <= location < order.class.locations.len()
                    ==> attempt.placements[#[trigger] (plan * order.class.locations.len()
                    + location)] == (PlacementView {
                    plan: order.class.plans[plan],
                    location: order.class.locations[location],
                })
        }),
{
    let class = order.class;
    if class.plans.len() > 0 && class.locations.len() > 0 {
        crate::provider::law_every_plan_in_every_location(class, 0, 0);
    }
    assert forall|plan: int, location: int|
        0 <= plan < class.plans.len() && 0 <= location < class.locations.len() implies
        crate::provider::placements_of(class, class.plans.len())[#[trigger] (plan
            * class.locations.len() + location)] == (PlacementView {
        plan: class.plans[plan],
        location: class.locations[location],
    }) by {
        crate::provider::law_every_plan_in_every_location(class, plan, location);
    }
}

/// A machine is asked for under its name, at the provider of its class, in the next
/// placement, with the image and the key of its class and with its user data.
pub proof fn law_a_machine_is_asked_for_as_ordered(
    config: &Config,
    s: State,
    attempt: AttemptView,
    clock: Clock,
)
    requires
        s.agenda.len() > 0,
        s.agenda[0] == TaskView::Create(attempt),
        attempt.placements.len() > 0,
    ensures
        tick::begun(config, s, clock).1 matches Some(RequestView::Create(creation)) && {
            &&& creation.kind == attempt.order.class.provider
            &&& creation.name == attempt.order.name
            &&& creation.plan == attempt.placements[0].plan
            &&& creation.location == attempt.placements[0].location
            &&& creation.image == attempt.order.class.image
            &&& creation.ssh_key == attempt.order.class.ssh_key
            &&& creation.user_data == attempt.user_data
        },
{
}

/// A machine that was made is kept in mind under its name and told of on the commit,
/// with the plan and the location it got; the failures of its job are forgotten.
pub proof fn law_a_made_machine_is_told_of(
    config: &Config,
    s: State,
    attempt: AttemptView,
    machine: Machine,
    now: u64,
)
    requires
        s.agenda.len() > 0,
        s.agenda[0] == TaskView::Create(attempt),
        attempt.placements.len() > 0,
    ensures
        ({
            let after = tick::answered(config, s, Event::Created(Ok(machine)), now);
            &&& after.unseen.contains_key(machine.name@)
            &&& after.unseen[machine.name@] == (attempt.order.class.provider, machine)
            &&& after.agenda.len() == s.agenda.len()
            &&& after.agenda[0] matches TaskView::Tell(report)
            &&& report.repo == attempt.order.queued.repo
            &&& report.sha == attempt.order.sha
            &&& report.url == attempt.order.url
            &&& report.state == StatusState::Success
            &&& report.description == "running on "@ + (attempt.placements[0].plan + " in "@
                + attempt.placements[0].location)
            &&& !after.streaks.contains_key("create_failed"@ + " "@
                + attempt.order.queued.job.handle)
        }),
{
}

/// A job that gets no machine, and one whose machine fits nowhere, is told why on its
/// commit, as an error; one that gets a machine is told that it is being made.
pub proof fn law_a_job_is_told_what_becomes_of_it(
    config: &Config,
    s: State,
    entry: QueuedView,
    run: Run,
    now: u64,
)
    requires
        s.agenda.len() > 0,
        s.agenda[0] == TaskView::Arrived(entry),
    ensures
        ({
            let after = tick::answered(config, s, Event::RunRead(Ok(run)), now);
            let tasks = put_in_front(s, after);
            &&& tasks.len() <= 2
            &&& tasks.len() == 1 ==> {
                &&& tasks[0] matches TaskView::Tell(report)
                &&& report.state == StatusState::Error
                &&& after.refusals.contains_key(entry.job.handle)
                &&& after.refusals[entry.job.handle] == report.description
            }
            &&& tasks.len() == 2 ==> {
                &&& tasks[0] matches TaskView::Tell(report)
                &&& report.state == StatusState::Pending
                &&& tasks[1] matches TaskView::Register(order)
                &&& report.description == "provisioning a "@ + text::joined(
                    order.class.labels,
                    "-"@,
                ) + " machine"@
                &&& order.name == config.daemon.machine_prefix@ + "-"@ + text::joined(
                    order.class.labels,
                    "-"@,
                ) + "-"@ + naming::truncated(entry.job.handle)
            }
            &&& tasks.len() == 0 ==> after.notices.len() == s.notices.len() + 1
                && after.notices.last() is HeldBack && after.refusals == s.refusals
        }),
{
}

/// A run that cannot be read raises the alarm over its job, and nothing is decided.
pub proof fn law_an_unread_run_decides_nothing(
    config: &Config,
    s: State,
    entry: QueuedView,
    fault: Fault,
    now: u64,
)
    requires
        s.agenda.len() > 0,
        s.agenda[0] == TaskView::Arrived(entry),
    ensures
        ({
            let after = tick::answered(config, s, Event::RunRead(Err(fault)), now);
            &&& after.agenda == s.agenda.drop_first()
            &&& after.notices.len() == s.notices.len() + 1
            &&& after.notices.last() matches NoticeView::Alert(raised)
            &&& raised.kind == Kind::CreateFailed
            &&& raised.subject == entry.job.handle
            &&& raised.detail == fault.detail@
        }),
{
}

/// How many whole seconds the machine may become old, as one of the class.
pub open spec fn seconds_of(config: &Config, class: ClassView) -> int {
    class.lifetime_minutes * 60 + config.daemon.reconcile_grace_secs
}

proof fn lemma_limit(config: &Config, c: int, handle: Seq<char>)
    requires
        config.accepted(),
        0 <= c < config.class_views().len(),
        forall|j: int|
            0 <= j < c ==> (#[trigger] config.class_views()[j]).name()
                != config.class_views()[c].name(),
    ensures
        sweep::limit_of(
            config,
            naming::machine_name_of(
                config.daemon.machine_prefix@,
                config.class_views()[c].name(),
                handle,
            ),
        ) == seconds_of(config, config.class_views()[c]),
{
    let classes = config.class_views();
    accept::law_machine_leads_back_to_its_class(config, c, handle);
    assert(config::class_names(classes)[c] == classes[c].name());
    assert(config::is_named(classes, classes[c].name(), c));
    let at = choose|at: int| config::is_named(classes, classes[c].name(), at);
    assert(config::is_named(classes, classes[c].name(), at));
    assert(at == c);
}

/// A machine of a class is overdue exactly when its age is over the lifetime of that
/// very class and the grace, in nanoseconds. The class is the first of its name.
pub proof fn law_a_machine_is_overdue_by_its_class(
    config: &Config,
    s: State,
    c: int,
    handle: Seq<char>,
    machine: Machine,
    clock: Clock,
)
    requires
        config.accepted(),
        0 <= c < config.class_views().len(),
        forall|j: int|
            0 <= j < c ==> (#[trigger] config.class_views()[j]).name()
                != config.class_views()[c].name(),
        machine.name@ == naming::machine_name_of(
            config.daemon.machine_prefix@,
            config.class_views()[c].name(),
            handle,
        ),
    ensures
        sweep::is_overdue(config, s, machine, clock) <==> sweep::age_of(s, machine, clock) > (
        config.class_views()[c].lifetime_minutes * 60 + config.daemon.reconcile_grace_secs)
            * 1_000_000_000,
{
    lemma_limit(config, c, handle);
}

/// A machine of a class, made at a known time, is destroyed for its age exactly when
/// more whole seconds have passed than the lifetime of that very class and the grace
/// make, be the class long-lived or short-lived. The class is the first of its name.
pub proof fn law_each_class_has_its_own_lifetime(
    config: &Config,
    s: State,
    c: int,
    handle: Seq<char>,
    kind: Provider,
    machine: Machine,
    created: Moment,
    clock: Clock,
)
    requires
        config.accepted(),
        0 <= c < config.class_views().len(),
        forall|j: int|
            0 <= j < c ==> text::joined((#[trigger] config.class_views()[j]).labels, "-"@)
                != text::joined(config.class_views()[c].labels, "-"@),
        machine.name@ == config.daemon.machine_prefix@ + "-"@ + text::joined(
            config.class_views()[c].labels,
            "-"@,
        ) + "-"@ + naming::truncated(handle),
        machine.created_at == Some(created),
        s.agenda.len() > 0,
        s.agenda[0] == TaskView::Overdue(kind, machine) || s.agenda[0] == TaskView::Unseen(
            kind,
            machine,
        ),
    ensures
        tick::begun(config, s, clock).1 == if (clock.wall.seconds - created.seconds)
            * 1_000_000_000 + (clock.wall.nanos - created.nanos) >= (seconds_of(
            config,
            config.class_views()[c],
        ) + 1) * 1_000_000_000 {
            Some(RequestView::Destroy(kind, machine.id@))
        } else {
            None
        },
{
    let classes = config.class_views();
    assert forall|j: int| 0 <= j < c implies (#[trigger] classes[j]).name()
        != classes[c].name() by {
        assert(text::joined(classes[j].labels, "-"@) != text::joined(classes[c].labels, "-"@));
    }
    lemma_limit(config, c, handle);
    assert(machine.name@ == naming::machine_name_of(
        config.daemon.machine_prefix@,
        classes[c].name(),
        handle,
    ));
}

/// A machine of a class whose age nobody tells is destroyed for its age exactly when it
/// was first seen longer ago than the lifetime of its class and the grace; at first
/// sight it stays, and the time is noted.
pub proof fn law_an_unknown_age_counts_from_first_sight(
    config: &Config,
    s: State,
    c: int,
    handle: Seq<char>,
    kind: Provider,
    machine: Machine,
    clock: Clock,
)
    requires
        config.accepted(),
        0 <= c < config.class_views().len(),
        forall|j: int|
            0 <= j < c ==> text::joined((#[trigger] config.class_views()[j]).labels, "-"@)
                != text::joined(config.class_views()[c].labels, "-"@),
        machine.name@ == config.daemon.machine_prefix@ + "-"@ + text::joined(
            config.class_views()[c].labels,
            "-"@,
        ) + "-"@ + naming::truncated(handle),
        machine.created_at is None,
        s.agenda.len() > 0,
        s.agenda[0] == TaskView::Overdue(kind, machine),
    ensures
        s.first_seen.contains_key(machine.name@) ==> {
            &&& tick::begun(config, s, clock).0.first_seen == s.first_seen
            &&& tick::begun(config, s, clock).1 == if clock.ticks - s.first_seen[machine.name@]
                > seconds_of(config, config.class_views()[c]) * 1_000_000_000 {
                Some(RequestView::Destroy(kind, machine.id@))
            } else {
                None
            }
        },
        !s.first_seen.contains_key(machine.name@) ==> {
            &&& tick::begun(config, s, clock).1 is None
            &&& tick::begun(config, s, clock).0.first_seen == s.first_seen.insert(
                machine.name@,
                clock.ticks,
            )
        },
{
    let classes = config.class_views();
    assert forall|j: int| 0 <= j < c implies (#[trigger] classes[j]).name()
        != classes[c].name() by {
        assert(text::joined(classes[j].labels, "-"@) != text::joined(classes[c].labels, "-"@));
    }
    lemma_limit(config, c, handle);
}

/// A machine that no class explains outlives no machine of any class, and lives as long
/// as the longest-lived of them may.
pub proof fn law_an_unexplained_machine_lives_as_long_as_any(config: &Config, name: Seq<char>)
    requires
        !sweep::explained(config, name),
        config.class_views().len() > 0,
    ensures
        forall|c: int|
            0 <= c < config.class_views().len() ==> seconds_of(
                config,
                #[trigger] config.class_views()[c],
            ) <= sweep::limit_of(config, name),
        exists|c: int|
            0 <= c < config.class_views().len() && seconds_of(
                config,
                #[trigger] config.class_views()[c],
            ) == sweep::limit_of(config, name),
{
    let classes = config.class_views();
    config::laws::lemma_longest(classes, classes.len());
    let c = choose|c: int|
        0 <= c < classes.len() && (#[trigger] classes[c]).lifetime_minutes == config::longest_of(
            classes,
            classes.len(),
        );
    assert(seconds_of(config, classes[c]) == sweep::limit_of(config, name));
}

/// A machine that was destroyed is forgotten altogether; one that could not be raises
/// the alarm, and nothing of it is forgotten but that it was never listed.
pub proof fn law_a_destroyed_machine_is_forgotten(
    config: &Config,
    s: State,
    kind: Provider,
    machine: Machine,
    outcome: Result<(), Fault>,
    now: u64,
)
    requires
        s.agenda.len() > 0,
        s.agenda[0] == TaskView::Overdue(kind, machine) || s.agenda[0] == TaskView::Departed(
            kind,
            machine,
        ) || s.agenda[0] == TaskView::Unseen(kind, machine),
    ensures
        ({
            let after = tick::answered(config, s, Event::Destroyed(outcome), now);
            let name = machine.name@;
            &&& after.agenda == s.agenda.drop_first()
            &&& outcome is Ok ==> {
                &&& !after.unseen.contains_key(name)
                &&& !after.first_seen.contains_key(name)
                &&& !after.missed_polls.contains_key(name)
                &&& !after.streaks.contains_key("sweep_failed"@ + " "@ + name)
                &&& !after.streaks.contains_key("abandoned_machine"@ + " "@ + name)
                &&& after.notices == s.notices
            }
            &&& outcome matches Err(fault) ==> {
                &&& after.first_seen == s.first_seen
                &&& after.missed_polls == s.missed_polls
                &&& after.notices.len() == s.notices.len() + 1
                &&& after.notices.last() matches NoticeView::Alert(raised)
                &&& raised.kind == Kind::SweepFailed
                &&& raised.subject == name
                &&& raised.detail == fault.detail@
            }
            &&& s.agenda[0] is Unseen ==> !after.unseen.contains_key(name)
            &&& outcome is Err && !(s.agenda[0] is Unseen) ==> after.unseen == s.unseen
        }),
{
}

/// A listing adds its machines, each at its provider, and ends the provider's streak; a
/// listing that failed makes the provider one that is left alone, and raises the alarm.
pub proof fn law_a_listing_is_taken_in(
    config: &Config,
    s: State,
    kind: Provider,
    outcome: Result<Vec<Machine>, Fault>,
    now: u64,
)
    requires
        s.agenda.len() > 0,
        s.agenda[0] == TaskView::List(kind),
    ensures
        ({
            let after = tick::answered(config, s, Event::Listed(outcome), now);
            let title = match kind {
                Provider::Cherry => "Cherry"@,
                Provider::Gcore => "Gcore"@,
                Provider::Hetzner => "Hetzner"@,
                Provider::Scaleway => "Scaleway"@,
                Provider::Vultr => "Vultr"@,
            };
            &&& after.agenda == s.agenda.drop_first()
            &&& after.queued == s.queued
            &&& outcome matches Ok(machines) ==> {
                &&& after.blind == s.blind
                &&& after.fleet.len() == s.fleet.len() + machines@.len()
                &&& forall|i: int| 0 <= i < s.fleet.len() ==> after.fleet[i] == s.fleet[i]
                &&& forall|i: int|
                    0 <= i < machines@.len() ==> #[trigger] after.fleet[s.fleet.len() + i] == (
                        kind,
                        machines@[i],
                    )
                &&& !after.streaks.contains_key("poll_failed"@ + " "@ + title)
            }
            &&& outcome matches Err(fault) ==> {
                &&& after.fleet == s.fleet
                &&& after.unseen == s.unseen
                &&& after.blind == s.blind.push(kind)
                &&& after.notices.last() matches NoticeView::Alert(raised)
                &&& raised.kind == Kind::PollFailed
                &&& raised.subject == title
                &&& raised.detail == fault.detail@
            }
        }),
{
}

/// A queue that was read adds its jobs, each under its repository, and ends the
/// repository's streak; one that could not be read holds back what depends on all of
/// them, and raises the alarm.
pub proof fn law_a_queue_is_taken_in(
    config: &Config,
    s: State,
    repo: RepoView,
    outcome: Result<Vec<forgejo::Job>, Fault>,
    now: u64,
)
    requires
        s.agenda.len() > 0,
        s.agenda[0] == TaskView::Poll(repo),
    ensures
        ({
            let after = tick::answered(config, s, Event::Polled(outcome), now);
            let title = repo.owner + "/"@ + repo.name;
            &&& after.agenda == s.agenda.drop_first()
            &&& after.fleet == s.fleet
            &&& outcome matches Ok(jobs) ==> {
                &&& after.all_queues_read == s.all_queues_read
                &&& after.queued.len() == s.queued.len() + jobs@.len()
                &&& forall|i: int| 0 <= i < s.queued.len() ==> after.queued[i] == s.queued[i]
                &&& forall|i: int|
                    0 <= i < jobs@.len() ==> #[trigger] after.queued[s.queued.len() + i] == (
                    QueuedView { repo, job: jobs@[i]@ })
                &&& !after.streaks.contains_key("poll_failed"@ + " "@ + title)
            }
            &&& outcome matches Err(fault) ==> {
                &&& after.queued == s.queued
                &&& !after.all_queues_read
                &&& after.notices.last() matches NoticeView::Alert(raised)
                &&& raised.kind == Kind::PollFailed
                &&& raised.subject == title
                &&& raised.detail == fault.detail@
            }
        }),
{
}

/// Each request is about what its task is about.
pub proof fn law_requests_are_about_their_tasks(config: &Config, s: State, clock: Clock)
    requires
        s.agenda.len() > 0,
    ensures
        match (s.agenda[0], tick::begun(config, s, clock).1) {
            (TaskView::List(kind), asked) => asked == Some(
                RequestView::List(kind, config.daemon.machine_prefix@),
            ),
            (TaskView::Poll(repo), asked) => asked matches Some(RequestView::Poll(other, labels))
                && other == repo && labels == config::labels_of(config.class_views()),
            (TaskView::Runners(repo), asked) => asked == Some(RequestView::Runners(repo)),
            (TaskView::Arrived(entry), Some(asked)) => asked == RequestView::Run(
                entry.repo,
                entry.job.run_id,
            ),
            (TaskView::Register(order), asked) => asked == Some(
                RequestView::Register(order.queued.repo, order.name),
            ),
            (TaskView::Cleanup(repo, id), asked) => asked == Some(
                RequestView::DeleteRunner(repo, id),
            ),
            (TaskView::Runner(repo, id, _), Some(asked)) => asked == RequestView::DeleteRunner(
                repo,
                id,
            ),
            (TaskView::Plan, asked) => asked is None,
            (TaskView::SweepUnseen, asked) => asked is None,
            (TaskView::Forget, asked) => asked is None,
            (TaskView::Reap, asked) => asked is None,
            (TaskView::SettleRunners, asked) => asked is None,
            (TaskView::Arrivals, asked) => asked is None,
            (TaskView::Fail(_, _), asked) => asked is None,
            _ => true,
        },
{
}

/// A tick lists every provider that has a table and reads the queue of every
/// repository, each once, before it plans anything; what was listed and read before is
/// forgotten.
pub proof fn law_a_tick_looks_at_everything(config: &Config, s: State)
    ensures
        ({
            let after = tick::started(config, s);
            &&& after.fleet.len() == 0
            &&& after.blind.len() == 0
            &&& after.queued.len() == 0
            &&& after.all_queues_read
            &&& forall|kind: Provider| #[trigger]
                after.agenda.contains(TaskView::List(kind)) <==> config.providers@.contains_key(
                    kind,
                )
            &&& forall|i: int|
                0 <= i < config.repos@.len() ==> #[trigger] after.agenda[after.agenda.len() - 1
                    - config.repos@.len() + i] == TaskView::Poll(config.repos@[i]@)
            &&& after.agenda.last() is Plan
            &&& after.unseen == s.unseen
            &&& after.missed_polls == s.missed_polls
            &&& after.missed_machines == s.missed_machines
            &&& after.first_seen == s.first_seen
            &&& after.refusals == s.refusals
            &&& after.streaks == s.streaks
        }),
{
    let after = tick::started(config, s);
    let chosen = config.providers@.dom();
    let all = kinds::kinds_of(chosen, kinds::PROVIDERS as nat);
    let listing = all.map_values(|kind: Provider| TaskView::List(kind));
    accept::lemma_kinds_of(chosen, kinds::PROVIDERS as nat);
    assert forall|kind: Provider| #[trigger]
        after.agenda.contains(TaskView::List(kind)) <==> config.providers@.contains_key(kind) by {
        kinds::lemma_place_of(kind);
        assert(all.contains(kind) <==> chosen.contains(kind));
        if all.contains(kind) {
            let i = choose|i: int| 0 <= i < all.len() && all[i] == kind;
            assert(listing[i] == TaskView::List(kind));
            assert(after.agenda[i] == listing[i]);
        }
        if after.agenda.contains(TaskView::List(kind)) {
            let i = choose|i: int|
                0 <= i < after.agenda.len() && after.agenda[i] == TaskView::List(kind);
            if i < listing.len() {
                assert(after.agenda[i] == listing[i]);
                assert(all[i] == kind);
            }
        }
    }
}

/// Once everything was listed and read, a tick looks at the age of every machine, then
/// at the machines that were never listed, then, if every queue was read, at the job of
/// every machine, then, if every provider was listed, at the runners, and at last at
/// the jobs.
pub proof fn law_a_plan_leaves_nothing_out(config: &Config, s: State, clock: Clock, i: int)
    requires
        s.agenda.len() > 0,
        s.agenda[0] is Plan,
        0 <= i < s.fleet.len(),
    ensures
        ({
            let after = tick::begun(config, s, clock).0;
            let machines = s.fleet.len() as int;
            let rest = s.agenda.len() - 1;
            &&& after.agenda[i] == TaskView::Overdue(s.fleet[i].0, s.fleet[i].1)
            &&& after.agenda[machines] is SweepUnseen
            &&& s.all_queues_read ==> {
                &&& after.agenda[machines + 1 + i] == TaskView::Departed(
                    s.fleet[i].0,
                    s.fleet[i].1,
                )
                &&& after.agenda[2 * machines + 1] is Forget
            }
            &&& s.blind.len() == 0 ==> after.agenda[after.agenda.len() - rest - 2] is Reap
            &&& after.agenda[after.agenda.len() - rest - 1] is Arrivals
        }),
{
}

/// The jobs are turned to in the order of the queues, each of them once.
pub proof fn law_jobs_are_turned_to_in_order(config: &Config, s: State, clock: Clock, i: int)
    requires
        s.agenda.len() > 0,
        s.agenda[0] is Arrivals,
        0 <= i < s.queued.len(),
    ensures
        ({
            let after = tick::begun(config, s, clock).0;
            &&& after.agenda.len() == s.agenda.len() - 1 + s.queued.len()
            &&& after.agenda[i] == TaskView::Arrived(s.queued[i])
            &&& after.handled.len() == 0
            &&& after.pending.len() == 0
        }),
{
}

/// Of the machines that wait to be listed, a tick looks at the age of exactly those
/// whose provider could be listed and did not show them.
pub proof fn law_unlisted_machines_are_looked_at(
    config: &Config,
    s: State,
    clock: Clock,
    names: Seq<Seq<char>>,
    name: Seq<char>,
)
    requires
        s.agenda.len() > 0,
        s.agenda[0] is SweepUnseen,
        laws::filed_by_name(s),
        crate::table::lists(names, s.unseen.dom()),
        s.unseen.contains_key(name),
    ensures
        ({
            let after = tick::begun(config, s, clock).0;
            let tasks = put_in_front(s, after);
            let (kind, machine) = s.unseen[name];
            tasks.contains(TaskView::Unseen(kind, machine)) <==> !s.blind.contains(kind)
                && forall|i: int|
                0 <= i < s.fleet.len() ==> (#[trigger] s.fleet[i]).1.name@ != name
        }),
{
    let (kind, machine) = s.unseen[name];
    let all = crate::table::in_order(s.unseen.dom());
    crate::table::lemma_ascending_is_one(names, all);
    assert(names == all);
    assert(all.contains(name));
    assert forall|i: int| 0 <= i < all.len() implies s.unseen.contains_key(
        #[trigger] all[i],
    ) by {
        assert(all.contains(all[i]));
    }
    assert(all.take(all.len() as int) =~= all);
    lemma_stale_holds(s, all, all.len(), name);
    let after = tick::begun(config, s, clock).0;
    assert(put_in_front(s, after) =~= sweep::stale(s));
}

proof fn lemma_stale_holds(s: State, names: Seq<Seq<char>>, n: nat, name: Seq<char>)
    requires
        n <= names.len(),
        laws::filed_by_name(s),
        s.unseen.contains_key(name),
        forall|i: int| 0 <= i < names.len() ==> s.unseen.contains_key(#[trigger] names[i]),
    ensures
        sweep::stale_of(s, names, n).contains(
            TaskView::Unseen(s.unseen[name].0, s.unseen[name].1),
        ) <==> names.take(n as int).contains(name) && !s.blind.contains(s.unseen[name].0)
            && !sweep::is_listed(s.fleet, name),
    decreases n,
{
    let (kind, machine) = s.unseen[name];
    if n == 0 {
        assert(names.take(0) =~= Seq::<Seq<char>>::empty());
    } else {
        let last = names[n - 1];
        lemma_stale_holds(s, names, (n - 1) as nat, name);
        text::lemma_contains_take(names, n - 1);
        let rest = sweep::stale_of(s, names, (n - 1) as nat);
        text::lemma_contains_push(rest, TaskView::Unseen(s.unseen[last].0, s.unseen[last].1));
        assert(s.unseen[last].1.name@ == last);
        assert(s.unseen[name].1.name@ == name);
    }
}

} // verus!
