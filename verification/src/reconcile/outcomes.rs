//! What comes of each job, each machine and each turn.

use vstd::prelude::*;

use super::promises;
use super::provision;
use super::sweep;
use super::task::{
    AttemptView, Clock, Event, Fault, NoticeView, OrderView, QueuedView, RequestView, TaskView,
};
use super::tick;
use super::tick::Turn;
use super::{Orchestrator, State};
use crate::alert::Kind;
use crate::cloudinit;
use crate::config;
use crate::config::accept;
use crate::config::kinds;
use crate::config::{Class, Config, Provider};
use crate::forgejo::{Registration, Run, StatusState};
use crate::naming;
use crate::provider::Machine;
use crate::text;

verus! {

/// A turn asks what the task at hand leads to, goes on where it leads to nothing that
/// has to be asked, and ends the tick exactly when nothing is left to do.
pub proof fn law_a_turn_follows_the_agenda(
    daemon: &mut Orchestrator,
    clock: Clock,
    turn: Turn,
)
    requires
        call_ensures(Orchestrator::advance, (daemon, clock), turn),
    ensures
        ({
            let before = old(daemon).state();
            let after = final(daemon).state();
            let (due, asked) = tick::begun(&old(daemon).config, before, clock);
            &&& final(daemon).config == old(daemon).config
            &&& turn is Over <==> before.agenda.len() == 0
            &&& before.agenda.len() == 0 ==> after == before
            &&& before.agenda.len() > 0 ==> after == due
            &&& before.agenda.len() > 0 ==> (turn is Continue <==> asked is None)
            &&& turn matches Turn::Ask(request) ==> asked == Some(request@)
        }),
{
}

/// The event is of the kind that the request asks for.
pub open spec fn replies(request: RequestView, event: Event) -> bool {
    match (request, event) {
        (RequestView::List(..), Event::Listed(_)) => true,
        (RequestView::Poll(..), Event::Polled(_)) => true,
        (RequestView::Destroy(..), Event::Destroyed(_)) => true,
        (RequestView::Runners(..), Event::RunnersListed(_)) => true,
        (RequestView::DeleteRunner(..), Event::RunnerDeleted(_)) => true,
        (RequestView::Run(..), Event::RunRead(_)) => true,
        (RequestView::SetStatus(..), Event::StatusSet) => true,
        (RequestView::Register(..), Event::Registered(_)) => true,
        (RequestView::Create(..), Event::Created(_)) => true,
        _ => false,
    }
}

proof fn lemma_replies(config: &Config, s: State, clock: Clock, event: Event)
    requires
        s.agenda.len() > 0,
        tick::begun(config, s, clock).1 is Some,
    ensures
        tick::begun(config, s, clock).0.agenda == s.agenda,
        tick::fits(s.agenda[0], event) <==> replies(tick::begun(config, s, clock).1->0, event),
{
}

/// An answer to what a turn has asked is taken, and nothing else is: it leaves
/// everything as it was.
pub proof fn law_only_answers_are_taken(
    daemon: &mut Orchestrator,
    event: Event,
    clock: Clock,
    earlier: State,
    then: Clock,
    taken: bool,
)
    requires
        earlier.agenda.len() > 0,
        tick::begun(&old(daemon).config, earlier, then).1 is Some,
        tick::begun(&old(daemon).config, earlier, then).0 == old(daemon).state(),
        call_ensures(Orchestrator::answer, (daemon, event, clock), taken),
    ensures
        ({
            let request = tick::begun(&old(daemon).config, earlier, then).1->0;
            let before = old(daemon).state();
            let after = final(daemon).state();
            &&& final(daemon).config == old(daemon).config
            &&& taken <==> replies(request, event)
            &&& !taken ==> after == before
            &&& taken ==> after == tick::answered(&old(daemon).config, before, event, clock.ticks)
        }),
{
    lemma_replies(&old(daemon).config, earlier, then, event);
}

/// A tick begins with the surveys of its configuration.
pub proof fn law_a_tick_is_started(daemon: &mut Orchestrator)
    requires
        call_ensures(Orchestrator::tick, (daemon,), ()),
    ensures
        final(daemon).config == old(daemon).config,
        final(daemon).state() == tick::started(&old(daemon).config, old(daemon).state()),
{
}

/// A machine of this name was listed, or was made and waits to be listed.
pub open spec fn is_known(s: State, name: Seq<char>) -> bool {
    ||| s.unseen.contains_key(name)
    ||| exists|i: int| 0 <= i < s.fleet.len() && (#[trigger] s.fleet[i]).1.name@ == name
}

/// When a tick turns to the jobs, every machine that is known counts as one that may
/// serve a job, and no other.
pub proof fn law_known_machines_may_serve(
    config: &Config,
    s: State,
    clock: Clock,
    name: Seq<char>,
)
    requires
        s.agenda.len() > 0,
        s.agenda[0] is Arrivals,
    ensures
        tick::begun(config, s, clock).0.in_flight.contains(name) <==> is_known(s, name),
{
}

/// The run of a job is read exactly when the job waits, the tick has not turned to its
/// handle before, and no machine serves it; then the tick has turned to it.
pub proof fn law_waiting_jobs_are_looked_into(
    config: &Config,
    s: State,
    entry: QueuedView,
    clock: Clock,
)
    requires
        s.agenda.len() > 0,
        s.agenda[0] == TaskView::Arrived(entry),
    ensures
        ({
            let (after, asked) = tick::begun(config, s, clock);
            let handle = naming::truncated(entry.job.handle);
            let waits = entry.job.status == "waiting"@;
            let before = s.handled.contains(handle);
            let served = exists|front: Seq<char>|
                s.in_flight.contains(#[trigger] (front + ("-"@ + handle)));
            &&& asked == if waits && !before && !served {
                Some(RequestView::Run(entry.repo, entry.job.run_id))
            } else {
                None
            }
            &&& after.handled == if waits && !before {
                s.handled.push(handle)
            } else {
                s.handled
            }
            &&& asked is None ==> after.agenda == s.agenda.drop_first()
            &&& asked is Some ==> after.agenda == s.agenda
        }),
{
    let handle = naming::truncated(entry.job.handle);
    let tail = "-"@ + handle;
    let (after, asked) = tick::begun(config, s, clock);
    if provision::is_served(s, handle) {
        let name = choose|name: Seq<char>| #[trigger]
            s.in_flight.contains(name) && naming::ends_in(name, handle);
        let front = name.take(name.len() - tail.len());
        assert(name =~= front + tail);
        assert(s.in_flight.contains(front + tail));
    }
    if exists|front: Seq<char>| s.in_flight.contains(#[trigger] (front + tail)) {
        let front = choose|front: Seq<char>| s.in_flight.contains(#[trigger] (front + tail));
        let name = front + tail;
        assert(tail =~= name.subrange(name.len() - tail.len(), name.len() as int));
        assert(naming::ends_in(name, handle));
    }
    if asked is None {
        assert(after.agenda =~= s.agenda.drop_first());
    }
}

/// The queues hold a job whose handle, as far as a name carries it, is this one.
pub open spec fn is_queued(s: State, handle: Seq<char>) -> bool {
    exists|i: int|
        0 <= i < s.queued.len() && naming::truncated((#[trigger] s.queued[i]).job.handle)
            == naming::truncated(handle)
}

/// The machine of a class is destroyed for want of its job exactly when no queue holds
/// the job, waiting or running, and the poll before has missed it too.
pub proof fn law_a_machine_goes_with_its_job(
    config: &Config,
    s: State,
    c: int,
    handle: Seq<char>,
    kind: Provider,
    machine: Machine,
    clock: Clock,
)
    requires
        config.accepted(),
        0 <= c < config.class_views().len(),
        machine.name@ == config.daemon.machine_prefix@ + "-"@ + text::joined(
            config.class_views()[c].labels,
            "-"@,
        ) + "-"@ + naming::truncated(handle),
        s.agenda.len() > 0,
        s.agenda[0] == TaskView::Departed(kind, machine),
    ensures
        ({
            let (after, asked) = tick::begun(config, s, clock);
            let name = machine.name@;
            let missed = s.missed_polls.contains_key(name) && s.missed_polls[name] > 0;
            &&& asked == if !is_queued(s, handle) && missed {
                Some(RequestView::Destroy(kind, machine.id@))
            } else {
                None
            }
            &&& is_queued(s, handle) ==> !after.missed_polls.contains_key(name)
            &&& !is_queued(s, handle) ==> after.missed_polls.contains_key(name)
                && after.missed_polls[name] > 0
            &&& after.notices == s.notices
            &&& after.streaks == s.streaks
        }),
{
    let classes = config.class_views();
    accept::law_machine_leads_back_to_its_class(config, c, handle);
    assert(config::class_names(classes)[c] == classes[c].name());
    assert(machine.name@ == naming::machine_name_of(
        config.daemon.machine_prefix@,
        classes[c].name(),
        handle,
    ));
    assert forall|i: int| 0 <= i < s.queued.len() implies (sweep::made_for_job(
        config,
        machine.name@,
        (#[trigger] s.queued[i]).job.handle,
    ) <==> naming::truncated(s.queued[i].job.handle) == naming::truncated(handle)) by {}
}

/// Some class has the labels that the name carries behind the prefix.
pub open spec fn has_a_class(config: &Config, name: Seq<char>) -> bool {
    exists|c: int|
        0 <= c < config.class_views().len() && naming::fits(
            config.daemon.machine_prefix@,
            name,
            text::joined((#[trigger] config.class_views()[c]).labels, "-"@),
        )
}

proof fn lemma_has_a_class(config: &Config, name: Seq<char>)
    ensures
        has_a_class(config, name) <==> sweep::explained(config, name),
{
    let classes = config.class_views();
    let names = config::class_names(classes);
    let prefix = config.daemon.machine_prefix@;
    if has_a_class(config, name) {
        let c = choose|c: int|
            0 <= c < classes.len() && naming::fits(
                prefix,
                name,
                text::joined((#[trigger] classes[c]).labels, "-"@),
            );
        assert(names[c] == text::joined(classes[c].labels, "-"@));
        naming::lemma_fits(prefix, name, names[c]);
        naming::lemma_some_label_is_longest(prefix, name, names, c);
    }
    if sweep::explained(config, name) {
        let label = choose|label: Seq<char>| naming::explains(prefix, name, names, label);
        assert(naming::explains(prefix, name, names, label));
        naming::lemma_fits(prefix, name, label);
        let c = choose|c: int| 0 <= c < names.len() && names[c] == label;
        assert(text::joined(classes[c].labels, "-"@) == label);
    }
}

/// A machine that no class has a name for is told of when the queues are looked at, is
/// kept as long as its name ends in the handle of a job, and may become as old as a
/// machine of any class.
pub proof fn law_a_machine_without_a_class_is_told_of(
    config: &Config,
    s: State,
    kind: Provider,
    machine: Machine,
    clock: Clock,
)
    requires
        !has_a_class(config, machine.name@),
        s.agenda.len() > 0,
        s.agenda[0] == TaskView::Departed(kind, machine),
    ensures
        ({
            let (after, asked) = tick::begun(config, s, clock);
            let name = machine.name@;
            let missed = s.missed_polls.contains_key(name) && s.missed_polls[name] > 0;
            let live = exists|i: int, front: Seq<char>|
                0 <= i < s.queued.len() && name == #[trigger] (front + ("-"@ + naming::truncated(
                    s.queued[i].job.handle,
                )));
            &&& after.notices.len() == s.notices.len() + 1
            &&& after.notices.last() matches NoticeView::Alert(raised)
            &&& raised.kind == Kind::Abandoned
            &&& raised.subject == name
            &&& raised.detail == "carries our prefix but matches no configured label"@
            &&& asked == if !live && missed {
                Some(RequestView::Destroy(kind, machine.id@))
            } else {
                None
            }
        }),
        forall|c: int|
            0 <= c < config.class_views().len() ==> promises::seconds_of(
                config,
                #[trigger] config.class_views()[c],
            ) <= sweep::limit_of(config, machine.name@),
{
    let name = machine.name@;
    lemma_has_a_class(config, name);
    if config.class_views().len() > 0 {
        promises::law_an_unexplained_machine_lives_as_long_as_any(config, name);
    }
    if sweep::has_live_job(config, s, name) {
        let i = choose|i: int|
            0 <= i < s.queued.len() && sweep::made_for_job(
                config,
                name,
                (#[trigger] s.queued[i]).job.handle,
            );
        let tail = "-"@ + naming::truncated(s.queued[i].job.handle);
        let front = name.take(name.len() - tail.len());
        assert(name =~= front + tail);
    }
    if exists|i: int, front: Seq<char>|
        0 <= i < s.queued.len() && name == #[trigger] (front + ("-"@ + naming::truncated(
            s.queued[i].job.handle,
        ))) {
        let (i, front) = choose|i: int, front: Seq<char>|
            0 <= i < s.queued.len() && name == #[trigger] (front + ("-"@ + naming::truncated(
                s.queued[i].job.handle,
            )));
        let tail = "-"@ + naming::truncated(s.queued[i].job.handle);
        assert(tail =~= name.subrange(name.len() - tail.len(), name.len() as int));
        assert(sweep::made_for_job(config, name, s.queued[i].job.handle));
    }
}

/// A job whose labels no class has is told so, as long as it names any.
pub proof fn law_a_job_without_a_class_is_refused(
    config: &Config,
    s: State,
    entry: QueuedView,
    run: Run,
    now: u64,
)
    requires
        s.agenda.len() > 0,
        s.agenda[0] == TaskView::Arrived(entry),
        forall|c: int|
            0 <= c < config.class_views().len() ==> !promises::wants(
                #[trigger] config.class_views()[c],
                entry.job.runs_on,
            ),
    ensures
        ({
            let after = tick::answered(config, s, Event::RunRead(Ok(run)), now);
            let tasks = promises::put_in_front(s, after);
            &&& tasks.len() == 1
            &&& tasks[0] matches TaskView::Tell(report)
            &&& report.state == StatusState::Error
            &&& entry.job.runs_on.len() == 0 ==> report.description
                == "job declares no runs-on label"@
            &&& entry.job.runs_on.len() > 0 ==> ("no [[machine]] answers to runs-on ["@
                + text::joined(entry.job.runs_on, ", "@) + "]"@).is_prefix_of(report.description)
        }),
{
    let classes = config.class_views();
    let runs_on = entry.job.runs_on;
    if runs_on.len() > 0 {
        if exists|at: int| config::answers(classes, runs_on, at) {
            let at = choose|at: int| config::answers(classes, runs_on, at);
            assert(config::answers(classes, runs_on, at));
            assert(promises::wants(classes[at], runs_on));
        }
        reveal_strlit("]");
        reveal_strlit("]; the closest set configured is [");
        let said = "no [[machine]] answers to runs-on ["@ + text::joined(runs_on, ", "@);
        let text = config::no_class_text(classes, runs_on);
        let due = said + "]"@;
        assert(text.len() >= due.len());
        assert(due =~= text.subrange(0, due.len() as int));
    }
}

/// A job of a class gets a machine exactly when an event is named that the class allows,
/// a pull request from a fork is welcome or there is none, fewer machines count against
/// its repository than it was granted, and the machines of the provider are visible.
/// Otherwise it is told the first thing that stands in the way; where only the provider
/// is not visible, nothing is told and the job waits.
pub proof fn law_a_job_gets_a_machine_or_is_told_why(
    config: &Config,
    s: State,
    entry: QueuedView,
    run: Run,
    event: Seq<char>,
    now: u64,
    c: int,
)
    requires
        config.accepted(),
        s.agenda.len() > 0,
        s.agenda[0] == TaskView::Arrived(entry),
        0 <= c < config.class_views().len(),
        promises::wants(config.class_views()[c], entry.job.runs_on),
        promises::goes_by(run, event),
        s.unseen.dom().finite(),
    ensures
        ({
            let after = tick::answered(config, s, Event::RunRead(Ok(run)), now);
            let tasks = promises::put_in_front(s, after);
            let class = config.class_views()[c];
            let name = text::joined(class.labels, "-"@);
            let live = provision::counted_names(config, s, entry.repo, class.provider).len();
            let most = promises::allows(config, entry.repo, class.provider);
            let title = entry.repo.owner + "/"@ + entry.repo.name;
            let refused = |why: Seq<char>|
                tasks.len() == 1 && (tasks[0] matches TaskView::Tell(report) && report.state
                    == StatusState::Error && report.description == why);
            if event.len() == 0 {
                refused("run reports no triggering event"@)
            } else if !class.allowed_events.contains(event) {
                refused("class "@ + name + " is not available to "@ + event + " events"@)
            } else if run.is_fork_pull_request && !class.allow_fork_pull_request {
                refused("class "@ + name + " is not available to fork pull requests"@)
            } else if most == 0 {
                tasks.len() == 1 && (tasks[0] matches TaskView::Tell(report) && report.state
                    == StatusState::Error && (title + " is not granted any "@).is_prefix_of(
                    report.description,
                ))
            } else if live >= most {
                tasks.len() == 1 && (tasks[0] matches TaskView::Tell(report) && report.state
                    == StatusState::Error && (title + " already has "@ + text::decimal_of(most)
                    + " machine(s) running at "@).is_prefix_of(report.description))
            } else if s.blind.contains(class.provider) {
                tasks.len() == 0 && after.notices == s.notices.push(
                    NoticeView::HeldBack(entry.job.handle, class.provider),
                )
            } else {
                &&& tasks.len() == 2
                &&& tasks[1] matches TaskView::Register(order)
                &&& order.class == class
                &&& order.queued == entry
            }
        }),
{
    let class = config.class_views()[c];
    promises::lemma_wanted(config, c, entry.job.runs_on);
    let rest = s.taken();
    assert(provision::counted_names(config, rest, entry.repo, class.provider)
        =~= provision::counted_names(config, s, entry.repo, class.provider)) by {
        assert forall|name: Seq<char>|
            provision::counted_names(config, rest, entry.repo, class.provider).contains(name)
                <==> provision::counted_names(config, s, entry.repo, class.provider).contains(
                name,
            ) by {
            assert(provision::is_at(rest, class.provider, name) == provision::is_at(
                s,
                class.provider,
                name,
            ));
            assert(provision::serves_repo(config, rest, entry.repo, name)
                == provision::serves_repo(config, s, entry.repo, name));
        }
    }
    let title = entry.repo.owner + "/"@ + entry.repo.name;
    let most = promises::allows(config, entry.repo, class.provider);
    let place = kinds::provider_name(class.provider);
    lemma_begins(title + " is not granted any "@, place, " machine"@);
    lemma_begins(
        title + " already has "@ + text::decimal_of(most) + " machine(s) running at "@,
        place,
        Seq::empty(),
    );
    assert(place + Seq::<char>::empty() =~= place);
    let full = title + " already has "@ + text::decimal_of(most) + " machine(s) running at "@
        + place;
    assert(full + Seq::<char>::empty() =~= full);
}

/// A text begins with what stands first in it.
proof fn lemma_begins(first: Seq<char>, second: Seq<char>, third: Seq<char>)
    ensures
        first.is_prefix_of(first + second + third),
{
    assert(first =~= (first + second + third).subrange(0, first.len() as int));
}

/// The user data of a machine is what the registration, the class and the handle of its
/// job render to.
pub proof fn law_a_machine_is_given_its_user_data(
    config: &Config,
    s: State,
    order: OrderView,
    class: &Class,
    url: &str,
    registration: Registration,
    handle: &str,
    rendered: String,
    now: u64,
)
    requires
        s.agenda.len() > 0,
        s.agenda[0] == TaskView::Register(order),
        class@ == order.class,
        url@ == config.forgejo.url@,
        handle@ == order.queued.job.handle,
        call_ensures(
            cloudinit::render,
            (&config.daemon, class, url, &registration, handle),
            rendered,
        ),
    ensures
        ({
            let after = tick::answered(config, s, Event::Registered(Ok(registration)), now);
            &&& after.agenda.len() > 0
            &&& after.agenda[0] matches TaskView::Create(attempt)
            &&& attempt.user_data == rendered@
        }),
{
}

/// A runner that could not be registered raises the alarm over its job, and no machine
/// is made.
pub proof fn law_no_machine_without_a_runner(
    config: &Config,
    s: State,
    order: OrderView,
    fault: Fault,
    now: u64,
)
    requires
        s.agenda.len() > 0,
        s.agenda[0] == TaskView::Register(order),
    ensures
        ({
            let after = tick::answered(config, s, Event::Registered(Err(fault)), now);
            &&& after.agenda == s.agenda.drop_first()
            &&& after.unseen == s.unseen
            &&& after.pending == s.pending
            &&& after.notices.len() == s.notices.len() + 1
            &&& after.notices.last() matches NoticeView::Alert(raised)
            &&& raised.kind == Kind::CreateFailed
            &&& raised.subject == order.queued.job.handle
            &&& raised.detail == fault.detail@
        }),
{
}

/// Once every queue was read, the refusals of the jobs that are queued are kept, and no
/// other.
pub proof fn law_refusals_last_as_long_as_their_jobs(
    config: &Config,
    s: State,
    clock: Clock,
    handle: Seq<char>,
)
    requires
        s.agenda.len() > 0,
        s.agenda[0] is Forget,
    ensures
        ({
            let after = tick::begun(config, s, clock).0;
            let queued = exists|i: int|
                0 <= i < s.queued.len() && (#[trigger] s.queued[i]).job.handle == handle;
            &&& after.refusals.contains_key(handle) <==> s.refusals.contains_key(handle) && queued
            &&& after.refusals.contains_key(handle) ==> after.refusals[handle]
                == s.refusals[handle]
        }),
{
    let handles = sweep::handles_of(s.queued);
    if handles.contains(handle) {
        let i = choose|i: int| 0 <= i < handles.len() && handles[i] == handle;
        assert(s.queued[i].job.handle == handle);
    }
    if exists|i: int| 0 <= i < s.queued.len() && (#[trigger] s.queued[i]).job.handle == handle {
        let i = choose|i: int|
            0 <= i < s.queued.len() && (#[trigger] s.queued[i]).job.handle == handle;
        assert(handles[i] == handle);
    }
}

/// When every provider was listed, the runners of every repository are asked for, in
/// order, and then what is gone is forgotten.
pub proof fn law_every_repository_is_asked_for_its_runners(
    config: &Config,
    s: State,
    clock: Clock,
    i: int,
)
    requires
        s.agenda.len() > 0,
        s.agenda[0] is Reap,
        0 <= i < config.repos@.len(),
    ensures
        ({
            let after = tick::begun(config, s, clock).0;
            &&& after.agenda.len() == s.agenda.len() + config.repos@.len()
            &&& after.agenda[i] == TaskView::Runners(config.repos@[i]@)
            &&& after.agenda[config.repos@.len() as int] is SettleRunners
            &&& after.seen.len() == 0
            &&& after.all_repos_listed
            &&& after.missed_machines == s.missed_machines
        }),
{
}

/// Runners that could not be listed are no reason to forget anything in this tick.
pub proof fn law_unlisted_runners_are_not_forgotten(
    config: &Config,
    s: State,
    repo: config::RepoView,
    fault: Fault,
    now: u64,
    clock: Clock,
)
    requires
        s.agenda.len() > 0,
        s.agenda[0] == TaskView::Runners(repo),
    ensures
        ({
            let after = tick::answered(config, s, Event::RunnersListed(Err(fault)), now);
            &&& !after.all_repos_listed
            &&& after.agenda == s.agenda.drop_first()
            &&& after.missed_machines == s.missed_machines
            &&& after.agenda.len() > 0 && after.agenda[0] is SettleRunners ==> tick::begun(
                config,
                after,
                clock,
            ).0.missed_machines == s.missed_machines
        }),
{
}

/// The queue of a repository is read for every label of every class.
pub proof fn law_queues_are_read_for_every_label(
    config: &Config,
    s: State,
    repo: config::RepoView,
    clock: Clock,
    labels: Vec<String>,
)
    requires
        s.agenda.len() > 0,
        s.agenda[0] == TaskView::Poll(repo),
        call_ensures(Config::all_labels, (config,), labels),
    ensures
        tick::begun(config, s, clock).1 == Some(RequestView::Poll(repo, text::texts(labels@))),
{
}

/// A machine that is destroyed for its age is told of, and one that a listing showed
/// raises the alarm; one that is left alone is told of in no way.
pub proof fn law_an_overdue_machine_is_told_of(
    config: &Config,
    s: State,
    kind: Provider,
    machine: Machine,
    clock: Clock,
)
    requires
        s.agenda.len() > 0,
        s.agenda[0] == TaskView::Overdue(kind, machine) || s.agenda[0] == TaskView::Unseen(
            kind,
            machine,
        ),
    ensures
        ({
            let (after, asked) = tick::begun(config, s, clock);
            let name = machine.name@;
            &&& asked is None ==> after.notices == s.notices && after.streaks == s.streaks
                && after.agenda == s.agenda.drop_first()
            &&& asked is Some ==> {
                &&& asked == Some(RequestView::Destroy(kind, machine.id@))
                &&& after.agenda == s.agenda
                &&& after.notices.len() > s.notices.len()
                &&& after.notices[s.notices.len() as int] == NoticeView::Overdue(name)
            }
            &&& asked is Some && s.agenda[0] is Overdue ==> {
                &&& after.notices.len() == s.notices.len() + 2
                &&& after.notices.last() matches NoticeView::Alert(raised)
                &&& raised.kind == Kind::Abandoned
                &&& raised.subject == name
                &&& raised.detail == "outlived its label's lifetime_minutes"@
            }
            &&& asked is Some && s.agenda[0] is Unseen ==> {
                &&& after.notices.len() == s.notices.len() + 1
                &&& after.streaks == s.streaks
            }
        }),
{
    let (after, asked) = tick::begun(config, s, clock);
    if asked is None {
        assert(after.agenda =~= s.agenda.drop_first());
    }
}

/// A machine that fits nowhere leaves no runner: the runner is deleted, the commit is
/// told the last reason in short, and the alarm is raised with all of it.
pub proof fn law_a_machine_that_fits_nowhere(
    config: &Config,
    s: State,
    attempt: AttemptView,
    clock: Clock,
)
    requires
        s.agenda.len() > 0,
        s.agenda[0] == TaskView::Create(attempt),
        attempt.placements.len() == 0,
    ensures
        ({
            let (after, asked) = tick::begun(config, s, clock);
            let entry = attempt.order.queued;
            let nowhere = text::joined(attempt.order.class.labels, "-"@)
                + ": nowhere to place it"@;
            &&& asked is None
            &&& after.agenda.len() == s.agenda.len() + 2
            &&& after.agenda[0] == TaskView::Cleanup(entry.repo, attempt.registration)
            &&& after.agenda[1] matches TaskView::Tell(report)
            &&& report.repo == entry.repo
            &&& report.sha == attempt.order.sha
            &&& report.url == attempt.order.url
            &&& report.state == StatusState::Error
            &&& report.description == match attempt.last {
                Some(fault) => fault.brief,
                None => nowhere,
            }
            &&& after.agenda[2] == TaskView::Fail(
                entry.job.handle,
                match attempt.last {
                    Some(fault) => fault.detail,
                    None => nowhere,
                },
            )
        }),
{
}

/// A failure that is to be told raises the alarm over its job.
pub proof fn law_a_failed_job_raises_the_alarm(
    config: &Config,
    s: State,
    handle: Seq<char>,
    detail: Seq<char>,
    clock: Clock,
)
    requires
        s.agenda.len() > 0,
        s.agenda[0] == TaskView::Fail(handle, detail),
    ensures
        ({
            let (after, asked) = tick::begun(config, s, clock);
            &&& asked is None
            &&& after.agenda == s.agenda.drop_first()
            &&& after.notices.len() == s.notices.len() + 1
            &&& after.notices.last() matches NoticeView::Alert(raised)
            &&& raised.kind == Kind::CreateFailed
            &&& raised.subject == handle
            &&& raised.detail == detail
        }),
{
    assert(tick::begun(config, s, clock).0.agenda =~= s.agenda.drop_first());
}

/// A placement that failed is followed by the next, and its reason is kept as the last.
pub proof fn law_a_failed_placement_is_followed_by_the_next(
    config: &Config,
    s: State,
    attempt: AttemptView,
    fault: Fault,
    now: u64,
)
    requires
        s.agenda.len() > 0,
        s.agenda[0] == TaskView::Create(attempt),
        attempt.placements.len() > 0,
    ensures
        ({
            let after = tick::answered(config, s, Event::Created(Err(fault)), now);
            &&& after.agenda.len() == s.agenda.len()
            &&& after.agenda[0] matches TaskView::Create(next)
            &&& next.order == attempt.order
            &&& next.registration == attempt.registration
            &&& next.user_data == attempt.user_data
            &&& next.placements.len() == attempt.placements.len() - 1
            &&& forall|i: int|
                0 <= i < next.placements.len() ==> #[trigger] next.placements[i]
                    == attempt.placements[i + 1]
            &&& next.last matches Some(last)
            &&& last.brief == fault.brief@
            &&& last.detail == fault.detail@
            &&& after.unseen == s.unseen
            &&& after.pending == s.pending
            &&& after.notices == s.notices
        }),
{
}

/// Whether a status could be posted, and whether a runner could be deleted that has no
/// machine to come, changes nothing.
pub proof fn law_some_answers_change_nothing(
    config: &Config,
    s: State,
    event: Event,
    now: u64,
)
    requires
        s.agenda.len() > 0,
        (s.agenda[0] is Tell && event is StatusSet) || (s.agenda[0] is Cleanup
            && event is RunnerDeleted),
    ensures
        tick::answered(config, s, event, now) == (State { agenda: s.agenda.drop_first(), ..s }),
{
}

/// What there is to tell is handed out once, in order, and nothing else changes.
pub proof fn law_notices_are_handed_out_once(
    daemon: &mut Orchestrator,
    notices: Vec<super::task::Notice>,
)
    requires
        call_ensures(Orchestrator::take_notices, (daemon,), notices),
    ensures
        notices@.len() == old(daemon).state().notices.len(),
        forall|i: int|
            0 <= i < notices@.len() ==> (#[trigger] notices@[i])@ == old(
                daemon,
            ).state().notices[i],
        final(daemon).config == old(daemon).config,
        final(daemon).state() == (State { notices: Seq::empty(), ..old(daemon).state() }),
{
    let views = super::task::notice_views(notices@);
    assert(views.len() == notices@.len());
    assert forall|i: int| 0 <= i < notices@.len() implies (#[trigger] notices@[i])@ == old(
        daemon,
    ).state().notices[i] by {
        assert(views[i] == notices@[i]@);
    }
}

} // verus!
