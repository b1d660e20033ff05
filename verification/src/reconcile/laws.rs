//! What holds of every tick.

use vstd::prelude::*;

use super::provision;
use super::sweep;
use super::task::{
    AttemptView, Clock, Event, Fault, MadeView, NoticeView, OrderView, QueuedView, RequestView,
    TaskView,
};
use super::tick;
use super::State;
use crate::alert;
use crate::alert::Kind;
use crate::config;
use crate::config::kinds;
use crate::config::kinds::PROVIDERS;
use crate::config::{ClassView, Config, Provider, Repo, RepoView};
use crate::forgejo;
use crate::forgejo::{Run, Runner};
use crate::naming;
use crate::policy;
use crate::provider::Machine;
use crate::text;

verus! {

/// The task finds out what there is.
pub open spec fn is_survey(task: TaskView) -> bool {
    task is List || task is Poll
}

/// The task acts on the queues that were read.
pub open spec fn is_departure(task: TaskView) -> bool {
    task is Departed || task is Forget
}

/// The task acts on the listings of machines.
pub open spec fn is_reaping(task: TaskView) -> bool {
    task is Reap || task is Runners || task is Runner || task is SettleRunners
}

/// Everything is still to be listed and read, and then to be planned.
pub open spec fn surveying(agenda: Seq<TaskView>) -> bool {
    &&& agenda.len() > 0
    &&& agenda.last() is Plan
    &&& forall|i: int| 0 <= i < agenda.len() - 1 ==> is_survey(#[trigger] agenda[i])
}

/// The task is one that may be left once everything is planned.
pub open spec fn may_act(s: State, task: TaskView) -> bool {
    &&& !is_survey(task)
    &&& !(task is Plan)
    &&& is_departure(task) ==> s.all_queues_read
    &&& is_reaping(task) ==> s.blind.len() == 0
}

/// Everything was listed, read and planned: what follows from a queue is left
/// only if every queue was read, and what follows from the listings only if every
/// provider was listed.
pub open spec fn acting(s: State) -> bool {
    forall|i: int| 0 <= i < s.agenda.len() ==> may_act(s, #[trigger] s.agenda[i])
}

/// A tick is in order.
pub open spec fn in_order(s: State) -> bool {
    surveying(s.agenda) || acting(s)
}

/// A tick starts in order.
pub proof fn law_a_tick_starts_in_order(config: &Config, s: State)
    ensures
        in_order(tick::started(config, s)),
{
    let agenda = tick::opening(config);
    let listing = kinds::kinds_of(config.providers@.dom(), PROVIDERS as nat).map_values(
        |kind: Provider| TaskView::List(kind),
    );
    let polling = config.repos@.map_values(|repo: Repo| TaskView::Poll(repo@));
    assert forall|i: int| 0 <= i < agenda.len() - 1 implies is_survey(#[trigger] agenda[i]) by {
        if i < listing.len() {
            assert(agenda[i] == listing[i]);
        } else {
            assert(agenda[i] == polling[i - listing.len()]);
        }
    }
}

proof fn lemma_planned(s: State)
    ensures
        forall|i: int|
            0 <= i < tick::planned(s).len() ==> may_act(s, #[trigger] tick::planned(s)[i]),
{
}

/// Each of the tasks is one on a machine that was never listed.
pub(super) proof fn lemma_stale(s: State, names: Seq<Seq<char>>, n: nat)
    ensures
        forall|i: int|
            0 <= i < sweep::stale_of(s, names, n).len() ==> (#[trigger] sweep::stale_of(
                s,
                names,
                n,
            )[i]) is Unseen,
    decreases n,
{
    if n > 0 {
        lemma_stale(s, names, (n - 1) as nat);
    }
}

/// Each of the tasks is one on a runner.
pub(super) proof fn lemma_our_runners(prefix: Seq<char>, repo: RepoView, runners: Seq<Runner>, n: nat)
    ensures
        forall|i: int|
            0 <= i < sweep::our_runners(prefix, repo, runners, n).len() ==> (
            #[trigger] sweep::our_runners(prefix, repo, runners, n)[i]) is Runner,
    decreases n,
{
    if n > 0 {
        lemma_our_runners(prefix, repo, runners, (n - 1) as nat);
    }
}

/// What is left of the agenda, with these in front, may act.
proof fn lemma_follow(s: State, after: State, tasks: Seq<TaskView>)
    requires
        acting(s),
        s.agenda.len() > 0,
        after.agenda == tasks + s.agenda.drop_first(),
        after.all_queues_read == s.all_queues_read,
        after.blind == s.blind,
        forall|i: int| 0 <= i < tasks.len() ==> may_act(s, #[trigger] tasks[i]),
    ensures
        acting(after),
{
    assert forall|i: int| 0 <= i < after.agenda.len() implies may_act(
        after,
        #[trigger] after.agenda[i],
    ) by {
        if i < tasks.len() {
            assert(after.agenda[i] == tasks[i]);
            assert(may_act(s, tasks[i]));
        } else {
            assert(after.agenda[i] == s.agenda[i - tasks.len() + 1]);
            assert(may_act(s, s.agenda[i - tasks.len() + 1]));
        }
    }
}

/// Going on keeps a tick in order.
pub proof fn law_advancing_keeps_order(config: &Config, s: State, clock: Clock)
    requires
        in_order(s),
        s.agenda.len() > 0,
    ensures
        in_order(tick::begun(config, s, clock).0),
{
    let (after, _) = tick::begun(config, s, clock);
    let head = s.agenda[0];
    if surveying(s.agenda) {
        if s.agenda.len() == 1 {
            lemma_planned(s);
            let tasks = tick::planned(s);
            assert(after.agenda =~= tasks);
            assert forall|i: int| 0 <= i < after.agenda.len() implies may_act(
                after,
                #[trigger] after.agenda[i],
            ) by {
                assert(may_act(s, tasks[i]));
            }
        } else {
            assert(is_survey(head));
            assert(after == s);
        }
    } else {
        assert(may_act(s, head));
        match head {
            TaskView::SweepUnseen => {
                let names = crate::table::in_order(s.unseen.dom());
                lemma_stale(s, names, names.len());
                lemma_follow(s, after, sweep::stale(s));
            },
            TaskView::Reap => {
                let tasks = config.repos@.map_values(|repo: Repo| TaskView::Runners(repo@)).push(
                    TaskView::SettleRunners,
                );
                lemma_follow(s, after, tasks);
            },
            TaskView::Arrivals => {
                let tasks = s.queued.map_values(|entry: QueuedView| TaskView::Arrived(entry));
                lemma_follow(s, after, tasks);
            },
            TaskView::Create(attempt) => {
                if attempt.placements.len() == 0 {
                    lemma_follow(s, after, provision::given_up(attempt));
                }
            },
            _ => {
                if after.agenda != s.agenda {
                    assert(after.agenda =~= Seq::<TaskView>::empty() + s.agenda.drop_first());
                    lemma_follow(s, after, Seq::empty());
                } else {
                    assert forall|i: int| 0 <= i < after.agenda.len() implies may_act(
                        after,
                        #[trigger] after.agenda[i],
                    ) by {
                        assert(may_act(s, s.agenda[i]));
                    }
                }
            },
        }
    }
}

/// An answer keeps a tick in order.
pub proof fn law_answers_keep_order(config: &Config, s: State, event: Event, now: u64)
    requires
        in_order(s),
        s.agenda.len() > 0,
        tick::fits(s.agenda[0], event),
    ensures
        in_order(tick::answered(config, s, event, now)),
{
    let after = tick::answered(config, s, event, now);
    let head = s.agenda[0];
    if surveying(s.agenda) {
        assert(s.agenda.len() > 1);
        assert(is_survey(head));
        let rest = s.agenda.drop_first();
        assert(after.agenda =~= rest);
        assert(rest.last() == s.agenda.last());
        assert forall|i: int| 0 <= i < rest.len() - 1 implies is_survey(#[trigger] rest[i]) by {
            assert(rest[i] == s.agenda[i + 1]);
        }
    } else {
        assert(may_act(s, head));
        let tasks = after.agenda.take(after.agenda.len() - s.agenda.len() + 1);
        if let TaskView::Runners(repo) = head {
            if let Event::RunnersListed(Ok(runners)) = event {
                lemma_our_runners(
                    config.daemon.machine_prefix@,
                    repo,
                    runners@,
                    runners@.len(),
                );
            }
        }
        assert(after.agenda =~= tasks + s.agenda.drop_first());
        lemma_follow(s, after, tasks);
    }
}

/// A machine is destroyed for one of two reasons only: it is past its lifetime,
/// or no queue holds its job and more than one poll has missed it.
pub proof fn law_destruction_has_a_reason(config: &Config, s: State, clock: Clock)
    requires
        s.agenda.len() > 0,
        tick::begun(config, s, clock).1 matches Some(request) && request is Destroy,
    ensures
        ({
            let request = tick::begun(config, s, clock).1->0;
            match s.agenda[0] {
                TaskView::Overdue(kind, machine) => {
                    &&& request == RequestView::Destroy(kind, machine.id@)
                    &&& sweep::is_overdue(config, s, machine, clock)
                },
                TaskView::Unseen(kind, machine) => {
                    &&& request == RequestView::Destroy(kind, machine.id@)
                    &&& sweep::is_overdue(config, s, machine, clock)
                },
                TaskView::Departed(kind, machine) => {
                    &&& request == RequestView::Destroy(kind, machine.id@)
                    &&& !sweep::has_live_job(config, s, machine.name@)
                    &&& s.missed_polls.contains_key(machine.name@)
                    &&& s.missed_polls[machine.name@] >= 1
                },
                _ => false,
            }
        }),
{
}

/// As long as a queue could not be read, no machine is destroyed because its job
/// is gone, and no refusal is forgotten: the tick holds nothing of the kind.
pub proof fn law_an_unread_queue_holds_back_every_departure(s: State, i: int)
    requires
        acting(s),
        !s.all_queues_read,
        0 <= i < s.agenda.len(),
    ensures
        !is_departure(s.agenda[i]),
{
    assert(may_act(s, s.agenda[i]));
}

/// As long as a provider could not be listed, no runner is deleted for want of a
/// machine: the tick holds nothing of the kind.
pub proof fn law_a_blind_provider_holds_back_reaping(s: State, i: int)
    requires
        acting(s),
        s.blind.len() > 0,
        0 <= i < s.agenda.len(),
    ensures
        !is_reaping(s.agenda[i]),
{
    assert(may_act(s, s.agenda[i]));
}

/// A machine past its lifetime is destroyed, whether or not its job is queued
/// and whether or not the queues could be read.
pub proof fn law_age_wins_over_the_queue(
    config: &Config,
    s: State,
    kind: Provider,
    machine: Machine,
    clock: Clock,
)
    requires
        s.agenda.len() > 0,
        s.agenda[0] == TaskView::Overdue(kind, machine),
    ensures
        sweep::is_overdue(config, s, machine, clock) <==> tick::begun(config, s, clock).1 == Some(
            RequestView::Destroy(kind, machine.id@),
        ),
{
}

/// Every machine that was listed has its age looked at in the tick, whatever
/// else failed.
pub proof fn law_every_age_is_looked_at(s: State, i: int)
    requires
        0 <= i < s.fleet.len(),
    ensures
        tick::planned(s)[i] == TaskView::Overdue(s.fleet[i].0, s.fleet[i].1),
{
}

/// A machine whose job two polls in a row have missed is destroyed.
pub proof fn law_two_missed_polls_destroy(
    config: &Config,
    s: State,
    clock: Clock,
    next: State,
    later: Clock,
    kind: Provider,
    machine: Machine,
)
    requires
        s.agenda.len() > 0,
        s.agenda[0] == TaskView::Departed(kind, machine),
        !sweep::has_live_job(config, s, machine.name@),
        next.agenda.len() > 0,
        next.agenda[0] == TaskView::Departed(kind, machine),
        !sweep::has_live_job(config, next, machine.name@),
        next.missed_polls == tick::begun(config, s, clock).0.missed_polls,
    ensures
        tick::begun(config, next, later).1 == Some(RequestView::Destroy(kind, machine.id@)),
{
}

/// A runner whose machine two listings have missed, the grace apart, is deleted.
pub proof fn law_two_missed_listings_reap(
    config: &Config,
    s: State,
    clock: Clock,
    next: State,
    later: Clock,
    repo: RepoView,
    id: i64,
    name: Seq<char>,
)
    requires
        s.agenda.len() > 0,
        s.agenda[0] == TaskView::Runner(repo, id, name),
        !sweep::is_alive(s, name),
        next.agenda.len() > 0,
        next.agenda[0] == TaskView::Runner(repo, id, name),
        !sweep::is_alive(next, name),
        next.missed_machines == tick::begun(config, s, clock).0.missed_machines,
        later.ticks >= clock.ticks + config.daemon.reconcile_grace_secs * 1_000_000_000,
        s.missed_machines.contains_key(name) ==> s.missed_machines[name].1 <= clock.ticks,
        s.missed_machines.contains_key(name) ==> s.missed_machines[name].0 >= 1,
    ensures
        tick::begun(config, next, later).1 == Some(RequestView::DeleteRunner(repo, id)),
{
}

/// How many polls in a row have missed the job of the machine of this name.
pub open spec fn polls_missed(s: State, name: Seq<char>, count: nat) -> bool {
    if count == 0 {
        !s.missed_polls.contains_key(name)
    } else {
        s.missed_polls.contains_key(name) && s.missed_polls[name] == if count < u32::MAX {
            count as u32
        } else {
            u32::MAX
        }
    }
}

/// A poll that misses a machine's job is counted, and one that sees it starts the
/// count over. The machine is destroyed with the second miss in a row, and as
/// long as it is there with each one after that.
pub proof fn law_missed_polls_are_counted_in_a_row(
    config: &Config,
    s: State,
    kind: Provider,
    machine: Machine,
    clock: Clock,
    count: nat,
)
    requires
        s.agenda.len() > 0,
        s.agenda[0] == TaskView::Departed(kind, machine),
        polls_missed(s, machine.name@, count),
    ensures
        ({
            let (after, asked) = tick::begun(config, s, clock);
            let lives = sweep::has_live_job(config, s, machine.name@);
            &&& polls_missed(
                after,
                machine.name@,
                if lives {
                    0
                } else {
                    count + 1
                },
            )
            &&& asked == if !lives && count >= 1 {
                Some(RequestView::Destroy(kind, machine.id@))
            } else {
                None
            }
        }),
{
}

/// The machine of a configured class lives by the handle it was made for, and by
/// no other that its name happens to end in.
pub proof fn law_a_machine_lives_by_its_handle(
    config: &Config,
    s: State,
    at: int,
    handle: Seq<char>,
)
    requires
        config.accepted(),
        0 <= at < config.class_views().len(),
    ensures
        sweep::has_live_job(
            config,
            s,
            naming::machine_name_of(
                config.daemon.machine_prefix@,
                config::class_names(config.class_views())[at],
                handle,
            ),
        ) <==> exists|i: int|
            0 <= i < s.queued.len() && naming::truncated((#[trigger] s.queued[i]).job.handle)
                == naming::truncated(handle),
{
    config::accept::law_machine_leads_back_to_its_class(config, at, handle);
}

/// A job in a queue, waiting or running, keeps the machine of its class, however
/// often the queues are read.
pub proof fn law_a_queued_job_keeps_its_machine(
    config: &Config,
    s: State,
    kind: Provider,
    machine: Machine,
    class: int,
    at: int,
    clock: Clock,
)
    requires
        config.accepted(),
        0 <= class < config.class_views().len(),
        s.agenda.len() > 0,
        s.agenda[0] == TaskView::Departed(kind, machine),
        0 <= at < s.queued.len(),
        machine.name@ == naming::machine_name_of(
            config.daemon.machine_prefix@,
            config::class_names(config.class_views())[class],
            s.queued[at].job.handle,
        ),
    ensures
        tick::begun(config, s, clock).1 is None,
        polls_missed(tick::begun(config, s, clock).0, machine.name@, 0),
{
    law_a_machine_lives_by_its_handle(config, s, class, s.queued[at].job.handle);
}

/// A job in a queue, waiting or running, keeps the machine that was made for it
/// under a label that no class has any more: it survives the rename, however
/// often the queues are read.
pub proof fn law_a_queued_job_keeps_its_machine_through_a_rename(
    config: &Config,
    s: State,
    kind: Provider,
    machine: Machine,
    label: Seq<char>,
    at: int,
    clock: Clock,
)
    requires
        s.agenda.len() > 0,
        s.agenda[0] == TaskView::Departed(kind, machine),
        0 <= at < s.queued.len(),
        machine.name@ == naming::machine_name_of(
            config.daemon.machine_prefix@,
            label,
            s.queued[at].job.handle,
        ),
        !sweep::explained(config, machine.name@),
    ensures
        tick::begun(config, s, clock).1 is None,
        polls_missed(tick::begun(config, s, clock).0, machine.name@, 0),
{
    let handle = naming::truncated(s.queued[at].job.handle);
    let name = machine.name@;
    let front = config.daemon.machine_prefix@ + "-"@ + label;
    assert(name =~= front + ("-"@ + handle));
    assert(("-"@ + handle) =~= name.subrange(
        name.len() - ("-"@ + handle).len(),
        name.len() as int,
    ));
    assert(naming::ends_in(name, handle));
    assert(sweep::made_for_job(config, name, s.queued[at].job.handle));
}

/// A machine that no class explains is told of each time the queues are read,
/// whatever they hold.
pub proof fn law_an_unexplained_machine_is_told_of(
    config: &Config,
    s: State,
    kind: Provider,
    machine: Machine,
    clock: Clock,
)
    requires
        s.agenda.len() > 0,
        s.agenda[0] == TaskView::Departed(kind, machine),
        !sweep::explained(config, machine.name@),
    ensures
        tick::begun(config, s, clock).0.notices == s.notices.push(
            NoticeView::Alert(
                alert::raised(
                    s.streaks,
                    Kind::Abandoned,
                    machine.name@,
                    "carries our prefix but matches no configured label"@,
                    clock.ticks,
                ).1,
            ),
        ),
{
}

/// A machine that no class explains may become as old as the machine of the
/// longest-lived class.
pub proof fn law_an_unexplained_machine_is_capped(config: &Config, name: Seq<char>)
    requires
        !sweep::explained(config, name),
    ensures
        sweep::limit_of(config, name) == config::longest_of(
            config.class_views(),
            config.class_views().len(),
        ) * 60 + config.daemon.reconcile_grace_secs,
{
}

/// A runner is deleted if and only if no listing shows its machine, no machine
/// that waits to be listed goes by its name, a listing before this one has missed
/// it too, and the first that did is the grace ago.
pub proof fn law_a_runner_outlasts_the_grace(
    config: &Config,
    s: State,
    repo: RepoView,
    id: i64,
    name: Seq<char>,
    clock: Clock,
)
    requires
        s.agenda.len() > 0,
        s.agenda[0] == TaskView::Runner(repo, id, name),
    ensures
        tick::begun(config, s, clock).1 == if {
            &&& !sweep::is_listed(s.fleet, name)
            &&& !s.unseen.contains_key(name)
            &&& s.missed_machines.contains_key(name)
            &&& s.missed_machines[name].0 >= 1
            &&& alert::since(s.missed_machines[name].1, clock.ticks)
                >= config.daemon.reconcile_grace_secs * 1_000_000_000
        } {
            Some(RequestView::DeleteRunner(repo, id))
        } else {
            None
        },
{
}

/// The looks at the runner of this name that have missed its machine since it was
/// last there, by their times.
pub open spec fn listings_missed(s: State, name: Seq<char>, run: Seq<u64>) -> bool {
    if run.len() == 0 {
        !s.missed_machines.contains_key(name)
    } else {
        &&& s.missed_machines.contains_key(name)
        &&& s.missed_machines[name].0 == if run.len() < u32::MAX {
            run.len() as u32
        } else {
            u32::MAX
        }
        &&& s.missed_machines[name].1 == run[0]
    }
}

/// A look that misses a runner's machine is counted, and one that finds it starts
/// the count over. The runner is deleted with the second miss or a later one, as
/// soon as the first of them is the grace ago. No other runner is touched.
pub proof fn law_missed_listings_are_counted_in_a_row(
    config: &Config,
    s: State,
    repo: RepoView,
    id: i64,
    name: Seq<char>,
    clock: Clock,
    run: Seq<u64>,
    other: Seq<char>,
    others: Seq<u64>,
)
    requires
        s.agenda.len() > 0,
        s.agenda[0] == TaskView::Runner(repo, id, name),
        listings_missed(s, name, run),
        other != name,
        listings_missed(s, other, others),
    ensures
        ({
            let (after, asked) = tick::begun(config, s, clock);
            let lives = sweep::is_alive(s, name);
            &&& listings_missed(
                after,
                name,
                if lives {
                    Seq::empty()
                } else {
                    run.push(clock.ticks)
                },
            )
            &&& asked == if !lives && run.len() >= 1 && alert::since(run[0], clock.ticks)
                >= config.daemon.reconcile_grace_secs * 1_000_000_000 {
                Some(RequestView::DeleteRunner(repo, id))
            } else {
                None
            }
            &&& listings_missed(after, other, others)
        }),
{
}

/// A runner that was deleted is no longer counted; one that could not be is.
pub proof fn law_a_deleted_runner_is_forgotten(
    config: &Config,
    s: State,
    repo: RepoView,
    id: i64,
    name: Seq<char>,
    outcome: Result<(), Fault>,
    now: u64,
    run: Seq<u64>,
)
    requires
        s.agenda.len() > 0,
        s.agenda[0] == TaskView::Runner(repo, id, name),
        listings_missed(s, name, run),
    ensures
        listings_missed(
            tick::answered(config, s, Event::RunnerDeleted(outcome), now),
            name,
            if outcome is Ok {
                Seq::empty()
            } else {
                run
            },
        ),
{
}

/// Nothing but a look at a runner, its deletion, and the end of all the looks
/// changes what is counted of missing machines; the end of the looks drops only
/// what no listing of runners showed.
pub proof fn law_only_looks_at_runners_count(
    config: &Config,
    s: State,
    clock: Clock,
    event: Event,
    name: Seq<char>,
    run: Seq<u64>,
)
    requires
        s.agenda.len() > 0,
        !(s.agenda[0] is Runner),
        listings_missed(s, name, run),
    ensures
        s.agenda[0] is SettleRunners && s.all_repos_listed && !s.seen.contains(name)
            || listings_missed(tick::begun(config, s, clock).0, name, run),
        tick::fits(s.agenda[0], event) ==> listings_missed(
            tick::answered(config, s, event, clock.ticks),
            name,
            run,
        ),
{
    lemma_begun_misses(config, s, clock);
    if tick::fits(s.agenda[0], event) {
        lemma_answered_misses(config, s, event, clock.ticks);
    }
    assert(s.seen.to_set().contains(name) <==> s.seen.contains(name));
}

proof fn lemma_begun_misses(config: &Config, s: State, clock: Clock)
    requires
        s.agenda.len() > 0,
        !(s.agenda[0] is Runner),
    ensures
        tick::begun(config, s, clock).0.missed_machines == if s.agenda[0] is SettleRunners {
            sweep::runners_settled(s).missed_machines
        } else {
            s.missed_machines
        },
{
}

proof fn lemma_answered_misses(config: &Config, s: State, event: Event, now: u64)
    requires
        s.agenda.len() > 0,
        !(s.agenda[0] is Runner),
        tick::fits(s.agenda[0], event),
    ensures
        tick::answered(config, s, event, now).missed_machines == s.missed_machines,
{
}

/// Of the runners that are listed, those whose name carries our prefix are looked
/// at, and no other.
pub proof fn law_only_our_runners_are_looked_at(
    prefix: Seq<char>,
    repo: RepoView,
    runners: Seq<Runner>,
    n: nat,
    id: i64,
    name: Seq<char>,
)
    requires
        n <= runners.len(),
    ensures
        sweep::our_runners(prefix, repo, runners, n).contains(TaskView::Runner(repo, id, name))
            <==> prefix.is_prefix_of(name) && exists|i: int|
            0 <= i < n && (#[trigger] runners[i]).id == id && runners[i].name@ == name,
    decreases n,
{
    if n > 0 {
        let rest = sweep::our_runners(prefix, repo, runners, (n - 1) as nat);
        let last = runners[n - 1];
        law_only_our_runners_are_looked_at(prefix, repo, runners, (n - 1) as nat, id, name);
        text::lemma_contains_push(rest, TaskView::Runner(repo, last.id, last.name@));
    }
}

/// A machine that a listing shows no longer waits to be listed: from then on it is
/// there only as long as the listings show it.
pub proof fn law_a_listing_ends_the_wait(
    s: State,
    kind: Provider,
    machines: Vec<Machine>,
    now: u64,
    i: int,
)
    requires
        0 <= i < machines@.len(),
    ensures
        ({
            let after = tick::listed(s, kind, Ok(machines), now);
            &&& !after.unseen.contains_key(machines@[i].name@)
            &&& sweep::is_listed(after.fleet, machines@[i].name@)
        }),
{
    let after = tick::listed(s, kind, Ok(machines), now);
    let names = tick::names_of(machines@);
    assert(names[i] == machines@[i].name@);
    assert(names.to_set().contains(names[i]));
    assert(after.fleet[s.fleet.len() + i].1 == machines@[i]);
}

/// A machine that was just created keeps its runner, though no listing shows it yet.
pub proof fn law_a_new_machine_keeps_its_runner(
    config: &Config,
    s: State,
    attempt: AttemptView,
    machine: Machine,
    later: State,
    repo: RepoView,
    id: i64,
    clock: Clock,
)
    requires
        later.unseen == provision::created(s, attempt, Ok(machine)).unseen,
        later.agenda.len() > 0,
        later.agenda[0] == TaskView::Runner(repo, id, machine.name@),
    ensures
        tick::begun(config, later, clock).1 is None,
        !tick::begun(config, later, clock).0.missed_machines.contains_key(machine.name@),
{
}

/// A machine is ordered only for a job that a class answers to, that the class
/// admits within the grant of its repository, and at a provider whose machines
/// are visible.
pub proof fn law_an_order_is_admitted(
    config: &Config,
    s: State,
    entry: QueuedView,
    run: Run,
    sha: Option<Seq<char>>,
    order: OrderView,
)
    requires
        provision::decided(config, s, entry, run, sha).agenda.len() == s.agenda.len() + 2,
        provision::decided(config, s, entry, run, sha).agenda[1] == TaskView::Register(order),
    ensures
        policy::resolved(config, entry.job.runs_on) == Ok::<ClassView, policy::DenialView>(
            order.class,
        ),
        order.class.allowed_events.contains(forgejo::triggering(run)),
        run.is_fork_pull_request ==> order.class.allow_fork_pull_request,
        provision::running(config, s, entry.repo, order.class.provider) + 1 <= config::granted(
            config,
            entry.repo,
            order.class.provider,
        ),
        !s.blind.contains(order.class.provider),
        order.name == naming::machine_name_of(
            config.daemon.machine_prefix@,
            order.class.name(),
            entry.job.handle,
        ),
{
    let after = provision::decided(config, s, entry, run, sha);
    match policy::resolved(config, entry.job.runs_on) {
        Err(_) => {},
        Ok(class) => {
            let refusal = policy::refusal(
                config,
                class,
                entry.repo,
                forgejo::triggering(run),
                run.is_fork_pull_request,
                provision::running(config, s, entry.repo, class.provider),
            );
            if refusal is None && !s.blind.contains(class.provider) {
                assert(after.agenda[1] == TaskView::Register(
                    provision::order_of(
                        config,
                        entry,
                        sha,
                        text::optional(run.html_url),
                        class,
                    ),
                ));
            }
        },
    }
}

/// A job that a class answers to and admits gets its machine as long as fewer
/// machines count against its repository than it was granted, and its provider's
/// machines are visible: the commit is told, and a runner is registered.
pub proof fn law_a_job_within_the_grant_is_served(
    config: &Config,
    s: State,
    entry: QueuedView,
    run: Run,
    sha: Option<Seq<char>>,
    class: ClassView,
)
    requires
        policy::resolved(config, entry.job.runs_on) == Ok::<ClassView, policy::DenialView>(class),
        forgejo::triggering(run).len() > 0,
        class.allowed_events.contains(forgejo::triggering(run)),
        run.is_fork_pull_request ==> class.allow_fork_pull_request,
        provision::running(config, s, entry.repo, class.provider) < config::granted(
            config,
            entry.repo,
            class.provider,
        ),
        !s.blind.contains(class.provider),
    ensures
        ({
            let after = provision::decided(config, s, entry, run, sha);
            &&& after.agenda.len() == s.agenda.len() + 2
            &&& after.agenda[0] is Tell
            &&& after.agenda[1] == TaskView::Register(
                provision::order_of(config, entry, sha, text::optional(run.html_url), class),
            )
            &&& after.agenda.skip(2) == s.agenda
        }),
{
    let after = provision::decided(config, s, entry, run, sha);
    assert(after.agenda.skip(2) =~= s.agenda);
}

/// A job is looked into at most once in a tick, and not at all while a machine
/// serves it or unless it waits.
pub proof fn law_no_second_machine_for_a_job(
    config: &Config,
    s: State,
    entry: QueuedView,
    clock: Clock,
)
    requires
        s.agenda.len() > 0,
        s.agenda[0] == TaskView::Arrived(entry),
    ensures
        ({
            let handle = naming::truncated(entry.job.handle);
            let (after, asked) = tick::begun(config, s, clock);
            &&& asked is Some <==> entry.job.status == "waiting"@ && !s.handled.contains(handle)
                && !provision::is_served(s, handle)
            &&& asked is Some ==> after.handled.contains(handle)
        }),
{
    let handle = naming::truncated(entry.job.handle);
    let after = s.handled.push(handle);
    assert(after[s.handled.len() as int] == handle);
}

/// A refusal is told of once as long as its reason stays the same.
pub proof fn law_a_refusal_is_told_once(s: State, handle: Seq<char>, denial: Seq<char>)
    ensures
        ({
            let once = provision::logged(s, handle, denial);
            &&& provision::logged(once, handle, denial) == once
            &&& once.refusals[handle] == denial
        }),
{
}

/// A refusal of a job that left the queues is forgotten, so that it is told of
/// again should the job return.
pub proof fn law_a_settled_refusal_is_forgotten(s: State, handle: Seq<char>)
    requires
        forall|i: int| 0 <= i < s.queued.len() ==> (#[trigger] s.queued[i]).job.handle != handle,
    ensures
        !sweep::forgotten(s).refusals.contains_key(handle),
{
    let handles = sweep::handles_of(s.queued);
    if handles.contains(handle) {
        let i = choose|i: int| 0 <= i < handles.len() && handles[i] == handle;
        assert(s.queued[i].job.handle == handle);
    }
    assert(!handles.to_set().contains(handle));
}

/// A rejected placement is followed by the next one, with everything else as it was.
pub proof fn law_the_next_placement_follows(s: State, attempt: AttemptView, fault: Fault)
    requires
        attempt.placements.len() > 1,
    ensures
        ({
            let after = provision::created(s, attempt, Err(fault));
            &&& after.agenda[0] matches TaskView::Create(next)
            &&& next.order == attempt.order
            &&& next.registration == attempt.registration
            &&& next.user_data == attempt.user_data
            &&& next.placements == attempt.placements.drop_first()
            &&& provision::creation_of(next) matches Some(RequestView::Create(creation))
            &&& creation.plan == attempt.placements[1].plan
            &&& creation.location == attempt.placements[1].location
        }),
{
}

/// Where no placement is left, the runner is deleted, the commit is told the
/// last reason, and the alarm is raised.
pub proof fn law_a_failed_job_leaves_no_runner(
    config: &Config,
    s: State,
    attempt: AttemptView,
    clock: Clock,
)
    requires
        s.agenda.len() > 0,
        s.agenda[0] == TaskView::Create(attempt),
        attempt.placements.len() == 0,
    ensures
        ({
            let (after, asked) = tick::begun(config, s, clock);
            &&& asked is None
            &&& after.agenda[0] == TaskView::Cleanup(
                attempt.order.queued.repo,
                attempt.registration,
            )
            &&& after.agenda[1] matches TaskView::Tell(report)
            &&& report.description == provision::final_fault(attempt).brief
            &&& after.agenda[2] == TaskView::Fail(
                attempt.order.queued.job.handle,
                provision::final_fault(attempt).detail,
            )
        }),
{
}

/// A machine that a tick makes counts once against the grant of its repository
/// from then on, and this tick makes it for no other.
pub proof fn law_a_machine_counts_at_once(
    config: &Config,
    s: State,
    attempt: AttemptView,
    machine: Machine,
    other: RepoView,
    kind: Provider,
)
    requires
        s.unseen.dom().finite(),
    ensures
        ({
            let after = provision::created(s, attempt, Ok(machine));
            let repo = attempt.order.queued.repo;
            let own = attempt.order.class.provider;
            let before = provision::counted_names(config, s, repo, own);
            &&& provision::counted_names(config, after, repo, own) == before.insert(machine.name@)
            &&& provision::running(config, after, repo, own) == provision::running(
                config,
                s,
                repo,
                own,
            ) + if before.contains(machine.name@) {
                0nat
            } else {
                1
            }
            &&& other != repo || kind != own ==> provision::made_names(after, other, kind)
                == provision::made_names(s, other, kind)
        }),
{
    let after = provision::created(s, attempt, Ok(machine));
    let repo = attempt.order.queued.repo;
    let own = attempt.order.class.provider;
    let name = machine.name@;
    let made = MadeView { repo, provider: own, name };
    let before = provision::counted_names(config, s, repo, own);
    text::lemma_contains_push(s.pending, made);
    assert(after.pending == s.pending.push(made));
    assert(after.queued == s.queued);
    assert(provision::counted_names(config, after, repo, own) =~= before.insert(name)) by {
        assert forall|at: Seq<char>|
            provision::counted_names(config, after, repo, own).contains(at) <==> before.insert(
                name,
            ).contains(at) by {
            let one = MadeView { repo, provider: own, name: at };
            assert(after.pending.contains(one) <==> s.pending.contains(one) || one == made);
            assert(provision::serves_repo(config, after, repo, at) == provision::serves_repo(
                config,
                s,
                repo,
                at,
            ));
            if at != name {
                assert(provision::is_at(after, own, at) == provision::is_at(s, own, at));
            }
        }
    }
    lemma_counted_finite(config, s, repo, own);
    if other != repo || kind != own {
        assert(provision::made_names(after, other, kind) =~= provision::made_names(s, other, kind));
    }
}

/// No more machines count than were listed, kept in mind and made.
pub(super) proof fn lemma_counted_finite(config: &Config, s: State, repo: RepoView, provider: Provider)
    requires
        s.unseen.dom().finite(),
    ensures
        provision::counted_names(config, s, repo, provider).finite(),
{
    let listed = s.fleet.map_values(|entry: (Provider, Machine)| entry.1.name@).to_set();
    let made = s.pending.map_values(|one: MadeView| one.name).to_set();
    let all = listed.union(s.unseen.dom()).union(made);
    vstd::seq_lib::seq_to_set_is_finite(
        s.fleet.map_values(|entry: (Provider, Machine)| entry.1.name@),
    );
    vstd::seq_lib::seq_to_set_is_finite(s.pending.map_values(|one: MadeView| one.name));
    assert forall|name: Seq<char>|
        provision::counted_names(config, s, repo, provider).contains(name) implies all.contains(
        name,
    ) by {
        let names = s.fleet.map_values(|entry: (Provider, Machine)| entry.1.name@);
        let other = s.pending.map_values(|one: MadeView| one.name);
        if provision::made_names(s, repo, provider).contains(name) {
            let i = choose|i: int|
                0 <= i < s.pending.len() && s.pending[i] == (MadeView { repo, provider, name });
            assert(other[i] == name);
        } else if !s.unseen.contains_key(name) {
            let at = choose|at: int| #[trigger]
                provision::first_listed(s.fleet, name, at) && s.fleet[at].0 == provider;
            assert(names[at] == name);
        }
    }
    vstd::set_lib::lemma_set_subset_finite(all, provision::counted_names(config, s, repo, provider));
}

/// The machines that are kept in mind are filed under their names.
pub open spec fn filed_by_name(s: State) -> bool {
    forall|name: Seq<char>| #[trigger]
        s.unseen.contains_key(name) ==> s.unseen[name].1.name@ == name
}

/// A new orchestrator keeps no machine in mind, and the start of a tick changes
/// nothing about those that are.
pub proof fn law_machines_start_filed(config: &Config, s: State)
    requires
        filed_by_name(s),
    ensures
        filed_by_name(super::initial()),
        filed_by_name(tick::started(config, s)),
{
}

/// Going on keeps every machine filed under its name.
pub proof fn law_advancing_keeps_machines_filed(config: &Config, s: State, clock: Clock)
    requires
        filed_by_name(s),
        s.agenda.len() > 0,
    ensures
        filed_by_name(tick::begun(config, s, clock).0),
{
}

/// An answer keeps every machine filed under its name.
pub proof fn law_answers_keep_machines_filed(config: &Config, s: State, event: Event, now: u64)
    requires
        filed_by_name(s),
        s.agenda.len() > 0,
        tick::fits(s.agenda[0], event),
    ensures
        filed_by_name(tick::answered(config, s, event, now)),
{
}

/// The provider whose machine a task may destroy.
pub open spec fn touches(task: TaskView) -> Option<Provider> {
    match task {
        TaskView::Overdue(kind, _) => Some(kind),
        TaskView::Unseen(kind, _) => Some(kind),
        TaskView::Departed(kind, _) => Some(kind),
        _ => None,
    }
}

/// The provider was not listed yet in this tick.
pub open spec fn is_open(s: State, kind: Provider) -> bool {
    !s.blind.contains(kind) && forall|i: int|
        0 <= i < s.fleet.len() ==> (#[trigger] s.fleet[i]).0 != kind
}

/// Nothing is known of the machines of a provider that could not be listed, and
/// nothing is to be done about them.
pub open spec fn leaves_blind_alone(s: State) -> bool {
    &&& forall|i: int| 0 <= i < s.fleet.len() ==> !s.blind.contains((#[trigger] s.fleet[i]).0)
    &&& forall|i: int|
        0 <= i < s.agenda.len() ==> match #[trigger] s.agenda[i] {
            TaskView::List(kind) => is_open(s, kind),
            task => touches(task) matches Some(kind) ==> !s.blind.contains(kind),
        }
    &&& forall|i: int, j: int|
        0 <= i < j < s.agenda.len() && #[trigger] s.agenda[i] is List ==> s.agenda[i]
            != #[trigger] s.agenda[j]
}

proof fn lemma_kinds_distinct(chosen: Set<Provider>, n: nat)
    requires
        n <= PROVIDERS,
    ensures
        forall|i: int|
            0 <= i < kinds::kinds_of(chosen, n).len() ==> kinds::place_of(
                #[trigger] kinds::kinds_of(chosen, n)[i],
            ) < n,
        forall|i: int, j: int|
            0 <= i < j < kinds::kinds_of(chosen, n).len() ==> #[trigger] kinds::kinds_of(
                chosen,
                n,
            )[i] != #[trigger] kinds::kinds_of(chosen, n)[j],
    decreases n,
{
    if n > 0 {
        let rest = kinds::kinds_of(chosen, (n - 1) as nat);
        let all = kinds::kinds_of(chosen, n);
        lemma_kinds_distinct(chosen, (n - 1) as nat);
        assert forall|i: int| 0 <= i < all.len() implies kinds::place_of(#[trigger] all[i])
            < n by {
            if i < rest.len() {
                assert(all[i] == rest[i]);
            }
        }
        assert forall|i: int, j: int| 0 <= i < j < all.len() implies #[trigger] all[i]
            != #[trigger] all[j] by {
            assert(all[i] == rest[i]);
            if j < rest.len() {
                assert(all[j] == rest[j]);
            }
        }
    }
}

/// A tick starts with nothing to be done about any machine.
pub proof fn law_a_tick_starts_leaving_blind_alone(config: &Config, s: State)
    ensures
        leaves_blind_alone(tick::started(config, s)),
{
    let agenda = tick::opening(config);
    let all = kinds::kinds_of(config.providers@.dom(), PROVIDERS as nat);
    let listing = all.map_values(|kind: Provider| TaskView::List(kind));
    let polling = config.repos@.map_values(|repo: Repo| TaskView::Poll(repo@));
    lemma_kinds_distinct(config.providers@.dom(), PROVIDERS as nat);
    assert forall|i: int| 0 <= i < agenda.len() implies (#[trigger] agenda[i]) is List
        || agenda[i] is Poll || agenda[i] is Plan by {
        if i < listing.len() {
            assert(agenda[i] == listing[i]);
        } else if i < listing.len() + polling.len() {
            assert(agenda[i] == polling[i - listing.len()]);
        }
    }
    assert forall|i: int, j: int|
        0 <= i < j < agenda.len() && #[trigger] agenda[i] is List implies agenda[i]
        != #[trigger] agenda[j] by {
        if i >= listing.len() {
            if i < listing.len() + polling.len() {
                assert(agenda[i] == polling[i - listing.len()]);
            }
        } else {
            assert(agenda[i] == listing[i]);
            if j < listing.len() {
                assert(agenda[j] == listing[j]);
                assert(all[i] != all[j]);
            } else if j < listing.len() + polling.len() {
                assert(agenda[j] == polling[j - listing.len()]);
            }
        }
    }
}

/// What follows a task, with these in front, leaves blind providers alone.
proof fn lemma_follow_alone(s: State, after: State, tasks: Seq<TaskView>)
    requires
        leaves_blind_alone(s),
        s.agenda.len() > 0,
        after.agenda == tasks + s.agenda.drop_first(),
        after.fleet == s.fleet,
        after.blind == s.blind,
        forall|i: int| 0 <= i < tasks.len() ==> !((#[trigger] tasks[i]) is List),
        forall|i: int|
            0 <= i < tasks.len() ==> (touches(#[trigger] tasks[i]) matches Some(kind)
                ==> !s.blind.contains(kind)),
    ensures
        leaves_blind_alone(after),
{
    let gap = tasks.len() - 1;
    assert forall|i: int| 0 <= i < after.agenda.len() implies match #[trigger] after.agenda[i] {
        TaskView::List(kind) => is_open(after, kind),
        task => touches(task) matches Some(kind) ==> !after.blind.contains(kind),
    } by {
        if i < tasks.len() {
            assert(after.agenda[i] == tasks[i]);
        } else {
            assert(after.agenda[i] == s.agenda[i - gap]);
        }
    }
    assert forall|i: int, j: int|
        0 <= i < j < after.agenda.len() && #[trigger] after.agenda[i] is List implies after.agenda[i]
        != #[trigger] after.agenda[j] by {
        if i < tasks.len() {
            assert(after.agenda[i] == tasks[i]);
        } else {
            assert(after.agenda[i] == s.agenda[i - gap]);
            assert(after.agenda[j] == s.agenda[j - gap]);
        }
    }
}

proof fn lemma_stale_alone(s: State, names: Seq<Seq<char>>, n: nat)
    ensures
        forall|i: int|
            0 <= i < sweep::stale_of(s, names, n).len() ==> (touches(
                #[trigger] sweep::stale_of(s, names, n)[i],
            ) matches Some(kind) ==> !s.blind.contains(kind)),
    decreases n,
{
    if n > 0 {
        lemma_stale_alone(s, names, (n - 1) as nat);
    }
}

/// Going on leaves the machines of blind providers alone.
pub proof fn law_advancing_leaves_blind_alone(config: &Config, s: State, clock: Clock)
    requires
        leaves_blind_alone(s),
        s.agenda.len() > 0,
    ensures
        leaves_blind_alone(tick::begun(config, s, clock).0),
{
    let (after, _) = tick::begun(config, s, clock);
    match s.agenda[0] {
        TaskView::Plan => {
            let tasks = tick::planned(s);
            assert forall|i: int| 0 <= i < tasks.len() implies (touches(
                #[trigger] tasks[i],
            ) matches Some(kind) ==> !s.blind.contains(kind)) by {
                let fleet = s.fleet.len() as int;
                if i < fleet {
                    assert(tasks[i] == TaskView::Overdue(s.fleet[i].0, s.fleet[i].1));
                } else if s.all_queues_read && fleet < i < 2 * fleet + 1 {
                    let at = i - fleet - 1;
                    assert(tasks[i] == TaskView::Departed(s.fleet[at].0, s.fleet[at].1));
                }
            }
            lemma_follow_alone(s, after, tasks);
        },
        TaskView::SweepUnseen => {
            let names = crate::table::in_order(s.unseen.dom());
            lemma_stale(s, names, names.len());
            lemma_stale_alone(s, names, names.len());
            lemma_follow_alone(s, after, sweep::stale(s));
        },
        TaskView::Reap => {
            let tasks = config.repos@.map_values(|repo: Repo| TaskView::Runners(repo@)).push(
                TaskView::SettleRunners,
            );
            lemma_follow_alone(s, after, tasks);
        },
        TaskView::Arrivals => {
            let tasks = s.queued.map_values(|entry: QueuedView| TaskView::Arrived(entry));
            lemma_follow_alone(s, after, tasks);
        },
        TaskView::Create(attempt) => {
            if attempt.placements.len() == 0 {
                lemma_follow_alone(s, after, provision::given_up(attempt));
            }
        },
        _ => {
            if after.agenda != s.agenda {
                assert(after.agenda =~= Seq::<TaskView>::empty() + s.agenda.drop_first());
                lemma_follow_alone(s, after, Seq::empty());
            }
        },
    }
}

/// An answer leaves the machines of blind providers alone.
pub proof fn law_answers_leave_blind_alone(config: &Config, s: State, event: Event, now: u64)
    requires
        in_order(s),
        leaves_blind_alone(s),
        s.agenda.len() > 0,
        tick::fits(s.agenda[0], event),
    ensures
        leaves_blind_alone(tick::answered(config, s, event, now)),
{
    let after = tick::answered(config, s, event, now);
    let head = s.agenda[0];
    if let TaskView::List(kind) = head {
        assert(surveying(s.agenda)) by {
            if acting(s) {
                assert(may_act(s, s.agenda[0]));
            }
        }
        assert(is_open(s, kind));
        assert(after.agenda =~= s.agenda.drop_first());
        assert forall|i: int| 0 <= i < after.agenda.len() implies match #[trigger] after.agenda[i] {
            TaskView::List(other) => is_open(after, other),
            task => touches(task) matches Some(other) ==> !after.blind.contains(other),
        } by {
            assert(after.agenda[i] == s.agenda[i + 1]);
            assert(s.agenda[0] != s.agenda[i + 1]);
            if i + 1 < s.agenda.len() - 1 {
                assert(is_survey(s.agenda[i + 1]));
            }
            if let TaskView::List(other) = after.agenda[i] {
                assert(other != kind);
                assert(is_open(s, other));
                lemma_listing_leaves_open(s, kind, other, event, now, after);
            }
        }
        assert forall|i: int| 0 <= i < after.fleet.len() implies !after.blind.contains(
            (#[trigger] after.fleet[i]).0,
        ) by {
            lemma_listing_keeps_apart(s, kind, event, now, after, i);
        }
        assert forall|i: int, j: int|
            0 <= i < j < after.agenda.len() && #[trigger] after.agenda[i] is List implies
            after.agenda[i] != #[trigger] after.agenda[j] by {
            assert(after.agenda[i] == s.agenda[i + 1]);
            assert(after.agenda[j] == s.agenda[j + 1]);
        }
    } else {
        let tasks = after.agenda.take(after.agenda.len() - s.agenda.len() + 1);
        if let TaskView::Runners(repo) = head {
            if let Event::RunnersListed(Ok(runners)) = event {
                lemma_our_runners(
                    config.daemon.machine_prefix@,
                    repo,
                    runners@,
                    runners@.len(),
                );
            }
        }
        assert(after.agenda =~= tasks + s.agenda.drop_first());
        lemma_follow_alone(s, after, tasks);
    }
}

proof fn lemma_listing_leaves_open(
    s: State,
    kind: Provider,
    other: Provider,
    event: Event,
    now: u64,
    after: State,
)
    requires
        is_open(s, other),
        other != kind,
        event matches Event::Listed(outcome) && after == tick::listed(
            s.taken(),
            kind,
            outcome,
            now,
        ),
    ensures
        is_open(after, other),
{
    if let Event::Listed(outcome) = event {
        match outcome {
            Ok(machines) => {
                let more = machines@.map_values(|machine: Machine| (kind, machine));
                assert forall|i: int| 0 <= i < after.fleet.len() implies (
                #[trigger] after.fleet[i]).0 != other by {
                    if i < s.fleet.len() {
                        assert(after.fleet[i] == s.fleet[i]);
                    } else {
                        assert(after.fleet[i] == more[i - s.fleet.len()]);
                    }
                }
            },
            Err(_) => {
                text::lemma_contains_push(s.blind, kind);
            },
        }
    }
}

proof fn lemma_listing_keeps_apart(
    s: State,
    kind: Provider,
    event: Event,
    now: u64,
    after: State,
    i: int,
)
    requires
        leaves_blind_alone(s),
        is_open(s, kind),
        event matches Event::Listed(outcome) && after == tick::listed(
            s.taken(),
            kind,
            outcome,
            now,
        ),
        0 <= i < after.fleet.len(),
    ensures
        !after.blind.contains(after.fleet[i].0),
{
    if let Event::Listed(outcome) = event {
        match outcome {
            Ok(machines) => {
                let more = machines@.map_values(|machine: Machine| (kind, machine));
                if i < s.fleet.len() {
                    assert(after.fleet[i] == s.fleet[i]);
                } else {
                    assert(after.fleet[i] == more[i - s.fleet.len()]);
                }
            },
            Err(_) => {
                text::lemma_contains_push(s.blind, kind);
                assert(after.fleet[i] == s.fleet[i]);
            },
        }
    }
}

} // verus!
