//! No repository gets more machines than it was granted.

use vstd::prelude::*;

use super::laws;
use super::provision;
use super::sweep;
use super::task::{AttemptView, Clock, Event, OrderView, QueuedView, TaskView};
use super::tick;
use super::State;
use crate::config;
use crate::config::{Config, Provider, Repo, RepoView};
use crate::provider::Machine;
use crate::table;

verus! {

/// The machine that a task is on the way to make.
pub open spec fn order_in(task: TaskView) -> Option<OrderView> {
    match task {
        TaskView::Register(order) => Some(order),
        TaskView::Create(attempt) => Some(attempt.order),
        _ => None,
    }
}

/// None of the tasks is on the way to make a machine.
pub open spec fn makes_nothing(tasks: Seq<TaskView>) -> bool {
    forall|i: int| 0 <= i < tasks.len() ==> order_in(#[trigger] tasks[i]) is None
}

/// One more machine is within the grant of the order's repository.
pub open spec fn has_room(config: &Config, s: State, order: OrderView) -> bool {
    provision::running(config, s, order.queued.repo, order.class.provider) + 1 <= config::granted(
        config,
        order.queued.repo,
        order.class.provider,
    )
}

/// At most one machine is on the way, it is next but for a status that is told
/// before, and there is room for it.
pub open spec fn within_grants(config: &Config, s: State) -> bool {
    &&& forall|i: int|
        0 <= i < s.agenda.len() && order_in(#[trigger] s.agenda[i]) is Some ==> i == 0 || (i == 1
            && s.agenda[0] is Tell)
    &&& forall|i: int|
        0 <= i < s.agenda.len() ==> (order_in(#[trigger] s.agenda[i]) matches Some(order)
            ==> has_room(config, s, order))
}

/// What counts goes by the listings, the queues and the machines that were made.
proof fn lemma_same_count(
    config: &Config,
    s: State,
    after: State,
    repo: RepoView,
    provider: Provider,
)
    requires
        after.fleet == s.fleet,
        after.unseen == s.unseen,
        after.queued == s.queued,
        after.pending == s.pending,
    ensures
        provision::running(config, after, repo, provider) == provision::running(
            config,
            s,
            repo,
            provider,
        ),
{
    assert(provision::counted_names(config, after, repo, provider) =~= provision::counted_names(
        config,
        s,
        repo,
        provider,
    )) by {
        assert forall|name: Seq<char>|
            provision::counted_names(config, after, repo, provider).contains(name)
                <==> provision::counted_names(config, s, repo, provider).contains(name) by {
            assert(provision::serves_repo(config, after, repo, name) == provision::serves_repo(
                config,
                s,
                repo,
                name,
            ));
            assert(provision::is_at(after, provider, name) == provision::is_at(
                s,
                provider,
                name,
            ));
        }
    }
}

/// Where neither a status nor a machine is next, no machine is on the way.
proof fn lemma_makes_nothing(config: &Config, s: State)
    requires
        within_grants(config, s),
        s.agenda.len() > 0,
        !(s.agenda[0] is Tell),
        order_in(s.agenda[0]) is None,
    ensures
        makes_nothing(s.agenda),
{
}

/// With no machine on the way, there is nothing to hold to a grant.
proof fn lemma_free(config: &Config, rest: Seq<TaskView>, after: State, tasks: Seq<TaskView>)
    requires
        makes_nothing(rest),
        makes_nothing(tasks),
        after.agenda == tasks + rest,
    ensures
        within_grants(config, after),
{
    assert forall|i: int| 0 <= i < after.agenda.len() implies order_in(
        #[trigger] after.agenda[i],
    ) is None by {
        if i < tasks.len() {
            assert(after.agenda[i] == tasks[i]);
        } else {
            assert(after.agenda[i] == rest[i - tasks.len()]);
        }
    }
}

/// Behind the first two tasks, and behind a machine that is next, none is on the way.
proof fn lemma_rest(config: &Config, s: State)
    requires
        within_grants(config, s),
        s.agenda.len() > 0,
    ensures
        s.agenda[0] is Tell || makes_nothing(s.agenda.drop_first()),
{
    if !(s.agenda[0] is Tell) {
        let rest = s.agenda.drop_first();
        assert forall|i: int| 0 <= i < rest.len() implies order_in(#[trigger] rest[i]) is None by {
            assert(rest[i] == s.agenda[i + 1]);
        }
    }
}

/// A status that was told leaves the machine behind it next.
proof fn lemma_told(config: &Config, s: State, after: State)
    requires
        within_grants(config, s),
        s.agenda.len() > 0,
        s.agenda[0] is Tell,
        after.agenda == s.agenda.drop_first(),
        after.fleet == s.fleet,
        after.unseen == s.unseen,
        after.queued == s.queued,
        after.pending == s.pending,
    ensures
        within_grants(config, after),
{
    assert forall|i: int| 0 <= i < after.agenda.len() implies {
        &&& order_in(#[trigger] after.agenda[i]) is Some ==> i == 0
        &&& order_in(after.agenda[i]) matches Some(order) ==> has_room(config, after, order)
    } by {
        assert(after.agenda[i] == s.agenda[i + 1]);
        if let Some(order) = order_in(after.agenda[i]) {
            lemma_same_count(config, s, after, order.queued.repo, order.class.provider);
        }
    }
}

/// Where what counts stays and the agenda stays, the grants are kept to.
proof fn lemma_kept(config: &Config, s: State, after: State)
    requires
        within_grants(config, s),
        after.agenda == s.agenda,
        after.fleet == s.fleet,
        after.unseen == s.unseen,
        after.queued == s.queued,
        after.pending == s.pending,
    ensures
        within_grants(config, after),
{
    assert forall|i: int| 0 <= i < after.agenda.len() implies (order_in(
        #[trigger] after.agenda[i],
    ) matches Some(order) ==> has_room(config, after, order)) by {
        if let Some(order) = order_in(after.agenda[i]) {
            lemma_same_count(config, s, after, order.queued.repo, order.class.provider);
        }
    }
}

/// A tick starts with no machine on the way.
pub proof fn law_a_tick_starts_within_the_grants(config: &Config, s: State)
    ensures
        within_grants(config, tick::started(config, s)),
{
}

/// Going on keeps to the grants.
pub proof fn law_advancing_keeps_the_grants(config: &Config, s: State, clock: Clock)
    requires
        within_grants(config, s),
        s.agenda.len() > 0,
    ensures
        within_grants(config, tick::begun(config, s, clock).0),
{
    let (after, _) = tick::begun(config, s, clock);
    let rest = s.agenda.drop_first();
    lemma_rest(config, s);
    match s.agenda[0] {
        TaskView::Plan => {
            lemma_free(config, rest, after, tick::planned(s));
        },
        TaskView::SweepUnseen => {
            let names = table::in_order(s.unseen.dom());
            laws::lemma_stale(s, names, names.len());
            lemma_free(config, rest, after, sweep::stale(s));
        },
        TaskView::Reap => {
            let tasks = config.repos@.map_values(|repo: Repo| TaskView::Runners(repo@)).push(
                TaskView::SettleRunners,
            );
            lemma_free(config, rest, after, tasks);
        },
        TaskView::Arrivals => {
            let tasks = s.queued.map_values(|entry: QueuedView| TaskView::Arrived(entry));
            lemma_free(config, rest, after, tasks);
        },
        TaskView::Tell(report) => {
            if report.sha is None {
                assert(after.agenda =~= rest);
                lemma_told(config, s, after);
            }
        },
        TaskView::Create(attempt) => {
            if attempt.placements.len() == 0 {
                lemma_free(config, rest, after, provision::given_up(attempt));
            }
        },
        TaskView::Register(_) => {},
        _ => {
            lemma_makes_nothing(config, s);
            if after.agenda != s.agenda {
                assert(after.agenda =~= Seq::<TaskView>::empty() + rest);
                lemma_free(config, rest, after, Seq::empty());
            } else {
                assert(after.agenda =~= Seq::<TaskView>::empty() + s.agenda);
                lemma_free(config, s.agenda, after, Seq::empty());
            }
        },
    }
}

/// A machine that is decided on is within the grant.
proof fn lemma_decided(config: &Config, s: State, entry: QueuedView, outcome: Event, now: u64)
    requires
        within_grants(config, s),
        s.agenda.len() > 0,
        s.agenda[0] == TaskView::Arrived(entry),
        outcome is RunRead,
    ensures
        within_grants(config, tick::answered(config, s, outcome, now)),
{
    let after = tick::answered(config, s, outcome, now);
    let rest = s.agenda.drop_first();
    let taken = s.taken();
    lemma_rest(config, s);
    assert(makes_nothing(rest));
    let tasks = after.agenda.take(after.agenda.len() - rest.len());
    assert(after.agenda =~= tasks + rest);
    if tasks.len() == 2 {
        let order = order_in(tasks[1])->0;
        lemma_same_count(config, s, taken, order.queued.repo, order.class.provider);
        lemma_same_count(config, taken, after, order.queued.repo, order.class.provider);
        assert(has_room(config, after, order));
        assert forall|i: int| 0 <= i < after.agenda.len() && i != 1 implies order_in(
            #[trigger] after.agenda[i],
        ) is None by {
            if i > 1 {
                assert(after.agenda[i] == rest[i - 2]);
            }
        }
    } else {
        lemma_free(config, rest, after, tasks);
    }
}

/// A machine stays on the way, and what counts stays.
proof fn lemma_on_the_way(config: &Config, s: State, after: State, next: TaskView)
    requires
        within_grants(config, s),
        s.agenda.len() > 0,
        order_in(s.agenda[0]) is Some,
        order_in(next) == order_in(s.agenda[0]),
        after.agenda == seq![next] + s.agenda.drop_first(),
        after.fleet == s.fleet,
        after.unseen == s.unseen,
        after.queued == s.queued,
        after.pending == s.pending,
    ensures
        within_grants(config, after),
{
    let order = order_in(next)->0;
    let rest = s.agenda.drop_first();
    lemma_rest(config, s);
    assert(has_room(config, s, order_in(s.agenda[0])->0));
    lemma_same_count(config, s, after, order.queued.repo, order.class.provider);
    assert forall|i: int| 1 <= i < after.agenda.len() implies order_in(
        #[trigger] after.agenda[i],
    ) is None by {
        assert(after.agenda[i] == rest[i - 1]);
    }
}

/// An answer keeps to the grants, whatever it says: from the moment a machine is
/// decided on until it is made, no other comes to count.
pub proof fn law_answers_keep_the_grants(config: &Config, s: State, event: Event, now: u64)
    requires
        within_grants(config, s),
        s.agenda.len() > 0,
        tick::fits(s.agenda[0], event),
    ensures
        within_grants(config, tick::answered(config, s, event, now)),
{
    let after = tick::answered(config, s, event, now);
    let rest = s.agenda.drop_first();
    lemma_rest(config, s);
    match s.agenda[0] {
        TaskView::Tell(_) => {
            lemma_told(config, s, after);
        },
        TaskView::Arrived(entry) => {
            lemma_decided(config, s, entry, event, now);
        },
        TaskView::Register(order) => {
            if let Event::Registered(Ok(registration)) = event {
                let next = after.agenda[0];
                assert(after.agenda =~= seq![next] + rest);
                lemma_on_the_way(config, s, after, next);
            } else {
                assert(after.agenda =~= Seq::<TaskView>::empty() + rest);
                lemma_free(config, rest, after, Seq::empty());
            }
        },
        TaskView::Create(attempt) => {
            if let Event::Created(Err(fault)) = event {
                let next = after.agenda[0];
                assert(after.agenda =~= seq![next] + rest);
                lemma_on_the_way(config, s, after, next);
            } else {
                let next = after.agenda[0];
                assert(after.agenda =~= seq![next] + rest);
                lemma_free(config, rest, after, seq![next]);
            }
        },
        TaskView::Runners(repo) => {
            if let Event::RunnersListed(Ok(runners)) = event {
                let prefix = config.daemon.machine_prefix@;
                laws::lemma_our_runners(prefix, repo, runners@, runners@.len());
                lemma_free(
                    config,
                    rest,
                    after,
                    sweep::our_runners(prefix, repo, runners@, runners@.len()),
                );
            } else {
                assert(after.agenda =~= Seq::<TaskView>::empty() + rest);
                lemma_free(config, rest, after, Seq::empty());
            }
        },
        _ => {
            assert(after.agenda =~= Seq::<TaskView>::empty() + rest);
            lemma_free(config, rest, after, Seq::empty());
        },
    }
}

/// With a machine that was just made, a repository has no more machines at the
/// provider than it was granted.
pub proof fn law_no_machine_exceeds_the_grant(
    config: &Config,
    s: State,
    attempt: AttemptView,
    machine: Machine,
    now: u64,
)
    requires
        within_grants(config, s),
        s.unseen.dom().finite(),
        s.agenda.len() > 0,
        s.agenda[0] == TaskView::Create(attempt),
    ensures
        ({
            let after = tick::answered(config, s, Event::Created(Ok(machine)), now);
            let repo = attempt.order.queued.repo;
            let provider = attempt.order.class.provider;
            provision::running(config, after, repo, provider) <= config::granted(
                config,
                repo,
                provider,
            )
        }),
{
    let repo = attempt.order.queued.repo;
    let provider = attempt.order.class.provider;
    let taken = s.taken();
    assert(has_room(config, s, attempt.order)) by {
        assert(order_in(s.agenda[0]) == Some(attempt.order));
    }
    lemma_same_count(config, s, taken, repo, provider);
    laws::law_a_machine_counts_at_once(config, taken, attempt, machine, repo, provider);
}

} // verus!
