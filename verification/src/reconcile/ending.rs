//! A tick comes to an end.

use vstd::prelude::*;

use super::laws;
use super::provision;
use super::sweep;
use super::task::{Clock, Event, QueuedView, TaskView};
use super::tick;
use super::State;
use crate::config::{Config, Repo};
use crate::table;

verus! {

/// How much a task may still lead to: it is done with once it was replaced by tasks
/// of lower ranks, however many.
pub open spec fn rank_of(task: TaskView) -> int {
    match task {
        TaskView::Plan => 6,
        TaskView::Reap => 5,
        TaskView::SweepUnseen => 4,
        TaskView::Runners(_) => 4,
        TaskView::Arrivals => 4,
        TaskView::Arrived(_) => 3,
        TaskView::Register(_) => 2,
        TaskView::Create(_) => 1,
        _ => 0,
    }
}

/// What a task weighs among those of its rank: a creation as much as there are
/// placements to try, and one more.
pub open spec fn weight_of(task: TaskView) -> nat {
    match task {
        TaskView::Create(attempt) => attempt.placements.len() + 1,
        _ => 1,
    }
}

/// What a task weighs in a rank.
pub open spec fn weight_in(task: TaskView, rank: int) -> nat {
    if rank_of(task) == rank {
        weight_of(task)
    } else {
        0
    }
}

/// What the tasks of a rank weigh together.
pub open spec fn load(agenda: Seq<TaskView>, rank: int) -> nat
    decreases agenda.len(),
{
    if agenda.len() == 0 {
        0
    } else {
        weight_in(agenda[0], rank) + load(agenda.drop_first(), rank)
    }
}

/// Less is left to do on one agenda than on another: the loads are compared from
/// the highest rank down. No agenda can become lighter for ever.
pub open spec fn lighter(agenda: Seq<TaskView>, than: Seq<TaskView>) -> bool {
    decreases_to!(
        load(than, 6), load(than, 5), load(than, 4), load(than, 3), load(than, 2), load(than, 1),
        load(than, 0) =>
        load(agenda, 6), load(agenda, 5), load(agenda, 4), load(agenda, 3), load(agenda, 2),
        load(agenda, 1), load(agenda, 0)
    )
}

proof fn lemma_load_joined(first: Seq<TaskView>, rest: Seq<TaskView>, rank: int)
    ensures
        load(first + rest, rank) == load(first, rank) + load(rest, rank),
    decreases first.len(),
{
    if first.len() == 0 {
        assert(first + rest =~= rest);
    } else {
        assert((first + rest).drop_first() =~= first.drop_first() + rest);
        lemma_load_joined(first.drop_first(), rest, rank);
    }
}

proof fn lemma_no_load(tasks: Seq<TaskView>, rank: int)
    requires
        forall|i: int| 0 <= i < tasks.len() ==> rank_of(#[trigger] tasks[i]) != rank,
    ensures
        load(tasks, rank) == 0,
    decreases tasks.len(),
{
    if tasks.len() > 0 {
        assert forall|i: int| 0 <= i < tasks.drop_first().len() implies rank_of(
            #[trigger] tasks.drop_first()[i],
        ) != rank by {
            assert(tasks.drop_first()[i] == tasks[i + 1]);
        }
        lemma_no_load(tasks.drop_first(), rank);
    }
}

/// An agenda is lighter once its first task was replaced by tasks of lower ranks.
proof fn lemma_replaced(agenda: Seq<TaskView>, tasks: Seq<TaskView>)
    requires
        agenda.len() > 0,
        forall|i: int| 0 <= i < tasks.len() ==> rank_of(#[trigger] tasks[i]) < rank_of(agenda[0]),
    ensures
        lighter(tasks + agenda.drop_first(), agenda),
{
    let rest = agenda.drop_first();
    let head = rank_of(agenda[0]);
    assert forall|rank: int| head <= rank implies #[trigger] load(tasks + rest, rank) == load(
        rest,
        rank,
    ) by {
        lemma_load_joined(tasks, rest, rank);
        lemma_no_load(tasks, rank);
    }
    assert(load(tasks + rest, 6) <= load(agenda, 6) || head < 6);
    assert(forall|rank: int| head < rank ==> #[trigger] load(agenda, rank) == load(rest, rank));
    assert(load(agenda, head) > load(rest, head));
    assert(load(tasks + rest, head) == load(rest, head));
    assert(forall|rank: int|
        head < rank ==> #[trigger] load(tasks + rest, rank) == load(agenda, rank));
}

/// Going on without a request leaves less to do, and a request leaves the agenda as
/// it is until the answer comes.
pub proof fn law_advancing_leaves_less(config: &Config, s: State, clock: Clock)
    requires
        s.agenda.len() > 0,
    ensures
        ({
            let (after, asked) = tick::begun(config, s, clock);
            &&& asked is None ==> lighter(after.agenda, s.agenda)
            &&& asked is Some ==> after.agenda == s.agenda
        }),
{
    let (after, asked) = tick::begun(config, s, clock);
    if asked is None {
        match s.agenda[0] {
            TaskView::Plan => {
                let tasks = tick::planned(s);
                assert(after.agenda == tasks + s.agenda.drop_first());
                lemma_replaced(s.agenda, tasks);
            },
            TaskView::SweepUnseen => {
                let names = table::in_order(s.unseen.dom());
                laws::lemma_stale(s, names, names.len());
                lemma_replaced(s.agenda, sweep::stale(s));
            },
            TaskView::Reap => {
                let tasks = config.repos@.map_values(|repo: Repo| TaskView::Runners(repo@)).push(
                    TaskView::SettleRunners,
                );
                lemma_replaced(s.agenda, tasks);
            },
            TaskView::Arrivals => {
                let tasks = s.queued.map_values(|entry: QueuedView| TaskView::Arrived(entry));
                lemma_replaced(s.agenda, tasks);
            },
            TaskView::Create(attempt) => {
                lemma_replaced(s.agenda, provision::given_up(attempt));
            },
            _ => {
                assert(after.agenda =~= Seq::<TaskView>::empty() + s.agenda.drop_first());
                lemma_replaced(s.agenda, Seq::empty());
            },
        }
    }
}

/// An answer leaves less to do, whatever it says.
pub proof fn law_answers_leave_less(config: &Config, s: State, event: Event, now: u64)
    requires
        s.agenda.len() > 0,
        tick::fits(s.agenda[0], event),
    ensures
        lighter(tick::answered(config, s, event, now).agenda, s.agenda),
{
    let after = tick::answered(config, s, event, now);
    let rest = s.agenda.drop_first();
    let tasks = after.agenda.take(after.agenda.len() - s.agenda.len() + 1);
    if let TaskView::Runners(repo) = s.agenda[0] {
        if let Event::RunnersListed(Ok(runners)) = event {
            laws::lemma_our_runners(
                config.daemon.machine_prefix@,
                repo,
                runners@,
                runners@.len(),
            );
        }
    }
    assert(after.agenda =~= tasks + rest);
    if let TaskView::Create(attempt) = s.agenda[0] {
        if let Event::Created(Err(fault)) = event {
            let next = tasks[0];
            assert(tasks =~= seq![next]);
            assert(tasks.drop_first() =~= Seq::<TaskView>::empty());
            assert forall|rank: int| #[trigger] load(after.agenda, rank) == weight_in(next, rank)
                + load(rest, rank) by {
                lemma_load_joined(tasks, rest, rank);
                assert(load(tasks.drop_first(), rank) == 0);
            }
            assert(weight_of(next) < weight_of(s.agenda[0]));
        } else {
            lemma_replaced(s.agenda, tasks);
        }
    } else {
        lemma_replaced(s.agenda, tasks);
    }
}

} // verus!
