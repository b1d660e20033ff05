//! The order in which things are done, one request at a time.

use vstd::prelude::*;

use super::provision;
use super::sweep;
use super::task;
use super::task::{
    Clock, Event, Fault, Notice, Queued, QueuedView, Request, RequestView, Task, TaskView,
};
use super::{Orchestrator, State};
use crate::alert::Kind;
use crate::config;
use crate::config::kinds;
use crate::config::kinds::PROVIDERS;
use crate::config::{Config, Provider, Repo, RepoView};
use crate::forgejo::Job;
use crate::provider::Machine;
use crate::text;

verus! {

/// What a tick starts with: every provider is listed, every queue is read.
pub open spec fn opening(config: &Config) -> Seq<TaskView> {
    kinds::kinds_of(config.providers@.dom(), PROVIDERS as nat).map_values(
        |kind: Provider| TaskView::List(kind),
    ) + config.repos@.map_values(|repo: Repo| TaskView::Poll(repo@)) + seq![TaskView::Plan]
}

/// A tick starts: what was listed and read before no longer counts.
pub open spec fn started(config: &Config, s: State) -> State {
    State {
        fleet: Seq::empty(),
        blind: Seq::empty(),
        queued: Seq::empty(),
        all_queues_read: true,
        agenda: opening(config),
        ..s
    }
}

pub open spec fn overdue_tasks(fleet: Seq<(Provider, Machine)>) -> Seq<TaskView> {
    fleet.map_values(|entry: (Provider, Machine)| TaskView::Overdue(entry.0, entry.1))
}

pub open spec fn departed_tasks(fleet: Seq<(Provider, Machine)>) -> Seq<TaskView> {
    fleet.map_values(|entry: (Provider, Machine)| TaskView::Departed(entry.0, entry.1))
}

/// The rest of a tick, once everything is listed and read. Machines past their
/// lifetime go first. Only if every queue could be read, machines whose job is
/// gone follow; only if every provider could be listed, runners without a
/// machine. The jobs that wait come last.
pub open spec fn planned(s: State) -> Seq<TaskView> {
    let departing = if s.all_queues_read {
        departed_tasks(s.fleet).push(TaskView::Forget)
    } else {
        Seq::empty()
    };
    let reaping = if s.blind.len() == 0 {
        seq![TaskView::Reap]
    } else {
        Seq::empty()
    };
    overdue_tasks(s.fleet) + seq![TaskView::SweepUnseen] + departing + reaping + seq![
        TaskView::Arrivals,
    ]
}

/// What the task at hand leads to: a request, or else what is known and to do
/// without one.
pub open spec fn begun(config: &Config, s: State, clock: Clock) -> (State, Option<RequestView>) {
    match s.agenda[0] {
        TaskView::List(kind) => (
            s,
            Some(RequestView::List(kind, config.daemon.machine_prefix@)),
        ),
        TaskView::Poll(repo) => (
            s,
            Some(RequestView::Poll(repo, config::labels_of(config.class_views()))),
        ),
        TaskView::Plan => (s.done(planned(s)), None),
        TaskView::Overdue(kind, machine) => sweep::overdue_begun(config, s, kind, machine, clock),
        TaskView::SweepUnseen => (s.done(sweep::stale(s)), None),
        TaskView::Unseen(kind, machine) => sweep::unseen_begun(config, s, kind, machine, clock),
        TaskView::Departed(kind, machine) => sweep::departed_begun(
            config,
            s,
            kind,
            machine,
            clock,
        ),
        TaskView::Forget => (sweep::forgotten(s).done(Seq::empty()), None),
        TaskView::Reap => (sweep::reap_begun(config, s), None),
        TaskView::Runners(repo) => (s, Some(RequestView::Runners(repo))),
        TaskView::Runner(repo, id, name) => sweep::runner_begun(config, s, repo, id, name, clock),
        TaskView::SettleRunners => (sweep::runners_settled(s).done(Seq::empty()), None),
        TaskView::Arrivals => (provision::arrivals_begun(s), None),
        TaskView::Arrived(entry) => provision::arrived_begun(s, entry),
        TaskView::Tell(report) => provision::tell_begun(s, report),
        TaskView::Register(order) => (
            s,
            Some(RequestView::Register(order.queued.repo, order.name)),
        ),
        TaskView::Create(attempt) => provision::create_begun(s, attempt),
        TaskView::Cleanup(repo, id) => (s, Some(RequestView::DeleteRunner(repo, id))),
        TaskView::Fail(handle, detail) => (
            s.alarmed(Kind::CreateFailed, handle, detail, clock.ticks).done(Seq::empty()),
            None,
        ),
    }
}

/// The names of these machines.
pub open spec fn names_of(machines: Seq<Machine>) -> Seq<Seq<char>> {
    machines.map_values(|machine: Machine| machine.name@)
}

/// What a listing leads to. A machine that it shows is no longer one that no
/// listing has shown.
pub open spec fn listed(
    s: State,
    kind: Provider,
    outcome: Result<Vec<Machine>, Fault>,
    now: u64,
) -> State {
    let subject = kinds::provider_title(kind);
    match outcome {
        Ok(machines) => State {
            fleet: s.fleet + machines@.map_values(|machine: Machine| (kind, machine)),
            unseen: s.unseen.remove_keys(names_of(machines@).to_set()),
            ..s
        }.calmed(Kind::PollFailed, subject),
        Err(fault) => State { blind: s.blind.push(kind), ..s }.alarmed(
            Kind::PollFailed,
            subject,
            fault.detail@,
            now,
        ),
    }
}

/// What a reading of a queue leads to.
pub open spec fn polled(
    s: State,
    repo: RepoView,
    outcome: Result<Vec<Job>, Fault>,
    now: u64,
) -> State {
    let subject = repo.full_name();
    match outcome {
        Ok(jobs) => State {
            queued: s.queued + jobs@.map_values(|job: Job| QueuedView { repo, job: job@ }),
            ..s
        }.calmed(Kind::PollFailed, subject),
        Err(fault) => State { all_queues_read: false, ..s }.alarmed(
            Kind::PollFailed,
            subject,
            fault.detail@,
            now,
        ),
    }
}

/// The event answers what the task asks.
pub open spec fn fits(task: TaskView, event: Event) -> bool {
    match (task, event) {
        (TaskView::List(_), Event::Listed(_)) => true,
        (TaskView::Poll(_), Event::Polled(_)) => true,
        (TaskView::Overdue(_, _), Event::Destroyed(_)) => true,
        (TaskView::Unseen(_, _), Event::Destroyed(_)) => true,
        (TaskView::Departed(_, _), Event::Destroyed(_)) => true,
        (TaskView::Runners(_), Event::RunnersListed(_)) => true,
        (TaskView::Runner(_, _, _), Event::RunnerDeleted(_)) => true,
        (TaskView::Arrived(_), Event::RunRead(_)) => true,
        (TaskView::Tell(_), Event::StatusSet) => true,
        (TaskView::Register(_), Event::Registered(_)) => true,
        (TaskView::Create(attempt), Event::Created(_)) => attempt.placements.len() > 0,
        (TaskView::Cleanup(_, _), Event::RunnerDeleted(_)) => true,
        _ => false,
    }
}

/// What an answer leads to. The task that asked is done with it.
pub open spec fn answered(config: &Config, s: State, event: Event, now: u64) -> State {
    let rest = s.taken();
    match (s.agenda[0], event) {
        (TaskView::List(kind), Event::Listed(outcome)) => listed(rest, kind, outcome, now),
        (TaskView::Poll(repo), Event::Polled(outcome)) => polled(rest, repo, outcome, now),
        (TaskView::Overdue(_, machine), Event::Destroyed(outcome)) => sweep::settled(
            rest,
            machine.name@,
            outcome,
            now,
        ),
        (TaskView::Unseen(_, machine), Event::Destroyed(outcome)) => {
            let settled = sweep::settled(rest, machine.name@, outcome, now);
            State { unseen: settled.unseen.remove(machine.name@), ..settled }
        },
        (TaskView::Departed(_, machine), Event::Destroyed(outcome)) => sweep::settled(
            rest,
            machine.name@,
            outcome,
            now,
        ),
        (TaskView::Runners(repo), Event::RunnersListed(outcome)) => sweep::runners_listed(
            config,
            rest,
            repo,
            outcome,
        ),
        (TaskView::Runner(_, _, name), Event::RunnerDeleted(outcome)) => sweep::runner_deleted(
            rest,
            name,
            outcome,
        ),
        (TaskView::Arrived(entry), Event::RunRead(outcome)) => provision::run_read(
            config,
            rest,
            entry,
            outcome,
            now,
        ),
        (TaskView::Register(order), Event::Registered(outcome)) => provision::registered(
            config,
            rest,
            order,
            outcome,
            now,
        ),
        (TaskView::Create(attempt), Event::Created(outcome)) => provision::created(
            rest,
            attempt,
            outcome,
        ),
        _ => rest,
    }
}

/// How a tick goes on.
#[derive(Debug)]
pub enum Turn {
    /// This has to be asked of the outside, and the answer handed in.
    Ask(Request),
    /// There is more to do.
    Continue,
    /// The tick is over.
    Over,
}

impl Orchestrator {
    /// Starts a tick.
    pub fn tick(&mut self)
        ensures
            final(self).config == old(self).config,
            final(self).state() == started(&old(self).config, old(self).state()),
    {
        let kinds = self.config.providers.kinds();
        let ghost listing = kinds@.map_values(|kind: Provider| TaskView::List(kind));
        let ghost polling = self.config.repos@.map_values(|repo: Repo| TaskView::Poll(repo@));
        let mut agenda: Vec<Task> = Vec::new();
        let mut i: usize = 0;
        proof {
            assert(task::task_views(agenda@) =~= listing.take(0));
        }
        while i < kinds.len()
            invariant
                i <= kinds@.len() == listing.len(),
                listing == kinds@.map_values(|kind: Provider| TaskView::List(kind)),
                task::task_views(agenda@) == listing.take(i as int),
            decreases kinds@.len() - i,
        {
            let ghost known = agenda@;
            agenda.push(Task::List(kinds[i]));
            proof {
                assert(task::task_views(agenda@) =~= task::task_views(known).push(
                    agenda@.last()@,
                ));
                assert(listing.take(i + 1) =~= listing.take(i as int).push(listing[i as int]));
            }
            i += 1;
        }
        let mut k: usize = 0;
        proof {
            assert(listing.take(i as int) =~= listing);
            assert(listing + polling.take(0) =~= listing);
        }
        while k < self.config.repos.len()
            invariant
                k <= self.config.repos@.len() == polling.len(),
                polling == self.config.repos@.map_values(|repo: Repo| TaskView::Poll(repo@)),
                task::task_views(agenda@) == listing + polling.take(k as int),
            decreases self.config.repos@.len() - k,
        {
            let ghost known = agenda@;
            agenda.push(Task::Poll(self.config.repos[k].clone()));
            proof {
                assert(task::task_views(agenda@) =~= task::task_views(known).push(
                    agenda@.last()@,
                ));
                assert(listing + polling.take(k + 1) =~= (listing + polling.take(k as int)).push(
                    polling[k as int],
                ));
            }
            k += 1;
        }
        let ghost known = agenda@;
        agenda.push(Task::Plan);
        proof {
            assert(polling.take(k as int) =~= polling);
            assert(task::task_views(agenda@) =~= task::task_views(known).push(agenda@.last()@));
            assert(task::task_views(agenda@) =~= opening(&self.config));
        }
        self.fleet = Vec::new();
        self.blind = Vec::new();
        self.queued = Vec::new();
        self.all_queues_read = true;
        self.agenda = agenda;
        proof {
            assert(task::queued_views(self.queued@) =~= Seq::<QueuedView>::empty());
        }
    }

    /// Adds one task for each listed machine.
    fn each_machine(&self, tasks: &mut Vec<Task>, departed: bool)
        ensures
            task::task_views(final(tasks)@) == task::task_views(old(tasks)@) + if departed {
                departed_tasks(self.fleet@)
            } else {
                overdue_tasks(self.fleet@)
            },
    {
        let ghost due = if departed {
            departed_tasks(self.fleet@)
        } else {
            overdue_tasks(self.fleet@)
        };
        let ghost first = task::task_views(tasks@);
        let mut i: usize = 0;
        proof {
            assert(first + due.take(0) =~= first);
        }
        while i < self.fleet.len()
            invariant
                i <= self.fleet@.len() == due.len(),
                due == if departed {
                    departed_tasks(self.fleet@)
                } else {
                    overdue_tasks(self.fleet@)
                },
                task::task_views(tasks@) == first + due.take(i as int),
            decreases self.fleet@.len() - i,
        {
            let ghost known = tasks@;
            let (kind, machine) = &self.fleet[i];
            if departed {
                tasks.push(Task::Departed(*kind, machine.clone()));
            } else {
                tasks.push(Task::Overdue(*kind, machine.clone()));
            }
            proof {
                assert(task::task_views(tasks@) =~= task::task_views(known).push(tasks@.last()@));
                assert(first + due.take(i + 1) =~= (first + due.take(i as int)).push(
                    due[i as int],
                ));
            }
            i += 1;
        }
        proof {
            assert(due.take(i as int) =~= due);
        }
    }

    /// Adds a task.
    fn add(tasks: &mut Vec<Task>, task: Task)
        ensures
            task::task_views(final(tasks)@) == task::task_views(old(tasks)@) + seq![task@],
    {
        let ghost before = tasks@;
        let ghost value = task@;
        tasks.push(task);
        proof {
            assert(task::task_views(tasks@) =~= task::task_views(before) + seq![value]);
        }
    }

    /// Decides on the rest of a tick.
    fn plan(&self) -> (res: Vec<Task>)
        ensures
            task::task_views(res@) == planned(self.state()),
    {
        let mut tasks: Vec<Task> = Vec::new();
        proof {
            assert(task::task_views(tasks@) =~= Seq::<TaskView>::empty());
        }
        self.each_machine(&mut tasks, false);
        Orchestrator::add(&mut tasks, Task::SweepUnseen);
        if self.all_queues_read {
            self.each_machine(&mut tasks, true);
            Orchestrator::add(&mut tasks, Task::Forget);
        }
        if self.blind.len() == 0 {
            Orchestrator::add(&mut tasks, Task::Reap);
        }
        Orchestrator::add(&mut tasks, Task::Arrivals);
        proof {
            assert(task::task_views(tasks@) =~= planned(self.state()));
        }
        tasks
    }

    /// Goes on with the tick.
    pub fn advance(&mut self, clock: Clock) -> (res: Turn)
        ensures
            final(self).config == old(self).config,
            match res {
                Turn::Over => old(self).state().agenda.len() == 0 && final(self).state()
                    == old(self).state(),
                Turn::Continue => {
                    &&& old(self).state().agenda.len() > 0
                    &&& begun(&old(self).config, old(self).state(), clock) == (
                        final(self).state(),
                        None::<RequestView>,
                    )
                },
                Turn::Ask(request) => {
                    &&& old(self).state().agenda.len() > 0
                    &&& begun(&old(self).config, old(self).state(), clock) == (
                        final(self).state(),
                        Some(request@),
                    )
                },
            },
    {
        if self.agenda.len() == 0 {
            return Turn::Over;
        }
        proof {
            assert(self.state().agenda[0] == self.agenda@[0]@);
        }
        let asked: Option<Request> = match &self.agenda[0] {
            Task::List(kind) => Some(
                Request::List(*kind, self.config.machine_prefix().to_owned()),
            ),
            Task::Poll(repo) => Some(Request::Poll(repo.clone(), self.config.all_labels())),
            Task::Plan => {
                let tasks = self.plan();
                self.finish(tasks);
                None
            },
            Task::Overdue(kind, machine) => {
                let (kind, machine) = (*kind, machine.clone());
                self.destroy_overdue(kind, &machine, clock)
            },
            Task::SweepUnseen => {
                self.sweep_unseen();
                None
            },
            Task::Unseen(kind, machine) => {
                let (kind, machine) = (*kind, machine.clone());
                self.destroy_unseen(kind, &machine, clock)
            },
            Task::Departed(kind, machine) => {
                let (kind, machine) = (*kind, machine.clone());
                self.destroy_departed(kind, &machine, clock)
            },
            Task::Forget => {
                self.forget_settled_refusals();
                self.finish_plain();
                None
            },
            Task::Reap => {
                self.reap_orphan_runners();
                None
            },
            Task::Runners(repo) => Some(Request::Runners(repo.clone())),
            Task::Runner(repo, id, name) => {
                let (repo, id, name) = (repo.clone(), *id, name.clone());
                self.reap_runner(&repo, id, name.as_str(), clock)
            },
            Task::SettleRunners => {
                self.settle_runners();
                self.finish_plain();
                None
            },
            Task::Arrivals => {
                self.provision_arrived();
                None
            },
            Task::Arrived(entry) => {
                let entry = entry.clone();
                self.job_arrived(&entry)
            },
            Task::Tell(report) => {
                let asked = provision::next_status(report);
                if asked.is_none() {
                    self.finish_plain();
                }
                asked
            },
            Task::Register(order) => Some(
                Request::Register(order.queued.repo.clone(), order.name.clone()),
            ),
            Task::Create(attempt) => {
                let asked = provision::next_creation(attempt);
                if asked.is_none() {
                    self.place_nowhere();
                }
                asked
            },
            Task::Cleanup(repo, id) => Some(Request::DeleteRunner(repo.clone(), *id)),
            Task::Fail(handle, detail) => {
                let (handle, detail) = (handle.clone(), detail.clone());
                self.alarm(Kind::CreateFailed, handle.as_str(), detail.as_str(), clock.ticks);
                self.finish_plain();
                None
            },
        };
        match asked {
            Some(request) => Turn::Ask(request),
            None => Turn::Continue,
        }
    }

    /// Gives up on a machine for which no placement is left.
    fn place_nowhere(&mut self)
        requires
            old(self).state().agenda.len() > 0,
            old(self).state().agenda[0] is Create,
        ensures
            final(self).config == old(self).config,
            final(self).state() == old(self).state().done(
                provision::given_up(old(self).state().agenda[0]->Create_0),
            ),
    {
        if let Task::Create(attempt) = self.take() {
            let tasks = provision::give_up(attempt);
            self.put(tasks);
        }
    }

    /// Takes in a listing.
    fn survey(&mut self, kind: Provider, outcome: Result<Vec<Machine>, Fault>, now: u64)
        ensures
            final(self).config == old(self).config,
            final(self).state() == listed(old(self).state(), kind, outcome, now),
    {
        match outcome {
            Ok(machines) => {
                let mut machines = machines;
                let ghost all = machines@;
                let ghost first = self.fleet@;
                let ghost pairs = all.map_values(|machine: Machine| (kind, machine));
                let ghost names = names_of(all);
                proof {
                    assert(self.unseen@ =~= self.unseen@.remove_keys(names.take(0).to_set()));
                    assert(first + pairs.take(0) =~= first);
                    assert(all.skip(0) =~= all);
                }
                let ghost mut done: int = 0;
                let ghost before = self.state();
                while machines.len() > 0
                    invariant
                        0 <= done <= all.len(),
                        machines@ == all.skip(done),
                        pairs == all.map_values(|machine: Machine| (kind, machine)),
                        self.config == old(self).config,
                        names == names_of(all),
                        self.state() == (State {
                            fleet: first + pairs.take(done),
                            unseen: before.unseen.remove_keys(names.take(done).to_set()),
                            ..before
                        }),
                    decreases machines@.len(),
                {
                    let machine = machines.remove(0);
                    self.unseen.remove(machine.name.as_str());
                    proof {
                        text::lemma_contains_take(names, done);
                        assert(names[done] == machine.name@);
                        assert(names.take(done + 1).to_set() =~= names.take(done).to_set().insert(
                            names[done],
                        ));
                        assert(self.unseen@ =~= before.unseen.remove_keys(
                            names.take(done + 1).to_set(),
                        ));
                    }
                    self.fleet.push((kind, machine));
                    proof {
                        assert(pairs[done] == (kind, all[done]));
                        assert(first + pairs.take(done + 1) =~= (first + pairs.take(done)).push(
                            pairs[done],
                        ));
                        assert(machines@ =~= all.skip(done + 1));
                        done = done + 1;
                    }
                }
                proof {
                    assert(pairs.take(done) =~= pairs);
                    assert(names.take(done) =~= names);
                }
                self.calm(Kind::PollFailed, kind.title());
            },
            Err(fault) => {
                self.blind.push(kind);
                self.alarm(Kind::PollFailed, kind.title(), fault.detail.as_str(), now);
            },
        }
    }

    /// Takes in a reading of a queue.
    fn poll_queue(&mut self, repo: &Repo, outcome: &Result<Vec<Job>, Fault>, now: u64)
        ensures
            final(self).config == old(self).config,
            final(self).state() == polled(old(self).state(), repo@, *outcome, now),
    {
        let subject = repo.full_name();
        match outcome {
            Ok(jobs) => {
                let ghost entries = jobs@.map_values(
                    |job: Job| QueuedView { repo: repo@, job: job@ },
                );
                let ghost before = self.state();
                let mut i: usize = 0;
                proof {
                    assert(before.queued + entries.take(0) =~= before.queued);
                }
                while i < jobs.len()
                    invariant
                        i <= jobs@.len() == entries.len(),
                        entries == jobs@.map_values(
                            |job: Job| QueuedView { repo: repo@, job: job@ },
                        ),
                        self.config == old(self).config,
                        self.state() == (State {
                            queued: before.queued + entries.take(i as int),
                            ..before
                        }),
                    decreases jobs@.len() - i,
                {
                    let ghost known = self.queued@;
                    self.queued.push(Queued { repo: repo.clone(), job: jobs[i].clone() });
                    proof {
                        assert(task::queued_views(self.queued@) =~= task::queued_views(
                            known,
                        ).push(self.queued@.last()@));
                        assert(before.queued + entries.take(i + 1) =~= (before.queued
                            + entries.take(i as int)).push(entries[i as int]));
                    }
                    i += 1;
                }
                proof {
                    assert(entries.take(i as int) =~= entries);
                }
                self.calm(Kind::PollFailed, subject.as_str());
            },
            Err(fault) => {
                self.all_queues_read = false;
                self.alarm(Kind::PollFailed, subject.as_str(), fault.detail.as_str(), now);
            },
        }
    }

    /// Whether an event answers what the task at hand asks.
    fn is_answer(&self, event: &Event) -> (res: bool)
        ensures
            res == (self.state().agenda.len() > 0 && fits(self.state().agenda[0], *event)),
    {
        if self.agenda.len() == 0 {
            return false;
        }
        proof {
            assert(self.state().agenda[0] == self.agenda@[0]@);
        }
        match (&self.agenda[0], event) {
            (Task::List(_), Event::Listed(_)) => true,
            (Task::Poll(_), Event::Polled(_)) => true,
            (Task::Overdue(_, _), Event::Destroyed(_)) => true,
            (Task::Unseen(_, _), Event::Destroyed(_)) => true,
            (Task::Departed(_, _), Event::Destroyed(_)) => true,
            (Task::Runners(_), Event::RunnersListed(_)) => true,
            (Task::Runner(_, _, _), Event::RunnerDeleted(_)) => true,
            (Task::Arrived(_), Event::RunRead(_)) => true,
            (Task::Tell(_), Event::StatusSet) => true,
            (Task::Register(_), Event::Registered(_)) => true,
            (Task::Create(attempt), Event::Created(_)) => attempt.placements.len() > 0,
            (Task::Cleanup(_, _), Event::RunnerDeleted(_)) => true,
            _ => false,
        }
    }

    /// Takes in the answer to what was asked, and says whether it is one: what
    /// does not answer the task at hand changes nothing.
    pub fn answer(&mut self, event: Event, clock: Clock) -> (res: bool)
        ensures
            final(self).config == old(self).config,
            res == (old(self).state().agenda.len() > 0 && fits(old(self).state().agenda[0], event)),
            res ==> final(self).state() == answered(
                &old(self).config,
                old(self).state(),
                event,
                clock.ticks,
            ),
            !res ==> final(self).state() == old(self).state(),
    {
        if !self.is_answer(&event) {
            return false;
        }
        let now: u64 = clock.ticks;
        let task = self.take();
        match (task, event) {
            (Task::List(kind), Event::Listed(outcome)) => {
                self.survey(kind, outcome, now);
            },
            (Task::Poll(repo), Event::Polled(outcome)) => {
                self.poll_queue(&repo, &outcome, now);
            },
            (Task::Overdue(_, machine), Event::Destroyed(outcome)) => {
                self.destroyed(machine.name.as_str(), &outcome, now);
            },
            (Task::Unseen(_, machine), Event::Destroyed(outcome)) => {
                self.destroyed(machine.name.as_str(), &outcome, now);
                self.unseen.remove(machine.name.as_str());
            },
            (Task::Departed(_, machine), Event::Destroyed(outcome)) => {
                self.destroyed(machine.name.as_str(), &outcome, now);
            },
            (Task::Runners(repo), Event::RunnersListed(outcome)) => {
                self.runners_read(&repo, &outcome);
            },
            (Task::Runner(_, _, name), Event::RunnerDeleted(outcome)) => {
                self.runner_reaped(name.as_str(), &outcome);
            },
            (Task::Arrived(entry), Event::RunRead(outcome)) => {
                self.provision(entry, &outcome, now);
            },
            (Task::Register(order), Event::Registered(outcome)) => {
                self.runner_registered(order, &outcome, now);
            },
            (Task::Create(attempt), Event::Created(outcome)) => {
                self.machine_placed(attempt, outcome);
            },
            _ => {},
        }
        true
    }

    /// Hands over what there is to tell.
    pub fn take_notices(&mut self) -> (res: Vec<Notice>)
        ensures
            final(self).config == old(self).config,
            task::notice_views(res@) == old(self).state().notices,
            final(self).state() == (State { notices: Seq::empty(), ..old(self).state() }),
    {
        let mut notices: Vec<Notice> = Vec::new();
        std::mem::swap(&mut notices, &mut self.notices);
        proof {
            assert(task::notice_views(self.notices@) =~= Seq::empty());
        }
        notices
    }
}

} // verus!
