//! Getting rid of machines and of runners.

use vstd::prelude::*;

use super::task;
use super::task::{
    Clock, Fault, Notice, NoticeView, QueuedView, Request, RequestView, Task, TaskView,
};
use super::{Orchestrator, State};
use crate::alert;
use crate::alert::Kind;
use crate::config;
use crate::config::{ClassView, Config, Provider, Repo, RepoView};
use crate::forgejo::Runner;
use crate::naming;
use crate::provider::{Machine, Moment};
use crate::table;
use crate::text;

verus! {

/// A successful poll returns waiting and running jobs, so a second miss only
/// guards against a single anomalous read.
pub const MISSES_BEFORE_DESTROY: u32 = 2;

/// One listing without the machine is never proof it is gone.
pub const MISSES_BEFORE_REAP: u32 = 2;

/// The lifetime of the first class of this name.
pub open spec fn lifetime_named(classes: Seq<ClassView>, name: Seq<char>) -> u64 {
    if exists|at: int| config::is_named(classes, name, at) {
        classes[choose|at: int| config::is_named(classes, name, at)].lifetime_minutes
    } else {
        config::longest_of(classes, classes.len())
    }
}

/// Some class explains the name of the machine.
pub open spec fn explained(config: &Config, name: Seq<char>) -> bool {
    naming::split_of(
        config.daemon.machine_prefix@,
        name,
        config::class_names(config.class_views()),
    ) is Some
}

/// How old a machine of this name may become, in seconds: the lifetime of its
/// class, or the longest there is if no class explains it, and the grace.
pub open spec fn limit_of(config: &Config, name: Seq<char>) -> nat {
    let classes = config.class_views();
    let minutes = match naming::split_of(
        config.daemon.machine_prefix@,
        name,
        config::class_names(classes),
    ) {
        Some((label, _)) => lifetime_named(classes, label),
        None => config::longest_of(classes, classes.len()),
    };
    (minutes * 60 + config.daemon.reconcile_grace_secs) as nat
}

/// The whole seconds from one moment to another, or none if it lies before.
pub open spec fn seconds_between(from: Moment, to: Moment) -> nat {
    let nanos = (to.seconds - from.seconds) * 1_000_000_000 + (to.nanos - from.nanos);
    if nanos < 0 {
        0
    } else {
        (nanos / 1_000_000_000) as nat
    }
}

/// How old a machine is, in nanoseconds: by the time it was created, or else by
/// the time it was first seen.
pub open spec fn age_of(s: State, machine: Machine, clock: Clock) -> nat {
    match machine.created_at {
        Some(created) => seconds_between(created, clock.wall) * 1_000_000_000,
        None => if s.first_seen.contains_key(machine.name@) {
            alert::since(s.first_seen[machine.name@], clock.ticks) as nat
        } else {
            0
        },
    }
}

/// A machine of unknown age was noticed.
pub open spec fn noticed(s: State, machine: Machine, clock: Clock) -> State {
    if machine.created_at is None && !s.first_seen.contains_key(machine.name@) {
        State { first_seen: s.first_seen.insert(machine.name@, clock.ticks), ..s }
    } else {
        s
    }
}

/// The machine is older than it may become.
pub open spec fn is_overdue(config: &Config, s: State, machine: Machine, clock: Clock) -> bool {
    age_of(s, machine, clock) > limit_of(config, machine.name@) * 1_000_000_000
}

/// What a machine's age leads to.
pub open spec fn overdue_begun(
    config: &Config,
    s: State,
    kind: Provider,
    machine: Machine,
    clock: Clock,
) -> (State, Option<RequestView>) {
    let seen = noticed(s, machine, clock);
    if is_overdue(config, s, machine, clock) {
        (
            seen.told(NoticeView::Overdue(machine.name@)).alarmed(
                Kind::Abandoned,
                machine.name@,
                "outlived its label's lifetime_minutes"@,
                clock.ticks,
            ),
            Some(RequestView::Destroy(kind, machine.id@)),
        )
    } else {
        (seen.done(Seq::empty()), None)
    }
}

/// What the age of a machine that was never listed leads to.
pub open spec fn unseen_begun(
    config: &Config,
    s: State,
    kind: Provider,
    machine: Machine,
    clock: Clock,
) -> (State, Option<RequestView>) {
    let seen = noticed(s, machine, clock);
    if is_overdue(config, s, machine, clock) {
        (
            seen.told(NoticeView::Overdue(machine.name@)),
            Some(RequestView::Destroy(kind, machine.id@)),
        )
    } else {
        (seen.done(Seq::empty()), None)
    }
}

/// What the outcome of a destruction leads to.
pub open spec fn settled(s: State, name: Seq<char>, outcome: Result<(), Fault>, now: u64) -> State {
    match outcome {
        Ok(()) => State {
            unseen: s.unseen.remove(name),
            first_seen: s.first_seen.remove(name),
            missed_polls: s.missed_polls.remove(name),
            ..s
        }.calmed(Kind::SweepFailed, name).calmed(Kind::Abandoned, name),
        Err(fault) => s.alarmed(Kind::SweepFailed, name, fault.detail@, now),
    }
}

/// The machine of this name was made for the job of this handle. Where a class
/// explains the name, the handle is what follows the name of the class, and no
/// mere end of it. Where none does, as after a class was renamed or removed, the
/// name has to end in the handle, whatever stands before it.
///
/// A name that only another class explains by now is read by that class: the
/// handle of such a machine counts as gone, and the machine goes with it.
pub open spec fn made_for_job(config: &Config, name: Seq<char>, handle: Seq<char>) -> bool {
    match naming::split_of(
        config.daemon.machine_prefix@,
        name,
        config::class_names(config.class_views()),
    ) {
        Some((_, carried)) => carried == naming::truncated(handle),
        None => naming::ends_in(name, naming::truncated(handle)),
    }
}

/// A job in a queue, waiting or running, is the one the machine was made for.
pub open spec fn has_live_job(config: &Config, s: State, name: Seq<char>) -> bool {
    exists|i: int|
        0 <= i < s.queued.len() && made_for_job(
            config,
            name,
            (#[trigger] s.queued[i]).job.handle,
        )
}

/// One more, as far as can be counted.
pub open spec fn one_more(count: u32) -> u32 {
    if count < u32::MAX {
        (count + 1) as u32
    } else {
        count
    }
}

/// How many polls in a row have missed the machine's job, with this one.
pub open spec fn misses(s: State, name: Seq<char>) -> u32 {
    one_more(
        if s.missed_polls.contains_key(name) {
            s.missed_polls[name]
        } else {
            0
        },
    )
}

/// What the queues lead to for a machine. One that no class explains is told of,
/// whether or not its job is still there.
pub open spec fn departed_begun(
    config: &Config,
    s: State,
    kind: Provider,
    machine: Machine,
    clock: Clock,
) -> (State, Option<RequestView>) {
    let name = machine.name@;
    let warned = if explained(config, name) {
        s
    } else {
        s.alarmed(
            Kind::Abandoned,
            name,
            "carries our prefix but matches no configured label"@,
            clock.ticks,
        )
    };
    if has_live_job(config, s, name) {
        (State { missed_polls: s.missed_polls.remove(name), ..warned }.done(Seq::empty()), None)
    } else {
        let counted = State {
            missed_polls: s.missed_polls.insert(name, misses(s, name)),
            ..warned
        };
        if misses(s, name) < MISSES_BEFORE_DESTROY {
            (counted.done(Seq::empty()), None)
        } else {
            (counted, Some(RequestView::Destroy(kind, machine.id@)))
        }
    }
}

/// The machine was listed in this tick.
pub open spec fn is_listed(fleet: Seq<(Provider, Machine)>, name: Seq<char>) -> bool {
    exists|i: int| 0 <= i < fleet.len() && (#[trigger] fleet[i]).1.name@ == name
}

/// The machines among the first `n` of these that no listing showed, though
/// their provider could be listed.
pub open spec fn stale_of(s: State, names: Seq<Seq<char>>, n: nat) -> Seq<TaskView>
    decreases n,
{
    if n == 0 {
        Seq::empty()
    } else {
        let rest = stale_of(s, names, (n - 1) as nat);
        let name = names[n - 1];
        let (kind, machine) = s.unseen[name];
        if is_listed(s.fleet, name) || s.blind.contains(kind) {
            rest
        } else {
            rest.push(TaskView::Unseen(kind, machine))
        }
    }
}

/// The machines that were created and that no listing shows.
pub open spec fn stale(s: State) -> Seq<TaskView> {
    let names = table::in_order(s.unseen.dom());
    stale_of(s, names, names.len())
}

/// The handles of the jobs in the queues.
pub open spec fn handles_of(queued: Seq<QueuedView>) -> Seq<Seq<char>> {
    queued.map_values(|entry: QueuedView| entry.job.handle)
}

/// The refusals of jobs that are gone are forgotten.
pub open spec fn forgotten(s: State) -> State {
    State { refusals: s.refusals.restrict(handles_of(s.queued).to_set()), ..s }
}

/// Everyone's runners are to be looked through.
pub open spec fn reap_begun(config: &Config, s: State) -> State {
    State { seen: Seq::empty(), all_repos_listed: true, ..s }.done(
        config.repos@.map_values(|repo: Repo| TaskView::Runners(repo@)).push(
            TaskView::SettleRunners,
        ),
    )
}

/// The runners among the first `n` that may be of a machine of ours.
pub open spec fn our_runners(
    prefix: Seq<char>,
    repo: RepoView,
    runners: Seq<Runner>,
    n: nat,
) -> Seq<TaskView>
    decreases n,
{
    if n == 0 {
        Seq::empty()
    } else {
        let rest = our_runners(prefix, repo, runners, (n - 1) as nat);
        let runner = runners[n - 1];
        if prefix.is_prefix_of(runner.name@) {
            rest.push(TaskView::Runner(repo, runner.id, runner.name@))
        } else {
            rest
        }
    }
}

/// What a listing of runners leads to.
pub open spec fn runners_listed(
    config: &Config,
    s: State,
    repo: RepoView,
    outcome: Result<Vec<Runner>, Fault>,
) -> State {
    match outcome {
        Ok(runners) => s.then_do(
            our_runners(config.daemon.machine_prefix@, repo, runners@, runners@.len()),
        ),
        Err(_) => State { all_repos_listed: false, ..s },
    }
}

/// There is a machine of this name, or one may turn up yet.
pub open spec fn is_alive(s: State, name: Seq<char>) -> bool {
    is_listed(s.fleet, name) || s.unseen.contains_key(name)
}

/// How many listings in a row have missed the runner's machine, with this one,
/// and since when.
pub open spec fn absences(s: State, name: Seq<char>, now: u64) -> (u32, u64) {
    if s.missed_machines.contains_key(name) {
        (one_more(s.missed_machines[name].0), s.missed_machines[name].1)
    } else {
        (1, now)
    }
}

/// The runner's machine has been gone for long enough: for so many listings,
/// and for the grace, since a listing can lag creation by minutes.
pub open spec fn is_orphaned(config: &Config, s: State, name: Seq<char>, now: u64) -> bool {
    let (missed, first) = absences(s, name, now);
    missed >= MISSES_BEFORE_REAP && alert::since(first, now)
        >= config.daemon.reconcile_grace_secs * 1_000_000_000
}

/// What the listings lead to for a runner.
pub open spec fn runner_begun(
    config: &Config,
    s: State,
    repo: RepoView,
    id: i64,
    name: Seq<char>,
    clock: Clock,
) -> (State, Option<RequestView>) {
    let seen = State { seen: s.seen.push(name), ..s };
    if is_alive(s, name) {
        (
            State { missed_machines: s.missed_machines.remove(name), ..seen }.done(Seq::empty()),
            None,
        )
    } else {
        let counted = State {
            missed_machines: s.missed_machines.insert(name, absences(s, name, clock.ticks)),
            ..seen
        };
        if is_orphaned(config, s, name, clock.ticks) {
            (counted, Some(RequestView::DeleteRunner(repo, id)))
        } else {
            (counted.done(Seq::empty()), None)
        }
    }
}

/// What the deletion of a runner leads to.
pub open spec fn runner_deleted(s: State, name: Seq<char>, outcome: Result<(), Fault>) -> State {
    match outcome {
        Ok(()) => State { missed_machines: s.missed_machines.remove(name), ..s },
        Err(_) => s,
    }
}

/// The runners that are gone are forgotten, if every repository's were listed.
pub open spec fn runners_settled(s: State) -> State {
    if s.all_repos_listed {
        State { missed_machines: s.missed_machines.restrict(s.seen.to_set()), ..s }
    } else {
        s
    }
}

/// The whole seconds from one moment to another.
fn seconds_since(from: Moment, to: Moment) -> (res: u128)
    ensures
        res == seconds_between(from, to),
        res <= 0x1_0000_0000_0000_0010,
{
    let seconds: i128 = to.seconds as i128 - from.seconds as i128;
    let nanos: i128 = seconds * 1_000_000_000 + (to.nanos as i128 - from.nanos as i128);
    if nanos < 0 {
        0
    } else {
        (nanos / 1_000_000_000) as u128
    }
}

/// One more, as far as can be counted.
fn counted_on(count: u32) -> (res: u32)
    ensures
        res == one_more(count),
{
    if count < u32::MAX {
        count + 1
    } else {
        count
    }
}

impl Orchestrator {
    /// How old a machine of this name may become, in seconds.
    fn lifetime_of(&self, name: &str) -> (res: u128)
        ensures
            res == limit_of(&self.config, name@),
            res <= 0x40_0000_0000_0000_0000,
    {
        let names = self.config.entry_names();
        let minutes: u64 = match naming::split(
            self.config.machine_prefix(),
            name,
            names.as_slice(),
        ) {
            Some((label, _)) => match self.config.class(label) {
                Some(class) => {
                    proof {
                        let classes = self.config.class_views();
                        let at = choose|at: int| #[trigger]
                            config::is_named(classes, label@, at) && *class
                                == self.config.classes@[at];
                        let chosen = choose|at: int| config::is_named(classes, label@, at);
                        assert(config::is_named(classes, label@, chosen));
                        assert(at == chosen);
                        assert(classes[at] == class@);
                    }
                    class.lifetime_minutes
                },
                None => self.config.longest_lifetime_minutes(),
            },
            None => self.config.longest_lifetime_minutes(),
        };
        minutes as u128 * 60 + self.config.reconcile_grace() as u128
    }

    /// How old a machine is, in nanoseconds.
    fn age_of(&mut self, machine: &Machine, clock: Clock) -> (res: u128)
        ensures
            res == age_of(old(self).state(), *machine, clock),
            final(self).config == old(self).config,
            final(self).state() == noticed(old(self).state(), *machine, clock),
    {
        match machine.created_at {
            Some(created) => seconds_since(created, clock.wall) * 1_000_000_000,
            None => {
                let known = match self.first_seen.get(machine.name.as_str()) {
                    Some(first) => Some(*first),
                    None => None,
                };
                match known {
                    Some(first) => alert::elapsed(first, clock.ticks) as u128,
                    None => {
                        self.first_seen.insert(machine.name.clone(), clock.ticks);
                        0
                    },
                }
            },
        }
    }

    /// Whether a machine is older than it may become.
    fn outlived(&mut self, machine: &Machine, clock: Clock) -> (res: bool)
        ensures
            res == is_overdue(&old(self).config, old(self).state(), *machine, clock),
            final(self).config == old(self).config,
            final(self).state() == noticed(old(self).state(), *machine, clock),
    {
        let limit: u128 = self.lifetime_of(machine.name.as_str());
        let age: u128 = self.age_of(machine, clock);
        age > limit * 1_000_000_000
    }

    /// Has a machine destroyed that is past its lifetime.
    pub fn destroy_overdue(
        &mut self,
        kind: Provider,
        machine: &Machine,
        clock: Clock,
    ) -> (res: Option<Request>)
        requires
            old(self).state().agenda.len() > 0,
        ensures
            final(self).config == old(self).config,
            (final(self).state(), task::optional_request(res)) == overdue_begun(
                &old(self).config,
                old(self).state(),
                kind,
                *machine,
                clock,
            ),
    {
        if self.outlived(machine, clock) {
            self.tell(Notice::Overdue(machine.name.clone()));
            self.alarm(
                Kind::Abandoned,
                machine.name.as_str(),
                "outlived its label's lifetime_minutes",
                clock.ticks,
            );
            Some(Request::Destroy(kind, machine.id.clone()))
        } else {
            self.finish_plain();
            None
        }
    }

    /// Has a machine destroyed that no listing ever showed and that is past its lifetime.
    pub fn destroy_unseen(
        &mut self,
        kind: Provider,
        machine: &Machine,
        clock: Clock,
    ) -> (res: Option<Request>)
        requires
            old(self).state().agenda.len() > 0,
        ensures
            final(self).config == old(self).config,
            (final(self).state(), task::optional_request(res)) == unseen_begun(
                &old(self).config,
                old(self).state(),
                kind,
                *machine,
                clock,
            ),
    {
        if self.outlived(machine, clock) {
            self.tell(Notice::Overdue(machine.name.clone()));
            Some(Request::Destroy(kind, machine.id.clone()))
        } else {
            self.finish_plain();
            None
        }
    }

    /// Takes in the outcome of a destruction.
    pub(super) fn destroyed(&mut self, name: &str, outcome: &Result<(), Fault>, now: u64)
        ensures
            final(self).config == old(self).config,
            final(self).state() == settled(old(self).state(), name@, *outcome, now),
    {
        match outcome {
            Ok(()) => {
                self.unseen.remove(name);
                self.first_seen.remove(name);
                self.missed_polls.remove(name);
                self.calm(Kind::SweepFailed, name);
                self.calm(Kind::Abandoned, name);
            },
            Err(fault) => {
                self.alarm(Kind::SweepFailed, name, fault.detail.as_str(), now);
            },
        }
    }

    /// Whether a job in a queue is the one the machine was made for; `carried` is
    /// the handle that follows the name of its class, if a class explains it.
    fn job_lives(&self, name: &str, carried: Option<&str>) -> (res: bool)
        requires
            match naming::split_of(
                self.config.daemon.machine_prefix@,
                name@,
                config::class_names(self.config.class_views()),
            ) {
                Some((_, handle)) => carried matches Some(known) && known@ == handle,
                None => carried is None,
            },
        ensures
            res == has_live_job(&self.config, self.state(), name@),
    {
        let ghost s = self.state();
        let mut i: usize = 0;
        while i < self.queued.len()
            invariant
                i <= self.queued@.len() == s.queued.len(),
                s == self.state(),
                match naming::split_of(
                    self.config.daemon.machine_prefix@,
                    name@,
                    config::class_names(self.config.class_views()),
                ) {
                    Some((_, handle)) => carried matches Some(known) && known@ == handle,
                    None => carried is None,
                },
                forall|j: int|
                    0 <= j < i ==> !made_for_job(
                        &self.config,
                        name@,
                        (#[trigger] s.queued[j]).job.handle,
                    ),
            decreases self.queued@.len() - i,
        {
            let handle = naming::truncated_handle(self.queued[i].job.handle.as_str());
            proof {
                assert(s.queued[i as int] == self.queued@[i as int]@);
            }
            let own = match carried {
                Some(known) => text::same(known, handle.as_str()),
                None => naming::serves(name, handle.as_str()),
            };
            if own {
                return true;
            }
            i += 1;
        }
        false
    }

    /// Has a machine destroyed whose job is gone.
    pub fn destroy_departed(
        &mut self,
        kind: Provider,
        machine: &Machine,
        clock: Clock,
    ) -> (res: Option<Request>)
        requires
            old(self).state().agenda.len() > 0,
        ensures
            final(self).config == old(self).config,
            (final(self).state(), task::optional_request(res)) == departed_begun(
                &old(self).config,
                old(self).state(),
                kind,
                *machine,
                clock,
            ),
    {
        let name = machine.name.as_str();
        let names = self.config.entry_names();
        let carried = match naming::split(self.config.machine_prefix(), name, names.as_slice()) {
            Some((_, handle)) => Some(handle),
            None => None,
        };
        let lives = self.job_lives(name, carried);
        if carried.is_none() {
            self.alarm(
                Kind::Abandoned,
                name,
                "carries our prefix but matches no configured label",
                clock.ticks,
            );
        }
        if lives {
            self.missed_polls.remove(name);
            self.finish_plain();
            return None;
        }
        let known: u32 = match self.missed_polls.get(name) {
            Some(missed) => *missed,
            None => 0,
        };
        let missed: u32 = counted_on(known);
        self.missed_polls.insert(machine.name.clone(), missed);
        if missed < MISSES_BEFORE_DESTROY {
            self.finish_plain();
            None
        } else {
            Some(Request::Destroy(kind, machine.id.clone()))
        }
    }

    /// Whether the machine was listed in this tick.
    pub(super) fn lists_machine(&self, name: &str) -> (res: bool)
        ensures
            res == is_listed(self.fleet@, name@),
    {
        let mut i: usize = 0;
        while i < self.fleet.len()
            invariant
                i <= self.fleet@.len(),
                forall|j: int| 0 <= j < i ==> (#[trigger] self.fleet@[j]).1.name@ != name@,
            decreases self.fleet@.len() - i,
        {
            if text::same(self.fleet[i].1.name.as_str(), name) {
                return true;
            }
            i += 1;
        }
        false
    }

    /// Whether the provider could not be listed in this tick.
    pub(super) fn is_blind(&self, kind: Provider) -> (res: bool)
        ensures
            res == self.blind@.contains(kind),
    {
        let mut i: usize = 0;
        while i < self.blind.len()
            invariant
                i <= self.blind@.len(),
                forall|j: int| 0 <= j < i ==> self.blind@[j] != kind,
            decreases self.blind@.len() - i,
        {
            if self.blind[i] == kind {
                return true;
            }
            i += 1;
        }
        false
    }

    /// Looks for machines that were created and that no listing shows.
    pub(super) fn sweep_unseen(&mut self)
        requires
            old(self).state().agenda.len() > 0,
        ensures
            final(self).config == old(self).config,
            final(self).state() == old(self).state().done(stale(old(self).state())),
    {
        let ghost s = self.state();
        let count: usize = self.unseen.len();
        let ghost names = self.unseen.keys();
        let mut tasks: Vec<Task> = Vec::new();
        proof {
            assert(task::task_views(tasks@) =~= Seq::<TaskView>::empty());
        }
        let mut i: usize = 0;
        while i < count
            invariant
                i <= count == names.len(),
                s == self.state(),
                names == self.unseen.keys(),
                task::task_views(tasks@) == stale_of(s, names, i as nat),
            decreases count - i,
        {
            let name = self.unseen.key_at(i);
            let entry = self.unseen.value_at(i);
            let ghost known = tasks@;
            if !self.lists_machine(name) && !self.is_blind(entry.0) {
                tasks.push(Task::Unseen(entry.0, entry.1.clone()));
                proof {
                    assert(task::task_views(tasks@) =~= task::task_views(known).push(
                        tasks@.last()@,
                    ));
                }
            }
            i += 1;
        }
        self.finish(tasks);
    }

    /// Forgets the refusals of jobs that are gone.
    pub fn forget_settled_refusals(&mut self)
        ensures
            final(self).config == old(self).config,
            final(self).state() == forgotten(old(self).state()),
    {
        let ghost s = self.state();
        let mut handles: Vec<String> = Vec::new();
        let mut i: usize = 0;
        proof {
            assert(text::texts(handles@) =~= handles_of(s.queued).take(0));
        }
        while i < self.queued.len()
            invariant
                i <= self.queued@.len() == s.queued.len(),
                s == self.state(),
                text::texts(handles@) == handles_of(s.queued).take(i as int),
            decreases self.queued@.len() - i,
        {
            text::add_to(&mut handles, self.queued[i].job.handle.clone());
            proof {
                let all = handles_of(s.queued);
                assert(s.queued[i as int] == self.queued@[i as int]@);
                assert(all.take(i + 1) =~= all.take(i as int).push(all[i as int]));
            }
            i += 1;
        }
        let ghost before = self.refusals@;
        self.refusals.retain(handles.as_slice());
        proof {
            assert(handles_of(s.queued).take(i as int) =~= handles_of(s.queued));
            assert(super::text_map(self.refusals@) =~= super::text_map(before).restrict(
                handles_of(s.queued).to_set(),
            ));
        }
    }

    /// Turns to the runners of every repository.
    pub fn reap_orphan_runners(&mut self)
        requires
            old(self).state().agenda.len() > 0,
        ensures
            final(self).config == old(self).config,
            final(self).state() == reap_begun(&old(self).config, old(self).state()),
    {
        let ghost due = self.config.repos@.map_values(|repo: Repo| TaskView::Runners(repo@));
        let mut tasks: Vec<Task> = Vec::new();
        let mut i: usize = 0;
        proof {
            assert(task::task_views(tasks@) =~= due.take(0));
        }
        while i < self.config.repos.len()
            invariant
                i <= self.config.repos@.len() == due.len(),
                due == self.config.repos@.map_values(|repo: Repo| TaskView::Runners(repo@)),
                task::task_views(tasks@) == due.take(i as int),
            decreases self.config.repos@.len() - i,
        {
            let ghost known = tasks@;
            tasks.push(Task::Runners(self.config.repos[i].clone()));
            proof {
                assert(task::task_views(tasks@) =~= task::task_views(known).push(tasks@.last()@));
                assert(due.take(i + 1) =~= due.take(i as int).push(due[i as int]));
            }
            i += 1;
        }
        let ghost known = tasks@;
        tasks.push(Task::SettleRunners);
        proof {
            assert(due.take(i as int) =~= due);
            assert(task::task_views(tasks@) =~= task::task_views(known).push(tasks@.last()@));
        }
        self.seen = Vec::new();
        self.all_repos_listed = true;
        proof {
            assert(text::texts(self.seen@) =~= Seq::<Seq<char>>::empty());
        }
        self.finish(tasks);
    }

    /// Takes in the runners of a repository.
    pub(super) fn runners_read(&mut self, repo: &Repo, outcome: &Result<Vec<Runner>, Fault>)
        ensures
            final(self).config == old(self).config,
            final(self).state() == runners_listed(
                &old(self).config,
                old(self).state(),
                repo@,
                *outcome,
            ),
    {
        match outcome {
            Ok(runners) => {
                let prefix = self.config.machine_prefix();
                let mut tasks: Vec<Task> = Vec::new();
                let mut i: usize = 0;
                proof {
                    assert(task::task_views(tasks@) =~= Seq::<TaskView>::empty());
                }
                while i < runners.len()
                    invariant
                        i <= runners@.len(),
                        task::task_views(tasks@) == our_runners(
                            prefix@,
                            repo@,
                            runners@,
                            i as nat,
                        ),
                    decreases runners@.len() - i,
                {
                    let runner = &runners[i];
                    let ghost known = tasks@;
                    if text::starts_with(runner.name.as_str(), prefix) {
                        tasks.push(Task::Runner(repo.clone(), runner.id, runner.name.clone()));
                        proof {
                            assert(task::task_views(tasks@) =~= task::task_views(known).push(
                                tasks@.last()@,
                            ));
                        }
                    }
                    i += 1;
                }
                self.put(tasks);
            },
            Err(_) => {
                self.all_repos_listed = false;
            },
        }
    }

    /// Has a runner deleted whose machine is gone.
    pub fn reap_runner(
        &mut self,
        repo: &Repo,
        id: i64,
        name: &str,
        clock: Clock,
    ) -> (res: Option<Request>)
        requires
            old(self).state().agenda.len() > 0,
        ensures
            final(self).config == old(self).config,
            (final(self).state(), task::optional_request(res)) == runner_begun(
                &old(self).config,
                old(self).state(),
                repo@,
                id,
                name@,
                clock,
            ),
    {
        text::add_to(&mut self.seen, name.to_owned());
        if self.lists_machine(name) || self.unseen.contains_key(name) {
            self.missed_machines.remove(name);
            self.finish_plain();
            return None;
        }
        let (missed, first): (u32, u64) = match self.missed_machines.get(name) {
            Some(known) => (counted_on(known.0), known.1),
            None => (1, clock.ticks),
        };
        self.missed_machines.insert(name.to_owned(), (missed, first));
        let gone: u128 = alert::elapsed(first, clock.ticks) as u128;
        let grace: u128 = self.config.reconcile_grace() as u128 * 1_000_000_000;
        if missed < MISSES_BEFORE_REAP || gone < grace {
            self.finish_plain();
            None
        } else {
            Some(Request::DeleteRunner(repo.clone(), id))
        }
    }

    /// Takes in the deletion of a runner.
    pub(super) fn runner_reaped(&mut self, name: &str, outcome: &Result<(), Fault>)
        ensures
            final(self).config == old(self).config,
            final(self).state() == runner_deleted(old(self).state(), name@, *outcome),
    {
        if outcome.is_ok() {
            self.missed_machines.remove(name);
        }
    }

    /// Forgets the runners that are gone.
    pub(super) fn settle_runners(&mut self)
        ensures
            final(self).config == old(self).config,
            final(self).state() == runners_settled(old(self).state()),
    {
        if self.all_repos_listed {
            self.missed_machines.retain(self.seen.as_slice());
        }
    }
}

} // verus!
