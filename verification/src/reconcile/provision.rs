//! Getting a machine for each job that waits.

use vstd::prelude::*;

use super::sweep;
use super::task;
use super::task::{
    Attempt, AttemptView, Creation, CreationView, Fault, FaultView, Made, MadeView, Notice,
    NoticeView,
    Order, OrderView, Queued, QueuedView, Report, ReportView, Request, RequestView, Status,
    StatusView, Task, TaskView,
};
use super::{Orchestrator, State};
use crate::alert::Kind;
use crate::cloudinit;
use crate::config::{ClassView, Config, Provider, Repo, RepoView};
use crate::forgejo;
use crate::forgejo::{Registration, Run, StatusState};
use crate::naming;
use crate::policy;
use crate::policy::{Denial, DenialView, JobRequest};
use crate::provider;
use crate::provider::Machine;
use crate::table;
use crate::text;

verus! {

/// The names of the machines that were listed or may turn up yet.
pub open spec fn names_in_flight(s: State) -> Set<Seq<char>> {
    Set::new(|name: Seq<char>| sweep::is_alive(s, name))
}

/// The tick turns to the jobs.
pub open spec fn arrivals_begun(s: State) -> State {
    State {
        in_flight: names_in_flight(s),
        handled: Seq::empty(),
        pending: Seq::empty(),
        ..s
    }.done(s.queued.map_values(|entry: QueuedView| TaskView::Arrived(entry)))
}

/// Some machine there was when the tick turned to the jobs serves this handle.
pub open spec fn is_served(s: State, handle: Seq<char>) -> bool {
    exists|name: Seq<char>| #[trigger] s.in_flight.contains(name) && naming::ends_in(name, handle)
}

/// What a job in a queue leads to: nothing unless it waits, unless this tick has
/// turned to it already, and unless a machine serves it.
pub open spec fn arrived_begun(s: State, entry: QueuedView) -> (State, Option<RequestView>) {
    let handle = naming::truncated(entry.job.handle);
    if entry.job.status != "waiting"@ || s.handled.contains(handle) {
        (s.done(Seq::empty()), None)
    } else {
        let noted = State { handled: s.handled.push(handle), ..s };
        if is_served(s, handle) {
            (noted.done(Seq::empty()), None)
        } else {
            (noted, Some(RequestView::Run(entry.repo, entry.job.run_id)))
        }
    }
}

/// The machine in place `at` is the first that was listed under this name.
pub open spec fn first_listed(
    fleet: Seq<(Provider, Machine)>,
    name: Seq<char>,
    at: int,
) -> bool {
    &&& 0 <= at < fleet.len()
    &&& fleet[at].1.name@ == name
    &&& forall|j: int| 0 <= j < at ==> (#[trigger] fleet[j]).1.name@ != name
}

/// The machine of this name is at the provider.
pub open spec fn is_at(s: State, provider: Provider, name: Seq<char>) -> bool {
    ||| exists|at: int| #[trigger]
        first_listed(s.fleet, name, at) && s.fleet[at].0 == provider
    ||| !sweep::is_listed(s.fleet, name) && s.unseen.contains_key(name) && s.unseen[name].0
        == provider
}

/// The machine of this name serves a job of the repository. It goes by the
/// handle, never by the class: a rename must not empty the quota while the
/// machines it renamed are still billing.
pub open spec fn serves_repo(
    config: &Config,
    s: State,
    repo: RepoView,
    name: Seq<char>,
) -> bool {
    &&& (config.daemon.machine_prefix@ + "-"@).is_prefix_of(name)
    &&& exists|i: int|
        0 <= i < s.queued.len() && (#[trigger] s.queued[i]).repo == repo && naming::ends_in(
            name,
            naming::truncated(s.queued[i].job.handle),
        )
}

/// The machines of the repository at the provider.
pub open spec fn live_names(
    config: &Config,
    s: State,
    repo: RepoView,
    provider: Provider,
) -> Set<Seq<char>> {
    Set::new(
        |name: Seq<char>| is_at(s, provider, name) && serves_repo(config, s, repo, name),
    )
}

/// The machines that this tick has made for the repository at the provider.
pub open spec fn made_names(s: State, repo: RepoView, provider: Provider) -> Set<Seq<char>> {
    Set::new(|name: Seq<char>| s.pending.contains(MadeView { repo, provider, name }))
}

/// The machines that count against the grant of the repository at the provider:
/// those it has, and those this tick has made. None counts twice.
pub open spec fn counted_names(
    config: &Config,
    s: State,
    repo: RepoView,
    provider: Provider,
) -> Set<Seq<char>> {
    live_names(config, s, repo, provider).union(made_names(s, repo, provider))
}

/// How many machines count against the grant of the repository at the provider.
pub open spec fn running(
    config: &Config,
    s: State,
    repo: RepoView,
    provider: Provider,
) -> nat {
    counted_names(config, s, repo, provider).len()
}

/// A refusal is told of once, until its reason changes.
pub open spec fn logged(s: State, handle: Seq<char>, denial: Seq<char>) -> State {
    if s.refusals.contains_key(handle) && s.refusals[handle] == denial {
        s
    } else {
        State { refusals: s.refusals.insert(handle, denial), ..s }.told(
            NoticeView::Refused(handle, denial),
        )
    }
}

/// A job is refused: it is told so on its commit.
pub open spec fn refused(
    s: State,
    entry: QueuedView,
    sha: Option<Seq<char>>,
    url: Option<Seq<char>>,
    denial: DenialView,
) -> State {
    let why = policy::denial_text(denial);
    logged(s, entry.job.handle, why).then_do(
        seq![
            TaskView::Tell(
                ReportView {
                    repo: entry.repo,
                    sha,
                    url,
                    state: StatusState::Error,
                    description: why,
                },
            ),
        ],
    )
}

/// The machine a job is to get.
pub open spec fn order_of(
    config: &Config,
    entry: QueuedView,
    sha: Option<Seq<char>>,
    url: Option<Seq<char>>,
    class: ClassView,
) -> OrderView {
    OrderView {
        queued: entry,
        sha,
        url,
        class,
        name: naming::machine_name_of(
            config.daemon.machine_prefix@,
            class.name(),
            entry.job.handle,
        ),
    }
}

/// What is decided on a job of this event: it is refused, it is held back
/// because its provider's machines are not visible, or it gets a machine.
pub open spec fn decided(
    config: &Config,
    s: State,
    entry: QueuedView,
    run: Run,
    sha: Option<Seq<char>>,
) -> State {
    let url = text::optional(run.html_url);
    match policy::resolved(config, entry.job.runs_on) {
        Err(denial) => refused(s, entry, sha, url, denial),
        Ok(class) => match policy::refusal(
            config,
            class,
            entry.repo,
            forgejo::triggering(run),
            run.is_fork_pull_request,
            running(config, s, entry.repo, class.provider),
        ) {
            Some(denial) => refused(s, entry, sha, url, denial),
            None => if s.blind.contains(class.provider) {
                s.told(NoticeView::HeldBack(entry.job.handle, class.provider))
            } else {
                s.then_do(
                    Seq::empty().push(
                        TaskView::Tell(
                            ReportView {
                                repo: entry.repo,
                                sha,
                                url,
                                state: StatusState::Pending,
                                description: "provisioning a "@ + class.name() + " machine"@,
                            },
                        ),
                    ).push(TaskView::Register(order_of(config, entry, sha, url, class))),
                )
            },
        },
    }
}

/// What a job's run leads to.
pub open spec fn run_read(
    config: &Config,
    s: State,
    entry: QueuedView,
    outcome: Result<Run, Fault>,
    now: u64,
) -> State {
    match outcome {
        Ok(run) => decided(
            config,
            s,
            entry,
            run,
            forgejo::target_sha(run, forgejo::payload_sha(run)),
        ),
        Err(fault) => s.alarmed(Kind::CreateFailed, entry.job.handle, fault.detail@, now),
    }
}

/// The user data of the machine a job is to get.
pub open spec fn order_user_data(
    config: &Config,
    order: OrderView,
    registration: Registration,
) -> Seq<char> {
    cloudinit::user_data_of(
        cloudinit::pretty_json(
            cloudinit::document_of(
                cloudinit::config_of(
                    config.daemon,
                    order.class,
                    config.forgejo.url@,
                    registration,
                    order.queued.job.handle,
                ),
            ),
        ),
    )
}

/// What a runner registration leads to.
pub open spec fn registered(
    config: &Config,
    s: State,
    order: OrderView,
    outcome: Result<Registration, Fault>,
    now: u64,
) -> State {
    match outcome {
        Ok(registration) => s.then_do(
            seq![
                TaskView::Create(
                    AttemptView {
                        order,
                        registration: registration.id,
                        user_data: order_user_data(config, order, registration),
                        placements: provider::placements_of(
                            order.class,
                            order.class.plans.len(),
                        ),
                        last: None,
                    },
                ),
            ],
        ),
        Err(fault) => s.alarmed(
            Kind::CreateFailed,
            order.queued.job.handle,
            fault.detail@,
            now,
        ),
    }
}

/// Why a machine could not be placed anywhere.
pub open spec fn final_fault(attempt: AttemptView) -> FaultView {
    match attempt.last {
        Some(fault) => fault,
        None => {
            let why = attempt.order.class.name() + ": nowhere to place it"@;
            FaultView { brief: why, detail: why }
        },
    }
}

/// No placement is left: the runner is deleted, the commit told, the alarm raised.
pub open spec fn given_up(attempt: AttemptView) -> Seq<TaskView> {
    let fault = final_fault(attempt);
    let entry = attempt.order.queued;
    Seq::empty().push(TaskView::Cleanup(entry.repo, attempt.registration)).push(
        TaskView::Tell(
            ReportView {
                repo: entry.repo,
                sha: attempt.order.sha,
                url: attempt.order.url,
                state: StatusState::Error,
                description: fault.brief,
            },
        ),
    ).push(TaskView::Fail(entry.job.handle, fault.detail))
}

/// The machine in the next placement, if there is one.
pub open spec fn creation_of(attempt: AttemptView) -> Option<RequestView> {
    if attempt.placements.len() == 0 {
        None
    } else {
        Some(
            RequestView::Create(
                CreationView {
                    kind: attempt.order.class.provider,
                    name: attempt.order.name,
                    plan: attempt.placements[0].plan,
                    location: attempt.placements[0].location,
                    image: attempt.order.class.image,
                    ssh_key: attempt.order.class.ssh_key,
                    user_data: attempt.user_data,
                },
            ),
        )
    }
}

/// The machine is tried in the next placement, as long as there is one.
pub open spec fn create_begun(s: State, attempt: AttemptView) -> (State, Option<RequestView>) {
    if attempt.placements.len() == 0 {
        (s.done(given_up(attempt)), None)
    } else {
        (s, creation_of(attempt))
    }
}

/// What a placement leads to: the machine is kept in mind until a listing shows
/// it, or the next placement is tried.
pub open spec fn created(
    s: State,
    attempt: AttemptView,
    outcome: Result<Machine, Fault>,
) -> State {
    let entry = attempt.order.queued;
    let kind = attempt.order.class.provider;
    match outcome {
        Ok(machine) => State {
            unseen: s.unseen.insert(machine.name@, (kind, machine)),
            pending: s.pending.push(
                MadeView { repo: entry.repo, provider: kind, name: machine.name@ },
            ),
            ..s
        }.calmed(Kind::CreateFailed, entry.job.handle).then_do(
            seq![
                TaskView::Tell(
                    ReportView {
                        repo: entry.repo,
                        sha: attempt.order.sha,
                        url: attempt.order.url,
                        state: StatusState::Success,
                        description: "running on "@ + (attempt.placements[0].plan + " in "@
                            + attempt.placements[0].location),
                    },
                ),
            ],
        ),
        Err(fault) => s.then_do(
            seq![
                TaskView::Create(
                    AttemptView {
                        placements: attempt.placements.drop_first(),
                        last: Some(fault@),
                        ..attempt
                    },
                ),
            ],
        ),
    }
}

/// The status to post, where there is a commit to post it on.
pub open spec fn status_of(report: ReportView) -> Option<RequestView> {
    match report.sha {
        Some(sha) => Some(
            RequestView::SetStatus(
                StatusView {
                    repo: report.repo,
                    sha,
                    url: report.url,
                    state: report.state,
                    description: report.description,
                },
            ),
        ),
        None => None,
    }
}

/// A status is posted where there is a commit to post it on.
pub open spec fn tell_begun(s: State, report: ReportView) -> (State, Option<RequestView>) {
    if report.sha is Some {
        (s, status_of(report))
    } else {
        (s.done(Seq::empty()), None)
    }
}

impl Orchestrator {
    /// Turns to the jobs that wait.
    pub fn provision_arrived(&mut self)
        requires
            old(self).state().agenda.len() > 0,
        ensures
            final(self).config == old(self).config,
            final(self).state() == arrivals_begun(old(self).state()),
    {
        let ghost s = self.state();
        let in_flight = self.flying();
        let ghost due = s.queued.map_values(|entry: QueuedView| TaskView::Arrived(entry));
        let mut tasks: Vec<Task> = Vec::new();
        let mut i: usize = 0;
        proof {
            assert(task::task_views(tasks@) =~= due.take(0));
        }
        while i < self.queued.len()
            invariant
                i <= self.queued@.len() == due.len(),
                s == self.state(),
                due == s.queued.map_values(|entry: QueuedView| TaskView::Arrived(entry)),
                task::task_views(tasks@) == due.take(i as int),
            decreases self.queued@.len() - i,
        {
            let ghost known = tasks@;
            tasks.push(Task::Arrived(self.queued[i].clone()));
            proof {
                assert(s.queued[i as int] == self.queued@[i as int]@);
                assert(task::task_views(tasks@) =~= task::task_views(known).push(tasks@.last()@));
                assert(due.take(i + 1) =~= due.take(i as int).push(due[i as int]));
            }
            i += 1;
        }
        proof {
            assert(due.take(i as int) =~= due);
        }
        self.in_flight = in_flight;
        self.handled = Vec::new();
        self.pending = Vec::new();
        proof {
            assert(task::made_views(self.pending@) =~= Seq::<MadeView>::empty());
            assert(text::texts(self.handled@) =~= Seq::<Seq<char>>::empty());
        }
        self.finish(tasks);
    }

    /// The names of the machines that were listed or may turn up yet.
    fn flying(&self) -> (res: Vec<String>)
        ensures
            text::texts(res@).to_set() == names_in_flight(self.state()),
    {
        let ghost s = self.state();
        let mut names: Vec<String> = Vec::new();
        let mut i: usize = 0;
        while i < self.fleet.len()
            invariant
                i <= self.fleet@.len(),
                s == self.state(),
                forall|name: Seq<char>| #[trigger]
                    text::texts(names@).contains(name) <==> sweep::is_listed(
                        s.fleet.take(i as int),
                        name,
                    ),
            decreases self.fleet@.len() - i,
        {
            let ghost known = text::texts(names@);
            text::add_to(&mut names, self.fleet[i].1.name.clone());
            proof {
                let name = self.fleet@[i as int].1.name@;
                text::lemma_contains_push(known, name);
                assert forall|other: Seq<char>| #[trigger]
                    text::texts(names@).contains(other) <==> sweep::is_listed(
                        s.fleet.take(i + 1),
                        other,
                    ) by {
                    lemma_listed_take(s.fleet, i as int, other);
                }
            }
            i += 1;
        }
        proof {
            assert(s.fleet.take(i as int) =~= s.fleet);
        }
        let count: usize = self.unseen.len();
        let ghost keys = self.unseen.keys();
        let mut k: usize = 0;
        while k < count
            invariant
                k <= count == keys.len(),
                s == self.state(),
                keys == self.unseen.keys(),
                forall|name: Seq<char>| #[trigger]
                    text::texts(names@).contains(name) <==> (sweep::is_listed(s.fleet, name)
                        || keys.take(k as int).contains(name)),
            decreases count - k,
        {
            let ghost known = text::texts(names@);
            text::add_to(&mut names, self.unseen.key_at(k).to_owned());
            proof {
                text::lemma_contains_push(known, keys[k as int]);
                text::lemma_contains_take(keys, k as int);
            }
            k += 1;
        }
        proof {
            assert(keys.take(k as int) =~= keys);
            assert(text::texts(names@).to_set() =~= names_in_flight(s));
        }
        names
    }

    /// Whether a machine there was when the tick turned to the jobs serves this handle.
    fn serves_handle(&self, handle: &str) -> (res: bool)
        ensures
            res == is_served(self.state(), handle@),
    {
        let ghost s = self.state();
        let ghost names = text::texts(self.in_flight@);
        let mut i: usize = 0;
        while i < self.in_flight.len()
            invariant
                i <= self.in_flight@.len() == names.len(),
                names == text::texts(self.in_flight@),
                s == self.state(),
                forall|j: int|
                    0 <= j < i ==> !naming::ends_in(#[trigger] names[j], handle@),
            decreases self.in_flight@.len() - i,
        {
            proof {
                assert(names[i as int] == self.in_flight@[i as int]@);
            }
            if naming::serves(self.in_flight[i].as_str(), handle) {
                proof {
                    assert(names.contains(names[i as int]));
                    assert(s.in_flight.contains(names[i as int]));
                }
                return true;
            }
            i += 1;
        }
        proof {
            assert forall|name: Seq<char>| #[trigger] s.in_flight.contains(
                name,
            ) implies !naming::ends_in(name, handle@) by {
                assert(names.contains(name));
                let j = choose|j: int| 0 <= j < names.len() && names[j] == name;
                assert(!naming::ends_in(names[j], handle@));
            }
        }
        false
    }

    /// Asks for the run of a job that waits for a machine.
    pub fn job_arrived(&mut self, entry: &Queued) -> (res: Option<Request>)
        requires
            old(self).state().agenda.len() > 0,
        ensures
            final(self).config == old(self).config,
            (final(self).state(), task::optional_request(res)) == arrived_begun(
                old(self).state(),
                entry@,
            ),
    {
        let handle = naming::truncated_handle(entry.job.handle.as_str());
        if !text::same(entry.job.status.as_str(), "waiting") || text::holds(
            self.handled.as_slice(),
            handle.as_str(),
        ) {
            self.finish_plain();
            return None;
        }
        let served = self.serves_handle(handle.as_str());
        text::add_to(&mut self.handled, handle);
        if served {
            self.finish_plain();
            return None;
        }
        Some(Request::Run(entry.repo.clone(), entry.job.run_id))
    }
}

proof fn lemma_listed_take(fleet: Seq<(Provider, Machine)>, at: int, name: Seq<char>)
    requires
        0 <= at < fleet.len(),
    ensures
        sweep::is_listed(fleet.take(at + 1), name) <==> (sweep::is_listed(fleet.take(at), name)
            || fleet[at].1.name@ == name),
{
    let longer = fleet.take(at + 1);
    let shorter = fleet.take(at);
    if sweep::is_listed(shorter, name) {
        let i = choose|i: int| 0 <= i < shorter.len() && (#[trigger] shorter[i]).1.name@ == name;
        assert(longer[i].1.name@ == name);
    }
    if fleet[at].1.name@ == name {
        assert(longer[at].1.name@ == name);
    }
    if sweep::is_listed(longer, name) && fleet[at].1.name@ != name {
        let i = choose|i: int| 0 <= i < longer.len() && (#[trigger] longer[i]).1.name@ == name;
        assert(shorter[i].1.name@ == name);
    }
}

/// The machines that count, among the first `n` that were listed.
spec fn counts_listed(
    config: &Config,
    s: State,
    repo: RepoView,
    provider: Provider,
    n: int,
    name: Seq<char>,
) -> bool {
    &&& serves_repo(config, s, repo, name)
    &&& exists|at: int| #[trigger]
        first_listed(s.fleet, name, at) && at < n && s.fleet[at].0 == provider
}

impl Orchestrator {
    /// Whether the machine of this name serves a job of the repository.
    fn serves_repo(&self, repo: &Repo, name: &str) -> (res: bool)
        ensures
            res == serves_repo(&self.config, self.state(), repo@, name@),
    {
        let head = self.config.machine_prefix().to_owned().concat("-");
        if !text::starts_with(name, head.as_str()) {
            return false;
        }
        let ghost s = self.state();
        let mut i: usize = 0;
        while i < self.queued.len()
            invariant
                i <= self.queued@.len() == s.queued.len(),
                s == self.state(),
                (self.config.daemon.machine_prefix@ + "-"@).is_prefix_of(name@),
                forall|j: int|
                    0 <= j < i ==> !((#[trigger] s.queued[j]).repo == repo@ && naming::ends_in(
                        name@,
                        naming::truncated(s.queued[j].job.handle),
                    )),
            decreases self.queued@.len() - i,
        {
            let entry = &self.queued[i];
            proof {
                assert(s.queued[i as int] == entry@);
            }
            if entry.repo.same_as(repo) {
                let handle = naming::truncated_handle(entry.job.handle.as_str());
                if naming::serves(name, handle.as_str()) {
                    return true;
                }
            }
            i += 1;
        }
        false
    }

    /// Whether a machine listed before place `at` has this name.
    fn listed_before(&self, at: usize, name: &str) -> (res: bool)
        requires
            at <= self.fleet@.len(),
        ensures
            res == exists|j: int| 0 <= j < at && (#[trigger] self.fleet@[j]).1.name@ == name@,
    {
        let mut j: usize = 0;
        while j < at
            invariant
                j <= at <= self.fleet@.len(),
                forall|k: int| 0 <= k < j ==> (#[trigger] self.fleet@[k]).1.name@ != name@,
            decreases at - j,
        {
            if text::same(self.fleet[j].1.name.as_str(), name) {
                return true;
            }
            j += 1;
        }
        false
    }

    /// The machines the repository has at the provider, each of them once.
    fn live_for(&self, repo: &Repo, provider: Provider) -> (res: Vec<String>)
        ensures
            text::texts(res@).no_duplicates(),
            text::texts(res@).to_set() == live_names(
                &self.config,
                self.state(),
                repo@,
                provider,
            ),
    {
        let ghost s = self.state();
        let mut live: Vec<String> = Vec::new();
        let mut i: usize = 0;
        while i < self.fleet.len()
            invariant
                i <= self.fleet@.len() == s.fleet.len(),
                s == self.state(),
                text::texts(live@).no_duplicates(),
                forall|name: Seq<char>| #[trigger]
                    text::texts(live@).contains(name) <==> counts_listed(
                        &self.config,
                        s,
                        repo@,
                        provider,
                        i as int,
                        name,
                    ),
            decreases self.fleet@.len() - i,
        {
            let ghost known = text::texts(live@);
            let (kind, machine) = &self.fleet[i];
            let name = machine.name.as_str();
            let first = !self.listed_before(i, name);
            proof {
                if first {
                    assert(first_listed(s.fleet, name@, i as int));
                }
                assert(first_listed(s.fleet, name@, i as int) ==> first);
                if counts_listed(&self.config, s, repo@, provider, i as int, name@) {
                    let at = choose|at: int| #[trigger]
                        first_listed(s.fleet, name@, at) && at < i && s.fleet[at].0 == provider;
                    assert(s.fleet[at].1.name@ == name@);
                    assert(!first);
                }
            }
            let counts = first && *kind == provider && self.serves_repo(repo, name);
            if counts {
                text::add_to(&mut live, name.to_owned());
            }
            proof {
                assert(counts ==> !known.contains(name@));
                text::lemma_contains_push(known, name@);
                assert forall|other: Seq<char>| #[trigger]
                    text::texts(live@).contains(other) <==> counts_listed(
                        &self.config,
                        s,
                        repo@,
                        provider,
                        i + 1,
                        other,
                    ) by {
                    assert(known.contains(other) <==> counts_listed(
                        &self.config,
                        s,
                        repo@,
                        provider,
                        i as int,
                        other,
                    ));
                    if counts_listed(&self.config, s, repo@, provider, i + 1, other) {
                        let at = choose|at: int| #[trigger]
                            first_listed(s.fleet, other, at) && at < i + 1 && s.fleet[at].0
                                == provider;
                        if at < i {
                            assert(first_listed(s.fleet, other, at) && at < i);
                        } else {
                            assert(at == i);
                        }
                    }
                }
            }
            i += 1;
        }
        let count: usize = self.unseen.len();
        let ghost keys = self.unseen.keys();
        let mut k: usize = 0;
        proof {
            assert forall|name: Seq<char>| #[trigger]
                text::texts(live@).contains(name) <==> (counts_listed(
                    &self.config,
                    s,
                    repo@,
                    provider,
                    s.fleet.len() as int,
                    name,
                ) || (keys.take(0).contains(name) && !sweep::is_listed(s.fleet, name)
                    && s.unseen[name].0 == provider && serves_repo(
                    &self.config,
                    s,
                    repo@,
                    name,
                ))) by {}
        }
        while k < count
            invariant
                k <= count == keys.len(),
                s == self.state(),
                keys == self.unseen.keys(),
                table::ascending(keys),
                text::texts(live@).no_duplicates(),
                forall|name: Seq<char>| #[trigger]
                    text::texts(live@).contains(name) <==> (counts_listed(
                        &self.config,
                        s,
                        repo@,
                        provider,
                        s.fleet.len() as int,
                        name,
                    ) || (keys.take(k as int).contains(name) && !sweep::is_listed(s.fleet, name)
                        && s.unseen[name].0 == provider && serves_repo(
                        &self.config,
                        s,
                        repo@,
                        name,
                    ))),
            decreases count - k,
        {
            let ghost known = text::texts(live@);
            let name = self.unseen.key_at(k);
            let entry = self.unseen.value_at(k);
            let counts = !self.lists_machine(name) && entry.0 == provider && self.serves_repo(
                repo,
                name,
            );
            proof {
                text::lemma_contains_take(keys, k as int);
                table::lemma_ascending_distinct(keys);
                if keys.take(k as int).contains(name@) {
                    let j = choose|j: int| 0 <= j < k && keys.take(k as int)[j] == name@;
                    assert(keys[j] == keys[k as int]);
                }
                if counts_listed(
                    &self.config,
                    s,
                    repo@,
                    provider,
                    s.fleet.len() as int,
                    name@,
                ) {
                    let at = choose|at: int| #[trigger]
                        first_listed(s.fleet, name@, at) && at < s.fleet.len() && s.fleet[at].0
                            == provider;
                    assert(s.fleet[at].1.name@ == name@);
                    assert(sweep::is_listed(s.fleet, name@));
                }
                assert(counts ==> !known.contains(name@));
                text::lemma_contains_push(known, name@);
            }
            if counts {
                text::add_to(&mut live, name.to_owned());
            }
            k += 1;
        }
        proof {
            let all = text::texts(live@);
            assert(keys.take(k as int) =~= keys);
            assert(all.to_set() =~= live_names(&self.config, s, repo@, provider)) by {
                assert forall|name: Seq<char>|
                    all.to_set().contains(name) <==> live_names(
                        &self.config,
                        s,
                        repo@,
                        provider,
                    ).contains(name) by {
                    assert(all.to_set().contains(name) <==> all.contains(name));
                    if counts_listed(
                        &self.config,
                        s,
                        repo@,
                        provider,
                        s.fleet.len() as int,
                        name,
                    ) {
                        let at = choose|at: int| #[trigger]
                            first_listed(s.fleet, name, at) && at < s.fleet.len() && s.fleet[at].0
                                == provider;
                        assert(first_listed(s.fleet, name, at) && s.fleet[at].0 == provider);
                    }
                }
            }
        }
        live
    }

    /// How many machines count against the grant of the repository at the provider.
    fn running_for(&self, repo: &Repo, provider: Provider) -> (res: usize)
        ensures
            res == running(&self.config, self.state(), repo@, provider),
    {
        let ghost s = self.state();
        let ghost live = live_names(&self.config, s, repo@, provider);
        let mut names = self.live_for(repo, provider);
        let mut i: usize = 0;
        proof {
            assert forall|name: Seq<char>| #[trigger]
                text::texts(names@).contains(name) <==> live.contains(name) by {
                assert(text::texts(names@).to_set().contains(name) <==> text::texts(
                    names@,
                ).contains(name));
            }
        }
        while i < self.pending.len()
            invariant
                i <= self.pending@.len() == s.pending.len(),
                s == self.state(),
                live == live_names(&self.config, s, repo@, provider),
                text::texts(names@).no_duplicates(),
                forall|name: Seq<char>| #[trigger]
                    text::texts(names@).contains(name) <==> (live.contains(name)
                        || s.pending.take(i as int).contains(
                        MadeView { repo: repo@, provider, name },
                    )),
            decreases self.pending@.len() - i,
        {
            let made = &self.pending[i];
            let ghost known = text::texts(names@);
            let own = made.repo.same_as(repo) && made.provider == provider;
            proof {
                assert(s.pending[i as int] == made@);
                text::lemma_contains_take(s.pending, i as int);
                text::lemma_contains_push(known, made.name@);
            }
            if own && !text::holds(names.as_slice(), made.name.as_str()) {
                text::add_to(&mut names, made.name.clone());
            }
            i += 1;
        }
        proof {
            let all = text::texts(names@);
            let counted = counted_names(&self.config, s, repo@, provider);
            assert(s.pending.take(i as int) =~= s.pending);
            assert forall|name: Seq<char>|
                all.to_set().contains(name) <==> counted.contains(name) by {
                assert(all.to_set().contains(name) <==> all.contains(name));
            }
            assert(all.to_set() =~= counted);
            all.unique_seq_to_set();
        }
        names.len()
    }
}

impl Orchestrator {
    /// Tells of a refusal, unless it was told of before.
    pub fn log_refusal(&mut self, handle: &str, denial: &str)
        ensures
            final(self).config == old(self).config,
            final(self).state() == logged(old(self).state(), handle@, denial@),
    {
        let known = match self.refusals.get(handle) {
            Some(last) => text::same(last.as_str(), denial),
            None => false,
        };
        if known {
            return;
        }
        let ghost before = self.refusals@;
        self.refusals.insert(handle.to_owned(), denial.to_owned());
        proof {
            assert(super::text_map(self.refusals@) =~= super::text_map(before).insert(
                handle@,
                denial@,
            ));
        }
        self.tell(Notice::Refused(handle.to_owned(), denial.to_owned()));
    }

    /// Refuses a job.
    fn refuse(&mut self, entry: &Queued, sha: Option<String>, url: Option<String>, denial: Denial)
        ensures
            final(self).config == old(self).config,
            final(self).state() == refused(
                old(self).state(),
                entry@,
                text::optional(sha),
                text::optional(url),
                denial@,
            ),
    {
        let why = denial.reason();
        self.log_refusal(entry.job.handle.as_str(), why.as_str());
        self.put_one(
            Task::Tell(
                Report {
                    repo: entry.repo.clone(),
                    sha,
                    url,
                    state: StatusState::Error,
                    description: why,
                },
            ),
        );
    }

    /// Decides on a job of this event, given the commit to report on.
    pub fn decide(&mut self, entry: Queued, run: &Run, sha: Option<String>)
        ensures
            final(self).config == old(self).config,
            final(self).state() == decided(
                &old(self).config,
                old(self).state(),
                entry@,
                *run,
                text::optional(sha),
            ),
    {
        let url = text::copied_option(&run.html_url);
        let request = JobRequest {
            runs_on: text::copied(entry.job.runs_on.as_slice()),
            event: run.triggering_event().to_owned(),
            is_fork_pull_request: run.is_fork_pull_request,
        };
        let class = match policy::resolve(&self.config, &request) {
            Ok(class) => class.clone(),
            Err(denial) => {
                self.refuse(&entry, sha, url, denial);
                return;
            },
        };
        let live: usize = self.running_for(&entry.repo, class.provider);
        if let Err(denial) = policy::admits(&self.config, &class, &entry.repo, &request, live) {
            self.refuse(&entry, sha, url, denial);
            return;
        }
        if self.is_blind(class.provider) {
            self.tell(Notice::HeldBack(entry.job.handle.clone(), class.provider));
            return;
        }
        let label = class.name();
        let name = naming::machine_name(
            self.config.machine_prefix(),
            label.as_str(),
            entry.job.handle.as_str(),
        );
        let report = Report {
            repo: entry.repo.clone(),
            sha: text::copied_option(&sha),
            url: text::copied_option(&url),
            state: StatusState::Pending,
            description: "provisioning a ".to_owned().concat(label.as_str()).concat(" machine"),
        };
        let ghost telling = TaskView::Tell(report@);
        let order = Order { queued: entry, sha, url, class, name };
        let ghost ordering = TaskView::Register(order@);
        let mut tasks: Vec<Task> = Vec::new();
        tasks.push(Task::Tell(report));
        tasks.push(Task::Register(order));
        proof {
            assert(task::task_views(tasks@) =~= Seq::empty().push(telling).push(ordering));
        }
        self.put(tasks);
    }

    /// Takes in the run of a job.
    pub(super) fn provision(&mut self, entry: Queued, outcome: &Result<Run, Fault>, now: u64)
        ensures
            final(self).config == old(self).config,
            final(self).state() == run_read(
                &old(self).config,
                old(self).state(),
                entry@,
                *outcome,
                now,
            ),
    {
        match outcome {
            Ok(run) => {
                let sha = forgejo::status_target_sha(run);
                self.decide(entry, run, sha);
            },
            Err(fault) => {
                self.alarm(
                    Kind::CreateFailed,
                    entry.job.handle.as_str(),
                    fault.detail.as_str(),
                    now,
                );
            },
        }
    }

    /// Takes in the registration of a runner.
    pub(super) fn runner_registered(
        &mut self,
        order: Order,
        outcome: &Result<Registration, Fault>,
        now: u64,
    )
        ensures
            final(self).config == old(self).config,
            final(self).state() == registered(
                &old(self).config,
                old(self).state(),
                order@,
                *outcome,
                now,
            ),
    {
        match outcome {
            Ok(registration) => {
                let user_data = cloudinit::render(
                    &self.config.daemon,
                    &order.class,
                    self.config.forgejo.url.as_str(),
                    registration,
                    order.queued.job.handle.as_str(),
                );
                let placements = provider::placements(&order.class);
                self.put_one(
                    Task::Create(
                        Attempt {
                            order,
                            registration: registration.id,
                            user_data,
                            placements,
                            last: None,
                        },
                    ),
                );
            },
            Err(fault) => {
                self.alarm(
                    Kind::CreateFailed,
                    order.queued.job.handle.as_str(),
                    fault.detail.as_str(),
                    now,
                );
            },
        }
    }

    /// Takes in the creation of a machine, or its rejection.
    pub(super) fn machine_placed(&mut self, attempt: Attempt, outcome: Result<Machine, Fault>)
        requires
            attempt@.placements.len() > 0,
        ensures
            final(self).config == old(self).config,
            final(self).state() == created(old(self).state(), attempt@, outcome),
    {
        match outcome {
            Ok(machine) => {
                let repo = &attempt.order.queued.repo;
                let kind = attempt.order.class.provider;
                let ghost known = self.pending@;
                let made = Made {
                    repo: repo.clone(),
                    provider: kind,
                    name: machine.name.clone(),
                };
                proof {
                    assert(attempt@.placements[0] == attempt.placements@[0]@);
                }
                let placed = attempt.placements[0].plan.clone().concat(" in ").concat(
                    attempt.placements[0].location.as_str(),
                );
                self.unseen.insert(machine.name.clone(), (kind, machine));
                self.pending.push(made);
                proof {
                    assert(task::made_views(self.pending@) =~= task::made_views(known).push(
                        self.pending@.last()@,
                    ));
                }
                self.calm(Kind::CreateFailed, attempt.order.queued.job.handle.as_str());
                self.put_one(
                    Task::Tell(
                        Report {
                            repo: repo.clone(),
                            sha: text::copied_option(&attempt.order.sha),
                            url: text::copied_option(&attempt.order.url),
                            state: StatusState::Success,
                            description: "running on ".to_owned().concat(placed.as_str()),
                        },
                    ),
                );
            },
            Err(fault) => {
                let ghost before = attempt@;
                let mut attempt = attempt;
                attempt.placements.remove(0);
                attempt.last = Some(fault);
                proof {
                    assert(attempt@.placements =~= before.placements.drop_first());
                }
                self.put_one(Task::Create(attempt));
            },
        }
    }
}

/// The machine that is asked for next.
pub(super) fn next_creation(attempt: &Attempt) -> (res: Option<Request>)
    ensures
        task::optional_request(res) == creation_of(attempt@),
{
    if attempt.placements.len() == 0 {
        return None;
    }
    proof {
        assert(attempt@.placements[0] == attempt.placements@[0]@);
    }
    let class = &attempt.order.class;
    Some(
        Request::Create(
            Creation {
                kind: class.provider,
                name: attempt.order.name.clone(),
                plan: attempt.placements[0].plan.clone(),
                location: attempt.placements[0].location.clone(),
                image: class.image.clone(),
                ssh_key: text::copied_option(&class.ssh_key),
                user_data: attempt.user_data.clone(),
            },
        ),
    )
}

/// What is left to do where no placement is left.
pub(super) fn give_up(attempt: Attempt) -> (res: Vec<Task>)
    ensures
        task::task_views(res@) == given_up(attempt@),
{
    let fault = match attempt.last {
        Some(fault) => fault,
        None => {
            let why = attempt.order.class.name().concat(": nowhere to place it");
            Fault { brief: why.clone(), detail: why }
        },
    };
    let repo = attempt.order.queued.repo;
    let report = Report {
        repo: repo.clone(),
        sha: attempt.order.sha,
        url: attempt.order.url,
        state: StatusState::Error,
        description: fault.brief,
    };
    let mut tasks: Vec<Task> = Vec::new();
    tasks.push(Task::Cleanup(repo, attempt.registration));
    tasks.push(Task::Tell(report));
    tasks.push(Task::Fail(attempt.order.queued.job.handle, fault.detail));
    proof {
        assert(task::task_views(tasks@) =~= given_up(attempt@));
    }
    tasks
}

/// The status that is to be posted, where there is a commit to post it on.
pub(super) fn next_status(report: &Report) -> (res: Option<Request>)
    ensures
        task::optional_request(res) == status_of(report@),
{
    match &report.sha {
        Some(sha) => Some(
            Request::SetStatus(
                Status {
                    repo: report.repo.clone(),
                    sha: sha.clone(),
                    url: text::copied_option(&report.url),
                    state: report.state,
                    description: report.description.clone(),
                },
            ),
        ),
        None => None,
    }
}

} // verus!
