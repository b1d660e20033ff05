//! What the daemon has to do, what it asks of the outside, and what it is told.

use vstd::prelude::*;

use crate::alert::{Raised, RaisedView};
use crate::config::{Class, ClassView, Provider, Repo, RepoView};
use crate::forgejo::{Job, JobView, Registration, Run, Runner, StatusState};
use crate::provider;
use crate::provider::{Machine, Moment, Placement, PlacementView};
use crate::text;

verus! {

/// What the clocks show: the time of day, and the nanoseconds of a clock that
/// only goes forward.
#[derive(Debug, Clone, Copy, PartialEq, Eq, Structural)]
pub struct Clock {
    pub wall: Moment,
    pub ticks: u64,
}

/// Why something failed: in one line, and with everything that led to it.
#[derive(Debug)]
pub struct Fault {
    pub brief: String,
    pub detail: String,
}

pub struct FaultView {
    pub brief: Seq<char>,
    pub detail: Seq<char>,
}

impl View for Fault {
    type V = FaultView;

    open spec fn view(&self) -> FaultView {
        FaultView { brief: self.brief@, detail: self.detail@ }
    }
}

/// A job that a repository's queue holds.
#[derive(Debug)]
pub struct Queued {
    pub repo: Repo,
    pub job: Job,
}

pub struct QueuedView {
    pub repo: RepoView,
    pub job: JobView,
}

impl View for Queued {
    type V = QueuedView;

    open spec fn view(&self) -> QueuedView {
        QueuedView { repo: self.repo@, job: self.job@ }
    }
}

impl Clone for Queued {
    fn clone(&self) -> (res: Self)
        ensures
            res@ == self@,
    {
        Queued { repo: self.repo.clone(), job: self.job.clone() }
    }
}

/// A machine that a tick has made.
#[derive(Debug)]
pub struct Made {
    /// The repository whose job it was made for.
    pub repo: Repo,
    pub provider: Provider,
    pub name: String,
}

pub struct MadeView {
    pub repo: RepoView,
    pub provider: Provider,
    pub name: Seq<char>,
}

impl View for Made {
    type V = MadeView;

    open spec fn view(&self) -> MadeView {
        MadeView { repo: self.repo@, provider: self.provider, name: self.name@ }
    }
}

pub open spec fn made_views(made: Seq<Made>) -> Seq<MadeView> {
    made.map_values(|one: Made| one@)
}

/// A machine that is to be created for a job.
#[derive(Debug)]
pub struct Order {
    pub queued: Queued,
    /// The commit the outcome is reported on.
    pub sha: Option<String>,
    pub url: Option<String>,
    pub class: Class,
    /// The name of the machine and of its runner.
    pub name: String,
}

pub struct OrderView {
    pub queued: QueuedView,
    pub sha: Option<Seq<char>>,
    pub url: Option<Seq<char>>,
    pub class: ClassView,
    pub name: Seq<char>,
}

impl View for Order {
    type V = OrderView;

    open spec fn view(&self) -> OrderView {
        OrderView {
            queued: self.queued@,
            sha: text::optional(self.sha),
            url: text::optional(self.url),
            class: self.class@,
            name: self.name@,
        }
    }
}

/// The outcome of a job's provisioning, as it is told on a commit.
#[derive(Debug)]
pub struct Report {
    pub repo: Repo,
    pub sha: Option<String>,
    pub url: Option<String>,
    pub state: StatusState,
    pub description: String,
}

pub struct ReportView {
    pub repo: RepoView,
    pub sha: Option<Seq<char>>,
    pub url: Option<Seq<char>>,
    pub state: StatusState,
    pub description: Seq<char>,
}

impl View for Report {
    type V = ReportView;

    open spec fn view(&self) -> ReportView {
        ReportView {
            repo: self.repo@,
            sha: text::optional(self.sha),
            url: text::optional(self.url),
            state: self.state,
            description: self.description@,
        }
    }
}

/// The placements of a machine that are still to be tried.
#[derive(Debug)]
pub struct Attempt {
    pub order: Order,
    /// The runner registration the machine is to use.
    pub registration: i64,
    pub user_data: String,
    pub placements: Vec<Placement>,
    /// Why the last placement was rejected.
    pub last: Option<Fault>,
}

pub struct AttemptView {
    pub order: OrderView,
    pub registration: i64,
    pub user_data: Seq<char>,
    pub placements: Seq<PlacementView>,
    pub last: Option<FaultView>,
}

pub open spec fn optional_fault(fault: Option<Fault>) -> Option<FaultView> {
    match fault {
        Some(fault) => Some(fault@),
        None => None,
    }
}

impl View for Attempt {
    type V = AttemptView;

    open spec fn view(&self) -> AttemptView {
        AttemptView {
            order: self.order@,
            registration: self.registration,
            user_data: self.user_data@,
            placements: provider::placement_views(self.placements@),
            last: optional_fault(self.last),
        }
    }
}

/// One thing to do. A task takes at most one request.
#[derive(Debug)]
pub enum Task {
    /// List a provider's machines.
    List(Provider),
    /// Read a repository's queue.
    Poll(Repo),
    /// Decide on the rest of the tick.
    Plan,
    /// Destroy the machine if it is past its lifetime.
    Overdue(Provider, Machine),
    /// Look for machines that were created and never listed.
    SweepUnseen,
    /// Destroy the machine that was never listed if it is past its lifetime.
    Unseen(Provider, Machine),
    /// Destroy the machine if its job is gone.
    Departed(Provider, Machine),
    /// Forget the refusals of jobs that are gone.
    Forget,
    /// Look for runners without a machine.
    Reap,
    /// List a repository's runners.
    Runners(Repo),
    /// Delete the runner if its machine is gone.
    Runner(Repo, i64, String),
    /// Forget the runners that are gone.
    SettleRunners,
    /// Turn to the jobs that wait.
    Arrivals,
    /// Provision for the job if it waits for a machine.
    Arrived(Queued),
    /// Post a commit status.
    Tell(Report),
    /// Register a runner.
    Register(Order),
    /// Create the machine.
    Create(Attempt),
    /// Delete a runner that got no machine.
    Cleanup(Repo, i64),
    /// Raise the alarm over a job that got no machine.
    Fail(String, String),
}

pub enum TaskView {
    List(Provider),
    Poll(RepoView),
    Plan,
    Overdue(Provider, Machine),
    SweepUnseen,
    Unseen(Provider, Machine),
    Departed(Provider, Machine),
    Forget,
    Reap,
    Runners(RepoView),
    Runner(RepoView, i64, Seq<char>),
    SettleRunners,
    Arrivals,
    Arrived(QueuedView),
    Tell(ReportView),
    Register(OrderView),
    Create(AttemptView),
    Cleanup(RepoView, i64),
    Fail(Seq<char>, Seq<char>),
}

impl View for Task {
    type V = TaskView;

    open spec fn view(&self) -> TaskView {
        match self {
            Task::List(kind) => TaskView::List(*kind),
            Task::Poll(repo) => TaskView::Poll(repo@),
            Task::Plan => TaskView::Plan,
            Task::Overdue(kind, machine) => TaskView::Overdue(*kind, *machine),
            Task::SweepUnseen => TaskView::SweepUnseen,
            Task::Unseen(kind, machine) => TaskView::Unseen(*kind, *machine),
            Task::Departed(kind, machine) => TaskView::Departed(*kind, *machine),
            Task::Forget => TaskView::Forget,
            Task::Reap => TaskView::Reap,
            Task::Runners(repo) => TaskView::Runners(repo@),
            Task::Runner(repo, id, name) => TaskView::Runner(repo@, *id, name@),
            Task::SettleRunners => TaskView::SettleRunners,
            Task::Arrivals => TaskView::Arrivals,
            Task::Arrived(queued) => TaskView::Arrived(queued@),
            Task::Tell(report) => TaskView::Tell(report@),
            Task::Register(order) => TaskView::Register(order@),
            Task::Create(attempt) => TaskView::Create(attempt@),
            Task::Cleanup(repo, id) => TaskView::Cleanup(repo@, *id),
            Task::Fail(handle, detail) => TaskView::Fail(handle@, detail@),
        }
    }
}

pub open spec fn task_views(tasks: Seq<Task>) -> Seq<TaskView> {
    tasks.map_values(|task: Task| task@)
}

/// A machine that is asked for.
#[derive(Debug)]
pub struct Creation {
    pub kind: Provider,
    pub name: String,
    pub plan: String,
    pub location: String,
    pub image: String,
    pub ssh_key: Option<String>,
    pub user_data: String,
}

pub struct CreationView {
    pub kind: Provider,
    pub name: Seq<char>,
    pub plan: Seq<char>,
    pub location: Seq<char>,
    pub image: Seq<char>,
    pub ssh_key: Option<Seq<char>>,
    pub user_data: Seq<char>,
}

impl View for Creation {
    type V = CreationView;

    open spec fn view(&self) -> CreationView {
        CreationView {
            kind: self.kind,
            name: self.name@,
            plan: self.plan@,
            location: self.location@,
            image: self.image@,
            ssh_key: text::optional(self.ssh_key),
            user_data: self.user_data@,
        }
    }
}

/// A commit status that is to be posted.
#[derive(Debug)]
pub struct Status {
    pub repo: Repo,
    pub sha: String,
    pub url: Option<String>,
    pub state: StatusState,
    pub description: String,
}

pub struct StatusView {
    pub repo: RepoView,
    pub sha: Seq<char>,
    pub url: Option<Seq<char>>,
    pub state: StatusState,
    pub description: Seq<char>,
}

impl View for Status {
    type V = StatusView;

    open spec fn view(&self) -> StatusView {
        StatusView {
            repo: self.repo@,
            sha: self.sha@,
            url: text::optional(self.url),
            state: self.state,
            description: self.description@,
        }
    }
}

/// What is asked of the outside.
#[derive(Debug)]
pub enum Request {
    /// The provider's machines whose names start with the prefix.
    List(Provider, String),
    /// The repository's waiting and running jobs that carry any of the labels.
    Poll(Repo, Vec<String>),
    /// Destroy the provider's machine of this id.
    Destroy(Provider, String),
    /// The repository's runners.
    Runners(Repo),
    /// Delete the repository's runner of this id.
    DeleteRunner(Repo, i64),
    /// The repository's run of this id.
    Run(Repo, i64),
    /// Post a commit status.
    SetStatus(Status),
    /// Register an ephemeral runner of this name.
    Register(Repo, String),
    /// Create a machine.
    Create(Creation),
}

pub enum RequestView {
    List(Provider, Seq<char>),
    Poll(RepoView, Seq<Seq<char>>),
    Destroy(Provider, Seq<char>),
    Runners(RepoView),
    DeleteRunner(RepoView, i64),
    Run(RepoView, i64),
    SetStatus(StatusView),
    Register(RepoView, Seq<char>),
    Create(CreationView),
}

impl View for Request {
    type V = RequestView;

    open spec fn view(&self) -> RequestView {
        match self {
            Request::List(kind, prefix) => RequestView::List(*kind, prefix@),
            Request::Poll(repo, labels) => RequestView::Poll(repo@, text::texts(labels@)),
            Request::Destroy(kind, id) => RequestView::Destroy(*kind, id@),
            Request::Runners(repo) => RequestView::Runners(repo@),
            Request::DeleteRunner(repo, id) => RequestView::DeleteRunner(repo@, *id),
            Request::Run(repo, id) => RequestView::Run(repo@, *id),
            Request::SetStatus(status) => RequestView::SetStatus(status@),
            Request::Register(repo, name) => RequestView::Register(repo@, name@),
            Request::Create(creation) => RequestView::Create(creation@),
        }
    }
}

/// A request that may be absent, as a value.
pub open spec fn optional_request(request: Option<Request>) -> Option<RequestView> {
    match request {
        Some(request) => Some(request@),
        None => None,
    }
}

/// What the outside answers.
#[derive(Debug)]
pub enum Event {
    Listed(Result<Vec<Machine>, Fault>),
    Polled(Result<Vec<Job>, Fault>),
    Destroyed(Result<(), Fault>),
    RunnersListed(Result<Vec<Runner>, Fault>),
    RunnerDeleted(Result<(), Fault>),
    RunRead(Result<Run, Fault>),
    StatusSet,
    Registered(Result<Registration, Fault>),
    Created(Result<Machine, Fault>),
}

/// What the daemon tells whoever watches it.
#[derive(Debug)]
pub enum Notice {
    Alert(Raised),
    /// The job was refused, for a reason that was not told of it before.
    Refused(String, String),
    /// The job has to wait: the provider's machines are not visible.
    HeldBack(String, Provider),
    /// The machine is past its lifetime.
    Overdue(String),
}

pub enum NoticeView {
    Alert(RaisedView),
    Refused(Seq<char>, Seq<char>),
    HeldBack(Seq<char>, Provider),
    Overdue(Seq<char>),
}

impl View for Notice {
    type V = NoticeView;

    open spec fn view(&self) -> NoticeView {
        match self {
            Notice::Alert(raised) => NoticeView::Alert(raised@),
            Notice::Refused(handle, denial) => NoticeView::Refused(handle@, denial@),
            Notice::HeldBack(handle, kind) => NoticeView::HeldBack(handle@, *kind),
            Notice::Overdue(name) => NoticeView::Overdue(name@),
        }
    }
}

pub open spec fn notice_views(notices: Seq<Notice>) -> Seq<NoticeView> {
    notices.map_values(|notice: Notice| notice@)
}

pub open spec fn queued_views(queued: Seq<Queued>) -> Seq<QueuedView> {
    queued.map_values(|entry: Queued| entry@)
}

} // verus!
