//! One pass after another: what there is, what there should be, and what to do
//! about the difference.

pub mod ending;
pub mod grants;
pub mod laws;
pub mod outcomes;
pub mod promises;
pub mod provision;
pub mod sweep;
pub mod task;
pub mod tick;

use vstd::prelude::*;

use crate::alert;
use crate::alert::{Alerts, Kind, Streak};
use crate::config::{Config, Provider};
use crate::provider::Machine;
use crate::table::Table;
use crate::text;

use task::{Made, MadeView, Notice, NoticeView, Queued, QueuedView, Task, TaskView};

verus! {

/// The context of the statuses that are posted.
pub const STATUS_CONTEXT: &'static str = "ci-orchestrator / provision";

pub struct Orchestrator {
    pub config: Config,
    pub alerts: Alerts,
    /// When a machine of unknown age was first seen.
    pub first_seen: Table<u64>,
    /// How many polls in a row have missed a machine's job.
    pub missed_polls: Table<u32>,
    /// How many listings in a row have missed a runner's machine, and since when.
    pub missed_machines: Table<(u32, u64)>,
    /// The machines that were created and that no listing has shown yet.
    pub unseen: Table<(Provider, Machine)>,
    /// Why a job was last refused.
    pub refusals: Table<String>,
    /// What was listed in this tick.
    pub fleet: Vec<(Provider, Machine)>,
    /// The providers that could not be listed in this tick.
    pub blind: Vec<Provider>,
    /// The jobs that were read in this tick.
    pub queued: Vec<Queued>,
    /// Whether every queue could be read in this tick.
    pub all_queues_read: bool,
    /// The runners that were listed in this tick.
    pub seen: Vec<String>,
    /// Whether every repository's runners could be listed in this tick.
    pub all_repos_listed: bool,
    /// The machines there were when this tick turned to the jobs.
    pub in_flight: Vec<String>,
    /// The handles of the jobs that this tick has turned to.
    pub handled: Vec<String>,
    /// The machines that this tick has made.
    pub pending: Vec<Made>,
    /// What is still to do in this tick, in order.
    pub agenda: Vec<Task>,
    /// What there is to tell.
    pub notices: Vec<Notice>,
}

/// Everything the daemon remembers, but for its configuration.
#[verifier::ext_equal]
pub struct State {
    pub streaks: Map<Seq<char>, Streak>,
    pub first_seen: Map<Seq<char>, u64>,
    pub missed_polls: Map<Seq<char>, u32>,
    pub missed_machines: Map<Seq<char>, (u32, u64)>,
    pub unseen: Map<Seq<char>, (Provider, Machine)>,
    pub refusals: Map<Seq<char>, Seq<char>>,
    pub fleet: Seq<(Provider, Machine)>,
    pub blind: Seq<Provider>,
    pub queued: Seq<QueuedView>,
    pub all_queues_read: bool,
    pub seen: Seq<Seq<char>>,
    pub all_repos_listed: bool,
    pub in_flight: Set<Seq<char>>,
    pub handled: Seq<Seq<char>>,
    pub pending: Seq<MadeView>,
    pub agenda: Seq<TaskView>,
    pub notices: Seq<NoticeView>,
}

/// The texts of a table, by their characters.
pub open spec fn text_map(table: Map<Seq<char>, String>) -> Map<Seq<char>, Seq<char>> {
    Map::new(|key: Seq<char>| table.contains_key(key), |key: Seq<char>| table[key]@)
}

impl State {
    /// The task at hand is off the agenda.
    pub open spec fn taken(self) -> State {
        State { agenda: self.agenda.drop_first(), ..self }
    }

    /// These come next.
    pub open spec fn then_do(self, tasks: Seq<TaskView>) -> State {
        State { agenda: tasks + self.agenda, ..self }
    }

    /// The task at hand is done, and these come next.
    pub open spec fn done(self, tasks: Seq<TaskView>) -> State {
        self.taken().then_do(tasks)
    }

    /// With one more thing to tell.
    pub open spec fn told(self, notice: NoticeView) -> State {
        State { notices: self.notices.push(notice), ..self }
    }

    /// A failure was counted and told of.
    pub open spec fn alarmed(
        self,
        kind: Kind,
        subject: Seq<char>,
        detail: Seq<char>,
        now: u64,
    ) -> State {
        let (streaks, raised) = alert::raised(self.streaks, kind, subject, detail, now);
        State { streaks, ..self }.told(NoticeView::Alert(raised))
    }

    /// A failure is over.
    pub open spec fn calmed(self, kind: Kind, subject: Seq<char>) -> State {
        State { streaks: self.streaks.remove(alert::streak_key(kind, subject)), ..self }
    }
}

impl Orchestrator {
    /// Everything the daemon remembers, but for its configuration.
    pub open spec fn state(&self) -> State {
        State {
            streaks: self.alerts@,
            first_seen: self.first_seen@,
            missed_polls: self.missed_polls@,
            missed_machines: self.missed_machines@,
            unseen: self.unseen@,
            refusals: text_map(self.refusals@),
            fleet: self.fleet@,
            blind: self.blind@,
            queued: task::queued_views(self.queued@),
            all_queues_read: self.all_queues_read,
            seen: text::texts(self.seen@),
            all_repos_listed: self.all_repos_listed,
            in_flight: text::texts(self.in_flight@).to_set(),
            handled: text::texts(self.handled@),
            pending: task::made_views(self.pending@),
            agenda: task::task_views(self.agenda@),
            notices: task::notice_views(self.notices@),
        }
    }

    /// A daemon that has not looked at anything yet.
    pub fn new(config: Config) -> (res: Orchestrator)
        ensures
            res.config == config,
            res.state() == initial(),
    {
        let res = Orchestrator {
            config,
            alerts: Alerts::new(),
            first_seen: Table::new(),
            missed_polls: Table::new(),
            missed_machines: Table::new(),
            unseen: Table::new(),
            refusals: Table::new(),
            fleet: Vec::new(),
            blind: Vec::new(),
            queued: Vec::new(),
            all_queues_read: false,
            seen: Vec::new(),
            all_repos_listed: false,
            in_flight: Vec::new(),
            handled: Vec::new(),
            pending: Vec::new(),
            agenda: Vec::new(),
            notices: Vec::new(),
        };
        proof {
            assert(res.state() =~= initial());
        }
        res
    }

    /// Counts a failure and tells of it.
    fn alarm(&mut self, kind: Kind, subject: &str, detail: &str, now: u64)
        ensures
            final(self).config == old(self).config,
            final(self).state() == old(self).state().alarmed(kind, subject@, detail@, now),
    {
        let raised = self.alerts.raise(kind, subject, detail, now);
        self.tell(Notice::Alert(raised));
    }

    /// Ends a streak of failures.
    fn calm(&mut self, kind: Kind, subject: &str)
        ensures
            final(self).config == old(self).config,
            final(self).state() == old(self).state().calmed(kind, subject@),
    {
        self.alerts.clear(kind, subject);
    }

    fn tell(&mut self, notice: Notice)
        ensures
            final(self).config == old(self).config,
            final(self).state() == old(self).state().told(notice@),
    {
        let ghost before = self.notices@;
        let ghost added = notice@;
        self.notices.push(notice);
        proof {
            assert(task::notice_views(self.notices@) =~= task::notice_views(before).push(added));
        }
    }

    /// Takes the task at hand off the agenda.
    fn take(&mut self) -> (res: Task)
        requires
            old(self).state().agenda.len() > 0,
        ensures
            res@ == old(self).state().agenda[0],
            final(self).config == old(self).config,
            final(self).state() == old(self).state().taken(),
    {
        let ghost before = self.agenda@;
        let res = self.agenda.remove(0);
        proof {
            assert(task::task_views(self.agenda@) =~= task::task_views(before).drop_first());
        }
        res
    }

    /// Puts tasks in front of the others.
    fn put(&mut self, tasks: Vec<Task>)
        ensures
            final(self).config == old(self).config,
            final(self).state() == old(self).state().then_do(task::task_views(tasks@)),
    {
        let mut tasks = tasks;
        let ghost first = tasks@;
        let ghost rest = self.agenda@;
        let mut agenda: Vec<Task> = Vec::new();
        std::mem::swap(&mut agenda, &mut self.agenda);
        tasks.append(&mut agenda);
        self.agenda = tasks;
        proof {
            assert(task::task_views(self.agenda@) =~= task::task_views(first) + task::task_views(
                rest,
            ));
        }
    }

    /// Puts a task in front of the others.
    fn put_one(&mut self, task: Task)
        ensures
            final(self).config == old(self).config,
            final(self).state() == old(self).state().then_do(seq![task@]),
    {
        let mut tasks: Vec<Task> = Vec::new();
        let ghost value = task@;
        tasks.push(task);
        proof {
            assert(task::task_views(tasks@) =~= seq![value]);
        }
        self.put(tasks);
    }

    /// Ends the task at hand; these come next.
    fn finish(&mut self, tasks: Vec<Task>)
        requires
            old(self).state().agenda.len() > 0,
        ensures
            final(self).config == old(self).config,
            final(self).state() == old(self).state().done(task::task_views(tasks@)),
    {
        self.take();
        self.put(tasks);
    }

    /// Ends the task at hand; nothing comes of it.
    fn finish_plain(&mut self)
        requires
            old(self).state().agenda.len() > 0,
        ensures
            final(self).config == old(self).config,
            final(self).state() == old(self).state().done(Seq::empty()),
    {
        let none: Vec<Task> = Vec::new();
        proof {
            assert(task::task_views(none@) =~= Seq::<TaskView>::empty());
        }
        self.finish(none);
    }
}

/// Nothing is known and nothing is to do.
pub open spec fn initial() -> State {
    State {
        streaks: Map::empty(),
        first_seen: Map::empty(),
        missed_polls: Map::empty(),
        missed_machines: Map::empty(),
        unseen: Map::empty(),
        refusals: Map::empty(),
        fleet: Seq::empty(),
        blind: Seq::empty(),
        queued: Seq::empty(),
        all_queues_read: false,
        seen: Seq::empty(),
        all_repos_listed: false,
        in_flight: Set::empty(),
        handled: Seq::empty(),
        pending: Seq::empty(),
        agenda: Seq::empty(),
        notices: Seq::empty(),
    }
}

} // verus!
