//! The configuration, and what it answers.

pub mod accept;
pub mod check;
pub mod enumerate;
pub mod kinds;
pub mod laws;

use vstd::prelude::*;

use crate::naming;
use crate::table::Table;
use crate::text;

pub use kinds::{PerProvider, Provider};

verus! {

pub struct Config {
    pub forgejo: Forgejo,
    pub daemon: Daemon,
    pub providers: PerProvider<Host>,
    pub images: Table<PerProvider<String>>,
    pub plans: Table<PerProvider<Vec<String>>>,
    pub machines: Vec<Spec>,
    pub grants: Table<Grant>,
    pub alert: Option<Alert>,
    pub repos: Vec<Repo>,
    pub classes: Vec<Class>,
}

#[derive(Debug)]
pub struct Alert {
    pub webhook_url: Option<String>,
}

#[derive(Debug)]
pub struct Forgejo {
    pub url: String,
}

#[derive(Debug)]
pub struct Daemon {
    pub poll_interval_secs: u64,
    pub reconcile_grace_secs: u64,
    pub runner_version: String,
    pub runner_sha256_amd64: String,
    pub runner_sha256_arm64: String,
    pub machine_prefix: String,
}

#[derive(Debug)]
pub struct Host {
    pub locations: Vec<String>,
    pub ssh_key: Option<String>,
}

#[derive(Debug)]
pub struct Spec {
    pub labels: Labels,
    pub image: String,
    pub plans: String,
    pub lifetime_minutes: u64,
    pub job_timeout_minutes: u64,
    pub allowed_events: Vec<String>,
    pub allow_fork_pull_request: bool,
}

/// A label set, or a list of label sets.
#[derive(Debug)]
pub enum Labels {
    One(Vec<String>),
    Many(Vec<Vec<String>>),
}

#[derive(Debug)]
pub struct Grant {
    pub max_vms: PerProvider<usize>,
}

#[derive(Debug)]
pub struct Repo {
    pub owner: String,
    pub name: String,
}

/// One label set with everything it names already resolved.
#[derive(Debug)]
pub struct Class {
    pub labels: Vec<String>,
    pub provider: Provider,
    pub plans: Vec<String>,
    pub locations: Vec<String>,
    pub image: String,
    pub ssh_key: Option<String>,
    pub lifetime_minutes: u64,
    pub job_timeout_minutes: u64,
    pub allowed_events: Vec<String>,
    pub allow_fork_pull_request: bool,
}

pub struct RepoView {
    pub owner: Seq<char>,
    pub name: Seq<char>,
}

#[verifier::ext_equal]
pub struct ClassView {
    pub labels: Seq<Seq<char>>,
    pub provider: Provider,
    pub plans: Seq<Seq<char>>,
    pub locations: Seq<Seq<char>>,
    pub image: Seq<char>,
    pub ssh_key: Option<Seq<char>>,
    pub lifetime_minutes: u64,
    pub job_timeout_minutes: u64,
    pub allowed_events: Seq<Seq<char>>,
    pub allow_fork_pull_request: bool,
}

impl View for Repo {
    type V = RepoView;

    open spec fn view(&self) -> RepoView {
        RepoView { owner: self.owner@, name: self.name@ }
    }
}

impl View for Class {
    type V = ClassView;

    open spec fn view(&self) -> ClassView {
        ClassView {
            labels: text::texts(self.labels@),
            provider: self.provider,
            plans: text::texts(self.plans@),
            locations: text::texts(self.locations@),
            image: self.image@,
            ssh_key: text::optional(self.ssh_key),
            lifetime_minutes: self.lifetime_minutes,
            job_timeout_minutes: self.job_timeout_minutes,
            allowed_events: text::texts(self.allowed_events@),
            allow_fork_pull_request: self.allow_fork_pull_request,
        }
    }
}

impl RepoView {
    /// The repository as `owner/name`.
    pub open spec fn full_name(self) -> Seq<char> {
        self.owner + "/"@ + self.name
    }
}

impl ClassView {
    /// The labels with hyphens between them.
    pub open spec fn name(self) -> Seq<char> {
        text::joined(self.labels, "-"@)
    }

    /// The job asks for exactly these labels, in any order.
    pub open spec fn matches(self, runs_on: Seq<Seq<char>>) -> bool {
        &&& runs_on.len() == self.labels.len()
        &&& forall|i: int|
            0 <= i < self.labels.len() ==> runs_on.contains(#[trigger] self.labels[i])
    }

    /// How many of the labels the job asks for.
    pub open spec fn shared(self, runs_on: Seq<Seq<char>>) -> nat {
        shared_labels(self.labels, runs_on)
    }
}

/// How many of `labels` are among `runs_on`.
pub open spec fn shared_labels(labels: Seq<Seq<char>>, runs_on: Seq<Seq<char>>) -> nat
    decreases labels.len(),
{
    if labels.len() == 0 {
        0
    } else {
        let rest = shared_labels(labels.drop_last(), runs_on);
        if runs_on.contains(labels.last()) {
            rest + 1
        } else {
            rest
        }
    }
}

pub open spec fn class_views(classes: Seq<Class>) -> Seq<ClassView> {
    classes.map_values(|class: Class| class@)
}

pub open spec fn class_names(classes: Seq<ClassView>) -> Seq<Seq<char>> {
    classes.map_values(|class: ClassView| class.name())
}

/// The class in place `at` is the first of this name.
pub open spec fn is_named(classes: Seq<ClassView>, name: Seq<char>, at: int) -> bool {
    &&& 0 <= at < classes.len()
    &&& classes[at].name() == name
    &&& forall|j: int| 0 <= j < at ==> (#[trigger] classes[j]).name() != name
}

/// The class in place `at` is the first that answers to the labels.
pub open spec fn answers(classes: Seq<ClassView>, runs_on: Seq<Seq<char>>, at: int) -> bool {
    &&& 0 <= at < classes.len()
    &&& classes[at].matches(runs_on)
    &&& forall|j: int| 0 <= j < at ==> !(#[trigger] classes[j]).matches(runs_on)
}

/// The class in place `at` shares at least one label, no class shares more, and
/// no later one as many.
pub open spec fn is_nearest(classes: Seq<ClassView>, runs_on: Seq<Seq<char>>, at: int) -> bool {
    &&& 0 <= at < classes.len()
    &&& classes[at].shared(runs_on) > 0
    &&& forall|j: int|
        0 <= j < classes.len() ==> (#[trigger] classes[j]).shared(runs_on) <= classes[at].shared(
            runs_on,
        )
    &&& forall|j: int|
        at < j < classes.len() ==> (#[trigger] classes[j]).shared(runs_on) < classes[at].shared(
            runs_on,
        )
}

/// What a job that no class answers to is told.
pub open spec fn no_class_text(classes: Seq<ClassView>, runs_on: Seq<Seq<char>>) -> Seq<char> {
    let refused = "no [[machine]] answers to runs-on ["@ + text::joined(runs_on, ", "@);
    if exists|at: int| is_nearest(classes, runs_on, at) {
        let at = choose|at: int| is_nearest(classes, runs_on, at);
        refused + "]; the closest set configured is ["@ + text::joined(classes[at].labels, ", "@)
            + "]"@
    } else {
        refused + "]"@
    }
}

/// The most machines the repository may have at the provider.
pub open spec fn granted(config: &Config, repo: RepoView, provider: Provider) -> nat {
    let key = repo.full_name();
    if config.grants@.contains_key(key) && config.grants@[key].max_vms@.contains_key(provider) {
        config.grants@[key].max_vms@[provider] as nat
    } else {
        0
    }
}

/// The longest lifetime of the first `n` classes.
pub open spec fn longest_of(classes: Seq<ClassView>, n: nat) -> u64
    decreases n,
{
    if n == 0 {
        0
    } else {
        let rest = longest_of(classes, (n - 1) as nat);
        let last = classes[n - 1].lifetime_minutes;
        if rest < last {
            last
        } else {
            rest
        }
    }
}

pub fn default_machine_prefix() -> (res: String)
    ensures
        res@ == naming::DEFAULT_PREFIX@,
{
    naming::DEFAULT_PREFIX.to_owned()
}

pub fn default_poll_interval() -> (res: u64)
    ensures
        res == 15,
{
    15
}

pub fn default_reconcile_grace() -> (res: u64)
    ensures
        res == 300,
{
    300
}

impl Repo {
    /// The repository as `owner/name`.
    pub fn full_name(&self) -> (res: String)
        ensures
            res@ == self@.full_name(),
    {
        self.owner.clone().concat("/").concat(self.name.as_str())
    }

    /// Whether the two are the same repository.
    pub fn same_as(&self, other: &Repo) -> (res: bool)
        ensures
            res == (self@ == other@),
    {
        text::same(self.owner.as_str(), other.owner.as_str()) && text::same(
            self.name.as_str(),
            other.name.as_str(),
        )
    }
}

impl Clone for Repo {
    fn clone(&self) -> (res: Self)
        ensures
            res == *self,
    {
        Repo { owner: self.owner.clone(), name: self.name.clone() }
    }
}

impl Clone for Class {
    fn clone(&self) -> (res: Self)
        ensures
            res@ == self@,
    {
        Class {
            labels: text::copied(self.labels.as_slice()),
            provider: self.provider,
            plans: text::copied(self.plans.as_slice()),
            locations: text::copied(self.locations.as_slice()),
            image: self.image.clone(),
            ssh_key: text::copied_option(&self.ssh_key),
            lifetime_minutes: self.lifetime_minutes,
            job_timeout_minutes: self.job_timeout_minutes,
            allowed_events: text::copied(self.allowed_events.as_slice()),
            allow_fork_pull_request: self.allow_fork_pull_request,
        }
    }
}

impl Class {
    pub fn name(&self) -> (res: String)
        ensures
            res@ == self@.name(),
    {
        text::join(self.labels.as_slice(), "-")
    }

    pub fn job_timeout(&self) -> (res: u64)
        ensures
            res == self.job_timeout_minutes,
    {
        self.job_timeout_minutes
    }

    /// Unordered and exact: a job naming fewer or more labels is not this one.
    pub fn matches(&self, runs_on: &[String]) -> (res: bool)
        ensures
            res == self@.matches(text::texts(runs_on@)),
    {
        if runs_on.len() != self.labels.len() {
            return false;
        }
        let mut i: usize = 0;
        while i < self.labels.len()
            invariant
                i <= self.labels@.len(),
                forall|j: int|
                    0 <= j < i ==> text::texts(runs_on@).contains(#[trigger] self@.labels[j]),
            decreases self.labels@.len() - i,
        {
            proof {
                assert(self@.labels[i as int] == self.labels@[i as int]@);
            }
            if !text::holds(runs_on, self.labels[i].as_str()) {
                return false;
            }
            i += 1;
        }
        true
    }

    /// How many of the labels the job asks for.
    fn shared(&self, runs_on: &[String]) -> (res: usize)
        ensures
            res == self@.shared(text::texts(runs_on@)),
    {
        let mut count: usize = 0;
        let mut i: usize = 0;
        while i < self.labels.len()
            invariant
                count <= i <= self.labels@.len(),
                count == shared_labels(self@.labels.take(i as int), text::texts(runs_on@)),
            decreases self.labels@.len() - i,
        {
            proof {
                assert(self@.labels.take(i + 1).drop_last() =~= self@.labels.take(i as int));
                assert(self@.labels.take(i + 1).last() == self.labels@[i as int]@);
            }
            if text::holds(runs_on, self.labels[i].as_str()) {
                count += 1;
            }
            i += 1;
        }
        proof {
            assert(self@.labels.take(i as int) =~= self@.labels);
        }
        count
    }
}

impl Config {
    /// The classes as values.
    pub open spec fn class_views(&self) -> Seq<ClassView> {
        class_views(self.classes@)
    }

    pub fn machine_prefix(&self) -> (res: &str)
        ensures
            res@ == self.daemon.machine_prefix@,
    {
        self.daemon.machine_prefix.as_str()
    }

    /// The first class of this name.
    pub fn class(&self, name: &str) -> (res: Option<&Class>)
        ensures
            match res {
                Some(class) => exists|at: int| #[trigger]
                    is_named(self.class_views(), name@, at) && *class == self.classes@[at],
                None => forall|at: int| !is_named(self.class_views(), name@, at),
            },
            res is None ==> forall|at: int|
                0 <= at < self.classes@.len() ==> (#[trigger] self.class_views()[at]).name()
                    != name@,
    {
        let ghost views = self.class_views();
        let mut i: usize = 0;
        while i < self.classes.len()
            invariant
                i <= self.classes@.len(),
                views == self.class_views(),
                forall|j: int| 0 <= j < i ==> (#[trigger] views[j]).name() != name@,
            decreases self.classes@.len() - i,
        {
            let class = &self.classes[i];
            proof {
                assert(views[i as int] == class@);
            }
            if text::same(class.name().as_str(), name) {
                proof {
                    assert(is_named(views, name@, i as int));
                }
                return Some(class);
            }
            i += 1;
        }
        None
    }

    /// A job's runs-on is a set, and exactly one `[[machine]]` answers to it.
    pub fn class_for(&self, runs_on: &[String]) -> (res: Result<&Class, String>)
        ensures
            match res {
                Ok(class) => exists|i: int|
                    answers(self.class_views(), text::texts(runs_on@), i) && *class
                        == #[trigger] self.classes@[i],
                Err(why) => {
                    &&& forall|i: int| !answers(self.class_views(), text::texts(runs_on@), i)
                    &&& why@ == no_class_text(self.class_views(), text::texts(runs_on@))
                },
            },
    {
        let ghost asked = text::texts(runs_on@);
        let ghost views = self.class_views();
        let mut i: usize = 0;
        while i < self.classes.len()
            invariant
                i <= self.classes@.len(),
                asked == text::texts(runs_on@),
                views == self.class_views(),
                forall|j: int| 0 <= j < i ==> !(#[trigger] views[j]).matches(asked),
            decreases self.classes@.len() - i,
        {
            let class = &self.classes[i];
            proof {
                assert(views[i as int] == class@);
            }
            if class.matches(runs_on) {
                proof {
                    assert(answers(views, asked, i as int));
                }
                return Ok(class);
            }
            i += 1;
        }
        let listed = text::join(runs_on, ", ");
        let refused = "no [[machine]] answers to runs-on [".to_owned().concat(listed.as_str());
        match self.nearest(runs_on) {
            Some(near) => Err(
                refused.concat("]; the closest set configured is [").concat(near.as_str()).concat(
                    "]",
                ),
            ),
            None => Err(refused.concat("]")),
        }
    }

    /// The labels of the class that shares the most with the job; of several
    /// that share as many, the last.
    fn nearest(&self, runs_on: &[String]) -> (res: Option<String>)
        ensures
            match res {
                Some(near) => {
                    &&& exists|at: int|
                        is_nearest(self.class_views(), text::texts(runs_on@), at)
                    &&& near@ == text::joined(
                        self.class_views()[choose|at: int|
                            is_nearest(self.class_views(), text::texts(runs_on@), at)].labels,
                        ", "@,
                    )
                },
                None => forall|at: int|
                    !is_nearest(self.class_views(), text::texts(runs_on@), at),
            },
    {
        let ghost asked = text::texts(runs_on@);
        let ghost views = self.class_views();
        let mut best: usize = 0;
        let mut most: usize = 0;
        let mut i: usize = 0;
        while i < self.classes.len()
            invariant
                i <= self.classes@.len(),
                asked == text::texts(runs_on@),
                views == self.class_views(),
                forall|j: int| 0 <= j < i ==> (#[trigger] views[j]).shared(asked) <= most,
                most > 0 ==> {
                    &&& best < i
                    &&& views[best as int].shared(asked) == most
                    &&& forall|j: int| best < j < i ==> (#[trigger] views[j]).shared(asked) < most
                },
            decreases self.classes@.len() - i,
        {
            let shared: usize = self.classes[i].shared(runs_on);
            proof {
                assert(views[i as int] == self.classes@[i as int]@);
            }
            if shared > 0 && shared >= most {
                best = i;
                most = shared;
            }
            i += 1;
        }
        if most > 0 {
            proof {
                assert(is_nearest(views, asked, best as int));
                let at = choose|at: int| is_nearest(views, asked, at);
                assert(is_nearest(views, asked, at));
                assert(views[at].shared(asked) == views[best as int].shared(asked));
                assert(at == best);
                assert(views[at].labels == text::texts(self.classes@[at].labels@));
            }
            Some(text::join(self.classes[best].labels.as_slice(), ", "))
        } else {
            None
        }
    }

    pub fn max_vms(&self, repo: &Repo, provider: Provider) -> (res: usize)
        ensures
            res == granted(self, repo@, provider),
    {
        match self.grants.get(repo.full_name().as_str()) {
            Some(grant) => match grant.max_vms.get(provider) {
                Some(max) => *max,
                None => 0,
            },
            None => 0,
        }
    }

    /// Every label a job might put in runs-on, for the queue poll filter: each
    /// once, in ascending order.
    pub fn all_labels(&self) -> (res: Vec<String>)
        ensures
            lists_labels(self.class_views(), text::texts(res@)),
            text::texts(res@) == labels_of(self.class_views()),
    {
        let ghost views = self.class_views();
        let mut seen: Table<bool> = Table::new();
        let mut i: usize = 0;
        while i < self.classes.len()
            invariant
                i <= self.classes@.len(),
                views == self.class_views(),
                forall|label: Seq<char>| #[trigger]
                    seen@.contains_key(label) <==> carries(views.take(i as int), label),
            decreases self.classes@.len() - i,
        {
            let labels = &self.classes[i].labels;
            let ghost own = text::texts(labels@);
            proof {
                assert(views[i as int].labels == own);
            }
            let mut k: usize = 0;
            while k < labels.len()
                invariant
                    i < self.classes@.len(),
                    k <= labels@.len(),
                    own == text::texts(labels@),
                    views == self.class_views(),
                    views[i as int].labels == own,
                    forall|label: Seq<char>| #[trigger]
                        seen@.contains_key(label) <==> (carries(views.take(i as int), label)
                            || own.take(k as int).contains(label)),
                decreases labels@.len() - k,
            {
                seen.insert(labels[k].clone(), true);
                proof {
                    text::lemma_contains_take(own, k as int);
                }
                k += 1;
            }
            proof {
                assert(own.take(k as int) =~= own);
                assert forall|label: Seq<char>| carries(views.take(i + 1), label) <==> (carries(
                    views.take(i as int),
                    label,
                ) || own.contains(label)) by {
                    lemma_carries_take(views, i as int, label);
                }
            }
            i += 1;
        }
        proof {
            assert(views.take(i as int) =~= views);
        }
        let mut all: Vec<String> = Vec::new();
        let count: usize = seen.len();
        let ghost keys = seen.keys();
        let mut at: usize = 0;
        while at < count
            invariant
                at <= count == keys.len(),
                keys == seen.keys(),
                text::texts(all@) == keys.take(at as int),
            decreases count - at,
        {
            text::add_to(&mut all, seen.key_at(at).to_owned());
            proof {
                assert(keys.take(at + 1) =~= keys.take(at as int).push(keys[at as int]));
            }
            at += 1;
        }
        proof {
            assert(keys.take(at as int) =~= keys);
            assert forall|label: Seq<char>| #[trigger]
                text::texts(all@).contains(label) <==> carries(views, label) by {
                assert(seen@.contains_key(label) <==> keys.contains(label));
            }
            assert(lists_labels(views, text::texts(all@)));
            crate::table::lemma_ascending_is_one(text::texts(all@), labels_of(views));
        }
        all
    }

    /// The name of each class, in order.
    pub fn entry_names(&self) -> (res: Vec<String>)
        ensures
            text::texts(res@) == class_names(self.class_views()),
    {
        let mut names: Vec<String> = Vec::new();
        let mut i: usize = 0;
        while i < self.classes.len()
            invariant
                i <= self.classes@.len(),
                text::texts(names@) == class_names(self.class_views()).take(i as int),
            decreases self.classes@.len() - i,
        {
            text::add_to(&mut names, self.classes[i].name());
            proof {
                let all = class_names(self.class_views());
                assert(all.take(i + 1) =~= all.take(i as int).push(all[i as int]));
            }
            i += 1;
        }
        proof {
            assert(text::texts(names@) =~= class_names(self.class_views()));
        }
        names
    }

    pub fn longest_lifetime_minutes(&self) -> (res: u64)
        ensures
            res == longest_of(self.class_views(), self.classes@.len()),
    {
        let mut longest: u64 = 0;
        let mut i: usize = 0;
        while i < self.classes.len()
            invariant
                i <= self.classes@.len(),
                longest == longest_of(self.class_views(), i as nat),
            decreases self.classes@.len() - i,
        {
            proof {
                assert(self.class_views()[i as int] == self.classes@[i as int]@);
            }
            let lifetime: u64 = self.classes[i].lifetime_minutes;
            if longest < lifetime {
                longest = lifetime;
            }
            i += 1;
        }
        longest
    }

    /// The time between two polls, in seconds.
    pub fn poll_interval(&self) -> (res: u64)
        ensures
            res == self.daemon.poll_interval_secs,
    {
        self.daemon.poll_interval_secs
    }

    /// The time a machine is left alone past its lifetime, in seconds.
    pub fn reconcile_grace(&self) -> (res: u64)
        ensures
            res == self.daemon.reconcile_grace_secs,
    {
        self.daemon.reconcile_grace_secs
    }
}

/// The list holds every label that a class carries, each once, in ascending order.
pub open spec fn lists_labels(classes: Seq<ClassView>, list: Seq<Seq<char>>) -> bool {
    &&& crate::table::ascending(list)
    &&& forall|label: Seq<char>| #[trigger] list.contains(label) <==> carries(classes, label)
}

pub open spec fn labels_of(classes: Seq<ClassView>) -> Seq<Seq<char>> {
    choose|list: Seq<Seq<char>>| lists_labels(classes, list)
}

/// One of the classes carries the label.
pub open spec fn carries(classes: Seq<ClassView>, label: Seq<char>) -> bool {
    exists|i: int| 0 <= i < classes.len() && (#[trigger] classes[i]).labels.contains(label)
}

proof fn lemma_carries_take(classes: Seq<ClassView>, at: int, label: Seq<char>)
    requires
        0 <= at < classes.len(),
    ensures
        carries(classes.take(at + 1), label) <==> (carries(classes.take(at), label)
            || classes[at].labels.contains(label)),
{
    let longer = classes.take(at + 1);
    let shorter = classes.take(at);
    if carries(shorter, label) {
        let i = choose|i: int|
            0 <= i < shorter.len() && (#[trigger] shorter[i]).labels.contains(label);
        assert(longer[i] == shorter[i]);
    }
    if classes[at].labels.contains(label) {
        assert(longer[at] == classes[at]);
    }
    if carries(longer, label) {
        let i = choose|i: int|
            0 <= i < longer.len() && (#[trigger] longer[i]).labels.contains(label);
        if i < at {
            assert(shorter[i] == longer[i]);
        }
    }
}

} // verus!
