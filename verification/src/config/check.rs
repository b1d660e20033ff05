//! What makes a configuration acceptable, and the classes it then defines.

use vstd::prelude::*;

use super::kinds;
use super::kinds::{PerProvider, Provider, PROVIDERS};
use super::{ClassView, Config, Daemon, Grant, Host, Labels, Repo, RepoView, Spec};
use crate::naming;
use crate::text;

verus! {

/// The longest hostname a machine may get.
pub const HOSTNAME_LIMIT: usize = 63;

/// The tables of a configuration.
pub struct Tables {
    pub daemon: Daemon,
    pub providers: Map<Provider, Host>,
    pub images: Map<Seq<char>, PerProvider<String>>,
    pub image_keys: Seq<Seq<char>>,
    pub plans: Map<Seq<char>, PerProvider<Vec<String>>>,
    pub plan_keys: Seq<Seq<char>>,
    pub machines: Seq<Spec>,
    pub grants: Map<Seq<char>, Grant>,
    pub grant_keys: Seq<Seq<char>>,
}

/// `key` reads `owner/name` with one slash and something on both sides of it.
pub open spec fn names_repo(key: Seq<char>, repo: RepoView) -> bool {
    &&& key == repo.full_name()
    &&& repo.owner.len() > 0
    &&& !repo.owner.contains('/')
    &&& repo.name.len() > 0
    &&& !repo.name.contains('/')
}

pub open spec fn is_repo_key(key: Seq<char>) -> bool {
    exists|repo: RepoView| names_repo(key, repo)
}

/// The fault of the first of the first `n` keys that names no repository.
pub open spec fn repos_fault(keys: Seq<Seq<char>>, n: nat) -> Option<Seq<char>>
    decreases n,
{
    if n == 0 {
        None
    } else if repos_fault(keys, (n - 1) as nat) is Some {
        repos_fault(keys, (n - 1) as nat)
    } else if is_repo_key(keys[n - 1]) {
        None
    } else {
        Some("[repo."@ + text::debug_text(keys[n - 1]) + "] must be named \"owner/name\""@)
    }
}

/// What is told of a table that names a provider without a table of its own.
pub open spec fn undeclared_text(whose: Seq<char>, kind: Provider) -> Seq<char> {
    whose + " names "@ + kinds::provider_name(kind) + ", which has no [provider."@
        + kinds::provider_name(kind) + "] table"@
}

pub open spec fn provider_fault(tables: Tables, kind: Provider) -> Option<Seq<char>> {
    if !tables.providers.contains_key(kind) {
        None
    } else if tables.providers[kind].locations@.len() == 0 {
        Some("[provider."@ + kinds::provider_name(kind) + "] has no locations"@)
    } else if text::texts(tables.providers[kind].locations@).contains(Seq::empty()) {
        Some("[provider."@ + kinds::provider_name(kind) + "] has an empty location"@)
    } else {
        None
    }
}

pub open spec fn providers_fault(tables: Tables, n: nat) -> Option<Seq<char>>
    decreases n,
{
    if n == 0 {
        None
    } else if providers_fault(tables, (n - 1) as nat) is Some {
        providers_fault(tables, (n - 1) as nat)
    } else {
        provider_fault(tables, kinds::provider_in_place(n - 1))
    }
}

pub open spec fn image_whose(alias: Seq<char>) -> Seq<char> {
    "[image."@ + alias + "]"@
}

pub open spec fn image_fault(tables: Tables, alias: Seq<char>, kind: Provider) -> Option<
    Seq<char>,
> {
    let ids = tables.images[alias]@;
    if !ids.contains_key(kind) {
        None
    } else if !tables.providers.contains_key(kind) {
        Some(undeclared_text(image_whose(alias), kind))
    } else if ids[kind]@.len() == 0 {
        Some(image_whose(alias) + " has an empty id for "@ + kinds::provider_name(kind))
    } else {
        None
    }
}

pub open spec fn image_ids_fault(tables: Tables, alias: Seq<char>, n: nat) -> Option<Seq<char>>
    decreases n,
{
    if n == 0 {
        None
    } else if image_ids_fault(tables, alias, (n - 1) as nat) is Some {
        image_ids_fault(tables, alias, (n - 1) as nat)
    } else {
        image_fault(tables, alias, kinds::provider_in_place(n - 1))
    }
}

pub open spec fn images_fault(tables: Tables, n: nat) -> Option<Seq<char>>
    decreases n,
{
    if n == 0 {
        None
    } else if images_fault(tables, (n - 1) as nat) is Some {
        images_fault(tables, (n - 1) as nat)
    } else {
        let alias = tables.image_keys[n - 1];
        if tables.images[alias]@ == Map::<Provider, String>::empty() {
            Some(image_whose(alias) + " names no provider"@)
        } else {
            image_ids_fault(tables, alias, PROVIDERS as nat)
        }
    }
}

pub open spec fn plans_whose(name: Seq<char>) -> Seq<char> {
    "[plans."@ + name + "]"@
}

pub open spec fn ladder_fault(tables: Tables, name: Seq<char>, kind: Provider) -> Option<
    Seq<char>,
> {
    let ladders = tables.plans[name]@;
    if !ladders.contains_key(kind) {
        None
    } else if !tables.providers.contains_key(kind) {
        Some(undeclared_text(plans_whose(name), kind))
    } else if ladders[kind]@.len() == 0 {
        Some(plans_whose(name) + " has no plans for "@ + kinds::provider_name(kind))
    } else {
        None
    }
}

pub open spec fn ladders_fault(tables: Tables, name: Seq<char>, n: nat) -> Option<Seq<char>>
    decreases n,
{
    if n == 0 {
        None
    } else if ladders_fault(tables, name, (n - 1) as nat) is Some {
        ladders_fault(tables, name, (n - 1) as nat)
    } else {
        ladder_fault(tables, name, kinds::provider_in_place(n - 1))
    }
}

pub open spec fn plans_fault(tables: Tables, n: nat) -> Option<Seq<char>>
    decreases n,
{
    if n == 0 {
        None
    } else if plans_fault(tables, (n - 1) as nat) is Some {
        plans_fault(tables, (n - 1) as nat)
    } else {
        let name = tables.plan_keys[n - 1];
        if tables.plans[name]@ == Map::<Provider, Vec<String>>::empty() {
            Some(plans_whose(name) + " names no provider"@)
        } else {
            ladders_fault(tables, name, PROVIDERS as nat)
        }
    }
}

/// The label sets of a `[[machine]]`.
pub open spec fn sets_of(labels: Labels) -> Seq<Seq<Seq<char>>> {
    match labels {
        Labels::One(set) => seq![text::texts(set@)],
        Labels::Many(sets) => sets@.map_values(|set: Vec<String>| text::texts(set@)),
    }
}

/// How a message refers to the `[[machine]]` that has this label set.
pub open spec fn set_whose(set: Seq<Seq<char>>) -> Seq<char> {
    "[[machine]] labels = ["@ + text::joined(set, ", "@) + "]"@
}

/// How a message refers to a `[[machine]]`: by its first label set.
pub open spec fn spec_whose(spec: Spec) -> Seq<char> {
    let sets = sets_of(spec.labels);
    set_whose(
        if sets.len() > 0 {
            sets[0]
        } else {
            Seq::empty()
        },
    )
}

pub open spec fn spec_fault(spec: Spec) -> Option<Seq<char>> {
    if spec.allowed_events@.len() == 0 {
        Some(spec_whose(spec) + " has no allowed_events, so nothing could ever use it"@)
    } else if spec.job_timeout_minutes == 0 || spec.job_timeout_minutes >= spec.lifetime_minutes {
        Some(
            spec_whose(spec) + " has job_timeout_minutes = "@ + text::decimal_of(
                spec.job_timeout_minutes as nat,
            ) + ", which must be between 1 and lifetime_minutes ("@ + text::decimal_of(
                spec.lifetime_minutes as nat,
            )
                + ") exclusive, or the machine is destroyed before the runner can fail the job cleanly"@,
        )
    } else {
        None
    }
}

pub open spec fn specs_fault(specs: Seq<Spec>, n: nat) -> Option<Seq<char>>
    decreases n,
{
    if n == 0 {
        None
    } else if specs_fault(specs, (n - 1) as nat) is Some {
        specs_fault(specs, (n - 1) as nat)
    } else {
        spec_fault(specs[n - 1])
    }
}

pub open spec fn grant_whose(key: Seq<char>) -> Seq<char> {
    "[repo."@ + text::debug_text(key) + "]"@
}

pub open spec fn quota_fault(tables: Tables, key: Seq<char>, kind: Provider) -> Option<
    Seq<char>,
> {
    let quotas = tables.grants[key].max_vms@;
    if !quotas.contains_key(kind) {
        None
    } else if !tables.providers.contains_key(kind) {
        Some(undeclared_text(grant_whose(key), kind))
    } else if quotas[kind] == 0 {
        Some(grant_whose(key) + " has max_vms."@ + kinds::provider_name(kind) + " = 0"@)
    } else {
        None
    }
}

pub open spec fn quotas_fault(tables: Tables, key: Seq<char>, n: nat) -> Option<Seq<char>>
    decreases n,
{
    if n == 0 {
        None
    } else if quotas_fault(tables, key, (n - 1) as nat) is Some {
        quotas_fault(tables, key, (n - 1) as nat)
    } else {
        quota_fault(tables, key, kinds::provider_in_place(n - 1))
    }
}

pub open spec fn grants_fault(tables: Tables, n: nat) -> Option<Seq<char>>
    decreases n,
{
    if n == 0 {
        None
    } else if grants_fault(tables, (n - 1) as nat) is Some {
        grants_fault(tables, (n - 1) as nat)
    } else {
        let key = tables.grant_keys[n - 1];
        if tables.grants[key].max_vms@ == Map::<Provider, usize>::empty() {
            Some(grant_whose(key) + " grants no provider, so it could never get a machine"@)
        } else {
            quotas_fault(tables, key, PROVIDERS as nat)
        }
    }
}

/// The first fault of the tables, in the order in which they are read.
pub open spec fn tables_fault(tables: Tables) -> Option<Seq<char>> {
    let prefix = tables.daemon.machine_prefix@;
    if !naming::hostname_label(prefix) {
        Some(
            "machine_prefix "@ + text::debug_text(prefix)
                + " must be a hostname label: lower case letters, digits and hyphens, starting with a letter or digit and not ending in a hyphen"@,
        )
    } else if tables.daemon.runner_version@.len() == 0 || tables.daemon.runner_sha256_amd64@.len()
        == 0 || tables.daemon.runner_sha256_arm64@.len() == 0 {
        Some(
            "daemon.runner_version, daemon.runner_sha256_amd64 and daemon.runner_sha256_arm64 are required"@,
        )
    } else if tables.grant_keys.len() == 0 {
        Some("no [repo] entries: the orchestrator would watch nothing"@)
    } else if tables.providers == Map::<Provider, Host>::empty() {
        Some("no [provider] entries: there is nowhere to create a machine"@)
    } else if tables.machines.len() == 0 {
        Some("no [[machine]] entries: no job could ask for anything"@)
    } else if providers_fault(tables, PROVIDERS as nat) is Some {
        providers_fault(tables, PROVIDERS as nat)
    } else if images_fault(tables, tables.image_keys.len()) is Some {
        images_fault(tables, tables.image_keys.len())
    } else if plans_fault(tables, tables.plan_keys.len()) is Some {
        plans_fault(tables, tables.plan_keys.len())
    } else if specs_fault(tables.machines, tables.machines.len()) is Some {
        specs_fault(tables.machines, tables.machines.len())
    } else {
        grants_fault(tables, tables.grant_keys.len())
    }
}

/// The first of the first `n` labels that is no hostname label, or that is
/// already among the labels before it.
pub open spec fn labels_fault(set: Seq<Seq<char>>, n: nat) -> Option<Seq<char>>
    decreases n,
{
    if n == 0 {
        None
    } else if labels_fault(set, (n - 1) as nat) is Some {
        labels_fault(set, (n - 1) as nat)
    } else {
        let label = set[n - 1];
        if !naming::hostname_label(label) {
            Some(
                set_whose(set) + " carries "@ + text::debug_text(label)
                    + ", which is not a hostname label: a label is copied into a machine name, so it takes lower case letters, digits and hyphens, starting with a letter or digit and not ending in a hyphen"@,
            )
        } else if set.take(n - 1).contains(label) {
            Some(set_whose(set) + " names "@ + label + " twice"@)
        } else {
            None
        }
    }
}

/// The providers whose name is one of the labels.
pub open spec fn named_providers(set: Seq<Seq<char>>) -> Seq<Provider> {
    kinds::kinds_of(
        Set::new(|kind: Provider| set.contains(kinds::provider_name(kind))),
        PROVIDERS as nat,
    )
}

/// The one provider a label set names, which has to be declared.
pub open spec fn set_provider(tables: Tables, set: Seq<Seq<char>>) -> Result<
    Provider,
    Seq<char>,
> {
    let named = named_providers(set);
    if named.len() == 0 {
        Err(
            set_whose(set)
                + " names no provider: one label must be one of cherry, gcore, hetzner, scaleway, vultr"@,
        )
    } else if named.len() > 1 {
        Err(
            set_whose(set) + " names "@ + text::decimal_of(named.len())
                + " providers; a set must name exactly one"@,
        )
    } else if !tables.providers.contains_key(named[0]) {
        Err(undeclared_text(set_whose(set), named[0]))
    } else {
        Ok(named[0])
    }
}

/// The class a label set of a `[[machine]]` stands for.
pub open spec fn resolved(tables: Tables, spec: Spec, set: Seq<Seq<char>>) -> Result<
    ClassView,
    Seq<char>,
> {
    let whose = set_whose(set);
    if set.len() == 0 {
        Err("a [[machine]] has an empty label set: no job could ask for it"@)
    } else if labels_fault(set, set.len()) is Some {
        Err(labels_fault(set, set.len())->0)
    } else if set_provider(tables, set) is Err {
        Err(set_provider(tables, set)->Err_0)
    } else {
        let provider = set_provider(tables, set)->Ok_0;
        let name = kinds::provider_name(provider);
        let image = spec.image@;
        let plans = spec.plans@;
        if !tables.images.contains_key(image) {
            Err(
                whose + " wants image "@ + text::debug_text(image)
                    + ", which no [image] table defines"@,
            )
        } else if !tables.images[image]@.contains_key(provider) {
            Err(
                whose + " wants image "@ + image + ", which [image."@ + image
                    + "] does not define for "@ + name,
            )
        } else if !tables.plans.contains_key(plans) {
            Err(
                whose + " wants plans "@ + text::debug_text(plans)
                    + ", which no [plans] table defines"@,
            )
        } else if !tables.plans[plans]@.contains_key(provider) {
            Err(
                whose + " wants plans "@ + plans + ", which [plans."@ + plans
                    + "] does not define for "@ + name,
            )
        } else {
            Ok(
                ClassView {
                    labels: set,
                    provider,
                    plans: text::texts(tables.plans[plans]@[provider]@),
                    locations: text::texts(tables.providers[provider].locations@),
                    image: tables.images[image]@[provider]@,
                    ssh_key: text::optional(tables.providers[provider].ssh_key),
                    lifetime_minutes: spec.lifetime_minutes,
                    job_timeout_minutes: spec.job_timeout_minutes,
                    allowed_events: text::texts(spec.allowed_events@),
                    allow_fork_pull_request: spec.allow_fork_pull_request,
                },
            )
        }
    }
}

/// The classes of the first `n` label sets of a `[[machine]]`.
pub open spec fn spec_classes(tables: Tables, spec: Spec, n: nat) -> Result<
    Seq<ClassView>,
    Seq<char>,
>
    decreases n,
{
    if n == 0 {
        Ok(Seq::empty())
    } else {
        match spec_classes(tables, spec, (n - 1) as nat) {
            Err(fault) => Err(fault),
            Ok(classes) => match resolved(tables, spec, sets_of(spec.labels)[n - 1]) {
                Err(fault) => Err(fault),
                Ok(class) => Ok(classes.push(class)),
            },
        }
    }
}

/// The classes of the first `n` `[[machine]]` entries, in order.
pub open spec fn enumerated(tables: Tables, n: nat) -> Result<Seq<ClassView>, Seq<char>>
    decreases n,
{
    if n == 0 {
        Ok(Seq::empty())
    } else {
        match enumerated(tables, (n - 1) as nat) {
            Err(fault) => Err(fault),
            Ok(classes) => {
                let spec = tables.machines[n - 1];
                match spec_classes(tables, spec, sets_of(spec.labels).len()) {
                    Err(fault) => Err(fault),
                    Ok(more) => Ok(classes + more),
                }
            },
        }
    }
}

/// The two sets hold the same labels, as often.
pub open spec fn same_labels(a: ClassView, b: ClassView) -> bool {
    a.labels.to_multiset() == b.labels.to_multiset()
}

/// A handle longer than any a machine name carries.
pub open spec fn long_handle() -> Seq<char> {
    "000000000000000000000000000000000000"@
}

/// The class in place `first` is the first with the labels of the one in place `at`.
pub open spec fn first_same(classes: Seq<ClassView>, at: int, first: int) -> bool {
    &&& 0 <= first < at
    &&& same_labels(classes[first], classes[at])
    &&& forall|j: int| 0 <= j < first ==> !same_labels(#[trigger] classes[j], classes[at])
}

/// The name in place `other` is the first that continues the name in place `at`.
pub open spec fn first_longer(names: Seq<Seq<char>>, at: int, other: int) -> bool {
    &&& 0 <= other < names.len()
    &&& continues(names[at], names[other])
    &&& forall|j: int| 0 <= j < other ==> !continues(names[at], #[trigger] names[j])
}

/// `longer` begins with `name` and goes on.
pub open spec fn continues(name: Seq<char>, longer: Seq<char>) -> bool {
    longer != name && name.is_prefix_of(longer)
}

pub open spec fn class_fault(prefix: Seq<char>, classes: Seq<ClassView>, at: int) -> Option<
    Seq<char>,
> {
    let names = super::class_names(classes);
    let name = names[at];
    let size = naming::machine_name_of(prefix, name, long_handle()).len();
    if exists|first: int| first_same(classes, at, first) {
        let first = choose|first: int| first_same(classes, at, first);
        Some(
            "two [[machine]] entries answer to the same label set: "@ + names[first] + " and "@
                + name,
        )
    } else if exists|other: int| first_longer(names, at, other) {
        let other = choose|other: int| first_longer(names, at, other);
        Some(
            "machine name "@ + name + " is a prefix of "@ + names[other]
                + ": a machine name could not be attributed to one of them; write one of the two sets in another order"@,
        )
    } else if size > HOSTNAME_LIMIT {
        Some(
            "machine_prefix "@ + prefix + " and labels "@ + name + " make a "@ + text::decimal_of(
                size,
            ) + "-character machine name, over the 63 hostname limit"@,
        )
    } else {
        None
    }
}

pub open spec fn classes_fault(prefix: Seq<char>, classes: Seq<ClassView>, n: nat) -> Option<
    Seq<char>,
>
    decreases n,
{
    if n == 0 {
        None
    } else if classes_fault(prefix, classes, (n - 1) as nat) is Some {
        classes_fault(prefix, classes, (n - 1) as nat)
    } else {
        class_fault(prefix, classes, n - 1)
    }
}

/// The first fault of a configuration, if it has one.
pub open spec fn fault(tables: Tables) -> Option<Seq<char>> {
    let keys = tables.grant_keys;
    if repos_fault(keys, keys.len()) is Some {
        repos_fault(keys, keys.len())
    } else if tables_fault(tables) is Some {
        tables_fault(tables)
    } else {
        match enumerated(tables, tables.machines.len()) {
            Err(fault) => Some(fault),
            Ok(classes) => classes_fault(
                tables.daemon.machine_prefix@,
                classes,
                classes.len(),
            ),
        }
    }
}

impl Config {
    pub open spec fn tables(&self) -> Tables {
        Tables {
            daemon: self.daemon,
            providers: self.providers@,
            images: self.images@,
            image_keys: self.images.keys(),
            plans: self.plans@,
            plan_keys: self.plans.keys(),
            machines: self.machines@,
            grants: self.grants@,
            grant_keys: self.grants.keys(),
        }
    }

    /// A configuration without a fault, with the repositories and the classes
    /// that its tables define.
    pub open spec fn accepted(&self) -> bool {
        &&& fault(self.tables()) is None
        &&& self.repos@.len() == self.grants.keys().len()
        &&& forall|i: int|
            0 <= i < self.repos@.len() ==> names_repo(
                self.grants.keys()[i],
                (#[trigger] self.repos@[i])@,
            )
        &&& enumerated(self.tables(), self.machines@.len()) == Ok::<Seq<ClassView>, Seq<char>>(
            self.class_views(),
        )
    }
}


/// A `Result` that carries a fault exactly when there is one.
pub open spec fn reports(res: Result<(), String>, fault: Option<Seq<char>>) -> bool {
    match res {
        Ok(()) => fault is None,
        Err(why) => fault == Some(why@),
    }
}

proof fn lemma_repos_fault_stays(keys: Seq<Seq<char>>, at: nat, end: nat)
    requires
        at <= end,
        repos_fault(keys, at) is Some,
    ensures
        repos_fault(keys, end) == repos_fault(keys, at),
    decreases end - at,
{
    if at < end {
        lemma_repos_fault_stays(keys, at + 1, end);
    }
}

proof fn lemma_providers_fault_stays(tables: Tables, at: nat)
    requires
        at <= PROVIDERS,
        providers_fault(tables, at) is Some,
    ensures
        providers_fault(tables, PROVIDERS as nat) == providers_fault(tables, at),
    decreases PROVIDERS - at,
{
    if at < PROVIDERS {
        lemma_providers_fault_stays(tables, at + 1);
    }
}

proof fn lemma_image_ids_fault_stays(tables: Tables, alias: Seq<char>, at: nat)
    requires
        at <= PROVIDERS,
        image_ids_fault(tables, alias, at) is Some,
    ensures
        image_ids_fault(tables, alias, PROVIDERS as nat) == image_ids_fault(tables, alias, at),
    decreases PROVIDERS - at,
{
    if at < PROVIDERS {
        lemma_image_ids_fault_stays(tables, alias, at + 1);
    }
}

proof fn lemma_images_fault_stays(tables: Tables, at: nat, end: nat)
    requires
        at <= end,
        images_fault(tables, at) is Some,
    ensures
        images_fault(tables, end) == images_fault(tables, at),
    decreases end - at,
{
    if at < end {
        lemma_images_fault_stays(tables, at + 1, end);
    }
}

proof fn lemma_ladders_fault_stays(tables: Tables, name: Seq<char>, at: nat)
    requires
        at <= PROVIDERS,
        ladders_fault(tables, name, at) is Some,
    ensures
        ladders_fault(tables, name, PROVIDERS as nat) == ladders_fault(tables, name, at),
    decreases PROVIDERS - at,
{
    if at < PROVIDERS {
        lemma_ladders_fault_stays(tables, name, at + 1);
    }
}

proof fn lemma_plans_fault_stays(tables: Tables, at: nat, end: nat)
    requires
        at <= end,
        plans_fault(tables, at) is Some,
    ensures
        plans_fault(tables, end) == plans_fault(tables, at),
    decreases end - at,
{
    if at < end {
        lemma_plans_fault_stays(tables, at + 1, end);
    }
}

proof fn lemma_specs_fault_stays(specs: Seq<Spec>, at: nat)
    requires
        at <= specs.len(),
        specs_fault(specs, at) is Some,
    ensures
        specs_fault(specs, specs.len() as nat) == specs_fault(specs, at),
    decreases specs.len() - at,
{
    if at < specs.len() {
        lemma_specs_fault_stays(specs, at + 1);
    }
}

proof fn lemma_quotas_fault_stays(tables: Tables, key: Seq<char>, at: nat)
    requires
        at <= PROVIDERS,
        quotas_fault(tables, key, at) is Some,
    ensures
        quotas_fault(tables, key, PROVIDERS as nat) == quotas_fault(tables, key, at),
    decreases PROVIDERS - at,
{
    if at < PROVIDERS {
        lemma_quotas_fault_stays(tables, key, at + 1);
    }
}

proof fn lemma_grants_fault_stays(tables: Tables, at: nat, end: nat)
    requires
        at <= end,
        grants_fault(tables, at) is Some,
    ensures
        grants_fault(tables, end) == grants_fault(tables, at),
    decreases end - at,
{
    if at < end {
        lemma_grants_fault_stays(tables, at + 1, end);
    }
}

/// The repository a key names.
fn repo_of(key: &str) -> (res: Option<Repo>)
    ensures
        match res {
            Some(repo) => names_repo(key@, repo@),
            None => !is_repo_key(key@),
        },
{
    let parts = text::split_once(key, '/');
    proof {
        reveal_strlit("/");
        assert("/"@ =~= seq!['/']);
        assert forall|repo: RepoView| names_repo(key@, repo) implies match parts {
            Some((owner, name)) => repo.owner == owner@ && repo.name == name@,
            None => false,
        } by {
            match parts {
                Some((owner, name)) => {
                    text::lemma_split_unique(repo.owner, repo.name, owner@, name@, '/');
                },
                None => {
                    assert(key@[repo.owner.len() as int] == '/');
                },
            }
        }
    }
    match parts {
        Some((owner, name)) => {
            let further = text::split_once(name, '/');
            proof {
                if let Some((head, _)) = further {
                    assert(name@[head@.len() as int] == '/');
                }
            }
            if owner.is_empty() || name.is_empty() || further.is_some() {
                None
            } else {
                let repo = Repo { owner: owner.to_owned(), name: name.to_owned() };
                proof {
                    assert(key@ == repo@.full_name());
                }
                Some(repo)
            }
        },
        None => None,
    }
}

impl Labels {
    /// How many label sets there are.
    pub(super) fn count(&self) -> (res: usize)
        ensures
            res == sets_of(*self).len(),
    {
        match self {
            Labels::One(_) => 1,
            Labels::Many(sets) => sets.len(),
        }
    }

    /// The label set in place `at`.
    pub fn set_at(&self, at: usize) -> (res: &[String])
        requires
            at < sets_of(*self).len(),
        ensures
            text::texts(res@) == sets_of(*self)[at as int],
    {
        match self {
            Labels::One(set) => set.as_slice(),
            Labels::Many(sets) => sets[at].as_slice(),
        }
    }
}

/// How a message refers to the `[[machine]]` that has this label set.
pub(super) fn whose_set(set: &[String]) -> (res: String)
    ensures
        res@ == set_whose(text::texts(set@)),
{
    let listed = text::join(set, ", ");
    "[[machine]] labels = [".to_owned().concat(listed.as_str()).concat("]")
}

impl Spec {
    /// How a message refers to this `[[machine]]`.
    fn whose(&self) -> (res: String)
        ensures
            res@ == spec_whose(*self),
    {
        if self.labels.count() > 0 {
            whose_set(self.labels.set_at(0))
        } else {
            let none: Vec<String> = Vec::new();
            proof {
                assert(text::texts(none@) =~= Seq::<Seq<char>>::empty());
            }
            whose_set(none.as_slice())
        }
    }
}

impl Config {
    pub(super) fn declared(&self, kind: Provider, whose: &str) -> (res: Result<(), String>)
        ensures
            reports(
                res,
                if self.providers@.contains_key(kind) {
                    None
                } else {
                    Some(undeclared_text(whose@, kind))
                },
            ),
    {
        if self.providers.contains_key(kind) {
            Ok(())
        } else {
            let name = kind.as_str();
            Err(
                whose.to_owned().concat(" names ").concat(name).concat(
                    ", which has no [provider.",
                ).concat(name).concat("] table"),
            )
        }
    }

    pub(super) fn parse_repos(&self) -> (res: Result<Vec<Repo>, String>)
        ensures
            match res {
                Ok(repos) => {
                    &&& repos_fault(self.grants.keys(), self.grants.keys().len()) is None
                    &&& repos@.len() == self.grants.keys().len()
                    &&& forall|i: int|
                        0 <= i < repos@.len() ==> names_repo(
                            self.grants.keys()[i],
                            (#[trigger] repos@[i])@,
                        )
                },
                Err(why) => repos_fault(self.grants.keys(), self.grants.keys().len()) == Some(
                    why@,
                ),
            },
    {
        let mut repos: Vec<Repo> = Vec::new();
        let count: usize = self.grants.len();
        let ghost keys = self.grants.keys();
        let mut i: usize = 0;
        while i < count
            invariant
                i <= count == keys.len(),
                keys == self.grants.keys(),
                repos@.len() == i,
                repos_fault(keys, i as nat) is None,
                forall|j: int| 0 <= j < i ==> names_repo(keys[j], (#[trigger] repos@[j])@),
            decreases count - i,
        {
            let key = self.grants.key_at(i);
            match repo_of(key) {
                Some(repo) => {
                    proof {
                        assert(is_repo_key(keys[i as int]));
                    }
                    repos.push(repo);
                },
                None => {
                    let shown = text::quoted(key);
                    let why = "[repo.".to_owned().concat(shown.as_str()).concat(
                        "] must be named \"owner/name\"",
                    );
                    proof {
                        assert(repos_fault(keys, (i + 1) as nat) == Some(why@));
                        lemma_repos_fault_stays(keys, (i + 1) as nat, count as nat);
                    }
                    return Err(why);
                },
            }
            i += 1;
        }
        Ok(repos)
    }

    fn validate_providers(&self) -> (res: Result<(), String>)
        ensures
            reports(res, providers_fault(self.tables(), PROVIDERS as nat)),
    {
        let mut at: usize = 0;
        while at < PROVIDERS
            invariant
                at <= PROVIDERS,
                providers_fault(self.tables(), at as nat) is None,
            decreases PROVIDERS - at,
        {
            let kind = Provider::in_place(at);
            if let Some(host) = self.providers.get(kind) {
                let whose = "[provider.".to_owned().concat(kind.as_str());
                if host.locations.len() == 0 {
                    let why = whose.concat("] has no locations");
                    proof {
                        lemma_providers_fault_stays(self.tables(), (at + 1) as nat);
                    }
                    return Err(why);
                }
                proof {
                    reveal_strlit("");
                    assert(""@ =~= Seq::<char>::empty());
                }
                if text::holds(host.locations.as_slice(), "") {
                    let why = whose.concat("] has an empty location");
                    proof {
                        lemma_providers_fault_stays(self.tables(), (at + 1) as nat);
                    }
                    return Err(why);
                }
            }
            at += 1;
        }
        Ok(())
    }

    /// The ids of one image, provider by provider.
    fn validate_image_ids(&self, alias: &str, ids: &PerProvider<String>) -> (res: Result<
        (),
        String,
    >)
        requires
            self.images@.contains_key(alias@),
            *ids == self.images@[alias@],
        ensures
            reports(res, image_ids_fault(self.tables(), alias@, PROVIDERS as nat)),
    {
        let whose = "[image.".to_owned().concat(alias).concat("]");
        let mut at: usize = 0;
        while at < PROVIDERS
            invariant
                at <= PROVIDERS,
                *ids == self.images@[alias@],
                whose@ == image_whose(alias@),
                image_ids_fault(self.tables(), alias@, at as nat) is None,
            decreases PROVIDERS - at,
        {
            let kind = Provider::in_place(at);
            if let Some(id) = ids.get(kind) {
                if let Err(why) = self.declared(kind, whose.as_str()) {
                    proof {
                        lemma_image_ids_fault_stays(self.tables(), alias@, (at + 1) as nat);
                    }
                    return Err(why);
                }
                if id.as_str().is_empty() {
                    let why = whose.concat(" has an empty id for ").concat(kind.as_str());
                    proof {
                        lemma_image_ids_fault_stays(self.tables(), alias@, (at + 1) as nat);
                    }
                    return Err(why);
                }
            }
            at += 1;
        }
        Ok(())
    }

    fn validate_images(&self) -> (res: Result<(), String>)
        ensures
            reports(res, images_fault(self.tables(), self.images.keys().len())),
    {
        let count: usize = self.images.len();
        let mut i: usize = 0;
        while i < count
            invariant
                i <= count == self.images.keys().len(),
                images_fault(self.tables(), i as nat) is None,
            decreases count - i,
        {
            let alias = self.images.key_at(i);
            let ids = self.images.value_at(i);
            if ids.is_empty() {
                let why = "[image.".to_owned().concat(alias).concat("]").concat(
                    " names no provider",
                );
                proof {
                    lemma_images_fault_stays(self.tables(), (i + 1) as nat, count as nat);
                }
                return Err(why);
            }
            if let Err(why) = self.validate_image_ids(alias, ids) {
                proof {
                    lemma_images_fault_stays(self.tables(), (i + 1) as nat, count as nat);
                }
                return Err(why);
            }
            i += 1;
        }
        Ok(())
    }

    /// The plans of one name, provider by provider.
    fn validate_ladders(&self, name: &str, ladders: &PerProvider<Vec<String>>) -> (res: Result<
        (),
        String,
    >)
        requires
            self.plans@.contains_key(name@),
            *ladders == self.plans@[name@],
        ensures
            reports(res, ladders_fault(self.tables(), name@, PROVIDERS as nat)),
    {
        let whose = "[plans.".to_owned().concat(name).concat("]");
        let mut at: usize = 0;
        while at < PROVIDERS
            invariant
                at <= PROVIDERS,
                *ladders == self.plans@[name@],
                whose@ == plans_whose(name@),
                ladders_fault(self.tables(), name@, at as nat) is None,
            decreases PROVIDERS - at,
        {
            let kind = Provider::in_place(at);
            if let Some(plans) = ladders.get(kind) {
                if let Err(why) = self.declared(kind, whose.as_str()) {
                    proof {
                        lemma_ladders_fault_stays(self.tables(), name@, (at + 1) as nat);
                    }
                    return Err(why);
                }
                if plans.len() == 0 {
                    let why = whose.concat(" has no plans for ").concat(kind.as_str());
                    proof {
                        lemma_ladders_fault_stays(self.tables(), name@, (at + 1) as nat);
                    }
                    return Err(why);
                }
            }
            at += 1;
        }
        Ok(())
    }

    fn validate_plans(&self) -> (res: Result<(), String>)
        ensures
            reports(res, plans_fault(self.tables(), self.plans.keys().len())),
    {
        let count: usize = self.plans.len();
        let mut i: usize = 0;
        while i < count
            invariant
                i <= count == self.plans.keys().len(),
                plans_fault(self.tables(), i as nat) is None,
            decreases count - i,
        {
            let name = self.plans.key_at(i);
            let ladders = self.plans.value_at(i);
            if ladders.is_empty() {
                let why = "[plans.".to_owned().concat(name).concat("]").concat(
                    " names no provider",
                );
                proof {
                    lemma_plans_fault_stays(self.tables(), (i + 1) as nat, count as nat);
                }
                return Err(why);
            }
            if let Err(why) = self.validate_ladders(name, ladders) {
                proof {
                    lemma_plans_fault_stays(self.tables(), (i + 1) as nat, count as nat);
                }
                return Err(why);
            }
            i += 1;
        }
        Ok(())
    }

    fn validate_specs(&self) -> (res: Result<(), String>)
        ensures
            reports(res, specs_fault(self.machines@, self.machines@.len())),
    {
        let mut i: usize = 0;
        while i < self.machines.len()
            invariant
                i <= self.machines@.len(),
                specs_fault(self.machines@, i as nat) is None,
            decreases self.machines@.len() - i,
        {
            let spec = &self.machines[i];
            if spec.allowed_events.len() == 0 {
                let why = spec.whose().concat(
                    " has no allowed_events, so nothing could ever use it",
                );
                proof {
                    lemma_specs_fault_stays(self.machines@, (i + 1) as nat);
                }
                return Err(why);
            }
            if spec.job_timeout_minutes == 0 || spec.job_timeout_minutes >= spec.lifetime_minutes {
                let timeout = text::decimal(spec.job_timeout_minutes);
                let lifetime = text::decimal(spec.lifetime_minutes);
                let why = spec.whose().concat(" has job_timeout_minutes = ").concat(
                    timeout.as_str(),
                ).concat(", which must be between 1 and lifetime_minutes (").concat(
                    lifetime.as_str(),
                ).concat(
                    ") exclusive, or the machine is destroyed before the runner can fail the job cleanly",
                );
                proof {
                    lemma_specs_fault_stays(self.machines@, (i + 1) as nat);
                }
                return Err(why);
            }
            i += 1;
        }
        Ok(())
    }

    /// The quotas of one repository, provider by provider.
    fn validate_quotas(&self, key: &str, grant: &Grant) -> (res: Result<(), String>)
        requires
            self.grants@.contains_key(key@),
            *grant == self.grants@[key@],
        ensures
            reports(res, quotas_fault(self.tables(), key@, PROVIDERS as nat)),
    {
        let shown = text::quoted(key);
        let whose = "[repo.".to_owned().concat(shown.as_str()).concat("]");
        let mut at: usize = 0;
        while at < PROVIDERS
            invariant
                at <= PROVIDERS,
                *grant == self.grants@[key@],
                whose@ == grant_whose(key@),
                quotas_fault(self.tables(), key@, at as nat) is None,
            decreases PROVIDERS - at,
        {
            let kind = Provider::in_place(at);
            if let Some(max) = grant.max_vms.get(kind) {
                if let Err(why) = self.declared(kind, whose.as_str()) {
                    proof {
                        lemma_quotas_fault_stays(self.tables(), key@, (at + 1) as nat);
                    }
                    return Err(why);
                }
                if *max == 0 {
                    let why = whose.concat(" has max_vms.").concat(kind.as_str()).concat(" = 0");
                    proof {
                        lemma_quotas_fault_stays(self.tables(), key@, (at + 1) as nat);
                    }
                    return Err(why);
                }
            }
            at += 1;
        }
        Ok(())
    }

    fn validate_grants(&self) -> (res: Result<(), String>)
        ensures
            reports(res, grants_fault(self.tables(), self.grants.keys().len())),
    {
        let count: usize = self.grants.len();
        let mut i: usize = 0;
        while i < count
            invariant
                i <= count == self.grants.keys().len(),
                grants_fault(self.tables(), i as nat) is None,
            decreases count - i,
        {
            let key = self.grants.key_at(i);
            let grant = self.grants.value_at(i);
            if grant.max_vms.is_empty() {
                let shown = text::quoted(key);
                let why = "[repo.".to_owned().concat(shown.as_str()).concat("]").concat(
                    " grants no provider, so it could never get a machine",
                );
                proof {
                    lemma_grants_fault_stays(self.tables(), (i + 1) as nat, count as nat);
                }
                return Err(why);
            }
            if let Err(why) = self.validate_quotas(key, grant) {
                proof {
                    lemma_grants_fault_stays(self.tables(), (i + 1) as nat, count as nat);
                }
                return Err(why);
            }
            i += 1;
        }
        Ok(())
    }

    pub(super) fn validate(&self) -> (res: Result<(), String>)
        ensures
            reports(res, tables_fault(self.tables())),
    {
        let prefix = self.machine_prefix();
        if !naming::is_hostname_label(prefix) {
            let shown = text::quoted(prefix);
            return Err(
                "machine_prefix ".to_owned().concat(shown.as_str()).concat(
                    " must be a hostname label: lower case letters, digits and hyphens, starting with a letter or digit and not ending in a hyphen",
                ),
            );
        }
        if self.daemon.runner_version.as_str().is_empty()
            || self.daemon.runner_sha256_amd64.as_str().is_empty()
            || self.daemon.runner_sha256_arm64.as_str().is_empty() {
            return Err(
                "daemon.runner_version, daemon.runner_sha256_amd64 and daemon.runner_sha256_arm64 are required".to_owned(),
            );
        }
        if self.grants.is_empty() {
            return Err("no [repo] entries: the orchestrator would watch nothing".to_owned());
        }
        if self.providers.is_empty() {
            return Err("no [provider] entries: there is nowhere to create a machine".to_owned());
        }
        if self.machines.len() == 0 {
            return Err("no [[machine]] entries: no job could ask for anything".to_owned());
        }
        self.validate_providers()?;
        self.validate_images()?;
        self.validate_plans()?;
        self.validate_specs()?;
        self.validate_grants()
    }
}

} // verus!
