//! Accepting a configuration, and what holds of every accepted one.

use vstd::prelude::*;

use super::check;
use super::kinds;
use super::kinds::{Provider, PROVIDERS};
use super::{ClassView, Config, Spec};
use crate::naming;
use crate::text;

verus! {

/// A class without a repeated label has the labels a job asks for, whatever the
/// job repeats, exactly when the two hold the same labels.
proof fn lemma_matches_all(labels: Seq<Seq<char>>, runs_on: Seq<Seq<char>>)
    requires
        labels.no_duplicates(),
        runs_on.len() == labels.len(),
        forall|i: int| 0 <= i < labels.len() ==> runs_on.contains(#[trigger] labels[i]),
    ensures
        labels.to_set() == runs_on.to_set(),
        runs_on.no_duplicates(),
{
    broadcast use vstd::seq_lib::seq_to_set_is_finite;

    labels.unique_seq_to_set();
    runs_on.lemma_cardinality_of_set();
    assert(labels.to_set().subset_of(runs_on.to_set())) by {
        assert forall|label: Seq<char>| labels.to_set().contains(label) implies
            runs_on.to_set().contains(label) by {
            let at = choose|at: int| 0 <= at < labels.len() && labels[at] == label;
            assert(runs_on.contains(labels[at]));
        }
    }
    vstd::set_lib::lemma_len_subset(labels.to_set(), runs_on.to_set());
    vstd::set_lib::lemma_subset_equality(labels.to_set(), runs_on.to_set());
    runs_on.lemma_no_dup_set_cardinality();
}

/// Two lists without repetition that hold the same items hold them as often.
pub(super) proof fn lemma_same_set_same_multiset(a: Seq<Seq<char>>, b: Seq<Seq<char>>)
    requires
        a.no_duplicates(),
        b.no_duplicates(),
        a.to_set() == b.to_set(),
    ensures
        a.to_multiset() == b.to_multiset(),
{
    a.to_multiset_ensures();
    b.to_multiset_ensures();
    a.lemma_multiset_has_no_duplicates();
    b.lemma_multiset_has_no_duplicates();
    assert forall|x: Seq<char>| a.to_multiset().count(x) == b.to_multiset().count(x) by {
        assert(a.to_set().contains(x) <==> a.contains(x));
        assert(b.to_set().contains(x) <==> b.contains(x));
        assert(a.to_multiset().contains(x) <==> a.to_multiset().count(x) > 0);
        assert(b.to_multiset().contains(x) <==> b.to_multiset().count(x) > 0);
    }
    assert(a.to_multiset() =~= b.to_multiset());
}

proof fn lemma_matches_is_same(a: ClassView, b: ClassView)
    requires
        a.labels.no_duplicates(),
        b.labels.no_duplicates(),
    ensures
        a.matches(b.labels) <==> check::same_labels(a, b),
{
    a.labels.to_multiset_ensures();
    b.labels.to_multiset_ensures();
    if a.matches(b.labels) {
        lemma_matches_all(a.labels, b.labels);
        lemma_same_set_same_multiset(a.labels, b.labels);
    }
    if check::same_labels(a, b) {
        assert forall|i: int| 0 <= i < a.labels.len() implies b.labels.contains(
            #[trigger] a.labels[i],
        ) by {
            assert(a.labels.contains(a.labels[i]));
            assert(a.labels.to_multiset().count(a.labels[i]) > 0);
        }
    }
}

/// The first `n` labels of a set without a fault.
pub(super) proof fn lemma_labels(set: Seq<Seq<char>>, n: nat)
    requires
        n <= set.len(),
        check::labels_fault(set, n) is None,
    ensures
        set.take(n as int).no_duplicates(),
        forall|i: int| 0 <= i < n ==> naming::hostname_label(#[trigger] set[i]),
    decreases n,
{
    if n > 0 {
        lemma_labels(set, (n - 1) as nat);
        let shorter = set.take(n - 1);
        let longer = set.take(n as int);
        assert forall|i: int, j: int|
            0 <= i < longer.len() && 0 <= j < longer.len() && i != j implies longer[i]
            != longer[j] by {
            if i < n - 1 && j < n - 1 {
                assert(shorter[i] == longer[i] && shorter[j] == longer[j]);
            } else if i < n - 1 {
                assert(shorter[i] == longer[i]);
                assert(shorter.contains(longer[i]));
            } else {
                assert(shorter[j] == longer[j]);
                assert(shorter.contains(longer[j]));
            }
        }
    }
}

/// The class stands for a label set of the `[[machine]]` in place `at`.
pub open spec fn stands_for(tables: check::Tables, class: ClassView, at: int) -> bool {
    &&& 0 <= at < tables.machines.len()
    &&& check::resolved(tables, tables.machines[at], class.labels) == Ok::<ClassView, Seq<char>>(
        class,
    )
}

/// The class stands for a label set of some `[[machine]]`.
pub open spec fn is_defined(tables: check::Tables, class: ClassView) -> bool {
    exists|at: int| stands_for(tables, class, at)
}

proof fn lemma_spec_classes(tables: check::Tables, at: int, n: nat)
    requires
        0 <= at < tables.machines.len(),
        check::spec_classes(tables, tables.machines[at], n) is Ok,
    ensures
        forall|i: int|
            0 <= i < check::spec_classes(tables, tables.machines[at], n)->Ok_0.len() ==> stands_for(
                tables,
                #[trigger] check::spec_classes(tables, tables.machines[at], n)->Ok_0[i],
                at,
            ),
    decreases n,
{
    if n > 0 {
        lemma_spec_classes(tables, at, (n - 1) as nat);
    }
}

proof fn lemma_enumerated(tables: check::Tables, n: nat)
    requires
        n <= tables.machines.len(),
        check::enumerated(tables, n) is Ok,
    ensures
        forall|i: int|
            0 <= i < check::enumerated(tables, n)->Ok_0.len() ==> is_defined(
                tables,
                #[trigger] check::enumerated(tables, n)->Ok_0[i],
            ),
    decreases n,
{
    if n > 0 {
        lemma_enumerated(tables, (n - 1) as nat);
        let at = n - 1;
        let spec = tables.machines[at];
        let count = check::sets_of(spec.labels).len();
        lemma_spec_classes(tables, at, count);
        let known = check::enumerated(tables, at as nat)->Ok_0;
        let more = check::spec_classes(tables, spec, count)->Ok_0;
        let all = check::enumerated(tables, n)->Ok_0;
        assert forall|i: int| 0 <= i < all.len() implies is_defined(
            tables,
            #[trigger] all[i],
        ) by {
            if i < known.len() {
                assert(all[i] == known[i]);
            } else {
                assert(all[i] == more[i - known.len()]);
                assert(stands_for(tables, all[i], at));
            }
        }
    }
}

/// Every class that the tables define has distinct labels that are hostname labels.
proof fn lemma_classes(tables: check::Tables, i: int)
    requires
        check::enumerated(tables, tables.machines.len()) is Ok,
        0 <= i < check::enumerated(tables, tables.machines.len())->Ok_0.len(),
    ensures
        ({
            let class = check::enumerated(tables, tables.machines.len())->Ok_0[i];
            &&& class.labels.len() > 0
            &&& class.labels.no_duplicates()
            &&& forall|j: int|
                0 <= j < class.labels.len() ==> naming::hostname_label(
                    #[trigger] class.labels[j],
                )
        }),
{
    lemma_enumerated(tables, tables.machines.len());
    let class = check::enumerated(tables, tables.machines.len())->Ok_0[i];
    assert(is_defined(tables, class));
    let at = choose|at: int| stands_for(tables, class, at);
    assert(stands_for(tables, class, at));
    lemma_labels(class.labels, class.labels.len());
    assert(class.labels.take(class.labels.len() as int) =~= class.labels);
}

proof fn lemma_first_same_is_one(classes: Seq<ClassView>, at: int, a: int, b: int)
    requires
        check::first_same(classes, at, a),
        check::first_same(classes, at, b),
    ensures
        a == b,
{
}

proof fn lemma_first_longer_is_one(names: Seq<Seq<char>>, at: int, a: int, b: int)
    requires
        check::first_longer(names, at, a),
        check::first_longer(names, at, b),
    ensures
        a == b,
{
}

proof fn lemma_classes_fault_stays(prefix: Seq<char>, classes: Seq<ClassView>, at: nat)
    requires
        at <= classes.len(),
        check::classes_fault(prefix, classes, at) is Some,
    ensures
        check::classes_fault(prefix, classes, classes.len()) == check::classes_fault(
            prefix,
            classes,
            at,
        ),
    decreases classes.len() - at,
{
    if at < classes.len() {
        lemma_classes_fault_stays(prefix, classes, at + 1);
    }
}

impl Config {
    /// The first class with the labels of the one in place `at`, before it.
    fn first_same(&self, at: usize) -> (res: Option<usize>)
        requires
            at < self.classes@.len(),
            forall|i: int|
                0 <= i < self.classes@.len() ==> (#[trigger] self.class_views()[i]).labels.no_duplicates(),
        ensures
            match res {
                Some(first) => check::first_same(self.class_views(), at as int, first as int),
                None => forall|first: int|
                    !check::first_same(self.class_views(), at as int, first),
            },
    {
        let ghost views = self.class_views();
        let mut j: usize = 0;
        while j < at
            invariant
                j <= at < self.classes@.len(),
                views == self.class_views(),
                forall|i: int|
                    0 <= i < views.len() ==> (#[trigger] views[i]).labels.no_duplicates(),
                forall|k: int|
                    0 <= k < j ==> !check::same_labels(#[trigger] views[k], views[at as int]),
            decreases at - j,
        {
            proof {
                assert(views[j as int] == self.classes@[j as int]@);
                assert(views[at as int] == self.classes@[at as int]@);
                lemma_matches_is_same(views[j as int], views[at as int]);
            }
            if self.classes[j].matches(self.classes[at].labels.as_slice()) {
                return Some(j);
            }
            j += 1;
        }
        None
    }

    fn validate_classes(&self) -> (res: Result<(), String>)
        requires
            forall|i: int|
                0 <= i < self.classes@.len() ==> (#[trigger] self.class_views()[i]).labels.no_duplicates(),
        ensures
            check::reports(
                res,
                check::classes_fault(
                    self.daemon.machine_prefix@,
                    self.class_views(),
                    self.classes@.len(),
                ),
            ),
    {
        let prefix = self.machine_prefix();
        let names = self.entry_names();
        let ghost views = self.class_views();
        proof {
            assert(text::texts(names@).len() == names@.len());
        }
        let mut at: usize = 0;
        while at < self.classes.len()
            invariant
                at <= self.classes@.len() == views.len(),
                views == self.class_views(),
                prefix@ == self.daemon.machine_prefix@,
                text::texts(names@) == super::class_names(views),
                names@.len() == views.len(),
                forall|i: int|
                    0 <= i < views.len() ==> (#[trigger] views[i]).labels.no_duplicates(),
                check::classes_fault(prefix@, views, at as nat) is None,
            decreases self.classes@.len() - at,
        {
            let name = names[at].as_str();
            proof {
                assert(name@ == text::texts(names@)[at as int]);
            }
            if let Some(first) = self.first_same(at) {
                let why = "two [[machine]] entries answer to the same label set: ".to_owned().concat(
                    names[first].as_str(),
                ).concat(" and ").concat(name);
                proof {
                    let chosen = choose|first: int| check::first_same(views, at as int, first);
                    lemma_first_same_is_one(views, at as int, first as int, chosen);
                    assert(text::texts(names@)[first as int] == names@[first as int]@);
                    lemma_classes_fault_stays(prefix@, views, (at + 1) as nat);
                }
                return Err(why);
            }
            if let Some(other) = first_longer(names.as_slice(), at) {
                let why = "machine name ".to_owned().concat(name).concat(
                    " is a prefix of ",
                ).concat(names[other].as_str()).concat(
                    ": a machine name could not be attributed to one of them; write one of the two sets in another order",
                );
                proof {
                    let all = super::class_names(views);
                    let chosen = choose|other: int| check::first_longer(all, at as int, other);
                    lemma_first_longer_is_one(all, at as int, other as int, chosen);
                    assert(text::texts(names@)[other as int] == names@[other as int]@);
                    lemma_classes_fault_stays(prefix@, views, (at + 1) as nat);
                }
                return Err(why);
            }
            let longest = naming::machine_name(
                prefix,
                name,
                "000000000000000000000000000000000000",
            );
            let size: usize = longest.as_str().unicode_len();
            if size > check::HOSTNAME_LIMIT {
                let shown = text::decimal(size as u64);
                let why = "machine_prefix ".to_owned().concat(prefix).concat(
                    " and labels ",
                ).concat(name).concat(" make a ").concat(shown.as_str()).concat(
                    "-character machine name, over the 63 hostname limit",
                );
                proof {
                    lemma_classes_fault_stays(prefix@, views, (at + 1) as nat);
                }
                return Err(why);
            }
            at += 1;
        }
        Ok(())
    }

    /// The configuration with its repositories and its classes, or its first fault.
    ///
    /// `config` is what was read: whatever repositories and classes it holds are
    /// replaced by those that its tables define.
    pub fn parse(config: Config) -> (res: Result<Config, String>)
        ensures
            match res {
                Ok(accepted) => {
                    &&& check::fault(config.tables()) is None
                    &&& accepted.accepted()
                    &&& accepted.tables() == config.tables()
                    &&& accepted.forgejo == config.forgejo
                    &&& accepted.alert == config.alert
                },
                Err(why) => check::fault(config.tables()) == Some(why@),
            },
    {
        let mut config = config;
        let ghost tables = config.tables();
        config.repos = config.parse_repos()?;
        config.validate()?;
        config.classes = config.enumerate()?;
        proof {
            assert(config.tables() == tables);
            assert forall|i: int| 0 <= i < config.classes@.len() implies (
            #[trigger] config.class_views()[i]).labels.no_duplicates() by {
                lemma_classes(tables, i);
            }
        }
        config.validate_classes()?;
        Ok(config)
    }
}

/// The first name that goes on where the one in place `at` ends.
fn first_longer(names: &[String], at: usize) -> (res: Option<usize>)
    requires
        at < names@.len(),
    ensures
        match res {
            Some(other) => check::first_longer(
                text::texts(names@),
                at as int,
                other as int,
            ) && other < names@.len(),
            None => forall|other: int|
                !check::first_longer(text::texts(names@), at as int, other),
        },
{
    let ghost all = text::texts(names@);
    let name = names[at].as_str();
    let mut j: usize = 0;
    while j < names.len()
        invariant
            j <= names@.len(),
            at < names@.len(),
            all == text::texts(names@),
            name@ == all[at as int],
            forall|k: int| 0 <= k < j ==> !check::continues(name@, #[trigger] all[k]),
        decreases names@.len() - j,
    {
        let other = names[j].as_str();
        proof {
            assert(other@ == all[j as int]);
        }
        if !text::same(other, name) && text::starts_with(other, name) {
            return Some(j);
        }
        j += 1;
    }
    None
}

pub(crate) proof fn lemma_kinds_of(chosen: Set<Provider>, n: nat)
    requires
        n <= PROVIDERS,
    ensures
        forall|kind: Provider| #[trigger]
            kinds::kinds_of(chosen, n).contains(kind) <==> chosen.contains(kind) && kinds::place_of(kind)
                < n,
    decreases n,
{
    if n > 0 {
        let rest = kinds::kinds_of(chosen, (n - 1) as nat);
        lemma_kinds_of(chosen, (n - 1) as nat);
        text::lemma_contains_push(rest, kinds::provider_in_place(n - 1));
    }
}

pub(super) proof fn lemma_provider_sound(tables: check::Tables, kind: Provider, n: nat)
    requires
        kinds::place_of(kind) < n <= PROVIDERS,
        check::providers_fault(tables, n) is None,
    ensures
        check::provider_fault(tables, kind) is None,
    decreases n,
{
    kinds::lemma_place_of(kind);
    if kinds::place_of(kind) < n - 1 {
        lemma_provider_sound(tables, kind, (n - 1) as nat);
    }
}

proof fn lemma_image_id_sound(tables: check::Tables, alias: Seq<char>, kind: Provider, n: nat)
    requires
        kinds::place_of(kind) < n <= PROVIDERS,
        check::image_ids_fault(tables, alias, n) is None,
    ensures
        check::image_fault(tables, alias, kind) is None,
    decreases n,
{
    kinds::lemma_place_of(kind);
    if kinds::place_of(kind) < n - 1 {
        lemma_image_id_sound(tables, alias, kind, (n - 1) as nat);
    }
}

pub(super) proof fn lemma_image_sound(tables: check::Tables, at: int, kind: Provider, n: nat)
    requires
        0 <= at < n,
        check::images_fault(tables, n) is None,
    ensures
        check::image_fault(tables, tables.image_keys[at], kind) is None,
        tables.images[tables.image_keys[at]]@ != Map::<Provider, String>::empty(),
    decreases n,
{
    if at < n - 1 {
        lemma_image_sound(tables, at, kind, (n - 1) as nat);
    } else {
        kinds::lemma_place_of(kind);
        lemma_image_id_sound(tables, tables.image_keys[at], kind, PROVIDERS as nat);
    }
}

proof fn lemma_ladder_sound(tables: check::Tables, name: Seq<char>, kind: Provider, n: nat)
    requires
        kinds::place_of(kind) < n <= PROVIDERS,
        check::ladders_fault(tables, name, n) is None,
    ensures
        check::ladder_fault(tables, name, kind) is None,
    decreases n,
{
    kinds::lemma_place_of(kind);
    if kinds::place_of(kind) < n - 1 {
        lemma_ladder_sound(tables, name, kind, (n - 1) as nat);
    }
}

pub(super) proof fn lemma_plans_sound(tables: check::Tables, at: int, kind: Provider, n: nat)
    requires
        0 <= at < n,
        check::plans_fault(tables, n) is None,
    ensures
        check::ladder_fault(tables, tables.plan_keys[at], kind) is None,
        tables.plans[tables.plan_keys[at]]@ != Map::<Provider, Vec<String>>::empty(),
    decreases n,
{
    if at < n - 1 {
        lemma_plans_sound(tables, at, kind, (n - 1) as nat);
    } else {
        kinds::lemma_place_of(kind);
        lemma_ladder_sound(tables, tables.plan_keys[at], kind, PROVIDERS as nat);
    }
}

pub(super) proof fn lemma_spec_sound(specs: Seq<Spec>, at: int, n: nat)
    requires
        0 <= at < n,
        check::specs_fault(specs, n) is None,
    ensures
        check::spec_fault(specs[at]) is None,
    decreases n,
{
    if at < n - 1 {
        lemma_spec_sound(specs, at, (n - 1) as nat);
    }
}

proof fn lemma_quota_sound(tables: check::Tables, key: Seq<char>, kind: Provider, n: nat)
    requires
        kinds::place_of(kind) < n <= PROVIDERS,
        check::quotas_fault(tables, key, n) is None,
    ensures
        check::quota_fault(tables, key, kind) is None,
    decreases n,
{
    kinds::lemma_place_of(kind);
    if kinds::place_of(kind) < n - 1 {
        lemma_quota_sound(tables, key, kind, (n - 1) as nat);
    }
}

pub(super) proof fn lemma_grant_sound(tables: check::Tables, at: int, kind: Provider, n: nat)
    requires
        0 <= at < n,
        check::grants_fault(tables, n) is None,
    ensures
        check::quota_fault(tables, tables.grant_keys[at], kind) is None,
        tables.grants[tables.grant_keys[at]].max_vms@ != Map::<Provider, usize>::empty(),
    decreases n,
{
    if at < n - 1 {
        lemma_grant_sound(tables, at, kind, (n - 1) as nat);
    } else {
        kinds::lemma_place_of(kind);
        lemma_quota_sound(tables, tables.grant_keys[at], kind, PROVIDERS as nat);
    }
}

pub(super) proof fn lemma_class_sound(prefix: Seq<char>, classes: Seq<ClassView>, at: int, n: nat)
    requires
        0 <= at < n,
        check::classes_fault(prefix, classes, n) is None,
    ensures
        check::class_fault(prefix, classes, at) is None,
    decreases n,
{
    if at < n - 1 {
        lemma_class_sound(prefix, classes, at, (n - 1) as nat);
    }
}

/// The first class, counted up to `at`, with the labels of the one in place `at`.
pub(super) proof fn lemma_first_same_exists(classes: Seq<ClassView>, at: int, j: int)
    requires
        0 <= j < at < classes.len(),
        check::same_labels(classes[j], classes[at]),
    ensures
        exists|first: int| check::first_same(classes, at, first),
    decreases j,
{
    if exists|k: int| 0 <= k < j && check::same_labels(#[trigger] classes[k], classes[at]) {
        let k = choose|k: int| 0 <= k < j && check::same_labels(#[trigger] classes[k], classes[at]);
        lemma_first_same_exists(classes, at, k);
    } else {
        assert(check::first_same(classes, at, j));
    }
}

pub(super) proof fn lemma_first_longer_exists(names: Seq<Seq<char>>, at: int, j: int)
    requires
        0 <= j < names.len(),
        check::continues(names[at], names[j]),
    ensures
        exists|other: int| check::first_longer(names, at, other),
    decreases j,
{
    if exists|k: int| 0 <= k < j && check::continues(names[at], #[trigger] names[k]) {
        let k = choose|k: int| 0 <= k < j && check::continues(names[at], #[trigger] names[k]);
        lemma_first_longer_exists(names, at, k);
    } else {
        assert(check::first_longer(names, at, j));
    }
}

/// Every class of an accepted configuration can be asked for, used and placed:
/// its labels are distinct and fit for a hostname, one of them names its
/// provider and none names another, and nothing a machine is made of is missing.
pub proof fn law_classes_are_complete(config: &Config, at: int)
    requires
        config.accepted(),
        0 <= at < config.class_views().len(),
    ensures
        ({
            let class = config.class_views()[at];
            &&& class.labels.len() > 0
            &&& class.labels.no_duplicates()
            &&& forall|j: int|
                0 <= j < class.labels.len() ==> naming::hostname_label(#[trigger] class.labels[j])
            &&& forall|kind: Provider|
                class.labels.contains(#[trigger] kinds::provider_name(kind)) <==> kind
                    == class.provider
            &&& config.providers@.contains_key(class.provider)
            &&& class.plans.len() > 0
            &&& class.locations.len() > 0
            &&& !class.locations.contains(Seq::empty())
            &&& class.image.len() > 0
            &&& class.allowed_events.len() > 0
            &&& 0 < class.job_timeout_minutes < class.lifetime_minutes
        }),
{
    let tables = config.tables();
    let class = config.class_views()[at];
    lemma_classes(tables, at);
    lemma_enumerated(tables, tables.machines.len());
    assert(is_defined(tables, class));
    let from = choose|from: int| stands_for(tables, class, from);
    assert(stands_for(tables, class, from));
    let spec = tables.machines[from];
    lemma_spec_sound(tables.machines, from, tables.machines.len());
    let chosen = Set::new(
        |kind: Provider| class.labels.contains(kinds::provider_name(kind)),
    );
    let named = check::named_providers(class.labels);
    lemma_kinds_of(chosen, PROVIDERS as nat);
    assert(named == seq![class.provider]);
    assert(named.contains(named[0]));
    assert forall|kind: Provider|
        class.labels.contains(#[trigger] kinds::provider_name(kind)) <==> kind
            == class.provider by {
        kinds::lemma_place_of(kind);
        assert(named.contains(kind) <==> chosen.contains(kind));
    }
    kinds::lemma_place_of(class.provider);
    lemma_provider_sound(tables, class.provider, PROVIDERS as nat);
    config.images.lemma_keys();
    assert(tables.image_keys.contains(spec.image@));
    let image = choose|i: int|
        0 <= i < tables.image_keys.len() && tables.image_keys[i] == spec.image@;
    lemma_image_sound(tables, image, class.provider, tables.image_keys.len());
    config.plans.lemma_keys();
    assert(tables.plan_keys.contains(spec.plans@));
    let plans = choose|i: int|
        0 <= i < tables.plan_keys.len() && tables.plan_keys[i] == spec.plans@;
    lemma_plans_sound(tables, plans, class.provider, tables.plan_keys.len());
}

/// At most one class answers to what a job asks for.
pub proof fn law_one_class_answers(config: &Config, runs_on: Seq<Seq<char>>, a: int, b: int)
    requires
        config.accepted(),
        0 <= a < config.class_views().len(),
        0 <= b < config.class_views().len(),
        config.class_views()[a].matches(runs_on),
        config.class_views()[b].matches(runs_on),
    ensures
        a == b,
{
    let tables = config.tables();
    let classes = config.class_views();
    lemma_classes(tables, a);
    lemma_classes(tables, b);
    lemma_matches_all(classes[a].labels, runs_on);
    lemma_matches_all(classes[b].labels, runs_on);
    lemma_same_set_same_multiset(classes[a].labels, classes[b].labels);
    if a < b {
        lemma_first_same_exists(classes, b, a);
        lemma_class_sound(config.daemon.machine_prefix@, classes, b, classes.len());
    } else if b < a {
        lemma_first_same_exists(classes, a, b);
        lemma_class_sound(config.daemon.machine_prefix@, classes, a, classes.len());
    }
}

/// A machine made for a class leads back to the name of that class, and to the
/// part of the handle that its name carries.
pub proof fn law_machine_leads_back_to_its_class(config: &Config, at: int, handle: Seq<char>)
    requires
        config.accepted(),
        0 <= at < config.class_views().len(),
    ensures
        ({
            let names = super::class_names(config.class_views());
            let prefix = config.daemon.machine_prefix@;
            naming::split_of(prefix, naming::machine_name_of(prefix, names[at], handle), names)
                == Some((names[at], naming::truncated(handle)))
        }),
{
    let classes = config.class_views();
    let names = super::class_names(classes);
    let prefix = config.daemon.machine_prefix@;
    lemma_class_sound(prefix, classes, at, classes.len());
    assert(names.contains(names[at]));
    assert forall|other: Seq<char>| #[trigger]
        names.contains(other) && other != names[at] implies !names[at].is_prefix_of(other) by {
        let j = choose|j: int| 0 <= j < names.len() && names[j] == other;
        if names[at].is_prefix_of(other) {
            lemma_first_longer_exists(names, at, j);
        }
    }
    naming::law_split_inverts_machine_name(prefix, names[at], handle, names);
}

/// Whatever the handle, the name of a machine fits the hostname limit.
pub proof fn law_machine_names_fit(config: &Config, at: int, handle: Seq<char>)
    requires
        config.accepted(),
        0 <= at < config.class_views().len(),
    ensures
        naming::machine_name_of(
            config.daemon.machine_prefix@,
            config.class_views()[at].name(),
            handle,
        ).len() <= check::HOSTNAME_LIMIT,
{
    let classes = config.class_views();
    let prefix = config.daemon.machine_prefix@;
    lemma_class_sound(prefix, classes, at, classes.len());
    naming::law_truncated_handle(handle);
    reveal_strlit("000000000000000000000000000000000000");
    naming::lemma_full_handle(check::long_handle());
}

/// Every repository of an accepted configuration may have a machine somewhere,
/// and only at providers that are declared.
pub proof fn law_repos_are_granted(config: &Config, at: int)
    requires
        config.accepted(),
        0 <= at < config.repos@.len(),
    ensures
        exists|kind: Provider| super::granted(config, config.repos@[at]@, kind) > 0,
        forall|kind: Provider|
            #[trigger] super::granted(config, config.repos@[at]@, kind) > 0
                ==> config.providers@.contains_key(kind),
{
    let tables = config.tables();
    let repo = config.repos@[at]@;
    let key = config.grants.keys()[at];
    assert(check::names_repo(key, repo));
    config.grants.lemma_keys();
    assert(config.grants.keys().contains(key));
    let quotas = config.grants@[key].max_vms@;
    assert forall|kind: Provider| #[trigger]
        super::granted(config, repo, kind) > 0 implies config.providers@.contains_key(kind) by {
        lemma_grant_sound(tables, at, kind, tables.grant_keys.len());
    }
    lemma_grant_sound(tables, at, Provider::Cherry, tables.grant_keys.len());
    if forall|kind: Provider| !quotas.contains_key(kind) {
        assert(quotas =~= Map::<Provider, usize>::empty());
    }
    let kind = choose|kind: Provider| quotas.contains_key(kind);
    lemma_grant_sound(tables, at, kind, tables.grant_keys.len());
    assert(super::granted(config, repo, kind) > 0);
}

} // verus!
