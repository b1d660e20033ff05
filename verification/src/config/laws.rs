//! Which configurations are accepted, and what becomes of their tables.

use vstd::prelude::*;

use super::accept;
use super::check;
use super::kinds;
use super::kinds::{PerProvider, Provider, PROVIDERS};
use super::{Class, ClassView, Config, Labels, Repo, Spec};
use crate::naming;
use crate::text;

verus! {

/// Small letters, digits and hyphens, with no hyphen at either end.
pub open spec fn is_plain(name: Seq<char>) -> bool {
    &&& name.len() > 0
    &&& name[0] != '-'
    &&& name[name.len() - 1] != '-'
    &&& forall|i: int|
        0 <= i < name.len() ==> ('a' <= #[trigger] name[i] && name[i] <= 'z') || ('0' <= name[i]
            && name[i] <= '9') || name[i] == '-'
}

/// An owner and a name, neither of them empty, with one slash between them.
pub open spec fn is_pair(key: Seq<char>, owner: Seq<char>, name: Seq<char>) -> bool {
    &&& key == owner + "/"@ + name
    &&& owner.len() > 0
    &&& name.len() > 0
    &&& forall|i: int| 0 <= i < owner.len() ==> #[trigger] owner[i] != '/'
    &&& forall|i: int| 0 <= i < name.len() ==> #[trigger] name[i] != '/'
}

/// What a label set calls the provider.
pub open spec fn is_called(kind: Provider, name: Seq<char>) -> bool {
    match kind {
        Provider::Cherry => name == "cherry"@,
        Provider::Gcore => name == "gcore"@,
        Provider::Hetzner => name == "hetzner"@,
        Provider::Scaleway => name == "scaleway"@,
        Provider::Vultr => name == "vultr"@,
    }
}

/// Every provider has somewhere to make a machine.
pub open spec fn hosts_are_sound(config: &Config) -> bool {
    forall|kind: Provider| #[trigger]
        config.providers@.contains_key(kind) ==> {
            let locations = config.providers@[kind].locations@;
            &&& locations.len() > 0
            &&& forall|i: int| 0 <= i < locations.len() ==> (#[trigger] locations[i])@.len() > 0
        }
}

/// Every image has an id somewhere, and only at providers that are declared.
pub open spec fn images_are_sound(config: &Config) -> bool {
    forall|alias: Seq<char>| #[trigger]
        config.images@.contains_key(alias) ==> {
            let ids = config.images@[alias]@;
            &&& exists|kind: Provider| ids.contains_key(kind)
            &&& forall|kind: Provider| #[trigger]
                ids.contains_key(kind) ==> config.providers@.contains_key(kind)
                    && ids[kind]@.len() > 0
        }
}

/// Every ladder of plans has plans somewhere, and only at providers that are declared.
pub open spec fn plans_are_sound(config: &Config) -> bool {
    forall|name: Seq<char>| #[trigger]
        config.plans@.contains_key(name) ==> {
            let ladders = config.plans@[name]@;
            &&& exists|kind: Provider| ladders.contains_key(kind)
            &&& forall|kind: Provider| #[trigger]
                ladders.contains_key(kind) ==> config.providers@.contains_key(kind)
                    && ladders[kind]@.len() > 0
        }
}

/// The key names a repository by its owner and its name.
pub open spec fn is_repo(key: Seq<char>) -> bool {
    exists|owner: Seq<char>, name: Seq<char>| is_pair(key, owner, name)
}

/// Every repository is named by its owner and its name.
pub open spec fn repos_are_sound(config: &Config) -> bool {
    forall|key: Seq<char>| #[trigger] config.grants@.contains_key(key) ==> is_repo(key)
}

/// Every repository is granted machines somewhere, and only at providers that are
/// declared.
pub open spec fn grants_are_sound(config: &Config) -> bool {
    forall|key: Seq<char>| #[trigger]
        config.grants@.contains_key(key) ==> {
            let quotas = config.grants@[key].max_vms@;
            &&& exists|kind: Provider| quotas.contains_key(kind)
            &&& forall|kind: Provider| #[trigger]
                quotas.contains_key(kind) ==> config.providers@.contains_key(kind) && quotas[kind]
                    > 0
        }
}

/// Something can use the machine, and a job has less time than the machine.
pub open spec fn spec_is_sound(spec: Spec) -> bool {
    &&& spec.allowed_events@.len() > 0
    &&& 0 < spec.job_timeout_minutes < spec.lifetime_minutes
}

/// Every machine is sound.
pub open spec fn specs_are_sound(config: &Config) -> bool {
    forall|i: int|
        0 <= i < config.machines@.len() ==> spec_is_sound(#[trigger] config.machines@[i])
}

/// Every label set of every machine is sound.
pub open spec fn sets_are_sound(config: &Config) -> bool {
    let sets = all_sets(config.machines@, config.machines@.len());
    forall|i: int|
        0 <= i < sets.len() ==> set_is_sound(config, (#[trigger] sets[i]).0, sets[i].1)
}

/// The labels name this provider, and no other.
pub open spec fn names_one(set: Seq<Seq<char>>, kind: Provider) -> bool {
    forall|other: Provider, name: Seq<char>|
        #[trigger] is_called(other, name) ==> (set.contains(name) <==> other == kind)
}

/// The labels are distinct and fit for a hostname, and one declared provider is named,
/// for which the image and the plans are defined.
pub open spec fn set_is_sound(config: &Config, spec: Spec, set: Seq<Seq<char>>) -> bool {
    &&& set.len() > 0
    &&& forall|i: int| 0 <= i < set.len() ==> is_plain(#[trigger] set[i])
    &&& forall|i: int, j: int| 0 <= i < j < set.len() ==> #[trigger] set[i] != #[trigger] set[j]
    &&& exists|kind: Provider|
        {
            &&& #[trigger] names_one(set, kind)
            &&& config.providers@.contains_key(kind)
            &&& config.images@.contains_key(spec.image@)
            &&& config.images@[spec.image@]@.contains_key(kind)
            &&& config.plans@.contains_key(spec.plans@)
            &&& config.plans@[spec.plans@]@.contains_key(kind)
        }
}

/// The label sets of a machine.
pub open spec fn label_sets(labels: Labels) -> Seq<Seq<Seq<char>>> {
    match labels {
        Labels::One(set) => seq![text::texts(set@)],
        Labels::Many(sets) => Seq::new(sets@.len(), |i: int| text::texts(sets@[i]@)),
    }
}

/// The label sets of the first `n` machines, each with the machine it is of, in order.
pub open spec fn all_sets(machines: Seq<Spec>, n: nat) -> Seq<(Spec, Seq<Seq<char>>)>
    decreases n,
{
    if n == 0 {
        Seq::empty()
    } else {
        let spec = machines[n - 1];
        let sets = label_sets(spec.labels);
        all_sets(machines, (n - 1) as nat) + Seq::new(sets.len(), |i: int| (spec, sets[i]))
    }
}

/// A machine of one label set is never taken for one of another, and its name fits.
pub open spec fn names_are_sound(prefix: Seq<char>, sets: Seq<(Spec, Seq<Seq<char>>)>) -> bool {
    &&& forall|i: int, j: int|
        0 <= i < j < sets.len() ==> (#[trigger] sets[i]).1.to_set() != (
        #[trigger] sets[j]).1.to_set()
    &&& forall|i: int, j: int|
        0 <= i < sets.len() && 0 <= j < sets.len() ==> {
            let name = text::joined((#[trigger] sets[i]).1, "-"@);
            let other = text::joined((#[trigger] sets[j]).1, "-"@);
            other == name || !name.is_prefix_of(other)
        }
    &&& forall|i: int|
        0 <= i < sets.len() ==> prefix.len() + 1 + text::joined(
            (#[trigger] sets[i]).1,
            "-"@,
        ).len() + 1 + 24 <= 63
}

/// Nothing is missing and nothing is in another's way.
pub open spec fn is_sound(config: &Config) -> bool {
    let sets = all_sets(config.machines@, config.machines@.len());
    &&& is_plain(config.daemon.machine_prefix@)
    &&& config.daemon.runner_version@.len() > 0
    &&& config.daemon.runner_sha256_amd64@.len() > 0
    &&& config.daemon.runner_sha256_arm64@.len() > 0
    &&& exists|key: Seq<char>| config.grants@.contains_key(key)
    &&& exists|kind: Provider| config.providers@.contains_key(kind)
    &&& config.machines@.len() > 0
    &&& hosts_are_sound(config)
    &&& images_are_sound(config)
    &&& plans_are_sound(config)
    &&& repos_are_sound(config)
    &&& grants_are_sound(config)
    &&& specs_are_sound(config)
    &&& sets_are_sound(config)
    &&& names_are_sound(config.daemon.machine_prefix@, sets)
}

proof fn lemma_called(kind: Provider, name: Seq<char>)
    ensures
        is_called(kind, name) <==> name == kinds::provider_name(kind),
{
}

proof fn lemma_pair(key: Seq<char>)
    ensures
        is_repo(key) <==> check::is_repo_key(key),
{
    if is_repo(key) {
        let (owner, name) = choose|owner: Seq<char>, name: Seq<char>| is_pair(key, owner, name);
        assert(check::names_repo(key, super::RepoView { owner, name }));
    }
    if check::is_repo_key(key) {
        let repo = choose|repo: super::RepoView| check::names_repo(key, repo);
        assert forall|i: int| 0 <= i < repo.owner.len() implies #[trigger] repo.owner[i]
            != '/' by {
            assert(repo.owner.contains(repo.owner[i]));
        }
        assert forall|i: int| 0 <= i < repo.name.len() implies #[trigger] repo.name[i] != '/' by {
            assert(repo.name.contains(repo.name[i]));
        }
        assert(is_pair(key, repo.owner, repo.name));
    }
}

proof fn lemma_repos(keys: Seq<Seq<char>>, n: nat)
    requires
        n <= keys.len(),
    ensures
        check::repos_fault(keys, n) is None <==> forall|i: int|
            0 <= i < n ==> check::is_repo_key(#[trigger] keys[i]),
    decreases n,
{
    if n > 0 {
        lemma_repos(keys, (n - 1) as nat);
    }
}

proof fn lemma_hosts(config: &Config, n: nat)
    requires
        hosts_are_sound(config),
        n <= PROVIDERS,
    ensures
        check::providers_fault(config.tables(), n) is None,
    decreases n,
{
    if n > 0 {
        lemma_hosts(config, (n - 1) as nat);
        let kind = kinds::provider_in_place(n - 1);
        if config.providers@.contains_key(kind) {
            let locations = config.providers@[kind].locations@;
            let all = text::texts(locations);
            if all.contains(Seq::empty()) {
                let i = choose|i: int| 0 <= i < all.len() && all[i] == Seq::<char>::empty();
                assert(locations[i]@.len() > 0);
            }
        }
    }
}

proof fn lemma_image_ids(config: &Config, alias: Seq<char>, n: nat)
    requires
        images_are_sound(config),
        config.images@.contains_key(alias),
        n <= PROVIDERS,
    ensures
        check::image_ids_fault(config.tables(), alias, n) is None,
    decreases n,
{
    if n > 0 {
        lemma_image_ids(config, alias, (n - 1) as nat);
    }
}

proof fn lemma_images(config: &Config, n: nat)
    requires
        images_are_sound(config),
        n <= config.images.keys().len(),
    ensures
        check::images_fault(config.tables(), n) is None,
    decreases n,
{
    if n > 0 {
        lemma_images(config, (n - 1) as nat);
        let alias = config.images.keys()[n - 1];
        config.images.lemma_keys();
        assert(config.images.keys().contains(alias));
        assert(config.images@.contains_key(alias));
        lemma_image_ids(config, alias, PROVIDERS as nat);
    }
}

proof fn lemma_ladders(config: &Config, name: Seq<char>, n: nat)
    requires
        plans_are_sound(config),
        config.plans@.contains_key(name),
        n <= PROVIDERS,
    ensures
        check::ladders_fault(config.tables(), name, n) is None,
    decreases n,
{
    if n > 0 {
        lemma_ladders(config, name, (n - 1) as nat);
    }
}

proof fn lemma_plans(config: &Config, n: nat)
    requires
        plans_are_sound(config),
        n <= config.plans.keys().len(),
    ensures
        check::plans_fault(config.tables(), n) is None,
    decreases n,
{
    if n > 0 {
        lemma_plans(config, (n - 1) as nat);
        let name = config.plans.keys()[n - 1];
        config.plans.lemma_keys();
        assert(config.plans.keys().contains(name));
        assert(config.plans@.contains_key(name));
        lemma_ladders(config, name, PROVIDERS as nat);
    }
}

proof fn lemma_specs(specs: Seq<Spec>, n: nat)
    requires
        n <= specs.len(),
        forall|i: int| 0 <= i < specs.len() ==> spec_is_sound(#[trigger] specs[i]),
    ensures
        check::specs_fault(specs, n) is None,
    decreases n,
{
    if n > 0 {
        lemma_specs(specs, (n - 1) as nat);
        assert(spec_is_sound(specs[n - 1]));
    }
}

proof fn lemma_quotas(config: &Config, key: Seq<char>, n: nat)
    requires
        grants_are_sound(config),
        config.grants@.contains_key(key),
        n <= PROVIDERS,
    ensures
        check::quotas_fault(config.tables(), key, n) is None,
    decreases n,
{
    if n > 0 {
        lemma_quotas(config, key, (n - 1) as nat);
    }
}

proof fn lemma_grants(config: &Config, n: nat)
    requires
        grants_are_sound(config),
        n <= config.grants.keys().len(),
    ensures
        check::grants_fault(config.tables(), n) is None,
    decreases n,
{
    if n > 0 {
        lemma_grants(config, (n - 1) as nat);
        let key = config.grants.keys()[n - 1];
        config.grants.lemma_keys();
        assert(config.grants.keys().contains(key));
        assert(config.grants@.contains_key(key));
        lemma_quotas(config, key, PROVIDERS as nat);
    }
}

proof fn lemma_labels(set: Seq<Seq<char>>, n: nat)
    requires
        n <= set.len(),
        forall|i: int| 0 <= i < set.len() ==> is_plain(#[trigger] set[i]),
        forall|i: int, j: int|
            0 <= i < j < set.len() ==> #[trigger] set[i] != #[trigger] set[j],
    ensures
        check::labels_fault(set, n) is None,
    decreases n,
{
    if n > 0 {
        lemma_labels(set, (n - 1) as nat);
        assert(is_plain(set[n - 1]));
        let earlier = set.take(n - 1);
        if earlier.contains(set[n - 1]) {
            let i = choose|i: int| 0 <= i < earlier.len() && earlier[i] == set[n - 1];
            assert(set[i] != set[n - 1]);
        }
    }
}

proof fn lemma_names_one(set: Seq<Seq<char>>, kind: Provider)
    ensures
        names_one(set, kind) <==> check::named_providers(set) == seq![kind],
{
    let chosen = Set::new(|other: Provider| set.contains(kinds::provider_name(other)));
    let named = check::named_providers(set);
    accept::lemma_kinds_of(chosen, PROVIDERS as nat);
    if names_one(set, kind) {
        assert forall|other: Provider| chosen.contains(other) <==> other == kind by {
            lemma_called(other, kinds::provider_name(other));
            assert(is_called(other, kinds::provider_name(other)));
        }
        reveal_with_fuel(kinds::kinds_of, 6);
        assert(named =~= seq![kind]);
    }
    if named == seq![kind] {
        assert forall|other: Provider, name: Seq<char>| #[trigger]
            is_called(other, name) implies (set.contains(name) <==> other == kind) by {
            lemma_called(other, name);
            kinds::lemma_place_of(other);
            assert(named.contains(other) <==> chosen.contains(other));
            assert(named[0] == kind);
            if named.contains(other) {
                let i = choose|i: int| 0 <= i < named.len() && named[i] == other;
                assert(i == 0);
            }
        }
    }
}

/// A label set is sound exactly when it makes a class.
proof fn lemma_set(config: &Config, spec: Spec, set: Seq<Seq<char>>)
    ensures
        set_is_sound(config, spec, set) <==> check::resolved(config.tables(), spec, set) is Ok,
{
    let tables = config.tables();
    if set_is_sound(config, spec, set) {
        let kind = choose|kind: Provider|
            {
                &&& #[trigger] names_one(set, kind)
                &&& config.providers@.contains_key(kind)
                &&& config.images@.contains_key(spec.image@)
                &&& config.images@[spec.image@]@.contains_key(kind)
                &&& config.plans@.contains_key(spec.plans@)
                &&& config.plans@[spec.plans@]@.contains_key(kind)
            };
        lemma_labels(set, set.len());
        lemma_names_one(set, kind);
        assert(check::set_provider(tables, set) == Ok::<Provider, Seq<char>>(kind));
    }
    if check::resolved(tables, spec, set) is Ok {
        let kind = check::set_provider(tables, set)->Ok_0;
        accept::lemma_labels(set, set.len());
        assert(set.take(set.len() as int) =~= set);
        let named = check::named_providers(set);
        assert(named =~= seq![kind]);
        lemma_names_one(set, kind);
        assert forall|i: int| 0 <= i < set.len() implies is_plain(#[trigger] set[i]) by {
            assert(naming::hostname_label(set[i]));
        }
        assert(names_one(set, kind));
    }
}

proof fn lemma_label_sets(labels: Labels)
    ensures
        label_sets(labels) == check::sets_of(labels),
{
    assert(label_sets(labels) =~= check::sets_of(labels));
}

/// The classes of a machine stand for its label sets.
proof fn lemma_spec_classes(config: &Config, spec: Spec, n: nat)
    requires
        n <= label_sets(spec.labels).len(),
    ensures
        ({
            let made = check::spec_classes(config.tables(), spec, n);
            let sets = label_sets(spec.labels);
            &&& made is Ok <==> forall|i: int|
                0 <= i < n ==> set_is_sound(config, spec, #[trigger] sets[i])
            &&& made is Ok ==> made->Ok_0.len() == n
            &&& made is Ok ==> forall|i: int|
                0 <= i < n ==> check::resolved(config.tables(), spec, sets[i]) == Ok::<
                    ClassView,
                    Seq<char>,
                >(#[trigger] made->Ok_0[i])
        }),
    decreases n,
{
    lemma_label_sets(spec.labels);
    if n > 0 {
        lemma_spec_classes(config, spec, (n - 1) as nat);
        let sets = label_sets(spec.labels);
        lemma_set(config, spec, sets[n - 1]);
    }
}

/// The classes stand for the label sets of all machines, in order.
proof fn lemma_enumerated(config: &Config, n: nat)
    requires
        n <= config.machines@.len(),
    ensures
        ({
            let made = check::enumerated(config.tables(), n);
            let sets = all_sets(config.machines@, n);
            &&& made is Ok <==> forall|i: int|
                0 <= i < sets.len() ==> set_is_sound(config, (#[trigger] sets[i]).0, sets[i].1)
            &&& made is Ok ==> made->Ok_0.len() == sets.len()
            &&& made is Ok ==> forall|i: int|
                0 <= i < sets.len() ==> check::resolved(
                    config.tables(),
                    sets[i].0,
                    sets[i].1,
                ) == Ok::<ClassView, Seq<char>>(#[trigger] made->Ok_0[i])
        }),
    decreases n,
{
    if n > 0 {
        let spec = config.machines@[n - 1];
        let some = label_sets(spec.labels);
        let before = all_sets(config.machines@, (n - 1) as nat);
        let sets = all_sets(config.machines@, n);
        let made = check::enumerated(config.tables(), n);
        lemma_label_sets(spec.labels);
        lemma_enumerated(config, (n - 1) as nat);
        lemma_spec_classes(config, spec, some.len());
        assert forall|i: int| 0 <= i < some.len() implies sets[before.len() + i] == (
            spec,
            #[trigger] some[i],
        ) by {}
        assert forall|i: int| 0 <= i < before.len() implies sets[i] == #[trigger] before[i] by {}
        if forall|i: int|
            0 <= i < sets.len() ==> set_is_sound(config, (#[trigger] sets[i]).0, sets[i].1) {
            assert forall|i: int| 0 <= i < before.len() implies set_is_sound(
                config,
                (#[trigger] before[i]).0,
                before[i].1,
            ) by {
                assert(sets[i] == before[i]);
            }
            assert forall|i: int| 0 <= i < some.len() implies set_is_sound(
                config,
                spec,
                #[trigger] some[i],
            ) by {
                assert(sets[before.len() + i] == (spec, some[i]));
            }
        }
        if made is Ok {
            let known = check::enumerated(config.tables(), (n - 1) as nat)->Ok_0;
            let more = check::spec_classes(config.tables(), spec, some.len())->Ok_0;
            assert(made->Ok_0 =~= known + more);
            assert forall|i: int| 0 <= i < sets.len() implies set_is_sound(
                config,
                (#[trigger] sets[i]).0,
                sets[i].1,
            ) && check::resolved(config.tables(), sets[i].0, sets[i].1) == Ok::<
                ClassView,
                Seq<char>,
            >(made->Ok_0[i]) by {
                if i < before.len() {
                    assert(sets[i] == before[i]);
                    assert(made->Ok_0[i] == known[i]);
                } else {
                    assert(sets[i] == (spec, some[i - before.len()]));
                    assert(made->Ok_0[i] == more[i - before.len()]);
                }
            }
        }
    }
}

proof fn lemma_no_class_fault(prefix: Seq<char>, classes: Seq<ClassView>, n: nat)
    requires
        n <= classes.len(),
        forall|i: int|
            0 <= i < classes.len() ==> check::class_fault(prefix, classes, i) is None,
    ensures
        check::classes_fault(prefix, classes, n) is None,
    decreases n,
{
    if n > 0 {
        lemma_no_class_fault(prefix, classes, (n - 1) as nat);
    }
}

proof fn lemma_longest_name(prefix: Seq<char>, name: Seq<char>)
    ensures
        naming::machine_name_of(prefix, name, check::long_handle()).len() == prefix.len() + 1
            + name.len() + 1 + 24,
{
    reveal_strlit("-");
    reveal_strlit("000000000000000000000000000000000000");
    naming::lemma_full_handle(check::long_handle());
}

/// The names are sound exactly when no class is in another's way.
proof fn lemma_names(
    prefix: Seq<char>,
    sets: Seq<(Spec, Seq<Seq<char>>)>,
    classes: Seq<ClassView>,
)
    requires
        sets.len() == classes.len(),
        forall|i: int| 0 <= i < sets.len() ==> (#[trigger] classes[i]).labels == sets[i].1,
        forall|i: int| 0 <= i < sets.len() ==> (#[trigger] classes[i]).labels.no_duplicates(),
    ensures
        names_are_sound(prefix, sets) <==> check::classes_fault(prefix, classes, classes.len()) is None,
{
    let names = super::class_names(classes);
    if names_are_sound(prefix, sets) {
        assert forall|i: int| 0 <= i < classes.len() implies check::class_fault(
            prefix,
            classes,
            i,
        ) is None by {
            lemma_longest_name(prefix, names[i]);
            assert(classes[i].labels == sets[i].1);
            if exists|first: int| check::first_same(classes, i, first) {
                let first = choose|first: int| check::first_same(classes, i, first);
                assert(check::first_same(classes, i, first));
                assert(classes[first].labels == sets[first].1);
                lemma_same_multiset_same_set(classes[first].labels, classes[i].labels);
                assert(sets[first].1.to_set() != sets[i].1.to_set());
            }
            if exists|other: int| check::first_longer(names, i, other) {
                let other = choose|other: int| check::first_longer(names, i, other);
                assert(check::first_longer(names, i, other));
                assert(classes[other].labels == sets[other].1);
            }
        }
        lemma_no_class_fault(prefix, classes, classes.len());
    }
    if check::classes_fault(prefix, classes, classes.len()) is None {
        assert forall|i: int, j: int| 0 <= i < j < sets.len() implies (
        #[trigger] sets[i]).1.to_set() != (#[trigger] sets[j]).1.to_set() by {
            assert(classes[i].labels == sets[i].1 && classes[j].labels == sets[j].1);
            accept::lemma_class_sound(prefix, classes, j, classes.len());
            if sets[i].1.to_set() == sets[j].1.to_set() {
                accept::lemma_same_set_same_multiset(classes[i].labels, classes[j].labels);
                accept::lemma_first_same_exists(classes, j, i);
            }
        }
        assert forall|i: int, j: int| 0 <= i < sets.len() && 0 <= j < sets.len() implies {
            let name = text::joined((#[trigger] sets[i]).1, "-"@);
            let other = text::joined((#[trigger] sets[j]).1, "-"@);
            other == name || !name.is_prefix_of(other)
        } by {
            assert(classes[i].labels == sets[i].1 && classes[j].labels == sets[j].1);
            accept::lemma_class_sound(prefix, classes, i, classes.len());
            if names[i] != names[j] && names[i].is_prefix_of(names[j]) {
                accept::lemma_first_longer_exists(names, i, j);
            }
        }
        assert forall|i: int| 0 <= i < sets.len() implies prefix.len() + 1 + text::joined(
            (#[trigger] sets[i]).1,
            "-"@,
        ).len() + 1 + 24 <= 63 by {
            assert(classes[i].labels == sets[i].1);
            accept::lemma_class_sound(prefix, classes, i, classes.len());
            lemma_longest_name(prefix, names[i]);
        }
    }
}

proof fn lemma_same_multiset_same_set(a: Seq<Seq<char>>, b: Seq<Seq<char>>)
    requires
        a.to_multiset() == b.to_multiset(),
    ensures
        a.to_set() == b.to_set(),
{
    a.to_multiset_ensures();
    b.to_multiset_ensures();
    assert forall|x: Seq<char>| a.to_set().contains(x) <==> b.to_set().contains(x) by {
        assert(a.contains(x) <==> a.to_multiset().count(x) > 0);
        assert(b.contains(x) <==> b.to_multiset().count(x) > 0);
    }
    assert(a.to_set() =~= b.to_set());
}

proof fn lemma_hosts_hold(config: &Config)
    requires
        check::providers_fault(config.tables(), PROVIDERS as nat) is None,
    ensures
        hosts_are_sound(config),
{
    assert forall|kind: Provider| #[trigger] config.providers@.contains_key(kind) implies {
        let locations = config.providers@[kind].locations@;
        &&& locations.len() > 0
        &&& forall|i: int| 0 <= i < locations.len() ==> (#[trigger] locations[i])@.len() > 0
    } by {
        kinds::lemma_place_of(kind);
        accept::lemma_provider_sound(config.tables(), kind, PROVIDERS as nat);
        let locations = config.providers@[kind].locations@;
        assert forall|i: int| 0 <= i < locations.len() implies (#[trigger] locations[i])@.len()
            > 0 by {
            let all = text::texts(locations);
            if locations[i]@.len() == 0 {
                assert(all[i] =~= Seq::<char>::empty());
                assert(all.contains(all[i]));
            }
        }
    }
}

proof fn lemma_images_hold(config: &Config)
    requires
        check::images_fault(config.tables(), config.images.keys().len()) is None,
    ensures
        images_are_sound(config),
{
    config.images.lemma_keys();
    assert forall|alias: Seq<char>| #[trigger] config.images@.contains_key(alias) implies {
        let ids = config.images@[alias]@;
        &&& exists|kind: Provider| ids.contains_key(kind)
        &&& forall|kind: Provider| #[trigger]
            ids.contains_key(kind) ==> config.providers@.contains_key(kind) && ids[kind]@.len()
                > 0
    } by {
        let ids = config.images@[alias]@;
        let aliases = config.images.keys();
        assert(aliases.contains(alias));
        let at = choose|at: int| 0 <= at < aliases.len() && aliases[at] == alias;
        assert forall|kind: Provider| #[trigger]
            ids.contains_key(kind) implies config.providers@.contains_key(kind)
            && ids[kind]@.len() > 0 by {
            accept::lemma_image_sound(config.tables(), at, kind, aliases.len());
        }
        accept::lemma_image_sound(config.tables(), at, Provider::Cherry, aliases.len());
        if forall|kind: Provider| !ids.contains_key(kind) {
            assert(ids =~= Map::empty());
        }
    }
}

proof fn lemma_plans_hold(config: &Config)
    requires
        check::plans_fault(config.tables(), config.plans.keys().len()) is None,
    ensures
        plans_are_sound(config),
{
    config.plans.lemma_keys();
    assert forall|name: Seq<char>| #[trigger] config.plans@.contains_key(name) implies {
        let ladders = config.plans@[name]@;
        &&& exists|kind: Provider| ladders.contains_key(kind)
        &&& forall|kind: Provider| #[trigger]
            ladders.contains_key(kind) ==> config.providers@.contains_key(kind)
                && ladders[kind]@.len() > 0
    } by {
        let ladders = config.plans@[name]@;
        let names = config.plans.keys();
        assert(names.contains(name));
        let at = choose|at: int| 0 <= at < names.len() && names[at] == name;
        assert forall|kind: Provider| #[trigger]
            ladders.contains_key(kind) implies config.providers@.contains_key(kind)
            && ladders[kind]@.len() > 0 by {
            accept::lemma_plans_sound(config.tables(), at, kind, names.len());
        }
        accept::lemma_plans_sound(config.tables(), at, Provider::Cherry, names.len());
        if forall|kind: Provider| !ladders.contains_key(kind) {
            assert(ladders =~= Map::empty());
        }
    }
}

proof fn lemma_specs_hold(config: &Config)
    requires
        check::specs_fault(config.machines@, config.machines@.len()) is None,
    ensures
        specs_are_sound(config),
{
    assert forall|i: int| 0 <= i < config.machines@.len() implies spec_is_sound(
        #[trigger] config.machines@[i],
    ) by {
        accept::lemma_spec_sound(config.machines@, i, config.machines@.len());
    }
}

proof fn lemma_repos_hold(config: &Config)
    ensures
        repos_are_sound(config) <==> check::repos_fault(
            config.grants.keys(),
            config.grants.keys().len(),
        ) is None,
{
    let keys = config.grants.keys();
    config.grants.lemma_keys();
    lemma_repos(keys, keys.len());
    if check::repos_fault(keys, keys.len()) is None {
        assert forall|key: Seq<char>| #[trigger]
            config.grants@.contains_key(key) implies is_repo(key) by {
            assert(keys.contains(key));
            let at = choose|at: int| 0 <= at < keys.len() && keys[at] == key;
            lemma_pair(key);
            assert(check::is_repo_key(keys[at]));
        }
    }
    if repos_are_sound(config) {
        assert forall|i: int| 0 <= i < keys.len() implies check::is_repo_key(
            #[trigger] keys[i],
        ) by {
            assert(keys.contains(keys[i]));
            assert(config.grants@.contains_key(keys[i]));
            lemma_pair(keys[i]);
        }
    }
}

proof fn lemma_grants_hold(config: &Config)
    requires
        check::grants_fault(config.tables(), config.grants.keys().len()) is None,
    ensures
        grants_are_sound(config),
{
    let keys = config.grants.keys();
    config.grants.lemma_keys();
    assert forall|key: Seq<char>| #[trigger] config.grants@.contains_key(key) implies {
        let quotas = config.grants@[key].max_vms@;
        &&& exists|kind: Provider| quotas.contains_key(kind)
        &&& forall|kind: Provider| #[trigger]
            quotas.contains_key(kind) ==> config.providers@.contains_key(kind) && quotas[kind] > 0
    } by {
        let quotas = config.grants@[key].max_vms@;
        assert(keys.contains(key));
        let at = choose|at: int| 0 <= at < keys.len() && keys[at] == key;
        assert forall|kind: Provider| #[trigger]
            quotas.contains_key(kind) implies config.providers@.contains_key(kind) && quotas[kind]
            > 0 by {
            accept::lemma_grant_sound(config.tables(), at, kind, keys.len());
        }
        accept::lemma_grant_sound(config.tables(), at, Provider::Cherry, keys.len());
        if forall|kind: Provider| !quotas.contains_key(kind) {
            assert(quotas =~= Map::empty());
        }
    }
}

proof fn lemma_entries(config: &Config)
    ensures
        config.grants.keys().len() > 0 <==> exists|key: Seq<char>|
            config.grants@.contains_key(key),
        config.providers@ != Map::<Provider, super::Host>::empty() <==> exists|kind: Provider|
            config.providers@.contains_key(kind),
{
    let keys = config.grants.keys();
    config.grants.lemma_keys();
    if keys.len() > 0 {
        assert(keys.contains(keys[0]));
        assert(config.grants@.contains_key(keys[0]));
    }
    if exists|key: Seq<char>| config.grants@.contains_key(key) {
        let key = choose|key: Seq<char>| config.grants@.contains_key(key);
        assert(keys.contains(key));
    }
    if forall|kind: Provider| !config.providers@.contains_key(kind) {
        assert(config.providers@ =~= Map::empty());
    }
}

proof fn lemma_tables_hold(config: &Config)
    requires
        check::tables_fault(config.tables()) is None,
    ensures
        is_plain(config.daemon.machine_prefix@),
        exists|key: Seq<char>| config.grants@.contains_key(key),
        exists|kind: Provider| config.providers@.contains_key(kind),
        hosts_are_sound(config),
        images_are_sound(config),
        plans_are_sound(config),
        grants_are_sound(config),
        specs_are_sound(config),
{
    lemma_entries(config);
    lemma_hosts_hold(config);
    lemma_images_hold(config);
    lemma_plans_hold(config);
    lemma_specs_hold(config);
    lemma_grants_hold(config);
}

proof fn lemma_sound_tables(config: &Config)
    requires
        is_sound(config),
    ensures
        check::tables_fault(config.tables()) is None,
        check::repos_fault(config.grants.keys(), config.grants.keys().len()) is None,
{
    lemma_entries(config);
    lemma_repos_hold(config);
    lemma_hosts(config, PROVIDERS as nat);
    lemma_images(config, config.images.keys().len());
    lemma_plans(config, config.plans.keys().len());
    lemma_specs(config.machines@, config.machines@.len());
    lemma_grants(config, config.grants.keys().len());
}

/// A configuration has no fault exactly when it is sound.
proof fn lemma_sound(config: &Config)
    ensures
        is_sound(config) <==> check::fault(config.tables()) is None,
{
    let tables = config.tables();
    let sets = all_sets(config.machines@, config.machines@.len());
    let made = check::enumerated(tables, config.machines@.len());
    lemma_enumerated(config, config.machines@.len());
    lemma_repos_hold(config);
    if check::tables_fault(tables) is None {
        lemma_tables_hold(config);
    }
    if made is Ok {
        let classes = made->Ok_0;
        assert forall|i: int| 0 <= i < sets.len() implies (#[trigger] classes[i]).labels
            == sets[i].1 && classes[i].labels.no_duplicates() by {
            let set = sets[i].1;
            assert(check::resolved(tables, sets[i].0, set) == Ok::<ClassView, Seq<char>>(
                classes[i],
            ));
            accept::lemma_labels(set, set.len());
            assert(set.take(set.len() as int) =~= set);
        }
        lemma_names(config.daemon.machine_prefix@, sets, classes);
    }
    if is_sound(config) {
        lemma_sound_tables(config);
    }
}

/// A configuration is accepted exactly when it is sound: no table it needs is missing or
/// empty, no entry speaks of a provider without a table, every label set makes one
/// class, and no two classes get in each other's way.
pub proof fn law_sound_configurations_are_accepted(config: Config, res: Result<Config, String>)
    requires
        call_ensures(Config::parse, (config,), res),
    ensures
        res is Ok <==> is_sound(&config),
{
    lemma_sound(&config);
}

/// The class has the labels of the set and everything else from the tables that they and
/// the machine name.
pub open spec fn is_made_of(
    config: &Config,
    class: ClassView,
    spec: Spec,
    set: Seq<Seq<char>>,
) -> bool {
    let kind = class.provider;
    &&& class.labels == set
    &&& names_one(set, kind)
    &&& class.plans == text::texts(config.plans@[spec.plans@]@[kind]@)
    &&& class.locations == text::texts(config.providers@[kind].locations@)
    &&& class.image == config.images@[spec.image@]@[kind]@
    &&& class.ssh_key == match config.providers@[kind].ssh_key {
        Some(key) => Some(key@),
        None => None,
    }
    &&& class.lifetime_minutes == spec.lifetime_minutes
    &&& class.job_timeout_minutes == spec.job_timeout_minutes
    &&& class.allowed_events == text::texts(spec.allowed_events@)
    &&& class.allow_fork_pull_request == spec.allow_fork_pull_request
}

/// Every label set of every machine becomes one class, in order, made of what the tables
/// hold for it; accepting a configuration changes none of its tables.
pub proof fn law_classes_are_made_of_their_tables(config: Config, accepted: Config)
    requires
        call_ensures(Config::parse, (config,), Ok::<Config, String>(accepted)),
    ensures
        ({
            let sets = all_sets(config.machines@, config.machines@.len());
            &&& accepted.classes@.len() == sets.len()
            &&& forall|i: int|
                0 <= i < sets.len() ==> is_made_of(
                    &config,
                    (#[trigger] accepted.classes@[i])@,
                    sets[i].0,
                    sets[i].1,
                )
        }),
        accepted.daemon == config.daemon,
        accepted.forgejo == config.forgejo,
        accepted.alert == config.alert,
        accepted.providers@ == config.providers@,
        accepted.images@ == config.images@,
        accepted.plans@ == config.plans@,
        accepted.grants@ == config.grants@,
        accepted.machines@ == config.machines@,
{
    let tables = config.tables();
    let sets = all_sets(config.machines@, config.machines@.len());
    assert(accepted.tables() == tables);
    assert(accepted.machines@ == tables.machines);
    assert(config.machines@ == tables.machines);
    lemma_enumerated(&config, config.machines@.len());
    let classes = accepted.class_views();
    assert(check::enumerated(tables, config.machines@.len()) == Ok::<Seq<ClassView>, Seq<char>>(
        classes,
    ));
    assert forall|i: int| 0 <= i < sets.len() implies is_made_of(
        &config,
        (#[trigger] accepted.classes@[i])@,
        sets[i].0,
        sets[i].1,
    ) by {
        let class = classes[i];
        assert(class == accepted.classes@[i]@);
        assert(check::resolved(tables, sets[i].0, sets[i].1) == Ok::<ClassView, Seq<char>>(
            class,
        ));
        let named = check::named_providers(sets[i].1);
        assert(named =~= seq![class.provider]);
        lemma_names_one(sets[i].1, class.provider);
    }
}

/// Every repository that is granted something is watched, and no other.
pub proof fn law_granted_repositories_are_watched(
    config: Config,
    accepted: Config,
    owner: Seq<char>,
    name: Seq<char>,
)
    requires
        call_ensures(Config::parse, (config,), Ok::<Config, String>(accepted)),
        forall|i: int| 0 <= i < owner.len() ==> #[trigger] owner[i] != '/',
    ensures
        config.grants@.contains_key(owner + "/"@ + name) <==> exists|i: int|
            0 <= i < accepted.repos@.len() && (#[trigger] accepted.repos@[i]).owner@ == owner
                && accepted.repos@[i].name@ == name,
{
    let keys = accepted.grants.keys();
    let key = owner + "/"@ + name;
    accepted.grants.lemma_keys();
    assert(accepted.tables() == config.tables());
    assert(accepted.tables().grants == config.tables().grants);
    if config.grants@.contains_key(key) {
        assert(keys.contains(key));
        let i = choose|i: int| 0 <= i < keys.len() && keys[i] == key;
        let repo = accepted.repos@[i]@;
        assert(check::names_repo(keys[i], repo));
        lemma_split_at_slash(owner, name, repo.owner, repo.name);
        assert(accepted.repos@[i].owner@ == owner);
    }
    if exists|i: int|
        0 <= i < accepted.repos@.len() && (#[trigger] accepted.repos@[i]).owner@ == owner
            && accepted.repos@[i].name@ == name {
        let i = choose|i: int|
            0 <= i < accepted.repos@.len() && (#[trigger] accepted.repos@[i]).owner@ == owner
                && accepted.repos@[i].name@ == name;
        assert(check::names_repo(keys[i], accepted.repos@[i]@));
        assert(keys.contains(keys[i]));
    }
}

/// What stands before the first slash and what stands after it.
proof fn lemma_split_at_slash(
    owner: Seq<char>,
    name: Seq<char>,
    other: Seq<char>,
    rest: Seq<char>,
)
    requires
        owner + "/"@ + name == other + "/"@ + rest,
        forall|i: int| 0 <= i < owner.len() ==> #[trigger] owner[i] != '/',
        !other.contains('/'),
    ensures
        owner == other,
        name == rest,
{
    reveal_strlit("/");
    let whole = owner + "/"@ + name;
    let same = other + "/"@ + rest;
    assert(whole[owner.len() as int] == '/');
    assert(same[other.len() as int] == '/');
    if owner.len() < other.len() {
        assert(same[owner.len() as int] == other[owner.len() as int]);
        assert(other.contains(other[owner.len() as int]));
    } else if other.len() < owner.len() {
        assert(whole[other.len() as int] == owner[other.len() as int]);
    }
    assert(owner =~= whole.take(owner.len() as int));
    assert(other =~= same.take(other.len() as int));
    assert(name =~= whole.skip((owner.len() + 1) as int));
    assert(rest =~= same.skip((other.len() + 1) as int));
}

/// Some class has this label.
pub open spec fn is_a_label(config: &Config, label: Seq<char>) -> bool {
    exists|c: int, k: int|
        0 <= c < config.classes@.len() && 0 <= k < config.classes@[c].labels@.len() && (
        #[trigger] config.classes@[c].labels@[k])@ == label
}

/// The list holds this text.
pub open spec fn is_among(list: Seq<String>, text: Seq<char>) -> bool {
    exists|i: int| 0 <= i < list.len() && (#[trigger] list[i])@ == text
}

/// Every label of every class is listed, each once and nothing else, in the order of
/// texts.
pub proof fn law_labels_are_listed_once(config: &Config, res: Vec<String>)
    requires
        call_ensures(Config::all_labels, (config,), res),
    ensures
        forall|c: int, k: int|
            0 <= c < config.classes@.len() && 0 <= k < config.classes@[c].labels@.len()
                ==> is_among(res@, (#[trigger] config.classes@[c].labels@[k])@),
        forall|i: int| 0 <= i < res@.len() ==> is_a_label(config, (#[trigger] res@[i])@),
        forall|i: int, j: int|
            0 <= i < j < res@.len() ==> text::before((#[trigger] res@[i])@, (
            #[trigger] res@[j])@),
{
    let classes = config.class_views();
    let list = text::texts(res@);
    assert forall|c: int, k: int|
        0 <= c < config.classes@.len() && 0 <= k < config.classes@[c].labels@.len() implies is_among(
        res@,
        (#[trigger] config.classes@[c].labels@[k])@,
    ) by {
        let label = config.classes@[c].labels@[k]@;
        assert(classes[c].labels[k] == label);
        assert(classes[c].labels.contains(label));
        assert(super::carries(classes, label));
        assert(list.contains(label));
        let i = choose|i: int| 0 <= i < list.len() && list[i] == label;
        assert(res@[i]@ == label);
    }
    assert forall|i: int| 0 <= i < res@.len() implies is_a_label(
        config,
        (#[trigger] res@[i])@,
    ) by {
        let label = res@[i]@;
        assert(list[i] == label);
        assert(list.contains(label));
        let c = choose|c: int|
            0 <= c < classes.len() && (#[trigger] classes[c]).labels.contains(label);
        let k = choose|k: int|
            0 <= k < classes[c].labels.len() && classes[c].labels[k] == label;
        assert(config.classes@[c].labels@[k]@ == label);
    }
    assert forall|i: int, j: int| 0 <= i < j < res@.len() implies text::before(
        (#[trigger] res@[i])@,
        (#[trigger] res@[j])@,
    ) by {
        assert(list[i] == res@[i]@ && list[j] == res@[j]@);
    }
}

/// A class is named by its labels with hyphens between them, and is found by that name:
/// the first of several that share it.
pub proof fn law_classes_are_found_by_name(
    config: &Config,
    name: &str,
    names: Vec<String>,
    res: Option<&Class>,
)
    requires
        call_ensures(Config::entry_names, (config,), names),
        call_ensures(Config::class, (config, name), res),
    ensures
        names@.len() == config.classes@.len(),
        forall|c: int|
            0 <= c < names@.len() ==> (#[trigger] names@[c])@ == text::joined(
                text::texts(config.classes@[c].labels@),
                "-"@,
            ),
        match res {
            Some(class) => exists|c: int|
                {
                    &&& 0 <= c < names@.len()
                    &&& (#[trigger] names@[c])@ == name@
                    &&& *class == config.classes@[c]
                    &&& forall|j: int| 0 <= j < c ==> (#[trigger] names@[j])@ != name@
                },
            None => forall|c: int| 0 <= c < names@.len() ==> (#[trigger] names@[c])@ != name@,
        },
{
    let classes = config.class_views();
    let all = text::texts(names@);
    assert(all.len() == names@.len());
    assert forall|c: int| 0 <= c < names@.len() implies (#[trigger] names@[c])@ == text::joined(
        text::texts(config.classes@[c].labels@),
        "-"@,
    ) && names@[c]@ == classes[c].name() by {
        assert(all[c] == names@[c]@);
    }
    match res {
        Some(class) => {
            let c = choose|c: int| #[trigger]
                super::is_named(classes, name@, c) && *class == config.classes@[c];
            assert(names@[c]@ == name@);
            assert forall|j: int| 0 <= j < c implies (#[trigger] names@[j])@ != name@ by {
                assert(classes[j].name() != name@);
            }
        },
        None => {
            assert forall|c: int| 0 <= c < names@.len() implies (#[trigger] names@[c])@
                != name@ by {
                assert(classes[c].name() != name@);
            }
        },
    }
}

/// No class lives longer than the longest lifetime, and one lives as long.
pub proof fn law_the_longest_lifetime_is_of_a_class(config: &Config, res: u64)
    requires
        call_ensures(Config::longest_lifetime_minutes, (config,), res),
    ensures
        forall|c: int|
            0 <= c < config.classes@.len() ==> (#[trigger] config.classes@[c]).lifetime_minutes
                <= res,
        config.classes@.len() > 0 ==> exists|c: int|
            0 <= c < config.classes@.len() && (#[trigger] config.classes@[c]).lifetime_minutes
                == res,
        config.classes@.len() == 0 ==> res == 0,
{
    let classes = config.class_views();
    lemma_longest(classes, classes.len());
    assert forall|c: int| 0 <= c < config.classes@.len() implies (
    #[trigger] config.classes@[c]).lifetime_minutes <= res by {
        assert(classes[c] == config.classes@[c]@);
    }
    if classes.len() > 0 {
        let c = choose|c: int|
            0 <= c < classes.len() && (#[trigger] classes[c]).lifetime_minutes
                == super::longest_of(classes, classes.len());
        assert(classes[c] == config.classes@[c]@);
        assert(config.classes@[c].lifetime_minutes == res);
    }
}

/// The longest lifetime of the first classes is one of theirs, and none is longer.
pub(crate) proof fn lemma_longest(classes: Seq<ClassView>, n: nat)
    requires
        n <= classes.len(),
    ensures
        forall|c: int|
            0 <= c < n ==> (#[trigger] classes[c]).lifetime_minutes <= super::longest_of(
                classes,
                n,
            ),
        n > 0 ==> exists|c: int|
            0 <= c < n && (#[trigger] classes[c]).lifetime_minutes == super::longest_of(
                classes,
                n,
            ),
    decreases n,
{
    if n > 0 {
        lemma_longest(classes, (n - 1) as nat);
        let longest = super::longest_of(classes, n);
        if classes[n - 1].lifetime_minutes == longest {
            assert(classes[n - 1].lifetime_minutes == longest);
        } else {
            let c = choose|c: int|
                0 <= c < n - 1 && (#[trigger] classes[c]).lifetime_minutes == super::longest_of(
                    classes,
                    (n - 1) as nat,
                );
            assert(classes[c].lifetime_minutes == longest);
        }
    }
}

/// A repository may have as many machines at a provider as its table grants there, and
/// none where no table grants any.
pub proof fn law_a_grant_is_what_the_table_says(
    config: &Config,
    repo: &Repo,
    provider: Provider,
    res: usize,
)
    requires
        call_ensures(Config::max_vms, (config, repo, provider), res),
    ensures
        ({
            let key = repo.owner@ + "/"@ + repo.name@;
            let granted = config.grants@.contains_key(key)
                && config.grants@[key].max_vms@.contains_key(provider);
            &&& granted ==> res == config.grants@[key].max_vms@[provider]
            &&& !granted ==> res == 0
        }),
{
}

/// How many of the labels are asked for.
pub open spec fn in_common(class: Class, runs_on: Seq<String>) -> nat {
    text::texts(class.labels@).filter(
        |label: Seq<char>| text::texts(runs_on).contains(label),
    ).len()
}

proof fn lemma_in_common(labels: Seq<Seq<char>>, runs_on: Seq<Seq<char>>)
    ensures
        labels.filter(|label: Seq<char>| runs_on.contains(label)).len() == super::shared_labels(
            labels,
            runs_on,
        ),
    decreases labels.len(),
{
    reveal(Seq::filter);
    if labels.len() > 0 {
        lemma_in_common(labels.drop_last(), runs_on);
    }
}

/// A job that no class answers to is told what it asked for and, if any class has one of
/// its labels, which class comes nearest: one that has the most of them.
pub proof fn law_the_nearest_class_is_named(
    config: &Config,
    runs_on: &[String],
    why: String,
)
    requires
        call_ensures(Config::class_for, (config, runs_on), Err::<&Class, String>(why)),
    ensures
        ({
            let said = "no [[machine]] answers to runs-on ["@ + text::joined(
                text::texts(runs_on@),
                ", "@,
            ) + "]"@;
            ||| why@ == said && forall|c: int|
                0 <= c < config.classes@.len() ==> in_common(
                    #[trigger] config.classes@[c],
                    runs_on@,
                ) == 0
            ||| exists|c: int|
                {
                    &&& 0 <= c < config.classes@.len()
                    &&& in_common(#[trigger] config.classes@[c], runs_on@) > 0
                    &&& why@ == said + "; the closest set configured is ["@ + text::joined(
                        text::texts(config.classes@[c].labels@),
                        ", "@,
                    ) + "]"@
                    &&& forall|j: int|
                        0 <= j < config.classes@.len() ==> in_common(
                            #[trigger] config.classes@[j],
                            runs_on@,
                        ) <= in_common(config.classes@[c], runs_on@)
                }
        }),
{
    let classes = config.class_views();
    let asked = text::texts(runs_on@);
    assert forall|c: int| 0 <= c < config.classes@.len() implies in_common(
        #[trigger] config.classes@[c],
        runs_on@,
    ) == classes[c].shared(asked) by {
        lemma_in_common(text::texts(config.classes@[c].labels@), asked);
    }
    let said = "no [[machine]] answers to runs-on ["@ + text::joined(asked, ", "@) + "]"@;
    if exists|at: int| super::is_nearest(classes, asked, at) {
        let c = choose|at: int| super::is_nearest(classes, asked, at);
        assert(super::is_nearest(classes, asked, c));
        assert(classes[c].labels == text::texts(config.classes@[c].labels@));
        reveal_strlit("]");
        reveal_strlit("; the closest set configured is [");
        reveal_strlit("]; the closest set configured is [");
        assert("]; the closest set configured is ["@ =~= "]"@
            + "; the closest set configured is ["@);
        assert(why@ =~= said + "; the closest set configured is ["@ + text::joined(
            classes[c].labels,
            ", "@,
        ) + "]"@);
        assert(in_common(config.classes@[c], runs_on@) > 0);
        assert forall|j: int| 0 <= j < config.classes@.len() implies in_common(
            #[trigger] config.classes@[j],
            runs_on@,
        ) <= in_common(config.classes@[c], runs_on@) by {
            assert(classes[j].shared(asked) <= classes[c].shared(asked));
        }
    } else {
        assert forall|c: int| 0 <= c < config.classes@.len() implies in_common(
            #[trigger] config.classes@[c],
            runs_on@,
        ) == 0 by {
            if classes[c].shared(asked) > 0 {
                lemma_nearest(classes, asked, c);
            }
        }
    }
}

/// Where a class shares a label, one of them comes nearest.
proof fn lemma_nearest(classes: Seq<ClassView>, runs_on: Seq<Seq<char>>, best: int)
    requires
        0 <= best < classes.len(),
        classes[best].shared(runs_on) > 0,
    ensures
        exists|at: int| super::is_nearest(classes, runs_on, at),
{
    let most = lemma_most(classes, runs_on, classes.len());
    assert(classes[best].shared(runs_on) <= classes[most].shared(runs_on));
    assert(super::is_nearest(classes, runs_on, most));
}

/// The last of the first `n` classes that share the most labels.
proof fn lemma_most(classes: Seq<ClassView>, runs_on: Seq<Seq<char>>, n: nat) -> (most: int)
    requires
        0 < n <= classes.len(),
    ensures
        0 <= most < n,
        forall|j: int|
            0 <= j < n ==> (#[trigger] classes[j]).shared(runs_on) <= classes[most].shared(runs_on),
        forall|j: int|
            most < j < n ==> (#[trigger] classes[j]).shared(runs_on) < classes[most].shared(runs_on),
    decreases n,
{
    if n == 1 {
        0
    } else {
        let before = lemma_most(classes, runs_on, (n - 1) as nat);
        if classes[n - 1].shared(runs_on) >= classes[before].shared(runs_on) {
            n - 1
        } else {
            before
        }
    }
}

/// What is not said in a configuration: the prefix, the poll interval and the grace.
pub proof fn law_defaults(prefix: String, interval: u64, grace: u64)
    requires
        call_ensures(super::default_machine_prefix, (), prefix),
        call_ensures(super::default_poll_interval, (), interval),
        call_ensures(super::default_reconcile_grace, (), grace),
    ensures
        prefix@ == "ci-orc"@,
        interval == 15,
        grace == 300,
{
}

/// The providers of a table are those that have an entry, each once, in the order of
/// their names.
pub proof fn law_providers_are_in_order<V>(table: &PerProvider<V>, res: Vec<Provider>)
    requires
        call_ensures(PerProvider::<V>::kinds, (table,), res),
    ensures
        forall|kind: Provider| #[trigger]
            table@.contains_key(kind) <==> exists|i: int|
                0 <= i < res@.len() && #[trigger] res@[i] == kind,
        forall|i: int, j: int, a: Seq<char>, b: Seq<char>|
            0 <= i < j < res@.len() && #[trigger] is_called(res@[i], a) && #[trigger] is_called(
                res@[j],
                b,
            ) ==> text::before(a, b),
{
    let chosen = table@.dom();
    accept::lemma_kinds_of(chosen, PROVIDERS as nat);
    assert forall|kind: Provider| #[trigger]
        table@.contains_key(kind) <==> exists|i: int|
            0 <= i < res@.len() && #[trigger] res@[i] == kind by {
        kinds::lemma_place_of(kind);
        assert(res@.contains(kind) <==> chosen.contains(kind));
    }
    lemma_in_places(chosen, PROVIDERS as nat);
    assert forall|i: int, j: int, a: Seq<char>, b: Seq<char>|
        0 <= i < j < res@.len() && #[trigger] is_called(res@[i], a) && #[trigger] is_called(
            res@[j],
            b,
        ) implies text::before(a, b) by {
        assert(kinds::place_of(res@[i]) < kinds::place_of(res@[j]));
        reveal_strlit("cherry");
        reveal_strlit("gcore");
        reveal_strlit("hetzner");
        reveal_strlit("scaleway");
        reveal_strlit("vultr");
        assert(a[0] < b[0]);
    }
}

proof fn lemma_in_places(chosen: Set<Provider>, n: nat)
    requires
        n <= PROVIDERS,
    ensures
        forall|i: int|
            0 <= i < kinds::kinds_of(chosen, n).len() ==> kinds::place_of(
                #[trigger] kinds::kinds_of(chosen, n)[i],
            ) < n,
        forall|i: int, j: int|
            0 <= i < j < kinds::kinds_of(chosen, n).len() ==> kinds::place_of(
                #[trigger] kinds::kinds_of(chosen, n)[i],
            ) < kinds::place_of(#[trigger] kinds::kinds_of(chosen, n)[j]),
    decreases n,
{
    if n > 0 {
        lemma_in_places(chosen, (n - 1) as nat);
        let rest = kinds::kinds_of(chosen, (n - 1) as nat);
        let all = kinds::kinds_of(chosen, n);
        let kind = kinds::provider_in_place(n - 1);
        assert(kinds::place_of(kind) == n - 1);
        assert forall|i: int| 0 <= i < all.len() implies kinds::place_of(#[trigger] all[i])
            < n by {
            if i < rest.len() {
                assert(all[i] == rest[i]);
            }
        }
        assert forall|i: int, j: int| 0 <= i < j < all.len() implies kinds::place_of(
            #[trigger] all[i],
        ) < kinds::place_of(#[trigger] all[j]) by {
            assert(all[i] == rest[i]);
            if j < rest.len() {
                assert(all[j] == rest[j]);
            }
        }
    }
}

proof fn lemma_begins(first: Seq<char>, rest: Seq<char>)
    ensures
        first.is_prefix_of(first + rest),
{
    assert(first =~= (first + rest).subrange(0, first.len() as int));
}

proof fn lemma_repos_text(keys: Seq<Seq<char>>, n: nat)
    ensures
        check::repos_fault(keys, n) matches Some(why) ==> "[repo."@.is_prefix_of(why),
    decreases n,
{
    if n > 0 {
        lemma_repos_text(keys, (n - 1) as nat);
        let shown = text::debug_text(keys[n - 1]);
        let rest = shown + "] must be named \"owner/name\""@;
        lemma_begins("[repo."@, rest);
        assert("[repo."@ + rest =~= "[repo."@ + shown + "] must be named \"owner/name\""@);
    }
}

proof fn lemma_hosts_text(tables: check::Tables, n: nat)
    ensures
        check::providers_fault(tables, n) matches Some(why) ==> "[provider."@.is_prefix_of(why),
    decreases n,
{
    if n > 0 {
        lemma_hosts_text(tables, (n - 1) as nat);
        let name = kinds::provider_name(kinds::provider_in_place(n - 1));
        lemma_begins("[provider."@, name + "] has no locations"@);
        lemma_begins("[provider."@, name + "] has an empty location"@);
        assert("[provider."@ + (name + "] has no locations"@) =~= "[provider."@ + name
            + "] has no locations"@);
        assert("[provider."@ + (name + "] has an empty location"@) =~= "[provider."@ + name
            + "] has an empty location"@);
    }
}

/// What is told behind the name of a table begins with that name.
proof fn lemma_whose(head: Seq<char>, alias: Seq<char>, tail: Seq<char>)
    ensures
        head.is_prefix_of(head + alias + "]"@ + tail),
{
    lemma_begins(head, alias + "]"@ + tail);
    assert(head + (alias + "]"@ + tail) =~= head + alias + "]"@ + tail);
}

/// What is told of a provider without a table begins with what names it.
proof fn lemma_undeclared(head: Seq<char>, alias: Seq<char>, kind: Provider)
    ensures
        head.is_prefix_of(check::undeclared_text(head + alias + "]"@, kind)),
{
    let name = kinds::provider_name(kind);
    let tail = " names "@ + name + ", which has no [provider."@ + name + "] table"@;
    lemma_whose(head, alias, tail);
    assert(head + alias + "]"@ + tail =~= check::undeclared_text(head + alias + "]"@, kind));
}

proof fn lemma_image_ids_text(tables: check::Tables, alias: Seq<char>, n: nat)
    ensures
        check::image_ids_fault(tables, alias, n) matches Some(why) ==> "[image."@.is_prefix_of(
            why,
        ),
    decreases n,
{
    if n > 0 {
        lemma_image_ids_text(tables, alias, (n - 1) as nat);
        let kind = kinds::provider_in_place(n - 1);
        let name = kinds::provider_name(kind);
        lemma_undeclared("[image."@, alias, kind);
        lemma_whose("[image."@, alias, " has an empty id for "@ + name);
        assert(check::image_whose(alias) + (" has an empty id for "@ + name)
            =~= check::image_whose(alias) + " has an empty id for "@ + name);
    }
}

proof fn lemma_images_text(tables: check::Tables, n: nat)
    ensures
        check::images_fault(tables, n) matches Some(why) ==> "[image."@.is_prefix_of(why),
    decreases n,
{
    if n > 0 {
        lemma_images_text(tables, (n - 1) as nat);
        let alias = tables.image_keys[n - 1];
        lemma_whose("[image."@, alias, " names no provider"@);
        lemma_image_ids_text(tables, alias, PROVIDERS as nat);
    }
}

proof fn lemma_ladders_text(tables: check::Tables, alias: Seq<char>, n: nat)
    ensures
        check::ladders_fault(tables, alias, n) matches Some(why) ==> "[plans."@.is_prefix_of(why),
    decreases n,
{
    if n > 0 {
        lemma_ladders_text(tables, alias, (n - 1) as nat);
        let kind = kinds::provider_in_place(n - 1);
        let name = kinds::provider_name(kind);
        lemma_undeclared("[plans."@, alias, kind);
        lemma_whose("[plans."@, alias, " has no plans for "@ + name);
        assert(check::plans_whose(alias) + (" has no plans for "@ + name)
            =~= check::plans_whose(alias) + " has no plans for "@ + name);
    }
}

proof fn lemma_plans_text(tables: check::Tables, n: nat)
    ensures
        check::plans_fault(tables, n) matches Some(why) ==> "[plans."@.is_prefix_of(why),
    decreases n,
{
    if n > 0 {
        lemma_plans_text(tables, (n - 1) as nat);
        let alias = tables.plan_keys[n - 1];
        lemma_whose("[plans."@, alias, " names no provider"@);
        lemma_ladders_text(tables, alias, PROVIDERS as nat);
    }
}

proof fn lemma_specs_text(specs: Seq<Spec>, n: nat)
    ensures
        check::specs_fault(specs, n) matches Some(why) ==> "[[machine]] labels = ["@.is_prefix_of(
            why,
        ),
    decreases n,
{
    if n > 0 {
        lemma_specs_text(specs, (n - 1) as nat);
        if let Some(why) = check::spec_fault(specs[n - 1]) {
            let whose = check::spec_whose(specs[n - 1]);
            let head = "[[machine]] labels = ["@;
            assert(head =~= whose.subrange(0, head.len() as int));
            assert(whose =~= why.subrange(0, whose.len() as int));
            assert(head =~= why.subrange(0, head.len() as int));
        }
    }
}

proof fn lemma_quotas_text(tables: check::Tables, key: Seq<char>, n: nat)
    ensures
        check::quotas_fault(tables, key, n) matches Some(why) ==> "[repo."@.is_prefix_of(why),
    decreases n,
{
    if n > 0 {
        lemma_quotas_text(tables, key, (n - 1) as nat);
        let kind = kinds::provider_in_place(n - 1);
        let name = kinds::provider_name(kind);
        let shown = text::debug_text(key);
        lemma_undeclared("[repo."@, shown, kind);
        lemma_whose("[repo."@, shown, " has max_vms."@ + name + " = 0"@);
        assert(check::grant_whose(key) + (" has max_vms."@ + name + " = 0"@)
            =~= check::grant_whose(key) + " has max_vms."@ + name + " = 0"@);
    }
}

proof fn lemma_grants_text(tables: check::Tables, n: nat)
    ensures
        check::grants_fault(tables, n) matches Some(why) ==> "[repo."@.is_prefix_of(why),
    decreases n,
{
    if n > 0 {
        lemma_grants_text(tables, (n - 1) as nat);
        let key = tables.grant_keys[n - 1];
        lemma_whose(
            "[repo."@,
            text::debug_text(key),
            " grants no provider, so it could never get a machine"@,
        );
        lemma_quotas_text(tables, key, PROVIDERS as nat);
    }
}

/// A configuration that is refused is told where its first fault is, in the order in
/// which the tables are looked at.
pub proof fn law_the_first_fault_is_told(config: Config, why: String)
    requires
        call_ensures(Config::parse, (config,), Err::<Config, String>(why)),
    ensures
        ({
            let prefix = config.daemon.machine_prefix@;
            if !repos_are_sound(&config) {
                "[repo."@.is_prefix_of(why@)
            } else if !is_plain(prefix) {
                why@ == "machine_prefix "@ + text::debug_text(prefix)
                    + " must be a hostname label: lower case letters, digits and hyphens, starting with a letter or digit and not ending in a hyphen"@
            } else if config.daemon.runner_version@.len() == 0
                || config.daemon.runner_sha256_amd64@.len() == 0
                || config.daemon.runner_sha256_arm64@.len() == 0 {
                why@
                    == "daemon.runner_version, daemon.runner_sha256_amd64 and daemon.runner_sha256_arm64 are required"@
            } else if forall|key: Seq<char>| !config.grants@.contains_key(key) {
                why@ == "no [repo] entries: the orchestrator would watch nothing"@
            } else if forall|kind: Provider| !config.providers@.contains_key(kind) {
                why@ == "no [provider] entries: there is nowhere to create a machine"@
            } else if config.machines@.len() == 0 {
                why@ == "no [[machine]] entries: no job could ask for anything"@
            } else if !hosts_are_sound(&config) {
                "[provider."@.is_prefix_of(why@)
            } else if !images_are_sound(&config) {
                "[image."@.is_prefix_of(why@)
            } else if !plans_are_sound(&config) {
                "[plans."@.is_prefix_of(why@)
            } else if !specs_are_sound(&config) {
                "[[machine]] labels = ["@.is_prefix_of(why@)
            } else if !grants_are_sound(&config) {
                "[repo."@.is_prefix_of(why@)
            } else {
                !sets_are_sound(&config) || !names_are_sound(
                    prefix,
                    all_sets(config.machines@, config.machines@.len()),
                )
            }
        }),
{
    let tables = config.tables();
    let keys = config.grants.keys();
    lemma_repos_hold(&config);
    lemma_entries(&config);
    lemma_repos_text(keys, keys.len());
    lemma_hosts_text(tables, PROVIDERS as nat);
    lemma_images_text(tables, tables.image_keys.len());
    lemma_plans_text(tables, tables.plan_keys.len());
    lemma_specs_text(tables.machines, tables.machines.len());
    lemma_grants_text(tables, keys.len());
    assert(is_plain(config.daemon.machine_prefix@) <==> naming::hostname_label(
        config.daemon.machine_prefix@,
    ));
    if check::providers_fault(tables, PROVIDERS as nat) is None {
        lemma_hosts_hold(&config);
    }
    if hosts_are_sound(&config) {
        lemma_hosts(&config, PROVIDERS as nat);
    }
    if check::images_fault(tables, tables.image_keys.len()) is None {
        lemma_images_hold(&config);
    }
    if images_are_sound(&config) {
        lemma_images(&config, config.images.keys().len());
    }
    if check::plans_fault(tables, tables.plan_keys.len()) is None {
        lemma_plans_hold(&config);
    }
    if plans_are_sound(&config) {
        lemma_plans(&config, config.plans.keys().len());
    }
    if check::specs_fault(tables.machines, tables.machines.len()) is None {
        lemma_specs_hold(&config);
    }
    if specs_are_sound(&config) {
        lemma_specs(config.machines@, config.machines@.len());
    }
    if check::grants_fault(tables, keys.len()) is None {
        lemma_grants_hold(&config);
    }
    if grants_are_sound(&config) {
        lemma_grants(&config, keys.len());
    }
    lemma_sound(&config);
}

} // verus!
