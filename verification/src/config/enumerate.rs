//! From the tables of a configuration to its classes.

use vstd::prelude::*;

use super::check;
use super::kinds;
use super::kinds::{Provider, PROVIDERS};
use super::{Class, ClassView, Config, Spec};
use crate::naming;
use crate::text;

verus! {

/// A `Result` that carries the class or the fault that is due.
pub open spec fn builds(res: Result<Class, String>, due: Result<ClassView, Seq<char>>) -> bool {
    match res {
        Ok(class) => due == Ok::<ClassView, Seq<char>>(class@),
        Err(why) => due == Err::<ClassView, Seq<char>>(why@),
    }
}

/// A `Result` that carries the classes or the fault that is due.
pub open spec fn builds_all(
    res: Result<Vec<Class>, String>,
    due: Result<Seq<ClassView>, Seq<char>>,
) -> bool {
    match res {
        Ok(classes) => due == Ok::<Seq<ClassView>, Seq<char>>(super::class_views(classes@)),
        Err(why) => due == Err::<Seq<ClassView>, Seq<char>>(why@),
    }
}

proof fn lemma_labels_fault_stays(set: Seq<Seq<char>>, at: nat)
    requires
        at <= set.len(),
        check::labels_fault(set, at) is Some,
    ensures
        check::labels_fault(set, set.len()) == check::labels_fault(set, at),
    decreases set.len() - at,
{
    if at < set.len() {
        lemma_labels_fault_stays(set, at + 1);
    }
}

proof fn lemma_spec_classes_stays(tables: check::Tables, spec: Spec, at: nat, end: nat)
    requires
        at <= end,
        check::spec_classes(tables, spec, at) is Err,
    ensures
        check::spec_classes(tables, spec, end) == check::spec_classes(tables, spec, at),
    decreases end - at,
{
    if at < end {
        lemma_spec_classes_stays(tables, spec, at + 1, end);
    }
}

proof fn lemma_enumerated_stays(tables: check::Tables, at: nat, end: nat)
    requires
        at <= end,
        check::enumerated(tables, at) is Err,
    ensures
        check::enumerated(tables, end) == check::enumerated(tables, at),
    decreases end - at,
{
    if at < end {
        lemma_enumerated_stays(tables, at + 1, end);
    }
}

/// What the labels of one set have wrong with them, if anything.
fn validate_labels(set: &[String], whose: &str) -> (res: Result<(), String>)
    requires
        whose@ == check::set_whose(text::texts(set@)),
    ensures
        check::reports(res, check::labels_fault(text::texts(set@), set@.len())),
{
    let ghost labels = text::texts(set@);
    let mut at: usize = 0;
    while at < set.len()
        invariant
            at <= set@.len(),
            labels == text::texts(set@),
            whose@ == check::set_whose(labels),
            check::labels_fault(labels, at as nat) is None,
        decreases set@.len() - at,
    {
        let label = set[at].as_str();
        proof {
            assert(label@ == labels[at as int]);
        }
        if !naming::is_hostname_label(label) {
            let shown = text::quoted(label);
            let why = whose.to_owned().concat(" carries ").concat(shown.as_str()).concat(
                ", which is not a hostname label: a label is copied into a machine name, so it takes lower case letters, digits and hyphens, starting with a letter or digit and not ending in a hyphen",
            );
            proof {
                lemma_labels_fault_stays(labels, (at + 1) as nat);
            }
            return Err(why);
        }
        let earlier = vstd::slice::slice_subrange(set, 0, at);
        proof {
            assert(text::texts(earlier@) =~= labels.take(at as int));
        }
        if text::holds(earlier, label) {
            let why = whose.to_owned().concat(" names ").concat(label).concat(" twice");
            proof {
                lemma_labels_fault_stays(labels, (at + 1) as nat);
            }
            return Err(why);
        }
        at += 1;
    }
    Ok(())
}

/// The providers whose name is one of the labels.
fn providers_named(set: &[String]) -> (res: Vec<Provider>)
    ensures
        res@ == check::named_providers(text::texts(set@)),
{
    let ghost chosen = Set::new(
        |kind: Provider| text::texts(set@).contains(kinds::provider_name(kind)),
    );
    let mut named: Vec<Provider> = Vec::new();
    let mut at: usize = 0;
    while at < PROVIDERS
        invariant
            at <= PROVIDERS,
            chosen == Set::new(
                |kind: Provider| text::texts(set@).contains(kinds::provider_name(kind)),
            ),
            named@ == kinds::kinds_of(chosen, at as nat),
        decreases PROVIDERS - at,
    {
        let kind = Provider::in_place(at);
        if text::holds(set, kind.as_str()) {
            named.push(kind);
        }
        at += 1;
    }
    named
}

impl Config {
    /// The daemon never picks a vendor, so every set names its own.
    fn provider_of(&self, set: &[String], whose: &str) -> (res: Result<Provider, String>)
        requires
            whose@ == check::set_whose(text::texts(set@)),
        ensures
            match res {
                Ok(kind) => check::set_provider(self.tables(), text::texts(set@)) == Ok::<
                    Provider,
                    Seq<char>,
                >(kind),
                Err(why) => check::set_provider(self.tables(), text::texts(set@)) == Err::<
                    Provider,
                    Seq<char>,
                >(why@),
            },
    {
        let named = providers_named(set);
        if named.len() == 0 {
            Err(
                whose.to_owned().concat(
                    " names no provider: one label must be one of cherry, gcore, hetzner, scaleway, vultr",
                ),
            )
        } else if named.len() > 1 {
            let count = text::decimal(named.len() as u64);
            Err(
                whose.to_owned().concat(" names ").concat(count.as_str()).concat(
                    " providers; a set must name exactly one",
                ),
            )
        } else {
            match self.declared(named[0], whose) {
                Ok(()) => Ok(named[0]),
                Err(why) => Err(why),
            }
        }
    }

    fn resolve(&self, spec: &Spec, set: &[String]) -> (res: Result<Class, String>)
        ensures
            builds(res, check::resolved(self.tables(), *spec, text::texts(set@))),
    {
        let whose = check::whose_set(set);
        if set.len() == 0 {
            return Err(
                "a [[machine]] has an empty label set: no job could ask for it".to_owned(),
            );
        }
        if let Err(why) = validate_labels(set, whose.as_str()) {
            return Err(why);
        }
        let provider = match self.provider_of(set, whose.as_str()) {
            Ok(provider) => provider,
            Err(why) => {
                return Err(why);
            },
        };
        let name = provider.as_str();
        let alias = spec.image.as_str();
        let ladder = spec.plans.as_str();
        let image = match self.images.get(alias) {
            None => {
                let shown = text::quoted(alias);
                return Err(
                    whose.concat(" wants image ").concat(shown.as_str()).concat(
                        ", which no [image] table defines",
                    ),
                );
            },
            Some(ids) => match ids.get(provider) {
                None => {
                    return Err(
                        whose.concat(" wants image ").concat(alias).concat(
                            ", which [image.",
                        ).concat(alias).concat("] does not define for ").concat(name),
                    );
                },
                Some(image) => image,
            },
        };
        let plans = match self.plans.get(ladder) {
            None => {
                let shown = text::quoted(ladder);
                return Err(
                    whose.concat(" wants plans ").concat(shown.as_str()).concat(
                        ", which no [plans] table defines",
                    ),
                );
            },
            Some(ladders) => match ladders.get(provider) {
                None => {
                    return Err(
                        whose.concat(" wants plans ").concat(ladder).concat(
                            ", which [plans.",
                        ).concat(ladder).concat("] does not define for ").concat(name),
                    );
                },
                Some(plans) => plans,
            },
        };
        let (locations, ssh_key) = match self.providers.get(provider) {
            Some(host) => (
                text::copied(host.locations.as_slice()),
                text::copied_option(&host.ssh_key),
            ),
            None => (Vec::new(), None),
        };
        Ok(
            Class {
                labels: text::copied(set),
                provider,
                plans: text::copied(plans.as_slice()),
                locations,
                image: image.clone(),
                ssh_key,
                lifetime_minutes: spec.lifetime_minutes,
                job_timeout_minutes: spec.job_timeout_minutes,
                allowed_events: text::copied(spec.allowed_events.as_slice()),
                allow_fork_pull_request: spec.allow_fork_pull_request,
            },
        )
    }

    /// The classes of one `[[machine]]`, one for each of its label sets.
    fn resolve_all(&self, spec: &Spec) -> (res: Result<Vec<Class>, String>)
        ensures
            builds_all(
                res,
                check::spec_classes(
                    self.tables(),
                    *spec,
                    check::sets_of(spec.labels).len(),
                ),
            ),
    {
        let mut classes: Vec<Class> = Vec::new();
        let count: usize = spec.labels.count();
        proof {
            assert(super::class_views(classes@) =~= Seq::<ClassView>::empty());
        }
        let mut at: usize = 0;
        while at < count
            invariant
                at <= count == check::sets_of(spec.labels).len(),
                check::spec_classes(self.tables(), *spec, at as nat) == Ok::<
                    Seq<ClassView>,
                    Seq<char>,
                >(super::class_views(classes@)),
            decreases count - at,
        {
            let ghost known = classes@;
            match self.resolve(spec, spec.labels.set_at(at)) {
                Ok(class) => {
                    classes.push(class);
                    proof {
                        assert(super::class_views(classes@) =~= super::class_views(known).push(
                            class@,
                        ));
                    }
                },
                Err(why) => {
                    proof {
                        lemma_spec_classes_stays(
                            self.tables(),
                            *spec,
                            (at + 1) as nat,
                            count as nat,
                        );
                    }
                    return Err(why);
                },
            }
            at += 1;
        }
        Ok(classes)
    }

    pub(super) fn enumerate(&self) -> (res: Result<Vec<Class>, String>)
        ensures
            builds_all(res, check::enumerated(self.tables(), self.machines@.len())),
    {
        let mut classes: Vec<Class> = Vec::new();
        proof {
            assert(super::class_views(classes@) =~= Seq::<ClassView>::empty());
        }
        let mut at: usize = 0;
        while at < self.machines.len()
            invariant
                at <= self.machines@.len(),
                check::enumerated(self.tables(), at as nat) == Ok::<Seq<ClassView>, Seq<char>>(
                    super::class_views(classes@),
                ),
            decreases self.machines@.len() - at,
        {
            let ghost known = classes@;
            match self.resolve_all(&self.machines[at]) {
                Ok(more) => {
                    let mut more = more;
                    let ghost added = more@;
                    classes.append(&mut more);
                    proof {
                        assert(super::class_views(classes@) =~= super::class_views(known)
                            + super::class_views(added));
                    }
                },
                Err(why) => {
                    proof {
                        lemma_enumerated_stays(
                            self.tables(),
                            (at + 1) as nat,
                            self.machines@.len(),
                        );
                    }
                    return Err(why);
                },
            }
            at += 1;
        }
        Ok(classes)
    }
}

} // verus!
