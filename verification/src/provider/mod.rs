//! The clouds a machine is rented from.

pub mod cherry;
pub mod gcore;
pub mod hetzner;
pub mod scaleway;
pub mod vultr;
pub mod walk;

use vstd::prelude::*;

use base64::Engine;

use crate::config::kinds;
use crate::config::kinds::PROVIDERS;
use crate::config::{Class, ClassView, Config, PerProvider, Provider};
use crate::http;
use crate::http::Reply;
use crate::text;

verus! {

/// A point in time: seconds since the epoch, and nanoseconds on top of them.
#[derive(Debug, Clone, Copy, PartialEq, Eq, Structural)]
pub struct Moment {
    pub seconds: i64,
    pub nanos: u32,
}

#[derive(Debug)]
pub struct Machine {
    pub id: String,
    pub name: String,
    pub created_at: Option<Moment>,
}

pub struct MachineView {
    pub id: Seq<char>,
    pub name: Seq<char>,
    pub created_at: Option<Moment>,
}

impl View for Machine {
    type V = MachineView;

    open spec fn view(&self) -> MachineView {
        MachineView { id: self.id@, name: self.name@, created_at: self.created_at }
    }
}

impl Clone for Machine {
    fn clone(&self) -> (res: Self)
        ensures
            res == *self,
    {
        Machine { id: self.id.clone(), name: self.name.clone(), created_at: self.created_at }
    }
}

#[derive(Debug)]
pub struct Placement {
    pub plan: String,
    pub location: String,
}

pub struct PlacementView {
    pub plan: Seq<char>,
    pub location: Seq<char>,
}

impl View for Placement {
    type V = PlacementView;

    open spec fn view(&self) -> PlacementView {
        PlacementView { plan: self.plan@, location: self.location@ }
    }
}

pub open spec fn placement_views(placements: Seq<Placement>) -> Seq<PlacementView> {
    placements.map_values(|placement: Placement| placement@)
}

/// One plan in each of the first `n` locations.
pub open spec fn plan_placements(plan: Seq<char>, locations: Seq<Seq<char>>, n: nat) -> Seq<
    PlacementView,
>
    decreases n,
{
    if n == 0 {
        Seq::empty()
    } else {
        plan_placements(plan, locations, (n - 1) as nat).push(
            PlacementView { plan, location: locations[n - 1] },
        )
    }
}

/// Each of the first `n` plans in every location: plan by plan, location by location.
pub open spec fn placements_of(class: ClassView, n: nat) -> Seq<PlacementView>
    decreases n,
{
    if n == 0 {
        Seq::empty()
    } else {
        placements_of(class, (n - 1) as nat) + plan_placements(
            class.plans[n - 1],
            class.locations,
            class.locations.len(),
        )
    }
}

fn placements_with(plan: &str, locations: &[String]) -> (res: Vec<Placement>)
    ensures
        placement_views(res@) == plan_placements(
            plan@,
            text::texts(locations@),
            locations@.len(),
        ),
{
    let mut res: Vec<Placement> = Vec::new();
    let mut i: usize = 0;
    proof {
        assert(placement_views(res@) =~= Seq::<PlacementView>::empty());
    }
    while i < locations.len()
        invariant
            i <= locations@.len(),
            placement_views(res@) == plan_placements(
                plan@,
                text::texts(locations@),
                i as nat,
            ),
        decreases locations@.len() - i,
    {
        let ghost known = res@;
        res.push(Placement { plan: plan.to_owned(), location: locations[i].clone() });
        proof {
            assert(text::texts(locations@)[i as int] == locations@[i as int]@);
            assert(placement_views(res@) =~= placement_views(known).push(res@.last()@));
        }
        i += 1;
    }
    res
}

/// Where a machine of the class may go, in the order in which it is tried.
pub fn placements(class: &Class) -> (res: Vec<Placement>)
    ensures
        placement_views(res@) == placements_of(class@, class.plans@.len()),
{
    let mut res: Vec<Placement> = Vec::new();
    let mut i: usize = 0;
    proof {
        assert(placement_views(res@) =~= Seq::<PlacementView>::empty());
    }
    while i < class.plans.len()
        invariant
            i <= class.plans@.len(),
            placement_views(res@) == placements_of(class@, i as nat),
        decreases class.plans@.len() - i,
    {
        let ghost known = res@;
        let mut more = placements_with(class.plans[i].as_str(), class.locations.as_slice());
        let ghost added = more@;
        res.append(&mut more);
        proof {
            assert(class@.plans[i as int] == class.plans@[i as int]@);
            assert(placement_views(res@) =~= placement_views(known) + placement_views(added));
        }
        i += 1;
    }
    res
}

proof fn lemma_plan_placements(plan: Seq<char>, locations: Seq<Seq<char>>, n: nat)
    requires
        n <= locations.len(),
    ensures
        plan_placements(plan, locations, n).len() == n,
        forall|i: int|
            0 <= i < n ==> #[trigger] plan_placements(plan, locations, n)[i] == (PlacementView {
                plan,
                location: locations[i],
            }),
    decreases n,
{
    if n > 0 {
        lemma_plan_placements(plan, locations, (n - 1) as nat);
    }
}

proof fn lemma_placements(class: ClassView, n: nat, plan: int, location: int)
    requires
        0 <= plan < n <= class.plans.len(),
        0 <= location < class.locations.len(),
    ensures
        placements_of(class, n).len() == n * class.locations.len(),
        placements_of(class, n)[plan * class.locations.len() + location] == (PlacementView {
            plan: class.plans[plan],
            location: class.locations[location],
        }),
    decreases n,
{
    let width = class.locations.len();
    lemma_plan_placements(class.plans[n - 1], class.locations, width);
    let known = placements_of(class, (n - 1) as nat);
    if n > 1 {
        let earlier = if plan < n - 1 {
            plan
        } else {
            0
        };
        lemma_placements(class, (n - 1) as nat, earlier, location);
    }
    assert(known.len() == (n - 1) * width) by {
        if n == 1 {
            assert((n - 1) * width == 0) by (nonlinear_arith)
                requires
                    n == 1,
            ;
        }
    }
    assert((n - 1) * width + width == n * width) by (nonlinear_arith);
    if plan < n - 1 {
        assert(plan * width + location < (n - 1) * width) by (nonlinear_arith)
            requires
                plan < n - 1,
                0 <= location < width,
        ;
        assert(0 <= plan * width + location) by (nonlinear_arith)
            requires
                0 <= plan,
                0 <= location,
                0 <= width,
        ;
    }
}

/// Every plan is tried in every location, the plans in their order, and each of
/// them in the locations in theirs.
pub proof fn law_every_plan_in_every_location(class: ClassView, plan: int, location: int)
    requires
        0 <= plan < class.plans.len(),
        0 <= location < class.locations.len(),
    ensures
        placements_of(class, class.plans.len()).len() == class.plans.len() * class.locations.len(),
        placements_of(class, class.plans.len())[plan * class.locations.len() + location] == (
        PlacementView { plan: class.plans[plan], location: class.locations[location] }),
{
    lemma_placements(class, class.plans.len(), plan, location);
}

/// What the `time` crate reads in a text: seconds since the epoch, and nanoseconds.
pub uninterp spec fn rfc3339(text: Seq<char>) -> Option<(i64, u32)>;

/// `time::OffsetDateTime::parse` with `Rfc3339`, and of what it finds the
/// `unix_timestamp` and the `nanosecond`. The text alone decides what comes
/// back, and the nanoseconds make less than a second.
#[verifier::external_body]
fn read_rfc3339(value: &str) -> (res: Option<(i64, u32)>)
    ensures
        res == rfc3339(value@),
        res matches Some((_, nanos)) ==> nanos < 1_000_000_000,
{
    let format = time::format_description::well_known::Rfc3339;
    let parsed = time::OffsetDateTime::parse(value, &format).ok();
    parsed.map(|moment| (moment.unix_timestamp(), moment.nanosecond()))
}

/// A moment, from what was read.
pub open spec fn moment_of(read: Option<(i64, u32)>) -> Option<Moment> {
    match read {
        Some((seconds, nanos)) => Some(Moment { seconds, nanos }),
        None => None,
    }
}

/// The moment an API's timestamp names.
pub fn timestamp(value: &str) -> (res: Option<Moment>)
    ensures
        res == moment_of(rfc3339(value@)),
{
    match read_rfc3339(value) {
        Some((seconds, nanos)) => Some(Moment { seconds, nanos }),
        None => None,
    }
}

/// What the `base64` crate makes of a text.
pub uninterp spec fn base64_text(text: Seq<char>) -> Seq<char>;

/// `base64::Engine::encode` with the `STANDARD` engine. Nothing is claimed but
/// that the text alone decides what comes back.
#[verifier::external_body]
pub(crate) fn base64(value: &str) -> (res: String)
    ensures
        res@ == base64_text(value@),
{
    base64::engine::general_purpose::STANDARD.encode(value)
}

/// How much of a body a message shows.
pub const BODY_LIMIT: usize = 200;

pub fn clip(body: &str) -> (res: String)
    ensures
        res@ == text::clipped(body@, BODY_LIMIT as nat),
{
    text::clip(body, BODY_LIMIT)
}

/// What an answer comes to: nothing, or the text of the refusal.
pub open spec fn answer_fault(what: Seq<char>, reply: Reply) -> Option<Seq<char>> {
    if http::succeeded(reply.code) {
        None
    } else {
        Some(http::refused_text(what, reply, text::clipped(reply.body@, BODY_LIMIT as nat)))
    }
}

/// Holds an answer to success.
pub fn accepted(reply: &Reply, what: &str) -> (res: Result<(), String>)
    ensures
        match res {
            Ok(()) => answer_fault(what@, *reply) is None,
            Err(why) => answer_fault(what@, *reply) == Some(why@),
        },
{
    if http::is_success(reply.code) {
        return Ok(());
    }
    let shown = clip(reply.body.as_str());
    Err(http::refused(what, reply, shown.as_str()))
}

/// Holds the answer to a deletion to success; what is gone already is deleted.
pub fn expect_gone(reply: &Reply, what: &str) -> (res: Result<(), String>)
    ensures
        match res {
            Ok(()) => reply.code == http::NOT_FOUND || answer_fault(what@, *reply) is None,
            Err(why) => reply.code != http::NOT_FOUND && answer_fault(what@, *reply) == Some(
                why@,
            ),
        },
{
    if reply.code == http::NOT_FOUND {
        return Ok(());
    }
    accepted(reply, what)
}

/// Whether what was asked about is still there; an answer that is neither yes nor
/// no is an error.
pub fn present(reply: &Reply, what: &str) -> (res: Result<bool, String>)
    ensures
        match res {
            Ok(true) => reply.code != http::NOT_FOUND && answer_fault(what@, *reply) is None,
            Ok(false) => reply.code == http::NOT_FOUND,
            Err(why) => reply.code != http::NOT_FOUND && answer_fault(what@, *reply) == Some(
                why@,
            ),
        },
{
    if reply.code == http::NOT_FOUND {
        return Ok(false);
    }
    match accepted(reply, what) {
        Ok(()) => Ok(true),
        Err(why) => Err(why),
    }
}

/// What is told of a body that is no answer to `what`.
pub fn undecoded(reply: &Reply, what: &str) -> (res: String)
    ensures
        res@ == what@ + ": decoding "@ + text::clipped(reply.body@, BODY_LIMIT as nat),
{
    let shown = clip(reply.body.as_str());
    http::undecoded(what, shown.as_str())
}

/// A machine as a provider's API describes it.
#[derive(Debug)]
pub struct Found {
    pub id: String,
    pub name: String,
    pub created_at: Option<String>,
}

/// An id that also says where the machine is.
pub open spec fn composite_id(location: Seq<char>, id: Seq<char>) -> Seq<char> {
    location + "/"@ + id
}

pub open spec fn created_of(created_at: Option<String>) -> Option<Moment> {
    match created_at {
        Some(value) => moment_of(rfc3339(value@)),
        None => None,
    }
}

/// The machine an API describes; where there are locations, its id names one.
pub open spec fn machine_of(found: Found, location: Option<Seq<char>>) -> MachineView {
    MachineView {
        id: match location {
            Some(location) => composite_id(location, found.id@),
            None => found.id@,
        },
        name: found.name@,
        created_at: created_of(found.created_at),
    }
}

pub open spec fn machine_views(machines: Seq<Machine>) -> Seq<MachineView> {
    machines.map_values(|machine: Machine| machine@)
}

/// The machines among the first `n` whose names start with the prefix.
pub open spec fn ours(
    found: Seq<Found>,
    prefix: Seq<char>,
    location: Option<Seq<char>>,
    n: nat,
) -> Seq<MachineView>
    decreases n,
{
    if n == 0 {
        Seq::empty()
    } else {
        let rest = ours(found, prefix, location, (n - 1) as nat);
        if prefix.is_prefix_of(found[n - 1].name@) {
            rest.push(machine_of(found[n - 1], location))
        } else {
            rest
        }
    }
}

pub open spec fn optional_str(text: Option<&str>) -> Option<Seq<char>> {
    match text {
        Some(text) => Some(text@),
        None => None,
    }
}

fn created(value: &Option<String>) -> (res: Option<Moment>)
    ensures
        res == created_of(*value),
{
    match value {
        Some(value) => timestamp(value.as_str()),
        None => None,
    }
}

fn placed_id(location: Option<&str>, id: &str) -> (res: String)
    ensures
        res@ == match location {
            Some(location) => composite_id(location@, id@),
            None => id@,
        },
{
    match location {
        Some(location) => location.to_owned().concat("/").concat(id),
        None => id.to_owned(),
    }
}

/// Which of the machines an API lists are ours.
pub fn keep_ours(found: &[Found], prefix: &str, location: Option<&str>) -> (res: Vec<Machine>)
    ensures
        machine_views(res@) == ours(found@, prefix@, optional_str(location), found@.len()),
{
    let mut res: Vec<Machine> = Vec::new();
    let mut i: usize = 0;
    proof {
        assert(machine_views(res@) =~= Seq::<MachineView>::empty());
    }
    while i < found.len()
        invariant
            i <= found@.len(),
            machine_views(res@) == ours(found@, prefix@, optional_str(location), i as nat),
        decreases found@.len() - i,
    {
        let one = &found[i];
        if text::starts_with(one.name.as_str(), prefix) {
            let ghost known = res@;
            let machine = Machine {
                id: placed_id(location, one.id.as_str()),
                name: one.name.clone(),
                created_at: created(&one.created_at),
            };
            let ghost value = machine@;
            res.push(machine);
            proof {
                assert(machine_views(res@) =~= machine_views(known).push(value));
            }
        }
        i += 1;
    }
    res
}

/// A machine that was just created: its age counts from the time the API names,
/// or else from now.
pub fn newborn(found: &Found, location: Option<&str>, now: Moment) -> (res: Machine)
    ensures
        res@ == (MachineView {
            created_at: Some(
                match created_of(found.created_at) {
                    Some(moment) => moment,
                    None => now,
                },
            ),
            ..machine_of(*found, optional_str(location))
        }),
{
    Machine {
        id: placed_id(location, found.id.as_str()),
        name: found.name.clone(),
        created_at: match created(&found.created_at) {
            Some(moment) => Some(moment),
            None => Some(now),
        },
    }
}

/// The two parts of an id that also says where the machine is.
pub open spec fn splits_into(id: Seq<char>, location: Seq<char>, rest: Seq<char>) -> bool {
    id == composite_id(location, rest) && !location.contains('/')
}

/// What can be reached of the clouds: one backend for each provider with credentials.
pub struct Clouds<B> {
    pub backends: PerProvider<B>,
}

impl<B> Clouds<B> {
    /// Loads a backend for each provider that has a table, in their order; the
    /// first that cannot be loaded ends the loading.
    pub fn from_env<E, F: Fn(Provider) -> Result<B, E>>(config: &Config, load: F) -> (res: Result<
        Self,
        E,
    >)
        requires
            forall|kind: Provider| #[trigger]
                config.providers@.contains_key(kind) ==> call_requires(load, (kind,)),
        ensures
            match res {
                Ok(clouds) => {
                    &&& clouds.backends@.dom() == config.providers@.dom()
                    &&& forall|kind: Provider| #[trigger]
                        clouds.backends@.contains_key(kind) ==> call_ensures(
                            load,
                            (kind,),
                            Ok::<B, E>(clouds.backends@[kind]),
                        )
                },
                Err(why) => exists|kind: Provider|
                    {
                        &&& #[trigger] config.providers@.contains_key(kind)
                        &&& call_ensures(load, (kind,), Err::<B, E>(why))
                        &&& forall|before: Provider| #[trigger]
                            config.providers@.contains_key(before) && kinds::place_of(before)
                                < kinds::place_of(kind) ==> exists|backend: B|
                                call_ensures(load, (before,), Ok::<B, E>(backend))
                    },
            },
    {
        let mut backends: PerProvider<B> = PerProvider::new();
        let mut at: usize = 0;
        while at < PROVIDERS
            invariant
                at <= PROVIDERS,
                forall|kind: Provider| #[trigger]
                    config.providers@.contains_key(kind) ==> call_requires(load, (kind,)),
                forall|kind: Provider| #[trigger]
                    backends@.contains_key(kind) <==> config.providers@.contains_key(kind)
                        && kinds::place_of(kind) < at,
                forall|kind: Provider| #[trigger]
                    backends@.contains_key(kind) ==> call_ensures(
                        load,
                        (kind,),
                        Ok::<B, E>(backends@[kind]),
                    ),
            decreases PROVIDERS - at,
        {
            let kind = Provider::in_place(at);
            if config.providers.contains_key(kind) {
                match load(kind) {
                    Ok(backend) => {
                        backends.insert(kind, backend);
                    },
                    Err(why) => {
                        proof {
                            assert forall|before: Provider| #[trigger]
                                config.providers@.contains_key(before) && kinds::place_of(before)
                                    < kinds::place_of(kind) implies exists|backend: B|
                                call_ensures(load, (before,), Ok::<B, E>(backend)) by {
                                assert(backends@.contains_key(before));
                            }
                        }
                        return Err(why);
                    },
                }
            }
            at += 1;
        }
        proof {
            assert(backends@.dom() =~= config.providers@.dom());
        }
        Ok(Clouds { backends })
    }

    /// The providers that can be reached, in their order.
    pub fn kinds(&self) -> (res: Vec<Provider>)
        ensures
            res@ == kinds::kinds_of(self.backends@.dom(), PROVIDERS as nat),
    {
        self.backends.kinds()
    }

    /// The backend of a provider.
    pub fn get(&self, kind: Provider) -> (res: Result<&B, String>)
        ensures
            match res {
                Ok(backend) => self.backends@.contains_key(kind) && *backend
                    == self.backends@[kind],
                Err(why) => !self.backends@.contains_key(kind) && why@
                    == "no credentials loaded for "@ + kinds::provider_title(kind),
            },
    {
        match self.backends.get(kind) {
            Some(backend) => Ok(backend),
            None => Err("no credentials loaded for ".to_owned().concat(kind.title())),
        }
    }
}

/// An answer is a success from 200 on and below 300; a deletion also succeeds, and a
/// look finds nothing, where the answer is 404. Everything else is an error.
pub proof fn law_answers_go_by_their_code(
    reply: &Reply,
    what: &str,
    plain: Result<(), String>,
    gone: Result<(), String>,
    there: Result<bool, String>,
)
    requires
        call_ensures(accepted, (reply, what), plain),
        call_ensures(expect_gone, (reply, what), gone),
        call_ensures(present, (reply, what), there),
    ensures
        plain is Ok <==> 200 <= reply.code < 300,
        gone is Ok <==> 200 <= reply.code < 300 || reply.code == 404,
        there is Ok <==> 200 <= reply.code < 300 || reply.code == 404,
        there matches Ok(found) ==> (found <==> reply.code != 404),
{
}

/// A machine that was just made keeps the id and the name it was found with, in its
/// location where there is one, and has an age from the start.
pub proof fn law_a_newborn_has_an_age(
    found: &Found,
    location: Option<&str>,
    now: Moment,
    machine: Machine,
)
    requires
        call_ensures(newborn, (found, location, now), machine),
    ensures
        machine.name@ == found.name@,
        location is None ==> machine.id@ == found.id@,
        location matches Some(place) ==> machine.id@ == place@ + "/"@ + found.id@,
        machine.created_at is Some,
        found.created_at is None ==> machine.created_at == Some(now),
        (found.created_at matches Some(value) && rfc3339(value@) is None) ==> machine.created_at
            == Some(now),
        found.created_at matches Some(value) ==> (rfc3339(value@) matches Some((seconds, nanos))
            ==> machine.created_at == Some(Moment { seconds, nanos })),
{
}

/// The machine is the one that was found, in its location where there is one.
pub open spec fn is_found(machine: Machine, found: Found, location: Option<&str>) -> bool {
    &&& machine.name@ == found.name@
    &&& machine.id@ == match location {
        Some(place) => place@ + "/"@ + found.id@,
        None => found.id@,
    }
    &&& machine.created_at == match found.created_at {
        Some(value) => match rfc3339(value@) {
            Some((seconds, nanos)) => Some(Moment { seconds, nanos }),
            None => None,
        },
        None => None,
    }
}

/// The machine is one of those that were found, and its name starts with the prefix.
pub open spec fn comes_of(
    machine: Machine,
    found: Seq<Found>,
    prefix: Seq<char>,
    location: Option<&str>,
) -> bool {
    exists|i: int|
        0 <= i < found.len() && prefix.is_prefix_of((#[trigger] found[i]).name@) && is_found(
            machine,
            found[i],
            location,
        )
}

/// Of what is found exactly the machines whose names start with the prefix are kept.
pub proof fn law_ours_are_those_of_the_prefix(
    found: &[Found],
    prefix: &str,
    location: Option<&str>,
    res: Vec<Machine>,
)
    requires
        call_ensures(keep_ours, (found, prefix, location), res),
    ensures
        forall|i: int|
            0 <= i < found@.len() && prefix@.is_prefix_of((#[trigger] found@[i]).name@)
                ==> exists|k: int|
                0 <= k < res@.len() && is_found(#[trigger] res@[k], found@[i], location),
        forall|k: int|
            0 <= k < res@.len() ==> comes_of(#[trigger] res@[k], found@, prefix@, location),
{
    let all = ours(found@, prefix@, optional_str(location), found@.len());
    assert(machine_views(res@) == all);
    lemma_ours_both(found@, prefix@, optional_str(location), found@.len());
    assert forall|i: int|
        0 <= i < found@.len() && prefix@.is_prefix_of(
            (#[trigger] found@[i]).name@,
        ) implies exists|k: int|
        0 <= k < res@.len() && is_found(#[trigger] res@[k], found@[i], location) by {
        let value = machine_of(found@[i], optional_str(location));
        assert(all.contains(value));
        let k = choose|k: int| 0 <= k < all.len() && all[k] == value;
        assert(machine_views(res@)[k] == res@[k]@);
        assert(is_found(res@[k], found@[i], location));
    }
    assert forall|k: int| 0 <= k < res@.len() implies comes_of(
        #[trigger] res@[k],
        found@,
        prefix@,
        location,
    ) by {
        assert(machine_views(res@)[k] == res@[k]@);
        assert(all[k] == res@[k]@);
        let i = choose|i: int|
            0 <= i < found@.len() && prefix@.is_prefix_of((#[trigger] found@[i]).name@) && all[k]
                == machine_of(found@[i], optional_str(location));
        assert(is_found(res@[k], found@[i], location));
    }
}

proof fn lemma_ours_both(
    found: Seq<Found>,
    prefix: Seq<char>,
    location: Option<Seq<char>>,
    n: nat,
)
    requires
        n <= found.len(),
    ensures
        forall|i: int|
            0 <= i < n && prefix.is_prefix_of((#[trigger] found[i]).name@) ==> ours(
                found,
                prefix,
                location,
                n,
            ).contains(machine_of(found[i], location)),
        forall|k: int|
            0 <= k < ours(found, prefix, location, n).len() ==> exists|i: int|
                0 <= i < n && prefix.is_prefix_of((#[trigger] found[i]).name@)
                    && #[trigger] ours(found, prefix, location, n)[k] == machine_of(
                    found[i],
                    location,
                ),
    decreases n,
{
    if n > 0 {
        let rest = ours(found, prefix, location, (n - 1) as nat);
        let all = ours(found, prefix, location, n);
        let last = machine_of(found[n - 1], location);
        lemma_ours_both(found, prefix, location, (n - 1) as nat);
        text::lemma_contains_push(rest, last);
        assert forall|k: int| 0 <= k < all.len() implies exists|i: int|
            0 <= i < n && prefix.is_prefix_of((#[trigger] found[i]).name@)
                && #[trigger] all[k] == machine_of(found[i], location) by {
            if k < rest.len() {
                assert(all[k] == rest[k]);
                let i = choose|i: int|
                    0 <= i < n - 1 && prefix.is_prefix_of((#[trigger] found[i]).name@) && rest[k]
                        == machine_of(found[i], location);
                assert(all[k] == machine_of(found[i], location));
            } else {
                assert(all[k] == machine_of(found[n - 1], location));
            }
        }
    }
}

/// A class is tried with each plan in each of its locations: the first plan in every
/// location first, in their order, then the next plan.
pub proof fn law_placements_are_tried_plan_by_plan(
    class: &Class,
    res: Vec<Placement>,
    plan: int,
    location: int,
)
    requires
        call_ensures(placements, (class,), res),
        0 <= plan < class.plans@.len(),
        0 <= location < class.locations@.len(),
    ensures
        res@.len() == class.plans@.len() * class.locations@.len(),
        res@[plan * class.locations@.len() + location].plan@ == class.plans@[plan]@,
        res@[plan * class.locations@.len() + location].location@ == class.locations@[location]@,
{
    law_every_plan_in_every_location(class@, plan, location);
    let width = class.locations@.len();
    let at = plan * width + location;
    assert(0 <= at < class.plans@.len() * width) by (nonlinear_arith)
        requires
            0 <= plan < class.plans@.len(),
            0 <= location < width,
            at == plan * width + location,
    ;
    assert(placement_views(res@)[at] == res@[at]@);
    assert(class@.plans[plan] == class.plans@[plan]@);
    assert(class@.locations[location] == class.locations@[location]@);
}

} // verus!
