//! The providers, and tables that hold one value per provider.

use vstd::prelude::*;

verus! {

#[derive(Debug, Clone, Copy, PartialEq, Eq, Hash, PartialOrd, Ord, Structural)]
pub enum Provider {
    Cherry,
    Gcore,
    Hetzner,
    Scaleway,
    Vultr,
}

/// How many providers there are.
pub const PROVIDERS: usize = 5;

/// The providers in their order.
pub open spec fn provider_in_place(at: int) -> Provider {
    if at == 0 {
        Provider::Cherry
    } else if at == 1 {
        Provider::Gcore
    } else if at == 2 {
        Provider::Hetzner
    } else if at == 3 {
        Provider::Scaleway
    } else {
        Provider::Vultr
    }
}

/// The place of a provider among all of them.
pub open spec fn place_of(kind: Provider) -> int {
    match kind {
        Provider::Cherry => 0,
        Provider::Gcore => 1,
        Provider::Hetzner => 2,
        Provider::Scaleway => 3,
        Provider::Vultr => 4,
    }
}

/// Every provider has its place.
pub proof fn lemma_place_of(kind: Provider)
    ensures
        0 <= place_of(kind) < PROVIDERS,
        provider_in_place(place_of(kind)) == kind,
{
}

/// The name a configuration, a label set and a message use.
pub open spec fn provider_name(kind: Provider) -> Seq<char> {
    match kind {
        Provider::Cherry => "cherry"@,
        Provider::Gcore => "gcore"@,
        Provider::Hetzner => "hetzner"@,
        Provider::Scaleway => "scaleway"@,
        Provider::Vultr => "vultr"@,
    }
}

/// The name an alert uses.
pub open spec fn provider_title(kind: Provider) -> Seq<char> {
    match kind {
        Provider::Cherry => "Cherry"@,
        Provider::Gcore => "Gcore"@,
        Provider::Hetzner => "Hetzner"@,
        Provider::Scaleway => "Scaleway"@,
        Provider::Vultr => "Vultr"@,
    }
}

impl Provider {
    /// The provider in place `at`, of `PROVIDERS`.
    pub fn in_place(at: usize) -> (res: Provider)
        requires
            at < PROVIDERS,
        ensures
            res == provider_in_place(at as int),
    {
        if at == 0 {
            Provider::Cherry
        } else if at == 1 {
            Provider::Gcore
        } else if at == 2 {
            Provider::Hetzner
        } else if at == 3 {
            Provider::Scaleway
        } else {
            Provider::Vultr
        }
    }

    pub fn as_str(self) -> (res: &'static str)
        ensures
            res@ == provider_name(self),
    {
        match self {
            Provider::Cherry => "cherry",
            Provider::Gcore => "gcore",
            Provider::Hetzner => "hetzner",
            Provider::Scaleway => "scaleway",
            Provider::Vultr => "vultr",
        }
    }

    /// The name with a capital letter.
    pub fn title(self) -> (res: &'static str)
        ensures
            res@ == provider_title(self),
    {
        match self {
            Provider::Cherry => "Cherry",
            Provider::Gcore => "Gcore",
            Provider::Hetzner => "Hetzner",
            Provider::Scaleway => "Scaleway",
            Provider::Vultr => "Vultr",
        }
    }
}

/// A value for some of the providers.
#[derive(Debug)]
pub struct PerProvider<V> {
    cherry: Option<V>,
    gcore: Option<V>,
    hetzner: Option<V>,
    scaleway: Option<V>,
    vultr: Option<V>,
}

impl<V> View for PerProvider<V> {
    type V = Map<Provider, V>;

    closed spec fn view(&self) -> Map<Provider, V> {
        Map::new(|kind: Provider| self.slot(kind) is Some, |kind: Provider| self.slot(kind)->0)
    }
}

impl<V> PerProvider<V> {
    spec fn slot(&self, kind: Provider) -> Option<V> {
        match kind {
            Provider::Cherry => self.cherry,
            Provider::Gcore => self.gcore,
            Provider::Hetzner => self.hetzner,
            Provider::Scaleway => self.scaleway,
            Provider::Vultr => self.vultr,
        }
    }

    /// No provider has a value.
    pub fn new() -> (res: Self)
        ensures
            res@ == Map::<Provider, V>::empty(),
    {
        let res = PerProvider {
            cherry: None,
            gcore: None,
            hetzner: None,
            scaleway: None,
            vultr: None,
        };
        proof {
            assert(res@ =~= Map::<Provider, V>::empty());
        }
        res
    }

    /// Gives the provider the value, in place of the one it had.
    pub fn insert(&mut self, kind: Provider, value: V)
        ensures
            final(self)@ == old(self)@.insert(kind, value),
    {
        match kind {
            Provider::Cherry => {
                self.cherry = Some(value);
            },
            Provider::Gcore => {
                self.gcore = Some(value);
            },
            Provider::Hetzner => {
                self.hetzner = Some(value);
            },
            Provider::Scaleway => {
                self.scaleway = Some(value);
            },
            Provider::Vultr => {
                self.vultr = Some(value);
            },
        }
        proof {
            assert(self@ =~= old(self)@.insert(kind, value));
        }
    }

    /// The provider's value.
    pub fn get(&self, kind: Provider) -> (res: Option<&V>)
        ensures
            match res {
                Some(value) => self@.contains_key(kind) && *value == self@[kind],
                None => !self@.contains_key(kind),
            },
    {
        match kind {
            Provider::Cherry => self.cherry.as_ref(),
            Provider::Gcore => self.gcore.as_ref(),
            Provider::Hetzner => self.hetzner.as_ref(),
            Provider::Scaleway => self.scaleway.as_ref(),
            Provider::Vultr => self.vultr.as_ref(),
        }
    }

    /// Whether the provider has a value.
    pub fn contains_key(&self, kind: Provider) -> (res: bool)
        ensures
            res == self@.contains_key(kind),
    {
        self.get(kind).is_some()
    }

    /// Whether no provider has a value.
    pub fn is_empty(&self) -> (res: bool)
        ensures
            res == (self@ == Map::<Provider, V>::empty()),
    {
        let res = self.cherry.is_none() && self.gcore.is_none() && self.hetzner.is_none()
            && self.scaleway.is_none() && self.vultr.is_none();
        proof {
            if res {
                assert(self@ =~= Map::<Provider, V>::empty());
            } else {
                assert(self@.contains_key(Provider::Cherry) || self@.contains_key(Provider::Gcore)
                    || self@.contains_key(Provider::Hetzner) || self@.contains_key(
                    Provider::Scaleway,
                ) || self@.contains_key(Provider::Vultr));
            }
        }
        res
    }

    /// The providers that have a value, in their order.
    pub fn kinds(&self) -> (res: Vec<Provider>)
        ensures
            res@ == kinds_of(self@.dom(), PROVIDERS as nat),
    {
        let mut res: Vec<Provider> = Vec::new();
        let mut at: usize = 0;
        while at < PROVIDERS
            invariant
                at <= PROVIDERS,
                res@ == kinds_of(self@.dom(), at as nat),
            decreases PROVIDERS - at,
        {
            let kind = Provider::in_place(at);
            if self.contains_key(kind) {
                res.push(kind);
            }
            at += 1;
        }
        res
    }
}

/// The first `n` providers, without those outside `chosen`.
pub open spec fn kinds_of(chosen: Set<Provider>, n: nat) -> Seq<Provider>
    decreases n,
{
    if n == 0 {
        Seq::empty()
    } else {
        let rest = kinds_of(chosen, (n - 1) as nat);
        let kind = provider_in_place(n - 1);
        if chosen.contains(kind) {
            rest.push(kind)
        } else {
            rest
        }
    }
}

} // verus!
