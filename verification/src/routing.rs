//! Providers that stand for others: one that routes by name, one that routes by tier.
use vstd::prelude::*;

use crate::names::{lookup, put, NameMap};
use crate::providers::{Model, ModelV, ProviderError, ProviderErrorV};
use crate::text::{concat3, number_value, parse_usize, views};

verus! {

/// A provider that fronts others and forwards each request to the one that the model names.
/// The model goes through unchanged.
pub struct VirtualProvider<P> {
    name: String,
    providers: NameMap<P>,
}

impl<P> VirtualProvider<P> {
    /// The name that the provider goes by.
    pub closed spec fn called(self) -> Seq<char> {
        self.name@
    }

    /// The backends, by name.
    pub closed spec fn backends(self) -> Seq<(Seq<char>, P)> {
        self.providers@
    }

    /// One without backends.
    pub fn new(name: &str) -> (r: Self)
        ensures
            r.called() == name@,
            r.backends() == Seq::<(Seq<char>, P)>::empty(),
    {
        VirtualProvider { name: name.to_owned(), providers: NameMap::new() }
    }

    /// Puts a backend under a name, in the place of the one that was there.
    pub fn provider(self, name: &str, provider: P) -> (r: Self)
        ensures
            r.called() == self.called(),
            r.backends() == put(self.backends(), name@, provider),
    {
        let mut providers = self.providers;
        providers.insert(name.to_owned(), provider);
        VirtualProvider { name: self.name, providers }
    }

    /// The name that the provider goes by.
    pub fn name(&self) -> (r: &str)
        ensures
            r@ == self.called(),
    {
        self.name.as_str()
    }

    /// The backend that a request with the model goes to.
    pub fn select(&self, model: &Model) -> (r: Result<&P, ProviderError>)
        ensures
            match r {
                Ok(p) => lookup(self.backends(), model@.provider) == Some(*p),
                Err(e) => lookup(self.backends(), model@.provider) is None && e@ == no_backend(
                    model@.provider,
                    self.called(),
                ),
            },
    {
        match self.providers.get(model.provider.as_str()) {
            Some(p) => Ok(p),
            None => {
                let mut text = concat3(
                    "no provider '",
                    model.provider.as_str(),
                    "' registered with virtual provider '",
                );
                text.append(self.name.as_str());
                text.append("'");
                Err(ProviderError::RequestFailed(text))
            },
        }
    }
}

/// The error for a model that names no backend.
pub open spec fn no_backend(provider: Seq<char>, name: Seq<char>) -> ProviderErrorV {
    ProviderErrorV::RequestFailed(
        "no provider '"@ + provider + "' registered with virtual provider '"@ + name + "'"@,
    )
}

/// Which of `count` tiers an index stands for: itself, or the last one behind the end.
pub open spec fn clamped(index: nat, count: nat) -> int {
    if index < count {
        index as int
    } else {
        count - 1
    }
}

/// The model that a request is for: the model itself where it names a backend, and else the
/// tier that its id counts to. The first tier is the best; past the last one it stays the
/// last one.
pub open spec fn tier_target(name: Seq<char>, tiers: Seq<ModelV>, model: ModelV) -> Result<
    ModelV,
    ProviderErrorV,
> {
    if model.provider.len() > 0 {
        Ok(model)
    } else if tiers.len() == 0 {
        Err(
            ProviderErrorV::RequestFailed(
                "no tiers configured for tier provider '"@ + name + "'"@,
            ),
        )
    } else {
        match number_value(model.id) {
            Some(n) if n <= usize::MAX => Ok(tiers[clamped(n, tiers.len())]),
            _ => Err(ProviderErrorV::ModelNotFound(model.id)),
        }
    }
}

/// Backends with their names.
pub open spec fn named<P>(providers: Seq<(String, P)>) -> Seq<(Seq<char>, P)> {
    Seq::new(providers.len(), |i: int| (providers[i].0@, providers[i].1))
}

/// The backends once each was put under its name, one after the other.
pub open spec fn put_all<P>(pairs: Seq<(Seq<char>, P)>) -> Seq<(Seq<char>, P)>
    decreases pairs.len(),
{
    if pairs.len() == 0 {
        Seq::empty()
    } else {
        put(put_all(pairs.drop_last()), pairs.last().0, pairs.last().1)
    }
}

/// A provider whose models are tiers: `0` is the best one, larger numbers are lesser ones.
pub struct TierProvider<P> {
    inner: VirtualProvider<P>,
    tiers: Vec<Model>,
}

impl<P> TierProvider<P> {
    /// The name that the provider goes by.
    pub closed spec fn called(self) -> Seq<char> {
        self.inner.called()
    }

    /// The tiers, the best one first.
    pub closed spec fn tiers(self) -> Seq<ModelV> {
        views(self.tiers@)
    }

    /// The backends, by name.
    pub closed spec fn backends(self) -> Seq<(Seq<char>, P)> {
        self.inner.backends()
    }

    /// A provider over an ordered list of tiers and the backends that they name.
    pub fn new(name: &str, tiers: Vec<Model>, providers: Vec<(String, P)>) -> (r: Self)
        ensures
            r.called() == name@,
            r.tiers() == views(tiers@),
            r.backends() == put_all(named(providers@)),
    {
        let ghost all = named(providers@);
        let ghost mut done: int = 0;
        let mut rest = providers;
        let mut inner = VirtualProvider::new(name);
        proof {
            assert(all.take(0) =~= Seq::empty());
            assert(all.skip(0) =~= all);
        }
        while rest.len() > 0
            invariant
                0 <= done <= all.len(),
                named(rest@) == all.skip(done),
                inner.called() == name@,
                inner.backends() == put_all(all.take(done)),
            decreases rest@.len(),
        {
            let ghost ahead = rest@;
            let (backend, provider) = rest.remove(0);
            proof {
                assert(named(ahead).len() == ahead.len());
                assert(all.skip(done).len() == all.len() - done);
                assert(named(ahead)[0] == (backend@, provider));
                assert(all.skip(done)[0] == all[done]);
                assert(named(rest@) =~= named(ahead).skip(1));
                assert(all.skip(done).skip(1) =~= all.skip(done + 1));
                assert(all.take(done + 1).drop_last() =~= all.take(done));
                assert(all.take(done + 1).last() == all[done]);
                done = done + 1;
            }
            inner = inner.provider(backend.as_str(), provider);
        }
        proof {
            assert(named(rest@).len() == 0);
            assert(all.take(done) =~= all);
        }
        TierProvider { inner, tiers }
    }

    /// The name that the provider goes by.
    pub fn name(&self) -> (r: &str)
        ensures
            r@ == self.called(),
    {
        self.inner.name()
    }

    /// The model that a request is for.
    pub fn target<'a>(&'a self, model: &'a Model) -> (r: Result<&'a Model, ProviderError>)
        ensures
            match r {
                Ok(m) => tier_target(self.called(), self.tiers(), model@) == Ok::<
                    ModelV,
                    ProviderErrorV,
                >(m@),
                Err(e) => tier_target(self.called(), self.tiers(), model@) == Err::<
                    ModelV,
                    ProviderErrorV,
                >(e@),
            },
    {
        if !model.provider.as_str().is_empty() {
            return Ok(model);
        }
        if self.tiers.len() == 0 {
            let text = concat3(
                "no tiers configured for tier provider '",
                self.inner.name(),
                "'",
            );
            return Err(ProviderError::RequestFailed(text));
        }
        match parse_usize(model.id.as_str()) {
            Some(requested) => {
                let last: usize = self.tiers.len() - 1;
                let index: usize = if requested < last {
                    requested
                } else {
                    last
                };
                assert(self.tiers()[index as int] == self.tiers@[index as int]@);
                Ok(&self.tiers[index])
            },
            None => Err(ProviderError::ModelNotFound(model.id.clone())),
        }
    }

    /// The backend that a request goes to, with the model that it is for.
    pub fn route<'a>(&'a self, model: &'a Model) -> (r: Result<(&'a Model, &'a P), ProviderError>)
        ensures
            match (tier_target(self.called(), self.tiers(), model@), r) {
                (Ok(target), Ok((m, p))) => m@ == target && lookup(
                    self.backends(),
                    target.provider,
                ) == Some(*p),
                (Ok(target), Err(e)) => lookup(self.backends(), target.provider) is None && e@
                    == no_backend(target.provider, self.called()),
                (Err(error), Err(e)) => e@ == error,
                (Err(_), Ok(_)) => false,
            },
    {
        match self.target(model) {
            Ok(target) => match self.inner.select(target) {
                Ok(p) => Ok((target, p)),
                Err(e) => Err(e),
            },
            Err(e) => Err(e),
        }
    }
}

/// A tier number never leaves the list: every number picks a tier, and one that is past the
/// end picks the last one.
pub proof fn law_tiers_are_clamped(name: Seq<char>, tiers: Seq<ModelV>, model: ModelV, n: nat)
    requires
        model.provider.len() == 0,
        tiers.len() > 0,
        number_value(model.id) == Some(n),
        n <= usize::MAX,
    ensures
        n < tiers.len() ==> tier_target(name, tiers, model) == Ok::<ModelV, ProviderErrorV>(
            tiers[n as int],
        ),
        n >= tiers.len() ==> tier_target(name, tiers, model) == Ok::<ModelV, ProviderErrorV>(
            tiers.last(),
        ),
{
}

/// A model that names its backend is forwarded as it is, whatever the tiers are.
pub proof fn law_named_backend_bypasses_tiers(name: Seq<char>, tiers: Seq<ModelV>, model: ModelV)
    requires
        model.provider.len() > 0,
    ensures
        tier_target(name, tiers, model) == Ok::<ModelV, ProviderErrorV>(model),
{
}

/// A request that cannot be forwarded says why: the model names no number, or there are no tiers,
/// or there is no backend of the name that it gives.
pub proof fn law_unroutable_requests_are_refused(
    name: Seq<char>,
    tiers: Seq<ModelV>,
    model: ModelV,
    provider: Seq<char>,
)
    ensures
        model.provider.len() == 0 && tiers.len() > 0 && number_value(model.id) is None
            ==> tier_target(name, tiers, model) == Err::<ModelV, ProviderErrorV>(
            ProviderErrorV::ModelNotFound(model.id),
        ),
        model.provider.len() == 0 && tiers.len() == 0 ==> (tier_target(name, tiers, model) matches
            Err(ProviderErrorV::RequestFailed(m)) && crate::text::ends_with(m, name + "'"@)),
        no_backend(provider, name) matches ProviderErrorV::RequestFailed(m) && (
        "no provider '"@ + provider + "'"@).is_prefix_of(m) && crate::text::ends_with(
            m,
            name + "'"@,
        ),
        tier_target(name, tiers, model) matches Ok(target) ==> target == model || tiers.contains(
            target,
        ),
{
    let lead = "no tiers configured for tier provider '"@;
    crate::text::lemma_ends_with(lead, name + "'"@);
    assert(lead + name + "'"@ =~= lead + (name + "'"@));
    let front = "no provider '"@ + provider;
    let middle = "' registered with virtual provider '"@;
    let all = front + middle + name + "'"@;
    crate::text::lemma_ends_with(front + middle, name + "'"@);
    assert(all =~= front + middle + (name + "'"@));
    reveal_strlit("' registered with virtual provider '");
    reveal_strlit("'");
    assert("'"@.len() == 1);
    assert(middle.take(1) =~= "'"@);
    assert(all.take((front + "'"@).len() as int) =~= front + "'"@);
}

/// Of backends under one name the last one counts, and the others are found under their own.
pub proof fn law_the_last_backend_of_a_name_counts<P>(
    pairs: Seq<(Seq<char>, P)>,
    name: Seq<char>,
    backend: P,
    other: Seq<char>,
)
    ensures
        lookup(put_all(pairs.push((name, backend))), name) == Some(backend),
        other != name ==> lookup(put_all(pairs.push((name, backend))), other) == lookup(
            put_all(pairs),
            other,
        ),
        put_all(Seq::<(Seq<char>, P)>::empty()).len() == 0,
{
    assert(pairs.push((name, backend)).drop_last() =~= pairs);
    crate::names::law_put(put_all(pairs), name, backend, other);
}

/// Backends keep their names and their order.
pub proof fn law_backends_keep_their_names<P>(providers: Seq<(String, P)>, i: int)
    requires
        0 <= i < providers.len(),
    ensures
        named(providers).len() == providers.len(),
        named(providers)[i].0 == providers[i].0@,
        named(providers)[i].1 == providers[i].1,
{
}

} // verus!
