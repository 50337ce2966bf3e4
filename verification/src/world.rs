//! The marketplace: the actors, the engine, and the protocol that ties them.
//!
//! The world holds the requestors, the providers and the engine, and offers
//! the steps of the protocol one by one. Whoever runs a replication takes
//! the events from the engine and calls the step that belongs to each; the
//! factors and samples that a step needs are handed in with it.

use vstd::prelude::*;
use crate::defence::{
    first_unrated, lemma_unbanned_sound, unbanned, Assignment, Offer, StatisticsDue, TaskStatistics,
};
use crate::engine::{lemma_joined_from, Engine, EngineState, Scheduled};
use crate::error::SimulationError;
use crate::fixed::Fixed;
use crate::id::{Id, IdSource};
use crate::id_map::{index_of, keyed, lemma_entry_at, lemma_index_of, put, put_all, IdMap};
use crate::provider::{Behaviour, Provider, ProviderCommon};
use crate::requestor::Requestor;
use crate::task::{Status, SubTask};

verus! {

/// What the engine can bring about.
#[derive(Clone, Copy, Debug, PartialEq, Eq, Structural)]
pub enum Event {
    /// The requestor advertises its task.
    TaskAdvertisement(Id),
    /// The provider (second identifier) has computed the subtask for the
    /// requestor (first identifier) at the price agreed.
    SubTaskComputed(SubTask, Id, Id, Fixed),
    /// The provider (second identifier) has used up the budget of the
    /// subtask of the requestor (first identifier).
    SubTaskBudgetExceeded(SubTask, Id, Id),
}

/// What the step for an event needs from outside the world.
#[derive(Debug)]
pub struct Numerics {
    /// For an advertisement: for each provider, in their order, the factor
    /// by which its profit margin falls if it accepts a subtask, which is e
    /// to the minus exponent that the world gives for it.
    pub decays: Vec<Fixed>,
    /// For a subtask computed: the factor by which the profit margin of the
    /// provider rises, which is e to the exponent that the world gives for it.
    pub growth: Fixed,
    /// For a subtask computed by a regular provider: the factor by which its
    /// measurement is off, which is one plus a normal deviate.
    pub noise: Fixed,
}

/// What the caller must work out before the step for an event.
#[derive(Debug)]
pub enum Demand {
    Nothing,
    /// For each provider, in their order, e to the minus exponent given.
    Decays(Vec<Fixed>),
    /// e to the exponent given and, where `noise` holds, one plus a normal
    /// deviate for the error of a regular provider's measurement.
    Growth { exponent: Fixed, noise: bool },
}

/// What is to follow the step for an event.
#[derive(Clone, Copy, Debug, PartialEq, Eq, Structural)]
pub enum FollowUp {
    Nothing,
    /// Every requestor advertises.
    Advertise,
    /// The requestor ends its task if the task is done; then every requestor
    /// advertises.
    CompleteAndAdvertise(Id),
}

/// The offers of the providers that are idle, in the order of the providers.
pub open spec fn offers(providers: Seq<(Id, Provider)>) -> Seq<Offer>
    decreases providers.len(),
{
    if providers.len() == 0 {
        Seq::empty()
    } else {
        match providers.last().1.common().offer() {
            Some(price) => offers(providers.drop_last()).push((providers.last().0, price)),
            None => offers(providers.drop_last()),
        }
    }
}

/// Every offer is made by one of the providers.
pub proof fn lemma_offers_from(providers: Seq<(Id, Provider)>, k: int)
    requires
        0 <= k < offers(providers).len(),
    ensures
        keyed(providers, offers(providers)[k].0),
    decreases providers.len(),
{
    if providers.len() > 0 {
        let rest = offers(providers.drop_last());
        if k < rest.len() {
            lemma_offers_from(providers.drop_last(), k);
            let j = index_of(providers.drop_last(), rest[k].0);
            assert(providers[j].0 == rest[k].0);
        } else {
            assert(providers[providers.len() - 1].0 == offers(providers)[k].0);
        }
    }
}

/// The providers and the engine once `assignments` have been delivered in
/// their order: each provider accepts its subtask, its profit margin falls
/// by the factor that `decays` holds at its place, and the end of its work
/// is scheduled. An assignment to a provider that is not there is passed over.
pub open spec fn delivered_to(
    providers: Seq<(Id, Provider)>,
    engine: EngineState<Event>,
    assignments: Seq<Assignment>,
    decays: Seq<Fixed>,
    requestor_id: Id,
) -> (Seq<(Id, Provider)>, EngineState<Event>)
    decreases assignments.len(),
{
    if assignments.len() == 0 {
        (providers, engine)
    } else {
        let before = delivered_to(
            providers,
            engine,
            assignments.drop_last(),
            decays,
            requestor_id,
        );
        let (provider_id, subtask, bid) = assignments.last();
        if keyed(before.0, provider_id) {
            let j = index_of(before.0, provider_id);
            let provider = before.0[j].1;
            (
                before.0.update(
                    j,
                    (
                        provider_id,
                        provider.with_common(provider.common().engaged(before.1.now, decays[j])),
                    ),
                ),
                before.1.scheduled(
                    provider.common().working_time(subtask, bid),
                    provider.common().outcome(subtask, requestor_id, bid),
                ),
            )
        } else {
            before
        }
    }
}

/// Delivering assignments leaves the providers under their identifiers.
pub proof fn lemma_delivered_keys(
    providers: Seq<(Id, Provider)>,
    engine: EngineState<Event>,
    assignments: Seq<Assignment>,
    decays: Seq<Fixed>,
    requestor_id: Id,
)
    ensures
        delivered_to(providers, engine, assignments, decays, requestor_id).0.len()
            == providers.len(),
        forall|j: int|
            0 <= j < providers.len() ==> (#[trigger] delivered_to(
                providers,
                engine,
                assignments,
                decays,
                requestor_id,
            ).0[j]).0 == providers[j].0,
        delivered_to(providers, engine, assignments, decays, requestor_id).1.now == engine.now,
    decreases assignments.len(),
{
    if assignments.len() > 0 {
        lemma_delivered_keys(providers, engine, assignments.drop_last(), decays, requestor_id);
        let before = delivered_to(
            providers,
            engine,
            assignments.drop_last(),
            decays,
            requestor_id,
        );
        if keyed(before.0, assignments.last().0) {
            lemma_index_of(before.0, assignments.last().0);
        }
    }
}

/// The benchmarks of the providers, in their order.
pub open spec fn benchmarks(providers: Seq<(Id, Provider)>) -> Seq<(Id, Fixed)> {
    providers.map_values(|e: (Id, Provider)| (e.0, e.1.common().usage_factor))
}

/// The requestors, each with its identifier.
pub open spec fn keyed_requestors(requestors: Seq<Requestor>) -> Seq<(Id, Requestor)> {
    requestors.map_values(|r: Requestor| (r.id, r))
}

/// The providers, each with its identifier.
pub open spec fn keyed_providers(providers: Seq<Provider>) -> Seq<(Id, Provider)> {
    providers.map_values(|p: Provider| (p.common().id, p))
}

/// The identifiers of the requestors, in their order.
pub open spec fn keys(requestors: Seq<(Id, Requestor)>) -> Seq<Id> {
    requestors.map_values(|e: (Id, Requestor)| e.0)
}

/// The marketplace.
#[derive(Debug)]
pub struct World {
    pub engine: Engine<Event>,
    pub requestors: IdMap<Requestor>,
    pub providers: IdMap<Provider>,
    /// The counter from which copies of tasks take their identifiers.
    pub ids: IdSource,
}

impl World {
    /// The world's invariant: that of its parts; every actor stands under
    /// its own identifier; and no event in the engine names an actor that the
    /// world does not hold.
    pub open spec fn wf(&self) -> bool {
        &&& self.actors_wf()
        &&& self.events_known()
    }

    /// The world holds every actor that `event` names.
    pub open spec fn names_known(&self, event: Event) -> bool {
        match event {
            Event::TaskAdvertisement(requestor_id) => self.requestors.contains(requestor_id),
            Event::SubTaskComputed(_, requestor_id, provider_id, _) => self.requestors.contains(
                requestor_id,
            ) && self.providers.contains(provider_id),
            Event::SubTaskBudgetExceeded(_, requestor_id, provider_id) => self.requestors.contains(
                requestor_id,
            ) && self.providers.contains(provider_id),
        }
    }

    /// The world holds every actor that an event in the engine names.
    pub open spec fn events_known(&self) -> bool {
        forall|i: int|
            0 <= i < self.engine@.queue.len() ==> self.names_known(
                (#[trigger] self.engine@.queue[i]).event,
            )
    }

    /// The engine and the actors hold their invariants, and every actor
    /// stands under its own identifier.
    pub open spec fn actors_wf(&self) -> bool {
        &&& self.engine.wf()
        &&& self.requestors.wf()
        &&& self.providers.wf()
        &&& forall|i: int|
            0 <= i < self.requestors.entries@.len() ==> (#[trigger] self.requestors.entries@[i]).1.wf()
                && self.requestors.entries@[i].1.id == self.requestors.entries@[i].0
        &&& forall|i: int|
            0 <= i < self.providers.entries@.len() ==> (
            #[trigger] self.providers.entries@[i]).1.common().id == self.providers.entries@[i].0
    }

    /// The two worlds hold the same.
    pub open spec fn same(&self, after: &World) -> bool {
        &&& after.engine@ == self.engine@
        &&& after.requestors.entries@ == self.requestors.entries@
        &&& after.providers.entries@ == self.providers.entries@
        &&& after.ids == self.ids
    }

    /// The two worlds hold the same requestors, but for the one at `i`.
    pub open spec fn same_requestors_but(&self, after: &World, i: int) -> bool {
        &&& after.requestors.entries@.len() == self.requestors.entries@.len()
        &&& forall|j: int|
            0 <= j < self.requestors.entries@.len() ==> (#[trigger] after.requestors.entries@[j]).0
                == self.requestors.entries@[j].0
        &&& forall|j: int|
            0 <= j < self.requestors.entries@.len() && j != i
                ==> #[trigger] after.requestors.entries@[j] == self.requestors.entries@[j]
    }

    /// The two worlds hold the same providers, but for the one at `i`.
    pub open spec fn same_providers_but(&self, after: &World, i: int) -> bool {
        &&& after.providers.entries@.len() == self.providers.entries@.len()
        &&& forall|j: int|
            0 <= j < self.providers.entries@.len() ==> (#[trigger] after.providers.entries@[j]).0
                == self.providers.entries@[j].0
        &&& forall|j: int|
            0 <= j < self.providers.entries@.len() && j != i
                ==> #[trigger] after.providers.entries@[j] == self.providers.entries@[j]
    }

    /// Where the requestor `id` stands.
    pub open spec fn requestor_at(&self, id: Id) -> int {
        index_of(self.requestors.entries@, id)
    }

    /// Where the provider `id` stands.
    pub open spec fn provider_at(&self, id: Id) -> int {
        index_of(self.providers.entries@, id)
    }

    /// The requestor `id`.
    pub open spec fn requestor(&self, id: Id) -> Requestor {
        self.requestors.value(id)
    }

    /// The provider `id`.
    pub open spec fn provider(&self, id: Id) -> Provider {
        self.providers.value(id)
    }

    /// The error, if any, with which a step that concerns the requestor
    /// `requestor_id` and the provider `provider_id` is refused.
    pub open spec fn missing(&self, requestor_id: Id, provider_id: Id) -> Option<SimulationError> {
        if !self.requestors.contains(requestor_id) {
            Some(SimulationError::RequestorNotFound(requestor_id))
        } else if !self.providers.contains(provider_id) {
            Some(SimulationError::ProviderNotFound(provider_id))
        } else {
            None
        }
    }

    /// A world without actors, its clock at zero. Copies of tasks will take
    /// their identifiers from `ids`.
    pub fn new(ids: IdSource) -> (r: World)
        ensures
            r.wf(),
            r.engine@.now.raw == 0,
            r.engine@.queue.len() == 0,
            r.requestors.entries@.len() == 0,
            r.providers.entries@.len() == 0,
            r.ids == ids,
    {
        World { engine: Engine::new(), requestors: IdMap::new(), providers: IdMap::new(), ids }
    }

    /// The time on the clock.
    pub fn now(&self) -> (r: Fixed)
        ensures
            r == self.engine@.now,
    {
        self.engine.now()
    }

    /// Adds `requestor`, in place of the requestor with the same identifier
    /// if there is one.
    pub fn push_requestor(&mut self, requestor: Requestor)
        requires
            old(self).wf(),
            requestor.wf(),
        ensures
            final(self).wf(),
            final(self).engine == old(self).engine,
            final(self).providers == old(self).providers,
            final(self).ids == old(self).ids,
            final(self).requestors.entries@ == put(
                old(self).requestors.entries@,
                requestor.id,
                requestor,
            ),
            final(self).requestors.contains(requestor.id),
            final(self).requestor(requestor.id) == requestor,
            forall|k: Id| #[trigger]
                final(self).requestors.contains(k) <==> (k == requestor.id || old(self).requestors.contains(k)),
            forall|k: Id|
                k != requestor.id && old(self).requestors.contains(k) ==> #[trigger] final(self).requestor(k) == old(self).requestor(k),
            old(self).requestors.contains(requestor.id) ==> final(self).requestors.entries@ == old(self).requestors.entries@.update(
                old(self).requestor_at(requestor.id),
                (requestor.id, requestor),
            ),
            !old(self).requestors.contains(requestor.id) ==> final(self).requestors.entries@
                == old(self).requestors.entries@.push((requestor.id, requestor)),
    {
        let id = requestor.id;
        let _ = self.requestors.insert(id, requestor);
    }

    /// Adds `requestors` in their order, each as `push_requestor` does.
    pub fn append_requestors(&mut self, requestors: Vec<Requestor>)
        requires
            old(self).wf(),
            forall|i: int| 0 <= i < requestors@.len() ==> (#[trigger] requestors@[i]).wf(),
        ensures
            final(self).wf(),
            final(self).engine == old(self).engine,
            final(self).providers == old(self).providers,
            final(self).ids == old(self).ids,
            final(self).requestors.entries@ == put_all(
                old(self).requestors.entries@,
                keyed_requestors(requestors@),
            ),
    {
        let ghost all = requestors@;
        let mut rest = requestors;
        proof {
            assert(keyed_requestors(all.subrange(0, 0)) =~= Seq::<(Id, Requestor)>::empty());
        }
        while rest.len() > 0
            invariant
                self.wf(),
                self.engine == old(self).engine,
                self.providers == old(self).providers,
                self.ids == old(self).ids,
                rest@.len() <= all.len(),
                rest@ =~= all.subrange(all.len() - rest@.len(), all.len() as int),
                forall|i: int| 0 <= i < all.len() ==> (#[trigger] all[i]).wf(),
                self.requestors.entries@ == put_all(
                    old(self).requestors.entries@,
                    keyed_requestors(all.subrange(0, all.len() - rest@.len())),
                ),
            decreases rest@.len(),
        {
            let ghost done = all.len() - rest@.len();
            let requestor = rest.remove(0);
            assert(requestor == all[done]);
            proof {
                let next = keyed_requestors(all.subrange(0, done + 1));
                assert(next.drop_last() =~= keyed_requestors(all.subrange(0, done)));
                assert(next.last() == (requestor.id, requestor));
            }
            self.push_requestor(requestor);
        }
        proof {
            assert(all.subrange(0, all.len() as int) =~= all);
        }
    }

    /// Adds `provider`, in place of the provider with the same identifier if
    /// there is one.
    pub fn push_provider(&mut self, provider: Provider)
        requires
            old(self).wf(),
        ensures
            final(self).wf(),
            final(self).engine == old(self).engine,
            final(self).requestors == old(self).requestors,
            final(self).ids == old(self).ids,
            final(self).providers.entries@ == put(
                old(self).providers.entries@,
                provider.common().id,
                provider,
            ),
            final(self).providers.contains(provider.common().id),
            final(self).provider(provider.common().id) == provider,
            forall|k: Id| #[trigger]
                final(self).providers.contains(k) <==> (k == provider.common().id || old(self).providers.contains(k)),
            forall|k: Id|
                k != provider.common().id && old(self).providers.contains(k) ==> #[trigger] final(self).provider(k) == old(self).provider(k),
            old(self).providers.contains(provider.common().id) ==> final(self).providers.entries@
                == old(self).providers.entries@.update(
                old(self).provider_at(provider.common().id),
                (provider.common().id, provider),
            ),
            !old(self).providers.contains(provider.common().id) ==> final(self).providers.entries@
                == old(self).providers.entries@.push((provider.common().id, provider)),
    {
        let id = provider.id();
        let _ = self.providers.insert(id, provider);
    }

    /// Adds `providers` in their order, each as `push_provider` does.
    pub fn append_providers(&mut self, providers: Vec<Provider>)
        requires
            old(self).wf(),
        ensures
            final(self).wf(),
            final(self).engine == old(self).engine,
            final(self).requestors == old(self).requestors,
            final(self).ids == old(self).ids,
            final(self).providers.entries@ == put_all(
                old(self).providers.entries@,
                keyed_providers(providers@),
            ),
    {
        let n: usize = providers.len();
        let mut i: usize = 0;
        proof {
            assert(keyed_providers(providers@.subrange(0, 0)) =~= Seq::<(Id, Provider)>::empty());
        }
        while i < n
            invariant
                self.wf(),
                self.engine == old(self).engine,
                self.requestors == old(self).requestors,
                self.ids == old(self).ids,
                n == providers@.len(),
                0 <= i <= n,
                self.providers.entries@ == put_all(
                    old(self).providers.entries@,
                    keyed_providers(providers@.subrange(0, i as int)),
                ),
            decreases n - i,
        {
            proof {
                let next = keyed_providers(providers@.subrange(0, i + 1));
                assert(next.drop_last() =~= keyed_providers(providers@.subrange(0, i as int)));
                assert(next.last() == (providers@[i as int].common().id, providers@[i as int]));
            }
            self.push_provider(providers[i]);
            i = i + 1;
        }
        proof {
            assert(providers@.subrange(0, n as int) =~= providers@);
        }
    }

    /// The requestor `id`, if the world holds it.
    pub fn get_requestor(&self, id: Id) -> (r: Option<&Requestor>)
        requires
            self.wf(),
        ensures
            match r {
                Some(requestor) => self.requestors.contains(id) && *requestor == self.requestor(id),
                None => !self.requestors.contains(id),
            },
    {
        self.requestors.get(id)
    }

    /// The provider `id`, if the world holds it.
    pub fn get_provider(&self, id: Id) -> (r: Option<&Provider>)
        requires
            self.wf(),
        ensures
            match r {
                Some(provider) => self.providers.contains(id) && *provider == self.provider(id),
                None => !self.providers.contains(id),
            },
    {
        self.providers.get(id)
    }

    /// What the startup of a replication does.
    pub open spec fn startup_done(&self, after: &World) -> bool {
        &&& after.wf()
        &&& after.engine == self.engine
        &&& after.providers == self.providers
        &&& after.ids == self.ids
        &&& after.requestors.entries@.len() == self.requestors.entries@.len()
        &&& forall|i: int|
                0 <= i < self.requestors.entries@.len() ==> (
                #[trigger] after.requestors.entries@[i]).0 == self.requestors.entries@[i].0
                    && self.requestors.entries@[i].1.all_benchmarked(
                    &after.requestors.entries@[i].1,
                    benchmarks(self.providers.entries@),
                )
    }

    /// The startup of a replication: every requestor takes the benchmark of
    /// every provider for its rating of that provider.
    pub fn started(&mut self)
        requires
            old(self).wf(),
        ensures
            old(self).startup_done(final(self)),
    {
        let mut usage_factors: Vec<(Id, Fixed)> = Vec::new();
        let m: usize = self.providers.len();
        let mut j: usize = 0;
        while j < m
            invariant
                *self == *old(self),
                m == self.providers.entries@.len(),
                0 <= j <= m,
                usage_factors@.len() == j,
                forall|k: int|
                    0 <= k < j ==> usage_factors@[k] == (#[trigger] benchmarks(
                        self.providers.entries@,
                    )[k]),
            decreases m - j,
        {
            let id = self.providers.entries[j].0;
            let usage = self.providers.entries[j].1.send_benchmark();
            usage_factors.push((id, usage));
            j = j + 1;
        }
        assert(usage_factors@ =~= benchmarks(self.providers.entries@));
        let n: usize = self.requestors.len();
        let mut i: usize = 0;
        while i < n
            invariant
                self.engine == old(self).engine,
                self.providers == old(self).providers,
                self.ids == old(self).ids,
                old(self).wf(),
                usage_factors@ == benchmarks(old(self).providers.entries@),
                n == old(self).requestors.entries@.len(),
                self.requestors.entries@.len() == n,
                0 <= i <= n,
                forall|k: int|
                    0 <= k < n ==> (#[trigger] self.requestors.entries@[k]).0 == old(self).requestors.entries@[k].0,
                forall|k: int|
                    0 <= k < i ==> old(self).requestors.entries@[k].1.all_benchmarked(
                        &(#[trigger] self.requestors.entries@[k]).1,
                        usage_factors@,
                    ),
                forall|k: int|
                    i <= k < n ==> #[trigger] self.requestors.entries@[k] == old(self).requestors.entries@[k],
            decreases n - i,
        {
            self.requestors.entries[i].1.receive_benchmarks(&usage_factors);
            i = i + 1;
        }
        proof {
            let before = old(self).requestors.entries@;
            let after = self.requestors.entries@;
            assert forall|a: int, b: int| 0 <= a < b < after.len() implies (#[trigger] after[a]).0 != (
            #[trigger] after[b]).0 by {
                assert(before[a].0 != before[b].0);
            }
            assert forall|k: int| 0 <= k < after.len() implies (#[trigger] after[k]).1.wf()
                && after[k].1.id == after[k].0 by {
                assert(before[k].1.all_benchmarked(&after[k].1, usage_factors@));
                assert(before[k].1.id == before[k].0);
            }
            assert forall|k: Id| old(self).requestors.contains(k) implies #[trigger] self.requestors.contains(
                k,
            ) by {
                let j = index_of(before, k);
                assert(after[j].0 == k);
            }
            old(self).lemma_known_when_actors_stay(self);
        }
    }

    /// The identifiers of the requestors in the order in which they will
    /// advertise next: an order that `rng` picks.
    pub fn requestor_order(&self, rng: &mut rand_chacha::ChaChaRng) -> (r: Vec<Id>)
        ensures
            r@.to_multiset() == keys(self.requestors.entries@).to_multiset(),
    {
        let mut ids: Vec<Id> = Vec::new();
        let n: usize = self.requestors.len();
        let mut i: usize = 0;
        while i < n
            invariant
                n == self.requestors.entries@.len(),
                0 <= i <= n,
                ids@.len() == i,
                forall|k: int| 0 <= k < i ==> ids@[k] == (#[trigger] self.requestors.entries@[k]).0,
            decreases n - i,
        {
            ids.push(self.requestors.entries[i].0);
            i = i + 1;
        }
        assert(ids@ =~= keys(self.requestors.entries@));
        crate::random::shuffle(rng, &mut ids);
        ids
    }

    /// Whether the next advertisement of the requestor `requestor_id` takes
    /// a task from its queue, so that an arrival delay must be drawn for it.
    pub fn will_pull(&self, requestor_id: Id) -> (r: Result<bool, SimulationError>)
        requires
            self.wf(),
        ensures
            match r {
                Ok(pull) => self.requestors.contains(requestor_id) && pull == self.requestor(
                    requestor_id,
                ).will_pull_spec(),
                Err(e) => !self.requestors.contains(requestor_id) && e
                    == SimulationError::RequestorNotFound(requestor_id),
            },
    {
        match self.requestors.get(requestor_id) {
            Some(requestor) => Ok(requestor.will_pull()),
            None => Err(SimulationError::RequestorNotFound(requestor_id)),
        }
    }

    /// What an advertisement of one requestor does, and what it returns.
    pub open spec fn advertised(
        &self,
        after: &World,
        requestor_id: Id,
        arrival_delay: Fixed,
        r: Result<(), SimulationError>,
    ) -> bool {
        &&& after.wf()
        &&& after.providers == self.providers
        &&& after.engine@.now == self.engine@.now
        &&& match r {
                Ok(()) => {
                    let i = self.requestor_at(requestor_id);
                    &&& self.requestors.contains(requestor_id)
                    &&& self.same_requestors_but(after, i)
                    &&& self.requestors.entries@[i].1.advertised(
                        &after.requestors.entries@[i].1,
                        self.engine@,
                        after.engine@,
                        self.ids.upcoming(),
                        after.ids.upcoming(),
                        arrival_delay,
                    )
                },
                Err(e) => !self.requestors.contains(requestor_id) && self.same(after)
                    && e == SimulationError::RequestorNotFound(requestor_id),
            }
    }

    /// Has the requestor `requestor_id` advertise. Fails, and changes
    /// nothing, where the world holds no such requestor.
    pub fn advertise(&mut self, requestor_id: Id, arrival_delay: Fixed) -> (r: Result<
        (),
        SimulationError,
    >)
        requires
            old(self).wf(),
        ensures
            old(self).advertised(final(self), requestor_id, arrival_delay, r),
    {
        let i = match self.requestors.position(requestor_id) {
            Some(i) => i,
            None => {
                return Err(SimulationError::RequestorNotFound(requestor_id));
            },
        };
        self.requestors.entries[i].1.advertise(&mut self.engine, &mut self.ids, arrival_delay);
        proof {
            old(self).lemma_requestor_replaced(self, i as int);
            let before = old(self).requestors.entries@[i as int].1;
            let event = Event::TaskAdvertisement(before.id);
            assert(before.id == requestor_id);
            assert(self.names_known(event));
            if self.engine@ == old(self).engine@ {
                old(self).lemma_known_when_actors_stay(self);
            } else if before.busy() {
                old(self).lemma_known_after_schedule(
                    self,
                    Fixed { raw: crate::requestor::READVERT_DELAY_RAW },
                    event,
                );
            } else {
                old(self).lemma_known_after_schedule(self, arrival_delay, event);
            }
        }
        Ok(())
    }

    /// Events stay known where the engine holds what it held and no actor leaves.
    pub proof fn lemma_known_when_actors_stay(&self, after: &World)
        requires
            self.events_known(),
            after.engine@ == self.engine@,
            forall|k: Id| self.requestors.contains(k) ==> #[trigger] after.requestors.contains(k),
            forall|k: Id| self.providers.contains(k) ==> #[trigger] after.providers.contains(k),
        ensures
            after.events_known(),
    {
        assert forall|i: int| 0 <= i < after.engine@.queue.len() implies after.names_known(
            (#[trigger] after.engine@.queue[i]).event,
        ) by {
            assert(self.names_known(self.engine@.queue[i].event));
        }
    }

    /// An event that leaves the engine of a well-formed world names actors
    /// that the world holds, and so do the events that stay.
    pub proof fn lemma_known_after_pop(&self, after: &World)
        requires
            self.events_known(),
            after.engine@ == self.engine@.popped(),
            forall|k: Id| self.requestors.contains(k) ==> #[trigger] after.requestors.contains(k),
            forall|k: Id| self.providers.contains(k) ==> #[trigger] after.providers.contains(k),
        ensures
            after.events_known(),
            self.engine@.queue.len() > 0 ==> after.names_known(self.engine@.queue[0].event),
    {
        if self.engine@.queue.len() > 0 {
            assert(self.names_known(self.engine@.queue[0].event));
            assert forall|i: int| 0 <= i < after.engine@.queue.len() implies after.names_known(
                (#[trigger] after.engine@.queue[i]).event,
            ) by {
                assert(after.engine@.queue[i] == self.engine@.queue[i + 1]);
                assert(self.names_known(self.engine@.queue[i + 1].event));
            }
        } else {
            self.lemma_known_when_actors_stay(after);
        }
    }

    /// Events stay known where an event that names known actors is scheduled.
    pub proof fn lemma_known_after_schedule(&self, after: &World, delay: Fixed, event: Event)
        requires
            self.events_known(),
            self.engine.wf(),
            after.engine@ == self.engine@.scheduled(delay, event),
            after.names_known(event),
            forall|k: Id| self.requestors.contains(k) ==> #[trigger] after.requestors.contains(k),
            forall|k: Id| self.providers.contains(k) ==> #[trigger] after.providers.contains(k),
        ensures
            after.events_known(),
    {
        let item = Scheduled { time: self.engine@.due(delay), event };
        assert forall|i: int| 0 <= i < after.engine@.queue.len() implies after.names_known(
            (#[trigger] after.engine@.queue[i]).event,
        ) by {
            lemma_joined_from(self.engine@.queue, item, i);
            if after.engine@.queue[i] != item {
                let j = choose|j: int|
                    0 <= j < self.engine@.queue.len() && #[trigger] self.engine@.queue[j]
                        == after.engine@.queue[i];
                assert(self.names_known(self.engine@.queue[j].event));
            }
        }
    }

    /// A world in which one requestor has changed, but not its identifier,
    /// and is well-formed, is well-formed in its requestors.
    pub proof fn lemma_requestor_replaced(&self, after: &World, i: int)
        requires
            self.actors_wf(),
            0 <= i < self.requestors.entries@.len(),
            self.same_requestors_but(after, i),
            after.requestors.entries@[i].1.wf(),
            after.requestors.entries@[i].1.id == self.requestors.entries@[i].1.id,
        ensures
            after.requestors.wf(),
            forall|j: int|
                0 <= j < after.requestors.entries@.len() ==> (
                #[trigger] after.requestors.entries@[j]).1.wf() && after.requestors.entries@[j].1.id
                    == after.requestors.entries@[j].0,
            forall|k: Id| #[trigger] after.requestors.contains(k) <==> self.requestors.contains(k),
            forall|k: Id| self.requestors.contains(k) ==> after.requestor_at(k) == self.requestor_at(k),
    {
        let before = self.requestors.entries@;
        let now = after.requestors.entries@;
        assert forall|a: int, b: int| 0 <= a < b < now.len() implies (#[trigger] now[a]).0 != (
        #[trigger] now[b]).0 by {
            assert(before[a].0 != before[b].0);
        }
        assert forall|j: int| 0 <= j < now.len() implies (#[trigger] now[j]).1.wf() && now[j].1.id
            == now[j].0 by {
            assert(before[j].1.wf() && before[j].1.id == before[j].0);
            if j != i {
                assert(now[j] == before[j]);
            }
        }
        assert forall|k: Id| #[trigger] after.requestors.contains(k) <==> self.requestors.contains(
            k,
        ) by {
            if after.requestors.contains(k) {
                let j = index_of(now, k);
                assert(before[j].0 == k);
            }
            if self.requestors.contains(k) {
                let j = index_of(before, k);
                assert(now[j].0 == k);
            }
        }
        assert forall|k: Id| self.requestors.contains(k) implies after.requestor_at(k)
            == self.requestor_at(k) by {
            let j = index_of(before, k);
            assert(now[j].0 == k);
            lemma_entry_at(now, j);
        }
    }

    /// A world in which one provider has changed, but not its identifier, is
    /// well-formed in its providers.
    pub proof fn lemma_provider_replaced(&self, after: &World, i: int)
        requires
            self.actors_wf(),
            0 <= i < self.providers.entries@.len(),
            self.same_providers_but(after, i),
            after.providers.entries@[i].1.common().id == self.providers.entries@[i].1.common().id,
        ensures
            after.providers.wf(),
            forall|j: int|
                0 <= j < after.providers.entries@.len() ==> (
                #[trigger] after.providers.entries@[j]).1.common().id
                    == after.providers.entries@[j].0,
            forall|k: Id| #[trigger] after.providers.contains(k) <==> self.providers.contains(k),
    {
        let before = self.providers.entries@;
        let now = after.providers.entries@;
        assert forall|k: Id| #[trigger] after.providers.contains(k) <==> self.providers.contains(
            k,
        ) by {
            if after.providers.contains(k) {
                let j = index_of(now, k);
                assert(before[j].0 == k);
            }
            if self.providers.contains(k) {
                let j = index_of(before, k);
                assert(now[j].0 == k);
            }
        }
        assert forall|a: int, b: int| 0 <= a < b < now.len() implies (#[trigger] now[a]).0 != (
        #[trigger] now[b]).0 by {
            assert(before[a].0 != before[b].0);
        }
        assert forall|j: int| 0 <= j < now.len() implies (#[trigger] now[j]).1.common().id
            == now[j].0 by {
            assert(before[j].1.common().id == before[j].0);
            if j != i {
                assert(now[j] == before[j]);
            }
        }
    }

    /// Takes the next event from the engine and sets the clock to its time.
    /// Returns nothing where no event waits, or where the event is due after
    /// `until`: the replication is then over.
    pub fn next_event(&mut self, until: Fixed) -> (r: Option<Event>)
        requires
            old(self).wf(),
        ensures
            final(self).wf(),
            final(self).requestors == old(self).requestors,
            final(self).providers == old(self).providers,
            final(self).ids == old(self).ids,
            final(self).engine@ == old(self).engine@.popped(),
            old(self).engine@.now.raw <= final(self).engine@.now.raw,
            r == if old(self).engine@.queue.len() == 0 || until.raw < old(self).engine@.queue[0].time.raw {
                None
            } else {
                Some(old(self).engine@.queue[0].event)
            },
            r is Some ==> final(self).names_known(r->0),
    {
        let popped = self.engine.pop();
        proof {
            old(self).lemma_known_after_pop(self);
        }
        match popped {
            Some(event) => {
                if until.raw < self.engine.now().raw {
                    None
                } else {
                    Some(event)
                }
            },
            None => None,
        }
    }

    /// The offers of the providers that are idle, in the order of the providers.
    pub fn collect_offers(&self) -> (r: Vec<Offer>)
        ensures
            r@ == offers(self.providers.entries@),
    {
        let mut bids: Vec<Offer> = Vec::new();
        let n: usize = self.providers.len();
        let mut i: usize = 0;
        while i < n
            invariant
                n == self.providers.entries@.len(),
                0 <= i <= n,
                bids@ == offers(self.providers.entries@.subrange(0, i as int)),
            decreases n - i,
        {
            proof {
                assert(self.providers.entries@.subrange(0, i + 1).drop_last()
                    =~= self.providers.entries@.subrange(0, i as int));
            }
            let id = self.providers.entries[i].0;
            let mut provider = self.providers.entries[i].1;
            match provider.send_offer() {
                Some(bid) => {
                    bids.push((id, bid));
                },
                None => {},
            }
            i = i + 1;
        }
        assert(self.providers.entries@.subrange(0, n as int) =~= self.providers.entries@);
        bids
    }

    /// The first half of an advertisement: the offers of the idle providers
    /// are collected, and the requestor `requestor_id` hands out subtasks
    /// among them. Each assignment returned is then to be delivered with
    /// `receive_subtask`. Fails, and changes nothing, where the world holds
    /// no such requestor, or the requestor fails.
    pub fn select_offers(&mut self, requestor_id: Id) -> (r: Result<Vec<Assignment>, SimulationError>)
        requires
            old(self).wf(),
        ensures
            final(self).wf(),
            final(self).providers == old(self).providers,
            final(self).engine == old(self).engine,
            final(self).ids == old(self).ids,
            if !old(self).requestors.contains(requestor_id) {
                r == Err::<Vec<Assignment>, SimulationError>(
                    SimulationError::RequestorNotFound(requestor_id),
                ) && old(self).same(final(self))
            } else {
                let i = old(self).requestor_at(requestor_id);
                &&& old(self).same_requestors_but(final(self), i)
                &&& old(self).requestors.entries@[i].1.selected(
                    &final(self).requestors.entries@[i].1,
                    offers(old(self).providers.entries@),
                    r,
                )
            },
    {
        let i = match self.requestors.position(requestor_id) {
            Some(i) => i,
            None => {
                return Err(SimulationError::RequestorNotFound(requestor_id));
            },
        };
        let bids = self.collect_offers();
        let r = self.requestors.entries[i].1.select_offers(bids);
        proof {
            old(self).lemma_requestor_replaced(self, i as int);
            old(self).lemma_known_when_actors_stay(self);
        }
        r
    }

    /// For each provider, in their order: the exponent, without its sign,
    /// of the factor by which its profit margin falls if it accepts a
    /// subtask now.
    pub fn decay_exponents(&self) -> (r: Vec<Fixed>)
        ensures
            r@.len() == self.providers.entries@.len(),
            forall|j: int|
                0 <= j < r@.len() ==> #[trigger] r@[j] == (Fixed {
                    raw: crate::provider::ALPHA_RAW,
                }).times_spec(
                    self.providers.entries@[j].1.common().elapsed_spec(self.engine@.now),
                ),
    {
        let mut exponents: Vec<Fixed> = Vec::new();
        let n: usize = self.providers.len();
        let mut j: usize = 0;
        while j < n
            invariant
                n == self.providers.entries@.len(),
                0 <= j <= n,
                exponents@.len() == j,
                forall|k: int|
                    0 <= k < j ==> #[trigger] exponents@[k] == (Fixed {
                        raw: crate::provider::ALPHA_RAW,
                    }).times_spec(
                        self.providers.entries@[k].1.common().elapsed_spec(self.engine@.now),
                    ),
            decreases n - j,
        {
            let elapsed = self.providers.entries[j].1.as_provider_common().elapsed(
                self.engine.now(),
            );
            exponents.push(ProviderCommon::decay_exponent(elapsed));
            j = j + 1;
        }
        exponents
    }

    /// What an advertisement does, and what it returns.
    pub open spec fn advertisement_handled(
        &self,
        after: &World,
        requestor_id: Id,
        decays: Seq<Fixed>,
        r: Result<(), SimulationError>,
    ) -> bool {
        if !self.requestors.contains(requestor_id) {
            r == Err::<(), SimulationError>(SimulationError::RequestorNotFound(requestor_id))
                && self.same(after)
        } else {
            let i = self.requestor_at(requestor_id);
            exists|selection: Result<Vec<Assignment>, SimulationError>|
                {
                    &&& #[trigger] self.requestors.entries@[i].1.selected(
                        &after.requestors.entries@[i].1,
                        offers(self.providers.entries@),
                        selection,
                    )
                    &&& self.same_requestors_but(after, i)
                    &&& match selection {
                        Ok(assignments) => {
                            &&& r is Ok
                            &&& (after.providers.entries@, after.engine@) == delivered_to(
                                self.providers.entries@,
                                self.engine@,
                                assignments@,
                                decays,
                                requestor_id,
                            )
                        },
                        Err(e) => r == Err::<(), SimulationError>(e) && self.same(after),
                    }
                }
        }
    }

    /// An advertisement of the requestor `requestor_id`: the offers of the
    /// idle providers are collected, the requestor hands out subtasks among
    /// them, and every provider that gets one accepts it. `decays` holds,
    /// for each provider in their order, the factor by which its profit
    /// margin falls if it accepts. Fails, and changes nothing, where the
    /// world holds no such requestor, or the requestor fails.
    pub fn handle_advertise(&mut self, requestor_id: Id, decays: &Vec<Fixed>) -> (r: Result<
        (),
        SimulationError,
    >)
        requires
            old(self).wf(),
            decays@.len() == old(self).providers.entries@.len(),
        ensures
            final(self).wf(),
            final(self).ids == old(self).ids,
            final(self).engine@.now == old(self).engine@.now,
            old(self).advertisement_handled(final(self), requestor_id, decays@, r),
    {
        let assignments = match self.select_offers(requestor_id) {
            Ok(assignments) => assignments,
            Err(e) => {
                proof {
                    if old(self).requestors.contains(requestor_id) {
                        let i = old(self).requestor_at(requestor_id);
                        assert(old(self).requestors.entries@[i].1.selected(
                            &self.requestors.entries@[i].1,
                            offers(old(self).providers.entries@),
                            Err::<Vec<Assignment>, SimulationError>(e),
                        ));
                        assert(self.requestors.entries@[i].1 == old(self).requestors.entries@[i].1);
                        assert(self.requestors.entries@ =~= old(self).requestors.entries@);
                    }
                }
                return Err(e);
            },
        };
        let ghost selected = *self;
        let ghost i = old(self).requestor_at(requestor_id);
        let ghost start = old(self).providers.entries@;
        let ghost clock = old(self).engine@;
        let n: usize = assignments.len();
        let mut k: usize = 0;
        proof {
            lemma_index_of(old(self).requestors.entries@, requestor_id);
            assert(assignments@.subrange(0, 0) =~= Seq::<Assignment>::empty());
            assert forall|a: int| 0 <= a < n implies keyed(start, (#[trigger] assignments@[a]).0) by {
                let before = old(self).requestors.entries@[i].1;
                let after = self.requestors.entries@[i].1;
                before.defence_mechanism.lemma_assigned_from_bids(
                    &after.defence_mechanism,
                    &before.task->0,
                    &after.task->0,
                    offers(start),
                    assignments,
                    a,
                );
                let b = choose|b: int|
                    0 <= b < offers(start).len() && (#[trigger] offers(start)[b]).0
                        == assignments@[a].0;
                lemma_offers_from(start, b);
            }
        }
        proof {
            old(self).lemma_requestor_replaced(self, i);
        }
        while k < n
            invariant
                self.wf(),
                self.ids == old(self).ids,
                self.requestors == selected.requestors,
                self.requestors.contains(requestor_id),
                n == assignments@.len(),
                0 <= k <= n,
                decays@.len() == start.len(),
                start == old(self).providers.entries@,
                clock == old(self).engine@,
                forall|a: int| 0 <= a < n ==> keyed(start, (#[trigger] assignments@[a]).0),
                (self.providers.entries@, self.engine@) == delivered_to(
                    start,
                    clock,
                    assignments@.subrange(0, k as int),
                    decays@,
                    requestor_id,
                ),
            decreases n - k,
        {
            let (provider_id, subtask, bid) = assignments[k];
            let ghost done = assignments@.subrange(0, k as int);
            proof {
                lemma_delivered_keys(start, clock, done, decays@, requestor_id);
                assert(keyed(start, assignments@[k as int].0));
                let j = index_of(start, provider_id);
                assert(self.providers.entries@[j].0 == provider_id);
                assert(assignments@.subrange(0, k + 1).drop_last() =~= done);
                assert(assignments@.subrange(0, k + 1).last() == assignments@[k as int]);
            }
            let j = match self.providers.position(provider_id) {
                Some(j) => j,
                None => {
                    proof {
                        assert(false);
                    }
                    return Ok(());
                },
            };
            let delivery = self.receive_subtask(provider_id, &subtask, requestor_id, bid, decays[j]);
            assert(delivery is Ok);
            proof {
                let before = delivered_to(start, clock, done, decays@, requestor_id);
                let now = delivered_to(
                    start,
                    clock,
                    assignments@.subrange(0, k + 1),
                    decays@,
                    requestor_id,
                );
                assert(self.providers.entries@ =~= now.0);
            }
            k = k + 1;
        }
        proof {
            assert(assignments@.subrange(0, n as int) =~= assignments@);
            assert(old(self).requestors.entries@[i].1.selected(
                &self.requestors.entries@[i].1,
                offers(old(self).providers.entries@),
                Ok::<Vec<Assignment>, SimulationError>(assignments),
            ));
            lemma_delivered_keys(start, clock, assignments@, decays@, requestor_id);
        }
        Ok(())
    }

    /// The exponent, without its sign, of the factor by which the profit
    /// margin of the provider `provider_id` falls if it accepts a subtask now.
    pub fn decay_exponent(&self, provider_id: Id) -> (r: Result<Fixed, SimulationError>)
        requires
            self.wf(),
        ensures
            match r {
                Ok(x) => self.providers.contains(provider_id) && x == (Fixed {
                    raw: crate::provider::ALPHA_RAW,
                }).times_spec(self.provider(provider_id).common().elapsed_spec(self.engine@.now)),
                Err(e) => !self.providers.contains(provider_id) && e
                    == SimulationError::ProviderNotFound(provider_id),
            },
    {
        match self.providers.get(provider_id) {
            Some(provider) => Ok(
                ProviderCommon::decay_exponent(
                    provider.as_provider_common().elapsed(self.engine.now()),
                ),
            ),
            None => Err(SimulationError::ProviderNotFound(provider_id)),
        }
    }

    /// The exponent of the factor by which the profit margin of the provider
    /// `provider_id` rises if it finishes a subtask now.
    pub fn growth_exponent(&self, provider_id: Id) -> (r: Result<Fixed, SimulationError>)
        requires
            self.wf(),
        ensures
            match r {
                Ok(x) => self.providers.contains(provider_id) && x == (Fixed {
                    raw: crate::provider::BETA_RAW,
                }).times_spec(self.provider(provider_id).common().elapsed_spec(self.engine@.now)),
                Err(e) => !self.providers.contains(provider_id) && e
                    == SimulationError::ProviderNotFound(provider_id),
            },
    {
        match self.providers.get(provider_id) {
            Some(provider) => Ok(
                ProviderCommon::growth_exponent(
                    provider.as_provider_common().elapsed(self.engine.now()),
                ),
            ),
            None => Err(SimulationError::ProviderNotFound(provider_id)),
        }
    }

    /// The second half of an advertisement, once for each assignment: the
    /// provider `provider_id` accepts `subtask` of the requestor
    /// `requestor_id` at the price `bid`, its profit margin falls by the
    /// factor `decay`, and the end of its work is scheduled. Fails, and
    /// changes nothing, where the world lacks the requestor or the provider.
    pub fn receive_subtask(
        &mut self,
        provider_id: Id,
        subtask: &SubTask,
        requestor_id: Id,
        bid: Fixed,
        decay: Fixed,
    ) -> (r: Result<(), SimulationError>)
        requires
            old(self).wf(),
        ensures
            final(self).wf(),
            final(self).requestors == old(self).requestors,
            final(self).ids == old(self).ids,
            match old(self).missing(requestor_id, provider_id) {
                Some(e) => r == Err::<(), SimulationError>(e) && old(self).same(final(self)),
                None => {
                    let i = old(self).provider_at(provider_id);
                    let provider = old(self).providers.entries@[i].1;
                    &&& r is Ok
                    &&& old(self).same_providers_but(final(self), i)
                    &&& final(self).providers.entries@[i].1 == provider.with_common(
                        provider.common().engaged(old(self).engine@.now, decay),
                    )
                    &&& final(self).engine@ == old(self).engine@.scheduled(
                        provider.common().working_time(*subtask, bid),
                        provider.common().outcome(*subtask, requestor_id, bid),
                    )
                },
            },
    {
        if !self.requestors.contains_key(requestor_id) {
            return Err(SimulationError::RequestorNotFound(requestor_id));
        }
        let i = match self.providers.position(provider_id) {
            Some(i) => i,
            None => {
                return Err(SimulationError::ProviderNotFound(provider_id));
            },
        };
        self.providers.entries[i].1.receive_subtask(
            &mut self.engine,
            subtask,
            requestor_id,
            bid,
            decay,
        );
        proof {
            old(self).lemma_provider_replaced(self, i as int);
            let provider = old(self).providers.entries@[i as int].1;
            assert(provider.common().id == provider_id);
            old(self).lemma_known_after_schedule(
                self,
                provider.common().working_time(*subtask, bid),
                provider.common().outcome(*subtask, requestor_id, bid),
            );
        }
        Ok(())
    }

    /// What the step for a computed subtask does to the requestor at `i`
    /// and the provider at `j`, and what it returns.
    pub open spec fn compute_settled(
        &self,
        after: &World,
        i: int,
        j: int,
        subtask: SubTask,
        provider_id: Id,
        bid: Fixed,
        growth: Fixed,
        noise: Fixed,
        r: Result<Status, SimulationError>,
    ) -> bool {
        let finished = self.providers.entries@[j].1.with_common(
            self.providers.entries@[j].1.common().finished(self.engine@.now, growth),
        );
        let usage = finished.reported(subtask, bid, noise);
        &&& self.same_requestors_but(after, i)
        &&& self.same_providers_but(after, j)
        &&& match r {
            Ok(status) => {
                &&& self.requestors.entries@[i].1.verified_and_paid(
                    &after.requestors.entries@[i].1,
                    subtask,
                    provider_id,
                    bid,
                    usage,
                    status,
                )
                &&& after.providers.entries@[j].1 == finished.with_common(
                    finished.common().paid(Some(Requestor::payment(bid, usage))),
                )
            },
            Err(_) => {
                &&& self.same(after)
                &&& self.requestors.entries@[i].1.verified(
                    &self.requestors.entries@[i].1,
                    &subtask,
                    provider_id,
                    Some(usage),
                    r,
                )
            },
        }
    }

    /// What the step for a computed subtask does, and what it returns.
    pub open spec fn compute_handled(
        &self,
        after: &World,
        subtask: SubTask,
        requestor_id: Id,
        provider_id: Id,
        bid: Fixed,
        growth: Fixed,
        noise: Fixed,
        r: Result<Status, SimulationError>,
    ) -> bool {
        match self.missing(requestor_id, provider_id) {
            Some(e) => r == Err::<Status, SimulationError>(e) && self.same(after),
            None => self.compute_settled(
                after,
                self.requestor_at(requestor_id),
                self.provider_at(provider_id),
                subtask,
                provider_id,
                bid,
                growth,
                noise,
                r,
            ),
        }
    }

    /// A subtask has been computed: the provider is idle again and reports
    /// its usage, the requestor has the report verified and pays for it, and
    /// the provider takes the payment. `growth` is the factor by which the
    /// provider's profit margin rises, `noise` the factor by which a regular
    /// provider's measurement is off. Fails, and changes nothing, where the
    /// world lacks the requestor or the provider, or the requestor refuses
    /// the report.
    pub fn handle_compute(
        &mut self,
        subtask: SubTask,
        requestor_id: Id,
        provider_id: Id,
        bid: Fixed,
        growth: Fixed,
        noise: Fixed,
    ) -> (r: Result<Status, SimulationError>)
        requires
            old(self).wf(),
        ensures
            final(self).wf(),
            final(self).engine == old(self).engine,
            final(self).ids == old(self).ids,
            old(self).compute_handled(
                final(self),
                subtask,
                requestor_id,
                provider_id,
                bid,
                growth,
                noise,
                r,
            ),
    {
        let i = match self.requestors.position(requestor_id) {
            Some(i) => i,
            None => {
                return Err(SimulationError::RequestorNotFound(requestor_id));
            },
        };
        let j = match self.providers.position(provider_id) {
            Some(j) => j,
            None => {
                return Err(SimulationError::ProviderNotFound(provider_id));
            },
        };
        let mut provider = self.providers.entries[j].1;
        provider.finish_computing(self.engine.now(), &subtask, requestor_id, growth);
        let reported_usage = provider.report_usage(&subtask, bid, noise);
        let status = match self.requestors.entries[i].1.verify_subtask(
            &subtask,
            provider_id,
            Some(reported_usage),
        ) {
            Ok(status) => status,
            Err(e) => {
                proof {
                    lemma_entry_at(old(self).requestors.entries@, i as int);
                    lemma_entry_at(old(self).providers.entries@, j as int);
                    let before = old(self).requestors.entries@[i as int].1;
                    let after = self.requestors.entries@[i as int].1;
                    assert(before.verified(
                        &after,
                        &subtask,
                        provider_id,
                        Some(reported_usage),
                        Err::<Status, SimulationError>(e),
                    ));
                    assert(after == before);
                    assert(self.requestors.entries@ =~= old(self).requestors.entries@);
                    assert(old(self).same(self));
                    assert(old(self).compute_settled(
                        self,
                        i as int,
                        j as int,
                        subtask,
                        provider_id,
                        bid,
                        growth,
                        noise,
                        Err(e),
                    ));
                }
                return Err(e);
            },
        };
        let ghost verified = self.requestors.entries@[i as int].1;
        let payment = self.requestors.entries[i].1.send_payment(
            &subtask,
            provider_id,
            bid,
            reported_usage,
        );
        provider.receive_payment(&subtask, requestor_id, payment);
        self.providers.entries[j] = (provider_id, provider);
        proof {
            let paid = self.requestors.entries@[i as int].1;
            assert(verified.payment_sent(&paid, &subtask, bid, reported_usage, payment));
            old(self).lemma_requestor_replaced(self, i as int);
            old(self).lemma_provider_replaced(self, j as int);
            old(self).lemma_known_when_actors_stay(self);
            lemma_entry_at(old(self).requestors.entries@, i as int);
            lemma_entry_at(old(self).providers.entries@, j as int);
            assert(old(self).requestors.entries@[i as int].1.verified_and_paid(
                &paid,
                subtask,
                provider_id,
                bid,
                reported_usage,
                status,
            )) by {
                assert(old(self).requestors.entries@[i as int].1.verified(
                    &verified,
                    &subtask,
                    provider_id,
                    Some(reported_usage),
                    Ok::<Status, SimulationError>(status),
                ));
            }
            assert(old(self).compute_settled(
                self,
                i as int,
                j as int,
                subtask,
                provider_id,
                bid,
                growth,
                noise,
                Ok(status),
            ));
        }
        Ok(status)
    }

    /// Which statistics the requestor `requestor_id` must be given for the
    /// end of its task: none unless the task is done.
    pub fn statistics_due(&self, requestor_id: Id) -> (r: Result<StatisticsDue, SimulationError>)
        requires
            self.wf(),
        ensures
            match r {
                Ok(due) => self.requestors.contains(requestor_id) && due == self.requestor(
                    requestor_id,
                ).statistics_due_spec(),
                Err(e) => !self.requestors.contains(requestor_id) && e
                    == SimulationError::RequestorNotFound(requestor_id),
            },
    {
        match self.requestors.position(requestor_id) {
            Some(i) => {
                proof {
                    lemma_entry_at(self.requestors.entries@, i as int);
                }
                Ok(self.requestors.entries[i].1.statistics_due())
            },
            None => Err(SimulationError::RequestorNotFound(requestor_id)),
        }
    }

    /// What the end of a task of one requestor does, and what it returns.
    pub open spec fn task_completed(
        &self,
        after: &World,
        requestor_id: Id,
        stats: &TaskStatistics,
        r: Result<bool, SimulationError>,
    ) -> bool {
        &&& after.wf()
        &&& after.providers == self.providers
        &&& after.engine == self.engine
        &&& after.ids == self.ids
        &&& if !self.requestors.contains(requestor_id) {
                r == Err::<bool, SimulationError>(SimulationError::RequestorNotFound(requestor_id))
                    && self.same(after)
            } else {
                let i = self.requestor_at(requestor_id);
                &&& self.same_requestors_but(after, i)
                &&& self.requestors.entries@[i].1.completed(
                    &after.requestors.entries@[i].1,
                    stats,
                    r,
                )
            }
    }

    /// Has the requestor `requestor_id` end its task if the task is done.
    /// Fails, and changes nothing, where the world holds no such requestor,
    /// or the requestor fails.
    pub fn complete_task(&mut self, requestor_id: Id, stats: &TaskStatistics) -> (r: Result<
        bool,
        SimulationError,
    >)
        requires
            old(self).wf(),
            old(self).requestors.contains(requestor_id) ==> old(self).requestor(
                requestor_id,
            ).accepts(stats),
        ensures
            old(self).task_completed(final(self), requestor_id, stats, r),
    {
        let i = match self.requestors.position(requestor_id) {
            Some(i) => i,
            None => {
                return Err(SimulationError::RequestorNotFound(requestor_id));
            },
        };
        proof {
            lemma_entry_at(self.requestors.entries@, i as int);
        }
        let r = self.requestors.entries[i].1.complete_task(stats);
        proof {
            old(self).lemma_requestor_replaced(self, i as int);
            old(self).lemma_known_when_actors_stay(self);
        }
        r
    }

    /// What the step for a subtask whose budget was used up does, and what it returns.
    pub open spec fn budget_exceeded_handled(
        &self,
        after: &World,
        subtask: SubTask,
        requestor_id: Id,
        provider_id: Id,
        r: Result<Status, SimulationError>,
    ) -> bool {
        &&& after.wf()
        &&& after.engine == self.engine
        &&& after.ids == self.ids
        &&& match self.missing(requestor_id, provider_id) {
                Some(e) => r == Err::<Status, SimulationError>(e) && self.same(after),
                None => {
                    let i = self.requestor_at(requestor_id);
                    let j = self.provider_at(provider_id);
                    &&& self.same_requestors_but(after, i)
                    &&& self.same_providers_but(after, j)
                    &&& self.requestors.entries@[i].1.verified(
                        &after.requestors.entries@[i].1,
                        &subtask,
                        provider_id,
                        None,
                        r,
                    )
                    &&& match r {
                        Ok(_) => after.providers.entries@[j].1 == self.providers.entries@[j].1.with_common(
                            self.providers.entries@[j].1.common().cancelled(
                                self.engine@.now,
                            ),
                        ),
                        Err(_) => self.same(after),
                    }
                },
            }
    }

    /// The budget of a subtask has been used up: the provider is idle again,
    /// and the requestor is told that nothing was delivered. Fails, and
    /// changes nothing, where the world lacks the requestor or the provider,
    /// or the requestor refuses the result.
    pub fn handle_budget_exceeded(&mut self, subtask: SubTask, requestor_id: Id, provider_id: Id) -> (r:
        Result<Status, SimulationError>)
        requires
            old(self).wf(),
        ensures
            old(self).budget_exceeded_handled(final(self), subtask, requestor_id, provider_id, r),
    {
        let i = match self.requestors.position(requestor_id) {
            Some(i) => i,
            None => {
                return Err(SimulationError::RequestorNotFound(requestor_id));
            },
        };
        let j = match self.providers.position(provider_id) {
            Some(j) => j,
            None => {
                return Err(SimulationError::ProviderNotFound(provider_id));
            },
        };
        let status = match self.requestors.entries[i].1.verify_subtask(&subtask, provider_id, None) {
            Ok(status) => status,
            Err(e) => {
                proof {
                    assert(self.requestors.entries@ =~= old(self).requestors.entries@);
                }
                return Err(e);
            },
        };
        self.providers.entries[j].1.cancel_computing(self.engine.now(), &subtask, requestor_id);
        proof {
            old(self).lemma_requestor_replaced(self, i as int);
            old(self).lemma_provider_replaced(self, j as int);
            old(self).lemma_known_when_actors_stay(self);
        }
        Ok(status)
    }

    /// What advertisements of the requestors `order`, one after the other,
    /// each with the arrival delay that `delays` holds at its place, do.
    pub open spec fn advertised_in_turn(&self, after: &World, order: Seq<Id>, delays: Seq<Fixed>) -> bool
        decreases order.len(),
    {
        if order.len() == 0 {
            self.same(after)
        } else {
            exists|before_last: World|
                {
                    &&& self.advertised_in_turn(&before_last, order.drop_last(), delays.drop_last())
                    &&& #[trigger] before_last.advertised(
                        after,
                        order.last(),
                        delays.last(),
                        Ok(()),
                    )
                }
        }
    }

    /// `k` is the first place in `order` of a requestor that the world does
    /// not hold.
    pub open spec fn first_unknown(&self, order: Seq<Id>, k: int) -> bool {
        &&& 0 <= k < order.len()
        &&& !self.requestors.contains(order[k])
        &&& forall|j: int| 0 <= j < k ==> self.requestors.contains(#[trigger] order[j])
    }

    /// Has the requestors `order` advertise, one after the other, each with
    /// the arrival delay that `delays` holds at its place. Fails, and changes
    /// nothing, where the world does not hold one of them.
    pub fn schedule_advertise(&mut self, order: &Vec<Id>, delays: &Vec<Fixed>) -> (r: Result<
        (),
        SimulationError,
    >)
        requires
            old(self).wf(),
            order@.len() == delays@.len(),
        ensures
            final(self).wf(),
            final(self).providers == old(self).providers,
            final(self).engine@.now == old(self).engine@.now,
            match r {
                Ok(()) => {
                    &&& forall|j: int|
                        0 <= j < order@.len() ==> old(self).requestors.contains(#[trigger] order@[j])
                    &&& old(self).advertised_in_turn(final(self), order@, delays@)
                },
                Err(e) => {
                    &&& old(self).same(final(self))
                    &&& exists|k: int|
                        old(self).first_unknown(order@, k) && e
                            == SimulationError::RequestorNotFound(#[trigger] order@[k])
                },
            },
    {
        let n: usize = order.len();
        let mut c: usize = 0;
        while c < n
            invariant
                *self == *old(self),
                self.wf(),
                n == order@.len(),
                0 <= c <= n,
                forall|j: int| 0 <= j < c ==> self.requestors.contains(#[trigger] order@[j]),
            decreases n - c,
        {
            if !self.requestors.contains_key(order[c]) {
                proof {
                    assert(self.first_unknown(order@, c as int));
                }
                return Err(SimulationError::RequestorNotFound(order[c]));
            }
            c = c + 1;
        }
        let mut k: usize = 0;
        proof {
            assert(order@.subrange(0, 0) =~= Seq::<Id>::empty());
        }
        while k < n
            invariant
                self.wf(),
                self.providers == old(self).providers,
                self.engine@.now == old(self).engine@.now,
                n == order@.len(),
                n == delays@.len(),
                0 <= k <= n,
                forall|j: int| 0 <= j < n ==> old(self).requestors.contains(#[trigger] order@[j]),
                forall|id: Id| old(self).requestors.contains(id) ==> #[trigger] self.requestors.contains(id),
                old(self).advertised_in_turn(
                    self,
                    order@.subrange(0, k as int),
                    delays@.subrange(0, k as int),
                ),
            decreases n - k,
        {
            let ghost before_last = *self;
            assert(self.requestors.contains(order@[k as int]));
            let outcome = self.advertise(order[k], delays[k]);
            assert(outcome is Ok);
            proof {
                before_last.lemma_requestor_replaced(
                    self,
                    before_last.requestor_at(order@[k as int]),
                );
                let next_order = order@.subrange(0, k + 1);
                let next_delays = delays@.subrange(0, k + 1);
                assert(next_order.drop_last() =~= order@.subrange(0, k as int));
                assert(next_delays.drop_last() =~= delays@.subrange(0, k as int));
                assert(next_order.last() == order@[k as int]);
                assert(next_delays.last() == delays@[k as int]);
                assert(before_last.advertised(self, next_order.last(), next_delays.last(), Ok(())));
            }
            k = k + 1;
        }
        proof {
            assert(order@.subrange(0, n as int) =~= order@);
            assert(delays@.subrange(0, n as int) =~= delays@);
        }
        Ok(())
    }

    /// The exponent of the factor by which the profit margin of the provider
    /// at `j` rises if it finishes a subtask now.
    pub open spec fn growth_exponent_at(&self, j: int) -> Fixed {
        (Fixed { raw: crate::provider::BETA_RAW }).times_spec(
            self.providers.entries@[j].1.common().elapsed_spec(self.engine@.now),
        )
    }

    /// The exponent, without its sign, of the factor by which the profit
    /// margin of the provider at `j` falls if it accepts a subtask now.
    pub open spec fn decay_exponent_at(&self, j: int) -> Fixed {
        (Fixed { raw: crate::provider::ALPHA_RAW }).times_spec(
            self.providers.entries@[j].1.common().elapsed_spec(self.engine@.now),
        )
    }

    /// Says what the caller must work out before the step for `event`: for
    /// an advertisement the factors by which the profit margins of the
    /// providers would fall; for a subtask computed the factor by which the
    /// profit margin of the provider rises, and the error of its
    /// measurement if it is a regular provider; for a budget used up
    /// nothing. Fails where a subtask is computed by a provider that the
    /// world does not hold.
    pub fn demand(&self, event: Event) -> (r: Result<Demand, SimulationError>)
        requires
            self.wf(),
        ensures
            match event {
                Event::TaskAdvertisement(_) => match r {
                    Ok(Demand::Decays(exponents)) => {
                        &&& exponents@.len() == self.providers.entries@.len()
                        &&& forall|j: int|
                            0 <= j < exponents@.len() ==> #[trigger] exponents@[j]
                                == self.decay_exponent_at(j)
                    },
                    _ => false,
                },
                Event::SubTaskComputed(_, _, provider_id, _) => if self.providers.contains(
                    provider_id,
                ) {
                    r matches Ok(Demand::Growth { exponent, noise }) && exponent
                        == self.growth_exponent_at(self.provider_at(provider_id)) && noise == (
                    self.provider(provider_id).behaviour_spec() == Behaviour::Regular)
                } else {
                    r matches Err(e) && e == SimulationError::ProviderNotFound(provider_id)
                },
                Event::SubTaskBudgetExceeded(_, _, _) => r matches Ok(Demand::Nothing),
            },
    {
        match event {
            Event::TaskAdvertisement(_) => Ok(Demand::Decays(self.decay_exponents())),
            Event::SubTaskComputed(_, _, provider_id, _) => {
                match self.providers.position(provider_id) {
                    Some(j) => {
                        proof {
                            lemma_entry_at(self.providers.entries@, j as int);
                        }
                        let provider = &self.providers.entries[j].1;
                        let elapsed = provider.as_provider_common().elapsed(self.engine.now());
                        Ok(
                            Demand::Growth {
                                exponent: ProviderCommon::growth_exponent(elapsed),
                                noise: match provider.behaviour() {
                                    Behaviour::Regular => true,
                                    _ => false,
                                },
                            },
                        )
                    },
                    None => Err(SimulationError::ProviderNotFound(provider_id)),
                }
            },
            Event::SubTaskBudgetExceeded(_, _, _) => Ok(Demand::Nothing),
        }
    }

    /// Whether `numerics` hold what the step for `event` needs.
    pub open spec fn takes(&self, event: Event, numerics: &Numerics) -> bool {
        event is TaskAdvertisement ==> numerics.decays@.len() == self.providers.entries@.len()
    }

    /// What the step that belongs to `event` does, and what it returns.
    pub open spec fn handled(
        &self,
        after: &World,
        event: Event,
        numerics: &Numerics,
        r: Result<FollowUp, SimulationError>,
    ) -> bool {
        match event {
            Event::TaskAdvertisement(requestor_id) => match r {
                Ok(next) => next == FollowUp::Nothing && self.advertisement_handled(
                    after,
                    requestor_id,
                    numerics.decays@,
                    Ok(()),
                ),
                Err(e) => self.advertisement_handled(after, requestor_id, numerics.decays@, Err(e)),
            },
            Event::SubTaskComputed(subtask, requestor_id, provider_id, bid) => match r {
                Ok(next) => next == FollowUp::CompleteAndAdvertise(requestor_id) && exists|
                    status: Status,
                | #[trigger]
                    self.compute_handled(
                        after,
                        subtask,
                        requestor_id,
                        provider_id,
                        bid,
                        numerics.growth,
                        numerics.noise,
                        Ok(status),
                    ),
                Err(e) => self.compute_handled(
                    after,
                    subtask,
                    requestor_id,
                    provider_id,
                    bid,
                    numerics.growth,
                    numerics.noise,
                    Err(e),
                ),
            },
            Event::SubTaskBudgetExceeded(subtask, requestor_id, provider_id) => match r {
                Ok(next) => next == FollowUp::Advertise && exists|status: Status| #[trigger]
                    self.budget_exceeded_handled(
                        after,
                        subtask,
                        requestor_id,
                        provider_id,
                        Ok(status),
                    ),
                Err(e) => self.budget_exceeded_handled(
                    after,
                    subtask,
                    requestor_id,
                    provider_id,
                    Err(e),
                ),
            },
        }
    }

    /// Takes the step that belongs to `event`, and says what is to follow
    /// it: nothing after an advertisement; the end of the requestor's task,
    /// if it is done, and then an advertisement of every requestor after a
    /// subtask computed; an advertisement of every requestor after a budget
    /// used up.
    pub fn handle(&mut self, event: Event, numerics: &Numerics) -> (r: Result<
        FollowUp,
        SimulationError,
    >)
        requires
            old(self).wf(),
            old(self).takes(event, numerics),
        ensures
            final(self).wf(),
            final(self).ids == old(self).ids,
            final(self).engine@.now == old(self).engine@.now,
            old(self).handled(final(self), event, numerics, r),
    {
        match event {
            Event::TaskAdvertisement(requestor_id) => {
                match self.handle_advertise(requestor_id, &numerics.decays) {
                    Ok(()) => Ok(FollowUp::Nothing),
                    Err(e) => Err(e),
                }
            },
            Event::SubTaskComputed(subtask, requestor_id, provider_id, bid) => {
                match self.handle_compute(
                    subtask,
                    requestor_id,
                    provider_id,
                    bid,
                    numerics.growth,
                    numerics.noise,
                ) {
                    Ok(_) => Ok(FollowUp::CompleteAndAdvertise(requestor_id)),
                    Err(e) => Err(e),
                }
            },
            Event::SubTaskBudgetExceeded(subtask, requestor_id, provider_id) => {
                match self.handle_budget_exceeded(subtask, requestor_id, provider_id) {
                    Ok(_) => Ok(FollowUp::Advertise),
                    Err(e) => Err(e),
                }
            },
        }
    }

    /// Every requestor has a rating for every provider.
    pub open spec fn all_rated(&self) -> bool {
        forall|i: int, j: int|
            0 <= i < self.requestors.entries@.len() && 0 <= j < self.providers.entries@.len() ==> (
            #[trigger] self.requestors.entries@[i]).1.rates((#[trigger] self.providers.entries@[j]).0)
    }

    /// Every requestor still has a rating for every provider where the
    /// providers are the same and no requestor has lost a rating.
    proof fn lemma_all_rated_kept(&self, after: &World)
        requires
            self.all_rated(),
            after.requestors.entries@.len() == self.requestors.entries@.len(),
            after.providers.entries@.len() == self.providers.entries@.len(),
            forall|j: int|
                0 <= j < self.providers.entries@.len() ==> (#[trigger] after.providers.entries@[j]).0
                    == self.providers.entries@[j].0,
            forall|i: int, k: Id|
                0 <= i < self.requestors.entries@.len() && self.requestors.entries@[i].1.rates(k)
                    ==> #[trigger] after.requestors.entries@[i].1.rates(k),
        ensures
            after.all_rated(),
    {
        assert forall|i: int, j: int|
            0 <= i < after.requestors.entries@.len() && 0 <= j
                < after.providers.entries@.len() implies (
        #[trigger] after.requestors.entries@[i]).1.rates(
            (#[trigger] after.providers.entries@[j]).0,
        ) by {
            assert(self.requestors.entries@[i].1.rates(self.providers.entries@[j].0));
            assert(after.providers.entries@[j].0 == self.providers.entries@[j].0);
        }
    }

    /// The benchmarks hold a usage for every provider.
    pub proof fn lemma_benchmark_for_each(providers: Seq<(Id, Provider)>, j: int)
        requires
            0 <= j < providers.len(),
        ensures
            crate::requestor::latest(benchmarks(providers), providers[j].0) is Some,
        decreases providers.len(),
    {
        let all = benchmarks(providers);
        assert(all.last().0 == providers.last().0);
        if providers.last().0 != providers[j].0 {
            assert(all.drop_last() =~= benchmarks(providers.drop_last()));
            Self::lemma_benchmark_for_each(providers.drop_last(), j);
        }
    }

    /// After the startup every requestor has a rating for every provider.
    pub proof fn lemma_startup_rates_all(&self, after: &World)
        requires
            self.wf(),
            self.startup_done(after),
        ensures
            after.all_rated(),
    {
        assert forall|i: int, j: int|
            0 <= i < after.requestors.entries@.len() && 0 <= j
                < after.providers.entries@.len() implies (
        #[trigger] after.requestors.entries@[i]).1.rates(
            (#[trigger] after.providers.entries@[j]).0,
        ) by {
            Self::lemma_benchmark_for_each(self.providers.entries@, j);
            assert(self.requestors.entries@[i].1.all_benchmarked(
                &after.requestors.entries@[i].1,
                benchmarks(self.providers.entries@),
            ));
        }
    }

    /// No rating is lost when a requestor advertises.
    pub proof fn lemma_advertising_keeps_ratings(
        &self,
        after: &World,
        requestor_id: Id,
        arrival_delay: Fixed,
        r: Result<(), SimulationError>,
    )
        requires
            self.wf(),
            self.all_rated(),
            self.advertised(after, requestor_id, arrival_delay, r),
        ensures
            after.all_rated(),
    {
        if r is Ok {
            let at = self.requestor_at(requestor_id);
            lemma_index_of(self.requestors.entries@, requestor_id);
            assert forall|i: int, k: Id|
                0 <= i < self.requestors.entries@.len() && self.requestors.entries@[i].1.rates(
                    k,
                ) implies #[trigger] after.requestors.entries@[i].1.rates(k) by {
                if i == at {
                    self.requestors.entries@[i].1.lemma_advertising_keeps_ratings(
                        &after.requestors.entries@[i].1,
                        self.engine@,
                        after.engine@,
                        self.ids.upcoming(),
                        after.ids.upcoming(),
                        arrival_delay,
                        k,
                    );
                } else {
                    assert(after.requestors.entries@[i] == self.requestors.entries@[i]);
                }
            }
            self.lemma_all_rated_kept(after);
        } else {
            self.lemma_all_rated_kept(after);
        }
    }

    /// No rating is lost in a round of advertisements.
    pub proof fn lemma_round_keeps_ratings(&self, after: &World, order: Seq<Id>, delays: Seq<Fixed>)
        requires
            self.wf(),
            self.all_rated(),
            order.len() == delays.len(),
            self.advertised_in_turn(after, order, delays),
        ensures
            after.all_rated(),
            order.len() > 0 ==> after.wf(),
        decreases order.len(),
    {
        if order.len() == 0 {
            self.lemma_all_rated_kept(after);
        } else {
            let before_last = choose|before_last: World|
                {
                    &&& self.advertised_in_turn(&before_last, order.drop_last(), delays.drop_last())
                    &&& #[trigger] before_last.advertised(
                        after,
                        order.last(),
                        delays.last(),
                        Ok(()),
                    )
                };
            self.lemma_round_keeps_ratings(&before_last, order.drop_last(), delays.drop_last());
            if order.len() == 1 {
                assert(self.same(&before_last));
                // The world before the last advertisement holds what this one
                // holds; the advertisement itself says the rest.
                let at = before_last.requestor_at(order.last());
                assert forall|i: int, k: Id|
                    0 <= i < before_last.requestors.entries@.len()
                        && before_last.requestors.entries@[i].1.rates(
                        k,
                    ) implies #[trigger] after.requestors.entries@[i].1.rates(k) by {
                    if i == at {
                        before_last.requestors.entries@[i].1.lemma_advertising_keeps_ratings(
                            &after.requestors.entries@[i].1,
                            before_last.engine@,
                            after.engine@,
                            before_last.ids.upcoming(),
                            after.ids.upcoming(),
                            delays.last(),
                            k,
                        );
                    } else {
                        assert(after.requestors.entries@[i] == before_last.requestors.entries@[i]);
                    }
                }
                before_last.lemma_all_rated_kept(after);
            } else {
                before_last.lemma_advertising_keeps_ratings(
                    after,
                    order.last(),
                    delays.last(),
                    Ok(()),
                );
            }
        }
    }

    /// No rating is lost in the step for a computed subtask.
    pub proof fn lemma_compute_keeps_ratings(
        &self,
        after: &World,
        subtask: SubTask,
        requestor_id: Id,
        provider_id: Id,
        bid: Fixed,
        growth: Fixed,
        noise: Fixed,
        r: Result<Status, SimulationError>,
    )
        requires
            self.wf(),
            self.all_rated(),
            self.compute_handled(
                after,
                subtask,
                requestor_id,
                provider_id,
                bid,
                growth,
                noise,
                r,
            ),
        ensures
            after.all_rated(),
    {
        if self.missing(requestor_id, provider_id) is None && r is Ok {
            let at = self.requestor_at(requestor_id);
            let j = self.provider_at(provider_id);
            let finished = self.providers.entries@[j].1.with_common(
                self.providers.entries@[j].1.common().finished(self.engine@.now, growth),
            );
            let usage = finished.reported(subtask, bid, noise);
            let before = self.requestors.entries@[at].1;
            let now = after.requestors.entries@[at].1;
            let status = r->Ok_0;
            let verified = choose|verified: Requestor|
                {
                    &&& #[trigger] before.verified(
                        &verified,
                        &subtask,
                        provider_id,
                        Some(usage),
                        Ok::<Status, SimulationError>(status),
                    )
                    &&& verified.payment_sent(
                        &now,
                        &subtask,
                        bid,
                        usage,
                        Some(Requestor::payment(bid, usage)),
                    )
                };
            assert forall|i: int, k: Id|
                0 <= i < self.requestors.entries@.len() && self.requestors.entries@[i].1.rates(
                    k,
                ) implies #[trigger] after.requestors.entries@[i].1.rates(k) by {
                if i == at {
                    before.lemma_verification_keeps_ratings(
                        &verified,
                        &subtask,
                        provider_id,
                        Some(usage),
                        Ok(status),
                        k,
                    );
                    verified.lemma_payment_keeps_ratings(
                        &now,
                        &subtask,
                        bid,
                        usage,
                        Some(Requestor::payment(bid, usage)),
                        k,
                    );
                } else {
                    assert(after.requestors.entries@[i] == self.requestors.entries@[i]);
                }
            }
            self.lemma_all_rated_kept(after);
        } else {
            self.lemma_all_rated_kept(after);
        }
    }

    /// No rating is lost in the step for a subtask whose budget was used up.
    pub proof fn lemma_budget_exceeded_keeps_ratings(
        &self,
        after: &World,
        subtask: SubTask,
        requestor_id: Id,
        provider_id: Id,
        r: Result<Status, SimulationError>,
    )
        requires
            self.wf(),
            self.all_rated(),
            self.budget_exceeded_handled(after, subtask, requestor_id, provider_id, r),
        ensures
            after.all_rated(),
    {
        if self.missing(requestor_id, provider_id) is None && r is Ok {
            let at = self.requestor_at(requestor_id);
            assert forall|i: int, k: Id|
                0 <= i < self.requestors.entries@.len() && self.requestors.entries@[i].1.rates(
                    k,
                ) implies #[trigger] after.requestors.entries@[i].1.rates(k) by {
                if i == at {
                    self.requestors.entries@[i].1.lemma_verification_keeps_ratings(
                        &after.requestors.entries@[i].1,
                        &subtask,
                        provider_id,
                        None,
                        r,
                        k,
                    );
                } else {
                    assert(after.requestors.entries@[i] == self.requestors.entries@[i]);
                }
            }
            self.lemma_all_rated_kept(after);
        } else {
            self.lemma_all_rated_kept(after);
        }
    }

    /// No rating is lost when a requestor ends its task.
    pub proof fn lemma_completion_keeps_ratings(
        &self,
        after: &World,
        requestor_id: Id,
        stats: &TaskStatistics,
        r: Result<bool, SimulationError>,
    )
        requires
            self.wf(),
            self.all_rated(),
            self.task_completed(after, requestor_id, stats, r),
        ensures
            after.all_rated(),
    {
        if self.requestors.contains(requestor_id) {
            let at = self.requestor_at(requestor_id);
            assert forall|i: int, k: Id|
                0 <= i < self.requestors.entries@.len() && self.requestors.entries@[i].1.rates(
                    k,
                ) implies #[trigger] after.requestors.entries@[i].1.rates(k) by {
                if i == at {
                    self.requestors.entries@[i].1.lemma_completion_keeps_ratings(
                        &after.requestors.entries@[i].1,
                        stats,
                        r,
                        k,
                    );
                } else {
                    assert(after.requestors.entries@[i] == self.requestors.entries@[i]);
                }
            }
        }
        self.lemma_all_rated_kept(after);
    }

    /// No rating is lost in an advertisement; and once every requestor has
    /// a rating for every provider, an advertisement fails only for want of
    /// the requestor or of a current task: no rating is found missing.
    pub proof fn lemma_advertisement_finds_ratings(
        &self,
        after: &World,
        requestor_id: Id,
        decays: Seq<Fixed>,
        r: Result<(), SimulationError>,
    )
        requires
            self.wf(),
            self.all_rated(),
            self.advertisement_handled(after, requestor_id, decays, r),
        ensures
            after.all_rated(),
            r matches Err(e) ==> e == SimulationError::RequestorNotFound(requestor_id) || e
                == SimulationError::TaskNotFound(requestor_id),
    {
        if self.requestors.contains(requestor_id) {
            let at = self.requestor_at(requestor_id);
            lemma_index_of(self.requestors.entries@, requestor_id);
            let before = self.requestors.entries@[at].1;
            let bids = offers(self.providers.entries@);
            let selection = choose|selection: Result<Vec<Assignment>, SimulationError>|
                {
                    &&& #[trigger] before.selected(
                        &after.requestors.entries@[at].1,
                        bids,
                        selection,
                    )
                    &&& self.same_requestors_but(after, at)
                    &&& match selection {
                        Ok(assignments) => {
                            &&& r is Ok
                            &&& (after.providers.entries@, after.engine@) == delivered_to(
                                self.providers.entries@,
                                self.engine@,
                                assignments@,
                                decays,
                                requestor_id,
                            )
                        },
                        Err(e) => r == Err::<(), SimulationError>(e) && self.same(after),
                    }
                };
            assert forall|i: int, k: Id|
                0 <= i < self.requestors.entries@.len() && self.requestors.entries@[i].1.rates(
                    k,
                ) implies #[trigger] after.requestors.entries@[i].1.rates(k) by {
                if i == at {
                    before.lemma_selection_keeps_ratings(
                        &after.requestors.entries@[at].1,
                        bids,
                        selection,
                        k,
                    );
                } else {
                    assert(after.requestors.entries@[i] == self.requestors.entries@[i]);
                }
            }
            match selection {
                Ok(assignments) => {
                    lemma_delivered_keys(
                        self.providers.entries@,
                        self.engine@,
                        assignments@,
                        decays,
                        requestor_id,
                    );
                },
                Err(e) => {
                    if before.busy() {
                        let common = before.defence_mechanism.common();
                        let open_bids = unbanned(bids, common.blacklisted_set.entries@);
                        let k = choose|k: int|
                            first_unrated(open_bids, common.ratings.entries@, k) && e
                                == SimulationError::RatingNotFound(
                                common.requestor_id,
                                #[trigger] open_bids[k].0,
                            );
                        lemma_unbanned_sound(bids, common.blacklisted_set.entries@, k);
                        let b = choose|b: int| 0 <= b < bids.len() && bids[b] == open_bids[k];
                        lemma_offers_from(self.providers.entries@, b);
                        let j = index_of(self.providers.entries@, bids[b].0);
                        assert(self.requestors.entries@[at].1.rates(self.providers.entries@[j].0));
                        assert(false);
                    }
                },
            }
            self.lemma_all_rated_kept(after);
        } else {
            self.lemma_all_rated_kept(after);
        }
    }

    /// What is recorded at the end of the run `run_id`: of every requestor
    /// and of every provider, in their order.
    pub fn into_stats(self, run_id: u64) -> (r: (
        Vec<crate::requestor::Stats>,
        Vec<crate::provider::Stats>,
    ))
        ensures
            r.0@.len() == self.requestors.entries@.len(),
            forall|i: int|
                0 <= i < r.0@.len() ==> #[trigger] r.0@[i] == self.requestors.entries@[i].1.stats(
                    run_id,
                ),
            r.1@.len() == self.providers.entries@.len(),
            forall|i: int|
                0 <= i < r.1@.len() ==> #[trigger] r.1@[i] == self.providers.entries@[i].1.common().stats(
                    run_id,
                    self.providers.entries@[i].1.behaviour_spec(),
                ),
    {
        let mut requestors: Vec<crate::requestor::Stats> = Vec::new();
        let n: usize = self.requestors.len();
        let mut i: usize = 0;
        while i < n
            invariant
                n == self.requestors.entries@.len(),
                0 <= i <= n,
                requestors@.len() == i,
                forall|k: int|
                    0 <= k < i ==> #[trigger] requestors@[k] == self.requestors.entries@[k].1.stats(
                        run_id,
                    ),
            decreases n - i,
        {
            requestors.push(self.requestors.entries[i].1.to_stats(run_id));
            i = i + 1;
        }
        let mut providers: Vec<crate::provider::Stats> = Vec::new();
        let m: usize = self.providers.len();
        let mut j: usize = 0;
        while j < m
            invariant
                m == self.providers.entries@.len(),
                0 <= j <= m,
                providers@.len() == j,
                forall|k: int|
                    0 <= k < j ==> #[trigger] providers@[k] == self.providers.entries@[k].1.common().stats(
                        run_id,
                        self.providers.entries@[k].1.behaviour_spec(),
                    ),
            decreases m - j,
        {
            providers.push(self.providers.entries[j].1.into_stats(run_id));
            j = j + 1;
        }
        (requestors, providers)
    }
}

} // verus!
