//! Handing a worker's terminal account of a prompt to the request it is about.

use std::collections::HashSet;
use vstd::prelude::*;

use crate::catalog::CacheGroupObservation;
use crate::text::same_text;

verus! {

broadcast use vstd::std_specs::hash::group_hash_axioms;

pub const TOPIC: &'static str = "prompt-source-terminal-v1";

pub const QUEUE_CAPACITY: usize = 4096;

pub const REGISTRY_CAPACITY: usize = 100_000;

/// Where a worker found the tokens of a prompt.
#[derive(Clone, Debug, PartialEq, Eq)]
pub struct CacheSourceObservation {
    pub schema_version: u32,
    pub complete: bool,
    pub prompt_tokens: Option<u64>,
    pub gpu_hit_tokens: Option<u64>,
    pub cpu_hit_tokens: Option<u64>,
    pub cpu_lookup_tokens: Option<u64>,
    pub retrieval_failure_tokens: Option<u64>,
    pub recomputed_tokens: Option<u64>,
    pub incomplete_reason: Option<String>,
    pub cache_groups: Option<Vec<CacheGroupObservation>>,
}

/// What a worker reports when a request ends.
#[derive(Clone, Debug, PartialEq, Eq)]
pub struct TerminalPromptSourceOutcome {
    pub origin_router_id: u64,
    pub request_id: String,
    /// Correlates one registration when clients reuse request ids. Zero never
    /// satisfies a registration.
    pub registration_nonce: u64,
    pub cache_source: CacheSourceObservation,
    pub num_computed_output_tokens: u64,
    pub num_unobserved_computed_output_tokens: u64,
    pub generated_history_incomplete_reason: Option<String>,
}

#[derive(Clone, Copy, Debug, PartialEq, Eq, Structural)]
pub enum RegistrationError {
    Full,
    Duplicate,
    Unavailable,
}

#[derive(Clone, Copy, Debug, PartialEq, Eq, Structural)]
pub enum WaitError {
    Timeout,
    PublisherClosed,
}

// ---- publishing ----

/// What became of an outcome that was put into the publishing queue.
#[derive(Clone, Copy, Debug, PartialEq, Eq, Structural)]
pub enum QueueOutcome {
    Enqueued,
    Full,
    Closed,
}

impl QueueOutcome {
    pub open spec fn label(self) -> Seq<char> {
        match self {
            Self::Enqueued => "enqueued"@,
            Self::Full => "queue_full"@,
            Self::Closed => "queue_closed"@,
        }
    }

    pub fn metric_label(self) -> (label: &'static str)
        ensures
            label@ == self.label(),
    {
        match self {
            Self::Enqueued => "enqueued",
            Self::Full => "queue_full",
            Self::Closed => "queue_closed",
        }
    }

    /// What the caller is told.
    pub fn result(self) -> (result: Result<(), &'static str>)
        ensures
            match result {
                Ok(()) => self == QueueOutcome::Enqueued,
                Err(error) => (self == QueueOutcome::Full && error@ == "full"@) || (self
                    == QueueOutcome::Closed && error@ == "closed"@),
            },
    {
        match self {
            Self::Enqueued => Ok(()),
            Self::Full => Err("full"),
            Self::Closed => Err("closed"),
        }
    }
}

/// A control result that is counted under its own name.
pub open spec fn is_control_result(result: Seq<char>) -> bool {
    ||| result == "origin_active_evicted"@
    ||| result == "origin_pending_expired"@
    ||| result == "origin_pending_full"@
    ||| result == "origin_missing"@
}

/// The label under which a control result is counted.
pub fn control_result_label(result: &str) -> (label: &'static str)
    ensures
        label@ == if is_control_result(result@) {
            result@
        } else {
            "invalid_control_result"@
        },
{
    if same_text(result, "origin_active_evicted") {
        "origin_active_evicted"
    } else if same_text(result, "origin_pending_expired") {
        "origin_pending_expired"
    } else if same_text(result, "origin_pending_full") {
        "origin_pending_full"
    } else if same_text(result, "origin_missing") {
        "origin_missing"
    } else {
        "invalid_control_result"
    }
}

// ---- registry model ----

#[verifier::ext_equal]
pub struct RegistryView {
    pub router_id: u64,
    pub capacity: nat,
    /// The nonce that was given last; zero before the first.
    pub last_nonce: u64,
    /// The nonce of each waiting request.
    pub pending: Map<Seq<char>, u64>,
}

/// The nonce after the given one; never zero.
pub open spec fn next_nonce(nonce: u64) -> u64 {
    if nonce == u64::MAX {
        1
    } else {
        (nonce + 1) as u64
    }
}

/// What an outcome comes to.
pub enum DeliveryView {
    /// It is for another router.
    Ignored,
    /// Nobody waits for it.
    Orphan,
    /// The request with the nonce waits for it.
    Matched(u64),
}

impl RegistryView {
    pub open spec fn inv(self) -> bool {
        &&& self.pending.dom().finite()
        &&& forall|id: Seq<char>| #[trigger] self.pending.contains_key(id) ==> self.pending[id] > 0
    }

    /// Without the requests whose receiver is gone.
    pub open spec fn prune(self, closed: Set<u64>) -> RegistryView {
        RegistryView {
            pending: self.pending.restrict(
                Set::new(|id: Seq<char>| !closed.contains(self.pending[id])),
            ),
            ..self
        }
    }

    pub open spec fn register(self, request_id: Seq<char>, closed: Set<u64>) -> (
        RegistryView,
        Result<u64, RegistrationError>,
    ) {
        let live = self.prune(closed);
        if live.pending.contains_key(request_id) {
            (live, Err(RegistrationError::Duplicate))
        } else if live.pending.dom().len() >= live.capacity {
            (live, Err(RegistrationError::Full))
        } else {
            let nonce = next_nonce(live.last_nonce);
            (
                RegistryView {
                    last_nonce: nonce,
                    pending: live.pending.insert(request_id, nonce),
                    ..live
                },
                Ok(nonce),
            )
        }
    }

    pub open spec fn waits(self, request_id: Seq<char>, nonce: u64) -> bool {
        self.pending.contains_key(request_id) && self.pending[request_id] == nonce
    }

    pub open spec fn remove(self, request_id: Seq<char>, nonce: u64) -> RegistryView {
        if self.waits(request_id, nonce) {
            RegistryView { pending: self.pending.remove(request_id), ..self }
        } else {
            self
        }
    }

    pub open spec fn deliver(self, origin_router_id: u64, request_id: Seq<char>, nonce: u64) -> (
        RegistryView,
        DeliveryView,
    ) {
        if origin_router_id != self.router_id {
            (self, DeliveryView::Ignored)
        } else if self.waits(request_id, nonce) {
            (self.remove(request_id, nonce), DeliveryView::Matched(nonce))
        } else {
            (self, DeliveryView::Orphan)
        }
    }
}

// ---- registry ----

struct PendingOutcome {
    request_id: String,
    generation: u64,
}

pub struct TerminalPromptSourceRegistry {
    router_id: u64,
    capacity: usize,
    next_generation: u64,
    pending: Vec<PendingOutcome>,
}

spec fn holds(pending: Seq<PendingOutcome>, i: int, id: Seq<char>) -> bool {
    0 <= i < pending.len() && pending[i].request_id@ == id
}

spec fn pending_map(pending: Seq<PendingOutcome>) -> Map<Seq<char>, u64> {
    Map::new(
        |id: Seq<char>| exists|i: int| holds(pending, i, id),
        |id: Seq<char>| pending[choose|i: int| holds(pending, i, id)].generation,
    )
}

spec fn distinct(pending: Seq<PendingOutcome>) -> bool {
    forall|i: int, j: int|
        0 <= i < j < pending.len() ==> (#[trigger] pending[i]).request_id@ != (
        #[trigger] pending[j]).request_id@
}

proof fn lemma_entry(pending: Seq<PendingOutcome>, i: int)
    requires
        distinct(pending),
        0 <= i < pending.len(),
    ensures
        pending_map(pending).contains_key(pending[i].request_id@),
        pending_map(pending)[pending[i].request_id@] == pending[i].generation,
{
    let id = pending[i].request_id@;
    assert(holds(pending, i, id));
    let j = choose|j: int| holds(pending, j, id);
    assert(holds(pending, j, id));
    assert(i == j);
}

proof fn lemma_pending_len(pending: Seq<PendingOutcome>)
    requires
        distinct(pending),
    ensures
        pending_map(pending).dom().finite(),
        pending_map(pending).dom().len() == pending.len(),
    decreases pending.len(),
{
    let domain = pending_map(pending).dom();
    if pending.len() == 0 {
        assert(domain =~= Set::<Seq<char>>::empty());
    } else {
        let rest = pending.drop_last();
        lemma_pending_len(rest);
        let id = pending.last().request_id@;
        assert(domain =~= pending_map(rest).dom().insert(id)) by {
            assert forall|other: Seq<char>| #[trigger]
                domain.contains(other) <==> pending_map(rest).dom().insert(id).contains(other) by {
                if domain.contains(other) {
                    let i = choose|i: int| holds(pending, i, other);
                    if i < rest.len() {
                        assert(holds(rest, i, other));
                    }
                }
                if pending_map(rest).dom().contains(other) {
                    let i = choose|i: int| holds(rest, i, other);
                    assert(holds(pending, i, other));
                }
                assert(holds(pending, pending.len() - 1, id));
            }
        }
        assert(!pending_map(rest).dom().contains(id)) by {
            if pending_map(rest).dom().contains(id) {
                let i = choose|i: int| holds(rest, i, id);
                assert(pending[i].request_id@ == id);
            }
        }
    }
}

/// What an outcome comes to.
pub enum Delivery {
    /// It is for another router.
    Ignored,
    /// Nobody waits for it.
    Orphan,
    /// The request with the nonce waits for the outcome.
    Matched { nonce: u64, outcome: TerminalPromptSourceOutcome },
}

impl Delivery {
    pub open spec fn kind(self) -> DeliveryView {
        match self {
            Delivery::Ignored => DeliveryView::Ignored,
            Delivery::Orphan => DeliveryView::Orphan,
            Delivery::Matched { nonce, .. } => DeliveryView::Matched(nonce),
        }
    }

    /// The label under which the delivery is counted, given whether the
    /// receiver took it.
    pub fn metric_label(&self, received: bool) -> (label: Option<&'static str>)
        ensures
            match label {
                None => self is Ignored,
                Some(label) => match self {
                    Delivery::Ignored => false,
                    Delivery::Orphan => label@ == "orphan"@,
                    Delivery::Matched { .. } => label@ == if received {
                        "delivered"@
                    } else {
                        "receiver_closed"@
                    },
                },
            },
    {
        match self {
            Delivery::Ignored => None,
            Delivery::Orphan => Some("orphan"),
            Delivery::Matched { .. } => if received {
                Some("delivered")
            } else {
                Some("receiver_closed")
            },
        }
    }
}

impl RegistrationError {
    /// The label under which a refused registration is counted; an absent
    /// registry counts nothing.
    pub fn metric_label(self) -> (label: Option<&'static str>)
        ensures
            match label {
                None => self == RegistrationError::Unavailable,
                Some(label) => (self == RegistrationError::Full && label@ == "registry_full"@) || (
                self == RegistrationError::Duplicate && label@ == "registry_duplicate"@),
            },
    {
        match self {
            Self::Full => Some("registry_full"),
            Self::Duplicate => Some("registry_duplicate"),
            Self::Unavailable => None,
        }
    }
}

impl View for TerminalPromptSourceRegistry {
    type V = RegistryView;

    closed spec fn view(&self) -> RegistryView {
        RegistryView {
            router_id: self.router_id,
            capacity: self.capacity as nat,
            last_nonce: self.next_generation,
            pending: pending_map(self.pending@),
        }
    }
}

impl TerminalPromptSourceRegistry {
    pub closed spec fn wf(&self) -> bool {
        &&& distinct(self.pending@)
        &&& forall|i: int| 0 <= i < self.pending@.len() ==> (#[trigger] self.pending@[i]).generation
            > 0
        &&& self@.inv()
    }

    pub fn new(router_id: u64, capacity: usize) -> (registry: Self)
        ensures
            registry.wf(),
            registry@ == (RegistryView {
                router_id,
                capacity: capacity as nat,
                last_nonce: 0,
                pending: Map::empty(),
            }),
    {
        let registry = TerminalPromptSourceRegistry {
            router_id,
            capacity,
            next_generation: 0,
            pending: Vec::new(),
        };
        assert(registry@.pending =~= Map::empty());
        registry
    }

    pub fn router_id(&self) -> (id: u64)
        ensures
            id == self@.router_id,
    {
        self.router_id
    }

    pub fn pending(&self) -> (n: usize)
        requires
            self.wf(),
        ensures
            n == self@.pending.dom().len(),
    {
        proof {
            lemma_pending_len(self.pending@);
        }
        self.pending.len()
    }

    /// Where the request waits, if it does.
    fn position(&self, request_id: &str) -> (at: Option<usize>)
        ensures
            match at {
                Some(at) => holds(self.pending@, at as int, request_id@),
                None => forall|i: int| !#[trigger] holds(self.pending@, i, request_id@),
            },
    {
        let mut i: usize = 0;
        while i < self.pending.len()
            invariant
                i <= self.pending@.len(),
                forall|j: int| j < i ==> !#[trigger] holds(self.pending@, j, request_id@),
            decreases self.pending@.len() - i,
        {
            if same_text(self.pending[i].request_id.as_str(), request_id) {
                return Some(i);
            }
            i = i + 1;
        }
        None
    }

    pub fn contains(&self, request_id: &str) -> (waits: bool)
        ensures
            waits == self@.pending.contains_key(request_id@),
    {
        match self.position(request_id) {
            Some(at) => {
                assert(holds(self.pending@, at as int, request_id@));
                true
            },
            None => false,
        }
    }

    fn remove_at(&mut self, at: usize)
        requires
            old(self).wf(),
            at < old(self).pending@.len(),
        ensures
            final(self).wf(),
            final(self)@ == (RegistryView {
                pending: old(self)@.pending.remove(old(self).pending@[at as int].request_id@),
                ..old(self)@
            }),
            final(self).pending@ == old(self).pending@.remove(at as int),
    {
        let ghost before = self.pending@;
        let ghost id = before[at as int].request_id@;
        let _removed = self.pending.remove(at);
        proof {
            let after = self.pending@;
            assert forall|i: int| 0 <= i < after.len() implies after[i] == before[if i < at {
                i
            } else {
                i + 1
            }] by {}
            assert(distinct(after));
            let removed = pending_map(before).remove(id);
            assert forall|other: Seq<char>|
                #![trigger removed.contains_key(other)]
                #![trigger removed[other]]
                pending_map(after).contains_key(other) == removed.contains_key(other) && (
                pending_map(after).contains_key(other) ==> pending_map(after)[other]
                    == removed[other]) by {
                if pending_map(after).contains_key(other) {
                    let i = choose|i: int| holds(after, i, other);
                    let j = if i < at {
                        i
                    } else {
                        i + 1
                    };
                    assert(holds(before, j, other));
                    lemma_entry(after, i);
                    lemma_entry(before, j);
                    assert(before[j].request_id@ != before[at as int].request_id@);
                }
                if pending_map(before).contains_key(other) && other != id {
                    let j = choose|j: int| holds(before, j, other);
                    let i = if j < at {
                        j
                    } else {
                        j - 1
                    };
                    assert(holds(after, i, other));
                }
            }
            assert(pending_map(after) =~= removed);
        }
    }

    /// Forgets the requests whose receiver is gone.
    fn prune(&mut self, closed: &HashSet<u64>)
        requires
            old(self).wf(),
        ensures
            final(self).wf(),
            final(self)@ == old(self)@.prune(closed@),
    {
        let ghost start = self@;
        let mut i: usize = 0;
        while i < self.pending.len()
            invariant
                i <= self.pending@.len(),
                self.wf(),
                self@.router_id == start.router_id,
                self@.capacity == start.capacity,
                self@.last_nonce == start.last_nonce,
                forall|j: int|
                    0 <= j < i ==> !closed@.contains((#[trigger] self.pending@[j]).generation),
                forall|id: Seq<char>| #[trigger]
                    self@.pending.contains_key(id) ==> start.pending.contains_key(id)
                        && start.pending[id] == self@.pending[id],
                forall|id: Seq<char>| #[trigger]
                    start.pending.contains_key(id) && !closed@.contains(start.pending[id])
                        ==> self@.pending.contains_key(id),
            decreases self.pending@.len() - i,
        {
            proof {
                lemma_entry(self.pending@, i as int);
            }
            if closed.contains(&self.pending[i].generation) {
                self.remove_at(i);
            } else {
                i = i + 1;
            }
        }
        proof {
            let after = start.prune(closed@);
            assert forall|id: Seq<char>|
                self@.pending.contains_key(id) == #[trigger] after.pending.contains_key(id) by {
                if self@.pending.contains_key(id) {
                    let j = choose|j: int| holds(self.pending@, j, id);
                    lemma_entry(self.pending@, j);
                    assert(!closed@.contains(self.pending@[j].generation));
                }
            }
            assert(self@.pending =~= after.pending);
        }
    }

    /// Registers a request that will wait for its outcome. `closed` are the
    /// nonces whose receiver is gone.
    pub fn register(&mut self, request_id: String, closed: &HashSet<u64>) -> (nonce: Result<
        u64,
        RegistrationError,
    >)
        requires
            old(self).wf(),
        ensures
            final(self).wf(),
            (final(self)@, nonce) == old(self)@.register(request_id@, closed@),
    {
        self.prune(closed);
        let ghost live = self@;
        if self.contains(request_id.as_str()) {
            return Err(RegistrationError::Duplicate);
        }
        proof {
            lemma_pending_len(self.pending@);
        }
        if self.pending.len() >= self.capacity {
            return Err(RegistrationError::Full);
        }
        let generation: u64 = if self.next_generation == u64::MAX {
            1
        } else {
            self.next_generation + 1
        };
        let ghost before = self.pending@;
        let ghost id = request_id@;
        self.next_generation = generation;
        self.pending.push(PendingOutcome { request_id, generation });
        proof {
            let after = self.pending@;
            assert forall|i: int, j: int| 0 <= i < j < after.len() implies (
            #[trigger] after[i]).request_id@ != (#[trigger] after[j]).request_id@ by {
                if j == before.len() && after[i].request_id@ == id {
                    assert(holds(before, i, id));
                }
            }
            assert forall|other: Seq<char>|
                pending_map(after).contains_key(other) == #[trigger] pending_map(before).insert(
                    id,
                    generation,
                ).contains_key(other) && (pending_map(after).contains_key(other)
                    ==> pending_map(after)[other] == pending_map(before).insert(
                    id,
                    generation,
                )[other]) by {
                if pending_map(after).contains_key(other) {
                    let i = choose|i: int| holds(after, i, other);
                    lemma_entry(after, i);
                    if i < before.len() {
                        assert(holds(before, i, other));
                        lemma_entry(before, i);
                        assert(other != id);
                    }
                }
                if pending_map(before).contains_key(other) {
                    let i = choose|i: int| holds(before, i, other);
                    assert(holds(after, i, other));
                }
                assert(holds(after, before.len() as int, id));
            }
            assert(pending_map(after) =~= pending_map(before).insert(id, generation));
        }
        Ok(generation)
    }

    /// Finds out for whom an outcome is. What is handed on has its account
    /// validated by `validate`.
    pub fn deliver<F: Fn(CacheSourceObservation) -> CacheSourceObservation>(
        &mut self,
        outcome: TerminalPromptSourceOutcome,
        validate: F,
    ) -> (delivery: Delivery)
        requires
            old(self).wf(),
            forall|source: CacheSourceObservation| #[trigger] call_requires(validate, (source,)),
        ensures
            final(self).wf(),
            (final(self)@, delivery.kind()) == old(self)@.deliver(
                outcome.origin_router_id,
                outcome.request_id@,
                outcome.registration_nonce,
            ),
            match delivery {
                Delivery::Matched { outcome: delivered, .. } => {
                    &&& call_ensures(validate, (outcome.cache_source,), delivered.cache_source)
                    &&& delivered == (TerminalPromptSourceOutcome {
                        cache_source: delivered.cache_source,
                        ..outcome
                    })
                },
                _ => true,
            },
    {
        if outcome.origin_router_id != self.router_id {
            return Delivery::Ignored;
        }
        match self.position(outcome.request_id.as_str()) {
            None => Delivery::Orphan,
            Some(at) => {
                proof {
                    lemma_entry(self.pending@, at as int);
                }
                let nonce: u64 = self.pending[at].generation;
                if nonce != outcome.registration_nonce {
                    return Delivery::Orphan;
                }
                self.remove_at(at);
                let mut outcome = outcome;
                outcome.cache_source = validate(outcome.cache_source);
                Delivery::Matched { nonce, outcome }
            },
        }
    }

    /// Forgets the registration with the nonce; a later one of the same
    /// request stays.
    pub fn remove(&mut self, request_id: &str, generation: u64)
        requires
            old(self).wf(),
        ensures
            final(self).wf(),
            final(self)@ == old(self)@.remove(request_id@, generation),
    {
        if let Some(at) = self.position(request_id) {
            proof {
                lemma_entry(self.pending@, at as int);
            }
            if self.pending[at].generation == generation {
                self.remove_at(at);
            }
        }
    }
}

// ---- laws ----

/// The nonce after so many further registrations.
pub open spec fn nonce_after(nonce: u64, registrations: nat) -> u64
    decreases registrations,
{
    if registrations == 0 {
        nonce
    } else {
        next_nonce(nonce_after(nonce, (registrations - 1) as nat))
    }
}

proof fn lemma_nonce_after(nonce: u64, registrations: nat)
    requires
        0 < nonce,
        registrations < u64::MAX,
    ensures
        nonce_after(nonce, registrations) == if nonce + registrations <= u64::MAX {
            nonce + registrations
        } else {
            nonce + registrations - u64::MAX
        },
    decreases registrations,
{
    if registrations > 0 {
        lemma_nonce_after(nonce, (registrations - 1) as nat);
    }
}

/// A nonce does not come back within the next u64::MAX - 1 registrations.
pub proof fn law_nonces_do_not_repeat(nonce: u64, registrations: nat)
    requires
        0 < nonce,
        0 < registrations < u64::MAX,
    ensures
        nonce_after(nonce, registrations) != nonce,
        nonce_after(nonce, registrations) > 0,
{
    lemma_nonce_after(nonce, registrations);
}

/// A delayed outcome cannot satisfy a registration that reuses its request id:
/// whatever nonce other than the current one it carries, zero included, it is
/// an orphan, and the registration keeps waiting.
pub proof fn law_delayed_outcome_is_an_orphan(
    registry: RegistryView,
    request_id: Seq<char>,
    closed: Set<u64>,
    nonce: u64,
)
    requires
        registry.register(request_id, closed).1 is Ok,
        registry.register(request_id, closed).1 != Ok::<u64, RegistrationError>(nonce),
    ensures
        ({
            let registered = registry.register(request_id, closed).0;
            &&& registered.deliver(registry.router_id, request_id, nonce) == (
                registered,
                DeliveryView::Orphan,
            )
            &&& registry.register(request_id, closed).1->Ok_0 > 0
        }),
{
}

/// The outcome with the registration's nonce is delivered, once.
pub proof fn law_outcome_is_delivered_once(
    registry: RegistryView,
    request_id: Seq<char>,
    closed: Set<u64>,
)
    requires
        registry.register(request_id, closed).1 is Ok,
    ensures
        ({
            let (registered, nonce) = registry.register(request_id, closed);
            let (delivered, first) = registered.deliver(
                registry.router_id,
                request_id,
                nonce->Ok_0,
            );
            &&& first == DeliveryView::Matched(nonce->Ok_0)
            &&& delivered.deliver(registry.router_id, request_id, nonce->Ok_0) == (
                delivered,
                DeliveryView::Orphan,
            )
        }),
{
}

/// A refused registration replaces nothing: every live request still waits.
pub proof fn law_refused_registration_keeps_live_requests(
    registry: RegistryView,
    request_id: Seq<char>,
    closed: Set<u64>,
    live: Seq<char>,
)
    requires
        registry.pending.contains_key(live),
        !closed.contains(registry.pending[live]),
        registry.register(request_id, closed).1 is Err,
    ensures
        registry.register(request_id, closed).0.waits(live, registry.pending[live]),
{
}

/// An accepted registration keeps every other live request waiting.
pub proof fn law_registration_keeps_other_live_requests(
    registry: RegistryView,
    request_id: Seq<char>,
    closed: Set<u64>,
    live: Seq<char>,
)
    requires
        registry.pending.contains_key(live),
        !closed.contains(registry.pending[live]),
        live != request_id,
    ensures
        registry.register(request_id, closed).0.waits(live, registry.pending[live]),
{
}

/// The number of waiting requests never exceeds the capacity.
pub proof fn law_registry_stays_within_capacity(
    registry: RegistryView,
    request_id: Seq<char>,
    closed: Set<u64>,
)
    requires
        registry.inv(),
        registry.pending.dom().len() <= registry.capacity,
    ensures
        registry.register(request_id, closed).0.pending.dom().len() <= registry.capacity,
{
    let live = registry.prune(closed);
    vstd::set_lib::lemma_len_subset(live.pending.dom(), registry.pending.dom());
}

} // verus!
