//! Attribution of prompt tokens to the stage at which reuse was lost.

use vstd::prelude::*;

use crate::funnel_laws::{adds_prompt, has_room, law_prefix_lengths_are_attributed};

verus! {

#[derive(Clone, Copy, Debug, PartialEq, Eq, Structural)]
pub enum TokenSource {
    Recomputed,
    Gpu,
    Cpu,
    Unknown,
}

#[derive(Clone, Copy, Debug, PartialEq, Eq, Structural)]
pub struct TokenObservation {
    pub complete: bool,
    pub reusable: bool,
    pub physically_resident: bool,
    pub router_visible: bool,
    pub selected_resident_at_routing: bool,
    pub selected_resident_at_lookup: bool,
    pub source: TokenSource,
}

#[derive(Clone, Copy, Debug, PartialEq, Eq, Structural)]
pub enum TokenAttribution {
    UnavoidableRecomputation,
    RetentionLoss,
    RouterVisibilityLoss,
    RoutingChoiceLoss,
    EvictionRaceLoss,
    RetrievalFailure,
    GpuHit,
    CpuHit,
    Incomplete,
}

impl TokenObservation {
    /// The measured outcome, or else the first failed stage of the causal
    /// chain.
    pub open spec fn attribution(self) -> TokenAttribution {
        if !self.complete {
            TokenAttribution::Incomplete
        } else {
            match self.source {
                TokenSource::Unknown => TokenAttribution::Incomplete,
                TokenSource::Gpu => TokenAttribution::GpuHit,
                TokenSource::Cpu => TokenAttribution::CpuHit,
                TokenSource::Recomputed => if !self.reusable {
                    TokenAttribution::UnavoidableRecomputation
                } else if !self.physically_resident {
                    TokenAttribution::RetentionLoss
                } else if !self.router_visible {
                    TokenAttribution::RouterVisibilityLoss
                } else if !self.selected_resident_at_routing {
                    TokenAttribution::RoutingChoiceLoss
                } else if !self.selected_resident_at_lookup {
                    TokenAttribution::EvictionRaceLoss
                } else {
                    TokenAttribution::RetrievalFailure
                },
            }
        }
    }

    /// Prefer the measured outcome, then assign recomputation to the first
    /// failed stage in the causal chain.
    pub fn classify(self) -> (attribution: TokenAttribution)
        ensures
            attribution == self.attribution(),
    {
        if !self.complete {
            return TokenAttribution::Incomplete;
        }
        match self.source {
            TokenSource::Unknown => {
                return TokenAttribution::Incomplete;
            },
            TokenSource::Gpu => {
                return TokenAttribution::GpuHit;
            },
            TokenSource::Cpu => {
                return TokenAttribution::CpuHit;
            },
            TokenSource::Recomputed => {},
        }
        if !self.reusable {
            return TokenAttribution::UnavoidableRecomputation;
        }
        if !self.physically_resident {
            return TokenAttribution::RetentionLoss;
        }
        if !self.router_visible {
            return TokenAttribution::RouterVisibilityLoss;
        }
        if !self.selected_resident_at_routing {
            return TokenAttribution::RoutingChoiceLoss;
        }
        if !self.selected_resident_at_lookup {
            return TokenAttribution::EvictionRaceLoss;
        }
        TokenAttribution::RetrievalFailure
    }
}

/// Counters of the funnel. All of them saturate.
#[derive(Clone, Copy, Debug, PartialEq, Eq, Structural)]
pub struct CacheLossFunnel {
    pub f0_backend_prompt_tokens: u64,
    pub f1_reusable_tokens: u64,
    pub f2_physically_resident_tokens: u64,
    pub f3_router_visible_tokens: u64,
    pub f4_selected_resident_tokens: u64,
    pub f5_lookup_resident_tokens: u64,
    pub f6_reused_tokens: u64,
    pub unavoidable_recomputation: u64,
    pub retention_loss: u64,
    pub router_visibility_loss: u64,
    pub routing_choice_loss: u64,
    pub eviction_race_loss: u64,
    pub retrieval_failure: u64,
    pub gpu_hits: u64,
    pub cpu_hits: u64,
    pub incomplete_tokens: u64,
    pub router_false_positive_tokens: u64,
    pub router_false_negative_tokens: u64,
}

/// Prefix lengths measured for one prompt. Tokens below a length passed that
/// stage; the first `gpu_hit` tokens were read from GPU, the next `cpu_hit`
/// from CPU, and the rest was recomputed.
pub struct PrefixCounts {
    pub reusable: u64,
    pub physical: u64,
    pub router_visible: u64,
    pub selected_resident: u64,
    pub lookup_resident: u64,
    pub gpu_hit: u64,
    pub cpu_hit: u64,
}

impl PrefixCounts {
    /// What is observed of the token at position `at`.
    pub open spec fn token(self, at: int) -> TokenObservation {
        TokenObservation {
            complete: true,
            reusable: at < self.reusable,
            physically_resident: at < self.physical,
            router_visible: at < self.router_visible,
            selected_resident_at_routing: at < self.selected_resident,
            selected_resident_at_lookup: at < self.lookup_resident,
            source: if at < self.gpu_hit {
                TokenSource::Gpu
            } else if at < self.gpu_hit + self.cpu_hit {
                TokenSource::Cpu
            } else {
                TokenSource::Recomputed
            },
        }
    }
}

/// Saturating sum.
pub open spec fn plus(counter: u64, count: u64) -> u64 {
    if counter + count > u64::MAX {
        u64::MAX
    } else {
        (counter + count) as u64
    }
}

/// The counter with `count` added where the condition holds.
pub open spec fn plus_if(counter: u64, count: u64, counted: bool) -> u64 {
    if counted {
        plus(counter, count)
    } else {
        counter
    }
}

/// How far along the causal chain an attribution lies: the number of gates
/// that the token passed.
pub open spec fn gates_passed(attribution: TokenAttribution) -> int {
    match attribution {
        TokenAttribution::Incomplete => 0,
        TokenAttribution::UnavoidableRecomputation => 0,
        TokenAttribution::RetentionLoss => 1,
        TokenAttribution::RouterVisibilityLoss => 2,
        TokenAttribution::RoutingChoiceLoss => 3,
        TokenAttribution::EvictionRaceLoss => 4,
        TokenAttribution::RetrievalFailure => 5,
        TokenAttribution::GpuHit => 6,
        TokenAttribution::CpuHit => 6,
    }
}

impl CacheLossFunnel {
    pub open spec fn zero() -> CacheLossFunnel {
        CacheLossFunnel {
            f0_backend_prompt_tokens: 0,
            f1_reusable_tokens: 0,
            f2_physically_resident_tokens: 0,
            f3_router_visible_tokens: 0,
            f4_selected_resident_tokens: 0,
            f5_lookup_resident_tokens: 0,
            f6_reused_tokens: 0,
            unavoidable_recomputation: 0,
            retention_loss: 0,
            router_visibility_loss: 0,
            routing_choice_loss: 0,
            eviction_race_loss: 0,
            retrieval_failure: 0,
            gpu_hits: 0,
            cpu_hits: 0,
            incomplete_tokens: 0,
            router_false_positive_tokens: 0,
            router_false_negative_tokens: 0,
        }
    }

    /// The funnel after `count` tokens with the same observation.
    pub open spec fn observed(self, observation: TokenObservation, count: u64) -> CacheLossFunnel {
        let a = observation.attribution();
        let gates = gates_passed(a);
        let visible = observation.router_visible;
        let resident = observation.physically_resident;
        CacheLossFunnel {
            f0_backend_prompt_tokens: plus(self.f0_backend_prompt_tokens, count),
            f1_reusable_tokens: plus_if(self.f1_reusable_tokens, count, gates >= 1),
            f2_physically_resident_tokens: plus_if(
                self.f2_physically_resident_tokens,
                count,
                gates >= 2,
            ),
            f3_router_visible_tokens: plus_if(self.f3_router_visible_tokens, count, gates >= 3),
            f4_selected_resident_tokens: plus_if(
                self.f4_selected_resident_tokens,
                count,
                gates >= 4,
            ),
            f5_lookup_resident_tokens: plus_if(self.f5_lookup_resident_tokens, count, gates >= 5),
            f6_reused_tokens: plus_if(self.f6_reused_tokens, count, gates >= 6),
            unavoidable_recomputation: plus_if(
                self.unavoidable_recomputation,
                count,
                a == TokenAttribution::UnavoidableRecomputation,
            ),
            retention_loss: plus_if(
                self.retention_loss,
                count,
                a == TokenAttribution::RetentionLoss,
            ),
            router_visibility_loss: plus_if(
                self.router_visibility_loss,
                count,
                a == TokenAttribution::RouterVisibilityLoss,
            ),
            routing_choice_loss: plus_if(
                self.routing_choice_loss,
                count,
                a == TokenAttribution::RoutingChoiceLoss,
            ),
            eviction_race_loss: plus_if(
                self.eviction_race_loss,
                count,
                a == TokenAttribution::EvictionRaceLoss,
            ),
            retrieval_failure: plus_if(
                self.retrieval_failure,
                count,
                a == TokenAttribution::RetrievalFailure,
            ),
            gpu_hits: plus_if(self.gpu_hits, count, a == TokenAttribution::GpuHit),
            cpu_hits: plus_if(self.cpu_hits, count, a == TokenAttribution::CpuHit),
            incomplete_tokens: plus_if(
                self.incomplete_tokens,
                count,
                a == TokenAttribution::Incomplete,
            ),
            router_false_positive_tokens: plus_if(
                self.router_false_positive_tokens,
                count,
                observation.complete && visible && !resident,
            ),
            router_false_negative_tokens: plus_if(
                self.router_false_negative_tokens,
                count,
                observation.complete && resident && !visible,
            ),
        }
    }

    /// The funnel after the tokens `[from, to)` of a prompt, one by one.
    pub open spec fn observed_each(self, counts: PrefixCounts, from: int, to: int)
        -> CacheLossFunnel
        decreases to - from,
    {
        if from >= to {
            self
        } else {
            self.observed_each(counts, from, to - 1).observed(counts.token(to - 1), 1)
        }
    }

    /// Attributions of all complete tokens, added up.
    pub open spec fn attributed(self) -> int {
        self.unavoidable_recomputation + self.retention_loss + self.router_visibility_loss
            + self.routing_choice_loss + self.eviction_race_loss + self.retrieval_failure
            + self.gpu_hits + self.cpu_hits
    }

    /// Every token is either incomplete or attributed once, and each gate
    /// counts exactly the tokens that were lost at a later stage or reused.
    pub open spec fn conserves(self) -> bool {
        &&& self.f0_backend_prompt_tokens == self.incomplete_tokens + self.attributed()
        &&& self.f6_reused_tokens == self.gpu_hits + self.cpu_hits
        &&& self.f5_lookup_resident_tokens == self.f6_reused_tokens + self.retrieval_failure
        &&& self.f4_selected_resident_tokens == self.f5_lookup_resident_tokens
            + self.eviction_race_loss
        &&& self.f3_router_visible_tokens == self.f4_selected_resident_tokens
            + self.routing_choice_loss
        &&& self.f2_physically_resident_tokens == self.f3_router_visible_tokens
            + self.router_visibility_loss
        &&& self.f1_reusable_tokens == self.f2_physically_resident_tokens + self.retention_loss
    }

    pub fn observe(&mut self, observation: TokenObservation) -> (attribution: TokenAttribution)
        ensures
            attribution == observation.attribution(),
            *final(self) == old(self).observed(observation, 1),
    {
        self.observe_n(observation, 1)
    }

    /// Attributes every token of a prompt from the measured prefix lengths.
    #[allow(clippy::too_many_arguments)]
    pub fn observe_prefix_counts(
        &mut self,
        prompt_tokens: u64,
        reusable_prefix_tokens: u64,
        physical_prefix_tokens: u64,
        router_visible_prefix_tokens: u64,
        selected_resident_prefix_tokens: u64,
        lookup_resident_prefix_tokens: u64,
        gpu_hit_tokens: u64,
        cpu_hit_tokens: u64,
    )
        ensures
            *final(self) == old(self).observed_each(
                PrefixCounts {
                    reusable: reusable_prefix_tokens,
                    physical: physical_prefix_tokens,
                    router_visible: router_visible_prefix_tokens,
                    selected_resident: selected_resident_prefix_tokens,
                    lookup_resident: lookup_resident_prefix_tokens,
                    gpu_hit: gpu_hit_tokens,
                    cpu_hit: cpu_hit_tokens,
                },
                0,
                prompt_tokens as int,
            ),
            has_room(*old(self), prompt_tokens as int) ==> adds_prompt(
                *old(self),
                *final(self),
                prompt_tokens as int,
                reusable_prefix_tokens as int,
                physical_prefix_tokens as int,
                router_visible_prefix_tokens as int,
                selected_resident_prefix_tokens as int,
                lookup_resident_prefix_tokens as int,
                gpu_hit_tokens as int,
                cpu_hit_tokens as int,
            ),
    {
        let counts = PrefixCounts {
            reusable: reusable_prefix_tokens,
            physical: physical_prefix_tokens,
            router_visible: router_visible_prefix_tokens,
            selected_resident: selected_resident_prefix_tokens,
            lookup_resident: lookup_resident_prefix_tokens,
            gpu_hit: gpu_hit_tokens,
            cpu_hit: cpu_hit_tokens,
        };
        let hit_tokens: u64 = gpu_hit_tokens.saturating_add(cpu_hit_tokens);
        let mut start: u64 = 0;
        while start < prompt_tokens
            invariant
                start <= prompt_tokens,
                hit_tokens == plus(counts.gpu_hit, counts.cpu_hit),
                *self == old(self).observed_each(counts, 0, start as int),
            decreases prompt_tokens - start,
        {
            // The next boundary at which the observation may change.
            let mut end: u64 = prompt_tokens;
            end = nearer(start, end, counts.reusable);
            end = nearer(start, end, counts.physical);
            end = nearer(start, end, counts.router_visible);
            end = nearer(start, end, counts.selected_resident);
            end = nearer(start, end, counts.lookup_resident);
            end = nearer(start, end, counts.gpu_hit);
            end = nearer(start, end, hit_tokens);
            let source = if start < counts.gpu_hit {
                TokenSource::Gpu
            } else if start < hit_tokens {
                TokenSource::Cpu
            } else {
                TokenSource::Recomputed
            };
            let observation = TokenObservation {
                complete: true,
                reusable: start < counts.reusable,
                physically_resident: start < counts.physical,
                router_visible: start < counts.router_visible,
                selected_resident_at_routing: start < counts.selected_resident,
                selected_resident_at_lookup: start < counts.lookup_resident,
                source,
            };
            let ghost before = *self;
            self.observe_n(observation, end - start);
            proof {
                assert forall|at: int| start <= at < end implies #[trigger] counts.token(at)
                    == observation by {}
                lemma_same_tokens(before, counts, observation, start as int, end as int);
                lemma_split(*old(self), counts, 0, start as int, end as int);
            }
            start = end;
        }
        proof {
            if has_room(*old(self), prompt_tokens as int) {
                law_prefix_lengths_are_attributed(*old(self), counts, prompt_tokens as int);
            }
        }
    }

    pub fn observe_incomplete(&mut self, prompt_tokens: u64)
        ensures
            *final(self) == (CacheLossFunnel {
                f0_backend_prompt_tokens: plus(old(self).f0_backend_prompt_tokens, prompt_tokens),
                incomplete_tokens: plus(old(self).incomplete_tokens, prompt_tokens),
                ..*old(self)
            }),
    {
        let observation = TokenObservation {
            complete: false,
            reusable: false,
            physically_resident: false,
            router_visible: false,
            selected_resident_at_routing: false,
            selected_resident_at_lookup: false,
            source: TokenSource::Unknown,
        };
        self.observe_n(observation, prompt_tokens);
    }

    /// Attributes `count` tokens with one common observation. While the prompt
    /// counter does not saturate, the tokens stay conserved.
    pub fn observe_n(&mut self, observation: TokenObservation, count: u64) -> (attribution:
        TokenAttribution)
        ensures
            attribution == observation.attribution(),
            *final(self) == old(self).observed(observation, count),
            old(self).conserves() && old(self).f0_backend_prompt_tokens + count <= u64::MAX ==> {
                &&& final(self).conserves()
                &&& final(self).f0_backend_prompt_tokens == old(self).f0_backend_prompt_tokens
                    + count
            },
    {
        self.f0_backend_prompt_tokens = self.f0_backend_prompt_tokens.saturating_add(count);
        if observation.complete {
            if observation.router_visible && !observation.physically_resident {
                self.router_false_positive_tokens = self.router_false_positive_tokens.saturating_add(
                    count,
                );
            }
            if observation.physically_resident && !observation.router_visible {
                self.router_false_negative_tokens = self.router_false_negative_tokens.saturating_add(
                    count,
                );
            }
        }
        let attribution = observation.classify();
        match attribution {
            TokenAttribution::Incomplete => {
                self.incomplete_tokens = self.incomplete_tokens.saturating_add(count);
            },
            TokenAttribution::UnavoidableRecomputation => {
                self.unavoidable_recomputation = self.unavoidable_recomputation.saturating_add(
                    count,
                );
            },
            TokenAttribution::RetentionLoss => {
                self.retention_loss = self.retention_loss.saturating_add(count);
                self.f1_reusable_tokens = self.f1_reusable_tokens.saturating_add(count);
            },
            TokenAttribution::RouterVisibilityLoss => {
                self.router_visibility_loss = self.router_visibility_loss.saturating_add(count);
                self.f1_reusable_tokens = self.f1_reusable_tokens.saturating_add(count);
                self.f2_physically_resident_tokens =
                self.f2_physically_resident_tokens.saturating_add(count);
            },
            TokenAttribution::RoutingChoiceLoss => {
                self.routing_choice_loss = self.routing_choice_loss.saturating_add(count);
                self.f1_reusable_tokens = self.f1_reusable_tokens.saturating_add(count);
                self.f2_physically_resident_tokens =
                self.f2_physically_resident_tokens.saturating_add(count);
                self.f3_router_visible_tokens = self.f3_router_visible_tokens.saturating_add(count);
            },
            TokenAttribution::EvictionRaceLoss => {
                self.eviction_race_loss = self.eviction_race_loss.saturating_add(count);
                self.increment_through_f4(count);
            },
            TokenAttribution::RetrievalFailure => {
                self.retrieval_failure = self.retrieval_failure.saturating_add(count);
                self.increment_through_f5(count);
            },
            TokenAttribution::GpuHit => {
                self.gpu_hits = self.gpu_hits.saturating_add(count);
                self.increment_through_f6(count);
            },
            TokenAttribution::CpuHit => {
                self.cpu_hits = self.cpu_hits.saturating_add(count);
                self.increment_through_f6(count);
            },
        }
        attribution
    }

    pub fn complete_tokens(&self) -> (tokens: u64)
        requires
            self.incomplete_tokens <= self.f0_backend_prompt_tokens,
        ensures
            tokens == self.f0_backend_prompt_tokens - self.incomplete_tokens,
    {
        self.f0_backend_prompt_tokens - self.incomplete_tokens
    }

    pub fn attributed_complete_tokens(&self) -> (tokens: u64)
        requires
            self.attributed() <= u64::MAX,
        ensures
            tokens == self.attributed(),
    {
        self.unavoidable_recomputation + self.retention_loss + self.router_visibility_loss
            + self.routing_choice_loss + self.eviction_race_loss + self.retrieval_failure
            + self.gpu_hits + self.cpu_hits
    }

    /// Complete tokens that no attribution accounts for; zero unless a counter
    /// has saturated.
    pub fn conservation_error(&self) -> (error: i128)
        requires
            self.incomplete_tokens <= self.f0_backend_prompt_tokens,
            self.attributed() <= u64::MAX,
        ensures
            error == self.f0_backend_prompt_tokens - self.incomplete_tokens - self.attributed(),
    {
        self.complete_tokens() as i128 - self.attributed_complete_tokens() as i128
    }

    fn increment_through_f4(&mut self, count: u64)
        ensures
            *final(self) == (CacheLossFunnel {
                f1_reusable_tokens: plus(old(self).f1_reusable_tokens, count),
                f2_physically_resident_tokens: plus(
                    old(self).f2_physically_resident_tokens,
                    count,
                ),
                f3_router_visible_tokens: plus(old(self).f3_router_visible_tokens, count),
                f4_selected_resident_tokens: plus(old(self).f4_selected_resident_tokens, count),
                ..*old(self)
            }),
    {
        self.f1_reusable_tokens = self.f1_reusable_tokens.saturating_add(count);
        self.f2_physically_resident_tokens =
        self.f2_physically_resident_tokens.saturating_add(count);
        self.f3_router_visible_tokens = self.f3_router_visible_tokens.saturating_add(count);
        self.f4_selected_resident_tokens = self.f4_selected_resident_tokens.saturating_add(count);
    }

    fn increment_through_f5(&mut self, count: u64)
        ensures
            *final(self) == (CacheLossFunnel {
                f1_reusable_tokens: plus(old(self).f1_reusable_tokens, count),
                f2_physically_resident_tokens: plus(
                    old(self).f2_physically_resident_tokens,
                    count,
                ),
                f3_router_visible_tokens: plus(old(self).f3_router_visible_tokens, count),
                f4_selected_resident_tokens: plus(old(self).f4_selected_resident_tokens, count),
                f5_lookup_resident_tokens: plus(old(self).f5_lookup_resident_tokens, count),
                ..*old(self)
            }),
    {
        self.increment_through_f4(count);
        self.f5_lookup_resident_tokens = self.f5_lookup_resident_tokens.saturating_add(count);
    }

    fn increment_through_f6(&mut self, count: u64)
        ensures
            *final(self) == (CacheLossFunnel {
                f1_reusable_tokens: plus(old(self).f1_reusable_tokens, count),
                f2_physically_resident_tokens: plus(
                    old(self).f2_physically_resident_tokens,
                    count,
                ),
                f3_router_visible_tokens: plus(old(self).f3_router_visible_tokens, count),
                f4_selected_resident_tokens: plus(old(self).f4_selected_resident_tokens, count),
                f5_lookup_resident_tokens: plus(old(self).f5_lookup_resident_tokens, count),
                f6_reused_tokens: plus(old(self).f6_reused_tokens, count),
                ..*old(self)
            }),
    {
        self.increment_through_f5(count);
        self.f6_reused_tokens = self.f6_reused_tokens.saturating_add(count);
    }
}

impl Default for CacheLossFunnel {
    fn default() -> (funnel: Self)
        ensures
            funnel == CacheLossFunnel::zero(),
    {
        CacheLossFunnel {
            f0_backend_prompt_tokens: 0,
            f1_reusable_tokens: 0,
            f2_physically_resident_tokens: 0,
            f3_router_visible_tokens: 0,
            f4_selected_resident_tokens: 0,
            f5_lookup_resident_tokens: 0,
            f6_reused_tokens: 0,
            unavoidable_recomputation: 0,
            retention_loss: 0,
            router_visibility_loss: 0,
            routing_choice_loss: 0,
            eviction_race_loss: 0,
            retrieval_failure: 0,
            gpu_hits: 0,
            cpu_hits: 0,
            incomplete_tokens: 0,
            router_false_positive_tokens: 0,
            router_false_negative_tokens: 0,
        }
    }
}

/// `boundary` if it lies between `start` and `end`, else `end`.
fn nearer(start: u64, end: u64, boundary: u64) -> (r: u64)
    requires
        start < end,
    ensures
        start < r <= end,
        r <= boundary || boundary <= start,
        r == end || r == boundary,
{
    if start < boundary && boundary < end {
        boundary
    } else {
        end
    }
}

/// Observing tokens in two steps is observing them at once.
proof fn lemma_observed_twice(
    funnel: CacheLossFunnel,
    observation: TokenObservation,
    first: u64,
    second: u64,
)
    requires
        first + second <= u64::MAX,
    ensures
        funnel.observed(observation, first).observed(observation, second) == funnel.observed(
            observation,
            (first + second) as u64,
        ),
{
}

/// Tokens with one common observation count as many tokens observed at once.
proof fn lemma_same_tokens(
    funnel: CacheLossFunnel,
    counts: PrefixCounts,
    observation: TokenObservation,
    from: int,
    to: int,
)
    requires
        0 <= from < to <= u64::MAX,
        forall|at: int| from <= at < to ==> #[trigger] counts.token(at) == observation,
    ensures
        funnel.observed_each(counts, from, to) == funnel.observed(observation, (to - from) as u64),
    decreases to - from,
{
    assert(counts.token(to - 1) == observation);
    if from < to - 1 {
        lemma_same_tokens(funnel, counts, observation, from, to - 1);
        lemma_observed_twice(funnel, observation, (to - 1 - from) as u64, 1);
    } else {
        assert(funnel.observed_each(counts, from, from) == funnel);
    }
}

proof fn lemma_split(funnel: CacheLossFunnel, counts: PrefixCounts, from: int, mid: int, to: int)
    requires
        from <= mid <= to,
    ensures
        funnel.observed_each(counts, from, to) == funnel.observed_each(
            counts,
            from,
            mid,
        ).observed_each(counts, mid, to),
    decreases to - mid,
{
    if mid < to {
        lemma_split(funnel, counts, from, mid, to - 1);
    }
}

/// An empty funnel conserves tokens.
pub proof fn law_empty_funnel_conserves()
    ensures
        CacheLossFunnel::zero().conserves(),
{
}

/// Every observation keeps the tokens conserved: each complete token has
/// exactly one attribution and the gates stay consistent, as long as the
/// prompt counter itself does not saturate.
pub proof fn law_observation_conserves(
    funnel: CacheLossFunnel,
    observation: TokenObservation,
    count: u64,
)
    requires
        funnel.conserves(),
        funnel.f0_backend_prompt_tokens + count <= u64::MAX,
    ensures
        funnel.observed(observation, count).conserves(),
        funnel.observed(observation, count).f0_backend_prompt_tokens
            == funnel.f0_backend_prompt_tokens + count,
{
}

/// Incomplete tokens are among the prompt tokens, however many there are.
pub proof fn law_incomplete_tokens_are_prompt_tokens(
    funnel: CacheLossFunnel,
    observation: TokenObservation,
    count: u64,
)
    requires
        funnel.incomplete_tokens <= funnel.f0_backend_prompt_tokens,
    ensures
        funnel.observed(observation, count).incomplete_tokens <= funnel.observed(
            observation,
            count,
        ).f0_backend_prompt_tokens,
{
}

/// Observing a whole prompt keeps the tokens conserved.
pub proof fn law_prefix_counts_conserve(
    funnel: CacheLossFunnel,
    counts: PrefixCounts,
    prompt_tokens: u64,
)
    requires
        funnel.conserves(),
        funnel.f0_backend_prompt_tokens + prompt_tokens <= u64::MAX,
    ensures
        funnel.observed_each(counts, 0, prompt_tokens as int).conserves(),
        funnel.observed_each(counts, 0, prompt_tokens as int).f0_backend_prompt_tokens
            == funnel.f0_backend_prompt_tokens + prompt_tokens,
    decreases prompt_tokens,
{
    if prompt_tokens > 0 {
        law_prefix_counts_conserve(funnel, counts, (prompt_tokens - 1) as u64);
        law_observation_conserves(
            funnel.observed_each(counts, 0, prompt_tokens - 1),
            counts.token(prompt_tokens - 1),
            1,
        );
    }
}

/// In a conserving funnel the conservation error is zero. What each gate holds
/// back is the loss that is named after it, so each lets no more tokens
/// through than the one before it.
pub proof fn law_conserving_funnel_narrows(funnel: CacheLossFunnel)
    requires
        funnel.conserves(),
    ensures
        funnel.incomplete_tokens <= funnel.f0_backend_prompt_tokens,
        funnel.attributed() <= u64::MAX,
        funnel.f0_backend_prompt_tokens - funnel.incomplete_tokens - funnel.attributed() == 0,
        funnel.f0_backend_prompt_tokens - funnel.incomplete_tokens - funnel.f1_reusable_tokens
            == funnel.unavoidable_recomputation,
        funnel.f1_reusable_tokens - funnel.f2_physically_resident_tokens == funnel.retention_loss,
        funnel.f2_physically_resident_tokens - funnel.f3_router_visible_tokens
            == funnel.router_visibility_loss,
        funnel.f3_router_visible_tokens - funnel.f4_selected_resident_tokens
            == funnel.routing_choice_loss,
        funnel.f4_selected_resident_tokens - funnel.f5_lookup_resident_tokens
            == funnel.eviction_race_loss,
        funnel.f5_lookup_resident_tokens - funnel.f6_reused_tokens == funnel.retrieval_failure,
        funnel.f6_reused_tokens == funnel.gpu_hits + funnel.cpu_hits,
        funnel.f0_backend_prompt_tokens >= funnel.f1_reusable_tokens,
        funnel.f1_reusable_tokens >= funnel.f2_physically_resident_tokens,
        funnel.f2_physically_resident_tokens >= funnel.f3_router_visible_tokens,
        funnel.f3_router_visible_tokens >= funnel.f4_selected_resident_tokens,
        funnel.f4_selected_resident_tokens >= funnel.f5_lookup_resident_tokens,
        funnel.f5_lookup_resident_tokens >= funnel.f6_reused_tokens,
{
}

/// A measured hit is attributed as a hit whatever the earlier stages claim,
/// and an unknown or incomplete token is attributed to no stage.
pub proof fn law_measured_outcome_wins(observation: TokenObservation)
    ensures
        observation.complete && observation.source == TokenSource::Gpu
            ==> observation.attribution() == TokenAttribution::GpuHit,
        observation.complete && observation.source == TokenSource::Cpu
            ==> observation.attribution() == TokenAttribution::CpuHit,
        observation.attribution() == TokenAttribution::Incomplete <==> !observation.complete
            || observation.source == TokenSource::Unknown,
{
}

} // verus!
