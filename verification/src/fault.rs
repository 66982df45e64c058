//! Bounded cache-loss fault injection for an owned shadow arm.
//!
//! An injector stays inert unless every identity and acknowledgement matches
//! and the plan is a valid plan of one stage. Sampling only looks at stores
//! and requests that exist anyway.

use vstd::bytes::{spec_u64_to_le_bytes, u64_to_le_bytes};
use vstd::prelude::*;
use vstd::string::StrSliceExecFns;
use vstd::utf8::encode_utf8;

use crate::event::{cache_tier, medium_tier, RawKvEvent};
use crate::evidence::{CacheOwner, CacheTier};
use crate::protocols::{xxh3_64, xxh3_digest};
use crate::settings::reads;
use crate::text::same_text;

verus! {

pub const ENABLE_VALUE: &'static str = "shadow-only-v1";

pub const ACK_VALUE: &'static str = "I_ACKNOWLEDGE_SHADOW_ONLY_CACHE_LOSS_V1";

pub const TRAFFIC_CLASS_VALUE: &'static str = "mirrored-shadow";

pub const SHADOW_ARM_VALUE: &'static str = "flash-a";

pub const MODEL_VALUE: &'static str = "deepseek-ai/deepseek-v4-flash-0731";

pub const SAMPLE_DENOMINATOR: u16 = 10_000;

pub const MAX_INJECTIONS: u32 = 32;

pub const MAX_RUN_ID_BYTES: usize = 64;

#[derive(Clone, Copy, Debug, PartialEq, Eq, Structural)]
pub enum FaultStage {
    PhysicalRetention,
    RouterVisibility,
    RoutingChoice,
}

impl FaultStage {
    pub const ALL: [FaultStage; 3] = [
        FaultStage::PhysicalRetention,
        FaultStage::RouterVisibility,
        FaultStage::RoutingChoice,
    ];

    pub open spec fn name(self) -> Seq<char> {
        match self {
            Self::PhysicalRetention => "physical_retention"@,
            Self::RouterVisibility => "router_visibility"@,
            Self::RoutingChoice => "routing_choice"@,
        }
    }

    pub fn label(self) -> (label: &'static str)
        ensures
            label@ == self.name(),
    {
        match self {
            Self::PhysicalRetention => "physical_retention",
            Self::RouterVisibility => "router_visibility",
            Self::RoutingChoice => "routing_choice",
        }
    }

    pub open spec fn mark(self) -> u8 {
        match self {
            Self::PhysicalRetention => 1,
            Self::RouterVisibility => 2,
            Self::RoutingChoice => 3,
        }
    }

    /// Sets the samples of the stages apart.
    pub fn discriminator(self) -> (mark: u8)
        ensures
            mark == self.mark(),
    {
        match self {
            Self::PhysicalRetention => 1,
            Self::RouterVisibility => 2,
            Self::RoutingChoice => 3,
        }
    }
}

#[derive(Clone, Copy, Debug, PartialEq, Eq, Structural)]
pub struct RouteTarget {
    pub worker_id: u64,
    pub dp_rank: u32,
}

#[derive(Clone, Debug, PartialEq, Eq)]
pub struct FaultPlan {
    pub run_id: String,
    pub seed: u64,
    pub sample_permyriad: u16,
    pub max_injections: u32,
    pub stage: FaultStage,
    pub route_target: Option<RouteTarget>,
}

/// What the surroundings say of themselves, and what the operator expects.
#[derive(Clone, Debug)]
pub struct GateValues<'a> {
    pub enable: Option<&'a str>,
    pub acknowledgment: Option<&'a str>,
    pub traffic_class: Option<&'a str>,
    pub shadow_arm: Option<&'a str>,
    pub expected_shadow_arm: Option<&'a str>,
    pub namespace: Option<&'a str>,
    pub expected_namespace: Option<&'a str>,
    pub deployment: Option<&'a str>,
    pub expected_deployment: Option<&'a str>,
    pub model: Option<&'a str>,
    pub expected_model: Option<&'a str>,
    /// The plan, if one was given and could be read.
    pub plan: Option<FaultPlan>,
}

// ---- model ----

pub open spec fn is_alphanumeric(c: char) -> bool {
    ('0' <= c && c <= '9') || ('a' <= c && c <= 'z') || ('A' <= c && c <= 'Z')
}

fn alphanumeric(c: char) -> (yes: bool)
    ensures
        yes == is_alphanumeric(c),
{
    ('0' <= c && c <= '9') || ('a' <= c && c <= 'z') || ('A' <= c && c <= 'Z')
}

/// "shadow", in any case, stands at the position as a word of its own.
pub open spec fn shadow_at(name: Seq<char>, at: int) -> bool {
    &&& 0 <= at
    &&& at + 6 <= name.len()
    &&& reads(name.subrange(at, at + 6), "shadow"@)
    &&& at == 0 || !is_alphanumeric(name[at - 1])
    &&& at + 6 == name.len() || !is_alphanumeric(name[at + 6])
}

/// One of the name's words is "shadow", in any case.
pub open spec fn has_shadow_word(name: Seq<char>) -> bool {
    exists|at: int| shadow_at(name, at)
}

pub open spec fn text_of(text: Option<&str>) -> Option<Seq<char>> {
    match text {
        Some(text) => Some(text@),
        None => None,
    }
}

impl<'a> GateValues<'a> {
    /// Every identity and acknowledgement matches, exactly.
    pub open spec fn is_open(self) -> bool {
        &&& text_of(self.enable) == Some(ENABLE_VALUE@)
        &&& text_of(self.acknowledgment) == Some(ACK_VALUE@)
        &&& text_of(self.traffic_class) == Some(TRAFFIC_CLASS_VALUE@)
        &&& text_of(self.shadow_arm) == Some(SHADOW_ARM_VALUE@)
        &&& text_of(self.expected_shadow_arm) == text_of(self.shadow_arm)
        &&& self.namespace is Some
        &&& text_of(self.expected_namespace) == text_of(self.namespace)
        &&& self.deployment is Some
        &&& text_of(self.expected_deployment) == text_of(self.deployment)
        &&& has_shadow_word(self.deployment->0@)
        &&& text_of(self.model) == Some(MODEL_VALUE@)
        &&& text_of(self.expected_model) == text_of(self.model)
    }
}

pub open spec fn is_run_id(run_id: Seq<char>) -> bool {
    &&& 1 <= run_id.len() <= MAX_RUN_ID_BYTES
    &&& forall|i: int|
        0 <= i < run_id.len() ==> is_alphanumeric(#[trigger] run_id[i]) || run_id[i] == '-'
            || run_id[i] == '_'
}

impl FaultPlan {
    pub open spec fn valid(self) -> bool {
        &&& is_run_id(self.run_id@)
        &&& 1 <= self.sample_permyriad <= SAMPLE_DENOMINATOR
        &&& 1 <= self.max_injections <= MAX_INJECTIONS
        &&& self.route_target is Some <==> self.stage == FaultStage::RoutingChoice
    }

    /// What is hashed to decide on a sample.
    pub open spec fn sample_bytes(self, subject: Seq<u8>) -> Seq<u8> {
        encode_utf8(self.run_id@).push(self.stage.mark()) + subject
    }

    /// The digest falls into the sample.
    pub open spec fn takes(self, digest: u64) -> bool {
        digest % (SAMPLE_DENOMINATOR as u64) < self.sample_permyriad
    }

    pub open spec fn samples(self, subject: Seq<u8>) -> bool {
        self.takes(xxh3_64(self.sample_bytes(subject), self.seed))
    }
}

/// The hashes in little-endian, one after the other.
pub open spec fn hash_bytes(hashes: Seq<u64>) -> Seq<u8>
    decreases hashes.len(),
{
    if hashes.len() == 0 {
        Seq::empty()
    } else {
        hash_bytes(hashes.drop_last()) + spec_u64_to_le_bytes(hashes.last())
    }
}

/// The blocks that the event stores on GPU, if it is such a store.
pub open spec fn gpu_stored(event: RawKvEvent) -> Option<Seq<u64>> {
    match event {
        RawKvEvent::BlockStored { block_hashes, medium, .. } => if medium_tier(medium) == Some(
            CacheTier::Gpu,
        ) {
            Some(block_hashes@)
        } else {
            None
        },
        _ => None,
    }
}

// ---- checks ----

fn same_option(left: Option<&str>, right: Option<&str>) -> (same: bool)
    ensures
        same == (text_of(left) == text_of(right)),
{
    match (left, right) {
        (Some(left), Some(right)) => same_text(left, right),
        (None, None) => true,
        _ => false,
    }
}

pub fn is_shadow_name(name: &str) -> (yes: bool)
    ensures
        yes == has_shadow_word(name@),
{
    let len: usize = name.unicode_len();
    if len < 6 {
        assert(forall|at: int| !shadow_at(name@, at));
        return false;
    }
    let mut at: usize = 0;
    while at <= len - 6
        invariant
            len == name@.len(),
            len >= 6,
            at <= len - 5,
            forall|j: int| 0 <= j < at ==> !#[trigger] shadow_at(name@, j),
        decreases len - at,
    {
        if is_shadow_at(name, at) {
            return true;
        }
        at = at + 1;
    }
    assert forall|j: int| !shadow_at(name@, j) by {}
    false
}

fn is_shadow_at(name: &str, at: usize) -> (yes: bool)
    requires
        at + 6 <= name@.len(),
        name@.len() <= usize::MAX,
    ensures
        yes == shadow_at(name@, at as int),
{
    let word: &str = "shadow";
    proof {
        reveal_strlit("shadow");
    }
    let len: usize = name.unicode_len();
    if at > 0 && alphanumeric(name.get_char(at - 1)) {
        return false;
    }
    if at + 6 < len && alphanumeric(name.get_char(at + 6)) {
        return false;
    }
    let ghost part = name@.subrange(at as int, at + 6);
    let mut i: usize = 0;
    while i < 6
        invariant
            i <= 6,
            at + 6 <= name@.len(),
            name@.len() <= usize::MAX,
            word@ == "shadow"@,
            word@.len() == 6,
            forall|j: int| 0 <= j < 6 ==> 'a' <= #[trigger] word@[j] && word@[j] <= 'z',
            part == name@.subrange(at as int, at + 6),
            forall|j: int|
                0 <= j < i ==> crate::settings::reads_as(#[trigger] part[j], word@[j]),
        decreases 6 - i,
    {
        let c: char = name.get_char(at + i);
        let lower: char = word.get_char(i);
        if c != lower && c as u64 + 32 != lower as u64 {
            assert(!crate::settings::reads_as(part[i as int], word@[i as int]));
            return false;
        }
        i = i + 1;
    }
    true
}

impl FaultPlan {
    pub fn is_valid(&self) -> (valid: bool)
        ensures
            valid == self.valid(),
    {
        let run_id: &str = self.run_id.as_str();
        let len: usize = run_id.unicode_len();
        if len == 0 || len > MAX_RUN_ID_BYTES {
            return false;
        }
        let mut i: usize = 0;
        while i < len
            invariant
                i <= len,
                len == run_id@.len(),
                run_id@ == self.run_id@,
                forall|j: int|
                    0 <= j < i ==> is_alphanumeric(#[trigger] run_id@[j]) || run_id@[j] == '-'
                        || run_id@[j] == '_',
            decreases len - i,
        {
            let c: char = run_id.get_char(i);
            if !alphanumeric(c) && c != '-' && c != '_' {
                assert(!is_run_id(self.run_id@));
                return false;
            }
            i = i + 1;
        }
        let route_shape = self.route_target.is_some() == (self.stage == FaultStage::RoutingChoice);
        1 <= self.sample_permyriad && self.sample_permyriad <= SAMPLE_DENOMINATOR && 1
            <= self.max_injections && self.max_injections <= MAX_INJECTIONS && route_shape
    }

    /// The digest that decides on a sample.
    fn digest(&self, subject: &[u8]) -> (digest: u64)
        ensures
            digest == xxh3_64(self.sample_bytes(subject@), self.seed),
    {
        let mut data: Vec<u8> = Vec::new();
        data.extend_from_slice(self.run_id.as_str().as_bytes());
        assert(data@ =~= encode_utf8(self.run_id@));
        data.push(self.stage.discriminator());
        data.extend_from_slice(subject);
        assert(data@ =~= self.sample_bytes(subject@));
        xxh3_digest(data.as_slice(), self.seed)
    }
}

impl<'a> GateValues<'a> {
    fn opens(&self) -> (open: bool)
        ensures
            open == self.is_open(),
    {
        let deployment_ok = match self.deployment {
            Some(deployment) => is_shadow_name(deployment),
            None => false,
        };
        same_option(self.enable, Some(ENABLE_VALUE)) && same_option(
            self.acknowledgment,
            Some(ACK_VALUE),
        ) && same_option(self.traffic_class, Some(TRAFFIC_CLASS_VALUE)) && same_option(
            self.shadow_arm,
            Some(SHADOW_ARM_VALUE),
        ) && same_option(self.expected_shadow_arm, self.shadow_arm) && self.namespace.is_some()
            && same_option(self.expected_namespace, self.namespace) && deployment_ok && same_option(
            self.expected_deployment,
            self.deployment,
        ) && same_option(self.model, Some(MODEL_VALUE)) && same_option(
            self.expected_model,
            self.model,
        )
    }
}

// ---- injector ----

pub struct CacheLossFaultInjector {
    plan: Option<FaultPlan>,
    injections: u32,
}

#[verifier::ext_equal]
pub struct InjectorView {
    pub plan: Option<FaultPlan>,
    pub injections: nat,
}

impl InjectorView {
    /// An armed plan is valid, and never exceeded.
    pub open spec fn inv(self) -> bool {
        match self.plan {
            Some(plan) => plan.valid() && self.injections <= plan.max_injections,
            None => self.injections == 0,
        }
    }

    /// The digest is taken if it falls into the sample and one more injection
    /// is allowed.
    pub open spec fn reserve(self, digest: u64) -> (InjectorView, bool) {
        match self.plan {
            Some(plan) => if plan.takes(digest) && self.injections < plan.max_injections {
                (InjectorView { injections: self.injections + 1, ..self }, true)
            } else {
                (self, false)
            },
            None => (self, false),
        }
    }

    /// The same for what the digest is taken of.
    pub open spec fn sample(self, subject: Seq<u8>) -> (InjectorView, bool) {
        match self.plan {
            Some(plan) => self.reserve(xxh3_64(plan.sample_bytes(subject), plan.seed)),
            None => (self, false),
        }
    }

    pub open spec fn armed_for(self, stage: FaultStage) -> bool {
        self.plan is Some && self.plan->0.stage == stage
    }

    pub open spec fn sample_store(self, stage: FaultStage, event: RawKvEvent) -> (
        InjectorView,
        bool,
    ) {
        match gpu_stored(event) {
            Some(hashes) => if self.armed_for(stage) && hashes.len() > 0 {
                self.sample(hash_bytes(hashes))
            } else {
                (self, false)
            },
            None => (self, false),
        }
    }

    pub open spec fn route_target(self, context_id: Seq<char>) -> (
        InjectorView,
        Option<CacheOwner>,
    ) {
        if self.armed_for(FaultStage::RoutingChoice) && self.plan->0.route_target is Some {
            let target = self.plan->0.route_target->0;
            let (after, taken) = self.sample(encode_utf8(context_id));
            (
                after,
                if taken {
                    Some(CacheOwner { worker_id: target.worker_id, dp_rank: target.dp_rank })
                } else {
                    None
                },
            )
        } else {
            (self, None)
        }
    }
}

impl View for CacheLossFaultInjector {
    type V = InjectorView;

    closed spec fn view(&self) -> InjectorView {
        InjectorView { plan: self.plan, injections: self.injections as nat }
    }
}

impl CacheLossFaultInjector {
    pub closed spec fn wf(&self) -> bool {
        self@.inv()
    }

    pub fn disabled() -> (injector: Self)
        ensures
            injector.wf(),
            injector@ == (InjectorView { plan: None, injections: 0 }),
    {
        CacheLossFaultInjector { plan: None, injections: 0 }
    }

    /// Armed only where everything matches and the plan is valid.
    pub fn from_values(values: GateValues) -> (injector: Self)
        ensures
            injector.wf(),
            injector@ == (InjectorView {
                plan: if values.is_open() && values.plan is Some && values.plan->0.valid() {
                    values.plan
                } else {
                    None
                },
                injections: 0,
            }),
    {
        if !values.opens() {
            return Self::disabled();
        }
        match values.plan {
            Some(plan) => if plan.is_valid() {
                CacheLossFaultInjector { plan: Some(plan), injections: 0 }
            } else {
                Self::disabled()
            },
            None => Self::disabled(),
        }
    }

    pub fn armed_stage(&self) -> (stage: Option<FaultStage>)
        ensures
            stage == match self@.plan {
                Some(plan) => Some(plan.stage),
                None => None,
            },
    {
        match &self.plan {
            Some(plan) => Some(plan.stage),
            None => None,
        }
    }

    pub fn injection_count(&self) -> (count: u32)
        ensures
            count == self@.injections,
    {
        self.injections
    }

    pub fn inject_physical_retention(&mut self, event: &RawKvEvent) -> (inject: bool)
        requires
            old(self).wf(),
        ensures
            final(self).wf(),
            (final(self)@, inject) == old(self)@.sample_store(
                FaultStage::PhysicalRetention,
                *event,
            ),
    {
        self.sample_store(FaultStage::PhysicalRetention, event)
    }

    pub fn suppress_router_visibility(&mut self, event: &RawKvEvent) -> (suppress: bool)
        requires
            old(self).wf(),
        ensures
            final(self).wf(),
            (final(self)@, suppress) == old(self)@.sample_store(
                FaultStage::RouterVisibility,
                *event,
            ),
    {
        self.sample_store(FaultStage::RouterVisibility, event)
    }

    fn sample_store(&mut self, stage: FaultStage, event: &RawKvEvent) -> (taken: bool)
        requires
            old(self).wf(),
        ensures
            final(self).wf(),
            (final(self)@, taken) == old(self)@.sample_store(stage, *event),
    {
        let digest: u64 = match &self.plan {
            Some(plan) => {
                if plan.stage != stage {
                    return false;
                }
                match event {
                    RawKvEvent::BlockStored { block_hashes, medium, .. } => {
                        let on_gpu = cache_tier(*medium) == Some(CacheTier::Gpu);
                        if !on_gpu || block_hashes.len() == 0 || self.injections
                            >= plan.max_injections {
                            return false;
                        }
                        let subject = bytes_of(block_hashes);
                        plan.digest(subject.as_slice())
                    },
                    _ => {
                        return false;
                    },
                }
            },
            None => {
                return false;
            },
        };
        self.reserve_digest(digest)
    }

    /// Where to send the request instead, if it is sampled.
    pub fn route_target(&mut self, context_id: &str) -> (target: Option<CacheOwner>)
        requires
            old(self).wf(),
        ensures
            final(self).wf(),
            (final(self)@, target) == old(self)@.route_target(context_id@),
    {
        let (digest, target): (u64, RouteTarget) = match &self.plan {
            Some(plan) => {
                if plan.stage != FaultStage::RoutingChoice || self.injections
                    >= plan.max_injections {
                    return None;
                }
                match plan.route_target {
                    Some(target) => (plan.digest(context_id.as_bytes()), target),
                    None => {
                        return None;
                    },
                }
            },
            None => {
                return None;
            },
        };
        if self.reserve_digest(digest) {
            Some(CacheOwner { worker_id: target.worker_id, dp_rank: target.dp_rank })
        } else {
            None
        }
    }

    /// Counts an injection if the digest falls into the sample and the plan
    /// allows one more.
    pub fn reserve_digest(&mut self, digest: u64) -> (taken: bool)
        requires
            old(self).wf(),
        ensures
            final(self).wf(),
            (final(self)@, taken) == old(self)@.reserve(digest),
    {
        let (permyriad, max_injections): (u16, u32) = match &self.plan {
            Some(plan) => (plan.sample_permyriad, plan.max_injections),
            None => {
                return false;
            },
        };
        if digest % (SAMPLE_DENOMINATOR as u64) >= permyriad as u64 {
            return false;
        }
        if self.injections >= max_injections {
            return false;
        }
        self.injections = self.injections + 1;
        true
    }
}

fn bytes_of(hashes: &Vec<u64>) -> (bytes: Vec<u8>)
    ensures
        bytes@ == hash_bytes(hashes@),
{
    let mut bytes: Vec<u8> = Vec::new();
    let mut i: usize = 0;
    while i < hashes.len()
        invariant
            i <= hashes@.len(),
            bytes@ == hash_bytes(hashes@.take(i as int)),
        decreases hashes@.len() - i,
    {
        assert(hashes@.take(i + 1).drop_last() =~= hashes@.take(i as int));
        let mut next = u64_to_le_bytes(hashes[i]);
        bytes.append(&mut next);
        i = i + 1;
    }
    assert(hashes@.take(i as int) =~= hashes@);
    bytes
}

// ---- laws ----

/// However often an injector is asked, and whatever for, it never injects more
/// often than its plan allows.
pub proof fn law_injections_are_capped(
    injector: InjectorView,
    stage: FaultStage,
    event: RawKvEvent,
    context_id: Seq<char>,
)
    requires
        injector.inv(),
    ensures
        injector.sample_store(stage, event).0.inv(),
        injector.route_target(context_id).0.inv(),
        injector.sample_store(stage, event).0.plan == injector.plan,
        injector.route_target(context_id).0.plan == injector.plan,
        injector.sample_store(stage, event).0.injections <= MAX_INJECTIONS,
        injector.route_target(context_id).0.injections <= MAX_INJECTIONS,
{
}

/// An injector does nothing for a stage that its plan does not name, and
/// nothing at all without a plan.
pub proof fn law_other_stages_are_inert(
    injector: InjectorView,
    stage: FaultStage,
    event: RawKvEvent,
    context_id: Seq<char>,
)
    ensures
        !injector.armed_for(stage) ==> injector.sample_store(stage, event) == (injector, false),
        !injector.armed_for(FaultStage::RoutingChoice) ==> injector.route_target(context_id) == (
            injector,
            None::<CacheOwner>,
        ),
{
}

/// A full sample takes everything until the plan is used up.
pub proof fn law_full_sample_takes_everything(injector: InjectorView, digest: u64)
    requires
        injector.plan is Some,
        injector.plan->0.sample_permyriad == SAMPLE_DENOMINATOR,
        injector.injections < injector.plan->0.max_injections,
    ensures
        injector.reserve(digest).1,
{
}

} // verus!
