//! Who publishes evidence, and under which incarnation.

use vstd::prelude::*;

use crate::catalog::CacheGroupObservation;
use crate::cold_epoch::{ColdEpochOwnerFence, TierSet};
use crate::evidence::CacheOwner;
use crate::ledger::CacheEvidenceLedger;
use crate::owner_map::{pairs_map, same_tables, table_of};
use crate::table::Same;
use crate::text::same_text;

verus! {

/// What is known of one evidence source of the routing domain.
pub struct SourceMember {
    pub owner: CacheOwner,
    /// The source is live.
    pub active: bool,
    /// The incarnation that a live source publishes under.
    pub evidence_incarnation: Option<u64>,
    /// The worker can emit route-time markers.
    pub barrier_enabled: bool,
    pub serving_incarnation: Option<u64>,
    /// The worker can take part in a cold epoch.
    pub epoch_enabled: bool,
    /// The media that the worker clears for a cold epoch.
    pub epoch_media: Option<Vec<String>>,
    /// The cache groups that the worker attests.
    pub catalog: Option<Vec<CacheGroupObservation>>,
}

/// The routing domain at one moment.
pub struct MembershipView {
    /// Where the evidence of the domain is published, once resolved.
    pub endpoint: Option<String>,
    pub sources: Vec<SourceMember>,
}

impl SourceMember {
    pub open spec fn incarnation(self) -> Option<u64> {
        if self.active {
            self.evidence_incarnation
        } else {
            None
        }
    }

    /// The source can take part in route-time cuts.
    pub open spec fn supports_barrier(self) -> bool {
        self.incarnation() is Some && self.barrier_enabled && self.serving_incarnation is Some
    }

    /// What the source must be, and clear, for a cold epoch; nothing if it
    /// cannot take part.
    pub open spec fn fence(self) -> Option<ColdEpochOwnerFence> {
        if self.epoch_enabled && self.incarnation() is Some && self.serving_incarnation is Some
            && self.epoch_media is Some && known_media(self.epoch_media->0@) && media_tiers(
            self.epoch_media->0@,
        ).gpu {
            Some(
                ColdEpochOwnerFence {
                    evidence_incarnation: self.incarnation()->0,
                    serving_incarnation: self.serving_incarnation->0,
                    expected_tiers: media_tiers(self.epoch_media->0@),
                },
            )
        } else {
            None
        }
    }
}

pub open spec fn known_media(media: Seq<String>) -> bool {
    forall|i: int|
        #![trigger media[i]]
        0 <= i < media.len() ==> media[i]@ == "GPU"@ || media[i]@ == "CPU"@
}

pub open spec fn names_medium(media: Seq<String>, name: Seq<char>) -> bool {
    exists|i: int| 0 <= i < media.len() && (#[trigger] media[i])@ == name
}

pub open spec fn media_tiers(media: Seq<String>) -> TierSet {
    TierSet { gpu: names_medium(media, "GPU"@), cpu: names_medium(media, "CPU"@) }
}

/// The tiers that media names stand for; nothing if a name is unknown.
pub fn parse_media(media: &Vec<String>) -> (tiers: Option<TierSet>)
    ensures
        tiers == if known_media(media@) {
            Some(media_tiers(media@))
        } else {
            None
        },
{
    let mut tiers = TierSet { gpu: false, cpu: false };
    let mut i: usize = 0;
    while i < media.len()
        invariant
            i <= media@.len(),
            forall|j: int| #![trigger media@[j]]
                0 <= j < i ==> media@[j]@ == "GPU"@ || media@[j]@ == "CPU"@,
            tiers.gpu == exists|j: int| 0 <= j < i && (#[trigger] media@[j])@ == "GPU"@,
            tiers.cpu == exists|j: int| 0 <= j < i && (#[trigger] media@[j])@ == "CPU"@,
        decreases media@.len() - i,
    {
        proof {
            reveal_strlit("GPU");
            reveal_strlit("CPU");
            assert("GPU"@[0] != "CPU"@[0]);
        }
        if same_text(media[i].as_str(), "GPU") {
            tiers.gpu = true;
        } else if same_text(media[i].as_str(), "CPU") {
            tiers.cpu = true;
        } else {
            assert(!(media@[i as int]@ == "GPU"@ || media@[i as int]@ == "CPU"@));
            return None;
        }
        i = i + 1;
    }
    Some(tiers)
}

impl SourceMember {
    fn read_incarnation(&self) -> (incarnation: Option<u64>)
        ensures
            incarnation == self.incarnation(),
    {
        if self.active {
            self.evidence_incarnation
        } else {
            None
        }
    }

    fn read_fence(&self) -> (fence: Option<ColdEpochOwnerFence>)
        ensures
            fence == self.fence(),
    {
        if !self.epoch_enabled {
            return None;
        }
        match (self.read_incarnation(), self.serving_incarnation, &self.epoch_media) {
            (Some(evidence_incarnation), Some(serving_incarnation), Some(media)) => {
                match parse_media(media) {
                    None => None,
                    Some(expected_tiers) => if expected_tiers.gpu {
                        Some(
                            ColdEpochOwnerFence {
                                evidence_incarnation,
                                serving_incarnation,
                                expected_tiers,
                            },
                        )
                    } else {
                        None
                    },
                }
            },
            _ => None,
        }
    }
}

/// Every source can take part in route-time cuts.
pub open spec fn all_support_barrier(sources: Seq<SourceMember>) -> bool {
    forall|i: int| 0 <= i < sources.len() ==> (#[trigger] sources[i]).supports_barrier()
}

pub open spec fn evidence_pairs(sources: Seq<SourceMember>) -> Seq<(CacheOwner, u64)> {
    if all_support_barrier(sources) {
        Seq::new(sources.len(), |i: int| (sources[i].owner, sources[i].incarnation()->0))
    } else {
        Seq::empty()
    }
}

pub open spec fn serving_pairs(sources: Seq<SourceMember>) -> Seq<(CacheOwner, u64)> {
    if all_support_barrier(sources) {
        Seq::new(sources.len(), |i: int| (sources[i].owner, sources[i].serving_incarnation->0))
    } else {
        Seq::empty()
    }
}

/// The owners of route-time cuts with their evidence incarnations, and with
/// their serving incarnations. One source that cannot take part leaves none.
pub fn barrier_owners(view: &MembershipView) -> (owners: (
    Vec<(CacheOwner, u64)>,
    Vec<(CacheOwner, u64)>,
))
    ensures
        owners.0@ == evidence_pairs(view.sources@),
        owners.1@ == serving_pairs(view.sources@),
{
    let mut evidence: Vec<(CacheOwner, u64)> = Vec::new();
    let mut serving: Vec<(CacheOwner, u64)> = Vec::new();
    let mut i: usize = 0;
    while i < view.sources.len()
        invariant
            i <= view.sources@.len(),
            evidence@.len() == i,
            serving@.len() == i,
            forall|j: int| 0 <= j < i ==> (#[trigger] view.sources@[j]).supports_barrier(),
            forall|j: int| 0 <= j < i ==> #[trigger] evidence@[j] == (
                view.sources@[j].owner,
                view.sources@[j].incarnation()->0,
            ),
            forall|j: int| 0 <= j < i ==> #[trigger] serving@[j] == (
                view.sources@[j].owner,
                view.sources@[j].serving_incarnation->0,
            ),
        decreases view.sources@.len() - i,
    {
        let source = &view.sources[i];
        match (source.read_incarnation(), source.serving_incarnation) {
            (Some(incarnation), Some(serving_incarnation)) => {
                if !source.barrier_enabled {
                    assert(!view.sources@[i as int].supports_barrier());
                    return (Vec::new(), Vec::new());
                }
                evidence.push((source.owner, incarnation));
                serving.push((source.owner, serving_incarnation));
            },
            _ => {
                assert(!view.sources@[i as int].supports_barrier());
                return (Vec::new(), Vec::new());
            },
        }
        i = i + 1;
    }
    assert(evidence@ =~= evidence_pairs(view.sources@));
    assert(serving@ =~= serving_pairs(view.sources@));
    (evidence, serving)
}

/// Every source can take part in a cold epoch, and there is one.
pub open spec fn all_fenced(sources: Seq<SourceMember>) -> bool {
    sources.len() > 0 && forall|i: int|
        0 <= i < sources.len() ==> (#[trigger] sources[i]).fence() is Some
}

pub open spec fn fence_pairs(sources: Seq<SourceMember>) -> Seq<(CacheOwner, ColdEpochOwnerFence)> {
    Seq::new(sources.len(), |i: int| (sources[i].owner, sources[i].fence()->0))
}

/// The owners of a cold epoch with their fences. One source that cannot take
/// part leaves none.
pub fn cold_epoch_owners(view: &MembershipView) -> (owners: Option<
    Vec<(CacheOwner, ColdEpochOwnerFence)>,
>)
    ensures
        match owners {
            Some(owners) => all_fenced(view.sources@) && owners@ == fence_pairs(view.sources@),
            None => !all_fenced(view.sources@),
        },
{
    let mut owners: Vec<(CacheOwner, ColdEpochOwnerFence)> = Vec::new();
    let mut i: usize = 0;
    while i < view.sources.len()
        invariant
            i <= view.sources@.len(),
            owners@.len() == i,
            forall|j: int| 0 <= j < i ==> (#[trigger] view.sources@[j]).fence() is Some,
            forall|j: int| 0 <= j < i ==> #[trigger] owners@[j] == (
                view.sources@[j].owner,
                view.sources@[j].fence()->0,
            ),
        decreases view.sources@.len() - i,
    {
        match view.sources[i].read_fence() {
            None => {
                assert(view.sources@[i as int].fence() is None);
                return None;
            },
            Some(fence) => {
                owners.push((view.sources[i].owner, fence));
            },
        }
        i = i + 1;
    }
    assert(owners@ =~= fence_pairs(view.sources@));
    if owners.len() == 0 {
        None
    } else {
        Some(owners)
    }
}

pub open spec fn incarnation_pairs(sources: Seq<SourceMember>) -> Seq<(CacheOwner, Option<u64>)> {
    Seq::new(sources.len(), |i: int| (sources[i].owner, sources[i].incarnation()))
}

/// The incarnation that each owner's watermarks must carry.
pub fn expected_incarnations(view: &MembershipView) -> (pairs: Vec<(CacheOwner, Option<u64>)>)
    ensures
        pairs@ == incarnation_pairs(view.sources@),
{
    let mut pairs: Vec<(CacheOwner, Option<u64>)> = Vec::new();
    let mut i: usize = 0;
    while i < view.sources.len()
        invariant
            i <= view.sources@.len(),
            pairs@.len() == i,
            forall|j: int| 0 <= j < i ==> #[trigger] pairs@[j] == (
                view.sources@[j].owner,
                view.sources@[j].incarnation(),
            ),
        decreases view.sources@.len() - i,
    {
        pairs.push((view.sources[i].owner, view.sources[i].read_incarnation()));
        i = i + 1;
    }
    assert(pairs@ =~= incarnation_pairs(view.sources@));
    pairs
}

pub open spec fn member_owners(sources: Seq<SourceMember>) -> Seq<CacheOwner> {
    Seq::new(sources.len(), |i: int| sources[i].owner)
}

/// The owners of all sources, live or not.
pub fn owners_of(view: &MembershipView) -> (owners: Vec<CacheOwner>)
    ensures
        owners@ == member_owners(view.sources@),
{
    let mut owners: Vec<CacheOwner> = Vec::new();
    let mut i: usize = 0;
    while i < view.sources.len()
        invariant
            i <= view.sources@.len(),
            owners@.len() == i,
            forall|j: int| 0 <= j < i ==> #[trigger] owners@[j] == view.sources@[j].owner,
        decreases view.sources@.len() - i,
    {
        owners.push(view.sources[i].owner);
        i = i + 1;
    }
    assert(owners@ =~= member_owners(view.sources@));
    owners
}

impl Same for ColdEpochOwnerFence {
    fn same(self, other: Self) -> (b: bool) {
        self == other
    }
}

/// Fences by owner, if all owners have one.
pub open spec fn fence_map(membership: Option<Vec<(CacheOwner, ColdEpochOwnerFence)>>) -> Option<
    Map<CacheOwner, ColdEpochOwnerFence>,
> {
    match membership {
        None => None,
        Some(pairs) => Some(pairs_map(pairs@)),
    }
}

/// The two memberships fence the same owners alike.
pub fn same_membership(
    a: &Option<Vec<(CacheOwner, ColdEpochOwnerFence)>>,
    b: &Option<Vec<(CacheOwner, ColdEpochOwnerFence)>>,
) -> (same: bool)
    ensures
        same == (fence_map(*a) == fence_map(*b)),
{
    match (a, b) {
        (None, None) => true,
        (Some(a), Some(b)) => {
            let left = table_of(a.as_slice());
            let right = table_of(b.as_slice());
            same_tables(&left, &right)
        },
        _ => false,
    }
}

/// Adopts the current membership. If it differs from the previous one, what
/// the history lacks may have been seen by owners that were not measured.
pub fn reconcile_history_membership(
    previous: &mut Option<Vec<(CacheOwner, ColdEpochOwnerFence)>>,
    current: Option<Vec<(CacheOwner, ColdEpochOwnerFence)>>,
    ledger: &mut CacheEvidenceLedger,
) -> (changed: bool)
    requires
        old(ledger).wf(),
    ensures
        final(ledger).wf(),
        changed == (fence_map(*old(previous)) != fence_map(current)),
        fence_map(*final(previous)) == fence_map(current),
        final(ledger)@ == if changed {
            old(ledger)@.mark_history_incomplete()
        } else {
            old(ledger)@
        },
{
    if same_membership(&*previous, &current) {
        return false;
    }
    *previous = current;
    ledger.mark_history_incomplete();
    true
}

} // verus!
