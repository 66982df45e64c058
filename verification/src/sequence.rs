//! Order of evidence batches per publisher.

use std::collections::HashMap;
use vstd::prelude::*;

use crate::evidence::CacheOwner;
use crate::owner_map::key_list;
use crate::table::{Same, Table, TableKey};

verus! {

broadcast use vstd::std_specs::hash::group_hash_axioms;

#[derive(Clone, Copy, Debug, PartialEq, Eq, Structural)]
pub enum EvidenceSequenceObservation {
    Contiguous,
    Gap,
    Stale,
    PublisherRestart,
}

/// A publisher that once spoke for an owner.
#[derive(Clone, Copy, Debug, PartialEq, Eq, Structural)]
pub struct OwnerPublisher {
    pub owner: CacheOwner,
    pub publisher_id: u64,
}

impl Same for OwnerPublisher {
    fn same(self, other: Self) -> (b: bool) {
        self == other
    }
}

impl TableKey for OwnerPublisher {
    open spec fn bucket_of(self) -> u64 {
        self.publisher_id
    }

    fn bucket(self) -> (b: u64) {
        self.publisher_id
    }
}

#[verifier::ext_equal]
pub struct SequenceView {
    /// The last cursor accepted from each publisher.
    pub publishers: Map<u64, u64>,
    pub owner_publishers: Map<CacheOwner, u64>,
    pub retired: Set<OwnerPublisher>,
}

impl SequenceView {
    pub open spec fn initial() -> SequenceView {
        SequenceView {
            publishers: Map::empty(),
            owner_publishers: Map::empty(),
            retired: Set::empty(),
        }
    }

    /// How the cursor continues the publisher's own sequence.
    pub open spec fn continuity(self, publisher_id: u64, source_cursor: u64, baseline: bool)
        -> EvidenceSequenceObservation {
        if self.publishers.contains_key(publisher_id) {
            let last = self.publishers[publisher_id];
            if source_cursor <= last {
                EvidenceSequenceObservation::Stale
            } else if source_cursor == last + 1 {
                EvidenceSequenceObservation::Contiguous
            } else {
                EvidenceSequenceObservation::Gap
            }
        } else if source_cursor == 0 || baseline {
            EvidenceSequenceObservation::Contiguous
        } else {
            EvidenceSequenceObservation::Gap
        }
    }

    /// Another publisher spoke for the owner before.
    pub open spec fn restarts(self, owner: CacheOwner, publisher_id: u64) -> bool {
        self.owner_publishers.contains_key(owner) && self.owner_publishers[owner] != publisher_id
    }

    pub open spec fn observation(
        self,
        owner: CacheOwner,
        publisher_id: u64,
        source_cursor: u64,
        baseline: bool,
    ) -> EvidenceSequenceObservation {
        if self.retired.contains(OwnerPublisher { owner, publisher_id }) || self.continuity(
            publisher_id,
            source_cursor,
            baseline,
        ) == EvidenceSequenceObservation::Stale {
            EvidenceSequenceObservation::Stale
        } else if self.restarts(owner, publisher_id) {
            EvidenceSequenceObservation::PublisherRestart
        } else {
            self.continuity(publisher_id, source_cursor, baseline)
        }
    }

    pub open spec fn observe(
        self,
        owner: CacheOwner,
        publisher_id: u64,
        source_cursor: u64,
        baseline: bool,
    ) -> SequenceView {
        if self.observation(owner, publisher_id, source_cursor, baseline)
            == EvidenceSequenceObservation::Stale {
            self
        } else {
            SequenceView {
                publishers: self.publishers.insert(publisher_id, source_cursor),
                owner_publishers: self.owner_publishers.insert(owner, publisher_id),
                retired: if self.restarts(owner, publisher_id) {
                    self.retired.insert(
                        OwnerPublisher { owner, publisher_id: self.owner_publishers[owner] },
                    )
                } else {
                    self.retired
                },
            }
        }
    }

    pub open spec fn retire(self, owner: CacheOwner) -> SequenceView {
        if self.owner_publishers.contains_key(owner) {
            SequenceView {
                owner_publishers: self.owner_publishers.remove(owner),
                retired: self.retired.insert(
                    OwnerPublisher { owner, publisher_id: self.owner_publishers[owner] },
                ),
                ..self
            }
        } else {
            self
        }
    }
}

pub struct EvidenceSequenceTracker {
    publishers: HashMap<u64, u64>,
    owner_publishers: Table<CacheOwner, u64>,
    retired_publishers: Table<OwnerPublisher, ()>,
}

impl View for EvidenceSequenceTracker {
    type V = SequenceView;

    closed spec fn view(&self) -> SequenceView {
        SequenceView {
            publishers: self.publishers@,
            owner_publishers: self.owner_publishers@,
            retired: self.retired_publishers@.dom(),
        }
    }
}

impl Default for EvidenceSequenceTracker {
    fn default() -> (tracker: Self)
        ensures
            tracker.wf(),
            tracker@ == SequenceView::initial(),
    {
        let tracker = EvidenceSequenceTracker {
            publishers: HashMap::new(),
            owner_publishers: Table::new(),
            retired_publishers: Table::new(),
        };
        assert(tracker@ =~= SequenceView::initial());
        tracker
    }
}

impl EvidenceSequenceTracker {
    pub closed spec fn wf(&self) -> bool {
        self.owner_publishers.wf() && self.retired_publishers.wf()
    }

    pub fn observe(&mut self, owner: CacheOwner, publisher_id: u64, source_cursor: u64)
        -> (observation: EvidenceSequenceObservation)
        requires
            old(self).wf(),
        ensures
            final(self).wf(),
            observation == old(self)@.observation(owner, publisher_id, source_cursor, false),
            final(self)@ == old(self)@.observe(owner, publisher_id, source_cursor, false),
    {
        self.observe_with_initial_baseline(owner, publisher_id, source_cursor, false)
    }

    /// Places a batch in its publisher's sequence. A publisher that was not
    /// seen before starts at zero, or anywhere if a baseline is allowed.
    pub fn observe_with_initial_baseline(
        &mut self,
        owner: CacheOwner,
        publisher_id: u64,
        source_cursor: u64,
        allow_initial_nonzero: bool,
    ) -> (observation: EvidenceSequenceObservation)
        requires
            old(self).wf(),
        ensures
            final(self).wf(),
            observation == old(self)@.observation(
                owner,
                publisher_id,
                source_cursor,
                allow_initial_nonzero,
            ),
            final(self)@ == old(self)@.observe(
                owner,
                publisher_id,
                source_cursor,
                allow_initial_nonzero,
            ),
    {
        if self.retired_publishers.contains_key(OwnerPublisher { owner, publisher_id }) {
            assert(self@.retired.contains(OwnerPublisher { owner, publisher_id }));
            return EvidenceSequenceObservation::Stale;
        }
        assert(!self@.retired.contains(OwnerPublisher { owner, publisher_id }));
        let continuity = match self.publishers.get(&publisher_id) {
            Some(last) => {
                if source_cursor <= *last {
                    return EvidenceSequenceObservation::Stale;
                } else if source_cursor == *last + 1 {
                    EvidenceSequenceObservation::Contiguous
                } else {
                    EvidenceSequenceObservation::Gap
                }
            },
            None => if source_cursor != 0 && !allow_initial_nonzero {
                EvidenceSequenceObservation::Gap
            } else {
                EvidenceSequenceObservation::Contiguous
            },
        };
        let previous: Option<u64> = match self.owner_publishers.get(owner) {
            None => None,
            Some(publisher) => Some(*publisher),
        };
        self.publishers.insert(publisher_id, source_cursor);
        self.owner_publishers.insert(owner, publisher_id);
        match previous {
            Some(publisher) => {
                if publisher != publisher_id {
                    self.retired_publishers.insert(
                        OwnerPublisher { owner, publisher_id: publisher },
                        (),
                    );
                    assert(self@ =~= old(self)@.observe(
                        owner,
                        publisher_id,
                        source_cursor,
                        allow_initial_nonzero,
                    ));
                    return EvidenceSequenceObservation::PublisherRestart;
                }
            },
            None => {},
        }
        assert(self@ =~= old(self)@.observe(
            owner,
            publisher_id,
            source_cursor,
            allow_initial_nonzero,
        ));
        continuity
    }

    /// The owners that a publisher speaks for.
    pub fn owners(&self) -> (owners: Vec<CacheOwner>)
        requires
            self.wf(),
        ensures
            owners@.no_duplicates(),
            owners@.to_set() == self@.owner_publishers.dom(),
    {
        key_list(&self.owner_publishers)
    }

    pub fn last_cursor(&self, publisher_id: u64) -> (cursor: Option<u64>)
        ensures
            cursor == if self@.publishers.contains_key(publisher_id) {
                Some(self@.publishers[publisher_id])
            } else {
                None
            },
    {
        match self.publishers.get(&publisher_id) {
            Some(cursor) => Some(*cursor),
            None => None,
        }
    }

    /// The owner's publisher no longer speaks for it, nor ever will again.
    pub fn retire(&mut self, owner: CacheOwner)
        requires
            old(self).wf(),
        ensures
            final(self).wf(),
            final(self)@ == old(self)@.retire(owner),
    {
        let previous: Option<u64> = match self.owner_publishers.get(owner) {
            None => None,
            Some(publisher) => Some(*publisher),
        };
        if let Some(publisher_id) = previous {
            self.owner_publishers.remove(owner);
            self.retired_publishers.insert(OwnerPublisher { owner, publisher_id }, ());
        }
        assert(self@ =~= old(self)@.retire(owner));
    }
}

#[derive(Clone, Copy, Debug, PartialEq, Eq, Structural)]
pub enum EvidenceWatermarkObservation {
    Current,
    Stale,
    Ahead,
}

/// A watermark is current if it names exactly the last applied cursor, stale
/// if it names an earlier one, and otherwise ahead of what was applied.
pub open spec fn watermark_observation(applied: Option<u64>, watermark: Option<u64>)
    -> EvidenceWatermarkObservation {
    if applied == watermark {
        EvidenceWatermarkObservation::Current
    } else if applied is Some && watermark is Some && watermark->0 < applied->0 {
        EvidenceWatermarkObservation::Stale
    } else {
        EvidenceWatermarkObservation::Ahead
    }
}

pub fn observe_watermark(applied_cursor: Option<u64>, watermark_cursor: Option<u64>)
    -> (observation: EvidenceWatermarkObservation)
    ensures
        observation == watermark_observation(applied_cursor, watermark_cursor),
{
    match (applied_cursor, watermark_cursor) {
        (None, None) => EvidenceWatermarkObservation::Current,
        (Some(applied), Some(watermark)) => if applied == watermark {
            EvidenceWatermarkObservation::Current
        } else if watermark < applied {
            EvidenceWatermarkObservation::Stale
        } else {
            EvidenceWatermarkObservation::Ahead
        },
        _ => EvidenceWatermarkObservation::Ahead,
    }
}

// ---- laws ----

/// A retired publisher can never again speak for the owner, whatever it or
/// anyone else sends.
pub proof fn law_retired_publishers_stay_fenced(
    state: SequenceView,
    retired: OwnerPublisher,
    owner: CacheOwner,
    publisher_id: u64,
    source_cursor: u64,
    baseline: bool,
)
    requires
        state.retired.contains(retired),
    ensures
        state.observation(retired.owner, retired.publisher_id, source_cursor, baseline)
            == EvidenceSequenceObservation::Stale,
        state.observe(owner, publisher_id, source_cursor, baseline).retired.contains(retired),
        state.retire(owner).retired.contains(retired),
{
}

/// Retiring an owner fences the publisher that spoke for it.
pub proof fn law_retiring_fences_the_publisher(
    state: SequenceView,
    owner: CacheOwner,
    source_cursor: u64,
    baseline: bool,
)
    requires
        state.owner_publishers.contains_key(owner),
    ensures
        state.retire(owner).observation(
            owner,
            state.owner_publishers[owner],
            source_cursor,
            baseline,
        ) == EvidenceSequenceObservation::Stale,
{
}

/// No cursor is accepted twice, and cursors are accepted in ascending order.
pub proof fn law_accepted_cursors_ascend(
    state: SequenceView,
    owner: CacheOwner,
    publisher_id: u64,
    source_cursor: u64,
    baseline: bool,
)
    ensures
        ({
            let after = state.observe(owner, publisher_id, source_cursor, baseline);
            let observation = state.observation(owner, publisher_id, source_cursor, baseline);
            &&& observation != EvidenceSequenceObservation::Stale && state.publishers.contains_key(
                publisher_id,
            ) ==> state.publishers[publisher_id] < after.publishers[publisher_id]
            &&& observation != EvidenceSequenceObservation::Stale ==> after.observation(
                owner,
                publisher_id,
                source_cursor,
                baseline,
            ) == EvidenceSequenceObservation::Stale
        }),
{
}

} // verus!
