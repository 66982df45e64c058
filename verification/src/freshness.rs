//! How recently each owner's evidence is known to be complete.
//!
//! Times are nanoseconds on a monotonic clock of the caller.

use vstd::prelude::*;

use crate::barrier::lapse;
use crate::evidence::CacheOwner;
use crate::owner_map::{pairs_map, table_of};
use crate::table::{lists_entries, Table};

verus! {

#[derive(Clone, Copy, Debug, PartialEq, Eq, Structural)]
pub enum EvidenceFreshnessStatus {
    BoundedFresh,
    Missing,
    Stale,
}

/// The last watermark of an owner.
#[derive(Clone, Copy, Debug, PartialEq, Eq, Structural)]
pub struct EvidenceWatermark {
    pub incarnation_id: u64,
    pub received_at: u64,
}

#[verifier::ext_equal]
pub struct FreshnessView {
    /// The incarnation each expected owner must report under, if it has one.
    pub expected: Map<CacheOwner, Option<u64>>,
    pub watermarks: Map<CacheOwner, EvidenceWatermark>,
    pub max_age: u64,
}

impl FreshnessView {
    pub open spec fn initial(max_age: u64) -> FreshnessView {
        FreshnessView { expected: Map::empty(), watermarks: Map::empty(), max_age }
    }

    pub open spec fn accepts(self, owner: CacheOwner, incarnation_id: u64) -> bool {
        self.expected.contains_key(owner) && self.expected[owner] == Some(incarnation_id)
    }

    /// Watermarks of owners that left or changed incarnation are forgotten.
    pub open spec fn set_expected(self, expected: Map<CacheOwner, Option<u64>>) -> FreshnessView {
        FreshnessView {
            expected,
            watermarks: self.watermarks.restrict(
                Set::new(
                    |owner: CacheOwner|
                        expected.contains_key(owner) && expected[owner] == Some(
                            self.watermarks[owner].incarnation_id,
                        ),
                ),
            ),
            ..self
        }
    }

    /// Owners that were expected and now are not, or under another
    /// incarnation.
    pub open spec fn changed(self, expected: Map<CacheOwner, Option<u64>>) -> Set<CacheOwner> {
        Set::new(
            |owner: CacheOwner|
                self.expected.contains_key(owner) && !(expected.contains_key(owner)
                    && expected[owner] == self.expected[owner]),
        )
    }

    pub open spec fn observe(self, owner: CacheOwner, incarnation_id: u64, now: u64)
        -> FreshnessView {
        if self.accepts(owner, incarnation_id) {
            FreshnessView {
                watermarks: self.watermarks.insert(
                    owner,
                    EvidenceWatermark { incarnation_id, received_at: now },
                ),
                ..self
            }
        } else {
            self
        }
    }

    /// The owner has a watermark of its expected incarnation.
    pub open spec fn covered(self, owner: CacheOwner) -> bool {
        self.watermarks.contains_key(owner) && self.expected[owner] == Some(
            self.watermarks[owner].incarnation_id,
        )
    }

    pub open spec fn age(self, owner: CacheOwner, now: u64) -> u64 {
        lapse(self.watermarks[owner].received_at, now)
    }

    pub open spec fn is_fresh(self, owner: CacheOwner, now: u64) -> bool {
        self.covered(owner) && self.age(owner, now) <= self.max_age
    }

    /// Nobody is expected, or somebody without an incarnation.
    pub open spec fn unknown_membership(self) -> bool {
        self.expected.dom() == Set::<CacheOwner>::empty() || exists|owner: CacheOwner| #[trigger]
            self.expected.contains_key(owner) && self.expected[owner] is None
    }

    pub open spec fn status(self, now: u64) -> EvidenceFreshnessStatus {
        if self.unknown_membership() || exists|owner: CacheOwner| #[trigger]
            self.expected.contains_key(owner) && !self.covered(owner) {
            EvidenceFreshnessStatus::Missing
        } else if forall|owner: CacheOwner| #[trigger]
            self.expected.contains_key(owner) ==> self.is_fresh(owner, now) {
            EvidenceFreshnessStatus::BoundedFresh
        } else {
            EvidenceFreshnessStatus::Stale
        }
    }

    pub open spec fn fresh_owners(self, now: u64) -> Set<CacheOwner> {
        if self.unknown_membership() {
            Set::empty()
        } else {
            self.expected.dom().filter(|owner: CacheOwner| self.is_fresh(owner, now))
        }
    }

    /// `age` is that of the oldest watermark.
    pub open spec fn is_oldest_age(self, now: u64, age: u64) -> bool {
        &&& forall|owner: CacheOwner| #[trigger]
            self.expected.contains_key(owner) ==> self.age(owner, now) <= age
        &&& exists|owner: CacheOwner| #[trigger]
            self.expected.contains_key(owner) && self.age(owner, now) == age
    }
}

pub struct EvidenceFreshness {
    expected: Table<CacheOwner, Option<u64>>,
    watermarks: Table<CacheOwner, EvidenceWatermark>,
    max_age: u64,
}

impl View for EvidenceFreshness {
    type V = FreshnessView;

    closed spec fn view(&self) -> FreshnessView {
        FreshnessView {
            expected: self.expected@,
            watermarks: self.watermarks@,
            max_age: self.max_age,
        }
    }
}

impl EvidenceFreshness {
    pub closed spec fn wf(&self) -> bool {
        self.expected.wf() && self.watermarks.wf()
    }

    /// Watermarks older than `max_age` are stale.
    pub fn new(max_age: u64) -> (freshness: Self)
        ensures
            freshness.wf(),
            freshness@ == FreshnessView::initial(max_age),
    {
        EvidenceFreshness { expected: Table::new(), watermarks: Table::new(), max_age }
    }

    /// Replaces the expected incarnations and lists the owners that left or
    /// changed theirs.
    pub fn set_expected(&mut self, expected: &[(CacheOwner, Option<u64>)]) -> (changed: Vec<
        CacheOwner,
    >)
        requires
            old(self).wf(),
        ensures
            final(self).wf(),
            final(self)@ == old(self)@.set_expected(pairs_map(expected@)),
            changed@.no_duplicates(),
            changed@.to_set() == old(self)@.changed(pairs_map(expected@)),
    {
        let next = table_of(expected);
        let mut changed: Vec<CacheOwner> = Vec::new();
        {
            let list = self.expected.entries();
            let mut i: usize = 0;
            while i < list.len()
                invariant
                    i <= list@.len(),
                    next.wf(),
                    next@ == pairs_map(expected@),
                    self@ == old(self)@,
                    lists_entries(list@, self@.expected),
                    changed@.no_duplicates(),
                    forall|o: CacheOwner| #[trigger]
                        changed@.contains(o) <==> self@.changed(next@).contains(o) && exists|j: int|
                            0 <= j < i && (#[trigger] list@[j]).0 == o,
                decreases list@.len() - i,
            {
                let owner = list[i].0;
                let ghost before = changed@;
                assert(self@.expected.contains_key(list@[i as int].0));
                let kept = match next.get(owner) {
                    None => false,
                    Some(incarnation) => *incarnation == *list[i].1,
                };
                if !kept {
                    proof {
                        if before.contains(owner) {
                            let j = choose|j: int| 0 <= j < i && (#[trigger] list@[j]).0 == owner;
                            assert(list@[j].0 != list@[i as int].0);
                        }
                    }
                    changed.push(owner);
                    assert(changed@[before.len() as int] == owner);
                }
                proof {
                    assert forall|o: CacheOwner| #[trigger]
                        changed@.contains(o) <==> self@.changed(next@).contains(o) && exists|j: int|
                            0 <= j < i + 1 && (#[trigger] list@[j]).0 == o by {
                        if before.contains(o) {
                            let n = choose|n: int| 0 <= n < before.len() && before[n] == o;
                            assert(changed@[n] == o);
                        }
                        if changed@.contains(o) && o != owner {
                            let n = choose|n: int| 0 <= n < changed@.len() && changed@[n] == o;
                            assert(before[n] == o);
                            assert(before.contains(o));
                        }
                        if changed@.contains(o) && o == owner {
                            assert(list@[i as int].0 == o);
                        }
                        if exists|j: int| 0 <= j < i + 1 && (#[trigger] list@[j]).0 == o {
                            let j = choose|j: int| 0 <= j < i + 1 && (#[trigger] list@[j]).0 == o;
                            if j < i && self@.changed(next@).contains(o) {
                                assert(before.contains(o));
                            }
                        }
                    }
                }
                i = i + 1;
            }
            proof {
                let model = self@.changed(next@);
                assert forall|o: CacheOwner| changed@.to_set().contains(o) == model.contains(
                    o,
                ) by {
                    if model.contains(o) {
                        assert(self@.expected.contains_key(o));
                        let j = choose|j: int| 0 <= j < list@.len() && (#[trigger] list@[j]).0 == o;
                        assert(list@[j].0 == o);
                        assert(changed@.contains(o));
                    }
                }
                assert(changed@.to_set() =~= model);
            }
        }
        let kept_marks = {
            let marks = &self.watermarks;
            let mut kept: Table<CacheOwner, EvidenceWatermark> = Table::new();
            let list = marks.entries();
            let mut i: usize = 0;
            while i < list.len()
                invariant
                    i <= list@.len(),
                    next.wf(),
                    kept.wf(),
                    lists_entries(list@, marks@),
                    forall|o: CacheOwner| #[trigger]
                        kept@.contains_key(o) <==> marks@.contains_key(o) && next@.contains_key(o)
                            && next@[o] == Some(marks@[o].incarnation_id) && exists|j: int|
                            0 <= j < i && (#[trigger] list@[j]).0 == o,
                    forall|o: CacheOwner| #[trigger] kept@.contains_key(o) ==> kept@[o] == marks@[o],
                decreases list@.len() - i,
            {
                let owner = list[i].0;
                let mark: EvidenceWatermark = *list[i].1;
                assert(marks@.contains_key(list@[i as int].0));
                let current = match next.get(owner) {
                    None => false,
                    Some(incarnation) => *incarnation == Some(mark.incarnation_id),
                };
                if current {
                    kept.insert(owner, mark);
                }
                i = i + 1;
            }
            proof {
                assert forall|o: CacheOwner| marks@.contains_key(o) && next@.contains_key(o)
                    && next@[o] == Some(marks@[o].incarnation_id) implies kept@.contains_key(o) by {
                    let j = choose|j: int| 0 <= j < list@.len() && (#[trigger] list@[j]).0 == o;
                    assert(list@[j].0 == o);
                }
            }
            kept
        };
        self.watermarks = kept_marks;
        self.expected = next;
        assert(self@ =~= old(self)@.set_expected(pairs_map(expected@)));
        changed
    }

    pub fn accepts(&self, owner: CacheOwner, incarnation_id: u64) -> (accepted: bool)
        requires
            self.wf(),
        ensures
            accepted == self@.accepts(owner, incarnation_id),
    {
        match self.expected.get(owner) {
            None => false,
            Some(expected) => *expected == Some(incarnation_id),
        }
    }

    /// Takes note of a watermark; false if the owner is not expected under
    /// that incarnation.
    pub fn observe(&mut self, owner: CacheOwner, incarnation_id: u64, now: u64) -> (accepted: bool)
        requires
            old(self).wf(),
        ensures
            final(self).wf(),
            accepted == old(self)@.accepts(owner, incarnation_id),
            final(self)@ == old(self)@.observe(owner, incarnation_id, now),
    {
        if !self.accepts(owner, incarnation_id) {
            return false;
        }
        self.watermarks.insert(owner, EvidenceWatermark { incarnation_id, received_at: now });
        true
    }

    /// How many owners are expected.
    pub fn expected_len(&self) -> (n: usize)
        requires
            self.wf(),
        ensures
            n == self@.expected.dom().len(),
    {
        self.expected.len()
    }

    fn unknown_membership(&self) -> (unknown: bool)
        requires
            self.wf(),
        ensures
            unknown == self@.unknown_membership(),
    {
        let expected = &self.expected;
        let nameless = |owner: CacheOwner| -> (r: bool)
            requires
                expected.wf(),
            ensures
                r == (expected@.contains_key(owner) && expected@[owner] is None),
            {
                match expected.get(owner) {
                    None => false,
                    Some(incarnation) => incarnation.is_none(),
                }
            };
        let ghost without = |owner: CacheOwner|
            expected@.contains_key(owner) && expected@[owner] is None;
        let any_nameless = expected.any(nameless, Ghost(without));
        let count = expected.len();
        proof {
            if count == 0 {
                expected@.dom().lemma_len0_is_empty();
            }
            if any_nameless {
                let owner = choose|owner: CacheOwner| #[trigger]
                    expected@.contains_key(owner) && without(owner);
                assert(self@.expected.contains_key(owner));
            }
            assert forall|owner: CacheOwner| #[trigger]
                self@.expected.contains_key(owner) && self@.expected[owner] is None implies any_nameless by {
                assert(expected@.contains_key(owner) && without(owner));
            }
        }
        count == 0 || any_nameless
    }

    /// The status, the number of fresh owners, and the age of the oldest
    /// watermark if none is missing.
    pub fn status(&self, now: u64) -> (r: (EvidenceFreshnessStatus, usize, Option<u64>))
        requires
            self.wf(),
        ensures
            r.0 == self@.status(now),
            r.1 == self@.fresh_owners(now).len(),
            match r.2 {
                None => r.0 == EvidenceFreshnessStatus::Missing,
                Some(age) => r.0 != EvidenceFreshnessStatus::Missing && self@.is_oldest_age(
                    now,
                    age,
                ),
            },
    {
        if self.unknown_membership() {
            return (EvidenceFreshnessStatus::Missing, 0, None);
        }
        let expected = &self.expected;
        let marks = &self.watermarks;
        let max_age: u64 = self.max_age;
        let list = expected.entries();
        let mut missing = false;
        let mut stale = false;
        let mut oldest: u64 = 0;
        let mut i: usize = 0;
        while i < list.len()
            invariant
                i <= list@.len(),
                self.wf(),
                marks == &self.watermarks,
                expected == &self.expected,
                max_age == self.max_age,
                lists_entries(list@, self@.expected),
                missing == exists|j: int| 0 <= j < i && !self@.covered((#[trigger] list@[j]).0),
                !missing ==> stale == exists|j: int|
                    0 <= j < i && !self@.is_fresh((#[trigger] list@[j]).0, now),
                !missing ==> forall|j: int| #![trigger list@[j]]
                    0 <= j < i ==> self@.age(list@[j].0, now) <= oldest,
                !missing && i > 0 ==> exists|j: int|
                    0 <= j < i && self@.age((#[trigger] list@[j]).0, now) == oldest,
                !missing && i == 0 ==> oldest == 0,
            decreases list@.len() - i,
        {
            let owner = list[i].0;
            assert(self@.expected.contains_key(list@[i as int].0));
            let mark: Option<EvidenceWatermark> = match marks.get(owner) {
                None => None,
                Some(mark) => if *list[i].1 == Some(mark.incarnation_id) {
                    Some(*mark)
                } else {
                    None
                },
            };
            match mark {
                None => {
                    missing = true;
                    assert(!self@.covered(list@[i as int].0));
                },
                Some(mark) => {
                    let age: u64 = now.saturating_sub(mark.received_at);
                    assert(self@.covered(list@[i as int].0));
                    assert(age == self@.age(list@[i as int].0, now));
                    if age > oldest || i == 0 {
                        oldest = age;
                    }
                    if age > max_age {
                        stale = true;
                        assert(!self@.is_fresh(list@[i as int].0, now));
                    }
                },
            }
            i = i + 1;
        }
        let recent = |owner: CacheOwner| -> (r: bool)
            requires
                expected.wf(),
                marks.wf(),
            ensures
                r == (expected@.contains_key(owner) && marks@.contains_key(owner)
                    && expected@[owner] == Some(marks@[owner].incarnation_id) && lapse(
                    marks@[owner].received_at,
                    now,
                ) <= max_age),
            {
                match (expected.get(owner), marks.get(owner)) {
                    (Some(incarnation), Some(mark)) => *incarnation == Some(mark.incarnation_id)
                        && now.saturating_sub(mark.received_at) <= max_age,
                    _ => false,
                }
            };
        let ghost fresh = |owner: CacheOwner|
            expected@.contains_key(owner) && marks@.contains_key(owner) && expected@[owner]
                == Some(marks@[owner].incarnation_id) && lapse(marks@[owner].received_at, now)
                <= max_age;
        let count = expected.count(recent, Ghost(fresh));
        proof {
            assert(self@.expected.dom().filter(fresh) =~= self@.fresh_owners(now));
            assert forall|owner: CacheOwner| #[trigger]
                self@.expected.contains_key(owner) implies exists|j: int|
                0 <= j < list@.len() && (#[trigger] list@[j]).0 == owner by {}
            assert forall|j: int| #![trigger list@[j]] 0 <= j < list@.len() implies self@.expected.contains_key(
                list@[j].0,
            ) by {}
            if list@.len() == 0 {
                assert(self@.expected.dom() =~= Set::<CacheOwner>::empty()) by {
                    assert forall|o: CacheOwner| !self@.expected.dom().contains(o) by {
                        if self@.expected.contains_key(o) {
                            let j = choose|j: int|
                                0 <= j < list@.len() && (#[trigger] list@[j]).0 == o;
                        }
                    }
                }
            }
        }
        if missing {
            (EvidenceFreshnessStatus::Missing, count, None)
        } else if stale {
            (EvidenceFreshnessStatus::Stale, count, Some(oldest))
        } else {
            (EvidenceFreshnessStatus::BoundedFresh, count, Some(oldest))
        }
    }
}

// ---- laws ----

/// Evidence is bounded only by watermarks of the expected incarnations: after
/// a change of an owner's incarnation its old watermark counts for nothing.
pub proof fn law_restart_needs_a_new_watermark(
    state: FreshnessView,
    expected: Map<CacheOwner, Option<u64>>,
    owner: CacheOwner,
    now: u64,
)
    requires
        expected.contains_key(owner),
        state.watermarks.contains_key(owner),
        expected[owner] != Some(state.watermarks[owner].incarnation_id),
    ensures
        state.set_expected(expected).status(now) == EvidenceFreshnessStatus::Missing,
{
    let after = state.set_expected(expected);
    assert(after.expected.contains_key(owner) && !after.covered(owner));
}

/// An owner that is not expected under an incarnation cannot refresh anything.
pub proof fn law_unexpected_watermarks_change_nothing(
    state: FreshnessView,
    owner: CacheOwner,
    incarnation_id: u64,
    now: u64,
)
    requires
        !state.accepts(owner, incarnation_id),
    ensures
        state.observe(owner, incarnation_id, now) == state,
{
}

/// Bounded freshness means that every expected owner has a recent watermark.
pub proof fn law_bounded_freshness_covers_every_owner(
    state: FreshnessView,
    owner: CacheOwner,
    now: u64,
)
    requires
        state.status(now) == EvidenceFreshnessStatus::BoundedFresh,
        state.expected.contains_key(owner),
    ensures
        state.is_fresh(owner, now),
{
}

} // verus!
