//! Turning an engine's event stream into evidence batches.

use vstd::prelude::*;

use crate::event::{cache_tier, medium_tier, EventMedium, RawKvEvent};
use crate::evidence::{
    CacheEvidenceBatch, CacheEvidenceMutation, CacheEvidenceStoredBlock, CacheOwner, CacheTier,
};
use crate::owner_map::key_list;
use crate::resolver::{
    EvidenceHashResolver, EvidenceMutationError, ResolverView, MAX_EVIDENCE_HASH_MAPPINGS,
};
use crate::table::Table;

verus! {

// ---- frames ----

/// An event batch as it came off the wire, still encoded.
pub struct DecodedZmqKvBatch {
    pub source_cursor: u64,
    pub payload: Vec<u8>,
}

#[derive(Clone, Copy, Debug, PartialEq, Eq, Structural)]
pub enum EnvelopeError {
    /// Not three frames; how many there were.
    FrameCount(usize),
    /// The cursor does not have eight bytes; how many it had.
    SequenceLength(usize),
}

/// The number that bytes spell, most significant first.
pub open spec fn big_endian(bytes: Seq<u8>) -> nat
    decreases bytes.len(),
{
    if bytes.len() == 0 {
        0
    } else {
        big_endian(bytes.drop_last()) * 256 + bytes.last() as nat
    }
}

proof fn lemma_big_endian_bound(bytes: Seq<u8>)
    ensures
        big_endian(bytes) < vstd::arithmetic::power::pow(256, bytes.len()),
    decreases bytes.len(),
{
    vstd::arithmetic::power::lemma_pow0(256);
    if bytes.len() > 0 {
        lemma_big_endian_bound(bytes.drop_last());
        let n = bytes.len();
        reveal(vstd::arithmetic::power::pow);
        assert(vstd::arithmetic::power::pow(256, n) == 256 * vstd::arithmetic::power::pow(
            256,
            (n - 1) as nat,
        ));
    }
}

/// Takes the transport envelope apart: topic, cursor, payload.
pub fn decode_zmq_kv_batch(frames: Vec<Vec<u8>>) -> (batch: Result<
    DecodedZmqKvBatch,
    EnvelopeError,
>)
    ensures
        match batch {
            Ok(batch) => {
                &&& frames@.len() == 3
                &&& frames@[1]@.len() == 8
                &&& batch.source_cursor == big_endian(frames@[1]@)
                &&& batch.payload@ == frames@[2]@
            },
            Err(EnvelopeError::FrameCount(n)) => frames@.len() != 3 && n == frames@.len(),
            Err(EnvelopeError::SequenceLength(n)) => frames@.len() == 3 && frames@[1]@.len() != 8
                && n == frames@[1]@.len(),
        },
{
    let mut frames = frames;
    let ghost all = frames@;
    if frames.len() != 3 {
        return Err(EnvelopeError::FrameCount(frames.len()));
    }
    let payload: Vec<u8> = frames.swap_remove(2);
    let sequence: Vec<u8> = frames.swap_remove(1);
    assert(payload@ == all[2]@);
    assert(sequence@ == all[1]@);
    if sequence.len() != 8 {
        return Err(EnvelopeError::SequenceLength(sequence.len()));
    }
    let mut cursor: u64 = 0;
    let mut i: usize = 0;
    while i < 8
        invariant
            i <= 8,
            sequence@.len() == 8,
            cursor == big_endian(sequence@.take(i as int)),
        decreases 8 - i,
    {
        proof {
            let next = sequence@.take(i + 1);
            assert(next.drop_last() =~= sequence@.take(i as int));
            lemma_big_endian_bound(next);
            lemma_powers(i + 1);
        }
        cursor = cursor * 256 + sequence[i] as u64;
        i = i + 1;
    }
    assert(sequence@.take(i as int) =~= sequence@);
    Ok(DecodedZmqKvBatch { source_cursor: cursor, payload })
}

/// Up to eight bytes spell a 64-bit number.
proof fn lemma_powers(n: int)
    requires
        0 <= n <= 8,
    ensures
        vstd::arithmetic::power::pow(256, n as nat) <= u64::MAX + 1,
{
    vstd::arithmetic::power::lemma_pow_increases(256, n as nat, 8);
    assert(vstd::arithmetic::power::pow(256, 8) == 0x1_0000_0000_0000_0000) by {
        reveal_with_fuel(vstd::arithmetic::power::pow, 9);
    }
}

// ---- sequence ----

#[derive(Clone, Copy, Debug, PartialEq, Eq, Structural)]
pub enum SourceSequenceObservation {
    Contiguous,
    Gap { missing: u64 },
    Stale,
}

/// The cursor of the last source batch.
#[derive(Clone, Copy, Debug, PartialEq, Eq, Structural)]
pub struct SourceSequenceTracker {
    pub last: Option<u64>,
}

impl Default for SourceSequenceTracker {
    fn default() -> (tracker: Self)
        ensures
            tracker.last is None,
    {
        SourceSequenceTracker { last: None }
    }
}

/// How a cursor continues a source's sequence, which starts at zero. At the
/// largest cursor the sequence can go no further and stays contiguous.
pub open spec fn source_observation(last: Option<u64>, sequence: u64)
    -> SourceSequenceObservation {
    match last {
        None => if sequence == 0 {
            SourceSequenceObservation::Contiguous
        } else {
            SourceSequenceObservation::Gap { missing: sequence }
        },
        Some(last) => if sequence == last + 1 || (last == u64::MAX && sequence == u64::MAX) {
            SourceSequenceObservation::Contiguous
        } else if sequence > last {
            SourceSequenceObservation::Gap { missing: (sequence - last - 1) as u64 }
        } else {
            SourceSequenceObservation::Stale
        },
    }
}

impl SourceSequenceTracker {
    pub fn observe(&mut self, sequence: u64) -> (observation: SourceSequenceObservation)
        ensures
            observation == source_observation(old(self).last, sequence),
            final(self).last == if observation == SourceSequenceObservation::Stale {
                old(self).last
            } else {
                Some(sequence)
            },
    {
        let observation = match self.last {
            None => if sequence == 0 {
                SourceSequenceObservation::Contiguous
            } else {
                SourceSequenceObservation::Gap { missing: sequence }
            },
            Some(last) => if sequence == last.saturating_add(1) {
                SourceSequenceObservation::Contiguous
            } else if sequence > last {
                SourceSequenceObservation::Gap { missing: sequence - last - 1 }
            } else {
                SourceSequenceObservation::Stale
            },
        };
        match observation {
            SourceSequenceObservation::Stale => {},
            _ => {
                self.last = Some(sequence);
            },
        }
        observation
    }
}

/// Why an event was kept out of the routing index.
#[derive(Clone, Copy, Debug, PartialEq, Eq, Structural)]
pub enum ZmqEventFilterReason {
    IgnoredEvent,
    NonLocalLocality,
    UnknownMedium,
    UnsupportedOwnership,
    UnknownOwnership,
    AmbiguousCacheNamespace,
    UnknownKind,
    NonMainAttentionKind,
    NonMainAttentionGroup,
    UnlearnedGroupIdx,
}

/// Only events of a known secondary attention kind are expected to be kept
/// out; anything else that is kept out is lost telemetry.
pub fn filter_preserves_publisher_telemetry(reason: ZmqEventFilterReason) -> (preserved: bool)
    ensures
        preserved == (reason == ZmqEventFilterReason::NonMainAttentionKind),
{
    match reason {
        ZmqEventFilterReason::NonMainAttentionKind => true,
        _ => false,
    }
}

// ---- heartbeats ----

/// The owners that share a source, and how far its stream has come.
pub struct EvidenceHeartbeatState {
    owners: Table<CacheOwner, ()>,
    source_cursor: Option<u64>,
}

impl EvidenceHeartbeatState {
    pub closed spec fn wf(&self) -> bool {
        self.owners.wf()
    }

    pub closed spec fn members(&self) -> Set<CacheOwner> {
        self.owners@.dom()
    }

    pub closed spec fn cursor(&self) -> Option<u64> {
        self.source_cursor
    }

    pub fn new(owner: CacheOwner) -> (state: Self)
        ensures
            state.wf(),
            state.members() == set![owner],
            state.cursor() is None,
    {
        let mut owners: Table<CacheOwner, ()> = Table::new();
        owners.insert(owner, ());
        let state = EvidenceHeartbeatState { owners, source_cursor: None };
        assert(state.members() =~= set![owner]);
        state
    }

    pub fn observe(&mut self, owner: CacheOwner, source_cursor: u64)
        requires
            old(self).wf(),
        ensures
            final(self).wf(),
            final(self).members() == old(self).members().insert(owner),
            final(self).cursor() == Some(source_cursor),
    {
        self.owners.insert(owner, ());
        self.source_cursor = Some(source_cursor);
        assert(self.members() =~= old(self).members().insert(owner));
    }

    /// One entry per owner, all with the cursor of the whole source.
    pub fn entries(&self) -> (entries: Vec<(CacheOwner, Option<u64>)>)
        requires
            self.wf(),
        ensures
            entries@.len() == self.members().len(),
            forall|i: int| #![trigger entries@[i]]
                0 <= i < entries@.len() ==> self.members().contains(entries@[i].0) && entries@[i].1
                    == self.cursor(),
            forall|o: CacheOwner| #[trigger]
                self.members().contains(o) ==> entries@.contains((o, self.cursor())),
    {
        let owners = key_list(&self.owners);
        proof {
            owners@.unique_seq_to_set();
        }
        let mut entries: Vec<(CacheOwner, Option<u64>)> = Vec::new();
        let mut i: usize = 0;
        while i < owners.len()
            invariant
                i <= owners@.len(),
                entries@.len() == i,
                forall|j: int| 0 <= j < i ==> #[trigger] entries@[j] == (
                    owners@[j],
                    self.source_cursor,
                ),
            decreases owners@.len() - i,
        {
            entries.push((owners[i], self.source_cursor));
            i = i + 1;
        }
        proof {
            assert forall|j: int| #![trigger entries@[j]]
                0 <= j < entries@.len() implies self.members().contains(entries@[j].0)
                && entries@[j].1 == self.cursor() by {
                assert(entries@[j] == (owners@[j], self.source_cursor));
                assert(owners@.to_set().contains(owners@[j]));
            }
            assert forall|o: CacheOwner| #[trigger]
                self.members().contains(o) implies entries@.contains((o, self.cursor())) by {
                assert(owners@.to_set().contains(o));
                let j = choose|j: int| 0 <= j < owners@.len() && owners@[j] == o;
                assert(entries@[j] == (o, self.cursor()));
            }
        }
        entries
    }
}

// ---- events to mutations ----

/// What a mutation says.
#[allow(inconsistent_fields)]
pub enum EvidenceChange {
    Store {
        tier: CacheTier,
        group_idx: Option<u32>,
        parent_external_hash: Option<u64>,
        blocks: Seq<CacheEvidenceStoredBlock>,
    },
    Remove { tier: CacheTier, group_idx: Option<u32>, block_hashes: Seq<u64> },
    Clear { tier: Option<CacheTier> },
}

pub open spec fn change_of(mutation: CacheEvidenceMutation) -> EvidenceChange {
    match mutation {
        CacheEvidenceMutation::Store { tier, group_idx, parent_external_hash, blocks } =>
            EvidenceChange::Store { tier, group_idx, parent_external_hash, blocks: blocks@ },
        CacheEvidenceMutation::Remove { tier, group_idx, block_hashes } => EvidenceChange::Remove {
            tier,
            group_idx,
            block_hashes: block_hashes@,
        },
        CacheEvidenceMutation::Clear { tier } => EvidenceChange::Clear { tier },
    }
}

/// The store names blocks by hash alone.
pub open spec fn is_hash_only(tier: CacheTier, token_count: usize, block_size: usize) -> bool {
    tier == CacheTier::Cpu && token_count == 0 && block_size == 0
}

/// What becomes of an event. `hashed` are the blocks that its tokens make.
pub open spec fn conversion(
    resolver: ResolverView,
    event: RawKvEvent,
    owner: CacheOwner,
    hashed: Seq<CacheEvidenceStoredBlock>,
) -> (ResolverView, Result<Option<EvidenceChange>, EvidenceMutationError>) {
    if !event.is_local() {
        (resolver, Err(EvidenceMutationError::Invalid))
    } else {
        match event {
            RawKvEvent::BlockStored {
                block_hashes,
                parent_block_hash,
                token_count,
                block_size,
                medium,
                group_idx,
                ..
            } => match medium_tier(medium) {
                None => (resolver, Err(EvidenceMutationError::Invalid)),
                Some(tier) => if is_hash_only(tier, token_count, block_size) {
                    match group_idx {
                        None => (resolver, Err(EvidenceMutationError::Invalid)),
                        Some(group) => match resolver.resolve_cpu(owner, group, block_hashes@) {
                            Err(error) => (resolver, Err(error)),
                            Ok(blocks) => (
                                resolver,
                                Ok(
                                    Some(
                                        EvidenceChange::Store {
                                            tier,
                                            group_idx,
                                            parent_external_hash: parent_block_hash,
                                            blocks,
                                        },
                                    ),
                                ),
                            ),
                        },
                    }
                } else if block_size > u32::MAX || hashed.len() != block_hashes@.len() {
                    (resolver, Err(EvidenceMutationError::Invalid))
                } else {
                    let stored = EvidenceChange::Store {
                        tier,
                        group_idx,
                        parent_external_hash: parent_block_hash,
                        blocks: hashed,
                    };
                    if tier == CacheTier::Gpu && group_idx is Some {
                        let (learned, result) = resolver.learn_gpu(owner, group_idx->0, hashed);
                        match result {
                            Ok(()) => (learned, Ok(Some(stored))),
                            Err(error) => (learned, Err(error)),
                        }
                    } else {
                        (resolver, Ok(Some(stored)))
                    }
                },
            },
            RawKvEvent::BlockRemoved { block_hashes, medium, group_idx, .. } => match medium_tier(
                medium,
            ) {
                None => (resolver, Err(EvidenceMutationError::Invalid)),
                Some(tier) => (
                    resolver,
                    Ok(
                        Some(
                            EvidenceChange::Remove {
                                tier,
                                group_idx,
                                block_hashes: block_hashes@,
                            },
                        ),
                    ),
                ),
            },
            RawKvEvent::AllBlocksCleared { medium, epoch_id, .. } => {
                let forgotten = if medium == EventMedium::Unspecified || epoch_id is Some {
                    resolver.clear_owner(owner)
                } else {
                    resolver
                };
                if medium == EventMedium::Unspecified {
                    (forgotten, Ok(Some(EvidenceChange::Clear { tier: None })))
                } else {
                    match medium_tier(medium) {
                        None => (forgotten, Err(EvidenceMutationError::Invalid)),
                        Some(tier) => (
                            forgotten,
                            Ok(Some(EvidenceChange::Clear { tier: Some(tier) })),
                        ),
                    }
                }
            },
            RawKvEvent::Ignored => (resolver, Ok(None)),
        }
    }
}

/// The result says what the model says.
pub open spec fn says_conversion(
    result: Result<Option<CacheEvidenceMutation>, EvidenceMutationError>,
    expected: Result<Option<EvidenceChange>, EvidenceMutationError>,
) -> bool {
    match (result, expected) {
        (Ok(None), Ok(None)) => true,
        (Ok(Some(mutation)), Ok(Some(change))) => change_of(mutation) == change,
        (Err(error), Err(other)) => error == other,
        _ => false,
    }
}

fn copy_hashes(hashes: &Vec<u64>) -> (copy: Vec<u64>)
    ensures
        copy@ == hashes@,
{
    let mut copy: Vec<u64> = Vec::new();
    copy.extend_from_slice(hashes.as_slice());
    assert(copy@ =~= hashes@);
    copy
}

fn copy_blocks(blocks: &Vec<CacheEvidenceStoredBlock>) -> (copy: Vec<CacheEvidenceStoredBlock>)
    ensures
        copy@ == blocks@,
{
    let mut copy: Vec<CacheEvidenceStoredBlock> = Vec::new();
    let mut i: usize = 0;
    while i < blocks.len()
        invariant
            i <= blocks@.len(),
            copy@ == blocks@.take(i as int),
        decreases blocks@.len() - i,
    {
        copy.push(blocks[i]);
        i = i + 1;
        assert(copy@ =~= blocks@.take(i as int));
    }
    assert(blocks@.take(i as int) =~= blocks@);
    copy
}

/// Converts one event to the mutation that it announces, if any. `hashed` are
/// the blocks that the event's tokens make, each with its engine hash.
pub fn cache_evidence_mutation_with_resolver(
    event: &RawKvEvent,
    owner: CacheOwner,
    hashed: &Vec<CacheEvidenceStoredBlock>,
    resolver: &mut EvidenceHashResolver,
) -> (result: Result<Option<CacheEvidenceMutation>, EvidenceMutationError>)
    requires
        old(resolver).wf(),
    ensures
        final(resolver).wf(),
        ({
            let (after, expected) = conversion(old(resolver)@, *event, owner, hashed@);
            final(resolver)@ == after && says_conversion(result, expected)
        }),
{
    if !event.local() {
        return Err(EvidenceMutationError::Invalid);
    }
    match event {
        RawKvEvent::BlockStored {
            block_hashes,
            parent_block_hash,
            token_count,
            block_size,
            medium,
            group_idx,
            ..
        } => {
            let tier: CacheTier = match cache_tier(*medium) {
                None => {
                    return Err(EvidenceMutationError::Invalid);
                },
                Some(tier) => tier,
            };
            let blocks: Vec<CacheEvidenceStoredBlock> = if tier == CacheTier::Cpu && *token_count
                == 0 && *block_size == 0 {
                let group: u32 = match *group_idx {
                    None => {
                        return Err(EvidenceMutationError::Invalid);
                    },
                    Some(group) => group,
                };
                match resolver.resolve_cpu(owner, group, block_hashes) {
                    Err(error) => {
                        return Err(error);
                    },
                    Ok(blocks) => blocks,
                }
            } else {
                if *block_size as u64 > u32::MAX as u64 || hashed.len() != block_hashes.len() {
                    return Err(EvidenceMutationError::Invalid);
                }
                if tier == CacheTier::Gpu {
                    if let Some(group) = *group_idx {
                        if let Err(error) = resolver.learn_gpu(owner, group, hashed) {
                            return Err(error);
                        }
                    }
                }
                copy_blocks(hashed)
            };
            Ok(
                Some(
                    CacheEvidenceMutation::Store {
                        tier,
                        group_idx: *group_idx,
                        parent_external_hash: *parent_block_hash,
                        blocks,
                    },
                ),
            )
        },
        RawKvEvent::BlockRemoved { block_hashes, medium, group_idx, .. } => {
            match cache_tier(*medium) {
                None => Err(EvidenceMutationError::Invalid),
                Some(tier) => Ok(
                    Some(
                        CacheEvidenceMutation::Remove {
                            tier,
                            group_idx: *group_idx,
                            block_hashes: copy_hashes(block_hashes),
                        },
                    ),
                ),
            }
        },
        RawKvEvent::AllBlocksCleared { medium, epoch_id, .. } => {
            let unqualified = *medium == EventMedium::Unspecified;
            if unqualified || epoch_id.is_some() {
                resolver.clear_owner(owner);
            }
            if unqualified {
                Ok(Some(CacheEvidenceMutation::Clear { tier: None }))
            } else {
                match cache_tier(*medium) {
                    None => Err(EvidenceMutationError::Invalid),
                    Some(tier) => Ok(Some(CacheEvidenceMutation::Clear { tier: Some(tier) })),
                }
            }
        },
        RawKvEvent::Ignored => Ok(None),
    }
}

// ---- batches ----

/// The id of the one cold epoch that clears of the batch belong to.
pub open spec fn is_only_epoch(events: Seq<RawKvEvent>, epoch_id: Seq<char>) -> bool {
    &&& exists|i: int| 0 <= i < events.len() && (#[trigger] events[i]).epoch() == Some(epoch_id)
    &&& forall|i: int|
        0 <= i < events.len() ==> (#[trigger] events[i]).epoch() is None || events[i].epoch()
            == Some(epoch_id)
}

/// Epoch clears come alone: none at all, or nothing else.
pub open spec fn epochs_consistent(events: Seq<RawKvEvent>) -> bool {
    ||| forall|i: int| 0 <= i < events.len() ==> (#[trigger] events[i]).epoch() is None
    ||| exists|epoch_id: Seq<char>| #[trigger]
        is_only_epoch(events, epoch_id) && forall|i: int|
            0 <= i < events.len() ==> (#[trigger] events[i]).epoch() == Some(epoch_id)
}

/// What the epoch ids of a batch say.
struct EpochScan {
    only: Option<String>,
    consistent: bool,
}

fn scan_epochs(events: &Vec<RawKvEvent>) -> (scan: EpochScan)
    ensures
        scan.consistent == epochs_consistent(events@),
        match scan.only {
            Some(epoch_id) => is_only_epoch(events@, epoch_id@),
            None => forall|epoch_id: Seq<char>| !#[trigger] is_only_epoch(events@, epoch_id),
        },
{
    let mut first: Option<String> = None;
    let mut mixed = false;
    let mut plain = false;
    let mut i: usize = 0;
    while i < events.len()
        invariant
            i <= events@.len(),
            plain == exists|j: int| 0 <= j < i && (#[trigger] events@[j]).epoch() is None,
            match first {
                None => !mixed && forall|j: int|
                    0 <= j < i ==> (#[trigger] events@[j]).epoch() is None,
                Some(epoch_id) => {
                    &&& exists|j: int|
                        0 <= j < i && (#[trigger] events@[j]).epoch() == Some(epoch_id@)
                    &&& mixed == exists|j: int|
                        0 <= j < i && (#[trigger] events@[j]).epoch() is Some && events@[j].epoch()
                            != Some(epoch_id@)
                },
            },
        decreases events@.len() - i,
    {
        match events[i].epoch_id() {
            None => {
                plain = true;
                assert(events@[i as int].epoch() is None);
            },
            Some(epoch_id) => {
                assert(events@[i as int].epoch() == Some(epoch_id@));
                match &first {
                    None => {
                        first = Some(epoch_id.clone());
                    },
                    Some(known) => {
                        if *known != *epoch_id {
                            mixed = true;
                        }
                    },
                }
            },
        }
        i = i + 1;
    }
    match first {
        None => {
            proof {
                assert forall|epoch_id: Seq<char>| !#[trigger] is_only_epoch(
                    events@,
                    epoch_id,
                ) by {}
            }
            EpochScan { only: None, consistent: true }
        },
        Some(epoch_id) => {
            proof {
                if mixed {
                    let j = choose|j: int|
                        0 <= j < i && (#[trigger] events@[j]).epoch() is Some && events@[j].epoch()
                            != Some(epoch_id@);
                    let k = choose|k: int|
                        0 <= k < i && (#[trigger] events@[k]).epoch() == Some(epoch_id@);
                    assert forall|other: Seq<char>| !#[trigger] is_only_epoch(
                        events@,
                        other,
                    ) by {
                        if is_only_epoch(events@, other) {
                            assert(events@[j].epoch() == Some(other));
                            assert(events@[k].epoch() == Some(other));
                        }
                    }
                } else {
                    assert(is_only_epoch(events@, epoch_id@));
                    if plain {
                        let j = choose|j: int|
                            0 <= j < i && (#[trigger] events@[j]).epoch() is None;
                        assert(events@[j].epoch() is None);
                    }
                }
            }
            let consistent = !mixed && !plain;
            if mixed {
                EpochScan { only: None, consistent }
            } else {
                EpochScan { only: Some(epoch_id), consistent }
            }
        },
    }
}

/// The events of a source batch, in order, converted.
#[verifier::ext_equal]
pub struct Converted {
    pub resolver: ResolverView,
    pub changes: Seq<EvidenceChange>,
    /// The events that could not be converted, by position.
    pub issues: Seq<(usize, EvidenceMutationError)>,
}

pub open spec fn convert(
    resolver: ResolverView,
    events: Seq<RawKvEvent>,
    hashed: Seq<Vec<CacheEvidenceStoredBlock>>,
    owner: CacheOwner,
    count: int,
) -> Converted
    decreases count,
{
    if count <= 0 {
        Converted { resolver, changes: Seq::empty(), issues: Seq::empty() }
    } else {
        let before = convert(resolver, events, hashed, owner, count - 1);
        let (after, result) = conversion(
            before.resolver,
            events[count - 1],
            owner,
            hashed[count - 1]@,
        );
        match result {
            Ok(None) => Converted { resolver: after, ..before },
            Ok(Some(change)) => Converted {
                resolver: after,
                changes: before.changes.push(change),
                ..before
            },
            Err(error) => Converted {
                resolver: after,
                issues: before.issues.push(((count - 1) as usize, error)),
                ..before
            },
        }
    }
}

pub open spec fn changes_of(mutations: Seq<CacheEvidenceMutation>) -> Seq<EvidenceChange> {
    Seq::new(mutations.len(), |i: int| change_of(mutations[i]))
}

/// One source batch.
pub struct SourceBatch {
    pub source_cursor: u64,
    pub dp_rank: u32,
    pub events: Vec<RawKvEvent>,
    /// Per event, the blocks that its tokens make.
    pub hashed: Vec<Vec<CacheEvidenceStoredBlock>>,
    pub barrier_id: Option<u64>,
    pub epoch_id: Option<String>,
}

/// What to pass on of a source batch.
pub struct SourceEvidence {
    pub batch: CacheEvidenceBatch,
    /// Cursors that were never seen before this batch.
    pub missing: Option<u64>,
    /// The events that could not be converted, by position.
    pub issues: Vec<(usize, EvidenceMutationError)>,
}

/// One source of events.
pub struct EvidenceSource {
    worker_id: u64,
    incarnation_id: u64,
    resolver: EvidenceHashResolver,
    sequence: SourceSequenceTracker,
    heartbeat: EvidenceHeartbeatState,
}

#[verifier::ext_equal]
pub struct SourceView {
    pub worker_id: u64,
    pub incarnation_id: u64,
    pub resolver: ResolverView,
    pub last: Option<u64>,
    pub owners: Set<CacheOwner>,
    pub cursor: Option<u64>,
}

impl View for EvidenceSource {
    type V = SourceView;

    closed spec fn view(&self) -> SourceView {
        SourceView {
            worker_id: self.worker_id,
            incarnation_id: self.incarnation_id,
            resolver: self.resolver@,
            last: self.sequence.last,
            owners: self.heartbeat.members(),
            cursor: self.heartbeat.cursor(),
        }
    }
}

impl SourceView {
    /// The hashes are forgotten when events may have been missed.
    pub open spec fn admitted_resolver(self, source_cursor: u64) -> ResolverView {
        match source_observation(self.last, source_cursor) {
            SourceSequenceObservation::Gap { .. } => self.resolver.clear(),
            _ => self.resolver,
        }
    }

    pub open spec fn converted(self, batch: SourceBatch) -> Converted {
        convert(
            self.admitted_resolver(batch.source_cursor),
            batch.events@,
            batch.hashed@,
            CacheOwner { worker_id: self.worker_id, dp_rank: batch.dp_rank },
            batch.events@.len() as int,
        )
    }

    pub open spec fn on_batch(self, batch: SourceBatch) -> SourceView {
        if source_observation(self.last, batch.source_cursor) == SourceSequenceObservation::Stale {
            self
        } else {
            SourceView {
                resolver: self.converted(batch).resolver,
                last: Some(batch.source_cursor),
                owners: self.owners.insert(
                    CacheOwner { worker_id: self.worker_id, dp_rank: batch.dp_rank },
                ),
                cursor: Some(batch.source_cursor),
                ..self
            }
        }
    }
}

impl EvidenceSource {
    pub closed spec fn wf(&self) -> bool {
        self.resolver.wf() && self.heartbeat.wf()
    }

    pub fn new(worker_id: u64, configured_dp_rank: u32, incarnation_id: u64) -> (source: Self)
        ensures
            source.wf(),
            source@ == (SourceView {
                worker_id,
                incarnation_id,
                resolver: ResolverView {
                    mappings: Map::empty(),
                    capacity: MAX_EVIDENCE_HASH_MAPPINGS as nat,
                },
                last: None,
                owners: set![CacheOwner { worker_id, dp_rank: configured_dp_rank }],
                cursor: None,
            }),
    {
        EvidenceSource {
            worker_id,
            incarnation_id,
            resolver: EvidenceHashResolver::new(MAX_EVIDENCE_HASH_MAPPINGS),
            sequence: SourceSequenceTracker::default(),
            heartbeat: EvidenceHeartbeatState::new(
                CacheOwner { worker_id, dp_rank: configured_dp_rank },
            ),
        }
    }

    /// A source batch could not be decoded: what the hashes stand for may have
    /// changed.
    pub fn decode_error(&mut self)
        requires
            old(self).wf(),
        ensures
            final(self).wf(),
            final(self)@ == (SourceView { resolver: old(self)@.resolver.clear(), ..old(self)@ }),
    {
        self.resolver.clear();
    }

    /// Converts a source batch to evidence. Nothing comes of a batch that is
    /// out of order.
    pub fn on_batch(&mut self, batch: SourceBatch) -> (evidence: Option<SourceEvidence>)
        requires
            old(self).wf(),
            batch.hashed@.len() == batch.events@.len(),
        ensures
            final(self).wf(),
            final(self)@ == old(self)@.on_batch(batch),
            match evidence {
                None => source_observation(old(self)@.last, batch.source_cursor)
                    == SourceSequenceObservation::Stale,
                Some(evidence) => {
                    let observation = source_observation(old(self)@.last, batch.source_cursor);
                    let converted = old(self)@.converted(batch);
                    let out = evidence.batch;
                    &&& observation != SourceSequenceObservation::Stale
                    &&& evidence.missing == match observation {
                        SourceSequenceObservation::Gap { missing } => Some(missing),
                        _ => None,
                    }
                    &&& evidence.issues@ == converted.issues
                    &&& out.owner == (CacheOwner {
                        worker_id: old(self)@.worker_id,
                        dp_rank: batch.dp_rank,
                    })
                    &&& out.source_cursor == batch.source_cursor
                    &&& out.source_incarnation_id == Some(old(self)@.incarnation_id)
                    &&& !out.heartbeat
                    &&& out.watermark_source_cursor is None
                    &&& out.telemetry_complete == (epochs_consistent(batch.events@)
                        && converted.issues.len() == 0)
                    &&& changes_of(out.mutations@) == converted.changes
                    &&& out.barrier_id == batch.barrier_id
                    &&& match (batch.epoch_id, out.epoch_id) {
                        (Some(given), Some(epoch_id)) => epoch_id@ == given@,
                        (Some(_), None) => false,
                        (None, Some(epoch_id)) => is_only_epoch(batch.events@, epoch_id@),
                        (None, None) => forall|epoch_id: Seq<char>| !#[trigger] is_only_epoch(
                            batch.events@,
                            epoch_id,
                        ),
                    }
                },
            },
    {
        let mut missing: Option<u64> = None;
        match self.sequence.observe(batch.source_cursor) {
            SourceSequenceObservation::Contiguous => {},
            SourceSequenceObservation::Gap { missing: count } => {
                self.resolver.clear();
                missing = Some(count);
            },
            SourceSequenceObservation::Stale => {
                return None;
            },
        }
        let owner = CacheOwner { worker_id: self.worker_id, dp_rank: batch.dp_rank };
        self.heartbeat.observe(owner, batch.source_cursor);
        let scan = scan_epochs(&batch.events);
        let ghost admitted = self.resolver@;
        let mut mutations: Vec<CacheEvidenceMutation> = Vec::new();
        let mut issues: Vec<(usize, EvidenceMutationError)> = Vec::new();
        let events = &batch.events;
        let hashed = &batch.hashed;
        let mut i: usize = 0;
        proof {
            assert(changes_of(mutations@) =~= Seq::<EvidenceChange>::empty());
            assert(issues@ =~= Seq::<(usize, EvidenceMutationError)>::empty());
        }
        while i < events.len()
            invariant
                i <= events@.len(),
                hashed@.len() == events@.len(),
                self.wf(),
                self.sequence.last == Some(batch.source_cursor),
                self.worker_id == old(self).worker_id,
                self.incarnation_id == old(self).incarnation_id,
                self.heartbeat.members() == old(self).heartbeat.members().insert(owner),
                self.heartbeat.cursor() == Some(batch.source_cursor),
                self.resolver@ == convert(admitted, events@, hashed@, owner, i as int).resolver,
                changes_of(mutations@) == convert(
                    admitted,
                    events@,
                    hashed@,
                    owner,
                    i as int,
                ).changes,
                issues@ == convert(admitted, events@, hashed@, owner, i as int).issues,
            decreases events@.len() - i,
        {
            let ghost before = mutations@;
            match cache_evidence_mutation_with_resolver(
                &events[i],
                owner,
                &hashed[i],
                &mut self.resolver,
            ) {
                Ok(None) => {},
                Ok(Some(mutation)) => {
                    mutations.push(mutation);
                    assert(changes_of(mutations@) =~= changes_of(before).push(
                        change_of(mutation),
                    ));
                },
                Err(error) => {
                    issues.push((i, error));
                },
            }
            i = i + 1;
        }
        let telemetry_complete = scan.consistent && issues.len() == 0;
        let epoch_id: Option<String> = match batch.epoch_id {
            Some(epoch_id) => Some(epoch_id),
            None => scan.only,
        };
        Some(
            SourceEvidence {
                batch: CacheEvidenceBatch {
                    owner,
                    source_cursor: batch.source_cursor,
                    source_incarnation_id: Some(self.incarnation_id),
                    heartbeat: false,
                    watermark_source_cursor: None,
                    telemetry_complete,
                    mutations,
                    barrier_id: batch.barrier_id,
                    epoch_id,
                },
                missing,
                issues,
            },
        )
    }

    /// A watermark for each owner of the source, with the cursor up to which
    /// everything has been passed on.
    pub fn heartbeats(&self) -> (batches: Vec<CacheEvidenceBatch>)
        requires
            self.wf(),
        ensures
            batches@.len() == self@.owners.len(),
            forall|i: int| #![trigger batches@[i]]
                0 <= i < batches@.len() ==> {
                    let batch = batches@[i];
                    &&& self@.owners.contains(batch.owner)
                    &&& batch.source_cursor == match self@.cursor {
                        Some(cursor) => cursor,
                        None => 0,
                    }
                    &&& batch.source_incarnation_id == Some(self@.incarnation_id)
                    &&& batch.heartbeat
                    &&& batch.watermark_source_cursor == self@.cursor
                    &&& batch.telemetry_complete
                    &&& batch.mutations@.len() == 0
                    &&& batch.barrier_id is None
                    &&& batch.epoch_id is None
                },
            forall|o: CacheOwner| #[trigger]
                self@.owners.contains(o) ==> exists|i: int|
                    0 <= i < batches@.len() && (#[trigger] batches@[i]).owner == o,
    {
        let entries = self.heartbeat.entries();
        let mut batches: Vec<CacheEvidenceBatch> = Vec::new();
        let mut i: usize = 0;
        while i < entries.len()
            invariant
                i <= entries@.len(),
                batches@.len() == i,
                forall|j: int| #![trigger entries@[j]]
                    0 <= j < entries@.len() ==> self@.owners.contains(entries@[j].0)
                        && entries@[j].1 == self@.cursor,
                forall|j: int| #![trigger batches@[j]]
                    0 <= j < i ==> {
                        let batch = batches@[j];
                        &&& batch.owner == entries@[j].0
                        &&& self@.owners.contains(batch.owner)
                        &&& batch.source_cursor == match self@.cursor {
                            Some(cursor) => cursor,
                            None => 0,
                        }
                        &&& batch.source_incarnation_id == Some(self@.incarnation_id)
                        &&& batch.heartbeat
                        &&& batch.watermark_source_cursor == self@.cursor
                        &&& batch.telemetry_complete
                        &&& batch.mutations@.len() == 0
                        &&& batch.barrier_id is None
                        &&& batch.epoch_id is None
                    },
            decreases entries@.len() - i,
        {
            assert(self@.owners.contains(entries@[i as int].0));
            let cursor: u64 = match entries[i].1 {
                Some(cursor) => cursor,
                None => 0,
            };
            batches.push(
                CacheEvidenceBatch {
                    owner: entries[i].0,
                    source_cursor: cursor,
                    source_incarnation_id: Some(self.incarnation_id),
                    heartbeat: true,
                    watermark_source_cursor: entries[i].1,
                    telemetry_complete: true,
                    mutations: Vec::new(),
                    barrier_id: None,
                    epoch_id: None,
                },
            );
            i = i + 1;
        }
        proof {
            assert forall|o: CacheOwner| #[trigger] self@.owners.contains(o) implies exists|j: int|
                0 <= j < batches@.len() && (#[trigger] batches@[j]).owner == o by {
                assert(self.heartbeat.members().contains(o));
                let j = choose|j: int|
                    0 <= j < entries@.len() && entries@[j] == (o, self.heartbeat.cursor());
                assert(batches@[j].owner == o);
            }
        }
        batches
    }
}

// ---- laws ----

/// The first batch of a source is contiguous only at cursor zero; after that
/// every accepted cursor but the largest is higher than the one before, and
/// a gap names exactly the cursors in between.
pub proof fn law_source_cursors_ascend(last: u64, sequence: u64)
    requires
        last < u64::MAX,
    ensures
        source_observation(Some(last), sequence) != SourceSequenceObservation::Stale <==> sequence
            > last,
        forall|missing: u64|
            source_observation(Some(last), sequence) == (SourceSequenceObservation::Gap { missing })
                ==> sequence == last + 1 + missing && missing > 0,
        source_observation(None, sequence) == SourceSequenceObservation::Contiguous <==> sequence
            == 0,
{
}

/// After a gap no store on CPU resolves by what was learned before it.
pub proof fn law_gap_forgets_engine_hashes(
    source: SourceView,
    source_cursor: u64,
    owner: CacheOwner,
    group: u32,
    hashes: Seq<u64>,
)
    requires
        source_observation(source.last, source_cursor) is Gap,
        hashes.len() > 0,
    ensures
        source.admitted_resolver(source_cursor).resolve_cpu(owner, group, hashes) == Err::<
            Seq<CacheEvidenceStoredBlock>,
            EvidenceMutationError,
        >(EvidenceMutationError::UnresolvedHash),
{
}

/// A stale batch changes nothing, so a replayed one cannot teach anything.
pub proof fn law_stale_batch_changes_nothing(source: SourceView, batch: SourceBatch)
    requires
        source.last is Some,
        batch.source_cursor <= source.last->0,
        source.last->0 < u64::MAX,
    ensures
        source.on_batch(batch) == source,
{
}

/// Events from elsewhere say nothing of the caches here.
pub proof fn law_remote_events_are_refused(
    resolver: ResolverView,
    event: RawKvEvent,
    owner: CacheOwner,
    hashed: Seq<CacheEvidenceStoredBlock>,
)
    requires
        !event.is_local(),
    ensures
        conversion(resolver, event, owner, hashed) == (
            resolver,
            Err::<Option<EvidenceChange>, EvidenceMutationError>(EvidenceMutationError::Invalid),
        ),
{
}

} // verus!
