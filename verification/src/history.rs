//! Minimal request-level cache-loss accounting.
//!
//! A bounded history of completed sequence hashes tells "computed before" from
//! "still resident now".

use std::collections::{HashMap, VecDeque};
use vstd::prelude::*;

verus! {

broadcast use vstd::std_specs::hash::group_hash_axioms;

/// The history is bounded only by its byte budget.
pub const HISTORY_BYTES_ENV: &'static str = "DYN_CACHE_LOSS_HISTORY_BYTES";

pub const DEFAULT_HISTORY_BYTES: usize = 268_435_456;

pub const HISTORY_CHUNK_RECORDS: usize = 4_096;

/// A record is one sequence hash, with its share of the structures that hold
/// it. This is a capacity model, not what an allocator hands out.
pub const ESTIMATED_BYTES_PER_HISTORY_RECORD: usize = 32;

// ---- model ----

/// One timestamp covers a batch of records.
#[verifier::ext_equal]
pub struct ChunkView {
    pub recorded_at: u64,
    pub hashes: Seq<u64>,
}

#[verifier::ext_equal]
pub struct HistoryView {
    pub capacity_bytes: nat,
    pub block_tokens: nat,
    pub chunk_records: nat,
    pub chunks: Seq<ChunkView>,
}

/// The records of chunks, oldest first.
pub open spec fn flat(chunks: Seq<ChunkView>) -> Seq<u64>
    decreases chunks.len(),
{
    if chunks.len() == 0 {
        Seq::empty()
    } else {
        flat(chunks.drop_last()) + chunks.last().hashes
    }
}

/// How often a hash occurs.
pub open spec fn tally(records: Seq<u64>, hash: u64) -> nat
    decreases records.len(),
{
    if records.len() == 0 {
        0
    } else {
        tally(records.drop_last(), hash) + if records.last() == hash {
            1nat
        } else {
            0
        }
    }
}

impl HistoryView {
    /// Every chunk holds at least one record and at most a full chunk, and a
    /// full chunk fits in the byte budget.
    pub open spec fn inv(self) -> bool {
        &&& self.block_tokens > 0
        &&& self.chunk_records >= 1
        &&& ESTIMATED_BYTES_PER_HISTORY_RECORD * self.chunk_records <= self.capacity_bytes
        &&& forall|i: int|
            0 <= i < self.chunks.len() ==> 1 <= (#[trigger] self.chunks[i]).hashes.len()
                <= self.chunk_records
    }

    /// Everything that is retained, oldest first.
    pub open spec fn records(self) -> Seq<u64> {
        flat(self.chunks)
    }

    pub open spec fn retains(self, hash: u64) -> bool {
        self.records().contains(hash)
    }

    /// Appends a record to the newest chunk, or to a new one if that is full.
    pub open spec fn push(self, hash: u64, now: u64) -> HistoryView {
        let chunks = if self.chunks.len() == 0 || self.chunks.last().hashes.len()
            == self.chunk_records {
            self.chunks.push(ChunkView { recorded_at: now, hashes: seq![hash] })
        } else {
            self.chunks.drop_last().push(
                ChunkView {
                    hashes: self.chunks.last().hashes.push(hash),
                    ..self.chunks.last()
                },
            )
        };
        HistoryView { chunks, ..self }
    }

    pub open spec fn push_all(self, hashes: Seq<u64>, now: u64) -> HistoryView
        decreases hashes.len(),
    {
        if hashes.len() == 0 {
            self
        } else {
            self.push_all(hashes.drop_last(), now).push(hashes.last(), now)
        }
    }

    pub open spec fn estimated_bytes(self) -> nat {
        let bytes = self.records().len() * ESTIMATED_BYTES_PER_HISTORY_RECORD as nat;
        if bytes > usize::MAX {
            usize::MAX as nat
        } else {
            bytes
        }
    }

    /// Drops the oldest chunks until the rest fits.
    pub open spec fn evict(self) -> HistoryView
        decreases self.chunks.len(),
    {
        if self.estimated_bytes() > self.capacity_bytes && self.chunks.len() > 0 {
            HistoryView { chunks: self.chunks.drop_first(), ..self }.evict()
        } else {
            self
        }
    }

    pub open spec fn record(self, hashes: Seq<u64>, now: u64) -> HistoryView {
        self.push_all(hashes, now).evict()
    }

    /// How many hashes in a row are retained, from the given one on.
    pub open spec fn known_from(self, hashes: Seq<u64>, from: int) -> nat
        decreases hashes.len() - from,
    {
        if 0 <= from < hashes.len() && self.retains(hashes[from]) {
            1 + self.known_from(hashes, from + 1)
        } else {
            0
        }
    }

    pub open spec fn previously_computed(self, hashes: Seq<u64>) -> nat {
        let tokens = self.known_from(hashes, 0) * self.block_tokens;
        if tokens > u64::MAX {
            u64::MAX as nat
        } else {
            tokens
        }
    }
}

proof fn lemma_flat_first(chunks: Seq<ChunkView>)
    requires
        chunks.len() > 0,
    ensures
        flat(chunks) == chunks[0].hashes + flat(chunks.drop_first()),
    decreases chunks.len(),
{
    if chunks.len() == 1 {
        assert(flat(chunks.drop_last()) =~= Seq::<u64>::empty());
        assert(flat(chunks.drop_first()) =~= Seq::<u64>::empty());
        assert(flat(chunks) =~= chunks[0].hashes + flat(chunks.drop_first()));
    } else {
        lemma_flat_first(chunks.drop_last());
        assert(chunks.drop_last().drop_first() =~= chunks.drop_first().drop_last());
        assert(flat(chunks) =~= chunks[0].hashes + flat(chunks.drop_first()));
    }
}

proof fn lemma_push(view: HistoryView, hash: u64, now: u64)
    ensures
        view.push(hash, now).records() == view.records().push(hash),
{
    let after = view.push(hash, now);
    if view.chunks.len() == 0 || view.chunks.last().hashes.len() == view.chunk_records {
        assert(after.chunks.drop_last() =~= view.chunks);
    } else {
        assert(after.chunks.drop_last() =~= view.chunks.drop_last());
    }
    assert(after.records() =~= view.records().push(hash));
}

proof fn lemma_push_inv(view: HistoryView, hash: u64, now: u64)
    requires
        view.inv(),
    ensures
        view.push(hash, now).inv(),
{
    let after = view.push(hash, now);
    assert forall|i: int| 0 <= i < after.chunks.len() implies 1 <= (
    #[trigger] after.chunks[i]).hashes.len() <= after.chunk_records by {
        if i < view.chunks.len() {
            assert(1 <= view.chunks[i].hashes.len() <= view.chunk_records);
        }
    }
}

proof fn lemma_push_all_inv(view: HistoryView, hashes: Seq<u64>, now: u64)
    requires
        view.inv(),
    ensures
        view.push_all(hashes, now).inv(),
    decreases hashes.len(),
{
    if hashes.len() > 0 {
        lemma_push_all_inv(view, hashes.drop_last(), now);
        lemma_push_inv(view.push_all(hashes.drop_last(), now), hashes.last(), now);
    }
}

proof fn lemma_push_all(view: HistoryView, hashes: Seq<u64>, now: u64)
    ensures
        view.push_all(hashes, now).records() == view.records() + hashes,
        view.push_all(hashes, now).capacity_bytes == view.capacity_bytes,
        view.push_all(hashes, now).block_tokens == view.block_tokens,
        view.push_all(hashes, now).chunk_records == view.chunk_records,
    decreases hashes.len(),
{
    if hashes.len() > 0 {
        lemma_push_all(view, hashes.drop_last(), now);
        lemma_push(view.push_all(hashes.drop_last(), now), hashes.last(), now);
    }
    assert(view.push_all(hashes, now).records() =~= view.records() + hashes);
}

proof fn lemma_tally_push(records: Seq<u64>, pushed: u64, hash: u64)
    ensures
        tally(records.push(pushed), hash) == tally(records, hash) + if pushed == hash {
            1nat
        } else {
            0
        },
{
    assert(records.push(pushed).drop_last() =~= records);
}

proof fn lemma_tally_concat(left: Seq<u64>, right: Seq<u64>, hash: u64)
    ensures
        tally(left + right, hash) == tally(left, hash) + tally(right, hash),
    decreases right.len(),
{
    if right.len() == 0 {
        assert(left + right =~= left);
    } else {
        lemma_tally_concat(left, right.drop_last(), hash);
        assert((left + right).drop_last() =~= left + right.drop_last());
    }
}

proof fn lemma_tally(records: Seq<u64>, hash: u64)
    ensures
        tally(records, hash) <= records.len(),
        tally(records, hash) > 0 <==> records.contains(hash),
    decreases records.len(),
{
    if records.len() > 0 {
        let shorter = records.drop_last();
        lemma_tally(shorter, hash);
        if records.contains(hash) && records.last() != hash {
            let i = choose|i: int| 0 <= i < records.len() && records[i] == hash;
            assert(shorter[i] == hash);
        }
        if shorter.contains(hash) {
            let i = choose|i: int| 0 <= i < shorter.len() && shorter[i] == hash;
            assert(records[i] == hash);
        }
        if records.last() == hash {
            assert(records[records.len() - 1] == hash);
        }
    }
}

// ---- history ----

struct HistoryChunk {
    recorded_at: u64,
    hashes: Vec<u64>,
}

impl HistoryChunk {
    spec fn chunk(self) -> ChunkView {
        ChunkView { recorded_at: self.recorded_at, hashes: self.hashes@ }
    }
}

/// A bounded history of cache identities that have definitely been computed.
///
/// An identity is a rolling sequence hash, so equal blocks under different
/// preceding contexts are distinct. Records are retained in arrival order; a
/// count keeps a hash present while any retained record still refers to it.
pub struct CacheHistory {
    capacity_bytes: usize,
    block_tokens: u64,
    chunk_record_capacity: usize,
    records: VecDeque<HistoryChunk>,
    retained_records: usize,
    retained: HashMap<u64, usize>,
}

#[derive(Clone, Copy, Debug, PartialEq, Eq, Structural)]
pub struct CacheHistoryStats {
    pub capacity_bytes: usize,
    pub retained_records: usize,
    pub retained_unique_hashes: usize,
    pub represented_tokens: u64,
    pub estimated_retained_bytes: usize,
    pub retained_chunks: usize,
    pub oldest_chunk_age_seconds: u64,
}

impl View for CacheHistory {
    type V = HistoryView;

    closed spec fn view(&self) -> HistoryView {
        HistoryView {
            capacity_bytes: self.capacity_bytes as nat,
            block_tokens: self.block_tokens as nat,
            chunk_records: self.chunk_record_capacity as nat,
            chunks: self.records@.map_values(|chunk: HistoryChunk| chunk.chunk()),
        }
    }
}

/// The tokens of so many blocks, saturating.
fn tokens_in(blocks: u64, block_tokens: u64) -> (tokens: u64)
    ensures
        tokens == if blocks as nat * block_tokens as nat > u64::MAX {
            u64::MAX as nat
        } else {
            blocks as nat * block_tokens as nat
        },
{
    match blocks.checked_mul(block_tokens) {
        Some(tokens) => tokens,
        None => u64::MAX,
    }
}

/// The counts are those of the records.
spec fn counts(retained: Map<u64, usize>, records: Seq<u64>) -> bool {
    forall|hash: u64| #[trigger]
        retained.contains_key(hash) == (tally(records, hash) > 0) && (retained.contains_key(hash)
            ==> retained[hash] == tally(records, hash))
}

impl CacheHistory {
    pub open spec fn wf(&self) -> bool {
        &&& self@.inv()
        &&& self.tallied()
    }

    /// The kept totals are those of the records.
    pub closed spec fn tallied(&self) -> bool {
        &&& self.retained_records == self@.records().len()
        &&& counts(self.retained@, self@.records())
    }

    pub fn new(capacity_bytes: usize, block_tokens: u32) -> (history: Self)
        requires
            block_tokens > 0,
        ensures
            history.wf(),
            ({
                let capacity: int = if capacity_bytes < ESTIMATED_BYTES_PER_HISTORY_RECORD {
                    ESTIMATED_BYTES_PER_HISTORY_RECORD as int
                } else {
                    capacity_bytes as int
                };
                let sixteenth = capacity / (ESTIMATED_BYTES_PER_HISTORY_RECORD as int) / 16;
                let chunk: int = if sixteenth < 1 {
                    1
                } else if sixteenth > HISTORY_CHUNK_RECORDS {
                    HISTORY_CHUNK_RECORDS as int
                } else {
                    sixteenth
                };
                history@ == (HistoryView {
                    capacity_bytes: capacity as nat,
                    block_tokens: block_tokens as nat,
                    chunk_records: chunk as nat,
                    chunks: Seq::empty(),
                })
            }),
    {
        let capacity: usize = if capacity_bytes < ESTIMATED_BYTES_PER_HISTORY_RECORD {
            ESTIMATED_BYTES_PER_HISTORY_RECORD
        } else {
            capacity_bytes
        };
        // Several chunks even for a small budget keep eviction fine-grained.
        let sixteenth: usize = capacity / ESTIMATED_BYTES_PER_HISTORY_RECORD / 16;
        let chunk_record_capacity: usize = if sixteenth < 1 {
            1
        } else if sixteenth > HISTORY_CHUNK_RECORDS {
            HISTORY_CHUNK_RECORDS
        } else {
            sixteenth
        };
        let history = CacheHistory {
            capacity_bytes: capacity,
            block_tokens: block_tokens as u64,
            chunk_record_capacity,
            records: VecDeque::new(),
            retained_records: 0,
            retained: HashMap::new(),
        };
        assert(history@.chunks =~= Seq::empty());
        proof {
            vstd::arithmetic::div_mod::lemma_fundamental_div_mod(
                capacity as int,
                ESTIMATED_BYTES_PER_HISTORY_RECORD as int,
            );
        }
        history
    }

    /// The tokens of the longest prefix whose identities have been computed by
    /// completed requests.
    pub fn previously_computed_tokens(&self, sequence_hashes: &[u64]) -> (tokens: u64)
        requires
            self.wf(),
        ensures
            tokens == self@.previously_computed(sequence_hashes@),
    {
        let mut blocks: usize = 0;
        while blocks < sequence_hashes.len() && self.retained.contains_key(&sequence_hashes[blocks])
            invariant
                blocks <= sequence_hashes@.len(),
                self.wf(),
                self@.known_from(sequence_hashes@, 0) == blocks + self@.known_from(
                    sequence_hashes@,
                    blocks as int,
                ),
            decreases sequence_hashes@.len() - blocks,
        {
            proof {
                lemma_tally(self@.records(), sequence_hashes@[blocks as int]);
            }
            blocks = blocks + 1;
        }
        proof {
            if blocks < sequence_hashes@.len() {
                lemma_tally(self@.records(), sequence_hashes@[blocks as int]);
            }
        }
        tokens_in(blocks as u64, self.block_tokens)
    }

    /// Retains the hashes. A repeated hash is a record too: it keeps a
    /// repeated prefix in the recent window.
    pub fn record_completed(&mut self, sequence_hashes: &[u64], now: u64)
        requires
            old(self).wf(),
            old(self)@.records().len() + sequence_hashes@.len() <= usize::MAX,
        ensures
            final(self).wf(),
            final(self)@ == old(self)@.record(sequence_hashes@, now),
    {
        let mut i: usize = 0;
        assert(sequence_hashes@.take(0) =~= Seq::<u64>::empty());
        while i < sequence_hashes.len()
            invariant
                i <= sequence_hashes@.len(),
                self.wf(),
                old(self)@.records().len() + sequence_hashes@.len() <= usize::MAX,
                self@ == old(self)@.push_all(sequence_hashes@.take(i as int), now),
            decreases sequence_hashes@.len() - i,
        {
            proof {
                let next = sequence_hashes@.take(i + 1);
                assert(next.drop_last() =~= sequence_hashes@.take(i as int));
                lemma_push_all(old(self)@, sequence_hashes@.take(i as int), now);
            }
            self.push(sequence_hashes[i], now);
            i = i + 1;
        }
        assert(sequence_hashes@.take(i as int) =~= sequence_hashes@);
        let ghost filled = self@;
        while self.estimated_retained_bytes() > self.capacity_bytes
            invariant
                self.wf(),
                self@.evict() == filled.evict(),
            decreases self@.chunks.len(),
        {
            proof {
                if self@.chunks.len() == 0 {
                    assert(self@.records() =~= Seq::<u64>::empty());
                }
            }
            self.evict_oldest_chunk();
        }
    }

    fn push(&mut self, hash: u64, now: u64)
        requires
            old(self).wf(),
            old(self)@.records().len() < usize::MAX,
        ensures
            final(self).wf(),
            final(self)@ == old(self)@.push(hash, now),
    {
        let ghost before = self@;
        let ghost old_records = self.records@;
        let n: usize = self.records.len();
        let full = n == 0 || self.records[n - 1].hashes.len() == self.chunk_record_capacity;
        assert(full == (before.chunks.len() == 0 || before.chunks.last().hashes.len()
            == before.chunk_records));
        if full {
            let mut hashes: Vec<u64> = Vec::new();
            hashes.push(hash);
            assert(hashes@ =~= seq![hash]);
            self.records.push_back(HistoryChunk { recorded_at: now, hashes });
            assert(self@.chunks =~= before.push(hash, now).chunks);
        } else {
            if let Some(chunk) = self.records.pop_back() {
                let mut chunk = chunk;
                chunk.hashes.push(hash);
                self.records.push_back(chunk);
            }
            assert(self@.chunks =~= before.push(hash, now).chunks);
        }
        proof {
            lemma_push(before, hash, now);
            lemma_push_inv(before, hash, now);
            lemma_tally(before.records(), hash);
            assert forall|other: u64|
                tally(self@.records(), other) == #[trigger] tally(before.records(), other) + if hash
                    == other {
                    1nat
                } else {
                    0
                } by {
                lemma_tally_push(before.records(), hash, other);
            }
            assert(counts(self.retained@, before.records()));
            assert(self.retained@.contains_key(hash) == (tally(before.records(), hash) > 0));
        }
        self.retained_records = self.retained_records + 1;
        let count: usize = match self.retained.get(&hash) {
            Some(count) => *count,
            None => 0,
        };
        self.retained.insert(hash, count + 1);
        proof {
            assert forall|other: u64| #[trigger]
                self.retained@.contains_key(other) == (tally(self@.records(), other) > 0) && (
                self.retained@.contains_key(other) ==> self.retained@[other] == tally(
                    self@.records(),
                    other,
                )) by {
                assert(tally(self@.records(), other) == tally(before.records(), other) + if hash
                    == other {
                    1nat
                } else {
                    0
                });
            }
        }
    }

    fn evict_oldest_chunk(&mut self)
        requires
            old(self).wf(),
            old(self)@.chunks.len() > 0,
        ensures
            final(self).wf(),
            final(self)@ == (HistoryView {
                chunks: old(self)@.chunks.drop_first(),
                ..old(self)@
            }),
    {
        let ghost before = self@;
        if let Some(chunk) = self.records.pop_front() {
            let hashes = &chunk.hashes;
            let ghost rest = flat(before.chunks.drop_first());
            proof {
                assert(self@.chunks =~= before.chunks.drop_first());
                lemma_flat_first(before.chunks);
                assert(before.chunks[0].hashes == hashes@);
            }
            self.retained_records = self.retained_records - hashes.len();
            let mut i: usize = 0;
            assert(hashes@.skip(0) =~= hashes@);
            while i < hashes.len()
                invariant
                    i <= hashes@.len(),
                    self.capacity_bytes == old(self).capacity_bytes,
                    self.block_tokens == old(self).block_tokens,
                    self.chunk_record_capacity == old(self).chunk_record_capacity,
                    self.retained_records == rest.len(),
                    self@.chunks == before.chunks.drop_first(),
                    counts(self.retained@, hashes@.skip(i as int) + rest),
                decreases hashes@.len() - i,
            {
                let hash = hashes[i];
                let ghost from = hashes@.skip(i as int);
                let ghost to = hashes@.skip(i + 1);
                proof {
                    assert(from =~= seq![hash] + to);
                    assert forall|other: u64| #[trigger]
                        tally(from + rest, other) == tally(to + rest, other) + if other == hash {
                            1nat
                        } else {
                            0
                        } by {
                        assert(from + rest =~= seq![hash] + (to + rest));
                        lemma_tally_concat(seq![hash], to + rest, other);
                        assert(seq![hash].drop_last() =~= Seq::<u64>::empty());
                        assert(tally(seq![hash].drop_last(), other) == 0);
                    }
                    assert(tally(from + rest, hash) > 0);
                    assert(self.retained@.contains_key(hash));
                }
                let ghost earlier = self.retained@;
                let count: usize = match self.retained.get(&hash) {
                    Some(count) => *count,
                    None => 1,
                };
                if count == 1 {
                    self.retained.remove(&hash);
                } else {
                    self.retained.insert(hash, count - 1);
                }
                proof {
                    assert forall|other: u64| #[trigger]
                        self.retained@.contains_key(other) == (tally(to + rest, other) > 0) && (
                        self.retained@.contains_key(other) ==> self.retained@[other] == tally(
                            to + rest,
                            other,
                        )) by {
                        assert(earlier.contains_key(other) == (tally(from + rest, other) > 0));
                    }
                }
                i = i + 1;
            }
            assert(hashes@.skip(i as int) + rest =~= rest);
        }
    }

    fn estimated_retained_bytes(&self) -> (bytes: usize)
        requires
            self.wf(),
        ensures
            bytes == self@.estimated_bytes(),
    {
        match self.retained_records.checked_mul(ESTIMATED_BYTES_PER_HISTORY_RECORD) {
            Some(bytes) => bytes,
            None => usize::MAX,
        }
    }

    pub fn stats(&self, now: u64) -> (stats: CacheHistoryStats)
        requires
            self.wf(),
        ensures
            stats.capacity_bytes == self@.capacity_bytes,
            stats.retained_records == self@.records().len(),
            stats.retained_unique_hashes == self@.records().to_set().len(),
            stats.represented_tokens == {
                let tokens = self@.records().len() * self@.block_tokens;
                if tokens > u64::MAX {
                    u64::MAX as nat
                } else {
                    tokens
                }
            },
            stats.estimated_retained_bytes == self@.estimated_bytes(),
            stats.retained_chunks == self@.chunks.len(),
            stats.oldest_chunk_age_seconds == if self@.chunks.len() > 0
                && self@.chunks[0].recorded_at < now {
                (now - self@.chunks[0].recorded_at) / 1_000_000_000
            } else {
                0
            },
    {
        let oldest_chunk_age_seconds: u64 = if self.records.len() > 0 {
            now.saturating_sub(self.records[0].recorded_at) / 1_000_000_000
        } else {
            0
        };
        proof {
            assert(self.retained@.dom() =~= self@.records().to_set()) by {
                assert forall|hash: u64| #[trigger]
                    self.retained@.contains_key(hash) == self@.records().to_set().contains(
                        hash,
                    ) by {
                    lemma_tally(self@.records(), hash);
                }
            }
        }
        CacheHistoryStats {
            capacity_bytes: self.capacity_bytes,
            retained_records: self.retained_records,
            retained_unique_hashes: self.retained.len(),
            represented_tokens: tokens_in(self.retained_records as u64, self.block_tokens),
            estimated_retained_bytes: self.estimated_retained_bytes(),
            retained_chunks: self.records.len(),
            oldest_chunk_age_seconds,
        }
    }
}

// ---- laws ----

/// Eviction drops whole chunks from the old end: what stays is a suffix.
proof fn lemma_evict_is_suffix(view: HistoryView)
    ensures
        view.evict().records().is_suffix_of(view.records()),
        view.evict().capacity_bytes == view.capacity_bytes,
        view.evict().estimated_bytes() <= view.capacity_bytes || view.evict().chunks.len() == 0,
        view.evict().chunks.len() <= view.chunks.len(),
        view.evict().block_tokens == view.block_tokens,
    decreases view.chunks.len(),
{
    if view.estimated_bytes() > view.capacity_bytes && view.chunks.len() > 0 {
        let next = HistoryView { chunks: view.chunks.drop_first(), ..view };
        lemma_evict_is_suffix(next);
        lemma_flat_first(view.chunks);
    }
}

/// The history is a window on everything that was ever recorded: recording
/// appends, and only the oldest records leave.
pub proof fn law_history_is_a_recent_window(view: HistoryView, hashes: Seq<u64>, now: u64)
    ensures
        view.record(hashes, now).records().is_suffix_of(view.records() + hashes),
{
    lemma_push_all(view, hashes, now);
    lemma_evict_is_suffix(view.push_all(hashes, now));
}

/// Eviction keeps the newest chunk whole, and the shape of the rest.
proof fn lemma_evict_keeps_newest(view: HistoryView)
    requires
        view.inv(),
    ensures
        view.evict().inv(),
        view.chunks.len() > 0 ==> view.evict().chunks.len() > 0 && view.evict().chunks.last()
            == view.chunks.last(),
    decreases view.chunks.len(),
{
    if view.estimated_bytes() > view.capacity_bytes && view.chunks.len() > 0 {
        let next = HistoryView { chunks: view.chunks.drop_first(), ..view };
        if view.chunks.len() == 1 {
            assert(flat(view.chunks.drop_last()) =~= Seq::<u64>::empty());
            assert(view.records() =~= view.chunks[0].hashes);
        }
        assert forall|i: int| 0 <= i < next.chunks.len() implies 1 <= (
        #[trigger] next.chunks[i]).hashes.len() <= next.chunk_records by {
            assert(next.chunks[i] == view.chunks[i + 1]);
        }
        lemma_evict_keeps_newest(next);
    }
}

/// The newest record is always retained: whatever has to leave, the last hash
/// that was recorded does not.
pub proof fn law_newest_record_is_retained(view: HistoryView, hashes: Seq<u64>, now: u64)
    requires
        view.inv(),
    ensures
        view.record(hashes, now).inv(),
        (view.records() + hashes).len() > 0 ==> {
            &&& view.record(hashes, now).records().len() > 0
            &&& view.record(hashes, now).records().last() == (view.records() + hashes).last()
        },
{
    let filled = view.push_all(hashes, now);
    lemma_push_all(view, hashes, now);
    lemma_push_all_inv(view, hashes, now);
    lemma_evict_keeps_newest(filled);
    if filled.chunks.len() > 0 {
        assert(filled.chunks.last().hashes.len() >= 1);
        let after = filled.evict();
        assert(after.records().last() == after.chunks.last().hashes.last());
        assert(filled.records().last() == filled.chunks.last().hashes.last());
    }
}

/// The byte budget is never exceeded.
pub proof fn law_history_stays_within_budget(view: HistoryView, hashes: Seq<u64>, now: u64)
    ensures
        view.record(hashes, now).estimated_bytes() <= view.capacity_bytes,
{
    lemma_push_all(view, hashes, now);
    lemma_evict_is_suffix(view.push_all(hashes, now));
    let after = view.record(hashes, now);
    if after.chunks.len() == 0 {
        assert(after.records() =~= Seq::<u64>::empty());
    }
}

/// The byte budget is the only limit: what fits is retained whole.
pub proof fn law_budget_is_the_only_limit(view: HistoryView, hashes: Seq<u64>, now: u64)
    requires
        (view.records().len() + hashes.len()) * ESTIMATED_BYTES_PER_HISTORY_RECORD
            <= view.capacity_bytes,
    ensures
        view.record(hashes, now).records() == view.records() + hashes,
{
    lemma_push_all(view, hashes, now);
}

/// A hash stays retained as long as any of its records does.
pub proof fn law_hash_is_retained_while_a_record_is(view: HistoryView, hash: u64)
    ensures
        view.retains(hash) <==> tally(view.records(), hash) > 0,
{
    lemma_tally(view.records(), hash);
}

proof fn lemma_known_from(view: HistoryView, hashes: Seq<u64>, from: int, n: int)
    requires
        0 <= from <= n <= hashes.len(),
        forall|i: int| from <= i < n ==> view.records().contains(#[trigger] hashes[i]),
        n < hashes.len() ==> !view.records().contains(hashes[n]),
    ensures
        view.known_from(hashes, from) == n - from,
    decreases n - from,
{
    if from < n {
        assert(view.records().contains(hashes[from]));
        lemma_known_from(view, hashes, from + 1, n);
    }
}

/// What was computed before is every leading block that is retained: if the
/// first `n` hashes are among the records and the next, if there is one, is
/// not, the answer is the tokens of `n` blocks, as far as a count can hold
/// them.
pub proof fn law_leading_retained_blocks_are_computed(view: HistoryView, hashes: Seq<u64>, n: int)
    requires
        0 <= n <= hashes.len(),
        forall|i: int| 0 <= i < n ==> view.records().contains(#[trigger] hashes[i]),
        n < hashes.len() ==> !view.records().contains(hashes[n]),
    ensures
        view.previously_computed(hashes) == if n * view.block_tokens <= u64::MAX {
            n * view.block_tokens
        } else {
            u64::MAX as int
        },
{
    lemma_known_from(view, hashes, 0, n);
}

/// What has just been recorded and fits is answered in full, and so is every
/// earlier prompt that shares its blocks.
pub proof fn law_recorded_prompts_are_computed(
    view: HistoryView,
    hashes: Seq<u64>,
    now: u64,
    asked: Seq<u64>,
)
    requires
        (view.records().len() + hashes.len()) * ESTIMATED_BYTES_PER_HISTORY_RECORD
            <= view.capacity_bytes,
        forall|i: int| 0 <= i < asked.len() ==> hashes.contains(#[trigger] asked[i]),
    ensures
        view.record(hashes, now).previously_computed(asked) == if asked.len() * view.block_tokens
            <= u64::MAX {
            asked.len() * view.block_tokens
        } else {
            u64::MAX as nat
        },
{
    let after = view.record(hashes, now);
    law_budget_is_the_only_limit(view, hashes, now);
    lemma_push_all(view, hashes, now);
    lemma_evict_is_suffix(view.push_all(hashes, now));
    assert forall|i: int| 0 <= i < asked.len() implies after.records().contains(
        #[trigger] asked[i],
    ) by {
        let j = choose|j: int| 0 <= j < hashes.len() && hashes[j] == asked[i];
        assert(after.records()[view.records().len() + j] == asked[i]);
    }
    law_leading_retained_blocks_are_computed(after, asked, asked.len() as int);
}

/// Only what has to leave leaves: where anything was evicted, the rest and one
/// more full chunk would not have fitted.
pub proof fn law_eviction_drops_no_more_than_needed(
    view: HistoryView,
    hashes: Seq<u64>,
    now: u64,
)
    requires
        view.inv(),
    ensures
        ({
            let after = view.record(hashes, now);
            after.records().len() < view.records().len() + hashes.len() ==> (after.records().len()
                + view.chunk_records) * ESTIMATED_BYTES_PER_HISTORY_RECORD > view.capacity_bytes
        }),
{
    lemma_push_all(view, hashes, now);
    lemma_push_all_inv(view, hashes, now);
    lemma_evicts_only_needed(view.push_all(hashes, now));
}

proof fn lemma_evicts_only_needed(view: HistoryView)
    requires
        view.inv(),
    ensures
        view.evict().records().len() < view.records().len() ==> (view.evict().records().len()
            + view.chunk_records) * ESTIMATED_BYTES_PER_HISTORY_RECORD > view.capacity_bytes,
    decreases view.chunks.len(),
{
    if view.estimated_bytes() > view.capacity_bytes && view.chunks.len() > 0 {
        let next = HistoryView { chunks: view.chunks.drop_first(), ..view };
        lemma_flat_first(view.chunks);
        assert(1 <= view.chunks[0].hashes.len() <= view.chunk_records);
        assert forall|i: int| 0 <= i < next.chunks.len() implies 1 <= (
        #[trigger] next.chunks[i]).hashes.len() <= next.chunk_records by {
            assert(next.chunks[i] == view.chunks[i + 1]);
        }
        lemma_evicts_only_needed(next);
        lemma_evict_is_suffix(next);
    }
}

/// Records keep the time of the chunk that they joined: chunks that were there
/// keep theirs, and new ones have the time of the recording.
pub proof fn law_chunks_keep_their_times(view: HistoryView, hashes: Seq<u64>, now: u64)
    ensures
        ({
            let after = view.push_all(hashes, now);
            &&& after.chunks.len() >= view.chunks.len()
            &&& forall|i: int|
                0 <= i < after.chunks.len() ==> (#[trigger] after.chunks[i]).recorded_at == if i
                    < view.chunks.len() {
                    view.chunks[i].recorded_at
                } else {
                    now
                }
        }),
    decreases hashes.len(),
{
    if hashes.len() > 0 {
        law_chunks_keep_their_times(view, hashes.drop_last(), now);
        let before = view.push_all(hashes.drop_last(), now);
        let after = view.push_all(hashes, now);
        assert forall|i: int| 0 <= i < after.chunks.len() implies (
        #[trigger] after.chunks[i]).recorded_at == if i < view.chunks.len() {
            view.chunks[i].recorded_at
        } else {
            now
        } by {
            if i < before.chunks.len() {
                assert(after.chunks[i].recorded_at == before.chunks[i].recorded_at);
            }
        }
    }
}

} // verus!
