//! Raw cache events as engines publish them.

use vstd::prelude::*;

use crate::evidence::CacheTier;

verus! {

/// Where a cache event says its blocks are.
#[derive(Clone, Copy, Debug, PartialEq, Eq, Structural)]
pub enum StorageTier {
    Device,
    HostPinned,
    Disk,
    External,
}

/// The medium that an event names.
#[derive(Clone, Copy, Debug, PartialEq, Eq, Structural)]
pub enum EventMedium {
    /// The event names none: its blocks are on the device.
    Unspecified,
    Tier(StorageTier),
    /// The event names a medium that nobody knows.
    Unrecognized,
}

#[derive(Clone, Copy, Debug, PartialEq, Eq, Structural)]
pub enum Locality {
    Local,
    Remote,
    Unknown,
}

/// Who manages the blocks of an event.
#[derive(Clone, Copy, Debug, PartialEq, Eq, Structural)]
pub enum EventOwnership {
    Framework,
    /// Somebody else, or nobody that can be told.
    Other,
}

/// One cache event. Engine hashes are given as 64-bit numbers.
#[allow(inconsistent_fields)]
#[derive(Clone, Debug, PartialEq, Eq)]
pub enum RawKvEvent {
    BlockStored {
        block_hashes: Vec<u64>,
        parent_block_hash: Option<u64>,
        /// How many tokens the event carries.
        token_count: usize,
        block_size: usize,
        medium: EventMedium,
        group_idx: Option<u32>,
        locality: Option<Locality>,
        ownership: EventOwnership,
    },
    BlockRemoved {
        block_hashes: Vec<u64>,
        medium: EventMedium,
        group_idx: Option<u32>,
        locality: Option<Locality>,
        ownership: EventOwnership,
    },
    AllBlocksCleared {
        medium: EventMedium,
        epoch_id: Option<String>,
        locality: Option<Locality>,
        ownership: EventOwnership,
    },
    Ignored,
}

/// The cache tier that a medium stands for, if evidence is kept of it.
pub open spec fn medium_tier(medium: EventMedium) -> Option<CacheTier> {
    match medium {
        EventMedium::Unspecified => Some(CacheTier::Gpu),
        EventMedium::Tier(StorageTier::Device) => Some(CacheTier::Gpu),
        EventMedium::Tier(StorageTier::HostPinned) => Some(CacheTier::Cpu),
        _ => None,
    }
}

pub fn cache_tier(medium: EventMedium) -> (tier: Option<CacheTier>)
    ensures
        tier == medium_tier(medium),
{
    match medium {
        EventMedium::Unspecified => Some(CacheTier::Gpu),
        EventMedium::Tier(StorageTier::Device) => Some(CacheTier::Gpu),
        EventMedium::Tier(StorageTier::HostPinned) => Some(CacheTier::Cpu),
        _ => None,
    }
}

impl RawKvEvent {
    pub open spec fn owned_by(self) -> EventOwnership {
        match self {
            RawKvEvent::BlockStored { ownership, .. } => ownership,
            RawKvEvent::BlockRemoved { ownership, .. } => ownership,
            RawKvEvent::AllBlocksCleared { ownership, .. } => ownership,
            RawKvEvent::Ignored => EventOwnership::Framework,
        }
    }

    pub open spec fn located(self) -> Option<Locality> {
        match self {
            RawKvEvent::BlockStored { locality, .. } => locality,
            RawKvEvent::BlockRemoved { locality, .. } => locality,
            RawKvEvent::AllBlocksCleared { locality, .. } => locality,
            RawKvEvent::Ignored => None,
        }
    }

    /// The event is about blocks that the engine manages in its own caches.
    pub open spec fn is_local(self) -> bool {
        self.owned_by() == EventOwnership::Framework && self.located() != Some(Locality::Remote)
            && self.located() != Some(Locality::Unknown)
    }

    pub fn ownership(&self) -> (ownership: EventOwnership)
        ensures
            ownership == self.owned_by(),
    {
        match self {
            RawKvEvent::BlockStored { ownership, .. } => *ownership,
            RawKvEvent::BlockRemoved { ownership, .. } => *ownership,
            RawKvEvent::AllBlocksCleared { ownership, .. } => *ownership,
            RawKvEvent::Ignored => EventOwnership::Framework,
        }
    }

    pub fn locality(&self) -> (locality: Option<Locality>)
        ensures
            locality == self.located(),
    {
        match self {
            RawKvEvent::BlockStored { locality, .. } => *locality,
            RawKvEvent::BlockRemoved { locality, .. } => *locality,
            RawKvEvent::AllBlocksCleared { locality, .. } => *locality,
            RawKvEvent::Ignored => None,
        }
    }

    pub(crate) fn local(&self) -> (local: bool)
        ensures
            local == self.is_local(),
    {
        let locality = self.locality();
        self.ownership() == EventOwnership::Framework && locality != Some(Locality::Remote)
            && locality != Some(Locality::Unknown)
    }

    /// The cold epoch that a clear belongs to.
    pub open spec fn epoch(self) -> Option<Seq<char>> {
        match self {
            RawKvEvent::AllBlocksCleared { epoch_id: Some(epoch_id), .. } => Some(epoch_id@),
            _ => None,
        }
    }

    pub fn epoch_id<'a>(&'a self) -> (epoch_id: Option<&'a String>)
        ensures
            match epoch_id {
                Some(epoch_id) => self.epoch() == Some(epoch_id@),
                None => self.epoch() is None,
            },
    {
        match self {
            RawKvEvent::AllBlocksCleared { epoch_id: Some(epoch_id), .. } => Some(epoch_id),
            _ => None,
        }
    }
}

} // verus!
