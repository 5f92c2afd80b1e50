//! The caches of the node, held together.

use vstd::prelude::*;

use crate::block_store::{none_behind, retained, BlockStore, CommitmentLevel};
use crate::identity_stakes::IdentityStakes;
use crate::Slot;

verus! {

/// The processed slot and its estimate, as announced whenever either changes.
#[derive(Clone, Copy, Debug, PartialEq, Eq, Structural)]
pub struct SlotNotification {
    pub processed_slot: Slot,
    pub estimated_processed_slot: Slot,
}

/// The later of two slots.
pub open spec fn later_slot(a: Slot, b: Slot) -> Slot {
    if a >= b {
        a
    } else {
        b
    }
}

/// The current slot and the estimated slot. Neither ever decreases, and the
/// estimate is never behind the current slot.
#[derive(Clone, Copy, Debug, PartialEq, Eq, Structural)]
pub struct SlotCache {
    current_slot: Slot,
    estimated_slot: Slot,
}

impl SlotCache {
    /// The best slot known from upstream.
    pub closed spec fn current_slot(&self) -> Slot {
        self.current_slot
    }

    /// The slot the cluster is estimated to have reached.
    pub closed spec fn estimated_slot(&self) -> Slot {
        self.estimated_slot
    }

    /// The estimate is not behind the current slot.
    pub open spec fn wf(&self) -> bool {
        self.estimated_slot() >= self.current_slot()
    }

    /// A cache whose current and estimated slot are both `slot`.
    pub fn new(slot: Slot) -> (cache: SlotCache)
        ensures
            cache.wf(),
            cache.current_slot() == slot,
            cache.estimated_slot() == slot,
    {
        SlotCache { current_slot: slot, estimated_slot: slot }
    }

    pub fn get_current_slot(&self) -> (slot: Slot)
        ensures
            slot == self.current_slot(),
    {
        self.current_slot
    }

    pub fn get_estimated_slot(&self) -> (slot: Slot)
        ensures
            slot == self.estimated_slot(),
    {
        self.estimated_slot
    }

    /// Moves the cache on to a notification. Each slot becomes the later of
    /// what the cache holds and what the notification brings, so a stale
    /// notification lowers nothing; an estimate that would be left behind the
    /// current slot is moved up to it.
    pub fn update(&mut self, slot_notification: SlotNotification)
        requires
            old(self).wf(),
        ensures
            final(self).wf(),
            final(self).current_slot() == later_slot(
                old(self).current_slot(),
                slot_notification.processed_slot,
            ),
            final(self).estimated_slot() == later_slot(
                later_slot(old(self).estimated_slot(), slot_notification.estimated_processed_slot),
                final(self).current_slot(),
            ),
            slot_notification.estimated_processed_slot >= slot_notification.processed_slot
                ==> final(self).estimated_slot() == later_slot(
                old(self).estimated_slot(),
                slot_notification.estimated_processed_slot,
            ),
    {
        if slot_notification.processed_slot > self.current_slot {
            self.current_slot = slot_notification.processed_slot;
        }
        if slot_notification.estimated_processed_slot > self.estimated_slot {
            self.estimated_slot = slot_notification.estimated_processed_slot;
        }
        if self.estimated_slot < self.current_slot {
            self.estimated_slot = self.current_slot;
        }
    }
}

impl Default for SlotCache {
    fn default() -> (cache: SlotCache)
        ensures
            cache.wf(),
            cache.current_slot() == 0,
            cache.estimated_slot() == 0,
    {
        SlotCache { current_slot: 0, estimated_slot: 0 }
    }
}

/// The central store for all data from the cluster.
pub struct DataCache {
    pub block_store: BlockStore,
    pub slot_cache: SlotCache,
    pub identity_stakes: IdentityStakes,
}

impl DataCache {
    /// The one periodic sweep: evicts from the block store every record whose
    /// cleanup height lies below the latest finalized height, and returns
    /// that height, below which transaction records are to be evicted as
    /// well. Where no finalized block is known, nothing is evicted.
    pub fn clean(&mut self) -> (finalized_height: Option<u64>)
        requires
            old(self).block_store.wf(),
        ensures
            final(self).block_store.wf(),
            final(self).slot_cache == old(self).slot_cache,
            final(self).identity_stakes == old(self).identity_stakes,
            forall|c: CommitmentLevel|
                final(self).block_store.latest(c) == old(self).block_store.latest(c),
            match old(self).block_store.latest(CommitmentLevel::Finalized) {
                Some(finalized) => {
                    &&& finalized_height == Some(finalized.block_height)
                    &&& final(self).block_store.blocks() == retained(
                        old(self).block_store.blocks(),
                        finalized.block_height,
                    )
                    &&& none_behind(final(self).block_store.blocks(), finalized.block_height)
                },
                None => {
                    &&& finalized_height is None
                    &&& final(self).block_store.blocks() == old(self).block_store.blocks()
                },
            },
    {
        let finalized = self.block_store.get_latest_block_info(CommitmentLevel::Finalized);
        self.block_store.clean();
        match finalized {
            Some(info) => Some(info.block_height),
            None => None,
        }
    }
}

} // verus!
