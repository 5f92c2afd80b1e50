//! Slot estimation and stake ranking over values polled from upstream.

use vstd::prelude::*;

use crate::identity_stakes::{
    identity_stakes_of, is_staked, lemma_total_stake_of_prefix, max_stake, min_stake, stake_of,
    total_stake,
    ConnectionPeerType, IdentityStakes, VoteAccount,
};
use crate::Slot;

verus! {

/// How long one slot lasts on average, in milliseconds: the wait after which
/// the estimate moves on without news from upstream.
pub const AVERAGE_SLOT_CHANGE_TIME_IN_MILLIS: u64 = 400;

/// How often upstream is asked for its slot, in milliseconds.
pub const SLOT_POLL_INTERVAL_IN_MILLIS: u64 = 50;

/// How far the estimated slot may run ahead of the current slot.
pub const MAX_ESTIMATED_SLOT_LEAD: u64 = 32;

/// What one bounded wait for a slot from upstream ended with.
#[derive(Clone, Copy, Debug, PartialEq, Eq, Structural)]
pub enum SlotUpdate {
    /// Upstream reported this slot.
    Received(Slot),
    /// The channel from the poller is closed.
    Closed,
    /// Nothing arrived in time.
    TimedOut,
}

/// The current and the estimated slot after one wait.
///
/// A slot beyond the current one becomes the current slot, and the estimated
/// slot too if it was behind. A closed channel changes nothing. A timeout
/// moves the estimate on by one, unless it already leads the current slot by
/// [`MAX_ESTIMATED_SLOT_LEAD`] or has reached the end of the slot range.
pub open spec fn estimate_after(
    update: SlotUpdate,
    current_slot: Slot,
    estimated_slot: Slot,
) -> (Slot, Slot) {
    match update {
        SlotUpdate::Received(slot) => if slot > current_slot {
            (
                slot,
                if slot > estimated_slot {
                    slot
                } else {
                    estimated_slot
                },
            )
        } else {
            (current_slot, estimated_slot)
        },
        SlotUpdate::Closed => (current_slot, estimated_slot),
        SlotUpdate::TimedOut => if estimated_slot < current_slot + MAX_ESTIMATED_SLOT_LEAD
            && estimated_slot < u64::MAX {
            (current_slot, (estimated_slot + 1) as u64)
        } else {
            (current_slot, estimated_slot)
        },
    }
}

/// Functions over what was polled from upstream.
pub struct SolanaUtils;

impl SolanaUtils {
    /// Advances the current and the estimated slot by the outcome of one wait.
    ///
    /// Neither slot ever decreases. An estimate that leads the current slot by
    /// at most [`MAX_ESTIMATED_SLOT_LEAD`] still does so afterwards, and an
    /// estimate that is not behind the current slot is not behind it
    /// afterwards.
    pub fn slot_estimator(
        update: SlotUpdate,
        current_slot: Slot,
        estimated_slot: Slot,
    ) -> (slots: (Slot, Slot))
        ensures
            slots == estimate_after(update, current_slot, estimated_slot),
            slots.0 >= current_slot,
            slots.1 >= estimated_slot,
            estimated_slot <= current_slot + MAX_ESTIMATED_SLOT_LEAD ==> slots.1 <= slots.0
                + MAX_ESTIMATED_SLOT_LEAD,
            estimated_slot >= current_slot ==> slots.1 >= slots.0,
            slots.0 > current_slot ==> slots.1 >= slots.0,
    {
        let mut current_slot = current_slot;
        let mut estimated_slot = estimated_slot;
        match update {
            SlotUpdate::Received(slot) => {
                if slot > current_slot {
                    current_slot = slot;
                    if current_slot > estimated_slot {
                        estimated_slot = current_slot;
                    }
                }
            },
            SlotUpdate::Closed => {},
            SlotUpdate::TimedOut => {
                let within_lead = estimated_slot < current_slot || estimated_slot - current_slot
                    < MAX_ESTIMATED_SLOT_LEAD;
                if within_lead && estimated_slot < u64::MAX {
                    estimated_slot += 1;
                }
            },
        }
        (current_slot, estimated_slot)
    }

    /// Ranks `identity` against the current vote-account set.
    ///
    /// Where an account names the identity with a stake above zero, the
    /// result is staked and carries that stake with the least, the greatest
    /// and the total stake of all accounts; otherwise it is the unstaked
    /// default. Of several accounts that name the identity the last counts.
    pub fn get_stakes_for_identity(
        vote_accounts: &Vec<VoteAccount>,
        identity: &String,
    ) -> (stakes: IdentityStakes)
        requires
            is_staked(vote_accounts@, identity@) ==> total_stake(vote_accounts@) <= u64::MAX,
        ensures
            stakes == identity_stakes_of(vote_accounts@, identity@),
    {
        let ghost accounts = vote_accounts@;
        let own = Self::stake_of_identity(vote_accounts, identity);
        let own = match own {
            Some(own) => own,
            None => { return IdentityStakes::default(); },
        };
        if own == 0 {
            return IdentityStakes::default();
        }
        let mut min_stakes: u64 = 0;
        let mut max_stakes: u64 = 0;
        let mut total_stakes: u64 = 0;
        let mut i: usize = 0;
        while i < vote_accounts.len()
            invariant
                i <= vote_accounts@.len(),
                accounts == vote_accounts@,
                total_stake(accounts) <= u64::MAX,
                min_stakes == min_stake(accounts.take(i as int)),
                max_stakes == max_stake(accounts.take(i as int)),
                total_stakes == total_stake(accounts.take(i as int)),
            decreases vote_accounts@.len() - i,
        {
            proof {
                assert(accounts.take(i + 1).drop_last() =~= accounts.take(i as int));
                lemma_total_stake_of_prefix(accounts, i + 1);
            }
            let stake = vote_accounts[i].activated_stake;
            if i == 0 || stake < min_stakes {
                min_stakes = stake;
            }
            if stake > max_stakes {
                max_stakes = stake;
            }
            total_stakes = total_stakes + stake;
            i += 1;
        }
        assert(accounts.take(i as int) =~= accounts);
        IdentityStakes {
            peer_type: ConnectionPeerType::Staked,
            stakes: own,
            min_stakes,
            max_stakes,
            total_stakes,
        }
    }

    /// The stake filed for `identity`, where an account names it.
    fn stake_of_identity(vote_accounts: &Vec<VoteAccount>, identity: &String) -> (own: Option<u64>)
        ensures
            own == stake_of(vote_accounts@, identity@),
    {
        let mut own: Option<u64> = None;
        let mut i: usize = 0;
        while i < vote_accounts.len()
            invariant
                i <= vote_accounts@.len(),
                own == stake_of(vote_accounts@.take(i as int), identity@),
            decreases vote_accounts@.len() - i,
        {
            proof {
                assert(vote_accounts@.take(i + 1).drop_last() =~= vote_accounts@.take(i as int));
            }
            if vote_accounts[i].node_pubkey == *identity {
                own = Some(vote_accounts[i].activated_stake);
            }
            i += 1;
        }
        assert(vote_accounts@.take(i as int) =~= vote_accounts@);
        own
    }

    /// The stakes of all accounts together, or `None` where they exceed what
    /// sixty-four bits hold.
    fn total_stakes(vote_accounts: &Vec<VoteAccount>) -> (total: Option<u64>)
        ensures
            match total {
                Some(t) => t == total_stake(vote_accounts@),
                None => total_stake(vote_accounts@) > u64::MAX,
            },
    {
        let mut total: u64 = 0;
        let mut i: usize = 0;
        while i < vote_accounts.len()
            invariant
                i <= vote_accounts@.len(),
                total == total_stake(vote_accounts@.take(i as int)),
            decreases vote_accounts@.len() - i,
        {
            proof {
                assert(vote_accounts@.take(i + 1).drop_last() =~= vote_accounts@.take(i as int));
            }
            match total.checked_add(vote_accounts[i].activated_stake) {
                Some(sum) => {
                    total = sum;
                },
                None => {
                    proof {
                        lemma_total_stake_of_prefix(vote_accounts@, i + 1);
                    }
                    return None;
                },
            }
            i += 1;
        }
        assert(vote_accounts@.take(i as int) =~= vote_accounts@);
        Some(total)
    }

    /// Ranks `identity` against the current vote-account set, as
    /// [`SolanaUtils::get_stakes_for_identity`] does, for any set of accounts:
    /// the result is `None` where the identity is staked and the stakes of
    /// all accounts together exceed what sixty-four bits hold.
    pub fn checked_stakes_for_identity(
        vote_accounts: &Vec<VoteAccount>,
        identity: &String,
    ) -> (stakes: Option<IdentityStakes>)
        ensures
            stakes == if is_staked(vote_accounts@, identity@) && total_stake(vote_accounts@)
                > u64::MAX {
                None
            } else {
                Some(identity_stakes_of(vote_accounts@, identity@))
            },
    {
        let staked = match Self::stake_of_identity(vote_accounts, identity) {
            Some(own) => own > 0,
            None => false,
        };
        if staked && Self::total_stakes(vote_accounts).is_none() {
            None
        } else {
            Some(Self::get_stakes_for_identity(vote_accounts, identity))
        }
    }
}

} // verus!
