//! The stake of one identity among all validators.

use vstd::prelude::*;

verus! {

/// How a peer is treated when connections are ranked.
#[derive(Clone, Copy, Debug, PartialEq, Eq, Structural)]
pub enum ConnectionPeerType {
    Unstaked,
    Staked,
}

/// A snapshot of one identity's stake and of the stakes of all validators.
#[derive(Clone, Copy, Debug, PartialEq, Eq, Structural)]
pub struct IdentityStakes {
    pub peer_type: ConnectionPeerType,
    /// The identity's own stake.
    pub stakes: u64,
    /// The least stake of any validator.
    pub min_stakes: u64,
    /// The greatest stake of any validator.
    pub max_stakes: u64,
    /// The stakes of all validators together.
    pub total_stakes: u64,
}

impl IdentityStakes {
    /// The snapshot of an identity without stake: unstaked, all amounts zero.
    pub open spec fn unstaked() -> IdentityStakes {
        IdentityStakes {
            peer_type: ConnectionPeerType::Unstaked,
            stakes: 0,
            min_stakes: 0,
            max_stakes: 0,
            total_stakes: 0,
        }
    }
}

impl Default for IdentityStakes {
    fn default() -> (stakes: IdentityStakes)
        ensures
            stakes == IdentityStakes::unstaked(),
    {
        IdentityStakes {
            peer_type: ConnectionPeerType::Unstaked,
            stakes: 0,
            min_stakes: 0,
            max_stakes: 0,
            total_stakes: 0,
        }
    }
}

/// One validator of the current vote-account set.
pub struct VoteAccount {
    /// The validator's identity, as text.
    pub node_pubkey: String,
    /// The stake delegated to it that is active.
    pub activated_stake: u64,
}

/// The stake filed for `identity`: that of the last account that names it.
pub open spec fn stake_of(accounts: Seq<VoteAccount>, identity: Seq<char>) -> Option<u64>
    decreases accounts.len(),
{
    if accounts.len() == 0 {
        None
    } else if accounts.last().node_pubkey@ == identity {
        Some(accounts.last().activated_stake)
    } else {
        stake_of(accounts.drop_last(), identity)
    }
}

/// The least stake of any account, zero where there is none.
pub open spec fn min_stake(accounts: Seq<VoteAccount>) -> u64
    decreases accounts.len(),
{
    if accounts.len() == 0 {
        0
    } else if accounts.len() == 1 {
        accounts.last().activated_stake
    } else if accounts.last().activated_stake < min_stake(accounts.drop_last()) {
        accounts.last().activated_stake
    } else {
        min_stake(accounts.drop_last())
    }
}

/// The greatest stake of any account, zero where there is none.
pub open spec fn max_stake(accounts: Seq<VoteAccount>) -> u64
    decreases accounts.len(),
{
    if accounts.len() == 0 {
        0
    } else if accounts.last().activated_stake > max_stake(accounts.drop_last()) {
        accounts.last().activated_stake
    } else {
        max_stake(accounts.drop_last())
    }
}

/// The stakes of all accounts together.
pub open spec fn total_stake(accounts: Seq<VoteAccount>) -> nat
    decreases accounts.len(),
{
    if accounts.len() == 0 {
        0
    } else {
        total_stake(accounts.drop_last()) + accounts.last().activated_stake as nat
    }
}

/// Whether an account names `identity` with a stake above zero.
pub open spec fn is_staked(accounts: Seq<VoteAccount>, identity: Seq<char>) -> bool {
    stake_of(accounts, identity) matches Some(own) && own > 0
}

/// The snapshot for `identity` over the given accounts: staked, with its own
/// stake and the least, greatest and total stake of all accounts, where an
/// account names it with a stake above zero; else the unstaked default.
pub open spec fn identity_stakes_of(
    accounts: Seq<VoteAccount>,
    identity: Seq<char>,
) -> IdentityStakes
    recommends
        is_staked(accounts, identity) ==> total_stake(accounts) <= u64::MAX,
{
    if is_staked(accounts, identity) {
        IdentityStakes {
            peer_type: ConnectionPeerType::Staked,
            stakes: stake_of(accounts, identity)->0,
            min_stakes: min_stake(accounts),
            max_stakes: max_stake(accounts),
            total_stakes: total_stake(accounts) as u64,
        }
    } else {
        IdentityStakes::unstaked()
    }
}

/// The least stake is a lower bound of all stakes and is the stake of some
/// account.
pub proof fn lemma_min_stake(accounts: Seq<VoteAccount>)
    requires
        accounts.len() > 0,
    ensures
        forall|i: int|
            0 <= i < accounts.len() ==> min_stake(accounts) <= (
            #[trigger] accounts[i]).activated_stake,
        exists|i: int|
            0 <= i < accounts.len() && min_stake(accounts) == (
            #[trigger] accounts[i]).activated_stake,
    decreases accounts.len(),
{
    let n = accounts.len() - 1;
    if accounts.len() == 1 {
        assert(min_stake(accounts) == accounts[0].activated_stake);
    } else {
        let rest = accounts.drop_last();
        lemma_min_stake(rest);
        let w = choose|i: int|
            0 <= i < rest.len() && min_stake(rest) == (#[trigger] rest[i]).activated_stake;
        assert(rest[w] == accounts[w]);
        assert forall|i: int| 0 <= i < accounts.len() implies min_stake(accounts) <= (
        #[trigger] accounts[i]).activated_stake by {
            if i < n {
                assert(rest[i] == accounts[i]);
            }
        }
        if accounts.last().activated_stake < min_stake(rest) {
            assert(min_stake(accounts) == accounts[n].activated_stake);
        } else {
            assert(min_stake(accounts) == accounts[w].activated_stake);
        }
    }
}

/// The greatest stake is an upper bound of all stakes and is the stake of
/// some account.
pub proof fn lemma_max_stake(accounts: Seq<VoteAccount>)
    requires
        accounts.len() > 0,
    ensures
        forall|i: int|
            0 <= i < accounts.len() ==> max_stake(accounts) >= (
            #[trigger] accounts[i]).activated_stake,
        exists|i: int|
            0 <= i < accounts.len() && max_stake(accounts) == (
            #[trigger] accounts[i]).activated_stake,
    decreases accounts.len(),
{
    let n = accounts.len() - 1;
    let rest = accounts.drop_last();
    if accounts.len() == 1 {
        assert(max_stake(rest) == 0);
        assert(max_stake(accounts) == accounts[0].activated_stake);
    } else {
        lemma_max_stake(rest);
        let w = choose|i: int|
            0 <= i < rest.len() && max_stake(rest) == (#[trigger] rest[i]).activated_stake;
        assert(rest[w] == accounts[w]);
        assert forall|i: int| 0 <= i < accounts.len() implies max_stake(accounts) >= (
        #[trigger] accounts[i]).activated_stake by {
            if i < n {
                assert(rest[i] == accounts[i]);
            }
        }
        if accounts.last().activated_stake > max_stake(rest) {
            assert(max_stake(accounts) == accounts[n].activated_stake);
        } else {
            assert(max_stake(accounts) == accounts[w].activated_stake);
        }
    }
}

/// The total of a prefix of the accounts is at most the total of all.
pub proof fn lemma_total_stake_of_prefix(accounts: Seq<VoteAccount>, n: int)
    requires
        0 <= n <= accounts.len(),
    ensures
        total_stake(accounts.take(n)) <= total_stake(accounts),
    decreases accounts.len() - n,
{
    if n < accounts.len() {
        assert(accounts.take(n + 1).drop_last() =~= accounts.take(n));
        lemma_total_stake_of_prefix(accounts, n + 1);
    } else {
        assert(accounts.take(n) =~= accounts);
    }
}

} // verus!
