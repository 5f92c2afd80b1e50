use lite_rpc_core::identity_stakes::{ConnectionPeerType, IdentityStakes, VoteAccount};
use lite_rpc_core::solana_utils::{
    SlotUpdate, SolanaUtils, AVERAGE_SLOT_CHANGE_TIME_IN_MILLIS, MAX_ESTIMATED_SLOT_LEAD,
    SLOT_POLL_INTERVAL_IN_MILLIS,
};

fn account(node: &str, stake: u64) -> VoteAccount {
    VoteAccount { node_pubkey: String::from(node), activated_stake: stake }
}

fn unstaked() -> IdentityStakes {
    IdentityStakes {
        peer_type: ConnectionPeerType::Unstaked,
        stakes: 0,
        min_stakes: 0,
        max_stakes: 0,
        total_stakes: 0,
    }
}

#[test]
fn timings_are_those_of_the_cluster() {
    assert_eq!(AVERAGE_SLOT_CHANGE_TIME_IN_MILLIS, 400);
    assert_eq!(SLOT_POLL_INTERVAL_IN_MILLIS, 50);
    assert_eq!(MAX_ESTIMATED_SLOT_LEAD, 32);
}

#[test]
fn newer_slot_advances_both_slots() {
    assert_eq!(SolanaUtils::slot_estimator(SlotUpdate::Received(15), 10, 12), (15, 15));
}

#[test]
fn newer_slot_behind_the_estimate_advances_the_current_slot_only() {
    assert_eq!(SolanaUtils::slot_estimator(SlotUpdate::Received(15), 10, 20), (15, 20));
    assert_eq!(SolanaUtils::slot_estimator(SlotUpdate::Received(20), 10, 20), (20, 20));
}

#[test]
fn stale_slot_changes_nothing() {
    assert_eq!(SolanaUtils::slot_estimator(SlotUpdate::Received(10), 10, 12), (10, 12));
    assert_eq!(SolanaUtils::slot_estimator(SlotUpdate::Received(3), 10, 12), (10, 12));
    assert_eq!(SolanaUtils::slot_estimator(SlotUpdate::Received(3), 10, 5), (10, 5));
}

#[test]
fn closed_channel_changes_nothing() {
    assert_eq!(SolanaUtils::slot_estimator(SlotUpdate::Closed, 10, 12), (10, 12));
    assert_eq!(SolanaUtils::slot_estimator(SlotUpdate::Closed, 10, 42), (10, 42));
}

#[test]
fn timeout_moves_the_estimate_on_by_one() {
    assert_eq!(SolanaUtils::slot_estimator(SlotUpdate::TimedOut, 10, 10), (10, 11));
    assert_eq!(SolanaUtils::slot_estimator(SlotUpdate::TimedOut, 10, 41), (10, 42));
    assert_eq!(SolanaUtils::slot_estimator(SlotUpdate::TimedOut, 10, 4), (10, 5));
}

#[test]
fn estimate_stops_thirty_two_slots_ahead() {
    assert_eq!(SolanaUtils::slot_estimator(SlotUpdate::TimedOut, 10, 42), (10, 42));
    assert_eq!(SolanaUtils::slot_estimator(SlotUpdate::TimedOut, 10, 50), (10, 50));
    let mut slots = (100u64, 100u64);
    for _ in 0..100 {
        slots = SolanaUtils::slot_estimator(SlotUpdate::TimedOut, slots.0, slots.1);
    }
    assert_eq!(slots, (100, 132));
}

#[test]
fn estimate_stops_at_the_end_of_the_slot_range() {
    assert_eq!(
        SolanaUtils::slot_estimator(SlotUpdate::TimedOut, u64::MAX - 3, u64::MAX - 1),
        (u64::MAX - 3, u64::MAX)
    );
    assert_eq!(
        SolanaUtils::slot_estimator(SlotUpdate::TimedOut, u64::MAX - 3, u64::MAX),
        (u64::MAX - 3, u64::MAX)
    );
    assert_eq!(
        SolanaUtils::slot_estimator(SlotUpdate::Received(u64::MAX), u64::MAX - 3, u64::MAX - 1),
        (u64::MAX, u64::MAX)
    );
}

#[test]
fn estimate_stays_between_the_current_slot_and_its_lead() {
    let updates = [
        SlotUpdate::TimedOut,
        SlotUpdate::Received(7),
        SlotUpdate::TimedOut,
        SlotUpdate::TimedOut,
        SlotUpdate::Closed,
        SlotUpdate::Received(5),
        SlotUpdate::Received(8),
        SlotUpdate::Received(200),
        SlotUpdate::TimedOut,
    ];
    let mut slots = (0u64, 0u64);
    for round in 0..40 {
        let update = updates[round % updates.len()];
        let next = SolanaUtils::slot_estimator(update, slots.0, slots.1);
        assert!(next.0 >= slots.0);
        assert!(next.1 >= slots.1);
        assert!(next.1 >= next.0);
        assert!(next.1 <= next.0 + 32);
        slots = next;
    }
    assert_eq!(slots.0, 200);
}

#[test]
fn staked_identity_is_ranked_among_all_stakes() {
    let accounts = vec![account("low", 100), account("me", 500), account("high", 900)];
    assert_eq!(
        SolanaUtils::get_stakes_for_identity(&accounts, &String::from("me")),
        IdentityStakes {
            peer_type: ConnectionPeerType::Staked,
            stakes: 500,
            min_stakes: 100,
            max_stakes: 900,
            total_stakes: 1_500,
        }
    );
}

#[test]
fn absent_identity_is_unstaked() {
    let accounts = vec![account("low", 100), account("me", 500), account("high", 900)];
    assert_eq!(SolanaUtils::get_stakes_for_identity(&accounts, &String::from("you")), unstaked());
    assert_eq!(SolanaUtils::get_stakes_for_identity(&Vec::new(), &String::from("me")), unstaked());
    assert_eq!(IdentityStakes::default(), unstaked());
}

#[test]
fn identity_without_stake_is_unstaked() {
    let accounts = vec![account("low", 100), account("me", 0), account("high", 900)];
    assert_eq!(SolanaUtils::get_stakes_for_identity(&accounts, &String::from("me")), unstaked());
}

#[test]
fn identity_that_is_the_only_validator() {
    let accounts = vec![account("me", 7)];
    assert_eq!(
        SolanaUtils::get_stakes_for_identity(&accounts, &String::from("me")),
        IdentityStakes {
            peer_type: ConnectionPeerType::Staked,
            stakes: 7,
            min_stakes: 7,
            max_stakes: 7,
            total_stakes: 7,
        }
    );
}

#[test]
fn last_account_of_an_identity_counts() {
    let accounts = vec![account("me", 5), account("other", 0), account("me", 30), account("x", 2)];
    assert_eq!(
        SolanaUtils::get_stakes_for_identity(&accounts, &String::from("me")),
        IdentityStakes {
            peer_type: ConnectionPeerType::Staked,
            stakes: 30,
            min_stakes: 0,
            max_stakes: 30,
            total_stakes: 37,
        }
    );
    let fading = vec![account("me", 5), account("me", 0)];
    assert_eq!(SolanaUtils::get_stakes_for_identity(&fading, &String::from("me")), unstaked());
}

#[test]
fn checked_ranking_agrees_where_the_total_fits() {
    let accounts = vec![account("low", 100), account("me", 500), account("high", 900)];
    for identity in ["me", "low", "high", "you"] {
        let identity = String::from(identity);
        assert_eq!(
            SolanaUtils::checked_stakes_for_identity(&accounts, &identity),
            Some(SolanaUtils::get_stakes_for_identity(&accounts, &identity))
        );
    }
    let full = vec![account("a", u64::MAX - 1), account("me", 1)];
    assert_eq!(
        SolanaUtils::checked_stakes_for_identity(&full, &String::from("me")),
        Some(IdentityStakes {
            peer_type: ConnectionPeerType::Staked,
            stakes: 1,
            min_stakes: 1,
            max_stakes: u64::MAX - 1,
            total_stakes: u64::MAX,
        })
    );
}

#[test]
fn checked_ranking_is_none_where_the_total_overflows() {
    let accounts = vec![account("a", u64::MAX), account("me", 1), account("idle", 0)];
    assert_eq!(SolanaUtils::checked_stakes_for_identity(&accounts, &String::from("me")), None);
    assert_eq!(SolanaUtils::checked_stakes_for_identity(&accounts, &String::from("a")), None);
    assert_eq!(
        SolanaUtils::checked_stakes_for_identity(&accounts, &String::from("idle")),
        Some(unstaked())
    );
    assert_eq!(
        SolanaUtils::checked_stakes_for_identity(&accounts, &String::from("you")),
        Some(unstaked())
    );
    assert_eq!(SolanaUtils::get_stakes_for_identity(&accounts, &String::from("you")), unstaked());
}
