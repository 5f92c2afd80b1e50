use lite_rpc_core::leader_schedule::{
    JsonRpcLeaderGetter, LeaderData, LeaderFetch, LeaderScheduleError,
};
use solana_sdk::pubkey::Pubkey;

fn key_of(slot: u64) -> Pubkey {
    let mut bytes = [0u8; 32];
    bytes[..8].copy_from_slice(&slot.to_le_bytes());
    Pubkey::new_from_array(bytes)
}

fn upstream(fetch: LeaderFetch) -> Vec<Pubkey> {
    (0..fetch.count).map(|i| key_of(fetch.first_slot + i)).collect()
}

fn refill(getter: &mut JsonRpcLeaderGetter, slot: u64) -> Option<LeaderFetch> {
    let fetch = getter.update_leader_schedule(slot);
    if let Some(fetch) = fetch {
        assert_eq!(getter.add_fetched_leaders(fetch, &upstream(fetch)), Ok(()));
    }
    fetch
}

fn slots(leaders: &[LeaderData]) -> Vec<u64> {
    leaders.iter().map(|leader| leader.leader_slot).collect()
}

fn held(getter: &JsonRpcLeaderGetter) -> Vec<u64> {
    let mut found = Vec::new();
    let mut from = 0u64;
    while from < 400 {
        let got = JsonRpcLeaderGetter::get_slot_leaders(getter, from, from + 1).unwrap();
        for leader in got {
            if found.last() != Some(&leader.leader_slot) {
                found.push(leader.leader_slot);
            }
        }
        from += 2;
    }
    found
}

#[test]
fn first_refill_fetches_the_window_ahead() {
    let mut getter = JsonRpcLeaderGetter::new(10, 5);
    let fetch = getter.update_leader_schedule(100);
    assert_eq!(fetch, Some(LeaderFetch { first_slot: 100, count: 10 }));
    assert_eq!(getter.add_fetched_leaders(fetch.unwrap(), &upstream(fetch.unwrap())), Ok(()));
    assert_eq!(held(&getter), (100..110).collect::<Vec<u64>>());
    let leaders = getter.get_slot_leaders(100, 109).unwrap();
    assert_eq!(leaders.len(), 10);
    assert_eq!(leaders[0].leader_slot, 100);
    assert_eq!(leaders[0].pubkey, key_of(100));
    assert_eq!(leaders[9].leader_slot, 109);
    assert_eq!(leaders[9].pubkey, key_of(109));
}

#[test]
fn second_refill_at_the_same_slot_fetches_nothing() {
    let mut getter = JsonRpcLeaderGetter::new(10, 5);
    assert!(refill(&mut getter, 100).is_some());
    let before = held(&getter);
    assert_eq!(getter.update_leader_schedule(100), None);
    assert_eq!(held(&getter), before);
    assert_eq!(refill(&mut getter, 100), None);
    assert_eq!(held(&getter), before);
}

#[test]
fn refill_fetches_only_what_is_missing() {
    let mut getter = JsonRpcLeaderGetter::new(10, 5);
    refill(&mut getter, 100);
    assert_eq!(refill(&mut getter, 103), Some(LeaderFetch { first_slot: 110, count: 3 }));
    assert_eq!(held(&getter), (100..113).collect::<Vec<u64>>());
    assert_eq!(refill(&mut getter, 101), None);
}

#[test]
fn refill_evicts_entries_older_than_the_margin() {
    let mut getter = JsonRpcLeaderGetter::new(10, 5);
    refill(&mut getter, 100);
    refill(&mut getter, 107);
    assert_eq!(held(&getter), (102..117).collect::<Vec<u64>>());
    refill(&mut getter, 105);
    assert_eq!(held(&getter), (102..117).collect::<Vec<u64>>());
}

#[test]
fn refill_far_ahead_starts_the_schedule_anew() {
    let mut getter = JsonRpcLeaderGetter::new(10, 5);
    refill(&mut getter, 100);
    assert_eq!(refill(&mut getter, 300), Some(LeaderFetch { first_slot: 300, count: 10 }));
    assert_eq!(held(&getter), (300..310).collect::<Vec<u64>>());
}

#[test]
fn refill_near_slot_zero_evicts_nothing() {
    let mut getter = JsonRpcLeaderGetter::new(4, 50);
    assert_eq!(refill(&mut getter, 0), Some(LeaderFetch { first_slot: 0, count: 4 }));
    assert_eq!(refill(&mut getter, 3), Some(LeaderFetch { first_slot: 4, count: 3 }));
    assert_eq!(held(&getter), (0..7).collect::<Vec<u64>>());
}

#[test]
fn no_retained_entry_is_older_than_the_margin() {
    let mut getter = JsonRpcLeaderGetter::new(7, 3);
    for slot in [10u64, 12, 11, 30, 29, 35, 36, 36, 90, 80] {
        refill(&mut getter, slot);
        let kept = held(&getter);
        assert!(kept.iter().all(|s| *s + 3 >= slot));
        assert!(kept.windows(2).all(|pair| pair[1] == pair[0] + 1));
    }
}

#[test]
fn schedule_without_lookahead_fetches_nothing() {
    let mut getter = JsonRpcLeaderGetter::new(0, 5);
    assert_eq!(getter.update_leader_schedule(100), None);
    assert_eq!(getter.update_leader_schedule(500), None);
    assert_eq!(getter.needs_refill(100, 101), Err(LeaderScheduleError::InvalidArguments));
}

#[test]
fn covered_range_is_returned_exactly() {
    let mut getter = JsonRpcLeaderGetter::new(10, 5);
    refill(&mut getter, 100);
    assert_eq!(getter.needs_refill(102, 106), Ok(false));
    let leaders = getter.get_slot_leaders(102, 106).unwrap();
    assert_eq!(slots(&leaders), vec![102, 103, 104, 105, 106]);
    for leader in &leaders {
        assert_eq!(leader.pubkey, key_of(leader.leader_slot));
    }
}

#[test]
fn lookup_after_a_miss_and_a_refill_is_exact() {
    let mut getter = JsonRpcLeaderGetter::new(10, 5);
    assert_eq!(getter.needs_refill(100, 109), Ok(true));
    refill(&mut getter, 100);
    assert_eq!(getter.needs_refill(100, 109), Ok(false));
    let leaders = getter.get_slot_leaders(100, 109).unwrap();
    assert_eq!(slots(&leaders), (100..110).collect::<Vec<u64>>());
}

#[test]
fn range_as_long_as_the_window_misses_its_last_slot() {
    let mut getter = JsonRpcLeaderGetter::new(10, 5);
    assert_eq!(getter.needs_refill(100, 110), Ok(true));
    refill(&mut getter, 100);
    let leaders = getter.get_slot_leaders(100, 110).unwrap();
    assert_eq!(slots(&leaders), (100..110).collect::<Vec<u64>>());
}

#[test]
fn schedule_ahead_of_the_range_yields_nothing() {
    let mut getter = JsonRpcLeaderGetter::new(10, 5);
    refill(&mut getter, 200);
    assert_eq!(getter.needs_refill(100, 105), Ok(true));
    assert_eq!(refill(&mut getter, 100), None);
    assert!(getter.get_slot_leaders(100, 105).unwrap().is_empty());
}

#[test]
fn refill_is_needed_where_the_schedule_does_not_cover() {
    let mut getter = JsonRpcLeaderGetter::new(10, 5);
    assert_eq!(getter.needs_refill(1, 2), Ok(true));
    refill(&mut getter, 100);
    assert_eq!(getter.needs_refill(99, 101), Ok(true));
    assert_eq!(getter.needs_refill(105, 110), Ok(true));
    assert_eq!(getter.needs_refill(100, 101), Ok(false));
    assert_eq!(getter.needs_refill(108, 109), Ok(false));
}

#[test]
fn invalid_ranges_are_refused() {
    let mut getter = JsonRpcLeaderGetter::new(10, 5);
    refill(&mut getter, 100);
    let before = held(&getter);
    for (from, to) in [(100u64, 100u64), (105, 100), (100, 111), (0, u64::MAX), (u64::MAX, 0)] {
        assert_eq!(
            getter.get_slot_leaders(from, to).err(),
            Some(LeaderScheduleError::InvalidArguments)
        );
        assert_eq!(getter.needs_refill(from, to), Err(LeaderScheduleError::InvalidArguments));
    }
    assert_eq!(held(&getter), before);
    assert!(getter.get_slot_leaders(100, 110).is_ok());
    assert!(getter.get_slot_leaders(100, 101).is_ok());
}

#[test]
fn short_answer_from_upstream_is_refused() {
    let mut getter = JsonRpcLeaderGetter::new(10, 5);
    let fetch = getter.update_leader_schedule(100).unwrap();
    let mut leaders = upstream(fetch);
    leaders.pop();
    assert_eq!(
        getter.add_fetched_leaders(fetch, &leaders),
        Err(LeaderScheduleError::MissingLeaders)
    );
    assert!(held(&getter).is_empty());
    assert_eq!(getter.update_leader_schedule(100), Some(fetch));
}

#[test]
fn long_answer_from_upstream_is_cut_to_the_request() {
    let mut getter = JsonRpcLeaderGetter::new(3, 5);
    let fetch = getter.update_leader_schedule(100).unwrap();
    let leaders = upstream(LeaderFetch { first_slot: 100, count: 8 });
    assert_eq!(getter.add_fetched_leaders(fetch, &leaders), Ok(()));
    assert_eq!(held(&getter), vec![100, 101, 102]);
}

#[test]
fn fetch_that_does_not_continue_the_schedule_is_refused() {
    let mut getter = JsonRpcLeaderGetter::new(10, 5);
    refill(&mut getter, 100);
    let before = held(&getter);
    for fetch in [
        LeaderFetch { first_slot: 111, count: 2 },
        LeaderFetch { first_slot: 109, count: 2 },
        LeaderFetch { first_slot: 100, count: 2 },
        LeaderFetch { first_slot: u64::MAX, count: 2 },
    ] {
        assert_eq!(
            getter.add_fetched_leaders(fetch, &upstream(LeaderFetch { first_slot: 0, count: 2 })),
            Err(LeaderScheduleError::UnexpectedFetch)
        );
        assert_eq!(held(&getter), before);
    }
    let next = LeaderFetch { first_slot: 110, count: 2 };
    assert_eq!(getter.add_fetched_leaders(next, &upstream(next)), Ok(()));
    assert_eq!(held(&getter), (100..112).collect::<Vec<u64>>());
}

#[test]
fn empty_fetch_changes_nothing() {
    let mut getter = JsonRpcLeaderGetter::new(10, 5);
    let nothing = LeaderFetch { first_slot: 7, count: 0 };
    assert_eq!(getter.add_fetched_leaders(nothing, &Vec::new()), Ok(()));
    assert!(held(&getter).is_empty());
}

#[test]
fn window_stops_at_the_end_of_the_slot_range() {
    let mut getter = JsonRpcLeaderGetter::new(10, 5);
    let fetch = getter.update_leader_schedule(u64::MAX - 3);
    assert_eq!(fetch, Some(LeaderFetch { first_slot: u64::MAX - 3, count: 3 }));
    assert_eq!(getter.add_fetched_leaders(fetch.unwrap(), &upstream(fetch.unwrap())), Ok(()));
    assert_eq!(getter.update_leader_schedule(u64::MAX - 3), None);
    assert_eq!(getter.update_leader_schedule(u64::MAX), None);
    let leaders = getter.get_slot_leaders(u64::MAX - 3, u64::MAX).unwrap();
    assert_eq!(slots(&leaders), vec![u64::MAX - 3, u64::MAX - 2, u64::MAX - 1]);
    let mut last = JsonRpcLeaderGetter::new(10, 5);
    assert_eq!(last.update_leader_schedule(u64::MAX), None);
}

#[test]
fn looked_up_leaders_are_the_cached_or_the_answered_ones() {
    let mut getter = JsonRpcLeaderGetter::new(10, 5);
    let first = getter.update_leader_schedule(100).unwrap();
    let cached: Vec<Pubkey> = (0..first.count).map(|i| key_of(1_000 + i)).collect();
    assert_eq!(getter.add_fetched_leaders(first, &cached), Ok(()));
    assert_eq!(getter.needs_refill(105, 112), Ok(true));
    let second = getter.update_leader_schedule(105).unwrap();
    assert_eq!(second, LeaderFetch { first_slot: 110, count: 5 });
    let answered: Vec<Pubkey> = (0..second.count).map(|i| key_of(2_000 + i)).collect();
    assert_eq!(getter.add_fetched_leaders(second, &answered), Ok(()));
    let leaders = getter.get_slot_leaders(105, 112).unwrap();
    assert_eq!(slots(&leaders), (105..113).collect::<Vec<u64>>());
    for leader in &leaders {
        let expected = if leader.leader_slot < 110 {
            key_of(1_000 + leader.leader_slot - 100)
        } else {
            key_of(2_000 + leader.leader_slot - 110)
        };
        assert_eq!(leader.pubkey, expected);
    }
}
