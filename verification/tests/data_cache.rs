use lite_rpc_core::block_store::{BlockInformation, BlockStore, CommitmentLevel};
use lite_rpc_core::data_cache::{DataCache, SlotCache, SlotNotification};
use lite_rpc_core::identity_stakes::IdentityStakes;
use lite_rpc_core::transaction_sent_info::SentTransactionInfo;

#[test]
fn new_slot_cache_holds_the_slot_twice() {
    let cache = SlotCache::new(42);
    assert_eq!(cache.get_current_slot(), 42);
    assert_eq!(cache.get_estimated_slot(), 42);
    let empty = SlotCache::default();
    assert_eq!(empty.get_current_slot(), 0);
    assert_eq!(empty.get_estimated_slot(), 0);
}

#[test]
fn update_moves_on_to_the_notification() {
    let mut cache = SlotCache::new(42);
    cache.update(SlotNotification { processed_slot: 50, estimated_processed_slot: 53 });
    assert_eq!(cache.get_current_slot(), 50);
    assert_eq!(cache.get_estimated_slot(), 53);
    cache.update(SlotNotification { processed_slot: 52, estimated_processed_slot: 53 });
    assert_eq!(cache.get_current_slot(), 52);
    assert_eq!(cache.get_estimated_slot(), 53);
}

#[test]
fn stale_notification_lowers_nothing() {
    let mut cache = SlotCache::new(42);
    cache.update(SlotNotification { processed_slot: 50, estimated_processed_slot: 53 });
    cache.update(SlotNotification { processed_slot: 7, estimated_processed_slot: 3 });
    assert_eq!(cache.get_current_slot(), 50);
    assert_eq!(cache.get_estimated_slot(), 53);
    let mut cache = SlotCache::new(10);
    cache.update(SlotNotification { processed_slot: 7, estimated_processed_slot: 8 });
    assert_eq!(cache.get_current_slot(), 10);
    assert_eq!(cache.get_estimated_slot(), 10);
    cache.update(SlotNotification { processed_slot: 9, estimated_processed_slot: 12 });
    assert_eq!(cache.get_current_slot(), 10);
    assert_eq!(cache.get_estimated_slot(), 12);
    cache.update(SlotNotification { processed_slot: 11, estimated_processed_slot: 11 });
    assert_eq!(cache.get_current_slot(), 11);
    assert_eq!(cache.get_estimated_slot(), 12);
}

#[test]
fn estimate_is_never_left_behind_the_current_slot() {
    let mut cache = SlotCache::new(10);
    cache.update(SlotNotification { processed_slot: 60, estimated_processed_slot: 55 });
    assert_eq!(cache.get_current_slot(), 60);
    assert_eq!(cache.get_estimated_slot(), 60);
    let mut cache = SlotCache::default();
    let notifications = [(5u64, 9u64), (3, 20), (30, 1), (30, 30), (29, 62), (100, 0), (0, 0)];
    let mut before = (0u64, 0u64);
    for (processed_slot, estimated_processed_slot) in notifications {
        cache.update(SlotNotification { processed_slot, estimated_processed_slot });
        let after = (cache.get_current_slot(), cache.get_estimated_slot());
        assert!(after.0 >= before.0);
        assert!(after.1 >= before.1);
        assert!(after.1 >= after.0);
        before = after;
    }
    assert_eq!(before, (100, 100));
}

fn cache_with(store: BlockStore) -> DataCache {
    DataCache {
        block_store: store,
        slot_cache: SlotCache::new(9),
        identity_stakes: IdentityStakes::default(),
    }
}

#[test]
fn clean_sweeps_the_block_store_and_reports_the_finalized_height() {
    let mut store = BlockStore::new();
    store.add_block(String::from("old"), BlockInformation::new(1, 10), CommitmentLevel::Confirmed);
    store.add_block(String::from("kept"), BlockInformation::new(2, 1_500), CommitmentLevel::Confirmed);
    store.add_block(String::from("tip"), BlockInformation::new(3, 2_000), CommitmentLevel::Finalized);
    let mut cache = cache_with(store);
    assert_eq!(cache.clean(), Some(2_000));
    assert_eq!(cache.block_store.get_block_info(&String::from("old"), CommitmentLevel::Confirmed), None);
    assert_eq!(
        cache.block_store.get_block_info(&String::from("kept"), CommitmentLevel::Confirmed),
        Some(BlockInformation::new(2, 1_500))
    );
    assert_eq!(
        cache.block_store.get_latest_block_info(CommitmentLevel::Finalized),
        Some(BlockInformation::new(3, 2_000))
    );
    assert_eq!(cache.slot_cache.get_current_slot(), 9);
    assert_eq!(cache.identity_stakes, IdentityStakes::default());
}

#[test]
fn clean_without_a_finalized_block_reports_none() {
    let mut store = BlockStore::new();
    store.add_block(String::from("a"), BlockInformation::new(1, 10), CommitmentLevel::Processed);
    let mut cache = cache_with(store);
    assert_eq!(cache.clean(), None);
    assert_eq!(
        cache.block_store.get_block_info(&String::from("a"), CommitmentLevel::Processed),
        Some(BlockInformation::new(1, 10))
    );
}

#[test]
fn sent_transaction_info_compares_by_its_fields() {
    let sent = SentTransactionInfo {
        signature: String::from("sig"),
        slot: 4,
        transaction: vec![1, 2, 3],
        last_valid_block_height: 304,
        prioritization_fee: 17,
    };
    let mut later = sent.clone();
    assert_eq!(sent, later);
    later.slot = 5;
    assert_ne!(sent, later);
    assert!(sent < later);
}
