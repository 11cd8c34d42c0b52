use quest_server::eligibility::is_eligible;
use quest_server::felt::Felt;
use quest_server::ledger::{CompletionRecord, Ledger, StoreError};
use quest_server::quest::{DefinitionError, QuestConfig, QuestDefinition, RewardGrant};

fn alice() -> Felt {
    Felt::from_u64(0xa11ce)
}

fn bob() -> Felt {
    Felt::from_u64(0xb0b)
}

#[test]
fn new_ledger_is_empty_and_reachable() {
    let ledger = Ledger::new();
    assert_eq!(ledger.len(), 0);
    assert!(ledger.is_available());
    assert_eq!(ledger.has_completed(&alice(), 12), Ok(false));
    assert_eq!(ledger.completed_at(&alice(), 12), Ok(None));
}

#[test]
fn upsert_many_times_leaves_one_record() {
    let mut ledger = Ledger::new();
    for _ in 0..5 {
        assert_eq!(ledger.upsert(&alice(), 12), Ok(()));
        assert_eq!(ledger.has_completed(&alice(), 12), Ok(true));
        assert_eq!(ledger.len(), 1);
    }
}

#[test]
fn repeated_upsert_keeps_the_first_time() {
    let mut ledger = Ledger::new();
    assert_eq!(ledger.upsert_at(&alice(), 12, 1_700_000_000), Ok(()));
    assert_eq!(ledger.upsert_at(&alice(), 12, 1_800_000_000), Ok(()));
    assert_eq!(ledger.upsert(&alice(), 12), Ok(()));
    assert_eq!(ledger.completed_at(&alice(), 12), Ok(Some(1_700_000_000)));
    assert_eq!(ledger.len(), 1);
}

#[test]
fn either_order_of_two_writers_leaves_one_record() {
    let mut one_first = Ledger::new();
    one_first.upsert_at(&alice(), 12, 100).unwrap();
    one_first.upsert_at(&alice(), 12, 200).unwrap();
    let mut other_first = Ledger::new();
    other_first.upsert_at(&alice(), 12, 200).unwrap();
    other_first.upsert_at(&alice(), 12, 100).unwrap();
    assert_eq!(one_first.len(), 1);
    assert_eq!(other_first.len(), 1);
    assert_eq!(one_first.completed_at(&alice(), 12), Ok(Some(100)));
    assert_eq!(other_first.completed_at(&alice(), 12), Ok(Some(200)));
}

#[test]
fn records_are_kept_apart_by_address_and_task() {
    let mut ledger = Ledger::new();
    ledger.upsert_at(&alice(), 12, 1).unwrap();
    ledger.upsert_at(&alice(), 13, 2).unwrap();
    ledger.upsert_at(&bob(), 12, 3).unwrap();
    assert_eq!(ledger.len(), 3);
    assert_eq!(ledger.has_completed(&bob(), 13), Ok(false));
    assert_eq!(ledger.completed_at(&alice(), 13), Ok(Some(2)));
    assert_eq!(ledger.completed_at(&bob(), 12), Ok(Some(3)));
}

#[test]
fn exists_all_asks_for_every_task() {
    let mut ledger = Ledger::new();
    ledger.upsert(&alice(), 12).unwrap();
    ledger.upsert(&alice(), 13).unwrap();
    assert_eq!(ledger.exists_all(&alice(), &vec![12, 13]), Ok(true));
    assert_eq!(ledger.exists_all(&alice(), &vec![13, 12, 13]), Ok(true));
    assert_eq!(ledger.exists_all(&alice(), &vec![12, 13, 54]), Ok(false));
    assert_eq!(ledger.exists_all(&alice(), &vec![54, 12]), Ok(false));
    assert_eq!(ledger.exists_all(&alice(), &vec![]), Ok(true));
    assert_eq!(ledger.exists_all(&bob(), &vec![12]), Ok(false));
}

#[test]
fn unreachable_store_fails_and_changes_nothing() {
    let mut ledger = Ledger::new();
    ledger.upsert_at(&alice(), 12, 7).unwrap();
    ledger.set_available(false);
    assert!(!ledger.is_available());
    assert_eq!(ledger.upsert(&alice(), 13), Err(StoreError::Unavailable));
    assert_eq!(ledger.upsert_at(&alice(), 13, 8), Err(StoreError::Unavailable));
    assert_eq!(ledger.has_completed(&alice(), 12), Err(StoreError::Unavailable));
    assert_eq!(ledger.completed_at(&alice(), 12), Err(StoreError::Unavailable));
    assert_eq!(ledger.exists_all(&alice(), &vec![12]), Err(StoreError::Unavailable));
    assert_eq!(ledger.len(), 1);
    ledger.set_available(true);
    assert_eq!(ledger.has_completed(&alice(), 13), Ok(false));
    assert_eq!(ledger.completed_at(&alice(), 12), Ok(Some(7)));
}

#[test]
fn from_records_counts_the_first_of_a_key() {
    let records = vec![
        CompletionRecord { address: alice(), task_id: 12, timestamp: 10 },
        CompletionRecord { address: bob(), task_id: 12, timestamp: 20 },
        CompletionRecord { address: alice(), task_id: 12, timestamp: 30 },
    ];
    let ledger = Ledger::from_records(&records);
    assert_eq!(ledger.len(), 2);
    assert_eq!(ledger.completed_at(&alice(), 12), Ok(Some(10)));
    assert_eq!(ledger.completed_at(&bob(), 12), Ok(Some(20)));
}

#[test]
fn definition_without_tasks_is_refused() {
    let refused = QuestDefinition::new(3, vec![], vec![]);
    assert_eq!(refused.err(), Some(DefinitionError::NoRequiredTasks));
}

#[test]
fn definition_counts_each_task_once() {
    let definition = QuestDefinition::new(3, vec![12, 13, 12, 54, 13], vec![]).unwrap();
    assert_eq!(definition.get_id(), 3);
    assert_eq!(definition.required_tasks(), &vec![12, 13, 54]);
    assert!(definition.granted_rewards().is_empty());
}

#[test]
fn definition_keeps_its_rewards_in_order() {
    let contract = Felt::from_u64(0xc0);
    let rewards = vec![
        RewardGrant { task_id: 13, nft_contract: contract, level: 1 },
        RewardGrant { task_id: 54, nft_contract: contract, level: 6 },
    ];
    let definition = QuestDefinition::new(3, vec![12, 13, 54], rewards).unwrap();
    let kept = definition.granted_rewards();
    assert_eq!(kept.len(), 2);
    assert_eq!((kept[0].task_id, kept[0].level), (13, 1));
    assert_eq!((kept[1].task_id, kept[1].level), (54, 6));
    assert_eq!(kept[1].nft_contract, contract);
}

#[test]
fn config_finds_the_first_definition_with_an_id() {
    let first = QuestDefinition::new(3, vec![12], vec![]).unwrap();
    let second = QuestDefinition::new(4, vec![13], vec![]).unwrap();
    let shadowed = QuestDefinition::new(3, vec![54], vec![]).unwrap();
    let config = QuestConfig::new(Felt::from_u64(1), vec![first, second, shadowed]);
    assert_eq!(config.find(3).unwrap().required_tasks(), &vec![12]);
    assert_eq!(config.find(4).unwrap().required_tasks(), &vec![13]);
    assert!(config.find(5).is_none());
    assert_eq!(*config.signing_key(), Felt::from_u64(1));
}

#[test]
fn eligible_means_every_required_task() {
    let definition = QuestDefinition::new(3, vec![12, 13, 54, 12], vec![]).unwrap();
    let mut ledger = Ledger::new();
    assert_eq!(is_eligible(&ledger, &definition, &alice()), Ok(false));
    ledger.upsert(&alice(), 12).unwrap();
    ledger.upsert(&alice(), 13).unwrap();
    ledger.upsert(&bob(), 54).unwrap();
    assert_eq!(is_eligible(&ledger, &definition, &alice()), Ok(false));
    ledger.upsert(&alice(), 54).unwrap();
    assert_eq!(is_eligible(&ledger, &definition, &alice()), Ok(true));
    assert_eq!(is_eligible(&ledger, &definition, &bob()), Ok(false));
    assert_eq!(is_eligible(&ledger, &definition, &alice()), Ok(true));
    ledger.set_available(false);
    assert_eq!(is_eligible(&ledger, &definition, &alice()), Err(StoreError::Unavailable));
}

#[test]
fn entries_are_the_records_in_order() {
    let mut ledger = Ledger::new();
    ledger.upsert_at(&bob(), 13, 5).unwrap();
    ledger.upsert_at(&alice(), 12, 6).unwrap();
    ledger.upsert_at(&bob(), 13, 7).unwrap();
    let entries = ledger.entries();
    assert_eq!(entries.len(), 2);
    assert_eq!((entries[0].address, entries[0].task_id, entries[0].timestamp), (bob(), 13, 5));
    assert_eq!((entries[1].address, entries[1].task_id, entries[1].timestamp), (alice(), 12, 6));
    let restored = Ledger::from_records(entries);
    assert_eq!(restored.len(), 2);
    assert_eq!(restored.completed_at(&bob(), 13), Ok(Some(5)));
}
