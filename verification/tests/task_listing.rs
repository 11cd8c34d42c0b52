use quest_server::felt::Felt;
use quest_server::ledger::Ledger;
use quest_server::quest::{QuestConfig, QuestDefinition};
use quest_server::tasks::{user_tasks, TaskDocument, TasksError, UserTask};

fn task(id: u32, name: &str) -> TaskDocument {
    TaskDocument {
        id,
        name: name.to_string(),
        href: format!("https://example.org/{}", id),
        cta: "Go".to_string(),
        verify_endpoint: format!("quests/verify_{}", id),
        verify_endpoint_type: "default".to_string(),
        verify_redirect: if id % 2 == 0 { Some("https://example.org/back".to_string()) } else { None },
        desc: format!("task {}", id),
    }
}

fn config() -> QuestConfig {
    let quest = QuestDefinition::new(3, vec![12, 13, 54], vec![]).unwrap();
    let lonely = QuestDefinition::new(9, vec![99], vec![]).unwrap();
    QuestConfig::new(Felt::from_u64(1), vec![quest, lonely])
}

fn alice() -> Felt {
    Felt::from_u64(0xa11ce)
}

fn summary(tasks: &Vec<UserTask>) -> Vec<(u32, String, bool)> {
    tasks.iter().map(|t| (t.id, t.name.clone(), t.completed)).collect()
}

#[test]
fn tasks_are_listed_by_id_with_their_marks() {
    let mut ledger = Ledger::new();
    ledger.upsert(&alice(), 13).unwrap();
    ledger.upsert(&Felt::from_u64(0xb0b), 12).unwrap();
    let described = vec![task(54, "swap"), task(7, "other quest"), task(12, "follow"), task(13, "mint")];
    let listed = user_tasks(&config(), &ledger, described, 3, &alice()).unwrap();
    assert_eq!(
        summary(&listed),
        vec![
            (12, "follow".to_string(), false),
            (13, "mint".to_string(), true),
            (54, "swap".to_string(), false),
        ]
    );
}

#[test]
fn listed_task_carries_its_description() {
    let ledger = Ledger::new();
    let listed = user_tasks(&config(), &ledger, vec![task(12, "follow")], 3, &alice()).unwrap();
    assert_eq!(listed.len(), 1);
    let shown = &listed[0];
    assert_eq!(shown.href, "https://example.org/12");
    assert_eq!(shown.cta, "Go");
    assert_eq!(shown.verify_endpoint, "quests/verify_12");
    assert_eq!(shown.verify_endpoint_type, "default");
    assert_eq!(shown.verify_redirect, Some("https://example.org/back".to_string()));
    assert_eq!(shown.desc, "task 12");
    assert!(!shown.completed);
}

#[test]
fn tasks_with_one_id_keep_their_order() {
    let ledger = Ledger::new();
    let described = vec![task(13, "b"), task(12, "first"), task(13, "a"), task(12, "second")];
    let listed = user_tasks(&config(), &ledger, described, 3, &alice()).unwrap();
    let names: Vec<&str> = listed.iter().map(|t| t.name.as_str()).collect();
    assert_eq!(names, vec!["first", "second", "b", "a"]);
}

#[test]
fn unknown_quest_has_no_tasks() {
    let ledger = Ledger::new();
    let listed = user_tasks(&config(), &ledger, vec![task(12, "follow")], 4, &alice());
    assert_eq!(listed.err(), Some(TasksError::UnknownQuest));
}

#[test]
fn quest_without_described_tasks() {
    let ledger = Ledger::new();
    let listed = user_tasks(&config(), &ledger, vec![task(12, "follow")], 9, &alice());
    assert_eq!(listed.err(), Some(TasksError::NoTasks));
    let none = user_tasks(&config(), &ledger, vec![], 3, &alice());
    assert_eq!(none.err(), Some(TasksError::NoTasks));
}

#[test]
fn tasks_need_the_store() {
    let mut ledger = Ledger::new();
    ledger.set_available(false);
    let listed = user_tasks(&config(), &ledger, vec![task(12, "follow")], 3, &alice());
    assert_eq!(listed.err(), Some(TasksError::StoreUnavailable));
    let unknown = user_tasks(&config(), &ledger, vec![task(12, "follow")], 4, &alice());
    assert_eq!(unknown.err(), Some(TasksError::UnknownQuest));
}

#[test]
fn task_errors_have_their_words() {
    assert_eq!(TasksError::UnknownQuest.message(), "No quest found with this quest_id");
    assert_eq!(TasksError::StoreUnavailable.message(), "Error querying tasks");
    assert_eq!(TasksError::NoTasks.message(), "No tasks found for this quest_id");
}
