use taskboard::dtos::{TaskAction, TaskPriority, TaskStatus, UpsertTaskDto};
use taskboard::errors::Error;
use taskboard::logs::LogsService;
use taskboard::memory::MemoryTaskStore;
use taskboard::models::{LogEntity, Timestamp};
use taskboard::repos::LogRepository;
use taskboard::tasks::TaskService;

/// A log store that is never reachable.
struct Unreachable;

impl LogRepository for Unreachable {
    fn insert(&mut self, _entity: LogEntity) -> bool {
        false
    }

    fn get_batch_by_entity_type(
        &self,
        _entity_type: &str,
        _offset: u64,
        _take: u32,
        _descending: bool,
    ) -> Result<Vec<LogEntity>, Error> {
        Err(Error::DbError("log store is down".to_string()))
    }

    fn get_batch_by_entity(
        &self,
        _entity_id: u128,
        _offset: u64,
        _take: u32,
        _descending: bool,
    ) -> Result<Vec<LogEntity>, Error> {
        Err(Error::DbError("log store is down".to_string()))
    }
}

fn details(summary: &str) -> UpsertTaskDto {
    UpsertTaskDto {
        summary: summary.to_string(),
        priority: TaskPriority::Low,
        status: TaskStatus::Reserved,
        description: None,
        due_date: Timestamp { seconds: 0, nanos: 0 },
    }
}

#[test]
fn a_lost_audit_entry_does_not_fail_the_mutation() {
    let mut tasks = TaskService::new(MemoryTaskStore::new(), LogsService::new(Unreachable));
    let a = tasks.create_task(&details("A")).unwrap();
    let b = tasks.create_task(&details("B")).unwrap();
    tasks.update_task(a, &details("A2")).unwrap();
    tasks.update_task_root(b, Some(a)).unwrap();
    assert_eq!(tasks.get_task(a).unwrap().subtasks.len(), 1);
    tasks.delete_task(b).unwrap();
    assert!(tasks.get_task(a).unwrap().subtasks.is_empty());
}

#[test]
fn a_failure_of_the_log_store_is_reported_to_its_reader() {
    let mut logs = LogsService::new(Unreachable);
    assert!(!logs.log_task_action(TaskAction::Create, None, None, None));
    match logs.get_task_action_log_batch("", 1, false) {
        Err(Error::DbError(message)) => assert_eq!(message, "log store is down"),
        other => panic!("unexpected: {:?}", other.map(|b| b.1)),
    }
    assert!(matches!(
        logs.get_task_action_log_batch_by_task(1, "", 1, false),
        Err(Error::DbError(_))
    ));
    // The token is read first.
    assert!(matches!(
        logs.get_task_action_log_batch("x", 1, false),
        Err(Error::InvalidInput(_))
    ));
}
