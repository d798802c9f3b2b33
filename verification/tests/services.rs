use taskboard::dtos::{TaskAction, TaskPriority, TaskStatus, UpsertTaskDto};
use taskboard::errors::Error;
use taskboard::logs::LogsService;
use taskboard::memory::{MemoryLogStore, MemoryTaskStore};
use taskboard::models::Timestamp;
use taskboard::tasks::TaskService;

fn id_text_of(id: u128) -> String {
    uuid::Uuid::from_u128(id).to_string()
}

fn service() -> TaskService<MemoryTaskStore, MemoryLogStore> {
    TaskService::new(MemoryTaskStore::new(), LogsService::new(MemoryLogStore::new()))
}

fn details(summary: &str) -> UpsertTaskDto {
    UpsertTaskDto {
        summary: summary.to_string(),
        priority: TaskPriority::Normal,
        status: TaskStatus::Pending,
        description: None,
        due_date: Timestamp { seconds: 1_900_000_000, nanos: 0 },
    }
}

#[test]
fn created_task_reads_back() {
    let mut tasks = service();
    let id = tasks.create_task(&details("Buy milk")).unwrap();
    let view = tasks.get_task(id).unwrap();
    assert_eq!(view.detailed.base.summary, "Buy milk");
    assert_eq!(view.detailed.base.priority, TaskPriority::Normal);
    assert_eq!(view.detailed.base.status, TaskStatus::Pending);
    assert_eq!(view.detailed.base.id, id_text_of(id));
    assert_eq!(view.detailed.due_date, Timestamp { seconds: 1_900_000_000, nanos: 0 });
    assert!(view.detailed.root_id.is_none());
    assert!(view.root_task.is_none());
    assert!(view.subtasks.is_empty());
    assert!(view.description.is_none());
}

#[test]
fn created_task_is_stamped_with_the_present() {
    let mut tasks = service();
    let id = tasks.create_task(&details("Stamp")).unwrap();
    let view = tasks.get_task(id).unwrap();
    // Any time after the year 2020 and before the year 2200.
    assert!(view.detailed.create_date.seconds > 1_577_836_800);
    assert!(view.detailed.create_date.seconds < 7_258_118_400);
    assert!(view.detailed.create_date.nanos < 1_000_000_000);
}

#[test]
fn fresh_ids_are_random_uuids() {
    let mut tasks = service();
    let a = tasks.create_task(&details("a")).unwrap();
    let b = tasks.create_task(&details("b")).unwrap();
    assert_ne!(a, b);
    for id in [a, b] {
        assert_eq!((id >> 76) & 0xf, 4);
        assert_eq!((id >> 62) & 0x3, 2);
    }
}

#[test]
fn subtask_shows_its_root_and_root_shows_its_subtask() {
    let mut tasks = service();
    let a = tasks.create_task(&details("A")).unwrap();
    let b = tasks.create_task(&details("B")).unwrap();
    tasks.update_task_root(b, Some(a)).unwrap();

    let view_b = tasks.get_task(b).unwrap();
    assert_eq!(view_b.root_task.as_ref().unwrap().id, id_text_of(a));
    assert_eq!(view_b.root_task.as_ref().unwrap().summary, "A");
    assert_eq!(view_b.detailed.root_id, Some(id_text_of(a)));

    let view_a = tasks.get_task(a).unwrap();
    assert_eq!(view_a.subtasks.len(), 1);
    assert_eq!(view_a.subtasks[0].id, id_text_of(b));
}

#[test]
fn root_cannot_be_bound_under_its_subtask() {
    let mut tasks = service();
    let a = tasks.create_task(&details("A")).unwrap();
    let b = tasks.create_task(&details("B")).unwrap();
    tasks.update_task_root(b, Some(a)).unwrap();
    match tasks.update_task_root(a, Some(b)) {
        Err(Error::InvalidRootBinding(message)) => {
            assert_eq!(message, "Can't bind task to its subtask")
        }
        other => panic!("unexpected: {:?}", other),
    }
    // Nothing changed.
    assert!(tasks.get_task(a).unwrap().root_task.is_none());
}

#[test]
fn task_cannot_be_bound_to_itself() {
    let mut tasks = service();
    let a = tasks.create_task(&details("A")).unwrap();
    match tasks.update_task_root(a, Some(a)) {
        Err(Error::InvalidRootBinding(message)) => assert_eq!(message, "Can't bind task to itself"),
        other => panic!("unexpected: {:?}", other),
    }
    // The same holds of an id that no task has.
    assert!(matches!(tasks.update_task_root(17, Some(17)), Err(Error::InvalidRootBinding(_))));
}

#[test]
fn task_cannot_be_bound_under_a_distant_descendant() {
    let mut tasks = service();
    let a = tasks.create_task(&details("A")).unwrap();
    let b = tasks.create_task(&details("B")).unwrap();
    let c = tasks.create_task(&details("C")).unwrap();
    let d = tasks.create_task(&details("D")).unwrap();
    tasks.update_task_root(b, Some(a)).unwrap();
    tasks.update_task_root(c, Some(b)).unwrap();
    tasks.update_task_root(d, Some(c)).unwrap();
    assert!(matches!(tasks.update_task_root(a, Some(d)), Err(Error::InvalidRootBinding(_))));
    assert!(matches!(tasks.update_task_root(a, Some(c)), Err(Error::InvalidRootBinding(_))));
    assert!(matches!(tasks.update_task_root(b, Some(d)), Err(Error::InvalidRootBinding(_))));
    // Binding upwards or sideways is sound.
    tasks.update_task_root(d, Some(a)).unwrap();
    tasks.update_task_root(c, None).unwrap();
    tasks.update_task_root(a, Some(c)).unwrap();
}

#[test]
fn binding_a_missing_task_is_not_found() {
    let mut tasks = service();
    let a = tasks.create_task(&details("A")).unwrap();
    match tasks.update_task_root(99, Some(a)) {
        Err(Error::EntityNotFound(_)) => {}
        other => panic!("unexpected: {:?}", other),
    }
    assert!(matches!(tasks.update_task_root(99, None), Err(Error::EntityNotFound(_))));
}

#[test]
fn deleting_a_root_leaves_its_subtask_with_a_dangling_link() {
    let mut tasks = service();
    let a = tasks.create_task(&details("A")).unwrap();
    let b = tasks.create_task(&details("B")).unwrap();
    tasks.update_task_root(b, Some(a)).unwrap();
    tasks.delete_task(a).unwrap();

    assert!(matches!(tasks.get_task(a), Err(Error::EntityNotFound(_))));
    // B is still stored, but its root is gone: the lookup of the root
    // fails, and the failure is handed on.
    match tasks.get_task(b) {
        Err(Error::EntityNotFound(message)) => {
            assert_eq!(message, format!("Entity with id {} cannot be found", id_text_of(a)))
        }
        other => panic!("unexpected: {:?}", other),
    }
    // B did not become a root.
    let (roots, _) = tasks.get_root_task_batch(10, "", "CreateDate", false).unwrap();
    assert!(roots.is_empty());
    // Made a root again, B can be read.
    tasks.update_task_root(b, None).unwrap();
    assert_eq!(tasks.get_task(b).unwrap().detailed.base.summary, "B");
}

#[test]
fn deleting_a_missing_task_is_not_found() {
    let mut tasks = service();
    match tasks.delete_task(5) {
        Err(Error::EntityNotFound(message)) => assert_eq!(
            message,
            "Entity with id 00000000-0000-0000-0000-000000000005 cannot be found"
        ),
        other => panic!("unexpected: {:?}", other),
    }
}

#[test]
fn update_replaces_the_details() {
    let mut tasks = service();
    let id = tasks.create_task(&details("Draft")).unwrap();
    let created = tasks.get_task(id).unwrap().detailed.create_date;
    let changed = UpsertTaskDto {
        summary: "Final".to_string(),
        priority: TaskPriority::Urgent,
        status: TaskStatus::Done,
        description: Some("with text".to_string()),
        due_date: Timestamp { seconds: 42, nanos: 7 },
    };
    tasks.update_task(id, &changed).unwrap();
    let view = tasks.get_task(id).unwrap();
    assert_eq!(view.detailed.base.summary, "Final");
    assert_eq!(view.detailed.base.priority, TaskPriority::Urgent);
    assert_eq!(view.detailed.base.status, TaskStatus::Done);
    assert_eq!(view.description.as_deref(), Some("with text"));
    assert_eq!(view.detailed.due_date, Timestamp { seconds: 42, nanos: 7 });
    assert_eq!(view.detailed.create_date, created);
    assert!(matches!(tasks.update_task(1, &changed), Err(Error::EntityNotFound(_))));
}

#[test]
fn update_keeps_the_root_link() {
    let mut tasks = service();
    let a = tasks.create_task(&details("A")).unwrap();
    let b = tasks.create_task(&details("B")).unwrap();
    tasks.update_task_root(b, Some(a)).unwrap();
    tasks.update_task(b, &details("B2")).unwrap();
    assert_eq!(tasks.get_task(b).unwrap().detailed.root_id, Some(id_text_of(a)));
}

#[test]
fn every_mutation_is_logged_once() {
    let mut tasks = service();
    let a = tasks.create_task(&details("A")).unwrap();
    let b = tasks.create_task(&details("B")).unwrap();
    tasks.update_task(a, &details("A2")).unwrap();
    tasks.update_task_root(b, Some(a)).unwrap();
    tasks.delete_task(b).unwrap();

    let (of_a, _) =
        tasks.log_service.get_task_action_log_batch_by_task(a, "", 10, false).unwrap();
    let actions: Vec<TaskAction> = of_a.iter().map(|e| e.action).collect();
    assert_eq!(actions, vec![TaskAction::Create, TaskAction::Update]);

    let (of_b, _) =
        tasks.log_service.get_task_action_log_batch_by_task(b, "", 10, false).unwrap();
    let actions: Vec<TaskAction> = of_b.iter().map(|e| e.action).collect();
    assert_eq!(actions, vec![TaskAction::Create, TaskAction::RootChanged, TaskAction::Delete]);
    for entry in of_b.iter() {
        assert_eq!(entry.entity_id, Some(id_text_of(b)));
        assert_eq!(entry.entity_type.as_deref(), Some("TaskEntity"));
        assert!(entry.payload.is_none());
        assert!(entry.timestamp > 1_577_836_800);
    }

    let (all, token) = tasks.log_service.get_task_action_log_batch("", 10, false).unwrap();
    assert_eq!(all.len(), 5);
    assert_eq!(token, "5");
}

#[test]
fn failed_mutations_are_not_logged() {
    let mut tasks = service();
    let a = tasks.create_task(&details("A")).unwrap();
    assert!(tasks.update_task(1, &details("x")).is_err());
    assert!(tasks.delete_task(1).is_err());
    assert!(tasks.update_task_root(a, Some(a)).is_err());
    assert!(tasks.update_task_root(1, None).is_err());
    let (all, _) = tasks.log_service.get_task_action_log_batch("", 10, false).unwrap();
    assert_eq!(all.len(), 1);
    assert_eq!(all[0].action, TaskAction::Create);
}
