use taskboard::enums::{TaskAction, TaskPriority, TaskStatus};
use taskboard::errors::Error;
use taskboard::logs::LogsService;
use taskboard::memory::{MemoryLogStore, MemoryTaskStore};
use taskboard::models::{LogEntity, TaskEntity, Timestamp};
use taskboard::repos::{LogRepository, TaskRepository};
use taskboard::tasks::TaskService;

fn task(id: u128, root: Option<u128>, summary: &str, created: i64) -> TaskEntity {
    TaskEntity {
        id,
        root_task_id: root,
        summary: summary.to_string(),
        description: None,
        create_date: Timestamp { seconds: created, nanos: 0 },
        due_date: Timestamp { seconds: 1000 - created, nanos: 0 },
        priority: TaskPriority::Normal,
        status: TaskStatus::Pending,
    }
}

fn service_with(rows: Vec<TaskEntity>) -> TaskService<MemoryTaskStore, MemoryLogStore> {
    let mut store = MemoryTaskStore::new();
    for row in rows {
        store.insert(row).unwrap();
    }
    TaskService::new(store, LogsService::new(MemoryLogStore::new()))
}

fn summaries(batch: &[taskboard::dtos::TaskDetailedDto]) -> Vec<String> {
    batch.iter().map(|d| d.base.summary.clone()).collect()
}

#[test]
fn root_listing_shows_roots_only() {
    let tasks = service_with(vec![
        task(1, None, "one", 10),
        task(2, Some(1), "two", 20),
        task(3, None, "three", 30),
        task(4, Some(2), "four", 40),
        task(5, Some(77), "orphan", 50),
    ]);
    let (batch, token) = tasks.get_root_task_batch(10, "", "CreateDate", false).unwrap();
    assert_eq!(summaries(&batch), vec!["one", "three"]);
    assert!(batch.iter().all(|d| d.root_id.is_none()));
    assert_eq!(token, "2");
}

#[test]
fn pages_follow_one_another_and_end_stable() {
    let tasks = service_with(vec![
        task(1, None, "a", 1),
        task(2, None, "b", 2),
        task(3, None, "c", 3),
        task(4, None, "d", 4),
        task(5, None, "e", 5),
    ]);
    let (first, t1) = tasks.get_root_task_batch(2, "", "CreateDate", false).unwrap();
    assert_eq!(summaries(&first), vec!["a", "b"]);
    assert_eq!(t1, "2");
    let (second, t2) = tasks.get_root_task_batch(2, &t1, "CreateDate", false).unwrap();
    assert_eq!(summaries(&second), vec!["c", "d"]);
    assert_eq!(t2, "4");
    let (third, t3) = tasks.get_root_task_batch(2, &t2, "CreateDate", false).unwrap();
    assert_eq!(summaries(&third), vec!["e"]);
    assert_eq!(t3, "5");
    let (fourth, t4) = tasks.get_root_task_batch(2, &t3, "CreateDate", false).unwrap();
    assert!(fourth.is_empty());
    assert_eq!(t4, "5");
    let (fifth, t5) = tasks.get_root_task_batch(2, &t4, "CreateDate", false).unwrap();
    assert!(fifth.is_empty());
    assert_eq!(t5, "5");
}

#[test]
fn a_full_last_page_is_followed_by_an_empty_one() {
    let tasks = service_with(vec![task(1, None, "a", 1), task(2, None, "b", 2)]);
    let (first, t1) = tasks.get_root_task_batch(2, "0", "CreateDate", false).unwrap();
    assert_eq!(first.len(), 2);
    assert_eq!(t1, "2");
    let (second, t2) = tasks.get_root_task_batch(2, &t1, "CreateDate", false).unwrap();
    assert!(second.is_empty());
    assert_eq!(t2, "2");
}

#[test]
fn a_token_past_the_end_stays_where_it_is() {
    let tasks = service_with(vec![task(1, None, "a", 1)]);
    let (batch, token) = tasks.get_root_task_batch(3, "40", "CreateDate", false).unwrap();
    assert!(batch.is_empty());
    assert_eq!(token, "40");
    let (batch, token) =
        tasks.get_root_task_batch(3, "18446744073709551615", "CreateDate", false).unwrap();
    assert!(batch.is_empty());
    assert_eq!(token, "18446744073709551615");
}

#[test]
fn taking_nothing_returns_nothing() {
    let tasks = service_with(vec![task(1, None, "a", 1)]);
    let (batch, token) = tasks.get_root_task_batch(0, "", "CreateDate", false).unwrap();
    assert!(batch.is_empty());
    assert_eq!(token, "0");
}

#[test]
fn malformed_tokens_are_invalid_input() {
    let tasks = service_with(vec![task(1, None, "a", 1)]);
    for token in ["abc", "-1", "+1", "1.5", " 1", "1 ", "0x10", "18446744073709551616", "٣"] {
        assert!(
            matches!(
                tasks.get_root_task_batch(2, token, "CreateDate", false),
                Err(Error::InvalidInput(_))
            ),
            "{}",
            token
        );
        assert!(matches!(tasks.search_tasks("a", 2, token), Err(Error::InvalidInput(_))));
        assert!(matches!(
            tasks.log_service.get_task_action_log_batch(token, 2, false),
            Err(Error::InvalidInput(_))
        ));
        assert!(matches!(
            tasks.log_service.get_task_action_log_batch_by_task(1, token, 2, false),
            Err(Error::InvalidInput(_))
        ));
    }
}

#[test]
fn unknown_sort_fields_are_invalid_input() {
    let tasks = service_with(vec![task(1, None, "a", 1)]);
    for field in ["", "createdate", "Summary", "CreateDate; DROP TABLE Tasks", "Id"] {
        assert!(
            matches!(tasks.get_root_task_batch(2, "", field, false), Err(Error::InvalidInput(_))),
            "{}",
            field
        );
    }
}

#[test]
fn listing_sorts_by_the_named_field() {
    let mut rows = vec![
        task(1, None, "a", 30),
        task(2, None, "b", 10),
        task(3, None, "c", 20),
        task(4, None, "d", 20),
    ];
    rows[0].priority = TaskPriority::High;
    rows[1].priority = TaskPriority::Urgent;
    rows[2].priority = TaskPriority::Low;
    rows[3].priority = TaskPriority::Normal;
    rows[0].status = TaskStatus::Done;
    rows[1].status = TaskStatus::Reserved;
    rows[2].status = TaskStatus::Pending;
    rows[3].status = TaskStatus::Ongoing;
    rows[2].create_date.nanos = 5;
    let tasks = service_with(rows);

    let sorted = |field: &str, descending: bool| {
        summaries(&tasks.get_root_task_batch(10, "", field, descending).unwrap().0)
    };
    // Equal seconds are told apart by the nanoseconds.
    assert_eq!(sorted("CreateDate", false), vec!["b", "d", "c", "a"]);
    assert_eq!(sorted("CreateDate", true), vec!["a", "c", "d", "b"]);
    // Due dates mirror the creation dates; equal ones keep the order of entry.
    assert_eq!(sorted("DueDate", false), vec!["a", "c", "d", "b"]);
    assert_eq!(sorted("DueDate", true), vec!["b", "c", "d", "a"]);
    assert_eq!(sorted("Priority", false), vec!["c", "d", "a", "b"]);
    assert_eq!(sorted("Priority", true), vec!["b", "a", "d", "c"]);
    assert_eq!(sorted("Status", false), vec!["b", "d", "a", "c"]);
    assert_eq!(sorted("Status", true), vec!["c", "a", "d", "b"]);
}

#[test]
fn search_finds_the_phrase_in_summary_or_description() {
    let mut rows = vec![
        task(1, None, "Buy MILK today", 30),
        task(2, None, "Call mum", 10),
        task(3, None, "Shopping", 20),
        task(4, Some(1), "milk for the subtask", 5),
        task(5, None, "", 40),
    ];
    rows[2].description = Some("do not forget the Milk".to_string());
    rows[4].description = Some("mil k".to_string());
    let tasks = service_with(rows);

    let (found, token) = tasks.search_tasks("milk", 10, "").unwrap();
    let ids: Vec<String> = found.iter().map(|f| f.id.clone()).collect();
    // Roots only, by creation date.
    assert_eq!(
        ids,
        vec![
            "00000000-0000-0000-0000-000000000003".to_string(),
            "00000000-0000-0000-0000-000000000001".to_string()
        ]
    );
    assert_eq!(found[0].summary.as_deref(), Some("Shopping"));
    assert_eq!(found[0].description.as_deref(), Some("do not forget the Milk"));
    assert_eq!(found[1].description, None);
    assert_eq!(token, "2");

    assert_eq!(tasks.search_tasks("MiLk", 10, "").unwrap().0.len(), 2);
    assert_eq!(tasks.search_tasks("milk ", 10, "").unwrap().0.len(), 1);
    assert_eq!(tasks.search_tasks("milky", 10, "").unwrap().0.len(), 0);
    // Every root holds the empty phrase.
    assert_eq!(tasks.search_tasks("", 10, "").unwrap().0.len(), 4);
    // Only the letters A to Z are folded.
    assert_eq!(tasks.search_tasks("call mum", 10, "").unwrap().0.len(), 1);
    assert_eq!(tasks.search_tasks("%", 10, "").unwrap().0.len(), 0);
}

#[test]
fn search_is_paged_like_a_listing() {
    let tasks = service_with(vec![
        task(1, None, "task one", 1),
        task(2, None, "other", 2),
        task(3, None, "task two", 3),
        task(4, None, "task three", 4),
    ]);
    let (first, t1) = tasks.search_tasks("task", 2, "").unwrap();
    assert_eq!(first.len(), 2);
    assert_eq!(first[1].summary.as_deref(), Some("task two"));
    assert_eq!(t1, "2");
    let (second, t2) = tasks.search_tasks("task", 2, &t1).unwrap();
    assert_eq!(second.len(), 1);
    assert_eq!(second[0].summary.as_deref(), Some("task three"));
    assert_eq!(t2, "3");
    let (third, t3) = tasks.search_tasks("task", 2, &t2).unwrap();
    assert!(third.is_empty());
    assert_eq!(t3, "3");
}

#[test]
fn store_refuses_a_second_task_with_the_same_id() {
    let mut store = MemoryTaskStore::new();
    store.insert(task(1, None, "first", 1)).unwrap();
    assert!(matches!(store.insert(task(1, None, "second", 2)), Err(Error::DbError(_))));
    assert_eq!(store.get_by_id(1).unwrap().summary, "first");
}

#[test]
fn store_finds_all_that_stands_under_a_task() {
    let mut store = MemoryTaskStore::new();
    // Rows come in an order in which children precede their parents.
    for row in [
        task(6, Some(5), "f", 1),
        task(5, Some(4), "e", 1),
        task(4, Some(1), "d", 1),
        task(3, Some(2), "c", 1),
        task(2, None, "b", 1),
        task(1, None, "a", 1),
        task(7, Some(99), "g", 1),
        task(8, Some(7), "h", 1),
    ] {
        store.insert(row).unwrap();
    }
    let mut below = store.get_all_subtasks_recursive(1).unwrap();
    below.sort();
    assert_eq!(below, vec![4, 5, 6]);
    assert_eq!(store.get_all_subtasks_recursive(2).unwrap(), vec![3]);
    assert!(store.get_all_subtasks_recursive(6).unwrap().is_empty());
    // What hangs under a task that is gone is still found.
    let mut below = store.get_all_subtasks_recursive(99).unwrap();
    below.sort();
    assert_eq!(below, vec![7, 8]);
    let subtasks = store.get_subtasks(1).unwrap();
    assert_eq!(subtasks.len(), 1);
    assert_eq!(subtasks[0].id, 4);
}

#[test]
fn store_ends_its_search_even_on_a_ring() {
    let mut store = MemoryTaskStore::new();
    store.insert(task(1, Some(3), "a", 1)).unwrap();
    store.insert(task(2, Some(1), "b", 1)).unwrap();
    store.insert(task(3, Some(2), "c", 1)).unwrap();
    let mut below = store.get_all_subtasks_recursive(1).unwrap();
    below.sort();
    assert_eq!(below, vec![1, 2, 3]);
}

fn entry(id: u128, action: TaskAction, at: i64, entity: Option<u128>, kind: Option<&str>) -> LogEntity {
    LogEntity {
        id,
        action,
        timestamp: at,
        entity_id: entity,
        entity_type: kind.map(|k| k.to_string()),
        payload: None,
    }
}

#[test]
fn log_is_listed_by_time_in_either_direction() {
    let mut store = MemoryLogStore::new();
    assert!(store.insert(entry(1, TaskAction::Create, 30, Some(7), Some("TaskEntity"))));
    assert!(store.insert(entry(2, TaskAction::Update, 10, Some(7), Some("TaskEntity"))));
    assert!(store.insert(entry(3, TaskAction::Delete, 20, Some(8), Some("TaskEntity"))));
    assert!(store.insert(entry(4, TaskAction::Create, 15, Some(7), Some("Other"))));
    assert!(store.insert(entry(5, TaskAction::Create, 5, None, None)));
    let logs = LogsService::new(store);

    let ids = |batch: &Vec<taskboard::dtos::LogEntryDto>| -> Vec<String> {
        batch.iter().map(|e| e.id[35..].to_string()).collect()
    };
    let (up, token) = logs.get_task_action_log_batch("", 10, false).unwrap();
    assert_eq!(ids(&up), vec!["2", "3", "1"]);
    assert_eq!(token, "3");
    let (down, _) = logs.get_task_action_log_batch("", 10, true).unwrap();
    assert_eq!(ids(&down), vec!["1", "3", "2"]);
    let (of_seven, _) = logs.get_task_action_log_batch_by_task(7, "", 10, false).unwrap();
    assert_eq!(ids(&of_seven), vec!["2", "4", "1"]);
    let (page, token) = logs.get_task_action_log_batch_by_task(7, "1", 1, true).unwrap();
    assert_eq!(ids(&page), vec!["4"]);
    assert_eq!(token, "2");
    assert_eq!(page[0].action, taskboard::dtos::TaskAction::Create);
    assert_eq!(page[0].timestamp, 15);
    assert_eq!(page[0].entity_type.as_deref(), Some("Other"));
    assert!(logs.get_task_action_log_batch_by_task(9, "", 10, false).unwrap().0.is_empty());
}

#[test]
fn log_service_records_what_it_is_told() {
    let mut logs = LogsService::new(MemoryLogStore::new());
    assert!(logs.log_task_action(
        taskboard::dtos::TaskAction::RootChanged,
        Some(3),
        Some("TaskEntity"),
        Some("moved")
    ));
    assert!(logs.log_task_action(taskboard::dtos::TaskAction::Delete, None, None, None));
    let (batch, _) = logs.get_task_action_log_batch("", 10, false).unwrap();
    assert_eq!(batch.len(), 1);
    assert_eq!(batch[0].action, taskboard::dtos::TaskAction::RootChanged);
    assert_eq!(batch[0].entity_id.as_deref(), Some("00000000-0000-0000-0000-000000000003"));
    assert_eq!(batch[0].payload.as_deref(), Some("moved"));
    assert_eq!(batch[0].id.len(), 36);
    assert!(batch[0].timestamp > 1_577_836_800);
}
