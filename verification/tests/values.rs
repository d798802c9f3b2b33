use taskboard::convert::{
    action_from_str, action_to_str, find_action, find_priority, find_status, priority_from_str,
    priority_to_str, status_from_str, status_to_str,
};
use taskboard::dtos;
use taskboard::dtos::{
    LogEntryDto, TaskBaseDto, TaskDetailedDto, TaskFullDto, TaskSearchDto,
};
use taskboard::enums::{TaskAction, TaskPriority, TaskStatus};
use taskboard::errors::Error;
use taskboard::logs::LogsService;
use taskboard::memory::MemoryLogStore;
use taskboard::models::{LogEntity, TaskEntity, TaskSearchEntity, Timestamp};
use taskboard::paging::{advance, format_token, page_range, parse_token};
use taskboard::sorting::{parse_sort_field, SortField};
use taskboard::view::{
    failure_status, BatchResponse, CreateTaskResponse, Pagination, TaskRootChangeRequest,
};

fn sample() -> TaskEntity {
    TaskEntity {
        id: 0xa1a2a3a4b1b2c1c2d1d2d3d4d5d6d7d8,
        root_task_id: Some(0x0123456789abcdef0123456789abcdef),
        summary: "Summary".to_string(),
        description: Some("Long text".to_string()),
        create_date: Timestamp { seconds: 100, nanos: 1 },
        due_date: Timestamp { seconds: 200, nanos: 2 },
        priority: TaskPriority::High,
        status: TaskStatus::Ongoing,
    }
}

#[test]
fn tokens_are_decimal_numbers() {
    assert_eq!(parse_token("").unwrap(), 0);
    assert_eq!(parse_token("0").unwrap(), 0);
    assert_eq!(parse_token("7").unwrap(), 7);
    assert_eq!(parse_token("007").unwrap(), 7);
    assert_eq!(parse_token("1234567890").unwrap(), 1234567890);
    assert_eq!(parse_token("18446744073709551615").unwrap(), u64::MAX);
    assert_eq!(parse_token("00018446744073709551615").unwrap(), u64::MAX);
    assert!(matches!(parse_token("18446744073709551616"), Err(Error::InvalidInput(_))));
    assert!(matches!(parse_token("99999999999999999999999"), Err(Error::InvalidInput(_))));
    assert!(matches!(parse_token("12a"), Err(Error::InvalidInput(_))));
    assert!(matches!(parse_token("-3"), Err(Error::InvalidInput(_))));
}

#[test]
fn tokens_are_written_without_leading_zeros() {
    assert_eq!(format_token(0), "0");
    assert_eq!(format_token(9), "9");
    assert_eq!(format_token(10), "10");
    assert_eq!(format_token(1234567890), "1234567890");
    assert_eq!(format_token(u64::MAX), "18446744073709551615");
}

#[test]
fn tokens_read_back_as_written() {
    for offset in [0u64, 1, 9, 10, 99, 100, 4096, u32::MAX as u64, u64::MAX - 1, u64::MAX] {
        assert_eq!(parse_token(&format_token(offset)).unwrap(), offset);
    }
}

#[test]
fn offset_advances_by_what_was_returned() {
    assert_eq!(advance(0, 20, 20), 20);
    assert_eq!(advance(40, 20, 7), 47);
    assert_eq!(advance(40, 20, 0), 40);
    // Never by more than was asked for.
    assert_eq!(advance(40, 20, 25), 60);
    assert_eq!(advance(5, 0, 3), 5);
}

#[test]
fn page_lies_within_the_listing() {
    assert_eq!(page_range(10, 0, 3), (0, 3));
    assert_eq!(page_range(10, 8, 3), (8, 10));
    assert_eq!(page_range(10, 7, 3), (7, 10));
    assert_eq!(page_range(10, 10, 3), (10, 10));
    assert_eq!(page_range(10, 11, 3), (10, 10));
    assert_eq!(page_range(10, u64::MAX, u32::MAX), (10, 10));
    assert_eq!(page_range(10, 2, 0), (2, 2));
    assert_eq!(page_range(0, 0, 5), (0, 0));
}

#[test]
fn vocabularies_have_their_names() {
    for (action, name) in [
        (TaskAction::Create, "Create"),
        (TaskAction::Delete, "Delete"),
        (TaskAction::Update, "Update"),
        (TaskAction::RootChanged, "RootChanged"),
    ] {
        assert_eq!(action_to_str(action), name);
        assert_eq!(action_from_str(name), action);
        assert_eq!(find_action(name), Some(action));
    }
    for (priority, name) in [
        (TaskPriority::Low, "Low"),
        (TaskPriority::Normal, "Normal"),
        (TaskPriority::High, "High"),
        (TaskPriority::Urgent, "Urgent"),
    ] {
        assert_eq!(priority_to_str(priority), name);
        assert_eq!(priority_from_str(name), priority);
        assert_eq!(find_priority(name), Some(priority));
    }
    for (status, name) in [
        (TaskStatus::Reserved, "Reserved"),
        (TaskStatus::Ongoing, "Ongoing"),
        (TaskStatus::Done, "Done"),
        (TaskStatus::Pending, "Pending"),
    ] {
        assert_eq!(status_to_str(status), name);
        assert_eq!(status_from_str(name), status);
        assert_eq!(find_status(name), Some(status));
    }
    assert_eq!(find_action("create"), None);
    assert_eq!(find_action(""), None);
    assert_eq!(find_priority("Create"), None);
    assert_eq!(find_status("Done "), None);
}

#[test]
fn vocabularies_convert_both_ways() {
    for p in [TaskPriority::Low, TaskPriority::Normal, TaskPriority::High, TaskPriority::Urgent] {
        assert_eq!(dtos::TaskPriority::new(&p).as_model(), p);
    }
    for s in [TaskStatus::Reserved, TaskStatus::Ongoing, TaskStatus::Done, TaskStatus::Pending] {
        assert_eq!(dtos::TaskStatus::new(&s).as_model(), s);
    }
    for a in [TaskAction::Create, TaskAction::Delete, TaskAction::Update, TaskAction::RootChanged]
    {
        assert_eq!(dtos::TaskAction::new(&a).as_model(), a);
    }
    assert_eq!(dtos::TaskPriority::new(&TaskPriority::Urgent), dtos::TaskPriority::Urgent);
    assert_eq!(dtos::TaskStatus::new(&TaskStatus::Reserved), dtos::TaskStatus::Reserved);
    assert_eq!(dtos::TaskAction::new(&TaskAction::RootChanged), dtos::TaskAction::RootChanged);
    assert_eq!(dtos::TaskPriority::Low.as_model(), TaskPriority::Low);
    assert_eq!(dtos::TaskStatus::Done.as_model(), TaskStatus::Done);
    assert_eq!(dtos::TaskAction::Delete.as_model(), TaskAction::Delete);
}

#[test]
fn ids_are_shown_hyphenated_in_lower_case() {
    let dto = TaskBaseDto::new(&sample());
    assert_eq!(dto.id, "a1a2a3a4-b1b2-c1c2-d1d2-d3d4d5d6d7d8");
    assert_eq!(dto.summary, "Summary");
    assert_eq!(dto.priority, dtos::TaskPriority::High);
    assert_eq!(dto.status, dtos::TaskStatus::Ongoing);
    let mut zero = sample();
    zero.id = 0;
    assert_eq!(TaskBaseDto::new(&zero).id, "00000000-0000-0000-0000-000000000000");
    zero.id = u128::MAX;
    assert_eq!(TaskBaseDto::new(&zero).id, "ffffffff-ffff-ffff-ffff-ffffffffffff");
    zero.id = 0x0f;
    assert_eq!(TaskBaseDto::new(&zero).id, "00000000-0000-0000-0000-00000000000f");
}

#[test]
fn detailed_form_carries_root_and_dates() {
    let dto = TaskDetailedDto::new(&sample());
    assert_eq!(dto.root_id.as_deref(), Some("01234567-89ab-cdef-0123-456789abcdef"));
    assert_eq!(dto.create_date, Timestamp { seconds: 100, nanos: 1 });
    assert_eq!(dto.due_date, Timestamp { seconds: 200, nanos: 2 });
    assert_eq!(dto.base.id, "a1a2a3a4-b1b2-c1c2-d1d2-d3d4d5d6d7d8");
    let mut root = sample();
    root.root_task_id = None;
    assert_eq!(TaskDetailedDto::new(&root).root_id, None);
}

#[test]
fn full_form_carries_root_and_subtasks() {
    let task = sample();
    let mut root = sample();
    root.id = 1;
    root.summary = "Root".to_string();
    let mut first = sample();
    first.id = 2;
    first.summary = "First".to_string();
    let mut second = sample();
    second.id = 3;
    second.summary = "Second".to_string();
    let subtasks = vec![first, second];
    let dto = TaskFullDto::new(&task, Some(&root), &subtasks);
    assert_eq!(dto.root_task.as_ref().unwrap().summary, "Root");
    assert_eq!(dto.root_task.as_ref().unwrap().id, "00000000-0000-0000-0000-000000000001");
    let names: Vec<&str> = dto.subtasks.iter().map(|s| s.summary.as_str()).collect();
    assert_eq!(names, vec!["First", "Second"]);
    assert_eq!(dto.description.as_deref(), Some("Long text"));
    assert_eq!(dto.detailed.base.summary, "Summary");
    let alone = TaskFullDto::new(&task, None, &Vec::new());
    assert!(alone.root_task.is_none());
    assert!(alone.subtasks.is_empty());
}

#[test]
fn log_entry_and_search_forms() {
    let entry = LogEntity {
        id: 0x10,
        action: TaskAction::Update,
        timestamp: -5,
        entity_id: Some(0x20),
        entity_type: Some("TaskEntity".to_string()),
        payload: Some("p".to_string()),
    };
    let dto = LogEntryDto::new(&entry);
    assert_eq!(dto.id, "00000000-0000-0000-0000-000000000010");
    assert_eq!(dto.action, dtos::TaskAction::Update);
    assert_eq!(dto.timestamp, -5);
    assert_eq!(dto.entity_id.as_deref(), Some("00000000-0000-0000-0000-000000000020"));
    assert_eq!(dto.entity_type.as_deref(), Some("TaskEntity"));
    assert_eq!(dto.payload.as_deref(), Some("p"));

    let found = TaskSearchEntity { id: 0x30, summary: Some("s".to_string()), description: None };
    let dto = TaskSearchDto::new(&found);
    assert_eq!(dto.id, "00000000-0000-0000-0000-000000000030");
    assert_eq!(dto.summary.as_deref(), Some("s"));
    assert_eq!(dto.description, None);
}

#[test]
fn errors_carry_their_messages() {
    match Error::not_found(0xa1a2a3a4b1b2c1c2d1d2d3d4d5d6d7d8) {
        Error::EntityNotFound(message) => assert_eq!(
            message,
            "Entity with id a1a2a3a4-b1b2-c1c2-d1d2-d3d4d5d6d7d8 cannot be found"
        ),
        other => panic!("unexpected: {:?}", other),
    }
    match Error::invalid_root_binding("no") {
        Error::InvalidRootBinding(message) => assert_eq!(message, "no"),
        other => panic!("unexpected: {:?}", other),
    }
    match Error::invalid_input("bad") {
        Error::InvalidInput(message) => assert_eq!(message, "bad"),
        other => panic!("unexpected: {:?}", other),
    }
    assert_eq!(Error::DbError("down".to_string()).text(), "down");
    assert_eq!(Error::invalid_root_binding("no").text(), "no");
    assert_eq!(
        Error::not_found(1).text(),
        "Entity with id 00000000-0000-0000-0000-000000000001 cannot be found"
    );
}

#[test]
fn sort_fields_are_named_exactly() {
    assert_eq!(parse_sort_field("CreateDate"), Some(SortField::CreateDate));
    assert_eq!(parse_sort_field("DueDate"), Some(SortField::DueDate));
    assert_eq!(parse_sort_field("Priority"), Some(SortField::Priority));
    assert_eq!(parse_sort_field("Status"), Some(SortField::Status));
    assert_eq!(parse_sort_field("CreteDate"), None);
    assert_eq!(parse_sort_field("priority"), None);
    assert_eq!(parse_sort_field(""), None);
}

#[test]
fn pagination_hands_back_what_it_was_given() {
    let p = Pagination::new(Some(5), Some(10), Some("DueDate".to_string()), Some(true), None);
    assert_eq!(p.take(), Some(5));
    assert_eq!(p.continuation_token(), Some(10));
    assert_eq!(p.order_by(), Some("DueDate"));
    assert_eq!(p.descending_sort(), Some(true));
    assert_eq!(p.descending(), None);
    let empty = Pagination::new(None, None, None, None, Some(false));
    assert_eq!(empty.take(), None);
    assert_eq!(empty.continuation_token(), None);
    assert_eq!(empty.order_by(), None);
    assert_eq!(empty.descending_sort(), None);
    assert_eq!(empty.descending(), Some(false));
}

#[test]
fn envelopes_hold_what_they_were_given() {
    let batch = BatchResponse::new(vec![1, 2, 3], "3".to_string());
    assert_eq!(batch.entities, vec![1, 2, 3]);
    assert_eq!(batch.continuation_token, "3");
    assert_eq!(CreateTaskResponse::new(9).task_id, 9);
    assert_eq!(TaskRootChangeRequest { root_id: Some(4) }.root_id(), Some(4));
    assert_eq!(TaskRootChangeRequest { root_id: None }.root_id(), None);
}

#[test]
fn composed_entry_holds_its_parts() {
    let entry = LogsService::<MemoryLogStore>::compose(
        1,
        2,
        dtos::TaskAction::Delete,
        Some(3),
        Some("TaskEntity"),
        None,
    );
    assert_eq!(entry.id, 1);
    assert_eq!(entry.timestamp, 2);
    assert_eq!(entry.action, TaskAction::Delete);
    assert_eq!(entry.entity_id, Some(3));
    assert_eq!(entry.entity_type.as_deref(), Some("TaskEntity"));
    assert_eq!(entry.payload, None);
}

#[test]
fn failures_map_to_status_codes() {
    assert_eq!(failure_status(&Error::not_found(1)), 404);
    assert_eq!(failure_status(&Error::invalid_root_binding("x")), 400);
    assert_eq!(failure_status(&Error::invalid_input("x")), 400);
    assert_eq!(failure_status(&Error::DbError("x".to_string())), 500);
}

#[test]
fn requests_fall_back_to_their_defaults() {
    let bare = Pagination::new(None, None, None, None, None);
    assert_eq!(bare.page_size().unwrap(), 20);
    assert_eq!(bare.token().unwrap(), "0");
    assert_eq!(bare.sort_by(), "CreateDate");
    assert!(!bare.sorts_descending());
    assert!(!bare.lists_descending());

    let full =
        Pagination::new(Some(3), Some(40), Some("Status".to_string()), Some(true), Some(true));
    assert_eq!(full.page_size().unwrap(), 3);
    assert_eq!(full.token().unwrap(), "40");
    assert_eq!(full.sort_by(), "Status");
    assert!(full.sorts_descending());
    assert!(full.lists_descending());

    let edge = Pagination::new(Some(0), Some(i32::MAX), None, Some(false), Some(false));
    assert_eq!(edge.page_size().unwrap(), 0);
    assert_eq!(edge.token().unwrap(), "2147483647");
    assert!(!edge.sorts_descending());

    let negative = Pagination::new(Some(-1), Some(-1), None, None, None);
    assert!(matches!(negative.page_size(), Err(Error::InvalidInput(_))));
    assert!(matches!(negative.token(), Err(Error::InvalidInput(_))));
}
