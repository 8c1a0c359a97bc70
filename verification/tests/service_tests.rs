use gerenciador_tarefas::dates::Date;
use gerenciador_tarefas::errors::TaskError;
use gerenciador_tarefas::service::TaskService;
use gerenciador_tarefas::task::{Category, Priority, Status};

fn create_test_service() -> TaskService {
    TaskService::new()
}

#[test]
fn test_add_task() {
    let mut service = create_test_service();
    let initial_count = service.list_all().len();

    service.add_task(
        "Test Task".to_string(),
        "Description".to_string(),
        Category::Work,
        Priority::High,
        None,
    );

    assert_eq!(service.list_all().len(), initial_count + 1);
}

#[test]
fn test_get_by_id() {
    let mut service = create_test_service();

    let task = service.add_task(
        "Test".to_string(),
        "Desc".to_string(),
        Category::Personal,
        Priority::Medium,
        None,
    );

    let id = task.id;
    let found = service.get_by_id(id);

    assert!(found.is_some());
    assert_eq!(found.unwrap().title, "Test");
}

#[test]
fn test_update_task() {
    let mut service = create_test_service();

    let task = service.add_task(
        "Original".to_string(),
        "Desc".to_string(),
        Category::Work,
        Priority::Low,
        None,
    );

    let id = task.id;

    service
        .update_task(
            id,
            Some("Updated".to_string()),
            None,
            None,
            Some(Priority::High),
            None,
        )
        .unwrap();

    let updated = service.get_by_id(id).unwrap();
    assert_eq!(updated.title, "Updated");
    assert_eq!(updated.priority, Priority::High);
}

#[test]
fn test_delete_task() {
    let mut service = create_test_service();

    let task = service.add_task(
        "To Delete".to_string(),
        "Desc".to_string(),
        Category::Other,
        Priority::Low,
        None,
    );

    let id = task.id;
    let count_before = service.list_all().len();

    service.delete_task(id).unwrap();

    assert_eq!(service.list_all().len(), count_before - 1);
    assert!(service.get_by_id(id).is_none());
}

#[test]
fn task_service_test_complete_task() {
    let mut service = create_test_service();

    let task = service.add_task(
        "To Complete".to_string(),
        "Desc".to_string(),
        Category::Study,
        Priority::Medium,
        None,
    );

    let id = task.id;

    service.complete_task(id).unwrap();

    let completed = service.get_by_id(id).unwrap();
    assert_eq!(completed.status, Status::Completed);
    assert!(completed.completed_at.is_some());
}

#[test]
fn test_filter_by_status() {
    let mut service = create_test_service();

    service.add_task(
        "Task 1".to_string(),
        "Desc".to_string(),
        Category::Work,
        Priority::High,
        None,
    );

    let task2 = service.add_task(
        "Task 2".to_string(),
        "Desc".to_string(),
        Category::Work,
        Priority::High,
        None,
    );

    service.complete_task(task2.id).unwrap();

    let pending = service.filter_by_status(Status::Pending);
    let completed = service.filter_by_status(Status::Completed);

    assert_eq!(pending.len(), 1);
    assert_eq!(completed.len(), 1);
}

#[test]
fn task_service_test_statistics() {
    let mut service = create_test_service();

    service.add_task(
        "Task 1".to_string(),
        "Desc".to_string(),
        Category::Work,
        Priority::High,
        None,
    );

    service.add_task(
        "Task 2".to_string(),
        "Desc".to_string(),
        Category::Personal,
        Priority::Medium,
        None,
    );

    let stats = service.get_statistics();

    assert_eq!(stats.total, 2);
    assert_eq!(stats.pending, 2);
    assert_eq!(stats.completed, 0);
}

#[test]
fn errors_on_missing_ids() {
    let mut service = create_test_service();
    assert_eq!(service.delete_task(1), Err(TaskError::NotFound));
    assert_eq!(service.complete_task(1), Err(TaskError::NotFound));
    assert_eq!(service.start_task(1), Err(TaskError::NotFound));
    assert_eq!(
        service.update_task(1, None, None, None, None, None),
        Err(TaskError::NotFound)
    );
    assert!(service.get_by_id(1).is_none());
}

#[test]
fn ids_are_distinct_and_increasing() {
    let mut service = create_test_service();
    let a = service.add_task(
        "A".to_string(),
        "".to_string(),
        Category::Work,
        Priority::High,
        None,
    );
    let b = service.add_task(
        "B".to_string(),
        "".to_string(),
        Category::Work,
        Priority::High,
        None,
    );
    service.delete_task(a.id).unwrap();
    let c = service.add_task(
        "C".to_string(),
        "".to_string(),
        Category::Work,
        Priority::High,
        None,
    );
    assert_eq!(a.id, 1);
    assert_eq!(b.id, 2);
    assert_eq!(c.id, 3);
    assert_ne!(b.id, c.id);
}

#[test]
fn statistics_cover_every_category_and_priority() {
    let mut service = create_test_service();
    service.add_task(
        "Only one".to_string(),
        "".to_string(),
        Category::Study,
        Priority::Low,
        None,
    );
    let stats = service.get_statistics();
    assert_eq!(stats.by_category.len(), 5);
    assert_eq!(stats.by_priority.len(), 3);
    assert_eq!(stats.by_category[0], (Category::Work, 0));
    assert_eq!(stats.by_category[2], (Category::Study, 1));
    assert_eq!(stats.by_priority[2], (Priority::Low, 1));
    let soma: usize = stats.by_category.iter().map(|p| p.1).sum();
    assert_eq!(soma, stats.total);
    assert_eq!(stats.total, stats.pending + stats.in_progress + stats.completed);
}

#[test]
fn update_can_clear_and_set_due_date() {
    let mut service = create_test_service();
    let due = Date { year: 2030, month: 1, day: 2 };
    let task = service.add_task(
        "Dated".to_string(),
        "".to_string(),
        Category::Work,
        Priority::High,
        Some(due),
    );
    service
        .update_task(task.id, None, None, None, None, Some(None))
        .unwrap();
    assert!(service.get_by_id(task.id).unwrap().due_date.is_none());
    service
        .update_task(task.id, None, None, None, None, Some(Some(due)))
        .unwrap();
    assert_eq!(service.get_by_id(task.id).unwrap().due_date, Some(due));
}
