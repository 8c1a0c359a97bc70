use gerenciador_tarefas::service::TaskService;
use gerenciador_tarefas::task::{Category, Priority, Status};

#[test]
fn test_full_crud_workflow() {
    let mut service = TaskService::new();

    let task = service.add_task(
        "Integration Test".to_string(),
        "Testing full workflow".to_string(),
        Category::Work,
        Priority::High,
        None,
    );

    let task_id = task.id;

    let found = service.get_by_id(task_id);
    assert!(found.is_some());
    assert_eq!(found.unwrap().title, "Integration Test");

    service
        .update_task(
            task_id,
            Some("Updated Title".to_string()),
            None,
            None,
            None,
            None,
        )
        .unwrap();

    let updated = service.get_by_id(task_id).unwrap();
    assert_eq!(updated.title, "Updated Title");

    service.complete_task(task_id).unwrap();
    let completed = service.get_by_id(task_id).unwrap();
    assert_eq!(completed.status, Status::Completed);

    service.delete_task(task_id).unwrap();
    assert!(service.get_by_id(task_id).is_none());
}

#[test]
fn test_persistence() {
    let saved;
    {
        let mut service = TaskService::new();
        service.add_task(
            "Persistent Task".to_string(),
            "Should survive restart".to_string(),
            Category::Personal,
            Priority::Medium,
            None,
        );
        saved = service.encoded();
    }

    {
        let service = TaskService::from_saved(Some(saved.as_str())).unwrap();
        let tasks = service.list_all();
        assert_eq!(tasks.len(), 1);
        assert_eq!(tasks[0].title, "Persistent Task");
    }
}

#[test]
fn test_filters() {
    let mut service = TaskService::new();

    service.add_task(
        "Work Task".to_string(),
        "Desc".to_string(),
        Category::Work,
        Priority::High,
        None,
    );

    service.add_task(
        "Personal Task".to_string(),
        "Desc".to_string(),
        Category::Personal,
        Priority::Low,
        None,
    );

    let task3 = service.add_task(
        "Study Task".to_string(),
        "Desc".to_string(),
        Category::Study,
        Priority::High,
        None,
    );

    service.complete_task(task3.id).unwrap();

    let work_tasks = service.filter_by_category(Category::Work);
    assert_eq!(work_tasks.len(), 1);

    let high_priority = service.filter_by_priority(Priority::High);
    assert_eq!(high_priority.len(), 2);

    let completed = service.filter_by_status(Status::Completed);
    assert_eq!(completed.len(), 1);
}

#[test]
fn integration_tests_test_statistics() {
    let mut service = TaskService::new();

    service.add_task(
        "Task 1".to_string(),
        "Desc".to_string(),
        Category::Work,
        Priority::High,
        None,
    );

    let task2 = service.add_task(
        "Task 2".to_string(),
        "Desc".to_string(),
        Category::Work,
        Priority::Medium,
        None,
    );

    service.add_task(
        "Task 3".to_string(),
        "Desc".to_string(),
        Category::Personal,
        Priority::Low,
        None,
    );

    service.complete_task(task2.id).unwrap();

    let stats = service.get_statistics();
    assert_eq!(stats.total, 3);
    assert_eq!(stats.completed, 1);
    assert_eq!(stats.pending, 2);
}
