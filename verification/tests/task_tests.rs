use chrono::Datelike;
use gerenciador_tarefas::dates::Date;
use gerenciador_tarefas::task::{Category, Priority, Status, Task};

fn date_of(d: chrono::NaiveDate) -> Date {
    Date {
        year: d.year(),
        month: d.month() as u8,
        day: d.day() as u8,
    }
}

fn yesterday() -> Date {
    date_of(chrono::Local::now().date_naive() - chrono::Duration::days(1))
}

fn tomorrow() -> Date {
    date_of(chrono::Local::now().date_naive() + chrono::Duration::days(1))
}

#[test]
fn test_new_task() {
    let task = Task::new(
        1,
        "Estudar Rust".to_string(),
        "Completar Fase 1".to_string(),
        Category::Study,
        Priority::High,
        None,
    );

    assert_eq!(task.id, 1);
    assert_eq!(task.title, "Estudar Rust");
    assert_eq!(task.status, Status::Pending);
    assert!(task.completed_at.is_none());
}

#[test]
fn task_test_complete_task() {
    let mut task = Task::new(
        1,
        "Test".to_string(),
        "Desc".to_string(),
        Category::Work,
        Priority::Medium,
        None,
    );

    task.complete();

    assert_eq!(task.status, Status::Completed);
    assert!(task.completed_at.is_some());
}

#[test]
fn test_is_overdue() {
    let task = Task::new(
        1,
        "Test".to_string(),
        "Desc".to_string(),
        Category::Work,
        Priority::High,
        Some(yesterday()),
    );

    assert!(task.is_overdue());
}

#[test]
fn test_not_overdue_when_completed() {
    let mut task = Task::new(
        1,
        "Test".to_string(),
        "Desc".to_string(),
        Category::Work,
        Priority::High,
        Some(yesterday()),
    );

    task.complete();

    assert!(!task.is_overdue());
}

#[test]
fn test_start_task() {
    let mut task = Task::new(
        1,
        "Test".to_string(),
        "Desc".to_string(),
        Category::Work,
        Priority::Medium,
        None,
    );

    task.start();

    assert_eq!(task.status, Status::InProgress);
}

#[test]
fn start_is_idempotent_and_completed_is_terminal() {
    let mut once = Task::new(
        1,
        "Test".to_string(),
        "Desc".to_string(),
        Category::Work,
        Priority::Medium,
        None,
    );
    once.start();
    let mut twice = once.clone();
    twice.start();
    assert_eq!(once.status, twice.status);
    assert_eq!(once.completed_at, twice.completed_at);

    let mut done = Task::new(
        2,
        "Done".to_string(),
        "Desc".to_string(),
        Category::Work,
        Priority::Low,
        None,
    );
    done.complete();
    done.start();
    assert_eq!(done.status, Status::Completed);
}

#[test]
fn overdue_depends_on_date_and_status() {
    let future = Task::new(
        1,
        "Later".to_string(),
        "Desc".to_string(),
        Category::Other,
        Priority::Low,
        Some(tomorrow()),
    );
    assert!(!future.is_overdue());

    let none = Task::new(
        2,
        "No due".to_string(),
        "Desc".to_string(),
        Category::Other,
        Priority::Low,
        None,
    );
    assert!(!none.is_overdue());

    let day = Date { year: 2024, month: 5, day: 10 };
    let before = Task::new(
        3,
        "Past".to_string(),
        "Desc".to_string(),
        Category::Other,
        Priority::Low,
        Some(Date { year: 2024, month: 5, day: 9 }),
    );
    assert!(before.is_overdue_on(&day));
    let same = Task::new(
        4,
        "Today".to_string(),
        "Desc".to_string(),
        Category::Other,
        Priority::Low,
        Some(day),
    );
    assert!(!same.is_overdue_on(&day));
}

#[test]
fn date_order_is_lexicographic() {
    let a = Date { year: 2023, month: 12, day: 31 };
    let b = Date { year: 2024, month: 1, day: 1 };
    let c = Date { year: 2024, month: 1, day: 2 };
    assert!(a.is_before(&b));
    assert!(b.is_before(&c));
    assert!(!c.is_before(&a));
    assert!(!b.is_before(&b));
}

#[test]
fn enum_labels_and_breadth() {
    assert_eq!(Category::all().len(), 5);
    assert_eq!(Priority::all().len(), 3);
    assert_eq!(Category::Work.as_str(), "Trabalho");
    assert_eq!(Category::Health.as_str(), "Saúde");
    assert_eq!(Priority::Medium.as_str(), "Média");
    assert_eq!(Status::Completed.as_str(), "Concluída");
    assert_eq!(Status::InProgress.as_str(), "Em Andamento");
}
