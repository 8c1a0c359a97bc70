use chrono::Datelike;
use gerenciador_tarefas::codec::{decode_tasks, encode_tasks};
use gerenciador_tarefas::dates::Date;
use gerenciador_tarefas::digits::u64_to_string;
use gerenciador_tarefas::errors::TaskError;
use gerenciador_tarefas::input::{confirm, read_number, read_option};
use gerenciador_tarefas::service::TaskService;
use gerenciador_tarefas::storage::Storage;
use gerenciador_tarefas::task::{Category, Priority, Task};

fn day_before_today() -> Date {
    let d = chrono::Local::now().date_naive() - chrono::Duration::days(1);
    Date {
        year: d.year(),
        month: d.month() as u8,
        day: d.day() as u8,
    }
}

#[test]
fn overdue_task_leaves_the_list_when_completed() {
    let mut service = TaskService::new();
    let a = service.add_task(
        "Write report".to_string(),
        "Quarterly".to_string(),
        Category::Work,
        Priority::High,
        Some(day_before_today()),
    );

    let overdue_ids: Vec<u32> = service.get_overdue().iter().map(|t| t.id).collect();
    assert!(overdue_ids.contains(&a.id));

    service.complete_task(a.id).unwrap();

    let overdue_ids: Vec<u32> = service.get_overdue().iter().map(|t| t.id).collect();
    assert!(!overdue_ids.contains(&a.id));
    assert!(service.get_by_id(a.id).unwrap().completed_at.is_some());
}

#[test]
fn delete_leaves_the_others_untouched() {
    let mut service = TaskService::new();
    let first = service.add_task(
        "One".to_string(),
        "d1".to_string(),
        Category::Work,
        Priority::High,
        None,
    );
    let second = service.add_task(
        "Two".to_string(),
        "d2".to_string(),
        Category::Personal,
        Priority::Medium,
        None,
    );
    let third = service.add_task(
        "Three".to_string(),
        "d3".to_string(),
        Category::Study,
        Priority::Low,
        None,
    );

    service.delete_task(second.id).unwrap();

    assert!(service.get_by_id(second.id).is_none());
    let one = service.get_by_id(first.id).unwrap();
    assert_eq!(one.title, "One");
    assert_eq!(one.description, "d1");
    assert_eq!(one.category, Category::Work);
    let three = service.get_by_id(third.id).unwrap();
    assert_eq!(three.title, "Three");
    assert_eq!(three.priority, Priority::Low);
}

#[test]
fn fresh_service_without_backing_file_is_empty() {
    let service = TaskService::from_saved(None).unwrap();
    assert_eq!(service.list_all().len(), 0);

    let corrupt = TaskService::from_saved(Some("not a saved collection"));
    assert_eq!(corrupt.unwrap_err(), TaskError::CorruptData);
}

#[test]
fn save_and_load_round_trip_field_for_field() {
    let mut service = TaskService::new();
    service.add_task(
        "Relatório ✏️".to_string(),
        "linhas;\ncom | separadores 7;".to_string(),
        Category::Health,
        Priority::Medium,
        Some(Date { year: 2024, month: 2, day: 29 }),
    );
    let b = service.add_task(
        "".to_string(),
        "".to_string(),
        Category::Other,
        Priority::Low,
        None,
    );
    service.complete_task(b.id).unwrap();
    let c = service.add_task(
        "Em andamento".to_string(),
        "x".to_string(),
        Category::Study,
        Priority::High,
        None,
    );
    service.start_task(c.id).unwrap();

    let saved = service.encoded();
    let reloaded = TaskService::from_saved(Some(saved.as_str())).unwrap();

    let before = service.list_all();
    let after = reloaded.list_all();
    assert_eq!(before.len(), after.len());
    for (x, y) in before.iter().zip(after.iter()) {
        assert_eq!(x.id, y.id);
        assert_eq!(x.title, y.title);
        assert_eq!(x.description, y.description);
        assert_eq!(x.category, y.category);
        assert_eq!(x.priority, y.priority);
        assert_eq!(x.status, y.status);
        assert_eq!(x.due_date, y.due_date);
        assert_eq!(x.created_at, y.created_at);
        assert_eq!(x.completed_at, y.completed_at);
    }

    let empty = TaskService::new();
    let saved_empty = empty.encoded();
    let reloaded_empty = TaskService::from_saved(Some(saved_empty.as_str())).unwrap();
    assert_eq!(reloaded_empty.list_all().len(), 0);
}

#[test]
fn ids_resume_above_the_largest_saved_id() {
    let mut service = TaskService::new();
    service.add_task("A".to_string(), "".to_string(), Category::Work, Priority::High, None);
    let b = service.add_task("B".to_string(), "".to_string(), Category::Work, Priority::High, None);
    let saved = service.encoded();

    let mut reloaded = TaskService::from_saved(Some(saved.as_str())).unwrap();
    let c = reloaded.add_task("C".to_string(), "".to_string(), Category::Work, Priority::High, None);
    assert_eq!(c.id, b.id + 1);
}

#[test]
fn decoder_rejects_damaged_text() {
    assert!(decode_tasks("").is_err());
    assert!(decode_tasks("0").is_err());
    assert!(decode_tasks("2;").is_err());

    let mut service = TaskService::new();
    service.add_task("A".to_string(), "".to_string(), Category::Work, Priority::High, None);
    let good = service.encoded();
    assert!(decode_tasks(good.as_str()).is_ok());
    let mut trailing = good.clone();
    trailing.push('x');
    assert!(decode_tasks(trailing.as_str()).is_err());
    let truncated = &good[0..good.len() - 1];
    assert!(decode_tasks(truncated).is_err());
}

#[test]
fn encoder_writes_what_the_decoder_reads() {
    let task = Task::new(
        9,
        "títle".to_string(),
        "desc".to_string(),
        Category::Personal,
        Priority::Low,
        Some(Date { year: -44, month: 3, day: 15 }),
    );
    let tasks = vec![task];
    let text = encode_tasks(&tasks);
    let back = decode_tasks(text.as_str()).unwrap();
    assert_eq!(back.len(), 1);
    assert_eq!(back[0].id, 9);
    assert_eq!(back[0].title, "títle");
    assert_eq!(back[0].due_date, Some(Date { year: -44, month: 3, day: 15 }));
    assert_eq!(back[0].created_at, tasks[0].created_at);
}

#[test]
fn load_rejects_duplicate_ids_and_bad_stamps() {
    let one = Task::new(
        1,
        "A".to_string(),
        "".to_string(),
        Category::Work,
        Priority::High,
        None,
    );
    let twin = one.clone();
    let dup = encode_tasks(&vec![one.clone(), twin]);
    assert_eq!(
        TaskService::from_saved(Some(dup.as_str())).unwrap_err(),
        TaskError::CorruptData
    );

    let mut bad = one.clone();
    bad.completed_at = Some(7);
    let stamped = encode_tasks(&vec![bad]);
    assert_eq!(
        TaskService::from_saved(Some(stamped.as_str())).unwrap_err(),
        TaskError::CorruptData
    );
}

#[test]
fn storage_names_its_backing_path() {
    let storage = Storage::new("data/tasks.txt".to_string());
    assert_eq!(storage.path().as_str(), "data/tasks.txt");
    let missing = Storage::new("data/surely_not_present_here.txt".to_string());
    assert!(!missing.file_exists());
}

#[test]
fn number_rendering_is_decimal() {
    assert_eq!(u64_to_string(0), "0");
    assert_eq!(u64_to_string(12345), "12345");
    assert_eq!(u64_to_string(u64::MAX), "18446744073709551615");
}

#[test]
fn line_readers_judge_their_input() {
    assert_eq!(read_number("42"), Some(42));
    assert_eq!(read_number("+7"), Some(7));
    assert_eq!(read_number("0042"), Some(42));
    assert_eq!(read_number("4294967295"), Some(u32::MAX));
    assert_eq!(read_number("4294967296"), None);
    assert_eq!(read_number(""), None);
    assert_eq!(read_number("+"), None);
    assert_eq!(read_number("12a"), None);

    assert_eq!(read_option("3", 5), Some(3));
    assert_eq!(read_option("6", 5), None);
    assert_eq!(read_option("x", 5), None);

    assert!(confirm("s"));
    assert!(confirm("SIM"));
    assert!(confirm("Yes"));
    assert!(confirm("y"));
    assert!(!confirm("não"));
    assert!(!confirm(""));
}
