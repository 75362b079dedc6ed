use rtask::model::{Effect, FindTaskError, Model};
use rtask::tags::Tags;
use rtask::task::{Priority, Task, TaskState};
use rtask::task_ref::TaskRef;
use rtask::time::Time;

fn tags(names: &[&str]) -> Tags {
    Tags::from_vec(names.iter().map(|n| n.to_string()).collect())
}

fn task_with_id(description: &str, uuid: u128) -> Task {
    Task::create(description, uuid, Time { secs: 1_000_000, nanos: 0 })
}

#[test]
fn test_add_delete_task() {
    let mut m = Model::new();
    let t = Task::new("foo");
    m.add_task(t.clone());
    assert_eq!(m.get_task(&t.uuid), Some(&t));
    assert_eq!(m.delete_task(&t.uuid), Some(t.clone()));
    assert_eq!(m.get_task(&t.uuid), None);
}

#[test]
fn test_change_task_task() {
    let mut m = Model::new();
    let t = Task::new("foo");
    let uuid = t.uuid.clone();
    m.add_task(t.clone());
    assert_eq!(m.get_task(&uuid).unwrap().status, TaskState::Open);
    let now = chrono::Utc::now();
    let s = TaskState::Done(Time { secs: now.timestamp(), nanos: now.timestamp_subsec_nanos() });
    m.change_task_state(&uuid, s);
    assert_eq!(m.get_task(&uuid).unwrap().status, s);
}

#[test]
fn test_change_task_priority() {
    let mut m = Model::new();
    let t = Task::new("foo");
    let uuid = t.uuid.clone();
    m.add_task(t.clone());
    assert_eq!(m.get_task(&uuid).unwrap().priority, Priority::Default);
    m.change_task_priority(&uuid, Priority::High);
    assert_eq!(m.get_task(&uuid).unwrap().priority, Priority::High);
}

#[test]
fn model_test_numerical_ref() {
    assert_eq!(TaskRef::from_str("42"), Ok(TaskRef::Numerical(42)));
    assert_eq!(TaskRef::from_str("0"), Ok(TaskRef::Numerical(0)));
    assert!(TaskRef::from_str("-0").is_err());
}

#[test]
fn test_short_uuid_ref() {
    for s in vec!["abcdef", "123abc", "000000"] {
        assert_eq!(TaskRef::from_str(s), Ok(TaskRef::ShortUUID(s.into())));
    }

    assert!(TaskRef::from_str("abcde").is_err(), "Short-UUID with len of 5");
    assert!(TaskRef::from_str("abcdef1").is_err(), "Short-UUID with len of 7");

    // Make sure that short-UUIDs are preferred
    assert_eq!(TaskRef::from_str("123456"), Ok(TaskRef::ShortUUID("123456".into())));

    // non-base16 symbols
    assert!(TaskRef::from_str("rivers").is_err());
}

#[test]
fn test_full_uuid_ref() {
    for _ in 1..100 {
        let uuid = uuid::Uuid::new_v4();
        assert_eq!(
            TaskRef::from_str(&uuid.hyphenated().to_string()),
            Ok(TaskRef::FullUUID(uuid.as_u128()))
        );
    }
}

#[test]
fn test_incremental_numerical_id_empty_scope() {
    let mut m = Model::new();
    let t = Task::new("foo");
    let uuid = t.uuid.clone();
    m.add_task(t.clone());
    assert_eq!(m.incremental_numerical_id("defaut", &uuid), 1);
}

#[test]
fn test_incremental_numerical_id_already_exists() {
    let mut m = Model::new();
    let t = Task::new("foo");
    m.add_task(t.clone());
    m.recalculate_numerical_ids("default", &vec![t.uuid]);
    assert_eq!(m.incremental_numerical_id("default", &t.uuid), 1);
}

#[test]
fn test_incremental_numerical_id() {
    let mut m = Model::new();
    let t = Task::new("foo");
    let t2 = Task::new("bar");
    m.add_task(t.clone());
    m.recalculate_numerical_ids("default", &vec![t.uuid]);
    m.add_task(t2.clone());
    assert_eq!(m.short_task_id("default", &t.uuid), Some(1));
    assert_eq!(m.incremental_numerical_id("default", &t2.uuid), 2);
    assert_eq!(m.short_task_id("default", &t2.uuid), Some(2));
}

#[test]
fn replaying_the_same_log_gives_the_same_tasks() {
    let a = task_with_id("a", 1);
    let b = task_with_id("b", 2);
    let log = vec![
        Effect::AddTask(a.clone()),
        Effect::AddTask(b.clone()),
        Effect::ChangeTaskPriority(1, Priority::High),
        Effect::ChangeTaskTags { uuid: 2, added: tags(&["x", "y"]), removed: tags(&[]) },
        Effect::ChangeTaskState(2, TaskState::Done(Time { secs: 5, nanos: 6 })),
        Effect::DeleteTask(1),
    ];
    let first = Model::from_effects(&log);
    let second = Model::from_effects(&log);
    assert_eq!(first.task_count(), 1);
    assert_eq!(second.task_count(), 1);
    assert_eq!(first.get_task(&1), None);
    assert_eq!(first.get_task(&2), second.get_task(&2));
    let left = first.get_task(&2).unwrap();
    assert_eq!(left.tags, tags(&["y", "x"]));
    assert_eq!(left.status, TaskState::Done(Time { secs: 5, nanos: 6 }));
    assert_eq!(first.applied_effects(), &log);

    // applying the effects one by one gives what loading the log gives
    let mut step = Model::new();
    for effect in &log {
        assert!(step.accepts(effect));
        step.apply_effect(effect);
    }
    assert_eq!(step.get_task(&2), first.get_task(&2));
    assert_eq!(step.applied_effects(), first.applied_effects());
}

#[test]
fn a_log_that_does_not_fit_is_not_loaded() {
    let a = task_with_id("a", 1);
    assert!(Model::try_from_effects(&[Effect::AddTask(a.clone()), Effect::AddTask(a.clone())])
        .is_none());
    assert!(Model::try_from_effects(&[Effect::DeleteTask(1)]).is_none());
    assert!(Model::try_from_effects(&[Effect::ChangeTaskPriority(1, Priority::Low)]).is_none());
    assert!(Model::try_from_effects(&[Effect::AddTask(a.clone()), Effect::DeleteTask(1)])
        .is_some());
    let m = Model::new();
    assert!(m.accepts(&Effect::AddTask(a)));
    assert!(!m.accepts(&Effect::DeleteTask(1)));
}

#[test]
fn an_added_task_is_found_and_a_deleted_one_is_gone() {
    let mut m = Model::new();
    let t = Task::new("round trip");
    m.apply_effect(&Effect::AddTask(t.clone()));
    assert_eq!(m.get_task(&t.uuid), Some(&t));
    m.apply_effect(&Effect::DeleteTask(t.uuid));
    assert_eq!(m.get_task(&t.uuid), None);
    assert_eq!(m.applied_effects().len(), 2);
}

#[test]
fn adding_a_tag_twice_is_adding_it_once() {
    let mut m = Model::new();
    let t = task_with_id("tagged", 7);
    m.apply_effect(&Effect::AddTask(t));
    let change = Effect::ChangeTaskTags { uuid: 7, added: tags(&["a"]), removed: tags(&[]) };
    m.apply_effect(&change);
    let once = m.get_task(&7).unwrap().tags.clone();
    m.apply_effect(&change);
    let twice = m.get_task(&7).unwrap().tags.clone();
    assert_eq!(once, twice);
    assert_eq!(once, tags(&["a"]));
    assert_eq!(twice.len(), 1);
}

#[test]
fn a_tag_that_is_removed_and_added_stays() {
    let mut m = Model::new();
    let mut t = task_with_id("tagged", 7);
    t.tags = tags(&["a", "b"]);
    m.apply_effect(&Effect::AddTask(t));
    m.apply_effect(&Effect::ChangeTaskTags {
        uuid: 7,
        added: tags(&["a", "c"]),
        removed: tags(&["a", "b"]),
    });
    assert_eq!(m.get_task(&7).unwrap().tags, tags(&["a", "c"]));
}

#[test]
fn six_digits_are_read_as_the_beginning_of_an_identifier() {
    let mut m = Model::new();
    let id: u128 = 0x1234_5678_0000_4000_8000_0000_0000_0001;
    let other: u128 = 0x6543_2100_0000_4000_8000_0000_0000_0002;
    m.apply_effect(&Effect::AddTask(task_with_id("hex", id)));
    m.apply_effect(&Effect::AddTask(task_with_id("other", other)));
    // the scope has numbers, but none is 123456
    m.recalculate_numerical_ids("work", &[other]);
    let reference = TaskRef::from_str("123456").unwrap();
    assert_eq!(reference, TaskRef::ShortUUID("123456".to_string()));
    assert_eq!(m.find_task("work", &reference).map(|t| t.uuid), Ok(id));
    // the number one of the scope is the other task
    let one = TaskRef::from_str("1").unwrap();
    assert_eq!(m.find_task("work", &one).map(|t| t.uuid), Ok(other));
}

#[test]
fn a_shared_beginning_is_ambiguous() {
    let mut m = Model::new();
    let a: u128 = 0xabcd_ef00_0000_4000_8000_0000_0000_0001;
    let b: u128 = 0xabcd_ef11_0000_4000_8000_0000_0000_0002;
    let c: u128 = 0xabcd_e000_0000_4000_8000_0000_0000_0003;
    m.apply_effect(&Effect::AddTask(task_with_id("a", a)));
    m.apply_effect(&Effect::AddTask(task_with_id("b", b)));
    m.apply_effect(&Effect::AddTask(task_with_id("c", c)));
    let shared = TaskRef::ShortUUID("abcdef".to_string());
    assert_eq!(m.find_task("default", &shared), Err(FindTaskError::MultipleResults));
    let single = TaskRef::ShortUUID("abcde0".to_string());
    assert_eq!(m.find_task("default", &single).map(|t| t.uuid), Ok(c));
    let none = TaskRef::ShortUUID("000000".to_string());
    assert_eq!(m.find_task("default", &none), Err(FindTaskError::TaskNotFound));
    // the digits are compared as they are written: the simple form is in lower case
    let upper = TaskRef::ShortUUID("ABCDE0".to_string());
    assert_eq!(m.find_task("default", &upper), Err(FindTaskError::TaskNotFound));
}

#[test]
fn a_whole_identifier_resolves_to_its_task_only() {
    let mut m = Model::new();
    let a: u128 = 0xabcd_ef00_0000_4000_8000_0000_0000_0001;
    m.apply_effect(&Effect::AddTask(task_with_id("a", a)));
    assert_eq!(m.find_task("default", &TaskRef::FullUUID(a)).map(|t| t.uuid), Ok(a));
    assert_eq!(m.find_task("default", &TaskRef::FullUUID(a + 1)), Err(FindTaskError::TaskNotFound));
    let typed = TaskRef::from_str("abcdef00-0000-4000-8000-000000000001").unwrap();
    assert_eq!(typed, TaskRef::FullUUID(a));
}

#[test]
fn tasks_are_listed_by_priority_when_created_together() {
    let mut m = Model::new();
    let mut low = task_with_id("low", 1);
    low.priority = Priority::Low;
    let default = task_with_id("default", 2);
    let mut high = task_with_id("high", 3);
    high.priority = Priority::High;
    m.apply_effect(&Effect::AddTask(low));
    m.apply_effect(&Effect::AddTask(default));
    m.apply_effect(&Effect::AddTask(high));
    let order: Vec<u128> = m.all_tasks().iter().map(|t| t.uuid).collect();
    assert_eq!(order, vec![3, 2, 1]);
    let now = Time { secs: 2_000_000, nanos: 0 };
    let order: Vec<u128> = m.all_tasks_at(&now).iter().map(|t| t.uuid).collect();
    assert_eq!(order, vec![3, 2, 1]);
}

#[test]
fn of_equally_urgent_tasks_the_newer_comes_first() {
    let mut m = Model::new();
    // one tag makes up for 8640 seconds of age
    let mut newer = Task::create("newer", 1, Time { secs: 108_640, nanos: 0 });
    newer.tags = tags(&["t"]);
    let older = Task::create("older", 2, Time { secs: 100_000, nanos: 0 });
    let oldest = Task::create("oldest", 3, Time { secs: 50_000, nanos: 0 });
    let now = Time { secs: 200_000, nanos: 0 };
    assert_eq!(newer.urgency_at(&now), older.urgency_at(&now));
    m.apply_effect(&Effect::AddTask(older));
    m.apply_effect(&Effect::AddTask(oldest));
    m.apply_effect(&Effect::AddTask(newer));
    let order: Vec<u128> = m.all_tasks_at(&now).iter().map(|t| t.uuid).collect();
    assert_eq!(order, vec![3, 1, 2]);
}

#[test]
fn numbers_belong_to_their_scope() {
    let mut m = Model::new();
    m.apply_effect(&Effect::AddTask(task_with_id("a", 10)));
    m.apply_effect(&Effect::AddTask(task_with_id("b", 20)));
    m.recalculate_numerical_ids("work", &[10, 20]);
    assert_eq!(m.find_task("work", &TaskRef::Numerical(1)).map(|t| t.uuid), Ok(10));
    assert_eq!(m.find_task("work", &TaskRef::Numerical(2)).map(|t| t.uuid), Ok(20));
    assert_eq!(m.find_task("work", &TaskRef::Numerical(3)), Err(FindTaskError::TaskNotFound));
    assert_eq!(m.find_task("work", &TaskRef::Numerical(0)), Err(FindTaskError::TaskNotFound));
    assert_eq!(m.find_task("personal", &TaskRef::Numerical(1)), Err(FindTaskError::TaskNotFound));
    // a new listing takes the place of the old numbers
    m.recalculate_numerical_ids("work", &[20]);
    assert_eq!(m.find_task("work", &TaskRef::Numerical(1)).map(|t| t.uuid), Ok(20));
    assert_eq!(m.find_task("work", &TaskRef::Numerical(2)), Err(FindTaskError::TaskNotFound));
    // a number may stand for a task that is gone
    m.apply_effect(&Effect::DeleteTask(20));
    assert_eq!(m.find_task("work", &TaskRef::Numerical(1)), Err(FindTaskError::TaskNotFound));
}

#[test]
fn a_loaded_store_is_clean_until_an_effect_is_applied() {
    let log = vec![Effect::AddTask(task_with_id("a", 1))];
    let mut m = Model::from_effects(&log);
    assert_eq!(m.is_dirty(), false);
    assert_eq!(Model::new().is_dirty(), false);
    m.apply_effect(&Effect::ChangeTaskPriority(1, Priority::Low));
    assert_eq!(m.is_dirty(), true);
    m.recalculate_numerical_ids("default", &[1]);
    assert_eq!(m.is_dirty(), true);
    m.apply_effect(&Effect::DeleteTask(1));
    assert_eq!(m.is_dirty(), true);
    let mut n = Model::new();
    n.recalculate_numerical_ids("default", &[]);
    assert_eq!(n.is_dirty(), true);
}

#[test]
fn only_the_effects_that_were_not_stored_are_pending() {
    let log = vec![
        Effect::AddTask(task_with_id("a", 1)),
        Effect::AddTask(task_with_id("b", 2)),
    ];
    let mut m = Model::from_effects(&log);
    assert_eq!(m.pending_effects(2), vec![]);
    m.apply_effect(&Effect::DeleteTask(1));
    assert_eq!(m.pending_effects(2), vec![Effect::DeleteTask(1)]);
    assert_eq!(m.pending_effects(0).len(), 3);
    assert_eq!(m.pending_effects(7), vec![]);
}

#[test]
fn numbers_are_handed_out_as_rows_and_taken_back() {
    let mut m = Model::new();
    m.apply_effect(&Effect::AddTask(task_with_id("a", 10)));
    m.recalculate_numerical_ids("work", &[10, 11]);
    m.assign_numerical_id("home", 5, 10);
    let mut rows = m.numerical_ids().rows();
    rows.sort();
    assert_eq!(
        rows,
        vec![
            ("home".to_string(), 5, 10),
            ("work".to_string(), 1, 10),
            ("work".to_string(), 2, 11),
        ]
    );
    let mut ids = rtask::numbering::NumericalIds::new();
    for (scope, n, id) in rows {
        ids.assign(&scope, n, id);
    }
    let mut loaded = Model::from_effects(&[Effect::AddTask(task_with_id("a", 10))]);
    loaded.set_numerical_ids(ids);
    assert_eq!(loaded.is_dirty(), false);
    assert_eq!(loaded.short_task_id("home", &10), Some(5));
    assert_eq!(loaded.short_task_id("work", &10), Some(1));
    assert_eq!(loaded.short_task_id("work", &12), None);
    assert_eq!(loaded.incremental_numerical_id("home", &10), 5);
    assert_eq!(loaded.is_dirty(), false);
}

#[test]
fn the_smallest_number_of_a_task_is_its_short_id() {
    let mut m = Model::new();
    m.apply_effect(&Effect::AddTask(task_with_id("a", 10)));
    m.recalculate_numerical_ids("work", &[11, 10, 10]);
    assert_eq!(m.short_task_id("work", &10), Some(2));
    assert_eq!(m.short_task_id("nowhere", &10), None);
}

#[test]
fn effects_are_told_to_the_user() {
    let mut m = Model::new();
    let id: u128 = 0xabcd_ef00_0000_4000_8000_0000_0000_0001;
    let add = Effect::AddTask(task_with_id("write", id));
    m.apply_effect(&add);
    assert_eq!(add.print(&m), vec!["Added Task abcdef".to_string()]);
    let done = Effect::ChangeTaskState(id, TaskState::Done(Time { secs: 1, nanos: 0 }));
    assert_eq!(done.print(&m), vec!["Marking task 'write' as done".to_string()]);
    let open = Effect::ChangeTaskState(id, TaskState::Open);
    assert_eq!(open.print(&m), vec!["Marking task 'write' as open".to_string()]);
    let canceled = Effect::ChangeTaskState(id, TaskState::Canceled(Time { secs: 1, nanos: 0 }));
    assert_eq!(canceled.print(&m), vec!["Marking task 'write' as canceled".to_string()]);
    let priority = Effect::ChangeTaskPriority(id, Priority::High);
    assert_eq!(priority.print(&m), vec!["Changed priority of task 'write' to H".to_string()]);
    let delete = Effect::DeleteTask(id);
    assert_eq!(delete.print(&m), vec!["Deleted task 'write'".to_string()]);
    let change = Effect::ChangeTaskTags { uuid: id, added: tags(&["a\"b"]), removed: tags(&[]) };
    assert_eq!(change.print(&m), vec!["Added tags {\"a\\\"b\"}".to_string()]);
    let both = Effect::ChangeTaskTags { uuid: id, added: tags(&["x"]), removed: tags(&["y"]) };
    assert_eq!(
        both.print(&m),
        vec!["Added tags {\"x\"}".to_string(), "Removed tags {\"y\"}".to_string()]
    );
    let neither = Effect::ChangeTaskTags { uuid: id, added: tags(&[]), removed: tags(&[]) };
    assert_eq!(neither.print(&m), Vec::<String>::new());
    assert_eq!(FindTaskError::TaskNotFound.to_string(), "Couldn't find task");
    assert_eq!(FindTaskError::MultipleResults.to_string(), "Found multiple tasks");
}
