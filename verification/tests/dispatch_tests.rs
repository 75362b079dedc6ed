use rtask::command::{Command, Flag};
use rtask::dispatch::{
    command_to_effects, effects_of, list_tasks, listing_rows, select_tasks, show_tasks, task_row,
    urgency_text, HandleCommandError, Outcome, Scope,
};
use rtask::model::{Effect, FindTaskError, Model};
use rtask::tags::Tags;
use rtask::task::{Priority, Task, TaskState};
use rtask::task_ref::TaskRef;
use rtask::printer::RowStyle;
use rtask::time::{Age, Time};

fn tags(names: &[&str]) -> Tags {
    Tags::from_vec(names.iter().map(|n| n.to_string()).collect())
}

fn store() -> Model {
    let mut m = Model::new();
    let mut a = Task::create("a", 0xaaaaaa00_0000_4000_8000_000000000001, Time { secs: 100, nanos: 0 });
    a.tags = tags(&["work"]);
    let mut b = Task::create("b", 0xbbbbbb00_0000_4000_8000_000000000002, Time { secs: 100, nanos: 0 });
    b.priority = Priority::High;
    let mut c = Task::create("c", 0xaaaaaa11_0000_4000_8000_000000000003, Time { secs: 100, nanos: 0 });
    c.tags = tags(&["work", "late"]);
    c.status = TaskState::Done(Time { secs: 200, nanos: 0 });
    m.apply_effect(&Effect::AddTask(a));
    m.apply_effect(&Effect::AddTask(b));
    m.apply_effect(&Effect::AddTask(c));
    m
}

const A: u128 = 0xaaaaaa00_0000_4000_8000_000000000001;
const B: u128 = 0xbbbbbb00_0000_4000_8000_000000000002;

#[test]
fn test_command_to_effect_no_noop_effects() {
    let mut m = Model::new();
    let t = Task::new("bar");
    m.apply_effect(&Effect::AddTask(t.clone()));

    let c = Command::ChangeTaskProperties {
        task_refs: vec![t.uuid.into()],
        added_tags: Tags::new(),
        removed_tags: Tags::new(),
        priority: None,
    };

    let effects = command_to_effects(&mut m, c, &Scope(None)).effects;
    assert!(effects.is_empty());
}

#[test]
fn the_scope_has_a_name_and_a_tag() {
    assert_eq!(Scope(None).as_tag(), None);
    assert_eq!(Scope(None).name(), "default");
    assert_eq!(Scope(Some("work".to_string())).as_tag(), Some("work".to_string()));
    assert_eq!(Scope(Some("work".to_string())).name(), "work");
}

#[test]
fn open_tasks_are_selected_by_every_flag() {
    let m = store();
    let now = Time { secs: 1_000, nanos: 0 };
    assert_eq!(select_tasks(&m, &vec![], &now), vec![B, A]);
    assert_eq!(select_tasks(&m, &vec![Flag::TagPositive("work".to_string())], &now), vec![A]);
    assert_eq!(select_tasks(&m, &vec![Flag::TagNegative("work".to_string())], &now), vec![B]);
    assert_eq!(
        select_tasks(
            &m,
            &vec![Flag::TagPositive("work".to_string()), Flag::Priority(Priority::High)],
            &now
        ),
        Vec::<u128>::new()
    );
}

#[test]
fn a_listing_numbers_the_tasks_of_the_scope() {
    let mut m = store();
    let now = Time { secs: 1_000, nanos: 0 };
    let work = Scope(Some("work".to_string()));
    assert_eq!(list_tasks(&mut m, vec![], &work, &now), vec![A]);
    assert_eq!(m.find_task("work", &TaskRef::Numerical(1)).map(|t| t.uuid), Ok(A));
    assert_eq!(m.find_task("default", &TaskRef::Numerical(1)), Err(FindTaskError::TaskNotFound));
    assert_eq!(list_tasks(&mut m, vec![], &Scope(None), &now), vec![B, A]);
    assert_eq!(m.find_task("default", &TaskRef::Numerical(1)).map(|t| t.uuid), Ok(B));
    assert_eq!(m.find_task("default", &TaskRef::Numerical(2)).map(|t| t.uuid), Ok(A));
    assert!(m.is_dirty());
    let made = effects_of(&mut m, Command::List(vec![]), &work, now, 1);
    assert_eq!(made, Outcome { effects: vec![], failures: vec![] });
    assert_eq!(m.short_task_id("work", &A), Some(1));
}

#[test]
fn adding_makes_one_effect_with_the_task() {
    let mut m = store();
    let now = Time { secs: 77, nanos: 5 };
    let command = Command::Add(
        "title".to_string(),
        vec![
            Flag::TagPositive("x".to_string()),
            Flag::TagNegative("work".to_string()),
            Flag::Priority(Priority::Low),
            Flag::TagPositive("work".to_string()),
            Flag::TagNegative("x".to_string()),
        ],
    );
    let made = effects_of(&mut m, command, &Scope(Some("work".to_string())), now, 42).effects;
    let mut expected = Task::create("title", 42, now);
    expected.priority = Priority::Low;
    expected.tags = tags(&["work"]);
    assert_eq!(made, vec![Effect::AddTask(expected)]);
    let plain =
        effects_of(&mut m, Command::Add("t".to_string(), vec![]), &Scope(None), now, 43).effects;
    assert_eq!(plain, vec![Effect::AddTask(Task::create("t", 43, now))]);
    assert_eq!(m.task_count(), 3);
}

#[test]
fn references_that_do_not_resolve_are_passed_over() {
    let mut m = store();
    let now = Time { secs: 77, nanos: 5 };
    let refs = || {
        vec![
            TaskRef::FullUUID(B),
            TaskRef::ShortUUID("aaaaaa".to_string()),
            TaskRef::Numerical(9),
            TaskRef::ShortUUID("aaaaaa00".to_string()),
        ]
    };
    let scope = Scope(None);
    let failures = || {
        vec![
            (
                TaskRef::ShortUUID("aaaaaa".to_string()),
                HandleCommandError::FindTaskError(FindTaskError::MultipleResults),
            ),
            (TaskRef::Numerical(9), HandleCommandError::FindTaskError(FindTaskError::TaskNotFound)),
        ]
    };
    assert_eq!(
        effects_of(&mut m, Command::Delete(refs()), &scope, now, 1),
        Outcome {
            effects: vec![Effect::DeleteTask(B), Effect::DeleteTask(A)],
            failures: failures()
        }
    );
    assert_eq!(
        effects_of(&mut m, Command::MarkDone(refs()), &scope, now, 1),
        Outcome {
            effects: vec![
                Effect::ChangeTaskState(B, TaskState::Done(now)),
                Effect::ChangeTaskState(A, TaskState::Done(now))
            ],
            failures: failures()
        }
    );
    assert_eq!(
        effects_of(&mut m, Command::MarkCanceled(refs()), &scope, now, 1),
        Outcome {
            effects: vec![
                Effect::ChangeTaskState(B, TaskState::Canceled(now)),
                Effect::ChangeTaskState(A, TaskState::Canceled(now))
            ],
            failures: failures()
        }
    );
    assert_eq!(
        effects_of(&mut m, Command::Show(refs()), &scope, now, 1),
        Outcome { effects: vec![], failures: vec![] }
    );
    assert!(!m.is_dirty() || m.applied_effects().len() == 3);
}

#[test]
fn changing_properties_changes_what_resolves_and_names_what_does_not() {
    let mut m = store();
    let now = Time { secs: 77, nanos: 5 };
    let scope = Scope(None);
    let change = |refs: Vec<TaskRef>| Command::ChangeTaskProperties {
        task_refs: refs,
        added_tags: tags(&["n"]),
        removed_tags: tags(&[]),
        priority: Some(Priority::Low),
    };
    assert_eq!(
        effects_of(&mut m, change(vec![TaskRef::FullUUID(A), TaskRef::FullUUID(B)]), &scope, now, 1),
        Outcome {
            effects: vec![
                Effect::ChangeTaskPriority(A, Priority::Low),
                Effect::ChangeTaskTags { uuid: A, added: tags(&["n"]), removed: tags(&[]) },
                Effect::ChangeTaskPriority(B, Priority::Low),
                Effect::ChangeTaskTags { uuid: B, added: tags(&["n"]), removed: tags(&[]) },
            ],
            failures: vec![]
        }
    );
    assert_eq!(
        effects_of(
            &mut m,
            change(vec![
                TaskRef::Numerical(1),
                TaskRef::FullUUID(A),
                TaskRef::ShortUUID("aaaaaa".to_string()),
                TaskRef::FullUUID(B),
            ]),
            &scope,
            now,
            1
        ),
        Outcome {
            effects: vec![
                Effect::ChangeTaskPriority(A, Priority::Low),
                Effect::ChangeTaskTags { uuid: A, added: tags(&["n"]), removed: tags(&[]) },
                Effect::ChangeTaskPriority(B, Priority::Low),
                Effect::ChangeTaskTags { uuid: B, added: tags(&["n"]), removed: tags(&[]) },
            ],
            failures: vec![
                (
                    TaskRef::Numerical(1),
                    HandleCommandError::FindTaskError(FindTaskError::TaskNotFound)
                ),
                (
                    TaskRef::ShortUUID("aaaaaa".to_string()),
                    HandleCommandError::FindTaskError(FindTaskError::MultipleResults)
                ),
            ]
        }
    );
    // one live task and a number that stands for nothing: the task is still changed
    let mut single = Model::new();
    let t = Task::new("only");
    single.apply_effect(&Effect::AddTask(t.clone()));
    let batch = Command::ChangeTaskProperties {
        task_refs: vec![t.uuid.into(), TaskRef::Numerical(99)],
        added_tags: tags(&[]),
        removed_tags: tags(&[]),
        priority: Some(Priority::High),
    };
    assert_eq!(
        command_to_effects(&mut single, batch, &scope),
        Outcome {
            effects: vec![Effect::ChangeTaskPriority(t.uuid, Priority::High)],
            failures: vec![(
                TaskRef::Numerical(99),
                HandleCommandError::FindTaskError(FindTaskError::TaskNotFound)
            )]
        }
    );
    let only_tags = Command::ChangeTaskProperties {
        task_refs: vec![TaskRef::FullUUID(A)],
        added_tags: tags(&[]),
        removed_tags: tags(&["work"]),
        priority: None,
    };
    assert_eq!(
        effects_of(&mut m, only_tags, &scope, now, 1).effects,
        vec![Effect::ChangeTaskTags { uuid: A, added: tags(&[]), removed: tags(&["work"]) }]
    );
    assert_eq!(
        HandleCommandError::from(FindTaskError::TaskNotFound),
        HandleCommandError::FindTaskError(FindTaskError::TaskNotFound)
    );
    assert_eq!(
        HandleCommandError::FindTaskError(FindTaskError::MultipleResults).to_string(),
        "Failed to find task: Found multiple tasks"
    );
    assert_eq!(
        HandleCommandError::FindTaskError(FindTaskError::TaskNotFound).to_string(),
        "Failed to find task: Couldn't find task"
    );
}

#[test]
fn a_command_is_carried_out_now_and_with_a_fresh_identifier() {
    let mut m = Model::new();
    let before = chrono::Utc::now().timestamp();
    let made = command_to_effects(&mut m, Command::Add("x".to_string(), vec![]), &Scope(None));
    let after = chrono::Utc::now().timestamp();
    assert!(made.failures.is_empty());
    match made.effects.as_slice() {
        [Effect::AddTask(task)] => {
            assert!(before <= task.created.secs && task.created.secs <= after);
            assert_eq!(task.created, task.modified);
            assert_eq!((task.uuid >> 76) & 0xf, 4);
            assert_eq!((task.uuid >> 62) & 0x3, 2);
            assert_eq!(task.description, "x");
        }
        other => panic!("{:?}", other),
    }
}

#[test]
fn urgency_is_shown_in_days_with_two_places() {
    assert_eq!(urgency_text(0), "0.00");
    assert_eq!(urgency_text(86_400), "0.01");
    assert_eq!(urgency_text(43_199), "0.00");
    assert_eq!(urgency_text(43_200), "0.01");
    assert_eq!(urgency_text(-43_199), "0.00");
    assert_eq!(urgency_text(-43_200), "-0.01");
    assert_eq!(urgency_text(43_200_000), "5.00");
    assert_eq!(urgency_text(-43_200_000 + 8_640), "-5.00");
    assert_eq!(urgency_text(-43_200_000 + 5 * 8_640), "-5.00");
    assert_eq!(urgency_text(-43_200_000 + 6 * 8_640), "-4.99");
    assert_eq!(urgency_text(8_640_000 * 123 + 86_400 * 45), "123.45");
    assert_eq!(urgency_text(i128::MAX), "19692266604220975894871215707856.96");
    assert_eq!(urgency_text(i128::MIN), "-19692266604220975894871215707856.96");
    assert_eq!(rtask::text::two_places_text(7), "0.07");
    assert_eq!(rtask::text::two_places_text(-1234), "-12.34");
    assert_eq!(rtask::text::digit_text(9), "9");
}

#[test]
fn a_listing_shows_a_row_for_each_task() {
    let mut m = store();
    let now = Time { secs: 100 + 3 * 86_400, nanos: 0 };
    let ids = list_tasks(&mut m, vec![], &Scope(None), &now);
    assert_eq!(ids, vec![B, A]);
    let rows = listing_rows(&m, &Scope(None), &ids, 10, &now);
    assert_eq!(rows.len(), 2);
    assert_eq!(rows[0].fields, vec!["1", "H", "3d", "b", "5.03"]);
    assert_eq!(rows[0].style, Some(RowStyle::of_row(0, Priority::High)));
    assert_eq!(rows[1].fields, vec!["2", "D", "3d", "a", "0.03"]);
    assert_eq!(rows[1].style, Some(RowStyle::of_row(1, Priority::Default)));
    assert_eq!(listing_rows(&m, &Scope(None), &ids, 1, &now).len(), 1);
    assert_eq!(listing_rows(&m, &Scope(None), &ids, 0, &now).len(), 0);
    // in a scope without numbers the beginning of the identifier is shown
    let other = listing_rows(&m, &Scope(Some("x".to_string())), &ids, 10, &now);
    assert_eq!(other[0].fields[0], "bbbbbb");
    let task = m.get_task(&A).unwrap();
    assert_eq!(task_row(task, Some(12), 4, &now).fields[0], "12");
}

#[test]
fn whole_seconds_are_counted_as_the_calendar_counts_them() {
    let times = [
        (0i64, 0u32),
        (0, 1),
        (0, 999_999_999),
        (1, 0),
        (1, 500_000_000),
        (-1, 0),
        (-1, 999_999_999),
        (-2, 1),
        (1_500_000_000, 123_456_789),
        (1_500_086_400, 123_456_788),
        (-62_135_596_800, 0),
        (253_402_300_799, 999_999_999),
    ];
    for a in times {
        for b in times {
            let x = chrono::DateTime::from_timestamp(a.0, a.1).unwrap();
            let y = chrono::DateTime::from_timestamp(b.0, b.1).unwrap();
            let expected = y.signed_duration_since(x).num_seconds() as i128;
            let earlier = Time { secs: a.0, nanos: a.1 };
            let later = Time { secs: b.0, nanos: b.1 };
            assert_eq!(later.seconds_since(&earlier), expected, "{:?} {:?}", a, b);
            assert_eq!(later.is_after(&earlier), y > x, "{:?} {:?}", a, b);
            assert_eq!(later > earlier, y > x, "{:?} {:?}", a, b);
        }
    }
}

#[test]
fn ages_are_shown_as_the_calendar_divides_them() {
    for s in [
        0i64, 1, 59, 60, 61, 3_599, 3_600, 86_399, 86_400, 604_799, 604_800, 1_000_000_000, -1,
        -59, -60, -3_600, -86_400, -604_800, -604_801,
    ] {
        let d = chrono::Duration::seconds(s);
        let expected = match (
            d.num_weeks(),
            d.num_days(),
            d.num_hours(),
            d.num_minutes(),
            d.num_seconds(),
        ) {
            (0, 0, 0, 0, n) => format!("{}s", n),
            (0, 0, 0, n, _) => format!("{}m", n),
            (0, 0, n, _, _) => format!("{}h", n),
            (0, n, _, _, _) => format!("{}d", n),
            (n, _, _, _, _) => format!("{}w", n),
        };
        assert_eq!(Age(s as i128).to_string(), expected, "{}", s);
    }
}

#[test]
fn showing_tells_what_is_found_and_whether_it_is_in_scope() {
    let m = store();
    let refs = vec![
        TaskRef::FullUUID(A),
        TaskRef::FullUUID(B),
        TaskRef::Numerical(1),
        TaskRef::ShortUUID("aaaaaa".to_string()),
    ];
    let work = Scope(Some("work".to_string()));
    let found: Vec<Option<(u128, bool)>> =
        show_tasks(&m, &refs, &work).iter().map(|f| f.map(|(t, inside)| (t.uuid, inside))).collect();
    assert_eq!(found, vec![Some((A, true)), Some((B, false)), None, None]);
    let found: Vec<Option<(u128, bool)>> = show_tasks(&m, &refs, &Scope(None))
        .iter()
        .map(|f| f.map(|(t, inside)| (t.uuid, inside)))
        .collect();
    assert_eq!(found, vec![Some((A, true)), Some((B, true)), None, None]);
}
