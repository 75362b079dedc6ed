use rtask::command::{Command, Flag, ParseError};
use rtask::tags::Tags;
use rtask::task::{Priority, Task};
use rtask::task_ref::{TaskRef, TaskRefError};
use rtask::time::Time;

fn tags(names: &[&str]) -> Tags {
    Tags::from_vec(names.iter().map(|n| n.to_string()).collect())
}

fn check_list() {
    let c = Command::from_slice(&["list"]);
    assert_eq!(c, Ok(Command::List(Default::default())));

    let c = Command::from_slice(&["list", "+foo"]);
    assert_eq!(c, Ok(Command::List(vec![Flag::TagPositive("foo".into())])));

    let c = Command::from_slice(&["list", "-foo"]);
    assert_eq!(c, Ok(Command::List(vec![Flag::TagNegative("foo".into())])));

    let c = Command::from_slice(&["list", "+foo", "-bar", "p:h"]);
    assert_eq!(
        c,
        Ok(Command::List(vec![
            Flag::TagPositive("foo".into()),
            Flag::TagNegative("bar".into()),
            Flag::Priority(Priority::High)
        ]))
    );

    assert!(Command::from_slice(&["list", "unimplemented"]).is_err());
}

fn check_add() {
    let c = Command::from_slice(&vec!["add", "foo"]);
    assert_eq!(c, Ok(Command::Add("foo".into(), vec![])));

    let c = Command::from_slice(&vec!["add", "foo", "bar"]);
    assert_eq!(c, Ok(Command::Add("foo bar".into(), vec![])));
}

fn check_tag_flag_semantics() {
    let params = vec!["add", "+foo", "my title containing +42", "priority:h", "+42 foo"];
    if let Command::Add(title, flags) = Command::from_slice(&params).unwrap() {
        assert_eq!(title, "my title containing +42");
        assert_eq!(
            flags,
            vec![
                Flag::TagPositive("foo".into()),
                Flag::Priority(Priority::High),
                Flag::TagPositive("42 foo".into())
            ]
        );
    } else {
        assert!(false, "Command parsing failed");
    }
}

fn check_default() {
    let empty: [&'static str; 0] = [];
    let c = Command::from_slice(&empty);
    assert_eq!(c, Ok(Command::List(Default::default())));
}

#[test]
fn mod_test_list() {
    check_list();
}

#[test]
fn mod_test_add() {
    check_add();
}

#[test]
fn mod_test_tag_flag_semantics() {
    check_tag_flag_semantics();
}

#[test]
fn mod_test_default() {
    check_default();
}

#[test]
fn command_test_list() {
    check_list();
}

#[test]
fn command_test_add() {
    check_add();
}

#[test]
fn command_test_tag_flag_semantics() {
    check_tag_flag_semantics();
}

#[test]
fn command_test_default() {
    check_default();
}

#[test]
fn commands_test_list() {
    check_list();
}

#[test]
fn commands_test_add() {
    check_add();
}

#[test]
fn commands_test_tag_flag_semantics() {
    check_tag_flag_semantics();
}

#[test]
fn commands_test_default() {
    check_default();
}

#[test]
fn references_come_before_the_command() {
    let one = TaskRef::Numerical(1);
    let hex = TaskRef::ShortUUID("abcdef".to_string());
    assert_eq!(Command::from_slice(&["1"]), Ok(Command::Show(vec![one.clone()])));
    assert_eq!(
        Command::from_slice(&["1", "abcdef", "show"]),
        Ok(Command::Show(vec![one.clone(), hex.clone()]))
    );
    assert_eq!(Command::from_slice(&["1", "done"]), Ok(Command::MarkDone(vec![one.clone()])));
    assert_eq!(
        Command::from_slice(&["1", "cancel"]),
        Ok(Command::MarkCanceled(vec![one.clone()]))
    );
    assert_eq!(Command::from_slice(&["1", "delete"]), Ok(Command::Delete(vec![one.clone()])));
    assert_eq!(
        Command::from_slice(&["1", "abcdef", "edit", "+a", "-b", "p:l", "+c", "p:h"]),
        Ok(Command::ChangeTaskProperties {
            task_refs: vec![one.clone(), hex.clone()],
            added_tags: tags(&["a", "c"]),
            removed_tags: tags(&["b"]),
            priority: Some(Priority::High),
        })
    );
    assert_eq!(
        Command::from_slice(&["1", "edit", "+a"]),
        Ok(Command::ChangeTaskProperties {
            task_refs: vec![one.clone()],
            added_tags: tags(&["a"]),
            removed_tags: tags(&[]),
            priority: None,
        })
    );
    // a word behind the command is not looked at
    assert_eq!(Command::from_slice(&["1", "done", "2"]), Ok(Command::MarkDone(vec![one])));
}

#[test]
fn words_that_are_no_command_are_told_so() {
    assert_eq!(
        Command::from_slice(&["1", "edit", "+a", "nope"]),
        Err(ParseError("Invalid flag set '[\"edit\", \"+a\", \"nope\"]'".to_string()))
    );
    assert_eq!(
        Command::from_slice(&["1", "frobnicate"]),
        Err(ParseError("Unknown command frobnicate".to_string()))
    );
    assert_eq!(
        Command::from_slice(&["frobnicate"]),
        Err(ParseError("Unknown command \"frobnicate\"".to_string()))
    );
    assert_eq!(
        Command::from_slice(&["add"]),
        Err(ParseError("Failed to parse parameters".to_string()))
    );
    assert_eq!(
        Command::from_slice(&["add", "+tag", "  "]),
        Err(ParseError("Failed to parse parameters".to_string()))
    );
    assert_eq!(
        Command::from_slice(&["list", "+ok", "bad"]),
        Err(ParseError("Found invalid flags".to_string()))
    );
    assert_eq!(
        Command::from_slice(&["1", "abcdef", "edit"]),
        Err(ParseError("Got no changes for task(s) [\"1\", \"abcdef\"]".to_string()))
    );
    assert_eq!(
        ParseError::from(TaskRefError("x".to_string())),
        ParseError("Failed to parse task-id".to_string())
    );
}

#[test]
fn the_title_is_made_of_the_words_that_are_no_flags() {
    assert_eq!(
        Command::from_slice(&["add", " buy ", "+shop", "milk  "]),
        Ok(Command::Add("buy  milk".to_string(), vec![Flag::TagPositive("shop".to_string())]))
    );
    // a word that looks like a priority but names none is part of the title
    assert_eq!(
        Command::from_slice(&["add", "p:x", "+"]),
        Ok(Command::Add("p:x +".to_string(), vec![]))
    );
}

#[test]
fn flags_are_read_as_the_patterns_read_them() {
    let priority = regex::Regex::new("^p(?:riority)?:(.+)$").unwrap();
    let positive = regex::Regex::new("^\\+(.+)$").unwrap();
    let negative = regex::Regex::new("^-(.+)$").unwrap();
    for word in [
        "", "p", "p:", "p:h", "p:H", "p:high", "p:low", "p:l", "p:m", "p:d", "p:default", "p:x",
        "priority:", "priority:h", "priority:L", "priority:medium", "priority:zzz", "prio:h",
        "p:riority:h", "pp:h", " p:h", "p:h ", "p:\nh", "p:h\n", "p: h", "P:h", "+", "+a",
        "+foo bar", "++", "+-", "+\n", "+a\nb", "+a\n", "-", "-a", "--", "-+a", "-a\nb", "a+b",
        "foo", "+é", "-ß", "p:İ", "p:Low", "+p:h", "-p:h", "p:+h", "p:-",
    ] {
        let first = |re: &regex::Regex| {
            re.captures(word).and_then(|c| c.get(1)).map(|m| m.as_str().to_string())
        };
        let expected = first(&priority)
            .and_then(|name| match name.to_lowercase().chars().next() {
                Some('l') => Some(Flag::Priority(Priority::Low)),
                Some('m') => Some(Flag::Priority(Priority::Default)),
                Some('d') => Some(Flag::Priority(Priority::Default)),
                Some('h') => Some(Flag::Priority(Priority::High)),
                _ => None,
            })
            .or(first(&positive).map(Flag::TagPositive))
            .or(first(&negative).map(Flag::TagNegative));
        assert_eq!(Flag::from_str(word), expected, "{:?}", word);
    }
}

#[test]
fn flags_select_and_change_tasks() {
    let mut task = Task::create("t", 1, Time { secs: 0, nanos: 0 });
    let high = Flag::Priority(Priority::High);
    let with = Flag::TagPositive("a".to_string());
    let without = Flag::TagNegative("a".to_string());
    assert!(!high.matches(&task));
    assert!(!with.matches(&task));
    assert!(without.matches(&task));
    high.apply_to(&mut task);
    with.apply_to(&mut task);
    assert_eq!(task.priority, Priority::High);
    assert_eq!(task.tags, tags(&["a"]));
    assert!(high.matches(&task));
    assert!(with.matches(&task));
    assert!(!without.matches(&task));
    without.apply_to(&mut task);
    assert_eq!(task.tags, tags(&[]));
    assert_eq!(high.to_string(), "priority:H");
    assert_eq!(Flag::Priority(Priority::Low).to_string(), "priority:L");
    assert_eq!(Flag::Priority(Priority::Default).to_string(), "priority:D");
    assert_eq!(with.to_string(), "+a");
    assert_eq!(without.to_string(), "-a");
    assert_eq!(with.clone(), with);
}
