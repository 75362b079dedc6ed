use rtask::config::{Config, Scope};
use rtask::printer::{pad, spaces, Alignment, PrintError, PrintRow, Rgb, RowStyle, TablePrinter};
use rtask::tags::Tags;
use rtask::task::{Priority, StringExt, Task};
use rtask::terminal_size::{terminal_size, TerminalSize};
use rtask::time::{Age, Time};

fn row(fields: &[&str], style: Option<RowStyle>) -> PrintRow {
    PrintRow { fields: fields.iter().map(|f| f.to_string()).collect(), style }
}

fn printer() -> TablePrinter {
    let mut p = TablePrinter::new();
    p.titles = vec!["id".to_string(), "desc".to_string(), "u".to_string()];
    p.align("desc", Alignment::Left);
    p.align("u", Alignment::Left);
    p.align("u", Alignment::Right);
    p
}

#[test]
fn a_new_printer_has_no_columns() {
    let p = TablePrinter::new();
    assert!(p.titles.is_empty());
    assert!(p.alignments.is_empty());
    assert_eq!(p.width_limit, None);
    assert_eq!(p.alignment_of("desc"), Alignment::Center);
    assert_eq!(printer().alignment_of("desc"), Alignment::Left);
    assert_eq!(printer().alignment_of("u"), Alignment::Right);
    assert_eq!(printer().alignment_of("id"), Alignment::Center);
}

#[test]
fn columns_are_as_wide_as_their_longest_text() {
    let p = printer();
    let rows = vec![row(&["1", "write tests", "0"], None), row(&["12345", "x"], None)];
    assert_eq!(p.widths(&rows), vec![5, 11, 1]);
    assert_eq!(p.widths(&[]), vec![2, 4, 1]);
}

#[test]
fn a_table_is_laid_out_cell_by_cell() {
    let p = printer();
    let style = Some(RowStyle::of_row(0, Priority::High));
    let rows = vec![row(&["1", "write tests", "0"], style), row(&["12345", "x", "250"], None)];
    let table = p.print(&rows).unwrap();
    assert_eq!(
        table.header,
        vec![
            ("  ".to_string(), "id".to_string(), "   ".to_string()),
            ("    ".to_string(), "desc".to_string(), "     ".to_string()),
            ("  ".to_string(), "u".to_string(), "  ".to_string()),
        ]
    );
    assert_eq!(
        table.rows,
        vec![
            (
                vec!["   1   ".to_string(), " write tests ".to_string(), "   0 ".to_string()],
                style
            ),
            (vec![" 12345 ".to_string(), " x           ".to_string(), " 250 ".to_string()], None),
        ]
    );
}

#[test]
fn a_table_that_is_too_wide_is_not_laid_out() {
    let mut p = printer();
    let rows = vec![row(&["1", "write tests", "0"], None)];
    // the widths are 2, 11 and 1
    p.width_limit = Some(15);
    assert!(p.print(&rows).is_ok());
    p.width_limit = Some(14);
    assert_eq!(p.print(&rows).err(), Some(PrintError::TerminalTooNarrow));
    p.width_limit = Some(0);
    assert_eq!(p.print(&rows).err(), Some(PrintError::TerminalTooNarrow));
    assert_eq!(p.check_widths(&vec![usize::MAX, 5]), Err(PrintError::TerminalTooNarrow));
    p.width_limit = None;
    assert_eq!(p.check_widths(&vec![usize::MAX, 5]), Ok(()));
}

#[test]
fn texts_are_padded_by_blanks() {
    assert_eq!(spaces(0), "");
    assert_eq!(spaces(3), "   ");
    assert_eq!(pad("ab", 5, Alignment::Left), "ab   ");
    assert_eq!(pad("ab", 5, Alignment::Right), "   ab");
    assert_eq!(pad("ab", 5, Alignment::Center), " ab  ");
    assert_eq!(pad("ab", 6, Alignment::Center), "  ab  ");
    assert_eq!(pad("abcdef", 5, Alignment::Center), "abcdef");
    assert_eq!(pad("ab", 5, Alignment::Left), format!("{0:<1$}", "ab", 5));
    assert_eq!(pad("ab", 5, Alignment::Right), format!("{0:>1$}", "ab", 5));
    assert_eq!(pad("ab", 5, Alignment::Center), format!("{0:^1$}", "ab", 5));
    assert_eq!(pad("äb", 6, Alignment::Center), format!("{0:^1$}", "äb", 6));
}

#[test]
fn rows_are_set_off_by_their_place_and_priority() {
    assert_eq!(
        RowStyle::of_row(0, Priority::Default),
        RowStyle { foreground: None, background: Some(Rgb(40, 40, 40)) }
    );
    assert_eq!(
        RowStyle::of_row(1, Priority::High),
        RowStyle { foreground: Some(Rgb(250, 50, 50)), background: None }
    );
    assert_eq!(
        RowStyle::of_row(2, Priority::Low),
        RowStyle { foreground: Some(Rgb(150, 150, 150)), background: Some(Rgb(40, 40, 40)) }
    );
}

#[test]
fn long_texts_are_cut_by_bytes_and_characters() {
    assert_eq!("".ellipsize(1), "");
    assert_eq!("abcdefgh".ellipsize(4), "a...");
    assert_eq!("abcdefgh".ellipsize(3), "abc");
    assert_eq!("abcdefgh".ellipsize(8), "abcdefgh");
    assert_eq!("abcdefgh".ellipsize(7), "abcd...");
    // four characters in eight bytes
    assert_eq!("ääää".ellipsize(8), "ääää");
    assert_eq!("ääää".ellipsize(7), "ääää...");
    assert_eq!("ääää".ellipsize(5), "ää...");
    assert_eq!("ääää".ellipsize(2), "ää");
}

#[test]
fn the_terminal_size_falls_back_to_eighty_by_twenty_four() {
    let fallback = TerminalSize { columns: 80, rows: 24 };
    assert_eq!(terminal_size(None), fallback);
    assert_eq!(terminal_size(Some(TerminalSize { columns: 0, rows: 10 })), fallback);
    assert_eq!(terminal_size(Some(TerminalSize { columns: 10, rows: 0 })), fallback);
    let given = TerminalSize { columns: 132, rows: 43 };
    assert_eq!(terminal_size(Some(given)), given);
    assert_eq!(given.task_limit(), 39);
    assert_eq!(given.width_limit(), 120);
    assert_eq!(TerminalSize::fallback(), fallback);
}

#[test]
fn a_scope_holds_the_tasks_with_its_tags() {
    let tags = |names: &[&str]| Tags::from_vec(names.iter().map(|n| n.to_string()).collect());
    let scope = Scope {
        name: "work".to_string(),
        excluded_tags: tags(&["private"]),
        included_tags: tags(&["work", "now"]),
        default_tags: tags(&["work"]),
    };
    let mut task = Task::create("t", 1, Time { secs: 0, nanos: 0 });
    assert!(!scope.contains_task(&task));
    task.tags = tags(&["work", "now", "other"]);
    assert!(scope.contains_task(&task));
    task.tags = tags(&["work", "now", "private"]);
    assert!(!scope.contains_task(&task));
    task.tags = tags(&["work"]);
    assert!(!scope.contains_task(&task));
    assert!(Scope::default().contains_task(&task));
    assert_eq!(Scope::default().name, "default");
    let config = Config::default();
    assert!(config.scopes.is_empty());
    assert_eq!(config.default_scope, Scope::default());
}

#[test]
fn an_age_is_shown_by_its_largest_unit() {
    assert_eq!(Age(0).to_string(), "0s");
    assert_eq!(Age(59).to_string(), "59s");
    assert_eq!(Age(60).to_string(), "1m");
    assert_eq!(Age(3_599).to_string(), "59m");
    assert_eq!(Age(3_600).to_string(), "1h");
    assert_eq!(Age(86_399).to_string(), "23h");
    assert_eq!(Age(86_400).to_string(), "1d");
    assert_eq!(Age(604_799).to_string(), "6d");
    assert_eq!(Age(604_800).to_string(), "1w");
    assert_eq!(Age(6_048_000).to_string(), "10w");
    assert_eq!(Age(-5).to_string(), "-5s");
    assert_eq!(Age(-125).to_string(), "-2m");
    assert_eq!(Age(-86_400).to_string(), "-1d");
    assert_eq!(Age(125).coarsest(), (2, 'm'));
}

#[test]
fn urgency_counts_age_priority_and_tags() {
    let tags = |names: &[&str]| Tags::from_vec(names.iter().map(|n| n.to_string()).collect());
    let mut task = Task::create("t", 1, Time { secs: 1_000, nanos: 900_000_000 });
    let now = Time { secs: 87_400, nanos: 800_000_000 };
    // one day less a tenth of a second has passed
    assert_eq!(task.age_at(&now), Age(86_399));
    assert_eq!(task.urgency_at(&now), 86_399);
    task.priority = Priority::High;
    assert_eq!(task.urgency_at(&now), 86_399 + 43_200_000);
    task.priority = Priority::Low;
    task.tags = tags(&["a", "b"]);
    assert_eq!(task.urgency_at(&now), 86_399 - 43_200_000 + 2 * 8_640);
    let long_ago = Time { secs: i64::MIN, nanos: 0 };
    let far_ahead = Time { secs: i64::MAX, nanos: u32::MAX };
    task.created = long_ago;
    assert_eq!(
        task.urgency_at(&far_ahead),
        (i64::MAX as i128 - i64::MIN as i128) + 4 - 43_200_000 + 2 * 8_640
    );
    assert_eq!(Priority::Low.weight(), -43_200_000);
    assert_eq!(Priority::Default.weight(), 0);
    assert_eq!(Priority::High.weight(), 43_200_000);
    assert!(task.age().0 > 0);
    assert_eq!(Priority::default(), Priority::Default);
    assert_eq!(Priority::High.to_string(), "H");
    assert_eq!(Priority::Default.to_string(), "D");
    assert_eq!(Priority::Low.to_string(), "L");
}

#[test]
fn a_task_is_known_by_the_beginning_of_its_identifier() {
    let task = Task::create("t", 0x0123_4567_89ab_cdef_0123_4567_89ab_cdef, Time { secs: 0, nanos: 0 });
    assert_eq!(task.short_id(), "012345");
    assert_eq!(Task::create("t", 0xf, Time { secs: 0, nanos: 0 }).short_id(), "000000");
    assert!(task.is_open());
    let other = Task::create("t", 2, Time { secs: 0, nanos: 1 });
    // equally old in whole seconds: the newer comes first
    let now = Time { secs: 10, nanos: 1 };
    assert!(other.ranks_before_at(&task, &now));
    assert!(!task.ranks_before_at(&other, &now));
    assert!(!task.ranks_before_at(&task, &now));
    // a whole second older: the older comes first
    let now = Time { secs: 10, nanos: 0 };
    assert!(task.ranks_before_at(&other, &now));
    assert!(!other.ranks_before_at(&task, &now));
    assert!(Time { secs: 1, nanos: 0 }.is_after(&Time { secs: 0, nanos: 5 }));
    assert!(!Time { secs: 1, nanos: 0 }.is_after(&Time { secs: 1, nanos: 0 }));
    assert_eq!(Time { secs: i64::MIN, nanos: 0 }.minus_seconds(1), None);
    assert_eq!(Time { secs: 5, nanos: 7 }.minus_seconds(-3), Some(Time { secs: 8, nanos: 7 }));
}
