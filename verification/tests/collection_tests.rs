use rtask::extras::{ExtraData, ExtraMap};
use rtask::numbering::{
    largest_number, number_in_order, smallest_number_of, NumericalIds, Numbers,
};
use rtask::tags::Tags;
use rtask::task::Task;

fn tags(names: &[&str]) -> Tags {
    Tags::from_vec(names.iter().map(|n| n.to_string()).collect())
}

#[test]
fn tags_are_a_set_of_names() {
    let mut t = Tags::new();
    assert!(t.is_empty());
    assert_eq!(t.len(), 0);
    assert!(t.insert("a".to_string()));
    assert!(t.insert("b".to_string()));
    assert!(!t.insert("a".to_string()));
    assert_eq!(t.len(), 2);
    assert!(t.contains("a"));
    assert!(!t.contains("c"));
    assert!(!t.is_empty());
    assert!(t.remove("a"));
    assert!(!t.remove("a"));
    assert!(!t.contains("a"));
    assert_eq!(t.len(), 1);
    assert_eq!(t.to_vec(), vec!["b".to_string()]);
}

#[test]
fn tags_are_equal_whatever_their_order() {
    assert_eq!(tags(&["a", "b", "c"]), tags(&["c", "a", "b", "a"]));
    assert_ne!(tags(&["a", "b"]), tags(&["a", "c"]));
    assert_ne!(tags(&["a", "b"]), tags(&["a"]));
    assert_ne!(tags(&["a"]), tags(&["a", "b"]));
    assert_eq!(tags(&[]), Tags::new());
    assert_eq!(tags(&["a", "b"]).clone(), tags(&["b", "a"]));
    let mut sorted = tags(&["b", "a", "b"]).to_vec();
    sorted.sort();
    assert_eq!(sorted, vec!["a".to_string(), "b".to_string()]);
}

#[test]
fn sets_of_tags_are_joined_and_parted() {
    let mut t = tags(&["a", "b"]);
    t.insert_all(&tags(&["b", "c"]));
    assert_eq!(t, tags(&["a", "b", "c"]));
    t.remove_all(&tags(&["a", "x"]));
    assert_eq!(t, tags(&["b", "c"]));
    assert!(tags(&["b"]).is_subset(&t));
    assert!(tags(&[]).is_subset(&t));
    assert!(!tags(&["b", "x"]).is_subset(&t));
    assert!(tags(&["x", "y"]).is_disjoint(&t));
    assert!(!tags(&["x", "c"]).is_disjoint(&t));
    assert!(tags(&[]).is_disjoint(&t));
}

#[test]
fn extras_keep_one_text_for_a_kind() {
    let mut e = ExtraMap::new();
    assert_eq!(e.len(), 0);
    assert_eq!(e.get(ExtraData::Notes), None);
    e.insert(ExtraData::Notes, "first".to_string());
    assert_eq!(e.get(ExtraData::Notes), Some(&"first".to_string()));
    e.insert(ExtraData::Notes, "second".to_string());
    assert_eq!(e.get(ExtraData::Notes), Some(&"second".to_string()));
    assert_eq!(e.len(), 1);
    let copy = e.clone();
    assert_eq!(copy, e);
    assert_ne!(copy, ExtraMap::new());
    let mut other = ExtraMap::new();
    other.insert(ExtraData::Notes, "first".to_string());
    assert_ne!(other, e);
}

#[test]
fn numbers_are_kept_by_scope() {
    let mut ids = NumericalIds::new();
    assert!(ids.get("work").is_none());
    ids.insert("work", number_in_order(&[7, 8, 9]));
    ids.assign("home", 3, 7);
    ids.assign("work", 9, 10);
    let work = ids.get("work").unwrap();
    assert_eq!(work.get(&1), Some(&7));
    assert_eq!(work.get(&3), Some(&9));
    assert_eq!(work.get(&9), Some(&10));
    assert_eq!(work.len(), 4);
    assert_eq!(largest_number(work), Some(9));
    assert_eq!(smallest_number_of(work, 9), Some(3));
    assert_eq!(smallest_number_of(work, 11), None);
    assert_eq!(ids.get("home").unwrap().get(&3), Some(&7));
    ids.insert("work", Numbers::new());
    assert_eq!(largest_number(ids.get("work").unwrap()), None);
    assert!(ids.get("WORK").is_none());
    assert_eq!(ids.rows(), vec![("home".to_string(), 3, 7)]);
    assert_eq!(number_in_order(&[]).len(), 0);
}

#[test]
fn new_tasks_get_identifiers_of_their_own() {
    let a = Task::new("a");
    let b = Task::new("a");
    assert_ne!(a.uuid, b.uuid);
    assert_eq!(a.description, b.description);
    assert!(!b.created.is_after(&chrono_now()));
    assert!(!a.created.is_after(&b.created));
}

fn chrono_now() -> rtask::time::Time {
    let now = chrono::Utc::now();
    rtask::time::Time { secs: now.timestamp(), nanos: now.timestamp_subsec_nanos() }
}
