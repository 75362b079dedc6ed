//! Tasks and the values derived from them.

use vstd::prelude::*;
use crate::extras::{ExtraData, ExtraMap};
use crate::ident::{fresh_uuid, is_random_uuid, simple_form, simple_text, Uuid};
use crate::tags::Tags;
use crate::text::{byte_len, lowercase, lowercased};
use crate::time::{Age, Time};

verus! {

/// The description of a task.
pub type Title = String;

/// The name of a tag.
pub type Tag = String;

/// What has become of a task.
#[derive(Clone, Copy, Debug, PartialEq, Eq, Structural)]
pub enum TaskState {
    Open,
    Done(Time),
    Canceled(Time),
}

/// How pressing a task is, as chosen by its owner.
#[derive(Clone, Copy, Debug, PartialEq, Eq, PartialOrd, Ord, Hash, Structural)]
pub enum Priority {
    Low,
    Default,
    High,
}

impl Default for Priority {
    fn default() -> (p: Self)
        ensures
            p == Priority::Default,
    {
        Priority::Default
    }
}

impl Priority {
    /// What a priority adds to a task's urgency: as much as 500 days of age
    /// for `High`, and as much taken away for `Low`.
    pub open spec fn spec_weight(self) -> int {
        match self {
            Priority::Low => -43_200_000,
            Priority::Default => 0,
            Priority::High => 43_200_000,
        }
    }

    /// What the priority adds to a task's urgency.
    pub fn weight(&self) -> (w: i128)
        ensures
            w == self.spec_weight(),
    {
        match self {
            Priority::Low => -43_200_000,
            Priority::Default => 0,
            Priority::High => 43_200_000,
        }
    }

    /// The priority named by an initial: `l` for low, `m` or `d` for the
    /// default, `h` for high.
    pub open spec fn spec_from_initial(initial: Option<char>) -> Result<Priority, ()> {
        match initial {
            Some('l') => Ok(Priority::Low),
            Some('m') => Ok(Priority::Default),
            Some('d') => Ok(Priority::Default),
            Some('h') => Ok(Priority::High),
            _ => Err(()),
        }
    }

    /// The priority named by an initial.
    pub fn from_initial(initial: Option<char>) -> (p: Result<Priority, ()>)
        ensures
            p == Self::spec_from_initial(initial),
    {
        match initial {
            Some('l') => Ok(Priority::Low),
            Some('m') => Ok(Priority::Default),
            Some('d') => Ok(Priority::Default),
            Some('h') => Ok(Priority::High),
            _ => Err(()),
        }
    }

    /// The priority that a text names: the one named by the first character
    /// of the text in lower case.
    pub open spec fn spec_from_str(text: Seq<char>) -> Result<Priority, ()> {
        let lower = lowercased(text);
        Self::spec_from_initial(if lower.len() > 0 { Some(lower[0]) } else { None })
    }

    /// The priority that `text` names, if it names one.
    pub fn from_str(text: &str) -> (p: Result<Priority, ()>)
        ensures
            p == Self::spec_from_str(text@),
    {
        let lower = lowercase(text);
        let initial = if lower.as_str().unicode_len() > 0 {
            Some(lower.as_str().get_char(0))
        } else {
            None
        };
        Priority::from_initial(initial)
    }

    /// The letter by which a priority is shown.
    pub open spec fn spec_letter(self) -> char {
        match self {
            Priority::Low => 'L',
            Priority::Default => 'D',
            Priority::High => 'H',
        }
    }

    /// The priority as it is shown: `L`, `D` or `H`.
    pub fn to_string(&self) -> (text: String)
        ensures
            text@ == seq![self.spec_letter()],
    {
        proof {
            reveal_strlit("L");
            reveal_strlit("D");
            reveal_strlit("H");
        }
        let text = match self {
            Priority::Low => "L",
            Priority::Default => "D",
            Priority::High => "H",
        };
        assert(text@ =~= seq![self.spec_letter()]);
        text.to_owned()
    }
}

/// A task as the contracts speak of it.
pub ghost struct TaskView {
    pub description: Seq<char>,
    pub status: TaskState,
    pub priority: Priority,
    pub created: Time,
    pub modified: Time,
    pub uuid: Uuid,
    pub tags: Set<Seq<char>>,
    pub extras: Map<ExtraData, Seq<char>>,
}

impl TaskView {
    /// The task as it is when it has just been created: open, of default
    /// priority, without tags or auxiliary data.
    pub open spec fn created_at(description: Seq<char>, uuid: Uuid, now: Time) -> TaskView {
        TaskView {
            description,
            status: TaskState::Open,
            priority: Priority::Default,
            created: now,
            modified: now,
            uuid,
            tags: Set::empty(),
            extras: Map::empty(),
        }
    }

    /// The urgency of the task at the time `now`. One second of age counts
    /// one, a tag counts a tenth of a day, and the priority counts
    /// [`Priority::spec_weight`].
    pub open spec fn urgency_at(self, now: Time) -> int {
        now.spec_seconds_since(self.created) + self.priority.spec_weight() + 8_640
            * self.tags.len()
    }

    /// Whether the task is listed before `other` at the time `now`: the more
    /// urgent task comes first, and of two that are equally urgent the one
    /// created later.
    pub open spec fn ranks_before_at(self, other: TaskView, now: Time) -> bool {
        self.urgency_at(now) > other.urgency_at(now) || (self.urgency_at(now) == other.urgency_at(
            now,
        ) && self.created.spec_is_after(other.created))
    }

    /// The first six characters of the simple form of the task's identifier.
    pub open spec fn short_id(self) -> Seq<char> {
        simple_form(self.uuid).take(6)
    }
}

/// A single to-do item.
#[derive(Debug, PartialEq, Eq)]
pub struct Task {
    pub description: Title,
    pub status: TaskState,
    pub priority: Priority,
    pub created: Time,
    pub modified: Time,
    pub uuid: Uuid,
    pub tags: Tags,
    pub extras: ExtraMap,
}

impl View for Task {
    type V = TaskView;

    open spec fn view(&self) -> TaskView {
        TaskView {
            description: self.description@,
            status: self.status,
            priority: self.priority,
            created: self.created,
            modified: self.modified,
            uuid: self.uuid,
            tags: self.tags@,
            extras: self.extras@,
        }
    }
}

impl Clone for Task {
    fn clone(&self) -> (copy: Self)
        ensures
            copy@ == self@,
    {
        Task {
            description: self.description.clone(),
            status: self.status,
            priority: self.priority,
            created: self.created,
            modified: self.modified,
            uuid: self.uuid,
            tags: self.tags.clone(),
            extras: self.extras.clone(),
        }
    }
}

impl Task {
    /// A new open task of default priority with the given identifier,
    /// created at the time `now`.
    pub fn create(description: &str, uuid: Uuid, now: Time) -> (task: Task)
        ensures
            task@ == TaskView::created_at(description@, uuid, now),
    {
        Task {
            description: description.to_owned(),
            status: TaskState::Open,
            priority: Priority::Default,
            created: now,
            modified: now,
            uuid,
            tags: Tags::new(),
            extras: ExtraMap::new(),
        }
    }

    /// A new open task of default priority, with a fresh random identifier
    /// and the current time as its time of creation.
    pub fn new(description: &str) -> (task: Task)
        ensures
            task@ == TaskView::created_at(description@, task.uuid, task.created),
            is_random_uuid(task.uuid),
    {
        let now = Time::now();
        Task::create(description, fresh_uuid(), now)
    }

    /// A new task as [`Task::new`] makes it, carrying the given tags.
    pub fn new_with_tags(description: &str, tags: Tags) -> (task: Task)
        ensures
            task@ == (TaskView {
                tags: tags@,
                ..TaskView::created_at(description@, task.uuid, task.created)
            }),
            is_random_uuid(task.uuid),
    {
        let mut task = Task::new(description);
        task.tags = tags;
        task
    }

    /// The urgency of the task at the time `now`.
    pub fn urgency_at(&self, now: &Time) -> (urgency: i128)
        ensures
            urgency == self@.urgency_at(*now),
    {
        let age = now.seconds_since(&self.created);
        let tags = self.tags.len();
        age + self.priority.weight() + 8_640 * (tags as i128)
    }

    /// The urgency of the task at the current time.
    pub fn urgency(&self) -> (urgency: i128)
        ensures
            exists|now: Time| urgency == self@.urgency_at(now),
    {
        let now = Time::now();
        self.urgency_at(&now)
    }

    /// How long ago the task was created, seen from the time `now`.
    pub fn age_at(&self, now: &Time) -> (age: Age)
        ensures
            age.0 == now.spec_seconds_since(self.created),
    {
        Age(now.seconds_since(&self.created))
    }

    /// How long ago the task was created.
    pub fn age(&self) -> (age: Age)
        ensures
            exists|now: Time| age.0 == now.spec_seconds_since(self.created),
    {
        let now = Time::now();
        self.age_at(&now)
    }

    /// The first six characters of the simple form of the identifier, by
    /// which the task is shown and can be referred to.
    pub fn short_id(&self) -> (text: String)
        ensures
            text@ == self@.short_id(),
    {
        proof {
            crate::ident::lemma_simple_form_len(self.uuid);
        }
        let full = simple_text(self.uuid);
        full.as_str().substring_char(0, 6).to_owned()
    }

    /// Whether the task is still open.
    pub fn is_open(&self) -> (open: bool)
        ensures
            open == (self.status == TaskState::Open),
    {
        match self.status {
            TaskState::Done(_) => false,
            TaskState::Open => true,
            TaskState::Canceled(_) => false,
        }
    }

    /// Whether the task is listed before `other` at the time `now`.
    pub fn ranks_before_at(&self, other: &Task, now: &Time) -> (before: bool)
        ensures
            before == self@.ranks_before_at(other@, *now),
    {
        let mine = self.urgency_at(now);
        let theirs = other.urgency_at(now);
        mine > theirs || (mine == theirs && self.created.is_after(&other.created))
    }
}

/// Whether a word asks for a tag to be added or to be removed.
#[derive(Debug, PartialEq, Eq, Clone, Copy, Structural)]
pub enum TagDirection {
    Added,
    Removed,
}

/// How a word is read as a tag: a leading `+` adds the tag named by the
/// rest of the word, a leading `-` removes it, and any other word is no tag.
pub open spec fn spec_as_tag(word: Seq<char>) -> Option<(TagDirection, Seq<char>)> {
    if word.len() > 0 && word[0] == '+' {
        Some((TagDirection::Added, word.skip(1)))
    } else if word.len() > 0 && word[0] == '-' {
        Some((TagDirection::Removed, word.skip(1)))
    } else {
        None
    }
}

/// A text cut down to a width. A text of at most `max_width` bytes stays
/// as it is. Of a longer one the first characters are kept: `max_width` of
/// them where `max_width` is at most three, else three fewer, with three
/// dots behind them.
pub open spec fn spec_ellipsize(text: Seq<char>, max_width: usize) -> Seq<char> {
    if byte_len(text) <= max_width {
        text
    } else if max_width > 3 {
        text.take(if max_width - 3 <= text.len() {
            max_width - 3
        } else {
            text.len() as int
        }) + seq!['.', '.', '.']
    } else {
        text.take(if max_width <= text.len() {
            max_width as int
        } else {
            text.len() as int
        })
    }
}

/// What the words of a command line offer beyond plain text.
pub trait StringExt: View<V = Seq<char>> {
    /// The word read as a tag, with the direction it asks for.
    fn as_tag(&self) -> (tag: Option<(TagDirection, Tag)>)
        ensures
            match tag {
                Some((direction, name)) => spec_as_tag(self@) == Some((direction, name@)),
                None => spec_as_tag(self@) is None,
            },
    ;

    /// The name of the tag that the word stands for.
    fn tag_name(&self) -> (name: Option<Tag>)
        ensures
            match name {
                Some(n) => spec_as_tag(self@) matches Some(t) && t.1 == n@,
                None => spec_as_tag(self@) is None,
            },
    {
        match self.as_tag() {
            Some((_, name)) => Some(name),
            None => None,
        }
    }

    /// The direction that the word asks for.
    fn tag_direction(&self) -> (direction: Option<TagDirection>)
        ensures
            match direction {
                Some(d) => spec_as_tag(self@) matches Some(t) && t.0 == d,
                None => spec_as_tag(self@) is None,
            },
    {
        match self.as_tag() {
            Some((direction, _)) => Some(direction),
            None => None,
        }
    }

    /// The name of the tag that the word asks to add.
    fn as_added_tag(&self) -> (name: Option<Tag>)
        ensures
            match name {
                Some(n) => spec_as_tag(self@) == Some((TagDirection::Added, n@)),
                None => !(spec_as_tag(self@) matches Some(t) && t.0 == TagDirection::Added),
            },
    {
        match self.as_tag() {
            Some((TagDirection::Added, name)) => Some(name),
            _ => None,
        }
    }

    /// The name of the tag that the word asks to remove.
    fn as_removed_tag(&self) -> (name: Option<Tag>)
        ensures
            match name {
                Some(n) => spec_as_tag(self@) == Some((TagDirection::Removed, n@)),
                None => !(spec_as_tag(self@) matches Some(t) && t.0 == TagDirection::Removed),
            },
    {
        match self.as_tag() {
            Some((TagDirection::Removed, name)) => Some(name),
            _ => None,
        }
    }

    /// The text cut down to `max_width`.
    fn ellipsize(&self, max_width: usize) -> (short: String)
        requires
            max_width > 0,
        ensures
            short@ == spec_ellipsize(self@, max_width),
    ;
}

impl StringExt for str {
    fn as_tag(&self) -> (tag: Option<(TagDirection, Tag)>) {
        let n = self.unicode_len();
        if n == 0 {
            return None;
        }
        let first = self.get_char(0);
        if first == '+' {
            let name = self.substring_char(1, n).to_owned();
            assert(name@ =~= self@.skip(1));
            Some((TagDirection::Added, name))
        } else if first == '-' {
            let name = self.substring_char(1, n).to_owned();
            assert(name@ =~= self@.skip(1));
            Some((TagDirection::Removed, name))
        } else {
            None
        }
    }

    fn ellipsize(&self, max_width: usize) -> (short: String) {
        if self.as_bytes().len() <= max_width {
            return self.to_owned();
        }
        let n = self.unicode_len();
        if max_width > 3 {
            let keep = if max_width - 3 <= n { max_width - 3 } else { n };
            let mut short = self.substring_char(0, keep).to_owned();
            proof {
                reveal_strlit("...");
            }
            short.append("...");
            assert(short@ =~= self@.take(keep as int) + seq!['.', '.', '.']);
            short
        } else {
            let keep = if max_width <= n { max_width } else { n };
            let short = self.substring_char(0, keep).to_owned();
            assert(short@ =~= self@.take(keep as int));
            short
        }
    }
}

} // verus!
