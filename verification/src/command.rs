//! The commands of the command line, and how its words are read.

use vstd::prelude::*;
use vstd::std_specs::convert::FromSpecImpl;
use crate::tags::Tags;
use crate::task::{Priority, Tag, Task, TaskView, Title};
use crate::task_ref::{spec_from_str, TaskRef, TaskRefError, TaskRefView, TaskRefs};
use crate::text::{chars_of, list, listed, quote, quoted, starts_with, trim, trimmed, words_of};

verus! {

/// Why the words of a command line are no command; it holds what is told
/// to the user.
#[derive(Debug, PartialEq, Eq)]
pub struct ParseError(pub String);

impl ParseError {
    /// What is told to the user where a word was expected to be a
    /// reference to a task and is none.
    pub fn no_task_ref() -> (error: ParseError)
        ensures
            error.0@ == "Failed to parse task-id"@,
    {
        ParseError("Failed to parse task-id".to_owned())
    }
}

impl From<TaskRefError> for ParseError {
    fn from(error: TaskRefError) -> (parse_error: Self) {
        ParseError::no_task_ref()
    }
}

/// A `ParseError` holds a `String`, of which no value can be written down
/// in a contract: what `from` gives is stated by [`ParseError::no_task_ref`].
impl FromSpecImpl<TaskRefError> for ParseError {
    open spec fn obeys_from_spec() -> bool {
        false
    }

    open spec fn from_spec(error: TaskRefError) -> Self {
        arbitrary()
    }
}

/// A word that selects tasks in a listing or changes a task.
#[derive(PartialEq, Eq, Debug)]
pub enum Flag {
    Priority(Priority),
    TagPositive(Tag),
    TagNegative(Tag),
}

/// A flag as the contracts speak of it.
pub ghost enum FlagView {
    Priority(Priority),
    TagPositive(Seq<char>),
    TagNegative(Seq<char>),
}

impl View for Flag {
    type V = FlagView;

    open spec fn view(&self) -> FlagView {
        match self {
            Flag::Priority(priority) => FlagView::Priority(*priority),
            Flag::TagPositive(tag) => FlagView::TagPositive(tag@),
            Flag::TagNegative(tag) => FlagView::TagNegative(tag@),
        }
    }
}

impl FlagView {
    /// Whether a task is one that the flag selects: one of the given
    /// priority, one that carries the tag, or one that does not carry it.
    pub open spec fn matches(self, task: TaskView) -> bool {
        match self {
            FlagView::Priority(priority) => task.priority == priority,
            FlagView::TagPositive(tag) => task.tags.contains(tag),
            FlagView::TagNegative(tag) => !task.tags.contains(tag),
        }
    }

    /// The task as the flag leaves it: with the given priority, with the
    /// tag, or without it.
    pub open spec fn apply_to(self, task: TaskView) -> TaskView {
        match self {
            FlagView::Priority(priority) => TaskView { priority, ..task },
            FlagView::TagPositive(tag) => TaskView { tags: task.tags.insert(tag), ..task },
            FlagView::TagNegative(tag) => TaskView { tags: task.tags.remove(tag), ..task },
        }
    }

    /// The flag as a user would type it.
    pub open spec fn to_string(self) -> Seq<char> {
        match self {
            FlagView::Priority(priority) => seq!['p', 'r', 'i', 'o', 'r', 'i', 't', 'y', ':'].push(
                priority.spec_letter(),
            ),
            FlagView::TagPositive(tag) => seq!['+'] + tag,
            FlagView::TagNegative(tag) => seq!['-'] + tag,
        }
    }
}

impl Clone for Flag {
    fn clone(&self) -> (copy: Self)
        ensures
            copy@ == self@,
    {
        match self {
            Flag::Priority(priority) => Flag::Priority(*priority),
            Flag::TagPositive(tag) => Flag::TagPositive(tag.clone()),
            Flag::TagNegative(tag) => Flag::TagNegative(tag.clone()),
        }
    }
}

/// What follows `lead` in a word that begins with it: one or more
/// characters up to the end of the word, none of them a line feed. A word
/// of another shape has no such rest.
pub open spec fn rest_after(word: Seq<char>, lead: Seq<char>) -> Option<Seq<char>> {
    if lead.is_prefix_of(word) && word.len() > lead.len() && !word.skip(lead.len() as int).contains(
        '\n',
    ) {
        Some(word.skip(lead.len() as int))
    } else {
        None
    }
}

/// What a word names as a priority: what follows `p:` or `priority:`.
pub open spec fn priority_name(word: Seq<char>) -> Option<Seq<char>> {
    match rest_after(word, seq!['p', ':']) {
        Some(rest) => Some(rest),
        None => rest_after(word, seq!['p', 'r', 'i', 'o', 'r', 'i', 't', 'y', ':']),
    }
}

/// The flag that a word stands for. `p:` or `priority:` with the name of a
/// priority behind it sets a priority, `+` with a name behind it asks for
/// a tag and `-` with a name behind it asks for its absence.
pub open spec fn spec_flag(word: Seq<char>) -> Option<FlagView> {
    let priority = match priority_name(word) {
        Some(name) => match Priority::spec_from_str(name) {
            Ok(priority) => Some(FlagView::Priority(priority)),
            Err(_) => None,
        },
        None => None,
    };
    match priority {
        Some(flag) => Some(flag),
        None => match rest_after(word, seq!['+']) {
            Some(name) => Some(FlagView::TagPositive(name)),
            None => match rest_after(word, seq!['-']) {
                Some(name) => Some(FlagView::TagNegative(name)),
                None => None,
            },
        },
    }
}

/// What follows `lead` in `word`, as [`rest_after`] defines it.
fn rest_of(word: &str, lead: &str) -> (rest: Option<String>)
    ensures
        match rest {
            Some(text) => rest_after(word@, lead@) == Some(text@),
            None => rest_after(word@, lead@) is None,
        },
{
    let chars = chars_of(word);
    let first = chars_of(lead);
    if !starts_with(&chars, &first) || chars.len() <= first.len() {
        return None;
    }
    let mut i: usize = first.len();
    while i < chars.len()
        invariant
            first@.len() <= i <= chars@.len(),
            chars@ == word@,
            first@ == lead@,
            forall|j: int| first@.len() <= j < i ==> chars@[j] != '\n',
        decreases chars@.len() - i,
    {
        if chars[i] == '\n' {
            proof {
                let rest = word@.skip(lead@.len() as int);
                assert(rest[i - lead@.len()] == '\n');
            }
            return None;
        }
        i += 1;
    }
    let text = word.substring_char(first.len(), chars.len()).to_owned();
    proof {
        let rest = word@.skip(lead@.len() as int);
        assert(text@ =~= rest);
        assert forall|j: int| 0 <= j < rest.len() implies rest[j] != '\n' by {
            assert(rest[j] == chars@[j + lead@.len()]);
        }
    }
    Some(text)
}

impl Flag {
    /// The flag that the word `s` stands for, if it stands for one.
    pub fn from_str(s: &str) -> (flag: Option<Flag>)
        ensures
            match flag {
                Some(f) => spec_flag(s@) == Some(f@),
                None => spec_flag(s@) is None,
            },
    {
        proof {
            reveal_strlit("p:");
            reveal_strlit("priority:");
            reveal_strlit("+");
            reveal_strlit("-");
            assert("p:"@ =~= seq!['p', ':']);
            assert("priority:"@ =~= seq!['p', 'r', 'i', 'o', 'r', 'i', 't', 'y', ':']);
            assert("+"@ =~= seq!['+']);
            assert("-"@ =~= seq!['-']);
        }
        let name = match rest_of(s, "p:") {
            Some(rest) => Some(rest),
            None => rest_of(s, "priority:"),
        };
        let priority = match name {
            Some(name) => match Priority::from_str(name.as_str()) {
                Ok(priority) => Some(Flag::Priority(priority)),
                Err(_) => None,
            },
            None => None,
        };
        match priority {
            Some(flag) => Some(flag),
            None => match rest_of(s, "+") {
                Some(name) => Some(Flag::TagPositive(name)),
                None => match rest_of(s, "-") {
                    Some(name) => Some(Flag::TagNegative(name)),
                    None => None,
                },
            },
        }
    }

    /// Whether `t` is a task that the flag selects.
    pub fn matches(&self, t: &Task) -> (selected: bool)
        ensures
            selected == self@.matches(t@),
    {
        match self {
            Flag::Priority(priority) => t.priority == *priority,
            Flag::TagPositive(tag) => t.tags.contains(tag.as_str()),
            Flag::TagNegative(tag) => !t.tags.contains(tag.as_str()),
        }
    }

    /// Changes `t` as the flag asks: gives it the priority, gives it the
    /// tag, or takes the tag from it.
    pub fn apply_to(&self, t: &mut Task)
        ensures
            final(t)@ == self@.apply_to(old(t)@),
    {
        match self {
            Flag::Priority(priority) => {
                t.priority = *priority;
            },
            Flag::TagPositive(tag) => {
                t.tags.insert(tag.clone());
            },
            Flag::TagNegative(tag) => {
                t.tags.remove(tag.as_str());
            },
        }
    }

    /// The flag as a user would type it.
    pub fn to_string(&self) -> (text: String)
        ensures
            text@ == self@.to_string(),
    {
        proof {
            reveal_strlit("priority:");
            reveal_strlit("+");
            reveal_strlit("-");
        }
        match self {
            Flag::Priority(priority) => {
                let mut text = "priority:".to_owned();
                text.append(priority.to_string().as_str());
                assert(text@ =~= self@.to_string());
                text
            },
            Flag::TagPositive(tag) => {
                let mut text = "+".to_owned();
                text.append(tag.as_str());
                assert(text@ =~= self@.to_string());
                text
            },
            Flag::TagNegative(tag) => {
                let mut text = "-".to_owned();
                text.append(tag.as_str());
                assert(text@ =~= self@.to_string());
                text
            },
        }
    }
}

/// What the user asks for.
#[derive(PartialEq, Eq, Debug)]
pub enum Command {
    List(Vec<Flag>),
    Show(TaskRefs),
    Add(Title, Vec<Flag>),
    MarkDone(TaskRefs),
    MarkCanceled(TaskRefs),
    Delete(TaskRefs),
    /// Several changes to the same tasks, as a set of flags asks for them.
    ChangeTaskProperties {
        task_refs: TaskRefs,
        added_tags: Tags,
        removed_tags: Tags,
        priority: Option<Priority>,
    },
}

/// A command as the contracts speak of it.
pub ghost enum CommandView {
    List(Seq<FlagView>),
    Show(Seq<TaskRefView>),
    Add(Seq<char>, Seq<FlagView>),
    MarkDone(Seq<TaskRefView>),
    MarkCanceled(Seq<TaskRefView>),
    Delete(Seq<TaskRefView>),
    ChangeTaskProperties {
        task_refs: Seq<TaskRefView>,
        added_tags: Set<Seq<char>>,
        removed_tags: Set<Seq<char>>,
        priority: Option<Priority>,
    },
}

/// The views of a list of flags, in order.
pub open spec fn flag_views(flags: Seq<Flag>) -> Seq<FlagView> {
    flags.map_values(|f: Flag| f@)
}

/// The views of a list of references, in order.
pub open spec fn ref_views(refs: Seq<TaskRef>) -> Seq<TaskRefView> {
    refs.map_values(|r: TaskRef| r@)
}

impl View for Command {
    type V = CommandView;

    open spec fn view(&self) -> CommandView {
        match self {
            Command::List(flags) => CommandView::List(flag_views(flags@)),
            Command::Show(refs) => CommandView::Show(ref_views(refs@)),
            Command::Add(title, flags) => CommandView::Add(title@, flag_views(flags@)),
            Command::MarkDone(refs) => CommandView::MarkDone(ref_views(refs@)),
            Command::MarkCanceled(refs) => CommandView::MarkCanceled(ref_views(refs@)),
            Command::Delete(refs) => CommandView::Delete(ref_views(refs@)),
            Command::ChangeTaskProperties {
                task_refs,
                added_tags,
                removed_tags,
                priority,
            } => CommandView::ChangeTaskProperties {
                task_refs: ref_views(task_refs@),
                added_tags: added_tags@,
                removed_tags: removed_tags@,
                priority: *priority,
            },
        }
    }
}

/// Why words are no command.
pub ghost enum ParseFailure {
    /// A word behind `edit` is no flag; it holds `edit` and the words
    /// behind it.
    InvalidFlagSet(Seq<Seq<char>>),
    /// No word follows `edit`; it holds the words before it, which are the
    /// references.
    NoChanges(Seq<Seq<char>>),
    /// The word behind the references names no command.
    UnknownCommand(Seq<char>),
    /// The first word is neither a reference nor the name of a command.
    UnknownWord(Seq<char>),
    /// The words behind `add` leave no title.
    NoTitle,
    /// A word behind `list` is no flag.
    InvalidFlags,
}

impl ParseFailure {
    /// Whether `message` is what is told to the user of the failure.
    pub open spec fn is_told_by(self, message: Seq<char>) -> bool {
        match self {
            ParseFailure::InvalidFlagSet(words) => message == "Invalid flag set '"@ + listed(words)
                + "'"@,
            ParseFailure::NoChanges(words) => message == "Got no changes for task(s) "@ + listed(
                words,
            ),
            ParseFailure::UnknownCommand(word) => message == "Unknown command "@ + word,
            ParseFailure::UnknownWord(word) => message == "Unknown command "@ + quoted(word),
            ParseFailure::NoTitle => message == "Failed to parse parameters"@,
            ParseFailure::InvalidFlags => message == "Found invalid flags"@,
        }
    }
}

/// The reference that a word stands for, if it stands for one.
pub open spec fn reference_of(word: Seq<char>) -> Option<TaskRefView> {
    spec_from_str(word)
}

/// The references that the words begin with: those of the first word and
/// the words behind it up to the first that is no reference.
pub open spec fn leading_references(words: Seq<Seq<char>>) -> Seq<TaskRefView>
    decreases words.len(),
{
    if words.len() > 0 && reference_of(words[0]) is Some {
        seq![reference_of(words[0])->0] + leading_references(words.skip(1))
    } else {
        Seq::empty()
    }
}

/// The flags that the words stand for, if each of them stands for one.
pub open spec fn every_flag(words: Seq<Seq<char>>) -> Option<Seq<FlagView>> {
    if forall|i: int| 0 <= i < words.len() ==> spec_flag(#[trigger] words[i]) is Some {
        Some(Seq::new(words.len(), |i: int| spec_flag(words[i])->0))
    } else {
        None
    }
}

/// The flags among the words, in order.
pub open spec fn flags_among(words: Seq<Seq<char>>) -> Seq<FlagView>
    decreases words.len(),
{
    if words.len() == 0 {
        Seq::empty()
    } else {
        match spec_flag(words.last()) {
            Some(flag) => flags_among(words.drop_last()).push(flag),
            None => flags_among(words.drop_last()),
        }
    }
}

/// The words that are no flags, each with a blank before it, one after the
/// other.
pub open spec fn plain_words(words: Seq<Seq<char>>) -> Seq<char>
    decreases words.len(),
{
    if words.len() == 0 {
        Seq::empty()
    } else if spec_flag(words.last()) is None {
        plain_words(words.drop_last()) + seq![' '] + words.last()
    } else {
        plain_words(words.drop_last())
    }
}

/// The tags that the flags ask for.
pub open spec fn tags_added(flags: Seq<FlagView>) -> Set<Seq<char>> {
    Set::new(|name: Seq<char>| flags.contains(FlagView::TagPositive(name)))
}

/// The tags whose absence the flags ask for.
pub open spec fn tags_removed(flags: Seq<FlagView>) -> Set<Seq<char>> {
    Set::new(|name: Seq<char>| flags.contains(FlagView::TagNegative(name)))
}

/// The priority that the flags set: that of the last flag that sets one.
pub open spec fn priority_set(flags: Seq<FlagView>) -> Option<Priority>
    decreases flags.len(),
{
    if flags.len() == 0 {
        None
    } else {
        match flags.last() {
            FlagView::Priority(priority) => Some(priority),
            _ => priority_set(flags.drop_last()),
        }
    }
}

/// The command that the words `rest` ask for which stand behind the
/// references `refs`, typed as `typed`. No word or `show` shows the tasks,
/// `done`, `cancel` and `delete` do what they say, and `edit` changes the
/// tasks as the flags behind it ask.
pub open spec fn command_on(
    refs: Seq<TaskRefView>,
    typed: Seq<Seq<char>>,
    rest: Seq<Seq<char>>,
) -> Result<CommandView, ParseFailure> {
    if rest.len() == 0 || rest[0] == "show"@ {
        Ok(CommandView::Show(refs))
    } else if rest[0] == "done"@ {
        Ok(CommandView::MarkDone(refs))
    } else if rest[0] == "cancel"@ {
        Ok(CommandView::MarkCanceled(refs))
    } else if rest[0] == "delete"@ {
        Ok(CommandView::Delete(refs))
    } else if rest[0] == "edit"@ {
        if rest.len() == 1 {
            Err(ParseFailure::NoChanges(typed))
        } else {
            match every_flag(rest.skip(1)) {
                Some(flags) => Ok(
                    CommandView::ChangeTaskProperties {
                        task_refs: refs,
                        added_tags: tags_added(flags),
                        removed_tags: tags_removed(flags),
                        priority: priority_set(flags),
                    },
                ),
                None => Err(ParseFailure::InvalidFlagSet(rest)),
            }
        }
    } else {
        Err(ParseFailure::UnknownCommand(rest[0]))
    }
}

/// The command that words ask for which begin with no reference. No word
/// at all lists the tasks; `list` lists those that the flags behind it
/// select; `add` adds a task whose title is made of the words behind it
/// that are no flags, and which the flags among them change.
pub open spec fn command_without_refs(words: Seq<Seq<char>>) -> Result<CommandView, ParseFailure> {
    if words.len() == 0 {
        Ok(CommandView::List(Seq::empty()))
    } else if words[0] == "add"@ {
        let title = trimmed(plain_words(words.skip(1)));
        if title.len() > 0 {
            Ok(CommandView::Add(title, flags_among(words.skip(1))))
        } else {
            Err(ParseFailure::NoTitle)
        }
    } else if words[0] == "list"@ {
        match every_flag(words.skip(1)) {
            Some(flags) => Ok(CommandView::List(flags)),
            None => Err(ParseFailure::InvalidFlags),
        }
    } else {
        Err(ParseFailure::UnknownWord(words[0]))
    }
}

/// The command that the words of a command line ask for.
pub open spec fn spec_command(words: Seq<Seq<char>>) -> Result<CommandView, ParseFailure> {
    let refs = leading_references(words);
    if refs.len() > 0 {
        command_on(refs, words.take(refs.len() as int), words.skip(refs.len() as int))
    } else {
        command_without_refs(words)
    }
}

/// The references that `args` begins with.
fn leading_refs(args: &[&str]) -> (refs: Vec<TaskRef>)
    ensures
        ref_views(refs@) == leading_references(words_of(args@)),
        refs@.len() <= args@.len(),
{
    let ghost words = words_of(args@);
    let mut refs: Vec<TaskRef> = Vec::new();
    let mut i: usize = 0;
    proof {
        assert(words.skip(0) =~= words);
        assert(ref_views(refs@) + leading_references(words) =~= leading_references(words));
    }
    while i < args.len()
        invariant
            i <= args@.len(),
            words == words_of(args@),
            refs@.len() == i,
            ref_views(refs@) + leading_references(words.skip(i as int)) == leading_references(words),
        decreases args@.len() - i,
    {
        let ghost rest = words.skip(i as int);
        proof {
            assert(rest[0] == args@[i as int]@);
            assert(rest.skip(1) =~= words.skip(i + 1));
        }
        match TaskRef::from_str(args[i]) {
            Ok(reference) => {
                let ghost before = refs@;
                refs.push(reference);
                proof {
                    assert(ref_views(refs@) =~= ref_views(before).push(reference@));
                    assert(ref_views(refs@) + leading_references(words.skip(i + 1)) =~= ref_views(
                        before,
                    ) + leading_references(rest));
                }
            },
            Err(_) => {
                proof {
                    assert(leading_references(rest) =~= Seq::<TaskRefView>::empty());
                    assert(ref_views(refs@) + leading_references(rest) =~= ref_views(refs@));
                }
                return refs;
            },
        }
        i += 1;
    }
    proof {
        assert(leading_references(words.skip(i as int)) =~= Seq::<TaskRefView>::empty());
        assert(ref_views(refs@) + Seq::<TaskRefView>::empty() =~= ref_views(refs@));
    }
    refs
}

/// The flags that the words of `args` from the place `from` on stand for,
/// if each of them stands for one.
fn flags_from(args: &[&str], from: usize) -> (flags: Option<Vec<Flag>>)
    requires
        from <= args@.len(),
    ensures
        match flags {
            Some(list) => every_flag(words_of(args@).skip(from as int)) == Some(
                flag_views(list@),
            ),
            None => every_flag(words_of(args@).skip(from as int)) is None,
        },
{
    let ghost words = words_of(args@).skip(from as int);
    let mut list: Vec<Flag> = Vec::new();
    let mut i: usize = from;
    while i < args.len()
        invariant
            from <= i <= args@.len(),
            words == words_of(args@).skip(from as int),
            list@.len() == i - from,
            forall|j: int|
                0 <= j < i - from ==> spec_flag(#[trigger] words[j]) == Some(list@[j]@),
        decreases args@.len() - i,
    {
        proof {
            assert(words[i - from] == args@[i as int]@);
        }
        match Flag::from_str(args[i]) {
            Some(flag) => {
                list.push(flag);
            },
            None => {
                return None;
            },
        }
        i += 1;
    }
    proof {
        assert(flag_views(list@) =~= Seq::new(words.len(), |j: int| spec_flag(words[j])->0));
    }
    Some(list)
}

/// The flags among the words of `args` from the place `from` on, and the
/// words among them that are no flags, each with a blank before it.
fn flags_and_title(args: &[&str], from: usize) -> (found: (Vec<Flag>, String))
    requires
        from <= args@.len(),
    ensures
        flag_views(found.0@) == flags_among(words_of(args@).skip(from as int)),
        found.1@ == plain_words(words_of(args@).skip(from as int)),
{
    let ghost words = words_of(args@).skip(from as int);
    let mut flags: Vec<Flag> = Vec::new();
    let mut title = String::new();
    let mut i: usize = from;
    proof {
        assert(words.take(0) =~= Seq::<Seq<char>>::empty());
        assert(flag_views(flags@) =~= Seq::<FlagView>::empty());
    }
    while i < args.len()
        invariant
            from <= i <= args@.len(),
            words == words_of(args@).skip(from as int),
            flag_views(flags@) == flags_among(words.take(i - from)),
            title@ == plain_words(words.take(i - from)),
        decreases args@.len() - i,
    {
        proof {
            reveal_strlit(" ");
            assert(words[i - from] == args@[i as int]@);
            assert(words.take(i - from + 1).drop_last() =~= words.take(i - from));
            assert(words.take(i - from + 1).last() == words[i - from]);
        }
        match Flag::from_str(args[i]) {
            Some(flag) => {
                let ghost before = flags@;
                flags.push(flag);
                proof {
                    assert(flag_views(flags@) =~= flag_views(before).push(flag@));
                }
            },
            None => {
                let ghost before = title@;
                title.append(" ");
                title.append(args[i]);
                proof {
                    assert(title@ =~= before + seq![' '] + args@[i as int]@);
                }
            },
        }
        i += 1;
    }
    proof {
        assert(words.take(i - from) =~= words);
    }
    (flags, title)
}

/// The tags that `flags` ask for, the tags whose absence they ask for, and
/// the priority that they set.
fn changes_of(flags: &Vec<Flag>) -> (changes: (Tags, Tags, Option<Priority>))
    ensures
        changes.0@ == tags_added(flag_views(flags@)),
        changes.1@ == tags_removed(flag_views(flags@)),
        changes.2 == priority_set(flag_views(flags@)),
{
    let ghost views = flag_views(flags@);
    let mut added = Tags::new();
    let mut removed = Tags::new();
    let mut priority: Option<Priority> = None;
    let mut i: usize = 0;
    proof {
        assert(views.take(0) =~= Seq::<FlagView>::empty());
        assert(tags_added(views.take(0)) =~= Set::<Seq<char>>::empty());
        assert(tags_removed(views.take(0)) =~= Set::<Seq<char>>::empty());
    }
    while i < flags.len()
        invariant
            i <= flags@.len(),
            views == flag_views(flags@),
            added@ == tags_added(views.take(i as int)),
            removed@ == tags_removed(views.take(i as int)),
            priority == priority_set(views.take(i as int)),
        decreases flags@.len() - i,
    {
        let ghost done = views.take(i as int);
        let ghost next = views.take(i + 1);
        proof {
            assert(next.drop_last() =~= done);
            assert(next.last() == flags@[i as int]@);
            assert(next =~= done.push(flags@[i as int]@));
            assert forall|f: FlagView| next.contains(f) <==> (done.contains(f) || f
                == flags@[i as int]@) by {
                if done.contains(f) {
                    let j = choose|j: int| 0 <= j < done.len() && done[j] == f;
                    assert(next[j] == f);
                }
                if f == flags@[i as int]@ {
                    assert(next[i as int] == f);
                }
            }
        }
        match &flags[i] {
            Flag::Priority(p) => {
                priority = Some(*p);
                proof {
                    assert(tags_added(next) =~= tags_added(done));
                    assert(tags_removed(next) =~= tags_removed(done));
                }
            },
            Flag::TagPositive(tag) => {
                added.insert(tag.clone());
                proof {
                    assert(tags_added(next) =~= tags_added(done).insert(tag@));
                    assert(tags_removed(next) =~= tags_removed(done));
                }
            },
            Flag::TagNegative(tag) => {
                removed.insert(tag.clone());
                proof {
                    assert(tags_added(next) =~= tags_added(done));
                    assert(tags_removed(next) =~= tags_removed(done).insert(tag@));
                }
            },
        }
        i += 1;
    }
    proof {
        assert(views.take(i as int) =~= views);
    }
    (added, removed, priority)
}

impl Command {
    /// The command that the words `args` of a command line ask for.
    pub fn from_slice(args: &[&str]) -> (parsed: Result<Command, ParseError>)
        ensures
            match parsed {
                Ok(command) => spec_command(words_of(args@)) == Ok::<CommandView, ParseFailure>(
                    command@,
                ),
                Err(error) => spec_command(words_of(args@)) matches Err(failure)
                    && failure.is_told_by(error.0@),
            },
    {
        let ghost words = words_of(args@);
        let task_refs = leading_refs(args);
        let k = task_refs.len();
        let ghost rest = words.skip(k as int);
        proof {
            if k < args@.len() {
                assert(rest[0] == args@[k as int]@);
            }
            assert(rest.len() == args@.len() - k);
        }
        if k > 0 {
            if k == args.len() || args[k].eq("show") {
                Ok(Command::Show(task_refs))
            } else if args[k].eq("done") {
                Ok(Command::MarkDone(task_refs))
            } else if args[k].eq("cancel") {
                Ok(Command::MarkCanceled(task_refs))
            } else if args[k].eq("delete") {
                Ok(Command::Delete(task_refs))
            } else if args[k].eq("edit") {
                proof {
                    assert(rest.skip(1) =~= words.skip(k + 1));
                }
                if k + 1 == args.len() {
                    let given = vstd::slice::slice_subrange(args, 0, k);
                    let mut message = "Got no changes for task(s) ".to_owned();
                    message.append(list(given).as_str());
                    proof {
                        assert(words_of(given@) =~= words.take(k as int));
                    }
                    Err(ParseError(message))
                } else {
                    match flags_from(args, k + 1) {
                        Some(flags) => {
                            let (added_tags, removed_tags, priority) = changes_of(&flags);
                            Ok(
                                Command::ChangeTaskProperties {
                                    task_refs,
                                    added_tags,
                                    removed_tags,
                                    priority,
                                },
                            )
                        },
                        None => {
                            let given = slice_from(args, k);
                            let mut message = "Invalid flag set '".to_owned();
                            message.append(list(given).as_str());
                            message.append("'");
                            proof {
                                assert(words_of(given@) =~= rest);
                            }
                            Err(ParseError(message))
                        },
                    }
                }
            } else {
                let mut message = "Unknown command ".to_owned();
                message.append(args[k]);
                Err(ParseError(message))
            }
        } else {
            proof {
                assert(rest =~= words);
            }
            if args.len() == 0 {
                let none: Vec<Flag> = Vec::new();
                assert(flag_views(none@) =~= Seq::<FlagView>::empty());
                Ok(Command::List(none))
            } else if args[0].eq("add") {
                let (flags, plain) = flags_and_title(args, 1);
                let title = trim(plain.as_str());
                if title.as_str().unicode_len() > 0 {
                    Ok(Command::Add(title, flags))
                } else {
                    Err(ParseError("Failed to parse parameters".to_owned()))
                }
            } else if args[0].eq("list") {
                match flags_from(args, 1) {
                    Some(flags) => Ok(Command::List(flags)),
                    None => Err(ParseError("Found invalid flags".to_owned())),
                }
            } else {
                let mut message = "Unknown command ".to_owned();
                message.append(quote(args[0]).as_str());
                Err(ParseError(message))
            }
        }
    }
}

/// The part of `args` from the place `from` on.
fn slice_from<'a, 'b>(args: &'a [&'b str], from: usize) -> (rest: &'a [&'b str])
    requires
        from <= args@.len(),
    ensures
        rest@ == args@.skip(from as int),
{
    let rest = vstd::slice::slice_subrange(args, from, args.len());
    assert(rest@ =~= args@.skip(from as int));
    rest
}

} // verus!
