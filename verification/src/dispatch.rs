//! From what the user asks for to the effects that bring it about.

use vstd::prelude::*;
use vstd::std_specs::convert::FromSpecImpl;
use crate::command::{flag_views, ref_views, Command, CommandView, Flag, FlagView};
use crate::ident::{fresh_uuid, is_random_uuid, Uuid};
use crate::model::{effect_views, task_views, Effect, EffectView, FindTaskError, Model, ModelView};
use crate::tags::Tags;
use crate::task::{Priority, Tag, Task, TaskState, TaskView};
use crate::task_ref::{TaskRef, TaskRefView};
use crate::printer::{PrintRow, RowStyle};
use crate::text::{decimal, decimal_text, two_places, two_places_text};
use crate::time::{whole, Age, Time};

verus! {

/// The scope in which the user works: a name, or none for the scope of
/// everything.
#[derive(Debug, PartialEq, Eq)]
pub struct Scope(pub Option<String>);

impl Scope {
    /// The name under which the scope keeps its numbers: its own, or
    /// `default` where it has none.
    pub open spec fn spec_name(self) -> Seq<char> {
        match self.0 {
            Some(name) => name@,
            None => "default"@,
        }
    }

    /// The tag that the tasks of the scope carry, if the scope has a name.
    pub open spec fn spec_tag(self) -> Option<Seq<char>> {
        match self.0 {
            Some(name) => Some(name@),
            None => None,
        }
    }

    /// The name under which the scope keeps its numbers.
    pub fn name(&self) -> (name: &str)
        ensures
            name@ == self.spec_name(),
    {
        match &self.0 {
            Some(name) => name.as_str(),
            None => "default",
        }
    }

    /// The tag that the tasks of the scope carry, if the scope has a name.
    pub fn as_tag(&self) -> (tag: Option<Tag>)
        ensures
            match tag {
                Some(t) => self.spec_tag() == Some(t@),
                None => self.spec_tag() is None,
            },
    {
        match &self.0 {
            Some(name) => Some(name.clone()),
            None => None,
        }
    }
}

/// Why a command could not be carried out.
#[derive(Debug, PartialEq, Eq, Clone, Copy, Structural)]
pub enum HandleCommandError {
    FindTaskError(FindTaskError),
}

impl HandleCommandError {
    /// What is told to the user.
    pub fn to_string(&self) -> (text: String)
        ensures
            text@ == (match self {
                HandleCommandError::FindTaskError(FindTaskError::TaskNotFound) =>
                    "Failed to find task: Couldn't find task"@,
                HandleCommandError::FindTaskError(FindTaskError::MultipleResults) =>
                    "Failed to find task: Found multiple tasks"@,
            }),
    {
        match self {
            HandleCommandError::FindTaskError(FindTaskError::TaskNotFound) =>
                "Failed to find task: Couldn't find task".to_owned(),
            HandleCommandError::FindTaskError(FindTaskError::MultipleResults) =>
                "Failed to find task: Found multiple tasks".to_owned(),
        }
    }
}

impl From<FindTaskError> for HandleCommandError {
    fn from(other: FindTaskError) -> (error: Self) {
        HandleCommandError::FindTaskError(other)
    }
}

impl FromSpecImpl<FindTaskError> for HandleCommandError {
    open spec fn obeys_from_spec() -> bool {
        true
    }

    open spec fn from_spec(other: FindTaskError) -> Self {
        HandleCommandError::FindTaskError(other)
    }
}

/// Whether a task is one that every flag selects.
pub open spec fn selected_by(flags: Seq<FlagView>, task: TaskView) -> bool {
    forall|i: int| 0 <= i < flags.len() ==> (#[trigger] flags[i]).matches(task)
}

/// The identifiers of the open tasks of a listing that every flag selects,
/// in the order of the listing.
pub open spec fn selection(listing: Seq<TaskView>, flags: Seq<FlagView>) -> Seq<Uuid>
    decreases listing.len(),
{
    if listing.len() == 0 {
        Seq::empty()
    } else {
        let task = listing.last();
        if task.status == TaskState::Open && selected_by(flags, task) {
            selection(listing.drop_last(), flags).push(task.uuid)
        } else {
            selection(listing.drop_last(), flags)
        }
    }
}

/// The flags by which a scope lists: the given ones, and behind them one
/// that asks for the scope's tag where the scope has a name.
pub open spec fn flags_in_scope(flags: Seq<FlagView>, scope: Scope) -> Seq<FlagView> {
    match scope.spec_tag() {
        Some(tag) => flags.push(FlagView::TagPositive(tag)),
        None => flags,
    }
}

/// The task as a list of flags leaves it, the flags applied in order.
pub open spec fn apply_flags(flags: Seq<FlagView>, task: TaskView) -> TaskView
    decreases flags.len(),
{
    if flags.len() == 0 {
        task
    } else {
        flags.last().apply_to(apply_flags(flags.drop_last(), task))
    }
}

/// The task that `add` makes: a new task with the given title, identifier
/// and time of creation, which carries the scope's tag where the scope has
/// a name and is then changed by the flags.
pub open spec fn added_task(
    title: Seq<char>,
    flags: Seq<FlagView>,
    scope: Scope,
    now: Time,
    id: Uuid,
) -> TaskView {
    let tags = match scope.spec_tag() {
        Some(tag) => Set::<Seq<char>>::empty().insert(tag),
        None => Set::<Seq<char>>::empty(),
    };
    apply_flags(flags, TaskView { tags, ..TaskView::created_at(title, id, now) })
}

/// The identifiers of the tasks that the references resolve to, in order;
/// a reference that does not resolve is passed over.
pub open spec fn resolved(store: ModelView, scope: Seq<char>, refs: Seq<TaskRefView>) -> Seq<Uuid>
    decreases refs.len(),
{
    if refs.len() == 0 {
        Seq::empty()
    } else {
        match store.found(scope, refs.last()) {
            Ok(task) => resolved(store, scope, refs.drop_last()).push(task.uuid),
            Err(_) => resolved(store, scope, refs.drop_last()),
        }
    }
}

/// The references that do not resolve, in order, each with the reason why
/// it does not.
pub open spec fn unresolved(
    store: ModelView,
    scope: Seq<char>,
    refs: Seq<TaskRefView>,
) -> Seq<(TaskRefView, HandleCommandError)>
    decreases refs.len(),
{
    if refs.len() == 0 {
        Seq::empty()
    } else {
        match store.found(scope, refs.last()) {
            Ok(_) => unresolved(store, scope, refs.drop_last()),
            Err(error) => unresolved(store, scope, refs.drop_last()).push(
                (refs.last(), HandleCommandError::FindTaskError(error)),
            ),
        }
    }
}

/// The effects that change one task's properties: one that sets the
/// priority where one is given, then one that changes the tags where any
/// tag is to be added or removed.
pub open spec fn changes_to(
    id: Uuid,
    added: Set<Seq<char>>,
    removed: Set<Seq<char>>,
    priority: Option<Priority>,
) -> Seq<EffectView> {
    let first = match priority {
        Some(p) => seq![EffectView::ChangeTaskPriority(id, p)],
        None => Seq::empty(),
    };
    if added != Set::<Seq<char>>::empty() || removed != Set::<Seq<char>>::empty() {
        first.push(EffectView::ChangeTaskTags { uuid: id, added, removed })
    } else {
        first
    }
}

/// The effects that change the properties of each of the tasks `ids`, task
/// after task.
pub open spec fn changes_to_each(
    ids: Seq<Uuid>,
    added: Set<Seq<char>>,
    removed: Set<Seq<char>>,
    priority: Option<Priority>,
) -> Seq<EffectView>
    decreases ids.len(),
{
    if ids.len() == 0 {
        Seq::empty()
    } else {
        changes_to_each(ids.drop_last(), added, removed, priority) + changes_to(
            ids.last(),
            added,
            removed,
            priority,
        )
    }
}

/// What carrying out a command gives, as the contracts speak of it.
pub ghost struct OutcomeView {
    /// The effects that bring the command about.
    pub effects: Seq<EffectView>,
    /// The references of the command that did not resolve, each with the
    /// reason.
    pub failures: Seq<(TaskRefView, HandleCommandError)>,
}

/// What carrying out a command gives, at the time `now` and with `id` as
/// the identifier for a task that is added. Listing and showing have no
/// effects. Deleting, marking and changing properties have the effects for
/// the references that resolve, whatever becomes of the others, and name
/// each reference that does not resolve with the reason.
pub open spec fn effects_for(
    store: ModelView,
    command: CommandView,
    scope: Scope,
    now: Time,
    id: Uuid,
) -> OutcomeView {
    match command {
        CommandView::List(_) => OutcomeView { effects: Seq::empty(), failures: Seq::empty() },
        CommandView::Show(_) => OutcomeView { effects: Seq::empty(), failures: Seq::empty() },
        CommandView::Add(title, flags) => OutcomeView {
            effects: seq![EffectView::AddTask(added_task(title, flags, scope, now, id))],
            failures: Seq::empty(),
        },
        CommandView::Delete(refs) => OutcomeView {
            effects: resolved(store, scope.spec_name(), refs).map_values(
                |id: Uuid| EffectView::DeleteTask(id),
            ),
            failures: unresolved(store, scope.spec_name(), refs),
        },
        CommandView::MarkDone(refs) => OutcomeView {
            effects: resolved(store, scope.spec_name(), refs).map_values(
                |id: Uuid| EffectView::ChangeTaskState(id, TaskState::Done(now)),
            ),
            failures: unresolved(store, scope.spec_name(), refs),
        },
        CommandView::MarkCanceled(refs) => OutcomeView {
            effects: resolved(store, scope.spec_name(), refs).map_values(
                |id: Uuid| EffectView::ChangeTaskState(id, TaskState::Canceled(now)),
            ),
            failures: unresolved(store, scope.spec_name(), refs),
        },
        CommandView::ChangeTaskProperties {
            task_refs,
            added_tags,
            removed_tags,
            priority,
        } => OutcomeView {
            effects: changes_to_each(
                resolved(store, scope.spec_name(), task_refs),
                added_tags,
                removed_tags,
                priority,
            ),
            failures: unresolved(store, scope.spec_name(), task_refs),
        },
    }
}

/// The identifiers of the open tasks that every one of `flags` selects,
/// the most urgent first, as the urgencies are at the time `now`.
pub fn select_tasks(model: &Model, flags: &Vec<Flag>, now: &Time) -> (ids: Vec<Uuid>)
    ensures
        exists|listing: Seq<TaskView>|
            model@.is_listing_at(listing, *now) && ids@ == selection(listing, flag_views(flags@)),
{
    let all = model.all_tasks_at(now);
    let ghost listing = task_views(all@);
    let ghost wanted = flag_views(flags@);
    let mut ids: Vec<Uuid> = Vec::new();
    let mut i: usize = 0;
    proof {
        assert(listing.take(0) =~= Seq::<TaskView>::empty());
    }
    while i < all.len()
        invariant
            i <= all@.len(),
            listing == task_views(all@),
            wanted == flag_views(flags@),
            ids@ == selection(listing.take(i as int), wanted),
        decreases all@.len() - i,
    {
        let task = all[i];
        proof {
            assert(listing.take(i + 1).drop_last() =~= listing.take(i as int));
            assert(listing.take(i + 1).last() == task@);
        }
        if task.is_open() && all_match(flags, task) {
            ids.push(task.uuid);
        }
        i += 1;
    }
    proof {
        assert(listing.take(i as int) =~= listing);
    }
    ids
}

/// Whether `task` is one that every one of `flags` selects.
fn all_match(flags: &Vec<Flag>, task: &Task) -> (all: bool)
    ensures
        all == selected_by(flag_views(flags@), task@),
{
    let mut i: usize = 0;
    while i < flags.len()
        invariant
            i <= flags@.len(),
            forall|j: int| 0 <= j < i ==> (#[trigger] flag_views(flags@)[j]).matches(task@),
        decreases flags@.len() - i,
    {
        if !flags[i].matches(task) {
            assert(!flag_views(flags@)[i as int].matches(task@));
            return false;
        }
        i += 1;
    }
    true
}

/// Lists the tasks of `scope` that `flags` select: finds them, the most
/// urgent first, and numbers them from one in the scope. The answer is
/// their identifiers in the order of their numbers.
pub fn list_tasks(model: &mut Model, flags: Vec<Flag>, scope: &Scope, now: &Time) -> (ids: Vec<
    Uuid,
>)
    ensures
        exists|listing: Seq<TaskView>|
            old(model)@.is_listing_at(listing, *now) && ids@ == selection(
                listing,
                flags_in_scope(flag_views(flags@), *scope),
            ),
        final(model)@ == old(model)@.recalculated(scope.spec_name(), ids@),
{
    let mut flags = flags;
    let ghost given = flag_views(flags@);
    match scope.as_tag() {
        Some(tag) => {
            flags.push(Flag::TagPositive(tag));
            proof {
                assert(flag_views(flags@) =~= given.push(FlagView::TagPositive(tag@)));
            }
        },
        None => {},
    }
    let ids = select_tasks(model, &flags, now);
    model.recalculate_numerical_ids(scope.name(), ids.as_slice());
    ids
}

/// The views of a list of failures, in order.
pub open spec fn failure_views(failures: Seq<(TaskRef, HandleCommandError)>) -> Seq<
    (TaskRefView, HandleCommandError),
> {
    failures.map_values(|f: (TaskRef, HandleCommandError)| (f.0@, f.1))
}

/// The identifiers of the tasks that `refs` resolve to in `scope`, in
/// order, and the references among them that do not resolve, each with the
/// reason.
fn resolve_each(model: &Model, scope: &str, refs: &Vec<TaskRef>) -> (found: (
    Vec<Uuid>,
    Vec<(TaskRef, HandleCommandError)>,
))
    ensures
        found.0@ == resolved(model@, scope@, ref_views(refs@)),
        failure_views(found.1@) == unresolved(model@, scope@, ref_views(refs@)),
{
    let ghost wanted = ref_views(refs@);
    let mut ids: Vec<Uuid> = Vec::new();
    let mut failures: Vec<(TaskRef, HandleCommandError)> = Vec::new();
    let mut i: usize = 0;
    proof {
        assert(wanted.take(0) =~= Seq::<TaskRefView>::empty());
        assert(failure_views(failures@) =~= Seq::<(TaskRefView, HandleCommandError)>::empty());
    }
    while i < refs.len()
        invariant
            i <= refs@.len(),
            wanted == ref_views(refs@),
            ids@ == resolved(model@, scope@, wanted.take(i as int)),
            failure_views(failures@) == unresolved(model@, scope@, wanted.take(i as int)),
        decreases refs@.len() - i,
    {
        proof {
            assert(wanted.take(i + 1).drop_last() =~= wanted.take(i as int));
            assert(wanted.take(i + 1).last() == refs@[i as int]@);
        }
        match model.find_task(scope, &refs[i]) {
            Ok(task) => {
                ids.push(task.uuid);
            },
            Err(error) => {
                let ghost before = failures@;
                failures.push((refs[i].clone(), HandleCommandError::FindTaskError(error)));
                proof {
                    assert(failure_views(failures@) =~= failure_views(before).push(
                        (refs@[i as int]@, HandleCommandError::FindTaskError(error)),
                    ));
                }
            },
        }
        i += 1;
    }
    proof {
        assert(wanted.take(i as int) =~= wanted);
    }
    (ids, failures)
}

/// For each of the tasks `ids` an effect that gives it the status `state`.
fn state_changes(ids: &Vec<Uuid>, state: TaskState) -> (effects: Vec<Effect>)
    ensures
        effect_views(effects@) == ids@.map_values(
            |id: Uuid| EffectView::ChangeTaskState(id, state),
        ),
{
    let mut effects: Vec<Effect> = Vec::new();
    let mut i: usize = 0;
    while i < ids.len()
        invariant
            i <= ids@.len(),
            effects@.len() == i,
            forall|j: int|
                0 <= j < i ==> (#[trigger] effects@[j])@ == EffectView::ChangeTaskState(
                    ids@[j],
                    state,
                ),
        decreases ids@.len() - i,
    {
        effects.push(Effect::ChangeTaskState(ids[i], state));
        i += 1;
    }
    proof {
        assert(effect_views(effects@) =~= ids@.map_values(
            |id: Uuid| EffectView::ChangeTaskState(id, state),
        ));
    }
    effects
}

/// For each of the tasks `ids` an effect that deletes it.
fn deletions(ids: &Vec<Uuid>) -> (effects: Vec<Effect>)
    ensures
        effect_views(effects@) == ids@.map_values(|id: Uuid| EffectView::DeleteTask(id)),
{
    let mut effects: Vec<Effect> = Vec::new();
    let mut i: usize = 0;
    while i < ids.len()
        invariant
            i <= ids@.len(),
            effects@.len() == i,
            forall|j: int| 0 <= j < i ==> (#[trigger] effects@[j])@ == EffectView::DeleteTask(ids@[j]),
        decreases ids@.len() - i,
    {
        effects.push(Effect::DeleteTask(ids[i]));
        i += 1;
    }
    proof {
        assert(effect_views(effects@) =~= ids@.map_values(|id: Uuid| EffectView::DeleteTask(id)));
    }
    effects
}

/// The effects that change the properties of each of the tasks `ids`.
fn property_changes(
    ids: &Vec<Uuid>,
    added: &Tags,
    removed: &Tags,
    priority: Option<Priority>,
) -> (effects: Vec<Effect>)
    ensures
        effect_views(effects@) == changes_to_each(ids@, added@, removed@, priority),
{
    let mut effects: Vec<Effect> = Vec::new();
    let change_tags = !added.is_empty() || !removed.is_empty();
    let mut i: usize = 0;
    proof {
        assert(ids@.take(0) =~= Seq::<Uuid>::empty());
        assert(effect_views(effects@) =~= Seq::<EffectView>::empty());
    }
    while i < ids.len()
        invariant
            i <= ids@.len(),
            change_tags == (added@ != Set::<Seq<char>>::empty() || removed@ != Set::<
                Seq<char>,
            >::empty()),
            effect_views(effects@) == changes_to_each(ids@.take(i as int), added@, removed@, priority),
        decreases ids@.len() - i,
    {
        let ghost before = effect_views(effects@);
        proof {
            assert(ids@.take(i + 1).drop_last() =~= ids@.take(i as int));
            assert(ids@.take(i + 1).last() == ids@[i as int]);
        }
        match priority {
            Some(p) => {
                let ghost was = effects@;
                effects.push(Effect::ChangeTaskPriority(ids[i], p));
                proof {
                    assert(effect_views(effects@) =~= effect_views(was).push(
                        EffectView::ChangeTaskPriority(ids@[i as int], p),
                    ));
                }
            },
            None => {},
        }
        if change_tags {
            let ghost was = effects@;
            effects.push(
                Effect::ChangeTaskTags {
                    uuid: ids[i],
                    added: added.clone(),
                    removed: removed.clone(),
                },
            );
            proof {
                assert(effect_views(effects@) =~= effect_views(was).push(
                    EffectView::ChangeTaskTags {
                        uuid: ids@[i as int],
                        added: added@,
                        removed: removed@,
                    },
                ));
            }
        }
        proof {
            assert(effect_views(effects@) =~= before + changes_to(
                ids@[i as int],
                added@,
                removed@,
                priority,
            ));
        }
        i += 1;
    }
    proof {
        assert(ids@.take(i as int) =~= ids@);
    }
    effects
}

/// The task that `add` makes of a title and flags.
fn new_task(title: &str, flags: &Vec<Flag>, scope: &Scope, now: Time, id: Uuid) -> (task: Task)
    ensures
        task@ == added_task(title@, flag_views(flags@), *scope, now, id),
{
    let mut task = Task::create(title, id, now);
    match scope.as_tag() {
        Some(tag) => {
            task.tags.insert(tag);
        },
        None => {},
    }
    let ghost start = task@;
    let ghost wanted = flag_views(flags@);
    let mut i: usize = 0;
    proof {
        assert(wanted.take(0) =~= Seq::<FlagView>::empty());
    }
    while i < flags.len()
        invariant
            i <= flags@.len(),
            wanted == flag_views(flags@),
            task@ == apply_flags(wanted.take(i as int), start),
        decreases flags@.len() - i,
    {
        proof {
            assert(wanted.take(i + 1).drop_last() =~= wanted.take(i as int));
            assert(wanted.take(i + 1).last() == flags@[i as int]@);
        }
        flags[i].apply_to(&mut task);
        i += 1;
    }
    proof {
        assert(wanted.take(i as int) =~= wanted);
    }
    task
}

/// What a command does to the store: a listing numbers the tasks that it
/// lists, in the order of a listing of the store at the time `now`, and no
/// other command changes the store.
pub open spec fn store_after(
    before: ModelView,
    after: ModelView,
    command: CommandView,
    scope: Scope,
    now: Time,
) -> bool {
    match command {
        CommandView::List(flags) => exists|listing: Seq<TaskView>|
            #[trigger] before.is_listing_at(listing, now) && after == before.recalculated(
                scope.spec_name(),
                selection(listing, flags_in_scope(flags, scope)),
            ),
        _ => after == before,
    }
}

/// Whether carrying out `command` at the time `now`, with `id` for a task
/// that is added, has made `made` and has left the store `before` as
/// `after`.
pub open spec fn is_carried_out(
    before: ModelView,
    after: ModelView,
    command: CommandView,
    scope: Scope,
    now: Time,
    id: Uuid,
    made: OutcomeView,
) -> bool {
    made == effects_for(before, command, scope, now, id) && store_after(
        before,
        after,
        command,
        scope,
        now,
    )
}

/// What carrying out a command gives: the effects that bring it about,
/// and the references of the command that did not resolve, each with the
/// reason.
#[derive(Debug, PartialEq, Eq)]
pub struct Outcome {
    pub effects: Vec<Effect>,
    pub failures: Vec<(TaskRef, HandleCommandError)>,
}

impl View for Outcome {
    type V = OutcomeView;

    open spec fn view(&self) -> OutcomeView {
        OutcomeView { effects: effect_views(self.effects@), failures: failure_views(self.failures@) }
    }
}

/// Carries `command` out in `scope`, at the time `now` and with `id` as
/// the identifier for a task that is added. A listing numbers the listed
/// tasks in the scope; no other command changes the store.
pub fn effects_of(model: &mut Model, command: Command, scope: &Scope, now: Time, id: Uuid) -> (made:
    Outcome)
    ensures
        is_carried_out(old(model)@, final(model)@, command@, *scope, now, id, made@),
{
    let ghost asked = command@;
    let made = match command {
        Command::List(flags) => {
            let ghost given = flag_views(flags@);
            let ghost wanted = flags_in_scope(given, *scope);
            let ids = list_tasks(model, flags, scope, &now);
            proof {
                let listing = choose|listing: Seq<TaskView>|
                    old(model)@.is_listing_at(listing, now) && ids@ == selection(listing, wanted);
                assert(old(model)@.is_listing_at(listing, now));
                assert(store_after(old(model)@, model@, asked, *scope, now));
            }
            Outcome { effects: Vec::new(), failures: Vec::new() }
        },
        Command::Show(_) => Outcome { effects: Vec::new(), failures: Vec::new() },
        Command::Add(title, flags) => {
            let task = new_task(title.as_str(), &flags, scope, now, id);
            let one = vec![Effect::AddTask(task)];
            assert(effect_views(one@) =~= seq![EffectView::AddTask(task@)]);
            Outcome { effects: one, failures: Vec::new() }
        },
        Command::Delete(refs) => {
            let (ids, failures) = resolve_each(model, scope.name(), &refs);
            Outcome { effects: deletions(&ids), failures }
        },
        Command::MarkDone(refs) => {
            let (ids, failures) = resolve_each(model, scope.name(), &refs);
            Outcome { effects: state_changes(&ids, TaskState::Done(now)), failures }
        },
        Command::MarkCanceled(refs) => {
            let (ids, failures) = resolve_each(model, scope.name(), &refs);
            Outcome { effects: state_changes(&ids, TaskState::Canceled(now)), failures }
        },
        Command::ChangeTaskProperties { task_refs, added_tags, removed_tags, priority } => {
            let (ids, failures) = resolve_each(model, scope.name(), &task_refs);
            Outcome {
                effects: property_changes(&ids, &added_tags, &removed_tags, priority),
                failures,
            }
        },
    };
    proof {
        if !(asked is List) {
            assert(model@ == old(model)@);
        }
        assert(made@.effects =~= effects_for(old(model)@, asked, *scope, now, id).effects);
        assert(made@.failures =~= effects_for(old(model)@, asked, *scope, now, id).failures);
    }
    made
}

/// Carries `command` out in `scope`, at the current time and with a fresh
/// random identifier for a task that is added.
pub fn command_to_effects(model: &mut Model, command: Command, scope: &Scope) -> (made: Outcome)
    ensures
        exists|now: Time, id: Uuid|
            is_random_uuid(id) && is_carried_out(
                old(model)@,
                final(model)@,
                command@,
                *scope,
                now,
                id,
                made@,
            ),
{
    let now = Time::now();
    let id = fresh_uuid();
    effects_of(model, command, scope, now, id)
}

/// An urgency in hundredths of a day of age, rounded to the nearest
/// hundredth, and away from zero where it lies in the middle of two.
pub open spec fn hundredths(urgency: int) -> int {
    let days = whole(urgency, 86_400);
    let rest = urgency - days * 86_400;
    if rest >= 43_200 {
        days + 1
    } else if rest <= -43_200 {
        days - 1
    } else {
        days
    }
}

/// The urgency as it is shown: in days of age, with two decimal places.
pub fn urgency_text(urgency: i128) -> (text: String)
    ensures
        text@ == two_places(hundredths(urgency as int)),
{
    let days: i128 = urgency / 86_400;
    let rest: i128 = urgency - days * 86_400;
    let shown: i128 = if rest >= 43_200 {
        days + 1
    } else if rest <= -43_200 {
        days - 1
    } else {
        days
    };
    two_places_text(shown)
}

/// The texts of the row that shows a task in a listing: the number that
/// stands for the task, or the beginning of its identifier where it has no
/// number; the letter of its priority; its age; its description; and its
/// urgency.
pub open spec fn row_texts(task: TaskView, number: Option<u64>, now: Time) -> Seq<Seq<char>> {
    seq![
        match number {
            Some(n) => decimal(n as int),
            None => task.short_id(),
        },
        seq![task.priority.spec_letter()],
        Age(now.spec_seconds_since(task.created) as i128).spec_to_string(),
        task.description,
        two_places(hundredths(task.urgency_at(now))),
    ]
}

/// The row that shows `task` as the `n`-th task of a listing, counted from
/// zero, where `number` is the number that stands for the task in the
/// scope of the listing, if one does.
pub fn task_row(task: &Task, number: Option<u64>, n: usize, now: &Time) -> (row: PrintRow)
    ensures
        crate::model::line_views(row.fields@) == row_texts(task@, number, *now),
        row.style == Some(RowStyle::spec_of_row(n as nat, task.priority)),
{
    let short = match number {
        Some(n) => decimal_text(n as i128),
        None => task.short_id(),
    };
    let mut fields: Vec<String> = Vec::new();
    fields.push(short);
    fields.push(task.priority.to_string());
    fields.push(task.age_at(now).to_string());
    fields.push(task.description.clone());
    fields.push(urgency_text(task.urgency_at(now)));
    proof {
        assert(crate::model::line_views(fields@) =~= row_texts(task@, number, *now));
    }
    PrintRow { fields, style: Some(RowStyle::of_row(n, task.priority)) }
}

/// The rows that show the first `limit` of the tasks `ids` of a listing
/// in `scope`, a row for each task in order; the tasks have to be live.
pub fn listing_rows(model: &Model, scope: &Scope, ids: &Vec<Uuid>, limit: usize, now: &Time) -> (rows:
    Vec<PrintRow>)
    requires
        forall|i: int| 0 <= i < ids@.len() ==> model@.tasks.contains_key(#[trigger] ids@[i]),
    ensures
        rows@.len() == if ids@.len() <= limit {
            ids@.len()
        } else {
            limit as nat
        },
        forall|n: int|
            0 <= n < rows@.len() ==> (#[trigger] rows@[n]).style == Some(
                RowStyle::spec_of_row(n as nat, model@.tasks[ids@[n]].priority),
            ) && exists|number: Option<u64>|
                is_shown_number(model@, scope.spec_name(), ids@[n], number)
                    && crate::model::line_views(rows@[n].fields@) == #[trigger] row_texts(
                    model@.tasks[ids@[n]],
                    number,
                    *now,
                ),
{
    let mut rows: Vec<PrintRow> = Vec::new();
    let mut n: usize = 0;
    while n < ids.len() && n < limit
        invariant
            n <= ids@.len(),
            n <= limit,
            rows@.len() == n,
            forall|i: int| 0 <= i < ids@.len() ==> model@.tasks.contains_key(#[trigger] ids@[i]),
            forall|m: int|
                0 <= m < n ==> (#[trigger] rows@[m]).style == Some(
                    RowStyle::spec_of_row(m as nat, model@.tasks[ids@[m]].priority),
                ) && exists|number: Option<u64>|
                    is_shown_number(model@, scope.spec_name(), ids@[m], number)
                        && crate::model::line_views(rows@[m].fields@) == #[trigger] row_texts(
                        model@.tasks[ids@[m]],
                        number,
                        *now,
                    ),
        decreases ids@.len() - n,
    {
        let task = match model.get_task(&ids[n]) {
            Some(task) => task,
            None => vstd::pervasive::unreached(),
        };
        let number = model.short_task_id(scope.name(), &ids[n]);
        let row = task_row(task, number, n, now);
        proof {
            assert(is_shown_number(model@, scope.spec_name(), ids@[n as int], number));
        }
        rows.push(row);
        n += 1;
    }
    rows
}

/// Whether `number` is the number by which a task is shown in a scope: the
/// smallest number that stands for it there, or none where none does.
pub open spec fn is_shown_number(
    store: ModelView,
    scope: Seq<char>,
    id: Uuid,
    number: Option<u64>,
) -> bool {
    match number {
        Some(n) => crate::numbering::is_number_of(
            crate::numbering::numbers_of(store.numbers, scope),
            id,
            n,
        ),
        None => crate::numbering::has_no_number(crate::numbering::numbers_of(store.numbers, scope), id),
    }
}

/// Whether a task with the tags `tags` belongs to a scope: every task
/// belongs to the scope without a name, and to a scope with a name those
/// that carry its tag.
pub open spec fn in_scope(scope: Scope, tags: Set<Seq<char>>) -> bool {
    match scope.spec_tag() {
        Some(tag) => tags.contains(tag),
        None => true,
    }
}

/// What showing a reference shows: nothing where the reference does not
/// resolve, and else the task with the note whether it belongs to the
/// scope.
pub open spec fn shown(store: ModelView, scope: Scope, reference: TaskRefView) -> Option<
    (TaskView, bool),
> {
    match store.found(scope.spec_name(), reference) {
        Ok(task) => Some((task, in_scope(scope, task.tags))),
        Err(_) => None,
    }
}

/// For each of `refs` what showing it in `scope` shows: the task that it
/// resolves to and whether the task belongs to the scope, or nothing where
/// it does not resolve.
pub fn show_tasks<'a>(model: &'a Model, refs: &Vec<TaskRef>, scope: &Scope) -> (found: Vec<
    Option<(&'a Task, bool)>,
>)
    ensures
        found@.len() == refs@.len(),
        forall|i: int|
            0 <= i < refs@.len() ==> shown_view(#[trigger] found@[i]) == shown(
                model@,
                *scope,
                refs@[i]@,
            ),
{
    let mut found: Vec<Option<(&'a Task, bool)>> = Vec::new();
    let tag = scope.as_tag();
    let mut i: usize = 0;
    while i < refs.len()
        invariant
            i <= refs@.len(),
            found@.len() == i,
            match tag {
                Some(t) => scope.spec_tag() == Some(t@),
                None => scope.spec_tag() is None,
            },
            forall|j: int|
                0 <= j < i ==> shown_view(#[trigger] found@[j]) == shown(
                    model@,
                    *scope,
                    refs@[j]@,
                ),
        decreases refs@.len() - i,
    {
        let entry = match model.find_task(scope.name(), &refs[i]) {
            Ok(task) => {
                let inside = match &tag {
                    Some(t) => task.tags.contains(t.as_str()),
                    None => true,
                };
                Some((task, inside))
            },
            Err(_) => None,
        };
        found.push(entry);
        i += 1;
    }
    found
}

/// What is shown of a reference, as the contracts speak of it.
pub open spec fn shown_view(entry: Option<(&Task, bool)>) -> Option<(TaskView, bool)> {
    match entry {
        Some((task, inside)) => Some((task@, inside)),
        None => None,
    }
}

} // verus!
