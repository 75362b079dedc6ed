//! The task store: the tasks as the log of effects has left them.

use vstd::prelude::*;
use std::collections::HashMap;
use vstd::std_specs::iter::IteratorSpec;
use crate::ident::{simple_form, simple_text, Uuid};
use crate::numbering::{
    has_no_number, is_next_number, is_number_of, largest_number, number_in_order, numbered,
    numbers_of, smallest_number_of, NumericalIds,
};
use crate::tags::{names, Tags};
use crate::task::{Priority, Task, TaskState, TaskView};
use crate::task_ref::{TaskRef, TaskRefView};
use crate::text::{chars_of, quote, quoted_list, starts_with};
use crate::time::Time;

verus! {

/// A single change to the set of tasks.
#[derive(Debug, PartialEq, Eq)]
pub enum Effect {
    AddTask(Task),
    ChangeTaskTags { uuid: Uuid, added: Tags, removed: Tags },
    ChangeTaskState(Uuid, TaskState),
    ChangeTaskPriority(Uuid, Priority),
    DeleteTask(Uuid),
}

/// An effect as the contracts speak of it.
pub ghost enum EffectView {
    AddTask(TaskView),
    ChangeTaskTags { uuid: Uuid, added: Set<Seq<char>>, removed: Set<Seq<char>> },
    ChangeTaskState(Uuid, TaskState),
    ChangeTaskPriority(Uuid, Priority),
    DeleteTask(Uuid),
}

impl View for Effect {
    type V = EffectView;

    open spec fn view(&self) -> EffectView {
        match self {
            Effect::AddTask(task) => EffectView::AddTask(task@),
            Effect::ChangeTaskTags { uuid, added, removed } => EffectView::ChangeTaskTags {
                uuid: *uuid,
                added: added@,
                removed: removed@,
            },
            Effect::ChangeTaskState(uuid, state) => EffectView::ChangeTaskState(*uuid, *state),
            Effect::ChangeTaskPriority(uuid, priority) => EffectView::ChangeTaskPriority(
                *uuid,
                *priority,
            ),
            Effect::DeleteTask(uuid) => EffectView::DeleteTask(*uuid),
        }
    }
}

impl Clone for Effect {
    fn clone(&self) -> (copy: Self)
        ensures
            copy@ == self@,
    {
        match self {
            Effect::AddTask(task) => Effect::AddTask(task.clone()),
            Effect::ChangeTaskTags { uuid, added, removed } => Effect::ChangeTaskTags {
                uuid: *uuid,
                added: added.clone(),
                removed: removed.clone(),
            },
            Effect::ChangeTaskState(uuid, state) => Effect::ChangeTaskState(*uuid, *state),
            Effect::ChangeTaskPriority(uuid, priority) => Effect::ChangeTaskPriority(
                *uuid,
                *priority,
            ),
            Effect::DeleteTask(uuid) => Effect::DeleteTask(*uuid),
        }
    }
}

/// The tasks of a store, each under its identifier.
pub type TaskMap = Map<Uuid, TaskView>;

impl EffectView {
    /// The identifier of the task that the effect is about.
    pub open spec fn task_id(self) -> Uuid {
        match self {
            EffectView::AddTask(task) => task.uuid,
            EffectView::ChangeTaskTags { uuid, .. } => uuid,
            EffectView::ChangeTaskState(uuid, _) => uuid,
            EffectView::ChangeTaskPriority(uuid, _) => uuid,
            EffectView::DeleteTask(uuid) => uuid,
        }
    }

    /// Whether the effect can be applied to `tasks`: a task that is added
    /// must be new, and any other effect must be about a task that is there.
    pub open spec fn fits(self, tasks: TaskMap) -> bool {
        match self {
            EffectView::AddTask(task) => !tasks.contains_key(task.uuid),
            _ => tasks.contains_key(self.task_id()),
        }
    }

    /// The tasks as the effect leaves them. Where tags are changed, those to
    /// remove are taken out first and those to add are put in then, so that
    /// a tag named on both sides stays.
    pub open spec fn apply(self, tasks: TaskMap) -> TaskMap {
        match self {
            EffectView::AddTask(task) => tasks.insert(task.uuid, task),
            EffectView::ChangeTaskTags { uuid, added, removed } => tasks.insert(
                uuid,
                TaskView { tags: tasks[uuid].tags.difference(removed).union(added), ..tasks[uuid] },
            ),
            EffectView::ChangeTaskState(uuid, state) => tasks.insert(
                uuid,
                TaskView { status: state, ..tasks[uuid] },
            ),
            EffectView::ChangeTaskPriority(uuid, priority) => tasks.insert(
                uuid,
                TaskView { priority, ..tasks[uuid] },
            ),
            EffectView::DeleteTask(uuid) => tasks.remove(uuid),
        }
    }
}

/// The tasks that a log of effects leaves, replayed from the empty store.
pub open spec fn replay(log: Seq<EffectView>) -> TaskMap
    decreases log.len(),
{
    if log.len() == 0 {
        Map::empty()
    } else {
        log.last().apply(replay(log.drop_last()))
    }
}

/// Whether each effect of a log can be applied to what the effects before
/// it have left.
pub open spec fn valid_log(log: Seq<EffectView>) -> bool
    decreases log.len(),
{
    log.len() == 0 || (valid_log(log.drop_last()) && log.last().fits(replay(log.drop_last())))
}

/// Whether every task of a map stands under its own identifier.
pub open spec fn keyed(tasks: TaskMap) -> bool {
    forall|id: Uuid| tasks.contains_key(id) ==> (#[trigger] tasks[id]).uuid == id
}

/// The views of a list of effects, in order.
pub open spec fn effect_views(effects: Seq<Effect>) -> Seq<EffectView> {
    effects.map_values(|e: Effect| e@)
}

impl Effect {
    /// The identifier of the task that the effect is about.
    pub fn task_id(&self) -> (id: Uuid)
        ensures
            id == self@.task_id(),
    {
        match self {
            Effect::AddTask(task) => task.uuid,
            Effect::ChangeTaskTags { uuid, .. } => *uuid,
            Effect::ChangeTaskState(uuid, _) => *uuid,
            Effect::ChangeTaskPriority(uuid, _) => *uuid,
            Effect::DeleteTask(uuid) => *uuid,
        }
    }

    /// What is told to the user of the effect, line by line, where `model`
    /// holds the task that the effect is about.
    pub fn print(&self, model: &Model) -> (lines: Vec<String>)
        requires
            model@.tasks.contains_key(self@.task_id()),
        ensures
            self@.is_told_by(model@.tasks[self@.task_id()], line_views(lines@)),
    {
        let task = match model.get_task(&self.task_id()) {
            Some(task) => task,
            None => vstd::pervasive::unreached(),
        };
        let mut lines: Vec<String> = Vec::new();
        match self {
            Effect::AddTask(_) => {
                let mut line = "Added Task ".to_owned();
                line.append(task.short_id().as_str());
                lines.push(line);
                assert(line_views(lines@) =~= seq!["Added Task "@ + task@.short_id()]);
            },
            Effect::DeleteTask(_) => {
                let mut line = "Deleted task '".to_owned();
                line.append(task.description.as_str());
                line.append("'");
                lines.push(line);
                assert(line_views(lines@) =~= seq!["Deleted task '"@ + task@.description + "'"@]);
            },
            Effect::ChangeTaskTags { added, removed, .. } => {
                proof {
                    assert(line_views(lines@) =~= Seq::<Seq<char>>::empty());
                }
                if !added.is_empty() {
                    let mut line = "Added tags ".to_owned();
                    let shown = tags_text(added);
                    line.append(shown.as_str());
                    proof {
                        assert(line@.skip("Added tags "@.len() as int) =~= shown@);
                        assert("Added tags "@ =~= line@.subrange(0, "Added tags "@.len() as int));
                    }
                    lines.push(line);
                }
                let ghost first = lines@.len() as int;
                if !removed.is_empty() {
                    let mut line = "Removed tags ".to_owned();
                    let shown = tags_text(removed);
                    line.append(shown.as_str());
                    proof {
                        assert(line@.skip("Removed tags "@.len() as int) =~= shown@);
                        assert("Removed tags "@ =~= line@.subrange(
                            0,
                            "Removed tags "@.len() as int,
                        ));
                    }
                    lines.push(line);
                }
                proof {
                    let shown = line_views(lines@);
                    assert(shown.len() == lines@.len());
                    if lines@.len() > 0 {
                        assert(shown[0] == lines@[0]@);
                    }
                    if lines@.len() > 1 {
                        assert(shown[1] == lines@[1]@);
                    }
                    if lines@.len() > first {
                        assert(shown[first] == lines@[first]@);
                    }
                }
            },
            Effect::ChangeTaskState(_, state) => {
                let mut line = "Marking task '".to_owned();
                line.append(task.description.as_str());
                match state {
                    TaskState::Done(_) => line.append("' as done"),
                    TaskState::Open => line.append("' as open"),
                    TaskState::Canceled(_) => line.append("' as canceled"),
                }
                lines.push(line);
                assert(line_views(lines@) =~= seq![
                    "Marking task '"@ + task@.description + (match state {
                        TaskState::Done(_) => "' as done"@,
                        TaskState::Open => "' as open"@,
                        TaskState::Canceled(_) => "' as canceled"@,
                    }),
                ]);
            },
            Effect::ChangeTaskPriority(_, priority) => {
                let mut line = "Changed priority of task '".to_owned();
                line.append(task.description.as_str());
                line.append("' to ");
                line.append(priority.to_string().as_str());
                lines.push(line);
                assert(line_views(lines@) =~= seq![
                    "Changed priority of task '"@ + task@.description + "' to "@
                        + seq![priority.spec_letter()],
                ]);
            },
        }
        lines
    }
}

/// The views of a list of lines, in order.
pub open spec fn line_views(lines: Seq<String>) -> Seq<Seq<char>> {
    lines.map_values(|l: String| l@)
}

/// Whether `text` shows the tags `tags`: each of them once as [`quoted`]
/// shows it, in some order, with commas between them and in braces.
pub open spec fn shows_tags(tags: Set<Seq<char>>, text: Seq<char>) -> bool {
    exists|order: Seq<Seq<char>>|
        order.no_duplicates() && order.to_set() == tags && text == "{"@ + #[trigger] quoted_list(
            order,
        ) + "}"@
}

/// The tags as they are shown: in braces, with commas between them.
pub fn tags_text(tags: &Tags) -> (text: String)
    ensures
        shows_tags(tags@, text@),
{
    let list = tags.to_vec();
    let ghost order = names(list@);
    let mut text = "{".to_owned();
    let ghost start = text@;
    let mut i: usize = 0;
    while i < list.len()
        invariant
            i <= list@.len(),
            order == names(list@),
            start == "{"@,
            text@ == start + quoted_list(order.take(i as int)),
        decreases list@.len() - i,
    {
        proof {
            assert(order.take(i + 1).drop_last() =~= order.take(i as int));
            assert(order.take(i + 1).last() == list@[i as int]@);
            if i > 0 {
                assert(order.take(i as int).len() > 0);
            }
        }
        if i > 0 {
            text.append(", ");
        }
        text.append(quote(list[i].as_str()).as_str());
        proof {
            if i == 0 {
                assert(order.take(1)[0] == list@[0]@);
                assert(quoted_list(order.take(0)) =~= Seq::<char>::empty());
                assert(text@ =~= start + quoted_list(order.take(1)));
            } else {
                assert(text@ =~= start + quoted_list(order.take(i + 1)));
            }
        }
        i += 1;
    }
    text.append("}");
    proof {
        assert(order.take(i as int) =~= order);
        assert(text@ == "{"@ + quoted_list(order) + "}"@);
    }
    text
}

impl EffectView {
    /// Whether `lines` are what is told to the user of the effect, where
    /// `task` is the task that the effect is about: that a task was added,
    /// with its short identifier; that a task was deleted, with its
    /// description; which tags were added and which removed, a line for
    /// each kind of which there are any; as what a task is marked; or the
    /// priority that a task has got.
    pub open spec fn is_told_by(self, task: TaskView, lines: Seq<Seq<char>>) -> bool {
        match self {
            EffectView::AddTask(_) => lines == seq!["Added Task "@ + task.short_id()],
            EffectView::DeleteTask(_) => lines == seq![
                "Deleted task '"@ + task.description + "'"@,
            ],
            EffectView::ChangeTaskTags { added, removed, .. } => {
                let first = if added != Set::<Seq<char>>::empty() {
                    1int
                } else {
                    0int
                };
                let second = if removed != Set::<Seq<char>>::empty() {
                    1int
                } else {
                    0int
                };
                &&& lines.len() == first + second
                &&& first == 1 ==> "Added tags "@.is_prefix_of(lines[0]) && shows_tags(
                    added,
                    lines[0].skip("Added tags "@.len() as int),
                )
                &&& second == 1 ==> "Removed tags "@.is_prefix_of(lines[first]) && shows_tags(
                    removed,
                    lines[first].skip("Removed tags "@.len() as int),
                )
            },
            EffectView::ChangeTaskState(_, state) => lines == seq![
                "Marking task '"@ + task.description + (match state {
                    TaskState::Done(_) => "' as done"@,
                    TaskState::Open => "' as open"@,
                    TaskState::Canceled(_) => "' as canceled"@,
                }),
            ],
            EffectView::ChangeTaskPriority(_, priority) => lines == seq![
                "Changed priority of task '"@ + task.description + "' to "@ + seq![
                    priority.spec_letter(),
                ],
            ],
        }
    }
}

/// A store as the contracts speak of it.
pub ghost struct ModelView {
    /// The live tasks, each under its identifier.
    pub tasks: TaskMap,
    /// The effects that were applied, oldest first.
    pub log: Seq<EffectView>,
    /// The numbers given to tasks, by the name of the scope.
    pub numbers: Map<Seq<char>, Map<u64, Uuid>>,
    /// Whether anything changed since the store was loaded.
    pub dirty: bool,
}

impl ModelView {
    /// The store without tasks, effects or numbers.
    pub open spec fn empty() -> ModelView {
        ModelView { tasks: Map::empty(), log: Seq::empty(), numbers: Map::empty(), dirty: false }
    }

    /// The store as loading the log `log` leaves it.
    pub open spec fn loaded(log: Seq<EffectView>) -> ModelView {
        ModelView { tasks: replay(log), log, numbers: Map::empty(), dirty: false }
    }

    /// The store after `effect` has been applied and recorded.
    pub open spec fn applied(self, effect: EffectView) -> ModelView {
        ModelView {
            tasks: effect.apply(self.tasks),
            log: self.log.push(effect),
            dirty: true,
            ..self
        }
    }

    /// The store after the tasks `ids` of a listing in `scope` have been
    /// numbered from one, in place of the numbers that the scope had.
    pub open spec fn recalculated(self, scope: Seq<char>, ids: Seq<Uuid>) -> ModelView {
        ModelView { numbers: self.numbers.insert(scope, numbered(ids)), dirty: true, ..self }
    }

    /// The store after the number `n` of `scope` has been given to the task
    /// `id`.
    pub open spec fn assigned(self, scope: Seq<char>, n: u64, id: Uuid) -> ModelView {
        ModelView {
            numbers: self.numbers.insert(scope, numbers_of(self.numbers, scope).insert(n, id)),
            dirty: true,
            ..self
        }
    }

    /// The identifiers that a reference can stand for in a scope: the
    /// identifier itself, those of the live tasks whose simple form begins
    /// with the given characters, or what the number stands for in the
    /// scope.
    pub open spec fn candidates(self, scope: Seq<char>, reference: TaskRefView) -> Set<Uuid> {
        match reference {
            TaskRefView::FullUUID(id) => set![id],
            TaskRefView::ShortUUID(prefix) => Set::new(
                |id: Uuid| self.tasks.contains_key(id) && prefix.is_prefix_of(simple_form(id)),
            ),
            TaskRefView::Numerical(n) => if numbers_of(self.numbers, scope).contains_key(n) {
                set![numbers_of(self.numbers, scope)[n]]
            } else {
                Set::empty()
            },
        }
    }

    /// What a reference resolves to in a scope: the one live task that it
    /// stands for. It finds nothing where it stands for no identifier, or
    /// for one that no live task has, and it is ambiguous where it stands
    /// for more than one.
    pub open spec fn found(self, scope: Seq<char>, reference: TaskRefView) -> Result<
        TaskView,
        FindTaskError,
    > {
        let ids = self.candidates(scope, reference);
        if forall|id: Uuid| !ids.contains(id) {
            Err(FindTaskError::TaskNotFound)
        } else if forall|a: Uuid, b: Uuid| ids.contains(a) && ids.contains(b) ==> a == b {
            let id = choose|id: Uuid| ids.contains(id);
            if self.tasks.contains_key(id) {
                Ok(self.tasks[id])
            } else {
                Err(FindTaskError::TaskNotFound)
            }
        } else {
            Err(FindTaskError::MultipleResults)
        }
    }

    /// Whether `list` is a listing of the store at the time `now`: it holds
    /// every live task once, and no task comes after one that it ranks
    /// before.
    pub open spec fn is_listing_at(self, list: Seq<TaskView>, now: Time) -> bool {
        &&& list.len() == self.tasks.dom().len()
        &&& forall|i: int|
            0 <= i < list.len() ==> self.tasks.contains_key((#[trigger] list[i]).uuid)
                && self.tasks[list[i].uuid] == list[i]
        &&& forall|i: int, j: int|
            0 <= i < j < list.len() ==> (#[trigger] list[i]).uuid != (#[trigger] list[j]).uuid
        &&& forall|i: int, j: int|
            0 <= i < j < list.len() ==> !(#[trigger] list[j]).ranks_before_at(
                #[trigger] list[i],
                now,
            )
    }

    /// Whether the tasks are what replaying the log gives.
    pub open spec fn in_step(self) -> bool {
        valid_log(self.log) && self.tasks == replay(self.log)
    }
}

/// Why a reference did not resolve to a task.
#[derive(Debug, PartialEq, Eq, Clone, Copy, Structural)]
pub enum FindTaskError {
    TaskNotFound,
    MultipleResults,
}

impl FindTaskError {
    /// What is told to the user.
    pub fn to_string(&self) -> (text: String)
        ensures
            text@ == (match self {
                FindTaskError::TaskNotFound => "Couldn't find task"@,
                FindTaskError::MultipleResults => "Found multiple tasks"@,
            }),
    {
        match self {
            FindTaskError::TaskNotFound => "Couldn't find task".to_owned(),
            FindTaskError::MultipleResults => "Found multiple tasks".to_owned(),
        }
    }
}

/// Whether `id` is among the first `upto` of `keys`.
pub open spec fn among(keys: Seq<&Uuid>, upto: int, id: Uuid) -> bool {
    exists|j: int| 0 <= j < upto && *keys[j] == id
}

/// The views of a list of tasks, in order.
pub open spec fn task_views(tasks: Seq<&Task>) -> Seq<TaskView> {
    tasks.map_values(|t: &Task| t@)
}

/// The in-memory task store.
#[derive(Debug)]
pub struct Model {
    tasks: HashMap<Uuid, Task>,
    applied_effects: Vec<Effect>,
    numerical_ids: NumericalIds,
    is_dirty: bool,
}

impl View for Model {
    type V = ModelView;

    closed spec fn view(&self) -> ModelView {
        ModelView {
            tasks: self.tasks@.map_values(|t: Task| t@),
            log: effect_views(self.applied_effects@),
            numbers: self.numerical_ids@,
            dirty: self.is_dirty,
        }
    }
}

impl Model {
    #[verifier::type_invariant]
    spec fn own_keys(&self) -> bool {
        forall|id: Uuid| self.tasks@.contains_key(id) ==> (#[trigger] self.tasks@[id]).uuid == id
    }

    /// The empty store.
    pub fn new() -> (model: Self)
        ensures
            model@ == ModelView::empty(),
    {
        let model = Model {
            tasks: HashMap::new(),
            applied_effects: Vec::new(),
            numerical_ids: NumericalIds::new(),
            is_dirty: false,
        };
        proof {
            assert(model@.tasks =~= Map::<Uuid, TaskView>::empty());
            assert(model@.log =~= Seq::<EffectView>::empty());
        }
        model
    }

    /// The task with the identifier `uuid`, if the store holds it.
    pub fn get_task(&self, uuid: &Uuid) -> (task: Option<&Task>)
        ensures
            keyed(self@.tasks),
            match task {
                Some(t) => self@.tasks.contains_key(*uuid) && self@.tasks[*uuid] == t@ && t.uuid
                    == *uuid,
                None => !self@.tasks.contains_key(*uuid),
            },
    {
        proof {
            use_type_invariant(self);
        }
        self.tasks.get(uuid)
    }

    /// Whether anything changed since the store was loaded.
    pub fn is_dirty(&self) -> (dirty: bool)
        ensures
            dirty == self@.dirty,
    {
        self.is_dirty
    }

    /// The number of live tasks.
    pub fn task_count(&self) -> (n: usize)
        ensures
            self@.tasks.dom().finite(),
            n == self@.tasks.dom().len(),
    {
        assert(self@.tasks.dom() =~= self.tasks@.dom());
        self.tasks.len()
    }

    /// The effects that were applied, oldest first.
    pub fn applied_effects(&self) -> (effects: &Vec<Effect>)
        ensures
            effect_views(effects@) == self@.log,
    {
        &self.applied_effects
    }

    /// The numbers given to tasks, by scope.
    pub fn numerical_ids(&self) -> (ids: &NumericalIds)
        ensures
            ids@ == self@.numbers,
    {
        &self.numerical_ids
    }

    /// The effects that a store which has kept the first `stored` of them
    /// still lacks: those that were applied after them.
    pub fn pending_effects(&self, stored: usize) -> (pending: Vec<Effect>)
        ensures
            effect_views(pending@) == self@.log.skip(
                if stored <= self@.log.len() {
                    stored as int
                } else {
                    self@.log.len() as int
                },
            ),
    {
        let mut pending: Vec<Effect> = Vec::new();
        let from = if stored <= self.applied_effects.len() {
            stored
        } else {
            self.applied_effects.len()
        };
        let mut i: usize = from;
        while i < self.applied_effects.len()
            invariant
                from <= i <= self.applied_effects@.len(),
                pending@.len() == i - from,
                forall|j: int|
                    0 <= j < i - from ==> (#[trigger] pending@[j])@ == self.applied_effects@[j
                        + from]@,
            decreases self.applied_effects@.len() - i,
        {
            pending.push(self.applied_effects[i].clone());
            i += 1;
        }
        proof {
            assert(effect_views(pending@) =~= self@.log.skip(from as int));
        }
        pending
    }

    /// Gives the store the numbers `ids`, as they were kept from an earlier
    /// run, in place of those it has. The store does not count as changed
    /// by it.
    pub fn set_numerical_ids(&mut self, ids: NumericalIds)
        ensures
            final(self)@ == (ModelView { numbers: ids@, ..old(self)@ }),
    {
        proof {
            use_type_invariant(&*self);
        }
        self.numerical_ids = ids;
    }

    /// Whether `effect` can be applied to the store as it is.
    pub fn accepts(&self, effect: &Effect) -> (fits: bool)
        ensures
            fits == effect@.fits(self@.tasks),
    {
        let present = self.tasks.contains_key(&effect.task_id());
        match effect {
            Effect::AddTask(_) => !present,
            _ => present,
        }
    }

    /// Puts `t` into the store, without recording an effect.
    pub fn add_task(&mut self, t: Task)
        requires
            !old(self)@.tasks.contains_key(t.uuid),
        ensures
            final(self)@ == (ModelView {
                tasks: old(self)@.tasks.insert(t.uuid, t@),
                ..old(self)@
            }),
    {
        proof {
            use_type_invariant(&*self);
        }
        let mut tasks: HashMap<Uuid, Task> = HashMap::new();
        std::mem::swap(&mut tasks, &mut self.tasks);
        let ghost before = tasks@;
        tasks.insert(t.uuid, t);
        self.tasks = tasks;
        proof {
            assert(self@.tasks =~= before.map_values(|t: Task| t@).insert(t.uuid, t@));
        }
    }

    /// Takes the task with the identifier `u` out of the store and hands it
    /// back, without recording an effect.
    pub fn delete_task(&mut self, u: &Uuid) -> (task: Option<Task>)
        ensures
            final(self)@ == (ModelView { tasks: old(self)@.tasks.remove(*u), ..old(self)@ }),
            match task {
                Some(t) => old(self)@.tasks.contains_key(*u) && old(self)@.tasks[*u] == t@,
                None => !old(self)@.tasks.contains_key(*u),
            },
    {
        proof {
            use_type_invariant(&*self);
        }
        let mut tasks: HashMap<Uuid, Task> = HashMap::new();
        std::mem::swap(&mut tasks, &mut self.tasks);
        let ghost before = tasks@;
        let task = tasks.remove(u);
        self.tasks = tasks;
        proof {
            assert(self@.tasks =~= before.map_values(|t: Task| t@).remove(*u));
        }
        task
    }

    /// Takes the task `u` out of the map, lets the caller change it, and
    /// puts it back under the same identifier.
    fn replace_task(&mut self, u: &Uuid, changed: Task)
        requires
            old(self)@.tasks.contains_key(*u),
            changed.uuid == *u,
        ensures
            final(self)@ == (ModelView {
                tasks: old(self)@.tasks.insert(*u, changed@),
                ..old(self)@
            }),
    {
        proof {
            use_type_invariant(&*self);
        }
        let mut tasks: HashMap<Uuid, Task> = HashMap::new();
        std::mem::swap(&mut tasks, &mut self.tasks);
        let ghost before = tasks@;
        tasks.insert(*u, changed);
        self.tasks = tasks;
        proof {
            assert(self@.tasks =~= before.map_values(|t: Task| t@).insert(*u, changed@));
        }
    }

    /// Gives the task `u` the status `state`, without recording an effect.
    pub fn change_task_state(&mut self, u: &Uuid, state: TaskState)
        requires
            old(self)@.tasks.contains_key(*u),
        ensures
            final(self)@ == (ModelView {
                tasks: EffectView::ChangeTaskState(*u, state).apply(old(self)@.tasks),
                ..old(self)@
            }),
    {
        let mut task = match self.get_task(u) {
            Some(t) => t.clone(),
            None => vstd::pervasive::unreached(),
        };
        task.status = state;
        self.replace_task(u, task);
    }

    /// Gives the task `u` the priority `priority`, without recording an
    /// effect.
    pub fn change_task_priority(&mut self, u: &Uuid, priority: Priority)
        requires
            old(self)@.tasks.contains_key(*u),
        ensures
            final(self)@ == (ModelView {
                tasks: EffectView::ChangeTaskPriority(*u, priority).apply(old(self)@.tasks),
                ..old(self)@
            }),
    {
        let mut task = match self.get_task(u) {
            Some(t) => t.clone(),
            None => vstd::pervasive::unreached(),
        };
        task.priority = priority;
        self.replace_task(u, task);
    }

    /// Takes the tags `removed` from the task `u` and then gives it the tags
    /// `added`, without recording an effect.
    pub fn change_task_tags(&mut self, u: &Uuid, added: Tags, removed: Tags)
        requires
            old(self)@.tasks.contains_key(*u),
        ensures
            final(self)@ == (ModelView {
                tasks: (EffectView::ChangeTaskTags {
                    uuid: *u,
                    added: added@,
                    removed: removed@,
                }).apply(old(self)@.tasks),
                ..old(self)@
            }),
    {
        let mut task = match self.get_task(u) {
            Some(t) => t.clone(),
            None => vstd::pervasive::unreached(),
        };
        task.tags.remove_all(&removed);
        task.tags.insert_all(&added);
        self.replace_task(u, task);
    }

    /// Applies `effect` to the tasks, records it in the log and marks the
    /// store as changed.
    pub fn apply_effect(&mut self, effect: &Effect)
        requires
            effect@.fits(old(self)@.tasks),
        ensures
            final(self)@ == old(self)@.applied(effect@),
            old(self)@.in_step() ==> final(self)@.in_step(),
    {
        match effect {
            Effect::AddTask(task) => {
                self.add_task(task.clone());
            },
            Effect::ChangeTaskTags { uuid, added, removed } => {
                self.change_task_tags(uuid, added.clone(), removed.clone());
            },
            Effect::ChangeTaskState(uuid, state) => {
                self.change_task_state(uuid, *state);
            },
            Effect::ChangeTaskPriority(uuid, priority) => {
                self.change_task_priority(uuid, *priority);
            },
            Effect::DeleteTask(uuid) => {
                self.delete_task(uuid);
            },
        }
        proof {
            use_type_invariant(&*self);
        }
        let ghost logged = self.applied_effects@;
        let mut log: Vec<Effect> = Vec::new();
        std::mem::swap(&mut log, &mut self.applied_effects);
        log.push(effect.clone());
        self.applied_effects = log;
        self.is_dirty = true;
        proof {
            assert(effect_views(self.applied_effects@) =~= effect_views(logged).push(effect@));
            if old(self)@.in_step() {
                lemma_applied_in_step(old(self)@, effect@);
            }
        }
    }

    /// The store that replaying `effects` from the empty store gives, or
    /// `None` where one of the effects cannot be applied to what those
    /// before it have left. The store counts as unchanged.
    pub fn try_from_effects(effects: &[Effect]) -> (loaded: Option<Model>)
        ensures
            match loaded {
                Some(model) => valid_log(effect_views(effects@)) && model@ == ModelView::loaded(
                    effect_views(effects@),
                ),
                None => !valid_log(effect_views(effects@)),
            },
    {
        let mut model = Model::new();
        let ghost log = effect_views(effects@);
        let mut i: usize = 0;
        while i < effects.len()
            invariant
                i <= effects@.len(),
                log == effect_views(effects@),
                valid_log(log.take(i as int)),
                model@.tasks == replay(log.take(i as int)),
                model@.log == log.take(i as int),
                model@.numbers == Map::<Seq<char>, Map<u64, Uuid>>::empty(),
            decreases effects@.len() - i,
        {
            proof {
                assert(log.take(i + 1).drop_last() =~= log.take(i as int));
                assert(log.take(i + 1).last() == effects@[i as int]@);
            }
            if !model.accepts(&effects[i]) {
                proof {
                    if valid_log(log) {
                        lemma_valid_prefix(log, i + 1);
                    }
                }
                return None;
            }
            model.apply_effect(&effects[i]);
            proof {
                assert(log.take(i + 1) =~= log.take(i as int).push(effects@[i as int]@));
            }
            i += 1;
        }
        proof {
            use_type_invariant(&model);
        }
        model.is_dirty = false;
        proof {
            assert(log.take(i as int) =~= log);
        }
        Some(model)
    }

    /// The store that replaying `effects` from the empty store gives. The
    /// store counts as unchanged.
    pub fn from_effects(effects: &[Effect]) -> (model: Model)
        requires
            valid_log(effect_views(effects@)),
        ensures
            model@ == ModelView::loaded(effect_views(effects@)),
            model@.in_step(),
    {
        match Model::try_from_effects(effects) {
            Some(model) => model,
            None => vstd::pervasive::unreached(),
        }
    }

    /// The smallest number that stands for the task `task_id` in the scope
    /// `scope_name`, if the scope has one for it.
    pub fn short_task_id(&self, scope_name: &str, task_id: &Uuid) -> (number: Option<u64>)
        ensures
            match number {
                Some(n) => is_number_of(numbers_of(self@.numbers, scope_name@), *task_id, n),
                None => has_no_number(numbers_of(self@.numbers, scope_name@), *task_id),
            },
    {
        match self.numerical_ids.get(scope_name) {
            Some(numbers) => smallest_number_of(numbers, *task_id),
            None => None,
        }
    }

    /// Numbers the tasks `task_ids` of a listing in `scope` from one, in
    /// place of the numbers that the scope had, and marks the store as
    /// changed.
    pub fn recalculate_numerical_ids(&mut self, scope: &str, task_ids: &[Uuid])
        ensures
            final(self)@ == old(self)@.recalculated(scope@, task_ids@),
    {
        proof {
            use_type_invariant(&*self);
        }
        let numbers = number_in_order(task_ids);
        let mut ids = NumericalIds::new();
        std::mem::swap(&mut ids, &mut self.numerical_ids);
        ids.insert(scope, numbers);
        self.numerical_ids = ids;
        self.is_dirty = true;
    }

    /// Lets the number `n` of `scope` stand for the task `id`, and marks
    /// the store as changed.
    pub fn assign_numerical_id(&mut self, scope: &str, n: u64, id: Uuid)
        ensures
            final(self)@ == old(self)@.assigned(scope@, n, id),
    {
        proof {
            use_type_invariant(&*self);
        }
        let mut ids = NumericalIds::new();
        std::mem::swap(&mut ids, &mut self.numerical_ids);
        ids.assign(scope, n, id);
        self.numerical_ids = ids;
        self.is_dirty = true;
    }

    /// The number of the task `task` in `scope`. Where the scope has none
    /// for it yet, the task gets the number that follows the largest in use
    /// there, and the store is marked as changed.
    pub fn incremental_numerical_id(&mut self, scope: &str, task: &Uuid) -> (number: u64)
        requires
            old(self)@.tasks.contains_key(*task),
            !numbers_of(old(self)@.numbers, scope@).contains_key(u64::MAX),
        ensures
            has_no_number(numbers_of(old(self)@.numbers, scope@), *task) ==> is_next_number(
                numbers_of(old(self)@.numbers, scope@),
                number as int,
            ) && final(self)@ == old(self)@.assigned(scope@, number, *task),
            !has_no_number(numbers_of(old(self)@.numbers, scope@), *task) ==> is_number_of(
                numbers_of(old(self)@.numbers, scope@),
                *task,
                number,
            ) && final(self)@ == old(self)@,
    {
        match self.short_task_id(scope, task) {
            Some(n) => n,
            None => {
                let largest = match self.numerical_ids.get(scope) {
                    Some(numbers) => largest_number(numbers),
                    None => None,
                };
                let n: u64 = match largest {
                    Some(m) => m + 1,
                    None => 1,
                };
                self.assign_numerical_id(scope, n, *task);
                n
            },
        }
    }

    /// The identifiers of the live tasks whose simple form begins with
    /// `prefix`, each once.
    fn ids_with_prefix(&self, prefix: &str) -> (ids: Vec<Uuid>)
        ensures
            ids@.no_duplicates(),
            ids@.to_set() == self@.candidates(Seq::empty(), TaskRefView::ShortUUID(prefix@)),
    {
        let wanted = chars_of(prefix);
        let mut ids: Vec<Uuid> = Vec::new();
        for key in it: self.tasks.keys()
            invariant
                wanted@ == prefix@,
                forall|i: int| 0 <= i < ids@.len() ==> among(it.seq(), it.index(), #[trigger] ids@[i]),
                forall|i: int|
                    0 <= i < ids@.len() ==> prefix@.is_prefix_of(simple_form(#[trigger] ids@[i])),
                forall|j: int|
                    0 <= j < it.index() && prefix@.is_prefix_of(simple_form(*it.seq()[j]))
                        ==> ids@.contains(*#[trigger] it.seq()[j]),
                ids@.no_duplicates(),
                it.seq().no_duplicates(),
        {
            let text = simple_text(*key);
            let have = chars_of(text.as_str());
            let ghost before = ids@;
            if starts_with(&have, &wanted) {
                proof {
                    if before.contains(*key) {
                        let i = choose|i: int| 0 <= i < before.len() && before[i] == *key;
                        assert(among(it.seq(), it.index(), before[i]));
                        let j = choose|j: int| 0 <= j < it.index() && *it.seq()[j] == before[i];
                        assert(it.seq()[j] == it.seq()[it.index()]);
                    }
                }
                ids.push(*key);
                proof {
                    assert(ids@[before.len() as int] == *key);
                    assert(*it.seq()[it.index()] == *key);
                }
            }
            proof {
                assert forall|i: int| 0 <= i < ids@.len() implies among(
                    it.seq(),
                    it.index() + 1,
                    #[trigger] ids@[i],
                ) && prefix@.is_prefix_of(simple_form(ids@[i])) by {
                    if i < before.len() {
                        assert(ids@[i] == before[i]);
                        assert(among(it.seq(), it.index(), before[i]));
                        let j = choose|j: int| 0 <= j < it.index() && *it.seq()[j] == before[i];
                        assert(*it.seq()[j] == ids@[i]);
                    } else {
                        assert(*it.seq()[it.index()] == ids@[i]);
                    }
                }
                assert forall|j: int|
                    0 <= j < it.index() + 1 && prefix@.is_prefix_of(
                        simple_form(*it.seq()[j]),
                    ) implies ids@.contains(*#[trigger] it.seq()[j]) by {
                    if j < it.index() {
                        assert(before.contains(*it.seq()[j]));
                        let i = choose|i: int| 0 <= i < before.len() && before[i] == *it.seq()[j];
                        assert(ids@[i] == before[i]);
                    } else {
                        assert(ids@[before.len() as int] == *key);
                    }
                }
            }
        }
        proof {
            let all = self.tasks.keys().remaining();
            let wanted_ids = self@.candidates(Seq::empty(), TaskRefView::ShortUUID(prefix@));
            assert(all.unref().to_set() == self.tasks@.dom());
            assert forall|id: Uuid| ids@.to_set().contains(id) <==> wanted_ids.contains(id) by {
                if ids@.to_set().contains(id) {
                    let i = choose|i: int| 0 <= i < ids@.len() && ids@[i] == id;
                    assert(among(all, all.len() as int, ids@[i]));
                    let j = choose|j: int| 0 <= j < all.len() && *all[j] == ids@[i];
                    assert(all.unref()[j] == id);
                    assert(all.unref().to_set().contains(id));
                }
                if wanted_ids.contains(id) {
                    assert(self.tasks@.dom().contains(id));
                    assert(all.unref().to_set().contains(id));
                    let j = choose|j: int| 0 <= j < all.unref().len() && all.unref()[j] == id;
                    assert(*all[j] == id);
                    assert(ids@.contains(*all[j]));
                }
            }
            assert(ids@.to_set() =~= wanted_ids);
        }
        ids
    }

    /// Every live task, the most urgent first, as the urgencies are at the
    /// time `now`.
    pub fn all_tasks_at(&self, now: &Time) -> (list: Vec<&Task>)
        ensures
            keyed(self@.tasks),
            self@.tasks.dom().finite(),
            self@.is_listing_at(task_views(list@), *now),
    {
        proof {
            use_type_invariant(self);
        }
        let mut list: Vec<&Task> = Vec::new();
        for key in it: self.tasks.keys()
            invariant
                forall|id: Uuid|
                    self.tasks@.contains_key(id) ==> (#[trigger] self.tasks@[id]).uuid == id,
                list@.len() == it.index(),
                it.seq().no_duplicates(),
                forall|i: int|
                    0 <= i < list@.len() ==> among(it.seq(), it.index(), (#[trigger] list@[i]).uuid),
                forall|i: int|
                    0 <= i < list@.len() ==> self.tasks@.contains_key((#[trigger] list@[i]).uuid)
                        && self.tasks@[list@[i].uuid] == *list@[i],
                forall|i: int, j: int|
                    0 <= i < j < list@.len() ==> (#[trigger] list@[i]).uuid != (
                    #[trigger] list@[j]).uuid,
                forall|i: int, j: int|
                    0 <= i < j < list@.len() ==> !(#[trigger] list@[j])@.ranks_before_at(
                        (#[trigger] list@[i])@,
                        *now,
                    ),
        {
            proof {
                assert(it.seq().unref()[it.index()] == *key);
                assert(it.seq().unref().to_set().contains(*key));
            }
            let task: &Task = match self.tasks.get(key) {
                Some(task) => task,
                None => vstd::pervasive::unreached(),
            };
            let ghost before = list@;
            let mut at: usize = 0;
            while at < list.len() && !task.ranks_before_at(list[at], now)
                invariant
                    at <= list@.len(),
                    list@ == before,
                    forall|q: int| 0 <= q < at ==> !task@.ranks_before_at((#[trigger] list@[q])@, *now),
                decreases list@.len() - at,
            {
                at += 1;
            }
            list.insert(at, task);
            proof {
                assert forall|i: int| 0 <= i < list@.len() implies #[trigger] list@[i] == (if i
                    < at {
                    before[i]
                } else if i == at {
                    task
                } else {
                    before[i - 1]
                }) by {}
                assert forall|i: int| 0 <= i < list@.len() implies among(
                    it.seq(),
                    it.index() + 1,
                    (#[trigger] list@[i]).uuid,
                ) by {
                    if i == at {
                        assert(*it.seq()[it.index()] == list@[i].uuid);
                    } else {
                        let i0 = if i < at { i } else { i - 1 };
                        assert(list@[i] == before[i0]);
                        assert(among(it.seq(), it.index(), before[i0].uuid));
                        let j = choose|j: int| 0 <= j < it.index() && *it.seq()[j] == before[i0].uuid;
                        assert(*it.seq()[j] == list@[i].uuid);
                    }
                }
                assert forall|i: int, j: int| 0 <= i < j < list@.len() implies (
                #[trigger] list@[i]).uuid != (#[trigger] list@[j]).uuid by {
                    let i0 = if i < at { i } else { i - 1 };
                    let j0 = if j < at { j } else { j - 1 };
                    if i == at {
                        assert(list@[j] == before[j0]);
                        assert(among(it.seq(), it.index(), before[j0].uuid));
                        let k = choose|k: int| 0 <= k < it.index() && *it.seq()[k] == before[j0].uuid;
                        assert(it.seq()[k] != it.seq()[it.index()]);
                    } else if j == at {
                        assert(list@[i] == before[i0]);
                        assert(among(it.seq(), it.index(), before[i0].uuid));
                        let k = choose|k: int| 0 <= k < it.index() && *it.seq()[k] == before[i0].uuid;
                        assert(it.seq()[k] != it.seq()[it.index()]);
                    } else {
                        assert(list@[i] == before[i0]);
                        assert(list@[j] == before[j0]);
                    }
                }
                assert forall|i: int, j: int| 0 <= i < j < list@.len() implies !(
                #[trigger] list@[j])@.ranks_before_at((#[trigger] list@[i])@, *now) by {
                    let i0 = if i < at { i } else { i - 1 };
                    let j0 = if j < at { j } else { j - 1 };
                    if i == at {
                        assert(list@[j] == before[j0]);
                        assert(task@.ranks_before_at(before[at as int]@, *now));
                        if j0 > at {
                            assert(!before[j0]@.ranks_before_at(before[at as int]@, *now));
                        }
                    } else if j == at {
                        assert(list@[i] == before[i0]);
                    } else {
                        assert(list@[i] == before[i0]);
                        assert(list@[j] == before[j0]);
                    }
                }
            }
        }
        proof {
            let all = self.tasks.keys().remaining();
            assert(all.len() == self.tasks@.dom().len());
            assert(self@.tasks.dom() =~= self.tasks@.dom());
            assert(task_views(list@).len() == list@.len());
            assert forall|i: int| 0 <= i < list@.len() implies #[trigger] task_views(list@)[i]
                == list@[i]@ by {}
        }
        list
    }

    /// Every live task, the most urgent first, as the urgencies are at the
    /// current time.
    pub fn all_tasks(&self) -> (list: Vec<&Task>)
        ensures
            keyed(self@.tasks),
            self@.tasks.dom().finite(),
            exists|now: Time| self@.is_listing_at(task_views(list@), now),
    {
        let now = Time::now();
        self.all_tasks_at(&now)
    }

    /// The one live task that `task_ref` stands for in the scope
    /// `scope_name`.
    pub fn find_task(&self, scope_name: &str, task_ref: &TaskRef) -> (found: Result<
        &Task,
        FindTaskError,
    >)
        ensures
            keyed(self@.tasks),
            match found {
                Ok(task) => self@.found(scope_name@, task_ref@) == Ok::<TaskView, FindTaskError>(
                    task@,
                ) && self@.tasks.contains_key(task.uuid),
                Err(error) => self@.found(scope_name@, task_ref@) == Err::<
                    TaskView,
                    FindTaskError,
                >(error),
            },
    {
        proof {
            use_type_invariant(self);
        }
        let ghost wanted = self@.candidates(scope_name@, task_ref@);
        let uuids: Vec<Uuid> = match task_ref {
            TaskRef::FullUUID(u) => {
                let one = vec![*u];
                assert(one@.to_set() =~= wanted) by {
                    assert(one@[0] == *u);
                }
                one
            },
            TaskRef::ShortUUID(s) => self.ids_with_prefix(s.as_str()),
            TaskRef::Numerical(n) => {
                let known = match self.numerical_ids.get(scope_name) {
                    Some(numbers) => match numbers.get(n) {
                        Some(id) => Some(*id),
                        None => None,
                    },
                    None => None,
                };
                match known {
                    Some(id) => {
                        let one = vec![id];
                        assert(one@.to_set() =~= wanted) by {
                            assert(one@[0] == id);
                        }
                        one
                    },
                    None => {
                        let none: Vec<Uuid> = Vec::new();
                        assert(none@.to_set() =~= wanted);
                        none
                    },
                }
            },
        };
        assert(uuids@.to_set() == wanted);
        assert(uuids@.no_duplicates());
        if uuids.len() == 0 {
            proof {
                assert forall|id: Uuid| !wanted.contains(id) by {
                    if wanted.contains(id) {
                        assert(uuids@.contains(id));
                    }
                }
            }
            Err(FindTaskError::TaskNotFound)
        } else if uuids.len() == 1 {
            let id = uuids[0];
            proof {
                assert(uuids@.contains(id));
                assert(wanted.contains(id));
                assert forall|a: Uuid, b: Uuid| wanted.contains(a) && wanted.contains(b) implies a
                    == b by {
                    assert(uuids@.contains(a));
                    assert(uuids@.contains(b));
                }
                let chosen = choose|c: Uuid| wanted.contains(c);
                assert(chosen == id);
            }
            match self.get_task(&id) {
                Some(task) => Ok(task),
                None => Err(FindTaskError::TaskNotFound),
            }
        } else {
            proof {
                assert(uuids@.contains(uuids@[0]));
                assert(uuids@.contains(uuids@[1]));
                assert(wanted.contains(uuids@[0]));
                assert(wanted.contains(uuids@[1]));
                assert(uuids@[0] != uuids@[1]);
            }
            Err(FindTaskError::MultipleResults)
        }
    }
}

/// Every beginning of a valid log is a valid log.
pub proof fn lemma_valid_prefix(log: Seq<EffectView>, n: int)
    requires
        valid_log(log),
        0 <= n <= log.len(),
    ensures
        valid_log(log.take(n)),
    decreases log.len(),
{
    if n == log.len() {
        assert(log.take(n) =~= log);
    } else {
        assert(log.drop_last().take(n) =~= log.take(n));
        lemma_valid_prefix(log.drop_last(), n);
    }
}

/// Replaying a log with one more effect gives what that effect makes of the
/// replay of the log.
pub proof fn lemma_replay_push(log: Seq<EffectView>, effect: EffectView)
    ensures
        replay(log.push(effect)) == effect.apply(replay(log)),
        valid_log(log.push(effect)) == (valid_log(log) && effect.fits(replay(log))),
{
    assert(log.push(effect).drop_last() =~= log);
}

/// A store whose tasks are the replay of its log stays so when a fitting
/// effect is applied to it.
pub proof fn lemma_applied_in_step(store: ModelView, effect: EffectView)
    requires
        store.in_step(),
        effect.fits(store.tasks),
    ensures
        store.applied(effect).in_step(),
{
    lemma_replay_push(store.log, effect);
}

} // verus!
