//! What holds of the store whatever the tasks, effects and references are.

use vstd::prelude::*;
use crate::ident::{hyphenated_form, simple_form, Uuid};
use crate::dispatch::{resolved, unresolved, HandleCommandError};
use crate::model::{replay, valid_log, EffectView, FindTaskError, ModelView, TaskMap};
use crate::numbering::{numbered, numbers_of};
use crate::task::{Priority, TaskView};
use crate::task_ref::{is_short_hex, spec_from_str, TaskRefView};
use crate::time::Time;

verus! {

/// The tasks that a log of effects leaves when it is replayed onto `tasks`.
pub open spec fn replay_onto(tasks: TaskMap, log: Seq<EffectView>) -> TaskMap
    decreases log.len(),
{
    if log.len() == 0 {
        tasks
    } else {
        log.last().apply(replay_onto(tasks, log.drop_last()))
    }
}

/// Replaying is a function of the log alone, and it can be done in parts:
/// replaying a log and then a second one onto what the first has left gives
/// the same tasks as replaying the two as one log.
pub proof fn lemma_replay_in_parts(first: Seq<EffectView>, second: Seq<EffectView>)
    ensures
        replay(first + second) == replay_onto(replay(first), second),
    decreases second.len(),
{
    if second.len() == 0 {
        assert(first + second =~= first);
    } else {
        assert((first + second).drop_last() =~= first + second.drop_last());
        assert((first + second).last() == second.last());
        lemma_replay_in_parts(first, second.drop_last());
    }
}

/// A store that was loaded from a log and to which further fitting effects
/// were applied one by one holds the tasks that loading the longer log
/// gives.
pub proof fn lemma_applied_is_replayed(log: Seq<EffectView>, effect: EffectView)
    requires
        valid_log(log),
        effect.fits(replay(log)),
    ensures
        ModelView::loaded(log).applied(effect).tasks == ModelView::loaded(log.push(effect)).tasks,
        ModelView::loaded(log).applied(effect).log == ModelView::loaded(log.push(effect)).log,
        valid_log(log.push(effect)),
{
    crate::model::lemma_replay_push(log, effect);
}

/// In the replay of a valid log every task stands under its own identifier.
pub proof fn lemma_replay_keyed(log: Seq<EffectView>)
    requires
        valid_log(log),
    ensures
        crate::model::keyed(replay(log)),
    decreases log.len(),
{
    if log.len() > 0 {
        lemma_replay_keyed(log.drop_last());
    }
}

/// A task that was added is there as it was given, and after it has been
/// deleted it is there no more; the tasks are then what they were before.
pub proof fn lemma_add_then_delete(store: ModelView, task: TaskView)
    requires
        !store.tasks.contains_key(task.uuid),
    ensures
        store.applied(EffectView::AddTask(task)).tasks.contains_key(task.uuid),
        store.applied(EffectView::AddTask(task)).tasks[task.uuid] == task,
        EffectView::DeleteTask(task.uuid).fits(store.applied(EffectView::AddTask(task)).tasks),
        !store.applied(EffectView::AddTask(task)).applied(
            EffectView::DeleteTask(task.uuid),
        ).tasks.contains_key(task.uuid),
        store.applied(EffectView::AddTask(task)).applied(EffectView::DeleteTask(task.uuid)).tasks
            == store.tasks,
{
    assert(store.tasks.insert(task.uuid, task).remove(task.uuid) =~= store.tasks);
}

/// Changing the tags of a task twice in the same way leaves the tasks as
/// changing them once does.
pub proof fn lemma_tag_change_twice(
    tasks: TaskMap,
    uuid: Uuid,
    added: Set<Seq<char>>,
    removed: Set<Seq<char>>,
)
    requires
        tasks.contains_key(uuid),
    ensures
        ({
            let change = EffectView::ChangeTaskTags { uuid, added, removed };
            change.fits(change.apply(tasks)) && change.apply(change.apply(tasks)) == change.apply(
                tasks,
            )
        }),
{
    let change = EffectView::ChangeTaskTags { uuid, added, removed };
    let once = change.apply(tasks);
    let tags = tasks[uuid].tags;
    assert(tags.difference(removed).union(added).difference(removed).union(added)
        =~= tags.difference(removed).union(added));
    assert(change.apply(once) =~= once);
}

/// Where two live tasks have identifiers whose simple forms begin with the
/// same characters, a reference by those characters is ambiguous.
pub proof fn lemma_shared_prefix_is_ambiguous(
    store: ModelView,
    scope: Seq<char>,
    prefix: Seq<char>,
    a: Uuid,
    b: Uuid,
)
    requires
        a != b,
        store.tasks.contains_key(a),
        store.tasks.contains_key(b),
        prefix.is_prefix_of(simple_form(a)),
        prefix.is_prefix_of(simple_form(b)),
    ensures
        store.found(scope, TaskRefView::ShortUUID(prefix)) == Err::<TaskView, FindTaskError>(
            FindTaskError::MultipleResults,
        ),
{
    let ids = store.candidates(scope, TaskRefView::ShortUUID(prefix));
    assert(ids.contains(a));
    assert(ids.contains(b));
}

/// Where exactly one live task has an identifier whose simple form begins
/// with the given characters, a reference by those characters resolves to
/// that task, whatever numbers the scope has given out.
pub proof fn lemma_single_prefix_resolves(
    store: ModelView,
    scope: Seq<char>,
    prefix: Seq<char>,
    a: Uuid,
)
    requires
        store.tasks.contains_key(a),
        prefix.is_prefix_of(simple_form(a)),
        forall|b: Uuid|
            store.tasks.contains_key(b) && prefix.is_prefix_of(simple_form(b)) ==> b == a,
    ensures
        store.found(scope, TaskRefView::ShortUUID(prefix)) == Ok::<TaskView, FindTaskError>(
            store.tasks[a],
        ),
{
    let ids = store.candidates(scope, TaskRefView::ShortUUID(prefix));
    assert(ids.contains(a));
    let chosen = choose|id: Uuid| ids.contains(id);
    assert(chosen == a);
}

/// A text of six hexadecimal digits is a reference by the beginning of an
/// identifier, also where it could be read as a number: no whole
/// identifier is that short.
pub proof fn lemma_six_digits_are_a_prefix(text: Seq<char>)
    requires
        is_short_hex(text),
    ensures
        spec_from_str(text) == Some(TaskRefView::ShortUUID(text)),
{
}

/// The hyphenated form of an identifier is a reference to that identifier
/// as a whole.
pub proof fn lemma_hyphenated_form_is_a_reference(id: Uuid)
    ensures
        spec_from_str(hyphenated_form(id)) == Some(TaskRefView::FullUUID(id)),
{
    crate::ident::lemma_hyphenated_form_is_read_back(id);
}

/// A text that is no 36 characters long is never read as a whole
/// identifier: it is six hexadecimal digits, a number, or no reference.
pub proof fn lemma_only_the_hyphenated_form_is_whole(text: Seq<char>)
    requires
        text.len() != 36,
    ensures
        !(spec_from_str(text) matches Some(TaskRefView::FullUUID(_))),
{
}

/// In a listing, of two tasks that were created at the same time and carry
/// equally many tags the one of higher priority comes first.
pub proof fn lemma_listed_by_priority(
    store: ModelView,
    list: Seq<TaskView>,
    now: Time,
    i: int,
    j: int,
)
    requires
        store.is_listing_at(list, now),
        0 <= i < list.len(),
        0 <= j < list.len(),
        list[i].created == list[j].created,
        list[i].tags.len() == list[j].tags.len(),
        list[i].priority.spec_weight() > list[j].priority.spec_weight(),
    ensures
        i < j,
{
    lemma_priority_ranks(list[i], list[j], now);
}

/// Of two tasks that were created at the same time and carry equally many
/// tags, the one of higher priority is listed first, at any time.
pub proof fn lemma_priority_ranks(a: TaskView, b: TaskView, now: Time)
    requires
        a.created == b.created,
        a.tags.len() == b.tags.len(),
        a.priority.spec_weight() > b.priority.spec_weight(),
    ensures
        a.ranks_before_at(b, now),
        !b.ranks_before_at(a, now),
{
}

/// The weights of the priorities rise from low over the default to high.
pub proof fn lemma_priority_weights()
    ensures
        Priority::Low.spec_weight() < Priority::Default.spec_weight(),
        Priority::Default.spec_weight() < Priority::High.spec_weight(),
{
}

/// After the tasks of a listing have been numbered in a scope, the number
/// `k` refers in that scope to the `k`-th task of the listing, if that task
/// is live, and to nothing where the listing has no `k`-th task.
pub proof fn lemma_number_refers_to_listed(
    store: ModelView,
    scope: Seq<char>,
    ids: Seq<Uuid>,
    k: u64,
)
    ensures
        1 <= k <= ids.len() && store.tasks.contains_key(ids[k - 1]) ==> store.recalculated(
            scope,
            ids,
        ).found(scope, TaskRefView::Numerical(k)) == Ok::<TaskView, FindTaskError>(
            store.tasks[ids[k - 1]],
        ),
        !(1 <= k <= ids.len()) ==> store.recalculated(scope, ids).found(
            scope,
            TaskRefView::Numerical(k),
        ) == Err::<TaskView, FindTaskError>(FindTaskError::TaskNotFound),
{
    let after = store.recalculated(scope, ids);
    let found = after.candidates(scope, TaskRefView::Numerical(k));
    assert(numbers_of(after.numbers, scope) == numbered(ids));
    if 1 <= k <= ids.len() {
        assert(numbered(ids).contains_key(k));
        assert(found.contains(ids[k - 1]));
        let chosen = choose|id: Uuid| found.contains(id);
        assert(chosen == ids[k - 1]);
    } else {
        assert(!numbered(ids).contains_key(k));
    }
}

/// Numbering the tasks of one scope leaves every other scope as it was: a
/// number refers there to what it referred to before, and in a scope that
/// was never numbered it refers to nothing.
pub proof fn lemma_numbers_are_scoped(
    store: ModelView,
    scope: Seq<char>,
    ids: Seq<Uuid>,
    other: Seq<char>,
    k: u64,
)
    requires
        other != scope,
    ensures
        store.recalculated(scope, ids).found(other, TaskRefView::Numerical(k)) == store.found(
            other,
            TaskRefView::Numerical(k),
        ),
        !store.numbers.contains_key(other) ==> store.recalculated(scope, ids).found(
            other,
            TaskRefView::Numerical(k),
        ) == Err::<TaskView, FindTaskError>(FindTaskError::TaskNotFound),
{
    let after = store.recalculated(scope, ids);
    assert(numbers_of(after.numbers, other) == numbers_of(store.numbers, other));
    assert(after.candidates(other, TaskRefView::Numerical(k)) == store.candidates(
        other,
        TaskRefView::Numerical(k),
    ));
}

/// A store that was just loaded counts as unchanged; once an effect has
/// been applied it counts as changed, and nothing that is done to it
/// afterwards makes it count as unchanged again.
pub proof fn lemma_changed_stays_changed(
    log: Seq<EffectView>,
    store: ModelView,
    effect: EffectView,
    scope: Seq<char>,
    ids: Seq<Uuid>,
    n: u64,
    id: Uuid,
)
    ensures
        !ModelView::loaded(log).dirty,
        !ModelView::empty().dirty,
        store.applied(effect).dirty,
        store.dirty ==> store.recalculated(scope, ids).dirty && store.assigned(scope, n, id).dirty,
{
}

/// Ranking is an order: no task ranks before itself, of two tasks at most
/// one ranks before the other, and a task that ranks before a second which
/// ranks before a third ranks before the third. Two tasks of which neither
/// ranks before the other are equally urgent and were created at the same
/// time.
pub proof fn lemma_ranking_is_an_order(a: TaskView, b: TaskView, c: TaskView, now: Time)
    ensures
        !a.ranks_before_at(a, now),
        a.ranks_before_at(b, now) ==> !b.ranks_before_at(a, now),
        a.ranks_before_at(b, now) && b.ranks_before_at(c, now) ==> a.ranks_before_at(c, now),
        !a.ranks_before_at(b, now) && !b.ranks_before_at(a, now) ==> a.urgency_at(now)
            == b.urgency_at(now) && a.created == b.created,
{
}

/// A listing leaves no live task out.
pub proof fn lemma_listing_is_complete(store: ModelView, list: Seq<TaskView>, now: Time, id: Uuid)
    requires
        store.tasks.dom().finite(),
        store.is_listing_at(list, now),
        store.tasks.contains_key(id),
    ensures
        exists|i: int| 0 <= i < list.len() && (#[trigger] list[i]).uuid == id,
{
    let ids = list.map_values(|t: TaskView| t.uuid);
    assert(ids.no_duplicates()) by {
        assert forall|i: int, j: int| 0 <= i < ids.len() && 0 <= j < ids.len() && i != j implies ids[i]
            != ids[j] by {
            assert(ids[i] == list[i].uuid);
            assert(ids[j] == list[j].uuid);
            if i < j {
                assert(list[i].uuid != list[j].uuid);
            } else {
                assert(list[j].uuid != list[i].uuid);
            }
        }
    }
    ids.unique_seq_to_set();
    assert(ids.to_set().subset_of(store.tasks.dom())) by {
        assert forall|x: Uuid| ids.to_set().contains(x) implies store.tasks.dom().contains(x) by {
            let i = choose|i: int| 0 <= i < ids.len() && ids[i] == x;
            assert(ids[i] == list[i].uuid);
        }
    }
    vstd::set_lib::lemma_subset_equality(ids.to_set(), store.tasks.dom());
    assert(ids.to_set().contains(id));
    let i = choose|i: int| 0 <= i < ids.len() && ids[i] == id;
    assert(list[i].uuid == id);
}

/// Of the references of a batch each one either resolves, and then the
/// batch has the effects for its task, or is named among the failures: a
/// reference that fails takes nothing from the others.
pub proof fn lemma_each_reference_resolves_or_is_named(
    store: ModelView,
    scope: Seq<char>,
    refs: Seq<TaskRefView>,
)
    ensures
        resolved(store, scope, refs).len() + unresolved(store, scope, refs).len() == refs.len(),
        forall|i: int|
            0 <= i < refs.len() ==> match store.found(scope, #[trigger] refs[i]) {
                Ok(task) => resolved(store, scope, refs).contains(task.uuid),
                Err(error) => unresolved(store, scope, refs).contains(
                    (refs[i], HandleCommandError::FindTaskError(error)),
                ),
            },
    decreases refs.len(),
{
    if refs.len() > 0 {
        let front = refs.drop_last();
        lemma_each_reference_resolves_or_is_named(store, scope, front);
        let ids = resolved(store, scope, refs);
        let named = unresolved(store, scope, refs);
        assert forall|i: int| 0 <= i < refs.len() implies match store.found(
            scope,
            #[trigger] refs[i],
        ) {
            Ok(task) => ids.contains(task.uuid),
            Err(error) => named.contains((refs[i], HandleCommandError::FindTaskError(error))),
        } by {
            if i < front.len() {
                assert(front[i] == refs[i]);
                match store.found(scope, refs[i]) {
                    Ok(task) => {
                        let before = resolved(store, scope, front);
                        let j = choose|j: int| 0 <= j < before.len() && before[j] == task.uuid;
                        assert(ids[j] == task.uuid);
                    },
                    Err(error) => {
                        let before = unresolved(store, scope, front);
                        let entry = (refs[i], HandleCommandError::FindTaskError(error));
                        let j = choose|j: int| 0 <= j < before.len() && before[j] == entry;
                        assert(named[j] == entry);
                    },
                }
            } else {
                match store.found(scope, refs[i]) {
                    Ok(task) => {
                        assert(ids[ids.len() - 1] == task.uuid);
                    },
                    Err(error) => {
                        assert(named[named.len() - 1] == (
                            refs[i],
                            HandleCommandError::FindTaskError(error),
                        ));
                    },
                }
            }
        }
    }
}

} // verus!
