//! The numbers by which the tasks of a listing can be referred to.

use vstd::prelude::*;
use std::collections::BTreeMap;
use vstd::std_specs::iter::IteratorSpec;
use crate::ident::Uuid;

verus! {

pub type ScopeName = String;

/// The numbers of one scope: which task each number stands for.
pub type Numbers = BTreeMap<u64, Uuid>;

/// Whether `n` is the smallest number that stands for the task `id`.
pub open spec fn is_number_of(numbers: Map<u64, Uuid>, id: Uuid, n: u64) -> bool {
    &&& numbers.contains_key(n)
    &&& numbers[n] == id
    &&& forall|m: u64| numbers.contains_key(m) && numbers[m] == id ==> n <= m
}

/// Whether no number stands for the task `id`.
pub open spec fn has_no_number(numbers: Map<u64, Uuid>, id: Uuid) -> bool {
    forall|m: u64| numbers.contains_key(m) ==> numbers[m] != id
}

/// Whether `n` is the number that follows the largest one in use, or one
/// where none is in use.
pub open spec fn is_next_number(numbers: Map<u64, Uuid>, n: int) -> bool {
    &&& forall|m: u64| numbers.contains_key(m) ==> m < n
    &&& n == 1 || (n >= 1 && numbers.contains_key((n - 1) as u64))
}

/// The numbers that a listing gives to its tasks: the first task is number
/// one, the next number two, and so on.
pub open spec fn numbered(ids: Seq<Uuid>) -> Map<u64, Uuid> {
    Map::new(|n: u64| 1 <= n <= ids.len(), |n: u64| ids[n - 1])
}

/// The numbers of a scope, or none where the scope is unknown.
pub open spec fn numbers_of(all: Map<Seq<char>, Map<u64, Uuid>>, scope: Seq<char>) -> Map<
    u64,
    Uuid,
> {
    if all.contains_key(scope) {
        all[scope]
    } else {
        Map::empty()
    }
}

/// The smallest number that stands for the task `id`, if one does.
pub fn smallest_number_of(numbers: &Numbers, id: Uuid) -> (found: Option<u64>)
    ensures
        match found {
            Some(n) => is_number_of(numbers@, id, n),
            None => has_no_number(numbers@, id),
        },
{
    let mut best: Option<u64> = None;
    for pair in it: numbers.iter()
        invariant
            match best {
                Some(n) => numbers@.contains_key(n) && numbers@[n] == id && forall|i: int|
                    0 <= i < it.index() && *it.seq()[i].1 == id ==> n <= *it.seq()[i].0,
                None => forall|i: int| 0 <= i < it.index() ==> *it.seq()[i].1 != id,
            },
    {
        let (n, task) = pair;
        if *task == id {
            match best {
                Some(b) => {
                    if *n < b {
                        best = Some(*n);
                    }
                },
                None => {
                    best = Some(*n);
                },
            }
        }
    }
    proof {
        let all = numbers.iter().remaining();
        assert forall|m: u64| numbers@.contains_key(m) && numbers@[m] == id implies (match best {
            Some(n) => n <= m,
            None => false,
        }) by {
            assert(all.contains((&m, &numbers@[m])));
            let i = choose|i: int| 0 <= i < all.len() && all[i] == (&m, &numbers@[m]);
            assert(*all[i].0 == m);
        }
    }
    best
}

/// The largest number in use, if any is.
pub fn largest_number(numbers: &Numbers) -> (found: Option<u64>)
    ensures
        match found {
            Some(n) => numbers@.contains_key(n) && forall|m: u64|
                numbers@.contains_key(m) ==> m <= n,
            None => numbers@ == Map::<u64, Uuid>::empty(),
        },
{
    let mut best: Option<u64> = None;
    for pair in it: numbers.iter()
        invariant
            match best {
                Some(n) => numbers@.contains_key(n) && forall|i: int|
                    0 <= i < it.index() ==> *it.seq()[i].0 <= n,
                None => it.index() == 0,
            },
    {
        let (n, _) = pair;
        match best {
            Some(b) => {
                if *n > b {
                    best = Some(*n);
                }
            },
            None => {
                best = Some(*n);
            },
        }
    }
    proof {
        let all = numbers.iter().remaining();
        assert forall|m: u64| numbers@.contains_key(m) implies (match best {
            Some(n) => m <= n,
            None => false,
        }) by {
            assert(all.contains((&m, &numbers@[m])));
            let i = choose|i: int| 0 <= i < all.len() && all[i] == (&m, &numbers@[m]);
            assert(*all[i].0 == m);
        }
        if best is None {
            assert(numbers@ =~= Map::<u64, Uuid>::empty());
        }
    }
    best
}

/// The numbers that a listing of the tasks `ids` gives them.
pub fn number_in_order(ids: &[Uuid]) -> (numbers: Numbers)
    ensures
        numbers@ == numbered(ids@),
{
    let mut numbers: Numbers = Numbers::new();
    let mut i: usize = 0;
    while i < ids.len()
        invariant
            i <= ids@.len(),
            numbers@ == numbered(ids@.take(i as int)),
        decreases ids@.len() - i,
    {
        let n: u64 = i as u64 + 1;
        numbers.insert(n, ids[i]);
        proof {
            assert(numbers@ =~= numbered(ids@.take(i + 1)));
        }
        i += 1;
    }
    proof {
        assert(ids@.take(i as int) =~= ids@);
    }
    numbers
}

/// What a list of scopes with their numbers maps each scope's name to: the
/// numbers of the scope of that name which comes last in the list.
pub open spec fn by_scope(entries: Seq<(ScopeName, Numbers)>) -> Map<Seq<char>, Map<u64, Uuid>>
    decreases entries.len(),
{
    if entries.len() == 0 {
        Map::empty()
    } else {
        by_scope(entries.drop_last()).insert(entries.last().0@, entries.last().1@)
    }
}

/// Whether no two scopes of a list have the same name.
pub open spec fn distinct_scopes(entries: Seq<(ScopeName, Numbers)>) -> bool {
    forall|i: int, j: int|
        0 <= i < j < entries.len() ==> (#[trigger] entries[i]).0@ != (#[trigger] entries[j]).0@
}

/// A name is in the map of a list exactly when the list holds a scope of
/// that name.
pub proof fn lemma_by_scope_dom(entries: Seq<(ScopeName, Numbers)>, name: Seq<char>)
    ensures
        by_scope(entries).contains_key(name) <==> exists|i: int|
            0 <= i < entries.len() && (#[trigger] entries[i]).0@ == name,
    decreases entries.len(),
{
    if entries.len() > 0 {
        let front = entries.drop_last();
        lemma_by_scope_dom(front, name);
        if by_scope(entries).contains_key(name) {
            if entries.last().0@ == name {
                assert(entries[entries.len() - 1].0@ == name);
            } else {
                let i = choose|i: int| 0 <= i < front.len() && (#[trigger] front[i]).0@ == name;
                assert(entries[i].0@ == name);
            }
        }
        if exists|i: int| 0 <= i < entries.len() && (#[trigger] entries[i]).0@ == name {
            let i = choose|i: int| 0 <= i < entries.len() && (#[trigger] entries[i]).0@ == name;
            if i < front.len() {
                assert(front[i].0@ == name);
            }
        }
    }
}

/// Where no two scopes of a list have the same name, the map holds the
/// numbers of each scope under its name.
pub proof fn lemma_by_scope_value(entries: Seq<(ScopeName, Numbers)>, at: int)
    requires
        0 <= at < entries.len(),
        distinct_scopes(entries),
    ensures
        by_scope(entries).contains_key(entries[at].0@),
        by_scope(entries)[entries[at].0@] == entries[at].1@,
    decreases entries.len(),
{
    let front = entries.drop_last();
    if at < front.len() {
        assert(front[at] == entries[at]);
        assert(distinct_scopes(front)) by {
            assert forall|i: int, j: int| 0 <= i < j < front.len() implies (#[trigger] front[i]).0@
                != (#[trigger] front[j]).0@ by {
                assert(front[i] == entries[i]);
                assert(front[j] == entries[j]);
            }
        }
        lemma_by_scope_value(front, at);
        assert(entries[at].0@ != entries[entries.len() - 1].0@);
    }
}

/// Taking the one scope of a name out of a list removes that name from its
/// map and leaves the rest as it was.
pub proof fn lemma_by_scope_without(entries: Seq<(ScopeName, Numbers)>, at: int)
    requires
        0 <= at < entries.len(),
        distinct_scopes(entries),
    ensures
        by_scope(entries.remove(at)) == by_scope(entries).remove(entries[at].0@),
        distinct_scopes(entries.remove(at)),
    decreases entries.len(),
{
    let kept = entries.remove(at);
    assert forall|a: int| 0 <= a < kept.len() implies #[trigger] kept[a] == entries[if a < at {
        a
    } else {
        a + 1
    }] by {}
    assert(distinct_scopes(kept)) by {
        assert forall|i: int, j: int| 0 <= i < j < kept.len() implies (#[trigger] kept[i]).0@ != (
        #[trigger] kept[j]).0@ by {
            let i0 = if i < at { i } else { i + 1 };
            let j0 = if j < at { j } else { j + 1 };
            assert(kept[i] == entries[i0]);
            assert(kept[j] == entries[j0]);
        }
    }
    let front = entries.drop_last();
    if at == entries.len() - 1 {
        assert(kept =~= front);
        lemma_by_scope_dom(front, entries[at].0@);
        if by_scope(front).contains_key(entries[at].0@) {
            let i = choose|i: int| 0 <= i < front.len() && (#[trigger] front[i]).0@
                == entries[at].0@;
            assert(front[i] == entries[i]);
        }
        assert(by_scope(entries).remove(entries[at].0@) =~= by_scope(front));
    } else {
        assert(distinct_scopes(front)) by {
            assert forall|i: int, j: int| 0 <= i < j < front.len() implies (#[trigger] front[i]).0@
                != (#[trigger] front[j]).0@ by {
                assert(front[i] == entries[i]);
                assert(front[j] == entries[j]);
            }
        }
        assert(front[at] == entries[at]);
        lemma_by_scope_without(front, at);
        assert(kept.drop_last() =~= front.remove(at));
        assert(kept.last() == entries.last());
        assert(entries[at].0@ != entries[entries.len() - 1].0@);
        assert(by_scope(kept) =~= by_scope(entries).remove(entries[at].0@));
    }
}

/// For each scope of a listing, the numbers that were given to its tasks.
///
/// The scopes are kept in a vector that holds each name at most once.
#[derive(Debug)]
pub struct NumericalIds {
    scopes: Vec<(ScopeName, Numbers)>,
}

impl View for NumericalIds {
    type V = Map<Seq<char>, Map<u64, Uuid>>;

    closed spec fn view(&self) -> Map<Seq<char>, Map<u64, Uuid>> {
        by_scope(self.scopes@)
    }
}

impl NumericalIds {
    #[verifier::type_invariant]
    spec fn distinct(&self) -> bool {
        distinct_scopes(self.scopes@)
    }

    /// No scope has numbers yet.
    pub fn new() -> (ids: Self)
        ensures
            ids@ == Map::<Seq<char>, Map<u64, Uuid>>::empty(),
    {
        NumericalIds { scopes: Vec::new() }
    }

    fn position(&self, scope: &str) -> (at: Option<usize>)
        ensures
            match at {
                Some(i) => i < self.scopes@.len() && self.scopes@[i as int].0@ == scope@
                    && self@.contains_key(scope@) && self@[scope@] == self.scopes@[i as int].1@,
                None => !self@.contains_key(scope@),
            },
    {
        proof {
            use_type_invariant(self);
            lemma_by_scope_dom(self.scopes@, scope@);
        }
        let mut i: usize = 0;
        while i < self.scopes.len()
            invariant
                i <= self.scopes@.len(),
                forall|j: int| 0 <= j < i ==> (#[trigger] self.scopes@[j]).0@ != scope@,
            decreases self.scopes@.len() - i,
        {
            if self.scopes[i].0.as_str().eq(scope) {
                proof {
                    use_type_invariant(self);
                    lemma_by_scope_value(self.scopes@, i as int);
                }
                return Some(i);
            }
            i += 1;
        }
        None
    }

    /// The numbers of `scope`, if it has any.
    pub fn get(&self, scope: &str) -> (numbers: Option<&Numbers>)
        ensures
            match numbers {
                Some(n) => self@.contains_key(scope@) && self@[scope@] == n@,
                None => !self@.contains_key(scope@),
            },
    {
        match self.position(scope) {
            Some(i) => Some(&self.scopes[i].1),
            None => None,
        }
    }

    /// Gives `scope` the numbers `numbers`, in place of those it had.
    pub fn insert(&mut self, scope: &str, numbers: Numbers)
        ensures
            final(self)@ == old(self)@.insert(scope@, numbers@),
    {
        proof {
            use_type_invariant(&*self);
        }
        let found = self.position(scope);
        let ghost before = self.scopes@;
        let mut scopes: Vec<(ScopeName, Numbers)> = Vec::new();
        std::mem::swap(&mut scopes, &mut self.scopes);
        match found {
            Some(i) => {
                scopes.remove(i);
                proof {
                    assert(scopes@ =~= before.remove(i as int));
                    lemma_by_scope_without(before, i as int);
                }
            },
            None => {
                assert(by_scope(before).remove(scope@) =~= by_scope(before));
            },
        }
        let ghost kept = scopes@;
        proof {
            lemma_by_scope_dom(kept, scope@);
        }
        scopes.push((scope.to_owned(), numbers));
        proof {
            assert(scopes@.drop_last() =~= kept);
            assert(by_scope(kept).insert(scope@, numbers@) =~= by_scope(before).insert(
                scope@,
                numbers@,
            ));
            assert(distinct_scopes(scopes@)) by {
                assert forall|i: int, j: int| 0 <= i < j < scopes@.len() implies (
                #[trigger] scopes@[i]).0@ != (#[trigger] scopes@[j]).0@ by {
                    assert(scopes@[i] == kept[i]);
                    if j < kept.len() {
                        assert(scopes@[j] == kept[j]);
                    }
                }
            }
        }
        self.scopes = scopes;
    }

    /// Lets the number `n` of `scope` stand for the task `id`; a scope that
    /// was unknown becomes known by it.
    pub fn assign(&mut self, scope: &str, n: u64, id: Uuid)
        ensures
            final(self)@ == old(self)@.insert(
                scope@,
                numbers_of(old(self)@, scope@).insert(n, id),
            ),
    {
        proof {
            use_type_invariant(&*self);
        }
        let found = self.position(scope);
        let ghost before = self.scopes@;
        let mut scopes: Vec<(ScopeName, Numbers)> = Vec::new();
        std::mem::swap(&mut scopes, &mut self.scopes);
        let mut numbers = match found {
            Some(i) => {
                let entry = scopes.remove(i);
                proof {
                    assert(scopes@ =~= before.remove(i as int));
                    lemma_by_scope_without(before, i as int);
                }
                entry.1
            },
            None => {
                assert(by_scope(before).remove(scope@) =~= by_scope(before));
                Numbers::new()
            },
        };
        assert(numbers@ == numbers_of(by_scope(before), scope@));
        numbers.insert(n, id);
        let ghost kept = scopes@;
        proof {
            lemma_by_scope_dom(kept, scope@);
        }
        scopes.push((scope.to_owned(), numbers));
        proof {
            assert(scopes@.drop_last() =~= kept);
            assert(by_scope(kept).insert(scope@, numbers@) =~= by_scope(before).insert(
                scope@,
                numbers@,
            ));
            assert(distinct_scopes(scopes@)) by {
                assert forall|i: int, j: int| 0 <= i < j < scopes@.len() implies (
                #[trigger] scopes@[i]).0@ != (#[trigger] scopes@[j]).0@ by {
                    assert(scopes@[i] == kept[i]);
                    if j < kept.len() {
                        assert(scopes@[j] == kept[j]);
                    }
                }
            }
        }
        self.scopes = scopes;
    }

    /// Every number that a scope has given out, as the scope's name, the
    /// number and the task that the number stands for.
    pub fn rows(&self) -> (rows: Vec<(ScopeName, u64, Uuid)>)
        ensures
            forall|i: int| 0 <= i < rows@.len() ==> is_row_of(self@, #[trigger] rows@[i]),
            forall|scope: Seq<char>, n: u64|
                self@.contains_key(scope) && #[trigger] self@[scope].contains_key(n) ==> has_row(
                    rows@,
                    scope,
                    n,
                ),
    {
        proof {
            use_type_invariant(self);
        }
        let mut rows: Vec<(ScopeName, u64, Uuid)> = Vec::new();
        let mut s: usize = 0;
        while s < self.scopes.len()
            invariant
                s <= self.scopes@.len(),
                distinct_scopes(self.scopes@),
                forall|i: int| 0 <= i < rows@.len() ==> is_row_of(self@, #[trigger] rows@[i]),
                forall|q: int, n: u64|
                    0 <= q < s && #[trigger] self.scopes@[q].1@.contains_key(n) ==> has_row(
                        rows@,
                        self.scopes@[q].0@,
                        n,
                    ),
            decreases self.scopes@.len() - s,
        {
            proof {
                lemma_by_scope_value(self.scopes@, s as int);
            }
            let name = &self.scopes[s].0;
            let numbers = &self.scopes[s].1;
            let ghost before = rows@;
            for pair in it: numbers.iter()
                invariant
                    self@.contains_key(name@),
                    self@[name@] == numbers@,
                    before.len() <= rows@.len(),
                    forall|i: int| 0 <= i < before.len() ==> rows@[i] == before[i],
                    forall|i: int| 0 <= i < rows@.len() ==> is_row_of(self@, #[trigger] rows@[i]),
                    forall|j: int|
                        0 <= j < it.index() ==> has_row(rows@, name@, *(#[trigger] it.seq()[j]).0),
            {
                let (n, id) = pair;
                let ghost was = rows@;
                rows.push((name.clone(), *n, *id));
                proof {
                    assert(numbers@.contains_key(*n) && numbers@[*n] == *id);
                    assert forall|i: int| 0 <= i < rows@.len() implies is_row_of(
                        self@,
                        #[trigger] rows@[i],
                    ) by {
                        if i < was.len() {
                            assert(rows@[i] == was[i]);
                        }
                    }
                    assert forall|j: int| 0 <= j < it.index() + 1 implies has_row(
                        rows@,
                        name@,
                        *(#[trigger] it.seq()[j]).0,
                    ) by {
                        if j < it.index() {
                            assert(has_row(was, name@, *it.seq()[j].0));
                            lemma_has_row_stays(was, rows@, name@, *it.seq()[j].0);
                        } else {
                            assert(rows@[was.len() as int].1 == *it.seq()[j].0);
                        }
                    }
                }
            }
            proof {
                let all = numbers.iter().remaining();
                assert forall|q: int, n: u64|
                    0 <= q < s + 1 && #[trigger] self.scopes@[q].1@.contains_key(n) implies has_row(
                    rows@,
                    self.scopes@[q].0@,
                    n,
                ) by {
                    if q < s {
                        assert(has_row(before, self.scopes@[q].0@, n));
                        lemma_has_row_stays(before, rows@, self.scopes@[q].0@, n);
                    } else {
                        assert(all.contains((&n, &numbers@[n])));
                        let j = choose|j: int| 0 <= j < all.len() && all[j] == (&n, &numbers@[n]);
                        assert(*all[j].0 == n);
                    }
                }
            }
            s += 1;
        }
        proof {
            assert forall|scope: Seq<char>, n: u64|
                self@.contains_key(scope) && #[trigger] self@[scope].contains_key(n) implies has_row(
                rows@,
                scope,
                n,
            ) by {
                lemma_by_scope_dom(self.scopes@, scope);
                let q = choose|q: int|
                    0 <= q < self.scopes@.len() && (#[trigger] self.scopes@[q]).0@ == scope;
                lemma_by_scope_value(self.scopes@, q);
                assert(self.scopes@[q].1@.contains_key(n));
            }
        }
        rows
    }
}

/// Whether one of the rows names the number `n` of the scope `scope`.
pub open spec fn has_row(rows: Seq<(ScopeName, u64, Uuid)>, scope: Seq<char>, n: u64) -> bool {
    exists|i: int| 0 <= i < rows.len() && (#[trigger] rows[i]).0@ == scope && rows[i].1 == n
}

/// A row that is among some rows is among them when more rows follow.
pub proof fn lemma_has_row_stays(
    fewer: Seq<(ScopeName, u64, Uuid)>,
    more: Seq<(ScopeName, u64, Uuid)>,
    scope: Seq<char>,
    n: u64,
)
    requires
        has_row(fewer, scope, n),
        fewer.len() <= more.len(),
        forall|i: int| 0 <= i < fewer.len() ==> more[i] == fewer[i],
    ensures
        has_row(more, scope, n),
{
    let i = choose|i: int| 0 <= i < fewer.len() && (#[trigger] fewer[i]).0@ == scope && fewer[i].1 == n;
    assert(more[i] == fewer[i]);
}

/// Whether a row names a number that a scope has given out and the task
/// that the number stands for.
pub open spec fn is_row_of(all: Map<Seq<char>, Map<u64, Uuid>>, row: (ScopeName, u64, Uuid)) -> bool {
    all.contains_key(row.0@) && all[row.0@].contains_key(row.1) && all[row.0@][row.1] == row.2
}

} // verus!
