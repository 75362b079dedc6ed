//! Auxiliary data that a task may carry besides its own fields.

use vstd::prelude::*;
use vstd::std_specs::cmp::PartialEqSpecImpl;

verus! {

/// The kinds of auxiliary data that a task can carry.
#[derive(Clone, Copy, Debug, PartialEq, Eq, PartialOrd, Ord, Hash, Structural)]
pub enum ExtraData {
    Notes,
}

/// What a list of entries maps each kind to: the text of the entry of that
/// kind which comes last in the list.
pub open spec fn as_map(entries: Seq<(ExtraData, String)>) -> Map<ExtraData, Seq<char>>
    decreases entries.len(),
{
    if entries.len() == 0 {
        Map::empty()
    } else {
        as_map(entries.drop_last()).insert(entries.last().0, entries.last().1@)
    }
}

/// An entry of a given kind is in the map of a list exactly when the list
/// holds an entry of that kind.
pub proof fn lemma_as_map_dom(entries: Seq<(ExtraData, String)>, kind: ExtraData)
    ensures
        as_map(entries).contains_key(kind) <==> exists|i: int|
            0 <= i < entries.len() && (#[trigger] entries[i]).0 == kind,
    decreases entries.len(),
{
    if entries.len() > 0 {
        let front = entries.drop_last();
        lemma_as_map_dom(front, kind);
        if as_map(entries).contains_key(kind) {
            if entries.last().0 == kind {
                assert(entries[entries.len() - 1].0 == kind);
            } else {
                let i = choose|i: int| 0 <= i < front.len() && (#[trigger] front[i]).0 == kind;
                assert(entries[i].0 == kind);
            }
        }
        if exists|i: int| 0 <= i < entries.len() && (#[trigger] entries[i]).0 == kind {
            let i = choose|i: int| 0 <= i < entries.len() && (#[trigger] entries[i]).0 == kind;
            if i < front.len() {
                assert(front[i].0 == kind);
            }
        }
    }
}

/// Where no two entries of a list are of the same kind, the map holds the
/// text of each entry under its kind.
pub proof fn lemma_as_map_value(entries: Seq<(ExtraData, String)>, at: int)
    requires
        0 <= at < entries.len(),
        forall|i: int, j: int|
            0 <= i < j < entries.len() ==> (#[trigger] entries[i]).0 != (#[trigger] entries[j]).0,
    ensures
        as_map(entries).contains_key(entries[at].0),
        as_map(entries)[entries[at].0] == entries[at].1@,
    decreases entries.len(),
{
    let front = entries.drop_last();
    if at < front.len() {
        assert(front[at] == entries[at]);
        assert forall|i: int, j: int| 0 <= i < j < front.len() implies (#[trigger] front[i]).0 != (
        #[trigger] front[j]).0 by {
            assert(front[i] == entries[i]);
            assert(front[j] == entries[j]);
        }
        lemma_as_map_value(front, at);
        assert(entries[at].0 != entries[entries.len() - 1].0);
    }
}

/// A map from kinds of auxiliary data to the text kept for each.
///
/// The entries are kept in a vector that holds at most one entry of a kind.
#[derive(Debug)]
pub struct ExtraMap {
    entries: Vec<(ExtraData, String)>,
}

impl View for ExtraMap {
    type V = Map<ExtraData, Seq<char>>;

    closed spec fn view(&self) -> Map<ExtraData, Seq<char>> {
        as_map(self.entries@)
    }
}

impl ExtraMap {
    #[verifier::type_invariant]
    spec fn one_of_a_kind(&self) -> bool {
        forall|i: int, j: int|
            0 <= i < j < self.entries@.len() ==> (#[trigger] self.entries@[i]).0 != (
            #[trigger] self.entries@[j]).0
    }

    /// The map without any entry.
    pub fn new() -> (extras: Self)
        ensures
            extras@ == Map::<ExtraData, Seq<char>>::empty(),
    {
        ExtraMap { entries: Vec::new() }
    }

    fn position(&self, kind: ExtraData) -> (at: Option<usize>)
        ensures
            match at {
                Some(i) => i < self.entries@.len() && self.entries@[i as int].0 == kind
                    && self@.contains_key(kind) && self@[kind] == self.entries@[i as int].1@,
                None => !self@.contains_key(kind) && forall|j: int|
                    0 <= j < self.entries@.len() ==> (#[trigger] self.entries@[j]).0 != kind,
            },
    {
        proof {
            use_type_invariant(self);
            lemma_as_map_dom(self.entries@, kind);
        }
        let mut i: usize = 0;
        while i < self.entries.len()
            invariant
                i <= self.entries@.len(),
                forall|j: int| 0 <= j < i ==> (#[trigger] self.entries@[j]).0 != kind,
            decreases self.entries@.len() - i,
        {
            if self.entries[i].0 == kind {
                proof {
                    use_type_invariant(self);
                    lemma_as_map_value(self.entries@, i as int);
                }
                return Some(i);
            }
            i += 1;
        }
        None
    }

    /// The text kept for `kind`, if there is one.
    pub fn get(&self, kind: ExtraData) -> (text: Option<&String>)
        ensures
            match text {
                Some(t) => self@.contains_key(kind) && self@[kind] == t@,
                None => !self@.contains_key(kind),
            },
    {
        match self.position(kind) {
            Some(i) => Some(&self.entries[i].1),
            None => None,
        }
    }

    /// Keeps `text` for `kind`, in place of what was kept for it before.
    pub fn insert(&mut self, kind: ExtraData, text: String)
        ensures
            final(self)@ == old(self)@.insert(kind, text@),
    {
        proof {
            use_type_invariant(&*self);
        }
        let found = self.position(kind);
        let ghost before = self.entries@;
        let mut entries: Vec<(ExtraData, String)> = Vec::new();
        std::mem::swap(&mut entries, &mut self.entries);
        match found {
            Some(i) => {
                entries.remove(i);
                proof {
                    let kept = before.remove(i as int);
                    assert(entries@ =~= kept);
                    assert forall|a: int| 0 <= a < kept.len() implies #[trigger] kept[a]
                        == before[if a < i {
                        a
                    } else {
                        a + 1
                    }] by {}
                    lemma_as_map_without(before, i as int);
                }
            },
            None => {
                assert(as_map(before).remove(kind) =~= as_map(before));
            },
        }
        let ghost kept = entries@;
        entries.push((kind, text));
        proof {
            assert(entries@.drop_last() =~= kept);
            assert(as_map(kept).insert(kind, text@) =~= as_map(before).insert(kind, text@));
        }
        self.entries = entries;
    }

    /// How many kinds have a text.
    pub fn len(&self) -> (n: usize)
        ensures
            self@.dom().finite(),
            n == self@.dom().len(),
    {
        proof {
            use_type_invariant(self);
            lemma_as_map_len(self.entries@);
        }
        self.entries.len()
    }
}

/// Taking the one entry of a kind out of a list removes that kind from its
/// map and leaves the rest as it was.
pub proof fn lemma_as_map_without(entries: Seq<(ExtraData, String)>, at: int)
    requires
        0 <= at < entries.len(),
        forall|i: int, j: int|
            0 <= i < j < entries.len() ==> (#[trigger] entries[i]).0 != (#[trigger] entries[j]).0,
    ensures
        as_map(entries.remove(at)) == as_map(entries).remove(entries[at].0),
        forall|i: int, j: int|
            0 <= i < j < entries.remove(at).len() ==> (#[trigger] entries.remove(at)[i]).0 != (
            #[trigger] entries.remove(at)[j]).0,
    decreases entries.len(),
{
    let kept = entries.remove(at);
    assert forall|a: int| 0 <= a < kept.len() implies #[trigger] kept[a] == entries[if a < at {
        a
    } else {
        a + 1
    }] by {}
    assert forall|i: int, j: int| 0 <= i < j < kept.len() implies (#[trigger] kept[i]).0 != (
    #[trigger] kept[j]).0 by {
        let i0 = if i < at { i } else { i + 1 };
        let j0 = if j < at { j } else { j + 1 };
        assert(kept[i] == entries[i0]);
        assert(kept[j] == entries[j0]);
    }
    let front = entries.drop_last();
    if at == entries.len() - 1 {
        assert(kept =~= front);
        lemma_as_map_dom(front, entries[at].0);
        if as_map(front).contains_key(entries[at].0) {
            let i = choose|i: int| 0 <= i < front.len() && (#[trigger] front[i]).0 == entries[at].0;
            assert(front[i] == entries[i]);
        }
        assert(as_map(entries).remove(entries[at].0) =~= as_map(front));
    } else {
        assert forall|i: int, j: int| 0 <= i < j < front.len() implies (#[trigger] front[i]).0 != (
        #[trigger] front[j]).0 by {
            assert(front[i] == entries[i]);
            assert(front[j] == entries[j]);
        }
        assert(front[at] == entries[at]);
        lemma_as_map_without(front, at);
        assert(kept.drop_last() =~= front.remove(at));
        assert(kept.last() == entries.last());
        assert(entries[at].0 != entries[entries.len() - 1].0);
        assert(as_map(kept) =~= as_map(entries).remove(entries[at].0));
    }
}

/// A list that holds at most one entry of a kind has as many entries as its
/// map has kinds.
pub proof fn lemma_as_map_len(entries: Seq<(ExtraData, String)>)
    requires
        forall|i: int, j: int|
            0 <= i < j < entries.len() ==> (#[trigger] entries[i]).0 != (#[trigger] entries[j]).0,
    ensures
        as_map(entries).dom().finite(),
        as_map(entries).dom().len() == entries.len(),
    decreases entries.len(),
{
    if entries.len() > 0 {
        let front = entries.drop_last();
        assert forall|i: int, j: int| 0 <= i < j < front.len() implies (#[trigger] front[i]).0 != (
        #[trigger] front[j]).0 by {
            assert(front[i] == entries[i]);
            assert(front[j] == entries[j]);
        }
        lemma_as_map_len(front);
        lemma_as_map_dom(front, entries.last().0);
        if as_map(front).contains_key(entries.last().0) {
            let i = choose|i: int| 0 <= i < front.len() && (#[trigger] front[i]).0
                == entries.last().0;
            assert(front[i] == entries[i]);
            assert(entries[entries.len() - 1] == entries.last());
        }
    }
}

impl Clone for ExtraMap {
    fn clone(&self) -> (copy: Self)
        ensures
            copy@ == self@,
    {
        proof {
            use_type_invariant(self);
        }
        let mut entries: Vec<(ExtraData, String)> = Vec::new();
        let mut i: usize = 0;
        while i < self.entries.len()
            invariant
                i <= self.entries@.len(),
                entries@.len() == i,
                forall|j: int|
                    0 <= j < i ==> (#[trigger] entries@[j]).0 == self.entries@[j].0 && entries@[j].1@
                        == self.entries@[j].1@,
            decreases self.entries@.len() - i,
        {
            entries.push((self.entries[i].0, self.entries[i].1.clone()));
            i += 1;
        }
        proof {
            lemma_as_map_same(entries@, self.entries@);
        }
        ExtraMap { entries }
    }
}

/// Two lists with the same kinds and texts, place by place, have the same
/// map.
pub proof fn lemma_as_map_same(a: Seq<(ExtraData, String)>, b: Seq<(ExtraData, String)>)
    requires
        a.len() == b.len(),
        forall|j: int| 0 <= j < a.len() ==> (#[trigger] a[j]).0 == b[j].0 && a[j].1@ == b[j].1@,
    ensures
        as_map(a) == as_map(b),
    decreases a.len(),
{
    if a.len() > 0 {
        assert(a[a.len() - 1].0 == b[a.len() - 1].0);
        lemma_as_map_same(a.drop_last(), b.drop_last());
    }
}

impl PartialEq for ExtraMap {
    fn eq(&self, other: &Self) -> (same: bool) {
        proof {
            use_type_invariant(self);
            use_type_invariant(other);
        }
        let n = self.len();
        let m = other.len();
        if n != m {
            return false;
        }
        let mut i: usize = 0;
        while i < self.entries.len()
            invariant
                i <= self.entries@.len(),
                self@.dom().finite(),
                other@.dom().finite(),
                self@.dom().len() == other@.dom().len(),
                forall|j: int|
                    0 <= j < i ==> other@.contains_key((#[trigger] self.entries@[j]).0)
                        && other@[self.entries@[j].0] == self.entries@[j].1@,
            decreases self.entries@.len() - i,
        {
            match other.get(self.entries[i].0) {
                Some(text) => {
                    if !text.as_str().eq(self.entries[i].1.as_str()) {
                        proof {
                            use_type_invariant(self);
                            lemma_as_map_value(self.entries@, i as int);
                        }
                        return false;
                    }
                },
                None => {
                    proof {
                        use_type_invariant(self);
                        lemma_as_map_value(self.entries@, i as int);
                    }
                    return false;
                },
            }
            i += 1;
        }
        proof {
            use_type_invariant(self);
            assert forall|k: ExtraData| self@.contains_key(k) implies other@.contains_key(k)
                && other@[k] == self@[k] by {
                lemma_as_map_dom(self.entries@, k);
                let j = choose|j: int|
                    0 <= j < self.entries@.len() && (#[trigger] self.entries@[j]).0 == k;
                lemma_as_map_value(self.entries@, j);
            }
            assert(self@.dom().subset_of(other@.dom()));
            vstd::set_lib::lemma_subset_equality(self@.dom(), other@.dom());
            assert(self@ =~= other@);
        }
        true
    }
}

impl PartialEqSpecImpl for ExtraMap {
    open spec fn obeys_eq_spec() -> bool {
        true
    }

    open spec fn eq_spec(&self, other: &Self) -> bool {
        self@ == other@
    }
}

impl Eq for ExtraMap {

}

} // verus!
