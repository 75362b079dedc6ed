use vstd::prelude::*;
use vstd::std_specs::cmp::PartialEqSpecImpl;

verus! {

/// The tag names carried by a sequence of strings, in order.
pub open spec fn names(items: Seq<String>) -> Seq<Seq<char>> {
    items.map_values(|s: String| s@)
}

/// A set of free-form tag names.
///
/// The names are kept in a vector in which no name occurs twice; the order
/// in which they are kept carries no meaning.
#[derive(Debug)]
pub struct Tags {
    items: Vec<String>,
}

impl View for Tags {
    type V = Set<Seq<char>>;

    closed spec fn view(&self) -> Set<Seq<char>> {
        names(self.items@).to_set()
    }
}

impl Tags {
    #[verifier::type_invariant]
    spec fn distinct(&self) -> bool {
        names(self.items@).no_duplicates()
    }

    /// The empty set of tags.
    pub fn new() -> (tags: Self)
        ensures
            tags@ == Set::<Seq<char>>::empty(),
    {
        let tags = Tags { items: Vec::new() };
        assert(names(tags.items@) =~= Seq::<Seq<char>>::empty());
        assert(tags@ =~= Set::<Seq<char>>::empty());
        tags
    }

    /// The number of tags in the set.
    pub fn len(&self) -> (n: usize)
        ensures
            self@.finite(),
            n == self@.len(),
    {
        proof {
            use_type_invariant(self);
            names(self.items@).unique_seq_to_set();
        }
        self.items.len()
    }

    /// Whether `tag` is in the set.
    pub fn contains(&self, tag: &str) -> (found: bool)
        ensures
            found == self@.contains(tag@),
    {
        self.position(tag).is_some()
    }

    fn position(&self, tag: &str) -> (at: Option<usize>)
        ensures
            match at {
                Some(i) => i < self.items@.len() && self.items@[i as int]@ == tag@,
                None => !self@.contains(tag@),
            },
            at is Some ==> self@.contains(tag@),
    {
        let mut i: usize = 0;
        while i < self.items.len()
            invariant
                i <= self.items@.len(),
                forall|j: int| 0 <= j < i ==> names(self.items@)[j] != tag@,
            decreases self.items@.len() - i,
        {
            if self.items[i].as_str().eq(tag) {
                assert(names(self.items@)[i as int] == tag@);
                return Some(i);
            }
            i += 1;
        }
        None
    }

    /// Adds `tag` to the set; the answer is whether it was new.
    pub fn insert(&mut self, tag: String) -> (added: bool)
        ensures
            final(self)@ == old(self)@.insert(tag@),
            added == !old(self)@.contains(tag@),
    {
        proof {
            use_type_invariant(&*self);
        }
        match self.position(tag.as_str()) {
            Some(i) => {
                assert(self@.insert(tag@) =~= self@);
                false
            },
            None => {
                let ghost before = self.items@;
                let mut items: Vec<String> = Vec::new();
                std::mem::swap(&mut items, &mut self.items);
                items.push(tag);
                proof {
                    assert(names(items@) =~= names(before).push(tag@));
                }
                self.items = items;
                proof {
                    assert(names(self.items@) =~= names(before).push(tag@));
                    assert(!names(before).contains(tag@));
                    assert(names(self.items@).to_set() =~= names(before).to_set().insert(tag@)) by {
                        assert forall|x: Seq<char>|
                            names(self.items@).contains(x) <==> (names(before).contains(x) || x
                                == tag@) by {
                            if names(before).contains(x) {
                                let j = choose|j: int| 0 <= j < names(before).len() && names(before)[j] == x;
                                assert(names(self.items@)[j] == x);
                            }
                            if x == tag@ {
                                assert(names(self.items@)[before.len() as int] == x);
                            }
                        }
                    }
                }
                true
            },
        }
    }

    /// Takes `tag` out of the set; the answer is whether it was there.
    pub fn remove(&mut self, tag: &str) -> (removed: bool)
        ensures
            final(self)@ == old(self)@.remove(tag@),
            removed == old(self)@.contains(tag@),
    {
        proof {
            use_type_invariant(&*self);
        }
        match self.position(tag) {
            None => {
                assert(self@.remove(tag@) =~= self@);
                false
            },
            Some(i) => {
                let ghost before = self.items@;
                let mut items: Vec<String> = Vec::new();
                std::mem::swap(&mut items, &mut self.items);
                items.remove(i);
                proof {
                    let kept = names(before).remove(i as int);
                    assert(names(items@) =~= kept);
                    assert(names(before)[i as int] == tag@);
                    assert forall|a: int| 0 <= a < kept.len() implies kept[a] == names(before)[if a
                        < i {
                        a
                    } else {
                        a + 1
                    }] by {}
                    assert(names(items@).no_duplicates()) by {
                        assert forall|a: int, b: int|
                            0 <= a < names(items@).len() && 0 <= b < names(items@).len() && a
                                != b implies names(items@)[a] != names(items@)[b] by {
                            let a0 = if a < i { a } else { a + 1 };
                            let b0 = if b < i { b } else { b + 1 };
                            assert(kept[a] == names(before)[a0]);
                            assert(kept[b] == names(before)[b0]);
                        }
                    }
                    assert(names(items@).to_set() =~= names(before).to_set().remove(tag@)) by {
                        assert forall|x: Seq<char>|
                            names(items@).contains(x) <==> (names(before).contains(x) && x
                                != tag@) by {
                            if names(items@).contains(x) {
                                let a = choose|a: int|
                                    0 <= a < names(items@).len() && names(items@)[a] == x;
                                let a0 = if a < i { a } else { a + 1 };
                                assert(kept[a] == names(before)[a0]);
                                assert(names(before)[a0] == x);
                                assert(a0 != i);
                            }
                            if names(before).contains(x) && x != tag@ {
                                let a0 = choose|a0: int|
                                    0 <= a0 < names(before).len() && names(before)[a0] == x;
                                let a = if a0 < i { a0 } else { a0 - 1 };
                                assert(kept[a] == names(before)[a0]);
                                assert(names(items@)[a] == x);
                            }
                        }
                    }
                }
                self.items = items;
                true
            },
        }
    }

    /// Whether the set holds no tag at all.
    pub fn is_empty(&self) -> (empty: bool)
        ensures
            empty == (self@ == Set::<Seq<char>>::empty()),
    {
        proof {
            if self.items@.len() > 0 {
                assert(names(self.items@)[0] == self.items@[0]@);
                assert(self@.contains(self.items@[0]@));
            } else {
                assert(self@ =~= Set::<Seq<char>>::empty());
            }
        }
        self.items.len() == 0
    }

    /// Every tag of the set, each once, in no particular order.
    pub fn to_vec(&self) -> (list: Vec<String>)
        ensures
            names(list@).no_duplicates(),
            names(list@).to_set() == self@,
    {
        proof {
            use_type_invariant(self);
        }
        let mut list: Vec<String> = Vec::new();
        let mut i: usize = 0;
        while i < self.items.len()
            invariant
                i <= self.items@.len(),
                list@.len() == i,
                forall|j: int| 0 <= j < i ==> list@[j]@ == self.items@[j]@,
            decreases self.items@.len() - i,
        {
            list.push(self.items[i].clone());
            i += 1;
        }
        proof {
            assert(names(list@) =~= names(self.items@));
        }
        list
    }

    /// The set of the names in `list`; a name that occurs more than once
    /// counts once.
    pub fn from_vec(list: Vec<String>) -> (tags: Self)
        ensures
            tags@ == names(list@).to_set(),
    {
        let mut tags = Tags::new();
        let mut i: usize = 0;
        while i < list.len()
            invariant
                i <= list@.len(),
                tags@ == names(list@).take(i as int).to_set(),
            decreases list@.len() - i,
        {
            tags.insert(list[i].clone());
            proof {
                let done = names(list@).take(i as int);
                let next = names(list@).take(i + 1);
                assert(next =~= done.push(list@[i as int]@));
                assert(next.to_set() =~= done.to_set().insert(list@[i as int]@)) by {
                    assert forall|x: Seq<char>|
                        next.contains(x) <==> (done.contains(x) || x == list@[i as int]@) by {
                        if done.contains(x) {
                            let j = choose|j: int| 0 <= j < done.len() && done[j] == x;
                            assert(next[j] == x);
                        }
                        if x == list@[i as int]@ {
                            assert(next[i as int] == x);
                        }
                    }
                }
            }
            i += 1;
        }
        proof {
            assert(names(list@).take(i as int) =~= names(list@));
        }
        tags
    }

    /// Adds every tag of `other` to the set.
    pub fn insert_all(&mut self, other: &Tags)
        ensures
            final(self)@ == old(self)@.union(other@),
    {
        let mut i: usize = 0;
        while i < other.items.len()
            invariant
                i <= other.items@.len(),
                self@ == old(self)@.union(names(other.items@).take(i as int).to_set()),
            decreases other.items@.len() - i,
        {
            let ghost done = names(other.items@).take(i as int);
            let ghost next = names(other.items@).take(i + 1);
            self.insert(other.items[i].clone());
            proof {
                assert(next =~= done.push(other.items@[i as int]@));
                assert forall|x: Seq<char>|
                    next.contains(x) <==> (done.contains(x) || x == other.items@[i as int]@) by {
                    if done.contains(x) {
                        let j = choose|j: int| 0 <= j < done.len() && done[j] == x;
                        assert(next[j] == x);
                    }
                    if x == other.items@[i as int]@ {
                        assert(next[i as int] == x);
                    }
                }
                assert(self@ =~= old(self)@.union(next.to_set()));
            }
            i += 1;
        }
        proof {
            assert(names(other.items@).take(i as int) =~= names(other.items@));
        }
    }

    /// Takes every tag of `other` out of the set.
    pub fn remove_all(&mut self, other: &Tags)
        ensures
            final(self)@ == old(self)@.difference(other@),
    {
        let mut i: usize = 0;
        while i < other.items.len()
            invariant
                i <= other.items@.len(),
                self@ == old(self)@.difference(names(other.items@).take(i as int).to_set()),
            decreases other.items@.len() - i,
        {
            let ghost done = names(other.items@).take(i as int);
            let ghost next = names(other.items@).take(i + 1);
            self.remove(other.items[i].as_str());
            proof {
                assert(next =~= done.push(other.items@[i as int]@));
                assert forall|x: Seq<char>|
                    next.contains(x) <==> (done.contains(x) || x == other.items@[i as int]@) by {
                    if done.contains(x) {
                        let j = choose|j: int| 0 <= j < done.len() && done[j] == x;
                        assert(next[j] == x);
                    }
                    if x == other.items@[i as int]@ {
                        assert(next[i as int] == x);
                    }
                }
                assert(self@ =~= old(self)@.difference(next.to_set()));
            }
            i += 1;
        }
        proof {
            assert(names(other.items@).take(i as int) =~= names(other.items@));
        }
    }

    /// Whether every tag of this set is also in `other`.
    pub fn is_subset(&self, other: &Tags) -> (within: bool)
        ensures
            within == self@.subset_of(other@),
    {
        let mut i: usize = 0;
        while i < self.items.len()
            invariant
                i <= self.items@.len(),
                forall|j: int| 0 <= j < i ==> other@.contains(names(self.items@)[j]),
            decreases self.items@.len() - i,
        {
            if !other.contains(self.items[i].as_str()) {
                proof {
                    assert(names(self.items@)[i as int] == self.items@[i as int]@);
                    assert(self@.contains(self.items@[i as int]@));
                }
                return false;
            }
            i += 1;
        }
        proof {
            assert forall|x: Seq<char>| self@.contains(x) implies other@.contains(x) by {
                let j = choose|j: int|
                    0 <= j < names(self.items@).len() && names(self.items@)[j] == x;
                assert(other@.contains(names(self.items@)[j]));
            }
        }
        true
    }

    /// Whether the two sets have no tag in common.
    pub fn is_disjoint(&self, other: &Tags) -> (apart: bool)
        ensures
            apart == self@.disjoint(other@),
    {
        let mut i: usize = 0;
        while i < self.items.len()
            invariant
                i <= self.items@.len(),
                forall|j: int| 0 <= j < i ==> !other@.contains(names(self.items@)[j]),
            decreases self.items@.len() - i,
        {
            if other.contains(self.items[i].as_str()) {
                proof {
                    assert(names(self.items@)[i as int] == self.items@[i as int]@);
                    assert(self@.contains(self.items@[i as int]@));
                }
                return false;
            }
            i += 1;
        }
        proof {
            assert forall|x: Seq<char>| self@.contains(x) implies !other@.contains(x) by {
                let j = choose|j: int|
                    0 <= j < names(self.items@).len() && names(self.items@)[j] == x;
                assert(!other@.contains(names(self.items@)[j]));
            }
        }
        true
    }
}

impl Clone for Tags {
    fn clone(&self) -> (copy: Self)
        ensures
            copy@ == self@,
    {
        proof {
            use_type_invariant(self);
        }
        let mut items: Vec<String> = Vec::new();
        let mut i: usize = 0;
        while i < self.items.len()
            invariant
                i <= self.items@.len(),
                items@.len() == i,
                forall|j: int| 0 <= j < i ==> items@[j]@ == self.items@[j]@,
            decreases self.items@.len() - i,
        {
            items.push(self.items[i].clone());
            i += 1;
        }
        proof {
            assert(names(items@) =~= names(self.items@));
        }
        Tags { items }
    }
}

impl PartialEq for Tags {
    fn eq(&self, other: &Self) -> (same: bool) {
        proof {
            if self@.subset_of(other@) && other@.subset_of(self@) {
                assert(self@ =~= other@);
            }
        }
        self.is_subset(other) && other.is_subset(self)
    }
}

impl PartialEqSpecImpl for Tags {
    open spec fn obeys_eq_spec() -> bool {
        true
    }

    open spec fn eq_spec(&self, other: &Self) -> bool {
        self@ == other@
    }
}

impl Eq for Tags {

}

} // verus!
