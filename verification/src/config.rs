//! Scopes as a configuration describes them.

use vstd::prelude::*;
use crate::tags::Tags;
use crate::task::Task;

verus! {

/// A scope by its tags: the tasks in it carry every included tag and none
/// of the excluded ones, and a task that is added in it gets the default
/// tags.
#[derive(Debug, PartialEq, Eq)]
pub struct Scope {
    pub name: String,
    pub excluded_tags: Tags,
    pub included_tags: Tags,
    pub default_tags: Tags,
}

impl Scope {
    /// Whether a task with the tags `tags` is in the scope.
    pub open spec fn holds(self, tags: Set<Seq<char>>) -> bool {
        self.excluded_tags@.disjoint(tags) && self.included_tags@.subset_of(tags)
    }

    /// Whether the task `t` is in the scope.
    pub fn contains_task(&self, t: &Task) -> (inside: bool)
        ensures
            inside == self.holds(t@.tags),
    {
        self.excluded_tags.is_disjoint(&t.tags) && self.included_tags.is_subset(&t.tags)
    }
}

impl Default for Scope {
    /// The scope `default`, which holds every task.
    fn default() -> (scope: Self)
        ensures
            scope.name@ == "default"@,
            scope.excluded_tags@ == Set::<Seq<char>>::empty(),
            scope.included_tags@ == Set::<Seq<char>>::empty(),
            scope.default_tags@ == Set::<Seq<char>>::empty(),
            forall|tags: Set<Seq<char>>| scope.holds(tags),
    {
        Scope {
            name: "default".to_owned(),
            excluded_tags: Tags::new(),
            included_tags: Tags::new(),
            default_tags: Tags::new(),
        }
    }
}

/// The scopes that the user has set up, and the one that is taken where
/// none is named.
#[derive(Debug)]
pub struct Config {
    pub scopes: Vec<Scope>,
    pub default_scope: Scope,
}

impl Default for Config {
    /// The configuration without scopes of the user's own.
    fn default() -> (config: Self)
        ensures
            config.scopes@.len() == 0,
            config.default_scope.name@ == "default"@,
            forall|tags: Set<Seq<char>>| config.default_scope.holds(tags),
    {
        Config { scopes: Vec::new(), default_scope: Scope::default() }
    }
}

} // verus!
