//! Named lists: the four kinds of entry that a document keeps by name, and
//! the searches that every operation on a document starts from.

use crate::model::{
    is_first_named, lemma_position, lookup, position, ClusterView, ContextView, Named, UserView,
};
use crate::schema::{KubeConfig, NamedCluster, NamedContext, NamedExtension, NamedUser};
use vstd::prelude::*;
use vstd::string::StringExecFns;

verus! {

/// An entry of a named list. Its model is a [`Named`] payload.
pub trait NamedEntry: Sized + DeepView<V = Named<<Self as NamedEntry>::Payload>> {
    /// The model of what the entry holds besides its name.
    type Payload;

    /// The name under which the entry is looked up.
    fn entry_name(&self) -> (name: &String)
        ensures
            name@ == self.deep_view().name,
    ;

    /// The same entry under another name.
    fn renamed(self, name: String) -> (entry: Self)
        ensures
            entry.deep_view() == (Named { name: name@, value: self.deep_view().value }),
    ;
}

impl NamedEntry for NamedCluster {
    type Payload = ClusterView;

    fn entry_name(&self) -> (name: &String) {
        &self.name
    }

    fn renamed(self, name: String) -> (entry: Self) {
        NamedCluster { name, cluster: self.cluster }
    }
}

impl NamedEntry for NamedUser {
    type Payload = UserView;

    fn entry_name(&self) -> (name: &String) {
        &self.name
    }

    fn renamed(self, name: String) -> (entry: Self) {
        NamedUser { name, user: self.user }
    }
}

impl NamedEntry for NamedContext {
    type Payload = ContextView;

    fn entry_name(&self) -> (name: &String) {
        &self.name
    }

    fn renamed(self, name: String) -> (entry: Self) {
        NamedContext { name, context: self.context }
    }
}

impl NamedEntry for NamedExtension {
    type Payload = serde_yaml::Value;

    fn entry_name(&self) -> (name: &String) {
        &self.name
    }

    fn renamed(self, name: String) -> (entry: Self) {
        NamedExtension { name, extension: self.extension }
    }
}

/// Finds the first entry called `name`.
pub fn find_position<E: NamedEntry>(entries: &Vec<E>, name: &String) -> (found: Option<usize>)
    ensures
        match found {
            Some(i) => position(entries.deep_view(), name@) == Some(i as int),
            None => position(entries.deep_view(), name@) is None,
        },
{
    let ghost list = entries.deep_view();
    let mut i: usize = 0;
    while i < entries.len()
        invariant
            i <= entries.len(),
            list == entries.deep_view(),
            forall|j: int| 0 <= j < i ==> (#[trigger] list[j]).name != name@,
        decreases entries.len() - i,
    {
        let same = *entries[i].entry_name() == *name;
        assert(list[i as int] == entries@[i as int].deep_view());
        if same {
            proof {
                assert(is_first_named(list, name@, i as int));
                lemma_position(list, name@);
            }
            return Some(i);
        }
        i += 1;
    }
    proof {
        lemma_position(list, name@);
    }
    None
}

/// Looks up the first entry called `name`.
pub fn find_entry<'a, E: NamedEntry>(entries: &'a Vec<E>, name: &str) -> (found: Option<&'a E>)
    ensures
        match position(entries.deep_view(), name@) {
            Some(i) => 0 <= i < entries@.len() && found == Some(&entries@[i]),
            None => found is None,
        },
        found.deep_view() == lookup(entries.deep_view(), name@),
{
    let wanted = String::from_str(name);
    proof {
        lemma_position(entries.deep_view(), name@);
    }
    match find_position(entries, &wanted) {
        Some(i) => {
            assert(entries.deep_view()[i as int] == entries@[i as int].deep_view());
            Some(&entries[i])
        },
        None => None,
    }
}

impl KubeConfig {
    /// The context that `current_context` selects, if it selects one that
    /// the document holds.
    pub fn get_current_context(&self) -> (found: Option<&NamedContext>)
        ensures
            found.deep_view() == match self.current_context {
                Some(name) => lookup(self.contexts.deep_view(), name@),
                None => None,
            },
            match self.current_context {
                Some(name) => match position(self.contexts.deep_view(), name@) {
                    Some(i) => 0 <= i < self.contexts@.len() && found == Some(&self.contexts@[i]),
                    None => found is None,
                },
                None => found is None,
            },
    {
        match &self.current_context {
            Some(name) => find_entry(&self.contexts, name.as_str()),
            None => None,
        }
    }

    /// The first context called `name`.
    pub fn get_context(&self, name: &str) -> (found: Option<&NamedContext>)
        ensures
            found.deep_view() == lookup(self.contexts.deep_view(), name@),
            match position(self.contexts.deep_view(), name@) {
                Some(i) => 0 <= i < self.contexts@.len() && found == Some(&self.contexts@[i]),
                None => found is None,
            },
    {
        find_entry(&self.contexts, name)
    }

    /// The first cluster called `name`.
    pub fn get_cluster(&self, name: &str) -> (found: Option<&NamedCluster>)
        ensures
            found.deep_view() == lookup(self.clusters.deep_view(), name@),
            match position(self.clusters.deep_view(), name@) {
                Some(i) => 0 <= i < self.clusters@.len() && found == Some(&self.clusters@[i]),
                None => found is None,
            },
    {
        find_entry(&self.clusters, name)
    }

    /// The first user called `name`.
    pub fn get_user(&self, name: &str) -> (found: Option<&NamedUser>)
        ensures
            found.deep_view() == lookup(self.users.deep_view(), name@),
            match position(self.users.deep_view(), name@) {
                Some(i) => 0 <= i < self.users@.len() && found == Some(&self.users@[i]),
                None => found is None,
            },
    {
        find_entry(&self.users, name)
    }
}

} // verus!
