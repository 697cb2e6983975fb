//! The mathematical model of a kubeconfig document.
//!
//! Every executable type of the crate has a `deep_view` into one of the ghost
//! types below. Contracts are stated over these: strings are sequences of
//! characters, vectors are sequences, and every named list is a sequence of
//! [`Named`] entries that is searched by name, first match wins.

use vstd::prelude::*;

verus! {

/// One entry of a named list: the key under which it is looked up and its payload.
pub struct Named<T> {
    pub name: Seq<char>,
    pub value: T,
}

/// An extension is a named payload that is carried along and never interpreted.
pub type ExtensionView = Named<serde_yaml::Value>;

pub struct PreferencesView {
    pub colors: Option<bool>,
    pub extensions: Seq<ExtensionView>,
}

pub struct ClusterView {
    pub server: Seq<char>,
    pub tls_server_name: Option<Seq<char>>,
    pub insecure_skip_tls_verify: Option<bool>,
    pub certificate_authority: Option<Seq<char>>,
    pub certificate_authority_data: Option<Seq<char>>,
    pub proxy_url: Option<Seq<char>>,
    pub disable_compression: Option<bool>,
    pub extensions: Seq<ExtensionView>,
}

pub struct AuthProviderView {
    pub name: Seq<char>,
    pub config: Map<Seq<char>, Seq<char>>,
}

pub struct ExecEnvVarView {
    pub name: Seq<char>,
    pub value: Seq<char>,
}

pub struct ExecConfigView {
    pub command: Seq<char>,
    pub args: Option<Seq<Seq<char>>>,
    pub env: Option<Seq<ExecEnvVarView>>,
    pub api_version: Option<Seq<char>>,
    pub install_hint: Option<Seq<char>>,
    pub provide_cluster_info: Option<bool>,
    pub interactive_mode: Option<crate::schema::InteractiveMode>,
}

pub struct UserView {
    pub client_certificate: Option<Seq<char>>,
    pub client_certificate_data: Option<Seq<char>>,
    pub client_key: Option<Seq<char>>,
    pub client_key_data: Option<Seq<char>>,
    pub token: Option<Seq<char>>,
    pub token_file: Option<Seq<char>>,
    pub impersonate: Option<Seq<char>>,
    pub impersonate_uid: Option<Seq<char>>,
    pub impersonate_groups: Seq<Seq<char>>,
    pub impersonate_user_extra: Map<Seq<char>, Seq<Seq<char>>>,
    pub username: Option<Seq<char>>,
    pub password: Option<Seq<char>>,
    pub auth_provider: Option<AuthProviderView>,
    pub exec_config: Option<ExecConfigView>,
    pub extensions: Seq<ExtensionView>,
}

pub struct ContextView {
    pub cluster: Seq<char>,
    pub user: Seq<char>,
    pub namespace: Option<Seq<char>>,
    pub extensions: Seq<ExtensionView>,
}

pub struct KubeConfigView {
    pub api_version: Seq<char>,
    pub kind: Seq<char>,
    pub preferences: Option<PreferencesView>,
    pub clusters: Seq<Named<ClusterView>>,
    pub users: Seq<Named<UserView>>,
    pub contexts: Seq<Named<ContextView>>,
    pub current_context: Option<Seq<char>>,
    pub extensions: Seq<ExtensionView>,
}

/// Whether some entry of the list is called `name`.
pub open spec fn has_name<T>(entries: Seq<Named<T>>, name: Seq<char>) -> bool {
    exists|i: int| 0 <= i < entries.len() && (#[trigger] entries[i]).name == name
}

/// Whether no two entries of the list share a name.
pub open spec fn has_unique_names<T>(entries: Seq<Named<T>>) -> bool {
    forall|i: int, j: int|
        0 <= i < j < entries.len() ==> (#[trigger] entries[i]).name != (#[trigger] entries[j]).name
}

/// Whether `i` is the place of the first entry called `name`.
pub open spec fn is_first_named<T>(entries: Seq<Named<T>>, name: Seq<char>, i: int) -> bool {
    &&& 0 <= i < entries.len()
    &&& entries[i].name == name
    &&& forall|j: int| 0 <= j < i ==> (#[trigger] entries[j]).name != name
}

/// The place of the first entry called `name`, if there is one.
pub open spec fn position<T>(entries: Seq<Named<T>>, name: Seq<char>) -> Option<int> {
    if has_name(entries, name) {
        Some(choose|i: int| is_first_named(entries, name, i))
    } else {
        None
    }
}

/// The first entry called `name`, if there is one: what a lookup by name returns.
pub open spec fn lookup<T>(entries: Seq<Named<T>>, name: Seq<char>) -> Option<Named<T>> {
    match position(entries, name) {
        Some(i) => Some(entries[i]),
        None => None,
    }
}

/// A list that holds `name` has exactly one first entry of that name, and
/// `position` is its place.
pub proof fn lemma_position<T>(entries: Seq<Named<T>>, name: Seq<char>)
    ensures
        match position(entries, name) {
            Some(i) => is_first_named(entries, name, i),
            None => forall|j: int| 0 <= j < entries.len() ==> (#[trigger] entries[j]).name != name,
        },
        forall|i: int| is_first_named(entries, name, i) ==> position(entries, name) == Some(i),
{
    if has_name(entries, name) {
        let k = choose|i: int| 0 <= i < entries.len() && (#[trigger] entries[i]).name == name;
        lemma_first_named_exists(entries, name, k);
        let p = choose|i: int| is_first_named(entries, name, i);
        assert forall|i: int| is_first_named(entries, name, i) implies i == p by {
            if i < p {
                assert(entries[i].name != name);
            } else if p < i {
                assert(entries[p].name != name);
            }
        }
    }
}

/// Below any entry called `name` there is a first one.
proof fn lemma_first_named_exists<T>(entries: Seq<Named<T>>, name: Seq<char>, k: int)
    requires
        0 <= k < entries.len(),
        entries[k].name == name,
    ensures
        exists|i: int| is_first_named(entries, name, i),
    decreases k,
{
    if exists|j: int| 0 <= j < k && (#[trigger] entries[j]).name == name {
        let j = choose|j: int| 0 <= j < k && (#[trigger] entries[j]).name == name;
        lemma_first_named_exists(entries, name, j);
    } else {
        assert(is_first_named(entries, name, k));
    }
}

/// The last entry called `name`, if there is one.
pub open spec fn last_named<T>(entries: Seq<Named<T>>, name: Seq<char>) -> Option<Named<T>>
    decreases entries.len(),
{
    if entries.len() == 0 {
        None
    } else if entries.last().name == name {
        Some(entries.last())
    } else {
        last_named(entries.drop_last(), name)
    }
}

/// A search in a list with one more entry at its end: what was found before
/// is found again, and the new entry is found only where nothing was.
pub proof fn lemma_position_push<T>(entries: Seq<Named<T>>, pushed: Named<T>, name: Seq<char>)
    ensures
        position(entries.push(pushed), name) == match position(entries, name) {
            Some(i) => Some(i),
            None => if pushed.name == name {
                Some(entries.len() as int)
            } else {
                None
            },
        },
        has_name(entries.push(pushed), name) <==> has_name(entries, name) || pushed.name == name,
{
    let longer = entries.push(pushed);
    lemma_position(entries, name);
    lemma_position(longer, name);
    match position(entries, name) {
        Some(i) => {
            assert(longer[i] == entries[i]);
            assert forall|j: int| 0 <= j < i implies (#[trigger] longer[j]).name != name by {
                assert(longer[j] == entries[j]);
            }
            assert(is_first_named(longer, name, i));
        },
        None => {
            if pushed.name == name {
                assert forall|j: int| 0 <= j < entries.len() implies (#[trigger] longer[j]).name
                    != name by {
                    assert(longer[j] == entries[j]);
                }
                assert(is_first_named(longer, name, entries.len() as int));
            } else {
                assert forall|j: int| 0 <= j < longer.len() implies (#[trigger] longer[j]).name
                    != name by {
                    if j < entries.len() {
                        assert(longer[j] == entries[j]);
                    }
                }
            }
        },
    }
}

/// A search in a list in which one entry gave way to another of its name
/// ends where it ended before.
pub proof fn lemma_position_update<T>(entries: Seq<Named<T>>, i: int, put: Named<T>, name: Seq<char>)
    requires
        0 <= i < entries.len(),
        entries[i].name == put.name,
    ensures
        position(entries.update(i, put), name) == position(entries, name),
        has_name(entries.update(i, put), name) <==> has_name(entries, name),
{
    let changed = entries.update(i, put);
    lemma_position(entries, name);
    lemma_position(changed, name);
    assert forall|j: int| 0 <= j < entries.len() implies (#[trigger] changed[j]).name == entries[j].name by {}
    match position(entries, name) {
        Some(k) => {
            assert(changed[k].name == name);
            assert forall|j: int| 0 <= j < k implies (#[trigger] changed[j]).name != name by {
                assert(entries[j].name != name);
            }
            assert(is_first_named(changed, name, k));
        },
        None => {
            assert forall|j: int| 0 <= j < changed.len() implies (#[trigger] changed[j]).name
                != name by {
                assert(entries[j].name != name);
            }
        },
    }
}

} // verus!
