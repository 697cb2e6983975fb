//! Merging two documents into one.
//!
//! Every named list is merged by name. An entry of the other document whose
//! name the main document lacks is appended; one whose name it has is
//! dropped, or, when forced, put in the place of the entry it collides with.
//! Nothing is reordered and the main document's current context stays.

use crate::entries::{find_position, NamedEntry};
use crate::model::{
    has_name, has_unique_names, last_named, lemma_position, lemma_position_push,
    lemma_position_update, lookup, position, KubeConfigView, Named, PreferencesView,
};
use crate::schema::{KubeConfig, Preferences};
use crate::validate::{is_valid, is_valid_cluster, is_valid_user};
use vstd::prelude::*;

verus! {

/// Why a merge failed. No merge does: the type is the error side of
/// [`merge_kubeconfigs`], which callers match on.
#[derive(Debug, PartialEq)]
pub enum KubeConfError {
    MergeError(String),
}

/// A list after one more entry has been merged into it.
pub open spec fn merged_entry<T>(entries: Seq<Named<T>>, incoming: Named<T>, force: bool) -> Seq<
    Named<T>,
> {
    match position(entries, incoming.name) {
        None => entries.push(incoming),
        Some(i) => if force {
            entries.update(i, incoming)
        } else {
            entries
        },
    }
}

/// The main list after the entries of the other list have been merged into
/// it, one by one and in their order.
pub open spec fn merged_list<T>(main: Seq<Named<T>>, other: Seq<Named<T>>, force: bool) -> Seq<
    Named<T>,
>
    decreases other.len(),
{
    if other.len() == 0 {
        main
    } else {
        merged_entry(merged_list(main, other.drop_last(), force), other.last(), force)
    }
}

/// The merged preferences. Where only one side has any, they are taken
/// whole. Where both have, `colors` goes by the main side unless that has
/// none or the merge is forced, and the extensions are merged as a list.
pub open spec fn merged_preferences(
    main: Option<PreferencesView>,
    other: Option<PreferencesView>,
    force: bool,
) -> Option<PreferencesView> {
    match (main, other) {
        (_, None) => main,
        (None, Some(_)) => other,
        (Some(kept), Some(incoming)) => Some(
            PreferencesView {
                colors: if kept.colors is Some && !force {
                    kept.colors
                } else {
                    incoming.colors
                },
                extensions: merged_list(kept.extensions, incoming.extensions, force),
            },
        ),
    }
}

/// The merged document.
pub open spec fn merged(
    main: KubeConfigView,
    other: KubeConfigView,
    force: bool,
    include_preferences: bool,
) -> KubeConfigView {
    KubeConfigView {
        preferences: if include_preferences {
            merged_preferences(main.preferences, other.preferences, force)
        } else {
            main.preferences
        },
        clusters: merged_list(main.clusters, other.clusters, force),
        users: merged_list(main.users, other.users, force),
        contexts: merged_list(main.contexts, other.contexts, force),
        extensions: merged_list(main.extensions, other.extensions, force),
        ..main
    }
}

/// Merges the entries of `other` into `main`.
pub fn merge_list<E: NamedEntry>(main: Vec<E>, other: Vec<E>, force: bool) -> (merged: Vec<E>)
    ensures
        merged.deep_view() == merged_list(main.deep_view(), other.deep_view(), force),
{
    let ghost kept = main.deep_view();
    let ghost incoming = other.deep_view();
    let ghost before = other@;
    let mut merged = main;
    for entry in it: other.into_iter()
        invariant
            it.seq() == before,
            before == other@,
            incoming == other.deep_view(),
            merged.deep_view() == merged_list(kept, incoming.take(it.index()), force),
    {
        proof {
            let upto = incoming.take(it.index() + 1);
            assert(upto.drop_last() == incoming.take(it.index()));
            assert(upto.last() == entry.deep_view());
        }
        let ghost list = merged.deep_view();
        proof {
            lemma_position(list, entry.deep_view().name);
        }
        match find_position(&merged, entry.entry_name()) {
            None => {
                merged.push(entry);
                assert(merged.deep_view() == list.push(entry.deep_view()));
            },
            Some(i) => {
                if force {
                    merged.set(i, entry);
                    assert(merged.deep_view() == list.update(i as int, entry.deep_view()));
                }
            },
        }
    }
    assert(incoming.take(incoming.len() as int) == incoming);
    merged
}

/// Merges the preferences of two documents.
pub fn merge_preferences(main: Option<Preferences>, other: Option<Preferences>, force: bool) -> (merged:
    Option<Preferences>)
    ensures
        merged.deep_view() == merged_preferences(main.deep_view(), other.deep_view(), force),
{
    match other {
        None => main,
        Some(incoming) => match main {
            None => Some(incoming),
            Some(kept) => {
                let colors = match kept.colors {
                    Some(colors) => if force {
                        incoming.colors
                    } else {
                        Some(colors)
                    },
                    None => incoming.colors,
                };
                let extensions = merge_list(kept.extensions, incoming.extensions, force);
                Some(Preferences { colors, extensions })
            },
        },
    }
}

/// Merges `other` into `main`. The preferences are merged only where
/// `include_preferences` is set. The merge always succeeds.
pub fn merge_kubeconfigs(main: KubeConfig, other: KubeConfig, force: bool, include_preferences: bool) -> (outcome:
    Result<KubeConfig, KubeConfError>)
    ensures
        outcome is Ok,
        outcome->Ok_0.deep_view() == merged(
            main.deep_view(),
            other.deep_view(),
            force,
            include_preferences,
        ),
{
    let KubeConfig {
        api_version,
        kind,
        preferences,
        clusters,
        users,
        contexts,
        current_context,
        extensions,
    } = main;
    let preferences = if include_preferences {
        merge_preferences(preferences, other.preferences, force)
    } else {
        preferences
    };
    let clusters = merge_list(clusters, other.clusters, force);
    let users = merge_list(users, other.users, force);
    let contexts = merge_list(contexts, other.contexts, force);
    let extensions = merge_list(extensions, other.extensions, force);
    Ok(
        KubeConfig {
            api_version,
            kind,
            preferences,
            clusters,
            users,
            contexts,
            current_context,
            extensions,
        },
    )
}

/// Merging an empty list into a list leaves the list as it is.
pub proof fn lemma_merge_nothing<T>(main: Seq<Named<T>>, other: Seq<Named<T>>, force: bool)
    requires
        other.len() == 0,
    ensures
        merged_list(main, other, force) == main,
{
}

/// A merge never moves or removes an entry of the main list: the merged list
/// is at least as long, holds at each place of the main list an entry of the
/// same name, and, unless the merge is forced, that very entry.
pub proof fn lemma_merge_keeps_places<T>(main: Seq<Named<T>>, other: Seq<Named<T>>, force: bool)
    ensures
        merged_list(main, other, force).len() >= main.len(),
        forall|i: int|
            0 <= i < main.len() ==> (#[trigger] merged_list(main, other, force)[i]).name
                == main[i].name,
        !force ==> forall|i: int|
            0 <= i < main.len() ==> #[trigger] merged_list(main, other, force)[i] == main[i],
    decreases other.len(),
{
    if other.len() > 0 {
        let sofar = merged_list(main, other.drop_last(), force);
        lemma_merge_keeps_places(main, other.drop_last(), force);
        lemma_position(sofar, other.last().name);
    }
}

/// The merged list holds exactly the names of the two lists.
pub proof fn lemma_merged_has_name<T>(
    main: Seq<Named<T>>,
    other: Seq<Named<T>>,
    force: bool,
    name: Seq<char>,
)
    ensures
        has_name(merged_list(main, other, force), name) <==> has_name(main, name) || has_name(
            other,
            name,
        ),
    decreases other.len(),
{
    if other.len() > 0 {
        let rest = other.drop_last();
        let last = other.last();
        let sofar = merged_list(main, rest, force);
        lemma_merged_has_name(main, rest, force, name);
        lemma_merged_has_name(main, rest, force, last.name);
        assert(other == rest.push(last));
        lemma_position_push(rest, last, name);
        lemma_position(sofar, last.name);
        match position(sofar, last.name) {
            None => {
                lemma_position_push(sofar, last, name);
            },
            Some(i) => {
                if force {
                    lemma_position_update(sofar, i, last, name);
                }
            },
        }
    }
}

/// The entry that stands under `name` after a merge. Unforced, the main list
/// goes first, and the other list answers only for names that the main list
/// lacks, with its first entry of the name. Forced, the other list goes
/// first, with its last entry of the name.
pub open spec fn merged_lookup<T>(
    main: Seq<Named<T>>,
    other: Seq<Named<T>>,
    force: bool,
    name: Seq<char>,
) -> Option<Named<T>> {
    if force {
        if has_name(other, name) {
            last_named(other, name)
        } else {
            lookup(main, name)
        }
    } else {
        if has_name(main, name) {
            lookup(main, name)
        } else {
            lookup(other, name)
        }
    }
}

/// A lookup in the merged list finds what [`merged_lookup`] says.
pub proof fn lemma_merged_lookup<T>(
    main: Seq<Named<T>>,
    other: Seq<Named<T>>,
    force: bool,
    name: Seq<char>,
)
    ensures
        lookup(merged_list(main, other, force), name) == merged_lookup(main, other, force, name),
    decreases other.len(),
{
    lemma_position(main, name);
    lemma_position(other, name);
    if other.len() > 0 {
        let rest = other.drop_last();
        let last = other.last();
        let sofar = merged_list(main, rest, force);
        let all = merged_list(main, other, force);
        lemma_merged_lookup(main, rest, force, name);
        lemma_merged_has_name(main, rest, force, name);
        lemma_merged_has_name(main, rest, force, last.name);
        assert(other == rest.push(last));
        lemma_position_push(rest, last, name);
        lemma_position(rest, name);
        lemma_position(sofar, last.name);
        lemma_position(sofar, name);
        lemma_position(all, name);
        match position(sofar, last.name) {
            None => {
                lemma_position_push(sofar, last, name);
            },
            Some(i) => {
                if force {
                    lemma_position_update(sofar, i, last, name);
                }
            },
        }
    }
}

/// Every entry of the merged list is an entry of one of the two lists.
pub proof fn lemma_merged_entries_come_from<T>(
    main: Seq<Named<T>>,
    other: Seq<Named<T>>,
    force: bool,
    i: int,
)
    requires
        0 <= i < merged_list(main, other, force).len(),
    ensures
        main.contains(merged_list(main, other, force)[i]) || other.contains(
            merged_list(main, other, force)[i],
        ),
    decreases other.len(),
{
    if other.len() == 0 {
        assert(main[i] == merged_list(main, other, force)[i]);
    } else {
        let rest = other.drop_last();
        let last = other.last();
        let sofar = merged_list(main, rest, force);
        let all = merged_list(main, other, force);
        lemma_position(sofar, last.name);
        assert(other[other.len() - 1] == last);
        if i < sofar.len() && all[i] == sofar[i] {
            lemma_merged_entries_come_from(main, rest, force, i);
            if rest.contains(sofar[i]) {
                let k = choose|k: int| 0 <= k < rest.len() && rest[k] == sofar[i];
                assert(other[k] == sofar[i]);
            }
        } else {
            assert(all[i] == last);
        }
    }
}

/// A merge into a list of unique names gives a list of unique names.
pub proof fn lemma_merge_keeps_names_unique<T>(main: Seq<Named<T>>, other: Seq<Named<T>>, force: bool)
    requires
        has_unique_names(main),
    ensures
        has_unique_names(merged_list(main, other, force)),
    decreases other.len(),
{
    if other.len() > 0 {
        let sofar = merged_list(main, other.drop_last(), force);
        lemma_merge_keeps_names_unique(main, other.drop_last(), force);
        lemma_position(sofar, other.last().name);
    }
}

/// Merging a document that holds no entries and no preferences into a
/// document leaves that document as it is, forced or not.
pub proof fn lemma_merge_identity(
    main: KubeConfigView,
    other: KubeConfigView,
    force: bool,
    include_preferences: bool,
)
    requires
        other.preferences is None,
        other.clusters.len() == 0,
        other.users.len() == 0,
        other.contexts.len() == 0,
        other.extensions.len() == 0,
    ensures
        merged(main, other, force, include_preferences) == main,
{
}

/// A merge leaves the document's kind, version and current context alone,
/// and the preferences too unless it is told to include them.
pub proof fn lemma_merge_keeps_selection(
    main: KubeConfigView,
    other: KubeConfigView,
    force: bool,
    include_preferences: bool,
)
    ensures
        merged(main, other, force, include_preferences).api_version == main.api_version,
        merged(main, other, force, include_preferences).kind == main.kind,
        merged(main, other, force, include_preferences).current_context == main.current_context,
        !include_preferences ==> merged(main, other, force, include_preferences).preferences
            == main.preferences,
{
}

/// Under a name that both documents hold, the merged document keeps the main
/// document's entry, unless the merge is forced: then it holds the other
/// document's. Under a name that only one of them holds, it holds that
/// document's entry.
pub proof fn lemma_merge_keeps_unless_forced(
    main: KubeConfigView,
    other: KubeConfigView,
    force: bool,
    include_preferences: bool,
    name: Seq<char>,
)
    ensures
        lookup(merged(main, other, force, include_preferences).clusters, name) == merged_lookup(
            main.clusters,
            other.clusters,
            force,
            name,
        ),
        lookup(merged(main, other, force, include_preferences).users, name) == merged_lookup(
            main.users,
            other.users,
            force,
            name,
        ),
        lookup(merged(main, other, force, include_preferences).contexts, name) == merged_lookup(
            main.contexts,
            other.contexts,
            force,
            name,
        ),
        lookup(merged(main, other, force, include_preferences).extensions, name) == merged_lookup(
            main.extensions,
            other.extensions,
            force,
            name,
        ),
{
    lemma_merged_lookup(main.clusters, other.clusters, force, name);
    lemma_merged_lookup(main.users, other.users, force, name);
    lemma_merged_lookup(main.contexts, other.contexts, force, name);
    lemma_merged_lookup(main.extensions, other.extensions, force, name);
}

/// The merged document holds every name that either document holds, and no
/// other, forced or not.
pub proof fn lemma_merge_holds_every_name(
    main: KubeConfigView,
    other: KubeConfigView,
    force: bool,
    include_preferences: bool,
    name: Seq<char>,
)
    ensures
        has_name(merged(main, other, force, include_preferences).clusters, name) <==> has_name(
            main.clusters,
            name,
        ) || has_name(other.clusters, name),
        has_name(merged(main, other, force, include_preferences).users, name) <==> has_name(
            main.users,
            name,
        ) || has_name(other.users, name),
        has_name(merged(main, other, force, include_preferences).contexts, name) <==> has_name(
            main.contexts,
            name,
        ) || has_name(other.contexts, name),
        has_name(merged(main, other, force, include_preferences).extensions, name) <==> has_name(
            main.extensions,
            name,
        ) || has_name(other.extensions, name),
{
    lemma_merged_has_name(main.clusters, other.clusters, force, name);
    lemma_merged_has_name(main.users, other.users, force, name);
    lemma_merged_has_name(main.contexts, other.contexts, force, name);
    lemma_merged_has_name(main.extensions, other.extensions, force, name);
}

/// Merging two documents that meet every rule gives a document that meets
/// every rule.
pub proof fn lemma_merge_keeps_validity(
    main: KubeConfigView,
    other: KubeConfigView,
    force: bool,
    include_preferences: bool,
)
    requires
        is_valid(main),
        is_valid(other),
    ensures
        is_valid(merged(main, other, force, include_preferences)),
{
    let all = merged(main, other, force, include_preferences);
    if main.current_context is Some {
        lemma_merged_has_name(main.contexts, other.contexts, force, main.current_context->0);
    }
    assert forall|i: int| 0 <= i < all.contexts.len() implies has_name(
        all.clusters,
        (#[trigger] all.contexts[i]).value.cluster,
    ) && has_name(all.users, all.contexts[i].value.user) by {
        let context = all.contexts[i];
        lemma_merged_entries_come_from(main.contexts, other.contexts, force, i);
        lemma_merged_has_name(main.clusters, other.clusters, force, context.value.cluster);
        lemma_merged_has_name(main.users, other.users, force, context.value.user);
        if main.contexts.contains(context) {
            let k = choose|k: int| 0 <= k < main.contexts.len() && main.contexts[k] == context;
            assert(has_name(main.clusters, main.contexts[k].value.cluster));
            assert(has_name(main.users, main.contexts[k].value.user));
        } else {
            let k = choose|k: int| 0 <= k < other.contexts.len() && other.contexts[k] == context;
            assert(has_name(other.clusters, other.contexts[k].value.cluster));
            assert(has_name(other.users, other.contexts[k].value.user));
        }
    }
    assert forall|i: int| 0 <= i < all.clusters.len() implies is_valid_cluster(
        (#[trigger] all.clusters[i]).value,
    ) by {
        let cluster = all.clusters[i];
        lemma_merged_entries_come_from(main.clusters, other.clusters, force, i);
        if main.clusters.contains(cluster) {
            let k = choose|k: int| 0 <= k < main.clusters.len() && main.clusters[k] == cluster;
            assert(is_valid_cluster(main.clusters[k].value));
        } else {
            let k = choose|k: int| 0 <= k < other.clusters.len() && other.clusters[k] == cluster;
            assert(is_valid_cluster(other.clusters[k].value));
        }
    }
    assert forall|i: int| 0 <= i < all.users.len() implies is_valid_user(
        (#[trigger] all.users[i]).value,
    ) by {
        let user = all.users[i];
        lemma_merged_entries_come_from(main.users, other.users, force, i);
        if main.users.contains(user) {
            let k = choose|k: int| 0 <= k < main.users.len() && main.users[k] == user;
            assert(is_valid_user(main.users[k].value));
        } else {
            let k = choose|k: int| 0 <= k < other.users.len() && other.users[k] == user;
            assert(is_valid_user(other.users[k].value));
        }
    }
}

/// The names under which an entry of the other list meets an entry that is
/// already there when its turn comes, one for each such entry and in the
/// order of the other list. These are the entries that a merge drops, or,
/// forced, puts in the place of another.
pub open spec fn collisions<T>(main: Seq<Named<T>>, other: Seq<Named<T>>) -> Seq<Seq<char>>
    decreases other.len(),
{
    if other.len() == 0 {
        Seq::empty()
    } else {
        let earlier = collisions(main, other.drop_last());
        let name = other.last().name;
        if has_name(main, name) || has_name(other.drop_last(), name) {
            earlier.push(name)
        } else {
            earlier
        }
    }
}

/// An entry collides exactly if the merge of the entries before it holds its
/// name, forced or not.
pub proof fn lemma_collision_is_taken_name<T>(
    main: Seq<Named<T>>,
    other: Seq<Named<T>>,
    force: bool,
)
    requires
        other.len() > 0,
    ensures
        position(merged_list(main, other.drop_last(), force), other.last().name) is Some <==> has_name(
            main,
            other.last().name,
        ) || has_name(other.drop_last(), other.last().name),
{
    lemma_merged_has_name(main, other.drop_last(), force, other.last().name);
}

/// Whether one of the first `end` entries is called `name`.
fn holds_name_before<E: NamedEntry>(entries: &Vec<E>, end: usize, name: &String) -> (found: bool)
    requires
        end <= entries.len(),
    ensures
        found == has_name(entries.deep_view().take(end as int), name@),
{
    let ghost list = entries.deep_view().take(end as int);
    let mut i: usize = 0;
    while i < end
        invariant
            i <= end <= entries.len(),
            list == entries.deep_view().take(end as int),
            forall|j: int| 0 <= j < i ==> (#[trigger] list[j]).name != name@,
        decreases end - i,
    {
        assert(list[i as int] == entries@[i as int].deep_view());
        if *entries[i].entry_name() == *name {
            return true;
        }
        i += 1;
    }
    false
}

/// Lists the names under which a merge of `other` into `main` finds an entry
/// already there: what it will drop, or, forced, put in another's place.
pub fn colliding_names<E: NamedEntry>(main: &Vec<E>, other: &Vec<E>) -> (taken: Vec<String>)
    ensures
        taken.deep_view() == collisions(main.deep_view(), other.deep_view()),
{
    let ghost kept = main.deep_view();
    let ghost incoming = other.deep_view();
    let mut taken: Vec<String> = Vec::new();
    assert(taken.deep_view() =~= collisions(kept, incoming.take(0)));
    let mut i: usize = 0;
    while i < other.len()
        invariant
            i <= other.len(),
            kept == main.deep_view(),
            incoming == other.deep_view(),
            taken.deep_view() == collisions(kept, incoming.take(i as int)),
        decreases other.len() - i,
    {
        let name = other[i].entry_name();
        let ghost sofar = taken.deep_view();
        proof {
            let upto = incoming.take(i + 1);
            assert(upto.drop_last() == incoming.take(i as int));
            assert(upto.last() == other@[i as int].deep_view());
            lemma_position(kept, name@);
        }
        if find_position(main, name).is_some() || holds_name_before(other, i, name) {
            taken.push(name.clone());
            assert(taken.deep_view() == sofar.push(name@));
        }
        i += 1;
    }
    assert(incoming.take(incoming.len() as int) == incoming);
    taken
}

} // verus!
