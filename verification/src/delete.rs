//! Deleting a context, together with the cluster and the user it names.
//!
//! The cluster and the user of a deleted context go whether or not another
//! context still refers to them: [`deletion_strands`] tells beforehand
//! whether a deletion leaves such a context behind.

use crate::entries::NamedEntry;
use crate::model::{has_name, ContextView, KubeConfigView, Named};
use crate::validate::{is_valid, is_valid_cluster, is_valid_user, references_resolve};
use crate::schema::{KubeConfig, NamedContext};
use vstd::prelude::*;
use vstd::string::StringExecFns;

verus! {

/// Whether a context called `context` refers to the cluster `cluster`.
pub open spec fn uses_cluster(
    contexts: Seq<Named<ContextView>>,
    context: Seq<char>,
    cluster: Seq<char>,
) -> bool {
    exists|i: int|
        0 <= i < contexts.len() && (#[trigger] contexts[i]).name == context && contexts[i].value.cluster
            == cluster
}

/// Whether a context called `context` refers to the user `user`.
pub open spec fn uses_user(contexts: Seq<Named<ContextView>>, context: Seq<char>, user: Seq<char>) -> bool {
    exists|i: int|
        0 <= i < contexts.len() && (#[trigger] contexts[i]).name == context && contexts[i].value.user
            == user
}

/// The entries that are not called `name`.
pub open spec fn other_than<T>(name: Seq<char>) -> spec_fn(Named<T>) -> bool {
    |entry: Named<T>| entry.name != name
}

/// The entries whose name is not on the list.
pub open spec fn not_listed<T>(listed: Seq<Seq<char>>) -> spec_fn(Named<T>) -> bool {
    |entry: Named<T>| !listed.contains(entry.name)
}

/// The entries that no context called `context` refers to as its cluster.
pub open spec fn cluster_stays<T>(contexts: Seq<Named<ContextView>>, context: Seq<char>) -> spec_fn(
    Named<T>,
) -> bool {
    |entry: Named<T>| !uses_cluster(contexts, context, entry.name)
}

/// The entries that no context called `context` refers to as its user.
pub open spec fn user_stays<T>(contexts: Seq<Named<ContextView>>, context: Seq<char>) -> spec_fn(
    Named<T>,
) -> bool {
    |entry: Named<T>| !uses_user(contexts, context, entry.name)
}

/// The document without the contexts called `context`, without the clusters
/// and users that those contexts refer to, and without a current context if
/// that was `context`. What stays keeps its order.
pub open spec fn without_context(doc: KubeConfigView, context: Seq<char>) -> KubeConfigView {
    KubeConfigView {
        contexts: doc.contexts.filter(other_than(context)),
        current_context: if doc.current_context == Some(context) {
            None
        } else {
            doc.current_context
        },
        clusters: doc.clusters.filter(cluster_stays(doc.contexts, context)),
        users: doc.users.filter(user_stays(doc.contexts, context)),
        ..doc
    }
}

/// Whether `name` is on the list.
pub fn is_listed(listed: &Vec<String>, name: &String) -> (found: bool)
    ensures
        found == listed.deep_view().contains(name@),
{
    let ghost list = listed.deep_view();
    let mut i: usize = 0;
    while i < listed.len()
        invariant
            i <= listed.len(),
            list == listed.deep_view(),
            forall|j: int| 0 <= j < i ==> list[j] != name@,
        decreases listed.len() - i,
    {
        assert(list[i as int] == listed@[i as int]@);
        if listed[i] == *name {
            return true;
        }
        i += 1;
    }
    false
}

/// Keeps the entries whose name is not on the list.
pub fn drop_listed<E: NamedEntry>(entries: Vec<E>, listed: &Vec<String>) -> (kept: Vec<E>)
    ensures
        kept.deep_view() == entries.deep_view().filter(not_listed(listed.deep_view())),
{
    let ghost before = entries@;
    let ghost list = entries.deep_view();
    let ghost stays = not_listed::<E::Payload>(listed.deep_view());
    let mut kept: Vec<E> = Vec::new();
    assert(list.take(0).filter(stays) == Seq::<Named<E::Payload>>::empty()) by {
        reveal(Seq::filter);
    }
    for entry in it: entries.into_iter()
        invariant
            it.seq() == before,
            before == entries@,
            list == entries.deep_view(),
            stays == not_listed::<E::Payload>(listed.deep_view()),
            kept.deep_view() == list.take(it.index()).filter(stays),
    {
        proof {
            assert(list[it.index()] == entry.deep_view());
            assert(list.take(it.index() + 1) == list.take(it.index()).push(entry.deep_view()));
            list.take(it.index()).lemma_filter_push(entry.deep_view(), stays);
        }
        let ghost sofar = kept.deep_view();
        if !is_listed(listed, entry.entry_name()) {
            kept.push(entry);
            assert(kept.deep_view() == sofar.push(entry.deep_view()));
        }
    }
    assert(list.take(list.len() as int) == list);
    kept
}

/// Deletes every context called `context`, every cluster and user that such
/// a context refers to, and the current-context selection if it is `context`.
pub fn delete_context(kubeconfig: KubeConfig, context: String) -> (remaining: KubeConfig)
    ensures
        remaining.deep_view() == without_context(kubeconfig.deep_view(), context@),
{
    let ghost doc = kubeconfig.deep_view();
    let KubeConfig {
        api_version,
        kind,
        preferences,
        clusters,
        users,
        contexts,
        current_context,
        extensions,
    } = kubeconfig;
    let ghost before = contexts@;
    let ghost stays = other_than::<ContextView>(context@);
    let mut new_contexts: Vec<NamedContext> = Vec::new();
    let mut cluster_names: Vec<String> = Vec::new();
    let mut user_names: Vec<String> = Vec::new();
    assert(doc.contexts.take(0).filter(stays) == Seq::<Named<ContextView>>::empty()) by {
        reveal(Seq::filter);
    }
    for entry in it: contexts.into_iter()
        invariant
            it.seq() == before,
            before == contexts@,
            doc.contexts == contexts.deep_view(),
            stays == other_than::<ContextView>(context@),
            new_contexts.deep_view() == doc.contexts.take(it.index()).filter(stays),
            forall|n: Seq<char>|
                cluster_names.deep_view().contains(n) <==> uses_cluster(
                    doc.contexts.take(it.index()),
                    context@,
                    n,
                ),
            forall|n: Seq<char>|
                user_names.deep_view().contains(n) <==> uses_user(
                    doc.contexts.take(it.index()),
                    context@,
                    n,
                ),
    {
        let ghost seen = doc.contexts.take(it.index());
        let ghost next = doc.contexts.take(it.index() + 1);
        let ghost entry_view = entry.deep_view();
        let ghost old_clusters = cluster_names.deep_view();
        let ghost old_users = user_names.deep_view();
        let ghost sofar = new_contexts.deep_view();
        proof {
            assert(doc.contexts[it.index()] == entry_view);
            assert(next == seen.push(entry_view));
            seen.lemma_filter_push(entry_view, stays);
        }
        if entry.name == context {
            let NamedContext { name: _, context: removed } = entry;
            cluster_names.push(removed.cluster);
            user_names.push(removed.user);
            proof {
                assert(cluster_names.deep_view() == old_clusters.push(entry_view.value.cluster));
                assert(user_names.deep_view() == old_users.push(entry_view.value.user));
                lemma_uses_after_push(seen, entry_view, context@);
                assert forall|n: Seq<char>|
                    cluster_names.deep_view().contains(n) <==> uses_cluster(next, context@, n) by {
                    lemma_push_contains(old_clusters, entry_view.value.cluster, n);
                }
                assert forall|n: Seq<char>|
                    user_names.deep_view().contains(n) <==> uses_user(next, context@, n) by {
                    lemma_push_contains(old_users, entry_view.value.user, n);
                }
            }
        } else {
            new_contexts.push(entry);
            proof {
                assert(new_contexts.deep_view() == sofar.push(entry_view));
                lemma_uses_after_push(seen, entry_view, context@);
            }
        }
    }
    assert(doc.contexts.take(doc.contexts.len() as int) == doc.contexts);
    let current_context = match current_context {
        Some(current) => if current == context {
            None
        } else {
            Some(current)
        },
        None => None,
    };
    proof {
        assert(not_listed::<crate::model::ClusterView>(cluster_names.deep_view()) =~= cluster_stays(
            doc.contexts,
            context@,
        ));
        assert(not_listed::<crate::model::UserView>(user_names.deep_view()) =~= user_stays(
            doc.contexts,
            context@,
        ));
    }
    let clusters = drop_listed(clusters, &cluster_names);
    let users = drop_listed(users, &user_names);
    KubeConfig {
        api_version,
        kind,
        preferences,
        clusters,
        users,
        contexts: new_contexts,
        current_context,
        extensions,
    }
}

/// A pushed item is contained, and so is what was contained before.
proof fn lemma_push_contains(list: Seq<Seq<char>>, pushed: Seq<char>, n: Seq<char>)
    ensures
        list.push(pushed).contains(n) <==> list.contains(n) || n == pushed,
{
    let longer = list.push(pushed);
    if list.contains(n) {
        let i = choose|i: int| 0 <= i < list.len() && list[i] == n;
        assert(longer[i] == n);
    }
    if n == pushed {
        assert(longer[list.len() as int] == n);
    }
}

/// What one more context adds to the clusters and users in use.
proof fn lemma_uses_after_push(
    contexts: Seq<Named<ContextView>>,
    pushed: Named<ContextView>,
    context: Seq<char>,
)
    ensures
        forall|n: Seq<char>|
            uses_cluster(contexts.push(pushed), context, n) <==> uses_cluster(contexts, context, n) || (
            pushed.name == context && pushed.value.cluster == n),
        forall|n: Seq<char>|
            uses_user(contexts.push(pushed), context, n) <==> uses_user(contexts, context, n) || (
            pushed.name == context && pushed.value.user == n),
{
    let longer = contexts.push(pushed);
    assert forall|n: Seq<char>|
        uses_cluster(longer, context, n) <==> uses_cluster(contexts, context, n) || (pushed.name
            == context && pushed.value.cluster == n) by {
        if uses_cluster(contexts, context, n) {
            let i = choose|i: int|
                0 <= i < contexts.len() && (#[trigger] contexts[i]).name == context
                    && contexts[i].value.cluster == n;
            assert(longer[i] == contexts[i]);
        }
        if pushed.name == context && pushed.value.cluster == n {
            assert(longer[contexts.len() as int] == pushed);
        }
        if uses_cluster(longer, context, n) {
            let i = choose|i: int|
                0 <= i < longer.len() && (#[trigger] longer[i]).name == context
                    && longer[i].value.cluster == n;
            if i < contexts.len() {
                assert(contexts[i] == longer[i]);
            }
        }
    }
    assert forall|n: Seq<char>|
        uses_user(longer, context, n) <==> uses_user(contexts, context, n) || (pushed.name == context
            && pushed.value.user == n) by {
        if uses_user(contexts, context, n) {
            let i = choose|i: int|
                0 <= i < contexts.len() && (#[trigger] contexts[i]).name == context
                    && contexts[i].value.user == n;
            assert(longer[i] == contexts[i]);
        }
        if pushed.name == context && pushed.value.user == n {
            assert(longer[contexts.len() as int] == pushed);
        }
        if uses_user(longer, context, n) {
            let i = choose|i: int|
                0 <= i < longer.len() && (#[trigger] longer[i]).name == context
                    && longer[i].value.user == n;
            if i < contexts.len() {
                assert(contexts[i] == longer[i]);
            }
        }
    }
}

/// Whether deleting the context `context` takes the cluster or the user away
/// from a context that stays.
pub open spec fn deletion_strands(doc: KubeConfigView, context: Seq<char>) -> bool {
    exists|i: int|
        0 <= i < doc.contexts.len() && (#[trigger] doc.contexts[i]).name != context && (uses_cluster(
            doc.contexts,
            context,
            doc.contexts[i].value.cluster,
        ) || uses_user(doc.contexts, context, doc.contexts[i].value.user))
}

/// Tells whether deleting the context `context` takes the cluster or the
/// user away from a context that stays, which would then refer to nothing.
pub fn delete_strands_context(kubeconfig: &KubeConfig, context: &str) -> (strands: bool)
    ensures
        strands == deletion_strands(kubeconfig.deep_view(), context@),
{
    let ghost doc = kubeconfig.deep_view();
    let wanted = String::from_str(context);
    let mut cluster_names: Vec<String> = Vec::new();
    let mut user_names: Vec<String> = Vec::new();
    let mut i: usize = 0;
    while i < kubeconfig.contexts.len()
        invariant
            i <= kubeconfig.contexts.len(),
            doc == kubeconfig.deep_view(),
            wanted@ == context@,
            forall|n: Seq<char>|
                cluster_names.deep_view().contains(n) <==> uses_cluster(
                    doc.contexts.take(i as int),
                    context@,
                    n,
                ),
            forall|n: Seq<char>|
                user_names.deep_view().contains(n) <==> uses_user(
                    doc.contexts.take(i as int),
                    context@,
                    n,
                ),
        decreases kubeconfig.contexts.len() - i,
    {
        let entry = &kubeconfig.contexts[i];
        let ghost seen = doc.contexts.take(i as int);
        let ghost next = doc.contexts.take(i + 1);
        let ghost entry_view = entry.deep_view();
        let ghost old_clusters = cluster_names.deep_view();
        let ghost old_users = user_names.deep_view();
        proof {
            assert(doc.contexts[i as int] == entry_view);
            assert(next == seen.push(entry_view));
            lemma_uses_after_push(seen, entry_view, context@);
        }
        if entry.name == wanted {
            cluster_names.push(entry.context.cluster.clone());
            user_names.push(entry.context.user.clone());
            proof {
                assert(cluster_names.deep_view() == old_clusters.push(entry_view.value.cluster));
                assert(user_names.deep_view() == old_users.push(entry_view.value.user));
                assert forall|n: Seq<char>|
                    cluster_names.deep_view().contains(n) <==> uses_cluster(next, context@, n) by {
                    lemma_push_contains(old_clusters, entry_view.value.cluster, n);
                    assert(old_clusters.contains(n) <==> uses_cluster(seen, context@, n));
                }
                assert forall|n: Seq<char>|
                    user_names.deep_view().contains(n) <==> uses_user(next, context@, n) by {
                    lemma_push_contains(old_users, entry_view.value.user, n);
                    assert(old_users.contains(n) <==> uses_user(seen, context@, n));
                }
            }
        }
        i += 1;
    }
    assert(doc.contexts.take(i as int) == doc.contexts);
    let mut k: usize = 0;
    while k < kubeconfig.contexts.len()
        invariant
            k <= kubeconfig.contexts.len(),
            doc == kubeconfig.deep_view(),
            wanted@ == context@,
            forall|n: Seq<char>|
                cluster_names.deep_view().contains(n) <==> uses_cluster(doc.contexts, context@, n),
            forall|n: Seq<char>|
                user_names.deep_view().contains(n) <==> uses_user(doc.contexts, context@, n),
            forall|j: int|
                0 <= j < k ==> !((#[trigger] doc.contexts[j]).name != context@ && (uses_cluster(
                    doc.contexts,
                    context@,
                    doc.contexts[j].value.cluster,
                ) || uses_user(doc.contexts, context@, doc.contexts[j].value.user))),
        decreases kubeconfig.contexts.len() - k,
    {
        let entry = &kubeconfig.contexts[k];
        assert(doc.contexts[k as int] == entry.deep_view());
        if entry.name != wanted && (is_listed(&cluster_names, &entry.context.cluster) || is_listed(
            &user_names,
            &entry.context.user,
        )) {
            return true;
        }
        k += 1;
    }
    false
}

/// What a list filtered by a test on names still holds: the names that it
/// held and that pass the test.
pub proof fn lemma_filtered_names<T>(
    entries: Seq<Named<T>>,
    keep: spec_fn(Named<T>) -> bool,
    name: Seq<char>,
)
    ensures
        has_name(entries.filter(keep), name) <==> exists|i: int|
            0 <= i < entries.len() && (#[trigger] entries[i]).name == name && keep(entries[i]),
{
    let kept = entries.filter(keep);
    if has_name(kept, name) {
        let k = choose|k: int| 0 <= k < kept.len() && (#[trigger] kept[k]).name == name;
        entries.lemma_filter_pred(keep, k);
        assert(kept.contains(kept[k]));
        entries.lemma_filter_contains_rev(keep, kept[k]);
        let i = choose|i: int| 0 <= i < entries.len() && entries[i] == kept[k];
        assert(entries[i].name == name && keep(entries[i]));
    }
    if exists|i: int| 0 <= i < entries.len() && (#[trigger] entries[i]).name == name && keep(entries[i]) {
        let i = choose|i: int|
            0 <= i < entries.len() && (#[trigger] entries[i]).name == name && keep(entries[i]);
        entries.lemma_filter_contains(keep, i);
        let k = choose|k: int| 0 <= k < kept.len() && kept[k] == entries[i];
        assert(kept[k].name == name);
    }
}

/// What a deletion takes and what it leaves. No context is called `context`
/// afterwards, and every other context stays. The clusters and users that a
/// context called `context` referred to are gone, and every other one stays.
/// The current context is cleared if it was `context`.
pub proof fn lemma_delete_removes(doc: KubeConfigView, context: Seq<char>, name: Seq<char>)
    ensures
        ({
            let after = without_context(doc, context);
            &&& has_name(after.contexts, name) <==> name != context && has_name(doc.contexts, name)
            &&& has_name(after.clusters, name) <==> has_name(doc.clusters, name) && !uses_cluster(
                doc.contexts,
                context,
                name,
            )
            &&& has_name(after.users, name) <==> has_name(doc.users, name) && !uses_user(
                doc.contexts,
                context,
                name,
            )
            &&& after.current_context == if doc.current_context == Some(context) {
                None
            } else {
                doc.current_context
            }
            &&& after.api_version == doc.api_version
            &&& after.kind == doc.kind
            &&& after.preferences == doc.preferences
            &&& after.extensions == doc.extensions
        }),
{
    lemma_filtered_names(doc.contexts, other_than(context), name);
    lemma_filtered_names(doc.clusters, cluster_stays(doc.contexts, context), name);
    lemma_filtered_names(doc.users, user_stays(doc.contexts, context), name);
}

/// A deletion that strands no context breaks no reference.
pub proof fn lemma_delete_keeps_references(doc: KubeConfigView, context: Seq<char>)
    requires
        references_resolve(doc),
        !deletion_strands(doc, context),
    ensures
        references_resolve(without_context(doc, context)),
{
    let after = without_context(doc, context);
    if after.current_context is Some {
        lemma_delete_removes(doc, context, after.current_context->0);
    }
    assert forall|k: int| 0 <= k < after.contexts.len() implies has_name(
        after.clusters,
        (#[trigger] after.contexts[k]).value.cluster,
    ) && has_name(after.users, after.contexts[k].value.user) by {
        let stayed = after.contexts[k];
        doc.contexts.lemma_filter_pred(other_than(context), k);
        assert(after.contexts.contains(stayed));
        doc.contexts.lemma_filter_contains_rev(other_than(context), stayed);
        let i = choose|i: int| 0 <= i < doc.contexts.len() && doc.contexts[i] == stayed;
        assert(doc.contexts[i].name != context);
        assert(has_name(doc.clusters, doc.contexts[i].value.cluster));
        assert(has_name(doc.users, doc.contexts[i].value.user));
        lemma_delete_removes(doc, context, stayed.value.cluster);
        lemma_delete_removes(doc, context, stayed.value.user);
    }
}

/// A deletion that strands no context turns a document that meets every
/// rule into one that meets every rule.
pub proof fn lemma_delete_keeps_validity(doc: KubeConfigView, context: Seq<char>)
    requires
        is_valid(doc),
        !deletion_strands(doc, context),
    ensures
        is_valid(without_context(doc, context)),
{
    let after = without_context(doc, context);
    lemma_delete_keeps_references(doc, context);
    assert forall|k: int| 0 <= k < after.clusters.len() implies is_valid_cluster(
        (#[trigger] after.clusters[k]).value,
    ) by {
        let stayed = after.clusters[k];
        assert(after.clusters.contains(stayed));
        doc.clusters.lemma_filter_contains_rev(cluster_stays(doc.contexts, context), stayed);
        let i = choose|i: int| 0 <= i < doc.clusters.len() && doc.clusters[i] == stayed;
        assert(is_valid_cluster(doc.clusters[i].value));
    }
    assert forall|k: int| 0 <= k < after.users.len() implies is_valid_user(
        (#[trigger] after.users[k]).value,
    ) by {
        let stayed = after.users[k];
        assert(after.users.contains(stayed));
        doc.users.lemma_filter_contains_rev(user_stays(doc.contexts, context), stayed);
        let i = choose|i: int| 0 <= i < doc.users.len() && doc.users[i] == stayed;
        assert(is_valid_user(doc.users[i].value));
    }
}

} // verus!
