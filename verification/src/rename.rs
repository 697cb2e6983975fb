//! Renaming a context, a cluster or a user, and carrying the new name to
//! every place that refers to the old one.
//!
//! A context owns its own name only: renaming one also moves the document's
//! current-context selection. Clusters and users are referred to by
//! contexts: renaming one rewrites those references. A rename is refused
//! when the new name is no valid name, or when it is taken and the caller
//! did not force it; a refusal hands the document back untouched.

use crate::entries::{find_position, NamedEntry};
use crate::model::{
    has_name, has_unique_names, lemma_position, ContextView, KubeConfigView, Named,
};
use crate::schema::{Context, KubeConfig, NamedContext};
use crate::text::chars_of;
use crate::validate::{is_valid, is_valid_cluster, is_valid_user, references_resolve};
use regex::Regex;
use vstd::prelude::*;
use vstd::string::{StrSliceExecFns, StringExecFns};

verus! {

/// What a valid new name looks like: one to 253 characters, all of them
/// lower-case letters and digits, but for hyphens and dots between the first
/// and the last.
pub const NAME_PATTERN: &'static str = r"^[a-z0-9]([a-z0-9\-\.]{0,251}[a-z0-9])?$";

/// What `regex::Regex::new(pattern)` followed by `Regex::captures(text)`
/// finds: `None` where the pattern does not compile, else whether there is a
/// match.
pub uninterp spec fn regex_captures(pattern: Seq<char>, text: Seq<char>) -> Option<bool>;

/// Compiles `pattern` with `regex::Regex::new` and searches `text` with
/// `Regex::captures` of the compiled pattern. Both depend on their arguments
/// alone, and neither panics: a pattern that does not compile comes back as
/// an error, which is handed on as `None`. Nothing more is claimed of the
/// result than that it is what the regex crate computes.
#[verifier::external_body]
fn pattern_captures(pattern: &str, text: &str) -> (found: Option<bool>)
    ensures
        found == regex_captures(pattern@, text@),
{
    match Regex::new(pattern) {
        Ok(compiled) => Some(compiled.captures(text).is_some()),
        Err(_) => None,
    }
}

/// The three kinds of entry that can be renamed.
#[derive(Debug, Clone, Copy, PartialEq, Eq)]
pub enum EntityKind {
    Context,
    Cluster,
    User,
}

/// Why a rename was not carried out. Each reason lies in what the caller
/// asked for, never in the document.
#[derive(Debug, PartialEq)]
pub enum UsageError {
    /// The token is not of the form `previous::new` with exactly one `::`.
    MalformedToken { kind: EntityKind },
    /// The new name does not match [`NAME_PATTERN`].
    InvalidName { kind: EntityKind, name: String },
    /// An entry of that kind is already called by the new name, and the
    /// rename was not forced.
    NameTaken { kind: EntityKind, name: String },
}

pub enum UsageErrorView {
    MalformedToken { kind: EntityKind },
    InvalidName { kind: EntityKind, name: Seq<char> },
    NameTaken { kind: EntityKind, name: Seq<char> },
}

impl DeepView for UsageError {
    type V = UsageErrorView;

    open spec fn deep_view(&self) -> UsageErrorView {
        match self {
            UsageError::MalformedToken { kind } => UsageErrorView::MalformedToken { kind: *kind },
            UsageError::InvalidName { kind, name } => UsageErrorView::InvalidName {
                kind: *kind,
                name: name@,
            },
            UsageError::NameTaken { kind, name } => UsageErrorView::NameTaken {
                kind: *kind,
                name: name@,
            },
        }
    }
}

/// A refused rename: the reason, and the document as it was handed in.
#[derive(Debug, PartialEq)]
pub struct Refusal {
    pub reason: UsageError,
    pub document: KubeConfig,
}

/// Whether `::` stands at place `i` of the token.
pub open spec fn separator_at(token: Seq<char>, i: int) -> bool {
    0 <= i && i + 1 < token.len() && token[i] == ':' && token[i + 1] == ':'
}

/// Whether the `::` at place `i` is the first of the token, with none after it.
pub open spec fn is_only_separator(token: Seq<char>, i: int) -> bool {
    &&& separator_at(token, i)
    &&& forall|j: int| 0 <= j < i ==> !separator_at(token, j)
    &&& forall|j: int| i + 2 <= j ==> !separator_at(token, j)
}

/// The previous and the new name of a token `previous::new`. A token without
/// `::`, or with a second `::` behind the first, has none.
pub open spec fn split_token(token: Seq<char>) -> Option<(Seq<char>, Seq<char>)> {
    if exists|i: int| is_only_separator(token, i) {
        let i = choose|i: int| is_only_separator(token, i);
        Some((token.take(i), token.skip(i + 2)))
    } else {
        None
    }
}

/// Whether `name` may be given to an entry.
pub open spec fn is_valid_name(name: Seq<char>) -> bool {
    regex_captures(NAME_PATTERN@, name) == Some(true)
}

/// A list in which every entry called `previous` is called `new`.
pub open spec fn renamed_list<T>(entries: Seq<Named<T>>, previous: Seq<char>, new: Seq<char>) -> Seq<
    Named<T>,
> {
    entries.map_values(
        |e: Named<T>|
            if e.name == previous {
                Named { name: new, value: e.value }
            } else {
                e
            },
    )
}

/// The contexts, with every reference to the cluster `previous` turned to `new`.
pub open spec fn with_cluster_renamed(
    contexts: Seq<Named<ContextView>>,
    previous: Seq<char>,
    new: Seq<char>,
) -> Seq<Named<ContextView>> {
    contexts.map_values(
        |c: Named<ContextView>|
            if c.value.cluster == previous {
                Named { name: c.name, value: ContextView { cluster: new, ..c.value } }
            } else {
                c
            },
    )
}

/// The contexts, with every reference to the user `previous` turned to `new`.
pub open spec fn with_user_renamed(
    contexts: Seq<Named<ContextView>>,
    previous: Seq<char>,
    new: Seq<char>,
) -> Seq<Named<ContextView>> {
    contexts.map_values(
        |c: Named<ContextView>|
            if c.value.user == previous {
                Named { name: c.name, value: ContextView { user: new, ..c.value } }
            } else {
                c
            },
    )
}

/// The document after a rename of the given kind, references included.
pub open spec fn renamed(
    doc: KubeConfigView,
    kind: EntityKind,
    previous: Seq<char>,
    new: Seq<char>,
) -> KubeConfigView {
    match kind {
        EntityKind::Context => KubeConfigView {
            contexts: renamed_list(doc.contexts, previous, new),
            current_context: if doc.current_context == Some(previous) {
                Some(new)
            } else {
                doc.current_context
            },
            ..doc
        },
        EntityKind::Cluster => KubeConfigView {
            clusters: renamed_list(doc.clusters, previous, new),
            contexts: with_cluster_renamed(doc.contexts, previous, new),
            ..doc
        },
        EntityKind::User => KubeConfigView {
            users: renamed_list(doc.users, previous, new),
            contexts: with_user_renamed(doc.contexts, previous, new),
            ..doc
        },
    }
}

/// Whether an entry of the given kind is called `name`.
pub open spec fn kind_has_name(doc: KubeConfigView, kind: EntityKind, name: Seq<char>) -> bool {
    match kind {
        EntityKind::Context => has_name(doc.contexts, name),
        EntityKind::Cluster => has_name(doc.clusters, name),
        EntityKind::User => has_name(doc.users, name),
    }
}

/// Why a rename to `new` is refused, if it is. `name_matches` says whether
/// `new` matches the name pattern.
pub open spec fn rename_refusal(
    doc: KubeConfigView,
    kind: EntityKind,
    new: Seq<char>,
    force: bool,
    name_matches: bool,
) -> Option<UsageErrorView> {
    if !name_matches {
        Some(UsageErrorView::InvalidName { kind, name: new })
    } else if kind_has_name(doc, kind, new) && !force {
        Some(UsageErrorView::NameTaken { kind, name: new })
    } else {
        None
    }
}

/// What a rename comes to: the renamed document, or the reason of the refusal.
pub open spec fn rename_outcome(
    doc: KubeConfigView,
    kind: EntityKind,
    previous: Seq<char>,
    new: Seq<char>,
    force: bool,
    name_matches: bool,
) -> Result<KubeConfigView, UsageErrorView> {
    match rename_refusal(doc, kind, new, force, name_matches) {
        Some(reason) => Err(reason),
        None => Ok(renamed(doc, kind, previous, new)),
    }
}

/// What a rename asked for by an optional token `previous::new` comes to.
pub open spec fn rename_by_token(
    doc: KubeConfigView,
    kind: EntityKind,
    token: Option<Seq<char>>,
    force: bool,
) -> Result<KubeConfigView, UsageErrorView> {
    match token {
        None => Ok(doc),
        Some(token) => match split_token(token) {
            None => Err(UsageErrorView::MalformedToken { kind }),
            Some((previous, new)) => rename_outcome(
                doc,
                kind,
                previous,
                new,
                force,
                is_valid_name(new),
            ),
        },
    }
}

/// What the renames of a whole request come to. `all`, where given, stands in
/// for the three other tokens. The renames run one after the other, context
/// first, then cluster, then user, each on what the one before left; the
/// first refusal ends the run.
pub open spec fn rename_values(
    doc: KubeConfigView,
    context: Option<Seq<char>>,
    cluster: Option<Seq<char>>,
    user: Option<Seq<char>>,
    all: Option<Seq<char>>,
    force: bool,
) -> Result<KubeConfigView, UsageErrorView> {
    let context = if all is Some { all } else { context };
    let cluster = if all is Some { all } else { cluster };
    let user = if all is Some { all } else { user };
    match rename_by_token(doc, EntityKind::Context, context, force) {
        Err(reason) => Err(reason),
        Ok(first) => match rename_by_token(first, EntityKind::Cluster, cluster, force) {
            Err(reason) => Err(reason),
            Ok(second) => rename_by_token(second, EntityKind::User, user, force),
        },
    }
}

/// A token has at most one place that is its only separator.
proof fn lemma_only_separator_unique(token: Seq<char>, i: int, k: int)
    requires
        is_only_separator(token, i),
        is_only_separator(token, k),
    ensures
        i == k,
{
}

/// Splits a token `previous::new` at its only `::`.
pub fn split_rename_token(token: &str) -> (parts: Option<(String, String)>)
    ensures
        parts.deep_view() == split_token(token@),
{
    let chars = chars_of(token);
    let n = chars.len();
    if n < 2 {
        assert(forall|j: int| !is_only_separator(token@, j));
        return None;
    }
    let mut i: usize = 0;
    while i < n - 1 && !(chars[i] == ':' && chars[i + 1] == ':')
        invariant
            2 <= n == chars.len(),
            chars@ == token@,
            i <= n - 1,
            forall|j: int| 0 <= j < i ==> !separator_at(token@, j),
        decreases n - i,
    {
        i += 1;
    }
    if i == n - 1 {
        assert(forall|j: int| !is_only_separator(token@, j));
        return None;
    }
    let mut k: usize = i + 2;
    while k < n - 1
        invariant
            2 <= n == chars.len(),
            chars@ == token@,
            i + 2 <= k,
            separator_at(token@, i as int),
            forall|j: int| 0 <= j < i ==> !separator_at(token@, j),
            forall|j: int| i + 2 <= j < k ==> !separator_at(token@, j),
        decreases n - k,
    {
        if chars[k] == ':' && chars[k + 1] == ':' {
            assert(separator_at(token@, k as int));
            assert(forall|j: int| !is_only_separator(token@, j));
            return None;
        }
        k += 1;
    }
    proof {
        assert(is_only_separator(token@, i as int));
        let chosen = choose|j: int| is_only_separator(token@, j);
        lemma_only_separator_unique(token@, i as int, chosen);
    }
    let previous = String::from_str(token.substring_char(0, i));
    let new = String::from_str(token.substring_char(i + 2, n));
    Some((previous, new))
}

/// Whether `name` matches [`NAME_PATTERN`].
pub fn name_matches_pattern(name: &str) -> (matches: bool)
    ensures
        matches == is_valid_name(name@),
{
    match pattern_captures(NAME_PATTERN, name) {
        Some(found) => found,
        None => false,
    }
}

/// Gives the name `new` to every entry called `previous`.
pub fn rename_list<E: NamedEntry>(entries: Vec<E>, previous: &String, new: &String) -> (renamed: Vec<E>)
    ensures
        renamed.deep_view() == renamed_list(entries.deep_view(), previous@, new@),
{
    let ghost before = entries@;
    let ghost target = renamed_list(entries.deep_view(), previous@, new@);
    let mut renamed: Vec<E> = Vec::new();
    for entry in it: entries.into_iter()
        invariant
            it.seq() == before,
            before == entries@,
            target == renamed_list(entries.deep_view(), previous@, new@),
            renamed@.len() == it.index(),
            forall|j: int| 0 <= j < it.index() ==> (#[trigger] renamed@[j]).deep_view() == target[j],
    {
        assert(entries.deep_view()[it.index()] == before[it.index()].deep_view());
        if *entry.entry_name() == *previous {
            renamed.push(entry.renamed(new.clone()));
        } else {
            renamed.push(entry);
        }
    }
    assert(renamed.deep_view() =~= target);
    renamed
}

/// Turns every reference to the cluster `previous` into one to `new`.
pub fn rename_cluster_references(contexts: Vec<NamedContext>, previous: &String, new: &String) -> (renamed:
    Vec<NamedContext>)
    ensures
        renamed.deep_view() == with_cluster_renamed(contexts.deep_view(), previous@, new@),
{
    let ghost before = contexts@;
    let ghost target = with_cluster_renamed(contexts.deep_view(), previous@, new@);
    let mut renamed: Vec<NamedContext> = Vec::new();
    for entry in it: contexts.into_iter()
        invariant
            it.seq() == before,
            before == contexts@,
            target == with_cluster_renamed(contexts.deep_view(), previous@, new@),
            renamed@.len() == it.index(),
            forall|j: int| 0 <= j < it.index() ==> (#[trigger] renamed@[j]).deep_view() == target[j],
    {
        assert(contexts.deep_view()[it.index()] == before[it.index()].deep_view());
        if entry.context.cluster == *previous {
            let NamedContext { name, context } = entry;
            let Context { cluster: _, user, namespace, extensions } = context;
            renamed.push(
                NamedContext { name, context: Context { cluster: new.clone(), user, namespace, extensions } },
            );
        } else {
            renamed.push(entry);
        }
    }
    assert(renamed.deep_view() =~= target);
    renamed
}

/// Turns every reference to the user `previous` into one to `new`.
pub fn rename_user_references(contexts: Vec<NamedContext>, previous: &String, new: &String) -> (renamed:
    Vec<NamedContext>)
    ensures
        renamed.deep_view() == with_user_renamed(contexts.deep_view(), previous@, new@),
{
    let ghost before = contexts@;
    let ghost target = with_user_renamed(contexts.deep_view(), previous@, new@);
    let mut renamed: Vec<NamedContext> = Vec::new();
    for entry in it: contexts.into_iter()
        invariant
            it.seq() == before,
            before == contexts@,
            target == with_user_renamed(contexts.deep_view(), previous@, new@),
            renamed@.len() == it.index(),
            forall|j: int| 0 <= j < it.index() ==> (#[trigger] renamed@[j]).deep_view() == target[j],
    {
        assert(contexts.deep_view()[it.index()] == before[it.index()].deep_view());
        if entry.context.user == *previous {
            let NamedContext { name, context } = entry;
            let Context { cluster, user: _, namespace, extensions } = context;
            renamed.push(
                NamedContext { name, context: Context { cluster, user: new.clone(), namespace, extensions } },
            );
        } else {
            renamed.push(entry);
        }
    }
    assert(renamed.deep_view() =~= target);
    renamed
}

/// Renames without asking whether the new name is valid or free: every entry
/// of the kind that is called `previous` is called `new` afterwards, and so
/// is every reference to it.
pub fn apply_rename(kubeconfig: KubeConfig, kind: EntityKind, previous: &String, new: &String) -> (renamed_doc:
    KubeConfig)
    ensures
        renamed_doc.deep_view() == renamed(kubeconfig.deep_view(), kind, previous@, new@),
{
    let KubeConfig {
        api_version,
        kind: document_kind,
        preferences,
        clusters,
        users,
        contexts,
        current_context,
        extensions,
    } = kubeconfig;
    match kind {
        EntityKind::Context => {
            let contexts = rename_list(contexts, previous, new);
            let current_context = match current_context {
                Some(current) => if current == *previous {
                    Some(new.clone())
                } else {
                    Some(current)
                },
                None => None,
            };
            KubeConfig {
                api_version,
                kind: document_kind,
                preferences,
                clusters,
                users,
                contexts,
                current_context,
                extensions,
            }
        },
        EntityKind::Cluster => {
            let clusters = rename_list(clusters, previous, new);
            let contexts = rename_cluster_references(contexts, previous, new);
            KubeConfig {
                api_version,
                kind: document_kind,
                preferences,
                clusters,
                users,
                contexts,
                current_context,
                extensions,
            }
        },
        EntityKind::User => {
            let users = rename_list(users, previous, new);
            let contexts = rename_user_references(contexts, previous, new);
            KubeConfig {
                api_version,
                kind: document_kind,
                preferences,
                clusters,
                users,
                contexts,
                current_context,
                extensions,
            }
        },
    }
}

/// Whether an entry of the given kind is called `name`.
pub fn is_name_taken(kubeconfig: &KubeConfig, kind: EntityKind, name: &String) -> (taken: bool)
    ensures
        taken == kind_has_name(kubeconfig.deep_view(), kind, name@),
{
    let found = match kind {
        EntityKind::Context => find_position(&kubeconfig.contexts, name),
        EntityKind::Cluster => find_position(&kubeconfig.clusters, name),
        EntityKind::User => find_position(&kubeconfig.users, name),
    };
    proof {
        lemma_position(kubeconfig.contexts.deep_view(), name@);
        lemma_position(kubeconfig.clusters.deep_view(), name@);
        lemma_position(kubeconfig.users.deep_view(), name@);
    }
    found.is_some()
}

/// The entries that are called `name`.
pub open spec fn called<T>(name: Seq<char>) -> spec_fn(Named<T>) -> bool {
    |entry: Named<T>| entry.name == name
}

/// The contexts that refer to the cluster `name`.
pub open spec fn refers_to_cluster(name: Seq<char>) -> spec_fn(Named<ContextView>) -> bool {
    |context: Named<ContextView>| context.value.cluster == name
}

/// The contexts that refer to the user `name`.
pub open spec fn refers_to_user(name: Seq<char>) -> spec_fn(Named<ContextView>) -> bool {
    |context: Named<ContextView>| context.value.user == name
}

/// Counts the entries called `name`: those that a rename from `name` gives
/// a new name.
pub fn count_named<E: NamedEntry>(entries: &Vec<E>, name: &String) -> (count: usize)
    ensures
        count == entries.deep_view().filter(called(name@)).len(),
{
    let ghost list = entries.deep_view();
    let ghost wanted = called::<E::Payload>(name@);
    let mut count: usize = 0;
    assert(list.take(0).filter(wanted).len() == 0) by {
        reveal(Seq::filter);
    }
    let mut i: usize = 0;
    while i < entries.len()
        invariant
            i <= entries.len(),
            list == entries.deep_view(),
            wanted == called::<E::Payload>(name@),
            count <= i,
            count == list.take(i as int).filter(wanted).len(),
        decreases entries.len() - i,
    {
        proof {
            assert(list[i as int] == entries@[i as int].deep_view());
            assert(list.take(i + 1) == list.take(i as int).push(list[i as int]));
            list.take(i as int).lemma_filter_push(list[i as int], wanted);
        }
        if *entries[i].entry_name() == *name {
            count += 1;
        }
        i += 1;
    }
    assert(list.take(list.len() as int) == list);
    count
}

/// Counts the contexts that refer to the cluster `name`.
pub fn count_cluster_references(contexts: &Vec<NamedContext>, name: &String) -> (count: usize)
    ensures
        count == contexts.deep_view().filter(refers_to_cluster(name@)).len(),
{
    let ghost list = contexts.deep_view();
    let ghost wanted = refers_to_cluster(name@);
    let mut count: usize = 0;
    assert(list.take(0).filter(wanted).len() == 0) by {
        reveal(Seq::filter);
    }
    let mut i: usize = 0;
    while i < contexts.len()
        invariant
            i <= contexts.len(),
            list == contexts.deep_view(),
            wanted == refers_to_cluster(name@),
            count <= i,
            count == list.take(i as int).filter(wanted).len(),
        decreases contexts.len() - i,
    {
        proof {
            assert(list[i as int] == contexts@[i as int].deep_view());
            assert(list.take(i + 1) == list.take(i as int).push(list[i as int]));
            list.take(i as int).lemma_filter_push(list[i as int], wanted);
        }
        if contexts[i].context.cluster == *name {
            count += 1;
        }
        i += 1;
    }
    assert(list.take(list.len() as int) == list);
    count
}

/// Counts the contexts that refer to the user `name`.
pub fn count_user_references(contexts: &Vec<NamedContext>, name: &String) -> (count: usize)
    ensures
        count == contexts.deep_view().filter(refers_to_user(name@)).len(),
{
    let ghost list = contexts.deep_view();
    let ghost wanted = refers_to_user(name@);
    let mut count: usize = 0;
    assert(list.take(0).filter(wanted).len() == 0) by {
        reveal(Seq::filter);
    }
    let mut i: usize = 0;
    while i < contexts.len()
        invariant
            i <= contexts.len(),
            list == contexts.deep_view(),
            wanted == refers_to_user(name@),
            count <= i,
            count == list.take(i as int).filter(wanted).len(),
        decreases contexts.len() - i,
    {
        proof {
            assert(list[i as int] == contexts@[i as int].deep_view());
            assert(list.take(i + 1) == list.take(i as int).push(list[i as int]));
            list.take(i as int).lemma_filter_push(list[i as int], wanted);
        }
        if contexts[i].context.user == *name {
            count += 1;
        }
        i += 1;
    }
    assert(list.take(list.len() as int) == list);
    count
}

/// Decides whether a rename to `new` goes ahead, given in `name_matches`
/// whether `new` matches the name pattern.
pub fn check_rename(
    kubeconfig: &KubeConfig,
    kind: EntityKind,
    new: &String,
    force: bool,
    name_matches: bool,
) -> (verdict: Result<(), UsageError>)
    ensures
        match verdict {
            Ok(()) => rename_refusal(kubeconfig.deep_view(), kind, new@, force, name_matches) is None,
            Err(reason) => rename_refusal(kubeconfig.deep_view(), kind, new@, force, name_matches)
                == Some(reason.deep_view()),
        },
{
    if !name_matches {
        return Err(UsageError::InvalidName { kind, name: new.clone() });
    }
    if is_name_taken(kubeconfig, kind, new) && !force {
        return Err(UsageError::NameTaken { kind, name: new.clone() });
    }
    Ok(())
}

/// Renames, given in `name_matches` whether `new` matches the name pattern.
/// A refused rename hands the document back as it came.
pub fn rename_with_verdict(
    kubeconfig: KubeConfig,
    kind: EntityKind,
    previous: &str,
    new: &str,
    force: bool,
    name_matches: bool,
) -> (outcome: Result<KubeConfig, Refusal>)
    ensures
        match outcome {
            Ok(renamed_doc) => rename_outcome(
                kubeconfig.deep_view(),
                kind,
                previous@,
                new@,
                force,
                name_matches,
            ) == Ok::<KubeConfigView, UsageErrorView>(renamed_doc.deep_view()),
            Err(refusal) => refusal.document == kubeconfig && rename_outcome(
                kubeconfig.deep_view(),
                kind,
                previous@,
                new@,
                force,
                name_matches,
            ) == Err::<KubeConfigView, UsageErrorView>(refusal.reason.deep_view()),
        },
{
    let previous = String::from_str(previous);
    let new = String::from_str(new);
    match check_rename(&kubeconfig, kind, &new, force, name_matches) {
        Err(reason) => Err(Refusal { reason, document: kubeconfig }),
        Ok(()) => Ok(apply_rename(kubeconfig, kind, &previous, &new)),
    }
}

/// Renames every entry of the given kind that is called `previous` to `new`,
/// and every reference to it. The rename is refused where `new` is no valid
/// name, and where `new` is taken and `force` is not set; with `force` it
/// goes ahead and leaves two entries of one name.
pub fn rename(kubeconfig: KubeConfig, kind: EntityKind, previous: &str, new: &str, force: bool) -> (outcome:
    Result<KubeConfig, Refusal>)
    ensures
        match outcome {
            Ok(renamed_doc) => rename_outcome(
                kubeconfig.deep_view(),
                kind,
                previous@,
                new@,
                force,
                is_valid_name(new@),
            ) == Ok::<KubeConfigView, UsageErrorView>(renamed_doc.deep_view()),
            Err(refusal) => refusal.document == kubeconfig && rename_outcome(
                kubeconfig.deep_view(),
                kind,
                previous@,
                new@,
                force,
                is_valid_name(new@),
            ) == Err::<KubeConfigView, UsageErrorView>(refusal.reason.deep_view()),
        },
{
    let name_matches = name_matches_pattern(new);
    rename_with_verdict(kubeconfig, kind, previous, new, force, name_matches)
}

/// What one token of a request asks for, judged on the document as it
/// stands: nothing, a refusal, or the previous and the new name of a rename
/// that may go ahead.
pub open spec fn planned_rename(
    doc: KubeConfigView,
    kind: EntityKind,
    token: Option<Seq<char>>,
    force: bool,
) -> Result<Option<(Seq<char>, Seq<char>)>, UsageErrorView> {
    match token {
        None => Ok(None),
        Some(token) => match split_token(token) {
            None => Err(UsageErrorView::MalformedToken { kind }),
            Some((previous, new)) => match rename_refusal(doc, kind, new, force, is_valid_name(new)) {
                Some(reason) => Err(reason),
                None => Ok(Some((previous, new))),
            },
        },
    }
}

/// A rename by token is the planned rename, carried out.
pub proof fn lemma_rename_by_token_is_planned(
    doc: KubeConfigView,
    kind: EntityKind,
    token: Option<Seq<char>>,
    force: bool,
)
    ensures
        rename_by_token(doc, kind, token, force) == match planned_rename(doc, kind, token, force) {
            Err(reason) => Err::<KubeConfigView, UsageErrorView>(reason),
            Ok(None) => Ok(doc),
            Ok(Some((previous, new))) => Ok(renamed(doc, kind, previous, new)),
        },
{
}

/// Judges one token of a request on the document as it stands.
fn plan_rename(kubeconfig: &KubeConfig, kind: EntityKind, token: &Option<String>, force: bool) -> (plan:
    Result<Option<(String, String)>, UsageError>)
    ensures
        match plan {
            Ok(names) => planned_rename(kubeconfig.deep_view(), kind, token.deep_view(), force) == Ok::<
                Option<(Seq<char>, Seq<char>)>,
                UsageErrorView,
            >(names.deep_view()),
            Err(reason) => planned_rename(kubeconfig.deep_view(), kind, token.deep_view(), force) == Err::<
                Option<(Seq<char>, Seq<char>)>,
                UsageErrorView,
            >(reason.deep_view()),
        },
{
    match token {
        None => Ok(None),
        Some(token) => match split_rename_token(token.as_str()) {
            None => Err(UsageError::MalformedToken { kind }),
            Some((previous, new)) => {
                let name_matches = name_matches_pattern(new.as_str());
                match check_rename(kubeconfig, kind, &new, force, name_matches) {
                    Err(reason) => Err(reason),
                    Ok(()) => Ok(Some((previous, new))),
                }
            },
        },
    }
}

/// Carries out a planned rename.
fn carry_out(kubeconfig: KubeConfig, kind: EntityKind, plan: Option<(String, String)>) -> (renamed_doc:
    KubeConfig)
    ensures
        renamed_doc.deep_view() == match plan.deep_view() {
            None => kubeconfig.deep_view(),
            Some((previous, new)) => renamed(kubeconfig.deep_view(), kind, previous, new),
        },
{
    match plan {
        None => kubeconfig,
        Some((previous, new)) => apply_rename(kubeconfig, kind, &previous, &new),
    }
}

/// Carries out the renames of a request. Each of `context`, `cluster` and
/// `user` is an optional token `previous::new`; `all`, where given, stands in
/// for all three. The renames run in that order, each on what the one before
/// left. The request is refused as a whole at the first token that is
/// malformed, names an invalid new name, or names a taken one without
/// `force`: the document then comes back as it was handed in.
pub fn rename_kubeconfig_values(
    kubeconfig: KubeConfig,
    context: Option<String>,
    cluster: Option<String>,
    user: Option<String>,
    all: Option<String>,
    force: bool,
) -> (outcome: Result<KubeConfig, Refusal>)
    ensures
        match outcome {
            Ok(renamed_doc) => rename_values(
                kubeconfig.deep_view(),
                context.deep_view(),
                cluster.deep_view(),
                user.deep_view(),
                all.deep_view(),
                force,
            ) == Ok::<KubeConfigView, UsageErrorView>(renamed_doc.deep_view()),
            Err(refusal) => refusal.document == kubeconfig && rename_values(
                kubeconfig.deep_view(),
                context.deep_view(),
                cluster.deep_view(),
                user.deep_view(),
                all.deep_view(),
                force,
            ) == Err::<KubeConfigView, UsageErrorView>(refusal.reason.deep_view()),
        },
{
    let ghost doc = kubeconfig.deep_view();
    let (context, cluster, user) = match all {
        Some(token) => (Some(token.clone()), Some(token.clone()), Some(token)),
        None => (context, cluster, user),
    };
    // A rename touches the names of its own kind only, so all three tokens
    // can be judged before the first rename is carried out.
    let context_plan = match plan_rename(&kubeconfig, EntityKind::Context, &context, force) {
        Ok(plan) => plan,
        Err(reason) => {
            proof {
                lemma_rename_by_token_is_planned(doc, EntityKind::Context, context.deep_view(), force);
            }
            return Err(Refusal { reason, document: kubeconfig });
        },
    };
    let ghost first = match context_plan.deep_view() {
        None => doc,
        Some((previous, new)) => renamed(doc, EntityKind::Context, previous, new),
    };
    let cluster_plan = match plan_rename(&kubeconfig, EntityKind::Cluster, &cluster, force) {
        Ok(plan) => plan,
        Err(reason) => {
            proof {
                lemma_rename_by_token_is_planned(doc, EntityKind::Context, context.deep_view(), force);
                lemma_rename_by_token_is_planned(first, EntityKind::Cluster, cluster.deep_view(), force);
            }
            return Err(Refusal { reason, document: kubeconfig });
        },
    };
    let ghost second = match cluster_plan.deep_view() {
        None => first,
        Some((previous, new)) => renamed(first, EntityKind::Cluster, previous, new),
    };
    let user_plan = match plan_rename(&kubeconfig, EntityKind::User, &user, force) {
        Ok(plan) => plan,
        Err(reason) => {
            proof {
                lemma_rename_by_token_is_planned(doc, EntityKind::Context, context.deep_view(), force);
                lemma_rename_by_token_is_planned(first, EntityKind::Cluster, cluster.deep_view(), force);
                lemma_rename_by_token_is_planned(second, EntityKind::User, user.deep_view(), force);
            }
            return Err(Refusal { reason, document: kubeconfig });
        },
    };
    proof {
        lemma_rename_by_token_is_planned(doc, EntityKind::Context, context.deep_view(), force);
        lemma_rename_by_token_is_planned(first, EntityKind::Cluster, cluster.deep_view(), force);
        lemma_rename_by_token_is_planned(second, EntityKind::User, user.deep_view(), force);
    }
    let kubeconfig = carry_out(kubeconfig, EntityKind::Context, context_plan);
    let kubeconfig = carry_out(kubeconfig, EntityKind::Cluster, cluster_plan);
    let kubeconfig = carry_out(kubeconfig, EntityKind::User, user_plan);
    Ok(kubeconfig)
}

/// The names of a renamed list: `new` is held where `previous` was, and
/// `previous` is held no more unless it is `new`. Every other name is held
/// as before, and the list is as long as before.
pub proof fn lemma_renamed_names<T>(
    entries: Seq<Named<T>>,
    previous: Seq<char>,
    new: Seq<char>,
    name: Seq<char>,
)
    ensures
        renamed_list(entries, previous, new).len() == entries.len(),
        has_name(renamed_list(entries, previous, new), name) <==> (name != previous && has_name(
            entries,
            name,
        )) || (name == new && has_name(entries, previous)),
{
    let after = renamed_list(entries, previous, new);
    if has_name(after, name) {
        let i = choose|i: int| 0 <= i < after.len() && (#[trigger] after[i]).name == name;
        assert(entries[i].name == previous || entries[i].name == name);
    }
    if name != previous && has_name(entries, name) {
        let i = choose|i: int| 0 <= i < entries.len() && (#[trigger] entries[i]).name == name;
        assert(after[i].name == name);
    }
    if name == new && has_name(entries, previous) {
        let i = choose|i: int| 0 <= i < entries.len() && (#[trigger] entries[i]).name == previous;
        assert(after[i].name == new);
    }
}

/// Renaming a cluster carries to the contexts: each context keeps its name
/// and its place, refers to `new` where it referred to `previous`, and to
/// what it referred to before otherwise. The clusters hold `new` where they
/// held `previous`, and `previous` no more. The current context, the users
/// and everything else stay.
pub proof fn lemma_cluster_rename_cascades(doc: KubeConfigView, previous: Seq<char>, new: Seq<char>)
    ensures
        ({
            let after = renamed(doc, EntityKind::Cluster, previous, new);
            &&& after.current_context == doc.current_context
            &&& after.users == doc.users
            &&& after.contexts.len() == doc.contexts.len()
            &&& forall|i: int|
                0 <= i < doc.contexts.len() ==> (#[trigger] after.contexts[i]).name
                    == doc.contexts[i].name && after.contexts[i].value.user
                    == doc.contexts[i].value.user && after.contexts[i].value.cluster == if doc.contexts[i].value.cluster
                    == previous {
                    new
                } else {
                    doc.contexts[i].value.cluster
                }
            &&& has_name(doc.clusters, previous) ==> has_name(after.clusters, new)
            &&& previous != new ==> !has_name(after.clusters, previous)
        }),
{
    lemma_renamed_names(doc.clusters, previous, new, new);
    lemma_renamed_names(doc.clusters, previous, new, previous);
}

/// Renaming a user carries to the contexts in the same way.
pub proof fn lemma_user_rename_cascades(doc: KubeConfigView, previous: Seq<char>, new: Seq<char>)
    ensures
        ({
            let after = renamed(doc, EntityKind::User, previous, new);
            &&& after.current_context == doc.current_context
            &&& after.clusters == doc.clusters
            &&& after.contexts.len() == doc.contexts.len()
            &&& forall|i: int|
                0 <= i < doc.contexts.len() ==> (#[trigger] after.contexts[i]).name
                    == doc.contexts[i].name && after.contexts[i].value.cluster
                    == doc.contexts[i].value.cluster && after.contexts[i].value.user == if doc.contexts[i].value.user
                    == previous {
                    new
                } else {
                    doc.contexts[i].value.user
                }
            &&& has_name(doc.users, previous) ==> has_name(after.users, new)
            &&& previous != new ==> !has_name(after.users, previous)
        }),
{
    lemma_renamed_names(doc.users, previous, new, new);
    lemma_renamed_names(doc.users, previous, new, previous);
}

/// Renaming a context moves the current-context selection with it and
/// reaches neither the clusters nor the users, nor what a context refers to.
pub proof fn lemma_context_rename_cascades(doc: KubeConfigView, previous: Seq<char>, new: Seq<char>)
    ensures
        ({
            let after = renamed(doc, EntityKind::Context, previous, new);
            &&& after.current_context == if doc.current_context == Some(previous) {
                Some(new)
            } else {
                doc.current_context
            }
            &&& after.clusters == doc.clusters
            &&& after.users == doc.users
            &&& after.contexts.len() == doc.contexts.len()
            &&& forall|i: int|
                0 <= i < doc.contexts.len() ==> (#[trigger] after.contexts[i]).value
                    == doc.contexts[i].value
            &&& has_name(doc.contexts, previous) ==> has_name(after.contexts, new)
            &&& previous != new ==> !has_name(after.contexts, previous)
        }),
{
    lemma_renamed_names(doc.contexts, previous, new, new);
    lemma_renamed_names(doc.contexts, previous, new, previous);
}

/// A rename breaks no reference: where the current context and every
/// context's cluster and user were names that the document holds, they still
/// are.
pub proof fn lemma_rename_keeps_references(
    doc: KubeConfigView,
    kind: EntityKind,
    previous: Seq<char>,
    new: Seq<char>,
)
    requires
        references_resolve(doc),
    ensures
        references_resolve(renamed(doc, kind, previous, new)),
{
    let after = renamed(doc, kind, previous, new);
    match kind {
        EntityKind::Context => {
            if doc.current_context is Some {
                lemma_renamed_names(doc.contexts, previous, new, after.current_context->0);
            }
            assert forall|i: int| 0 <= i < after.contexts.len() implies has_name(
                after.clusters,
                (#[trigger] after.contexts[i]).value.cluster,
            ) && has_name(after.users, after.contexts[i].value.user) by {
                assert(after.contexts[i].value == doc.contexts[i].value);
            }
        },
        EntityKind::Cluster => {
            assert forall|i: int| 0 <= i < after.contexts.len() implies has_name(
                after.clusters,
                (#[trigger] after.contexts[i]).value.cluster,
            ) && has_name(after.users, after.contexts[i].value.user) by {
                let before = doc.contexts[i];
                assert(has_name(doc.clusters, before.value.cluster));
                assert(has_name(doc.users, before.value.user));
                lemma_renamed_names(doc.clusters, previous, new, after.contexts[i].value.cluster);
            }
            if doc.current_context is Some {
                let current = doc.current_context->0;
                let k = choose|k: int|
                    0 <= k < doc.contexts.len() && (#[trigger] doc.contexts[k]).name == current;
                assert(after.contexts[k].name == current);
            }
        },
        EntityKind::User => {
            assert forall|i: int| 0 <= i < after.contexts.len() implies has_name(
                after.clusters,
                (#[trigger] after.contexts[i]).value.cluster,
            ) && has_name(after.users, after.contexts[i].value.user) by {
                let before = doc.contexts[i];
                assert(has_name(doc.clusters, before.value.cluster));
                assert(has_name(doc.users, before.value.user));
                lemma_renamed_names(doc.users, previous, new, after.contexts[i].value.user);
            }
            if doc.current_context is Some {
                let current = doc.current_context->0;
                let k = choose|k: int|
                    0 <= k < doc.contexts.len() && (#[trigger] doc.contexts[k]).name == current;
                assert(after.contexts[k].name == current);
            }
        },
    }
}

/// A rename of a document that meets every rule gives a document that meets
/// every rule.
pub proof fn lemma_rename_keeps_validity(
    doc: KubeConfigView,
    kind: EntityKind,
    previous: Seq<char>,
    new: Seq<char>,
)
    requires
        is_valid(doc),
    ensures
        is_valid(renamed(doc, kind, previous, new)),
{
    let after = renamed(doc, kind, previous, new);
    lemma_rename_keeps_references(doc, kind, previous, new);
    assert forall|i: int| 0 <= i < after.clusters.len() implies is_valid_cluster(
        (#[trigger] after.clusters[i]).value,
    ) by {
        assert(after.clusters[i].value == doc.clusters[i].value);
    }
    assert forall|i: int| 0 <= i < after.users.len() implies is_valid_user(
        (#[trigger] after.users[i]).value,
    ) by {
        assert(after.users[i].value == doc.users[i].value);
    }
}

/// A rename to a name that an entry of the kind already has is refused
/// unless it is forced.
pub proof fn lemma_taken_name_is_refused(
    doc: KubeConfigView,
    kind: EntityKind,
    previous: Seq<char>,
    new: Seq<char>,
    name_matches: bool,
)
    requires
        kind_has_name(doc, kind, new),
    ensures
        rename_outcome(doc, kind, previous, new, false, name_matches) is Err,
        name_matches ==> rename_outcome(doc, kind, previous, new, false, name_matches) == Err::<
            KubeConfigView,
            UsageErrorView,
        >(UsageErrorView::NameTaken { kind, name: new }),
{
}

/// A forced rename to a valid name goes ahead. Where both names were held,
/// and they differ, it leaves two entries of one name.
pub proof fn lemma_forced_rename_leaves_duplicates(
    doc: KubeConfigView,
    kind: EntityKind,
    previous: Seq<char>,
    new: Seq<char>,
)
    requires
        kind_has_name(doc, kind, previous),
        kind_has_name(doc, kind, new),
        previous != new,
    ensures
        rename_outcome(doc, kind, previous, new, true, true) == Ok::<KubeConfigView, UsageErrorView>(
            renamed(doc, kind, previous, new),
        ),
        match kind {
            EntityKind::Context => !has_unique_names(renamed(doc, kind, previous, new).contexts),
            EntityKind::Cluster => !has_unique_names(renamed(doc, kind, previous, new).clusters),
            EntityKind::User => !has_unique_names(renamed(doc, kind, previous, new).users),
        },
{
    match kind {
        EntityKind::Context => lemma_renamed_list_collides(doc.contexts, previous, new),
        EntityKind::Cluster => lemma_renamed_list_collides(doc.clusters, previous, new),
        EntityKind::User => lemma_renamed_list_collides(doc.users, previous, new),
    }
}

/// Renaming an entry to the name of another leaves two entries of one name.
pub proof fn lemma_renamed_list_collides<T>(entries: Seq<Named<T>>, previous: Seq<char>, new: Seq<char>)
    requires
        has_name(entries, previous),
        has_name(entries, new),
        previous != new,
    ensures
        !has_unique_names(renamed_list(entries, previous, new)),
{
    let after = renamed_list(entries, previous, new);
    let i = choose|i: int| 0 <= i < entries.len() && (#[trigger] entries[i]).name == previous;
    let j = choose|j: int| 0 <= j < entries.len() && (#[trigger] entries[j]).name == new;
    assert(after[i].name == new);
    assert(after[j].name == new);
    if i < j {
        assert(after[i].name == after[j].name);
    } else {
        assert(after[j].name == after[i].name);
    }
}

} // verus!
