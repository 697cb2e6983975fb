use kubeconf::rename::{
    apply_rename, check_rename, count_cluster_references, count_named, count_user_references,
    is_name_taken, name_matches_pattern, rename_list, rename_with_verdict, split_rename_token,
    NAME_PATTERN,
};
use kubeconf::{
    rename, rename_kubeconfig_values, Cluster, Context, EntityKind, KubeConfig, NamedCluster,
    NamedContext, NamedUser, Refusal, UsageError, User,
};

fn rename_cluster(name: &str, server: &str) -> NamedCluster {
    NamedCluster {
        name: name.to_string(),
        cluster: Cluster {
            server: server.to_string(),
            tls_server_name: None,
            insecure_skip_tls_verify: None,
            certificate_authority: None,
            certificate_authority_data: None,
            proxy_url: None,
            disable_compression: None,
            extensions: vec![],
        },
    }
}

fn rename_user(name: &str) -> NamedUser {
    NamedUser { name: name.to_string(), user: User::default() }
}

fn rename_context(name: &str, cluster: &str, user: &str) -> NamedContext {
    NamedContext {
        name: name.to_string(),
        context: Context {
            cluster: cluster.to_string(),
            user: user.to_string(),
            namespace: Some("team".to_string()),
            extensions: vec![],
        },
    }
}

fn rename_document() -> KubeConfig {
    KubeConfig {
        api_version: "v1".to_string(),
        kind: "Config".to_string(),
        preferences: None,
        clusters: vec![
            rename_cluster("old", "https://old.example"),
            rename_cluster("other", "https://other.example"),
        ],
        users: vec![rename_user("u1"), rename_user("u2")],
        contexts: vec![
            rename_context("ctx1", "old", "u1"),
            rename_context("ctx2", "other", "u2"),
            rename_context("ctx3", "old", "u2"),
        ],
        current_context: Some("ctx1".to_string()),
        extensions: vec![],
    }
}

fn rename_ok(outcome: Result<KubeConfig, Refusal>) -> KubeConfig {
    match outcome {
        Ok(document) => document,
        Err(refusal) => panic!("the rename was refused: {:?}", refusal.reason),
    }
}

fn rename_refused(outcome: Result<KubeConfig, Refusal>) -> Refusal {
    match outcome {
        Ok(document) => panic!("the rename went ahead: {:?}", document),
        Err(refusal) => refusal,
    }
}

fn rename_token(text: &str) -> Option<String> {
    Some(text.to_string())
}

#[test]
fn a_token_is_split_at_its_separator() {
    assert_eq!(split_rename_token("old::new"), Some(("old".to_string(), "new".to_string())));
    assert_eq!(split_rename_token("::new"), Some(("".to_string(), "new".to_string())));
    assert_eq!(split_rename_token("old::"), Some(("old".to_string(), "".to_string())));
    assert_eq!(split_rename_token("::"), Some(("".to_string(), "".to_string())));
    assert_eq!(split_rename_token("a:b::c:d"), Some(("a:b".to_string(), "c:d".to_string())));
}

#[test]
fn a_token_without_exactly_one_separator_is_not_split() {
    assert_eq!(split_rename_token(""), None);
    assert_eq!(split_rename_token(":"), None);
    assert_eq!(split_rename_token("oldnew"), None);
    assert_eq!(split_rename_token("old:new"), None);
    assert_eq!(split_rename_token("a::b::c"), None);
    assert_eq!(split_rename_token("a::::b"), None);
    assert_eq!(split_rename_token("::::"), None);
}

#[test]
fn a_third_colon_belongs_to_the_new_name() {
    assert_eq!(split_rename_token("a:::b"), Some(("a".to_string(), ":b".to_string())));
    assert_eq!(split_rename_token(":::"), Some(("".to_string(), ":".to_string())));
    assert_eq!(split_rename_token("a::b:"), Some(("a".to_string(), "b:".to_string())));
}

#[test]
fn a_token_is_split_by_characters_not_bytes() {
    assert_eq!(
        split_rename_token("\u{e9}t\u{e9}::\u{4e16}\u{754c}"),
        Some(("\u{e9}t\u{e9}".to_string(), "\u{4e16}\u{754c}".to_string()))
    );
}

#[test]
fn valid_names_match_the_pattern() {
    assert!(name_matches_pattern("new"));
    assert!(name_matches_pattern("a"));
    assert!(name_matches_pattern("7"));
    assert!(name_matches_pattern("ab"));
    assert!(name_matches_pattern("a1"));
    assert!(name_matches_pattern("0z"));
    assert!(name_matches_pattern("prod.eu-west-1.example"));
    assert!(name_matches_pattern("a--b"));
    assert!(name_matches_pattern("a..b"));
    assert!(name_matches_pattern(&"a".repeat(253)));
}

#[test]
fn invalid_names_do_not_match_the_pattern() {
    assert!(!name_matches_pattern(""));
    assert!(!name_matches_pattern("-"));
    assert!(!name_matches_pattern("."));
    assert!(!name_matches_pattern("A"));
    assert!(!name_matches_pattern("a-"));
    assert!(!name_matches_pattern(".a"));
    assert!(!name_matches_pattern("a\n"));
    assert!(!name_matches_pattern("New"));
    assert!(!name_matches_pattern("a_b"));
    assert!(!name_matches_pattern("-ab"));
    assert!(!name_matches_pattern("ab-"));
    assert!(!name_matches_pattern(".ab"));
    assert!(!name_matches_pattern("ab."));
    assert!(!name_matches_pattern("a b"));
    assert!(!name_matches_pattern("ab\n"));
    assert!(!name_matches_pattern("\u{e9}t\u{e9}"));
    assert!(!name_matches_pattern(&"a".repeat(254)));
}

#[test]
fn the_name_pattern_is_the_dns_subdomain_pattern() {
    assert_eq!(NAME_PATTERN, "^[a-z0-9]([a-z0-9\\-\\.]{0,251}[a-z0-9])?$");
}

#[test]
fn renaming_a_cluster_reaches_the_contexts_that_refer_to_it() {
    let renamed = rename_ok(rename(rename_document(), EntityKind::Cluster, "old", "new", false));
    assert_eq!(
        renamed.clusters,
        vec![
            rename_cluster("new", "https://old.example"),
            rename_cluster("other", "https://other.example"),
        ]
    );
    assert_eq!(
        renamed.contexts,
        vec![
            rename_context("ctx1", "new", "u1"),
            rename_context("ctx2", "other", "u2"),
            rename_context("ctx3", "new", "u2"),
        ]
    );
    assert_eq!(renamed.current_context, Some("ctx1".to_string()));
    assert_eq!(renamed.users, rename_document().users);
    assert!(renamed.get_cluster("old").is_none());
    assert!(renamed.get_cluster("new").is_some());
}

#[test]
fn renaming_a_user_reaches_the_contexts_that_refer_to_it() {
    let renamed = rename_ok(rename(rename_document(), EntityKind::User, "u2", "admin", false));
    assert_eq!(renamed.users, vec![rename_user("u1"), rename_user("admin")]);
    assert_eq!(
        renamed.contexts,
        vec![
            rename_context("ctx1", "old", "u1"),
            rename_context("ctx2", "other", "admin"),
            rename_context("ctx3", "old", "admin"),
        ]
    );
    assert_eq!(renamed.clusters, rename_document().clusters);
    assert_eq!(renamed.current_context, Some("ctx1".to_string()));
}

#[test]
fn renaming_a_context_moves_the_current_context() {
    let renamed = rename_ok(rename(rename_document(), EntityKind::Context, "ctx1", "main", false));
    assert_eq!(
        renamed.contexts,
        vec![
            rename_context("main", "old", "u1"),
            rename_context("ctx2", "other", "u2"),
            rename_context("ctx3", "old", "u2"),
        ]
    );
    assert_eq!(renamed.current_context, Some("main".to_string()));
    assert_eq!(renamed.clusters, rename_document().clusters);
    assert_eq!(renamed.users, rename_document().users);
}

#[test]
fn renaming_another_context_leaves_the_current_context() {
    let renamed = rename_ok(rename(rename_document(), EntityKind::Context, "ctx2", "side", false));
    assert_eq!(renamed.current_context, Some("ctx1".to_string()));
    assert_eq!(renamed.contexts[1], rename_context("side", "other", "u2"));
}

#[test]
fn renaming_a_context_does_not_reach_clusters_or_users_of_its_name() {
    let mut document = rename_document();
    document.clusters.push(rename_cluster("ctx1", "https://same.example"));
    document.users.push(rename_user("ctx1"));
    let renamed = rename_ok(rename(document, EntityKind::Context, "ctx1", "main", false));
    assert_eq!(renamed.clusters[2].name, "ctx1");
    assert_eq!(renamed.users[2].name, "ctx1");
}

#[test]
fn renaming_a_name_that_is_not_held_changes_nothing() {
    let renamed = rename_ok(rename(rename_document(), EntityKind::Cluster, "absent", "new", false));
    assert_eq!(renamed, rename_document());
    let mut document = rename_document();
    document.current_context = None;
    let renamed = rename_ok(rename(document, EntityKind::Context, "absent", "new", false));
    assert_eq!(renamed.current_context, None);
}

#[test]
fn a_reference_is_renamed_even_where_no_entry_is() {
    let mut document = rename_document();
    document.contexts.push(rename_context("ctx4", "dangling", "u1"));
    let renamed = rename_ok(rename(document, EntityKind::Cluster, "dangling", "fixed", false));
    assert_eq!(renamed.contexts[3], rename_context("ctx4", "fixed", "u1"));
    assert_eq!(renamed.clusters, rename_document().clusters);
}

#[test]
fn a_rename_to_a_taken_name_is_refused_and_hands_the_document_back() {
    let refusal = rename_refused(rename(rename_document(), EntityKind::Cluster, "old", "other", false));
    assert_eq!(
        refusal.reason,
        UsageError::NameTaken { kind: EntityKind::Cluster, name: "other".to_string() }
    );
    assert_eq!(refusal.document, rename_document());
    let refusal = rename_refused(rename(rename_document(), EntityKind::Context, "ctx1", "ctx2", false));
    assert_eq!(
        refusal.reason,
        UsageError::NameTaken { kind: EntityKind::Context, name: "ctx2".to_string() }
    );
    let refusal = rename_refused(rename(rename_document(), EntityKind::User, "u1", "u2", false));
    assert_eq!(
        refusal.reason,
        UsageError::NameTaken { kind: EntityKind::User, name: "u2".to_string() }
    );
}

#[test]
fn a_name_is_taken_only_within_its_kind() {
    let renamed = rename_ok(rename(rename_document(), EntityKind::Cluster, "old", "u2", false));
    assert_eq!(renamed.clusters[0].name, "u2");
    assert!(is_name_taken(&rename_document(), EntityKind::User, &"u2".to_string()));
    assert!(!is_name_taken(&rename_document(), EntityKind::Cluster, &"u2".to_string()));
    assert!(!is_name_taken(&rename_document(), EntityKind::Context, &"u2".to_string()));
    assert!(is_name_taken(&rename_document(), EntityKind::Context, &"ctx3".to_string()));
}

#[test]
fn a_forced_rename_to_a_taken_name_leaves_two_entries_of_one_name() {
    let renamed = rename_ok(rename(rename_document(), EntityKind::Cluster, "old", "other", true));
    assert_eq!(
        renamed.clusters,
        vec![
            rename_cluster("other", "https://old.example"),
            rename_cluster("other", "https://other.example"),
        ]
    );
    assert_eq!(
        renamed.contexts,
        vec![
            rename_context("ctx1", "other", "u1"),
            rename_context("ctx2", "other", "u2"),
            rename_context("ctx3", "other", "u2"),
        ]
    );
}

#[test]
fn a_rename_to_an_invalid_name_is_refused_forced_or_not() {
    let refusal = rename_refused(rename(rename_document(), EntityKind::Cluster, "old", "New", false));
    assert_eq!(
        refusal.reason,
        UsageError::InvalidName { kind: EntityKind::Cluster, name: "New".to_string() }
    );
    assert_eq!(refusal.document, rename_document());
    let refusal = rename_refused(rename(rename_document(), EntityKind::User, "u1", "x-", true));
    assert_eq!(
        refusal.reason,
        UsageError::InvalidName { kind: EntityKind::User, name: "x-".to_string() }
    );
}

#[test]
fn an_invalid_name_is_reported_before_a_taken_one() {
    let mut document = rename_document();
    document.clusters.push(rename_cluster("Bad", "https://bad.example"));
    let refusal = rename_refused(rename(document, EntityKind::Cluster, "old", "Bad", false));
    assert_eq!(
        refusal.reason,
        UsageError::InvalidName { kind: EntityKind::Cluster, name: "Bad".to_string() }
    );
}

#[test]
fn the_previous_name_need_not_be_valid() {
    let mut document = rename_document();
    document.clusters[0].name = "Old Name".to_string();
    document.contexts[0].context.cluster = "Old Name".to_string();
    let renamed = rename_ok(rename(document, EntityKind::Cluster, "Old Name", "new", false));
    assert_eq!(renamed.clusters[0].name, "new");
    assert_eq!(renamed.contexts[0].context.cluster, "new");
}

#[test]
fn a_rename_goes_by_the_verdict_it_is_handed() {
    let refusal = rename_refused(rename_with_verdict(
        rename_document(),
        EntityKind::Cluster,
        "old",
        "new",
        false,
        false,
    ));
    assert_eq!(
        refusal.reason,
        UsageError::InvalidName { kind: EntityKind::Cluster, name: "new".to_string() }
    );
    let renamed = rename_ok(rename_with_verdict(
        rename_document(),
        EntityKind::Cluster,
        "old",
        "Not Checked",
        false,
        true,
    ));
    assert_eq!(renamed.clusters[0].name, "Not Checked");
}

#[test]
fn a_check_says_whether_a_rename_goes_ahead() {
    let document = rename_document();
    let new = "other".to_string();
    assert_eq!(check_rename(&document, EntityKind::Cluster, &new, true, true), Ok(()));
    assert_eq!(
        check_rename(&document, EntityKind::Cluster, &new, false, true),
        Err(UsageError::NameTaken { kind: EntityKind::Cluster, name: "other".to_string() })
    );
    assert_eq!(
        check_rename(&document, EntityKind::Cluster, &new, true, false),
        Err(UsageError::InvalidName { kind: EntityKind::Cluster, name: "other".to_string() })
    );
    assert_eq!(check_rename(&document, EntityKind::User, &new, false, true), Ok(()));
}

#[test]
fn an_unchecked_rename_takes_any_name() {
    let renamed = apply_rename(
        rename_document(),
        EntityKind::User,
        &"u1".to_string(),
        &"Any Name".to_string(),
    );
    assert_eq!(renamed.users[0].name, "Any Name");
    assert_eq!(renamed.contexts[0].context.user, "Any Name");
}

#[test]
fn every_entry_of_the_previous_name_is_renamed() {
    let entries = vec![
        rename_cluster("a", "https://one.example"),
        rename_cluster("b", "https://two.example"),
        rename_cluster("a", "https://three.example"),
    ];
    assert_eq!(
        rename_list(entries, &"a".to_string(), &"z".to_string()),
        vec![
            rename_cluster("z", "https://one.example"),
            rename_cluster("b", "https://two.example"),
            rename_cluster("z", "https://three.example"),
        ]
    );
}

#[test]
fn a_request_without_tokens_changes_nothing() {
    let renamed = rename_ok(rename_kubeconfig_values(rename_document(), None, None, None, None, false));
    assert_eq!(renamed, rename_document());
}

#[test]
fn a_request_renames_each_kind_that_it_names() {
    let renamed = rename_ok(rename_kubeconfig_values(
        rename_document(),
        rename_token("ctx1::main"),
        rename_token("old::new"),
        rename_token("u1::admin"),
        None,
        false,
    ));
    assert_eq!(
        renamed.contexts,
        vec![
            rename_context("main", "new", "admin"),
            rename_context("ctx2", "other", "u2"),
            rename_context("ctx3", "new", "u2"),
        ]
    );
    assert_eq!(renamed.clusters[0].name, "new");
    assert_eq!(renamed.users[0].name, "admin");
    assert_eq!(renamed.current_context, Some("main".to_string()));
}

#[test]
fn a_request_for_all_kinds_overrides_the_single_tokens() {
    let mut document = rename_document();
    document.clusters.push(rename_cluster("same", "https://same.example"));
    document.users.push(rename_user("same"));
    document.contexts.push(rename_context("same", "same", "same"));
    document.current_context = Some("same".to_string());
    let renamed = rename_ok(rename_kubeconfig_values(
        document,
        rename_token("ctx1::ignored"),
        rename_token("malformed"),
        rename_token("u1::Ignored"),
        rename_token("same::fresh"),
        false,
    ));
    assert_eq!(renamed.contexts[3], rename_context("fresh", "fresh", "fresh"));
    assert_eq!(renamed.clusters[2].name, "fresh");
    assert_eq!(renamed.users[2].name, "fresh");
    assert_eq!(renamed.current_context, Some("fresh".to_string()));
    assert_eq!(renamed.contexts[0], rename_context("ctx1", "old", "u1"));
    assert_eq!(renamed.users[0].name, "u1");
}

#[test]
fn a_malformed_token_refuses_the_request() {
    let refusal = rename_refused(rename_kubeconfig_values(
        rename_document(),
        rename_token("ctx1"),
        None,
        None,
        None,
        false,
    ));
    assert_eq!(refusal.reason, UsageError::MalformedToken { kind: EntityKind::Context });
    assert_eq!(refusal.document, rename_document());
    let refusal = rename_refused(rename_kubeconfig_values(
        rename_document(),
        None,
        rename_token("a::b::c"),
        None,
        None,
        true,
    ));
    assert_eq!(refusal.reason, UsageError::MalformedToken { kind: EntityKind::Cluster });
    let refusal = rename_refused(rename_kubeconfig_values(
        rename_document(),
        None,
        None,
        None,
        rename_token("nothing"),
        true,
    ));
    assert_eq!(refusal.reason, UsageError::MalformedToken { kind: EntityKind::Context });
}

#[test]
fn a_request_refused_at_a_later_kind_hands_the_document_back_untouched() {
    let refusal = rename_refused(rename_kubeconfig_values(
        rename_document(),
        rename_token("ctx1::main"),
        rename_token("old::other"),
        rename_token("u1::admin"),
        None,
        false,
    ));
    assert_eq!(
        refusal.reason,
        UsageError::NameTaken { kind: EntityKind::Cluster, name: "other".to_string() }
    );
    assert_eq!(refusal.document, rename_document());
    let refusal = rename_refused(rename_kubeconfig_values(
        rename_document(),
        rename_token("ctx1::main"),
        rename_token("old::new"),
        rename_token("u1::Admin"),
        None,
        true,
    ));
    assert_eq!(
        refusal.reason,
        UsageError::InvalidName { kind: EntityKind::User, name: "Admin".to_string() }
    );
    assert_eq!(refusal.document, rename_document());
}

#[test]
fn the_first_refusal_of_a_request_is_the_one_reported() {
    let refusal = rename_refused(rename_kubeconfig_values(
        rename_document(),
        rename_token("ctx1::ctx2"),
        rename_token("broken"),
        rename_token("u1::u2"),
        None,
        false,
    ));
    assert_eq!(
        refusal.reason,
        UsageError::NameTaken { kind: EntityKind::Context, name: "ctx2".to_string() }
    );
}

#[test]
fn a_forced_request_goes_ahead_on_taken_names() {
    let renamed = rename_ok(rename_kubeconfig_values(
        rename_document(),
        rename_token("ctx1::ctx2"),
        None,
        rename_token("u1::u2"),
        None,
        true,
    ));
    assert_eq!(renamed.contexts[0], rename_context("ctx2", "old", "u2"));
    assert_eq!(renamed.contexts[1], rename_context("ctx2", "other", "u2"));
    assert_eq!(renamed.users, vec![rename_user("u2"), rename_user("u2")]);
    assert_eq!(renamed.current_context, Some("ctx2".to_string()));
}

#[test]
fn a_rename_of_a_valid_document_is_valid() {
    assert!(rename_document().validate().is_ok());
    let renamed = rename_ok(rename_kubeconfig_values(
        rename_document(),
        rename_token("ctx1::main"),
        rename_token("old::new"),
        rename_token("u2::admin"),
        None,
        false,
    ));
    assert!(renamed.validate().is_ok());
}

#[test]
fn a_name_of_one_character_is_valid() {
    let renamed = rename_ok(rename(rename_document(), EntityKind::Cluster, "old", "n", false));
    assert_eq!(renamed.clusters[0].name, "n");
    assert_eq!(renamed.contexts[0].context.cluster, "n");
    assert_eq!(renamed.contexts[2].context.cluster, "n");
    let renamed = rename_ok(rename_kubeconfig_values(
        rename_document(),
        rename_token("ctx1::c"),
        rename_token("old::n"),
        rename_token("u1::7"),
        None,
        false,
    ));
    assert_eq!(renamed.contexts[0], rename_context("c", "n", "7"));
    assert_eq!(renamed.current_context, Some("c".to_string()));
    assert_eq!(renamed.clusters[0].name, "n");
    assert_eq!(renamed.users[0].name, "7");
}

#[test]
fn the_longest_valid_name_has_253_characters() {
    let longest = format!("a{}z", "-".repeat(251));
    assert!(name_matches_pattern(&longest));
    let too_long = format!("a{}z", "-".repeat(252));
    assert!(!name_matches_pattern(&too_long));
}

#[test]
fn the_entries_and_references_of_a_name_are_counted() {
    let mut document = rename_document();
    document.clusters.push(rename_cluster("old", "https://again.example"));
    assert_eq!(count_named(&document.clusters, &"old".to_string()), 2);
    assert_eq!(count_named(&document.clusters, &"other".to_string()), 1);
    assert_eq!(count_named(&document.clusters, &"absent".to_string()), 0);
    assert_eq!(count_named(&document.users, &"u2".to_string()), 1);
    assert_eq!(count_named(&document.contexts, &"old".to_string()), 0);
    assert_eq!(count_named(&Vec::<NamedCluster>::new(), &"old".to_string()), 0);
    assert_eq!(count_cluster_references(&document.contexts, &"old".to_string()), 2);
    assert_eq!(count_cluster_references(&document.contexts, &"other".to_string()), 1);
    assert_eq!(count_cluster_references(&document.contexts, &"u2".to_string()), 0);
    assert_eq!(count_user_references(&document.contexts, &"u2".to_string()), 2);
    assert_eq!(count_user_references(&document.contexts, &"u1".to_string()), 1);
    assert_eq!(count_user_references(&document.contexts, &"old".to_string()), 0);
}
