use kubeconf::entries::{find_entry, find_position, NamedEntry};
use kubeconf::text::{chars_of, has_prefix, same_text};
use kubeconf::{
    AuthProvider, Cluster, Context, ExecConfig, ExecEnvVar, InteractiveMode, KubeConfError,
    KubeConfig, NamedCluster, NamedContext, NamedExtension, NamedUser, Preferences, User,
};
use std::collections::HashMap;

fn lookup_cluster(name: &str, server: &str) -> NamedCluster {
    NamedCluster {
        name: name.to_string(),
        cluster: Cluster {
            server: server.to_string(),
            tls_server_name: None,
            insecure_skip_tls_verify: None,
            certificate_authority: None,
            certificate_authority_data: None,
            proxy_url: None,
            disable_compression: None,
            extensions: vec![],
        },
    }
}

fn lookup_context(name: &str, cluster: &str, user: &str) -> NamedContext {
    NamedContext {
        name: name.to_string(),
        context: Context {
            cluster: cluster.to_string(),
            user: user.to_string(),
            namespace: None,
            extensions: vec![],
        },
    }
}

fn lookup_document() -> KubeConfig {
    KubeConfig {
        api_version: "v1".to_string(),
        kind: "Config".to_string(),
        preferences: None,
        clusters: vec![
            lookup_cluster("a", "https://first.example"),
            lookup_cluster("b", "https://b.example"),
            lookup_cluster("a", "https://second.example"),
        ],
        users: vec![
            NamedUser { name: "u1".to_string(), user: User::default() },
            NamedUser { name: "u2".to_string(), user: User::default() },
        ],
        contexts: vec![lookup_context("x", "a", "u1"), lookup_context("y", "b", "u2")],
        current_context: Some("y".to_string()),
        extensions: vec![],
    }
}

#[test]
fn a_lookup_finds_the_first_entry_of_the_name() {
    let document = lookup_document();
    assert_eq!(document.get_cluster("a"), Some(&lookup_cluster("a", "https://first.example")));
    assert_eq!(document.get_cluster("b"), Some(&lookup_cluster("b", "https://b.example")));
    assert_eq!(document.get_cluster("c"), None);
    assert_eq!(document.get_cluster(""), None);
    assert_eq!(document.get_cluster("A"), None);
}

#[test]
fn users_and_contexts_are_looked_up_by_name() {
    let document = lookup_document();
    assert_eq!(document.get_user("u2").map(|user| user.name.as_str()), Some("u2"));
    assert_eq!(document.get_user("x"), None);
    assert_eq!(document.get_context("x"), Some(&lookup_context("x", "a", "u1")));
    assert_eq!(document.get_context("u1"), None);
}

#[test]
fn the_current_context_is_looked_up_by_its_name() {
    let mut document = lookup_document();
    assert_eq!(document.get_current_context(), Some(&lookup_context("y", "b", "u2")));
    document.current_context = Some("gone".to_string());
    assert_eq!(document.get_current_context(), None);
    document.current_context = None;
    assert_eq!(document.get_current_context(), None);
}

#[test]
fn a_position_is_that_of_the_first_entry_of_the_name() {
    let document = lookup_document();
    assert_eq!(find_position(&document.clusters, &"a".to_string()), Some(0));
    assert_eq!(find_position(&document.clusters, &"b".to_string()), Some(1));
    assert_eq!(find_position(&document.clusters, &"c".to_string()), None);
    assert_eq!(find_position(&Vec::<NamedCluster>::new(), &"a".to_string()), None);
    assert_eq!(find_entry(&document.users, "u2").map(|user| user.entry_name().as_str()), Some("u2"));
}

#[test]
fn an_entry_keeps_what_it_holds_under_a_new_name() {
    let renamed = lookup_cluster("a", "https://a.example").renamed("z".to_string());
    assert_eq!(renamed, lookup_cluster("z", "https://a.example"));
    let extension = NamedExtension { name: "e".to_string(), extension: serde_yaml::Value::Bool(true) };
    assert_eq!(extension.entry_name(), "e");
    assert_eq!(
        extension.renamed("f".to_string()),
        NamedExtension { name: "f".to_string(), extension: serde_yaml::Value::Bool(true) }
    );
}

#[test]
fn default_preferences_say_nothing() {
    assert_eq!(Preferences::default(), Preferences { colors: None, extensions: vec![] });
}

#[test]
fn a_default_user_has_no_credentials() {
    let user = User::default();
    assert_eq!(user.token, None);
    assert_eq!(user.client_certificate_data, None);
    assert_eq!(user.client_key_data, None);
    assert_eq!(user.username, None);
    assert_eq!(user.password, None);
    assert!(user.impersonate_groups.is_empty());
    assert!(user.impersonate_user_extra.is_empty());
    assert!(user.auth_provider.is_none());
    assert!(user.exec_config.is_none());
    assert!(user.extensions.is_empty());
}

#[test]
fn a_user_holds_plugin_descriptors() {
    let mut config = HashMap::new();
    config.insert("idp-issuer-url".to_string(), "https://issuer.example".to_string());
    let mut extra = HashMap::new();
    extra.insert("reason".to_string(), vec!["audit".to_string()]);
    let mut user = User::default();
    user.auth_provider = Some(AuthProvider { name: "oidc".to_string(), config });
    user.exec_config = Some(ExecConfig {
        command: "aws".to_string(),
        args: Some(vec!["eks".to_string(), "get-token".to_string()]),
        env: Some(vec![ExecEnvVar { name: "AWS_PROFILE".to_string(), value: "dev".to_string() }]),
        api_version: Some("client.authentication.k8s.io/v1".to_string()),
        install_hint: None,
        provide_cluster_info: Some(false),
        interactive_mode: Some(InteractiveMode::IfAvailable),
    });
    user.impersonate_user_extra = extra;
    let document = KubeConfig {
        api_version: "v1".to_string(),
        kind: "Config".to_string(),
        preferences: None,
        clusters: vec![],
        users: vec![NamedUser { name: "plugin".to_string(), user }],
        contexts: vec![],
        current_context: None,
        extensions: vec![],
    };
    assert!(document.validate().is_ok());
    let held = match document.get_user("plugin") {
        Some(found) => &found.user,
        None => panic!("the user is held"),
    };
    assert_eq!(held.auth_provider.as_ref().map(|provider| provider.name.as_str()), Some("oidc"));
    assert_eq!(
        held.exec_config.as_ref().and_then(|plugin| plugin.interactive_mode),
        Some(InteractiveMode::IfAvailable)
    );
    assert_ne!(InteractiveMode::Never, InteractiveMode::Always);
}

#[test]
fn a_merge_error_carries_its_message() {
    let error = KubeConfError::MergeError("nothing to merge".to_string());
    assert_eq!(error, KubeConfError::MergeError("nothing to merge".to_string()));
}

#[test]
fn a_prefix_is_found_at_the_start_only() {
    assert!(has_prefix("https://x", "https://"));
    assert!(has_prefix("https://", "https://"));
    assert!(has_prefix("anything", ""));
    assert!(has_prefix("", ""));
    assert!(!has_prefix("https:/", "https://"));
    assert!(!has_prefix("xhttps://", "https://"));
    assert!(!has_prefix("", "a"));
    assert!(has_prefix("\u{e9}t\u{e9}", "\u{e9}t"));
    assert!(!has_prefix("\u{e9}t\u{e9}", "et"));
}

#[test]
fn two_texts_are_the_same_if_their_characters_are() {
    assert!(same_text("v1", "v1"));
    assert!(same_text("", ""));
    assert!(!same_text("v1", "V1"));
    assert!(!same_text("v1", "v1 "));
    assert!(!same_text("v1", ""));
}

#[test]
fn the_characters_of_a_text_come_in_order() {
    assert_eq!(chars_of("a:b"), vec!['a', ':', 'b']);
    assert_eq!(chars_of(""), Vec::<char>::new());
    assert_eq!(chars_of("\u{4e16}\u{754c}"), vec!['\u{4e16}', '\u{754c}']);
}
