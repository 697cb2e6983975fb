//! The kubeconfig document as it is held in memory.
//!
//! The layout follows the `v1` `Config` kind: a document names clusters,
//! users and contexts, each context pairs one cluster with one user by name,
//! and `current_context` selects one context by name. The lists keep the
//! order in which they were loaded.

use crate::model::{
    AuthProviderView, ClusterView, ContextView, ExecConfigView, ExecEnvVarView, ExtensionView,
    KubeConfigView, Named, PreferencesView, UserView,
};
use std::collections::HashMap;
use vstd::prelude::*;
use vstd::std_specs::hash::lemma_hashmap_deepview_dom;

verus! {

/// `serde_yaml::Value`, the payload of an extension. The library moves such
/// values around and never looks inside one.
#[verifier::external_type_specification]
#[verifier::external_body]
pub struct ExYamlValue(serde_yaml::Value);

#[derive(Debug, PartialEq)]
pub struct KubeConfig {
    pub api_version: String,
    pub kind: String,
    pub preferences: Option<Preferences>,
    pub clusters: Vec<NamedCluster>,
    pub users: Vec<NamedUser>,
    pub contexts: Vec<NamedContext>,
    pub current_context: Option<String>,
    pub extensions: Vec<NamedExtension>,
}

#[derive(Debug, PartialEq)]
pub struct Preferences {
    pub colors: Option<bool>,
    pub extensions: Vec<NamedExtension>,
}

#[derive(Debug, PartialEq)]
pub struct NamedCluster {
    pub name: String,
    pub cluster: Cluster,
}

#[derive(Debug, PartialEq)]
pub struct Cluster {
    pub server: String,
    pub tls_server_name: Option<String>,
    pub insecure_skip_tls_verify: Option<bool>,
    pub certificate_authority: Option<String>,
    pub certificate_authority_data: Option<String>,
    pub proxy_url: Option<String>,
    pub disable_compression: Option<bool>,
    pub extensions: Vec<NamedExtension>,
}

#[derive(Debug, PartialEq)]
pub struct NamedUser {
    pub name: String,
    pub user: User,
}

#[derive(Debug, PartialEq)]
pub struct User {
    pub client_certificate: Option<String>,
    pub client_certificate_data: Option<String>,
    pub client_key: Option<String>,
    pub client_key_data: Option<String>,
    pub token: Option<String>,
    pub token_file: Option<String>,
    pub impersonate: Option<String>,
    pub impersonate_uid: Option<String>,
    pub impersonate_groups: Vec<String>,
    pub impersonate_user_extra: HashMap<String, Vec<String>>,
    pub username: Option<String>,
    pub password: Option<String>,
    pub auth_provider: Option<AuthProvider>,
    pub exec_config: Option<ExecConfig>,
    pub extensions: Vec<NamedExtension>,
}

#[derive(Debug, PartialEq)]
pub struct AuthProvider {
    pub name: String,
    pub config: HashMap<String, String>,
}

#[derive(Debug, PartialEq)]
pub struct ExecConfig {
    pub command: String,
    pub args: Option<Vec<String>>,
    pub env: Option<Vec<ExecEnvVar>>,
    pub api_version: Option<String>,
    pub install_hint: Option<String>,
    pub provide_cluster_info: Option<bool>,
    pub interactive_mode: Option<InteractiveMode>,
}

#[derive(Debug, PartialEq)]
pub struct ExecEnvVar {
    pub name: String,
    pub value: String,
}

#[derive(Debug, Clone, Copy, PartialEq, Eq)]
pub enum InteractiveMode {
    Never,
    IfAvailable,
    Always,
}

#[derive(Debug, PartialEq)]
pub struct NamedContext {
    pub name: String,
    pub context: Context,
}

#[derive(Debug, PartialEq)]
pub struct Context {
    pub cluster: String,
    pub user: String,
    pub namespace: Option<String>,
    pub extensions: Vec<NamedExtension>,
}

#[derive(Debug, PartialEq)]
pub struct NamedExtension {
    pub name: String,
    pub extension: serde_yaml::Value,
}

impl DeepView for InteractiveMode {
    type V = InteractiveMode;

    open spec fn deep_view(&self) -> InteractiveMode {
        *self
    }
}

impl DeepView for NamedExtension {
    type V = ExtensionView;

    open spec fn deep_view(&self) -> ExtensionView {
        Named { name: self.name@, value: self.extension }
    }
}

impl DeepView for Preferences {
    type V = PreferencesView;

    open spec fn deep_view(&self) -> PreferencesView {
        PreferencesView { colors: self.colors, extensions: self.extensions.deep_view() }
    }
}

impl DeepView for Cluster {
    type V = ClusterView;

    open spec fn deep_view(&self) -> ClusterView {
        ClusterView {
            server: self.server@,
            tls_server_name: self.tls_server_name.deep_view(),
            insecure_skip_tls_verify: self.insecure_skip_tls_verify,
            certificate_authority: self.certificate_authority.deep_view(),
            certificate_authority_data: self.certificate_authority_data.deep_view(),
            proxy_url: self.proxy_url.deep_view(),
            disable_compression: self.disable_compression,
            extensions: self.extensions.deep_view(),
        }
    }
}

impl DeepView for NamedCluster {
    type V = Named<ClusterView>;

    open spec fn deep_view(&self) -> Named<ClusterView> {
        Named { name: self.name@, value: self.cluster.deep_view() }
    }
}

impl DeepView for AuthProvider {
    type V = AuthProviderView;

    open spec fn deep_view(&self) -> AuthProviderView {
        AuthProviderView { name: self.name@, config: self.config.deep_view() }
    }
}

impl DeepView for ExecEnvVar {
    type V = ExecEnvVarView;

    open spec fn deep_view(&self) -> ExecEnvVarView {
        ExecEnvVarView { name: self.name@, value: self.value@ }
    }
}

impl DeepView for ExecConfig {
    type V = ExecConfigView;

    open spec fn deep_view(&self) -> ExecConfigView {
        ExecConfigView {
            command: self.command@,
            args: self.args.deep_view(),
            env: self.env.deep_view(),
            api_version: self.api_version.deep_view(),
            install_hint: self.install_hint.deep_view(),
            provide_cluster_info: self.provide_cluster_info,
            interactive_mode: self.interactive_mode,
        }
    }
}

impl DeepView for User {
    type V = UserView;

    open spec fn deep_view(&self) -> UserView {
        UserView {
            client_certificate: self.client_certificate.deep_view(),
            client_certificate_data: self.client_certificate_data.deep_view(),
            client_key: self.client_key.deep_view(),
            client_key_data: self.client_key_data.deep_view(),
            token: self.token.deep_view(),
            token_file: self.token_file.deep_view(),
            impersonate: self.impersonate.deep_view(),
            impersonate_uid: self.impersonate_uid.deep_view(),
            impersonate_groups: self.impersonate_groups.deep_view(),
            impersonate_user_extra: self.impersonate_user_extra.deep_view(),
            username: self.username.deep_view(),
            password: self.password.deep_view(),
            auth_provider: self.auth_provider.deep_view(),
            exec_config: self.exec_config.deep_view(),
            extensions: self.extensions.deep_view(),
        }
    }
}

impl DeepView for NamedUser {
    type V = Named<UserView>;

    open spec fn deep_view(&self) -> Named<UserView> {
        Named { name: self.name@, value: self.user.deep_view() }
    }
}

impl DeepView for Context {
    type V = ContextView;

    open spec fn deep_view(&self) -> ContextView {
        ContextView {
            cluster: self.cluster@,
            user: self.user@,
            namespace: self.namespace.deep_view(),
            extensions: self.extensions.deep_view(),
        }
    }
}

impl DeepView for NamedContext {
    type V = Named<ContextView>;

    open spec fn deep_view(&self) -> Named<ContextView> {
        Named { name: self.name@, value: self.context.deep_view() }
    }
}

impl DeepView for KubeConfig {
    type V = KubeConfigView;

    open spec fn deep_view(&self) -> KubeConfigView {
        KubeConfigView {
            api_version: self.api_version@,
            kind: self.kind@,
            preferences: self.preferences.deep_view(),
            clusters: self.clusters.deep_view(),
            users: self.users.deep_view(),
            contexts: self.contexts.deep_view(),
            current_context: self.current_context.deep_view(),
            extensions: self.extensions.deep_view(),
        }
    }
}

impl Default for Preferences {
    /// Preferences that say nothing.
    fn default() -> (preferences: Preferences)
        ensures
            preferences.deep_view() == (PreferencesView {
                colors: None,
                extensions: Seq::empty(),
            }),
    {
        let preferences = Preferences { colors: None, extensions: Vec::new() };
        assert(preferences.extensions.deep_view() =~= Seq::empty());
        preferences
    }
}

impl Default for User {
    /// A user without any credential.
    fn default() -> (user: User)
        ensures
            user.deep_view() == (UserView {
                client_certificate: None,
                client_certificate_data: None,
                client_key: None,
                client_key_data: None,
                token: None,
                token_file: None,
                impersonate: None,
                impersonate_uid: None,
                impersonate_groups: Seq::empty(),
                impersonate_user_extra: Map::empty(),
                username: None,
                password: None,
                auth_provider: None,
                exec_config: None,
                extensions: Seq::empty(),
            }),
    {
        let user = User {
            client_certificate: None,
            client_certificate_data: None,
            client_key: None,
            client_key_data: None,
            token: None,
            token_file: None,
            impersonate: None,
            impersonate_uid: None,
            impersonate_groups: Vec::new(),
            impersonate_user_extra: HashMap::new(),
            username: None,
            password: None,
            auth_provider: None,
            exec_config: None,
            extensions: Vec::new(),
        };
        proof {
            lemma_hashmap_deepview_dom(user.impersonate_user_extra);
            assert(user.impersonate_user_extra.deep_view().dom() =~= Set::empty());
            assert(user.impersonate_user_extra.deep_view() =~= Map::empty());
            assert(user.impersonate_groups.deep_view() =~= Seq::empty());
            assert(user.extensions.deep_view() =~= Seq::empty());
        }
        user
    }
}

} // verus!
