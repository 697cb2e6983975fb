//! Validation, merging, renaming and deletion on kubeconfig documents, with
//! machine-checked contracts.
//!
//! A document is a [`KubeConfig`]. Its model, over which every contract is
//! stated, is a [`model::KubeConfigView`]. The four operations are
//! [`KubeConfig::validate`], [`merge_kubeconfigs`],
//! [`rename_kubeconfig_values`] and [`delete_context`].

pub mod delete;
pub mod entries;
pub mod error;
pub mod merge;
pub mod model;
pub mod rename;
pub mod schema;
pub mod text;
pub mod validate;

pub use delete::{delete_context, delete_strands_context};
pub use error::KubeConfigError;
pub use merge::{merge_kubeconfigs, KubeConfError};
pub use rename::{rename, rename_kubeconfig_values, EntityKind, Refusal, UsageError};
pub use schema::{
    AuthProvider, Cluster, Context, ExecConfig, ExecEnvVar, InteractiveMode, KubeConfig,
    NamedCluster, NamedContext, NamedExtension, NamedUser, Preferences, User,
};
pub use validate::Violation;
