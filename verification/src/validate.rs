//! The rules that a document must meet before it is used, and the check that
//! reports the first rule it breaks.
//!
//! The check goes through the rules in a fixed order: the two literals, the
//! current context, then every context, every cluster and every user in list
//! order. It stops at the first rule that is broken.

use crate::entries::find_position;
use crate::model::{
    has_name, lemma_position, ClusterView, ContextView, KubeConfigView, Named, UserView,
};
use crate::error::KubeConfigError;
use crate::schema::{KubeConfig, NamedCluster, NamedContext, NamedUser};
use crate::text::{has_prefix, same_text};
use vstd::prelude::*;
use vstd::string::StringExecFns;

verus! {

/// Whether `base64::engine::general_purpose::STANDARD` decodes `text`
/// without an error.
pub uninterp spec fn base64_standard_decodes(text: Seq<char>) -> bool;

/// Runs `Engine::decode` of the base64 crate's `STANDARD` engine on `text`
/// and reports whether it returned `Ok`. The decoder reads its input alone
/// and reports every malformed input as an error; what it decoded is thrown
/// away. Nothing more is claimed than that the answer is the decoder's.
#[verifier::external_body]
fn decodes_as_base64(text: &str) -> (decodes: bool)
    ensures
        decodes == base64_standard_decodes(text@),
{
    base64::Engine::decode(&base64::engine::general_purpose::STANDARD, text).is_ok()
}

/// A rule that a document breaks, with the entry that breaks it.
#[derive(Debug, PartialEq)]
pub enum Violation {
    /// `apiVersion` is not `v1`.
    UnsupportedApiVersion { found: String },
    /// `kind` is not `Config`.
    InvalidKind { found: String },
    /// No context has the name that `current-context` selects.
    MissingCurrentContext { name: String },
    /// A context refers to a cluster that the document does not hold.
    MissingCluster { context: String, cluster: String },
    /// A context refers to a user that the document does not hold.
    MissingUser { context: String, user: String },
    /// A cluster's server does not begin with `http://` or `https://`.
    InvalidServerUrl { cluster: String, server: String },
    /// A cluster's `certificate-authority-data` is not base64.
    InvalidCertificateAuthorityData { cluster: String },
    /// A user's `client-certificate-data` is not base64.
    InvalidClientCertificateData { user: String },
    /// A user's `client-key-data` is not base64.
    InvalidClientKeyData { user: String },
}

pub enum ViolationView {
    UnsupportedApiVersion { found: Seq<char> },
    InvalidKind { found: Seq<char> },
    MissingCurrentContext { name: Seq<char> },
    MissingCluster { context: Seq<char>, cluster: Seq<char> },
    MissingUser { context: Seq<char>, user: Seq<char> },
    InvalidServerUrl { cluster: Seq<char>, server: Seq<char> },
    InvalidCertificateAuthorityData { cluster: Seq<char> },
    InvalidClientCertificateData { user: Seq<char> },
    InvalidClientKeyData { user: Seq<char> },
}

impl DeepView for Violation {
    type V = ViolationView;

    open spec fn deep_view(&self) -> ViolationView {
        match self {
            Violation::UnsupportedApiVersion { found } => ViolationView::UnsupportedApiVersion {
                found: found@,
            },
            Violation::InvalidKind { found } => ViolationView::InvalidKind { found: found@ },
            Violation::MissingCurrentContext { name } => ViolationView::MissingCurrentContext {
                name: name@,
            },
            Violation::MissingCluster { context, cluster } => ViolationView::MissingCluster {
                context: context@,
                cluster: cluster@,
            },
            Violation::MissingUser { context, user } => ViolationView::MissingUser {
                context: context@,
                user: user@,
            },
            Violation::InvalidServerUrl { cluster, server } => ViolationView::InvalidServerUrl {
                cluster: cluster@,
                server: server@,
            },
            Violation::InvalidCertificateAuthorityData {
                cluster,
            } => ViolationView::InvalidCertificateAuthorityData { cluster: cluster@ },
            Violation::InvalidClientCertificateData {
                user,
            } => ViolationView::InvalidClientCertificateData { user: user@ },
            Violation::InvalidClientKeyData { user } => ViolationView::InvalidClientKeyData {
                user: user@,
            },
        }
    }
}

/// Whether inline data, where there is any, is base64.
pub open spec fn decodes(data: Option<Seq<char>>) -> bool {
    match data {
        Some(text) => base64_standard_decodes(text),
        None => true,
    }
}

/// Whether a server address begins with `http://` or `https://`.
pub open spec fn has_web_scheme(server: Seq<char>) -> bool {
    "http://"@.is_prefix_of(server) || "https://"@.is_prefix_of(server)
}

/// Whether the current context and every context's cluster and user are
/// names that the document holds.
pub open spec fn references_resolve(doc: KubeConfigView) -> bool {
    &&& doc.current_context matches Some(name) ==> has_name(doc.contexts, name)
    &&& forall|i: int|
        0 <= i < doc.contexts.len() ==> has_name(
            doc.clusters,
            (#[trigger] doc.contexts[i]).value.cluster,
        )
    &&& forall|i: int|
        0 <= i < doc.contexts.len() ==> has_name(doc.users, (#[trigger] doc.contexts[i]).value.user)
}

/// Whether a cluster meets the rules on clusters.
pub open spec fn is_valid_cluster(cluster: ClusterView) -> bool {
    has_web_scheme(cluster.server) && decodes(cluster.certificate_authority_data)
}

/// Whether a user meets the rules on users.
pub open spec fn is_valid_user(user: UserView) -> bool {
    decodes(user.client_certificate_data) && decodes(user.client_key_data)
}

/// Whether a document meets every rule.
pub open spec fn is_valid(doc: KubeConfigView) -> bool {
    &&& doc.api_version == "v1"@
    &&& doc.kind == "Config"@
    &&& references_resolve(doc)
    &&& forall|i: int| 0 <= i < doc.clusters.len() ==> is_valid_cluster((#[trigger] doc.clusters[i]).value)
    &&& forall|i: int| 0 <= i < doc.users.len() ==> is_valid_user((#[trigger] doc.users[i]).value)
}

/// The rule that a context breaks, if any: its cluster is looked up before
/// its user.
pub open spec fn context_violation(
    clusters: Seq<Named<ClusterView>>,
    users: Seq<Named<UserView>>,
    context: Named<ContextView>,
) -> Option<ViolationView> {
    if !has_name(clusters, context.value.cluster) {
        Some(ViolationView::MissingCluster { context: context.name, cluster: context.value.cluster })
    } else if !has_name(users, context.value.user) {
        Some(ViolationView::MissingUser { context: context.name, user: context.value.user })
    } else {
        None
    }
}

/// The rule that a cluster breaks, if any, given whether its inline
/// authority data decodes: the server is looked at first.
pub open spec fn cluster_violation(cluster: Named<ClusterView>, authority_decodes: bool) -> Option<
    ViolationView,
> {
    if !has_web_scheme(cluster.value.server) {
        Some(ViolationView::InvalidServerUrl { cluster: cluster.name, server: cluster.value.server })
    } else if !authority_decodes {
        Some(ViolationView::InvalidCertificateAuthorityData { cluster: cluster.name })
    } else {
        None
    }
}

/// The rule that a user breaks, if any, given whether its inline certificate
/// and key decode: the certificate is looked at first.
pub open spec fn user_violation(
    user: Named<UserView>,
    certificate_decodes: bool,
    key_decodes: bool,
) -> Option<ViolationView> {
    if !certificate_decodes {
        Some(ViolationView::InvalidClientCertificateData { user: user.name })
    } else if !key_decodes {
        Some(ViolationView::InvalidClientKeyData { user: user.name })
    } else {
        None
    }
}

/// The rule on contexts, for a document's clusters and users.
pub open spec fn context_rule(
    clusters: Seq<Named<ClusterView>>,
    users: Seq<Named<UserView>>,
) -> spec_fn(Named<ContextView>) -> Option<ViolationView> {
    |context: Named<ContextView>| context_violation(clusters, users, context)
}

/// The rule on clusters.
pub open spec fn cluster_rule() -> spec_fn(Named<ClusterView>) -> Option<ViolationView> {
    |cluster: Named<ClusterView>|
        cluster_violation(cluster, decodes(cluster.value.certificate_authority_data))
}

/// The rule on users.
pub open spec fn user_rule() -> spec_fn(Named<UserView>) -> Option<ViolationView> {
    |user: Named<UserView>|
        user_violation(
            user,
            decodes(user.value.client_certificate_data),
            decodes(user.value.client_key_data),
        )
}

/// What the first item that breaks a rule breaks.
pub open spec fn first_violation<T>(items: Seq<T>, rule: spec_fn(T) -> Option<ViolationView>) -> Option<
    ViolationView,
>
    decreases items.len(),
{
    if items.len() == 0 {
        None
    } else if rule(items.first()) is Some {
        rule(items.first())
    } else {
        first_violation(items.drop_first(), rule)
    }
}

/// The first rule that a document breaks, if it breaks any.
pub open spec fn violation(doc: KubeConfigView) -> Option<ViolationView> {
    if doc.api_version != "v1"@ {
        Some(ViolationView::UnsupportedApiVersion { found: doc.api_version })
    } else if doc.kind != "Config"@ {
        Some(ViolationView::InvalidKind { found: doc.kind })
    } else if doc.current_context is Some && !has_name(doc.contexts, doc.current_context->0) {
        Some(ViolationView::MissingCurrentContext { name: doc.current_context->0 })
    } else if first_violation(doc.contexts, context_rule(doc.clusters, doc.users)) is Some {
        first_violation(doc.contexts, context_rule(doc.clusters, doc.users))
    } else if first_violation(doc.clusters, cluster_rule()) is Some {
        first_violation(doc.clusters, cluster_rule())
    } else {
        first_violation(doc.users, user_rule())
    }
}

/// The first violation of a list is that of its first item that has one.
pub proof fn lemma_first_violation<T>(
    items: Seq<T>,
    rule: spec_fn(T) -> Option<ViolationView>,
    upto: int,
)
    requires
        0 <= upto <= items.len(),
        forall|j: int| 0 <= j < upto ==> rule(#[trigger] items[j]) is None,
    ensures
        upto < items.len() && rule(items[upto]) is Some ==> first_violation(items, rule) == rule(
            items[upto],
        ),
        upto == items.len() ==> first_violation(items, rule) is None,
    decreases upto,
{
    if upto > 0 {
        let rest = items.drop_first();
        assert forall|j: int| 0 <= j < upto - 1 implies rule(#[trigger] rest[j]) is None by {
            assert(rest[j] == items[j + 1]);
        }
        lemma_first_violation(rest, rule, upto - 1);
        if upto < items.len() {
            assert(rest[upto - 1] == items[upto]);
        }
        assert(rule(items[0]) is None);
    }
}

/// A list has no violation exactly if none of its items has one.
pub proof fn lemma_no_violation<T>(items: Seq<T>, rule: spec_fn(T) -> Option<ViolationView>)
    ensures
        first_violation(items, rule) is None <==> forall|j: int|
            0 <= j < items.len() ==> rule(#[trigger] items[j]) is None,
    decreases items.len(),
{
    if items.len() > 0 {
        let rest = items.drop_first();
        lemma_no_violation(rest, rule);
        if first_violation(items, rule) is None {
            assert forall|j: int| 0 <= j < items.len() implies rule(#[trigger] items[j]) is None by {
                if j > 0 {
                    assert(rest[j - 1] == items[j]);
                }
            }
        }
        if forall|j: int| 0 <= j < items.len() ==> rule(#[trigger] items[j]) is None {
            assert(rule(items[0]) is None);
            assert forall|j: int| 0 <= j < rest.len() implies rule(#[trigger] rest[j]) is None by {
                assert(rest[j] == items[j + 1]);
            }
        }
    }
}

/// A document breaks no rule exactly if it meets every rule.
pub proof fn lemma_violation_free_is_valid(doc: KubeConfigView)
    ensures
        violation(doc) is None <==> is_valid(doc),
{
    lemma_no_violation(doc.contexts, context_rule(doc.clusters, doc.users));
    lemma_no_violation(doc.clusters, cluster_rule());
    lemma_no_violation(doc.users, user_rule());
    if violation(doc) is None {
        assert forall|i: int| 0 <= i < doc.contexts.len() implies has_name(
            doc.clusters,
            (#[trigger] doc.contexts[i]).value.cluster,
        ) && has_name(doc.users, doc.contexts[i].value.user) by {
            assert(context_rule(doc.clusters, doc.users)(doc.contexts[i]) is None);
        }
        assert forall|i: int| 0 <= i < doc.clusters.len() implies is_valid_cluster(
            (#[trigger] doc.clusters[i]).value,
        ) by {
            assert(cluster_rule()(doc.clusters[i]) is None);
        }
        assert forall|i: int| 0 <= i < doc.users.len() implies is_valid_user(
            (#[trigger] doc.users[i]).value,
        ) by {
            assert(user_rule()(doc.users[i]) is None);
        }
    }
    if is_valid(doc) {
        assert forall|i: int| 0 <= i < doc.contexts.len() implies context_rule(
            doc.clusters,
            doc.users,
        )(#[trigger] doc.contexts[i]) is None by {}
        assert forall|i: int| 0 <= i < doc.clusters.len() implies cluster_rule()(
            #[trigger] doc.clusters[i],
        ) is None by {
            assert(is_valid_cluster(doc.clusters[i].value));
        }
        assert forall|i: int| 0 <= i < doc.users.len() implies user_rule()(
            #[trigger] doc.users[i],
        ) is None by {
            assert(is_valid_user(doc.users[i].value));
        }
    }
}

/// The words in which a violation is reported.
pub open spec fn violation_message(violation: ViolationView) -> Seq<char> {
    match violation {
        ViolationView::UnsupportedApiVersion { found } => "Unsupported apiVersion: "@ + found,
        ViolationView::InvalidKind { found } => "Invalid kind: "@ + found + ", expected 'Config'"@,
        ViolationView::MissingCurrentContext { name } => "Current context '"@ + name
            + "' not found in contexts"@,
        ViolationView::MissingCluster { context, cluster } => "Context '"@ + context
            + "' references non-existent cluster '"@ + cluster + "'"@,
        ViolationView::MissingUser { context, user } => "Context '"@ + context
            + "' references non-existent user '"@ + user + "'"@,
        ViolationView::InvalidServerUrl { cluster, server } => "Cluster '"@ + cluster
            + "' has invalid server URL: "@ + server,
        ViolationView::InvalidCertificateAuthorityData { cluster } => "Cluster '"@ + cluster
            + "' has invalid certificate-authority-data"@,
        ViolationView::InvalidClientCertificateData { user } => "User '"@ + user
            + "' has invalid client-certificate-data"@,
        ViolationView::InvalidClientKeyData { user } => "User '"@ + user
            + "' has invalid client-key-data"@,
    }
}

impl Violation {
    /// The violation in words, for the user.
    pub fn message(&self) -> (text: String)
        ensures
            text@ == violation_message(self.deep_view()),
    {
        match self {
            Violation::UnsupportedApiVersion { found } => String::from_str(
                "Unsupported apiVersion: ",
            ).concat(found.as_str()),
            Violation::InvalidKind { found } => String::from_str("Invalid kind: ").concat(
                found.as_str(),
            ).concat(", expected 'Config'"),
            Violation::MissingCurrentContext { name } => String::from_str("Current context '").concat(
                name.as_str(),
            ).concat("' not found in contexts"),
            Violation::MissingCluster { context, cluster } => String::from_str("Context '").concat(
                context.as_str(),
            ).concat("' references non-existent cluster '").concat(cluster.as_str()).concat("'"),
            Violation::MissingUser { context, user } => String::from_str("Context '").concat(
                context.as_str(),
            ).concat("' references non-existent user '").concat(user.as_str()).concat("'"),
            Violation::InvalidServerUrl { cluster, server } => String::from_str("Cluster '").concat(
                cluster.as_str(),
            ).concat("' has invalid server URL: ").concat(server.as_str()),
            Violation::InvalidCertificateAuthorityData { cluster } => String::from_str(
                "Cluster '",
            ).concat(cluster.as_str()).concat("' has invalid certificate-authority-data"),
            Violation::InvalidClientCertificateData { user } => String::from_str("User '").concat(
                user.as_str(),
            ).concat("' has invalid client-certificate-data"),
            Violation::InvalidClientKeyData { user } => String::from_str("User '").concat(
                user.as_str(),
            ).concat("' has invalid client-key-data"),
        }
    }
}

/// Whether inline data, where there is any, is base64.
pub fn inline_data_decodes(data: &Option<String>) -> (ok: bool)
    ensures
        ok == decodes(data.deep_view()),
{
    match data {
        Some(text) => decodes_as_base64(text.as_str()),
        None => true,
    }
}

/// Checks that a context's cluster and user are held by the document.
pub fn check_context(clusters: &Vec<NamedCluster>, users: &Vec<NamedUser>, context: &NamedContext) -> (verdict:
    Result<(), Violation>)
    ensures
        match verdict {
            Ok(()) => context_violation(clusters.deep_view(), users.deep_view(), context.deep_view())
                is None,
            Err(broken) => context_violation(
                clusters.deep_view(),
                users.deep_view(),
                context.deep_view(),
            ) == Some(broken.deep_view()),
        },
{
    proof {
        lemma_position(clusters.deep_view(), context.context.cluster@);
        lemma_position(users.deep_view(), context.context.user@);
    }
    if find_position(clusters, &context.context.cluster).is_none() {
        return Err(
            Violation::MissingCluster {
                context: context.name.clone(),
                cluster: context.context.cluster.clone(),
            },
        );
    }
    if find_position(users, &context.context.user).is_none() {
        return Err(
            Violation::MissingUser { context: context.name.clone(), user: context.context.user.clone() },
        );
    }
    Ok(())
}

/// Checks a cluster, given whether its inline authority data decodes.
pub fn check_cluster(cluster: &NamedCluster, authority_decodes: bool) -> (verdict: Result<(), Violation>)
    ensures
        match verdict {
            Ok(()) => cluster_violation(cluster.deep_view(), authority_decodes) is None,
            Err(broken) => cluster_violation(cluster.deep_view(), authority_decodes) == Some(
                broken.deep_view(),
            ),
        },
{
    let server = cluster.cluster.server.as_str();
    if !has_prefix(server, "http://") && !has_prefix(server, "https://") {
        return Err(
            Violation::InvalidServerUrl {
                cluster: cluster.name.clone(),
                server: cluster.cluster.server.clone(),
            },
        );
    }
    if !authority_decodes {
        return Err(Violation::InvalidCertificateAuthorityData { cluster: cluster.name.clone() });
    }
    Ok(())
}

/// Checks a user, given whether its inline certificate and key decode.
pub fn check_user(user: &NamedUser, certificate_decodes: bool, key_decodes: bool) -> (verdict: Result<
    (),
    Violation,
>)
    ensures
        match verdict {
            Ok(()) => user_violation(user.deep_view(), certificate_decodes, key_decodes) is None,
            Err(broken) => user_violation(user.deep_view(), certificate_decodes, key_decodes) == Some(
                broken.deep_view(),
            ),
        },
{
    if !certificate_decodes {
        return Err(Violation::InvalidClientCertificateData { user: user.name.clone() });
    }
    if !key_decodes {
        return Err(Violation::InvalidClientKeyData { user: user.name.clone() });
    }
    Ok(())
}

impl KubeConfig {
    /// Finds the first rule that the document breaks.
    #[verifier::loop_isolation(false)]
    pub fn check(&self) -> (verdict: Result<(), Violation>)
        ensures
            match verdict {
                Ok(()) => violation(self.deep_view()) is None,
                Err(broken) => violation(self.deep_view()) == Some(broken.deep_view()),
            },
    {
        let ghost doc = self.deep_view();
        if !same_text(self.api_version.as_str(), "v1") {
            return Err(Violation::UnsupportedApiVersion { found: self.api_version.clone() });
        }
        if !same_text(self.kind.as_str(), "Config") {
            return Err(Violation::InvalidKind { found: self.kind.clone() });
        }
        match &self.current_context {
            Some(current) => {
                proof {
                    lemma_position(doc.contexts, current@);
                }
                if find_position(&self.contexts, current).is_none() {
                    return Err(Violation::MissingCurrentContext { name: current.clone() });
                }
            },
            None => {},
        }
        let mut i: usize = 0;
        while i < self.contexts.len()
            invariant
                i <= self.contexts.len(),
                doc == self.deep_view(),
                forall|j: int|
                    0 <= j < i ==> context_rule(doc.clusters, doc.users)(#[trigger] doc.contexts[j])
                        is None,
            decreases self.contexts.len() - i,
        {
            assert(doc.contexts[i as int] == self.contexts@[i as int].deep_view());
            match check_context(&self.clusters, &self.users, &self.contexts[i]) {
                Err(broken) => {
                    proof {
                        lemma_first_violation(
                            doc.contexts,
                            context_rule(doc.clusters, doc.users),
                            i as int,
                        );
                    }
                    return Err(broken);
                },
                Ok(()) => {},
            }
            i += 1;
        }
        proof {
            lemma_first_violation(doc.contexts, context_rule(doc.clusters, doc.users), i as int);
        }
        let mut i: usize = 0;
        while i < self.clusters.len()
            invariant
                i <= self.clusters.len(),
                doc == self.deep_view(),
                forall|j: int| 0 <= j < i ==> cluster_rule()(#[trigger] doc.clusters[j]) is None,
            decreases self.clusters.len() - i,
        {
            assert(doc.clusters[i as int] == self.clusters@[i as int].deep_view());
            let cluster = &self.clusters[i];
            let authority_decodes = inline_data_decodes(&cluster.cluster.certificate_authority_data);
            match check_cluster(cluster, authority_decodes) {
                Err(broken) => {
                    proof {
                        lemma_first_violation(doc.clusters, cluster_rule(), i as int);
                    }
                    return Err(broken);
                },
                Ok(()) => {},
            }
            i += 1;
        }
        proof {
            lemma_first_violation(doc.clusters, cluster_rule(), i as int);
        }
        let mut i: usize = 0;
        while i < self.users.len()
            invariant
                i <= self.users.len(),
                doc == self.deep_view(),
                forall|j: int| 0 <= j < i ==> user_rule()(#[trigger] doc.users[j]) is None,
            decreases self.users.len() - i,
        {
            assert(doc.users[i as int] == self.users@[i as int].deep_view());
            let user = &self.users[i];
            let certificate_decodes = inline_data_decodes(&user.user.client_certificate_data);
            let key_decodes = inline_data_decodes(&user.user.client_key_data);
            match check_user(user, certificate_decodes, key_decodes) {
                Err(broken) => {
                    proof {
                        lemma_first_violation(doc.users, user_rule(), i as int);
                    }
                    return Err(broken);
                },
                Ok(()) => {},
            }
            i += 1;
        }
        proof {
            lemma_first_violation(doc.users, user_rule(), i as int);
        }
        Ok(())
    }

    /// Checks the document against every rule, in the fixed order, and
    /// reports the first one that it breaks.
    pub fn validate(&self) -> (verdict: Result<(), KubeConfigError>)
        ensures
            verdict is Ok <==> is_valid(self.deep_view()),
            match verdict {
                Ok(()) => violation(self.deep_view()) is None,
                Err(KubeConfigError::ValidationError(message)) => violation(self.deep_view()) matches Some(
                    broken,
                ) && message@ == violation_message(broken),
                Err(_) => false,
            },
    {
        proof {
            lemma_violation_free_is_valid(self.deep_view());
        }
        match self.check() {
            Ok(()) => Ok(()),
            Err(broken) => Err(KubeConfigError::ValidationError(broken.message())),
        }
    }
}

} // verus!
