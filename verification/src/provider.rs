//! The provider contract's value types: node identifiers, instance
//! configuration, and the provider error taxonomy.

use vstd::prelude::*;

verus! {

/// A provider-side identifier of a provisioned node.
#[derive(Debug, Clone, PartialEq, Eq, Hash)]
pub struct NodeId(pub String);

/// Configuration for an instance.
#[derive(Debug, Clone, PartialEq, Eq)]
pub struct InstanceConfig {}

/// What can go wrong when asking a provider for a node.
#[derive(Debug, Clone, PartialEq, Eq)]
pub enum ProviderError {
    /// The provider couldn't create the resource at all.
    /// Bad permissions, quota exceeded, invalid config, and the like.
    CreationFailed { message: String },
    /// Resource was created but the node never joined the cluster.
    /// The provider should attempt cleanup before returning this.
    JoinTimeout { node_id: Option<NodeId> },
    /// The requested offering isn't available (sold out, wrong region).
    OfferingUnavailable(String),
    /// Required config field missing for this provider.
    MissingConfig { field: String },
    /// Underlying API or network error, as text.
    Internal(String),
}

impl ProviderError {
    /// A short display of the error, for logs.
    pub fn to_string(&self) -> (r: String)
        ensures
            self matches ProviderError::CreationFailed { message } ==> r@ == "creation failed: "@
                + message@,
            self matches ProviderError::OfferingUnavailable(m) ==> r@ == "offering unavailable: "@
                + m@,
            self matches ProviderError::MissingConfig { field } ==> r@
                == "missing required config: "@ + field@,
            self matches ProviderError::Internal(m) ==> r@ == "internal error: "@ + m@,
            self matches ProviderError::JoinTimeout { node_id: None } ==> r@
                == "node failed to join cluster within timeout"@,
            self matches ProviderError::JoinTimeout { node_id: Some(id) } ==> r@
                == "node failed to join cluster within timeout"@ + ": "@ + id.0@,
    {
        match self {
            ProviderError::CreationFailed { message } => {
                let mut s = "creation failed: ".to_owned();
                s.append(message.as_str());
                s
            },
            ProviderError::JoinTimeout { node_id } => {
                let mut s = "node failed to join cluster within timeout".to_owned();
                if let Some(id) = node_id {
                    s.append(": ");
                    s.append(id.0.as_str());
                }
                s
            },
            ProviderError::OfferingUnavailable(m) => {
                let mut s = "offering unavailable: ".to_owned();
                s.append(m.as_str());
                s
            },
            ProviderError::MissingConfig { field } => {
                let mut s = "missing required config: ".to_owned();
                s.append(field.as_str());
                s
            },
            ProviderError::Internal(m) => {
                let mut s = "internal error: ".to_owned();
                s.append(m.as_str());
                s
            },
        }
    }
}

} // verus!
