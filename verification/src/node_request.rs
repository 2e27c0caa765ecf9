//! The NodeRequest custom resource: a persisted intent to provision one
//! node, tracked through a small state machine.

use vstd::prelude::*;
use vstd::string::StringExecFns;

verus! {

/// Spec of a NodeRequest: a request to provision a single node.
///
/// NodeRequests track individual node provisioning through a state
/// machine: Pending -> Provisioning -> Ready | Unmet | Deprovisioning.
/// They are owned by a pool and cleaned up via TTL once Ready or Unmet.
#[derive(Debug, Clone, PartialEq, Eq)]
pub struct NodeRequestSpec {
    /// The offering (instance type) to provision.
    pub target_offering: String,
}

/// Phase of a NodeRequest through its lifecycle.
///
/// - `Pending`: initial state, waiting to be sent to the provider.
/// - `Provisioning`: provider accepted the request, node being created.
/// - `Ready`: node joined the cluster successfully.
/// - `Unmet`: provider couldn't fulfil the request. TTL-based cleanup.
/// - `Deprovisioning`: node failed its readiness check, being torn down.
///
/// There are no transitions out of `Ready` or `Unmet` except deletion.
#[derive(Debug, Clone, PartialEq, Eq)]
pub enum NodeRequestPhase {
    Pending,
    Provisioning,
    Ready,
    Unmet,
    Deprovisioning,
}

impl Default for NodeRequestPhase {
    /// A NodeRequest starts out Pending.
    fn default() -> (r: Self)
        ensures
            r == NodeRequestPhase::Pending,
    {
        NodeRequestPhase::Pending
    }
}

/// The display name of each phase.
pub open spec fn phase_name(p: NodeRequestPhase) -> Seq<char> {
    match p {
        NodeRequestPhase::Pending => "Pending"@,
        NodeRequestPhase::Provisioning => "Provisioning"@,
        NodeRequestPhase::Ready => "Ready"@,
        NodeRequestPhase::Unmet => "Unmet"@,
        NodeRequestPhase::Deprovisioning => "Deprovisioning"@,
    }
}

impl NodeRequestPhase {
    pub fn to_string(&self) -> (r: String)
        ensures
            r@ == phase_name(*self),
    {
        match self {
            NodeRequestPhase::Pending => "Pending".to_owned(),
            NodeRequestPhase::Provisioning => "Provisioning".to_owned(),
            NodeRequestPhase::Ready => "Ready".to_owned(),
            NodeRequestPhase::Unmet => "Unmet".to_owned(),
            NodeRequestPhase::Deprovisioning => "Deprovisioning".to_owned(),
        }
    }
}

/// A timestamped event on a NodeRequest.
#[derive(Debug, Clone, PartialEq, Eq)]
pub struct NodeRequestEvent {
    /// When the event occurred (RFC 3339 timestamp).
    pub at: String,
    /// Short name of the event, e.g. "nodeRequested", "nodeProvisioned".
    pub name: String,
    /// Optional reason or detail for failure events.
    pub reason: Option<String>,
}

/// Status of a NodeRequest: its phase, the provider node id once one
/// was assigned, and the ordered, append-only event log.
#[derive(Debug, Clone, PartialEq, Eq)]
pub struct NodeRequestStatus {
    /// Current phase of the NodeRequest.
    pub phase: NodeRequestPhase,
    /// Prospective node id, set when the provider accepts the request.
    pub node_id: Option<String>,
    /// Ordered list of lifecycle events.
    pub events: Vec<NodeRequestEvent>,
}

impl Default for NodeRequestStatus {
    /// A fresh status: Pending, no node id, no events.
    fn default() -> (r: Self)
        ensures
            r.phase == NodeRequestPhase::Pending,
            r.node_id is None,
            r.events@.len() == 0,
    {
        NodeRequestStatus { phase: NodeRequestPhase::Pending, node_id: None, events: Vec::new() }
    }
}

/// A lowercase hexadecimal digit.
pub open spec fn is_lower_hex(c: char) -> bool {
    ('0' <= c && c <= '9') || ('a' <= c && c <= 'f')
}

/// Relies on uuid::Uuid::new_v4 and its Display form: a fresh random
/// identifier rendered hyphenated as 36 characters, lowercase hex with
/// hyphens at positions 8, 13, 18 and 23. Nothing is assumed about
/// which identifier comes back.
#[verifier::external_body]
fn fresh_uuid() -> (r: String)
    ensures
        r@.len() == 36,
        r@[8] == '-' && r@[13] == '-' && r@[18] == '-' && r@[23] == '-',
        forall|i: int|
            0 <= i < 36 && i != 8 && i != 13 && i != 18 && i != 23 ==> is_lower_hex(
                #[trigger] r@[i],
            ),
{
    uuid::Uuid::new_v4().to_string()
}

/// The generated name of a NodeRequest: `{pool}-{uuid}`. After the pool
/// name and its separating hyphen come 36 characters of a fresh
/// hyphenated version-4 identifier: lowercase hex, with hyphens 9, 14,
/// 19 and 24 characters past the separator.
pub fn node_request_name(pool: &str) -> (r: String)
    ensures
        r@.len() == pool@.len() + 37,
        r@.subrange(0, pool@.len() as int) == pool@,
        r@[pool@.len() as int] == '-',
        forall|i: int|
            pool@.len() + 1 <= i < r@.len() ==> is_lower_hex(#[trigger] r@[i]) || r@[i] == '-',
        r@[pool@.len() as int + 9] == '-' && r@[pool@.len() as int + 14] == '-' && r@[pool@.len()
            as int + 19] == '-' && r@[pool@.len() as int + 24] == '-',
{
    proof {
        reveal_strlit("-");
    }
    let mut s = pool.to_owned();
    s.append("-");
    let id = fresh_uuid();
    s.append(id.as_str());
    proof {
        assert(s@.subrange(0, pool@.len() as int) =~= pool@);
        assert forall|i: int|
            pool@.len() + 1 <= i < s@.len() implies is_lower_hex(#[trigger] s@[i]) || s@[i]
            == '-' by {
            assert(s@[i] == id@[i - pool@.len() - 1]);
        }
    }
    s
}

} // verus!
