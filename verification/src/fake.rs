//! A deterministic, in-memory provider for testing failure modes.
//!
//! Each call to `create` or `delete` pops the next behaviour from a
//! queue; when the queue is empty, the configured default applies. Node
//! ids are handed out from a monotonically increasing counter, so a
//! successful `create` never repeats an id.

use vstd::prelude::*;
use vstd::string::StringExecFns;

use crate::offering::Offering;
use crate::optimiser::clone_offering;
use crate::provider::InstanceConfig;
use crate::provider::NodeId;
use crate::provider::ProviderError;
use crate::text::lemma_decimal_injective;
use crate::text::spec_decimal;
use crate::text::u64_to_decimal;

verus! {

/// What happens on the next `create()` call.
#[derive(Debug, Clone, PartialEq, Eq)]
pub enum CreateBehavior {
    /// Happy path: returns Ok(NodeId).
    Succeed,
    /// Returns Ok(NodeId) but the node never appears in the cluster.
    SucceedButNodeNeverJoins,
    /// Returns Ok(NodeId); the caller should delay the given number of
    /// milliseconds first.
    SucceedAfterDelay(u64),
    /// The offering isn't available (sold out, wrong region, etc).
    OfferingUnavailable,
    /// General creation failure.
    CreationFailed(String),
    /// Node was created but never joined the cluster within timeout.
    JoinTimeout,
    /// Network or API blowup.
    InternalError(String),
}

/// What happens on the next `delete()` call.
#[derive(Debug, Clone, PartialEq, Eq)]
pub enum DeleteBehavior {
    /// Node removed successfully.
    Succeed,
    /// Returns Ok(()) but the node persists (silent no-op).
    Noop,
    /// Deletion failed.
    Fail(String),
}

/// How `offerings()` behaves.
#[derive(Debug, Clone, PartialEq)]
pub enum OfferingsBehavior {
    /// Returns the same set every call.
    Static(Vec<Offering>),
    /// Returns successive elements; sticks on the last one when
    /// exhausted.
    Sequence(Vec<Vec<Offering>>),
}

/// Logged record of a `create()` call.
#[derive(Debug, Clone, PartialEq)]
pub struct CreateCall {
    pub offering: Offering,
    pub result_node_id: Option<NodeId>,
}

/// Logged record of a `delete()` call.
#[derive(Debug, Clone, PartialEq, Eq)]
pub struct DeleteCall {
    pub node_id: NodeId,
}

/// The text of the synthetic node id numbered `k`.
pub open spec fn fake_node_id_text(k: nat) -> Seq<char> {
    "fake-node-"@ + spec_decimal(k)
}

/// Distinct counters give distinct id texts.
proof fn lemma_fake_node_id_injective(a: nat, b: nat)
    requires
        fake_node_id_text(a) == fake_node_id_text(b),
    ensures
        a == b,
{
    let p = "fake-node-"@;
    assert((p + spec_decimal(a)).subrange(p.len() as int, (p + spec_decimal(a)).len() as int)
        =~= spec_decimal(a));
    assert((p + spec_decimal(b)).subrange(p.len() as int, (p + spec_decimal(b)).len() as int)
        =~= spec_decimal(b));
    lemma_decimal_injective(a, b);
}

/// A deterministic, in-memory provider for testing failure modes.
#[derive(Debug)]
pub struct FakeProvider {
    pub offerings_behavior: OfferingsBehavior,
    pub create_behaviors: Vec<CreateBehavior>,
    pub delete_behaviors: Vec<DeleteBehavior>,
    pub default_create: CreateBehavior,
    pub default_delete: DeleteBehavior,
    pub create_calls: Vec<CreateCall>,
    pub delete_calls: Vec<DeleteCall>,
    /// The next synthetic node id number; starts at 1.
    pub next_id: u64,
}

/// The behaviour the next `create()` call will follow.
pub open spec fn next_create_behavior(p: FakeProvider) -> CreateBehavior {
    if p.create_behaviors@.len() > 0 {
        p.create_behaviors@[0]
    } else {
        p.default_create
    }
}

/// The behaviour the next `delete()` call will follow.
pub open spec fn next_delete_behavior(p: FakeProvider) -> DeleteBehavior {
    if p.delete_behaviors@.len() > 0 {
        p.delete_behaviors@[0]
    } else {
        p.default_delete
    }
}

impl FakeProvider {
    /// Every node id ever handed out in the call log came from a counter
    /// value below `next_id`.
    pub open spec fn wf(self) -> bool {
        forall|i: int|
            0 <= i < self.create_calls@.len() ==> ((#[trigger] self.create_calls@[i]).result_node_id
                matches Some(nid) ==> exists|k: nat| k < self.next_id && nid.0@ == fake_node_id_text(k))
    }

    pub fn new() -> (r: Self)
        ensures
            r.offerings_behavior matches OfferingsBehavior::Static(v) && v@.len() == 0,
            r.create_behaviors@.len() == 0,
            r.delete_behaviors@.len() == 0,
            r.default_create == CreateBehavior::Succeed,
            r.default_delete == DeleteBehavior::Succeed,
            r.create_calls@.len() == 0,
            r.delete_calls@.len() == 0,
            r.next_id == 1,
            r.wf(),
    {
        FakeProvider {
            offerings_behavior: OfferingsBehavior::Static(Vec::new()),
            create_behaviors: Vec::new(),
            delete_behaviors: Vec::new(),
            default_create: CreateBehavior::Succeed,
            default_delete: DeleteBehavior::Succeed,
            create_calls: Vec::new(),
            delete_calls: Vec::new(),
            next_id: 1,
        }
    }

    // ── Builder methods ─────────────────────────────────────────────
    /// The same offerings on every call.
    pub fn with_offerings(self, offerings: Vec<Offering>) -> (r: Self)
        ensures
            r.offerings_behavior matches OfferingsBehavior::Static(v) && v == offerings,
            r.create_behaviors == self.create_behaviors,
            r.delete_behaviors == self.delete_behaviors,
            r.default_create == self.default_create,
            r.default_delete == self.default_delete,
            r.create_calls == self.create_calls,
            r.delete_calls == self.delete_calls,
            r.next_id == self.next_id,
            self.wf() ==> r.wf(),
    {
        FakeProvider { offerings_behavior: OfferingsBehavior::Static(offerings), ..self }
    }

    /// Successive offering sets, sticking on the last when exhausted.
    pub fn with_offerings_sequence(self, seq: Vec<Vec<Offering>>) -> (r: Self)
        ensures
            r.offerings_behavior matches OfferingsBehavior::Sequence(v) && v == seq,
            r.create_behaviors == self.create_behaviors,
            r.delete_behaviors == self.delete_behaviors,
            r.default_create == self.default_create,
            r.default_delete == self.default_delete,
            r.create_calls == self.create_calls,
            r.delete_calls == self.delete_calls,
            r.next_id == self.next_id,
            self.wf() ==> r.wf(),
    {
        FakeProvider { offerings_behavior: OfferingsBehavior::Sequence(seq), ..self }
    }

    /// Queue a behaviour for an upcoming `create()` call.
    pub fn on_next_create(self, behavior: CreateBehavior) -> (r: Self)
        ensures
            r.create_behaviors@ == self.create_behaviors@.push(behavior),
            r.offerings_behavior == self.offerings_behavior,
            r.delete_behaviors == self.delete_behaviors,
            r.default_create == self.default_create,
            r.default_delete == self.default_delete,
            r.create_calls == self.create_calls,
            r.delete_calls == self.delete_calls,
            r.next_id == self.next_id,
            self.wf() ==> r.wf(),
    {
        let mut s = self;
        s.create_behaviors.push(behavior);
        s
    }

    /// Queue a behaviour for an upcoming `delete()` call.
    pub fn on_next_delete(self, behavior: DeleteBehavior) -> (r: Self)
        ensures
            r.delete_behaviors@ == self.delete_behaviors@.push(behavior),
            r.offerings_behavior == self.offerings_behavior,
            r.create_behaviors == self.create_behaviors,
            r.default_create == self.default_create,
            r.default_delete == self.default_delete,
            r.create_calls == self.create_calls,
            r.delete_calls == self.delete_calls,
            r.next_id == self.next_id,
            self.wf() ==> r.wf(),
    {
        let mut s = self;
        s.delete_behaviors.push(behavior);
        s
    }

    /// The behaviour applied to `create()` once the queue is empty.
    pub fn with_default_create(self, behavior: CreateBehavior) -> (r: Self)
        ensures
            r.default_create == behavior,
            r.offerings_behavior == self.offerings_behavior,
            r.create_behaviors == self.create_behaviors,
            r.delete_behaviors == self.delete_behaviors,
            r.default_delete == self.default_delete,
            r.create_calls == self.create_calls,
            r.delete_calls == self.delete_calls,
            r.next_id == self.next_id,
            self.wf() ==> r.wf(),
    {
        FakeProvider { default_create: behavior, ..self }
    }

    /// The behaviour applied to `delete()` once the queue is empty.
    pub fn with_default_delete(self, behavior: DeleteBehavior) -> (r: Self)
        ensures
            r.default_delete == behavior,
            r.offerings_behavior == self.offerings_behavior,
            r.create_behaviors == self.create_behaviors,
            r.delete_behaviors == self.delete_behaviors,
            r.default_create == self.default_create,
            r.create_calls == self.create_calls,
            r.delete_calls == self.delete_calls,
            r.next_id == self.next_id,
            self.wf() ==> r.wf(),
    {
        FakeProvider { default_delete: behavior, ..self }
    }

    // ── Introspection ───────────────────────────────────────────────
    /// The full audit log of `create()` calls.
    pub fn create_calls(&self) -> (r: Vec<CreateCall>)
        ensures
            r@ == self.create_calls@,
    {
        let mut r: Vec<CreateCall> = Vec::new();
        let mut i: usize = 0;
        while i < self.create_calls.len()
            invariant
                i <= self.create_calls@.len(),
                r@ =~= self.create_calls@.subrange(0, i as int),
            decreases self.create_calls@.len() - i,
        {
            let c = &self.create_calls[i];
            r.push(
                CreateCall {
                    offering: clone_offering(&c.offering),
                    result_node_id: match &c.result_node_id {
                        Some(n) => Some(NodeId(n.0.clone())),
                        None => None,
                    },
                },
            );
            i = i + 1;
        }
        proof {
            assert(r@ =~= self.create_calls@);
        }
        r
    }

    /// The full audit log of `delete()` calls.
    pub fn delete_calls(&self) -> (r: Vec<DeleteCall>)
        ensures
            r@ == self.delete_calls@,
    {
        let mut r: Vec<DeleteCall> = Vec::new();
        let mut i: usize = 0;
        while i < self.delete_calls.len()
            invariant
                i <= self.delete_calls@.len(),
                r@ =~= self.delete_calls@.subrange(0, i as int),
            decreases self.delete_calls@.len() - i,
        {
            r.push(DeleteCall { node_id: NodeId(self.delete_calls[i].node_id.0.clone()) });
            i = i + 1;
        }
        proof {
            assert(r@ =~= self.delete_calls@);
        }
        r
    }

    // ── Provider implementation ─────────────────────────────────────
    fn next_node_id(&mut self) -> (r: NodeId)
        requires
            old(self).next_id < u64::MAX,
        ensures
            r.0@ == fake_node_id_text(old(self).next_id as nat),
            final(self).next_id == old(self).next_id + 1,
            final(self).offerings_behavior == old(self).offerings_behavior,
            final(self).create_behaviors == old(self).create_behaviors,
            final(self).delete_behaviors == old(self).delete_behaviors,
            final(self).default_create == old(self).default_create,
            final(self).default_delete == old(self).default_delete,
            final(self).create_calls == old(self).create_calls,
            final(self).delete_calls == old(self).delete_calls,
    {
        let n = self.next_id;
        self.next_id = self.next_id + 1;
        let mut s = "fake-node-".to_owned();
        let digits = u64_to_decimal(n);
        s.append(digits.as_str());
        NodeId(s)
    }

    /// The current offering catalogue. A static catalogue is returned on
    /// every call; a sequence advances once per call and sticks on its
    /// last element, returning the empty catalogue once nothing is left.
    pub fn offerings(&mut self) -> (r: Vec<Offering>)
        ensures
            old(self).offerings_behavior matches OfferingsBehavior::Static(v) ==> r@ == v@
                && *final(self) == *old(self),
            old(self).offerings_behavior matches OfferingsBehavior::Sequence(s) ==> ({
                &&& s@.len() > 1 ==> (r == s@[0] && (final(self).offerings_behavior matches
                OfferingsBehavior::Sequence(s2) && s2@ == s@.drop_first()))
                &&& s@.len() == 1 ==> (r@ == s@[0]@ && *final(self) == *old(self))
                &&& s@.len() == 0 ==> (r@.len() == 0 && *final(self) == *old(self))
            }),
            final(self).create_behaviors == old(self).create_behaviors,
            final(self).delete_behaviors == old(self).delete_behaviors,
            final(self).default_create == old(self).default_create,
            final(self).default_delete == old(self).default_delete,
            final(self).create_calls == old(self).create_calls,
            final(self).delete_calls == old(self).delete_calls,
            final(self).next_id == old(self).next_id,
            old(self).wf() ==> final(self).wf(),
    {
        match &mut self.offerings_behavior {
            OfferingsBehavior::Static(v) => clone_offering_vec(v),
            OfferingsBehavior::Sequence(seq) => {
                if seq.len() > 1 {
                    seq.remove(0)
                } else if seq.len() == 1 {
                    // Stick on the last element.
                    clone_offering_vec(&seq[0])
                } else {
                    Vec::new()
                }
            },
        }
    }

    /// Request a node. The next queued behaviour (or the default) decides
    /// the outcome; every call is appended to the audit log, and a
    /// successful call returns a node id never returned before by this
    /// provider instance.
    pub fn create(&mut self, offering: &Offering, config: &InstanceConfig) -> (r: Result<
        NodeId,
        ProviderError,
    >)
        requires
            old(self).next_id < u64::MAX,
            old(self).wf(),
        ensures
            final(self).wf(),
            ({
                let b = next_create_behavior(*old(self));
                &&& ((b is Succeed || b is SucceedButNodeNeverJoins || b matches
                CreateBehavior::SucceedAfterDelay(_)) ==> (r matches Ok(nid) && nid.0@
                    == fake_node_id_text(old(self).next_id as nat) && final(self).next_id == old(
                    self,
                ).next_id + 1))
                &&& (b is OfferingUnavailable ==> (r matches Err(
                    ProviderError::OfferingUnavailable(m),
                ) && m@ == offering.instance_type.0@ + " not available"@))
                &&& (b matches CreateBehavior::CreationFailed(msg) ==> r == Result::<
                    NodeId,
                    ProviderError,
                >::Err(ProviderError::CreationFailed { message: msg }))
                &&& (b is JoinTimeout ==> r == Result::<NodeId, ProviderError>::Err(
                    ProviderError::JoinTimeout { node_id: None },
                ))
                &&& (b matches CreateBehavior::InternalError(msg) ==> r == Result::<
                    NodeId,
                    ProviderError,
                >::Err(ProviderError::Internal(msg)))
                &&& (r is Err ==> final(self).next_id == old(self).next_id)
            }),
            (old(self).create_behaviors@.len() > 0 ==> final(self).create_behaviors@ == old(
                self,
            ).create_behaviors@.drop_first()),
            (old(self).create_behaviors@.len() == 0 ==> final(self).create_behaviors@ == old(
                self,
            ).create_behaviors@),
            final(self).create_calls@ == old(self).create_calls@.push(
                CreateCall {
                    offering: *offering,
                    result_node_id: match r {
                        Ok(nid) => Some(nid),
                        Err(_) => None,
                    },
                },
            ),
            r matches Ok(nid) ==> forall|i: int|
                0 <= i < old(self).create_calls@.len() ==> ((#[trigger] old(
                    self,
                ).create_calls@[i]).result_node_id matches Some(prev) ==> prev.0@ != nid.0@),
            final(self).offerings_behavior == old(self).offerings_behavior,
            final(self).delete_behaviors == old(self).delete_behaviors,
            final(self).default_create == old(self).default_create,
            final(self).default_delete == old(self).default_delete,
            final(self).delete_calls == old(self).delete_calls,
    {
        let behavior = if self.create_behaviors.len() > 0 {
            self.create_behaviors.remove(0)
        } else {
            clone_create_behavior(&self.default_create)
        };
        let result: Result<NodeId, ProviderError> = match behavior {
            CreateBehavior::Succeed => Ok(self.next_node_id()),
            CreateBehavior::SucceedButNodeNeverJoins => Ok(self.next_node_id()),
            CreateBehavior::SucceedAfterDelay(_millis) => Ok(self.next_node_id()),
            CreateBehavior::OfferingUnavailable => {
                let mut m = offering.instance_type.0.clone();
                m.append(" not available");
                Err(ProviderError::OfferingUnavailable(m))
            },
            CreateBehavior::CreationFailed(msg) => Err(
                ProviderError::CreationFailed { message: msg },
            ),
            CreateBehavior::JoinTimeout => Err(ProviderError::JoinTimeout { node_id: None }),
            CreateBehavior::InternalError(msg) => Err(ProviderError::Internal(msg)),
        };
        // Log the call.
        let result_node_id = match &result {
            Ok(nid) => Some(NodeId(nid.0.clone())),
            Err(_) => None,
        };
        self.create_calls.push(
            CreateCall { offering: clone_offering(offering), result_node_id },
        );
        proof {
            if result is Ok {
                let nid = result->Ok_0;
                assert forall|i: int| 0 <= i < old(self).create_calls@.len() implies ((
                #[trigger] old(self).create_calls@[i]).result_node_id matches Some(prev)
                    ==> prev.0@ != nid.0@) by {
                    if old(self).create_calls@[i].result_node_id is Some {
                        let prev = old(self).create_calls@[i].result_node_id->Some_0;
                        let k = choose|k: nat|
                            k < old(self).next_id && prev.0@ == fake_node_id_text(k);
                        if prev.0@ == nid.0@ {
                            lemma_fake_node_id_injective(k, old(self).next_id as nat);
                        }
                    }
                }
            }
            assert forall|i: int| 0 <= i < self.create_calls@.len() implies ((#[trigger] self
                .create_calls@[i]).result_node_id matches Some(nid2) ==> exists|k: nat|
                k < self.next_id && nid2.0@ == fake_node_id_text(k)) by {
                if i < old(self).create_calls@.len() {
                    assert(self.create_calls@[i] == old(self).create_calls@[i]);
                } else {
                    assert(self.create_calls@[i] == self.create_calls@.last());
                    if result is Ok {
                        assert((self.create_calls@.last().result_node_id->Some_0).0@
                            == fake_node_id_text(old(self).next_id as nat));
                        assert(old(self).next_id < self.next_id);
                    }
                }
            }
        }
        result
    }

    /// Decommission a node. The next queued behaviour (or the default)
    /// decides the outcome; every call is appended to the audit log.
    pub fn delete(&mut self, node_id: &NodeId) -> (r: Result<(), ProviderError>)
        ensures
            ({
                let b = next_delete_behavior(*old(self));
                &&& ((b is Succeed || b is Noop) ==> r is Ok)
                &&& (b matches DeleteBehavior::Fail(msg) ==> r == Result::<(), ProviderError>::Err(
                    ProviderError::CreationFailed { message: msg },
                ))
            }),
            (old(self).delete_behaviors@.len() > 0 ==> final(self).delete_behaviors@ == old(
                self,
            ).delete_behaviors@.drop_first()),
            (old(self).delete_behaviors@.len() == 0 ==> final(self).delete_behaviors@ == old(
                self,
            ).delete_behaviors@),
            final(self).delete_calls@ == old(self).delete_calls@.push(
                DeleteCall { node_id: *node_id },
            ),
            final(self).offerings_behavior == old(self).offerings_behavior,
            final(self).create_behaviors == old(self).create_behaviors,
            final(self).default_create == old(self).default_create,
            final(self).default_delete == old(self).default_delete,
            final(self).create_calls == old(self).create_calls,
            final(self).next_id == old(self).next_id,
            old(self).wf() ==> final(self).wf(),
    {
        let behavior = if self.delete_behaviors.len() > 0 {
            self.delete_behaviors.remove(0)
        } else {
            clone_delete_behavior(&self.default_delete)
        };
        self.delete_calls.push(DeleteCall { node_id: NodeId(node_id.0.clone()) });
        match behavior {
            DeleteBehavior::Succeed => Ok(()),
            DeleteBehavior::Noop => Ok(()),
            DeleteBehavior::Fail(msg) => Err(ProviderError::CreationFailed { message: msg }),
        }
    }
}

fn clone_create_behavior(b: &CreateBehavior) -> (r: CreateBehavior)
    ensures
        r == *b,
{
    match b {
        CreateBehavior::Succeed => CreateBehavior::Succeed,
        CreateBehavior::SucceedButNodeNeverJoins => CreateBehavior::SucceedButNodeNeverJoins,
        CreateBehavior::SucceedAfterDelay(ms) => CreateBehavior::SucceedAfterDelay(*ms),
        CreateBehavior::OfferingUnavailable => CreateBehavior::OfferingUnavailable,
        CreateBehavior::CreationFailed(m) => CreateBehavior::CreationFailed(m.clone()),
        CreateBehavior::JoinTimeout => CreateBehavior::JoinTimeout,
        CreateBehavior::InternalError(m) => CreateBehavior::InternalError(m.clone()),
    }
}

fn clone_delete_behavior(b: &DeleteBehavior) -> (r: DeleteBehavior)
    ensures
        r == *b,
{
    match b {
        DeleteBehavior::Succeed => DeleteBehavior::Succeed,
        DeleteBehavior::Noop => DeleteBehavior::Noop,
        DeleteBehavior::Fail(m) => DeleteBehavior::Fail(m.clone()),
    }
}

fn clone_offering_vec(v: &Vec<Offering>) -> (r: Vec<Offering>)
    ensures
        r@ == v@,
{
    let mut r: Vec<Offering> = Vec::new();
    let mut i: usize = 0;
    while i < v.len()
        invariant
            i <= v@.len(),
            r@ =~= v@.subrange(0, i as int),
        decreases v@.len() - i,
    {
        r.push(clone_offering(&v[i]));
        i = i + 1;
    }
    proof {
        assert(r@ =~= v@);
    }
    r
}

} // verus!
