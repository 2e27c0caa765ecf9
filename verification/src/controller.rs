//! The reconcile engine's decision logic: which observed pods drive
//! autoscaling, how the cluster state snapshot is assembled, and which
//! node requests a placement solution turns into.

use vstd::prelude::*;

use crate::offering::all_quantities_parse;
use crate::offering::demand_fits;
use crate::offering::first_failure_from;
use crate::offering::lemma_sums_monotone;
use crate::offering::pod_demand_matches;
use crate::offering::spec_satisfies;
use crate::offering::ContainerRequests;
use crate::offering::Offering;
use crate::offering::PodConditionInfo;
use crate::offering::PodInfo;
use crate::offering::PodResources;
use crate::offering::QuantityParseError;
use crate::optimiser::clone_offering;
use crate::optimiser::PlacementSolution;
use crate::text::str_eq;

verus! {

/// A snapshot of what one reconcile works on: the pending demands and
/// the provider's current offerings. Immutable for the duration of one
/// reconcile.
pub struct ClusterState {
    pub demands: Vec<PodResources>,
    pub offerings: Vec<Offering>,
}

/// One node to request: a pool name and the offering to provision.
#[derive(Debug)]
pub struct NodeRequestDemand {
    pub pool: String,
    pub target_offering: Offering,
}

impl NodeRequestDemand {
    pub fn new(pool: String, target_offering: Offering) -> (r: Self)
        ensures
            r.pool == pool,
            r.target_offering == target_offering,
    {
        NodeRequestDemand { pool, target_offering }
    }
}

/// A condition that marks a pod unschedulable:
/// `PodScheduled=False` with reason `Unschedulable`.
pub open spec fn cond_unschedulable(c: PodConditionInfo) -> bool {
    &&& c.type_@ == "PodScheduled"@
    &&& c.status@ == "False"@
    &&& c.reason matches Some(r) && r@ == "Unschedulable"@
}

/// Whether a pod carries the `PodScheduled=False/Unschedulable`
/// condition.
pub open spec fn pod_unschedulable(p: PodInfo) -> bool {
    exists|i: int| 0 <= i < p.conditions@.len() && cond_unschedulable(#[trigger] p.conditions@[i])
}

/// Whether a pod is owned by a DaemonSet. DaemonSet pods target every
/// node regardless of capacity and must never drive autoscaling.
pub open spec fn pod_daemonset(p: PodInfo) -> bool {
    exists|i: int| 0 <= i < p.owner_kinds@.len() && (#[trigger] p.owner_kinds@[i])@ == "DaemonSet"@
}

/// Check whether a pod has the `PodScheduled=False/Unschedulable`
/// condition.
pub fn is_pod_unschedulable(pod: &PodInfo) -> (r: bool)
    ensures
        r == pod_unschedulable(*pod),
{
    let n = pod.conditions.len();
    let mut i: usize = 0;
    while i < n
        invariant
            i <= n,
            n == pod.conditions@.len(),
            forall|k: int| 0 <= k < i ==> !cond_unschedulable(#[trigger] pod.conditions@[k]),
        decreases n - i,
    {
        let c = &pod.conditions[i];
        let matches_type = str_eq(c.type_.as_str(), "PodScheduled");
        let matches_status = str_eq(c.status.as_str(), "False");
        let matches_reason = match &c.reason {
            Some(reason) => str_eq(reason.as_str(), "Unschedulable"),
            None => false,
        };
        if matches_type && matches_status && matches_reason {
            return true;
        }
        i = i + 1;
    }
    false
}

fn is_daemonset_pod(pod: &PodInfo) -> (r: bool)
    ensures
        r == pod_daemonset(*pod),
{
    let n = pod.owner_kinds.len();
    let mut i: usize = 0;
    while i < n
        invariant
            i <= n,
            n == pod.owner_kinds@.len(),
            forall|k: int| 0 <= k < i ==> (#[trigger] pod.owner_kinds@[k])@ != "DaemonSet"@,
        decreases n - i,
    {
        if str_eq(pod.owner_kinds[i].as_str(), "DaemonSet") {
            return true;
        }
        i = i + 1;
    }
    false
}

/// A pod drives autoscaling when it is unschedulable and not owned by a
/// DaemonSet.
pub open spec fn pod_drives_scaling(p: PodInfo) -> bool {
    pod_unschedulable(p) && !pod_daemonset(p)
}

/// The pods that drive autoscaling, in observation order.
pub open spec fn driving_pods(pods: Seq<PodInfo>) -> Seq<PodInfo> {
    pods.filter(|p: PodInfo| pod_drives_scaling(p))
}

/// Keep the pods that should drive autoscaling: those observed as
/// unschedulable and not owned by a DaemonSet.
pub fn filter_unschedulable(pods: Vec<PodInfo>) -> (r: Vec<PodInfo>)
    ensures
        r@ == driving_pods(pods@),
{
    let ghost orig = pods@;
    let mut rest = pods;
    let mut r: Vec<PodInfo> = Vec::new();
    while rest.len() > 0
        invariant
            rest@.len() <= orig.len(),
            rest@ =~= orig.subrange(orig.len() - rest@.len(), orig.len() as int),
            r@ == driving_pods(orig.subrange(0, orig.len() - rest@.len())),
        decreases rest@.len(),
    {
        let ghost k = orig.len() - rest@.len();
        let p = rest.remove(0);
        proof {
            assert(p == orig[k as int]);
            let prefix = orig.subrange(0, k as int);
            let next = orig.subrange(0, k as int + 1);
            assert(next.drop_last() =~= prefix);
            assert(next.last() == orig[k as int]);
            reveal_with_fuel(Seq::filter, 2);
            assert(rest@ =~= orig.subrange(orig.len() - rest@.len(), orig.len() as int));
        }
        let keep = is_pod_unschedulable(&p) && !is_daemonset_pod(&p);
        if keep {
            r.push(p);
        }
    }
    proof {
        assert(orig.subrange(0, orig.len() as int) =~= orig);
    }
    r
}

/// Whether every pod's summed demand fits the resource fields.
pub open spec fn all_demands_fit(pods: Seq<PodInfo>) -> bool {
    forall|i: int| 0 <= i < pods.len() ==> demand_fits((#[trigger] pods[i]).containers@)
}

/// Whether every quantity of every pod parses.
pub open spec fn all_pods_parse(pods: Seq<PodInfo>) -> bool {
    forall|i: int| 0 <= i < pods.len() ==> all_quantities_parse((#[trigger] pods[i]).containers@)
}

/// The first unparseable quantity over all pods, in order.
pub open spec fn first_pod_failure(pods: Seq<PodInfo>, i: int) -> Option<Seq<char>>
    decreases pods.len() - i,
{
    if i < 0 || i >= pods.len() {
        None
    } else {
        match first_failure_from(pods[i].containers@, 0) {
            Some(raw) => Some(raw),
            None => first_pod_failure(pods, i + 1),
        }
    }
}

proof fn lemma_first_pod_failure_skip(pods: Seq<PodInfo>, i: int)
    requires
        0 < i <= pods.len(),
        forall|k: int| 0 <= k < i ==> all_quantities_parse((#[trigger] pods[k]).containers@),
        forall|k: int|
            0 <= k < i ==> first_failure_from((#[trigger] pods[k]).containers@, 0) is None,
    ensures
        first_pod_failure(pods, 0) == first_pod_failure(pods, i),
    decreases i,
{
    if i > 1 {
        lemma_first_pod_failure_skip(pods, i - 1);
    }
}

/// Decide executably whether every pod's summed demand fits. The sums
/// are accumulated in 64 bits and cut short as soon as one dimension
/// exceeds the field's range.
pub fn demands_fit(pods: &Vec<PodInfo>) -> (b: bool)
    ensures
        b == all_demands_fit(pods@),
{
    let mut i: usize = 0;
    while i < pods.len()
        invariant
            i <= pods@.len(),
            forall|k: int| 0 <= k < i ==> demand_fits((#[trigger] pods@[k]).containers@),
        decreases pods@.len() - i,
    {
        if !pod_demand_fits(&pods[i]) {
            return false;
        }
        i = i + 1;
    }
    true
}

fn pod_demand_fits(pod: &PodInfo) -> (b: bool)
    ensures
        b == demand_fits(pod.containers@),
{
    let ghost cs = pod.containers@;
    let mut cpu: u64 = 0;
    let mut memory: u64 = 0;
    let mut gpu: u64 = 0;
    let mut storage: u64 = 0;
    let n = pod.containers.len();
    let mut i: usize = 0;
    while i < n
        invariant
            i <= n,
            n == cs.len(),
            cs == pod.containers@,
            cpu as int == crate::offering::sum_cpu(cs, i as int),
            memory as int == crate::offering::sum_memory(cs, i as int),
            gpu as int == crate::offering::sum_gpu(cs, i as int),
            storage as int == crate::offering::sum_storage(cs, i as int),
            cpu <= 0xffff_ffffu64,
            memory <= 0xffff_ffffu64,
            gpu <= 0xffff_ffffu64,
            storage <= 0xffff_ffffu64,
        decreases n - i,
    {
        let c = &pod.containers[i];
        let dc: u64 = match &c.cpu {
            Some(q) => match crate::offering::parse_cpu(q.as_str()) {
                Ok(v) => v as u64,
                Err(_) => 0,
            },
            None => 0,
        };
        let dm: u64 = match &c.memory {
            Some(q) => match crate::offering::parse_memory_mib(q.as_str()) {
                Ok(v) => v as u64,
                Err(_) => 0,
            },
            None => 0,
        };
        let dg: u64 = match &c.gpu {
            Some(q) => match crate::offering::parse_gpu_count(q.as_str()) {
                Ok(v) => v as u64,
                Err(_) => 0,
            },
            None => 0,
        };
        let ds: u64 = match &c.ephemeral_storage {
            Some(q) => match crate::offering::parse_storage_gib(q.as_str()) {
                Ok(v) => v as u64,
                Err(_) => 0,
            },
            None => 0,
        };
        cpu = cpu + dc;
        memory = memory + dm;
        gpu = gpu + dg;
        storage = storage + ds;
        if cpu > 0xffff_ffff || memory > 0xffff_ffff || gpu > 0xffff_ffff || storage
            > 0xffff_ffff {
            proof {
                lemma_sums_monotone(cs, i as int + 1, cs.len() as int);
            }
            return false;
        }
        i = i + 1;
    }
    true
}

/// Assemble the cluster-state snapshot: parse every driving pod into its
/// summed demand, aborting on the first unparseable quantity, and carry
/// the offerings catalogue along.
pub fn build_cluster_state(pods: &Vec<PodInfo>, offerings: Vec<Offering>) -> (r: Result<
    ClusterState,
    QuantityParseError,
>)
    requires
        all_demands_fit(pods@),
    ensures
        r is Ok <==> all_pods_parse(pods@),
        r matches Ok(st) ==> {
            &&& st.offerings == offerings
            &&& st.demands@.len() == pods@.len()
            &&& forall|i: int|
                0 <= i < pods@.len() ==> pod_demand_matches(#[trigger] st.demands@[i], pods@[i])
        },
        r matches Err(e) ==> Some(e.raw@) == first_pod_failure(pods@, 0),
{
    let mut demands: Vec<PodResources> = Vec::new();
    let mut i: usize = 0;
    while i < pods.len()
        invariant
            i <= pods@.len(),
            all_demands_fit(pods@),
            demands@.len() == i,
            forall|k: int| 0 <= k < i ==> pod_demand_matches(#[trigger] demands@[k], pods@[k]),
            forall|k: int| 0 <= k < i ==> all_quantities_parse((#[trigger] pods@[k]).containers@),
            forall|k: int|
                0 <= k < i ==> first_failure_from((#[trigger] pods@[k]).containers@, 0) is None,
        decreases pods@.len() - i,
    {
        proof {
            if i > 0 {
                lemma_first_pod_failure_skip(pods@, i as int);
            }
        }
        match PodResources::from_pod(&pods[i]) {
            Ok(pr) => {
                demands.push(pr);
            },
            Err(e) => {
                return Err(e);
            },
        }
        proof {
            crate::offering::lemma_no_failure_when_parsing(pods@[i as int].containers@);
        }
        i = i + 1;
    }
    Ok(ClusterState { demands, offerings })
}

/// An offering is suitable when it satisfies at least one demand.
pub open spec fn offering_suitable(o: Offering, demands: Seq<PodResources>) -> bool {
    exists|i: int| 0 <= i < demands.len() && spec_satisfies(o.resources, (#[trigger] demands[i]).resources)
}

/// The offerings that satisfy at least one demand, in catalogue order.
pub open spec fn suitable(offerings: Seq<Offering>, demands: Seq<PodResources>) -> Seq<Offering> {
    offerings.filter(|o: Offering| offering_suitable(o, demands))
}

fn satisfies_any(o: &Offering, demands: &Vec<PodResources>) -> (r: bool)
    ensures
        r == offering_suitable(*o, demands@),
{
    let mut i: usize = 0;
    while i < demands.len()
        invariant
            i <= demands@.len(),
            forall|k: int|
                0 <= k < i ==> !spec_satisfies(o.resources, (#[trigger] demands@[k]).resources),
        decreases demands@.len() - i,
    {
        if o.satisfies(&demands[i].resources) {
            return true;
        }
        i = i + 1;
    }
    false
}

impl ClusterState {
    /// The catalogue narrowed to offerings that satisfy at least one
    /// demand. An optimisation before handing the catalogue to the
    /// optimiser; does not affect which demands can be placed.
    pub fn suitable_offerings(&self) -> (r: Vec<Offering>)
        ensures
            r@ == suitable(self.offerings@, self.demands@),
    {
        let mut r: Vec<Offering> = Vec::new();
        let mut i: usize = 0;
        while i < self.offerings.len()
            invariant
                i <= self.offerings@.len(),
                r@ == suitable(self.offerings@.subrange(0, i as int), self.demands@),
            decreases self.offerings@.len() - i,
        {
            let keep = satisfies_any(&self.offerings[i], &self.demands);
            proof {
                let prefix = self.offerings@.subrange(0, i as int);
                let next = self.offerings@.subrange(0, i as int + 1);
                assert(next.drop_last() =~= prefix);
                assert(next.last() == self.offerings@[i as int]);
                reveal_with_fuel(Seq::filter, 2);
            }
            if keep {
                r.push(clone_offering(&self.offerings[i]));
            }
            i = i + 1;
        }
        proof {
            assert(self.offerings@.subrange(0, self.offerings@.len() as int) =~= self.offerings@);
        }
        r
    }
}

/// One node request per node of the solution, each in the placeholder
/// pool, carrying the node's offering. Pools are not real yet: the
/// controller writes the literal pool name `PoolsAreFake` until pool
/// selection exists.
pub fn node_request_demands(solution: &PlacementSolution) -> (r: Vec<NodeRequestDemand>)
    ensures
        solution is NoDemands ==> r@.len() == 0,
        solution matches PlacementSolution::AllPlaced(nodes) ==> demands_for_nodes(r@, nodes@),
        solution matches PlacementSolution::IncompletePlacement { nodes, unmet } ==> demands_for_nodes(
            r@,
            nodes@,
        ),
{
    let mut r: Vec<NodeRequestDemand> = Vec::new();
    match solution {
        PlacementSolution::NoDemands => r,
        PlacementSolution::AllPlaced(nodes) => {
            push_demands(&mut r, nodes);
            r
        },
        PlacementSolution::IncompletePlacement { nodes, unmet: _ } => {
            push_demands(&mut r, nodes);
            r
        },
    }
}

/// One demand per node, in order, each in the placeholder pool with the
/// node's offering.
pub open spec fn demands_for_nodes(
    r: Seq<NodeRequestDemand>,
    nodes: Seq<crate::optimiser::PotentialNode>,
) -> bool {
    &&& r.len() == nodes.len()
    &&& forall|i: int|
        0 <= i < nodes.len() ==> (#[trigger] r[i]).pool@ == "PoolsAreFake"@ && r[i].target_offering
            == nodes[i].offering
}

fn push_demands(r: &mut Vec<NodeRequestDemand>, nodes: &Vec<crate::optimiser::PotentialNode>)
    requires
        old(r)@.len() == 0,
    ensures
        demands_for_nodes(final(r)@, nodes@),
{
    let mut i: usize = 0;
    while i < nodes.len()
        invariant
            i <= nodes@.len(),
            r@.len() == i,
            forall|k: int|
                0 <= k < i ==> (#[trigger] r@[k]).pool@ == "PoolsAreFake"@ && r@[k].target_offering
                    == nodes@[k].offering,
        decreases nodes@.len() - i,
    {
        r.push(
            NodeRequestDemand {
                pool: "PoolsAreFake".to_owned(),
                target_offering: clone_offering(&nodes[i].offering),
            },
        );
        i = i + 1;
    }
}

} // verus!
