//! The placement optimiser: an integer-linear-programming formulation
//! that, given pending resource demands and a catalogue of purchasable
//! node types, selects node candidates and a demand-to-node assignment.
//!
//! The module builds the ILP as explicit data (`IlpModel`), and turns a
//! solved 0/1 assignment back into a `PlacementSolution`, checking that
//! the assignment really satisfies the formulation's constraints before
//! trusting it.

use vstd::prelude::*;

use crate::offering::Offering;
use crate::offering::PodId;
use crate::offering::PodResources;

verus! {

/// The solver backend failed: the model could not be resolved, or what
/// it returned does not satisfy the constraints.
#[derive(Debug, Clone, PartialEq, Eq)]
pub enum SolveError {
    Resolution(String),
}

/// Options controlling the solve behaviour.
#[derive(Debug, Clone, PartialEq, Eq)]
pub struct SolveOptions {
    /// Penalty added to the objective for each unmet demand, in micro-USD.
    /// Must be larger than the cost of activating every candidate of the
    /// most expensive offering, otherwise the solver will prefer leaving
    /// pods unscheduled.
    pub unmet_demand_penalty_micros: u64,
    /// Maximum wall-clock seconds the solver may run before returning the
    /// best feasible solution found so far.
    pub time_limit_seconds: u64,
}

impl Default for SolveOptions {
    /// A penalty of one million USD per unmet demand, and a 30 second
    /// solver budget.
    fn default() -> (r: Self)
        ensures
            r.unmet_demand_penalty_micros == 1_000_000_000_000u64,
            r.time_limit_seconds == 30u64,
    {
        SolveOptions { unmet_demand_penalty_micros: 1_000_000_000_000, time_limit_seconds: 30 }
    }
}

/// How many candidate copies of each offering the formulation instantiates.
pub const MAX_INSTANCES_PER_OFFERING: u32 = 10;

/// A node the solver decided to provision.
#[derive(Debug, Clone, PartialEq)]
pub struct PotentialNode {
    /// The offering this node is based on.
    pub offering: Offering,
    /// Pods assigned to this node by the solver.
    pub pods: Vec<PodId>,
}

#[derive(Debug, PartialEq)]
pub enum PlacementSolution {
    /// Every demand was placed: provision these nodes.
    AllPlaced(Vec<PotentialNode>),
    /// No demands existed: nothing to do.
    NoDemands,
    /// Some or all demands could not be placed.
    /// `nodes` may be empty (nothing schedulable) or non-empty (partial).
    IncompletePlacement { nodes: Vec<PotentialNode>, unmet: Vec<PodResources> },
}

// ── Verified clones ─────────────────────────────────────────────────────
// The derived `Clone` impls carry no specification, so the functions that
// need to reason about copied values use these.
pub fn clone_pod_id(p: &PodId) -> (r: PodId)
    ensures
        r == *p,
{
    PodId { namespace: p.namespace.clone(), name: p.name.clone() }
}

pub fn clone_gpu_model(m: &crate::offering::GpuModel) -> (r: crate::offering::GpuModel)
    ensures
        r == *m,
{
    match m {
        crate::offering::GpuModel::NvidiaT4 => crate::offering::GpuModel::NvidiaT4,
        crate::offering::GpuModel::NvidiaA100 => crate::offering::GpuModel::NvidiaA100,
        crate::offering::GpuModel::NvidiaL4 => crate::offering::GpuModel::NvidiaL4,
        crate::offering::GpuModel::NvidiaH100 => crate::offering::GpuModel::NvidiaH100,
        crate::offering::GpuModel::NvidiaA10G => crate::offering::GpuModel::NvidiaA10G,
        crate::offering::GpuModel::Other(s) => crate::offering::GpuModel::Other(s.clone()),
    }
}

pub fn clone_resources(res: &crate::offering::Resources) -> (r: crate::offering::Resources)
    ensures
        r == *res,
{
    crate::offering::Resources {
        cpu: res.cpu,
        memory_mib: res.memory_mib,
        ephemeral_storage_gib: res.ephemeral_storage_gib,
        gpu: res.gpu,
        gpu_model: match &res.gpu_model {
            Some(m) => Some(clone_gpu_model(m)),
            None => None,
        },
    }
}

pub fn clone_offering(o: &Offering) -> (r: Offering)
    ensures
        r == *o,
{
    Offering {
        instance_type: crate::offering::InstanceType(o.instance_type.0.clone()),
        resources: clone_resources(&o.resources),
        cost_per_hour_micros: o.cost_per_hour_micros,
    }
}

pub fn clone_pod_resources(p: &PodResources) -> (r: PodResources)
    ensures
        r == *p,
{
    PodResources { id: clone_pod_id(&p.id), resources: clone_resources(&p.resources) }
}

// ── Candidate layout ────────────────────────────────────────────────────
/// Index of instance `i` of offering type `t` in the type-major
/// candidate list.
pub open spec fn cand_index(max: int, t: int, i: int) -> int {
    t * max + i
}

/// The candidate list instantiates `max_instances` copies of each
/// offering type: `(type_index, instance_index)` pairs, type-major.
pub fn build_candidate_offerings(offerings: &Vec<Offering>, max_instances: u32) -> (r: Vec<
    (usize, u32),
>)
    requires
        offerings@.len() * max_instances <= usize::MAX,
    ensures
        r@.len() == offerings@.len() * max_instances,
        forall|t: int, i: int|
            0 <= t < offerings@.len() && 0 <= i < max_instances ==> r@[#[trigger] cand_index(
                max_instances as int,
                t,
                i,
            )] == (t as usize, i as u32),
        forall|c: int| 0 <= c < r@.len() ==> (#[trigger] r@[c]).0 < offerings@.len(),
{
    let nt = offerings.len();
    let mut r: Vec<(usize, u32)> = Vec::new();
    let mut t: usize = 0;
    while t < nt
        invariant
            t <= nt,
            nt == offerings@.len(),
            nt * max_instances <= usize::MAX,
            r@.len() == t * (max_instances as int),
            forall|t2: int, i: int|
                0 <= t2 < t && 0 <= i < max_instances ==> r@[#[trigger] cand_index(
                    max_instances as int,
                    t2,
                    i,
                )] == (t2 as usize, i as u32),
            forall|c: int| 0 <= c < r@.len() ==> (#[trigger] r@[c]).0 < nt,
        decreases nt - t,
    {
        proof {
            assert((t + 1) * (max_instances as int) <= nt * (max_instances as int))
                by (nonlinear_arith)
                requires
                    t < nt,
            ;
            assert(t * (max_instances as int) + max_instances == (t + 1) * (max_instances as int))
                by (nonlinear_arith);
        }
        let mut i: u32 = 0;
        while i < max_instances
            invariant
                t < nt,
                i <= max_instances,
                nt == offerings@.len(),
                nt * max_instances <= usize::MAX,
                t * (max_instances as int) + max_instances <= nt * (max_instances as int),
                r@.len() == t * (max_instances as int) + i,
                forall|t2: int, i2: int|
                    0 <= t2 < t && 0 <= i2 < max_instances ==> r@[#[trigger] cand_index(
                        max_instances as int,
                        t2,
                        i2,
                    )] == (t2 as usize, i2 as u32),
                forall|i2: int|
                    0 <= i2 < i ==> r@[#[trigger] cand_index(max_instances as int, t as int, i2)]
                        == (t as usize, i2 as u32),
                forall|c: int| 0 <= c < r@.len() ==> (#[trigger] r@[c]).0 < nt,
            decreases max_instances - i,
        {
            proof {
                assert forall|t2: int, i2: int|
                    0 <= t2 < t && 0 <= i2 < max_instances implies #[trigger] cand_index(
                    max_instances as int,
                    t2,
                    i2,
                ) < t * (max_instances as int) by {
                    assert(t2 * (max_instances as int) + i2 < t * (max_instances as int))
                        by (nonlinear_arith)
                        requires
                            0 <= t2 < t,
                            0 <= i2 < max_instances,
                    ;
                }
            }
            r.push((t, i));
            i = i + 1;
        }
        t = t + 1;
    }
    r
}

// ── The ILP model as data ───────────────────────────────────────────────
// The formulation instantiates, for nd demands and nc candidates, the
// binary variables
//   x[d,c]  (demand d placed on candidate c)   at index d*nc + c,
//   y[c]    (candidate c activated)            at index nd*nc + c,
//   u[d]    (demand d unmet)                   at index nd*nc + nc + d,
// and the constraints
//   for each d:    sum_c x[d,c] + u[d] == 1,
//   for each d,c:  x[d,c] - y[c] <= 0,
//   for each c:    sum_d cpu(d)*x[d,c] <= cpu(c),
//                  sum_d mem(d)*x[d,c] <= mem(c),
// minimising  sum_c cost(c)*y[c] + penalty * sum_d u[d].
/// One linear term: a coefficient on one variable.
#[derive(Debug, Clone, PartialEq, Eq)]
pub struct LinTerm {
    pub var: usize,
    pub coeff: i64,
}

/// The comparison of a linear constraint row.
#[derive(Debug, Clone, Copy, PartialEq, Eq)]
pub enum RowOp {
    Le,
    Eq,
}

/// One linear constraint: `sum of terms  op  rhs`.
#[derive(Debug, Clone, PartialEq, Eq)]
pub struct LinRow {
    pub terms: Vec<LinTerm>,
    pub op: RowOp,
    pub rhs: i64,
}

/// A complete integer program over binary variables.
#[derive(Debug, Clone, PartialEq, Eq)]
pub struct IlpModel {
    /// Number of variables; every variable is binary.
    pub num_vars: usize,
    /// Objective coefficient of each variable, in micro-USD; minimised.
    pub objective_micros: Vec<u64>,
    /// The constraint rows.
    pub rows: Vec<LinRow>,
    /// Wall-clock budget handed to the backend.
    pub time_limit_seconds: u64,
}

pub open spec fn x_index(nc: int, d: int, c: int) -> int {
    d * nc + c
}

pub open spec fn y_index(nd: int, nc: int, c: int) -> int {
    nd * nc + c
}

pub open spec fn u_index(nd: int, nc: int, d: int) -> int {
    nd * nc + nc + d
}

pub open spec fn terms_view(ts: Seq<LinTerm>) -> Seq<(int, int)> {
    ts.map_values(|t: LinTerm| (t.var as int, t.coeff as int))
}

/// `sum_c x[d,c] + u[d]`, the left side of the assignment constraint.
pub open spec fn assign_terms(nd: int, nc: int, d: int) -> Seq<(int, int)> {
    Seq::new(
        (nc + 1) as nat,
        |j: int|
            if j < nc {
                (x_index(nc, d, j), 1int)
            } else {
                (u_index(nd, nc, d), 1int)
            },
    )
}

/// `x[d,c] - y[c]`, the left side of the activation constraint.
pub open spec fn activation_terms(nd: int, nc: int, d: int, c: int) -> Seq<(int, int)> {
    seq![(x_index(nc, d, c), 1int), (y_index(nd, nc, c), -1int)]
}

/// `sum_d cpu(d) * x[d,c]`, the left side of the cpu capacity constraint.
pub open spec fn cpu_terms(demands: Seq<PodResources>, nc: int, c: int) -> Seq<(int, int)> {
    Seq::new(demands.len(), |d: int| (x_index(nc, d, c), demands[d].resources.cpu as int))
}

/// `sum_d mem(d) * x[d,c]`, the left side of the memory capacity
/// constraint.
pub open spec fn mem_terms(demands: Seq<PodResources>, nc: int, c: int) -> Seq<(int, int)> {
    Seq::new(demands.len(), |d: int| (x_index(nc, d, c), demands[d].resources.memory_mib as int))
}

pub open spec fn row_is(r: LinRow, terms: Seq<(int, int)>, op: RowOp, rhs: int) -> bool {
    &&& terms_view(r.terms@) == terms
    &&& r.op == op
    &&& r.rhs == rhs
}

/// Row index of the activation constraint for (d, c), after the nd
/// assignment rows.
pub open spec fn act_row_index(nd: int, nc: int, d: int, c: int) -> int {
    nd + d * nc + c
}

/// Row index of the cpu capacity constraint for candidate c.
pub open spec fn cap_cpu_row_index(nd: int, nc: int, c: int) -> int {
    nd + nd * nc + 2 * c
}

/// Row index of the memory capacity constraint for candidate c.
pub open spec fn cap_mem_row_index(nd: int, nc: int, c: int) -> int {
    nd + nd * nc + 2 * c + 1
}

#[verifier::nonlinear]
proof fn lemma_grid_bound(nd: int, nc: int, d: int, c: int)
    requires
        0 <= d < nd,
        0 <= c < nc,
    ensures
        0 <= d * nc + c < nd * nc,
{
}

/// Append the nd assignment rows: for each demand, `sum_c x[d,c] + u[d]
/// == 1`.
fn push_assign_rows(rows: &mut Vec<LinRow>, nd: usize, nc: usize)
    requires
        nd <= 0xffff,
        nc <= 0xffff,
    ensures
        final(rows)@.len() == old(rows)@.len() + nd,
        forall|k: int| 0 <= k < old(rows)@.len() ==> final(rows)@[k] == old(rows)@[k],
        forall|d: int|
            0 <= d < nd ==> row_is(
                #[trigger] final(rows)@[old(rows)@.len() + d],
                assign_terms(nd as int, nc as int, d),
                RowOp::Eq,
                1,
            ),
{
    let ghost base = rows@.len() as int;
    let mut d: usize = 0;
    while d < nd
        invariant
            d <= nd,
            nd <= 0xffff,
            nc <= 0xffff,
            rows@.len() == base + d,
            base >= 0,
            forall|k: int| 0 <= k < base ==> rows@[k] == old(rows)@[k],
            forall|d2: int|
                0 <= d2 < d ==> row_is(
                    #[trigger] rows@[base + d2],
                    assign_terms(nd as int, nc as int, d2),
                    RowOp::Eq,
                    1,
                ),
        decreases nd - d,
    {
        proof {
            if nc > 0 {
                lemma_grid_bound(nd as int, nc as int, d as int, nc - 1);
            }
            assert(d * nc + nc <= nd * nc) by (nonlinear_arith)
                requires
                    d < nd,
            ;
            assert(nd * nc <= 0xffff * 0xffff) by (nonlinear_arith)
                requires
                    nd <= 0xffff,
                    nc <= 0xffff,
            ;
        }
        let mut terms: Vec<LinTerm> = Vec::new();
        let mut c: usize = 0;
        while c < nc
            invariant
                c <= nc,
                d < nd,
                d * nc + nc <= nd * nc,
                nd * nc <= 0xffff * 0xffff,
                terms@.len() == c,
                forall|j: int|
                    0 <= j < c ==> (#[trigger] terms@[j]).var == x_index(nc as int, d as int, j)
                        && terms@[j].coeff == 1,
            decreases nc - c,
        {
            terms.push(LinTerm { var: d * nc + c, coeff: 1 });
            c = c + 1;
        }
        terms.push(LinTerm { var: nd * nc + nc + d, coeff: 1 });
        proof {
            assert(terms_view(terms@) =~= assign_terms(nd as int, nc as int, d as int));
        }
        rows.push(LinRow { terms, op: RowOp::Eq, rhs: 1 });
        d = d + 1;
    }
}

/// Append the nd*nc activation rows: `x[d,c] - y[c] <= 0`.
fn push_activation_rows(rows: &mut Vec<LinRow>, nd: usize, nc: usize)
    requires
        nd <= 0xffff,
        nc <= 0xffff,
    ensures
        final(rows)@.len() == old(rows)@.len() + nd * nc,
        forall|k: int| 0 <= k < old(rows)@.len() ==> final(rows)@[k] == old(rows)@[k],
        forall|d: int, c: int|
            0 <= d < nd && 0 <= c < nc ==> row_is(
                final(rows)@[old(rows)@.len() + #[trigger] x_index(nc as int, d, c)],
                activation_terms(nd as int, nc as int, d, c),
                RowOp::Le,
                0,
            ),
{
    let ghost base = rows@.len() as int;
    let mut d: usize = 0;
    while d < nd
        invariant
            d <= nd,
            nd <= 0xffff,
            nc <= 0xffff,
            rows@.len() == base + d * nc,
            base >= 0,
            forall|k: int| 0 <= k < base ==> rows@[k] == old(rows)@[k],
            forall|d2: int, c2: int|
                0 <= d2 < d && 0 <= c2 < nc ==> row_is(
                    rows@[base + #[trigger] x_index(nc as int, d2, c2)],
                    activation_terms(nd as int, nc as int, d2, c2),
                    RowOp::Le,
                    0,
                ),
        decreases nd - d,
    {
        proof {
            assert(d * nc + nc == (d + 1) * nc) by (nonlinear_arith);
            assert((d + 1) * nc <= nd * nc) by (nonlinear_arith)
                requires
                    d < nd,
            ;
            assert(nd * nc <= 0xffff * 0xffff) by (nonlinear_arith)
                requires
                    nd <= 0xffff,
                    nc <= 0xffff,
            ;
        }
        let mut c: usize = 0;
        while c < nc
            invariant
                c <= nc,
                d < nd,
                nd <= 0xffff,
                nc <= 0xffff,
                d * nc + nc <= nd * nc,
                nd * nc <= 0xffff * 0xffff,
                rows@.len() == base + d * nc + c,
                base >= 0,
                forall|k: int| 0 <= k < base ==> rows@[k] == old(rows)@[k],
                forall|d2: int, c2: int|
                    0 <= d2 < d && 0 <= c2 < nc ==> row_is(
                        rows@[base + #[trigger] x_index(nc as int, d2, c2)],
                        activation_terms(nd as int, nc as int, d2, c2),
                        RowOp::Le,
                        0,
                    ),
                forall|c2: int|
                    0 <= c2 < c ==> row_is(
                        rows@[base + #[trigger] x_index(nc as int, d as int, c2)],
                        activation_terms(nd as int, nc as int, d as int, c2),
                        RowOp::Le,
                        0,
                    ),
            decreases nc - c,
        {
            proof {
                assert forall|d2: int, c2: int| 0 <= d2 < d && 0 <= c2 < nc implies #[trigger]
                x_index(nc as int, d2, c2) < d * nc + c by {
                    assert(d2 * nc + c2 < d * nc) by (nonlinear_arith)
                        requires
                            0 <= d2 < d,
                            0 <= c2 < nc,
                    ;
                }
            }
            let mut terms: Vec<LinTerm> = Vec::new();
            terms.push(LinTerm { var: d * nc + c, coeff: 1 });
            terms.push(LinTerm { var: nd * nc + c, coeff: -1 });
            proof {
                assert(terms_view(terms@) =~= activation_terms(
                    nd as int,
                    nc as int,
                    d as int,
                    c as int,
                ));
            }
            rows.push(LinRow { terms, op: RowOp::Le, rhs: 0 });
            c = c + 1;
        }
        d = d + 1;
    }
}

/// Append the 2*nc capacity rows: for each candidate, cpu then memory.
fn push_capacity_rows(
    rows: &mut Vec<LinRow>,
    demands: &Vec<PodResources>,
    offerings: &Vec<Offering>,
    cands: &Vec<(usize, u32)>,
    nd: usize,
    nc: usize,
)
    requires
        nd == demands@.len() <= 0xffff,
        nc == cands@.len() <= 0xffff,
        forall|c: int| 0 <= c < nc ==> (#[trigger] cands@[c]).0 < offerings@.len(),
    ensures
        final(rows)@.len() == old(rows)@.len() + 2 * nc,
        forall|k: int| 0 <= k < old(rows)@.len() ==> final(rows)@[k] == old(rows)@[k],
        forall|c: int|
            0 <= c < nc ==> row_is(
                #[trigger] final(rows)@[old(rows)@.len() + 2 * c],
                cpu_terms(demands@, nc as int, c),
                RowOp::Le,
                offerings@[cands@[c].0 as int].resources.cpu as int,
            ) && row_is(
                final(rows)@[old(rows)@.len() + 2 * c + 1],
                mem_terms(demands@, nc as int, c),
                RowOp::Le,
                offerings@[cands@[c].0 as int].resources.memory_mib as int,
            ),
{
    let ghost base = rows@.len() as int;
    let mut c: usize = 0;
    while c < nc
        invariant
            c <= nc,
            nd == demands@.len() <= 0xffff,
            nc == cands@.len() <= 0xffff,
            forall|c2: int| 0 <= c2 < nc ==> (#[trigger] cands@[c2]).0 < offerings@.len(),
            rows@.len() == base + 2 * c,
            base >= 0,
            forall|k: int| 0 <= k < base ==> rows@[k] == old(rows)@[k],
            forall|c2: int|
                0 <= c2 < c ==> row_is(
                    #[trigger] rows@[base + 2 * c2],
                    cpu_terms(demands@, nc as int, c2),
                    RowOp::Le,
                    offerings@[cands@[c2].0 as int].resources.cpu as int,
                ) && row_is(
                    rows@[base + 2 * c2 + 1],
                    mem_terms(demands@, nc as int, c2),
                    RowOp::Le,
                    offerings@[cands@[c2].0 as int].resources.memory_mib as int,
                ),
        decreases nc - c,
    {
        proof {
            assert(nd * nc <= 0xffff * 0xffff) by (nonlinear_arith)
                requires
                    nd <= 0xffff,
                    nc <= 0xffff,
            ;
        }
        let t = cands[c].0;
        let mut cpu_row: Vec<LinTerm> = Vec::new();
        let mut mem_row: Vec<LinTerm> = Vec::new();
        let mut d: usize = 0;
        while d < nd
            invariant
                d <= nd,
                c < nc,
                nd == demands@.len() <= 0xffff,
                nc <= 0xffff,
                nd * nc <= 0xffff * 0xffff,
                cpu_row@.len() == d,
                mem_row@.len() == d,
                forall|j: int|
                    0 <= j < d ==> (#[trigger] cpu_row@[j]).var == x_index(nc as int, j, c as int)
                        && cpu_row@[j].coeff == demands@[j].resources.cpu as int,
                forall|j: int|
                    0 <= j < d ==> (#[trigger] mem_row@[j]).var == x_index(nc as int, j, c as int)
                        && mem_row@[j].coeff == demands@[j].resources.memory_mib as int,
            decreases nd - d,
        {
            proof {
                lemma_grid_bound(nd as int, nc as int, d as int, c as int);
            }
            cpu_row.push(LinTerm { var: d * nc + c, coeff: demands[d].resources.cpu as i64 });
            mem_row.push(
                LinTerm { var: d * nc + c, coeff: demands[d].resources.memory_mib as i64 },
            );
            d = d + 1;
        }
        proof {
            assert(terms_view(cpu_row@) =~= cpu_terms(demands@, nc as int, c as int));
            assert(terms_view(mem_row@) =~= mem_terms(demands@, nc as int, c as int));
        }
        rows.push(
            LinRow { terms: cpu_row, op: RowOp::Le, rhs: offerings[t].resources.cpu as i64 },
        );
        rows.push(
            LinRow { terms: mem_row, op: RowOp::Le, rhs: offerings[t].resources.memory_mib as i64 },
        );
        c = c + 1;
    }
}

/// The complete statement of the formulation: what `build_model`
/// guarantees about the model it returns.
pub open spec fn model_matches(
    m: IlpModel,
    demands: Seq<PodResources>,
    offerings: Seq<Offering>,
    cands: Seq<(usize, u32)>,
    options: SolveOptions,
) -> bool {
    let nd = demands.len() as int;
    let nc = cands.len() as int;
    &&& m.num_vars == nd * nc + nc + nd
    &&& m.time_limit_seconds == options.time_limit_seconds
    &&& m.objective_micros@.len() == m.num_vars
    &&& forall|i: int| 0 <= i < nd * nc ==> m.objective_micros@[i] == 0
    &&& forall|c: int|
        0 <= c < nc ==> m.objective_micros@[#[trigger] y_index(nd, nc, c)]
            == offerings[cands[c].0 as int].cost_per_hour_micros
    &&& forall|d: int|
        0 <= d < nd ==> m.objective_micros@[#[trigger] u_index(nd, nc, d)]
            == options.unmet_demand_penalty_micros
    &&& m.rows@.len() == nd + nd * nc + 2 * nc
    &&& forall|d: int|
        0 <= d < nd ==> row_is(#[trigger] m.rows@[d], assign_terms(nd, nc, d), RowOp::Eq, 1)
    &&& forall|d: int, c: int|
        0 <= d < nd && 0 <= c < nc ==> row_is(
            m.rows@[nd + #[trigger] x_index(nc, d, c)],
            activation_terms(nd, nc, d, c),
            RowOp::Le,
            0,
        )
    &&& forall|c: int|
        0 <= c < nc ==> row_is(
            m.rows@[#[trigger] cap_cpu_row_index(nd, nc, c)],
            cpu_terms(demands, nc, c),
            RowOp::Le,
            offerings[cands[c].0 as int].resources.cpu as int,
        ) && row_is(
            m.rows@[cap_mem_row_index(nd, nc, c)],
            mem_terms(demands, nc, c),
            RowOp::Le,
            offerings[cands[c].0 as int].resources.memory_mib as int,
        )
}

/// Build the complete ILP for the given demands, candidate list and
/// options: assignment, activation and capacity constraints, and an
/// objective of activation costs plus unmet penalties.
#[verifier::rlimit(100)]
pub fn build_model(
    demands: &Vec<PodResources>,
    offerings: &Vec<Offering>,
    cands: &Vec<(usize, u32)>,
    options: &SolveOptions,
) -> (m: IlpModel)
    requires
        demands@.len() <= 0xffff,
        cands@.len() <= 0xffff,
        forall|c: int| 0 <= c < cands@.len() ==> (#[trigger] cands@[c]).0 < offerings@.len(),
    ensures
        model_matches(m, demands@, offerings@, cands@, *options),
{
    let nd = demands.len();
    let nc = cands.len();
    proof {
        assert(nd * nc <= 0xffff * 0xffff) by (nonlinear_arith)
            requires
                nd <= 0xffff,
                nc <= 0xffff,
        ;
    }
    let num_vars: usize = nd * nc + nc + nd;
    let mut objective_micros: Vec<u64> = Vec::new();
    let mut i: usize = 0;
    let nx: usize = nd * nc;
    while i < nx
        invariant
            i <= nx,
            objective_micros@.len() == i,
            forall|k: int| 0 <= k < i ==> objective_micros@[k] == 0,
        decreases nx - i,
    {
        objective_micros.push(0);
        i = i + 1;
    }
    let mut c: usize = 0;
    while c < nc
        invariant
            c <= nc,
            nx == nd * nc,
            nc == cands@.len(),
            forall|c2: int| 0 <= c2 < nc ==> (#[trigger] cands@[c2]).0 < offerings@.len(),
            objective_micros@.len() == nx + c,
            forall|k: int| 0 <= k < nx ==> objective_micros@[k] == 0,
            forall|c2: int|
                0 <= c2 < c ==> objective_micros@[nx + c2]
                    == offerings@[(#[trigger] cands@[c2]).0 as int].cost_per_hour_micros,
        decreases nc - c,
    {
        let t = cands[c].0;
        objective_micros.push(offerings[t].cost_per_hour_micros);
        c = c + 1;
    }
    let mut d: usize = 0;
    while d < nd
        invariant
            d <= nd,
            nx == nd * nc,
            objective_micros@.len() == nx + nc + d,
            forall|k: int| 0 <= k < nx ==> objective_micros@[k] == 0,
            forall|c2: int|
                0 <= c2 < nc ==> objective_micros@[nx + c2]
                    == offerings@[(#[trigger] cands@[c2]).0 as int].cost_per_hour_micros,
            forall|d2: int|
                0 <= d2 < d ==> objective_micros@[#[trigger] u_index(nd as int, nc as int, d2)]
                    == options.unmet_demand_penalty_micros,
        decreases nd - d,
    {
        objective_micros.push(options.unmet_demand_penalty_micros);
        d = d + 1;
    }
    let mut rows: Vec<LinRow> = Vec::new();
    push_assign_rows(&mut rows, nd, nc);
    let ghost rows1 = rows@;
    push_activation_rows(&mut rows, nd, nc);
    let ghost rows2 = rows@;
    push_capacity_rows(&mut rows, demands, offerings, cands, nd, nc);
    proof {
        assert forall|d: int| 0 <= d < nd implies row_is(
            #[trigger] rows@[d],
            assign_terms(nd as int, nc as int, d),
            RowOp::Eq,
            1,
        ) by {
            assert(rows1[0 + d] == rows1[d]);
            assert(rows2[d] == rows1[d]);
            assert(rows@[d] == rows2[d]);
        }
        assert forall|d: int, c: int| 0 <= d < nd && 0 <= c < nc implies row_is(
            rows@[nd + #[trigger] x_index(nc as int, d, c)],
            activation_terms(nd as int, nc as int, d, c),
            RowOp::Le,
            0,
        ) by {
            lemma_grid_bound(nd as int, nc as int, d, c);
            assert(rows2[rows1.len() as int + x_index(nc as int, d, c)] == rows2[nd + x_index(
                nc as int,
                d,
                c,
            )]);
            assert(rows@[nd + x_index(nc as int, d, c)] == rows2[nd + x_index(nc as int, d, c)]);
        }
    }
    let m = IlpModel {
        num_vars,
        objective_micros,
        rows,
        time_limit_seconds: options.time_limit_seconds,
    };
    proof {
        assert(model_matches(m, demands@, offerings@, cands@, *options));
    }
    m
}

// ── Reading a solved assignment back ────────────────────────────────────
/// Value of x[d,c] in a 0/1 assignment.
pub open spec fn val_x(values: Seq<bool>, nc: int, d: int, c: int) -> bool {
    values[x_index(nc, d, c)]
}

/// Value of y[c].
pub open spec fn val_y(values: Seq<bool>, nd: int, nc: int, c: int) -> bool {
    values[y_index(nd, nc, c)]
}

/// Value of u[d].
pub open spec fn val_u(values: Seq<bool>, nd: int, nc: int, d: int) -> bool {
    values[u_index(nd, nc, d)]
}

/// How many of the first `upto` candidates demand `d` is placed on.
pub open spec fn placed_count(values: Seq<bool>, nc: int, d: int, upto: int) -> int
    decreases upto,
{
    if upto <= 0 {
        0
    } else {
        placed_count(values, nc, d, upto - 1) + if val_x(values, nc, d, upto - 1) {
            1int
        } else {
            0int
        }
    }
}

/// Total cpu of the first `upto` demands placed on candidate `c`.
pub open spec fn cpu_used(
    values: Seq<bool>,
    demands: Seq<PodResources>,
    nc: int,
    c: int,
    upto: int,
) -> int
    decreases upto,
{
    if upto <= 0 {
        0
    } else {
        cpu_used(values, demands, nc, c, upto - 1) + if val_x(values, nc, upto - 1, c) {
            demands[upto - 1].resources.cpu as int
        } else {
            0int
        }
    }
}

/// Total memory of the first `upto` demands placed on candidate `c`.
pub open spec fn mem_used(
    values: Seq<bool>,
    demands: Seq<PodResources>,
    nc: int,
    c: int,
    upto: int,
) -> int
    decreases upto,
{
    if upto <= 0 {
        0
    } else {
        mem_used(values, demands, nc, c, upto - 1) + if val_x(values, nc, upto - 1, c) {
            demands[upto - 1].resources.memory_mib as int
        } else {
            0int
        }
    }
}

/// A 0/1 assignment satisfies the formulation: each demand is placed on
/// exactly one candidate or marked unmet, placements land only on active
/// candidates, and no candidate's cpu or memory capacity is exceeded.
pub open spec fn valid_assignment(
    demands: Seq<PodResources>,
    offerings: Seq<Offering>,
    cands: Seq<(usize, u32)>,
    values: Seq<bool>,
) -> bool {
    let nd = demands.len() as int;
    let nc = cands.len() as int;
    &&& values.len() == nd * nc + nc + nd
    &&& forall|d: int|
        0 <= d < nd ==> #[trigger] placed_count(values, nc, d, nc) + (if val_u(
            values,
            nd,
            nc,
            d,
        ) {
            1int
        } else {
            0int
        }) == 1
    &&& forall|d: int, c: int|
        0 <= d < nd && 0 <= c < nc && #[trigger] val_x(values, nc, d, c) ==> val_y(
            values,
            nd,
            nc,
            c,
        )
    &&& forall|c: int|
        0 <= c < nc ==> #[trigger] cpu_used(values, demands, nc, c, nd)
            <= offerings[cands[c].0 as int].resources.cpu && mem_used(values, demands, nc, c, nd)
            <= offerings[cands[c].0 as int].resources.memory_mib
}

/// The demands marked unmet among the first `upto`, in order.
pub open spec fn unmet_view(
    demands: Seq<PodResources>,
    values: Seq<bool>,
    nc: int,
    upto: int,
) -> Seq<PodResources>
    decreases upto,
{
    if upto <= 0 {
        Seq::empty()
    } else {
        let rest = unmet_view(demands, values, nc, upto - 1);
        if val_u(values, demands.len() as int, nc, upto - 1) {
            rest.push(demands[upto - 1])
        } else {
            rest
        }
    }
}

/// The ids of the demands among the first `upto` placed on candidate
/// `c`, in order.
pub open spec fn pods_view(
    demands: Seq<PodResources>,
    values: Seq<bool>,
    nc: int,
    c: int,
    upto: int,
) -> Seq<PodId>
    decreases upto,
{
    if upto <= 0 {
        Seq::empty()
    } else {
        let rest = pods_view(demands, values, nc, c, upto - 1);
        if val_x(values, nc, upto - 1, c) {
            rest.push(demands[upto - 1].id)
        } else {
            rest
        }
    }
}

/// The nodes the solution provisions: for each active candidate among
/// the first `upto`, its offering and the placed pod ids.
pub open spec fn nodes_view(
    demands: Seq<PodResources>,
    offerings: Seq<Offering>,
    cands: Seq<(usize, u32)>,
    values: Seq<bool>,
    upto: int,
) -> Seq<(Offering, Seq<PodId>)>
    decreases upto,
{
    if upto <= 0 {
        Seq::empty()
    } else {
        let rest = nodes_view(demands, offerings, cands, values, upto - 1);
        if val_y(values, demands.len() as int, cands.len() as int, upto - 1) {
            rest.push(
                (
                    offerings[cands[upto - 1].0 as int],
                    pods_view(demands, values, cands.len() as int, upto - 1, demands.len() as int),
                ),
            )
        } else {
            rest
        }
    }
}

/// The built nodes agree with the view: same length, and each node holds
/// the offering and pod list of its entry.
pub open spec fn potential_nodes_match(
    nodes: Seq<PotentialNode>,
    view: Seq<(Offering, Seq<PodId>)>,
) -> bool {
    &&& nodes.len() == view.len()
    &&& forall|j: int|
        0 <= j < nodes.len() ==> (#[trigger] nodes[j]).offering == view[j].0 && nodes[j].pods@
            == view[j].1
}

fn invalid_assignment_error() -> (e: SolveError)
{
    SolveError::Resolution("solver returned an assignment that violates the model".to_owned())
}

/// Turn a solved 0/1 assignment back into a `PlacementSolution`. The
/// assignment is first checked against the formulation's constraints;
/// one that violates them is rejected as a resolution failure. A valid
/// assignment yields the unmet demands and, for every active candidate,
/// one node carrying its offering and its placed pods; no unmet demand
/// means every demand was placed.
#[verifier::rlimit(100)]
pub fn finish_solve(
    demands: &Vec<PodResources>,
    offerings: &Vec<Offering>,
    cands: &Vec<(usize, u32)>,
    values: &Vec<bool>,
) -> (r: Result<PlacementSolution, SolveError>)
    requires
        demands@.len() <= 0xffff,
        cands@.len() <= 0xffff,
        forall|c: int| 0 <= c < cands@.len() ==> (#[trigger] cands@[c]).0 < offerings@.len(),
    ensures
        r is Ok <==> valid_assignment(demands@, offerings@, cands@, values@),
        r matches Ok(sol) ==> ({
            let un = unmet_view(demands@, values@, cands@.len() as int, demands@.len() as int);
            let nv = nodes_view(demands@, offerings@, cands@, values@, cands@.len() as int);
            if un.len() == 0 {
                sol matches PlacementSolution::AllPlaced(nodes) && potential_nodes_match(nodes@, nv)
            } else {
                sol matches PlacementSolution::IncompletePlacement { nodes, unmet }
                    && potential_nodes_match(nodes@, nv) && unmet@ == un
            }
        }),
{
    let nd = demands.len();
    let nc = cands.len();
    proof {
        assert(nd * nc <= 0xffff * 0xffff) by (nonlinear_arith)
            requires
                nd <= 0xffff,
                nc <= 0xffff,
        ;
    }
    if values.len() != nd * nc + nc + nd {
        return Err(invalid_assignment_error());
    }
    // Assignment: each demand placed exactly once or unmet.
    let mut d: usize = 0;
    while d < nd
        invariant
            d <= nd,
            nd == demands@.len() <= 0xffff,
            nc == cands@.len() <= 0xffff,
            nd * nc <= 0xffff * 0xffff,
            values@.len() == nd * nc + nc + nd,
            forall|d2: int|
                0 <= d2 < d ==> #[trigger] placed_count(values@, nc as int, d2, nc as int) + (
                if val_u(values@, nd as int, nc as int, d2) {
                    1int
                } else {
                    0int
                }) == 1,
        decreases nd - d,
    {
        proof {
            assert(d * nc + nc <= nd * nc) by (nonlinear_arith)
                requires
                    d < nd,
            ;
        }
        let mut cnt: usize = 0;
        let mut c: usize = 0;
        while c < nc
            invariant
                c <= nc,
                d < nd,
                cnt <= c,
                nd == demands@.len(),
                nc == cands@.len(),
                d * nc + nc <= nd * nc,
                nd * nc <= 0xffff * 0xffff,
                values@.len() == nd * nc + nc + nd,
                cnt as int == placed_count(values@, nc as int, d as int, c as int),
            decreases nc - c,
        {
            proof {
                lemma_grid_bound(nd as int, nc as int, d as int, c as int);
            }
            if values[d * nc + c] {
                cnt = cnt + 1;
            }
            c = c + 1;
        }
        let unmet_flag = values[nd * nc + nc + d];
        let total = cnt + (if unmet_flag {
            1
        } else {
            0
        });
        if total != 1 {
            return Err(invalid_assignment_error());
        }
        d = d + 1;
    }
    // Activation: placements only on active candidates.
    let mut d: usize = 0;
    while d < nd
        invariant
            d <= nd,
            nd == demands@.len() <= 0xffff,
            nc == cands@.len() <= 0xffff,
            nd * nc <= 0xffff * 0xffff,
            values@.len() == nd * nc + nc + nd,
            forall|d2: int, c2: int|
                0 <= d2 < d && 0 <= c2 < nc && #[trigger] val_x(values@, nc as int, d2, c2)
                    ==> val_y(values@, nd as int, nc as int, c2),
        decreases nd - d,
    {
        proof {
            assert(d * nc + nc <= nd * nc) by (nonlinear_arith)
                requires
                    d < nd,
            ;
        }
        let mut c: usize = 0;
        while c < nc
            invariant
                c <= nc,
                d < nd,
                nd == demands@.len() <= 0xffff,
                nc == cands@.len() <= 0xffff,
                d * nc + nc <= nd * nc,
                nd * nc <= 0xffff * 0xffff,
                values@.len() == nd * nc + nc + nd,
                forall|c2: int|
                    0 <= c2 < c && #[trigger] val_x(values@, nc as int, d as int, c2) ==> val_y(
                        values@,
                        nd as int,
                        nc as int,
                        c2,
                    ),
            decreases nc - c,
        {
            proof {
                lemma_grid_bound(nd as int, nc as int, d as int, c as int);
            }
            if values[d * nc + c] && !values[nd * nc + c] {
                proof {
                    assert(val_x(values@, nc as int, d as int, c as int));
                    assert(!val_y(values@, nd as int, nc as int, c as int));
                }
                return Err(invalid_assignment_error());
            }
            c = c + 1;
        }
        d = d + 1;
    }
    // Capacity: per candidate, the placed demands fit.
    let mut c: usize = 0;
    while c < nc
        invariant
            c <= nc,
            nd == demands@.len() <= 0xffff,
            nc == cands@.len() <= 0xffff,
            nd * nc <= 0xffff * 0xffff,
            values@.len() == nd * nc + nc + nd,
            forall|c2: int| 0 <= c2 < nc ==> (#[trigger] cands@[c2]).0 < offerings@.len(),
            forall|c2: int|
                0 <= c2 < c ==> #[trigger] cpu_used(values@, demands@, nc as int, c2, nd as int)
                    <= offerings@[cands@[c2].0 as int].resources.cpu && mem_used(
                    values@,
                    demands@,
                    nc as int,
                    c2,
                    nd as int,
                ) <= offerings@[cands@[c2].0 as int].resources.memory_mib,
        decreases nc - c,
    {
        let mut cpu_sum: u64 = 0;
        let mut mem_sum: u64 = 0;
        let mut d: usize = 0;
        while d < nd
            invariant
                d <= nd,
                c < nc,
                nd == demands@.len() <= 0xffff,
                nc == cands@.len() <= 0xffff,
                nd * nc <= 0xffff * 0xffff,
                values@.len() == nd * nc + nc + nd,
                cpu_sum as int == cpu_used(values@, demands@, nc as int, c as int, d as int),
                mem_sum as int == mem_used(values@, demands@, nc as int, c as int, d as int),
                cpu_sum as int <= d * 0xffff_ffff,
                mem_sum as int <= d * 0xffff_ffff,
            decreases nd - d,
        {
            proof {
                lemma_grid_bound(nd as int, nc as int, d as int, c as int);
            }
            if values[d * nc + c] {
                cpu_sum = cpu_sum + demands[d].resources.cpu as u64;
                mem_sum = mem_sum + demands[d].resources.memory_mib as u64;
            }
            d = d + 1;
        }
        let t = cands[c].0;
        if cpu_sum > offerings[t].resources.cpu as u64 || mem_sum > offerings[t].resources.memory_mib
            as u64 {
            return Err(invalid_assignment_error());
        }
        c = c + 1;
    }
    // The assignment is valid: build the solution.
    proof {
        assert(valid_assignment(demands@, offerings@, cands@, values@));
    }
    let mut unmet: Vec<PodResources> = Vec::new();
    let mut d: usize = 0;
    while d < nd
        invariant
            d <= nd,
            nd == demands@.len() <= 0xffff,
            nc == cands@.len() <= 0xffff,
            nd * nc <= 0xffff * 0xffff,
            values@.len() == nd * nc + nc + nd,
            unmet@ == unmet_view(demands@, values@, nc as int, d as int),
        decreases nd - d,
    {
        if values[nd * nc + nc + d] {
            unmet.push(clone_pod_resources(&demands[d]));
        }
        d = d + 1;
    }
    let mut nodes: Vec<PotentialNode> = Vec::new();
    let mut c: usize = 0;
    while c < nc
        invariant
            c <= nc,
            nd == demands@.len() <= 0xffff,
            nc == cands@.len() <= 0xffff,
            nd * nc <= 0xffff * 0xffff,
            values@.len() == nd * nc + nc + nd,
            forall|c2: int| 0 <= c2 < nc ==> (#[trigger] cands@[c2]).0 < offerings@.len(),
            potential_nodes_match(
                nodes@,
                nodes_view(demands@, offerings@, cands@, values@, c as int),
            ),
        decreases nc - c,
    {
        if values[nd * nc + c] {
            let mut pods: Vec<PodId> = Vec::new();
            let mut d: usize = 0;
            while d < nd
                invariant
                    d <= nd,
                    c < nc,
                    nd == demands@.len() <= 0xffff,
                    nc == cands@.len() <= 0xffff,
                    nd * nc <= 0xffff * 0xffff,
                    values@.len() == nd * nc + nc + nd,
                    pods@ == pods_view(demands@, values@, nc as int, c as int, d as int),
                decreases nd - d,
            {
                proof {
                    lemma_grid_bound(nd as int, nc as int, d as int, c as int);
                }
                if values[d * nc + c] {
                    pods.push(clone_pod_id(&demands[d].id));
                }
                d = d + 1;
            }
            let t = cands[c].0;
            nodes.push(PotentialNode { offering: clone_offering(&offerings[t]), pods });
        }
        c = c + 1;
    }
    if unmet.len() == 0 {
        Ok(PlacementSolution::AllPlaced(nodes))
    } else {
        Ok(PlacementSolution::IncompletePlacement { nodes, unmet })
    }
}

// ── The validator checks exactly the model's constraints ────────────────
/// The value of a row's left side under a 0/1 assignment: each term
/// contributes its coefficient when its variable is set.
pub open spec fn terms_value(terms: Seq<(int, int)>, values: Seq<bool>) -> int
    decreases terms.len(),
{
    if terms.len() == 0 {
        0
    } else {
        terms_value(terms.drop_last(), values) + terms.last().1 * (if 0 <= terms.last().0
            < values.len() && values[terms.last().0] {
            1int
        } else {
            0int
        })
    }
}

/// A constraint row is satisfied by a 0/1 assignment.
pub open spec fn row_holds(r: LinRow, values: Seq<bool>) -> bool {
    match r.op {
        RowOp::Le => terms_value(terms_view(r.terms@), values) <= r.rhs,
        RowOp::Eq => terms_value(terms_view(r.terms@), values) == r.rhs,
    }
}

proof fn lemma_terms_value_assign(nd: int, nc: int, d: int, values: Seq<bool>, k: int)
    requires
        0 <= d < nd,
        0 <= k <= nc,
        values.len() == nd * nc + nc + nd,
    ensures
        terms_value(assign_terms(nd, nc, d).subrange(0, k), values) == placed_count(
            values,
            nc,
            d,
            k,
        ),
    decreases k,
{
    let row = assign_terms(nd, nc, d);
    if k > 0 {
        lemma_terms_value_assign(nd, nc, d, values, k - 1);
        assert(row.subrange(0, k).drop_last() =~= row.subrange(0, k - 1));
        assert(row.subrange(0, k).last() == (x_index(nc, d, k - 1), 1int));
        lemma_grid_bound(nd, nc, d, k - 1);
    }
}

proof fn lemma_terms_value_assign_full(nd: int, nc: int, d: int, values: Seq<bool>)
    requires
        0 <= d < nd,
        0 <= nc,
        values.len() == nd * nc + nc + nd,
    ensures
        terms_value(assign_terms(nd, nc, d), values) == placed_count(values, nc, d, nc) + (
        if val_u(values, nd, nc, d) {
            1int
        } else {
            0int
        }),
{
    let row = assign_terms(nd, nc, d);
    assert(row.drop_last() =~= row.subrange(0, nc));
    assert(row.last() == (u_index(nd, nc, d), 1int));
    lemma_terms_value_assign(nd, nc, d, values, nc);
    assert(row =~= row.subrange(0, nc + 1));
    assert(terms_value(row.subrange(0, nc + 1), values) == terms_value(row, values));
}

proof fn lemma_terms_value_activation(nd: int, nc: int, d: int, c: int, values: Seq<bool>)
    requires
        0 <= d < nd,
        0 <= c < nc,
        values.len() == nd * nc + nc + nd,
    ensures
        terms_value(activation_terms(nd, nc, d, c), values) == (if val_x(values, nc, d, c) {
            1int
        } else {
            0int
        }) - (if val_y(values, nd, nc, c) {
            1int
        } else {
            0int
        }),
{
    let row = activation_terms(nd, nc, d, c);
    let x1 = seq![(x_index(nc, d, c), 1int)];
    lemma_grid_bound(nd, nc, d, c);
    assert(row.len() == 2);
    assert(row.last() == (y_index(nd, nc, c), -1int));
    assert(row.drop_last() =~= x1);
    assert(x1.last() == (x_index(nc, d, c), 1int));
    assert(x1.drop_last() =~= Seq::<(int, int)>::empty());
    assert(terms_value(Seq::<(int, int)>::empty(), values) == 0);
    assert(terms_value(x1, values) == (if val_x(values, nc, d, c) {
        1int
    } else {
        0int
    }));
    assert(terms_value(row, values) == terms_value(x1, values) + (-1int) * (if val_y(
        values,
        nd,
        nc,
        c,
    ) {
        1int
    } else {
        0int
    }));
}

proof fn lemma_terms_value_capacity(
    demands: Seq<PodResources>,
    nc: int,
    c: int,
    values: Seq<bool>,
    k: int,
)
    requires
        0 <= c < nc,
        0 <= k <= demands.len(),
        values.len() == demands.len() * nc + nc + demands.len(),
    ensures
        terms_value(cpu_terms(demands, nc, c).subrange(0, k), values) == cpu_used(
            values,
            demands,
            nc,
            c,
            k,
        ),
        terms_value(mem_terms(demands, nc, c).subrange(0, k), values) == mem_used(
            values,
            demands,
            nc,
            c,
            k,
        ),
    decreases k,
{
    let nd = demands.len() as int;
    let cpu_row = cpu_terms(demands, nc, c);
    let mem_row = mem_terms(demands, nc, c);
    if k > 0 {
        lemma_terms_value_capacity(demands, nc, c, values, k - 1);
        assert(cpu_row.subrange(0, k).drop_last() =~= cpu_row.subrange(0, k - 1));
        assert(mem_row.subrange(0, k).drop_last() =~= mem_row.subrange(0, k - 1));
        assert(cpu_row.subrange(0, k).last() == (
            x_index(nc, k - 1, c),
            demands[k - 1].resources.cpu as int,
        ));
        assert(mem_row.subrange(0, k).last() == (
            x_index(nc, k - 1, c),
            demands[k - 1].resources.memory_mib as int,
        ));
        lemma_grid_bound(nd, nc, k - 1, c);
    }
}

proof fn lemma_valid_to_rows(
    demands: Seq<PodResources>,
    offerings: Seq<Offering>,
    cands: Seq<(usize, u32)>,
    values: Seq<bool>,
    m: IlpModel,
    options: SolveOptions,
)
    requires
        model_matches(m, demands, offerings, cands, options),
        forall|c: int| 0 <= c < cands.len() ==> (#[trigger] cands[c]).0 < offerings.len(),
        valid_assignment(demands, offerings, cands, values),
    ensures
        values.len() == m.num_vars,
        forall|i: int| 0 <= i < m.rows@.len() ==> row_holds(#[trigger] m.rows@[i], values),
{
    broadcast use vstd::arithmetic::div_mod::lemma_fundamental_div_mod;

    let nd = demands.len() as int;
    let nc = cands.len() as int;
    assert forall|i: int| 0 <= i < m.rows@.len() implies row_holds(
        #[trigger] m.rows@[i],
        values,
    ) by {
        if i < nd {
            lemma_terms_value_assign_full(nd, nc, i, values);
            assert(placed_count(values, nc, i, nc) + (if val_u(values, nd, nc, i) {
                1int
            } else {
                0int
            }) == 1);
            assert(terms_view(m.rows@[i].terms@) == assign_terms(nd, nc, i));
            assert(row_holds(m.rows@[i], values));
        } else if i < nd + nd * nc {
            let k = i - nd;
            assert(nc > 0) by (nonlinear_arith)
                requires
                    0 <= k < nd * nc,
                    nd >= 0,
                    nc >= 0,
            ;
            let d = k / nc;
            let c = k % nc;
            vstd::arithmetic::div_mod::lemma_mod_pos_bound(k, nc);
            assert(k == (k / nc) * nc + k % nc) by (nonlinear_arith)
                requires
                    nc > 0,
                    k == nc * (k / nc) + k % nc,
            ;
            assert(0 <= d < nd) by (nonlinear_arith)
                requires
                    d * nc + c == k,
                    0 <= k < nd * nc,
                    0 <= c < nc,
            ;
            assert(x_index(nc, d, c) == k);
            lemma_terms_value_activation(nd, nc, d, c, values);
            assert(val_x(values, nc, d, c) ==> val_y(values, nd, nc, c));
            assert(terms_view(m.rows@[i].terms@) == activation_terms(nd, nc, d, c));
            assert(row_holds(m.rows@[i], values));
        } else {
            let j = i - nd - nd * nc;
            let c = j / 2;
            let p = j % 2;
            vstd::arithmetic::div_mod::lemma_mod_pos_bound(j, 2);
            assert(j == (j / 2) * 2 + j % 2) by (nonlinear_arith)
                requires
                    j == 2 * (j / 2) + j % 2,
            ;
            assert(0 <= c < nc);
            lemma_terms_value_capacity(demands, nc, c, values, nd);
            assert(cpu_terms(demands, nc, c).subrange(0, nd) =~= cpu_terms(demands, nc, c));
            assert(mem_terms(demands, nc, c).subrange(0, nd) =~= mem_terms(demands, nc, c));
            assert(cpu_used(values, demands, nc, c, nd) <= offerings[cands[c].0 as int].resources.cpu);
            assert(mem_used(values, demands, nc, c, nd) <= offerings[cands[c].0 as int].resources.memory_mib);
            if p == 0 {
                assert(i == cap_cpu_row_index(nd, nc, c));
                assert(row_is(
                    m.rows@[cap_cpu_row_index(nd, nc, c)],
                    cpu_terms(demands, nc, c),
                    RowOp::Le,
                    offerings[cands[c].0 as int].resources.cpu as int,
                ));
                assert(terms_value(cpu_terms(demands, nc, c), values) == cpu_used(
                    values,
                    demands,
                    nc,
                    c,
                    nd,
                ));
            } else {
                assert(i == cap_mem_row_index(nd, nc, c));
                assert(row_is(
                    m.rows@[cap_cpu_row_index(nd, nc, c)],
                    cpu_terms(demands, nc, c),
                    RowOp::Le,
                    offerings[cands[c].0 as int].resources.cpu as int,
                ));
                assert(row_is(
                    m.rows@[cap_mem_row_index(nd, nc, c)],
                    mem_terms(demands, nc, c),
                    RowOp::Le,
                    offerings[cands[c].0 as int].resources.memory_mib as int,
                ));
                assert(terms_value(mem_terms(demands, nc, c), values) == mem_used(
                    values,
                    demands,
                    nc,
                    c,
                    nd,
                ));
            }
            assert(row_holds(m.rows@[i], values));
        }
    }
}

proof fn lemma_rows_to_valid(
    demands: Seq<PodResources>,
    offerings: Seq<Offering>,
    cands: Seq<(usize, u32)>,
    values: Seq<bool>,
    m: IlpModel,
    options: SolveOptions,
)
    requires
        model_matches(m, demands, offerings, cands, options),
        forall|c: int| 0 <= c < cands.len() ==> (#[trigger] cands[c]).0 < offerings.len(),
        values.len() == m.num_vars,
        forall|i: int| 0 <= i < m.rows@.len() ==> row_holds(#[trigger] m.rows@[i], values),
    ensures
        valid_assignment(demands, offerings, cands, values),
{
    let nd = demands.len() as int;
    let nc = cands.len() as int;
    assert forall|d: int| 0 <= d < nd implies #[trigger] placed_count(values, nc, d, nc) + (
    if val_u(values, nd, nc, d) {
        1int
    } else {
        0int
    }) == 1 by {
        assert(row_holds(m.rows@[d], values));
        lemma_terms_value_assign_full(nd, nc, d, values);
    }
    assert forall|d: int, c: int|
        0 <= d < nd && 0 <= c < nc && #[trigger] val_x(values, nc, d, c) implies val_y(
        values,
        nd,
        nc,
        c,
    ) by {
        lemma_grid_bound(nd, nc, d, c);
        assert(row_holds(m.rows@[nd + x_index(nc, d, c)], values));
        lemma_terms_value_activation(nd, nc, d, c, values);
    }
    assert forall|c: int| 0 <= c < nc implies #[trigger] cpu_used(values, demands, nc, c, nd)
        <= offerings[cands[c].0 as int].resources.cpu && mem_used(values, demands, nc, c, nd)
        <= offerings[cands[c].0 as int].resources.memory_mib by {
        assert(row_is(
            m.rows@[cap_cpu_row_index(nd, nc, c)],
            cpu_terms(demands, nc, c),
            RowOp::Le,
            offerings[cands[c].0 as int].resources.cpu as int,
        ));
        assert(row_holds(m.rows@[cap_cpu_row_index(nd, nc, c)], values));
        assert(row_holds(m.rows@[cap_mem_row_index(nd, nc, c)], values));
        lemma_terms_value_capacity(demands, nc, c, values, nd);
        assert(cpu_terms(demands, nc, c).subrange(0, nd) =~= cpu_terms(demands, nc, c));
        assert(mem_terms(demands, nc, c).subrange(0, nd) =~= mem_terms(demands, nc, c));
    }
    assert(values.len() == nd * nc + nc + nd);
    assert(forall|d: int|
        0 <= d < nd ==> #[trigger] placed_count(values, nc, d, nc) + (if val_u(
            values,
            nd,
            nc,
            d,
        ) {
            1int
        } else {
            0int
        }) == 1);
    assert(forall|d: int, c: int|
        0 <= d < nd && 0 <= c < nc && #[trigger] val_x(values, nc, d, c) ==> val_y(
            values,
            nd,
            nc,
            c,
        ));
    assert(forall|c: int|
        0 <= c < nc ==> #[trigger] cpu_used(values, demands, nc, c, nd)
            <= offerings[cands[c].0 as int].resources.cpu && mem_used(
            values,
            demands,
            nc,
            c,
            nd,
        ) <= offerings[cands[c].0 as int].resources.memory_mib);
    assert(valid_assignment(demands, offerings, cands, values));
}

/// The validity check and the built model agree: a 0/1 assignment is
/// valid exactly when it has one value per model variable and satisfies
/// every constraint row of the model. What `finish_solve` accepts is
/// therefore exactly what `build_model` asked the backend to satisfy.
pub proof fn lemma_valid_iff_model_rows_hold(
    demands: Seq<PodResources>,
    offerings: Seq<Offering>,
    cands: Seq<(usize, u32)>,
    values: Seq<bool>,
    m: IlpModel,
    options: SolveOptions,
)
    requires
        model_matches(m, demands, offerings, cands, options),
        forall|c: int| 0 <= c < cands.len() ==> (#[trigger] cands[c]).0 < offerings.len(),
    ensures
        valid_assignment(demands, offerings, cands, values) <==> (values.len() == m.num_vars
            && forall|i: int| 0 <= i < m.rows@.len() ==> row_holds(#[trigger] m.rows@[i], values)),
{
    if valid_assignment(demands, offerings, cands, values) {
        lemma_valid_to_rows(demands, offerings, cands, values, m, options);
    }
    if values.len() == m.num_vars && (forall|i: int|
        0 <= i < m.rows@.len() ==> row_holds(#[trigger] m.rows@[i], values)) {
        lemma_rows_to_valid(demands, offerings, cands, values, m, options);
    }
}

// ── Soundness of an all-placed solution ─────────────────────────────────
/// The first demand with the given id, if any.
pub open spec fn find_demand(demands: Seq<PodResources>, id: PodId) -> Option<PodResources>
    decreases demands.len(),
{
    if demands.len() == 0 {
        None
    } else if demands[0].id == id {
        Some(demands[0])
    } else {
        find_demand(demands.drop_first(), id)
    }
}

/// The cpu demand of the pod with the given id, 0 when unknown.
pub open spec fn demand_cpu_of(demands: Seq<PodResources>, id: PodId) -> int {
    match find_demand(demands, id) {
        Some(p) => p.resources.cpu as int,
        None => 0,
    }
}

/// The memory demand of the pod with the given id, 0 when unknown.
pub open spec fn demand_mem_of(demands: Seq<PodResources>, id: PodId) -> int {
    match find_demand(demands, id) {
        Some(p) => p.resources.memory_mib as int,
        None => 0,
    }
}

/// Summed cpu demand of a list of pods.
pub open spec fn pods_cpu(pods: Seq<PodId>, demands: Seq<PodResources>) -> int
    decreases pods.len(),
{
    if pods.len() == 0 {
        0
    } else {
        pods_cpu(pods.drop_last(), demands) + demand_cpu_of(demands, pods.last())
    }
}

/// Summed memory demand of a list of pods.
pub open spec fn pods_mem(pods: Seq<PodId>, demands: Seq<PodResources>) -> int
    decreases pods.len(),
{
    if pods.len() == 0 {
        0
    } else {
        pods_mem(pods.drop_last(), demands) + demand_mem_of(demands, pods.last())
    }
}

/// How often an id occurs in a list of pods.
pub open spec fn id_count_in_pods(pods: Seq<PodId>, id: PodId) -> int
    decreases pods.len(),
{
    if pods.len() == 0 {
        0
    } else {
        id_count_in_pods(pods.drop_last(), id) + if pods.last() == id {
            1int
        } else {
            0int
        }
    }
}

/// How often an id occurs across the pod lists of all nodes.
pub open spec fn id_count_in_nodes(nodes: Seq<(Offering, Seq<PodId>)>, id: PodId) -> int
    decreases nodes.len(),
{
    if nodes.len() == 0 {
        0
    } else {
        id_count_in_nodes(nodes.drop_last(), id) + id_count_in_pods(nodes.last().1, id)
    }
}

/// All demands carry distinct pod ids.
pub open spec fn distinct_ids(demands: Seq<PodResources>) -> bool {
    forall|i: int, j: int|
        0 <= i < j < demands.len() ==> (#[trigger] demands[i]).id != (#[trigger] demands[j]).id
}

proof fn lemma_unmet_empty_no_u(demands: Seq<PodResources>, values: Seq<bool>, nc: int, upto: int)
    requires
        unmet_view(demands, values, nc, upto).len() == 0,
    ensures
        forall|d: int| 0 <= d < upto ==> !val_u(values, demands.len() as int, nc, d),
    decreases upto,
{
    if upto > 0 {
        lemma_unmet_empty_no_u(demands, values, nc, upto - 1);
    }
}

proof fn lemma_find_demand_distinct(demands: Seq<PodResources>, k: int)
    requires
        distinct_ids(demands),
        0 <= k < demands.len(),
    ensures
        find_demand(demands, demands[k].id) == Some(demands[k]),
    decreases demands.len(),
{
    if k > 0 {
        assert(demands[0].id != demands[k].id);
        let rest = demands.drop_first();
        assert(distinct_ids(rest)) by {
            assert forall|i: int, j: int| 0 <= i < j < rest.len() implies (#[trigger] rest[i]).id
                != (#[trigger] rest[j]).id by {
                assert(rest[i] == demands[i + 1]);
                assert(rest[j] == demands[j + 1]);
            }
        }
        assert(rest[k - 1] == demands[k]);
        lemma_find_demand_distinct(rest, k - 1);
    }
}

proof fn lemma_pods_usage(
    demands: Seq<PodResources>,
    values: Seq<bool>,
    nc: int,
    c: int,
    upto: int,
)
    requires
        distinct_ids(demands),
        0 <= upto <= demands.len(),
    ensures
        pods_cpu(pods_view(demands, values, nc, c, upto), demands) == cpu_used(
            values,
            demands,
            nc,
            c,
            upto,
        ),
        pods_mem(pods_view(demands, values, nc, c, upto), demands) == mem_used(
            values,
            demands,
            nc,
            c,
            upto,
        ),
    decreases upto,
{
    if upto > 0 {
        lemma_pods_usage(demands, values, nc, c, upto - 1);
        if val_x(values, nc, upto - 1, c) {
            lemma_find_demand_distinct(demands, upto - 1);
            let p = pods_view(demands, values, nc, c, upto);
            assert(p.drop_last() =~= pods_view(demands, values, nc, c, upto - 1));
            assert(p.last() == demands[upto - 1].id);
        }
    }
}

proof fn lemma_id_in_pods(
    demands: Seq<PodResources>,
    values: Seq<bool>,
    nc: int,
    c: int,
    d: int,
    upto: int,
)
    requires
        distinct_ids(demands),
        0 <= d < demands.len(),
        0 <= upto <= demands.len(),
    ensures
        id_count_in_pods(pods_view(demands, values, nc, c, upto), demands[d].id) == if d < upto
            && val_x(values, nc, d, c) {
            1int
        } else {
            0int
        },
    decreases upto,
{
    if upto > 0 {
        lemma_id_in_pods(demands, values, nc, c, d, upto - 1);
        if val_x(values, nc, upto - 1, c) {
            let p = pods_view(demands, values, nc, c, upto);
            assert(p.drop_last() =~= pods_view(demands, values, nc, c, upto - 1));
            assert(p.last() == demands[upto - 1].id);
            if upto - 1 != d {
                assert(demands[upto - 1].id != demands[d].id);
            }
        }
    }
}

proof fn lemma_id_count_nodes(
    demands: Seq<PodResources>,
    offerings: Seq<Offering>,
    cands: Seq<(usize, u32)>,
    values: Seq<bool>,
    d: int,
    upto: int,
)
    requires
        valid_assignment(demands, offerings, cands, values),
        distinct_ids(demands),
        0 <= d < demands.len(),
        0 <= upto <= cands.len(),
    ensures
        id_count_in_nodes(nodes_view(demands, offerings, cands, values, upto), demands[d].id)
            == placed_count(values, cands.len() as int, d, upto),
    decreases upto,
{
    let nd = demands.len() as int;
    let nc = cands.len() as int;
    if upto > 0 {
        lemma_id_count_nodes(demands, offerings, cands, values, d, upto - 1);
        let nv = nodes_view(demands, offerings, cands, values, upto);
        if val_y(values, nd, nc, upto - 1) {
            assert(nv.drop_last() =~= nodes_view(demands, offerings, cands, values, upto - 1));
            lemma_id_in_pods(demands, values, nc, upto - 1, d, nd);
        } else {
            assert(!val_x(values, nc, d, upto - 1));
        }
    }
}

proof fn lemma_nodes_capacity(
    demands: Seq<PodResources>,
    offerings: Seq<Offering>,
    cands: Seq<(usize, u32)>,
    values: Seq<bool>,
    upto: int,
)
    requires
        valid_assignment(demands, offerings, cands, values),
        distinct_ids(demands),
        0 <= upto <= cands.len(),
    ensures
        forall|j: int|
            0 <= j < nodes_view(demands, offerings, cands, values, upto).len() ==> ({
                let entry = #[trigger] nodes_view(demands, offerings, cands, values, upto)[j];
                pods_cpu(entry.1, demands) <= entry.0.resources.cpu && pods_mem(entry.1, demands)
                    <= entry.0.resources.memory_mib
            }),
    decreases upto,
{
    let nd = demands.len() as int;
    let nc = cands.len() as int;
    if upto > 0 {
        lemma_nodes_capacity(demands, offerings, cands, values, upto - 1);
        let nv = nodes_view(demands, offerings, cands, values, upto);
        let prev = nodes_view(demands, offerings, cands, values, upto - 1);
        if val_y(values, nd, nc, upto - 1) {
            lemma_pods_usage(demands, values, nc, upto - 1, nd);
            assert(cpu_used(values, demands, nc, upto - 1, nd) <= offerings[cands[upto
                - 1].0 as int].resources.cpu);
            assert forall|j: int| 0 <= j < nv.len() implies ({
                let entry = #[trigger] nv[j];
                pods_cpu(entry.1, demands) <= entry.0.resources.cpu && pods_mem(entry.1, demands)
                    <= entry.0.resources.memory_mib
            }) by {
                if j < prev.len() {
                    assert(nv[j] == prev[j]);
                } else {
                    assert(nv[j] == nv.last());
                }
            }
        }
    }
}

proof fn lemma_pods_view_ids(
    demands: Seq<PodResources>,
    values: Seq<bool>,
    nc: int,
    c: int,
    upto: int,
)
    requires
        0 <= upto <= demands.len(),
    ensures
        forall|k: int|
            0 <= k < pods_view(demands, values, nc, c, upto).len() ==> exists|d: int|
                0 <= d < upto && #[trigger] pods_view(demands, values, nc, c, upto)[k]
                    == demands[d].id,
    decreases upto,
{
    if upto > 0 {
        lemma_pods_view_ids(demands, values, nc, c, upto - 1);
        let p = pods_view(demands, values, nc, c, upto);
        let prev = pods_view(demands, values, nc, c, upto - 1);
        assert forall|k: int| 0 <= k < p.len() implies exists|d: int|
            0 <= d < upto && #[trigger] p[k] == demands[d].id by {
            if val_x(values, nc, upto - 1, c) {
                if k < prev.len() {
                    assert(p[k] == prev[k]);
                    let d = choose|d: int| 0 <= d < upto - 1 && prev[k] == demands[d].id;
                    assert(p[k] == demands[d].id);
                } else {
                    assert(p[k] == demands[upto - 1].id);
                }
            } else {
                assert(p[k] == prev[k]);
                let d = choose|d: int| 0 <= d < upto - 1 && prev[k] == demands[d].id;
                assert(p[k] == demands[d].id);
            }
        }
    }
}

proof fn lemma_nodes_view_ids(
    demands: Seq<PodResources>,
    offerings: Seq<Offering>,
    cands: Seq<(usize, u32)>,
    values: Seq<bool>,
    upto: int,
)
    requires
        0 <= upto <= cands.len(),
    ensures
        forall|j: int, k: int|
            #![trigger nodes_view(demands, offerings, cands, values, upto)[j].1[k]]
            0 <= j < nodes_view(demands, offerings, cands, values, upto).len() && 0 <= k
                < nodes_view(demands, offerings, cands, values, upto)[j].1.len() ==> exists|d: int|
                0 <= d < demands.len() && nodes_view(demands, offerings, cands, values, upto)[j].1[k]
                    == demands[d].id,
    decreases upto,
{
    let nd = demands.len() as int;
    let nc = cands.len() as int;
    if upto > 0 {
        lemma_nodes_view_ids(demands, offerings, cands, values, upto - 1);
        let nv = nodes_view(demands, offerings, cands, values, upto);
        let prev = nodes_view(demands, offerings, cands, values, upto - 1);
        assert forall|j: int, k: int|
            #![trigger nv[j].1[k]]
            0 <= j < nv.len() && 0 <= k < nv[j].1.len() implies exists|d: int|
            0 <= d < nd && nv[j].1[k] == demands[d].id by {
            if val_y(values, nd, nc, upto - 1) && j == prev.len() {
                assert(nv[j] == nv.last());
                assert(nv[j].1 == pods_view(demands, values, nc, upto - 1, nd));
                lemma_pods_view_ids(demands, values, nc, upto - 1, nd);
                assert(exists|d: int|
                    0 <= d < nd && #[trigger] pods_view(demands, values, nc, upto - 1, nd)[k]
                        == demands[d].id);
                let d = choose|d: int|
                    0 <= d < nd && pods_view(demands, values, nc, upto - 1, nd)[k]
                        == demands[d].id;
                assert(nv[j].1[k] == demands[d].id);
            } else {
                assert(nv[j] == prev[j]);
                assert(exists|d: int|
                    0 <= d < nd && #[trigger] nodes_view(
                        demands,
                        offerings,
                        cands,
                        values,
                        upto - 1,
                    )[j].1[k] == demands[d].id);
                let d = choose|d: int|
                    0 <= d < nd && nodes_view(demands, offerings, cands, values, upto - 1)[j].1[k]
                        == demands[d].id;
                assert(nv[j].1[k] == demands[d].id);
            }
        }
    }
}

/// Soundness of a complete placement: when a valid assignment leaves no
/// demand unmet, then in the nodes it provisions every node's summed
/// cpu and memory demand fits its offering's capacity; when all demands
/// carry distinct pod ids, every demanded pod appears in exactly one
/// node, exactly once; and every pod id found in a node is the id of
/// one of the demands.
pub proof fn lemma_all_placed_sound(
    demands: Seq<PodResources>,
    offerings: Seq<Offering>,
    cands: Seq<(usize, u32)>,
    values: Seq<bool>,
)
    requires
        valid_assignment(demands, offerings, cands, values),
        distinct_ids(demands),
        unmet_view(demands, values, cands.len() as int, demands.len() as int).len() == 0,
    ensures
        forall|j: int|
            0 <= j < nodes_view(demands, offerings, cands, values, cands.len() as int).len()
                ==> ({
                let entry = #[trigger] nodes_view(
                    demands,
                    offerings,
                    cands,
                    values,
                    cands.len() as int,
                )[j];
                pods_cpu(entry.1, demands) <= entry.0.resources.cpu && pods_mem(entry.1, demands)
                    <= entry.0.resources.memory_mib
            }),
        forall|d: int|
            0 <= d < demands.len() ==> id_count_in_nodes(
                nodes_view(demands, offerings, cands, values, cands.len() as int),
                (#[trigger] demands[d]).id,
            ) == 1,
        forall|j: int, k: int|
            #![trigger nodes_view(demands, offerings, cands, values, cands.len() as int)[j].1[k]]
            0 <= j < nodes_view(demands, offerings, cands, values, cands.len() as int).len() && 0
                <= k < nodes_view(demands, offerings, cands, values, cands.len() as int)[j].1.len()
                ==> exists|d: int|
                0 <= d < demands.len() && nodes_view(
                    demands,
                    offerings,
                    cands,
                    values,
                    cands.len() as int,
                )[j].1[k] == demands[d].id,
{
    let nd = demands.len() as int;
    let nc = cands.len() as int;
    lemma_nodes_capacity(demands, offerings, cands, values, nc);
    lemma_unmet_empty_no_u(demands, values, nc, nd);
    lemma_nodes_view_ids(demands, offerings, cands, values, nc);
    assert forall|d: int| 0 <= d < nd implies id_count_in_nodes(
        nodes_view(demands, offerings, cands, values, nc),
        (#[trigger] demands[d]).id,
    ) == 1 by {
        lemma_id_count_nodes(demands, offerings, cands, values, d, nc);
        assert(!val_u(values, nd, nc, d));
        assert(placed_count(values, nc, d, nc) == 1);
    }
}

/// The solutions owed without entering the solver: no demands means
/// nothing to do, and demands without offerings are all unmet.
/// Returns None exactly when the solver is needed.
pub fn trivial_solution(demands: &Vec<PodResources>, offerings: &Vec<Offering>) -> (r: Option<
    PlacementSolution,
>)
    ensures
        demands@.len() == 0 ==> r == Some(PlacementSolution::NoDemands),
        demands@.len() > 0 && offerings@.len() == 0 ==> (r matches Some(
            PlacementSolution::IncompletePlacement { nodes, unmet },
        ) && nodes@.len() == 0 && unmet@ == demands@),
        demands@.len() > 0 && offerings@.len() > 0 ==> r is None,
{
    if demands.len() == 0 {
        return Some(PlacementSolution::NoDemands);
    }
    if offerings.len() == 0 {
        let mut unmet: Vec<PodResources> = Vec::new();
        let mut i: usize = 0;
        while i < demands.len()
            invariant
                i <= demands@.len(),
                unmet@ =~= demands@.subrange(0, i as int),
            decreases demands@.len() - i,
        {
            unmet.push(clone_pod_resources(&demands[i]));
            i = i + 1;
        }
        proof {
            assert(unmet@ =~= demands@);
        }
        return Some(PlacementSolution::IncompletePlacement { nodes: Vec::new(), unmet });
    }
    None
}

} // verus!
