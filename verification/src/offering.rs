//! The domain model: purchasable node offerings, pod identity, resource
//! bundles, and parsing of orchestrator resource-quantity strings.

use vstd::prelude::*;
use vstd::string::StrSliceExecFns;
use vstd::string::StringExecFns;

use crate::text::digits_part;
use crate::text::is_digit;
use crate::text::is_numeral;
use crate::text::is_numeral_str;
use crate::text::numeral_value;
use crate::text::parse_unsigned;
use crate::text::str_eq;

verus! {

/// Why a resource-quantity string was rejected.
#[derive(Debug, Clone, PartialEq, Eq)]
pub enum ParseCause {
    /// The string is not an unsigned decimal numeral with a known suffix.
    Invalid,
    /// The numeral is valid but the resulting quantity does not fit the type.
    OutOfRange,
}

/// A pod carried a resource quantity that could not be parsed.
#[derive(Debug, Clone, PartialEq, Eq)]
pub struct QuantityParseError {
    /// The raw quantity string as it appeared on the pod.
    pub raw: String,
    /// The underlying cause.
    pub cause: ParseCause,
}

/// The provider's native identifier for an instance type.
/// Opaque to the caller; only the provider adapter interprets it.
#[derive(Debug, Clone, PartialEq, Eq, Hash)]
pub struct InstanceType(pub String);

impl InstanceType {
    pub fn to_string(&self) -> (r: String)
        ensures
            r@ == self.0@,
    {
        self.0.clone()
    }
}

/// Newtype wrappers: prevents mixing up region and zone strings.
#[derive(Debug, Clone, PartialEq, Eq, Hash)]
pub struct Region(pub String);

#[derive(Debug, Clone, PartialEq, Eq, Hash)]
pub struct Zone(pub String);

/// Where an instance physically lives. Both fields are provider-specific
/// strings, but they are separate types so they cannot be swapped.
#[derive(Debug, Clone, PartialEq, Eq, Hash)]
pub struct Location {
    pub region: Region,
    /// Zone within the region. Not all providers and offerings have zones.
    pub zone: Option<Zone>,
}

/// Unique identity of a pod: namespace plus name.
#[derive(Debug, Clone, PartialEq, Eq, Hash)]
pub struct PodId {
    pub namespace: String,
    pub name: String,
}

impl PodId {
    pub fn new(namespace: String, name: String) -> (r: Self)
        ensures
            r.namespace == namespace,
            r.name == name,
    {
        PodId { namespace, name }
    }

    /// Textual form `namespace/name`, used for logging and map keys.
    pub fn to_string(&self) -> (r: String)
        ensures
            r@ == self.namespace@ + seq!['/'] + self.name@,
    {
        proof {
            reveal_strlit("/");
        }
        let mut s = self.namespace.clone();
        s.append("/");
        s.append(self.name.as_str());
        proof {
            assert("/"@ =~= seq!['/']);
        }
        s
    }
}

/// GPU model identifiers, with a string escape hatch for models this
/// controller does not know by name.
#[derive(Debug, Clone, PartialEq, Eq, Hash)]
pub enum GpuModel {
    NvidiaT4,
    NvidiaA100,
    NvidiaL4,
    NvidiaH100,
    NvidiaA10G,
    Other(String),
}

/// Whether two GPU models are the same model.
pub open spec fn gpu_model_matches(a: GpuModel, b: GpuModel) -> bool {
    match (a, b) {
        (GpuModel::NvidiaT4, GpuModel::NvidiaT4) => true,
        (GpuModel::NvidiaA100, GpuModel::NvidiaA100) => true,
        (GpuModel::NvidiaL4, GpuModel::NvidiaL4) => true,
        (GpuModel::NvidiaH100, GpuModel::NvidiaH100) => true,
        (GpuModel::NvidiaA10G, GpuModel::NvidiaA10G) => true,
        (GpuModel::Other(x), GpuModel::Other(y)) => x@ == y@,
        _ => false,
    }
}

/// Decide `gpu_model_matches` executably.
pub fn gpu_model_eq(a: &GpuModel, b: &GpuModel) -> (r: bool)
    ensures
        r == gpu_model_matches(*a, *b),
{
    match (a, b) {
        (GpuModel::NvidiaT4, GpuModel::NvidiaT4) => true,
        (GpuModel::NvidiaA100, GpuModel::NvidiaA100) => true,
        (GpuModel::NvidiaL4, GpuModel::NvidiaL4) => true,
        (GpuModel::NvidiaH100, GpuModel::NvidiaH100) => true,
        (GpuModel::NvidiaA10G, GpuModel::NvidiaA10G) => true,
        (GpuModel::Other(x), GpuModel::Other(y)) => str_eq(x.as_str(), y.as_str()),
        _ => false,
    }
}

/// Resources available on an instance type, or requested by a pod.
#[derive(Debug, Clone, PartialEq)]
pub struct Resources {
    /// vCPU count.
    pub cpu: u32,
    /// Memory in MiB. MiB, not GiB, to avoid half-gibibyte rounding for
    /// small instances.
    pub memory_mib: u32,
    /// Included ephemeral storage in GiB. None if not applicable.
    pub ephemeral_storage_gib: Option<u32>,
    /// GPU count. 0 for non-GPU instances.
    pub gpu: u32,
    /// GPU model identifier when gpu > 0.
    pub gpu_model: Option<GpuModel>,
}

/// A purchasable node type: a provider-assigned identifier, a resource
/// bundle, and an hourly cost.
#[derive(Debug, Clone, PartialEq)]
pub struct Offering {
    pub instance_type: InstanceType,
    pub resources: Resources,
    /// Hourly cost in micro-USD, kept integral so costs can be compared
    /// exactly.
    pub cost_per_hour_micros: u64,
}

/// Whether an offering's resources satisfy a demand: every dimension must
/// be at least the demanded amount, the GPU model must match when the
/// demand names one, and storage must be present when the demand asks
/// for it.
pub open spec fn spec_satisfies(offer: Resources, need: Resources) -> bool {
    &&& offer.cpu >= need.cpu
    &&& offer.memory_mib >= need.memory_mib
    &&& offer.gpu >= need.gpu
    &&& match need.gpu_model {
        Some(needed) => match offer.gpu_model {
            Some(provided) => gpu_model_matches(needed, provided),
            None => false,
        },
        None => true,
    }
    &&& match need.ephemeral_storage_gib {
        Some(required) => match offer.ephemeral_storage_gib {
            Some(provided) => provided >= required,
            None => false,
        },
        None => true,
    }
}

impl Offering {
    pub fn satisfies(&self, need: &Resources) -> (r: bool)
        ensures
            r == spec_satisfies(self.resources, *need),
    {
        self.resources.cpu >= need.cpu && self.resources.memory_mib >= need.memory_mib
            && self.resources.gpu >= need.gpu && (match &need.gpu_model {
            Some(needed) => match &self.resources.gpu_model {
                Some(provided) => gpu_model_eq(needed, provided),
                None => false,
            },
            None => true,
        }) && (match need.ephemeral_storage_gib {
            Some(required) => match self.resources.ephemeral_storage_gib {
                Some(provided) => provided >= required,
                None => false,
            },
            None => true,
        })
    }
}

/// A demand fits an offering iff no resource dimension falls short.
/// For demands that name no GPU model and no storage amount,
/// satisfaction is exactly the componentwise comparison of cpu, memory
/// and gpu count.
pub proof fn lemma_satisfies_componentwise(offer: Resources, need: Resources)
    ensures
        spec_satisfies(offer, need) ==> offer.cpu >= need.cpu && offer.memory_mib
            >= need.memory_mib && offer.gpu >= need.gpu,
        offer.cpu < need.cpu ==> !spec_satisfies(offer, need),
        offer.memory_mib < need.memory_mib ==> !spec_satisfies(offer, need),
        offer.gpu < need.gpu ==> !spec_satisfies(offer, need),
        need.gpu_model is None && need.ephemeral_storage_gib is None ==> (spec_satisfies(
            offer,
            need,
        ) <==> offer.cpu >= need.cpu && offer.memory_mib >= need.memory_mib && offer.gpu
            >= need.gpu),
{
}

/// A pod identity together with its summed resource requests.
#[derive(Debug, Clone, PartialEq)]
pub struct PodResources {
    pub id: PodId,
    pub resources: Resources,
}

// ── Resource-quantity parsing ───────────────────────────────────────────
/// Ceiling division, written so that it never needs an overflowing sum.
pub open spec fn ceil_div(v: nat, d: nat) -> nat {
    v / d + if v % d != 0 {
        1nat
    } else {
        0nat
    }
}

/// The value of a CPU quantity string in whole cores, rounded up: either
/// a bare numeral (cores) or a numeral with an `m` suffix (millicores).
/// None when the string is malformed or the value does not fit `u32`.
pub open spec fn cpu_quantity(s: Seq<char>) -> Option<int> {
    if s.len() > 0 && s.last() == 'm' {
        match numeral_of(s.drop_last()) {
            Some(v) => if v <= u32::MAX {
                Some(ceil_div(v, 1000) as int)
            } else {
                None
            },
            None => None,
        }
    } else {
        match numeral_of(s) {
            Some(v) => if v <= u32::MAX {
                Some(v as int)
            } else {
                None
            },
            None => None,
        }
    }
}

/// Whether `s` ends with the two-character suffix `a` then `b`.
pub open spec fn has_suffix2(s: Seq<char>, a: char, b: char) -> bool {
    s.len() >= 2 && s[s.len() - 2] == a && s[s.len() - 1] == b
}

/// The numeral part before a two-character suffix.
pub open spec fn body2(s: Seq<char>) -> Seq<char> {
    s.subrange(0, s.len() - 2)
}

/// The value of a numeral sequence, when it is one.
pub open spec fn numeral_of(s: Seq<char>) -> Option<nat> {
    if is_numeral(s) {
        Some(numeral_value(digits_part(s)))
    } else {
        None
    }
}

/// The value of a memory quantity string in MiB, rounded up. Suffixes:
/// `Gi` (multiply by 1024), `Mi` (as is), `Ki` (divide by 1024 rounding
/// up), bare bytes (divide by 1048576 rounding up). None when the string
/// is malformed or the resulting MiB count does not fit `u32`.
pub open spec fn memory_mib_quantity(s: Seq<char>) -> Option<int> {
    if has_suffix2(s, 'G', 'i') {
        match numeral_of(body2(s)) {
            Some(v) => if v * 1024 <= u32::MAX {
                Some((v * 1024) as int)
            } else {
                None
            },
            None => None,
        }
    } else if has_suffix2(s, 'M', 'i') {
        match numeral_of(body2(s)) {
            Some(v) => if v <= u32::MAX {
                Some(v as int)
            } else {
                None
            },
            None => None,
        }
    } else if has_suffix2(s, 'K', 'i') {
        match numeral_of(body2(s)) {
            Some(v) => if v <= u32::MAX {
                Some(ceil_div(v, 1024) as int)
            } else {
                None
            },
            None => None,
        }
    } else {
        match numeral_of(s) {
            Some(v) => if ceil_div(v, 1048576) <= u32::MAX {
                Some(ceil_div(v, 1048576) as int)
            } else {
                None
            },
            None => None,
        }
    }
}

/// The value of an ephemeral-storage quantity string in GiB, rounded up.
/// None when the string is malformed or the GiB count does not fit `u32`.
pub open spec fn storage_gib_quantity(s: Seq<char>) -> Option<int> {
    if has_suffix2(s, 'G', 'i') {
        match numeral_of(body2(s)) {
            Some(v) => if v <= u32::MAX {
                Some(v as int)
            } else {
                None
            },
            None => None,
        }
    } else if has_suffix2(s, 'M', 'i') {
        match numeral_of(body2(s)) {
            Some(v) => if v <= u32::MAX {
                Some(ceil_div(v, 1024) as int)
            } else {
                None
            },
            None => None,
        }
    } else if has_suffix2(s, 'K', 'i') {
        match numeral_of(body2(s)) {
            Some(v) => if ceil_div(v, 1048576) <= u32::MAX {
                Some(ceil_div(v, 1048576) as int)
            } else {
                None
            },
            None => None,
        }
    } else {
        match numeral_of(s) {
            Some(v) => if ceil_div(v, 1073741824) <= u32::MAX {
                Some(ceil_div(v, 1073741824) as int)
            } else {
                None
            },
            None => None,
        }
    }
}

/// The value of a GPU-count quantity string: a bare non-negative integer.
pub open spec fn gpu_quantity(s: Seq<char>) -> Option<int> {
    match numeral_of(s) {
        Some(v) => if v <= u32::MAX {
            Some(v as int)
        } else {
            None
        },
        None => None,
    }
}

/// Build the error for a rejected quantity string: `raw` is the whole
/// string as it appeared, `body` its numeral part (the suffix removed),
/// which decides whether the string was malformed or merely too large.
fn quantity_error(raw: &str, body: &str) -> (e: QuantityParseError)
    ensures
        e.raw@ == raw@,
{
    let cause = if is_numeral_str(body) {
        ParseCause::OutOfRange
    } else {
        ParseCause::Invalid
    };
    QuantityParseError { raw: raw.to_owned(), cause }
}

/// Parse an orchestrator CPU quantity into a whole vCPU count (rounds
/// up). Handles bare integers ("4") and millicores ("500m").
pub fn parse_cpu(s: &str) -> (r: Result<u32, QuantityParseError>)
    ensures
        r is Ok <==> cpu_quantity(s@) is Some,
        r matches Ok(v) ==> Some(v as int) == cpu_quantity(s@),
        r matches Err(e) ==> e.raw@ == s@,
{
    let n = s.unicode_len();
    if n > 0 && s.get_char(n - 1) == 'm' {
        let body = s.substring_char(0, n - 1);
        proof {
            assert(body@ =~= s@.drop_last());
        }
        match parse_unsigned(body, 0xffff_ffffu64) {
            Some(v) => {
                let q: u64 = v / 1000 + (if v % 1000 != 0 {
                    1
                } else {
                    0
                });
                Ok(q as u32)
            },
            None => Err(quantity_error(s, body)),
        }
    } else {
        match parse_unsigned(s, 0xffff_ffffu64) {
            Some(v) => Ok(v as u32),
            None => Err(quantity_error(s, s)),
        }
    }
}

/// Check for a two-character suffix and return the part before it.
fn split_suffix2<'a>(s: &'a str, a: char, b: char) -> (r: Option<&'a str>)
    ensures
        r is Some <==> has_suffix2(s@, a, b),
        r matches Some(body) ==> body@ == body2(s@),
{
    let n = s.unicode_len();
    if n >= 2 && s.get_char(n - 2) == a && s.get_char(n - 1) == b {
        let body = s.substring_char(0, n - 2);
        proof {
            assert(body@ =~= body2(s@));
        }
        Some(body)
    } else {
        None
    }
}

/// Parse an orchestrator memory quantity into MiB (rounds up).
/// Handles `Gi`, `Mi`, `Ki`, and bare bytes.
pub fn parse_memory_mib(s: &str) -> (r: Result<u32, QuantityParseError>)
    ensures
        r is Ok <==> memory_mib_quantity(s@) is Some,
        r matches Ok(v) ==> Some(v as int) == memory_mib_quantity(s@),
        r matches Err(e) ==> e.raw@ == s@,
{
    if let Some(body) = split_suffix2(s, 'G', 'i') {
        match parse_unsigned(body, 4194303u64) {
            Some(v) => {
                proof {
                    assert(memory_mib_quantity(s@) == Some((v * 1024) as int));
                }
                return Ok((v as u32) * 1024);
            },
            None => {
                return Err(quantity_error(s, body));
            },
        }
    } else if let Some(body) = split_suffix2(s, 'M', 'i') {
        match parse_unsigned(body, 0xffff_ffffu64) {
            Some(v) => {
                proof {
                    assert(memory_mib_quantity(s@) == Some(v as int));
                }
                return Ok(v as u32);
            },
            None => {
                return Err(quantity_error(s, body));
            },
        }
    } else if let Some(body) = split_suffix2(s, 'K', 'i') {
        match parse_unsigned(body, 0xffff_ffffu64) {
            Some(v) => {
                let q: u64 = v / 1024 + (if v % 1024 != 0 {
                    1
                } else {
                    0
                });
                proof {
                    assert(memory_mib_quantity(s@) == Some(q as int));
                }
                return Ok(q as u32);
            },
            None => {
                return Err(quantity_error(s, body));
            },
        }
    } else {
        match parse_unsigned(s, u64::MAX) {
            Some(v) => {
                let q: u64 = v / 1048576 + (if v % 1048576 != 0 {
                    1
                } else {
                    0
                });
                if q > 0xffff_ffff {
                    return Err(quantity_error(s, s));
                }
                return Ok(q as u32);
            },
            None => {
                return Err(quantity_error(s, s));
            },
        }
    }
}

/// Parse an orchestrator ephemeral-storage quantity into GiB (rounds up).
pub fn parse_storage_gib(s: &str) -> (r: Result<u32, QuantityParseError>)
    ensures
        r is Ok <==> storage_gib_quantity(s@) is Some,
        r matches Ok(v) ==> Some(v as int) == storage_gib_quantity(s@),
        r matches Err(e) ==> e.raw@ == s@,
{
    if let Some(body) = split_suffix2(s, 'G', 'i') {
        match parse_unsigned(body, 0xffff_ffffu64) {
            Some(v) => Ok(v as u32),
            None => Err(quantity_error(s, body)),
        }
    } else if let Some(body) = split_suffix2(s, 'M', 'i') {
        match parse_unsigned(body, 0xffff_ffffu64) {
            Some(v) => {
                let q: u64 = v / 1024 + (if v % 1024 != 0 {
                    1
                } else {
                    0
                });
                Ok(q as u32)
            },
            None => Err(quantity_error(s, body)),
        }
    } else if let Some(body) = split_suffix2(s, 'K', 'i') {
        match parse_unsigned(body, u64::MAX) {
            Some(v) => {
                let q: u64 = v / 1048576 + (if v % 1048576 != 0 {
                    1
                } else {
                    0
                });
                if q > 0xffff_ffff {
                    return Err(quantity_error(s, body));
                }
                Ok(q as u32)
            },
            None => Err(quantity_error(s, body)),
        }
    } else {
        match parse_unsigned(s, u64::MAX) {
            Some(v) => {
                let q: u64 = v / 1073741824 + (if v % 1073741824 != 0 {
                    1
                } else {
                    0
                });
                if q > 0xffff_ffff {
                    return Err(quantity_error(s, s));
                }
                Ok(q as u32)
            },
            None => Err(quantity_error(s, s)),
        }
    }
}

/// Parse a GPU-count quantity: a bare non-negative integer.
pub fn parse_gpu_count(s: &str) -> (r: Result<u32, QuantityParseError>)
    ensures
        r is Ok <==> gpu_quantity(s@) is Some,
        r matches Ok(v) ==> Some(v as int) == gpu_quantity(s@),
        r matches Err(e) ==> e.raw@ == s@,
{
    match parse_unsigned(s, 0xffff_ffffu64) {
        Some(v) => Ok(v as u32),
        None => Err(quantity_error(s, s)),
    }
}

// ── Unit coherence of the parsers ───────────────────────────────────────
/// A numeral never ends in a letter, so a bare numeral always takes the
/// suffix-less branch of the parsers.
proof fn lemma_numeral_last_is_digit(s: Seq<char>)
    requires
        is_numeral(s),
    ensures
        s.len() > 0,
        is_digit(s.last()),
{
    let d = digits_part(s);
    assert(is_digit(d[d.len() - 1]));
    assert(d.last() == s.last());
}

/// Millicore parsing agrees with whole-core parsing: a millicore numeral
/// worth exactly 1000 times a whole-core numeral parses to the same CPU
/// count.
pub proof fn lemma_cpu_units_coherent(cores: Seq<char>, millis: Seq<char>)
    requires
        is_numeral(cores),
        is_numeral(millis),
        numeral_value(digits_part(millis)) == 1000 * numeral_value(digits_part(cores)),
        numeral_value(digits_part(millis)) <= u32::MAX,
    ensures
        cpu_quantity(millis.push('m')) == cpu_quantity(cores),
{
    let s = millis.push('m');
    assert(s.last() == 'm');
    assert(s.drop_last() =~= millis);
    lemma_numeral_last_is_digit(cores);
    let v = numeral_value(digits_part(cores));
    let m = numeral_value(digits_part(millis));
    assert(m / 1000 == v && m % 1000 == 0) by (nonlinear_arith)
        requires
            m == 1000 * v,
    ;
}

/// Gibibyte parsing agrees with mebibyte parsing: a `Mi` numeral worth
/// exactly 1024 times a `Gi` numeral parses to the same MiB count.
pub proof fn lemma_memory_units_coherent(gi: Seq<char>, mi: Seq<char>)
    requires
        is_numeral(gi),
        is_numeral(mi),
        numeral_value(digits_part(mi)) == 1024 * numeral_value(digits_part(gi)),
        numeral_value(digits_part(mi)) <= u32::MAX,
    ensures
        memory_mib_quantity(gi.push('G').push('i')) == memory_mib_quantity(mi.push('M').push('i')),
{
    let sg = gi.push('G').push('i');
    let sm = mi.push('M').push('i');
    assert(has_suffix2(sg, 'G', 'i'));
    assert(has_suffix2(sm, 'M', 'i'));
    assert(!has_suffix2(sm, 'G', 'i')) by {
        lemma_numeral_last_is_digit(mi);
        assert(sm[sm.len() - 2] == 'M');
    }
    assert(body2(sg) =~= gi);
    assert(body2(sm) =~= mi);
}

// ── Pod resource extraction ─────────────────────────────────────────────
/// The resource-request strings of one container, as they appear under
/// the orchestrator's request keys.
#[derive(Debug, Clone, PartialEq)]
pub struct ContainerRequests {
    /// Quantity under the `cpu` key, if present.
    pub cpu: Option<String>,
    /// Quantity under the `memory` key, if present.
    pub memory: Option<String>,
    /// Quantity under the `nvidia.com/gpu` key, if present.
    pub gpu: Option<String>,
    /// Quantity under the `ephemeral-storage` key, if present.
    pub ephemeral_storage: Option<String>,
}

/// One pod condition, reduced to the fields the controller reads.
#[derive(Debug, Clone, PartialEq)]
pub struct PodConditionInfo {
    pub type_: String,
    pub status: String,
    pub reason: Option<String>,
}

/// What this controller reads from one observed pod: identity, scheduling
/// conditions, owner kinds, and per-container resource requests.
#[derive(Debug, Clone, PartialEq)]
pub struct PodInfo {
    pub namespace: String,
    pub name: String,
    /// The pod's conditions.
    pub conditions: Vec<PodConditionInfo>,
    /// The `kind` of each owner reference.
    pub owner_kinds: Vec<String>,
    /// Resource requests of each regular container, in order.
    pub containers: Vec<ContainerRequests>,
}

/// The parsed cpu demand of one container, counting absent requests and
/// unparseable strings as zero. Used to state sums and their bounds.
pub open spec fn container_cpu(c: ContainerRequests) -> int {
    match c.cpu {
        Some(q) => match cpu_quantity(q@) {
            Some(v) => v,
            None => 0,
        },
        None => 0,
    }
}

pub open spec fn container_memory(c: ContainerRequests) -> int {
    match c.memory {
        Some(q) => match memory_mib_quantity(q@) {
            Some(v) => v,
            None => 0,
        },
        None => 0,
    }
}

pub open spec fn container_gpu(c: ContainerRequests) -> int {
    match c.gpu {
        Some(q) => match gpu_quantity(q@) {
            Some(v) => v,
            None => 0,
        },
        None => 0,
    }
}

pub open spec fn container_storage(c: ContainerRequests) -> int {
    match c.ephemeral_storage {
        Some(q) => match storage_gib_quantity(q@) {
            Some(v) => v,
            None => 0,
        },
        None => 0,
    }
}

/// Sum of the cpu demand over the first `k` containers.
pub open spec fn sum_cpu(cs: Seq<ContainerRequests>, k: int) -> int
    decreases k,
{
    if k <= 0 {
        0
    } else {
        sum_cpu(cs, k - 1) + container_cpu(cs[k - 1])
    }
}

pub open spec fn sum_memory(cs: Seq<ContainerRequests>, k: int) -> int
    decreases k,
{
    if k <= 0 {
        0
    } else {
        sum_memory(cs, k - 1) + container_memory(cs[k - 1])
    }
}

pub open spec fn sum_gpu(cs: Seq<ContainerRequests>, k: int) -> int
    decreases k,
{
    if k <= 0 {
        0
    } else {
        sum_gpu(cs, k - 1) + container_gpu(cs[k - 1])
    }
}

pub open spec fn sum_storage(cs: Seq<ContainerRequests>, k: int) -> int
    decreases k,
{
    if k <= 0 {
        0
    } else {
        sum_storage(cs, k - 1) + container_storage(cs[k - 1])
    }
}

/// Every present quantity of one container parses.
pub open spec fn container_parses(c: ContainerRequests) -> bool {
    &&& (c.cpu matches Some(q) ==> cpu_quantity(q@) is Some)
    &&& (c.memory matches Some(q) ==> memory_mib_quantity(q@) is Some)
    &&& (c.gpu matches Some(q) ==> gpu_quantity(q@) is Some)
    &&& (c.ephemeral_storage matches Some(q) ==> storage_gib_quantity(q@) is Some)
}

/// Every present quantity of every container parses.
pub open spec fn all_quantities_parse(cs: Seq<ContainerRequests>) -> bool {
    forall|i: int| 0 <= i < cs.len() ==> container_parses(#[trigger] cs[i])
}

/// The first quantity string, in container order and then key order
/// (cpu, memory, gpu, ephemeral-storage), that fails to parse.
pub open spec fn container_first_bad(c: ContainerRequests) -> Option<Seq<char>> {
    if c.cpu matches Some(q) && cpu_quantity(q@) is None {
        Some(c.cpu.unwrap()@)
    } else if c.memory matches Some(q) && memory_mib_quantity(q@) is None {
        Some(c.memory.unwrap()@)
    } else if c.gpu matches Some(q) && gpu_quantity(q@) is None {
        Some(c.gpu.unwrap()@)
    } else if c.ephemeral_storage matches Some(q) && storage_gib_quantity(q@) is None {
        Some(c.ephemeral_storage.unwrap()@)
    } else {
        None
    }
}

pub open spec fn first_failure_from(cs: Seq<ContainerRequests>, i: int) -> Option<Seq<char>>
    decreases cs.len() - i,
{
    if i < 0 || i >= cs.len() {
        None
    } else {
        match container_first_bad(cs[i]) {
            Some(raw) => Some(raw),
            None => first_failure_from(cs, i + 1),
        }
    }
}

proof fn lemma_first_failure_skip(cs: Seq<ContainerRequests>, i: int)
    requires
        0 <= i <= cs.len(),
        forall|k: int| 0 <= k < i ==> container_parses(#[trigger] cs[k]),
    ensures
        first_failure_from(cs, 0) == first_failure_from(cs, i),
    decreases i,
{
    if i > 0 {
        lemma_first_failure_skip(cs.subrange(0, 0), 0);
        lemma_first_failure_skip_step(cs, i);
    }
}

proof fn lemma_first_failure_skip_step(cs: Seq<ContainerRequests>, i: int)
    requires
        0 < i <= cs.len(),
        forall|k: int| 0 <= k < i ==> container_parses(#[trigger] cs[k]),
    ensures
        first_failure_from(cs, 0) == first_failure_from(cs, i),
    decreases i,
{
    assert(container_first_bad(cs[i - 1]) is None);
    if i > 1 {
        lemma_first_failure_skip_step(cs, i - 1);
    }
}

/// When every quantity parses there is no first failure.
pub proof fn lemma_no_failure_when_parsing(cs: Seq<ContainerRequests>)
    ensures
        all_quantities_parse(cs) ==> first_failure_from(cs, 0) is None,
{
    if all_quantities_parse(cs) {
        lemma_no_failure_from(cs, 0);
    }
}

proof fn lemma_no_failure_from(cs: Seq<ContainerRequests>, i: int)
    requires
        all_quantities_parse(cs),
        0 <= i,
    ensures
        first_failure_from(cs, i) is None,
    decreases cs.len() - i,
{
    if i < cs.len() {
        assert(container_parses(cs[i]));
        assert(container_first_bad(cs[i]) is None);
        lemma_no_failure_from(cs, i + 1);
    }
}

/// Some container mentions an ephemeral-storage request.
pub open spec fn any_storage_request(cs: Seq<ContainerRequests>) -> bool {
    exists|i: int| 0 <= i < cs.len() && (#[trigger] cs[i]).ephemeral_storage is Some
}

/// The summed demand of a pod fits the `u32` resource fields.
pub open spec fn demand_fits(cs: Seq<ContainerRequests>) -> bool {
    &&& sum_cpu(cs, cs.len() as int) <= u32::MAX
    &&& sum_memory(cs, cs.len() as int) <= u32::MAX
    &&& sum_gpu(cs, cs.len() as int) <= u32::MAX
    &&& sum_storage(cs, cs.len() as int) <= u32::MAX
}

/// Partial sums are non-negative and bounded by later sums.
pub proof fn lemma_sums_monotone(cs: Seq<ContainerRequests>, j: int, k: int)
    requires
        0 <= j <= k,
    ensures
        0 <= sum_cpu(cs, j) <= sum_cpu(cs, k),
        0 <= sum_memory(cs, j) <= sum_memory(cs, k),
        0 <= sum_gpu(cs, j) <= sum_gpu(cs, k),
        0 <= sum_storage(cs, j) <= sum_storage(cs, k),
    decreases k,
{
    if j < k {
        lemma_sums_monotone(cs, j, k - 1);
    } else if j > 0 {
        lemma_sums_monotone(cs, j - 1, j - 1);
    }
}

impl Resources {
    /// Total resource requests of a pod: each dimension summed across its
    /// regular containers, rounding each quantity up as it is parsed. The
    /// ephemeral-storage field is `Some` exactly when some container
    /// requested storage. The GPU model is not read from pods.
    pub fn from_pod(pod: &PodInfo) -> (r: Result<Resources, QuantityParseError>)
        requires
            demand_fits(pod.containers@),
        ensures
            r is Ok <==> all_quantities_parse(pod.containers@),
            r matches Ok(res) ==> {
                let cs = pod.containers@;
                &&& res.cpu as int == sum_cpu(cs, cs.len() as int)
                &&& res.memory_mib as int == sum_memory(cs, cs.len() as int)
                &&& res.gpu as int == sum_gpu(cs, cs.len() as int)
                &&& (res.ephemeral_storage_gib is Some <==> any_storage_request(cs))
                &&& (res.ephemeral_storage_gib matches Some(g) ==> g as int == sum_storage(
                    cs,
                    cs.len() as int,
                ))
                &&& res.gpu_model is None
            },
            r matches Err(e) ==> Some(e.raw@) == first_failure_from(pod.containers@, 0),
    {
        let ghost cs = pod.containers@;
        let mut cpu: u32 = 0;
        let mut memory_mib: u32 = 0;
        let mut gpu: u32 = 0;
        let mut ephemeral_storage_gib: Option<u32> = None;
        let n = pod.containers.len();
        let mut i: usize = 0;
        while i < n
            invariant
                n == cs.len(),
                i <= n,
                demand_fits(cs),
                cs == pod.containers@,
                cpu as int == sum_cpu(cs, i as int),
                memory_mib as int == sum_memory(cs, i as int),
                gpu as int == sum_gpu(cs, i as int),
                (ephemeral_storage_gib is Some <==> exists|k: int|
                    0 <= k < i && (#[trigger] cs[k]).ephemeral_storage is Some),
                (ephemeral_storage_gib matches Some(g) ==> g as int == sum_storage(cs, i as int)),
                (ephemeral_storage_gib is None ==> sum_storage(cs, i as int) == 0),
                forall|k: int| 0 <= k < i ==> container_parses(#[trigger] cs[k]),
            decreases n - i,
        {
            let container = &pod.containers[i];
            proof {
                lemma_sums_monotone(cs, i as int + 1, cs.len() as int);
                lemma_first_failure_skip(cs, i as int);
            }
            if let Some(q) = &container.cpu {
                match parse_cpu(q.as_str()) {
                    Ok(v) => {
                        cpu = cpu + v;
                    },
                    Err(e) => {
                        return Err(e);
                    },
                }
            }
            if let Some(q) = &container.memory {
                match parse_memory_mib(q.as_str()) {
                    Ok(v) => {
                        memory_mib = memory_mib + v;
                    },
                    Err(e) => {
                        return Err(e);
                    },
                }
            }
            if let Some(q) = &container.gpu {
                match parse_gpu_count(q.as_str()) {
                    Ok(v) => {
                        gpu = gpu + v;
                    },
                    Err(e) => {
                        return Err(e);
                    },
                }
            }
            if let Some(q) = &container.ephemeral_storage {
                match parse_storage_gib(q.as_str()) {
                    Ok(v) => {
                        let prior: u32 = match ephemeral_storage_gib {
                            Some(g) => g,
                            None => 0,
                        };
                        ephemeral_storage_gib = Some(prior + v);
                    },
                    Err(e) => {
                        return Err(e);
                    },
                }
            }
            i = i + 1;
        }
        Ok(Resources { cpu, memory_mib, ephemeral_storage_gib, gpu, gpu_model: None })
    }
}

/// The exact relation between an observed pod and its summed demand:
/// identity carried over, each dimension the sum over the containers,
/// storage present exactly when some container requested it.
pub open spec fn pod_demand_matches(pr: PodResources, pod: PodInfo) -> bool {
    let cs = pod.containers@;
    &&& pr.id.namespace == pod.namespace
    &&& pr.id.name == pod.name
    &&& pr.resources.cpu as int == sum_cpu(cs, cs.len() as int)
    &&& pr.resources.memory_mib as int == sum_memory(cs, cs.len() as int)
    &&& pr.resources.gpu as int == sum_gpu(cs, cs.len() as int)
    &&& (pr.resources.ephemeral_storage_gib is Some <==> any_storage_request(cs))
    &&& (pr.resources.ephemeral_storage_gib matches Some(g) ==> g as int == sum_storage(
        cs,
        cs.len() as int,
    ))
    &&& pr.resources.gpu_model is None
}

impl PodResources {
    /// Build a `PodResources` from an observed pod: its identity plus the
    /// summed resource requests of its containers.
    pub fn from_pod(pod: &PodInfo) -> (r: Result<PodResources, QuantityParseError>)
        requires
            demand_fits(pod.containers@),
        ensures
            r is Ok <==> all_quantities_parse(pod.containers@),
            r matches Ok(pr) ==> pod_demand_matches(pr, *pod),
            r matches Err(e) ==> Some(e.raw@) == first_failure_from(pod.containers@, 0),
    {
        match Resources::from_pod(pod) {
            Ok(resources) => Ok(
                PodResources {
                    id: PodId { namespace: pod.namespace.clone(), name: pod.name.clone() },
                    resources,
                },
            ),
            Err(e) => Err(e),
        }
    }
}

} // verus!
