//! The development provider's data: a fixed catalogue of purchasable
//! node types, and the capacity entries a fake node advertises.

use vstd::prelude::*;
use vstd::string::StringExecFns;

use crate::offering::GpuModel;
use crate::offering::InstanceType;
use crate::offering::Offering;
use crate::offering::Resources;
use crate::text::spec_decimal;
use crate::text::u64_to_decimal;

verus! {

fn offering(
    name: &str,
    cpu: u32,
    memory_mib: u32,
    disk_gib: u32,
    cost_per_hour_micros: u64,
) -> (r: Offering)
    ensures
        r.instance_type.0@ == name@,
        r.resources == (Resources {
            cpu,
            memory_mib,
            ephemeral_storage_gib: Some(disk_gib),
            gpu: 0,
            gpu_model: None,
        }),
        r.cost_per_hour_micros == cost_per_hour_micros,
{
    Offering {
        instance_type: InstanceType(name.to_owned()),
        resources: Resources {
            cpu,
            memory_mib,
            ephemeral_storage_gib: Some(disk_gib),
            gpu: 0,
            gpu_model: None,
        },
        cost_per_hour_micros,
    }
}

fn gpu_offering(
    name: &str,
    cpu: u32,
    memory_mib: u32,
    disk_gib: u32,
    gpu: u32,
    gpu_model: GpuModel,
    cost_per_hour_micros: u64,
) -> (r: Offering)
    ensures
        r.instance_type.0@ == name@,
        r.resources == (Resources {
            cpu,
            memory_mib,
            ephemeral_storage_gib: Some(disk_gib),
            gpu,
            gpu_model: Some(gpu_model),
        }),
        r.cost_per_hour_micros == cost_per_hour_micros,
{
    Offering {
        instance_type: InstanceType(name.to_owned()),
        resources: Resources {
            cpu,
            memory_mib,
            ephemeral_storage_gib: Some(disk_gib),
            gpu,
            gpu_model: Some(gpu_model),
        },
        cost_per_hour_micros,
    }
}

/// The instance-type name at each position of the development catalogue.
pub open spec fn kwok_name(i: int) -> Seq<char> {
    if i == 0 {
        "cx22"@
    } else if i == 1 {
        "cx32"@
    } else if i == 2 {
        "cx42"@
    } else if i == 3 {
        "cx52"@
    } else if i == 4 {
        "cpx12"@
    } else if i == 5 {
        "cpx22"@
    } else if i == 6 {
        "cpx32"@
    } else if i == 7 {
        "cpx42"@
    } else if i == 8 {
        "cpx52"@
    } else if i == 9 {
        "cax11"@
    } else if i == 10 {
        "cax21"@
    } else if i == 11 {
        "cax31"@
    } else if i == 12 {
        "cax41"@
    } else if i == 13 {
        "ccx13"@
    } else if i == 14 {
        "ccx23"@
    } else if i == 15 {
        "ccx33"@
    } else if i == 16 {
        "ccx43"@
    } else if i == 17 {
        "ccx53"@
    } else if i == 18 {
        "ccx63"@
    } else if i == 19 {
        "gpu-a100-1"@
    } else {
        "gpu-a100-4"@
    }
}

/// Every offering in the catalogue carries a distinct instance type.
#[verifier::rlimit(100)]
pub proof fn lemma_kwok_names_distinct(i: int, j: int)
    requires
        0 <= i < j < 21,
    ensures
        kwok_name(i) != kwok_name(j),
{
    reveal_strlit("cx22");
    reveal_strlit("cx32");
    reveal_strlit("cx42");
    reveal_strlit("cx52");
    reveal_strlit("cpx12");
    reveal_strlit("cpx22");
    reveal_strlit("cpx32");
    reveal_strlit("cpx42");
    reveal_strlit("cpx52");
    reveal_strlit("cax11");
    reveal_strlit("cax21");
    reveal_strlit("cax31");
    reveal_strlit("cax41");
    reveal_strlit("ccx13");
    reveal_strlit("ccx23");
    reveal_strlit("ccx33");
    reveal_strlit("ccx43");
    reveal_strlit("ccx53");
    reveal_strlit("ccx63");
    reveal_strlit("gpu-a100-1");
    reveal_strlit("gpu-a100-4");
    if kwok_name(i) == kwok_name(j) {
        assert(kwok_name(i).len() == kwok_name(j).len());
        assert(kwok_name(i)[1] == kwok_name(j)[1]);
        assert(kwok_name(i)[2] == kwok_name(j)[2]);
        assert(kwok_name(i)[3] == kwok_name(j)[3]);
        assert(kwok_name(i).last() == kwok_name(j).last());
        assert(false);
    }
}

/// The capacities and hourly cost at each position of the development
/// catalogue: (cpu, memory MiB, ephemeral storage GiB, gpu count,
/// micro-USD per hour).
pub open spec fn kwok_shape(i: int) -> (int, int, int, int, int) {
    if i == 0 {
        (2, 4096, 40, 0, 6600)
    } else if i == 1 {
        (4, 8192, 80, 0, 10600)
    } else if i == 2 {
        (8, 16384, 160, 0, 17000)
    } else if i == 3 {
        (16, 32768, 320, 0, 31400)
    } else if i == 4 {
        (2, 2048, 40, 0, 12200)
    } else if i == 5 {
        (3, 4096, 80, 0, 22600)
    } else if i == 6 {
        (4, 8192, 160, 0, 29900)
    } else if i == 7 {
        (8, 16384, 256, 0, 36200)
    } else if i == 8 {
        (16, 32768, 360, 0, 51500)
    } else if i == 9 {
        (2, 4096, 40, 0, 7400)
    } else if i == 10 {
        (4, 8192, 80, 0, 12200)
    } else if i == 11 {
        (8, 16384, 160, 0, 22600)
    } else if i == 12 {
        (16, 32768, 320, 0, 44300)
    } else if i == 13 {
        (2, 8192, 80, 0, 38600)
    } else if i == 14 {
        (4, 16384, 160, 0, 47500)
    } else if i == 15 {
        (8, 32768, 240, 0, 90000)
    } else if i == 16 {
        (16, 65536, 360, 0, 178900)
    } else if i == 17 {
        (32, 131072, 600, 0, 356800)
    } else if i == 18 {
        (48, 196608, 960, 0, 534700)
    } else if i == 19 {
        (12, 131072, 200, 1, 2210000)
    } else {
        (48, 524288, 800, 4, 8840000)
    }
}

/// An offering holds exactly the catalogue data of position `i`: the
/// instance type named `kwok_name(i)`, the capacities and cost of
/// `kwok_shape(i)`, and an A100 GPU model exactly on the GPU entries.
pub open spec fn kwok_entry_matches(o: Offering, i: int) -> bool {
    &&& o.instance_type.0@ == kwok_name(i)
    &&& o.resources.cpu as int == kwok_shape(i).0
    &&& o.resources.memory_mib as int == kwok_shape(i).1
    &&& o.resources.ephemeral_storage_gib matches Some(d) && d as int == kwok_shape(i).2
    &&& o.resources.gpu as int == kwok_shape(i).3
    &&& o.resources.gpu_model == (if kwok_shape(i).3 > 0 {
        Some(GpuModel::NvidiaA100)
    } else {
        Option::<GpuModel>::None
    })
    &&& o.cost_per_hour_micros as int == kwok_shape(i).4
}

/// The development catalogue: 21 offerings over shared x86, shared AMD,
/// ARM and dedicated x86 lines, plus two GPU offerings. Every entry's
/// data is fixed by `kwok_name` and `kwok_shape`, so the same catalogue
/// comes back on every call, and by `lemma_kwok_names_distinct` every
/// offering carries a distinct instance type.
#[verifier::rlimit(100)]
pub fn kwok_offerings() -> (r: Vec<Offering>)
    ensures
        r@.len() == 21,
        forall|i: int| 0 <= i < r@.len() ==> kwok_entry_matches(#[trigger] r@[i], i),
{
    let mut r: Vec<Offering> = Vec::new();
    // CX: shared x86.
    r.push(offering("cx22", 2, 4096, 40, 6600));
    r.push(offering("cx32", 4, 8192, 80, 10600));
    r.push(offering("cx42", 8, 16384, 160, 17000));
    r.push(offering("cx52", 16, 32768, 320, 31400));
    // CPX: shared AMD.
    r.push(offering("cpx12", 2, 2048, 40, 12200));
    r.push(offering("cpx22", 3, 4096, 80, 22600));
    r.push(offering("cpx32", 4, 8192, 160, 29900));
    r.push(offering("cpx42", 8, 16384, 256, 36200));
    r.push(offering("cpx52", 16, 32768, 360, 51500));
    // CAX: ARM (Ampere).
    r.push(offering("cax11", 2, 4096, 40, 7400));
    r.push(offering("cax21", 4, 8192, 80, 12200));
    r.push(offering("cax31", 8, 16384, 160, 22600));
    r.push(offering("cax41", 16, 32768, 320, 44300));
    // CCX: dedicated x86.
    r.push(offering("ccx13", 2, 8192, 80, 38600));
    r.push(offering("ccx23", 4, 16384, 160, 47500));
    r.push(offering("ccx33", 8, 32768, 240, 90000));
    r.push(offering("ccx43", 16, 65536, 360, 178900));
    r.push(offering("ccx53", 32, 131072, 600, 356800));
    r.push(offering("ccx63", 48, 196608, 960, 534700));
    // GPU (fictional, for exercising GPU scheduling).
    r.push(gpu_offering("gpu-a100-1", 12, 131072, 200, 1, GpuModel::NvidiaA100, 2210000));
    r.push(gpu_offering("gpu-a100-4", 48, 524288, 800, 4, GpuModel::NvidiaA100, 8840000));
    r
}

/// The capacity entries a node of the given size advertises: cpu count,
/// memory with an `Mi` suffix, then ephemeral storage with a `Gi` suffix
/// when applicable, then the GPU count when there is one.
pub fn capacity_entries(res: &Resources) -> (r: Vec<(String, String)>)
    ensures
        r@.len() == 2 + (if res.ephemeral_storage_gib is Some {
            1int
        } else {
            0int
        }) + (if res.gpu > 0 {
            1int
        } else {
            0int
        }),
        r@[0].0@ == "cpu"@ && r@[0].1@ == spec_decimal(res.cpu as nat),
        r@[1].0@ == "memory"@ && r@[1].1@ == spec_decimal(res.memory_mib as nat) + "Mi"@,
        res.ephemeral_storage_gib matches Some(g) ==> r@[2].0@ == "ephemeral-storage"@ && r@[2].1@
            == spec_decimal(g as nat) + "Gi"@,
        res.gpu > 0 ==> ({
            let gi = if res.ephemeral_storage_gib is Some {
                3int
            } else {
                2int
            };
            r@[gi].0@ == "nvidia.com/gpu"@ && r@[gi].1@ == spec_decimal(res.gpu as nat)
        }),
{
    let mut r: Vec<(String, String)> = Vec::new();
    r.push(("cpu".to_owned(), u64_to_decimal(res.cpu as u64)));
    let mut mem = u64_to_decimal(res.memory_mib as u64);
    mem.append("Mi");
    r.push(("memory".to_owned(), mem));
    if let Some(gib) = res.ephemeral_storage_gib {
        let mut s = u64_to_decimal(gib as u64);
        s.append("Gi");
        r.push(("ephemeral-storage".to_owned(), s));
    }
    if res.gpu > 0 {
        r.push(("nvidia.com/gpu".to_owned(), u64_to_decimal(res.gpu as u64)));
    }
    r
}

} // verus!
