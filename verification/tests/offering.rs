use growthrs::offering::ContainerRequests;
use growthrs::offering::InstanceType;
use growthrs::offering::Offering;
use growthrs::offering::ParseCause;
use growthrs::offering::PodInfo;
use growthrs::offering::Resources;
use growthrs::offering::parse_cpu;
use growthrs::offering::parse_memory_mib;
use growthrs::offering::parse_storage_gib;
use growthrs::offering::PodId;

fn make_container(cpu: &str, memory: &str) -> ContainerRequests {
    ContainerRequests {
        cpu: Some(cpu.to_string()),
        memory: Some(memory.to_string()),
        gpu: None,
        ephemeral_storage: None,
    }
}

fn make_pod(containers: Vec<ContainerRequests>) -> PodInfo {
    PodInfo {
        namespace: String::new(),
        name: String::new(),
        conditions: vec![],
        owner_kinds: vec![],
        containers,
    }
}

#[test]
fn parse_cpu_whole_cores() {
    assert_eq!(parse_cpu("4").unwrap(), 4);
    assert_eq!(parse_cpu("1").unwrap(), 1);
    assert_eq!(parse_cpu("0").unwrap(), 0);
}

#[test]
fn parse_cpu_millicores() {
    assert_eq!(parse_cpu("1000m").unwrap(), 1);
    assert_eq!(parse_cpu("500m").unwrap(), 1); // rounds up
    assert_eq!(parse_cpu("250m").unwrap(), 1); // rounds up
    assert_eq!(parse_cpu("1500m").unwrap(), 2); // rounds up
    assert_eq!(parse_cpu("2000m").unwrap(), 2);
}

#[test]
fn parse_cpu_invalid_is_err() {
    assert!(parse_cpu("abc").is_err());
    assert!(parse_cpu("").is_err());
    assert!(parse_cpu("xm").is_err());
}

#[test]
fn parse_memory_gi() {
    assert_eq!(parse_memory_mib("8Gi").unwrap(), 8192);
    assert_eq!(parse_memory_mib("1Gi").unwrap(), 1024);
}

#[test]
fn parse_memory_mi() {
    assert_eq!(parse_memory_mib("512Mi").unwrap(), 512);
    assert_eq!(parse_memory_mib("256Mi").unwrap(), 256);
}

#[test]
fn parse_memory_ki() {
    assert_eq!(parse_memory_mib("1024Ki").unwrap(), 1); // exactly 1 MiB
    assert_eq!(parse_memory_mib("1048576Ki").unwrap(), 1024); // 1 GiB in Ki
    assert_eq!(parse_memory_mib("512Ki").unwrap(), 1); // rounds up
}

#[test]
fn parse_memory_bare_bytes() {
    assert_eq!(parse_memory_mib("1073741824").unwrap(), 1024); // 1 GiB in bytes
    assert_eq!(parse_memory_mib("0").unwrap(), 0);
}

#[test]
fn parse_memory_invalid_is_err() {
    assert!(parse_memory_mib("abc").is_err());
    assert!(parse_memory_mib("").is_err());
    assert!(parse_memory_mib("xGi").is_err());
}

#[test]
fn parse_units_agree() {
    // Millicores agree with whole cores, and Gi with Mi.
    assert_eq!(parse_cpu("1000m").unwrap(), parse_cpu("1").unwrap());
    assert_eq!(parse_memory_mib("1Gi").unwrap(), parse_memory_mib("1024Mi").unwrap());
}

#[test]
fn parse_storage_units() {
    assert_eq!(parse_storage_gib("40Gi").unwrap(), 40);
    assert_eq!(parse_storage_gib("1024Mi").unwrap(), 1);
    assert_eq!(parse_storage_gib("1Mi").unwrap(), 1); // rounds up
    assert!(parse_storage_gib("lots").is_err());
}

#[test]
fn parse_error_reports_raw_and_cause() {
    let e = parse_cpu("abc").unwrap_err();
    assert_eq!(e.raw, "abc");
    assert_eq!(e.cause, ParseCause::Invalid);
    let e = parse_cpu("4294967296").unwrap_err();
    assert_eq!(e.raw, "4294967296");
    assert_eq!(e.cause, ParseCause::OutOfRange);
    let e = parse_memory_mib("4194304Gi").unwrap_err();
    assert_eq!(e.raw, "4194304Gi");
    assert_eq!(e.cause, ParseCause::OutOfRange);
    // 4 PiB in bare bytes: the MiB count does not fit the field.
    let e = parse_memory_mib("4503599627370496").unwrap_err();
    assert_eq!(e.cause, ParseCause::OutOfRange);
    // 4 EiB in bare bytes: the GiB count does not fit the field.
    let e = parse_storage_gib("4611686018427387904").unwrap_err();
    assert_eq!(e.cause, ParseCause::OutOfRange);
}

#[test]
fn from_pod_single_container() {
    let pod = make_pod(vec![make_container("2", "4Gi")]);
    let r = Resources::from_pod(&pod).unwrap();
    assert_eq!(r.cpu, 2);
    assert_eq!(r.memory_mib, 4096);
    assert_eq!(r.gpu, 0);
    assert_eq!(r.ephemeral_storage_gib, None);
    assert_eq!(r.gpu_model, None);
}

#[test]
fn from_pod_multi_container_sums() {
    let pod = make_pod(vec![make_container("2", "1Gi"), make_container("1", "512Mi")]);
    let r = Resources::from_pod(&pod).unwrap();
    assert_eq!(r.cpu, 3);
    assert_eq!(r.memory_mib, 1024 + 512);
}

#[test]
fn from_pod_no_spec_returns_zero() {
    let pod = make_pod(vec![]);
    let r = Resources::from_pod(&pod).unwrap();
    assert_eq!(r.cpu, 0);
    assert_eq!(r.memory_mib, 0);
}

#[test]
fn from_pod_no_resources_returns_zero() {
    let pod = make_pod(vec![ContainerRequests {
        cpu: None,
        memory: None,
        gpu: None,
        ephemeral_storage: None,
    }]);
    let r = Resources::from_pod(&pod).unwrap();
    assert_eq!(r.cpu, 0);
    assert_eq!(r.memory_mib, 0);
}

#[test]
fn from_pod_with_gpu() {
    let container = ContainerRequests {
        cpu: Some("4".to_string()),
        memory: Some("8Gi".to_string()),
        gpu: Some("2".to_string()),
        ephemeral_storage: None,
    };
    let pod = make_pod(vec![container]);
    let r = Resources::from_pod(&pod).unwrap();
    assert_eq!(r.cpu, 4);
    assert_eq!(r.memory_mib, 8192);
    assert_eq!(r.gpu, 2);
}

#[test]
fn from_pod_invalid_cpu_is_err() {
    let pod = make_pod(vec![make_container("garbage", "4Gi")]);
    assert!(Resources::from_pod(&pod).is_err());
}

#[test]
fn from_pod_invalid_memory_is_err() {
    let pod = make_pod(vec![make_container("2", "notmemory")]);
    assert!(Resources::from_pod(&pod).is_err());
}

fn plain_resources(cpu: u32, memory_mib: u32) -> Resources {
    Resources {
        cpu,
        memory_mib,
        ephemeral_storage_gib: None,
        gpu: 0,
        gpu_model: None,
    }
}

#[test]
fn satisfies_exact_match() {
    let offering = Offering {
        instance_type: InstanceType("cx21".to_string()),
        resources: plain_resources(2, 4096),
        cost_per_hour_micros: 6600,
    };
    let demand = plain_resources(2, 4096);
    assert!(offering.satisfies(&demand));
}

#[test]
fn satisfies_offering_larger_than_demand() {
    let offering = Offering {
        instance_type: InstanceType("cx31".to_string()),
        resources: plain_resources(4, 8192),
        cost_per_hour_micros: 10600,
    };
    let demand = plain_resources(2, 4096);
    assert!(offering.satisfies(&demand));
}

#[test]
fn satisfies_rejects_insufficient_cpu() {
    let offering = Offering {
        instance_type: InstanceType("cx11".to_string()),
        resources: plain_resources(1, 2048),
        cost_per_hour_micros: 4400,
    };
    let demand = plain_resources(2, 1024);
    assert!(!offering.satisfies(&demand));
}

#[test]
fn satisfies_roundtrip_from_pod() {
    let pod = make_pod(vec![make_container("2", "4Gi")]);
    let demand = Resources::from_pod(&pod).unwrap();

    let good_offering = Offering {
        instance_type: InstanceType("cx31".to_string()),
        resources: plain_resources(4, 8192),
        cost_per_hour_micros: 10600,
    };
    let small_offering = Offering {
        instance_type: InstanceType("cx11".to_string()),
        resources: plain_resources(1, 2048),
        cost_per_hour_micros: 4400,
    };

    assert!(good_offering.satisfies(&demand));
    assert!(!small_offering.satisfies(&demand));
}

#[test]
fn pod_id_displays_as_namespace_slash_name() {
    let id = PodId::new("default".to_string(), "pod-a".to_string());
    assert_eq!(id.to_string(), "default/pod-a");
}
