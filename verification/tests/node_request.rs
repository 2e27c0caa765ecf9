use growthrs::kwok::capacity_entries;
use growthrs::kwok::kwok_offerings;
use growthrs::node_request::node_request_name;
use growthrs::node_request::NodeRequestEvent;
use growthrs::node_request::NodeRequestPhase;
use growthrs::node_request::NodeRequestStatus;
use growthrs::offering::Resources;

#[test]
fn status_defaults_to_pending() {
    let status = NodeRequestStatus::default();
    assert_eq!(status.phase, NodeRequestPhase::Pending);
    assert!(status.node_id.is_none());
    assert!(status.events.is_empty());
}

#[test]
fn phase_display() {
    assert_eq!(NodeRequestPhase::Pending.to_string(), "Pending");
    assert_eq!(NodeRequestPhase::Provisioning.to_string(), "Provisioning");
    assert_eq!(NodeRequestPhase::Ready.to_string(), "Ready");
    assert_eq!(NodeRequestPhase::Unmet.to_string(), "Unmet");
    assert_eq!(
        NodeRequestPhase::Deprovisioning.to_string(),
        "Deprovisioning"
    );
}

#[test]
fn status_holds_events_in_order() {
    let status = NodeRequestStatus {
        phase: NodeRequestPhase::Provisioning,
        node_id: Some("node-abc".to_string()),
        events: vec![NodeRequestEvent {
            at: "2026-01-01T21:07:52Z".to_string(),
            name: "nodeRequested".to_string(),
            reason: None,
        }],
    };
    assert_eq!(status.phase, NodeRequestPhase::Provisioning);
    assert_eq!(status.node_id.as_deref(), Some("node-abc"));
    assert_eq!(status.events.len(), 1);
    assert_eq!(status.events[0].name, "nodeRequested");
}

#[test]
fn node_request_name_is_pool_dash_uuid() {
    let name = node_request_name("PoolsAreFake");
    assert_eq!(name.len(), "PoolsAreFake".len() + 37);
    assert!(name.starts_with("PoolsAreFake-"));
    // The identifier part is hyphenated lowercase hex.
    let id = &name["PoolsAreFake".len() + 1..];
    for (i, c) in id.chars().enumerate() {
        if i == 8 || i == 13 || i == 18 || i == 23 {
            assert_eq!(c, '-');
        } else {
            assert!(c.is_ascii_hexdigit() && !c.is_ascii_uppercase());
        }
    }
    // Two generated names differ in their identifier part.
    let other = node_request_name("PoolsAreFake");
    assert_ne!(name, other);
}

#[test]
fn kwok_catalogue_has_21_distinct_offerings() {
    let offerings = kwok_offerings();
    assert_eq!(offerings.len(), 21);
    for i in 0..offerings.len() {
        for j in (i + 1)..offerings.len() {
            assert_ne!(
                offerings[i].instance_type, offerings[j].instance_type,
                "duplicate instance type in catalogue"
            );
        }
    }
    assert_eq!(offerings[0].instance_type.0, "cx22");
    assert_eq!(offerings[0].resources.cpu, 2);
    assert_eq!(offerings[0].resources.memory_mib, 4096);
    assert_eq!(offerings[0].cost_per_hour_micros, 6600);
    assert_eq!(offerings[19].instance_type.0, "gpu-a100-1");
    assert_eq!(offerings[19].resources.gpu, 1);
    assert_eq!(offerings[20].instance_type.0, "gpu-a100-4");
    assert_eq!(offerings[20].resources.gpu, 4);
}

#[test]
fn capacity_entries_render_quantities() {
    let res = Resources {
        cpu: 2,
        memory_mib: 4096,
        ephemeral_storage_gib: Some(40),
        gpu: 0,
        gpu_model: None,
    };
    let entries = capacity_entries(&res);
    assert_eq!(
        entries,
        vec![
            ("cpu".to_string(), "2".to_string()),
            ("memory".to_string(), "4096Mi".to_string()),
            ("ephemeral-storage".to_string(), "40Gi".to_string()),
        ]
    );

    let gpu_res = Resources {
        cpu: 12,
        memory_mib: 131072,
        ephemeral_storage_gib: None,
        gpu: 1,
        gpu_model: None,
    };
    let entries = capacity_entries(&gpu_res);
    assert_eq!(
        entries,
        vec![
            ("cpu".to_string(), "12".to_string()),
            ("memory".to_string(), "131072Mi".to_string()),
            ("nvidia.com/gpu".to_string(), "1".to_string()),
        ]
    );
}
