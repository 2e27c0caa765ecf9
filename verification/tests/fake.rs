use growthrs::fake::CreateBehavior;
use growthrs::fake::DeleteBehavior;
use growthrs::fake::FakeProvider;
use growthrs::offering::InstanceType;
use growthrs::offering::Offering;
use growthrs::offering::Resources;
use growthrs::provider::InstanceConfig;
use growthrs::provider::NodeId;
use growthrs::provider::ProviderError;

fn test_offering() -> Offering {
    Offering {
        instance_type: InstanceType("test-instance".into()),
        resources: Resources {
            cpu: 2,
            memory_mib: 4096,
            ephemeral_storage_gib: None,
            gpu: 0,
            gpu_model: None,
        },
        cost_per_hour_micros: 10000,
    }
}

#[test]
fn default_create_succeeds() {
    let mut provider = FakeProvider::new().with_offerings(vec![test_offering()]);
    let result = provider.create(&test_offering(), &InstanceConfig {});
    assert!(result.is_ok());
    assert_eq!(result.unwrap().0, "fake-node-1");
}

#[test]
fn queued_behaviors_are_consumed_in_order() {
    let mut provider = FakeProvider::new()
        .on_next_create(CreateBehavior::OfferingUnavailable)
        .on_next_create(CreateBehavior::Succeed);

    let first = provider.create(&test_offering(), &InstanceConfig {});
    assert!(first.is_err());

    let second = provider.create(&test_offering(), &InstanceConfig {});
    assert!(second.is_ok());
}

#[test]
fn falls_back_to_default_when_queue_empty() {
    let mut provider = FakeProvider::new()
        .with_default_create(CreateBehavior::JoinTimeout)
        .on_next_create(CreateBehavior::Succeed);

    let first = provider.create(&test_offering(), &InstanceConfig {});
    assert!(first.is_ok());

    let second = provider.create(&test_offering(), &InstanceConfig {});
    assert!(matches!(second, Err(ProviderError::JoinTimeout { .. })));
}

#[test]
fn create_calls_are_logged() {
    let mut provider = FakeProvider::new();
    let offering = test_offering();
    provider.create(&offering, &InstanceConfig {}).unwrap();
    provider.create(&offering, &InstanceConfig {}).unwrap();

    let calls = provider.create_calls();
    assert_eq!(calls.len(), 2);
    assert_eq!(calls[0].offering, offering);
    assert!(calls[1].result_node_id.is_some());
}

#[test]
fn each_create_returns_distinct_node_id() {
    let mut provider = FakeProvider::new();
    let offering = test_offering();
    let id1 = provider.create(&offering, &InstanceConfig {}).unwrap();
    let id2 = provider.create(&offering, &InstanceConfig {}).unwrap();
    let id3 = provider.create(&offering, &InstanceConfig {}).unwrap();
    assert_ne!(id1, id2);
    assert_ne!(id2, id3);
    assert_ne!(id1, id3);
}

#[test]
fn delete_default_succeeds() {
    let mut provider = FakeProvider::new();
    let result = provider.delete(&NodeId("fake-node-1".into()));
    assert!(result.is_ok());
    assert_eq!(provider.delete_calls().len(), 1);
}

#[test]
fn delete_fail_behavior() {
    let mut provider = FakeProvider::new().on_next_delete(DeleteBehavior::Fail("boom".into()));
    let result = provider.delete(&NodeId("fake-node-1".into()));
    assert!(result.is_err());
}

#[test]
fn offerings_sequence_advances() {
    let mut provider = FakeProvider::new().with_offerings_sequence(vec![
        vec![test_offering()],
        vec![], // second call returns empty
    ]);

    let first = provider.offerings();
    assert_eq!(first.len(), 1);

    let second = provider.offerings();
    assert_eq!(second.len(), 0);

    // Sticks on last.
    let third = provider.offerings();
    assert_eq!(third.len(), 0);
}

#[test]
fn error_variants_come_from_their_behaviors() {
    let mut provider = FakeProvider::new()
        .on_next_create(CreateBehavior::CreationFailed("quota".into()))
        .on_next_create(CreateBehavior::InternalError("boom".into()))
        .on_next_create(CreateBehavior::OfferingUnavailable);
    let offering = test_offering();
    let first = provider.create(&offering, &InstanceConfig {});
    assert!(matches!(first, Err(ProviderError::CreationFailed { message }) if message == "quota"));
    let second = provider.create(&offering, &InstanceConfig {});
    assert!(matches!(second, Err(ProviderError::Internal(m)) if m == "boom"));
    let third = provider.create(&offering, &InstanceConfig {});
    assert!(
        matches!(third, Err(ProviderError::OfferingUnavailable(m)) if m == "test-instance not available")
    );
    // None of the failures consumed a node id: the next success is 1.
    let fourth = provider.create(&offering, &InstanceConfig {});
    assert_eq!(fourth.unwrap().0, "fake-node-1");
}

#[test]
fn provider_errors_display_their_cause() {
    let e = ProviderError::CreationFailed {
        message: "quota exceeded".into(),
    };
    assert_eq!(e.to_string(), "creation failed: quota exceeded");
    let e = ProviderError::OfferingUnavailable("cx22".into());
    assert_eq!(e.to_string(), "offering unavailable: cx22");
    let e = ProviderError::JoinTimeout {
        node_id: Some(NodeId("fake-node-1".into())),
    };
    assert_eq!(
        e.to_string(),
        "node failed to join cluster within timeout: fake-node-1"
    );
}
