use exonum::runtime::{InstanceSpec, ServiceFactory};
use exonum::test_service::TestServiceImpl;
use exonum::testkit::{InstanceCollection, Keys, TestKitBuilder, TestNetwork, ValidatorId};

#[test]
fn builder_roles_and_settings() {
    let _v = TestKitBuilder::validator().with_validators(4).with_logger();
    let keys = vec![
        Keys { consensus_key: vec![1], service_key: vec![2] },
        Keys { consensus_key: vec![3], service_key: vec![4] },
    ];
    let _a = TestKitBuilder::auditor().with_keys(keys);
    let factory = ServiceFactory::Test(TestServiceImpl);
    let collection = InstanceCollection {
        factory,
        instances: vec![(
            InstanceSpec { artifact: factory.artifact_id(), id: 2, name: "svc".to_owned() },
            b"hello".to_vec(),
        )],
    };
    let _s = TestKitBuilder::validator().with_service(collection);
}

#[test]
fn network_from_role() {
    let n = TestNetwork::with_our_role(Some(ValidatorId(0)), 7);
    assert_eq!(n.validator_count, 7);
    assert_eq!(n.our_validator_id, Some(ValidatorId(0)));
    assert!(n.validator_keys.is_empty());
    let k = TestNetwork::with_our_role_from_keys(None, vec![Keys { consensus_key: vec![], service_key: vec![] }]);
    assert_eq!(k.validator_count, 1);
    assert_eq!(k.our_validator_id, None);
}
