use exonum::dispatcher::{Dispatcher, ExecutionContext};
use exonum::runtime::{
    ArtifactId, CallInfo, Caller, DeployError, ExecutionError, InstanceSpec, Runtime,
    RustRuntime, ServiceFactory, StartError,
};
use exonum::storage::MemoryDB;
use exonum::test_service::{TestServiceImpl, TxA, TxB};

const SERVICE_INSTANCE_ID: u32 = 2;
const SERVICE_INSTANCE_NAME: &str = "test_service_name";

fn test_factory() -> ServiceFactory {
    ServiceFactory::Test(TestServiceImpl)
}

fn dispatcher_with_test_runtime() -> Dispatcher {
    let mut runtime = RustRuntime::new();
    runtime.add_service_factory(test_factory());
    Dispatcher::with_runtimes(vec![runtime.into()])
}

fn spec(id: u32, name: &str) -> InstanceSpec {
    InstanceSpec { artifact: test_factory().artifact_id(), id, name: name.to_owned() }
}

/// Deploys the test artifact and starts instance 2 with a message; merges.
fn started(db: &mut MemoryDB, msg: &[u8]) -> Dispatcher {
    let mut dispatcher = dispatcher_with_test_runtime();
    dispatcher.deploy_and_register_artifact(&test_factory().artifact_id(), &[]).unwrap();
    let mut fork = db.fork();
    dispatcher.start_service(&mut fork, spec(SERVICE_INSTANCE_ID, SERVICE_INSTANCE_NAME), msg).unwrap();
    db.merge(fork.into_patch()).unwrap();
    dispatcher
}

fn value_at(db: &MemoryDB, key: &[u8]) -> Option<u64> {
    db.get(key).map(|v| u64::from_le_bytes(v.as_slice().try_into().unwrap()))
}

#[test]
fn test_basic_rust_runtime() {
    let mut db = MemoryDB::new();

    let mut runtime = RustRuntime::new();
    let service_factory = ServiceFactory::Test(TestServiceImpl);
    let artifact: ArtifactId = service_factory.artifact_id();
    runtime.add_service_factory(service_factory);

    let mut dispatcher = Dispatcher::with_runtimes(vec![runtime.into()]);

    let fork = db.fork();
    dispatcher.deploy_and_register_artifact(&artifact, &[]).unwrap();
    db.merge(fork.into_patch()).unwrap();

    {
        let spec = InstanceSpec {
            artifact,
            id: SERVICE_INSTANCE_ID,
            name: SERVICE_INSTANCE_NAME.to_owned(),
        };
        let mut fork = db.fork();
        dispatcher.start_service(&mut fork, spec, b"constructor_message").unwrap();
        assert_eq!(fork.get(b"constructor_entry"), Some(b"constructor_message".to_vec()));
        db.merge(fork.into_patch()).unwrap();
    }

    {
        const ARG_A_VALUE: u64 = 11;
        let call_info = CallInfo { instance_id: SERVICE_INSTANCE_ID, method_id: 0 };
        let payload = ARG_A_VALUE.to_le_bytes();
        let mut context = ExecutionContext::new(db.fork(), Caller::Blockchain);
        dispatcher.call(&mut context, call_info, &payload).unwrap();
        assert_eq!(context.fork().get(b"method_a_entry"), Some(ARG_A_VALUE.to_le_bytes().to_vec()));
        assert_eq!(context.fork().get(b"method_b_entry"), Some(ARG_A_VALUE.to_le_bytes().to_vec()));
        db.merge(context.into_fork().into_patch()).unwrap();
    }
    {
        const ARG_B_VALUE: u64 = 22;
        let call_info = CallInfo { instance_id: SERVICE_INSTANCE_ID, method_id: 1 };
        let payload = ARG_B_VALUE.to_le_bytes();
        let mut context = ExecutionContext::new(db.fork(), Caller::Blockchain);
        dispatcher.call(&mut context, call_info, &payload).unwrap();
        assert_eq!(context.fork().get(b"method_b_entry"), Some(ARG_B_VALUE.to_le_bytes().to_vec()));
        db.merge(context.into_fork().into_patch()).unwrap();
    }
    assert_eq!(value_at(&db, b"method_a_entry"), Some(11));
    assert_eq!(value_at(&db, b"method_b_entry"), Some(22));
}

#[test]
fn scenario_configure_then_nested_call_commits_both_keys() {
    let mut db = MemoryDB::new();
    let dispatcher = started(&mut db, b"hello");
    assert_eq!(db.get(b"constructor_entry"), Some(b"hello".to_vec()));
    let calls = vec![(CallInfo { instance_id: 2, method_id: 0 }, 11u64.to_le_bytes().to_vec())];
    assert_eq!(dispatcher.execute(&mut db, Caller::Blockchain, &calls), Ok(()));
    assert_eq!(value_at(&db, b"method_a_entry"), Some(11));
    assert_eq!(value_at(&db, b"method_b_entry"), Some(11));
}

#[test]
fn scenario_nested_call_to_missing_instance_rolls_back() {
    let mut db = MemoryDB::new();
    let dispatcher = started(&mut db, b"hello");
    let calls = vec![(CallInfo { instance_id: 2, method_id: 0 }, 11u64.to_le_bytes().to_vec())];
    dispatcher.execute(&mut db, Caller::Blockchain, &calls).unwrap();

    let mut payload = 99u64.to_le_bytes().to_vec();
    payload.extend_from_slice(&7u32.to_le_bytes());
    let mut context = ExecutionContext::new(db.fork(), Caller::Blockchain);
    let r = dispatcher.call(&mut context, CallInfo { instance_id: 2, method_id: 0 }, &payload);
    assert_eq!(r, Err(ExecutionError::UnknownInstance));
    drop(context);
    assert_eq!(value_at(&db, b"method_a_entry"), Some(11));
    assert_eq!(value_at(&db, b"method_b_entry"), Some(11));
}

#[test]
fn failing_chain_leaves_store_unchanged() {
    let mut db = MemoryDB::new();
    let dispatcher = started(&mut db, b"hello");
    let before = db.snapshot();
    let calls = vec![
        (CallInfo { instance_id: 2, method_id: 1 }, 5u64.to_le_bytes().to_vec()),
        (CallInfo { instance_id: 2, method_id: 0 }, 6u64.to_le_bytes().to_vec()),
        (CallInfo { instance_id: 9, method_id: 0 }, 7u64.to_le_bytes().to_vec()),
    ];
    assert_eq!(dispatcher.execute(&mut db, Caller::Blockchain, &calls), Err(ExecutionError::UnknownInstance));
    let after = db.snapshot();
    assert_eq!(after.get(b"method_a_entry"), None);
    assert_eq!(after.get(b"method_b_entry"), None);
    assert_eq!(after.get(b"constructor_entry"), before.get(b"constructor_entry"));
}

#[test]
fn successful_chain_applies_calls_in_order() {
    let mut db = MemoryDB::new();
    let dispatcher = started(&mut db, b"hello");
    let calls = vec![
        (CallInfo { instance_id: 2, method_id: 0 }, 6u64.to_le_bytes().to_vec()),
        (CallInfo { instance_id: 2, method_id: 1 }, 5u64.to_le_bytes().to_vec()),
    ];
    dispatcher.execute(&mut db, Caller::Transaction { author: vec![1, 2, 3] }, &calls).unwrap();
    assert_eq!(value_at(&db, b"method_a_entry"), Some(6));
    assert_eq!(value_at(&db, b"method_b_entry"), Some(5));
}

#[test]
fn nested_write_is_visible_in_the_same_fork() {
    let mut db = MemoryDB::new();
    let dispatcher = started(&mut db, b"hello");
    let mut context = ExecutionContext::new(db.fork(), Caller::Blockchain);
    dispatcher.call(&mut context, CallInfo { instance_id: 2, method_id: 0 }, &42u64.to_le_bytes()).unwrap();
    assert_eq!(context.fork().get(b"method_b_entry"), Some(42u64.to_le_bytes().to_vec()));
    assert_eq!(db.get(b"method_b_entry"), None);
    assert!(matches!(context.caller(), Caller::Blockchain));
}

#[test]
fn starting_with_taken_id_or_name_fails() {
    let mut db = MemoryDB::new();
    let mut dispatcher = started(&mut db, b"hello");
    let mut fork = db.fork();
    assert_eq!(
        dispatcher.start_service(&mut fork, spec(2, "other_name"), b"x"),
        Err(StartError::InstanceIdTaken)
    );
    assert_eq!(
        dispatcher.start_service(&mut fork, spec(3, SERVICE_INSTANCE_NAME), b"x"),
        Err(StartError::InstanceNameTaken)
    );
    assert_eq!(fork.get(b"constructor_entry"), Some(b"hello".to_vec()));
    let mut context = ExecutionContext::new(db.fork(), Caller::Blockchain);
    assert_eq!(
        dispatcher.call(&mut context, CallInfo { instance_id: 3, method_id: 1 }, &1u64.to_le_bytes()),
        Err(ExecutionError::UnknownInstance)
    );
    dispatcher.start_service(&mut fork, spec(3, "second"), b"y").unwrap();
    assert_eq!(fork.get(b"constructor_entry"), Some(b"y".to_vec()));
}

#[test]
fn starting_undeployed_artifact_fails() {
    let db = MemoryDB::new();
    let mut dispatcher = dispatcher_with_test_runtime();
    let mut fork = db.fork();
    assert_eq!(
        dispatcher.start_service(&mut fork, spec(2, "svc"), b"x"),
        Err(StartError::ArtifactNotDeployed)
    );
    assert_eq!(fork.get(b"constructor_entry"), None);
}

#[test]
fn deploy_errors() {
    let mut dispatcher = dispatcher_with_test_runtime();
    let unknown_runtime = ArtifactId { runtime_id: 5, name: "test_service:0.1.0".to_owned() };
    assert_eq!(dispatcher.deploy_and_register_artifact(&unknown_runtime, &[]), Err(DeployError::UnknownRuntime));
    let unknown = ArtifactId { runtime_id: 0, name: "nothing:1.0.0".to_owned() };
    assert_eq!(dispatcher.deploy_and_register_artifact(&unknown, &[]), Err(DeployError::UnknownArtifact));
    let artifact = test_factory().artifact_id();
    assert_eq!(dispatcher.deploy_and_register_artifact(&artifact, &[]), Ok(()));
    assert_eq!(dispatcher.deploy_and_register_artifact(&artifact, &[]), Err(DeployError::AlreadyDeployed));
}

#[test]
fn bad_payload_and_unknown_method() {
    let mut db = MemoryDB::new();
    let dispatcher = started(&mut db, b"hello");
    let mut context = ExecutionContext::new(db.fork(), Caller::Blockchain);
    assert_eq!(
        dispatcher.call(&mut context, CallInfo { instance_id: 2, method_id: 1 }, &[1, 2, 3]),
        Err(ExecutionError::PayloadDecode)
    );
    assert_eq!(
        dispatcher.call(&mut context, CallInfo { instance_id: 2, method_id: 0 }, &[0; 9]),
        Err(ExecutionError::PayloadDecode)
    );
    assert_eq!(
        dispatcher.call(&mut context, CallInfo { instance_id: 2, method_id: 7 }, &[0; 8]),
        Err(ExecutionError::NoSuchMethod)
    );
    assert_eq!(context.fork().get(b"method_a_entry"), None);
}

#[test]
fn payload_decoding() {
    let mut payload = 300u64.to_le_bytes().to_vec();
    let a = TxA::from_bytes(&payload).unwrap();
    assert_eq!(a.value, 300u64.to_le_bytes().to_vec());
    assert_eq!(a.target, None);
    payload.extend_from_slice(&0x01020304u32.to_le_bytes());
    let a = TxA::from_bytes(&payload).unwrap();
    assert_eq!(a.target, Some(0x01020304));
    assert!(TxA::from_bytes(&[0; 10]).is_none());
    assert!(TxB::from_bytes(&[0; 12]).is_none());
    assert_eq!(TxB::from_bytes(&[9; 8]).unwrap().value, vec![9; 8]);
}

#[test]
fn artifact_identity() {
    let a = test_factory().artifact_id();
    assert_eq!(a.runtime_id, 0);
    assert_eq!(a.name, "test_service:0.1.0");
    assert!(a.same_as(&a.duplicate()));
    let b = ArtifactId { runtime_id: 0, name: "other".to_owned() };
    assert!(!a.same_as(&b));
    let r: Runtime = RustRuntime::new().into();
    assert_eq!(r.id(), 0);
}
