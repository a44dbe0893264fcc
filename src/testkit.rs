//! Configuration of a test network and of the services that it starts with.
use vstd::prelude::*;

use crate::runtime::{InstanceSpec, ServiceFactory};

verus! {

/// The position of a validator in the validator set.
#[derive(Clone, Copy, Debug, PartialEq, Eq, Structural)]
pub struct ValidatorId(pub u16);

/// The public keys of one validator.
#[derive(Clone, Debug)]
pub struct Keys {
    pub consensus_key: Vec<u8>,
    pub service_key: Vec<u8>,
}

/// The validator set of a test network, and the role of the node under test.
pub struct TestNetwork {
    /// The node's own place among the validators; `None` for an auditor.
    pub our_validator_id: Option<ValidatorId>,
    /// How many validators the network has.
    pub validator_count: usize,
    /// Their keys, when given; otherwise they are generated at start.
    pub validator_keys: Vec<Keys>,
}

impl TestNetwork {
    /// A network of `validator_count` validators whose keys are generated at start.
    pub fn with_our_role(our_validator_id: Option<ValidatorId>, validator_count: u16) -> (r:
        TestNetwork)
        ensures
            r.our_validator_id == our_validator_id,
            r.validator_count == validator_count,
            r.validator_keys@.len() == 0,
    {
        TestNetwork {
            our_validator_id,
            validator_count: validator_count as usize,
            validator_keys: Vec::new(),
        }
    }

    /// A network of the validators with the given keys.
    pub fn with_our_role_from_keys(our_validator_id: Option<ValidatorId>, keys: Vec<Keys>) -> (r:
        TestNetwork)
        ensures
            r.our_validator_id == our_validator_id,
            r.validator_count == keys@.len(),
            r.validator_keys == keys,
    {
        let n = keys.len();
        TestNetwork { our_validator_id, validator_count: n, validator_keys: keys }
    }
}

/// A service to start with the network: the factory that provides it, and
/// each instance with its configuration bytes.
pub struct InstanceCollection {
    pub factory: ServiceFactory,
    pub instances: Vec<(InstanceSpec, Vec<u8>)>,
}

/// Collects the settings of a test network before it is created.
pub struct TestKitBuilder {
    our_validator_id: Option<ValidatorId>,
    test_network: Option<TestNetwork>,
    service_instances: Vec<InstanceCollection>,
    logger: bool,
}

impl TestKitBuilder {
    /// The role of the node under test.
    pub closed spec fn our_role(&self) -> Option<ValidatorId> {
        self.our_validator_id
    }

    /// The network, once its validators are set.
    pub closed spec fn network(&self) -> Option<TestNetwork> {
        self.test_network
    }

    /// The services added so far, in order.
    pub closed spec fn services(&self) -> Seq<InstanceCollection> {
        self.service_instances@
    }

    /// Whether logging is on.
    pub closed spec fn logging(&self) -> bool {
        self.logger
    }

    /// A builder for a network whose node under test is the first validator.
    pub fn validator() -> (r: Self)
        ensures
            r.our_role() == Some(ValidatorId(0)),
            r.network() is None,
            r.services().len() == 0,
            !r.logging(),
    {
        TestKitBuilder {
            test_network: None,
            our_validator_id: Some(ValidatorId(0)),
            service_instances: Vec::new(),
            logger: false,
        }
    }

    /// A builder for a network whose node under test is an auditor.
    pub fn auditor() -> (r: Self)
        ensures
            r.our_role() is None,
            r.network() is None,
            r.services().len() == 0,
            !r.logging(),
    {
        TestKitBuilder {
            test_network: None,
            our_validator_id: None,
            service_instances: Vec::new(),
            logger: false,
        }
    }

    /// Sets the validators from their keys; they may be set only once.
    pub fn with_keys(self, keys: Vec<Keys>) -> (r: Self)
        requires
            self.network() is None,
        ensures
            r.network() == Some(
                TestNetwork {
                    our_validator_id: self.our_role(),
                    validator_count: keys@.len() as usize,
                    validator_keys: keys,
                },
            ),
            r.our_role() == self.our_role(),
            r.services() == self.services(),
            r.logging() == self.logging(),
    {
        let mut b = self;
        b.test_network = Some(TestNetwork::with_our_role_from_keys(b.our_validator_id, keys));
        b
    }

    /// Sets the number of validators; they may be set only once.
    pub fn with_validators(self, validator_count: u16) -> (r: Self)
        requires
            self.network() is None,
        ensures
            r.network() is Some,
            r.network().unwrap().our_validator_id == self.our_role(),
            r.network().unwrap().validator_count == validator_count,
            r.network().unwrap().validator_keys@.len() == 0,
            r.our_role() == self.our_role(),
            r.services() == self.services(),
            r.logging() == self.logging(),
    {
        let mut b = self;
        b.test_network = Some(TestNetwork::with_our_role(b.our_validator_id, validator_count));
        b
    }

    /// Adds a service to start with the network.
    pub fn with_service(self, service: InstanceCollection) -> (r: Self)
        ensures
            r.services() == self.services().push(service),
            r.our_role() == self.our_role(),
            r.network() == self.network(),
            r.logging() == self.logging(),
    {
        let mut b = self;
        b.service_instances.push(service);
        b
    }

    /// Turns logging on.
    pub fn with_logger(self) -> (r: Self)
        ensures
            r.logging(),
            r.our_role() == self.our_role(),
            r.network() == self.network(),
            r.services() == self.services(),
    {
        let mut b = self;
        b.logger = true;
        b
    }
}

} // verus!
