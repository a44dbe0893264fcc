//! Identifiers, callers and errors of the runtime layer, and the execution
//! backends that the dispatcher drives.
use vstd::prelude::*;

use crate::test_service::TestServiceImpl;

verus! {

/// The numeric identifier of a service instance.
pub type InstanceId = u32;

/// An artifact-defined method number, meaningful only for that artifact.
pub type MethodId = u32;

/// The identifier of the native runtime.
pub const RUST_RUNTIME_ID: u32 = 0;

/// The most calls that may be in flight in one call chain.
pub const MAX_CALL_DEPTH: u32 = 64;

/// The routing key of a call.
#[derive(Clone, Copy, Debug, PartialEq, Eq, Structural)]
pub struct CallInfo {
    pub instance_id: InstanceId,
    pub method_id: MethodId,
}

/// Who initiated the current call.
#[derive(Clone, Debug)]
pub enum Caller {
    /// The blockchain itself: a top-level system call.
    Blockchain,
    /// A transaction signed by an external actor (an already verified key).
    Transaction { author: Vec<u8> },
    /// Another service instance, calling within the same chain.
    Service { instance_id: InstanceId },
}

/// A method-level failure, propagated unchanged through a call chain.
#[derive(Clone, Copy, Debug, PartialEq, Eq, Structural)]
pub enum ExecutionError {
    /// The call names an instance id with no registered instance.
    UnknownInstance,
    /// The target's artifact defines no method with this number.
    NoSuchMethod,
    /// The payload does not decode as the method's argument.
    PayloadDecode,
    /// Raised by the service's own logic, with its code.
    Service { code: u8 },
    /// The chain nests more calls than the dispatcher allows.
    CallDepthExceeded,
}

/// Why an artifact was not deployed.
#[derive(Clone, Copy, Debug, PartialEq, Eq, Structural)]
pub enum DeployError {
    /// No runtime with the artifact's runtime id.
    UnknownRuntime,
    /// The runtime does not know the artifact.
    UnknownArtifact,
    /// The artifact is already deployed.
    AlreadyDeployed,
}

/// Why a service instance was not started.
#[derive(Clone, Copy, Debug, PartialEq, Eq, Structural)]
pub enum StartError {
    /// An instance with this id is already running.
    InstanceIdTaken,
    /// An instance with this name is already running.
    InstanceNameTaken,
    /// The instance's artifact is not deployed.
    ArtifactNotDeployed,
    /// The service's configuration hook failed.
    Configuration(ExecutionError),
}

/// Names a deployable unit of service logic within a runtime.
#[derive(Clone, Debug)]
pub struct ArtifactId {
    pub runtime_id: u32,
    pub name: String,
}

impl View for ArtifactId {
    type V = (u32, Seq<char>);

    open spec fn view(&self) -> (u32, Seq<char>) {
        (self.runtime_id, self.name@)
    }
}

impl ArtifactId {
    /// Whether both identifiers name the same artifact.
    pub fn same_as(&self, other: &ArtifactId) -> (r: bool)
        ensures
            r == (self@ == other@),
    {
        self.runtime_id == other.runtime_id && self.name == other.name
    }

    /// A copy of the identifier.
    pub fn duplicate(&self) -> (r: ArtifactId)
        ensures
            r@ == self@,
    {
        ArtifactId { runtime_id: self.runtime_id, name: self.name.clone() }
    }
}

/// A running instantiation of an artifact.
#[derive(Clone, Debug)]
pub struct InstanceSpec {
    pub artifact: ArtifactId,
    pub id: InstanceId,
    pub name: String,
}

/// The services that the native runtime hosts, linked into the node.
#[derive(Clone, Copy, Debug, PartialEq, Eq, Structural)]
pub enum ServiceFactory {
    Test(TestServiceImpl),
}

impl ServiceFactory {
    /// The artifact name under which the factory is deployed.
    pub open spec fn artifact_name(self) -> Seq<char> {
        match self {
            ServiceFactory::Test(_) => TestServiceImpl::spec_artifact_name(),
        }
    }

    /// The artifact that the factory provides.
    pub fn artifact_id(&self) -> (r: ArtifactId)
        ensures
            r@ == (RUST_RUNTIME_ID, self.artifact_name()),
    {
        match self {
            ServiceFactory::Test(s) => ArtifactId {
                runtime_id: RUST_RUNTIME_ID,
                name: s.artifact_name(),
            },
        }
    }
}

/// The native runtime: services compiled into the node, one factory each.
pub struct RustRuntime {
    factories: Vec<ServiceFactory>,
}

impl RustRuntime {
    /// The factories registered so far, in order.
    pub closed spec fn factories(&self) -> Seq<ServiceFactory> {
        self.factories@
    }

    pub fn new() -> (r: RustRuntime)
        ensures
            r.factories() == Seq::<ServiceFactory>::empty(),
    {
        RustRuntime { factories: Vec::new() }
    }

    /// Makes the factory's artifact deployable.
    pub fn add_service_factory(&mut self, factory: ServiceFactory)
        ensures
            final(self).factories() == old(self).factories().push(factory),
    {
        self.factories.push(factory);
    }

    /// The first registered factory whose artifact carries `name`.
    pub closed spec fn factory_for(&self, name: Seq<char>) -> Option<ServiceFactory> {
        first_factory(self.factories@, name)
    }

    /// Looks up the factory that provides the named artifact.
    pub fn find_factory(&self, name: &String) -> (r: Option<ServiceFactory>)
        ensures
            r == self.factory_for(name@),
    {
        let mut i: usize = 0;
        assert(self.factories@.subrange(0, self.factories@.len() as int) =~= self.factories@);
        while i < self.factories.len()
            invariant
                0 <= i <= self.factories@.len(),
                first_factory(self.factories@, name@) == first_factory(
                    self.factories@.subrange(i as int, self.factories@.len() as int),
                    name@,
                ),
            decreases self.factories@.len() - i,
        {
            let f = self.factories[i];
            let fname = f.artifact_id().name;
            let ghost rest = self.factories@.subrange(i as int, self.factories@.len() as int);
            assert(rest.drop_first() =~= self.factories@.subrange(
                i + 1,
                self.factories@.len() as int,
            ));
            if fname == *name {
                return Some(f);
            }
            i = i + 1;
        }
        None
    }
}

/// The first factory of `s` whose artifact carries `name`.
pub open spec fn first_factory(s: Seq<ServiceFactory>, name: Seq<char>) -> Option<
    ServiceFactory,
>
    decreases s.len(),
{
    if s.len() == 0 {
        None
    } else if s[0].artifact_name() == name {
        Some(s[0])
    } else {
        first_factory(s.drop_first(), name)
    }
}

/// An execution backend. The dispatcher only uses the capabilities below.
pub enum Runtime {
    Rust(RustRuntime),
}

impl Runtime {
    pub open spec fn spec_id(&self) -> u32 {
        match self {
            Runtime::Rust(_) => RUST_RUNTIME_ID,
        }
    }

    /// What deploying the artifact gives: the service it provides, if the
    /// runtime knows it.
    pub open spec fn deploy_outcome(&self, artifact: (u32, Seq<char>)) -> Option<ServiceFactory> {
        match self {
            Runtime::Rust(r) => r.factory_for(artifact.1),
        }
    }

    /// The runtime's identifier.
    pub fn id(&self) -> (r: u32)
        ensures
            r == self.spec_id(),
    {
        match self {
            Runtime::Rust(_) => RUST_RUNTIME_ID,
        }
    }

    /// Loads an artifact from its backend-specific deployment data (the
    /// native runtime needs none); on success, the service it provides.
    pub fn deploy_artifact(&self, artifact: &ArtifactId, _spec: &[u8]) -> (r: Result<
        ServiceFactory,
        DeployError,
    >)
        ensures
            r is Ok <==> self.deploy_outcome(artifact@) is Some,
            r is Ok ==> r == Ok::<ServiceFactory, DeployError>(
                self.deploy_outcome(artifact@).unwrap(),
            ),
            r is Err ==> r == Err::<ServiceFactory, DeployError>(DeployError::UnknownArtifact),
    {
        match self {
            Runtime::Rust(r) => match r.find_factory(&artifact.name) {
                Some(f) => Ok(f),
                None => Err(DeployError::UnknownArtifact),
            },
        }
    }
}

impl From<RustRuntime> for Runtime {
    fn from(r: RustRuntime) -> (out: Runtime) {
        Runtime::Rust(r)
    }
}

impl vstd::std_specs::convert::FromSpecImpl<RustRuntime> for Runtime {
    open spec fn obeys_from_spec() -> bool {
        true
    }

    open spec fn from_spec(r: RustRuntime) -> Runtime {
        Runtime::Rust(r)
    }
}

} // verus!
