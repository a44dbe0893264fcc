//! The dispatcher: the artifact and instance registry, call routing, and the
//! execution context that carries one fork through a chain of calls.
use vstd::prelude::*;

use crate::runtime::{
    ArtifactId, CallInfo, Caller, DeployError, ExecutionError, InstanceId, InstanceSpec, MethodId,
    Runtime, ServiceFactory, StartError, MAX_CALL_DEPTH,
};
use crate::storage::{apply_changes, Fork, MemoryDB};
use crate::test_service::{
    method_a_key, method_b_key, test_service_configure, test_service_step, TestServiceImpl,
};

verus! {

/// What a service method does with the fork it is handed.
pub enum MethodStep {
    /// The method returns `result`, leaving the fork as `fork`.
    Finish { result: Result<(), ExecutionError>, fork: Map<Seq<u8>, Seq<u8>> },
    /// The method leaves the fork as `fork`, then calls `call` with `payload`
    /// and returns whatever that call returns.
    Delegate { fork: Map<Seq<u8>, Seq<u8>>, call: CallInfo, payload: Seq<u8> },
}

impl ServiceFactory {
    /// What method `method` of the instance `instance` does on `fork`, when
    /// called by `caller`.
    pub open spec fn method_step(
        self,
        instance: InstanceId,
        caller: Caller,
        method: MethodId,
        fork: Map<Seq<u8>, Seq<u8>>,
        payload: Seq<u8>,
    ) -> MethodStep {
        match self {
            ServiceFactory::Test(_) => test_service_step(instance, method, fork, payload),
        }
    }

    /// What the configuration hook returns, and the fork it leaves.
    pub open spec fn configure_outcome(
        self,
        fork: Map<Seq<u8>, Seq<u8>>,
        args: Seq<u8>,
    ) -> (Result<(), ExecutionError>, Map<Seq<u8>, Seq<u8>>) {
        match self {
            ServiceFactory::Test(_) => test_service_configure(fork, args),
        }
    }

    /// Runs the instance's configuration hook on the fork.
    pub fn configure(&self, fork: &mut Fork, spec: &InstanceSpec, args: &[u8]) -> (r: Result<
        (),
        ExecutionError,
    >)
        ensures
            (r, final(fork)@) == self.configure_outcome(old(fork)@, args@),
            final(fork).base() == old(fork).base(),
    {
        match self {
            ServiceFactory::Test(s) => s.configure(spec, fork, args),
        }
    }

    /// Decodes the payload for the method and runs it on the context's fork.
    pub fn execute(
        &self,
        dispatcher: &Dispatcher,
        context: &mut ExecutionContext,
        instance: InstanceId,
        method: MethodId,
        payload: &[u8],
    ) -> (r: Result<(), ExecutionError>)
        requires
            old(context).depth() <= MAX_CALL_DEPTH,
            old(context).current_instance() == Some(instance),
        ensures
            (r, final(context).fork_state()@) == step_outcome(
                *dispatcher,
                instance,
                self.method_step(
                    instance,
                    old(context).caller_state(),
                    method,
                    old(context).fork_state()@,
                    payload@,
                ),
                old(context).depth() as int,
            ),
            final(context).same_frame(*old(context)),
        decreases MAX_CALL_DEPTH - old(context).depth() + 1, 4nat,
    {
        match self {
            ServiceFactory::Test(s) => s.execute(dispatcher, context, instance, method, payload),
        }
    }
}

/// The outcome of a step of a method of `instance`, taken at call depth
/// `depth`. A call that the method makes comes from the instance itself.
pub open spec fn step_outcome(d: Dispatcher, instance: InstanceId, step: MethodStep, depth: int) -> (
    Result<(), ExecutionError>,
    Map<Seq<u8>, Seq<u8>>,
)
    decreases MAX_CALL_DEPTH - depth + 1, 0nat,
{
    match step {
        MethodStep::Finish { result, fork } => (result, fork),
        MethodStep::Delegate { fork, call, payload } => if depth <= MAX_CALL_DEPTH {
            call_outcome(d, fork, Caller::Service { instance_id: instance }, call, payload, depth)
        } else {
            (Err(ExecutionError::CallDepthExceeded), fork)
        },
    }
}

/// What a call by `caller` returns, and the fork it leaves, when it starts
/// on `fork` with `depth` calls already in flight.
pub open spec fn call_outcome(
    d: Dispatcher,
    fork: Map<Seq<u8>, Seq<u8>>,
    caller: Caller,
    info: CallInfo,
    payload: Seq<u8>,
    depth: int,
) -> (Result<(), ExecutionError>, Map<Seq<u8>, Seq<u8>>)
    decreases MAX_CALL_DEPTH - depth, 1nat,
{
    if depth >= MAX_CALL_DEPTH {
        (Err(ExecutionError::CallDepthExceeded), fork)
    } else {
        match d.service_of(info.instance_id) {
            None => (Err(ExecutionError::UnknownInstance), fork),
            Some(svc) => step_outcome(
                d,
                info.instance_id,
                svc.method_step(info.instance_id, caller, info.method_id, fork, payload),
                depth + 1,
            ),
        }
    }
}

/// The capability handed to a running service: the chain's fork, the
/// caller's identity, and re-entrant calls through the dispatcher.
pub struct ExecutionContext {
    fork: Fork,
    caller: Caller,
    instance: Option<InstanceId>,
    depth: u32,
}

impl ExecutionContext {
    /// The fork that the chain works on.
    pub closed spec fn fork_state(&self) -> Fork {
        self.fork
    }

    /// The identity of who made the current call.
    pub closed spec fn caller_state(&self) -> Caller {
        self.caller
    }

    /// The instance whose method runs now, if any.
    pub closed spec fn current_instance(&self) -> Option<InstanceId> {
        self.instance
    }

    /// How many calls are in flight.
    pub closed spec fn depth(&self) -> nat {
        self.depth as nat
    }

    /// Everything but the fork's contents is as in `other`.
    pub open spec fn same_frame(&self, other: ExecutionContext) -> bool {
        &&& self.fork_state().base() == other.fork_state().base()
        &&& self.caller_state() == other.caller_state()
        &&& self.current_instance() == other.current_instance()
        &&& self.depth() == other.depth()
    }

    /// A context for a top-level call on `fork`.
    pub fn new(fork: Fork, caller: Caller) -> (r: ExecutionContext)
        ensures
            r.fork_state() == fork,
            r.caller_state() == caller,
            r.current_instance() is None,
            r.depth() == 0,
    {
        ExecutionContext { fork, caller, instance: None, depth: 0 }
    }

    /// Who made the current call.
    pub fn caller(&self) -> (r: &Caller)
        ensures
            *r == self.caller_state(),
    {
        &self.caller
    }

    /// Read access to the chain's fork.
    pub fn fork(&self) -> (r: &Fork)
        ensures
            *r == self.fork_state(),
    {
        &self.fork
    }

    /// Write access to the chain's fork.
    pub fn fork_mut(&mut self) -> (r: &mut Fork)
        ensures
            *r == old(self).fork_state(),
            final(self).fork_state() == *final(r),
            final(self).caller_state() == old(self).caller_state(),
            final(self).current_instance() == old(self).current_instance(),
            final(self).depth() == old(self).depth(),
    {
        &mut self.fork
    }

    /// Ends the context, giving its fork back.
    pub fn into_fork(self) -> (r: Fork)
        ensures
            r == self.fork_state(),
    {
        self.fork
    }

    /// Calls another service within the same chain: the callee sees this
    /// fork, and the calling instance as its caller.
    pub fn call(&mut self, dispatcher: &Dispatcher, call_info: CallInfo, payload: &[u8]) -> (r:
        Result<(), ExecutionError>)
        requires
            old(self).depth() <= MAX_CALL_DEPTH,
        ensures
            (r, final(self).fork_state()@) == call_outcome(
                *dispatcher,
                old(self).fork_state()@,
                match old(self).current_instance() {
                    Some(id) => Caller::Service { instance_id: id },
                    None => old(self).caller_state(),
                },
                call_info,
                payload@,
                old(self).depth() as int,
            ),
            final(self).same_frame(*old(self)),
        decreases MAX_CALL_DEPTH - old(self).depth() + 1, 1nat,
    {
        match self.instance {
            None => dispatcher.call(self, call_info, payload),
            Some(id) => {
                let mut caller = Caller::Service { instance_id: id };
                std::mem::swap(&mut caller, &mut self.caller);
                let r = dispatcher.call(self, call_info, payload);
                self.caller = caller;
                r
            },
        }
    }
}


/// An artifact that a runtime has loaded, with the service it provides.
pub struct DeployedArtifact {
    id: ArtifactId,
    service: ServiceFactory,
}

/// A started instance, with the service that runs it.
pub struct StartedInstance {
    spec: InstanceSpec,
    service: ServiceFactory,
}

/// The first runtime of `s` with identifier `id`.
pub open spec fn first_runtime(s: Seq<Runtime>, id: u32) -> Option<Runtime>
    decreases s.len(),
{
    if s.len() == 0 {
        None
    } else if s[0].spec_id() == id {
        Some(s[0])
    } else {
        first_runtime(s.drop_first(), id)
    }
}

/// Owns the runtimes and the registry of artifacts and instances, and routes
/// calls to the runtime that hosts each instance.
pub struct Dispatcher {
    runtimes: Vec<Runtime>,
    artifacts: Vec<DeployedArtifact>,
    instances: Vec<StartedInstance>,
}

impl Dispatcher {
    #[verifier::type_invariant]
    closed spec fn well_formed(&self) -> bool {
        &&& forall|i: int, j: int|
            0 <= i < j < self.instances@.len() ==> #[trigger] self.instances@[i].spec.id
                != #[trigger] self.instances@[j].spec.id
        &&& forall|i: int, j: int|
            0 <= i < j < self.instances@.len() ==> #[trigger] self.instances@[i].spec.name@
                != #[trigger] self.instances@[j].spec.name@
        &&& forall|i: int, j: int|
            0 <= i < j < self.artifacts@.len() ==> #[trigger] self.artifacts@[i].id@
                != #[trigger] self.artifacts@[j].id@
    }

    /// The service of the running instance with this id, if there is one.
    pub closed spec fn service_of(&self, id: InstanceId) -> Option<ServiceFactory> {
        if exists|i: int| 0 <= i < self.instances@.len() && self.instances@[i].spec.id == id {
            let i = choose|i: int|
                0 <= i < self.instances@.len() && self.instances@[i].spec.id == id;
            Some(self.instances@[i].service)
        } else {
            None
        }
    }

    /// Whether a running instance carries this name.
    pub closed spec fn has_instance_name(&self, name: Seq<char>) -> bool {
        exists|i: int| 0 <= i < self.instances@.len() && self.instances@[i].spec.name@ == name
    }

    /// The service of the deployed artifact, if it is deployed.
    pub closed spec fn artifact_service(&self, artifact: (u32, Seq<char>)) -> Option<
        ServiceFactory,
    > {
        if exists|i: int| 0 <= i < self.artifacts@.len() && self.artifacts@[i].id@ == artifact {
            let i = choose|i: int|
                0 <= i < self.artifacts@.len() && self.artifacts@[i].id@ == artifact;
            Some(self.artifacts@[i].service)
        } else {
            None
        }
    }

    /// The runtime that handles artifacts with this runtime id.
    pub closed spec fn runtime_for(&self, id: u32) -> Option<Runtime> {
        first_runtime(self.runtimes@, id)
    }

    /// A dispatcher over the given runtimes, with nothing deployed or started.
    pub fn with_runtimes(runtimes: Vec<Runtime>) -> (r: Dispatcher)
        ensures
            forall|id: u32| #[trigger] r.runtime_for(id) == first_runtime(runtimes@, id),
            forall|a: (u32, Seq<char>)| #[trigger] r.artifact_service(a) is None,
            forall|id: InstanceId| #[trigger] r.service_of(id) is None,
            forall|name: Seq<char>| !#[trigger] r.has_instance_name(name),
    {
        Dispatcher { runtimes, artifacts: Vec::new(), instances: Vec::new() }
    }

    fn find_instance(&self, id: InstanceId) -> (r: Option<usize>)
        ensures
            r is None ==> self.service_of(id) is None,
            r is Some ==> r.unwrap() < self.instances@.len() && self.instances@[r.unwrap() as int].spec.id
                == id && self.service_of(id) == Some(self.instances@[r.unwrap() as int].service),
    {
        proof {
            use_type_invariant(self);
        }
        let mut i: usize = 0;
        while i < self.instances.len()
            invariant
                0 <= i <= self.instances@.len(),
                forall|j: int| 0 <= j < i ==> #[trigger] self.instances@[j].spec.id != id,
                forall|a: int, b: int|
                    0 <= a < b < self.instances@.len() ==> #[trigger] self.instances@[a].spec.id
                        != #[trigger] self.instances@[b].spec.id,
            decreases self.instances@.len() - i,
        {
            if self.instances[i].spec.id == id {
                proof {
                    let k = choose|k: int|
                        0 <= k < self.instances@.len() && self.instances@[k].spec.id == id;
                    if k != i {
                        if k < i {
                            assert(self.instances@[k].spec.id != self.instances@[i as int].spec.id);
                        } else {
                            assert(self.instances@[i as int].spec.id != self.instances@[k].spec.id);
                        }
                    }
                }
                return Some(i);
            }
            i = i + 1;
        }
        None
    }

    fn name_taken(&self, name: &String) -> (r: bool)
        ensures
            r == self.has_instance_name(name@),
    {
        let mut i: usize = 0;
        while i < self.instances.len()
            invariant
                0 <= i <= self.instances@.len(),
                forall|j: int| 0 <= j < i ==> #[trigger] self.instances@[j].spec.name@ != name@,
            decreases self.instances@.len() - i,
        {
            if self.instances[i].spec.name == *name {
                return true;
            }
            i = i + 1;
        }
        false
    }

    fn find_artifact(&self, artifact: &ArtifactId) -> (r: Option<usize>)
        ensures
            r is None ==> self.artifact_service(artifact@) is None,
            r is Some ==> r.unwrap() < self.artifacts@.len() && self.artifacts@[r.unwrap() as int].id@
                == artifact@ && self.artifact_service(artifact@) == Some(
                self.artifacts@[r.unwrap() as int].service,
            ),
    {
        proof {
            use_type_invariant(self);
        }
        let mut i: usize = 0;
        while i < self.artifacts.len()
            invariant
                0 <= i <= self.artifacts@.len(),
                forall|j: int| 0 <= j < i ==> #[trigger] self.artifacts@[j].id@ != artifact@,
                forall|a: int, b: int|
                    0 <= a < b < self.artifacts@.len() ==> #[trigger] self.artifacts@[a].id@
                        != #[trigger] self.artifacts@[b].id@,
            decreases self.artifacts@.len() - i,
        {
            if self.artifacts[i].id.same_as(artifact) {
                proof {
                    let k = choose|k: int|
                        0 <= k < self.artifacts@.len() && self.artifacts@[k].id@ == artifact@;
                    if k != i {
                        if k < i {
                            assert(self.artifacts@[k].id@ != self.artifacts@[i as int].id@);
                        } else {
                            assert(self.artifacts@[i as int].id@ != self.artifacts@[k].id@);
                        }
                    }
                }
                return Some(i);
            }
            i = i + 1;
        }
        None
    }

    fn find_runtime(&self, id: u32) -> (r: Option<usize>)
        ensures
            r is None ==> self.runtime_for(id) is None,
            r is Some ==> r.unwrap() < self.runtimes@.len() && self.runtime_for(id) == Some(
                self.runtimes@[r.unwrap() as int],
            ),
    {
        let mut i: usize = 0;
        assert(self.runtimes@.subrange(0, self.runtimes@.len() as int) =~= self.runtimes@);
        while i < self.runtimes.len()
            invariant
                0 <= i <= self.runtimes@.len(),
                first_runtime(self.runtimes@, id) == first_runtime(
                    self.runtimes@.subrange(i as int, self.runtimes@.len() as int),
                    id,
                ),
            decreases self.runtimes@.len() - i,
        {
            let ghost rest = self.runtimes@.subrange(i as int, self.runtimes@.len() as int);
            assert(rest.drop_first() =~= self.runtimes@.subrange(
                i + 1,
                self.runtimes@.len() as int,
            ));
            if self.runtimes[i].id() == id {
                return Some(i);
            }
            i = i + 1;
        }
        None
    }
}

impl Dispatcher {
    /// Routes a call to the target instance's service, on the context's fork.
    /// A service's nested calls come back here with the same fork.
    pub fn call(&self, context: &mut ExecutionContext, call_info: CallInfo, payload: &[u8]) -> (r:
        Result<(), ExecutionError>)
        ensures
            (r, final(context).fork_state()@) == call_outcome(
                *self,
                old(context).fork_state()@,
                old(context).caller_state(),
                call_info,
                payload@,
                old(context).depth() as int,
            ),
            final(context).same_frame(*old(context)),
        decreases MAX_CALL_DEPTH - old(context).depth(), 5nat,
    {
        if context.depth >= MAX_CALL_DEPTH {
            return Err(ExecutionError::CallDepthExceeded);
        }
        match self.find_instance(call_info.instance_id) {
            None => Err(ExecutionError::UnknownInstance),
            Some(i) => {
                let service = self.instances[i].service;
                let saved = context.instance;
                context.instance = Some(call_info.instance_id);
                context.depth = context.depth + 1;
                let r = service.execute(
                    self,
                    context,
                    call_info.instance_id,
                    call_info.method_id,
                    payload,
                );
                context.instance = saved;
                context.depth = context.depth - 1;
                r
            },
        }
    }
}

impl Dispatcher {
    /// Asks the artifact's runtime to load it, and records it as deployed.
    pub fn deploy_and_register_artifact(&mut self, artifact: &ArtifactId, spec: &[u8]) -> (r:
        Result<(), DeployError>)
        ensures
            old(self).runtime_for(artifact.runtime_id) is None ==> r == Err::<(), DeployError>(
                DeployError::UnknownRuntime,
            ),
            old(self).runtime_for(artifact.runtime_id) is Some && old(self).artifact_service(
                artifact@,
            ) is Some ==> r == Err::<(), DeployError>(DeployError::AlreadyDeployed),
            old(self).runtime_for(artifact.runtime_id) is Some && old(self).artifact_service(
                artifact@,
            ) is None && old(self).runtime_for(artifact.runtime_id).unwrap().deploy_outcome(
                artifact@,
            ) is None ==> r == Err::<(), DeployError>(DeployError::UnknownArtifact),
            old(self).runtime_for(artifact.runtime_id) is Some && old(self).artifact_service(
                artifact@,
            ) is None && old(self).runtime_for(artifact.runtime_id).unwrap().deploy_outcome(
                artifact@,
            ) is Some ==> r is Ok && final(self).artifact_service(artifact@) == old(
                self,
            ).runtime_for(artifact.runtime_id).unwrap().deploy_outcome(artifact@),
            r is Err ==> *final(self) == *old(self),
            r is Ok ==> forall|a: (u32, Seq<char>)|
                a != artifact@ ==> #[trigger] final(self).artifact_service(a) == old(
                    self,
                ).artifact_service(a),
            forall|id: InstanceId| #[trigger]
                final(self).service_of(id) == old(self).service_of(id),
            forall|name: Seq<char>| #[trigger]
                final(self).has_instance_name(name) == old(self).has_instance_name(name),
            forall|id: u32| #[trigger] final(self).runtime_for(id) == old(self).runtime_for(id),
    {
        proof {
            use_type_invariant(&*self);
        }
        let ri = match self.find_runtime(artifact.runtime_id) {
            Some(ri) => ri,
            None => {
                return Err(DeployError::UnknownRuntime);
            },
        };
        if self.find_artifact(artifact).is_some() {
            return Err(DeployError::AlreadyDeployed);
        }
        let service = match self.runtimes[ri].deploy_artifact(artifact, spec) {
            Ok(service) => service,
            Err(e) => {
                return Err(e);
            },
        };
        let ghost before = self.artifacts@;
        let entry = DeployedArtifact { id: artifact.duplicate(), service };
        proof {
            let n = before.len() as int;
            let after = before.push(entry);
            assert forall|i: int, j: int| 0 <= i < j < after.len() implies #[trigger] after[i].id@
                != #[trigger] after[j].id@ by {
                if j == n {
                    assert(after[i] == before[i]);
                    assert(before[i].id@ != artifact@);
                }
            }
        }
        let mut whole = Dispatcher { runtimes: Vec::new(), artifacts: Vec::new(), instances: Vec::new() };
        std::mem::swap(self, &mut whole);
        let Dispatcher { runtimes, mut artifacts, instances } = whole;
        artifacts.push(entry);
        *self = Dispatcher { runtimes, artifacts, instances };
        proof {
            let n = before.len() as int;
            assert(self.artifacts@ == before.push(entry));
            assert forall|a: (u32, Seq<char>)|
                a != artifact@ implies #[trigger] self.artifact_service(a) == old(
                self,
            ).artifact_service(a) by {
                if exists|i: int| 0 <= i < before.len() && before[i].id@ == a {
                    let i = choose|i: int| 0 <= i < before.len() && before[i].id@ == a;
                    assert(self.artifacts@[i] == before[i]);
                }
                if exists|i: int| 0 <= i < self.artifacts@.len() && self.artifacts@[i].id@ == a {
                    let i = choose|i: int|
                        0 <= i < self.artifacts@.len() && self.artifacts@[i].id@ == a;
                    assert(self.artifacts@[i] == before[i]);
                    let k = choose|k: int|
                        0 <= k < self.artifacts@.len() && self.artifacts@[k].id@ == a;
                    assert(self.artifacts@[k] == before[k]);
                }
            }
            assert(self.artifacts@[n].id@ == artifact@);
            let k = choose|k: int|
                0 <= k < self.artifacts@.len() && self.artifacts@[k].id@ == artifact@;
            if k != n {
                assert(self.artifacts@[k] == before[k]);
            }
        }
        Ok(())
    }

    /// Starts an instance of a deployed artifact: checks that its id and name
    /// are free, runs the service's configuration hook on the fork, and
    /// registers the instance if the hook succeeds. The registry is left
    /// unchanged by every failure; the fork only by those before the hook.
    pub fn start_service(&mut self, fork: &mut Fork, spec: InstanceSpec, constructor: &[u8]) -> (r:
        Result<(), StartError>)
        ensures
            old(self).service_of(spec.id) is Some ==> r == Err::<(), StartError>(
                StartError::InstanceIdTaken,
            ),
            old(self).service_of(spec.id) is None && old(self).has_instance_name(spec.name@)
                ==> r == Err::<(), StartError>(StartError::InstanceNameTaken),
            old(self).service_of(spec.id) is None && !old(self).has_instance_name(spec.name@)
                && old(self).artifact_service(spec.artifact@) is None ==> r == Err::<
                (),
                StartError,
            >(StartError::ArtifactNotDeployed),
            old(self).service_of(spec.id) is Some || old(self).has_instance_name(spec.name@) || old(
                self,
            ).artifact_service(spec.artifact@) is None ==> *final(fork) == *old(fork),
            old(self).service_of(spec.id) is None && !old(self).has_instance_name(spec.name@)
                && old(self).artifact_service(spec.artifact@) is Some ==> {
                let svc = old(self).artifact_service(spec.artifact@).unwrap();
                let (c, f) = svc.configure_outcome(old(fork)@, constructor@);
                &&& final(fork)@ == f
                &&& final(fork).base() == old(fork).base()
                &&& c is Ok ==> r is Ok && final(self).service_of(spec.id) == Some(svc)
                &&& c is Err ==> r == Err::<(), StartError>(StartError::Configuration(c->Err_0))
            },
            r is Err ==> *final(self) == *old(self),
            r is Ok ==> final(self).has_instance_name(spec.name@),
            r is Ok ==> forall|id: InstanceId|
                id != spec.id ==> #[trigger] final(self).service_of(id) == old(self).service_of(id),
            r is Ok ==> forall|name: Seq<char>|
                name != spec.name@ ==> #[trigger] final(self).has_instance_name(name) == old(
                    self,
                ).has_instance_name(name),
            forall|a: (u32, Seq<char>)| #[trigger]
                final(self).artifact_service(a) == old(self).artifact_service(a),
            forall|id: u32| #[trigger] final(self).runtime_for(id) == old(self).runtime_for(id),
    {
        proof {
            use_type_invariant(&*self);
        }
        if self.find_instance(spec.id).is_some() {
            return Err(StartError::InstanceIdTaken);
        }
        if self.name_taken(&spec.name) {
            return Err(StartError::InstanceNameTaken);
        }
        let service = match self.find_artifact(&spec.artifact) {
            Some(ai) => self.artifacts[ai].service,
            None => {
                return Err(StartError::ArtifactNotDeployed);
            },
        };
        match service.configure(fork, &spec, constructor) {
            Ok(()) => {},
            Err(e) => {
                return Err(StartError::Configuration(e));
            },
        }
        let ghost before = self.instances@;
        let ghost id = spec.id;
        let ghost name = spec.name@;
        let entry = StartedInstance { spec, service };
        proof {
            let n = before.len() as int;
            let after = before.push(entry);
            assert forall|i: int, j: int| 0 <= i < j < after.len() implies #[trigger] after[i].spec.id
                != #[trigger] after[j].spec.id by {
                if j == n {
                    assert(after[i] == before[i]);
                }
            }
            assert forall|i: int, j: int| 0 <= i < j < after.len() implies #[trigger] after[i].spec.name@
                != #[trigger] after[j].spec.name@ by {
                if j == n {
                    assert(after[i] == before[i]);
                }
            }
        }
        let mut whole = Dispatcher { runtimes: Vec::new(), artifacts: Vec::new(), instances: Vec::new() };
        std::mem::swap(self, &mut whole);
        let Dispatcher { runtimes, artifacts, mut instances } = whole;
        instances.push(entry);
        *self = Dispatcher { runtimes, artifacts, instances };
        proof {
            let n = before.len() as int;
            assert(self.instances@ == before.push(entry));
            assert(self.instances@[n].spec.id == id);
            assert(self.instances@[n].spec.name@ == name);
            let k = choose|k: int| 0 <= k < self.instances@.len() && self.instances@[k].spec.id == id;
            if k != n {
                assert(self.instances@[k] == before[k]);
            }
            assert forall|other: InstanceId|
                other != id implies #[trigger] self.service_of(other) == old(self).service_of(other) by {
                if exists|i: int| 0 <= i < before.len() && before[i].spec.id == other {
                    let i = choose|i: int| 0 <= i < before.len() && before[i].spec.id == other;
                    assert(self.instances@[i] == before[i]);
                }
                if exists|i: int| 0 <= i < self.instances@.len() && self.instances@[i].spec.id == other {
                    let i = choose|i: int|
                        0 <= i < self.instances@.len() && self.instances@[i].spec.id == other;
                    assert(self.instances@[i] == before[i]);
                }
            }
            assert forall|other: Seq<char>|
                other != name implies #[trigger] self.has_instance_name(other) == old(
                self,
            ).has_instance_name(other) by {
                if exists|i: int| 0 <= i < before.len() && before[i].spec.name@ == other {
                    let i = choose|i: int| 0 <= i < before.len() && before[i].spec.name@ == other;
                    assert(self.instances@[i] == before[i]);
                }
                if exists|i: int|
                    0 <= i < self.instances@.len() && self.instances@[i].spec.name@ == other {
                    let i = choose|i: int|
                        0 <= i < self.instances@.len() && self.instances@[i].spec.name@ == other;
                    assert(self.instances@[i] == before[i]);
                }
            }
        }
        Ok(())
    }
}

/// The calls of a chain, as routing keys and payload bytes.
pub open spec fn calls_view(calls: Seq<(CallInfo, Vec<u8>)>) -> Seq<(CallInfo, Seq<u8>)> {
    calls.map_values(|c: (CallInfo, Vec<u8>)| (c.0, c.1@))
}

/// What running the calls in order on `fork` returns, and the fork it
/// leaves: each call is a top-level call, and the first failure ends the run.
pub open spec fn chain_outcome(
    d: Dispatcher,
    fork: Map<Seq<u8>, Seq<u8>>,
    caller: Caller,
    calls: Seq<(CallInfo, Seq<u8>)>,
) -> (Result<(), ExecutionError>, Map<Seq<u8>, Seq<u8>>)
    decreases calls.len(),
{
    if calls.len() == 0 {
        (Ok(()), fork)
    } else {
        let (r, f) = call_outcome(d, fork, caller, calls[0].0, calls[0].1, 0);
        if r is Err {
            (r, f)
        } else {
            chain_outcome(d, f, caller, calls.drop_first())
        }
    }
}

impl Dispatcher {
    /// Runs the calls in order on one fork of the store, all in the name of
    /// `caller`. If every call succeeds the fork is merged into the store;
    /// if one fails the run stops there, the fork is dropped and the store
    /// keeps its contents, whatever the earlier calls wrote.
    pub fn execute(&self, db: &mut MemoryDB, caller: Caller, calls: &Vec<(CallInfo, Vec<u8>)>) -> (r:
        Result<(), ExecutionError>)
        ensures
            r == chain_outcome(*self, old(db)@, caller, calls_view(calls@)).0,
            r is Ok ==> final(db)@ == chain_outcome(*self, old(db)@, caller, calls_view(calls@)).1,
            r is Err ==> final(db)@ == old(db)@,
    {
        let ghost all = calls_view(calls@);
        let ghost who = caller;
        let mut context = ExecutionContext::new(db.fork(), caller);
        assert(all.subrange(0, all.len() as int) =~= all);
        let mut i: usize = 0;
        while i < calls.len()
            invariant
                0 <= i <= calls@.len(),
                all == calls_view(calls@),
                chain_outcome(*self, db@, who, all) == chain_outcome(
                    *self,
                    context.fork_state()@,
                    who,
                    all.subrange(i as int, all.len() as int),
                ),
                context.depth() == 0,
                context.caller_state() == who,
                who == caller,
                context.fork_state().base() == db@,
            decreases calls@.len() - i,
        {
            let ghost rest = all.subrange(i as int, all.len() as int);
            assert(rest.drop_first() =~= all.subrange(i + 1, all.len() as int));
            assert(rest[0] == (calls@[i as int].0, calls@[i as int].1@));
            let r = self.call(&mut context, calls[i].0, calls[i].1.as_slice());
            if r.is_err() {
                return r;
            }
            i = i + 1;
        }
        assert(all.subrange(i as int, all.len() as int).len() == 0);
        let fork = context.into_fork();
        let ghost changes = fork.changes();
        let _ = db.merge(fork.into_patch());
        assert(db@ =~= fork@);
        Ok(())
    }
}

/// A call of method 0 on an instance of the test service passes the value on
/// to method 1 of the same instance within the chain: the nested call's write
/// is in the very fork that the outer call returns with, before anything is
/// merged.
pub proof fn lemma_reentrant_visibility(
    d: Dispatcher,
    fork: Map<Seq<u8>, Seq<u8>>,
    caller: Caller,
    id: InstanceId,
    value: Seq<u8>,
    depth: int,
)
    requires
        d.service_of(id) == Some(ServiceFactory::Test(TestServiceImpl)),
        value.len() == 8,
        0 <= depth,
        depth + 2 <= MAX_CALL_DEPTH,
    ensures
        call_outcome(d, fork, caller, CallInfo { instance_id: id, method_id: 0 }, value, depth) == (
            Ok::<(), ExecutionError>(()),
            fork.insert(method_a_key(), value).insert(method_b_key(), value),
        ),
{
    let f1 = fork.insert(method_a_key(), value);
    assert(value.subrange(0, 8) =~= value);
    let inner = call_outcome(
        d,
        f1,
        Caller::Service { instance_id: id },
        CallInfo { instance_id: id, method_id: 1 },
        value,
        depth + 1,
    );
    assert(inner == (Ok::<(), ExecutionError>(()), f1.insert(method_b_key(), value)));
    assert(step_outcome(d, id, test_service_step(id, 0, fork, value), depth + 1) == inner);
}

} // verus!
