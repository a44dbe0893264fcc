//! A native service that exercises the runtime: its configuration hook
//! stores a message, method 0 stores a value and passes it on to method 1 of
//! an instance within the same chain, and method 1 stores the value it gets.
use vstd::prelude::*;
use vstd::string::*;

use crate::dispatcher::{Dispatcher, ExecutionContext, MethodStep};
use crate::keys::copy_bytes;
use crate::runtime::{
    CallInfo, Caller, ExecutionError, InstanceId, InstanceSpec, MethodId, MAX_CALL_DEPTH,
};
use crate::storage::Fork;

verus! {

/// The key under which the configuration hook stores its message.
pub open spec fn constructor_key() -> Seq<u8> {
    "constructor_entry".spec_bytes()
}

/// The key under which method 0 stores its value.
pub open spec fn method_a_key() -> Seq<u8> {
    "method_a_entry".spec_bytes()
}

/// The key under which method 1 stores its value.
pub open spec fn method_b_key() -> Seq<u8> {
    "method_b_entry".spec_bytes()
}

/// The number that four bytes encode, least significant first.
pub open spec fn le_u32(b: Seq<u8>) -> u32 {
    (b[0] as int + 256 * b[1] + 65536 * b[2] + 16777216 * b[3]) as u32
}

/// What method `method` of the instance `instance` does on `fork`.
///
/// Method 0 takes an 8-byte value, optionally followed by the 4-byte id of
/// the instance to pass it on to (by default its own instance); method 1
/// takes an 8-byte value.
pub open spec fn test_service_step(
    instance: InstanceId,
    method: MethodId,
    fork: Map<Seq<u8>, Seq<u8>>,
    payload: Seq<u8>,
) -> MethodStep {
    if method == 0 {
        if payload.len() == 8 || payload.len() == 12 {
            let value = payload.subrange(0, 8);
            let target = if payload.len() == 12 {
                le_u32(payload.subrange(8, 12))
            } else {
                instance
            };
            MethodStep::Delegate {
                fork: fork.insert(method_a_key(), value),
                call: CallInfo { instance_id: target, method_id: 1 },
                payload: value,
            }
        } else {
            MethodStep::Finish { result: Err(ExecutionError::PayloadDecode), fork }
        }
    } else if method == 1 {
        if payload.len() == 8 {
            MethodStep::Finish { result: Ok(()), fork: fork.insert(method_b_key(), payload) }
        } else {
            MethodStep::Finish { result: Err(ExecutionError::PayloadDecode), fork }
        }
    } else {
        MethodStep::Finish { result: Err(ExecutionError::NoSuchMethod), fork }
    }
}

/// The configuration hook stores its argument under the constructor key.
pub open spec fn test_service_configure(fork: Map<Seq<u8>, Seq<u8>>, args: Seq<u8>) -> (
    Result<(), ExecutionError>,
    Map<Seq<u8>, Seq<u8>>,
) {
    (Ok(()), fork.insert(constructor_key(), args))
}

/// The argument of method 0.
pub struct TxA {
    /// A `u64`, least significant byte first.
    pub value: Vec<u8>,
    /// The instance whose method 1 receives the value; by default the
    /// instance that runs method 0.
    pub target: Option<InstanceId>,
}

/// The argument of method 1.
pub struct TxB {
    /// A `u64`, least significant byte first.
    pub value: Vec<u8>,
}

impl TxA {
    /// Decodes the argument of method 0.
    pub fn from_bytes(payload: &[u8]) -> (r: Option<TxA>)
        ensures
            r is Some <==> payload@.len() == 8 || payload@.len() == 12,
            r is Some ==> r.unwrap().value@ == payload@.subrange(0, 8),
            r is Some && payload@.len() == 8 ==> r.unwrap().target is None,
            r is Some && payload@.len() == 12 ==> r.unwrap().target == Some(
                le_u32(payload@.subrange(8, 12)),
            ),
    {
        if payload.len() != 8 && payload.len() != 12 {
            return None;
        }
        let mut value: Vec<u8> = Vec::new();
        let mut i: usize = 0;
        while i < 8
            invariant
                0 <= i <= 8,
                payload@.len() >= 8,
                value@ == payload@.subrange(0, i as int),
            decreases 8 - i,
        {
            value.push(payload[i]);
            assert(value@ =~= payload@.subrange(0, i + 1));
            i = i + 1;
        }
        let target = if payload.len() == 12 {
            let t = (payload[8] as u32) + 256 * (payload[9] as u32) + 65536 * (payload[10] as u32)
                + 16777216 * (payload[11] as u32);
            Some(t)
        } else {
            None
        };
        Some(TxA { value, target })
    }
}

impl TxB {
    /// Decodes the argument of method 1.
    pub fn from_bytes(payload: &[u8]) -> (r: Option<TxB>)
        ensures
            r is Some <==> payload@.len() == 8,
            r is Some ==> r.unwrap().value@ == payload@,
    {
        if payload.len() != 8 {
            return None;
        }
        Some(TxB { value: copy_bytes(payload) })
    }
}

/// The service implementation.
#[derive(Clone, Copy, Debug, PartialEq, Eq, Structural)]
pub struct TestServiceImpl;

impl TestServiceImpl {
    pub open spec fn spec_artifact_name() -> Seq<char> {
        "test_service:0.1.0"@
    }

    /// The name of the artifact that provides this service.
    pub fn artifact_name(&self) -> (r: String)
        ensures
            r@ == Self::spec_artifact_name(),
    {
        String::from_str("test_service:0.1.0")
    }

    /// Stores the configuration message under the constructor key.
    pub fn configure(&self, _spec: &InstanceSpec, fork: &mut Fork, args: &[u8]) -> (r: Result<
        (),
        ExecutionError,
    >)
        ensures
            (r, final(fork)@) == test_service_configure(old(fork)@, args@),
            final(fork).base() == old(fork).base(),
    {
        fork.put(copy_bytes("constructor_entry".as_bytes()), copy_bytes(args));
        Ok(())
    }

    /// Stores the value under its key, then passes it on to method 1 of the
    /// target instance through the context.
    pub fn method_a(
        &self,
        dispatcher: &Dispatcher,
        context: &mut ExecutionContext,
        instance: InstanceId,
        arg: TxA,
    ) -> (r: Result<(), ExecutionError>)
        requires
            old(context).depth() <= MAX_CALL_DEPTH,
            old(context).current_instance() == Some(instance),
        ensures
            (r, final(context).fork_state()@) == crate::dispatcher::call_outcome(
                *dispatcher,
                old(context).fork_state()@.insert(method_a_key(), arg.value@),
                Caller::Service { instance_id: instance },
                CallInfo {
                    instance_id: match arg.target {
                        Some(t) => t,
                        None => instance,
                    },
                    method_id: 1,
                },
                arg.value@,
                old(context).depth() as int,
            ),
            final(context).same_frame(*old(context)),
        decreases MAX_CALL_DEPTH - old(context).depth() + 1, 2nat,
    {
        let key = copy_bytes("method_a_entry".as_bytes());
        context.fork_mut().put(key, copy_bytes(arg.value.as_slice()));
        let target = match arg.target {
            Some(t) => t,
            None => instance,
        };
        context.call(dispatcher, CallInfo { instance_id: target, method_id: 1 }, arg.value.as_slice())
    }

    /// Stores the value under its key.
    pub fn method_b(&self, context: &mut ExecutionContext, arg: TxB) -> (r: Result<
        (),
        ExecutionError,
    >)
        ensures
            r == Ok::<(), ExecutionError>(()),
            final(context).fork_state()@ == old(context).fork_state()@.insert(
                method_b_key(),
                arg.value@,
            ),
            final(context).same_frame(*old(context)),
    {
        let key = copy_bytes("method_b_entry".as_bytes());
        context.fork_mut().put(key, arg.value);
        Ok(())
    }

    /// Decodes the payload for the method and runs it.
    pub fn execute(
        &self,
        dispatcher: &Dispatcher,
        context: &mut ExecutionContext,
        instance: InstanceId,
        method: MethodId,
        payload: &[u8],
    ) -> (r: Result<(), ExecutionError>)
        requires
            old(context).depth() <= MAX_CALL_DEPTH,
            old(context).current_instance() == Some(instance),
        ensures
            (r, final(context).fork_state()@) == crate::dispatcher::step_outcome(
                *dispatcher,
                instance,
                test_service_step(instance, method, old(context).fork_state()@, payload@),
                old(context).depth() as int,
            ),
            final(context).same_frame(*old(context)),
        decreases MAX_CALL_DEPTH - old(context).depth() + 1, 3nat,
    {
        let ghost fork0 = context.fork_state()@;
        if method == 0 {
            match TxA::from_bytes(payload) {
                Some(arg) => self.method_a(dispatcher, context, instance, arg),
                None => Err(ExecutionError::PayloadDecode),
            }
        } else if method == 1 {
            match TxB::from_bytes(payload) {
                Some(arg) => {
                    let r = self.method_b(context, arg);
                    assert(r == Ok::<(), ExecutionError>(()));
                    r
                },
                None => Err(ExecutionError::PayloadDecode),
            }
        } else {
            Err(ExecutionError::NoSuchMethod)
        }
    }
}

} // verus!
