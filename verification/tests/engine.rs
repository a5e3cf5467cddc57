use cosmwasm_simulate::dispatcher::{DispatchError, Dispatcher, OutboundMsg};
use cosmwasm_simulate::engine::{
    handler_resp, Action, CallReport, ContractInstance, Failure, GasBudget, GasExceeded,
    Invocation, VmEvent, VmOutcome, DEFAULT_GAS_LIMIT,
};
use cosmwasm_simulate::messages::CallType;
use cosmwasm_simulate::registry::{Registry, ReinstallPolicy};

fn execute(target: &str, payload: &[u8]) -> OutboundMsg {
    OutboundMsg::Execute { contract_addr: target.to_string(), msg: payload.to_vec() }
}

fn event(outcome: VmOutcome, gas_left: u64) -> VmEvent {
    VmEvent { outcome, gas_left }
}

fn leaf() -> VmEvent {
    event(VmOutcome::Handle { messages: vec![], data: None }, DEFAULT_GAS_LIMIT)
}

fn invocation(action: Action) -> Invocation {
    match action {
        Action::Invoke(inv) => inv,
        other => panic!("expected an invocation, got {:?}", other),
    }
}

fn report(action: Action) -> CallReport {
    match action {
        Action::Finish(report) => report,
        other => panic!("expected a report, got {:?}", other),
    }
}

fn world(addresses: &[&str]) -> Registry {
    let mut registry = Registry::new(ReinstallPolicy::Preserve);
    for a in addresses {
        registry.install(a, a, a.as_bytes().to_vec());
    }
    registry
}

#[test]
fn gas_used_is_before_less_after() {
    let mut gas = GasBudget::new(500_000);
    assert_eq!(gas.settle(499_000), Ok(1_000));
    assert_eq!(gas.remaining(), 499_000);
    assert_eq!(gas.settle(499_000), Ok(0));
    assert_eq!(gas.settle(0), Ok(499_000));
    assert_eq!(gas.remaining(), 0);
}

#[test]
fn gas_never_grows() {
    let mut gas = GasBudget::new(100);
    assert_eq!(gas.settle(101), Err(GasExceeded { before: 100, after: 101 }));
    assert_eq!(gas.remaining(), 100);
}

#[test]
fn new_instance_installs_and_binds() {
    let mut registry = Registry::new(ReinstallPolicy::Preserve);
    let instance =
        ContractInstance::new_instance("dir/a.wasm", "addrA", vec![9], &mut registry, 1000, 8);
    assert_eq!(instance.address(), "addrA");
    assert_eq!(instance.wasm_file(), "dir/a.wasm");
    assert_eq!(instance.gas_left(), 1000);
    assert!(instance.is_bound());
    assert_eq!(instance.analyzer().map_of_member.len(), 0);
    let record = registry.instantiate("addrA").unwrap();
    assert_eq!(record.name, "addrA");
    assert_eq!(record.code, vec![9]);
}

#[test]
fn instantiate_binds_to_what_the_registry_holds() {
    let registry = world(&["addrA"]);
    let instance = ContractInstance::instantiate(&registry, "addrA", 77, 3).unwrap();
    assert_eq!(instance.address(), "addrA");
    assert_eq!(instance.gas_left(), 77);
    assert!(ContractInstance::instantiate(&registry, "addrZ", 77, 3).is_err());
}

#[test]
fn init_runs_once_and_reports_its_gas() {
    let mut registry = Registry::new(ReinstallPolicy::Preserve);
    let mut a = ContractInstance::new_instance("a.wasm", "addrA", vec![1, 2], &mut registry, 500, 8);
    let inv = invocation(a.call(&registry, "alice", CallType::Init, b"{\"n\":1}"));
    assert_eq!(inv.entry, CallType::Init);
    assert_eq!(inv.address, "addrA");
    assert_eq!(inv.contract, Some(b"addrA\0\0\0\0\0\0\0\0\0\0\0\0\0\0\0".to_vec()));
    assert_eq!(inv.code, vec![1, 2]);
    assert_eq!(inv.sender, "alice");
    assert_eq!(inv.payload, b"{\"n\":1}".to_vec());
    assert_eq!(inv.depth, 0);
    assert!(!a.is_bound());
    let rep = report(a.resume(&registry, event(VmOutcome::Init, 420)));
    assert_eq!(rep.call_type, CallType::Init);
    assert_eq!(rep.gas_used, 80);
    assert_eq!(rep.result.unwrap(), Vec::<u8>::new());
    assert_eq!(a.gas_left(), 420);
    assert!(a.is_bound());
}

#[test]
fn query_reports_the_response() {
    let mut registry = Registry::new(ReinstallPolicy::Preserve);
    let mut a = ContractInstance::new_instance("a.wasm", "addrA", vec![1], &mut registry, 500, 8);
    let inv = invocation(a.call(&registry, "", CallType::Query, b"{}"));
    assert_eq!(inv.entry, CallType::Query);
    let rep = report(a.resume(
        &registry,
        event(VmOutcome::Query { response: b"{\"count\":3}".to_vec() }, 500),
    ));
    assert_eq!(rep.gas_used, 0);
    assert_eq!(rep.marker(), "Execute Success");
    assert_eq!(rep.result.unwrap(), b"{\"count\":3}".to_vec());
}

#[test]
fn a_failure_is_reported_with_its_call_type_and_reason() {
    let mut registry = Registry::new(ReinstallPolicy::Preserve);
    let mut a = ContractInstance::new_instance("a.wasm", "addrA", vec![1], &mut registry, 500, 8);
    invocation(a.call(&registry, "s", CallType::Init, b"{}"));
    let rep = report(a.resume(
        &registry,
        event(VmOutcome::Failed { reason: "trap".to_string() }, 450),
    ));
    assert_eq!(rep.marker(), "ERROR      :execute init failed");
    assert_eq!(rep.gas_used, 50);
    let err = rep.result.unwrap_err();
    assert_eq!(err.call_type, CallType::Init);
    assert!(!err.nested);
    match err.cause {
        Failure::Vm { reason } => assert_eq!(reason, "trap"),
        other => panic!("unexpected: {:?}", other),
    }
    assert!(a.is_bound());

    invocation(a.call(&registry, "s", CallType::Query, b"{}"));
    let rep = report(a.resume(
        &registry,
        event(VmOutcome::Failed { reason: "bad".to_string() }, 450),
    ));
    assert_eq!(rep.marker(), "ERROR      :execute query failed");

    invocation(a.call(&registry, "s", CallType::Handle, b"{}"));
    let rep = report(a.resume(
        &registry,
        event(VmOutcome::Failed { reason: "bad".to_string() }, 450),
    ));
    assert_eq!(rep.marker(), "ERROR      :execute query failed");
    assert_eq!(rep.result.unwrap_err().call_type, CallType::Handle);
}

#[test]
fn an_answer_of_the_wrong_kind_fails_the_call() {
    let mut registry = Registry::new(ReinstallPolicy::Preserve);
    let mut a = ContractInstance::new_instance("a.wasm", "addrA", vec![1], &mut registry, 500, 8);
    invocation(a.call(&registry, "s", CallType::Init, b"{}"));
    let rep = report(a.resume(&registry, event(VmOutcome::Query { response: vec![] }, 500)));
    assert!(matches!(rep.result.unwrap_err().cause, Failure::Unexpected));
}

#[test]
fn more_gas_left_than_before_fails_the_call() {
    let mut registry = Registry::new(ReinstallPolicy::Preserve);
    let mut a = ContractInstance::new_instance("a.wasm", "addrA", vec![1], &mut registry, 500, 8);
    invocation(a.call(&registry, "s", CallType::Init, b"{}"));
    let rep = report(a.resume(&registry, event(VmOutcome::Init, 501)));
    assert_eq!(rep.gas_used, 0);
    assert!(matches!(rep.result.unwrap_err().cause, Failure::GasExceeded));
    assert_eq!(a.gas_left(), 500);
}

#[test]
fn a_call_during_a_call_is_refused() {
    let mut registry = Registry::new(ReinstallPolicy::Preserve);
    let mut a = ContractInstance::new_instance("a.wasm", "addrA", vec![1], &mut registry, 500, 8);
    invocation(a.call(&registry, "s", CallType::Init, b"{}"));
    let rep = report(a.call(&registry, "s", CallType::Query, b"{}"));
    assert!(matches!(rep.result.unwrap_err().cause, Failure::Busy));
    // the first call is still in progress
    let rep = report(a.resume(&registry, event(VmOutcome::Init, 500)));
    assert!(rep.result.is_ok());
}

#[test]
fn an_answer_without_a_call_is_ignored() {
    let mut registry = Registry::new(ReinstallPolicy::Preserve);
    let mut a = ContractInstance::new_instance("a.wasm", "addrA", vec![1], &mut registry, 500, 8);
    assert!(matches!(a.resume(&registry, event(VmOutcome::Init, 1)), Action::Idle));
    assert_eq!(a.gas_left(), 500);
}

#[test]
fn a_call_of_an_instance_without_contract_fails() {
    let registry = world(&["addrA"]);
    let mut a = ContractInstance::instantiate(&registry, "addrA", 10, 8).unwrap();
    let empty = Registry::new(ReinstallPolicy::Preserve);
    let rep = report(a.call(&empty, "s", CallType::Handle, b"{}"));
    match rep.result.unwrap_err().cause {
        Failure::NoSuchContract { address } => assert_eq!(address, "addrA"),
        other => panic!("unexpected: {:?}", other),
    }
    assert!(a.is_bound());
}

#[test]
fn sub_messages_are_executed_in_their_order() {
    let registry = world(&["addrA", "t1", "t2", "t3"]);
    let mut a = ContractInstance::instantiate(&registry, "addrA", 1000, 8).unwrap();
    invocation(a.call(&registry, "alice", CallType::Handle, b"{}"));
    let messages = vec![execute("t1", b"m1"), execute("t2", b"m2"), execute("t3", b"m3")];
    let first = invocation(a.resume(
        &registry,
        event(VmOutcome::Handle { messages, data: Some(b"ignored".to_vec()) }, 900),
    ));
    assert_eq!(first.entry, CallType::Handle);
    assert_eq!(first.address, "t1");
    // an address of fewer than three bytes has no canonical form
    assert_eq!(first.contract, None);
    assert_eq!(first.code, b"t1".to_vec());
    assert_eq!(first.sender, "addrA");
    assert_eq!(first.payload, b"m1".to_vec());
    assert_eq!(first.depth, 1);
    assert!(!a.is_bound());
    let second = invocation(a.resume(&registry, leaf()));
    assert_eq!(second.address, "t2");
    assert_eq!(second.payload, b"m2".to_vec());
    assert_eq!(second.sender, "addrA");
    let third = invocation(a.resume(&registry, leaf()));
    assert_eq!(third.address, "t3");
    assert_eq!(third.payload, b"m3".to_vec());
    let rep = report(a.resume(&registry, leaf()));
    assert_eq!(rep.call_type, CallType::Handle);
    assert_eq!(rep.gas_used, 100);
    assert_eq!(rep.marker(), "Execute Success");
    assert_eq!(rep.result.unwrap(), Vec::<u8>::new());
    assert!(a.is_bound());
    assert_eq!(a.gas_left(), 900);
}

#[test]
fn the_first_failure_short_circuits_the_rest() {
    let registry = world(&["addrA", "t1", "t2", "t3"]);
    let mut a = ContractInstance::instantiate(&registry, "addrA", 1000, 8).unwrap();
    invocation(a.call(&registry, "alice", CallType::Handle, b"{}"));
    let messages = vec![execute("t1", b"m1"), execute("t2", b"m2"), execute("t3", b"m3")];
    invocation(a.resume(&registry, event(VmOutcome::Handle { messages, data: None }, 900)));
    let second = invocation(a.resume(&registry, leaf()));
    assert_eq!(second.address, "t2");
    let rep = report(a.resume(
        &registry,
        event(VmOutcome::Failed { reason: "t2 failed".to_string() }, 0),
    ));
    assert_eq!(rep.gas_used, 100);
    let err = rep.result.unwrap_err();
    assert!(err.nested);
    assert_eq!(err.call_type, CallType::Handle);
    assert!(matches!(err.cause, Failure::Vm { .. }));
    // t3 is never executed: the instance is at rest
    assert!(a.is_bound());
    assert!(matches!(a.resume(&registry, leaf()), Action::Idle));
}

#[test]
fn nested_messages_are_executed_depth_first() {
    let registry = world(&["addrA", "b", "c", "d", "e"]);
    let mut a = ContractInstance::instantiate(&registry, "addrA", 1000, 8).unwrap();
    invocation(a.call(&registry, "alice", CallType::Handle, b"{}"));
    // A -> [b, e]; b -> [c, d]
    let to_b = invocation(a.resume(
        &registry,
        event(
            VmOutcome::Handle { messages: vec![execute("b", b"1"), execute("e", b"4")], data: None },
            1000,
        ),
    ));
    assert_eq!((to_b.address.as_str(), to_b.sender.as_str(), to_b.depth), ("b", "addrA", 1));
    let to_c = invocation(a.resume(
        &registry,
        event(
            VmOutcome::Handle { messages: vec![execute("c", b"2"), execute("d", b"3")], data: None },
            5,
        ),
    ));
    assert_eq!((to_c.address.as_str(), to_c.sender.as_str(), to_c.depth), ("c", "b", 2));
    let to_d = invocation(a.resume(&registry, leaf()));
    assert_eq!((to_d.address.as_str(), to_d.sender.as_str(), to_d.depth), ("d", "b", 2));
    let to_e = invocation(a.resume(&registry, leaf()));
    assert_eq!((to_e.address.as_str(), to_e.sender.as_str(), to_e.depth), ("e", "addrA", 1));
    assert_eq!(to_e.payload, b"4".to_vec());
    let rep = report(a.resume(&registry, leaf()));
    assert!(rep.result.is_ok());
    assert_eq!(rep.gas_used, 0);
}

#[test]
fn messages_of_other_kinds_are_passed_over() {
    let registry = world(&["addrA", "b"]);
    let mut a = ContractInstance::instantiate(&registry, "addrA", 1000, 8).unwrap();
    invocation(a.call(&registry, "alice", CallType::Handle, b"{}"));
    let messages = vec![OutboundMsg::Other, execute("b", b"x"), OutboundMsg::Other];
    let inv =
        invocation(a.resume(&registry, event(VmOutcome::Handle { messages, data: None }, 1000)));
    assert_eq!(inv.address, "b");
    let rep = report(a.resume(
        &registry,
        event(VmOutcome::Handle { messages: vec![OutboundMsg::Other], data: None }, 0),
    ));
    assert!(rep.result.is_ok());
}

#[test]
fn a_message_to_an_unknown_contract_fails_the_call() {
    let registry = world(&["addrA", "b"]);
    let mut a = ContractInstance::instantiate(&registry, "addrA", 1000, 8).unwrap();
    invocation(a.call(&registry, "alice", CallType::Handle, b"{}"));
    let messages = vec![execute("ghost", b"x"), execute("b", b"y")];
    let rep = report(a.resume(&registry, event(VmOutcome::Handle { messages, data: None }, 990)));
    assert_eq!(rep.gas_used, 10);
    let err = rep.result.unwrap_err();
    assert!(err.nested);
    match err.cause {
        Failure::NoSuchContract { address } => assert_eq!(address, "ghost"),
        other => panic!("unexpected: {:?}", other),
    }
    assert!(a.is_bound());
}

#[test]
fn calls_deeper_than_allowed_fail_the_call() {
    let registry = world(&["a", "b"]);
    // a and b call each other for ever
    let mut a = ContractInstance::instantiate(&registry, "a", 1000, 3).unwrap();
    invocation(a.call(&registry, "alice", CallType::Handle, b"{}"));
    let mut action =
        a.resume(&registry, event(VmOutcome::Handle { messages: vec![execute("b", b"")], data: None }, 1000));
    let mut depths = Vec::new();
    let rep = loop {
        match action {
            Action::Invoke(inv) => {
                depths.push(inv.depth);
                let back = if inv.address == "b" { "a" } else { "b" };
                action = a.resume(
                    &registry,
                    event(VmOutcome::Handle { messages: vec![execute(back, b"")], data: None }, 0),
                );
            }
            Action::Finish(rep) => break rep,
            Action::Idle => panic!("unexpected idle"),
        }
    };
    assert_eq!(depths, vec![1, 2, 3]);
    let err = rep.result.unwrap_err();
    assert!(err.nested);
    assert!(matches!(err.cause, Failure::DepthExceeded));
    assert!(a.is_bound());
}

#[test]
fn no_nested_call_is_allowed_at_depth_zero() {
    let registry = world(&["a", "b"]);
    let mut a = ContractInstance::instantiate(&registry, "a", 1000, 0).unwrap();
    invocation(a.call(&registry, "alice", CallType::Handle, b"{}"));
    let rep = report(a.resume(
        &registry,
        event(VmOutcome::Handle { messages: vec![execute("b", b"")], data: None }, 1000),
    ));
    assert!(matches!(rep.result.unwrap_err().cause, Failure::DepthExceeded));
    // an answer without messages is fine
    invocation(a.call(&registry, "alice", CallType::Handle, b"{}"));
    let rep = report(a.resume(
        &registry,
        event(VmOutcome::Handle { messages: vec![OutboundMsg::Other], data: None }, 1000),
    ));
    assert!(rep.result.is_ok());
}

#[test]
fn dispatcher_puts_new_calls_ahead_of_pending_ones() {
    let mut d = Dispatcher::new(2);
    assert!(d.is_idle());
    assert_eq!(d.enqueue("a", 0, &vec![execute("x", b"1"), execute("y", b"2")]), Ok(()));
    assert_eq!(d.pending(), 2);
    let x = d.pop().unwrap();
    assert_eq!((x.sender.as_str(), x.target.as_str(), x.depth), ("a", "x", 1));
    assert_eq!(d.enqueue("x", 1, &vec![execute("z", b"3")]), Ok(()));
    let z = d.pop().unwrap();
    assert_eq!((z.sender.as_str(), z.target.as_str(), z.depth), ("x", "z", 2));
    assert_eq!(z.payload, b"3".to_vec());
    assert_eq!(
        d.enqueue("z", 2, &vec![execute("w", b"4")]),
        Err(DispatchError::DepthExceeded)
    );
    assert_eq!(d.enqueue("z", 2, &vec![OutboundMsg::Other]), Ok(()));
    assert_eq!(d.pending(), 1);
    let y = d.pop().unwrap();
    assert_eq!(y.target, "y");
    assert!(d.pop().is_none());
    d.enqueue("a", 0, &vec![execute("x", b"1")]).unwrap();
    d.clear();
    assert!(d.is_idle());
}

#[test]
fn end_to_end_two_contracts() {
    // install contract A at "addrA", and B at "addrB"
    let mut registry = Registry::new(ReinstallPolicy::Preserve);
    let mut a = ContractInstance::new_instance(
        "a.wasm",
        "addrA",
        b"code of A".to_vec(),
        &mut registry,
        DEFAULT_GAS_LIMIT,
        16,
    );
    let _b = ContractInstance::new_instance(
        "b.wasm",
        "addrB",
        b"code of B".to_vec(),
        &mut registry,
        DEFAULT_GAS_LIMIT,
        16,
    );

    // init A: its handler stores its owner
    let inv = invocation(a.call(&registry, "alice", CallType::Init, b"{\"owner\":\"alice\"}"));
    registry.set(&inv.address, b"owner", inv.sender.as_bytes()).unwrap();
    let rep = report(a.resume(&registry, event(VmOutcome::Init, 490_000)));
    assert_eq!(rep.marker(), "Execute Success");
    assert_eq!(rep.gas_used, 10_000);

    // handle A: its handler counts the call and sends one message to B
    let inv = invocation(a.call(&registry, "alice", CallType::Handle, b"{\"ping\":{}}"));
    assert_eq!(inv.address, "addrA");
    registry.set(&inv.address, b"pings", b"1").unwrap();
    let to_b = invocation(a.resume(
        &registry,
        event(
            VmOutcome::Handle { messages: vec![execute("addrB", b"{\"pong\":{}}")], data: None },
            470_000,
        ),
    ));
    assert_eq!(to_b.address, "addrB");
    assert_eq!(to_b.code, b"code of B".to_vec());
    assert_eq!(to_b.sender, "addrA");
    assert_eq!(to_b.payload, b"{\"pong\":{}}".to_vec());

    // B's handler records who called it
    registry.set(&to_b.address, b"last_caller", to_b.sender.as_bytes()).unwrap();
    let rep = report(a.resume(&registry, leaf()));

    // the top-level call reports success
    assert_eq!(rep.marker(), "Execute Success");
    assert_eq!(rep.call_type, CallType::Handle);
    assert_eq!(rep.gas_used, 20_000);
    assert!(rep.result.is_ok());
    assert_eq!(a.gas_left(), 470_000);

    // both partitions show the mutations of their handlers, and only those
    assert_eq!(registry.get("addrA", b"owner").unwrap().0, Some(b"alice".to_vec()));
    assert_eq!(registry.get("addrA", b"pings").unwrap().0, Some(b"1".to_vec()));
    assert_eq!(registry.get("addrA", b"last_caller").unwrap().0, None);
    assert_eq!(registry.get("addrB", b"last_caller").unwrap().0, Some(b"addrA".to_vec()));
    assert_eq!(registry.get("addrB", b"pings").unwrap().0, None);
    assert_eq!(registry.get("addrB", b"owner").unwrap().0, None);
}

#[test]
fn handler_resp_makes_the_calls_of_an_answer_on_behalf_of_the_caller() {
    let registry = world(&["addrA", "b", "c"]);
    let mut a = ContractInstance::instantiate(&registry, "addrA", 1000, 8).unwrap();
    let messages = vec![execute("b", b"1"), OutboundMsg::Other, execute("c", b"2")];
    let first = invocation(handler_resp(&mut a, &registry, &messages, "addrA", 0, 7));
    assert_eq!((first.address.as_str(), first.sender.as_str(), first.depth), ("b", "addrA", 1));
    assert_eq!(first.payload, b"1".to_vec());
    assert_eq!(first.code, b"b".to_vec());
    let second = invocation(a.resume(&registry, leaf()));
    assert_eq!((second.address.as_str(), second.sender.as_str()), ("c", "addrA"));
    let rep = report(a.resume(&registry, leaf()));
    assert_eq!(rep.gas_used, 7);
    assert!(rep.result.is_ok());
    // an answer without calls ends the dispatch at once
    let rep = report(handler_resp(&mut a, &registry, &vec![], "addrA", 0, 3));
    assert_eq!(rep.gas_used, 3);
    assert_eq!(rep.marker(), "Execute Success");
}

#[test]
fn load_schema_fills_the_tables_of_the_instance() {
    let mut registry = Registry::new(ReinstallPolicy::Preserve);
    let mut a = ContractInstance::new_instance("a.wasm", "addrA", vec![1], &mut registry, 500, 8);
    assert!(!a.load_schema(b"{}"));
    assert!(a.load_schema(
        b"{\"title\": \"Q\", \"required\": [\"n\"], \"properties\": {\"n\": {\"type\": \"integer\"}}}"
    ));
    let variants = a.analyzer().map_of_member.get("Q").unwrap();
    assert_eq!(variants.get("Q").unwrap()[0].member_def, "integer");
    assert_eq!(a.gas_left(), 500);
}
