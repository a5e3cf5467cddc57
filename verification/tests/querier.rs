use cosmwasm_simulate::querier::{
    default_call_back, query_call_back, CustomizationWasmQuerier, MyMockQuerier, QueryRequest,
    QueryRoute, StdMockQuerier, SystemError, WasmPolicy, WasmQuery,
};
use cosmwasm_simulate::registry::{Registry, ReinstallPolicy};
use cosmwasm_simulate::storage::GasInfo;

fn world() -> Registry {
    let mut registry = Registry::new(ReinstallPolicy::Preserve);
    registry.install("addrB", "b", b"code of B".to_vec());
    registry
}

fn smart(addr: &str, msg: &[u8]) -> WasmQuery {
    WasmQuery::Smart { contract_addr: addr.to_string(), msg: msg.to_vec() }
}

#[test]
fn a_query_is_charged_the_flat_cost_and_one_response_byte() {
    assert_eq!(MyMockQuerier::gas_info(), GasInfo { cost: 0, externally_used: 100_100 });
}

#[test]
fn a_smart_query_goes_to_the_contract_it_names() {
    let registry = world();
    match query_call_back(&registry, &smart("addrB", b"{\"get\":{}}")) {
        QueryRoute::Contract { address, code, msg } => {
            assert_eq!(address, "addrB");
            assert_eq!(code, b"code of B".to_vec());
            assert_eq!(msg, b"{\"get\":{}}".to_vec());
        }
        other => panic!("unexpected: {:?}", other),
    }
}

#[test]
fn a_smart_query_to_an_unknown_contract_is_refused() {
    let registry = world();
    match query_call_back(&registry, &smart("addrZ", b"{}")) {
        QueryRoute::Refused(SystemError::NoSuchContract { addr }) => assert_eq!(addr, "addrZ"),
        other => panic!("unexpected: {:?}", other),
    }
}

#[test]
fn a_raw_query_is_refused_as_unknown() {
    let registry = world();
    let raw = WasmQuery::Raw { contract_addr: "addrB".to_string(), key: b"k".to_vec() };
    assert!(matches!(
        query_call_back(&registry, &raw),
        QueryRoute::Refused(SystemError::Unknown)
    ));
}

#[test]
fn the_default_call_back_supports_no_query_to_a_contract() {
    match default_call_back(&smart("addrB", b"{}")) {
        QueryRoute::Refused(SystemError::UnsupportedRequest { kind }) => {
            assert_eq!(kind, "Wasm query")
        }
        other => panic!("unexpected: {:?}", other),
    }
    let registry = world();
    let wasm = CustomizationWasmQuerier::default();
    assert!(matches!(
        wasm.query(&registry, &smart("addrB", b"{}")),
        QueryRoute::Refused(SystemError::UnsupportedRequest { .. })
    ));
    let wasm = CustomizationWasmQuerier::new(WasmPolicy::Dispatch);
    assert!(matches!(
        wasm.query(&registry, &smart("addrB", b"{}")),
        QueryRoute::Contract { .. }
    ));
}

#[test]
fn each_kind_of_query_has_its_route() {
    let registry = world();
    let querier = StdMockQuerier::new(WasmPolicy::Dispatch);
    assert!(matches!(querier.handle_query(&registry, &QueryRequest::Bank), QueryRoute::Bank));
    assert!(matches!(
        querier.handle_query(&registry, &QueryRequest::Staking),
        QueryRoute::Staking
    ));
    match querier.handle_query(&registry, &QueryRequest::Custom) {
        QueryRoute::Refused(SystemError::UnsupportedRequest { kind }) => assert_eq!(kind, "custom"),
        other => panic!("unexpected: {:?}", other),
    }
    assert!(matches!(
        querier.handle_query(&registry, &QueryRequest::Wasm(smart("addrB", b"1"))),
        QueryRoute::Contract { .. }
    ));
}

#[test]
fn raw_query_reads_the_request_from_its_text() {
    let registry = world();
    let querier = MyMockQuerier::new(WasmPolicy::Dispatch);
    // the payload travels as base64: "e30=" is "{}"
    let request = b"{\"wasm\":{\"smart\":{\"contract_addr\":\"addrB\",\"msg\":\"e30=\"}}}";
    let (route, gas) = querier.raw_query(&registry, request);
    assert_eq!(gas, GasInfo { cost: 0, externally_used: 100_100 });
    match route {
        QueryRoute::Contract { address, code, msg } => {
            assert_eq!(address, "addrB");
            assert_eq!(code, b"code of B".to_vec());
            assert_eq!(msg, b"{}".to_vec());
        }
        other => panic!("unexpected: {:?}", other),
    }
    let bank = b"{\"bank\":{\"all_balances\":{\"address\":\"someone\"}}}";
    assert!(matches!(querier.raw_query(&registry, bank).0, QueryRoute::Bank));
    let raw = b"{\"wasm\":{\"raw\":{\"contract_addr\":\"addrB\",\"key\":\"aw==\"}}}";
    assert!(matches!(
        querier.raw_query(&registry, raw).0,
        QueryRoute::Refused(SystemError::Unknown)
    ));
}

#[test]
fn raw_query_refuses_a_text_that_holds_no_request() {
    let registry = world();
    let querier = MyMockQuerier::new(WasmPolicy::Dispatch);
    match querier.raw_query(&registry, b"{\"nonsense\":1}").0 {
        QueryRoute::Refused(SystemError::InvalidRequest { error, request }) => {
            assert!(error.starts_with("Parsing query request: "));
            assert!(error.len() > "Parsing query request: ".len());
            assert_eq!(request, b"{\"nonsense\":1}".to_vec());
        }
        other => panic!("unexpected: {:?}", other),
    }
}

#[test]
fn route_reading_takes_what_reading_gave() {
    let registry = world();
    let querier = StdMockQuerier::new(WasmPolicy::Unsupported);
    match querier.route_reading(&registry, Err("bad".to_string()), b"xyz") {
        QueryRoute::Refused(SystemError::InvalidRequest { error, request }) => {
            assert_eq!(error, "Parsing query request: bad");
            assert_eq!(request, b"xyz".to_vec());
        }
        other => panic!("unexpected: {:?}", other),
    }
    assert!(matches!(
        querier.route_reading(&registry, Ok(QueryRequest::Wasm(smart("addrB", b""))), b""),
        QueryRoute::Refused(SystemError::UnsupportedRequest { .. })
    ));
}

#[test]
fn handle_query_refuses_a_request_that_could_not_be_written() {
    let registry = world();
    let querier = MyMockQuerier::new(WasmPolicy::Dispatch);
    let (route, gas) = querier.handle_query(&registry, Err("no text".to_string()));
    assert_eq!(gas, GasInfo { cost: 0, externally_used: 100_100 });
    match route {
        QueryRoute::Refused(SystemError::InvalidRequest { error, request }) => {
            assert_eq!(error, "Parsing query request: no text");
            assert_eq!(request, b"N/A".to_vec());
        }
        other => panic!("unexpected: {:?}", other),
    }
    let written = b"{\"wasm\":{\"smart\":{\"contract_addr\":\"addrB\",\"msg\":\"e30=\"}}}".to_vec();
    assert!(matches!(
        querier.handle_query(&registry, Ok(written)).0,
        QueryRoute::Contract { .. }
    ));
}

#[test]
fn update_balance_hands_back_no_former_balance() {
    let mut querier = MyMockQuerier::new(WasmPolicy::Dispatch);
    assert!(querier.update_balance("someone", vec![]).is_none());
    let mut inner = StdMockQuerier::new(WasmPolicy::Dispatch);
    assert!(inner.update_balance("someone", vec![]).is_none());
}
