//! The querier of a running contract: where each query that the contract
//! issues is sent.
//!
//! Queries to the bank and to the staking module are answered outside this
//! library; a query to another contract is resolved against the registry,
//! and is answered by running that contract's `query` entry point.

use crate::registry::{Registry, SlotView};
use crate::storage::GasInfo;
use vstd::prelude::*;
use vstd::slice::slice_to_vec;
use vstd::string::StringExecFns;

verus! {

/// Gas charged for any query.
pub const GAS_COST_QUERY_FLAT: u64 = 100_000;

/// Gas per request byte.
pub const GAS_COST_QUERY_REQUEST_MULTIPLIER: u64 = 0;

/// Gas per response byte.
pub const GAS_COST_QUERY_RESPONSE_MULTIPLIER: u64 = 100;

/// The request that stands for one that could not be written.
pub const UNWRITTEN_REQUEST: [u8; 3] = [78, 47, 65];

/// An amount of one denomination.
#[derive(Debug)]
pub struct Coin {
    pub denom: String,
    pub amount: u128,
}

/// A query to a contract.
#[derive(Debug)]
pub enum WasmQuery {
    /// Ask the contract at `contract_addr` through its `query` entry point.
    Smart { contract_addr: String, msg: Vec<u8> },
    /// Read the partition of the contract at `contract_addr`.
    Raw { contract_addr: String, key: Vec<u8> },
}

/// A query that a contract issues.
#[derive(Debug)]
pub enum QueryRequest {
    Bank,
    Custom,
    Staking,
    Wasm(WasmQuery),
}

/// A query, by its views.
pub ghost enum RequestView {
    Bank,
    Custom,
    Staking,
    Smart { contract_addr: Seq<char>, msg: Seq<u8> },
    Raw { contract_addr: Seq<char>, key: Seq<u8> },
}

impl View for WasmQuery {
    type V = RequestView;

    open spec fn view(&self) -> RequestView {
        match self {
            WasmQuery::Smart { contract_addr, msg } => RequestView::Smart {
                contract_addr: contract_addr@,
                msg: msg@,
            },
            WasmQuery::Raw { contract_addr, key } => RequestView::Raw {
                contract_addr: contract_addr@,
                key: key@,
            },
        }
    }
}

impl View for QueryRequest {
    type V = RequestView;

    open spec fn view(&self) -> RequestView {
        match self {
            QueryRequest::Bank => RequestView::Bank,
            QueryRequest::Custom => RequestView::Custom,
            QueryRequest::Staking => RequestView::Staking,
            QueryRequest::Wasm(q) => q@,
        }
    }
}

/// Why the system around a contract cannot answer a query.
#[derive(Debug)]
pub enum SystemError {
    InvalidRequest { error: String, request: Vec<u8> },
    NoSuchContract { addr: String },
    Unknown,
    UnsupportedRequest { kind: String },
}

/// A refusal, by its views.
pub ghost enum SystemErrorView {
    InvalidRequest { error: Seq<char>, request: Seq<u8> },
    NoSuchContract { addr: Seq<char> },
    Unknown,
    UnsupportedRequest { kind: Seq<char> },
}

impl View for SystemError {
    type V = SystemErrorView;

    open spec fn view(&self) -> SystemErrorView {
        match self {
            SystemError::InvalidRequest { error, request } => SystemErrorView::InvalidRequest {
                error: error@,
                request: request@,
            },
            SystemError::NoSuchContract { addr } => SystemErrorView::NoSuchContract { addr: addr@ },
            SystemError::Unknown => SystemErrorView::Unknown,
            SystemError::UnsupportedRequest { kind } => SystemErrorView::UnsupportedRequest {
                kind: kind@,
            },
        }
    }
}

/// Where a query is sent.
#[derive(Debug)]
pub enum QueryRoute {
    /// To the bank.
    Bank,
    /// To the staking module.
    Staking,
    /// To the `query` entry point of the contract at `address`, whose
    /// bytecode is `code`, with the payload `msg`.
    Contract { address: String, code: Vec<u8>, msg: Vec<u8> },
    /// Nowhere: the query is refused.
    Refused(SystemError),
}

/// A route, by its views.
pub ghost enum RouteView {
    Bank,
    Staking,
    Contract { address: Seq<char>, code: Seq<u8>, msg: Seq<u8> },
    Refused(SystemErrorView),
}

impl View for QueryRoute {
    type V = RouteView;

    open spec fn view(&self) -> RouteView {
        match self {
            QueryRoute::Bank => RouteView::Bank,
            QueryRoute::Staking => RouteView::Staking,
            QueryRoute::Contract { address, code, msg } => RouteView::Contract {
                address: address@,
                code: code@,
                msg: msg@,
            },
            QueryRoute::Refused(e) => RouteView::Refused(e@),
        }
    }
}

/// How queries to contracts are answered.
#[derive(Clone, Copy, Debug, PartialEq, Eq, Structural)]
pub enum WasmPolicy {
    /// They are refused as unsupported.
    Unsupported,
    /// They are resolved against the registry.
    Dispatch,
}

/// The request that `cosmwasm_std::from_slice` reads from a text, or the
/// words of its error where it refuses the text.
pub uninterp spec fn request_document(bin: Seq<u8>) -> Result<RequestView, Seq<char>>;

/// What reading a request gave, by its views.
pub open spec fn reading_view(r: Result<QueryRequest, String>) -> Result<RequestView, Seq<char>> {
    match r {
        Ok(request) => Ok(request@),
        Err(e) => Err(e@),
    }
}

/// Calls `cosmwasm_std::from_slice` for a `QueryRequest<Empty>` and tells
/// its variants apart; of a query to a contract the address and the
/// payload are kept. An error is given by its `to_string`.
#[verifier::external_body]
fn read_request(bin: &[u8]) -> (r: Result<QueryRequest, String>)
    ensures
        reading_view(r) == request_document(bin@),
{
    match cosmwasm_std::from_slice::<cosmwasm_std::QueryRequest<cosmwasm_std::Empty>>(bin) {
        Ok(cosmwasm_std::QueryRequest::Bank(_)) => Ok(QueryRequest::Bank),
        Ok(cosmwasm_std::QueryRequest::Custom(_)) => Ok(QueryRequest::Custom),
        Ok(cosmwasm_std::QueryRequest::Staking(_)) => Ok(QueryRequest::Staking),
        Ok(cosmwasm_std::QueryRequest::Wasm(cosmwasm_std::WasmQuery::Smart { contract_addr, msg })) =>
            Ok(QueryRequest::Wasm(WasmQuery::Smart { contract_addr: contract_addr.0, msg: msg.0 })),
        Ok(cosmwasm_std::QueryRequest::Wasm(cosmwasm_std::WasmQuery::Raw { contract_addr, key })) =>
            Ok(QueryRequest::Wasm(WasmQuery::Raw { contract_addr: contract_addr.0, key: key.0 })),
        Err(e) => Err(e.to_string()),
    }
}

/// The charge of a query: nothing for the call, and outside the machine the
/// flat cost, the cost of a request of two bytes, and the cost of a
/// response of one byte.
pub open spec fn query_gas() -> GasInfo {
    GasInfo {
        cost: 0,
        externally_used: (GAS_COST_QUERY_FLAT + GAS_COST_QUERY_REQUEST_MULTIPLIER * 2
            + GAS_COST_QUERY_RESPONSE_MULTIPLIER) as u64,
    }
}

/// Where a query to a contract is sent when such queries are resolved
/// against the registry: a smart query goes to the contract it names, and
/// is refused where none is installed there; any other query is refused.
pub open spec fn resolved(table: Map<Seq<char>, SlotView>, request: RequestView) -> RouteView {
    match request {
        RequestView::Smart { contract_addr, msg } => if table.contains_key(contract_addr) {
            RouteView::Contract { address: contract_addr, code: table[contract_addr].code, msg }
        } else {
            RouteView::Refused(SystemErrorView::NoSuchContract { addr: contract_addr })
        },
        _ => RouteView::Refused(SystemErrorView::Unknown),
    }
}

/// Where a query is sent: to the bank, to the staking module, or as the
/// policy for contracts says; a custom query is refused.
pub open spec fn routed(
    policy: WasmPolicy,
    table: Map<Seq<char>, SlotView>,
    request: RequestView,
) -> RouteView {
    match request {
        RequestView::Bank => RouteView::Bank,
        RequestView::Custom => RouteView::Refused(
            SystemErrorView::UnsupportedRequest { kind: "custom"@ },
        ),
        RequestView::Staking => RouteView::Staking,
        _ => match policy {
            WasmPolicy::Unsupported => RouteView::Refused(
                SystemErrorView::UnsupportedRequest { kind: "Wasm query"@ },
            ),
            WasmPolicy::Dispatch => resolved(table, request),
        },
    }
}

/// Where the query that a text holds is sent; a text that holds none is
/// refused as an invalid request.
pub open spec fn routed_text(
    policy: WasmPolicy,
    table: Map<Seq<char>, SlotView>,
    reading: Result<RequestView, Seq<char>>,
    bin: Seq<u8>,
) -> RouteView {
    match reading {
        Ok(request) => routed(policy, table, request),
        Err(e) => RouteView::Refused(
            SystemErrorView::InvalidRequest { error: "Parsing query request: "@ + e, request: bin },
        ),
    }
}

/// Where a query is sent whose text was to be written first: one that
/// could not be written is refused as an invalid request.
pub open spec fn routed_written(
    policy: WasmPolicy,
    table: Map<Seq<char>, SlotView>,
    written: Result<Seq<u8>, Seq<char>>,
) -> RouteView {
    match written {
        Ok(bin) => routed_text(policy, table, request_document(bin), bin),
        Err(e) => RouteView::Refused(
            SystemErrorView::InvalidRequest {
                error: "Parsing query request: "@ + e,
                request: UNWRITTEN_REQUEST@,
            },
        ),
    }
}

/// The answer to a query to a contract where such queries are not
/// supported.
pub fn default_call_back(request: &WasmQuery) -> (r: QueryRoute)
    ensures
        r@ == RouteView::Refused(SystemErrorView::UnsupportedRequest { kind: "Wasm query"@ }),
{
    QueryRoute::Refused(SystemError::UnsupportedRequest { kind: String::from_str("Wasm query") })
}

/// Resolves a query to a contract against the registry.
pub fn query_call_back(registry: &Registry, request: &WasmQuery) -> (r: QueryRoute)
    requires
        registry.wf(),
    ensures
        r@ == resolved(registry@, request@),
{
    match request {
        WasmQuery::Smart { contract_addr, msg } => match registry.instantiate(
            contract_addr.as_str(),
        ) {
            Ok(record) => QueryRoute::Contract {
                address: record.address,
                code: record.code,
                msg: slice_to_vec(msg.as_slice()),
            },
            Err(_) => QueryRoute::Refused(
                SystemError::NoSuchContract { addr: contract_addr.clone() },
            ),
        },
        _ => QueryRoute::Refused(SystemError::Unknown),
    }
}

/// The part of the querier that answers queries to contracts.
#[derive(Debug)]
pub struct CustomizationWasmQuerier {
    call_back: WasmPolicy,
}

impl CustomizationWasmQuerier {
    /// How queries to contracts are answered.
    pub closed spec fn policy(&self) -> WasmPolicy {
        self.call_back
    }

    /// A querier for contracts with the given policy.
    pub fn new(call_back: WasmPolicy) -> (r: Self)
        ensures
            r.policy() == call_back,
    {
        CustomizationWasmQuerier { call_back }
    }

    /// Answers a query to a contract as the policy says.
    pub fn query(&self, registry: &Registry, request: &WasmQuery) -> (r: QueryRoute)
        requires
            registry.wf(),
        ensures
            r@ == routed(self.policy(), registry@, request@),
    {
        match self.call_back {
            WasmPolicy::Unsupported => default_call_back(request),
            WasmPolicy::Dispatch => query_call_back(registry, request),
        }
    }
}

impl Default for CustomizationWasmQuerier {
    fn default() -> (r: Self)
        ensures
            r.policy() == WasmPolicy::Unsupported,
    {
        CustomizationWasmQuerier { call_back: WasmPolicy::Unsupported }
    }
}

/// The querier that sends each query where it belongs.
#[derive(Debug)]
pub struct StdMockQuerier {
    wasm: CustomizationWasmQuerier,
}

impl StdMockQuerier {
    /// How queries to contracts are answered.
    pub closed spec fn policy(&self) -> WasmPolicy {
        self.wasm.policy()
    }

    /// A querier that answers queries to contracts as `call_back` says.
    pub fn new(call_back: WasmPolicy) -> (r: Self)
        ensures
            r.policy() == call_back,
    {
        StdMockQuerier { wasm: CustomizationWasmQuerier::new(call_back) }
    }

    /// Sets the balance of an address. Balances are kept outside this
    /// querier: nothing changes, and no former balance is handed back.
    pub fn update_balance(&mut self, addr: &str, balance: Vec<Coin>) -> (r: Option<Vec<Coin>>)
        ensures
            r is None,
            final(self).policy() == old(self).policy(),
    {
        None
    }

    /// Says where a query is sent.
    pub fn handle_query(&self, registry: &Registry, request: &QueryRequest) -> (r: QueryRoute)
        requires
            registry.wf(),
        ensures
            r@ == routed(self.policy(), registry@, request@),
    {
        match request {
            QueryRequest::Bank => QueryRoute::Bank,
            QueryRequest::Custom => QueryRoute::Refused(
                SystemError::UnsupportedRequest { kind: String::from_str("custom") },
            ),
            QueryRequest::Staking => QueryRoute::Staking,
            QueryRequest::Wasm(q) => self.wasm.query(registry, q),
        }
    }

    /// Says where the query that was read from `bin_request` is sent;
    /// `reading` is what reading it gave.
    pub fn route_reading(
        &self,
        registry: &Registry,
        reading: Result<QueryRequest, String>,
        bin_request: &[u8],
    ) -> (r: QueryRoute)
        requires
            registry.wf(),
        ensures
            r@ == routed_text(self.policy(), registry@, reading_view(reading), bin_request@),
    {
        match reading {
            Ok(request) => self.handle_query(registry, &request),
            Err(e) => QueryRoute::Refused(
                SystemError::InvalidRequest {
                    error: String::from_str("Parsing query request: ").concat(e.as_str()),
                    request: slice_to_vec(bin_request),
                },
            ),
        }
    }

    /// Reads the query that a text holds and says where it is sent.
    pub fn raw_query(&self, registry: &Registry, bin_request: &[u8]) -> (r: QueryRoute)
        requires
            registry.wf(),
        ensures
            r@ == routed_text(
                self.policy(),
                registry@,
                request_document(bin_request@),
                bin_request@,
            ),
    {
        let reading = read_request(bin_request);
        self.route_reading(registry, reading, bin_request)
    }
}

/// The querier that a running contract is given.
#[derive(Debug)]
pub struct MyMockQuerier {
    querier: StdMockQuerier,
}

impl MyMockQuerier {
    /// How queries to contracts are answered.
    pub closed spec fn policy(&self) -> WasmPolicy {
        self.querier.policy()
    }

    /// A querier that answers queries to contracts as `call_back` says.
    pub fn new(call_back: WasmPolicy) -> (r: Self)
        ensures
            r.policy() == call_back,
    {
        MyMockQuerier { querier: StdMockQuerier::new(call_back) }
    }

    /// Sets the balance of an address; see [`StdMockQuerier::update_balance`].
    pub fn update_balance(&mut self, addr: &str, balance: Vec<Coin>) -> (r: Option<Vec<Coin>>)
        ensures
            r is None,
            final(self).policy() == old(self).policy(),
    {
        self.querier.update_balance(addr, balance)
    }

    /// The charge of a query.
    pub fn gas_info() -> (r: GasInfo)
        ensures
            r == query_gas(),
    {
        GasInfo {
            cost: 0,
            externally_used: GAS_COST_QUERY_FLAT + GAS_COST_QUERY_REQUEST_MULTIPLIER * 2
                + GAS_COST_QUERY_RESPONSE_MULTIPLIER,
        }
    }

    /// Reads the query that a text holds, and says where it is sent and
    /// what it is charged.
    pub fn raw_query(&self, registry: &Registry, bin_request: &[u8]) -> (r: (QueryRoute, GasInfo))
        requires
            registry.wf(),
        ensures
            r.0@ == routed_text(
                self.policy(),
                registry@,
                request_document(bin_request@),
                bin_request@,
            ),
            r.1 == query_gas(),
    {
        (self.querier.raw_query(registry, bin_request), MyMockQuerier::gas_info())
    }

    /// Says where a query is sent and what it is charged; `written` is the
    /// text of the query, or the words of the error with which writing it
    /// failed.
    pub fn handle_query(&self, registry: &Registry, written: Result<Vec<u8>, String>) -> (r: (
        QueryRoute,
        GasInfo,
    ))
        requires
            registry.wf(),
        ensures
            r.0@ == routed_written(
                self.policy(),
                registry@,
                match written {
                    Ok(bin) => Ok(bin@),
                    Err(e) => Err(e@),
                },
            ),
            r.1 == query_gas(),
    {
        match written {
            Ok(bin) => self.raw_query(registry, bin.as_slice()),
            Err(e) => {
                let request = slice_to_vec(UNWRITTEN_REQUEST.as_slice());
                (
                    QueryRoute::Refused(
                        SystemError::InvalidRequest {
                            error: String::from_str("Parsing query request: ").concat(e.as_str()),
                            request,
                        },
                    ),
                    MyMockQuerier::gas_info(),
                )
            },
        }
    }
}

} // verus!
