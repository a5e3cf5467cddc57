//! The contract instance and the course of one call.
//!
//! The virtual machine that runs a contract stands outside this library.
//! What the library decides is which invocation the machine is to make next
//! and what to make of its answer: [`ContractInstance::call`] starts a call,
//! and [`ContractInstance::resume`] takes each answer of the machine and
//! says what follows, until the call is finished.

use crate::analyzer::Analyzer;
use crate::dispatcher::{calls_of, outbound_views};
use crate::dispatcher::{CallView, Dispatcher, OutboundMsg, OutboundView};
use crate::messages::CallType;
use crate::registry::{installed, Registry, RegistryError, SlotView};
use crate::utils::{canonical_of, Utils};
use vstd::prelude::*;
use vstd::slice::slice_to_vec;
use vstd::string::StringExecFns;
use vstd::utf8::encode_utf8;

verus! {

/// The gas that a fresh instance is given.
pub const DEFAULT_GAS_LIMIT: u64 = 500_000;

/// The gas that an instance has left. It never grows.
#[derive(Debug)]
pub struct GasBudget {
    remaining: u64,
}

impl View for GasBudget {
    type V = u64;

    closed spec fn view(&self) -> u64 {
        self.remaining
    }
}

/// The machine reported more gas left than there was.
#[derive(Clone, Copy, Debug, PartialEq, Eq, Structural)]
pub struct GasExceeded {
    pub before: u64,
    pub after: u64,
}

impl GasBudget {
    /// A budget of `limit` units.
    pub fn new(limit: u64) -> (r: Self)
        ensures
            r@ == limit,
    {
        GasBudget { remaining: limit }
    }

    /// The gas that is left.
    pub fn remaining(&self) -> (r: u64)
        ensures
            r == self@,
    {
        self.remaining
    }

    /// Settles a call after which the machine reports `gas_after` units
    /// left, and gives the gas that the call used: what was left before,
    /// less what is left after. A report of more than was left is refused,
    /// and the budget stays as it was.
    pub fn settle(&mut self, gas_after: u64) -> (r: Result<u64, GasExceeded>)
        ensures
            match r {
                Ok(used) => gas_after <= old(self)@ && final(self)@ == gas_after && used == old(
                    self,
                )@ - final(self)@ && used >= 0,
                Err(e) => gas_after > old(self)@ && final(self)@ == old(self)@ && e == (
                GasExceeded { before: old(self)@, after: gas_after }),
            },
    {
        if gas_after <= self.remaining {
            let used = self.remaining - gas_after;
            self.remaining = gas_after;
            Ok(used)
        } else {
            Err(GasExceeded { before: self.remaining, after: gas_after })
        }
    }
}

/// What the machine answers to an invocation.
#[derive(Debug)]
pub enum VmOutcome {
    /// `init` succeeded.
    Init,
    /// `handle` succeeded, and answers with messages for other contracts.
    Handle { messages: Vec<OutboundMsg>, data: Option<Vec<u8>> },
    /// `query` succeeded, and answers with `response`.
    Query { response: Vec<u8> },
    /// The invocation failed: the machine trapped, the contract's answer
    /// could not be read, or the contract reported an error.
    Failed { reason: String },
}

/// An answer of the machine, by its views.
pub ghost enum OutcomeView {
    Init,
    Handle { messages: Seq<OutboundView>, data: Option<Seq<u8>> },
    Query { response: Seq<u8> },
    Failed { reason: Seq<char> },
}

impl View for VmOutcome {
    type V = OutcomeView;

    open spec fn view(&self) -> OutcomeView {
        match self {
            VmOutcome::Init => OutcomeView::Init,
            VmOutcome::Handle { messages, data } => OutcomeView::Handle {
                messages: outbound_views(messages@),
                data: crate::storage::value_view(*data),
            },
            VmOutcome::Query { response } => OutcomeView::Query { response: response@ },
            VmOutcome::Failed { reason } => OutcomeView::Failed { reason: reason@ },
        }
    }
}

/// An answer of the machine, with the gas that the instance has left
/// after it.
#[derive(Debug)]
pub struct VmEvent {
    pub outcome: VmOutcome,
    pub gas_left: u64,
}

/// What the machine is asked to do: run the entry point `entry` of the
/// contract at `address`, whose bytecode is `code`, for `sender` and with
/// `payload`. `contract` is the canonical form of `address`, where it has
/// one. `depth` is 0 for the call itself and counts the calls above a
/// nested one.
#[derive(Debug)]
pub struct Invocation {
    pub entry: CallType,
    pub address: String,
    pub contract: Option<Vec<u8>>,
    pub code: Vec<u8>,
    pub sender: String,
    pub payload: Vec<u8>,
    pub depth: usize,
}

/// An invocation, by its views.
pub ghost struct InvocationView {
    pub entry: CallType,
    pub address: Seq<char>,
    pub contract: Option<Seq<u8>>,
    pub code: Seq<u8>,
    pub sender: Seq<char>,
    pub payload: Seq<u8>,
    pub depth: nat,
}

impl View for Invocation {
    type V = InvocationView;

    open spec fn view(&self) -> InvocationView {
        InvocationView {
            entry: self.entry,
            address: self.address@,
            contract: crate::storage::value_view(self.contract),
            code: self.code@,
            sender: self.sender@,
            payload: self.payload@,
            depth: self.depth as nat,
        }
    }
}

/// Why a call failed.
#[derive(Debug)]
pub enum Failure {
    /// The machine or the contract failed, for the reason given.
    Vm { reason: String },
    /// No contract is installed at the address.
    NoSuchContract { address: String },
    /// A message asks for a call deeper than the instance allows.
    DepthExceeded,
    /// The machine's answer is none to the invocation it was asked for.
    Unexpected,
    /// The machine reported more gas left than there was.
    GasExceeded,
    /// A call was started while another was in progress.
    Busy,
}

/// A cause of failure, by its views.
pub ghost enum FailureView {
    Vm { reason: Seq<char> },
    NoSuchContract { address: Seq<char> },
    DepthExceeded,
    Unexpected,
    GasExceeded,
    Busy,
}

impl View for Failure {
    type V = FailureView;

    open spec fn view(&self) -> FailureView {
        match self {
            Failure::Vm { reason } => FailureView::Vm { reason: reason@ },
            Failure::NoSuchContract { address } => FailureView::NoSuchContract {
                address: address@,
            },
            Failure::DepthExceeded => FailureView::DepthExceeded,
            Failure::Unexpected => FailureView::Unexpected,
            Failure::GasExceeded => FailureView::GasExceeded,
            Failure::Busy => FailureView::Busy,
        }
    }
}

/// The failure of a call: the entry point that failed, why, and whether it
/// failed in a call nested below the one that was asked for.
#[derive(Debug)]
pub struct ExecutionError {
    pub call_type: CallType,
    pub cause: Failure,
    pub nested: bool,
}

/// A failure, by its views.
pub ghost struct ErrorView {
    pub call_type: CallType,
    pub cause: FailureView,
    pub nested: bool,
}

impl View for ExecutionError {
    type V = ErrorView;

    open spec fn view(&self) -> ErrorView {
        ErrorView { call_type: self.call_type, cause: self.cause@, nested: self.nested }
    }
}

/// How a call ended: with the data of its answer or with a failure, and
/// with the gas it used.
#[derive(Debug)]
pub struct CallReport {
    pub call_type: CallType,
    pub result: Result<Vec<u8>, ExecutionError>,
    pub gas_used: u64,
}

/// A report, by its views.
pub ghost struct ReportView {
    pub call_type: CallType,
    pub result: Result<Seq<u8>, ErrorView>,
    pub gas_used: u64,
}

impl View for CallReport {
    type V = ReportView;

    open spec fn view(&self) -> ReportView {
        ReportView {
            call_type: self.call_type,
            result: match self.result {
                Ok(data) => Ok(data@),
                Err(e) => Err(e@),
            },
            gas_used: self.gas_used,
        }
    }
}

/// What follows an answer of the machine.
#[derive(Debug)]
pub enum Action {
    /// The machine is to make this invocation, and its answer is to be
    /// handed to `resume`.
    Invoke(Invocation),
    /// The call is finished.
    Finish(CallReport),
    /// No call is in progress.
    Idle,
}

/// An action, by its views.
pub ghost enum ActionView {
    Invoke(InvocationView),
    Finish(ReportView),
    Idle,
}

impl View for Action {
    type V = ActionView;

    open spec fn view(&self) -> ActionView {
        match self {
            Action::Invoke(i) => ActionView::Invoke(i@),
            Action::Finish(r) => ActionView::Finish(r@),
            Action::Idle => ActionView::Idle,
        }
    }
}

/// Where an instance stands in the course of a call.
#[derive(Debug)]
pub enum Phase {
    /// Bound to its partition; no call is in progress.
    Bound,
    /// The machine runs the entry point that was called.
    Executing { entry: CallType },
    /// The machine runs `target` for a message of the call's answer, at
    /// `depth`; the call itself used `gas_used`.
    Dispatching { target: String, depth: usize, gas_used: u64 },
}

/// A phase, by its views.
pub ghost enum PhaseView {
    Bound,
    Executing { entry: CallType },
    Dispatching { target: Seq<char>, depth: nat, gas_used: u64 },
}

impl View for Phase {
    type V = PhaseView;

    open spec fn view(&self) -> PhaseView {
        match self {
            Phase::Bound => PhaseView::Bound,
            Phase::Executing { entry } => PhaseView::Executing { entry: *entry },
            Phase::Dispatching { target, depth, gas_used } => PhaseView::Dispatching {
                target: target@,
                depth: *depth as nat,
                gas_used: *gas_used,
            },
        }
    }
}

/// A contract bound to its address, with its gas and the state of the call
/// in progress.
#[derive(Debug)]
pub struct ContractInstance {
    wasm_file: String,
    analyzer: Analyzer,
    address: String,
    gas: GasBudget,
    phase: Phase,
    dispatcher: Dispatcher,
}

/// The state of an instance.
pub ghost struct InstanceView {
    pub wasm_file: Seq<char>,
    pub address: Seq<char>,
    pub gas: u64,
    pub phase: PhaseView,
    pub queue: Seq<CallView>,
    pub max_depth: usize,
}

/// The canonical form of a human address, where it has one.
pub open spec fn canonical_form(address: Seq<char>) -> Option<Seq<u8>> {
    match canonical_of(encode_utf8(address)) {
        Ok(bytes) => Some(bytes),
        Err(_) => None,
    }
}

/// The report of a call that succeeded.
pub open spec fn succeeded(call_type: CallType, data: Seq<u8>, gas_used: u64) -> ActionView {
    ActionView::Finish(ReportView { call_type, result: Ok(data), gas_used })
}

/// The report of a call that failed.
pub open spec fn failed(call_type: CallType, cause: FailureView, nested: bool, gas_used: u64) -> ActionView {
    ActionView::Finish(
        ReportView { call_type, result: Err(ErrorView { call_type, cause, nested }), gas_used },
    )
}

/// The instance at rest: bound, with nothing pending.
pub open spec fn at_rest(s: InstanceView) -> InstanceView {
    InstanceView { phase: PhaseView::Bound, queue: Seq::empty(), ..s }
}

/// What follows when the entry point `call_type` of an instance is called
/// for `sender` with `payload`: the machine is to run the contract's
/// bytecode as the registry holds it. A call while another is in progress,
/// or of an instance whose contract the registry does not hold, fails and
/// changes nothing.
pub open spec fn started(
    s: InstanceView,
    table: Map<Seq<char>, SlotView>,
    call_type: CallType,
    sender: Seq<char>,
    payload: Seq<u8>,
) -> (InstanceView, ActionView) {
    if !(s.phase is Bound) {
        (s, failed(call_type, FailureView::Busy, false, 0))
    } else if !table.contains_key(s.address) {
        (s, failed(call_type, FailureView::NoSuchContract { address: s.address }, false, 0))
    } else {
        (
            InstanceView { phase: PhaseView::Executing { entry: call_type }, ..s },
            ActionView::Invoke(
                InvocationView {
                    entry: call_type,
                    address: s.address,
                    contract: canonical_form(s.address),
                    code: table[s.address].code,
                    sender,
                    payload,
                    depth: 0,
                },
            ),
        )
    }
}

/// What follows when the pending calls of a `handle` call are gone through:
/// the first of them is made next; with none left the call has succeeded.
/// A call to an address without a contract fails the whole call.
pub open spec fn proceeded(s: InstanceView, table: Map<Seq<char>, SlotView>, gas_used: u64) -> (
    InstanceView,
    ActionView,
) {
    if s.queue.len() == 0 {
        (at_rest(s), succeeded(CallType::Handle, Seq::empty(), gas_used))
    } else {
        let next = s.queue[0];
        if table.contains_key(next.target) {
            (
                InstanceView {
                    phase: PhaseView::Dispatching {
                        target: next.target,
                        depth: next.depth,
                        gas_used,
                    },
                    queue: s.queue.subrange(1, s.queue.len() as int),
                    ..s
                },
                ActionView::Invoke(
                    InvocationView {
                        entry: CallType::Handle,
                        address: next.target,
                        contract: canonical_form(next.target),
                        code: table[next.target].code,
                        sender: next.sender,
                        payload: next.payload,
                        depth: next.depth,
                    },
                ),
            )
        } else {
            (
                at_rest(s),
                failed(
                    CallType::Handle,
                    FailureView::NoSuchContract { address: next.target },
                    true,
                    gas_used,
                ),
            )
        }
    }
}

/// What follows when the messages `messages` of an answer that `sender`
/// gave at `depth` are taken in: they are refused where they ask for a
/// call deeper than the instance allows; else the calls they ask for are
/// put ahead of all that is pending, and the next pending call is made.
pub open spec fn dispatched(
    s: InstanceView,
    table: Map<Seq<char>, SlotView>,
    sender: Seq<char>,
    depth: nat,
    messages: Seq<OutboundView>,
    gas_used: u64,
) -> (InstanceView, ActionView) {
    if depth >= s.max_depth && exists|i: int| 0 <= i < messages.len() && messages[i] is Execute {
        (at_rest(s), failed(CallType::Handle, FailureView::DepthExceeded, true, gas_used))
    } else {
        proceeded(
            InstanceView { queue: calls_of(sender, depth + 1, messages) + s.queue, ..s },
            table,
            gas_used,
        )
    }
}

/// What follows an answer of the machine.
///
/// While the entry point that was called runs, the answer settles the gas:
/// the call used what was left before less what is left after. A failure
/// ends the call; so does the success of `init` and of `query`. The
/// success of `handle` hands the answer's messages to the dispatcher.
///
/// While a nested call runs, a failure ends the whole call at once, and
/// whatever was pending is dropped; a success hands the nested answer's
/// messages to the dispatcher, ahead of all that is pending.
pub open spec fn resumed(
    s: InstanceView,
    table: Map<Seq<char>, SlotView>,
    outcome: OutcomeView,
    gas_left: u64,
) -> (InstanceView, ActionView) {
    match s.phase {
        PhaseView::Bound => (s, ActionView::Idle),
        PhaseView::Executing { entry } => {
            if gas_left > s.gas {
                (at_rest(s), failed(entry, FailureView::GasExceeded, false, 0))
            } else {
                let used = (s.gas - gas_left) as u64;
                let t = InstanceView { gas: gas_left, ..s };
                match outcome {
                    OutcomeView::Failed { reason } => (
                        at_rest(t),
                        failed(entry, FailureView::Vm { reason }, false, used),
                    ),
                    OutcomeView::Init => if entry == CallType::Init {
                        (at_rest(t), succeeded(entry, Seq::empty(), used))
                    } else {
                        (at_rest(t), failed(entry, FailureView::Unexpected, false, used))
                    },
                    OutcomeView::Query { response } => if entry == CallType::Query {
                        (at_rest(t), succeeded(entry, response, used))
                    } else {
                        (at_rest(t), failed(entry, FailureView::Unexpected, false, used))
                    },
                    OutcomeView::Handle { messages, data } => if entry == CallType::Handle {
                        dispatched(
                            InstanceView { queue: Seq::empty(), ..t },
                            table,
                            t.address,
                            0,
                            messages,
                            used,
                        )
                    } else {
                        (at_rest(t), failed(entry, FailureView::Unexpected, false, used))
                    },
                }
            }
        },
        PhaseView::Dispatching { target, depth, gas_used } => match outcome {
            OutcomeView::Handle { messages, data } => dispatched(
                s,
                table,
                target,
                depth,
                messages,
                gas_used,
            ),
            OutcomeView::Failed { reason } => (
                at_rest(s),
                failed(CallType::Handle, FailureView::Vm { reason }, true, gas_used),
            ),
            _ => (at_rest(s), failed(CallType::Handle, FailureView::Unexpected, true, gas_used)),
        },
    }
}

/// The invocation that makes a pending call.
pub open spec fn invocation_of(call: CallView, table: Map<Seq<char>, SlotView>) -> ActionView {
    ActionView::Invoke(
        InvocationView {
            entry: CallType::Handle,
            address: call.target,
            contract: canonical_form(call.target),
            code: table[call.target].code,
            sender: call.sender,
            payload: call.payload,
            depth: call.depth,
        },
    )
}

/// Gas accounting: whatever the machine answers while the entry point that
/// was called runs, the gas left does not grow, and the gas that the call
/// is charged with is what was left before less what is left after. The
/// nested calls that follow change neither.
pub proof fn lemma_gas_accounting(
    s: InstanceView,
    table: Map<Seq<char>, SlotView>,
    outcome: OutcomeView,
    gas_left: u64,
)
    ensures
        ({
            let (t, action) = resumed(s, table, outcome, gas_left);
            &&& t.gas <= s.gas
            &&& s.phase is Executing ==> {
                &&& action matches ActionView::Finish(report) ==> report.gas_used == s.gas - t.gas
                    && report.gas_used >= 0
                &&& t.phase matches PhaseView::Dispatching { gas_used, .. } ==> gas_used == s.gas
                    - t.gas
            }
            &&& s.phase matches PhaseView::Dispatching { gas_used, .. } ==> {
                &&& t.gas == s.gas
                &&& action matches ActionView::Finish(report) ==> report.gas_used == gas_used
                &&& t.phase matches PhaseView::Dispatching { gas_used: kept, .. } ==> kept
                    == gas_used
            }
        }),
{
}

/// A failure of a nested call ends the whole call at once: the call is
/// reported as failed, and nothing that was pending is made.
pub proof fn lemma_failure_short_circuits(
    s: InstanceView,
    table: Map<Seq<char>, SlotView>,
    reason: Seq<char>,
    gas_left: u64,
)
    requires
        s.phase is Dispatching,
    ensures
        ({
            let (t, action) = resumed(s, table, OutcomeView::Failed { reason }, gas_left);
            &&& t.phase is Bound
            &&& t.queue.len() == 0
            &&& action matches ActionView::Finish(report) && report.result is Err
        }),
{
}

impl View for ContractInstance {
    type V = InstanceView;

    closed spec fn view(&self) -> InstanceView {
        InstanceView {
            wasm_file: self.wasm_file@,
            address: self.address@,
            gas: self.gas@,
            phase: self.phase@,
            queue: self.dispatcher@,
            max_depth: self.dispatcher.max_depth(),
        }
    }
}

/// Hands the messages of an answer to the dispatcher of `instance`, and has
/// the next pending call made. `caller` gave the answer at `depth`, so the
/// calls that its messages ask for are made on its behalf, one deeper, and
/// ahead of all that is pending. `gas_used` is what the call that started
/// the dispatch was charged.
pub fn handler_resp(
    instance: &mut ContractInstance,
    registry: &Registry,
    messages: &Vec<OutboundMsg>,
    caller: &str,
    depth: usize,
    gas_used: u64,
) -> (r: Action)
    requires
        registry.wf(),
    ensures
        (final(instance)@, r@) == dispatched(
            old(instance)@,
            registry@,
            caller@,
            depth as nat,
            outbound_views(messages@),
            gas_used,
        ),
        final(instance).tables() == old(instance).tables(),
{
    match instance.dispatcher.enqueue(caller, depth, messages) {
        Ok(_) => instance.proceed(registry, gas_used),
        Err(_) => instance.fail(CallType::Handle, Failure::DepthExceeded, true, gas_used),
    }
}

/// The canonical form of a human address, where it has one.
fn canonical(address: &str) -> (r: Option<Vec<u8>>)
    ensures
        crate::storage::value_view(r) == canonical_form(address@),
{
    match Utils::canonical_address(address) {
        Ok(bytes) => Some(bytes),
        Err(_) => None,
    }
}

impl CallReport {
    /// The words with which a call's end is announced: one phrase for every
    /// success, and for a failure a phrase that depends on the entry point.
    pub fn marker(&self) -> (r: &'static str)
        ensures
            r@ == match (self@.result, self@.call_type) {
                (Ok(_), _) => "Execute Success"@,
                (Err(_), CallType::Init) => "ERROR      :execute init failed"@,
                (Err(_), _) => "ERROR      :execute query failed"@,
            },
    {
        match (&self.result, self.call_type) {
            (Ok(_), _) => "Execute Success",
            (Err(_), CallType::Init) => "ERROR      :execute init failed",
            (Err(_), _) => "ERROR      :execute query failed",
        }
    }
}

impl ContractInstance {
    /// Binds a contract to `contract_addr`: installs its bytecode `code`
    /// in the registry, under the address as its name, and makes an
    /// instance of it with `gas_limit` units of gas, whose nested calls go
    /// no deeper than `max_depth`.
    pub fn new_instance(
        wasm_file: &str,
        contract_addr: &str,
        code: Vec<u8>,
        registry: &mut Registry,
        gas_limit: u64,
        max_depth: usize,
    ) -> (r: Self)
        requires
            old(registry).wf(),
        ensures
            final(registry).wf(),
            final(registry).policy() == old(registry).policy(),
            final(registry)@ == installed(
                old(registry)@,
                old(registry).policy(),
                contract_addr@,
                contract_addr@,
                code@,
            ),
            r.tables().wf(),
            r.tables()@ == Analyzer::default_view(),
            r@ == (InstanceView {
                wasm_file: wasm_file@,
                address: contract_addr@,
                gas: gas_limit,
                phase: PhaseView::Bound,
                queue: Seq::empty(),
                max_depth,
            }),
    {
        registry.install(contract_addr, contract_addr, code);
        ContractInstance {
            wasm_file: String::from_str(wasm_file),
            analyzer: Analyzer::default(),
            address: String::from_str(contract_addr),
            gas: GasBudget::new(gas_limit),
            phase: Phase::Bound,
            dispatcher: Dispatcher::new(max_depth),
        }
    }

    /// An instance of the contract installed at `address`, bound to the
    /// partition that the registry holds for it.
    pub fn instantiate(registry: &Registry, address: &str, gas_limit: u64, max_depth: usize) -> (r:
        Result<Self, RegistryError>)
        requires
            registry.wf(),
        ensures
            match r {
                Ok(instance) => registry@.contains_key(address@) && instance.tables().wf()
                    && instance.tables()@ == Analyzer::default_view() && instance@ == (
                InstanceView {
                    wasm_file: registry@[address@].name,
                    address: address@,
                    gas: gas_limit,
                    phase: PhaseView::Bound,
                    queue: Seq::empty(),
                    max_depth,
                }),
                Err(RegistryError::NotFound { address: a }) => !registry@.contains_key(address@)
                    && a@ == address@,
            },
    {
        match registry.instantiate(address) {
            Ok(record) => Ok(
                ContractInstance {
                    wasm_file: record.name,
                    analyzer: Analyzer::default(),
                    address: record.address,
                    gas: GasBudget::new(gas_limit),
                    phase: Phase::Bound,
                    dispatcher: Dispatcher::new(max_depth),
                },
            ),
            Err(e) => Err(e),
        }
    }

    /// The schema tables of the instance.
    pub closed spec fn tables(&self) -> Analyzer {
        self.analyzer
    }

    /// The schema tables of the instance.
    pub fn analyzer(&self) -> (r: &Analyzer)
        ensures
            *r == self.tables(),
    {
        &self.analyzer
    }

    /// Reads the text of a schema document into the instance's tables.
    pub fn load_schema(&mut self, data: &[u8]) -> (r: bool)
        requires
            old(self).tables().wf(),
        ensures
            final(self)@ == old(self)@,
            final(self).tables().wf(),
            match crate::analyzer::analyzed_text(
                crate::json::json_document(data@),
                old(self).tables()@,
            ) {
                Some(v) => r && final(self).tables()@ == v,
                None => !r && final(self).tables()@ == old(self).tables()@,
            },
    {
        self.analyzer.analyze_schema(data)
    }

    /// The path of the bytecode file that the instance was made from.
    pub fn wasm_file(&self) -> (r: &String)
        ensures
            r@ == self@.wasm_file,
    {
        &self.wasm_file
    }

    /// The address that the instance is bound to.
    pub fn address(&self) -> (r: &String)
        ensures
            r@ == self@.address,
    {
        &self.address
    }

    /// The gas that the instance has left.
    pub fn gas_left(&self) -> (r: u64)
        ensures
            r == self@.gas,
    {
        self.gas.remaining()
    }

    /// Whether no call is in progress.
    pub fn is_bound(&self) -> (r: bool)
        ensures
            r == (self@.phase is Bound),
    {
        match self.phase {
            Phase::Bound => true,
            _ => false,
        }
    }

    /// Starts a call of the entry point `call_type` for `sender` with
    /// `payload`, and says what the machine is to do.
    pub fn call(&mut self, registry: &Registry, sender: &str, call_type: CallType, payload: &[u8]) -> (r:
        Action)
        requires
            registry.wf(),
        ensures
            (final(self)@, r@) == started(old(self)@, registry@, call_type, sender@, payload@),
            final(self).tables() == old(self).tables(),
    {
        if !self.is_bound() {
            return Action::Finish(
                CallReport {
                    call_type,
                    result: Err(ExecutionError { call_type, cause: Failure::Busy, nested: false }),
                    gas_used: 0,
                },
            );
        }
        match registry.instantiate(self.address.as_str()) {
            Ok(record) => {
                self.phase = Phase::Executing { entry: call_type };
                Action::Invoke(
                    Invocation {
                        entry: call_type,
                        contract: canonical(record.address.as_str()),
                        address: record.address,
                        code: record.code,
                        sender: String::from_str(sender),
                        payload: slice_to_vec(payload),
                        depth: 0,
                    },
                )
            },
            Err(_) => Action::Finish(
                CallReport {
                    call_type,
                    result: Err(
                        ExecutionError {
                            call_type,
                            cause: Failure::NoSuchContract { address: self.address.clone() },
                            nested: false,
                        },
                    ),
                    gas_used: 0,
                },
            ),
        }
    }

    /// Ends the call in progress with a failure.
    fn fail(&mut self, call_type: CallType, cause: Failure, nested: bool, gas_used: u64) -> (r:
        Action)
        ensures
            final(self)@ == at_rest(old(self)@),
            r@ == failed(call_type, cause@, nested, gas_used),
            final(self).tables() == old(self).tables(),
    {
        self.dispatcher.clear();
        self.phase = Phase::Bound;
        Action::Finish(
            CallReport {
                call_type,
                result: Err(ExecutionError { call_type, cause, nested }),
                gas_used,
            },
        )
    }

    /// Ends the call in progress with a success.
    fn succeed(&mut self, call_type: CallType, data: Vec<u8>, gas_used: u64) -> (r: Action)
        ensures
            final(self)@ == at_rest(old(self)@),
            r@ == succeeded(call_type, data@, gas_used),
            final(self).tables() == old(self).tables(),
    {
        self.dispatcher.clear();
        self.phase = Phase::Bound;
        Action::Finish(CallReport { call_type, result: Ok(data), gas_used })
    }

    /// Makes the next pending call, or ends the call where none is left.
    fn proceed(&mut self, registry: &Registry, gas_used: u64) -> (r: Action)
        requires
            registry.wf(),
        ensures
            (final(self)@, r@) == proceeded(old(self)@, registry@, gas_used),
            final(self).tables() == old(self).tables(),
    {
        match self.dispatcher.pop() {
            None => self.succeed(CallType::Handle, Vec::new(), gas_used),
            Some(next) => match registry.instantiate(next.target.as_str()) {
                Ok(record) => {
                    self.phase = Phase::Dispatching {
                        target: record.address,
                        depth: next.depth,
                        gas_used,
                    };
                    Action::Invoke(
                        Invocation {
                            entry: CallType::Handle,
                            contract: canonical(next.target.as_str()),
                            address: next.target,
                            code: record.code,
                            sender: next.sender,
                            payload: next.payload,
                            depth: next.depth,
                        },
                    )
                },
                Err(_) => self.fail(
                    CallType::Handle,
                    Failure::NoSuchContract { address: next.target },
                    true,
                    gas_used,
                ),
            },
        }
    }

    /// Takes an answer of the machine and says what follows.
    pub fn resume(&mut self, registry: &Registry, event: VmEvent) -> (r: Action)
        requires
            registry.wf(),
        ensures
            (final(self)@, r@) == resumed(old(self)@, registry@, event.outcome@, event.gas_left),
            final(self).tables() == old(self).tables(),
    {
        let VmEvent { outcome, gas_left } = event;
        match &self.phase {
            Phase::Bound => Action::Idle,
            Phase::Executing { entry } => {
                let entry = *entry;
                let used = match self.gas.settle(gas_left) {
                    Ok(used) => used,
                    Err(_) => {
                        return self.fail(entry, Failure::GasExceeded, false, 0);
                    },
                };
                match outcome {
                    VmOutcome::Failed { reason } => self.fail(
                        entry,
                        Failure::Vm { reason },
                        false,
                        used,
                    ),
                    VmOutcome::Init => match entry {
                        CallType::Init => self.succeed(entry, Vec::new(), used),
                        _ => self.fail(entry, Failure::Unexpected, false, used),
                    },
                    VmOutcome::Query { response } => match entry {
                        CallType::Query => self.succeed(entry, response, used),
                        _ => self.fail(entry, Failure::Unexpected, false, used),
                    },
                    VmOutcome::Handle { messages, data } => match entry {
                        CallType::Handle => {
                            self.dispatcher.clear();
                            let sender = self.address.clone();
                            handler_resp(self, registry, &messages, sender.as_str(), 0, used)
                        },
                        _ => self.fail(entry, Failure::Unexpected, false, used),
                    },
                }
            },
            Phase::Dispatching { target, depth, gas_used } => {
                let depth = *depth;
                let gas_used = *gas_used;
                match outcome {
                    VmOutcome::Handle { messages, data } => {
                        let sender = target.clone();
                        handler_resp(self, registry, &messages, sender.as_str(), depth, gas_used)
                    },
                    VmOutcome::Failed { reason } => self.fail(
                        CallType::Handle,
                        Failure::Vm { reason },
                        true,
                        gas_used,
                    ),
                    _ => self.fail(CallType::Handle, Failure::Unexpected, true, gas_used),
                }
            },
        }
    }
}

} // verus!
