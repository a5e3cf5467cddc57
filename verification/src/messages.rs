//! The messages of a batch: what is called, for whom, and with which payload.
//!
//! A batch is a JSON document with a `messages` array. Each element becomes
//! one [`Message`], which is held to the rules of its call type before it is
//! accepted.

use crate::json::{json_document, json_text, JsonValue};
use crate::text::{str_eq, strip_quotes, without_quotes};
use vstd::prelude::*;
use vstd::string::StringExecFns;

verus! {

/// The three entry points of a contract.
#[derive(Clone, Copy, Debug, PartialEq, Eq, Structural)]
pub enum CallType {
    Init,
    Handle,
    Query,
}

/// One call of a batch.
#[derive(Debug)]
pub struct Message {
    pub contract_addr: String,
    pub wasm_file: String,
    pub call_type: String,
    pub sender: String,
    pub message: String,
}

/// A message, each field taken by its characters.
pub ghost struct MessageView {
    pub contract_addr: Seq<char>,
    pub wasm_file: Seq<char>,
    pub call_type: Seq<char>,
    pub sender: Seq<char>,
    pub message: Seq<char>,
}

/// Why a message is refused.
#[derive(Debug)]
pub enum MessageError {
    /// An `init` message names no bytecode file; holds the payload.
    MissingWasmFile { message: String },
    /// A message names no contract address; holds the payload.
    MissingContractAddr { message: String },
    /// A `handle` message names no sender; holds the payload.
    MissingSender { message: String },
    /// The call type is none of `init`, `handle` and `query`; holds it.
    IncorrectType { call_type: String },
}

/// A refusal, its text taken by its characters.
pub ghost enum MessageErrorView {
    MissingWasmFile { message: Seq<char> },
    MissingContractAddr { message: Seq<char> },
    MissingSender { message: Seq<char> },
    IncorrectType { call_type: Seq<char> },
}

impl View for Message {
    type V = MessageView;

    open spec fn view(&self) -> MessageView {
        MessageView {
            contract_addr: self.contract_addr@,
            wasm_file: self.wasm_file@,
            call_type: self.call_type@,
            sender: self.sender@,
            message: self.message@,
        }
    }
}

impl View for MessageError {
    type V = MessageErrorView;

    open spec fn view(&self) -> MessageErrorView {
        match self {
            MessageError::MissingWasmFile { message } => MessageErrorView::MissingWasmFile {
                message: message@,
            },
            MessageError::MissingContractAddr { message } => MessageErrorView::MissingContractAddr {
                message: message@,
            },
            MessageError::MissingSender { message } => MessageErrorView::MissingSender {
                message: message@,
            },
            MessageError::IncorrectType { call_type } => MessageErrorView::IncorrectType {
                call_type: call_type@,
            },
        }
    }
}

/// The call type that a name stands for.
pub open spec fn call_type_of(name: Seq<char>) -> Option<CallType> {
    if name == "init"@ {
        Some(CallType::Init)
    } else if name == "handle"@ {
        Some(CallType::Handle)
    } else if name == "query"@ {
        Some(CallType::Query)
    } else {
        None
    }
}

/// The rules of a message: `init` needs a bytecode file and a contract
/// address, `handle` a sender and a contract address, `query` a contract
/// address; any other call type is refused.
pub open spec fn checked(m: MessageView) -> Result<CallType, MessageErrorView> {
    match call_type_of(m.call_type) {
        Some(CallType::Init) => if m.wasm_file.len() == 0 {
            Err(MessageErrorView::MissingWasmFile { message: m.message })
        } else if m.contract_addr.len() == 0 {
            Err(MessageErrorView::MissingContractAddr { message: m.message })
        } else {
            Ok(CallType::Init)
        },
        Some(CallType::Handle) => if m.sender.len() == 0 {
            Err(MessageErrorView::MissingSender { message: m.message })
        } else if m.contract_addr.len() == 0 {
            Err(MessageErrorView::MissingContractAddr { message: m.message })
        } else {
            Ok(CallType::Handle)
        },
        Some(CallType::Query) => if m.contract_addr.len() == 0 {
            Err(MessageErrorView::MissingContractAddr { message: m.message })
        } else {
            Ok(CallType::Query)
        },
        None => Err(MessageErrorView::IncorrectType { call_type: m.call_type }),
    }
}

/// The message that five texts of a batch element make: the payload as it
/// is, the other four without their quotes.
pub open spec fn message_of_texts(
    call_type: Seq<char>,
    sender: Seq<char>,
    message: Seq<char>,
    wasm_file: Seq<char>,
    contract_addr: Seq<char>,
) -> MessageView {
    MessageView {
        contract_addr: without_quotes(contract_addr),
        wasm_file: without_quotes(wasm_file),
        call_type: without_quotes(call_type),
        sender: without_quotes(sender),
        message,
    }
}

/// The JSON text of the member `key` of a batch element; empty where the
/// element has no such member.
pub open spec fn field_text(item: JsonValue, key: Seq<char>) -> Seq<char> {
    match item.spec_get(key) {
        Some(v) => json_text(v),
        None => Seq::empty(),
    }
}

/// The message that a batch element describes.
pub open spec fn item_message(item: JsonValue) -> MessageView {
    message_of_texts(
        field_text(item, "type"@),
        field_text(item, "sender"@),
        field_text(item, "message"@),
        field_text(item, "wasm_file"@),
        field_text(item, "contract_addr"@),
    )
}

/// The messages of the elements from position `i` on. Reading stops at the
/// first element that is no object; the first element that breaks a rule
/// fails the batch.
pub open spec fn batch_from(items: Seq<JsonValue>, i: int) -> Result<
    Seq<MessageView>,
    MessageErrorView,
>
    decreases items.len() - i,
{
    if i < 0 || i >= items.len() {
        Ok(Seq::empty())
    } else if items[i].spec_as_object() is None {
        Ok(Seq::empty())
    } else {
        match checked(item_message(items[i])) {
            Err(e) => Err(e),
            Ok(_) => match batch_from(items, i + 1) {
                Ok(rest) => Ok(seq![item_message(items[i])] + rest),
                Err(e) => Err(e),
            },
        }
    }
}

/// The messages of a batch document: those of its `messages` array. A
/// document that is no object, or has no such array, holds none.
pub open spec fn batch_of(doc: JsonValue) -> Result<Seq<MessageView>, MessageErrorView> {
    match doc.spec_get("messages"@) {
        Some(list) => match list.spec_as_array() {
            Some(items) => batch_from(items, 0),
            None => Ok(Seq::empty()),
        },
        None => Ok(Seq::empty()),
    }
}

/// The messages of a batch text; a text that is no JSON holds none.
pub open spec fn batch_of_text(doc: Option<JsonValue>) -> Result<
    Seq<MessageView>,
    MessageErrorView,
> {
    match doc {
        Some(d) => batch_of(d),
        None => Ok(Seq::empty()),
    }
}

/// Each message of a list, by its view.
pub open spec fn message_views(v: Seq<Message>) -> Seq<MessageView> {
    v.map_values(|m: Message| m@)
}

/// What reading a batch gave, by its view.
pub open spec fn batch_view(r: Result<Vec<Message>, MessageError>) -> Result<
    Seq<MessageView>,
    MessageErrorView,
> {
    match r {
        Ok(v) => Ok(message_views(v@)),
        Err(e) => Err(e@),
    }
}

impl CallType {
    /// The call type that `name` stands for.
    pub fn from_name(name: &str) -> (r: Option<CallType>)
        ensures
            r == call_type_of(name@),
    {
        if str_eq(name, "init") {
            Some(CallType::Init)
        } else if str_eq(name, "handle") {
            Some(CallType::Handle)
        } else if str_eq(name, "query") {
            Some(CallType::Query)
        } else {
            None
        }
    }

    /// The name of the call type.
    pub fn name(&self) -> (r: &'static str)
        ensures
            call_type_of(r@) == Some(*self),
    {
        proof {
            reveal_strlit("init");
            reveal_strlit("handle");
            reveal_strlit("query");
            assert("init"@.len() == 4);
            assert("handle"@.len() == 6);
            assert("query"@.len() == 5);
        }
        match self {
            CallType::Init => "init",
            CallType::Handle => "handle",
            CallType::Query => "query",
        }
    }
}

impl MessageError {
    /// The refusal in words.
    pub fn describe(&self) -> (r: String)
        ensures
            r@ == match self@ {
                MessageErrorView::MissingWasmFile { message } => "A wasm file is expected for "@
                    + message,
                MessageErrorView::MissingContractAddr { message } =>
                    "A contract address is expected for "@ + message,
                MessageErrorView::MissingSender { message } => "A sender address is expected for "@
                    + message,
                MessageErrorView::IncorrectType { call_type } => "Incorrect type: "@ + call_type
                    + "!. Only [query | init | handle] is expected."@,
            },
    {
        match self {
            MessageError::MissingWasmFile { message } => String::from_str(
                "A wasm file is expected for ",
            ).concat(message.as_str()),
            MessageError::MissingContractAddr { message } => String::from_str(
                "A contract address is expected for ",
            ).concat(message.as_str()),
            MessageError::MissingSender { message } => String::from_str(
                "A sender address is expected for ",
            ).concat(message.as_str()),
            MessageError::IncorrectType { call_type } => String::from_str("Incorrect type: ").concat(
                call_type.as_str(),
            ).concat("!. Only [query | init | handle] is expected."),
        }
    }
}

impl Message {
    /// A message with every field empty.
    pub fn default() -> (r: Self)
        ensures
            r@ == (MessageView {
                contract_addr: Seq::empty(),
                wasm_file: Seq::empty(),
                call_type: Seq::empty(),
                sender: Seq::empty(),
                message: Seq::empty(),
            }),
    {
        Message {
            contract_addr: String::new(),
            wasm_file: String::new(),
            call_type: String::new(),
            sender: String::new(),
            message: String::new(),
        }
    }

    /// A message of the given fields, as they are.
    pub fn new(
        call_type: String,
        sender: String,
        message: String,
        wasm_file: String,
        contract_addr: String,
    ) -> (r: Message)
        ensures
            r@ == (MessageView {
                contract_addr: contract_addr@,
                wasm_file: wasm_file@,
                call_type: call_type@,
                sender: sender@,
                message: message@,
            }),
    {
        Message { wasm_file, contract_addr, call_type, sender, message }
    }

    /// The entry point that the message calls, where its call type is one.
    pub fn kind(&self) -> (r: Option<CallType>)
        ensures
            r == call_type_of(self@.call_type),
    {
        CallType::from_name(self.call_type.as_str())
    }

    /// Holds the message to the rules of its call type.
    pub fn validate(&self) -> (r: Result<CallType, MessageError>)
        ensures
            match r {
                Ok(k) => checked(self@) == Ok::<CallType, MessageErrorView>(k),
                Err(e) => checked(self@) == Err::<CallType, MessageErrorView>(e@),
            },
    {
        match self.kind() {
            Some(CallType::Init) => {
                if self.wasm_file.as_str().is_empty() {
                    Err(MessageError::MissingWasmFile { message: self.message.clone() })
                } else if self.contract_addr.as_str().is_empty() {
                    Err(MessageError::MissingContractAddr { message: self.message.clone() })
                } else {
                    Ok(CallType::Init)
                }
            },
            Some(CallType::Handle) => {
                if self.sender.as_str().is_empty() {
                    Err(MessageError::MissingSender { message: self.message.clone() })
                } else if self.contract_addr.as_str().is_empty() {
                    Err(MessageError::MissingContractAddr { message: self.message.clone() })
                } else {
                    Ok(CallType::Handle)
                }
            },
            Some(CallType::Query) => {
                if self.contract_addr.as_str().is_empty() {
                    Err(MessageError::MissingContractAddr { message: self.message.clone() })
                } else {
                    Ok(CallType::Query)
                }
            },
            None => Err(MessageError::IncorrectType { call_type: self.call_type.clone() }),
        }
    }

    /// The message that the five texts of a batch element make, if it keeps
    /// the rules of its call type. The texts are JSON: the payload is taken
    /// as it is, the others lose their quotes.
    pub fn from_texts(
        call_type: &str,
        sender: &str,
        message: &str,
        wasm_file: &str,
        contract_addr: &str,
    ) -> (r: Result<Message, MessageError>)
        ensures
            match r {
                Ok(m) => m@ == message_of_texts(
                    call_type@,
                    sender@,
                    message@,
                    wasm_file@,
                    contract_addr@,
                ) && checked(m@) is Ok,
                Err(e) => checked(
                    message_of_texts(call_type@, sender@, message@, wasm_file@, contract_addr@),
                ) == Err::<CallType, MessageErrorView>(e@),
            },
    {
        let m = Message::new(
            strip_quotes(call_type),
            strip_quotes(sender),
            String::from_str(message),
            strip_quotes(wasm_file),
            strip_quotes(contract_addr),
        );
        match m.validate() {
            Ok(_) => Ok(m),
            Err(e) => Err(e),
        }
    }

    /// The JSON text of the member `key` of a batch element.
    fn field(item: &JsonValue, key: &str) -> (r: String)
        ensures
            r@ == field_text(*item, key@),
    {
        match item.get(key) {
            Some(v) => v.render(),
            None => String::new(),
        }
    }

    /// The message that a batch element describes, if it keeps the rules.
    pub fn from_item(item: &JsonValue) -> (r: Result<Message, MessageError>)
        ensures
            match r {
                Ok(m) => m@ == item_message(*item) && checked(m@) is Ok,
                Err(e) => checked(item_message(*item)) == Err::<CallType, MessageErrorView>(e@),
            },
    {
        let call_type = Message::field(item, "type");
        let sender = Message::field(item, "sender");
        let message = Message::field(item, "message");
        let wasm_file = Message::field(item, "wasm_file");
        let contract_addr = Message::field(item, "contract_addr");
        Message::from_texts(
            call_type.as_str(),
            sender.as_str(),
            message.as_str(),
            wasm_file.as_str(),
            contract_addr.as_str(),
        )
    }

    /// The messages of a batch document, in its order.
    pub fn from_document(doc: &JsonValue) -> (r: Result<Vec<Message>, MessageError>)
        ensures
            batch_view(r) == batch_of(*doc),
    {
        let mut msgs: Vec<Message> = Vec::new();
        let items = match doc.get("messages") {
            Some(list) => match list.as_array() {
                Some(items) => items,
                None => {
                    assert(message_views(msgs@) =~= Seq::empty());
                    return Ok(msgs);
                },
            },
            None => {
                assert(message_views(msgs@) =~= Seq::empty());
                return Ok(msgs);
            },
        };
        let mut i: usize = 0;
        proof {
            assert(message_views(msgs@) =~= Seq::empty());
            match batch_from(items@, 0) {
                Ok(rest) => {
                    assert(message_views(msgs@) + rest =~= rest);
                },
                Err(_) => {},
            }
        }
        while i < items.len()
            invariant
                i <= items@.len(),
                batch_of(*doc) == batch_from(items@, 0),
                batch_from(items@, 0) == match batch_from(items@, i as int) {
                    Ok(rest) => Ok::<Seq<MessageView>, MessageErrorView>(
                        message_views(msgs@) + rest,
                    ),
                    Err(e) => Err::<Seq<MessageView>, MessageErrorView>(e),
                },
            decreases items@.len() - i,
        {
            if items[i].as_object().is_none() {
                assert(message_views(msgs@) + Seq::<MessageView>::empty() =~= message_views(msgs@));
                return Ok(msgs);
            }
            match Message::from_item(&items[i]) {
                Ok(m) => {
                    let ghost before = message_views(msgs@);
                    let ghost mv = m@;
                    msgs.push(m);
                    proof {
                        assert(message_views(msgs@) =~= before.push(mv));
                        match batch_from(items@, i + 1) {
                            Ok(rest) => {
                                assert(before + (seq![mv] + rest) =~= before.push(mv) + rest);
                            },
                            Err(_) => {},
                        }
                    }
                },
                Err(e) => {
                    return Err(e);
                },
            }
            i = i + 1;
        }
        assert(message_views(msgs@) + Seq::<MessageView>::empty() =~= message_views(msgs@));
        Ok(msgs)
    }

    /// The messages of a batch text, in its order. A text that is no JSON,
    /// no object, or has no `messages` array holds none; the first element
    /// that is no object ends the batch; the first element that breaks a
    /// rule of its call type fails it.
    pub fn build_msg(data: &[u8]) -> (r: Result<Vec<Message>, MessageError>)
        ensures
            batch_view(r) == batch_of_text(json_document(data@)),
    {
        match JsonValue::parse(data) {
            Some(doc) => Message::from_document(&doc),
            None => {
                let msgs: Vec<Message> = Vec::new();
                assert(message_views(msgs@) =~= Seq::empty());
                Ok(msgs)
            },
        }
    }
}

} // verus!
