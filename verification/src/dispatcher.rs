//! The work-list of the cross-contract dispatcher.
//!
//! A `handle` call answers with messages for other contracts. Each is
//! executed before the next one, and the messages that its own answer
//! holds are executed before its successor: the calls run depth first, from
//! left to right. The dispatcher keeps the calls that are still to be made
//! in that order, each with the depth at which it stands below the call
//! that started it all.

use vstd::prelude::*;
use vstd::slice::slice_to_vec;
use vstd::string::StringExecFns;

verus! {

/// A message that the answer to a `handle` call holds.
#[derive(Debug)]
pub enum OutboundMsg {
    /// Execute the contract at `contract_addr` with the payload `msg`.
    Execute { contract_addr: String, msg: Vec<u8> },
    /// A message of any other kind; the dispatcher passes it over.
    Other,
}

/// An outbound message, by its views.
pub ghost enum OutboundView {
    Execute { contract_addr: Seq<char>, msg: Seq<u8> },
    Other,
}

impl View for OutboundMsg {
    type V = OutboundView;

    open spec fn view(&self) -> OutboundView {
        match self {
            OutboundMsg::Execute { contract_addr, msg } => OutboundView::Execute {
                contract_addr: contract_addr@,
                msg: msg@,
            },
            OutboundMsg::Other => OutboundView::Other,
        }
    }
}

/// Each message of a list, by its view.
pub open spec fn outbound_views(msgs: Seq<OutboundMsg>) -> Seq<OutboundView> {
    msgs.map_values(|m: OutboundMsg| m@)
}

/// A call that is still to be made: `sender` has `target` executed with
/// `payload`, `depth` calls below the one that started the dispatch.
#[derive(Debug)]
pub struct PendingCall {
    pub sender: String,
    pub target: String,
    pub payload: Vec<u8>,
    pub depth: usize,
}

/// A pending call, by its views.
pub ghost struct CallView {
    pub sender: Seq<char>,
    pub target: Seq<char>,
    pub payload: Seq<u8>,
    pub depth: nat,
}

impl View for PendingCall {
    type V = CallView;

    open spec fn view(&self) -> CallView {
        CallView {
            sender: self.sender@,
            target: self.target@,
            payload: self.payload@,
            depth: self.depth as nat,
        }
    }
}

/// Why the dispatcher refuses the messages of an answer.
#[derive(Clone, Copy, Debug, PartialEq, Eq, Structural)]
pub enum DispatchError {
    /// The messages would be executed deeper than the dispatcher allows.
    DepthExceeded,
}

/// The calls that the messages `msgs` of an answer ask for, in their
/// order, as made by `sender` at `depth`. Messages that execute no
/// contract ask for none.
pub open spec fn calls_of(sender: Seq<char>, depth: nat, msgs: Seq<OutboundView>) -> Seq<CallView>
    decreases msgs.len(),
{
    if msgs.len() == 0 {
        Seq::empty()
    } else {
        let rest = calls_of(sender, depth, msgs.subrange(1, msgs.len() as int));
        match msgs[0] {
            OutboundView::Execute { contract_addr, msg } => seq![
                CallView { sender, target: contract_addr, payload: msg, depth },
            ] + rest,
            OutboundView::Other => rest,
        }
    }
}

/// The work-list after an answer's messages are taken in: the calls they
/// ask for come first, ahead of all that was pending.
pub open spec fn enqueued(
    queue: Seq<CallView>,
    sender: Seq<char>,
    depth: nat,
    msgs: Seq<OutboundView>,
) -> Seq<CallView> {
    calls_of(sender, depth, msgs) + queue
}

/// Whether the messages of an answer given at `parent_depth` ask for a call
/// that would be made deeper than `max_depth`.
pub open spec fn too_deep(max_depth: usize, parent_depth: usize, msgs: Seq<OutboundView>) -> bool {
    parent_depth >= max_depth && exists|i: int| 0 <= i < msgs.len() && msgs[i] is Execute
}

/// The calls that a list of pending calls stands for, the last of the list
/// first.
pub open spec fn queue_of(stack: Seq<PendingCall>) -> Seq<CallView> {
    Seq::new(stack.len(), |i: int| stack[stack.len() - 1 - i]@)
}

/// A list of messages without one that executes a contract asks for no
/// call.
pub proof fn lemma_calls_of_none(sender: Seq<char>, depth: nat, msgs: Seq<OutboundView>)
    requires
        forall|i: int| 0 <= i < msgs.len() ==> msgs[i] is Other,
    ensures
        calls_of(sender, depth, msgs).len() == 0,
    decreases msgs.len(),
{
    if msgs.len() > 0 {
        let rest = msgs.subrange(1, msgs.len() as int);
        assert forall|i: int| 0 <= i < rest.len() implies rest[i] is Other by {
            assert(rest[i] == msgs[i + 1]);
        }
        lemma_calls_of_none(sender, depth, rest);
    }
}

/// A list of messages with one that executes a contract asks for a call.
pub proof fn lemma_calls_of_some(sender: Seq<char>, depth: nat, msgs: Seq<OutboundView>, j: int)
    requires
        0 <= j < msgs.len(),
        msgs[j] is Execute,
    ensures
        calls_of(sender, depth, msgs).len() > 0,
    decreases msgs.len(),
{
    if j > 0 {
        let rest = msgs.subrange(1, msgs.len() as int);
        assert(rest[j - 1] == msgs[j]);
        lemma_calls_of_some(sender, depth, rest, j - 1);
    }
}

/// Where every message executes a contract, the calls asked for are the
/// messages themselves, one for one and in their order.
pub proof fn lemma_calls_of_all(sender: Seq<char>, depth: nat, msgs: Seq<OutboundView>)
    requires
        forall|i: int| 0 <= i < msgs.len() ==> msgs[i] is Execute,
    ensures
        calls_of(sender, depth, msgs).len() == msgs.len(),
        forall|i: int|
            0 <= i < msgs.len() ==> #[trigger] calls_of(sender, depth, msgs)[i] == (CallView {
                sender,
                target: msgs[i]->contract_addr,
                payload: msgs[i]->msg,
                depth,
            }),
    decreases msgs.len(),
{
    if msgs.len() > 0 {
        let rest = msgs.subrange(1, msgs.len() as int);
        assert forall|i: int| 0 <= i < rest.len() implies rest[i] is Execute by {
            assert(rest[i] == msgs[i + 1]);
        }
        lemma_calls_of_all(sender, depth, rest);
        let all = calls_of(sender, depth, msgs);
        assert forall|i: int| 0 <= i < msgs.len() implies #[trigger] all[i] == (CallView {
            sender,
            target: msgs[i]->contract_addr,
            payload: msgs[i]->msg,
            depth,
        }) by {
            if i > 0 {
                assert(all[i] == calls_of(sender, depth, rest)[i - 1]);
                assert(rest[i - 1] == msgs[i]);
            }
        }
    }
}

/// The calls still to be made, in the order in which they will be made.
#[derive(Debug)]
pub struct Dispatcher {
    stack: Vec<PendingCall>,
    max_depth: usize,
}

impl View for Dispatcher {
    type V = Seq<CallView>;

    closed spec fn view(&self) -> Seq<CallView> {
        queue_of(self.stack@)
    }
}

impl Dispatcher {
    /// The greatest depth at which the dispatcher makes a call.
    pub closed spec fn max_depth(&self) -> usize {
        self.max_depth
    }

    /// A dispatcher with nothing to do, which makes no call deeper than
    /// `max_depth`.
    pub fn new(max_depth: usize) -> (r: Self)
        ensures
            r@ == Seq::<CallView>::empty(),
            r.max_depth() == max_depth,
    {
        let r = Dispatcher { stack: Vec::new(), max_depth };
        assert(r@ =~= Seq::<CallView>::empty());
        r
    }

    /// Whether no call is pending.
    pub fn is_idle(&self) -> (r: bool)
        ensures
            r == (self@.len() == 0),
    {
        self.stack.len() == 0
    }

    /// The number of pending calls.
    pub fn pending(&self) -> (n: usize)
        ensures
            n == self@.len(),
    {
        self.stack.len()
    }

    /// Drops all pending calls.
    pub fn clear(&mut self)
        ensures
            final(self)@ == Seq::<CallView>::empty(),
            final(self).max_depth() == old(self).max_depth(),
    {
        self.stack.clear();
        assert(self@ =~= Seq::<CallView>::empty());
    }

    /// Takes in the messages of an answer that `sender` gave at the depth
    /// `parent_depth`: the calls they ask for are to be made one deeper,
    /// ahead of all that is pending. Where they ask for a call and that
    /// would be deeper than the dispatcher allows, nothing is taken in.
    pub fn enqueue(&mut self, sender: &str, parent_depth: usize, msgs: &Vec<OutboundMsg>) -> (r:
        Result<(), DispatchError>)
        ensures
            final(self).max_depth() == old(self).max_depth(),
            match r {
                Ok(_) => final(self)@ == enqueued(
                    old(self)@,
                    sender@,
                    (parent_depth + 1) as nat,
                    outbound_views(msgs@),
                ),
                Err(_) => final(self)@ == old(self)@,
            },
            r is Err <==> too_deep(old(self).max_depth(), parent_depth, outbound_views(msgs@)),
    {
        let ghost views = outbound_views(msgs@);
        let ghost before = self@;
        let ghost depth = (parent_depth + 1) as nat;
        let deep = parent_depth >= self.max_depth;
        let mut j: usize = msgs.len();
        assert(views.subrange(j as int, views.len() as int) =~= Seq::<OutboundView>::empty());
        assert(calls_of(sender@, depth, Seq::<OutboundView>::empty()) + before =~= before);
        while j > 0
            invariant
                j <= msgs@.len(),
                views == outbound_views(msgs@),
                before == old(self)@,
                depth == parent_depth + 1,
                self.max_depth == old(self).max_depth,
                deep == (parent_depth >= self.max_depth),
                deep ==> self@ == before && forall|i: int| j <= i < views.len() ==> views[i] is Other,
                !deep ==> self@ == calls_of(
                    sender@,
                    depth,
                    views.subrange(j as int, views.len() as int),
                ) + before,
            decreases j,
        {
            j = j - 1;
            proof {
                let tail = views.subrange(j as int, views.len() as int);
                assert(tail[0] == msgs@[j as int]@);
                assert(tail.subrange(1, tail.len() as int) =~= views.subrange(
                    j + 1,
                    views.len() as int,
                ));
            }
            match &msgs[j] {
                OutboundMsg::Execute { contract_addr, msg } => {
                    if deep {
                        proof {
                            lemma_calls_of_some(sender@, depth, views, j as int);
                        }
                        return Err(DispatchError::DepthExceeded);
                    }
                    let ghost queue = self@;
                    let call = PendingCall {
                        sender: String::from_str(sender),
                        target: contract_addr.clone(),
                        payload: slice_to_vec(msg.as_slice()),
                        depth: parent_depth + 1,
                    };
                    let ghost cv = call@;
                    self.stack.push(call);
                    assert(self@ =~= seq![cv] + queue);
                    assert(seq![cv] + (calls_of(
                        sender@,
                        depth,
                        views.subrange(j + 1, views.len() as int),
                    ) + before) =~= (seq![cv] + calls_of(
                        sender@,
                        depth,
                        views.subrange(j + 1, views.len() as int),
                    )) + before);
                },
                OutboundMsg::Other => {},
            }
        }
        proof {
            assert(views.subrange(0, views.len() as int) =~= views);
            if deep {
                lemma_calls_of_none(sender@, depth, views);
                assert(calls_of(sender@, depth, views) + before =~= before);
            }
        }
        Ok(())
    }

    /// Takes out the call that is to be made next.
    pub fn pop(&mut self) -> (r: Option<PendingCall>)
        ensures
            final(self).max_depth() == old(self).max_depth(),
            match r {
                Some(call) => old(self)@.len() > 0 && call@ == old(self)@[0] && final(self)@ == old(
                    self,
                )@.subrange(1, old(self)@.len() as int),
                None => old(self)@.len() == 0 && final(self)@ == old(self)@,
            },
    {
        let r = self.stack.pop();
        proof {
            if r is Some {
                assert(self@ =~= old(self)@.subrange(1, old(self)@.len() as int));
            }
        }
        r
    }
}

} // verus!
