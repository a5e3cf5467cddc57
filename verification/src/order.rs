//! The order in which the calls that a `handle` call sets off are made:
//! depth first, from left to right.
//!
//! The calls that one call sets off form a forest: each message of its
//! answer asks for a call, and the answer to that call may ask for more.
//! This module states, over the transitions of [`crate::engine`], that
//! the machine is asked to make these calls in the preorder of the forest.

use crate::dispatcher::{calls_of, CallView, OutboundView};
use crate::engine::{at_rest, invocation_of, proceeded, resumed, succeeded};
use crate::engine::{ActionView, InstanceView, OutcomeView, PhaseView};
use crate::messages::CallType;
use crate::registry::SlotView;
use vstd::prelude::*;

verus! {

/// A call and all the calls that it sets off.
pub ghost struct CallTree {
    pub target: Seq<char>,
    pub payload: Seq<u8>,
    pub children: Seq<CallTree>,
}

/// A call that is made, and the messages that the contract called answers
/// with.
pub ghost struct Step {
    pub call: CallView,
    pub answer: Seq<OutboundView>,
}

/// The messages with which a contract asks for the calls at the roots of
/// `forest`.
pub open spec fn messages_for(forest: Seq<CallTree>) -> Seq<OutboundView> {
    Seq::new(
        forest.len(),
        |i: int| OutboundView::Execute { contract_addr: forest[i].target, msg: forest[i].payload },
    )
}

/// The calls of `forest` in preorder: each root is called on behalf of
/// `sender` at `depth`, and before the next root is called, all that the
/// root sets off is called on the root's behalf, one deeper.
pub open spec fn preorder(sender: Seq<char>, depth: nat, forest: Seq<CallTree>) -> Seq<Step>
    decreases forest,
{
    if forest.len() == 0 {
        Seq::empty()
    } else {
        let first = forest[0];
        seq![
            Step {
                call: CallView { sender, target: first.target, payload: first.payload, depth },
                answer: messages_for(first.children),
            },
        ] + preorder(first.target, depth + 1, first.children) + preorder(
            sender,
            depth,
            forest.subrange(1, forest.len() as int),
        )
    }
}

/// The answers of the steps, in their order.
pub open spec fn answers_of(steps: Seq<Step>) -> Seq<Seq<OutboundView>> {
    steps.map_values(|s: Step| s.answer)
}

/// The invocations that make the calls of the steps, in their order.
pub open spec fn invocations_of(steps: Seq<Step>, table: Map<Seq<char>, SlotView>) -> Seq<
    ActionView,
> {
    steps.map_values(|s: Step| invocation_of(s.call, table))
}

/// The state of an instance, and what followed each answer, after nested
/// calls have answered with `answers`, one after the other.
pub open spec fn after_answers(
    s: InstanceView,
    table: Map<Seq<char>, SlotView>,
    answers: Seq<Seq<OutboundView>>,
) -> (InstanceView, Seq<ActionView>)
    decreases answers.len(),
{
    if answers.len() == 0 {
        (s, Seq::empty())
    } else {
        let (t, action) = resumed(
            s,
            table,
            OutcomeView::Handle { messages: answers[0], data: None },
            0,
        );
        let (u, actions) = after_answers(t, table, answers.subrange(1, answers.len() as int));
        (u, seq![action] + actions)
    }
}

/// Every call of the steps goes to an installed contract, and none is
/// deeper than `max_depth`.
pub open spec fn feasible(steps: Seq<Step>, table: Map<Seq<char>, SlotView>, max_depth: usize) -> bool {
    forall|i: int|
        0 <= i < steps.len() ==> table.contains_key((#[trigger] steps[i]).call.target)
            && steps[i].call.depth <= max_depth
}

proof fn lemma_answers_concat(
    s: InstanceView,
    table: Map<Seq<char>, SlotView>,
    a: Seq<Seq<OutboundView>>,
    b: Seq<Seq<OutboundView>>,
)
    ensures
        ({
            let (t, x) = after_answers(s, table, a);
            let (u, y) = after_answers(t, table, b);
            after_answers(s, table, a + b) == (u, x + y)
        }),
    decreases a.len(),
{
    let (t, x) = after_answers(s, table, a);
    let (u, y) = after_answers(t, table, b);
    if a.len() == 0 {
        assert(a + b =~= b);
        assert(x + y =~= y);
    } else {
        let rest = a.subrange(1, a.len() as int);
        assert((a + b)[0] == a[0]);
        assert((a + b).subrange(1, (a + b).len() as int) =~= rest + b);
        let (s1, action) = resumed(
            s,
            table,
            OutcomeView::Handle { messages: a[0], data: None },
            0,
        );
        lemma_answers_concat(s1, table, rest, b);
        let (t1, x1) = after_answers(s1, table, rest);
        assert(x == seq![action] + x1);
        assert(seq![action] + (x1 + y) =~= (seq![action] + x1) + y);
    }
}

proof fn lemma_messages_tail(forest: Seq<CallTree>)
    requires
        forest.len() > 0,
    ensures
        messages_for(forest).subrange(1, forest.len() as int) == messages_for(
            forest.subrange(1, forest.len() as int),
        ),
        messages_for(forest)[0] == (OutboundView::Execute {
            contract_addr: forest[0].target,
            msg: forest[0].payload,
        }),
{
    assert(messages_for(forest).subrange(1, forest.len() as int) =~= messages_for(
        forest.subrange(1, forest.len() as int),
    ));
}

/// Going through a work-list that begins with the calls of a forest makes
/// those calls in preorder, and then goes on with the rest of the list as
/// if the forest had not been there.
proof fn lemma_forest(
    a: InstanceView,
    table: Map<Seq<char>, SlotView>,
    sender: Seq<char>,
    depth: nat,
    forest: Seq<CallTree>,
    rest: Seq<CallView>,
    gas_used: u64,
)
    requires
        depth >= 1,
        feasible(preorder(sender, depth, forest), table, a.max_depth),
        a.queue == calls_of(sender, depth, messages_for(forest)) + rest,
    ensures
        ({
            let steps = preorder(sender, depth, forest);
            let (t, first) = proceeded(a, table, gas_used);
            let (u, actions) = after_answers(t, table, answers_of(steps));
            let (v, last) = proceeded(InstanceView { queue: rest, ..a }, table, gas_used);
            &&& seq![first] + actions == invocations_of(steps, table) + seq![last]
            &&& u == v
        }),
    decreases forest,
{
    let steps = preorder(sender, depth, forest);
    let (t, first) = proceeded(a, table, gas_used);
    let (u, actions) = after_answers(t, table, answers_of(steps));
    let (v, last) = proceeded(InstanceView { queue: rest, ..a }, table, gas_used);
    if forest.len() == 0 {
        assert(messages_for(forest) =~= Seq::<OutboundView>::empty());
        assert(a.queue =~= rest);
        assert(a == (InstanceView { queue: rest, ..a }));
        assert(answers_of(steps) =~= Seq::<Seq<OutboundView>>::empty());
        assert(seq![first] + actions =~= invocations_of(steps, table) + seq![last]);
    } else {
        let node = forest[0];
        let others = forest.subrange(1, forest.len() as int);
        let c0 = CallView { sender, target: node.target, payload: node.payload, depth };
        let step0 = Step { call: c0, answer: messages_for(node.children) };
        let p1 = preorder(node.target, depth + 1, node.children);
        let p2 = preorder(sender, depth, others);
        assert(steps == seq![step0] + p1 + p2);
        assert(steps[0] == step0);
        assert forall|i: int| 0 <= i < p1.len() implies table.contains_key(
            (#[trigger] p1[i]).call.target,
        ) && p1[i].call.depth <= a.max_depth by {
            assert(p1[i] == steps[1 + i]);
        }
        assert forall|i: int| 0 <= i < p2.len() implies table.contains_key(
            (#[trigger] p2[i]).call.target,
        ) && p2[i].call.depth <= a.max_depth by {
            assert(p2[i] == steps[1 + p1.len() + i]);
        }
        // the work-list begins with the call of the first root
        lemma_messages_tail(forest);
        let q_others = calls_of(sender, depth, messages_for(others));
        let q_children = calls_of(node.target, depth + 1, messages_for(node.children));
        assert(calls_of(sender, depth, messages_for(forest)) == seq![c0] + q_others);
        assert(a.queue[0] == c0);
        assert(a.queue.subrange(1, a.queue.len() as int) =~= q_others + rest);
        assert(first == invocation_of(c0, table));
        assert(t.queue == q_others + rest);
        // its answer puts the calls of its children ahead of the list
        let (t1, a1) = resumed(
            t,
            table,
            OutcomeView::Handle { messages: step0.answer, data: None },
            0,
        );
        if node.children.len() > 0 {
            assert(p1.len() > 0) by {
                assert(p1[0].call.depth == depth + 1);
            }
            assert(p1[0].call.depth == depth + 1);
            assert(depth < a.max_depth);
        } else {
            assert(messages_for(node.children) =~= Seq::<OutboundView>::empty());
        }
        let b = InstanceView { queue: q_children + (q_others + rest), ..t };
        assert((t1, a1) == proceeded(b, table, gas_used));
        lemma_forest(b, table, node.target, depth + 1, node.children, q_others + rest, gas_used);
        let c = InstanceView { queue: q_others + rest, ..t };
        lemma_forest(c, table, sender, depth, others, rest, gas_used);
        let (u1, acts1) = after_answers(t1, table, answers_of(p1));
        let (m, mid) = proceeded(c, table, gas_used);
        assert(seq![a1] + acts1 == invocations_of(p1, table) + seq![mid]);
        assert(u1 == m);
        let (u2, acts2) = after_answers(m, table, answers_of(p2));
        let (w, end) = proceeded(InstanceView { queue: rest, ..c }, table, gas_used);
        assert(seq![mid] + acts2 == invocations_of(p2, table) + seq![end]);
        assert((w, end) == (v, last));
        // the three runs in a row are the run over all steps
        assert(answers_of(steps) =~= seq![step0.answer] + (answers_of(p1) + answers_of(p2)));
        let tail = answers_of(p1) + answers_of(p2);
        assert((seq![step0.answer] + tail)[0] == step0.answer);
        assert((seq![step0.answer] + tail).subrange(1, 1 + tail.len() as int) =~= tail);
        lemma_answers_concat(t1, table, answers_of(p1), answers_of(p2));
        assert(after_answers(t1, table, tail) == (u2, acts1 + acts2));
        assert(actions == seq![a1] + (acts1 + acts2));
        assert(u == u2);
        assert(invocations_of(steps, table) =~= seq![first] + invocations_of(p1, table)
            + invocations_of(p2, table));
        let all = seq![first] + actions;
        let want = invocations_of(steps, table) + seq![last];
        assert(all.len() == want.len()) by {
            assert((seq![a1] + acts1).len() == (invocations_of(p1, table) + seq![mid]).len());
            assert((seq![mid] + acts2).len() == (invocations_of(p2, table) + seq![end]).len());
        }
        let x1 = seq![a1] + acts1;
        let y1 = invocations_of(p1, table) + seq![mid];
        let x2 = seq![mid] + acts2;
        let y2 = invocations_of(p2, table) + seq![end];
        assert forall|i: int| 0 <= i < all.len() implies all[i] == want[i] by {
            let n1 = p1.len() as int;
            if i == 0 {
            } else if i <= n1 + 1 {
                assert(all[i] == x1[i - 1]);
                assert(x1[i - 1] == y1[i - 1]);
                if i - 1 == n1 {
                    assert(x2[0] == y2[0]);
                }
            } else {
                assert(all[i] == acts2[i - n1 - 2]);
                assert(acts2[i - n1 - 2] == x2[i - n1 - 1]);
                assert(x2[i - n1 - 1] == y2[i - n1 - 1]);
            }
        }
        assert(all =~= want);
    }
}

/// Depth-first dispatch: when a `handle` call answers with the messages
/// for the roots of a forest of calls, and every contract called answers
/// with the messages for what it sets off in turn, then the machine is
/// asked to make the calls of the forest in preorder, each on behalf of
/// the contract whose answer asked for it, and the `handle` call succeeds
/// after the last of them and not before.
pub proof fn lemma_depth_first(
    s: InstanceView,
    table: Map<Seq<char>, SlotView>,
    forest: Seq<CallTree>,
    data: Option<Seq<u8>>,
    gas_left: u64,
)
    requires
        s.phase == (PhaseView::Executing { entry: CallType::Handle }),
        gas_left <= s.gas,
        feasible(preorder(s.address, 1, forest), table, s.max_depth),
    ensures
        ({
            let steps = preorder(s.address, 1, forest);
            let (t, first) = resumed(
                s,
                table,
                OutcomeView::Handle { messages: messages_for(forest), data },
                gas_left,
            );
            let (u, rest) = after_answers(t, table, answers_of(steps));
            &&& seq![first] + rest == invocations_of(steps, table) + seq![
                succeeded(CallType::Handle, Seq::empty(), (s.gas - gas_left) as u64),
            ]
            &&& u == at_rest(InstanceView { gas: gas_left, ..s })
        }),
{
    let used = (s.gas - gas_left) as u64;
    let steps = preorder(s.address, 1, forest);
    let settled = InstanceView { gas: gas_left, queue: Seq::empty(), ..s };
    let q = calls_of(s.address, 1, messages_for(forest));
    let a = InstanceView { queue: q + Seq::<CallView>::empty(), ..settled };
    if forest.len() > 0 {
        assert(steps[0].call.depth == 1);
        assert(s.max_depth >= 1);
    } else {
        assert(messages_for(forest) =~= Seq::<OutboundView>::empty());
    }
    assert(resumed(s, table, OutcomeView::Handle { messages: messages_for(forest), data }, gas_left)
        == proceeded(a, table, used));
    lemma_forest(a, table, s.address, 1, forest, Seq::empty(), used);
    assert((InstanceView { queue: Seq::<CallView>::empty(), ..a }) == settled);
}

/// Dispatch order: when a `handle` call answers with messages that each
/// execute an installed contract, and each of those contracts answers
/// without messages of its own, the contracts are invoked one after the
/// other in the order of the messages, each on behalf of the contract that
/// was called, and the call succeeds after the last of them and not
/// before.
pub proof fn lemma_dispatch_order(
    s: InstanceView,
    table: Map<Seq<char>, SlotView>,
    messages: Seq<OutboundView>,
    data: Option<Seq<u8>>,
    gas_left: u64,
)
    requires
        s.phase == (PhaseView::Executing { entry: CallType::Handle }),
        gas_left <= s.gas,
        s.max_depth >= 1,
        forall|i: int|
            0 <= i < messages.len() ==> (#[trigger] messages[i]) is Execute && table.contains_key(
                messages[i]->contract_addr,
            ),
    ensures
        ({
            let (t, first) = resumed(s, table, OutcomeView::Handle { messages, data }, gas_left);
            let silent = Seq::new(messages.len(), |i: int| Seq::<OutboundView>::empty());
            let (u, rest) = after_answers(t, table, silent);
            let all = seq![first] + rest;
            &&& all.len() == messages.len() + 1
            &&& forall|i: int|
                0 <= i < messages.len() ==> #[trigger] all[i] == invocation_of(
                    CallView {
                        sender: s.address,
                        target: messages[i]->contract_addr,
                        payload: messages[i]->msg,
                        depth: 1,
                    },
                    table,
                )
            &&& all[messages.len() as int] == succeeded(
                CallType::Handle,
                Seq::empty(),
                (s.gas - gas_left) as u64,
            )
            &&& u == at_rest(InstanceView { gas: gas_left, ..s })
        }),
{
    let forest = Seq::new(
        messages.len(),
        |i: int|
            CallTree {
                target: messages[i]->contract_addr,
                payload: messages[i]->msg,
                children: Seq::empty(),
            },
    );
    assert(messages_for(forest) =~= messages) by {
        assert forall|i: int| 0 <= i < messages.len() implies messages_for(forest)[i]
            == messages[i] by {
            assert(messages[i] is Execute);
        }
    }
    lemma_leaves(s.address, 1, forest);
    let steps = preorder(s.address, 1, forest);
    assert(feasible(steps, table, s.max_depth)) by {
        assert forall|i: int| 0 <= i < steps.len() implies table.contains_key(
            (#[trigger] steps[i]).call.target,
        ) && steps[i].call.depth <= s.max_depth by {
            assert(messages[i] is Execute);
        }
    }
    let silent = Seq::new(messages.len(), |i: int| Seq::<OutboundView>::empty());
    assert(answers_of(steps) =~= silent);
    lemma_depth_first(s, table, forest, data, gas_left);
}

/// The preorder of a forest of calls that set off nothing is the forest
/// itself, root by root.
proof fn lemma_leaves(sender: Seq<char>, depth: nat, forest: Seq<CallTree>)
    requires
        forall|i: int| 0 <= i < forest.len() ==> (#[trigger] forest[i]).children.len() == 0,
    ensures
        preorder(sender, depth, forest).len() == forest.len(),
        forall|i: int|
            0 <= i < forest.len() ==> #[trigger] preorder(sender, depth, forest)[i] == (Step {
                call: CallView {
                    sender,
                    target: forest[i].target,
                    payload: forest[i].payload,
                    depth,
                },
                answer: Seq::empty(),
            }),
    decreases forest.len(),
{
    if forest.len() > 0 {
        let others = forest.subrange(1, forest.len() as int);
        assert forall|i: int| 0 <= i < others.len() implies (#[trigger] others[i]).children.len()
            == 0 by {
            assert(others[i] == forest[i + 1]);
        }
        lemma_leaves(sender, depth, others);
        assert(forest[0].children.len() == 0);
        assert(messages_for(forest[0].children) =~= Seq::<OutboundView>::empty());
        assert(preorder(forest[0].target, depth + 1, forest[0].children).len() == 0);
        let all = preorder(sender, depth, forest);
        assert forall|i: int| 0 <= i < forest.len() implies #[trigger] all[i] == (Step {
            call: CallView { sender, target: forest[i].target, payload: forest[i].payload, depth },
            answer: Seq::empty(),
        }) by {
            if i > 0 {
                assert(all[i] == preorder(sender, depth, others)[i - 1]);
                assert(others[i - 1] == forest[i]);
            }
        }
    }
}

} // verus!
