use crate::ids::Did;
use crate::message::{ChatMessage, MessageView};
use vstd::prelude::*;

verus! {

/// A message placed into a sender-run, with its run-boundary flags and the
/// pagination hint.
#[derive(Debug)]
pub struct GroupedMessage {
    pub message: ChatMessage,
    pub is_first: bool,
    pub is_last: bool,
    pub should_fetch_more: bool,
}

/// The mathematical model of a grouped message.
#[verifier::ext_equal]
pub ghost struct GroupedMessageView {
    pub message: MessageView,
    pub is_first: bool,
    pub is_last: bool,
    pub should_fetch_more: bool,
}

impl DeepView for GroupedMessage {
    type V = GroupedMessageView;

    open spec fn deep_view(&self) -> GroupedMessageView {
        GroupedMessageView {
            message: self.message.deep_view(),
            is_first: self.is_first,
            is_last: self.is_last,
            should_fetch_more: self.should_fetch_more,
        }
    }
}

impl View for GroupedMessage {
    type V = GroupedMessageView;

    open spec fn view(&self) -> GroupedMessageView {
        self.deep_view()
    }
}

impl GroupedMessage {
    /// Clears the run-final flag, when a later message joins the run.
    pub fn clear_last(&mut self)
        ensures
            (final(self)@ == GroupedMessageView { is_last: false, ..old(self)@ }),
    {
        self.is_last = false;
    }
}

/// A maximal consecutive subsequence of the window sharing one sender.
#[derive(Debug)]
pub struct MessageGroup {
    pub sender: Did,
    pub remote: bool,
    pub messages: Vec<GroupedMessage>,
}

/// The mathematical model of a sender-run.
#[verifier::ext_equal]
pub ghost struct MessageGroupView {
    pub sender: Did,
    pub remote: bool,
    pub messages: Seq<GroupedMessageView>,
}

impl DeepView for MessageGroup {
    type V = MessageGroupView;

    open spec fn deep_view(&self) -> MessageGroupView {
        MessageGroupView {
            sender: self.sender,
            remote: self.remote,
            messages: self.messages.deep_view(),
        }
    }
}

impl View for MessageGroup {
    type V = MessageGroupView;

    open spec fn view(&self) -> MessageGroupView {
        self.deep_view()
    }
}

impl MessageGroup {
    /// An empty run for one sender, marked remote against the caller's own
    /// key.
    pub fn new(sender: Did, my_did: &Did) -> (r: MessageGroup)
        ensures
            r.sender == sender,
            r.remote == (sender != *my_did),
            r.messages@.len() == 0,
    {
        MessageGroup { remote: sender.0 != my_did.0, sender, messages: Vec::new() }
    }
}

/// The messages of one run, in display order.
pub open spec fn run_msgs(g: MessageGroupView) -> Seq<MessageView> {
    g.messages.map_values(|gm: GroupedMessageView| gm.message)
}

/// The concatenation of all runs' messages, in display order.
pub open spec fn flat_msgs(gs: Seq<MessageGroupView>) -> Seq<MessageView>
    decreases gs.len(),
{
    if gs.len() == 0 {
        Seq::<MessageView>::empty()
    } else {
        flat_msgs(gs.drop_last()) + run_msgs(gs.last())
    }
}

/// The window a grouping call works on: the `num` most recent messages.
pub open spec fn window_of(input: Seq<MessageView>, num: int) -> Seq<MessageView> {
    if num >= input.len() {
        input
    } else {
        input.subrange(input.len() - num, input.len() as int)
    }
}

/// All the shape a grouping owes its caller: runs are nonempty, share one
/// sender, alternate senders between neighbours, flag exactly their first
/// and last message, mark remoteness against the caller's own key, and hint
/// pagination on exactly the first `fetch` positions of the window.
pub open spec fn well_grouped(gs: Seq<MessageGroupView>, my_did: Did, fetch: int) -> bool {
    &&& forall|g: int| 0 <= g < gs.len() ==> #[trigger] gs[g].messages.len() > 0
    &&& forall|g: int, i: int| 0 <= g < gs.len() && 0 <= i < gs[g].messages.len()
        ==> (#[trigger] gs[g].messages[i]).message.sender == gs[g].sender
    &&& forall|g: int| 1 <= g < gs.len() ==> (#[trigger] gs[g].sender) != gs[g - 1].sender
    &&& forall|g: int| 0 <= g < gs.len()
        ==> (#[trigger] gs[g].remote) == (gs[g].sender != my_did)
    &&& forall|g: int, i: int| 0 <= g < gs.len() && 0 <= i < gs[g].messages.len()
        ==> (#[trigger] gs[g].messages[i]).is_first == (i == 0)
    &&& forall|g: int, i: int| 0 <= g < gs.len() && 0 <= i < gs[g].messages.len()
        ==> (#[trigger] gs[g].messages[i]).is_last == (i == gs[g].messages.len() - 1)
    &&& forall|g: int, i: int| 0 <= g < gs.len() && 0 <= i < gs[g].messages.len()
        ==> (#[trigger] gs[g].messages[i]).should_fetch_more
            == (flat_msgs(gs.take(g)).len() + i < fetch)
}

/// Appending a run at the end extends the concatenation by that run.
pub proof fn lemma_flat_push(gs: Seq<MessageGroupView>, g: MessageGroupView)
    ensures
        flat_msgs(gs.push(g)) == flat_msgs(gs) + run_msgs(g),
{
    assert(gs.push(g).drop_last() =~= gs);
    assert(gs.push(g).last() == g);
}

/// Clusters the `num` most recent messages of a conversation's log into
/// sender-runs, flagging run boundaries and marking the oldest
/// `when_to_fetch_more` messages of the window as pagination triggers.
pub fn group_messages(my_did: Did, num: usize, when_to_fetch_more: usize,
    input: &Vec<ChatMessage>) -> (r: Vec<MessageGroup>)
    ensures
        flat_msgs(r.deep_view()) == window_of(input.deep_view(), num as int),
        well_grouped(r.deep_view(), my_did, when_to_fetch_more as int),
{
    let ghost iv = input.deep_view();
    let ghost w = window_of(iv, num as int);
    let to_skip = if num >= input.len() {
        0
    } else {
        input.len() - num
    };
    proof {
        assert(iv.len() == input@.len());
        assert(w =~= iv.subrange(to_skip as int, iv.len() as int));
    }
    let mut groups: Vec<MessageGroup> = Vec::new();
    let mut fetch_budget = when_to_fetch_more;
    let mut idx = to_skip;
    while idx < input.len()
        invariant
            to_skip <= idx <= input.len(),
            iv == input.deep_view(),
            w == window_of(iv, num as int),
            w =~= iv.subrange(to_skip as int, iv.len() as int),
            fetch_budget == if when_to_fetch_more as int >= idx - to_skip {
                when_to_fetch_more as int - (idx - to_skip)
            } else {
                0
            },
            flat_msgs(groups.deep_view()) == w.take(idx - to_skip),
            well_grouped(groups.deep_view(), my_did, when_to_fetch_more as int),
            groups.deep_view().len() > 0 ==> idx > to_skip
                && groups.deep_view().last().sender == iv[idx - 1].sender,
            idx > to_skip ==> groups.deep_view().len() > 0,
        decreases input.len() - idx,
    {
        let ghost gs0 = groups.deep_view();
        let ghost p = idx - to_skip;
        proof {
            assert(w.take(p + 1) =~= w.take(p).push(w[p]));
            assert(w[p] == iv[idx as int]);
        }
        let msg = input[idx].clone();
        let need_more = fetch_budget > 0;
        fetch_budget = if fetch_budget > 0 {
            fetch_budget - 1
        } else {
            0
        };
        let glen = groups.len();
        let same_run = glen > 0 && groups[glen - 1].sender.0 == msg.sender.0;
        if same_run {
            let mut group = groups.pop().unwrap();
            let ghost gv0 = group.deep_view();
            let mut prev = group.messages.pop().unwrap();
            let ghost pv0 = prev.deep_view();
            prev.clear_last();
            group.messages.push(prev);
            group.messages.push(GroupedMessage {
                message: msg,
                is_first: false,
                is_last: true,
                should_fetch_more: need_more,
            });
            groups.push(group);
            proof {
                let gs1 = groups.deep_view();
                let gv1 = gs1.last();
                let n0 = gv0.messages.len();
                let newm = GroupedMessageView {
                    message: iv[idx as int],
                    is_first: false,
                    is_last: true,
                    should_fetch_more: need_more,
                };
                assert(gs1 =~= gs0.drop_last().push(gv1));
                assert(gs0.drop_last().push(gv0) =~= gs0);
                assert(gs1.len() == gs0.len());
                assert(gs0[gs0.len() - 1] == gv0);
                assert forall|g: int| 0 <= g < gs1.len() - 1 implies gs1[g] == gs0[g] by {}
                assert(gv1.sender == gv0.sender);
                assert(gv1.remote == gv0.remote);
                assert(gv0.sender == iv[idx as int].sender);
                assert(gv1.messages =~= gv0.messages.update(
                    n0 - 1,
                    GroupedMessageView { is_last: false, ..pv0 },
                ).push(newm));
                assert(gv1.messages.len() == n0 + 1);
                assert(pv0 == gv0.messages[n0 - 1]);
                assert forall|i: int| 0 <= i < n0 - 1 implies gv1.messages[i]
                    == gv0.messages[i] by {}
                assert(gv1.messages[n0 - 1]
                    == (GroupedMessageView { is_last: false, ..pv0 }));
                assert(gv1.messages[n0 as int] == newm);
                assert(run_msgs(gv1) =~= run_msgs(gv0).push(iv[idx as int]));
                lemma_flat_push(gs0.drop_last(), gv1);
                lemma_flat_push(gs0.drop_last(), gv0);
                assert(flat_msgs(gs1) =~= w.take(p + 1)) by {
                    assert(flat_msgs(gs1) == flat_msgs(gs0.drop_last()) + run_msgs(gv1));
                    assert(flat_msgs(gs0) == flat_msgs(gs0.drop_last()) + run_msgs(gv0));
                }
                assert(flat_msgs(gs0.drop_last()).len() + n0 == p) by {
                    assert(flat_msgs(gs0) == flat_msgs(gs0.drop_last()) + run_msgs(gv0));
                    assert(run_msgs(gv0).len() == n0);
                }
                assert forall|g: int| 0 <= g < gs1.len() implies gs1.take(g)
                    =~= gs0.take(g) by {}
                assert(well_grouped(gs1, my_did, when_to_fetch_more as int)) by {
                    assert forall|g: int| 0 <= g < gs1.len()
                        implies #[trigger] gs1[g].messages.len() > 0 by {
                        if g < gs1.len() - 1 {
                            assert(gs1[g] == gs0[g]);
                        }
                    }
                    assert forall|g: int, i: int|
                        0 <= g < gs1.len() && 0 <= i < gs1[g].messages.len()
                        implies (#[trigger] gs1[g].messages[i]).message.sender
                            == gs1[g].sender by {
                        if g < gs1.len() - 1 {
                            assert(gs1[g] == gs0[g]);
                        } else {
                            assert(gs1[g] == gv1);
                            if i < n0 - 1 {
                                assert(gv1.messages[i] == gv0.messages[i]);
                            } else if i == n0 - 1 {
                                assert(gv1.messages[i].message == pv0.message);
                            }
                        }
                    }
                    assert forall|g: int| 1 <= g < gs1.len()
                        implies (#[trigger] gs1[g].sender) != gs1[g - 1].sender by {
                        if g < gs1.len() - 1 {
                            assert(gs1[g] == gs0[g]);
                            assert(gs1[g - 1] == gs0[g - 1]);
                        } else {
                            assert(gs1[g].sender == gv0.sender);
                            assert(gs1[g - 1] == gs0[g - 1]);
                        }
                    }
                    assert forall|g: int| 0 <= g < gs1.len()
                        implies (#[trigger] gs1[g].remote) == (gs1[g].sender != my_did) by {
                        if g < gs1.len() - 1 {
                            assert(gs1[g] == gs0[g]);
                        }
                    }
                    assert forall|g: int, i: int|
                        0 <= g < gs1.len() && 0 <= i < gs1[g].messages.len()
                        implies (#[trigger] gs1[g].messages[i]).is_first == (i == 0) by {
                        if g < gs1.len() - 1 {
                            assert(gs1[g] == gs0[g]);
                        } else {
                            assert(gs1[g] == gv1);
                            if i < n0 - 1 {
                                assert(gv1.messages[i] == gv0.messages[i]);
                            }
                        }
                    }
                    assert forall|g: int, i: int|
                        0 <= g < gs1.len() && 0 <= i < gs1[g].messages.len()
                        implies (#[trigger] gs1[g].messages[i]).is_last
                            == (i == gs1[g].messages.len() - 1) by {
                        if g < gs1.len() - 1 {
                            assert(gs1[g] == gs0[g]);
                        } else {
                            assert(gs1[g] == gv1);
                            if i < n0 - 1 {
                                assert(gv1.messages[i] == gv0.messages[i]);
                            }
                        }
                    }
                    assert forall|g: int, i: int|
                        0 <= g < gs1.len() && 0 <= i < gs1[g].messages.len()
                        implies (#[trigger] gs1[g].messages[i]).should_fetch_more
                            == (flat_msgs(gs1.take(g)).len() + i
                                < when_to_fetch_more as int) by {
                        if g < gs1.len() - 1 {
                            assert(gs1[g] == gs0[g]);
                            assert(gs1.take(g) =~= gs0.take(g));
                        } else {
                            assert(gs1[g] == gv1);
                            assert(gs1.take(g) =~= gs0.drop_last());
                            if i < n0 - 1 {
                                assert(gv1.messages[i] == gv0.messages[i]);
                                assert(gs0.take(g) =~= gs0.drop_last());
                            } else if i == n0 - 1 {
                                assert(gv1.messages[i].should_fetch_more
                                    == pv0.should_fetch_more);
                                assert(gs0.take(g) =~= gs0.drop_last());
                            } else {
                                assert(gv1.messages[i].should_fetch_more == need_more);
                            }
                        }
                    }
                }
            }
        } else {
            let group = MessageGroup {
                sender: msg.sender,
                remote: msg.sender.0 != my_did.0,
                messages: Vec::new(),
            };
            let mut group = group;
            group.messages.push(GroupedMessage {
                message: msg,
                is_first: true,
                is_last: true,
                should_fetch_more: need_more,
            });
            groups.push(group);
            proof {
                let gs1 = groups.deep_view();
                let gv1 = gs1.last();
                assert(gs1 =~= gs0.push(gv1));
                assert(run_msgs(gv1) =~= seq![iv[idx as int]]);
                lemma_flat_push(gs0, gv1);
                assert(flat_msgs(gs1) =~= w.take(p + 1)) by {
                    assert(w.take(p) + seq![iv[idx as int]] =~= w.take(p + 1));
                }
                assert(well_grouped(gs1, my_did, when_to_fetch_more as int)) by {
                    assert forall|g: int, i: int|
                        0 <= g < gs1.len() && 0 <= i < gs1[g].messages.len()
                        implies (#[trigger] gs1[g].messages[i]).should_fetch_more
                            == (flat_msgs(gs1.take(g)).len() + i
                                < when_to_fetch_more as int) by {
                        if g < gs1.len() - 1 {
                            assert(gs1[g] == gs0[g]);
                            assert(gs1.take(g) =~= gs0.take(g));
                        } else {
                            assert(gs1.take(g) =~= gs0);
                            assert(gv1.messages.len() == 1);
                        }
                    }
                    assert forall|g: int| 1 <= g < gs1.len()
                        implies (#[trigger] gs1[g].sender) != gs1[g - 1].sender by {
                        if g < gs1.len() - 1 {
                            assert(gs1[g] == gs0[g]);
                        }
                    }
                }
            }
        }
        idx += 1;
    }
    proof {
        assert(w.take(w.len() as int) =~= w);
    }
    groups
}

} // verus!
