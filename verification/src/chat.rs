use crate::ids::{ChatId, Did, MsgId};
use crate::message::{dedup_first, ChatMessage, MessageView, Reaction, ReactionView};
use vstd::prelude::*;

verus! {

/// Conversation kind: one-to-one or group.
#[derive(Clone, Copy, PartialEq, Eq, Structural, Debug)]
pub enum ChatKind {
    Direct,
    Group,
}

/// A direct or group conversation: ordered message log, participant set,
/// unread and pending-outgoing counters, typing indicators and the
/// per-conversation UI fields (draft, reply target, pagination flag).
#[derive(Debug)]
pub struct Chat {
    pub id: ChatId,
    pub kind: ChatKind,
    pub participants: Vec<Did>,
    pub messages: Vec<ChatMessage>,
    pub name: Option<String>,
    pub creator: Option<Did>,
    pub unreads: u32,
    pub pending_outgoing_messages: u32,
    pub typing: Vec<(Did, u64)>,
    pub draft: Option<String>,
    pub replying_to: Option<ChatMessage>,
    pub has_more_messages: bool,
}

/// The mathematical model of a conversation.
#[verifier::ext_equal]
pub ghost struct ChatView {
    pub id: ChatId,
    pub kind: ChatKind,
    pub participants: Seq<Did>,
    pub messages: Seq<MessageView>,
    pub name: Option<Seq<char>>,
    pub creator: Option<Did>,
    pub unreads: u32,
    pub pending_outgoing_messages: u32,
    pub typing: Seq<(Did, u64)>,
    pub draft: Option<Seq<char>>,
    pub replying_to: Option<MessageView>,
    pub has_more_messages: bool,
}

impl DeepView for Chat {
    type V = ChatView;

    open spec fn deep_view(&self) -> ChatView {
        ChatView {
            id: self.id,
            kind: self.kind,
            participants: self.participants@,
            messages: self.messages.deep_view(),
            name: self.name.deep_view(),
            creator: self.creator,
            unreads: self.unreads,
            pending_outgoing_messages: self.pending_outgoing_messages,
            typing: self.typing@,
            draft: self.draft.deep_view(),
            replying_to: self.replying_to.deep_view(),
            has_more_messages: self.has_more_messages,
        }
    }
}

impl View for Chat {
    type V = ChatView;

    open spec fn view(&self) -> ChatView {
        self.deep_view()
    }
}

/// The typing map's keys, in entry order.
pub open spec fn typing_keys(t: Seq<(Did, u64)>) -> Seq<Did> {
    t.map_values(|e: (Did, u64)| e.0)
}

impl ChatView {
    /// Structural invariant: no participant or typing key occurs twice, and a
    /// direct conversation has exactly two participants and no name.
    pub open spec fn wf(self) -> bool {
        &&& self.participants.no_duplicates()
        &&& typing_keys(self.typing).no_duplicates()
        &&& self.kind == ChatKind::Direct ==> self.participants.len() == 2
            && self.name is None
    }
}

impl Chat {
    /// Structural invariant, on the executable value.
    pub open spec fn wf(self) -> bool {
        self.deep_view().wf()
    }

    /// A fresh conversation with an empty log and cleared counters.
    pub fn new(id: ChatId, kind: ChatKind, participants: Vec<Did>, name: Option<String>,
        creator: Option<Did>) -> (r: Chat)
        requires
            participants@.no_duplicates(),
            kind == ChatKind::Direct ==> participants@.len() == 2 && name is None,
        ensures
            r.wf(),
            r@ == (ChatView {
                id,
                kind,
                participants: participants@,
                messages: Seq::<MessageView>::empty(),
                name: name.deep_view(),
                creator,
                unreads: 0,
                pending_outgoing_messages: 0,
                typing: Seq::<(Did, u64)>::empty(),
                draft: None,
                replying_to: None,
                has_more_messages: false,
            }),
    {
        let r = Chat {
            id,
            kind,
            participants,
            messages: Vec::new(),
            name,
            creator,
            unreads: 0,
            pending_outgoing_messages: 0,
            typing: Vec::new(),
            draft: None,
            replying_to: None,
            has_more_messages: false,
        };
        proof {
            assert(r.messages.deep_view() =~= Seq::<MessageView>::empty());
            assert(r@ =~= (ChatView {
                id,
                kind,
                participants: r.participants@,
                messages: Seq::<MessageView>::empty(),
                name: r.name.deep_view(),
                creator,
                unreads: 0,
                pending_outgoing_messages: 0,
                typing: Seq::<(Did, u64)>::empty(),
                draft: None,
                replying_to: None,
                has_more_messages: false,
            }));
        }
        r
    }
}

impl Chat {
    /// Resets the unread counter.
    pub fn clear_unreads(&mut self)
        ensures
            (final(self)@ == ChatView { unreads: 0, ..old(self)@ }),
            final(self).wf() == old(self).wf(),
    {
        self.unreads = 0;
    }
}

impl Chat {
    /// Appends a message at the newest end of the log.
    pub fn push_message(&mut self, m: ChatMessage)
        ensures
            (final(self)@ == ChatView {
                messages: log_step(old(self)@.messages, LogOp::Append(m@)),
                ..old(self)@
            }),
            final(self).wf() == old(self).wf(),
    {
        self.messages.push(m);
        proof {
            assert(self.messages.deep_view()
                =~= old(self).messages.deep_view().push(m.deep_view()));
            assert(self@ =~= (ChatView {
                messages: log_step(old(self)@.messages, LogOp::Append(m@)),
                ..old(self)@
            }));
        }
    }

    /// Replaces in place the first message that carries the incoming
    /// message's identifier; a no-op when the log holds no such message.
    pub fn replace_message(&mut self, m: ChatMessage)
        ensures
            (final(self)@ == ChatView {
                messages: log_step(old(self)@.messages, LogOp::Replace(m@)),
                ..old(self)@
            }),
            final(self).wf() == old(self).wf(),
    {
        let ghost log0 = self@.messages;
        let mut i: usize = 0;
        let n = self.messages.len();
        while i < n
            invariant
                n == self.messages.len(),
                i <= n,
                *self == *old(self),
                forall|k: int| 0 <= k < i ==> log0[k].id != m.id,
                log0 == self@.messages,
            decreases n - i,
        {
            if self.messages[i].id.0 == m.id.0 {
                proof {
                    lemma_first_msg_index(log0, m.id, i as int);
                }
                self.messages.set(i, m);
                proof {
                    assert(self.messages.deep_view()
                        =~= log0.update(i as int, m.deep_view()));
                    assert(self@ =~= (ChatView {
                        messages: log_step(old(self)@.messages, LogOp::Replace(m@)),
                        ..old(self)@
                    }));
                }
                return;
            }
            i += 1;
        }
        proof {
            assert(!log_has_msg(log0, m@.id));
            assert(self@ =~= (ChatView {
                messages: log_step(old(self)@.messages, LogOp::Replace(m@)),
                ..old(self)@
            }));
        }
    }

    /// Removes from the log every message that carries the identifier.
    pub fn remove_message(&mut self, id: MsgId)
        ensures
            (final(self)@ == ChatView {
                messages: log_step(old(self)@.messages, LogOp::Remove(id)),
                ..old(self)@
            }),
            final(self).wf() == old(self).wf(),
    {
        let ghost log0 = self@.messages;
        let ghost pred = |m: MessageView| m.id != id;
        let mut kept: Vec<ChatMessage> = Vec::new();
        let mut i: usize = 0;
        let n = self.messages.len();
        while i < n
            invariant
                n == self.messages.len(),
                i <= n,
                *self == *old(self),
                log0 == self@.messages,
                pred == (|m: MessageView| m.id != id),
                kept.deep_view() == log0.take(i as int).filter(pred),
            decreases n - i,
        {
            let ghost prefix = log0.take(i as int);
            proof {
                assert(log0.take(i as int + 1) =~= prefix.push(log0[i as int]));
                assert(log0.take(i as int + 1).drop_last() =~= prefix);
                reveal(Seq::filter);
            }
            if self.messages[i].id.0 != id.0 {
                let m = self.messages[i].clone();
                kept.push(m);
                proof {
                    assert(kept.deep_view()
                        =~= log0.take(i as int + 1).filter(pred));
                }
            } else {
                proof {
                    assert(kept.deep_view()
                        =~= log0.take(i as int + 1).filter(pred));
                }
            }
            i += 1;
        }
        self.messages = kept;
        proof {
            assert(log0.take(log0.len() as int) =~= log0);
            assert(self@ =~= (ChatView {
                messages: log_step(old(self)@.messages, LogOp::Remove(id)),
                ..old(self)@
            }));
        }
    }
}

/// How a reaction update rebuilds a message's reaction list: the incoming
/// reactions in reverse order, each reactor set deduplicated.
pub open spec fn rebuilt_reactions(src: Seq<ReactionView>) -> Seq<ReactionView> {
    src.reverse().map_values(
        |r: ReactionView| ReactionView { emoji: r.emoji, reactors: dedup_first(r.reactors) },
    )
}

/// The message that replaces the stored one on a reaction update: the
/// incoming record with rebuilt reactions, keeping the stored UI-only
/// annotations (correlation key and reply snapshot).
pub open spec fn reaction_merged_msg(stored: MessageView, inc: MessageView) -> MessageView {
    MessageView {
        reactions: rebuilt_reactions(inc.reactions),
        key: stored.key,
        in_reply_to: stored.in_reply_to,
        ..inc
    }
}

impl Chat {
    /// Applies a reaction update carried by a full message record: locates
    /// the stored message by identifier and replaces it by the incoming one,
    /// with the reaction list rebuilt so that no reactor appears twice under
    /// one emoji; a no-op returning false when the message is not found.
    pub fn apply_reaction_update(&mut self, incoming: &ChatMessage) -> (updated: bool)
        ensures
            old(self).wf() ==> final(self).wf(),
            ({
                let log0 = old(self)@.messages;
                if log_has_msg(log0, incoming@.id) {
                    let i = first_msg_index(log0, incoming@.id);
                    updated && (final(self)@ == ChatView {
                        messages: log0.update(i, reaction_merged_msg(log0[i], incoming@)),
                        ..old(self)@
                    })
                } else {
                    !updated && final(self)@ == old(self)@
                }
            }),
    {
        let ghost log0 = self@.messages;
        let mut i: usize = 0;
        let n = self.messages.len();
        while i < n
            invariant
                n == self.messages.len(),
                i <= n,
                *self == *old(self),
                forall|k: int| 0 <= k < i ==> log0[k].id != incoming.id,
                log0 == self@.messages,
            decreases n - i,
        {
            if self.messages[i].id.0 == incoming.id.0 {
                proof {
                    lemma_first_msg_index(log0, incoming.id, i as int);
                }
                let rebuilt = rebuild_reactions(&incoming.reactions);
                let stored = &self.messages[i];
                let merged = ChatMessage {
                    id: incoming.id,
                    conversation_id: incoming.conversation_id,
                    sender: incoming.sender,
                    text: incoming.text.clone(),
                    reactions: rebuilt,
                    key: stored.key.clone(),
                    in_reply_to: stored.in_reply_to.clone(),
                };
                proof {
                    assert(merged@ =~= reaction_merged_msg(log0[i as int], incoming@));
                }
                self.messages.set(i, merged);
                proof {
                    assert(self.messages.deep_view()
                        =~= log0.update(i as int, reaction_merged_msg(log0[i as int], incoming@)));
                    assert(self@ =~= (ChatView {
                        messages: log0.update(
                            first_msg_index(log0, incoming@.id),
                            reaction_merged_msg(log0[first_msg_index(log0, incoming@.id)], incoming@),
                        ),
                        ..old(self)@
                    }));
                }
                return true;
            }
            i += 1;
        }
        proof {
            assert(!log_has_msg(log0, incoming@.id));
        }
        false
    }
}

/// Rebuilds a reaction list: reverses the order and deduplicates each
/// reactor set, keeping the first occurrence of each reactor.
pub fn rebuild_reactions(src: &Vec<Reaction>) -> (r: Vec<Reaction>)
    ensures
        r.deep_view() == rebuilt_reactions(src.deep_view()),
{
    let mut r: Vec<Reaction> = Vec::new();
    let mut j: usize = 0;
    while j < src.len()
        invariant
            j <= src.len(),
            r.deep_view() == rebuilt_reactions(src.deep_view().take(j as int)),
        decreases src.len() - j,
    {
        let users = crate::message::dedup_dids(&src[j].reactors);
        let item = Reaction { emoji: src[j].emoji.clone(), reactors: users };
        let ghost rv0 = r.deep_view();
        let ghost rq0 = r@;
        r.insert(0, item);
        proof {
            let ghost sv = src.deep_view();
            let ghost f = |x: ReactionView| ReactionView {
                emoji: x.emoji,
                reactors: dedup_first(x.reactors),
            };
            assert(r@ == rq0.insert(0, item));
            assert(rq0.insert(0, item) =~= rq0.subrange(0, 0).push(item)
                + rq0.subrange(0, rq0.len() as int));
            assert(r@.len() == rq0.len() + 1);
            assert(rq0.len() == rv0.len());
            assert(rv0.len() == rebuilt_reactions(src.deep_view().take(j as int)).len());
            assert(src.deep_view().take(j as int).len() == j as int);
            assert(r@[0] == item);
            assert forall|k: int| 1 <= k < r@.len() implies r@[k] == rq0[k - 1] by {
                assert(rq0.insert(0, item) =~= rq0.subrange(0, 0).push(item)
                    + rq0.subrange(0, rq0.len() as int));
            }
            assert(r.deep_view() =~= rebuilt_reactions(sv.take(j as int + 1))) by {
                assert forall|k: int| 0 <= k < j as int + 1 implies
                    r.deep_view()[k] == rebuilt_reactions(sv.take(j as int + 1))[k] by {
                    let t1 = sv.take(j as int + 1);
                    assert(rebuilt_reactions(t1)[k] == f(t1.reverse()[k]));
                    assert(t1.reverse()[k] == t1[t1.len() - 1 - k]);
                    assert(r.deep_view()[k] == r@[k].deep_view());
                    if k == 0 {
                        assert(r@[0].deep_view() == item.deep_view());
                        assert(item.deep_view() =~= f(sv[j as int]));
                        assert(t1[j as int] == sv[j as int]);
                    } else {
                        let t0 = sv.take(j as int);
                        assert(r@[k].deep_view() == rq0[k - 1].deep_view());
                        assert(rq0[k - 1].deep_view() == rv0[k - 1]);
                        assert(rv0[k - 1] == rebuilt_reactions(t0)[k - 1]);
                        assert(rebuilt_reactions(t0)[k - 1] == f(t0.reverse()[k - 1]));
                        assert(t0.reverse()[k - 1] == t0[t0.len() - k]);
                        assert(t0[t0.len() - k] == t1[t1.len() - 1 - k]);
                    }
                }
            }
        }
        j += 1;
    }
    proof {
        assert(src.deep_view().take(src.len() as int) =~= src.deep_view());
    }
    r
}

/// After this many ticks without a fresh indicator, a typing entry is stale.
pub const TYPING_WINDOW_TICKS: u64 = 5;

/// Whether some typing entry carries the key.
pub open spec fn typing_has_key(t: Seq<(Did, u64)>, d: Did) -> bool {
    exists|i: int| 0 <= i < t.len() && t[i].0 == d
}

/// Index of the first typing entry carrying the key (meaningful only when
/// `typing_has_key` holds).
pub open spec fn first_typing_index(t: Seq<(Did, u64)>, d: Did) -> int
    decreases t.len(),
{
    if t.len() == 0 {
        0
    } else if t[0].0 == d {
        0
    } else {
        1 + first_typing_index(t.drop_first(), d)
    }
}

/// A position whose key matches, before which no key matches, is the first
/// matching position.
pub proof fn lemma_first_typing_index(t: Seq<(Did, u64)>, d: Did, j: int)
    requires
        0 <= j < t.len(),
        t[j].0 == d,
        forall|k: int| 0 <= k < j ==> t[k].0 != d,
    ensures
        typing_has_key(t, d),
        first_typing_index(t, d) == j,
    decreases j,
{
    if j == 0 {
    } else {
        lemma_first_typing_index(t.drop_first(), d, j - 1);
    }
}

impl Chat {
    /// Records that a participant is typing at the given tick: refreshes the
    /// participant's entry, or adds one when none exists.
    pub fn set_typing(&mut self, d: Did, now: u64)
        ensures
            old(self).wf() ==> final(self).wf(),
            ({
                let t0 = old(self)@.typing;
                if typing_has_key(t0, d) {
                    final(self)@ == ChatView {
                        typing: t0.update(first_typing_index(t0, d), (d, now)),
                        ..old(self)@
                    }
                } else {
                    final(self)@ == ChatView { typing: t0.push((d, now)), ..old(self)@ }
                }
            }),
    {
        let ghost t0 = self@.typing;
        let mut i: usize = 0;
        let n = self.typing.len();
        while i < n
            invariant
                n == self.typing.len(),
                i <= n,
                *self == *old(self),
                forall|k: int| 0 <= k < i ==> t0[k].0 != d,
                t0 == self@.typing,
            decreases n - i,
        {
            if self.typing[i].0.0 == d.0 {
                proof {
                    lemma_first_typing_index(t0, d, i as int);
                }
                self.typing.set(i, (d, now));
                proof {
                    assert(self@ =~= (ChatView {
                        typing: t0.update(first_typing_index(t0, d), (d, now)),
                        ..old(self)@
                    }));
                    if old(self).wf() {
                        assert(typing_keys(self.typing@)
                            =~= typing_keys(t0).update(i as int, d));
                        assert(typing_keys(t0)[i as int] == d);
                        assert(typing_keys(self.typing@) =~= typing_keys(t0));
                    }
                }
                return;
            }
            i += 1;
        }
        self.typing.push((d, now));
        proof {
            assert(self@ =~= (ChatView { typing: t0.push((d, now)), ..old(self)@ }));
            if old(self).wf() {
                assert(typing_keys(self.typing@) =~= typing_keys(t0).push(d));
                assert forall|p: int, q: int|
                    0 <= p < q < typing_keys(self.typing@).len()
                    implies typing_keys(self.typing@)[p] != typing_keys(self.typing@)[q] by {
                    if q == typing_keys(self.typing@).len() - 1 {
                        assert(typing_keys(t0)[p] == t0[p].0);
                    }
                }
            }
        }
    }

    /// Drops the typing entry of a participant, if one exists.
    pub fn remove_typing(&mut self, d: Did)
        ensures
            old(self).wf() ==> final(self).wf(),
            ({
                let t0 = old(self)@.typing;
                if typing_has_key(t0, d) {
                    final(self)@ == ChatView {
                        typing: t0.remove(first_typing_index(t0, d)),
                        ..old(self)@
                    }
                } else {
                    final(self)@ == old(self)@
                }
            }),
    {
        let ghost t0 = self@.typing;
        let mut i: usize = 0;
        let n = self.typing.len();
        while i < n
            invariant
                n == self.typing.len(),
                i <= n,
                *self == *old(self),
                forall|k: int| 0 <= k < i ==> t0[k].0 != d,
                t0 == self@.typing,
            decreases n - i,
        {
            if self.typing[i].0.0 == d.0 {
                proof {
                    lemma_first_typing_index(t0, d, i as int);
                }
                self.typing.remove(i);
                proof {
                    assert(self@ =~= (ChatView {
                        typing: t0.remove(first_typing_index(t0, d)),
                        ..old(self)@
                    }));
                    if old(self).wf() {
                        assert(typing_keys(self.typing@)
                            =~= typing_keys(t0).remove(i as int));
                        assert forall|p: int, q: int|
                            0 <= p < q < typing_keys(self.typing@).len()
                            implies typing_keys(self.typing@)[p]
                                != typing_keys(self.typing@)[q] by {
                            let ks = typing_keys(t0);
                            let pp = if p < i as int { p } else { p + 1 };
                            let qq = if q < i as int { q } else { q + 1 };
                            assert(typing_keys(self.typing@)[p] == ks[pp]);
                            assert(typing_keys(self.typing@)[q] == ks[qq]);
                        }
                    }
                }
                return;
            }
            i += 1;
        }
    }

    /// A typing entry stamped at `stamp` is still fresh at `now`.
    pub open spec fn typing_fresh(stamp: u64, now: u64) -> bool {
        now < stamp + TYPING_WINDOW_TICKS
    }

    /// The typing map with every stale entry dropped.
    pub open spec fn typing_pruned(t: Seq<(Did, u64)>, now: u64) -> Seq<(Did, u64)> {
        t.filter(|e: (Did, u64)| Chat::typing_fresh(e.1, now))
    }

    /// The entry occurs among the first `bound` positions of `t0`.
    pub open spec fn entry_within(t0: Seq<(Did, u64)>, bound: int, e: (Did, u64)) -> bool {
        exists|m: int| 0 <= m < bound && t0[m] == e
    }

    /// Drops every typing entry whose stamp has gone stale at `now`; returns
    /// whether any entry was dropped.
    pub fn prune_typing(&mut self, now: u64) -> (changed: bool)
        ensures
            old(self).wf() ==> final(self).wf(),
            (final(self)@ == ChatView {
                typing: Chat::typing_pruned(old(self)@.typing, now),
                ..old(self)@
            }),
            changed == (final(self)@.typing.len() != old(self)@.typing.len()),
    {
        let ghost t0 = self@.typing;
        let ghost pred = |e: (Did, u64)| Chat::typing_fresh(e.1, now);
        let mut kept: Vec<(Did, u64)> = Vec::new();
        let mut i: usize = 0;
        let n = self.typing.len();
        while i < n
            invariant
                n == self.typing.len(),
                i <= n,
                *self == *old(self),
                t0 == self@.typing,
                pred == (|e: (Did, u64)| Chat::typing_fresh(e.1, now)),
                kept@ == t0.take(i as int).filter(pred),
                forall|k: int| 0 <= k < kept@.len()
                    ==> #[trigger] Chat::entry_within(t0, i as int, kept@[k]),
                old(self).wf() ==> typing_keys(kept@).no_duplicates(),
            decreases n - i,
        {
            let ghost prefix = t0.take(i as int);
            proof {
                assert(t0.take(i as int + 1) =~= prefix.push(t0[i as int]));
                assert(t0.take(i as int + 1).drop_last() =~= prefix);
                reveal(Seq::filter);
            }
            let e = self.typing[i];
            let fresh = match e.1.checked_add(TYPING_WINDOW_TICKS) {
                Some(limit) => now < limit,
                None => true,
            };
            let ghost kept0 = kept@;
            if fresh {
                kept.push(e);
                proof {
                    assert(kept@ =~= t0.take(i as int + 1).filter(pred));
                    assert forall|k: int| 0 <= k < kept@.len()
                        implies #[trigger] Chat::entry_within(t0, i as int + 1, kept@[k]) by {
                        if k == kept@.len() - 1 {
                            assert(t0[i as int] == kept@[k]);
                        } else {
                            assert(kept@[k] == kept0[k]);
                            assert(Chat::entry_within(t0, i as int, kept0[k]));
                        }
                    }
                    if old(self).wf() {
                        let ks = typing_keys(kept@);
                        assert(ks =~= typing_keys(kept0).push(e.0));
                        assert forall|pp: int, q: int| 0 <= pp < q < ks.len()
                            implies ks[pp] != ks[q] by {
                            if q == ks.len() - 1 {
                                assert(Chat::entry_within(t0, i as int, kept0[pp]));
                                let m = choose|m: int| 0 <= m < i as int
                                    && t0[m] == kept0[pp];
                                assert(typing_keys(t0)[m] == kept0[pp].0);
                                assert(typing_keys(t0)[i as int] == e.0);
                                assert(ks[pp] == kept0[pp].0);
                            } else {
                                assert(typing_keys(kept0)[pp] == ks[pp]);
                                assert(typing_keys(kept0)[q] == ks[q]);
                            }
                        }
                    }
                }
            } else {
                proof {
                    assert(kept@ =~= t0.take(i as int + 1).filter(pred));
                    assert forall|k: int| 0 <= k < kept@.len()
                        implies #[trigger] Chat::entry_within(t0, i as int + 1, kept@[k]) by {
                        assert(Chat::entry_within(t0, i as int, kept@[k]));
                    }
                }
            }
            i += 1;
        }
        proof {
            assert(t0.take(t0.len() as int) =~= t0);
        }
        let changed = kept.len() != self.typing.len();
        self.typing = kept;
        proof {
            assert(self@ =~= (ChatView {
                typing: t0.filter(pred),
                ..old(self)@
            }));
        }
        changed
    }
}

impl Chat {
    /// Bumps the unread counter by one, saturating at the largest value.
    pub fn bump_unreads(&mut self)
        ensures
            (final(self)@ == ChatView {
                unreads: if old(self).unreads < u32::MAX {
                    (old(self).unreads + 1) as u32
                } else {
                    u32::MAX
                },
                ..old(self)@
            }),
            final(self).wf() == old(self).wf(),
    {
        self.unreads = self.unreads.saturating_add(1);
    }

    /// Notes one more optimistic outgoing send, saturating at the largest
    /// value.
    pub fn increment_pending(&mut self)
        ensures
            (final(self)@ == ChatView {
                pending_outgoing_messages: if old(self).pending_outgoing_messages < u32::MAX {
                    (old(self).pending_outgoing_messages + 1) as u32
                } else {
                    u32::MAX
                },
                ..old(self)@
            }),
            final(self).wf() == old(self).wf(),
    {
        self.pending_outgoing_messages = self.pending_outgoing_messages.saturating_add(1);
    }

    /// Notes one confirmed or failed outgoing send, saturating at zero.
    pub fn decrement_pending(&mut self)
        ensures
            (final(self)@ == ChatView {
                pending_outgoing_messages: if old(self).pending_outgoing_messages > 0 {
                    (old(self).pending_outgoing_messages - 1) as u32
                } else {
                    0
                },
                ..old(self)@
            }),
            final(self).wf() == old(self).wf(),
    {
        self.pending_outgoing_messages = self.pending_outgoing_messages.saturating_sub(1);
    }

    /// Stores the draft text.
    pub fn set_draft(&mut self, value: Option<String>)
        ensures
            (final(self)@ == ChatView { draft: value.deep_view(), ..old(self)@ }),
            final(self).wf() == old(self).wf(),
    {
        self.draft = value;
    }

    /// Stores the message being replied to.
    pub fn set_replying_to(&mut self, value: Option<ChatMessage>)
        ensures
            (final(self)@ == ChatView { replying_to: value.deep_view(), ..old(self)@ }),
            final(self).wf() == old(self).wf(),
    {
        self.replying_to = value;
    }

    /// Clears the pagination flag once the full history is loaded.
    pub fn set_has_more(&mut self, value: bool)
        ensures
            (final(self)@ == ChatView { has_more_messages: value, ..old(self)@ }),
            final(self).wf() == old(self).wf(),
    {
        self.has_more_messages = value;
    }

    /// Inserts older messages, given newest first, at the oldest end of the
    /// log: the log gains the reversed page as its new prefix.
    pub fn prepend_messages(&mut self, page: Vec<ChatMessage>)
        ensures
            (final(self)@ == ChatView {
                messages: page.deep_view().reverse() + old(self)@.messages,
                ..old(self)@
            }),
            final(self).wf() == old(self).wf(),
    {
        let ghost log0 = self@.messages;
        let ghost pv = page.deep_view();
        let mut i: usize = 0;
        let n = page.len();
        let mut page = page;
        while i < n
            invariant
                n == page.len(),
                i <= n,
                page.deep_view() == pv,
                self.messages.deep_view()
                    == pv.subrange(0, i as int).reverse() + log0,
                self.id == old(self).id,
                self.kind == old(self).kind,
                self.participants == old(self).participants,
                self.name == old(self).name,
                self.creator == old(self).creator,
                self.unreads == old(self).unreads,
                self.pending_outgoing_messages == old(self).pending_outgoing_messages,
                self.typing == old(self).typing,
                self.draft == old(self).draft,
                self.replying_to == old(self).replying_to,
                self.has_more_messages == old(self).has_more_messages,
            decreases n - i,
    {
            let ghost before = self.messages.deep_view();
            let ghost q0 = self.messages@;
            let m = page[i].clone();
            self.messages.insert(0, m);
            proof {
                let ghost mviews = self.messages.deep_view();
                assert(self.messages@ == q0.insert(0, m));
                assert(q0.insert(0, m) =~= q0.subrange(0, 0).push(m)
                    + q0.subrange(0, q0.len() as int));
                assert(self.messages@.len() == q0.len() + 1);
                assert(self.messages@[0] == m);
                assert(m.deep_view() == pv[i as int]);
                assert forall|k: int| 1 <= k < self.messages@.len()
                    implies self.messages@[k] == q0[k - 1] by {}
                assert forall|k: int| 0 <= k < mviews.len()
                    implies mviews[k] == (seq![pv[i as int]] + before)[k] by {
                    assert(mviews[k] == self.messages@[k].deep_view());
                    if k > 0 {
                        assert(q0[k - 1].deep_view() == before[k - 1]);
                    }
                }
                assert(mviews =~= seq![pv[i as int]] + before);
                assert(mviews =~= pv.subrange(0, i as int + 1).reverse() + log0) by {
                    assert forall|k: int| 0 <= k < mviews.len()
                        implies mviews[k]
                            == (pv.subrange(0, i as int + 1).reverse() + log0)[k] by {
                        let r1 = pv.subrange(0, i as int + 1).reverse();
                        if k == 0 {
                            assert(r1[0] == pv.subrange(0, i as int + 1)[i as int]);
                        } else if k < i as int + 1 {
                            let r0 = pv.subrange(0, i as int).reverse();
                            assert(r1[k] == pv.subrange(0, i as int + 1)[i as int - k]);
                            assert(r0[k - 1] == pv.subrange(0, i as int)[i as int - k]);
                            assert(before[k - 1] == r0[k - 1]);
                        } else {
                            assert(before[k - 1] == log0[k - 1 - i as int]);
                        }
                    }
                }
            }
            i += 1;
        }
        proof {
            assert(pv.subrange(0, n as int) =~= pv);
            assert(self@ =~= (ChatView {
                messages: pv.reverse() + log0,
                ..old(self)@
            }));
        }
    }
}

/// An exact copy of a participant list.
pub fn copy_dids(v: &Vec<Did>) -> (r: Vec<Did>)
    ensures
        r@ == v@,
{
    let mut r: Vec<Did> = Vec::new();
    let mut i: usize = 0;
    while i < v.len()
        invariant
            i <= v.len(),
            r@ == v@.take(i as int),
        decreases v.len() - i,
    {
        r.push(v[i]);
        proof {
            assert(v@.take(i as int + 1) =~= v@.take(i as int).push(v@[i as int]));
        }
        i += 1;
    }
    proof {
        assert(v@.take(v@.len() as int) =~= v@);
    }
    r
}

/// An exact copy of a typing map.
pub fn copy_typing(v: &Vec<(Did, u64)>) -> (r: Vec<(Did, u64)>)
    ensures
        r@ == v@,
{
    let mut r: Vec<(Did, u64)> = Vec::new();
    let mut i: usize = 0;
    while i < v.len()
        invariant
            i <= v.len(),
            r@ == v@.take(i as int),
        decreases v.len() - i,
    {
        r.push(v[i]);
        proof {
            assert(v@.take(i as int + 1) =~= v@.take(i as int).push(v@[i as int]));
        }
        i += 1;
    }
    proof {
        assert(v@.take(v@.len() as int) =~= v@);
    }
    r
}

impl Clone for Chat {
    fn clone(&self) -> (r: Self)
        ensures
            r@ == self@,
            r.wf() == self.wf(),
    {
        let r = Chat {
            id: self.id,
            kind: self.kind,
            participants: copy_dids(&self.participants),
            messages: crate::message::clone_messages(&self.messages),
            name: self.name.clone(),
            creator: self.creator,
            unreads: self.unreads,
            pending_outgoing_messages: self.pending_outgoing_messages,
            typing: copy_typing(&self.typing),
            draft: self.draft.clone(),
            replying_to: self.replying_to.clone(),
            has_more_messages: self.has_more_messages,
        };
        proof {
            assert(r.replying_to.deep_view() =~= self.replying_to.deep_view()) by {
                if self.replying_to is Some {
                    let a = self.replying_to.unwrap();
                    let b = r.replying_to.unwrap();
                    assert(vstd::pervasive::cloned::<ChatMessage>(a, b));
                    assert(b.deep_view() == a.deep_view());
                }
            }
            assert(r@ =~= self@);
        }
        r
    }
}

impl Chat {
    /// Replaces the participant set from the authoritative backend record,
    /// dropping duplicate keys. A direct conversation keeps its invariant:
    /// a record that does not carry exactly its two participants is ignored.
    pub fn set_participants(&mut self, recipients: &Vec<Did>)
        ensures
            old(self).wf() ==> final(self).wf(),
            ({
                let deduped = dedup_first(recipients@);
                if old(self).kind == ChatKind::Direct && deduped.len() != 2 {
                    final(self)@ == old(self)@
                } else {
                    final(self)@ == ChatView { participants: deduped, ..old(self)@ }
                }
            }),
    {
        let deduped = crate::message::dedup_dids(recipients);
        if self.kind == ChatKind::Direct && deduped.len() != 2 {
            return;
        }
        self.participants = deduped;
        proof {
            assert(self@ =~= (ChatView {
                participants: dedup_first(recipients@),
                ..old(self)@
            }));
        }
    }

    /// Replaces the conversation name from the authoritative backend record.
    /// A direct conversation carries no name: a name update for one is
    /// ignored.
    pub fn set_name(&mut self, name: Option<String>)
        ensures
            old(self).wf() ==> final(self).wf(),
            ({
                if old(self).kind == ChatKind::Direct && name is Some {
                    final(self)@ == old(self)@
                } else {
                    final(self)@ == ChatView { name: name.deep_view(), ..old(self)@ }
                }
            }),
    {
        if self.kind == ChatKind::Direct && name.is_some() {
            return;
        }
        self.name = name;
    }
}

// ------------------------------------------------------------------
// Reference model of the message log: the three mutations a log admits.
// ------------------------------------------------------------------

/// One step of the in-memory reference model of a conversation's log.
pub ghost enum LogOp {
    /// Append a message at the newest end.
    Append(MessageView),
    /// Replace the first message carrying the same identifier; keep the log
    /// unchanged when no message carries it.
    Replace(MessageView),
    /// Remove every message carrying the identifier.
    Remove(MsgId),
}

/// Whether some message in the log carries the identifier.
pub open spec fn log_has_msg(log: Seq<MessageView>, id: MsgId) -> bool {
    exists|i: int| 0 <= i < log.len() && log[i].id == id
}

/// Index of the first message carrying the identifier (meaningful only when
/// `log_has_msg` holds).
pub open spec fn first_msg_index(log: Seq<MessageView>, id: MsgId) -> int
    decreases log.len(),
{
    if log.len() == 0 {
        0
    } else if log[0].id == id {
        0
    } else {
        1 + first_msg_index(log.drop_first(), id)
    }
}

/// The reference model: what one log mutation does.
pub open spec fn log_step(log: Seq<MessageView>, op: LogOp) -> Seq<MessageView> {
    match op {
        LogOp::Append(m) => log.push(m),
        LogOp::Replace(m) => if log_has_msg(log, m.id) {
            log.update(first_msg_index(log, m.id), m)
        } else {
            log
        },
        LogOp::Remove(id) => log.filter(|m: MessageView| m.id != id),
    }
}

/// The reference model folded over a whole sequence of log mutations.
pub open spec fn log_replay(log: Seq<MessageView>, ops: Seq<LogOp>) -> Seq<MessageView>
    decreases ops.len(),
{
    if ops.len() == 0 {
        log
    } else {
        log_step(log_replay(log, ops.drop_last()), ops.last())
    }
}

/// A position that matches the identifier, before which nothing matches, is
/// the first matching position.
pub proof fn lemma_first_msg_index(log: Seq<MessageView>, id: MsgId, j: int)
    requires
        0 <= j < log.len(),
        log[j].id == id,
        forall|k: int| 0 <= k < j ==> log[k].id != id,
    ensures
        log_has_msg(log, id),
        first_msg_index(log, id) == j,
    decreases j,
{
    if j == 0 {
    } else {
        lemma_first_msg_index(log.drop_first(), id, j - 1);
    }
}

} // verus!
