use crate::ids::{ChatId, Did, MsgId};
use vstd::prelude::*;

verus! {

/// One emoji together with the set of participants that reacted with it.
/// A reactor must not appear twice under the same emoji.
#[derive(Debug)]
pub struct Reaction {
    pub emoji: String,
    pub reactors: Vec<Did>,
}

/// The mathematical model of a reaction.
#[verifier::ext_equal]
pub ghost struct ReactionView {
    pub emoji: Seq<char>,
    pub reactors: Seq<Did>,
}

impl DeepView for Reaction {
    type V = ReactionView;

    open spec fn deep_view(&self) -> ReactionView {
        ReactionView { emoji: self.emoji@, reactors: self.reactors@ }
    }
}

impl View for Reaction {
    type V = ReactionView;

    open spec fn view(&self) -> ReactionView {
        self.deep_view()
    }
}

impl Clone for Reaction {
    fn clone(&self) -> (r: Self)
        ensures
            r@ == self@,
    {
        let r = Reaction { emoji: self.emoji.clone(), reactors: self.reactors.clone() };
        proof {
            assert(r.reactors@ =~= self.reactors@);
            assert(r@ =~= self@);
        }
        r
    }
}

/// A backend message record plus the UI-only annotations: a locally generated
/// correlation key for matching optimistic sends to confirmed events, and an
/// optional snapshot of the text this message replies to.
#[derive(Debug)]
pub struct ChatMessage {
    pub id: MsgId,
    pub conversation_id: ChatId,
    pub sender: Did,
    pub text: String,
    pub reactions: Vec<Reaction>,
    pub key: String,
    pub in_reply_to: Option<String>,
}

/// The mathematical model of a message.
#[verifier::ext_equal]
pub ghost struct MessageView {
    pub id: MsgId,
    pub conversation_id: ChatId,
    pub sender: Did,
    pub text: Seq<char>,
    pub reactions: Seq<ReactionView>,
    pub key: Seq<char>,
    pub in_reply_to: Option<Seq<char>>,
}

impl DeepView for ChatMessage {
    type V = MessageView;

    open spec fn deep_view(&self) -> MessageView {
        MessageView {
            id: self.id,
            conversation_id: self.conversation_id,
            sender: self.sender,
            text: self.text@,
            reactions: self.reactions.deep_view(),
            key: self.key@,
            in_reply_to: self.in_reply_to.deep_view(),
        }
    }
}

impl View for ChatMessage {
    type V = MessageView;

    open spec fn view(&self) -> MessageView {
        self.deep_view()
    }
}

impl Clone for ChatMessage {
    fn clone(&self) -> (r: Self)
        ensures
            r@ == self@,
    {
        let r = ChatMessage {
            id: self.id,
            conversation_id: self.conversation_id,
            sender: self.sender,
            text: self.text.clone(),
            reactions: clone_reactions(&self.reactions),
            key: self.key.clone(),
            in_reply_to: self.in_reply_to.clone(),
        };
        proof {
            assert(r@ =~= self@);
        }
        r
    }
}

/// An exact copy of a reaction list.
pub fn clone_reactions(v: &Vec<Reaction>) -> (r: Vec<Reaction>)
    ensures
        r.deep_view() == v.deep_view(),
{
    let r = v.clone();
    proof {
        assert forall|i: int| 0 <= i < v@.len() implies r.deep_view()[i]
            == v.deep_view()[i] by {
            assert(vstd::pervasive::cloned::<Reaction>(v@[i], r@[i]));
        }
        assert(r.deep_view() =~= v.deep_view());
    }
    r
}

/// An exact copy of a message list.
pub fn clone_messages(v: &Vec<ChatMessage>) -> (r: Vec<ChatMessage>)
    ensures
        r.deep_view() == v.deep_view(),
{
    let r = v.clone();
    proof {
        assert forall|i: int| 0 <= i < v@.len() implies r.deep_view()[i]
            == v.deep_view()[i] by {
            assert(vstd::pervasive::cloned::<ChatMessage>(v@[i], r@[i]));
        }
        assert(r.deep_view() =~= v.deep_view());
    }
    r
}

/// The participant list with duplicates dropped, keeping the first
/// occurrence of each key.
pub open spec fn dedup_first(s: Seq<Did>) -> Seq<Did>
    decreases s.len(),
{
    if s.len() == 0 {
        Seq::<Did>::empty()
    } else {
        let rest = dedup_first(s.drop_last());
        if rest.contains(s.last()) {
            rest
        } else {
            rest.push(s.last())
        }
    }
}

/// Removes duplicate participants, keeping the first occurrence of each.
pub fn dedup_dids(v: &Vec<Did>) -> (r: Vec<Did>)
    ensures
        r@ == dedup_first(v@),
        r@.no_duplicates(),
        forall|d: Did| #[trigger] r@.contains(d) <==> v@.contains(d),
{
    broadcast use vstd::seq_lib::lemma_seq_contains_after_push;

    let mut r: Vec<Did> = Vec::new();
    let mut i: usize = 0;
    while i < v.len()
        invariant
            i <= v.len(),
            r@.no_duplicates(),
            r@ == dedup_first(v@.take(i as int)),
            forall|d: Did| #[trigger] r@.contains(d) <==> v@.take(i as int).contains(d),
        decreases v.len() - i,
    {
        let d = v[i];
        let ghost r0 = r@;
        let ghost pre = v@.take(i as int);
        if !contains_did(&r, d) {
            r.push(d);
            proof {
                assert forall|j: int, k: int| 0 <= j < k < r@.len() implies r@[j] != r@[k] by {
                    if k == r@.len() - 1 {
                        assert(r@[j] == r0[j]);
                        assert(!r0.contains(d));
                    }
                }
            }
        }
        proof {
            assert(v@.take(i as int + 1) =~= pre.push(d));
            assert(v@.take(i as int + 1).drop_last() =~= pre);
            assert(v@.take(i as int + 1).last() == d);
            assert(r@ == dedup_first(v@.take(i as int + 1)));
            assert forall|x: Did| #[trigger] r@.contains(x)
                <==> v@.take(i as int + 1).contains(x) by {
                vstd::seq_lib::lemma_seq_contains_after_push(pre, d, x);
                if r0.contains(d) {
                    assert(r@ == r0);
                } else {
                    assert(r@ == r0.push(d));
                    vstd::seq_lib::lemma_seq_contains_after_push(r0, d, x);
                }
            }
        }
        i += 1;
    }
    proof {
        assert(v@.take(v@.len() as int) =~= v@);
    }
    r
}

/// Linear membership test on a participant list.
pub fn contains_did(v: &Vec<Did>, d: Did) -> (r: bool)
    ensures
        r == v@.contains(d),
{
    let mut i: usize = 0;
    while i < v.len()
        invariant
            i <= v.len(),
            forall|j: int| 0 <= j < i ==> v@[j] != d,
        decreases v.len() - i,
    {
        if v[i].0 == d.0 {
            return true;
        }
        i += 1;
    }
    false
}

} // verus!
