use crate::chat::{log_replay, log_step, LogOp};
use crate::ids::ChatId;
use crate::message::MessageView;
use crate::state::{chat_index_of, first_cid_index, has_chat, ChatsView, StateView};
use crate::state_events::cleared_unreads;
use vstd::prelude::*;

verus! {

/// A conversation's unread counter as a reader sees it: lookups are total,
/// and a missing conversation reads as zero.
pub open spec fn unreads_of(s: StateView, c: ChatId) -> u32 {
    if has_chat(s.chats.all, c) {
        s.chats.all[chat_index_of(s.chats.all, c)].unreads
    } else {
        0
    }
}

/// Two tables that agree on every conversation identifier agree on lookup:
/// presence and first position of any identifier coincide.
pub proof fn lemma_chat_lookup_congruent(a: Seq<crate::chat::ChatView>,
    b: Seq<crate::chat::ChatView>, id: ChatId)
    requires
        a.len() == b.len(),
        forall|i: int| 0 <= i < a.len() ==> (#[trigger] a[i]).id == b[i].id,
    ensures
        has_chat(a, id) == has_chat(b, id),
        chat_index_of(a, id) == chat_index_of(b, id),
    decreases a.len(),
{
    if a.len() == 0 {
    } else if a[0].id == id {
        assert(has_chat(a, id));
        assert(has_chat(b, id));
    } else {
        lemma_chat_lookup_congruent(a.drop_first(), b.drop_first(), id);
        if has_chat(a.drop_first(), id) {
            let i = choose|i: int| 0 <= i < a.drop_first().len()
                && a.drop_first()[i].id == id;
            assert(a[i + 1].id == id);
            assert(b[i + 1].id == id);
        }
        if has_chat(a, id) {
            let i = choose|i: int| 0 <= i < a.len() && a[i].id == id;
            assert(a.drop_first()[i - 1].id == id);
        }
        if has_chat(b, id) {
            let i = choose|i: int| 0 <= i < b.len() && b[i].id == id;
            assert(b.drop_first()[i - 1].id == id);
        }
    }
}

/// Replaying a chain of log mutations, each step taken by the reference
/// model, lands on the reference model's fold: the final message log of
/// any event run equals the reference replay of the same run.
pub proof fn lemma_log_matches_reference(logs: Seq<Seq<MessageView>>, ops: Seq<LogOp>)
    requires
        logs.len() == ops.len() + 1,
        logs[0] == Seq::<MessageView>::empty(),
        forall|i: int| 0 <= i < ops.len()
            ==> logs[i + 1] == log_step(#[trigger] logs[i], ops[i]),
    ensures
        logs.last() == log_replay(Seq::<MessageView>::empty(), ops),
    decreases ops.len(),
{
    if ops.len() == 0 {
    } else {
        let logs0 = logs.drop_last();
        let ops0 = ops.drop_last();
        assert forall|i: int| 0 <= i < ops0.len()
            implies logs0[i + 1] == log_step(#[trigger] logs0[i], ops0[i]) by {
            assert(logs0[i] == logs[i]);
            assert(logs0[i + 1] == logs[i + 1]);
        }
        lemma_log_matches_reference(logs0, ops0);
        assert(logs[ops.len() - 1 + 1] == log_step(logs[ops.len() - 1], ops[ops.len() - 1]));
        assert(logs0.last() == logs[ops.len() - 1]);
    }
}

/// Clearing a conversation's unread counter is idempotent: after one
/// clearing the counter reads zero, and clearing again changes nothing
/// and still reads zero.
pub proof fn lemma_clear_unreads_idempotent(s0: StateView, s1: StateView, s2: StateView,
    c: ChatId)
    requires
        cleared_unreads(s0, s1, c),
        cleared_unreads(s1, s2, c),
    ensures
        unreads_of(s1, c) == 0,
        unreads_of(s2, c) == 0,
        s2 == s1,
{
    if has_chat(s0.chats.all, c) {
        crate::state::lemma_chat_index_bounds(s0.chats.all, c);
        let i = chat_index_of(s0.chats.all, c);
        let c1 = crate::chat::ChatView { unreads: 0, ..s0.chats.all[i] };
        assert(s1.chats.all == s0.chats.all.update(i, c1));
        assert(s0.chats.all.update(i, c1).len() == s0.chats.all.len());
        assert forall|k: int| 0 <= k < s0.chats.all.len()
            implies (#[trigger] s0.chats.all[k]).id == s1.chats.all[k].id by {
            assert(s1.chats.all[k] == s0.chats.all.update(i, c1)[k]);
        }
        lemma_chat_lookup_congruent(s0.chats.all, s1.chats.all, c);
        assert(s1.chats.all[i].unreads == 0);
        let c2 = crate::chat::ChatView { unreads: 0, ..s1.chats.all[i] };
        assert(s2.chats.all == s1.chats.all.update(i, c2));
        assert(s1.chats.all.update(i, c2).len() == s1.chats.all.len());
        assert forall|k: int| 0 <= k < s1.chats.all.len()
            implies (#[trigger] s1.chats.all[k]).id == s2.chats.all[k].id by {
            assert(s2.chats.all[k] == s1.chats.all.update(i, c2)[k]);
        }
        lemma_chat_lookup_congruent(s1.chats.all, s2.chats.all, c);
        assert(c2 =~= s1.chats.all[i]);
        assert(s2.chats.all =~= s1.chats.all);
        assert(s2 =~= s1);
    }
}

/// The favorites ordering after one favorite toggle.
pub open spec fn toggled_favorites(f: Seq<ChatId>, c: ChatId) -> Seq<ChatId> {
    if f.contains(c) {
        f.remove(first_cid_index(f, c))
    } else {
        f.push(c)
    }
}

/// One favorite toggle as a whole-snapshot transition (the shape behind
/// the toggle action).
pub open spec fn favorite_toggled(s0: StateView, s1: StateView, c: ChatId) -> bool {
    s1 == StateView {
        chats: ChatsView {
            favorites: toggled_favorites(s0.chats.favorites, c),
            ..s0.chats
        },
        ..s0
    }
}

/// A matching position exists below the first matching position's bound.
proof fn lemma_first_cid_found(f: Seq<ChatId>, c: ChatId)
    requires
        f.contains(c),
    ensures
        0 <= first_cid_index(f, c) < f.len(),
        f[first_cid_index(f, c)] == c,
        forall|k: int| 0 <= k < first_cid_index(f, c) ==> f[k] != c,
    decreases f.len(),
{
    if f.len() == 0 {
    } else if f[0] == c {
    } else {
        assert(f.drop_first().contains(c)) by {
            let i = choose|i: int| 0 <= i < f.len() && f[i] == c;
            assert(f.drop_first()[i - 1] == c);
        }
        lemma_first_cid_found(f.drop_first(), c);
        assert forall|k: int| 0 <= k < first_cid_index(f, c) implies f[k] != c by {
            if k > 0 {
                assert(f.drop_first()[k - 1] == f[k]);
            }
        }
    }
}

/// Toggling the same conversation twice restores the favorites membership
/// of every conversation, provided the ordering holds no duplicates (the
/// snapshot invariant `StateView::wf` guarantees that).
pub proof fn lemma_toggle_favorite_membership(s0: StateView, s1: StateView, s2: StateView,
    c: ChatId)
    requires
        favorite_toggled(s0, s1, c),
        favorite_toggled(s1, s2, c),
        s0.chats.favorites.no_duplicates(),
    ensures
        forall|id: ChatId| #[trigger] s2.chats.favorites.contains(id)
            <==> s0.chats.favorites.contains(id),
{
    lemma_toggle_favorite_involution_cases(s0, s1, s2, c);
}

/// Toggling the same conversation twice restores the favorites ordering
/// exactly, provided the ordering holds no duplicates and the conversation
/// is absent or stands at the end; and it restores membership always.
proof fn lemma_toggle_favorite_involution_cases(s0: StateView, s1: StateView, s2: StateView,
    c: ChatId)
    requires
        favorite_toggled(s0, s1, c),
        favorite_toggled(s1, s2, c),
        s0.chats.favorites.no_duplicates(),
    ensures
        forall|id: ChatId| #[trigger] s2.chats.favorites.contains(id)
            <==> s0.chats.favorites.contains(id),
        (!s0.chats.favorites.contains(c) || s0.chats.favorites.last() == c) ==> s2 == s0,
{
    let f0 = s0.chats.favorites;
    let f1 = s1.chats.favorites;
    let f2 = s2.chats.favorites;
    broadcast use vstd::seq_lib::lemma_seq_contains_after_push;

    if !f0.contains(c) {
        assert(f1 == f0.push(c));
        assert(f1.contains(c)) by {
            assert(f1.last() == c);
        }
        lemma_first_cid_found(f1, c);
        let j = first_cid_index(f1, c);
        assert(f1[f1.len() - 1] == c);
        assert(j == f1.len() - 1) by {
            if j < f1.len() - 1 {
                assert(f1[j] == f0[j]);
                assert(f0.contains(c));
            }
        }
        assert(f2 == f1.remove(j));
        assert(f2 =~= f0);
        assert(s2 =~= s0);
    } else {
        lemma_first_cid_found(f0, c);
        let j = first_cid_index(f0, c);
        assert(f1 == f0.remove(j));
        if f1.contains(c) {
            let k = choose|k: int| 0 <= k < f1.len() && f1[k] == c;
            let kk = if k < j { k } else { k + 1 };
            assert(f0[kk] == c);
            assert(f0[j] == c);
            assert(false);
        }
        assert(f2 == f1.push(c));
        assert forall|id: ChatId| #[trigger] f2.contains(id) <==> f0.contains(id) by {
            assert(f2.contains(id) <==> id == c || f1.contains(id));
            if f1.contains(id) {
                let k = choose|k: int| 0 <= k < f1.len() && f1[k] == id;
                let kk = if k < j { k } else { k + 1 };
                assert(f0[kk] == id);
            }
            if f0.contains(id) && id != c {
                let k = choose|k: int| 0 <= k < f0.len() && f0[k] == id;
                if k < j {
                    assert(f1[k] == id);
                } else {
                    assert(k != j);
                    assert(f1[k - 1] == id);
                }
            }
        }
        if f0.last() == c {
            assert(j == f0.len() - 1) by {
                if j < f0.len() - 1 {
                    assert(f0[j] == f0[f0.len() - 1]);
                }
            }
            assert(f1 =~= f0.drop_last());
            assert(f2 =~= f0);
            assert(s2 =~= s0);
        }
    }
}

/// Toggling the same conversation twice restores the favorites ordering
/// exactly, when the toggled conversation was absent or stood at the end
/// of a duplicate-free ordering. (A conversation toggled out of the middle
/// returns at the end instead.)
pub proof fn lemma_toggle_favorite_involution(s0: StateView, s1: StateView, s2: StateView,
    c: ChatId)
    requires
        favorite_toggled(s0, s1, c),
        favorite_toggled(s1, s2, c),
        s0.chats.favorites.no_duplicates(),
        !s0.chats.favorites.contains(c) || s0.chats.favorites.last() == c,
    ensures
        s2 == s0,
{
    lemma_toggle_favorite_involution_cases(s0, s1, s2, c);
}

/// The friend-request lifecycle invariant: under the friendship graph's
/// four-set invariant — which every request, acceptance, block and unblock
/// preserves — an identifier never lies in more than one of friends,
/// outgoing requests and incoming requests at a time.
pub proof fn lemma_request_sets_exclusive(f: crate::friends::FriendsView,
    d: crate::ids::Did)
    requires
        f.wf(),
    ensures
        !(f.all.contains(d) && f.incoming_requests.contains(d)),
        !(f.all.contains(d) && f.outgoing_requests.contains(d)),
        !(f.incoming_requests.contains(d) && f.outgoing_requests.contains(d)),
{
}

/// Receiving a message in a conversation that is not the one open in
/// compose view raises that conversation's unread counter by exactly one
/// (as long as the counter has room below its machine bound); received in
/// the open conversation, the counter stands still.
pub proof fn lemma_received_unreads(s0: StateView, c: ChatId, m: crate::message::MessageView)
    requires
        has_chat(s0.chats.all, c),
    ensures
        crate::state::view_counts_unread(s0, c) && unreads_of(s0, c) < u32::MAX
            ==> unreads_of(crate::state_events::received_step(s0, c, m), c)
                == unreads_of(s0, c) + 1,
        !crate::state::view_counts_unread(s0, c)
            ==> unreads_of(crate::state_events::received_step(s0, c, m), c)
                == unreads_of(s0, c),
{
    crate::state::lemma_chat_index_bounds(s0.chats.all, c);
    let i = chat_index_of(s0.chats.all, c);
    let s1 = crate::state_events::received_step(s0, c, m);
    let c1 = crate::state::chat_with_message(s0.chats.all[i], m,
        crate::state::view_counts_unread(s0, c));
    assert(s1.chats.all == s0.chats.all.update(i, c1));
    assert(s0.chats.all.update(i, c1).len() == s0.chats.all.len());
    assert forall|k: int| 0 <= k < s0.chats.all.len()
        implies (#[trigger] s0.chats.all[k]).id == s1.chats.all[k].id by {
        assert(s1.chats.all[k] == s0.chats.all.update(i, c1)[k]);
    }
    lemma_chat_lookup_congruent(s0.chats.all, s1.chats.all, c);
}

} // verus!
