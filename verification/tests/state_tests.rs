use uplink_core::action::Action;
use uplink_core::chat::{Chat, ChatKind, TYPING_WINDOW_TICKS};
use uplink_core::events::{MessageEvent, MultiPassEvent, RayGunEvent, WarpEvent};
use uplink_core::identity::{Identity, IdentityStatus};
use uplink_core::ids::{ChatId, Did, MsgId};
use uplink_core::message::{ChatMessage, Reaction};
use uplink_core::state::State;
use uplink_core::ui::Layout;

fn ident(n: u64, name: &str) -> Identity {
    Identity::new(Did(n), String::from(name))
}

fn msg(id: u64, conv: u64, sender: u64, text: &str) -> ChatMessage {
    ChatMessage {
        id: MsgId(id),
        conversation_id: ChatId(conv),
        sender: Did(sender),
        text: String::from(text),
        reactions: Vec::new(),
        key: String::from("k"),
        in_reply_to: None,
    }
}

fn direct_chat(id: u64, a: u64, b: u64) -> Chat {
    Chat::new(ChatId(id), ChatKind::Direct, vec![Did(a), Did(b)], None, None)
}

fn group_chat(id: u64, members: Vec<u64>, name: Option<&str>) -> Chat {
    let participants: Vec<Did> = members.into_iter().map(Did).collect();
    Chat::new(ChatId(id), ChatKind::Group, participants, name.map(String::from), Some(Did(1)))
}

fn state_with_chat(chat: Chat) -> State {
    let mut st = State::new();
    st.process_warp_event(
        WarpEvent::RayGun(RayGunEvent::ConversationCreated { chat, identities: Vec::new() }),
        0,
    );
    st
}

#[test]
fn received_message_in_active_focused_conversation_stays_read() {
    let mut st = state_with_chat(direct_chat(7, 1, 2));
    st.mutate(Action::ChatWith(ChatId(7), true)).unwrap();
    st.ui.current_layout = Layout::Compose;
    st.process_warp_event(
        WarpEvent::Message(MessageEvent::Received {
            conversation_id: ChatId(7),
            message: msg(1, 7, 2, "hey"),
        }),
        0,
    );
    let c = st.get_chat_by_id(ChatId(7)).unwrap();
    assert_eq!(c.unreads, 0);
    assert_eq!(c.messages.len(), 1);
}

#[test]
fn received_message_in_inactive_conversation_counts_one_unread() {
    let mut st = state_with_chat(direct_chat(7, 1, 2));
    st.ui.current_layout = Layout::Compose;
    st.mutate(Action::ChatWith(ChatId(9), true)).unwrap();
    st.process_warp_event(
        WarpEvent::Message(MessageEvent::Received {
            conversation_id: ChatId(7),
            message: msg(1, 7, 2, "hey"),
        }),
        0,
    );
    assert_eq!(st.get_chat_by_id(ChatId(7)).unwrap().unreads, 1);
}

#[test]
fn blocking_friend_with_active_direct_conversation_cleans_up() {
    let mut st = state_with_chat(direct_chat(7, 1, 2));
    st.mutate(Action::SetId(ident(1, "me"))).unwrap();
    st.mutate(Action::SendRequest(ident(2, "f"))).unwrap();
    st.mutate(Action::RequestAccepted(ident(2, "f"))).unwrap();
    assert!(st.has_friend_with_did(Did(2)));
    st.mutate(Action::ChatWith(ChatId(7), true)).unwrap();
    st.mutate(Action::Favorite(ChatId(7))).unwrap();
    st.mutate(Action::Block(Did(2))).unwrap();
    assert!(st.is_blocked(Did(2)));
    assert!(!st.has_friend_with_did(Did(2)));
    assert_eq!(st.chats.active, None);
    assert!(st.chats.favorites.is_empty());
}

#[test]
fn group_created_lands_at_sidebar_front_and_registers_identities() {
    let mut st = state_with_chat(direct_chat(5, 1, 2));
    let team = group_chat(8, vec![1, 10, 11], Some("Team"));
    st.process_warp_event(
        WarpEvent::RayGun(RayGunEvent::ConversationCreated {
            chat: team,
            identities: vec![ident(10, "A"), ident(11, "B")],
        }),
        0,
    );
    assert_eq!(st.chats.in_sidebar.len(), 2);
    assert_eq!(st.chats.in_sidebar[0], ChatId(8));
    assert!(st.get_identity(Did(10)).is_some());
    assert!(st.get_identity(Did(11)).is_some());
    let again = group_chat(8, vec![1, 10, 11], Some("Team"));
    st.process_warp_event(
        WarpEvent::RayGun(RayGunEvent::ConversationCreated {
            chat: again,
            identities: Vec::new(),
        }),
        0,
    );
    assert_eq!(st.chats.in_sidebar.len(), 2);
}

#[test]
fn clear_unreads_is_idempotent() {
    let mut st = state_with_chat(direct_chat(7, 1, 2));
    st.process_warp_event(
        WarpEvent::Message(MessageEvent::Received {
            conversation_id: ChatId(7),
            message: msg(1, 7, 2, "a"),
        }),
        0,
    );
    assert_eq!(st.get_chat_by_id(ChatId(7)).unwrap().unreads, 1);
    st.mutate(Action::ClearUnreads(ChatId(7))).unwrap();
    assert_eq!(st.get_chat_by_id(ChatId(7)).unwrap().unreads, 0);
    st.mutate(Action::ClearUnreads(ChatId(7))).unwrap();
    assert_eq!(st.get_chat_by_id(ChatId(7)).unwrap().unreads, 0);
}

#[test]
fn toggle_favorite_twice_restores_membership_and_order() {
    let mut st = State::new();
    st.mutate(Action::Favorite(ChatId(1))).unwrap();
    st.mutate(Action::Favorite(ChatId(2))).unwrap();
    let before: Vec<ChatId> = st.chats.favorites.clone();
    st.mutate(Action::ToggleFavorite(ChatId(3))).unwrap();
    st.mutate(Action::ToggleFavorite(ChatId(3))).unwrap();
    assert_eq!(st.chats.favorites, before);
    st.mutate(Action::ToggleFavorite(ChatId(2))).unwrap();
    st.mutate(Action::ToggleFavorite(ChatId(2))).unwrap();
    assert_eq!(st.chats.favorites, before);
}

#[test]
fn message_log_replay_matches_reference_model() {
    let mut st = state_with_chat(direct_chat(7, 1, 2));
    let conversation_id = ChatId(7);
    st.process_warp_event(
        WarpEvent::Message(MessageEvent::Received {
            conversation_id,
            message: msg(1, 7, 2, "one"),
        }),
        0,
    );
    st.process_warp_event(
        WarpEvent::Message(MessageEvent::Sent { conversation_id, message: msg(2, 7, 1, "two") }),
        0,
    );
    st.process_warp_event(
        WarpEvent::Message(MessageEvent::Edited {
            conversation_id,
            message: msg(1, 7, 2, "one, edited"),
        }),
        0,
    );
    st.process_warp_event(
        WarpEvent::Message(MessageEvent::Deleted { conversation_id, message_id: MsgId(2) }),
        0,
    );
    // Reference model: append 1, append 2, replace 1, remove 2 == [edited 1].
    let c = st.get_chat_by_id(conversation_id).unwrap();
    assert_eq!(c.messages.len(), 1);
    assert_eq!(c.messages[0].id, MsgId(1));
    assert_eq!(c.messages[0].text, String::from("one, edited"));
}

#[test]
fn editing_a_missing_message_is_a_no_op() {
    let mut st = state_with_chat(direct_chat(7, 1, 2));
    st.process_warp_event(
        WarpEvent::Message(MessageEvent::Edited {
            conversation_id: ChatId(7),
            message: msg(99, 7, 2, "ghost"),
        }),
        0,
    );
    assert!(st.get_chat_by_id(ChatId(7)).unwrap().messages.is_empty());
}

#[test]
fn reaction_update_deduplicates_reactors_and_keeps_ui_annotations() {
    let mut st = state_with_chat(direct_chat(7, 1, 2));
    let mut first = msg(1, 7, 2, "hi");
    first.key = String::from("corr-key");
    st.process_warp_event(
        WarpEvent::Message(MessageEvent::Received { conversation_id: ChatId(7), message: first }),
        0,
    );
    let mut update = msg(1, 7, 2, "hi");
    update.key = String::from("other");
    update.reactions = vec![Reaction {
        emoji: String::from("+1"),
        reactors: vec![Did(2), Did(2), Did(3)],
    }];
    st.process_warp_event(
        WarpEvent::Message(MessageEvent::MessageReactionAdded { message: update }),
        0,
    );
    let c = st.get_chat_by_id(ChatId(7)).unwrap();
    assert_eq!(c.messages.len(), 1);
    assert_eq!(c.messages[0].key, String::from("corr-key"));
    assert_eq!(c.messages[0].reactions.len(), 1);
    assert_eq!(c.messages[0].reactions[0].reactors, vec![Did(2), Did(3)]);
}

#[test]
fn friend_request_sets_stay_exclusive() {
    let mut st = State::new();
    st.mutate(Action::SendRequest(ident(2, "f"))).unwrap();
    // A request from the same key arriving back is guarded: the key stays
    // where it is until the request completes.
    st.process_warp_event(
        WarpEvent::MultiPass(MultiPassEvent::FriendRequestReceived(ident(2, "f"))),
        0,
    );
    let in_outgoing = st.friends.outgoing_requests.contains(&Did(2));
    let in_incoming = st.friends.incoming_requests.contains(&Did(2));
    let in_friends = st.friends.all.contains(&Did(2));
    assert_eq!(
        [in_friends, in_outgoing, in_incoming].iter().filter(|x| **x).count(),
        1
    );
    st.mutate(Action::AcceptRequest(ident(2, "f"))).unwrap();
    assert!(st.friends.all.contains(&Did(2)));
    assert!(!st.friends.outgoing_requests.contains(&Did(2)));
    assert!(!st.friends.incoming_requests.contains(&Did(2)));
}

#[test]
fn unimplemented_reaction_actions_abort_the_mutation_path() {
    let mut st = State::new();
    let r = st.mutate(Action::AddReaction(ChatId(1), MsgId(1), String::from("x")));
    assert!(r.is_err());
    let r = st.mutate(Action::RemoveReaction(ChatId(1), MsgId(1), String::from("x")));
    assert!(r.is_err());
}

#[test]
fn typing_indicators_expire_after_the_idle_window() {
    let mut st = state_with_chat(direct_chat(7, 1, 2));
    st.process_warp_event(
        WarpEvent::Message(MessageEvent::TypingIndicator {
            conversation_id: ChatId(7),
            participant: Did(2),
        }),
        100,
    );
    assert_eq!(st.get_chat_by_id(ChatId(7)).unwrap().typing.len(), 1);
    let changed = st.clear_typing_indicator(100 + TYPING_WINDOW_TICKS - 1);
    assert!(!changed);
    assert_eq!(st.get_chat_by_id(ChatId(7)).unwrap().typing.len(), 1);
    let changed = st.clear_typing_indicator(100 + TYPING_WINDOW_TICKS);
    assert!(changed);
    assert!(st.get_chat_by_id(ChatId(7)).unwrap().typing.is_empty());
}

#[test]
fn toasts_decay_once_per_tick_and_vanish_at_zero() {
    let mut st = State::new();
    let toast = uplink_core::ui::ToastNotification::new(
        String::from("t"),
        String::from("c"),
        2,
    );
    st.mutate(Action::AddToastNotification(toast)).unwrap();
    assert!(st.has_toasts());
    assert!(!st.decrement_toasts());
    assert!(st.has_toasts());
    assert!(st.decrement_toasts());
    assert!(!st.has_toasts());
}

#[test]
fn persisted_round_trip_keeps_fields_and_defaults_the_rest() {
    let mut st = state_with_chat(direct_chat(7, 1, 2));
    st.mutate(Action::SetId(ident(1, "me"))).unwrap();
    st.mutate(Action::Navigate(String::from("/chat"))).unwrap();
    st.mutate(Action::SetLanguage(String::from("en-US"))).unwrap();
    st.mutate(Action::SetFontScale(0)).unwrap();
    st.mutate(Action::Favorite(ChatId(7))).unwrap();
    st.initialized = true;
    let restored = State::from_persisted(st.to_persisted());
    assert_eq!(restored.route, String::from("/chat"));
    assert_eq!(restored.settings.language, String::from("en-US"));
    assert_eq!(restored.chats.favorites, vec![ChatId(7)]);
    assert_eq!(restored.chats.all.len(), 1);
    assert_eq!(restored.chats.all[0].id, ChatId(7));
    // Excluded fields take defaults; the corrupt zero font scale heals.
    assert_eq!(restored.id, Did(0));
    assert!(restored.identities.is_empty());
    assert!(!restored.initialized);
    assert_eq!(
        restored.settings.font_scale_centi,
        uplink_core::settings::DEFAULT_FONT_SCALE_CENTI
    );
}

#[test]
fn fresh_session_copy_resets_transient_state() {
    let mut st = state_with_chat(direct_chat(7, 1, 2));
    st.mutate(Action::SetLanguage(String::from("de-DE"))).unwrap();
    st.mutate(Action::ToggleMute).unwrap();
    let fresh = st.to_fresh_session();
    assert_eq!(fresh.chats.all.len(), 1);
    assert_eq!(fresh.settings.language, String::new());
    assert!(!fresh.ui.muted);
    assert!(fresh.identities.is_empty());
}

#[test]
fn presence_hack_promotes_offline_sender_to_online() {
    let mut st = state_with_chat(direct_chat(7, 1, 2));
    let mut f = ident(2, "f");
    f.status = IdentityStatus::Offline;
    st.upsert_identity(f);
    st.process_warp_event(
        WarpEvent::Message(MessageEvent::Received {
            conversation_id: ChatId(7),
            message: msg(1, 7, 2, "hello"),
        }),
        0,
    );
    assert_eq!(st.get_identity(Did(2)).unwrap().status, IdentityStatus::Online);
    st.process_warp_event(WarpEvent::MultiPass(MultiPassEvent::FriendOffline(ident(2, "f"))), 0);
    assert_eq!(st.get_identity(Did(2)).unwrap().status, IdentityStatus::Offline);
}

#[test]
fn conversation_deleted_clears_pointers() {
    let mut st = state_with_chat(direct_chat(7, 1, 2));
    st.mutate(Action::ChatWith(ChatId(7), true)).unwrap();
    st.process_warp_event(WarpEvent::RayGun(RayGunEvent::ConversationDeleted(ChatId(7))), 0);
    assert!(st.chats.all.is_empty());
    assert!(st.chats.in_sidebar.is_empty());
    assert_eq!(st.chats.active, None);
}

#[test]
fn received_message_moves_conversation_to_sidebar_top() {
    let mut st = state_with_chat(direct_chat(5, 1, 2));
    let other = direct_chat(7, 1, 3);
    st.process_warp_event(
        WarpEvent::RayGun(RayGunEvent::ConversationCreated {
            chat: other,
            identities: Vec::new(),
        }),
        0,
    );
    assert_eq!(st.chats.in_sidebar[0], ChatId(7));
    st.process_warp_event(
        WarpEvent::Message(MessageEvent::Received {
            conversation_id: ChatId(5),
            message: msg(1, 5, 2, "bump"),
        }),
        0,
    );
    assert_eq!(st.chats.in_sidebar[0], ChatId(5));
    assert_eq!(st.chats.in_sidebar.len(), 2);
}
