use crate::action::Action;
use crate::chat::ChatView;
use crate::events::{ConversationRecord, MessageEvent, MultiPassEvent, RayGunEvent, WarpEvent};
use crate::identity::{Identity, IdentityStatus};
use crate::ids::Did;
use crate::policy::AlertDecision;
use crate::config::config_step;
use crate::friends::FriendsView;
use crate::ids::{ChatId, MsgId};
use crate::message::MessageView;
use crate::settings::SettingsView;
use crate::state::{
    chat_index_of, chats_after_unfriend, has_chat, has_ident, ident_index_of, to_front,
    toast_enqueued, upserted, upserted_all, view_counts_unread, without_cid, ChatsView,
    State, StateView,
};
use crate::ui::{
    decayed_toasts, kind_count, sat_add_u32, sat_sub_u32, with_kind_count, Notifications,
    UIView,
};
use vstd::prelude::*;

verus! {

/// The sign that an action is deliberately not handled yet: the mutation
/// path aborts, surfacing missing coverage instead of corrupting data.
#[derive(Clone, Copy, PartialEq, Eq, Structural, Debug)]
pub struct UnimplementedAction;

/// The message a mock send fabricates: the user's own echo with a fresh
/// correlation key.
pub open spec fn mock_message(s0: StateView, conversation_id: ChatId, text: Seq<char>,
    key: Seq<char>) -> MessageView {
    MessageView {
        id: MsgId(0),
        conversation_id,
        sender: s0.id,
        text,
        reactions: Seq::<crate::message::ReactionView>::empty(),
        key,
        in_reply_to: None,
    }
}

/// The snapshot after a mock send under one correlation key.
pub open spec fn mock_sent(s0: StateView, s1: StateView, conversation_id: ChatId,
    text: Seq<char>, key: Seq<char>) -> bool {
    let all = s0.chats.all;
    if has_chat(all, conversation_id) {
        let i = chat_index_of(all, conversation_id);
        s1 == s0.with_chat_at(i, crate::state::chat_with_message(
            all[i],
            mock_message(s0, conversation_id, text, key),
            crate::state::view_counts_unread(s0, conversation_id),
        ))
    } else {
        s1 == s0
    }
}

/// What one action does to the snapshot: the transition relation behind
/// `State::mutate`, one case per action of the vocabulary.
pub open spec fn action_applied(s0: StateView, s1: StateView, a: Action) -> bool {
    match a {
        Action::AddNotification(kind, count) => s1 == StateView {
            ui: UIView {
                notifications: with_kind_count(
                    s0.ui.notifications,
                    kind,
                    sat_add_u32(kind_count(s0.ui.notifications, kind), count),
                ),
                ..s0.ui
            },
            ..s0
        },
        Action::RemoveNotification(kind, count) => s1 == StateView {
            ui: UIView {
                notifications: with_kind_count(
                    s0.ui.notifications,
                    kind,
                    sat_sub_u32(kind_count(s0.ui.notifications, kind), count),
                ),
                ..s0.ui
            },
            ..s0
        },
        Action::ClearNotification(kind) => s1 == StateView {
            ui: UIView {
                notifications: with_kind_count(s0.ui.notifications, kind, 0u32),
                ..s0.ui
            },
            ..s0
        },
        Action::ClearAllNotifications => s1 == StateView {
            ui: UIView {
                notifications: Notifications { friends: 0u32, messages: 0u32, settings: 0u32 },
                ..s0.ui
            },
            ..s0
        },
        Action::AddToastNotification(toast) => exists|key: u128|
            #[trigger] toast_enqueued(s0, s1, toast@, key),
        Action::DismissUpdate => s1 == StateView {
            settings: SettingsView {
                update_available: None,
                update_dismissed: s0.settings.update_available,
                ..s0.settings
            },
            ui: UIView {
                notifications: with_kind_count(
                    s0.ui.notifications,
                    crate::ui::NotificationKind::Settings,
                    sat_sub_u32(s0.ui.notifications.settings, 1),
                ),
                ..s0.ui
            },
            ..s0
        },
        Action::SendRequest(ident) => {
            let f1 = if s0.friends.all.contains(ident.did)
                || s0.friends.incoming_requests.contains(ident.did) {
                s0.friends
            } else {
                FriendsView {
                    outgoing_requests: crate::friends::with_did(
                        s0.friends.outgoing_requests,
                        ident.did,
                    ),
                    ..s0.friends
                }
            };
            s1 == StateView {
                friends: f1,
                identities: upserted(s0.identities, ident),
                ..s0
            }
        },
        Action::RequestAccepted(ident) => completed_request(s0, s1, ident),
        Action::AcceptRequest(ident) => completed_request(s0, s1, ident),
        Action::CancelRequest(d) => s1 == StateView {
            friends: FriendsView {
                incoming_requests: crate::friends::without_did(
                    s0.friends.incoming_requests,
                    d,
                ),
                outgoing_requests: crate::friends::without_did(
                    s0.friends.outgoing_requests,
                    d,
                ),
                ..s0.friends
            },
            ..s0
        },
        Action::DenyRequest(d) => s1 == StateView {
            friends: FriendsView {
                incoming_requests: crate::friends::without_did(
                    s0.friends.incoming_requests,
                    d,
                ),
                outgoing_requests: crate::friends::without_did(
                    s0.friends.outgoing_requests,
                    d,
                ),
                ..s0.friends
            },
            ..s0
        },
        Action::RemoveFriend(d) => s1 == StateView {
            friends: FriendsView {
                all: crate::friends::without_did(s0.friends.all, d),
                ..s0.friends
            },
            chats: chats_after_unfriend(s0.chats, d),
            ..s0
        },
        Action::Block(d) => s1 == StateView {
            friends: FriendsView {
                all: crate::friends::without_did(s0.friends.all, d),
                incoming_requests: crate::friends::without_did(
                    s0.friends.incoming_requests,
                    d,
                ),
                outgoing_requests: crate::friends::without_did(
                    s0.friends.outgoing_requests,
                    d,
                ),
                blocked: crate::friends::with_did(s0.friends.blocked, d),
            },
            chats: chats_after_unfriend(s0.chats, d),
            ..s0
        },
        Action::Unblock(d) => s1 == StateView {
            friends: FriendsView {
                blocked: crate::friends::without_did(s0.friends.blocked, d),
                ..s0.friends
            },
            ..s0
        },
        Action::Favorite(c) => if s0.chats.favorites.contains(c) {
            s1 == s0
        } else {
            s1 == StateView {
                chats: ChatsView { favorites: s0.chats.favorites.push(c), ..s0.chats },
                ..s0
            }
        },
        Action::ToggleFavorite(c) => if s0.chats.favorites.contains(c) {
            s1 == StateView {
                chats: ChatsView {
                    favorites: s0.chats.favorites.remove(
                        crate::state::first_cid_index(s0.chats.favorites, c),
                    ),
                    ..s0.chats
                },
                ..s0
            }
        } else {
            s1 == StateView {
                chats: ChatsView { favorites: s0.chats.favorites.push(c), ..s0.chats },
                ..s0
            }
        },
        Action::UnFavorite(c) => s1 == StateView {
            chats: ChatsView {
                favorites: without_cid(s0.chats.favorites, c),
                ..s0.chats
            },
            ..s0
        },
        Action::SetLanguage(l) => s1 == StateView {
            settings: SettingsView { language: l@, ..s0.settings },
            ..s0
        },
        Action::AddOverlay(w) => s1 == StateView {
            ui: UIView { overlays: s0.ui.overlays.push(w), ..s0.ui },
            ..s0
        },
        Action::SetOverlay(enabled) => s1 == StateView {
            ui: UIView {
                enable_overlay: enabled,
                overlays: if enabled {
                    s0.ui.overlays
                } else {
                    Seq::<crate::ids::WindowId>::empty()
                },
                ..s0.ui
            },
            ..s0
        },
        Action::RemoveFromSidebar(c) => s1 == StateView {
            chats: ChatsView {
                in_sidebar: without_cid(s0.chats.in_sidebar, c),
                active: if s0.chats.active == Some(c) {
                    None
                } else {
                    s0.chats.active
                },
                ..s0.chats
            },
            ..s0
        },
        Action::SidebarHidden(hidden) => s1 == StateView {
            ui: UIView { sidebar_hidden: hidden, ..s0.ui },
            ..s0
        },
        Action::Navigate(to) => s1 == StateView { route: to@, ..s0 },
        Action::SetMeta(meta) => s1 == StateView {
            ui: UIView { metadata: meta, ..s0.ui },
            ..s0
        },
        Action::SetTheme(theme) => s1 == StateView {
            ui: UIView { theme: theme.deep_view(), ..s0.ui },
            ..s0
        },
        Action::SetFont(font) => s1 == StateView {
            ui: UIView { font: font.deep_view(), ..s0.ui },
            ..s0
        },
        Action::SetFontScale(centi) => s1 == StateView {
            settings: SettingsView { font_scale_centi: centi, ..s0.settings },
            ..s0
        },
        Action::ChatWith(c, should_move_to_top) => {
            let sidebar1 = if should_move_to_top {
                to_front(s0.chats.in_sidebar, c)
            } else if s0.chats.in_sidebar.contains(c) {
                s0.chats.in_sidebar
            } else {
                seq![c] + s0.chats.in_sidebar
            };
            let all1 = if has_chat(s0.chats.all, c) {
                s0.chats.all.update(
                    chat_index_of(s0.chats.all, c),
                    ChatView { unreads: 0, ..s0.chats.all[chat_index_of(s0.chats.all, c)] },
                )
            } else {
                s0.chats.all
            };
            s1 == StateView {
                chats: ChatsView {
                    active: Some(c),
                    in_sidebar: sidebar1,
                    all: all1,
                    ..s0.chats
                },
                ..s0
            }
        },
        Action::ClearActiveChat => s1 == StateView {
            chats: ChatsView { active: None, ..s0.chats },
            ..s0
        },
        Action::StartReplying(c, m) => if has_chat(s0.chats.all, c) {
            let i = chat_index_of(s0.chats.all, c);
            s1 == s0.with_chat_at(i, ChatView {
                replying_to: Some(m.deep_view()),
                ..s0.chats.all[i]
            })
        } else {
            s1 == s0
        },
        Action::CancelReply(c) => if has_chat(s0.chats.all, c) {
            let i = chat_index_of(s0.chats.all, c);
            s1 == s0.with_chat_at(i, ChatView { replying_to: None, ..s0.chats.all[i] })
        } else {
            s1 == s0
        },
        Action::ClearUnreads(c) => cleared_unreads(s0, s1, c),
        Action::ClearActiveUnreads => match s0.chats.active {
            Some(c) => cleared_unreads(s0, s1, c),
            None => s1 == s0,
        },
        Action::SetChatDraft(c, v) => if has_chat(s0.chats.all, c) {
            let i = chat_index_of(s0.chats.all, c);
            s1 == s0.with_chat_at(i, ChatView { draft: Some(v@), ..s0.chats.all[i] })
        } else {
            s1 == s0
        },
        Action::ClearChatDraft(c) => if has_chat(s0.chats.all, c) {
            let i = chat_index_of(s0.chats.all, c);
            s1 == s0.with_chat_at(i, ChatView { draft: None, ..s0.chats.all[i] })
        } else {
            s1 == s0
        },
        Action::MockSend(c, text) => exists|key: Seq<char>|
            #[trigger] mock_sent(s0, s1, c, text@, key),
        Action::AddReaction(_, _, _) => s1 == s0,
        Action::RemoveReaction(_, _, _) => s1 == s0,
        Action::ToggleMute => s1 == StateView {
            ui: UIView { muted: !s0.ui.muted, ..s0.ui },
            ..s0
        },
        Action::ToggleSilence => s1 == StateView {
            ui: UIView { silenced: !s0.ui.silenced, ..s0.ui },
            ..s0
        },
        Action::SetId(ident) => s1 == StateView {
            id: ident.did,
            ui: UIView { cached_username: Some(ident.username@), ..s0.ui },
            identities: upserted(s0.identities, ident),
            ..s0
        },
        Action::SetActiveMedia(c) => s1 == StateView {
            chats: ChatsView { active_media: Some(c), ..s0.chats },
            ui: UIView { call_active: true, ..s0.ui },
            ..s0
        },
        Action::DisableMedia => s1 == StateView {
            chats: ChatsView { active_media: None, ..s0.chats },
            ui: UIView { call_active: false, popout_media_player: false, ..s0.ui },
            ..s0
        },
        Action::Config(ca) => s1 == StateView {
            configuration: config_step(s0.configuration, ca),
            ..s0
        },
    }
}

/// The snapshot after accepting a friend request: the key moves from both
/// request lists into the friends list and the identity is cached.
pub open spec fn completed_request(s0: StateView, s1: StateView,
    ident: crate::identity::Identity) -> bool {
    s1 == StateView {
        friends: FriendsView {
            all: crate::friends::with_did(s0.friends.all, ident.did),
            incoming_requests: crate::friends::without_did(
                s0.friends.incoming_requests,
                ident.did,
            ),
            outgoing_requests: crate::friends::without_did(
                s0.friends.outgoing_requests,
                ident.did,
            ),
            ..s0.friends
        },
        identities: upserted(s0.identities, ident),
        ..s0
    }
}

/// The snapshot after clearing one conversation's unread counter.
pub open spec fn cleared_unreads(s0: StateView, s1: StateView, c: ChatId) -> bool {
    if has_chat(s0.chats.all, c) {
        let i = chat_index_of(s0.chats.all, c);
        s1 == s0.with_chat_at(i, ChatView { unreads: 0, ..s0.chats.all[i] })
    } else {
        s1 == s0
    }
}

impl State {
    /// The single mutation entry point for user intents: applies one action
    /// of the closed vocabulary, synchronously and without suspension. The
    /// caller persists the snapshot afterwards, best-effort, at the I/O
    /// edge. The two reaction actions are deliberately unimplemented: they
    /// abort the mutation path, leaving the snapshot unchanged.
    pub fn mutate(&mut self, action: Action) -> (r: Result<(), UnimplementedAction>)
        ensures
            old(self).wf() ==> final(self).wf(),
            action_applied(old(self)@, final(self)@, action),
            r is Err <==> (action is AddReaction || action is RemoveReaction),
    {
        if matches!(action, Action::AddReaction(..) | Action::RemoveReaction(..)) {
            return Err(UnimplementedAction);
        }
        if matches!(
            action,
            Action::AddNotification(..) | Action::RemoveNotification(..)
                | Action::ClearNotification(..) | Action::ClearAllNotifications
                | Action::AddToastNotification(..) | Action::DismissUpdate
        ) {
            self.apply_notification_action(action);
        } else if matches!(
            action,
            Action::SendRequest(..) | Action::RequestAccepted(..) | Action::CancelRequest(..)
                | Action::AcceptRequest(..) | Action::DenyRequest(..)
                | Action::RemoveFriend(..) | Action::Block(..) | Action::Unblock(..)
        ) {
            self.apply_friend_action(action);
        } else if matches!(
            action,
            Action::Favorite(..) | Action::ToggleFavorite(..) | Action::UnFavorite(..)
                | Action::SetLanguage(..) | Action::AddOverlay(..) | Action::SetOverlay(..)
                | Action::RemoveFromSidebar(..) | Action::SidebarHidden(..)
                | Action::Navigate(..) | Action::SetMeta(..) | Action::SetTheme(..)
                | Action::SetFont(..) | Action::SetFontScale(..)
        ) {
            self.apply_ui_action(action);
        } else if matches!(
            action,
            Action::ChatWith(..) | Action::ClearActiveChat | Action::StartReplying(..)
                | Action::CancelReply(..) | Action::ClearUnreads(..)
                | Action::ClearActiveUnreads | Action::SetChatDraft(..)
                | Action::ClearChatDraft(..) | Action::MockSend(..)
        ) {
            self.apply_chat_action(action);
        } else {
            self.apply_media_or_config_action(action);
        }
        Ok(())
    }

    /// Applies one action of the notification family.
    fn apply_notification_action(&mut self, action: Action)
        requires
            action is AddNotification || action is RemoveNotification
                || action is ClearNotification || action is ClearAllNotifications
                || action is AddToastNotification || action is DismissUpdate,
        ensures
            old(self).wf() ==> final(self).wf(),
            action_applied(old(self)@, final(self)@, action),
    {
        match action {
            Action::AddNotification(kind, count) => {
                self.ui.notifications.increment(kind, count);
                proof {
                    assert(self@ =~= (StateView {
                        ui: UIView { notifications: self@.ui.notifications, ..old(self)@.ui },
                        ..old(self)@
                    }));
                    if old(self).wf() {
                        crate::state::lemma_wf_same_tables(old(self)@, self@);
                    }
                }
            },
            Action::RemoveNotification(kind, count) => {
                self.ui.notifications.decrement(kind, count);
                proof {
                    assert(self@ =~= (StateView {
                        ui: UIView { notifications: self@.ui.notifications, ..old(self)@.ui },
                        ..old(self)@
                    }));
                    if old(self).wf() {
                        crate::state::lemma_wf_same_tables(old(self)@, self@);
                    }
                }
            },
            Action::ClearNotification(kind) => {
                self.ui.notifications.clear_kind(kind);
                proof {
                    assert(self@ =~= (StateView {
                        ui: UIView { notifications: self@.ui.notifications, ..old(self)@.ui },
                        ..old(self)@
                    }));
                    if old(self).wf() {
                        crate::state::lemma_wf_same_tables(old(self)@, self@);
                    }
                }
            },
            Action::ClearAllNotifications => {
                self.ui.notifications.clear_all();
                proof {
                    assert(self@ =~= (StateView {
                        ui: UIView { notifications: self@.ui.notifications, ..old(self)@.ui },
                        ..old(self)@
                    }));
                    if old(self).wf() {
                        crate::state::lemma_wf_same_tables(old(self)@, self@);
                    }
                }
            },
            Action::AddToastNotification(toast) => {
                self.add_toast_notification(toast);
            },
            _ => {
                self.dismiss_update();
            },
        }
    }

    /// Applies one action of the friendship family.
    fn apply_friend_action(&mut self, action: Action)
        requires
            action is SendRequest || action is RequestAccepted || action is CancelRequest
                || action is AcceptRequest || action is DenyRequest
                || action is RemoveFriend || action is Block || action is Unblock,
        ensures
            old(self).wf() ==> final(self).wf(),
            action_applied(old(self)@, final(self)@, action),
    {
        match action {
            Action::SendRequest(ident) => {
                self.new_outgoing_request(&ident);
            },
            Action::RequestAccepted(ident) => {
                self.complete_request(&ident);
            },
            Action::AcceptRequest(ident) => {
                self.complete_request(&ident);
            },
            Action::CancelRequest(d) => {
                self.cancel_request(d);
            },
            Action::DenyRequest(d) => {
                self.cancel_request(d);
            },
            Action::RemoveFriend(d) => {
                self.remove_friend(d);
            },
            Action::Block(d) => {
                self.block(d);
            },
            _ => {
                let d = match action {
                    Action::Unblock(d) => d,
                    _ => crate::ids::Did(0),
                };
                self.unblock(d);
            },
        }
    }

    /// Applies one action of the interface-preferences family.
    #[verifier::rlimit(100)]
    fn apply_ui_action(&mut self, action: Action)
        requires
            action is Favorite || action is ToggleFavorite || action is UnFavorite
                || action is SetLanguage || action is AddOverlay || action is SetOverlay
                || action is RemoveFromSidebar || action is SidebarHidden
                || action is Navigate || action is SetMeta || action is SetTheme
                || action is SetFont || action is SetFontScale,
        ensures
            old(self).wf() ==> final(self).wf(),
            action_applied(old(self)@, final(self)@, action),
    {
        match action {
            Action::Favorite(c) => {
                self.favorite(c);
            },
            Action::ToggleFavorite(c) => {
                self.toggle_favorite(c);
            },
            Action::UnFavorite(c) => {
                self.unfavorite(c);
            },
            Action::SetLanguage(l) => {
                self.set_language(l);
            },
            Action::AddOverlay(w) => {
                self.ui.add_overlay(w);
                proof {
                    assert(self@ =~= (StateView { ui: self@.ui, ..old(self)@ }));
                    if old(self).wf() {
                        crate::state::lemma_wf_same_tables(old(self)@, self@);
                    }
                }
            },
            Action::SetOverlay(enabled) => {
                self.toggle_overlay(enabled);
            },
            Action::RemoveFromSidebar(c) => {
                self.remove_sidebar_chat(c);
            },
            Action::SidebarHidden(hidden) => {
                self.ui.sidebar_hidden = hidden;
                proof {
                    assert(self@ =~= (StateView {
                        ui: UIView { sidebar_hidden: hidden, ..old(self)@.ui },
                        ..old(self)@
                    }));
                    if old(self).wf() {
                        crate::state::lemma_wf_same_tables(old(self)@, self@);
                    }
                }
            },
            Action::Navigate(to) => {
                self.set_active_route(to);
            },
            Action::SetMeta(meta) => {
                self.ui.metadata = meta;
                proof {
                    assert(self@ =~= (StateView {
                        ui: UIView { metadata: meta, ..old(self)@.ui },
                        ..old(self)@
                    }));
                    if old(self).wf() {
                        crate::state::lemma_wf_same_tables(old(self)@, self@);
                    }
                }
            },
            Action::SetTheme(theme) => {
                self.set_theme(theme);
            },
            Action::SetFont(font) => {
                self.set_font(font);
            },
            _ => {
                let centi = match action {
                    Action::SetFontScale(x) => x,
                    _ => 0,
                };
                self.settings.set_font_scale(centi);
                proof {
                    assert(self@ =~= (StateView {
                        settings: SettingsView {
                            font_scale_centi: centi,
                            ..old(self)@.settings
                        },
                        ..old(self)@
                    }));
                    if old(self).wf() {
                        crate::state::lemma_wf_same_tables(old(self)@, self@);
                    }
                }
            },
        }
    }

    /// Applies one action of the conversation family.
    fn apply_chat_action(&mut self, action: Action)
        requires
            action is ChatWith || action is ClearActiveChat || action is StartReplying
                || action is CancelReply || action is ClearUnreads
                || action is ClearActiveUnreads || action is SetChatDraft
                || action is ClearChatDraft || action is MockSend,
        ensures
            old(self).wf() ==> final(self).wf(),
            action_applied(old(self)@, final(self)@, action),
    {
        match action {
            Action::ChatWith(c, should_move_to_top) => {
                self.set_active_chat(c, should_move_to_top);
            },
            Action::ClearActiveChat => {
                self.clear_active_chat();
            },
            Action::StartReplying(c, m) => {
                self.start_replying(c, &m);
            },
            Action::CancelReply(c) => {
                self.cancel_reply(c);
            },
            Action::ClearUnreads(c) => {
                self.clear_unreads(c);
            },
            Action::ClearActiveUnreads => {
                let active = self.chats.active;
                if let Some(c) = active {
                    self.clear_unreads(c);
                }
            },
            Action::SetChatDraft(c, v) => {
                self.set_chat_draft(c, v);
            },
            Action::ClearChatDraft(c) => {
                self.clear_chat_draft(c);
            },
            _ => {
                let (c, text) = match action {
                    Action::MockSend(c, text) => (c, text),
                    _ => (crate::ids::ChatId(0), String::new()),
                };
                let key = crate::ext::fresh_random_key();
                let ghost kv = key@;
                let ghost tv = text@;
                let m = crate::message::ChatMessage {
                    id: MsgId(0),
                    conversation_id: c,
                    sender: self.id,
                    text,
                    reactions: Vec::new(),
                    key,
                    in_reply_to: None,
                };
                proof {
                    assert(m.deep_view() =~= mock_message(old(self)@, c, tv, kv));
                }
                self.add_msg_to_chat(c, m);
                proof {
                    assert(mock_sent(old(self)@, self@, c, tv, kv));
                }
            },
        }
    }

    /// Applies one action of the media, identity or configuration family.
    fn apply_media_or_config_action(&mut self, action: Action)
        requires
            action is ToggleMute || action is ToggleSilence || action is SetId
                || action is SetActiveMedia || action is DisableMedia || action is Config,
        ensures
            old(self).wf() ==> final(self).wf(),
            action_applied(old(self)@, final(self)@, action),
    {
        match action {
            Action::ToggleMute => {
                self.toggle_mute();
            },
            Action::ToggleSilence => {
                self.toggle_silence();
            },
            Action::SetId(ident) => {
                self.set_own_identity(ident);
            },
            Action::SetActiveMedia(c) => {
                self.set_active_media(c);
            },
            Action::DisableMedia => {
                self.disable_media();
            },
            _ => {
                let ca = match action {
                    Action::Config(ca) => ca,
                    _ => crate::config::ConfigAction::SetNotificationsEnabled(false),
                };
                self.configuration.mutate(ca);
                proof {
                    assert(self@ =~= (StateView {
                        configuration: config_step(old(self)@.configuration, ca),
                        ..old(self)@
                    }));
                    if old(self).wf() {
                        crate::state::lemma_wf_same_tables(old(self)@, self@);
                    }
                }
            },
        }
    }
}

// ------------------------------------------------------------------
// The transition relation behind `State::process_warp_event`.
// ------------------------------------------------------------------

/// Presence correction on receipt of traffic from a key: a cached sender
/// marked offline is promoted to online.
pub open spec fn status_hacked(s: StateView, d: Did) -> StateView {
    if has_ident(s.identities, d) {
        let i = ident_index_of(s.identities, d);
        StateView {
            identities: s.identities.update(i, Identity {
                status: if s.identities[i].status == IdentityStatus::Offline {
                    IdentityStatus::Online
                } else {
                    s.identities[i].status
                },
                ..s.identities[i]
            }),
            ..s
        }
    } else {
        s
    }
}

/// A cached identity's presence set to a value.
pub open spec fn presence_set(s: StateView, d: Did, status: IdentityStatus) -> StateView {
    if has_ident(s.identities, d) {
        let i = ident_index_of(s.identities, d);
        StateView {
            identities: s.identities.update(i, Identity { status, ..s.identities[i] }),
            ..s
        }
    } else {
        s
    }
}

/// A received message folded into its conversation.
pub open spec fn received_step(s: StateView, cid: ChatId, m: MessageView) -> StateView {
    if has_chat(s.chats.all, cid) {
        let i = chat_index_of(s.chats.all, cid);
        s.with_chat_at(i, crate::state::chat_with_message(
            s.chats.all[i],
            m,
            view_counts_unread(s, cid),
        ))
    } else {
        s
    }
}

/// One log mutation applied to one conversation.
pub open spec fn log_op_step(s: StateView, cid: ChatId, op: crate::chat::LogOp) -> StateView {
    if has_chat(s.chats.all, cid) {
        let i = chat_index_of(s.chats.all, cid);
        s.with_chat_at(i, ChatView {
            messages: crate::chat::log_step(s.chats.all[i].messages, op),
            ..s.chats.all[i]
        })
    } else {
        s
    }
}

/// A conversation moved (or inserted) at the top of the sidebar ordering.
pub open spec fn sidebar_topped(s: StateView, cid: ChatId) -> StateView {
    StateView {
        chats: ChatsView { in_sidebar: to_front(s.chats.in_sidebar, cid), ..s.chats },
        ..s
    }
}

/// One notification counter raised by one.
pub open spec fn counter_bumped(s: StateView, kind: crate::ui::NotificationKind)
    -> StateView {
    StateView {
        ui: UIView {
            notifications: with_kind_count(
                s.ui.notifications,
                kind,
                sat_add_u32(kind_count(s.ui.notifications, kind), 1),
            ),
            ..s.ui
        },
        ..s
    }
}

/// A conversation's pending-outgoing counter lowered by one.
pub open spec fn pending_lowered(s: StateView, cid: ChatId) -> StateView {
    if has_chat(s.chats.all, cid) {
        let i = chat_index_of(s.chats.all, cid);
        s.with_chat_at(i, ChatView {
            pending_outgoing_messages: sat_sub_u32(
                s.chats.all[i].pending_outgoing_messages,
                1,
            ),
            ..s.chats.all[i]
        })
    } else {
        s
    }
}

/// A reaction update applied to the message it names.
pub open spec fn reaction_step(s: StateView, m: MessageView) -> StateView {
    let cid = m.conversation_id;
    if has_chat(s.chats.all, cid) {
        let i = chat_index_of(s.chats.all, cid);
        let log0 = s.chats.all[i].messages;
        if crate::chat::log_has_msg(log0, m.id) {
            let j = crate::chat::first_msg_index(log0, m.id);
            s.with_chat_at(i, ChatView {
                messages: log0.update(j, crate::chat::reaction_merged_msg(log0[j], m)),
                ..s.chats.all[i]
            })
        } else {
            s
        }
    } else {
        s
    }
}

/// A typing indicator noted at one tick, ignored outside the sidebar.
pub open spec fn typing_step(s: StateView, cid: ChatId, d: Did, now: u64) -> StateView {
    if !s.chats.in_sidebar.contains(cid) || !has_chat(s.chats.all, cid) {
        s
    } else {
        let i = chat_index_of(s.chats.all, cid);
        let t0 = s.chats.all[i].typing;
        s.with_chat_at(i, ChatView {
            typing: if crate::chat::typing_has_key(t0, d) {
                t0.update(crate::chat::first_typing_index(t0, d), (d, now))
            } else {
                t0.push((d, now))
            },
            ..s.chats.all[i]
        })
    }
}

/// A participant set recomputed from the authoritative backend record.
pub open spec fn participants_step(s: StateView, cid: ChatId, recipients: Seq<Did>)
    -> StateView {
    if has_chat(s.chats.all, cid) {
        let i = chat_index_of(s.chats.all, cid);
        let deduped = crate::message::dedup_first(recipients);
        if s.chats.all[i].kind == crate::chat::ChatKind::Direct && deduped.len() != 2 {
            s
        } else {
            s.with_chat_at(i, ChatView { participants: deduped, ..s.chats.all[i] })
        }
    } else {
        s
    }
}

/// A conversation name recomputed from the authoritative backend record.
pub open spec fn name_step(s: StateView, cid: ChatId, name: Option<Seq<char>>) -> StateView {
    if has_chat(s.chats.all, cid) {
        let i = chat_index_of(s.chats.all, cid);
        if s.chats.all[i].kind == crate::chat::ChatKind::Direct && name is Some {
            s
        } else {
            s.with_chat_at(i, ChatView { name, ..s.chats.all[i] })
        }
    } else {
        s
    }
}

/// What one message-lifecycle event does to the snapshot.
pub open spec fn message_event_applied(s0: StateView, s1: StateView, ev: MessageEvent,
    now: u64) -> bool {
    match ev {
        MessageEvent::Received { conversation_id, message } => s1 == counter_bumped(
            sidebar_topped(
                received_step(
                    status_hacked(s0, message.sender),
                    conversation_id,
                    message.deep_view(),
                ),
                conversation_id,
            ),
            crate::ui::NotificationKind::Message,
        ),
        MessageEvent::Sent { conversation_id, message } => s1 == pending_lowered(
            sidebar_topped(
                log_op_step(s0, conversation_id,
                    crate::chat::LogOp::Append(message.deep_view())),
                conversation_id,
            ),
            conversation_id,
        ),
        MessageEvent::Edited { conversation_id, message } => s1 == log_op_step(
            status_hacked(s0, message.sender),
            conversation_id,
            crate::chat::LogOp::Replace(message.deep_view()),
        ),
        MessageEvent::Deleted { conversation_id, message_id } => s1 == log_op_step(
            s0,
            conversation_id,
            crate::chat::LogOp::Remove(message_id),
        ),
        MessageEvent::MessageReactionAdded { message } => s1 == reaction_step(
            s0,
            message.deep_view(),
        ),
        MessageEvent::MessageReactionRemoved { message } => s1 == reaction_step(
            s0,
            message.deep_view(),
        ),
        MessageEvent::TypingIndicator { conversation_id, participant } => s1 == typing_step(
            status_hacked(s0, participant),
            conversation_id,
            participant,
            now,
        ),
        MessageEvent::RecipientAdded { conversation, identity } => s1 == participants_step(
            StateView { identities: upserted(s0.identities, identity), ..s0 },
            conversation.id,
            conversation.recipients@,
        ),
        MessageEvent::RecipientRemoved { conversation } => s1 == participants_step(
            s0,
            conversation.id,
            conversation.recipients@,
        ),
        MessageEvent::ConversationNameUpdated { conversation } => s1 == name_step(
            s0,
            conversation.id,
            conversation.name.deep_view(),
        ),
    }
}

/// What one identity or friend-request lifecycle event does.
pub open spec fn multipass_event_applied(s0: StateView, s1: StateView, ev: MultiPassEvent)
    -> bool {
    match ev {
        MultiPassEvent::FriendRequestReceived(ident) => {
            let f1 = if s0.friends.all.contains(ident.did)
                || s0.friends.outgoing_requests.contains(ident.did) {
                s0.friends
            } else {
                FriendsView {
                    incoming_requests: crate::friends::with_did(
                        s0.friends.incoming_requests,
                        ident.did,
                    ),
                    ..s0.friends
                }
            };
            s1 == counter_bumped(
                StateView {
                    friends: f1,
                    identities: upserted(s0.identities, ident),
                    ..s0
                },
                crate::ui::NotificationKind::FriendRequest,
            )
        },
        MultiPassEvent::FriendRequestSent(ident) => {
            let f1 = if s0.friends.all.contains(ident.did)
                || s0.friends.incoming_requests.contains(ident.did) {
                s0.friends
            } else {
                FriendsView {
                    outgoing_requests: crate::friends::with_did(
                        s0.friends.outgoing_requests,
                        ident.did,
                    ),
                    ..s0.friends
                }
            };
            s1 == StateView {
                friends: f1,
                identities: upserted(s0.identities, ident),
                ..s0
            }
        },
        MultiPassEvent::FriendAdded(ident) => completed_request(s0, s1, ident),
        MultiPassEvent::FriendRemoved(ident) => s1 == StateView {
            friends: FriendsView {
                all: crate::friends::without_did(s0.friends.all, ident.did),
                ..s0.friends
            },
            ..s0
        },
        MultiPassEvent::FriendRequestCancelled(ident) => s1 == StateView {
            friends: FriendsView {
                incoming_requests: crate::friends::without_did(
                    s0.friends.incoming_requests,
                    ident.did,
                ),
                outgoing_requests: crate::friends::without_did(
                    s0.friends.outgoing_requests,
                    ident.did,
                ),
                ..s0.friends
            },
            ..s0
        },
        MultiPassEvent::FriendOnline(ident) => s1 == presence_set(
            s0,
            ident.did,
            IdentityStatus::Online,
        ),
        MultiPassEvent::FriendOffline(ident) => s1 == presence_set(
            s0,
            ident.did,
            IdentityStatus::Offline,
        ),
        MultiPassEvent::Blocked(ident) => s1 == StateView {
            friends: FriendsView {
                all: crate::friends::without_did(s0.friends.all, ident.did),
                incoming_requests: crate::friends::without_did(
                    s0.friends.incoming_requests,
                    ident.did,
                ),
                outgoing_requests: crate::friends::without_did(
                    s0.friends.outgoing_requests,
                    ident.did,
                ),
                blocked: crate::friends::with_did(s0.friends.blocked, ident.did),
            },
            chats: chats_after_unfriend(s0.chats, ident.did),
            ..s0
        },
        MultiPassEvent::Unblocked(ident) => s1 == StateView {
            friends: FriendsView {
                blocked: crate::friends::without_did(s0.friends.blocked, ident.did),
                ..s0.friends
            },
            ..s0
        },
        MultiPassEvent::IdentityUpdate(ident) => if has_ident(s0.identities, ident.did) {
            s1 == StateView {
                identities: s0.identities.update(
                    ident_index_of(s0.identities, ident.did),
                    ident,
                ),
                ..s0
            }
        } else {
            s1 == s0
        },
    }
}

/// What one conversation-lifecycle event does.
pub open spec fn raygun_event_applied(s0: StateView, s1: StateView, ev: RayGunEvent) -> bool {
    match ev {
        RayGunEvent::ConversationCreated { chat, identities } => if !chat@.wf() {
            s1 == s0
        } else {
            let fresh = !s0.chats.in_sidebar.contains(chat.id);
            let mid = StateView {
                chats: ChatsView {
                    in_sidebar: if fresh {
                        seq![chat.id] + s0.chats.in_sidebar
                    } else {
                        s0.chats.in_sidebar
                    },
                    ..s0.chats
                },
                identities: if fresh {
                    upserted_all(s0.identities, identities@)
                } else {
                    s0.identities
                },
                ..s0
            };
            if has_chat(s0.chats.all, chat.id) {
                s1 == StateView {
                    chats: ChatsView {
                        all: mid.chats.all.update(
                            chat_index_of(s0.chats.all, chat.id),
                            chat@,
                        ),
                        ..mid.chats
                    },
                    ..mid
                }
            } else {
                s1 == StateView {
                    chats: ChatsView { all: mid.chats.all.push(chat@), ..mid.chats },
                    ..mid
                }
            }
        },
        RayGunEvent::ConversationDeleted(cid) => {
            let all1 = if has_chat(s0.chats.all, cid) {
                s0.chats.all.remove(chat_index_of(s0.chats.all, cid))
            } else {
                s0.chats.all
            };
            s1 == StateView {
                chats: ChatsView {
                    all: all1,
                    in_sidebar: without_cid(s0.chats.in_sidebar, cid),
                    active: if s0.chats.active == Some(cid) {
                        None
                    } else {
                        s0.chats.active
                    },
                    ..s0.chats
                },
                ..s0
            }
        },
    }
}

/// What one domain event does to the snapshot.
pub open spec fn event_applied(s0: StateView, s1: StateView, ev: WarpEvent, now: u64)
    -> bool {
    match ev {
        WarpEvent::MultiPass(e) => multipass_event_applied(s0, s1, e),
        WarpEvent::RayGun(e) => raygun_event_applied(s0, s1, e),
        WarpEvent::Message(e) => message_event_applied(s0, s1, e, now),
    }
}

/// The out-of-process side effects an event asks of its caller: the alert
/// and sound decision, and the cached display name for the alert body.
#[derive(Debug)]
pub struct EventSideEffects {
    pub decision: AlertDecision,
    pub sender_username: Option<String>,
}

/// The side effects owed for an event, read from the snapshot the event
/// arrived at.
pub open spec fn owed_side_effects(s0: StateView, ev: WarpEvent) -> AlertDecision {
    match ev {
        WarpEvent::Message(MessageEvent::Received { conversation_id, message }) =>
            crate::policy::message_alert_spec(
                s0.configuration,
                s0.ui.metadata.focused,
                s0.ui.current_layout,
            ),
        WarpEvent::MultiPass(MultiPassEvent::FriendRequestReceived(i)) =>
            crate::policy::friend_request_alert_spec(
                s0.configuration,
                s0.ui.metadata.focused,
            ),
        _ => AlertDecision { push_alert: false, play_sound: false },
    }
}

impl State {
    /// Applies one fully-resolved domain event to the snapshot, at the
    /// given tick, and returns the out-of-process side effects owed for
    /// it. The caller persists the snapshot afterwards, best-effort, at
    /// the I/O edge.
    pub fn process_warp_event(&mut self, event: WarpEvent, now: u64) -> (r: EventSideEffects)
        ensures
            old(self).wf() ==> final(self).wf(),
            event_applied(old(self)@, final(self)@, event, now),
            r.decision == owed_side_effects(old(self)@, event),
    {
        match event {
            WarpEvent::MultiPass(e) => self.process_multipass_event(e),
            WarpEvent::RayGun(e) => self.process_raygun_event(e),
            WarpEvent::Message(e) => self.process_message_event(e, now),
        }
    }

    /// Applies one identity or friend-request lifecycle event.
    fn process_multipass_event(&mut self, event: MultiPassEvent) -> (r: EventSideEffects)
        ensures
            old(self).wf() ==> final(self).wf(),
            multipass_event_applied(old(self)@, final(self)@, event),
            r.decision == owed_side_effects(old(self)@, WarpEvent::MultiPass(event)),
    {
        let mut effects = EventSideEffects {
            decision: AlertDecision { push_alert: false, play_sound: false },
            sender_username: None,
        };
        match event {
            MultiPassEvent::FriendRequestReceived(ident) => {
                effects.decision = crate::policy::friend_request_alert(
                    &self.configuration,
                    self.ui.metadata.focused,
                );
                effects.sender_username = Some(ident.username.clone());
                self.new_incoming_request(&ident);
                self.ui.notifications.increment(crate::ui::NotificationKind::FriendRequest, 1);
                proof {
                    let mid = StateView {
                        friends: self@.friends,
                        identities: upserted(old(self)@.identities, ident),
                        ..old(self)@
                    };
                    assert(self@ =~= counter_bumped(
                        StateView {
                            friends: self@.friends,
                            identities: upserted(old(self)@.identities, ident),
                            ..old(self)@
                        },
                        crate::ui::NotificationKind::FriendRequest,
                    ));
                    if old(self).wf() {
                        crate::state::lemma_wf_same_tables(mid, self@);
                    }
                }
            },
            MultiPassEvent::FriendRequestSent(ident) => {
                self.new_outgoing_request(&ident);
            },
            MultiPassEvent::FriendAdded(ident) => {
                self.complete_request(&ident);
            },
            MultiPassEvent::FriendRemoved(ident) => {
                self.friends.remove_friend_key(ident.did);
                proof {
                    assert(self@ =~= (StateView { friends: self@.friends, ..old(self)@ }));
                }
            },
            MultiPassEvent::FriendRequestCancelled(ident) => {
                self.cancel_request(ident.did);
            },
            MultiPassEvent::FriendOnline(ident) => {
                self.set_presence(ident.did, IdentityStatus::Online);
            },
            MultiPassEvent::FriendOffline(ident) => {
                self.set_presence(ident.did, IdentityStatus::Offline);
            },
            MultiPassEvent::Blocked(ident) => {
                self.block(ident.did);
            },
            MultiPassEvent::Unblocked(ident) => {
                self.unblock(ident.did);
            },
            MultiPassEvent::IdentityUpdate(ident) => {
                let d = ident.did;
                self.update_identity(d, ident);
            },
        }
        effects
    }

    /// Applies one conversation-lifecycle event.
    fn process_raygun_event(&mut self, event: RayGunEvent) -> (r: EventSideEffects)
        ensures
            old(self).wf() ==> final(self).wf(),
            raygun_event_applied(old(self)@, final(self)@, event),
            r.decision == (AlertDecision { push_alert: false, play_sound: false }),
    {
        match event {
            RayGunEvent::ConversationCreated { chat, identities } => {
                self.conversation_created(chat, identities);
            },
            RayGunEvent::ConversationDeleted(cid) => {
                self.conversation_deleted(cid);
            },
        }
        EventSideEffects {
            decision: AlertDecision { push_alert: false, play_sound: false },
            sender_username: None,
        }
    }

    /// Applies one message-lifecycle event at the given tick.
    #[verifier::rlimit(100)]
    fn process_message_event(&mut self, event: MessageEvent, now: u64)
        -> (r: EventSideEffects)
        ensures
            old(self).wf() ==> final(self).wf(),
            message_event_applied(old(self)@, final(self)@, event, now),
            r.decision == owed_side_effects(old(self)@, WarpEvent::Message(event)),
    {
        let mut effects = EventSideEffects {
            decision: AlertDecision { push_alert: false, play_sound: false },
            sender_username: None,
        };
        match event {
            MessageEvent::Received { conversation_id, message } => {
                effects.decision = crate::policy::message_alert(
                    &self.configuration,
                    self.ui.metadata.focused,
                    self.ui.current_layout,
                );
                effects.sender_username = self.cached_username_of(message.sender);
                let ghost s0 = self@;
                let ghost mv = message.deep_view();
                let sender = message.sender;
                self.update_identity_status_hack(sender);
                proof {
                    assert(self@ == status_hacked(s0, sender));
                }
                let ghost s_a = self@;
                proof {
                    assert(view_counts_unread(s_a, conversation_id)
                        == view_counts_unread(s0, conversation_id));
                }
                self.add_msg_to_chat(conversation_id, message);
                proof {
                    assert(self@ == received_step(s_a, conversation_id, mv));
                }
                let ghost s_b = self@;
                self.send_chat_to_top_of_sidebar(conversation_id);
                proof {
                    assert(self@ == sidebar_topped(s_b, conversation_id));
                }
                let ghost s_c = self@;
                self.ui.notifications.increment(crate::ui::NotificationKind::Message, 1);
                proof {
                    assert(self@ =~= counter_bumped(s_c, crate::ui::NotificationKind::Message));
                    if old(self).wf() {
                        crate::state::lemma_wf_same_tables(s_c, self@);
                    }
                }
            },
            MessageEvent::Sent { conversation_id, message } => {
                let ghost s0 = self@;
                let ghost mv = message.deep_view();
                self.add_sent_msg_to_chat(conversation_id, message);
                proof {
                    assert(self@ == log_op_step(s0, conversation_id,
                        crate::chat::LogOp::Append(mv)));
                }
                let ghost s_a = self@;
                self.send_chat_to_top_of_sidebar(conversation_id);
                proof {
                    assert(self@ == sidebar_topped(s_a, conversation_id));
                }
                let ghost s_b = self@;
                self.decrement_outgoing_messages(conversation_id);
                proof {
                    assert(self@ == pending_lowered(s_b, conversation_id));
                }
            },
            MessageEvent::Edited { conversation_id, message } => {
                let ghost s0 = self@;
                let ghost mv = message.deep_view();
                let sender = message.sender;
                self.update_identity_status_hack(sender);
                proof {
                    assert(self@ == status_hacked(s0, sender));
                }
                let ghost s_a = self@;
                self.replace_msg_in_chat(conversation_id, message);
                proof {
                    assert(self@ == log_op_step(s_a, conversation_id,
                        crate::chat::LogOp::Replace(mv)));
                }
            },
            MessageEvent::Deleted { conversation_id, message_id } => {
                self.remove_msg_from_chat(conversation_id, message_id);
            },
            MessageEvent::MessageReactionAdded { message } => {
                self.update_message(message);
            },
            MessageEvent::MessageReactionRemoved { message } => {
                self.update_message(message);
            },
            MessageEvent::TypingIndicator { conversation_id, participant } => {
                let ghost s0 = self@;
                self.update_identity_status_hack(participant);
                proof {
                    assert(self@ == status_hacked(s0, participant));
                }
                let ghost s_a = self@;
                self.typing_indicator(conversation_id, participant, now);
                proof {
                    assert(self@ == typing_step(s_a, conversation_id, participant, now));
                }
            },
            MessageEvent::RecipientAdded { conversation, identity } => {
                let ghost s0 = self@;
                self.upsert_identity(identity);
                proof {
                    assert(self@ == (StateView {
                        identities: upserted(s0.identities, identity),
                        ..s0
                    }));
                }
                let ghost s_a = self@;
                self.reset_chat_participants(conversation.id, &conversation.recipients);
                proof {
                    assert(self@ == participants_step(s_a, conversation.id,
                        conversation.recipients@));
                }
            },
            MessageEvent::RecipientRemoved { conversation } => {
                self.reset_chat_participants(conversation.id, &conversation.recipients);
            },
            MessageEvent::ConversationNameUpdated { conversation } => {
                self.set_conversation_name(conversation.id, conversation.name);
            },
        }
        effects
    }
}

} // verus!
