use crate::config::ConfigAction;
use crate::identity::Identity;
use crate::ids::{ChatId, Did, MsgId, WindowId};
use crate::message::ChatMessage;
use crate::ui::{Font, NotificationKind, Theme, ToastNotification, WindowMeta};
use vstd::prelude::*;

verus! {

/// The closed vocabulary of user intents: the only legitimate way the UI
/// layer mutates the snapshot, applied through the same entry point as the
/// backend's domain events.
#[derive(Debug)]
pub enum Action {
    // Notifications
    AddNotification(NotificationKind, u32),
    RemoveNotification(NotificationKind, u32),
    ClearNotification(NotificationKind),
    ClearAllNotifications,
    AddToastNotification(ToastNotification),
    DismissUpdate,
    // Friends
    SendRequest(Identity),
    RequestAccepted(Identity),
    CancelRequest(Did),
    AcceptRequest(Identity),
    DenyRequest(Did),
    RemoveFriend(Did),
    Block(Did),
    Unblock(Did),
    // Favorites
    Favorite(ChatId),
    ToggleFavorite(ChatId),
    UnFavorite(ChatId),
    // Language
    SetLanguage(String),
    // Overlays
    AddOverlay(WindowId),
    SetOverlay(bool),
    // Sidebar
    RemoveFromSidebar(ChatId),
    SidebarHidden(bool),
    // Navigation
    Navigate(String),
    // Generic UI
    SetMeta(WindowMeta),
    SetTheme(Option<Theme>),
    SetFont(Option<Font>),
    SetFontScale(u32),
    // Chats
    ChatWith(ChatId, bool),
    ClearActiveChat,
    StartReplying(ChatId, ChatMessage),
    CancelReply(ChatId),
    ClearUnreads(ChatId),
    ClearActiveUnreads,
    SetChatDraft(ChatId, String),
    ClearChatDraft(ChatId),
    MockSend(ChatId, String),
    // Reactions arrive as backend events; initiating one from the UI is
    // not implemented yet, and applying these aborts the mutation path.
    AddReaction(ChatId, MsgId, String),
    RemoveReaction(ChatId, MsgId, String),
    // Media
    ToggleMute,
    ToggleSilence,
    SetId(Identity),
    SetActiveMedia(ChatId),
    DisableMedia,
    // Configuration
    Config(ConfigAction),
}

} // verus!
