use crate::chat::{Chat, ChatKind};
use crate::identity::Identity;
use crate::ids::{ChatId, Did, MsgId};
use crate::message::ChatMessage;
use vstd::prelude::*;

verus! {

/// The authoritative backend record of a conversation, as events carry it:
/// enough denormalized data that applying the event needs no further
/// fetch.
#[derive(Debug)]
pub struct ConversationRecord {
    pub id: ChatId,
    pub kind: ChatKind,
    pub recipients: Vec<Did>,
    pub name: Option<String>,
    pub creator: Option<Did>,
}

/// Message-lifecycle domain events, fully resolved by the event
/// translator.
#[derive(Debug)]
pub enum MessageEvent {
    Received { conversation_id: ChatId, message: ChatMessage },
    Sent { conversation_id: ChatId, message: ChatMessage },
    Edited { conversation_id: ChatId, message: ChatMessage },
    Deleted { conversation_id: ChatId, message_id: MsgId },
    MessageReactionAdded { message: ChatMessage },
    MessageReactionRemoved { message: ChatMessage },
    TypingIndicator { conversation_id: ChatId, participant: Did },
    RecipientAdded { conversation: ConversationRecord, identity: Identity },
    RecipientRemoved { conversation: ConversationRecord },
    ConversationNameUpdated { conversation: ConversationRecord },
}

/// Conversation-lifecycle domain events.
#[derive(Debug)]
pub enum RayGunEvent {
    ConversationCreated { chat: Chat, identities: Vec<Identity> },
    ConversationDeleted(ChatId),
}

/// Identity, presence and friend-request lifecycle domain events.
#[derive(Debug)]
pub enum MultiPassEvent {
    FriendRequestReceived(Identity),
    FriendRequestSent(Identity),
    FriendAdded(Identity),
    FriendRemoved(Identity),
    FriendRequestCancelled(Identity),
    FriendOnline(Identity),
    FriendOffline(Identity),
    Blocked(Identity),
    Unblocked(Identity),
    IdentityUpdate(Identity),
}

/// The whole domain-event vocabulary the state container applies.
#[derive(Debug)]
pub enum WarpEvent {
    MultiPass(MultiPassEvent),
    RayGun(RayGunEvent),
    Message(MessageEvent),
}

} // verus!
