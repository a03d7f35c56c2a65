use crate::events::{ConversationRecord, MessageEvent};
use crate::identity::Identity;
use crate::ids::{ChatId, Did, MsgId};
use crate::message::ChatMessage;
use vstd::prelude::*;

verus! {

/// A raw backend message event, as the event stream delivers it: bare
/// identifiers, before any referenced body has been resolved.
#[derive(Debug)]
pub enum RawMessageEvent {
    MessageReceived { conversation_id: ChatId, message_id: MsgId },
    MessageSent { conversation_id: ChatId, message_id: MsgId },
    MessageEdited { conversation_id: ChatId, message_id: MsgId },
    MessageDeleted { conversation_id: ChatId, message_id: MsgId },
    MessageReactionAdded { conversation_id: ChatId, message_id: MsgId },
    MessageReactionRemoved { conversation_id: ChatId, message_id: MsgId },
    TypingEvent { conversation_id: ChatId, participant: Did },
    RecipientAdded { conversation_id: ChatId, recipient: Did },
    RecipientRemoved { conversation_id: ChatId, recipient: Did },
    ConversationNameUpdated { conversation_id: ChatId },
    /// A backend event kind outside the closed vocabulary above. Failing
    /// loudly on it surfaces missing coverage during development.
    Unsupported,
}

/// What the translator needs fetched from the backend before it can emit
/// the domain event: the only asynchronous work in the core, performed by
/// the caller that owns the backend client.
#[derive(PartialEq, Eq, Structural, Debug)]
pub enum FetchRequest {
    Nothing,
    /// The adapted message body, with its UI annotations.
    MessageBody { conversation_id: ChatId, message_id: MsgId },
    /// The conversation record.
    Conversation { conversation_id: ChatId },
    /// The conversation record together with one recipient's identity.
    ConversationAndIdentity { conversation_id: ChatId, recipient: Did },
}

/// What the caller fetched, handed back to the translator.
#[derive(Debug)]
pub enum FetchResult {
    Nothing,
    MessageBody(ChatMessage),
    Conversation(ConversationRecord),
    ConversationAndIdentity(ConversationRecord, Identity),
}

/// Why a raw event produced no domain event: the backend fetch failed (or
/// the caller handed back the wrong shape), or the event kind is not
/// covered yet.
#[derive(Clone, Copy, PartialEq, Eq, Structural, Debug)]
pub enum TranslateError {
    MissingResolution,
    Unsupported,
}

/// The fetch each raw event kind requires.
pub open spec fn fetch_spec(ev: RawMessageEvent) -> FetchRequest {
    match ev {
        RawMessageEvent::MessageReceived { conversation_id, message_id } =>
            FetchRequest::MessageBody { conversation_id, message_id },
        RawMessageEvent::MessageSent { conversation_id, message_id } =>
            FetchRequest::MessageBody { conversation_id, message_id },
        RawMessageEvent::MessageEdited { conversation_id, message_id } =>
            FetchRequest::MessageBody { conversation_id, message_id },
        RawMessageEvent::MessageDeleted { .. } => FetchRequest::Nothing,
        RawMessageEvent::MessageReactionAdded { conversation_id, message_id } =>
            FetchRequest::MessageBody { conversation_id, message_id },
        RawMessageEvent::MessageReactionRemoved { conversation_id, message_id } =>
            FetchRequest::MessageBody { conversation_id, message_id },
        RawMessageEvent::TypingEvent { .. } => FetchRequest::Nothing,
        RawMessageEvent::RecipientAdded { conversation_id, recipient } =>
            FetchRequest::ConversationAndIdentity { conversation_id, recipient },
        RawMessageEvent::RecipientRemoved { conversation_id, .. } =>
            FetchRequest::Conversation { conversation_id },
        RawMessageEvent::ConversationNameUpdated { conversation_id } =>
            FetchRequest::Conversation { conversation_id },
        RawMessageEvent::Unsupported => FetchRequest::Nothing,
    }
}

/// States the fetch a raw event requires, for the caller to perform.
pub fn fetch_needed(ev: &RawMessageEvent) -> (r: FetchRequest)
    ensures
        r == fetch_spec(*ev),
{
    match ev {
        RawMessageEvent::MessageReceived { conversation_id, message_id } =>
            FetchRequest::MessageBody {
                conversation_id: *conversation_id,
                message_id: *message_id,
            },
        RawMessageEvent::MessageSent { conversation_id, message_id } =>
            FetchRequest::MessageBody {
                conversation_id: *conversation_id,
                message_id: *message_id,
            },
        RawMessageEvent::MessageEdited { conversation_id, message_id } =>
            FetchRequest::MessageBody {
                conversation_id: *conversation_id,
                message_id: *message_id,
            },
        RawMessageEvent::MessageDeleted { .. } => FetchRequest::Nothing,
        RawMessageEvent::MessageReactionAdded { conversation_id, message_id } =>
            FetchRequest::MessageBody {
                conversation_id: *conversation_id,
                message_id: *message_id,
            },
        RawMessageEvent::MessageReactionRemoved { conversation_id, message_id } =>
            FetchRequest::MessageBody {
                conversation_id: *conversation_id,
                message_id: *message_id,
            },
        RawMessageEvent::TypingEvent { .. } => FetchRequest::Nothing,
        RawMessageEvent::RecipientAdded { conversation_id, recipient } =>
            FetchRequest::ConversationAndIdentity {
                conversation_id: *conversation_id,
                recipient: *recipient,
            },
        RawMessageEvent::RecipientRemoved { conversation_id, .. } =>
            FetchRequest::Conversation { conversation_id: *conversation_id },
        RawMessageEvent::ConversationNameUpdated { conversation_id } =>
            FetchRequest::Conversation { conversation_id: *conversation_id },
        RawMessageEvent::Unsupported => FetchRequest::Nothing,
    }
}

/// Whether a translation outcome is the one owed for the raw event and
/// the fetched body: each supported kind yields exactly one domain event
/// carrying the resolved data; an unsupported kind fails loudly; a fetch
/// of the wrong shape is a resolution failure.
pub open spec fn translated(ev: RawMessageEvent, fetched: FetchResult,
    r: Result<MessageEvent, TranslateError>) -> bool {
    match ev {
        RawMessageEvent::MessageReceived { conversation_id, message_id } => match fetched {
            FetchResult::MessageBody(m) => r == Result::<MessageEvent, TranslateError>::Ok(
                MessageEvent::Received { conversation_id, message: m },
            ),
            _ => r == Result::<MessageEvent, TranslateError>::Err(
                TranslateError::MissingResolution,
            ),
        },
        RawMessageEvent::MessageSent { conversation_id, message_id } => match fetched {
            FetchResult::MessageBody(m) => r == Result::<MessageEvent, TranslateError>::Ok(
                MessageEvent::Sent { conversation_id, message: m },
            ),
            _ => r == Result::<MessageEvent, TranslateError>::Err(
                TranslateError::MissingResolution,
            ),
        },
        RawMessageEvent::MessageEdited { conversation_id, message_id } => match fetched {
            FetchResult::MessageBody(m) => r == Result::<MessageEvent, TranslateError>::Ok(
                MessageEvent::Edited { conversation_id, message: m },
            ),
            _ => r == Result::<MessageEvent, TranslateError>::Err(
                TranslateError::MissingResolution,
            ),
        },
        RawMessageEvent::MessageDeleted { conversation_id, message_id } => r
            == Result::<MessageEvent, TranslateError>::Ok(MessageEvent::Deleted {
            conversation_id,
            message_id,
        }),
        RawMessageEvent::MessageReactionAdded { .. } => match fetched {
            FetchResult::MessageBody(m) => r == Result::<MessageEvent, TranslateError>::Ok(
                MessageEvent::MessageReactionAdded { message: m },
            ),
            _ => r == Result::<MessageEvent, TranslateError>::Err(
                TranslateError::MissingResolution,
            ),
        },
        RawMessageEvent::MessageReactionRemoved { .. } => match fetched {
            FetchResult::MessageBody(m) => r == Result::<MessageEvent, TranslateError>::Ok(
                MessageEvent::MessageReactionRemoved { message: m },
            ),
            _ => r == Result::<MessageEvent, TranslateError>::Err(
                TranslateError::MissingResolution,
            ),
        },
        RawMessageEvent::TypingEvent { conversation_id, participant } => r
            == Result::<MessageEvent, TranslateError>::Ok(MessageEvent::TypingIndicator {
            conversation_id,
            participant,
        }),
        RawMessageEvent::RecipientAdded { .. } => match fetched {
            FetchResult::ConversationAndIdentity(conv, ident) => r
                == Result::<MessageEvent, TranslateError>::Ok(MessageEvent::RecipientAdded {
                conversation: conv,
                identity: ident,
            }),
            _ => r == Result::<MessageEvent, TranslateError>::Err(
                TranslateError::MissingResolution,
            ),
        },
        RawMessageEvent::RecipientRemoved { .. } => match fetched {
            FetchResult::Conversation(conv) => r == Result::<MessageEvent, TranslateError>::Ok(
                MessageEvent::RecipientRemoved { conversation: conv },
            ),
            _ => r == Result::<MessageEvent, TranslateError>::Err(
                TranslateError::MissingResolution,
            ),
        },
        RawMessageEvent::ConversationNameUpdated { .. } => match fetched {
            FetchResult::Conversation(conv) => r == Result::<MessageEvent, TranslateError>::Ok(
                MessageEvent::ConversationNameUpdated { conversation: conv },
            ),
            _ => r == Result::<MessageEvent, TranslateError>::Err(
                TranslateError::MissingResolution,
            ),
        },
        RawMessageEvent::Unsupported => r == Result::<MessageEvent, TranslateError>::Err(
            TranslateError::Unsupported,
        ),
    }
}

/// Converts one raw backend message event, together with the body the
/// caller fetched for it, into exactly one normalized domain event. The
/// asynchronous fetch itself is the caller's: `fetch_needed` says what to
/// fetch, and this function does the rest, for every fetched value.
pub fn convert_message_event(ev: RawMessageEvent, fetched: FetchResult)
    -> (r: Result<MessageEvent, TranslateError>)
    ensures
        translated(ev, fetched, r),
        r is Err ==> (ev is Unsupported <==> r == Result::<MessageEvent,
            TranslateError>::Err(TranslateError::Unsupported)),
{
    match ev {
        RawMessageEvent::MessageReceived { conversation_id, message_id: _ } => match fetched {
            FetchResult::MessageBody(m) => Ok(MessageEvent::Received {
                conversation_id,
                message: m,
            }),
            _ => Err(TranslateError::MissingResolution),
        },
        RawMessageEvent::MessageSent { conversation_id, message_id: _ } => match fetched {
            FetchResult::MessageBody(m) => Ok(MessageEvent::Sent {
                conversation_id,
                message: m,
            }),
            _ => Err(TranslateError::MissingResolution),
        },
        RawMessageEvent::MessageEdited { conversation_id, message_id: _ } => match fetched {
            FetchResult::MessageBody(m) => Ok(MessageEvent::Edited {
                conversation_id,
                message: m,
            }),
            _ => Err(TranslateError::MissingResolution),
        },
        RawMessageEvent::MessageDeleted { conversation_id, message_id } => Ok(
            MessageEvent::Deleted { conversation_id, message_id },
        ),
        RawMessageEvent::MessageReactionAdded { .. } => match fetched {
            FetchResult::MessageBody(m) => Ok(MessageEvent::MessageReactionAdded {
                message: m,
            }),
            _ => Err(TranslateError::MissingResolution),
        },
        RawMessageEvent::MessageReactionRemoved { .. } => match fetched {
            FetchResult::MessageBody(m) => Ok(MessageEvent::MessageReactionRemoved {
                message: m,
            }),
            _ => Err(TranslateError::MissingResolution),
        },
        RawMessageEvent::TypingEvent { conversation_id, participant } => Ok(
            MessageEvent::TypingIndicator { conversation_id, participant },
        ),
        RawMessageEvent::RecipientAdded { .. } => match fetched {
            FetchResult::ConversationAndIdentity(conv, ident) => Ok(
                MessageEvent::RecipientAdded { conversation: conv, identity: ident },
            ),
            _ => Err(TranslateError::MissingResolution),
        },
        RawMessageEvent::RecipientRemoved { .. } => match fetched {
            FetchResult::Conversation(conv) => Ok(MessageEvent::RecipientRemoved {
                conversation: conv,
            }),
            _ => Err(TranslateError::MissingResolution),
        },
        RawMessageEvent::ConversationNameUpdated { .. } => match fetched {
            FetchResult::Conversation(conv) => Ok(MessageEvent::ConversationNameUpdated {
                conversation: conv,
            }),
            _ => Err(TranslateError::MissingResolution),
        },
        RawMessageEvent::Unsupported => Err(TranslateError::Unsupported),
    }
}

} // verus!
