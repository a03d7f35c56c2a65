use crate::config::Configuration;
use crate::ui::Layout;
use vstd::prelude::*;

verus! {

/// What the notification policy decided for one qualifying event: whether
/// to fire an out-of-process alert and whether to play a sound.
#[derive(Clone, Copy, PartialEq, Eq, Structural, Debug)]
pub struct AlertDecision {
    pub push_alert: bool,
    pub play_sound: bool,
}

/// The decision owed for an incoming message: an out-of-process alert goes
/// out when message notifications are on and the window is unfocused, with
/// a sound if message sounds are on; without an alert, the sound still
/// plays when message sounds are on and the conversation view is not the
/// one composing.
pub open spec fn message_alert_spec(config: Configuration, focused: bool, layout: Layout)
    -> AlertDecision {
    let push_alert = config.notifications.messages_notifications && !focused;
    AlertDecision {
        push_alert,
        play_sound: if push_alert {
            config.audiovideo.message_sounds
        } else {
            layout != Layout::Compose && config.audiovideo.message_sounds
        },
    }
}

/// Decides alerting for an incoming message.
pub fn message_alert(config: &Configuration, focused: bool, layout: Layout)
    -> (r: AlertDecision)
    ensures
        r == message_alert_spec(*config, focused, layout),
{
    let push_alert = config.notifications.messages_notifications && !focused;
    let play_sound = if push_alert {
        config.audiovideo.message_sounds
    } else {
        layout != Layout::Compose && config.audiovideo.message_sounds
    };
    AlertDecision { push_alert, play_sound }
}

/// The decision owed for an incoming friend request: an out-of-process
/// alert with a sound goes out when friend-request notifications are on
/// and the window is unfocused.
pub open spec fn friend_request_alert_spec(config: Configuration, focused: bool)
    -> AlertDecision {
    let push_alert = config.notifications.friends_notifications && !focused;
    AlertDecision { push_alert, play_sound: push_alert }
}

/// Decides alerting for an incoming friend request.
pub fn friend_request_alert(config: &Configuration, focused: bool) -> (r: AlertDecision)
    ensures
        r == friend_request_alert_spec(*config, focused),
{
    let push_alert = config.notifications.friends_notifications && !focused;
    AlertDecision { push_alert, play_sound: push_alert }
}

} // verus!
