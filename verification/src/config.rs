use vstd::prelude::*;

verus! {

/// Per-category notification toggles.
#[derive(Clone, Copy, PartialEq, Eq, Structural, Debug)]
pub struct NotificationConfig {
    pub enabled: bool,
    pub friends_notifications: bool,
    pub messages_notifications: bool,
    pub settings_notifications: bool,
}

/// Sound toggles.
#[derive(Clone, Copy, PartialEq, Eq, Structural, Debug)]
pub struct AudioVideoConfig {
    pub message_sounds: bool,
    pub interface_sounds: bool,
    pub media_sounds: bool,
}

/// User configuration read by the notification policy.
#[derive(Clone, Copy, PartialEq, Eq, Structural, Debug)]
pub struct Configuration {
    pub notifications: NotificationConfig,
    pub audiovideo: AudioVideoConfig,
}

/// The closed vocabulary of configuration changes.
#[derive(Clone, Copy, PartialEq, Eq, Structural, Debug)]
pub enum ConfigAction {
    SetNotificationsEnabled(bool),
    SetFriendsNotifications(bool),
    SetMessagesNotifications(bool),
    SetSettingsNotifications(bool),
    SetMessageSounds(bool),
    SetInterfaceSounds(bool),
    SetMediaSounds(bool),
}

/// What one configuration change does.
pub open spec fn config_step(c: Configuration, a: ConfigAction) -> Configuration {
    match a {
        ConfigAction::SetNotificationsEnabled(v) => Configuration {
            notifications: NotificationConfig { enabled: v, ..c.notifications },
            ..c
        },
        ConfigAction::SetFriendsNotifications(v) => Configuration {
            notifications: NotificationConfig { friends_notifications: v, ..c.notifications },
            ..c
        },
        ConfigAction::SetMessagesNotifications(v) => Configuration {
            notifications: NotificationConfig { messages_notifications: v, ..c.notifications },
            ..c
        },
        ConfigAction::SetSettingsNotifications(v) => Configuration {
            notifications: NotificationConfig { settings_notifications: v, ..c.notifications },
            ..c
        },
        ConfigAction::SetMessageSounds(v) => Configuration {
            audiovideo: AudioVideoConfig { message_sounds: v, ..c.audiovideo },
            ..c
        },
        ConfigAction::SetInterfaceSounds(v) => Configuration {
            audiovideo: AudioVideoConfig { interface_sounds: v, ..c.audiovideo },
            ..c
        },
        ConfigAction::SetMediaSounds(v) => Configuration {
            audiovideo: AudioVideoConfig { media_sounds: v, ..c.audiovideo },
            ..c
        },
    }
}

impl Configuration {
    /// Every toggle off.
    pub fn new() -> (r: Configuration)
        ensures
            r == Configuration::default_spec(),
    {
        Configuration {
            notifications: NotificationConfig {
                enabled: false,
                friends_notifications: false,
                messages_notifications: false,
                settings_notifications: false,
            },
            audiovideo: AudioVideoConfig {
                message_sounds: false,
                interface_sounds: false,
                media_sounds: false,
            },
        }
    }

    /// The default configuration value.
    pub open spec fn default_spec() -> Configuration {
        Configuration {
            notifications: NotificationConfig {
                enabled: false,
                friends_notifications: false,
                messages_notifications: false,
                settings_notifications: false,
            },
            audiovideo: AudioVideoConfig {
                message_sounds: false,
                interface_sounds: false,
                media_sounds: false,
            },
        }
    }

    /// Applies one configuration change.
    pub fn mutate(&mut self, a: ConfigAction)
        ensures
            *final(self) == config_step(*old(self), a),
    {
        match a {
            ConfigAction::SetNotificationsEnabled(v) => self.notifications.enabled = v,
            ConfigAction::SetFriendsNotifications(v) => self.notifications.friends_notifications
                = v,
            ConfigAction::SetMessagesNotifications(v) => self.notifications.messages_notifications
                = v,
            ConfigAction::SetSettingsNotifications(v) => self.notifications.settings_notifications
                = v,
            ConfigAction::SetMessageSounds(v) => self.audiovideo.message_sounds = v,
            ConfigAction::SetInterfaceSounds(v) => self.audiovideo.interface_sounds = v,
            ConfigAction::SetMediaSounds(v) => self.audiovideo.media_sounds = v,
        }
    }
}

} // verus!
