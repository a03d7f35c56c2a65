use crate::ids::Did;
use vstd::prelude::*;

verus! {

/// Presence status of a participant: set by presence events, corrected
/// heuristically on message receipt, never set by the UI.
#[derive(Clone, Copy, PartialEq, Eq, Structural, Debug)]
pub enum IdentityStatus {
    Online,
    Away,
    Offline,
}

/// Platform hint reported by the backend for a participant.
#[derive(Clone, Copy, PartialEq, Eq, Structural, Debug)]
pub enum Platform {
    Desktop,
    Mobile,
    Web,
    Unknown,
}

/// A participant (self or remote): display data plus presence.
#[derive(Debug)]
pub struct Identity {
    pub did: Did,
    pub username: String,
    pub profile_picture: String,
    pub profile_banner: String,
    pub status: IdentityStatus,
    pub platform: Platform,
    pub status_message: Option<String>,
}

impl DeepView for Identity {
    type V = Identity;

    open spec fn deep_view(&self) -> Identity {
        *self
    }
}

impl Clone for Identity {
    fn clone(&self) -> (r: Self)
        ensures
            r == *self,
    {
        Identity {
            did: self.did,
            username: self.username.clone(),
            profile_picture: self.profile_picture.clone(),
            profile_banner: self.profile_banner.clone(),
            status: self.status,
            platform: self.platform,
            status_message: self.status_message.clone(),
        }
    }
}

impl Identity {
    /// A fresh identity carrying only a key and a display name.
    pub fn new(did: Did, username: String) -> (r: Identity)
        ensures
            r.did == did,
            r.username == username,
            r.status == IdentityStatus::Offline,
            r.platform == Platform::Unknown,
            r.status_message is None,
            r.profile_picture@ == Seq::<char>::empty(),
            r.profile_banner@ == Seq::<char>::empty(),
    {
        Identity {
            did,
            username,
            profile_picture: String::new(),
            profile_banner: String::new(),
            status: IdentityStatus::Offline,
            platform: Platform::Unknown,
            status_message: None,
        }
    }
}

} // verus!
