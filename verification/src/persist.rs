use crate::config::Configuration;
use crate::friends::{Friends, FriendsView};
use crate::identity::Identity;
use crate::ids::Did;
use crate::settings::{Settings, SettingsView, DEFAULT_FONT_SCALE_CENTI};
use crate::state::{Chats, ChatsView, State, StateView};
use crate::ui::{UIView, UI};
use vstd::prelude::*;

verus! {

/// The persisted part of the snapshot: everything except the own key, the
/// identity table (rebuilt from the backend on load) and the initialized
/// flag. The caller turns this value into a structured document at the
/// I/O edge and back.
#[derive(Debug)]
pub struct PersistedSnapshot {
    pub route: String,
    pub chats: Chats,
    pub friends: Friends,
    pub settings: Settings,
    pub ui: UI,
    pub configuration: Configuration,
}

/// The mathematical model of the persisted part.
#[verifier::ext_equal]
pub ghost struct PersistedView {
    pub route: Seq<char>,
    pub chats: ChatsView,
    pub friends: FriendsView,
    pub settings: SettingsView,
    pub ui: UIView,
    pub configuration: Configuration,
}

impl DeepView for PersistedSnapshot {
    type V = PersistedView;

    open spec fn deep_view(&self) -> PersistedView {
        PersistedView {
            route: self.route@,
            chats: self.chats.deep_view(),
            friends: self.friends.deep_view(),
            settings: self.settings.deep_view(),
            ui: self.ui.deep_view(),
            configuration: self.configuration,
        }
    }
}

impl View for PersistedSnapshot {
    type V = PersistedView;

    open spec fn view(&self) -> PersistedView {
        self.deep_view()
    }
}

/// The persisted projection of a snapshot.
pub open spec fn project(s: StateView) -> PersistedView {
    PersistedView {
        route: s.route,
        chats: s.chats,
        friends: s.friends,
        settings: s.settings,
        ui: s.ui,
        configuration: s.configuration,
    }
}

/// The snapshot restored from a persisted part: persisted fields are taken
/// over exactly, except that a corrupt font scale of exactly zero is
/// corrected to the default; the own key, the identity table and the
/// initialized flag take their defaults.
pub open spec fn restore(p: PersistedView) -> StateView {
    StateView {
        id: Did(0),
        route: p.route,
        chats: p.chats,
        friends: p.friends,
        settings: SettingsView {
            font_scale_centi: if p.settings.font_scale_centi == 0 {
                DEFAULT_FONT_SCALE_CENTI
            } else {
                p.settings.font_scale_centi
            },
            ..p.settings
        },
        ui: p.ui,
        configuration: p.configuration,
        identities: Seq::<Identity>::empty(),
        initialized: false,
    }
}

impl State {
    /// Extracts the persisted part of the snapshot, for the caller to
    /// serialize at the I/O edge.
    pub fn to_persisted(&self) -> (r: PersistedSnapshot)
        ensures
            r@ == project(self@),
    {
        let r = PersistedSnapshot {
            route: self.route.clone(),
            chats: self.chats.clone(),
            friends: self.friends.clone(),
            settings: self.settings.clone(),
            ui: self.ui.clone(),
            configuration: self.configuration,
        };
        proof {
            assert(r@ =~= project(self@));
        }
        r
    }

    /// Rebuilds a snapshot from a persisted part read back at the I/O
    /// edge: persisted fields are reproduced exactly, a zero font scale is
    /// corrected to the default, and the excluded fields take defaults.
    pub fn from_persisted(p: PersistedSnapshot) -> (r: State)
        ensures
            r@ == restore(p@),
    {
        let mut settings = p.settings;
        settings.normalize_font_scale();
        let r = State {
            id: Did(0),
            route: p.route,
            chats: p.chats,
            friends: p.friends,
            settings,
            ui: p.ui,
            configuration: p.configuration,
            identities: Vec::new(),
            initialized: false,
        };
        proof {
            assert(r@ =~= restore(p@));
        }
        r
    }

    /// Derives a fresh-session copy: the identity-independent persistent
    /// data (own key, route, conversations, friendships, configuration,
    /// initialized flag) is kept, while settings, UI-transient state and
    /// the identity table reset to defaults.
    pub fn to_fresh_session(&self) -> (r: State)
        ensures
            r@ == (StateView {
                settings: crate::settings::default_settings_view(),
                ui: crate::ui::default_ui_view(),
                identities: Seq::<Identity>::empty(),
                ..self@
            }),
    {
        let r = State {
            id: self.id,
            route: self.route.clone(),
            chats: self.chats.clone(),
            friends: self.friends.clone(),
            settings: Settings::new(),
            ui: UI::new(),
            configuration: self.configuration,
            identities: Vec::new(),
            initialized: self.initialized,
        };
        proof {
            assert(r@ =~= (StateView {
                settings: crate::settings::default_settings_view(),
                ui: crate::ui::default_ui_view(),
                identities: Seq::<Identity>::empty(),
                ..self@
            }));
        }
        r
    }
}

/// Law: persisting a snapshot and restoring it reproduces every persisted
/// field exactly — with a zero font scale corrected to the default — while
/// the own key, the identity table and the initialized flag take their
/// default values.
pub proof fn lemma_persist_round_trip(s: StateView)
    ensures
        restore(project(s)) == (StateView {
            id: Did(0),
            settings: SettingsView {
                font_scale_centi: if s.settings.font_scale_centi == 0 {
                    DEFAULT_FONT_SCALE_CENTI
                } else {
                    s.settings.font_scale_centi
                },
                ..s.settings
            },
            identities: Seq::<Identity>::empty(),
            initialized: false,
            ..s
        }),
{
    assert(restore(project(s)) =~= (StateView {
        id: Did(0),
        settings: SettingsView {
            font_scale_centi: if s.settings.font_scale_centi == 0 {
                DEFAULT_FONT_SCALE_CENTI
            } else {
                s.settings.font_scale_centi
            },
            ..s.settings
        },
        identities: Seq::<Identity>::empty(),
        initialized: false,
        ..s
    }));
}

} // verus!
