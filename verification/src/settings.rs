use vstd::prelude::*;

verus! {

/// The default font scale, in hundredths.
pub const DEFAULT_FONT_SCALE_CENTI: u32 = 100;

/// Persisted user settings. The font scale is held as a fixed-point value
/// in hundredths, so a scale of one is one hundred.
#[derive(Debug)]
pub struct Settings {
    pub language: String,
    pub update_available: Option<String>,
    pub update_dismissed: Option<String>,
    pub font_scale_centi: u32,
}

/// The mathematical model of the settings.
#[verifier::ext_equal]
pub ghost struct SettingsView {
    pub language: Seq<char>,
    pub update_available: Option<Seq<char>>,
    pub update_dismissed: Option<Seq<char>>,
    pub font_scale_centi: u32,
}

impl DeepView for Settings {
    type V = SettingsView;

    open spec fn deep_view(&self) -> SettingsView {
        SettingsView {
            language: self.language@,
            update_available: self.update_available.deep_view(),
            update_dismissed: self.update_dismissed.deep_view(),
            font_scale_centi: self.font_scale_centi,
        }
    }
}

impl View for Settings {
    type V = SettingsView;

    open spec fn view(&self) -> SettingsView {
        self.deep_view()
    }
}

impl Clone for Settings {
    fn clone(&self) -> (r: Self)
        ensures
            r@ == self@,
    {
        let r = Settings {
            language: self.language.clone(),
            update_available: self.update_available.clone(),
            update_dismissed: self.update_dismissed.clone(),
            font_scale_centi: self.font_scale_centi,
        };
        proof {
            assert(r@ =~= self@);
        }
        r
    }
}

/// The default settings value.
pub open spec fn default_settings_view() -> SettingsView {
    SettingsView {
        language: Seq::<char>::empty(),
        update_available: None,
        update_dismissed: None,
        font_scale_centi: DEFAULT_FONT_SCALE_CENTI,
    }
}

impl Settings {
    /// Fresh settings: empty language tag, no pending update, unit scale.
    pub fn new() -> (r: Settings)
        ensures
            r@ == default_settings_view(),
    {
        let r = Settings {
            language: String::new(),
            update_available: None,
            update_dismissed: None,
            font_scale_centi: DEFAULT_FONT_SCALE_CENTI,
        };
        proof {
            assert(r@ =~= default_settings_view());
        }
        r
    }

    /// Stores the font scale, in hundredths.
    pub fn set_font_scale(&mut self, centi: u32)
        ensures
            (final(self)@ == SettingsView { font_scale_centi: centi, ..old(self)@ }),
    {
        self.font_scale_centi = centi;
    }

    /// A persisted font scale of exactly zero is corrupt: it is corrected to
    /// the default on load.
    pub fn normalize_font_scale(&mut self)
        ensures
            (final(self)@ == SettingsView {
                font_scale_centi: if old(self).font_scale_centi == 0 {
                    DEFAULT_FONT_SCALE_CENTI
                } else {
                    old(self).font_scale_centi
                },
                ..old(self)@
            }),
    {
        if self.font_scale_centi == 0 {
            self.font_scale_centi = DEFAULT_FONT_SCALE_CENTI;
        }
    }
}

} // verus!
