//! State of the preferences window.

use vstd::prelude::*;

verus! {

/// What the preferences window shows.
#[derive(Clone, Copy, Debug, PartialEq, Eq)]
pub struct PreferencesModel {
    /// A preference that does nothing but toggle.
    pub test_pref: bool,
    /// Whether the window is shown.
    pub is_active: bool,
}

/// What can happen to the preferences window.
#[derive(Clone, Copy, Debug, PartialEq, Eq)]
pub enum PreferencesMsg {
    /// Toggle the test preference.
    Test,
    /// Show the window.
    Show,
    /// Hide the window.
    Hide,
}

impl PreferencesModel {
    /// The model after `msg`.
    pub open spec fn after(self, msg: PreferencesMsg) -> Self {
        match msg {
            PreferencesMsg::Test => PreferencesModel { test_pref: !self.test_pref, ..self },
            PreferencesMsg::Show => PreferencesModel { is_active: true, ..self },
            PreferencesMsg::Hide => PreferencesModel { is_active: false, ..self },
        }
    }

    /// The model at start: the test preference set, the window hidden.
    pub fn init_model() -> (model: Self)
        ensures
            model.test_pref,
            !model.is_active,
    {
        PreferencesModel { test_pref: true, is_active: false }
    }

    /// Applies one message.
    pub fn update(&mut self, msg: PreferencesMsg)
        ensures
            *final(self) == old(self).after(msg),
    {
        match msg {
            PreferencesMsg::Test => {
                self.test_pref = !self.test_pref;
            },
            PreferencesMsg::Show => {
                self.is_active = true;
            },
            PreferencesMsg::Hide => {
                self.is_active = false;
            },
        }
    }
}

} // verus!
