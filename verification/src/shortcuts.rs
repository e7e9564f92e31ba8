//! State of the shortcuts window.

use vstd::prelude::*;

verus! {

/// What the shortcuts window shows.
#[derive(Clone, Copy, Debug, PartialEq, Eq)]
pub struct ShortcutsModel {
    /// Whether the window is shown.
    pub is_active: bool,
}

/// What can happen to the shortcuts window.
#[derive(Clone, Copy, Debug, PartialEq, Eq)]
pub enum ShortcutsMsg {
    /// Show the window.
    Show,
    /// Hide the window.
    Hide,
}

impl ShortcutsModel {
    /// The model at start: the window hidden.
    pub fn init_model() -> (model: Self)
        ensures
            !model.is_active,
    {
        ShortcutsModel { is_active: false }
    }

    /// Applies one message: the window is shown after `Show` and hidden
    /// after `Hide`, whatever it was before.
    pub fn update(&mut self, msg: ShortcutsMsg)
        ensures
            final(self).is_active == (msg == ShortcutsMsg::Show),
    {
        match msg {
            ShortcutsMsg::Show => {
                self.is_active = true;
            },
            ShortcutsMsg::Hide => {
                self.is_active = false;
            },
        }
    }
}

} // verus!
