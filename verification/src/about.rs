//! State of the about dialog.

use vstd::prelude::*;

verus! {

/// What the about dialog shows.
#[derive(Debug, PartialEq, Eq)]
pub struct AboutModel {
    /// Whether the dialog is shown.
    pub is_active: bool,
    /// The line below the program's name.
    pub comments: String,
    /// The program's name.
    pub program_name: String,
    /// The program's version.
    pub version: String,
}

/// What can happen to the about dialog.
#[derive(Clone, Copy, Debug, PartialEq, Eq)]
pub enum AboutMsg {
    /// Show the dialog.
    Show,
    /// Hide the dialog.
    Hide,
}

impl AboutModel {
    /// The model at start: the dialog hidden, with the program's texts.
    pub fn init_model() -> (model: Self)
        ensures
            !model.is_active,
            model.comments@ == "Yeah"@,
            model.program_name@ == "ESRafel"@,
            model.version@ == "0.1.0"@,
    {
        AboutModel {
            is_active: false,
            comments: "Yeah".to_owned(),
            program_name: "ESRafel".to_owned(),
            version: "0.1.0".to_owned(),
        }
    }

    /// Applies one message: the dialog is shown after `Show` and hidden
    /// after `Hide`; the texts stay.
    pub fn update(&mut self, msg: AboutMsg)
        ensures
            final(self).is_active == (msg == AboutMsg::Show),
            final(self).comments == old(self).comments,
            final(self).program_name == old(self).program_name,
            final(self).version == old(self).version,
    {
        match msg {
            AboutMsg::Show => {
                self.is_active = true;
            },
            AboutMsg::Hide => {
                self.is_active = false;
            },
        }
    }
}

} // verus!
