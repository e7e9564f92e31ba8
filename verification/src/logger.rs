//! The status log: every message that was shown, and the one to show next.

use vstd::prelude::*;

verus! {

/// The status component's state.
#[derive(Debug, PartialEq, Eq)]
pub struct StatusModel {
    /// Every message so far, oldest first.
    pub log: Vec<String>,
    /// Text of the toast to show, if any.
    pub last_toast: Option<String>,
}

/// What can happen to the status component.
#[derive(Debug, PartialEq, Eq)]
pub enum StatusMsg {
    /// A new message to show and to log.
    New(String),
}

impl StatusModel {
    /// The model at start: nothing logged, nothing to show.
    pub fn init_model() -> (model: Self)
        ensures
            model.log@.len() == 0,
            model.last_toast is None,
    {
        StatusModel { log: Vec::new(), last_toast: None }
    }

    /// Applies one message: a new message becomes the toast to show and the
    /// last entry of the log.
    pub fn update(&mut self, msg: StatusMsg)
        ensures
            match msg {
                StatusMsg::New(text) => {
                    &&& final(self).last_toast == Some(text)
                    &&& final(self).log@ == old(self).log@.push(text)
                },
            },
    {
        match msg {
            StatusMsg::New(text) => {
                self.last_toast = Some(text.clone());
                self.log.push(text);
            },
        }
    }
}

} // verus!
