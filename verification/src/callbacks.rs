//! The handler slots: which of the four handlers the embedding program
//! has installed.

use crate::event::{Action, ActionView};
use vstd::prelude::*;

verus! {

/// Four independent slots, each empty or taken.
#[derive(Clone, Copy, Debug, PartialEq, Eq, Structural)]
pub struct CallbackSet {
    pub new_client: bool,
    pub receive: bool,
    pub disconnect: bool,
    pub error: bool,
}

impl CallbackSet {
    /// All four slots empty.
    pub open spec fn none() -> CallbackSet {
        CallbackSet { new_client: false, receive: false, disconnect: false, error: false }
    }

    /// Whether an action is to be carried out: a notice only when its
    /// handler is installed, a broadcast always.
    pub open spec fn wants(self, action: ActionView) -> bool {
        match action {
            ActionView::NewClient(_) => self.new_client,
            ActionView::Receive { .. } => self.receive,
            ActionView::Disconnect(_) => self.disconnect,
            ActionView::Error(_) => self.error,
            ActionView::Broadcast { .. } => true,
        }
    }

    /// A set with all four slots empty.
    pub fn new() -> (set: Self)
        ensures
            set == CallbackSet::none(),
    {
        CallbackSet { new_client: false, receive: false, disconnect: false, error: false }
    }

    /// Whether the embedding program is to carry out the action.
    pub fn delivers(&self, action: &Action) -> (wanted: bool)
        ensures
            wanted == self.wants(action@),
    {
        match action {
            Action::NewClient(_) => self.new_client,
            Action::Receive { .. } => self.receive,
            Action::Disconnect(_) => self.disconnect,
            Action::Error(_) => self.error,
            Action::Broadcast { .. } => true,
        }
    }
}

} // verus!
