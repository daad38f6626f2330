//! The demo application's own state: the menu, and the last action chosen.

use vstd::prelude::*;

use crate::menu::state::{closed_state, invoked, step, MenuMessage, MenuState};

verus! {

/// The demo's state.
#[derive(Debug)]
pub struct Demo {
    pub menu_state: MenuState,
    pub last_action: Option<&'static str>,
}

/// The status line for the last action chosen.
pub open spec fn status_line(last_action: Option<&'static str>) -> Seq<char> {
    match last_action {
        Some(action) => "Last action: "@ + action@,
        None => "Select a menu item to exercise the interaction model."@,
    }
}

impl Default for Demo {
    fn default() -> (demo: Demo)
        ensures
            demo.menu_state@ == closed_state(),
            demo.last_action is None,
    {
        Demo { menu_state: MenuState::default(), last_action: None }
    }
}

impl Demo {
    /// Hands `message` to the menu; an invoked action becomes the last action.
    pub fn update(&mut self, message: MenuMessage)
        ensures
            final(self).menu_state@ == step(old(self).menu_state@, message),
            final(self).last_action == match invoked(message) {
                Some(action) => Some(action),
                None => old(self).last_action,
            },
    {
        if let Some(action) = self.menu_state.update(message) {
            self.last_action = Some(action);
        }
    }

    /// The status line shown under the bar.
    pub fn status(&self) -> (line: String)
        ensures
            line@ == status_line(self.last_action),
    {
        match self.last_action {
            Some(action) => String::from_str("Last action: ").concat(action),
            None => String::from_str("Select a menu item to exercise the interaction model."),
        }
    }
}

} // verus!
