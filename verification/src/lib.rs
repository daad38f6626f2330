//! Verified interaction model of a drop-down menu bar: the menu tree, the
//! open/closed state machine, the routing of pointer events to menu messages,
//! hit testing, and the integer layout of the bar and its open panels.

pub mod ident;
pub mod menu;
pub mod demo;
