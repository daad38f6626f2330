//! The menu bar: its tree of items, its open/closed state, event routing and
//! layout.

pub mod model;
pub mod state;
pub mod laws;
pub mod geometry;
pub mod chain;
pub mod bar;
pub mod layout_laws;

pub use bar::{EventResponse, Hit, Interaction, MenuBar, PointerEvent};
pub use chain::{open_panels, OpenPanels};
pub use geometry::{layout_panel, ItemGeometry, ItemKind, MenuGeometry, PanelGeometry, Rect, RootGeometry};
pub use model::{submenu_items, MenuItem, MenuRoot};
pub use state::{MenuMessage, MenuState};
