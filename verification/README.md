# menuton

A drop-down menu bar whose interaction model is verified with Verus.

- `src/menu/model.rs`: the menu tree (`MenuRoot`, `MenuItem`) and submenu lookup.
- `src/menu/state.rs`: `MenuState`, the open root and open submenu path, and
  `MenuMessage`, the messages that change it; `step` is the abstract transition.
- `src/menu/chain.rs`: which panels a state opens over a tree.
- `src/menu/geometry.rs`: whole-pixel layout of the bar and its open panels.
- `src/menu/bar.rs`: `MenuBar`, hit testing and the routing of pointer events
  to messages.
- `src/menu/laws.rs`, `src/menu/layout_laws.rs`: properties proved across
  functions.
- `src/demo.rs`: the demo application's state and status line.
- `app/`: the iced application and widget; it measures labels, converts the
  whole-pixel layout to screen coordinates, draws, and forwards events.
