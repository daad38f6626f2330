use menuton::menu::{
    layout_panel, open_panels, submenu_items, Hit, ItemKind, MenuBar, MenuGeometry, MenuItem,
    MenuMessage, MenuRoot, MenuState, PointerEvent, Rect,
};
use menuton::menu::bar::Interaction;
use menuton::menu::model::find_submenu;

const EXPORT: &[MenuItem] = &[
    MenuItem::Action { id: "file.export.png", label: "PNG" },
    MenuItem::Action { id: "file.export.svg", label: "SVG" },
];

const FILE_MENU: &[MenuItem] = &[
    MenuItem::Action { id: "file.new", label: "New" },
    MenuItem::Separator,
    MenuItem::Submenu { id: "file.export", label: "Export", items: EXPORT },
    MenuItem::Action { id: "file.quit", label: "Quit" },
];

const EDIT_MENU: &[MenuItem] = &[MenuItem::Action { id: "edit.undo", label: "Undo" }];

const MENUS: &[MenuRoot] = &[
    MenuRoot { id: "file", label: "File", items: FILE_MENU },
    MenuRoot { id: "edit", label: "Edit", items: EDIT_MENU },
];

fn rect(x: u64, y: u64, width: u64, height: u64) -> Rect {
    Rect { x, y, width, height }
}

#[test]
fn submenu_lookup_finds_the_first_match() {
    let found = submenu_items(FILE_MENU, "file.export").unwrap();
    assert_eq!(found.len(), 2);
    assert_eq!(find_submenu(FILE_MENU, "file.export"), Some(2));
    assert!(submenu_items(FILE_MENU, "file.new").is_none());
    assert!(submenu_items(FILE_MENU, "nothing").is_none());
    assert!(submenu_items(&[], "file.export").is_none());
}

#[test]
fn no_panels_while_closed() {
    let state = MenuState::default();
    assert!(open_panels(MENUS, &state).is_none());
    let mut state = MenuState::default();
    state.update(MenuMessage::ToggleRoot("help"));
    assert!(open_panels(MENUS, &state).is_none());
}

#[test]
fn open_panels_follow_the_path() {
    let mut state = MenuState::default();
    state.update(MenuMessage::ToggleRoot("file"));
    let open = open_panels(MENUS, &state).unwrap();
    assert_eq!(open.root_index, 0);
    assert_eq!(open.panels.len(), 1);
    assert!(open.anchors.is_empty());

    state.update(MenuMessage::OpenSubmenu { depth: 0, id: "file.export" });
    let open = open_panels(MENUS, &state).unwrap();
    assert_eq!(open.panels.len(), 2);
    assert_eq!(open.panels[1].len(), 2);
    assert_eq!(open.anchors, vec![2]);

    // a path entry that names an action opens nothing more
    state.update(MenuMessage::OpenSubmenu { depth: 0, id: "file.new" });
    let open = open_panels(MENUS, &state).unwrap();
    assert_eq!(open.panels.len(), 1);
}

#[test]
fn panel_layout_exact_values() {
    let widths = vec![40, 0, 200, 10];
    let panel = layout_panel(FILE_MENU, &widths, 1, 100, 50);
    // widest: max(180, 40+44, 200+44, 10+44) = 244; height 12 + 28 + 8 + 28 + 28 = 104
    assert_eq!(panel.bounds, rect(100, 50, 244, 104));
    assert_eq!(panel.items.len(), 4);
    assert_eq!(panel.items[0].bounds, rect(106, 56, 232, 28));
    assert_eq!(panel.items[1].bounds, rect(106, 84, 232, 8));
    assert_eq!(panel.items[2].bounds, rect(106, 92, 232, 28));
    assert_eq!(panel.items[3].bounds, rect(106, 120, 232, 28));
    assert_eq!(panel.items[3].bounds.y + 28 + 6, panel.bounds.y + panel.bounds.height);
    assert!(panel.items.iter().all(|row| row.depth == 1));
    assert!(matches!(panel.items[1].kind, ItemKind::Separator));
    assert!(matches!(panel.items[2].kind, ItemKind::Submenu { id: "file.export", label: "Export" }));
    assert!(matches!(panel.items[0].kind, ItemKind::Action { id: "file.new", label: "New" }));
}

#[test]
fn narrow_labels_keep_the_minimum_width() {
    let panel = layout_panel(EXPORT, &vec![5, 6], 0, 0, 0);
    assert_eq!(panel.bounds, rect(0, 0, 180, 68));
    let empty = layout_panel(&[], &vec![], 0, 3, 4);
    assert_eq!(empty.bounds, rect(3, 4, 180, 12));
    assert!(empty.items.is_empty());
}

#[test]
fn bar_and_panels_geometry() {
    let mut state = MenuState::default();
    state.update(MenuMessage::ToggleRoot("edit"));
    let geometry = MenuGeometry::new(MENUS, &state, &vec![30, 40], &vec![vec![50]]);
    assert_eq!(geometry.roots[0].bounds, rect(0, 0, 54, 32));
    assert_eq!(geometry.roots[1].bounds, rect(58, 0, 64, 32));
    assert_eq!(geometry.roots[1].id, "edit");
    assert_eq!(geometry.panels.len(), 1);
    // hangs under "edit": x 58, y 32 + 2
    assert_eq!(geometry.panels[0].bounds, rect(58, 34, 180, 40));
    assert_eq!(geometry.extent(), (238, 74));

    state.update(MenuMessage::ToggleRoot("file"));
    state.update(MenuMessage::OpenSubmenu { depth: 0, id: "file.export" });
    let geometry = MenuGeometry::new(MENUS, &state, &vec![30, 40], &vec![vec![10, 0, 300, 10], vec![20, 20]]);
    assert_eq!(geometry.panels.len(), 2);
    assert_eq!(geometry.panels[0].bounds, rect(0, 34, 344, 104));
    // opens right of the "Export" row (x 6, width 332) and level with it (y 34 + 6 + 28 + 8)
    let row = geometry.panels[0].items[2].bounds;
    assert_eq!(row, rect(6, 76, 332, 28));
    assert_eq!(geometry.panels[1].bounds, rect(340, 76, 180, 68));
    assert_eq!(geometry.panels[1].items[0].depth, 1);
    assert_eq!(geometry.extent(), (520, 144));
}

#[test]
fn closed_bar_has_only_roots() {
    let state = MenuState::default();
    let geometry = MenuGeometry::new(MENUS, &state, &vec![1, 2], &vec![]);
    assert_eq!(geometry.roots.len(), 2);
    assert!(geometry.panels.is_empty());
    assert_eq!(geometry.extent(), (0, 32));
}

#[test]
fn hit_test_prefers_roots_then_rows() {
    let mut state = MenuState::default();
    state.update(MenuMessage::ToggleRoot("file"));
    let geometry = MenuGeometry::new(MENUS, &state, &vec![30, 40], &vec![vec![1, 1, 1, 1]]);
    let none_rows = vec![vec![false; 4]];
    match geometry.hit_test(&vec![false, true], &vec![true], &vec![vec![true; 4]]) {
        Some(Hit::Root(root)) => assert_eq!(root.id, "edit"),
        _ => panic!("expected a root"),
    }
    match geometry.hit_test(&vec![false, false], &vec![true], &vec![vec![false, false, true, true]]) {
        Some(Hit::PanelItem(row)) => assert!(matches!(row.kind, ItemKind::Submenu { .. })),
        _ => panic!("expected a row"),
    }
    assert!(matches!(
        geometry.hit_test(&vec![false, false], &vec![true], &none_rows),
        Some(Hit::Panel)
    ));
    assert!(geometry.hit_test(&vec![false, false], &vec![false], &none_rows).is_none());
}

fn row_hit(state: &MenuState, row: usize) -> Hit {
    let geometry = MenuGeometry::new(MENUS, state, &vec![30, 40], &vec![vec![1, 1, 1, 1]]);
    Hit::PanelItem(geometry.panels[0].items[row])
}

#[test]
fn pointer_events_route_to_messages() {
    let mut state = MenuState::default();
    state.update(MenuMessage::ToggleRoot("file"));
    let bar = MenuBar::new(MENUS, &state);
    let action = row_hit(&state, 0);
    let separator = row_hit(&state, 1);
    let submenu = row_hit(&state, 2);
    let root = match MenuGeometry::new(MENUS, &state, &vec![30, 40], &vec![vec![1, 1, 1, 1]])
        .hit_test(&vec![false, true], &vec![false], &vec![vec![false; 4]])
    {
        Some(hit) => hit,
        None => panic!("expected a hit"),
    };

    let r = bar.respond(PointerEvent::LeftPressed, Some(action), false);
    assert_eq!(r.message, Some(MenuMessage::Invoke("file.new")));
    assert!(r.captured);
    let r = bar.respond(PointerEvent::CursorMoved, Some(action), false);
    assert_eq!(r.message, Some(MenuMessage::TrimPath(0)));
    let r = bar.respond(PointerEvent::CursorMoved, Some(submenu), false);
    assert_eq!(r.message, Some(MenuMessage::OpenSubmenu { depth: 0, id: "file.export" }));
    let r = bar.respond(PointerEvent::LeftPressed, Some(submenu), false);
    assert_eq!(r.message, Some(MenuMessage::OpenSubmenu { depth: 0, id: "file.export" }));
    let r = bar.respond(PointerEvent::LeftPressed, Some(separator), false);
    assert_eq!((r.message, r.captured), (None, true));
    let r = bar.respond(PointerEvent::CursorMoved, Some(Hit::Panel), false);
    assert_eq!((r.message, r.captured), (None, true));
    let r = bar.respond(PointerEvent::CursorMoved, Some(root), false);
    assert_eq!(r.message, Some(MenuMessage::OpenRoot("edit")));
    let r = bar.respond(PointerEvent::LeftPressed, Some(root), false);
    assert_eq!(r.message, Some(MenuMessage::ToggleRoot("edit")));
    let r = bar.respond(PointerEvent::CursorMoved, None, true);
    assert_eq!(r.message, Some(MenuMessage::TrimPath(0)));
    let r = bar.respond(PointerEvent::CursorMoved, None, false);
    assert_eq!((r.message, r.captured), (None, false));
    let r = bar.respond(PointerEvent::LeftPressed, None, false);
    assert_eq!(r.message, Some(MenuMessage::Close));
    let r = bar.respond(PointerEvent::Other, Some(root), true);
    assert_eq!((r.message, r.captured), (None, false));
    assert_eq!(bar.mouse_interaction(Some(root)), Interaction::Pointer);
    assert_eq!(bar.mouse_interaction(None), Interaction::Idle);
}

#[test]
fn closed_bar_ignores_hover_and_outside_clicks() {
    let state = MenuState::default();
    let bar = MenuBar::new(MENUS, &state);
    let root = Hit::Root(MenuGeometry::new(MENUS, &state, &vec![1, 1], &vec![]).roots[0]);
    let r = bar.respond(PointerEvent::CursorMoved, Some(root), true);
    assert_eq!((r.message, r.captured), (None, true));
    let r = bar.respond(PointerEvent::CursorMoved, None, true);
    assert_eq!((r.message, r.captured), (None, false));
    let r = bar.respond(PointerEvent::LeftPressed, None, true);
    assert_eq!((r.message, r.captured), (None, false));
    let r = bar.respond(PointerEvent::LeftPressed, Some(root), true);
    assert_eq!(r.message, Some(MenuMessage::ToggleRoot("file")));
}

#[test]
fn clicking_an_action_closes_the_bar_and_reports_it() {
    let mut state = MenuState::default();
    state.update(MenuMessage::ToggleRoot("file"));
    let message = {
        let bar = MenuBar::new(MENUS, &state);
        let hit = row_hit(&state, 3);
        bar.respond(PointerEvent::LeftPressed, Some(hit), false).message.unwrap()
    };
    assert_eq!(state.update(message), Some("file.quit"));
    assert_eq!(state.open_root(), None);
}

#[test]
fn bar_accessors_and_geometry() {
    let state = MenuState::default();
    let bar = MenuBar::new(MENUS, &state);
    assert_eq!(bar.roots().len(), 2);
    assert_eq!(bar.state().open_root(), None);
    assert!(bar.open_panels().is_none());
    assert_eq!(bar.geometry(&vec![10, 10], &vec![]).roots[1].bounds, rect(38, 0, 34, 32));
}
