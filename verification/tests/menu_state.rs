use menuton::menu::{MenuMessage, MenuState};

#[test]
fn toggling_a_root_reopens_cleanly() {
    let mut state = MenuState::default();

    assert_eq!(state.update(MenuMessage::ToggleRoot("file")), None);
    assert!(state.is_root_open("file"));

    assert_eq!(
        state.update(MenuMessage::OpenSubmenu {
            depth: 0,
            id: "export",
        }),
        None
    );
    assert!(state.is_submenu_open(0, "export"));

    assert_eq!(state.update(MenuMessage::ToggleRoot("edit")), None);
    assert!(state.is_root_open("edit"));
    assert!(!state.is_submenu_open(0, "export"));
}

#[test]
fn invoking_an_action_closes_the_menu() {
    let mut state = MenuState::default();

    state.update(MenuMessage::ToggleRoot("file"));

    assert_eq!(
        state.update(MenuMessage::Invoke("file.open")),
        Some("file.open")
    );
    assert_eq!(state.open_root(), None);
}

#[test]
fn trimming_a_path_keeps_parent_panels_open() {
    let mut state = MenuState::default();

    state.update(MenuMessage::ToggleRoot("file"));
    state.update(MenuMessage::OpenSubmenu {
        depth: 0,
        id: "export",
    });
    state.update(MenuMessage::OpenSubmenu {
        depth: 1,
        id: "png",
    });

    state.update(MenuMessage::TrimPath(1));

    assert!(state.is_submenu_open(0, "export"));
    assert!(!state.is_submenu_open(1, "png"));
}

#[test]
fn default_state_is_closed() {
    let state = MenuState::default();
    assert_eq!(state.open_root(), None);
    assert!(state.open_path().is_empty());
    assert!(!state.is_root_open("file"));
    assert!(!state.is_submenu_open(0, "export"));
}

#[test]
fn toggling_the_open_root_closes_the_bar() {
    let mut state = MenuState::default();
    state.update(MenuMessage::ToggleRoot("file"));
    state.update(MenuMessage::OpenSubmenu { depth: 0, id: "export" });
    assert_eq!(state.update(MenuMessage::ToggleRoot("file")), None);
    assert_eq!(state.open_root(), None);
    assert!(state.open_path().is_empty());
}

#[test]
fn opening_the_open_root_keeps_its_submenus() {
    let mut state = MenuState::default();
    state.update(MenuMessage::OpenRoot("file"));
    state.update(MenuMessage::OpenSubmenu { depth: 0, id: "export" });
    assert_eq!(state.update(MenuMessage::OpenRoot("file")), None);
    assert_eq!(state.open_path(), &["export"]);
    state.update(MenuMessage::OpenRoot("view"));
    assert_eq!(state.open_root(), Some("view"));
    assert!(state.open_path().is_empty());
}

#[test]
fn opening_a_submenu_drops_deeper_ones() {
    let mut state = MenuState::default();
    state.update(MenuMessage::ToggleRoot("file"));
    state.update(MenuMessage::OpenSubmenu { depth: 0, id: "a" });
    state.update(MenuMessage::OpenSubmenu { depth: 1, id: "b" });
    state.update(MenuMessage::OpenSubmenu { depth: 2, id: "c" });
    state.update(MenuMessage::OpenSubmenu { depth: 1, id: "d" });
    assert_eq!(state.open_path(), &["a", "d"]);
    // a depth past the end appends at the end
    state.update(MenuMessage::OpenSubmenu { depth: 7, id: "e" });
    assert_eq!(state.open_path(), &["a", "d", "e"]);
    assert!(state.is_submenu_open(2, "e"));
}

#[test]
fn trimming_composes_to_the_smaller_depth() {
    let mut a = MenuState::default();
    let mut b = MenuState::default();
    for s in [&mut a, &mut b] {
        s.update(MenuMessage::ToggleRoot("file"));
        s.update(MenuMessage::OpenSubmenu { depth: 0, id: "x" });
        s.update(MenuMessage::OpenSubmenu { depth: 1, id: "y" });
        s.update(MenuMessage::OpenSubmenu { depth: 2, id: "z" });
    }
    a.update(MenuMessage::TrimPath(2));
    a.update(MenuMessage::TrimPath(1));
    b.update(MenuMessage::TrimPath(1));
    assert_eq!(a.open_path(), b.open_path());
    assert_eq!(a.open_path(), &["x"]);
    a.update(MenuMessage::TrimPath(5));
    assert_eq!(a.open_path(), &["x"]);
    assert!(a.is_root_open("file"));
}

#[test]
fn close_is_idempotent() {
    let mut state = MenuState::default();
    state.update(MenuMessage::ToggleRoot("edit"));
    assert_eq!(state.update(MenuMessage::Close), None);
    assert_eq!(state.update(MenuMessage::Close), None);
    assert_eq!(state.open_root(), None);
    assert!(state.open_path().is_empty());
}

#[test]
fn only_invoke_reports_an_action() {
    let mut state = MenuState::default();
    assert_eq!(state.update(MenuMessage::TrimPath(0)), None);
    assert_eq!(state.update(MenuMessage::OpenRoot("file")), None);
    assert_eq!(state.update(MenuMessage::Invoke("edit.copy")), Some("edit.copy"));
    assert_eq!(state.update(MenuMessage::Invoke("edit.copy")), Some("edit.copy"));
}

#[test]
fn direct_setters_match_messages() {
    let mut state = MenuState::default();
    state.set_open_root("file");
    assert!(state.is_root_open("file"));
    state.set_open_submenu(0, "export");
    state.set_open_submenu(1, "png");
    state.trim_path(1);
    assert_eq!(state.open_path(), &["export"]);
    state.close();
    assert_eq!(state.open_root(), None);
}

#[test]
fn ids_compare_by_characters() {
    assert!(menuton::ident::same_id("file", "file"));
    assert!(!menuton::ident::same_id("file", "fil"));
    assert!(!menuton::ident::same_id("é", "e"));
    assert!(menuton::ident::same_id("", ""));
    let owned = String::from("fi") + "le";
    assert!(menuton::ident::same_id(&owned, "file"));
}
