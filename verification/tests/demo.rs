use menuton::demo::Demo;
use menuton::menu::MenuMessage;

#[test]
fn demo_records_the_last_action() {
    let mut demo = Demo::default();
    assert_eq!(demo.status(), "Select a menu item to exercise the interaction model.");
    demo.update(MenuMessage::ToggleRoot("file"));
    assert_eq!(demo.last_action, None);
    demo.update(MenuMessage::Invoke("file.open"));
    assert_eq!(demo.last_action, Some("file.open"));
    assert_eq!(demo.status(), "Last action: file.open");
    assert_eq!(demo.menu_state.open_root(), None);
    demo.update(MenuMessage::Close);
    assert_eq!(demo.last_action, Some("file.open"));
}
