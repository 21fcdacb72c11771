use macroquad::exec::Executor;
use macroquad::ui::{InputCharacter, Key, KeyCode, TabSelector};

fn tab(shift: bool) -> InputCharacter {
    InputCharacter { key: Key::KeyCode(KeyCode::Tab), modifier_shift: shift, modifier_ctrl: false }
}

#[test]
fn tab_on_the_last_widget_wraps_to_the_first() {
    let mut t = TabSelector::new();
    t.new_frame();
    // three widgets, the last has the focus and sees Tab
    assert!(!t.register_selectable_widget(false, &[tab(false)]));
    assert!(!t.register_selectable_widget(false, &[tab(false)]));
    assert!(!t.register_selectable_widget(true, &[tab(false)]));
    t.new_frame();
    assert!(t.register_selectable_widget(false, &[]));
    assert!(!t.register_selectable_widget(false, &[]));
    assert!(!t.register_selectable_widget(false, &[]));
}

#[test]
fn shift_tab_on_the_first_widget_wraps_to_the_last() {
    let mut t = TabSelector::new();
    t.new_frame();
    assert!(!t.register_selectable_widget(true, &[tab(true)]));
    assert!(!t.register_selectable_widget(false, &[]));
    assert!(!t.register_selectable_widget(false, &[]));
    t.new_frame();
    assert!(!t.register_selectable_widget(false, &[]));
    assert!(!t.register_selectable_widget(false, &[]));
    assert!(t.register_selectable_widget(false, &[]));
}

#[test]
fn tab_in_the_middle_moves_to_the_next_widget() {
    let mut t = TabSelector::new();
    t.new_frame();
    assert!(!t.register_selectable_widget(true, &[tab(false)]));
    assert!(!t.register_selectable_widget(false, &[]));
    t.new_frame();
    assert!(!t.register_selectable_widget(false, &[]));
    assert!(t.register_selectable_widget(false, &[]));
}

#[test]
fn only_parked_futures_are_waiting() {
    let mut e: Executor<u8, ()> = Executor::new(());
    e.spawn(1);
    assert!(!e.is_waiting(0));
    e.tick(|_, f| Some(f));
    assert!(e.is_waiting(0));
    e.wake(0);
    assert!(!e.is_waiting(0));
}

#[test]
fn labels_hold_their_text() {
    match macroquad::ui::UiContent::label("Click me") {
        macroquad::ui::UiContent::Label(s) => assert_eq!(s, "Click me"),
        macroquad::ui::UiContent::Texture(_) => panic!("a label was expected"),
    }
}
