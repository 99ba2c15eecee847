use pmanga::input::config::{GamepadButton, GamepadConfig};
use pmanga::input::gamepad::{next_pressed_button, poll_actions, ButtonState};
use pmanga::input::Action;

#[test]
fn actions_in_display_order() {
    assert_eq!(
        Action::all(),
        &[Action::NextPage, Action::PreviousPage, Action::ToggleOverlay, Action::GoBack, Action::Confirm]
    );
    let labels: Vec<&str> = Action::all().iter().map(|a| a.label()).collect();
    assert_eq!(labels, vec!["Next Page", "Previous Page", "Toggle Info Overlay", "Go Back", "Confirm"]);
}

#[test]
fn button_labels() {
    assert_eq!(GamepadButton(0).label(), "A / Cross");
    assert_eq!(GamepadButton(5).label(), "R1 / RB");
    assert_eq!(GamepadButton(15).label(), "D-Pad Right");
    assert_eq!(GamepadButton(16).label(), "Button 16");
    assert_eq!(GamepadButton(123).label(), "Button 123");
}

#[test]
fn default_bindings() {
    let c = GamepadConfig::default();
    assert_eq!(c.bindings.len(), 5);
    assert_eq!(c.action_for(5), Some(Action::NextPage));
    assert_eq!(c.action_for(4), Some(Action::PreviousPage));
    assert_eq!(c.action_for(8), Some(Action::ToggleOverlay));
    assert_eq!(c.action_for(1), Some(Action::GoBack));
    assert_eq!(c.action_for(0), Some(Action::Confirm));
    assert_eq!(c.action_for(2), None);
    assert_eq!(c.button_for(Action::NextPage), Some(GamepadButton(5)));
}

#[test]
fn rebinding_moves_the_action() {
    let mut c = GamepadConfig::default();
    c.set_binding(7, Action::NextPage);
    assert_eq!(c.action_for(7), Some(Action::NextPage));
    assert_eq!(c.action_for(5), None);
    assert_eq!(c.button_for(Action::NextPage), Some(GamepadButton(7)));
    assert_eq!(c.bindings.len(), 5);
}

#[test]
fn rebinding_a_bound_button_replaces_its_action() {
    let mut c = GamepadConfig::default();
    c.set_binding(5, Action::GoBack);
    assert_eq!(c.action_for(5), Some(Action::GoBack));
    assert_eq!(c.action_for(1), None);
    assert_eq!(c.button_for(Action::NextPage), None);
    assert_eq!(c.bindings.len(), 4);
}

#[test]
fn clearing_and_resetting() {
    let mut c = GamepadConfig::default();
    c.clear_binding(0);
    assert_eq!(c.action_for(0), None);
    assert_eq!(c.button_for(Action::Confirm), None);
    c.clear_binding(42);
    assert_eq!(c.bindings.len(), 4);
    c.set_binding(9, Action::Confirm);
    c.reset_to_defaults();
    assert_eq!(c.action_for(9), None);
    assert_eq!(c.action_for(0), Some(Action::Confirm));
}

#[test]
fn display_rows_list_every_action() {
    let mut c = GamepadConfig::default();
    c.clear_binding(8);
    let rows = c.display_rows();
    assert_eq!(
        rows,
        vec![
            (Action::NextPage, Some(GamepadButton(5))),
            (Action::PreviousPage, Some(GamepadButton(4))),
            (Action::ToggleOverlay, None),
            (Action::GoBack, Some(GamepadButton(1))),
            (Action::Confirm, Some(GamepadButton(0))),
        ]
    );
}

#[test]
fn held_button_fires_once() {
    let mut s = ButtonState::new();
    assert!(s.edge_press(3, true));
    assert!(!s.edge_press(3, true));
    assert!(!s.edge_press(3, false));
    assert!(s.edge_press(3, true));
    assert!(!s.edge_press(4, false));
    assert!(s.edge_press(4, true));
}

#[test]
fn poll_fires_bound_new_presses_in_button_order() {
    let c = GamepadConfig::default();
    let mut s = ButtonState::new();
    let mut pressed = vec![false; 9];
    pressed[5] = true;
    pressed[4] = true;
    pressed[2] = true;
    assert_eq!(poll_actions(&c, &mut s, &pressed), vec![Action::PreviousPage, Action::NextPage]);
    assert_eq!(poll_actions(&c, &mut s, &pressed), Vec::<Action>::new());
    pressed[4] = false;
    pressed[0] = true;
    assert_eq!(poll_actions(&c, &mut s, &pressed), vec![Action::Confirm]);
    pressed[4] = true;
    assert_eq!(poll_actions(&c, &mut s, &pressed), vec![Action::PreviousPage]);
}

#[test]
fn waiting_for_a_button_takes_the_first_new_press() {
    let mut s = ButtonState::new();
    assert_eq!(next_pressed_button(&mut s, &vec![false, false]), None);
    assert_eq!(next_pressed_button(&mut s, &vec![false, true, true]), Some(1));
    // Button 2 was not recorded, so it still counts as new.
    assert_eq!(next_pressed_button(&mut s, &vec![false, true, true]), Some(2));
    assert_eq!(next_pressed_button(&mut s, &vec![false, true, true]), None);
}

#[test]
fn button_held_at_the_baseline_is_not_a_press() {
    let mut s = ButtonState::from_sample(&vec![false, true, false]);
    assert_eq!(next_pressed_button(&mut s, &vec![false, true, false]), None);
    assert_eq!(next_pressed_button(&mut s, &vec![false, false, false]), None);
    assert_eq!(next_pressed_button(&mut s, &vec![false, true, false]), Some(1));
    let mut t = ButtonState::from_sample(&vec![true]);
    assert_eq!(next_pressed_button(&mut t, &vec![true, true]), Some(1));
}
