use bomberman::direction::Direction;
use bomberman::event::{
    create_bind, input_events_compare, is_bindable_action, normalize_value, ControllerEvent, InputEvent, KEY_UNBOUND,
};
use bomberman::input::{default_binds, GetOrDefault, Input, InputName, InputState, MenuInput};

#[test]
fn input_state_is_down() {
    assert!(!InputState::Released.is_down());
    assert!(InputState::Pressed.is_down());
    assert!(InputState::Held.is_down());
}

#[test]
fn input_names_in_order() {
    let names = InputName::iterator();
    assert_eq!(
        names,
        vec![InputName::Up, InputName::Down, InputName::Left, InputName::Right, InputName::Bomb, InputName::Back]
    );
    for (i, n) in names.iter().enumerate() {
        assert_eq!(n.value(), i);
    }
    assert_eq!(InputName::direction_to_input(Direction::Left), InputName::Left);
    assert_eq!(InputName::direction_to_input(Direction::Down), InputName::Down);
}

#[test]
fn press_then_hold_then_release() {
    let mut input = Input::default();
    assert_eq!(input.bomb(), InputState::Released);
    input.update_input_component(true, InputName::Bomb);
    assert_eq!(input.bomb(), InputState::Pressed);
    input.update_input_component(true, InputName::Bomb);
    assert_eq!(input.bomb(), InputState::Held);
    input.update_input_component(true, InputName::Bomb);
    assert_eq!(input.bomb(), InputState::Held);
    input.update_input_component(false, InputName::Bomb);
    assert_eq!(input.bomb(), InputState::Released);
    // Other inputs are untouched.
    assert_eq!(input.up(), InputState::Released);
}

#[test]
fn held_new_holds_everything() {
    let input = Input::held_new();
    for n in InputName::iterator() {
        assert_eq!(input.get_state(n), InputState::Held);
    }
    assert_eq!(input.back(), InputState::Held);
}

#[test]
fn release_all_and_release_all_but() {
    let mut input = Input::held_new();
    input.release_all_but(InputName::Left);
    assert_eq!(input.left(), InputState::Held);
    assert_eq!(input.right(), InputState::Released);
    assert_eq!(input.up(), InputState::Released);
    assert_eq!(input.down(), InputState::Released);
    assert_eq!(input.bomb(), InputState::Released);
    input.release_all();
    assert_eq!(input.left(), InputState::Released);
}

#[test]
fn axes_of_an_input() {
    let mut input = Input::default();
    assert_eq!(input.as_axes(), (0, 0));
    input.update_input_component(true, InputName::Right);
    input.update_input_component(true, InputName::Up);
    // The vertical axis grows with Up.
    assert_eq!(input.as_axes(), (1, 1));
    input.update_input_component(true, InputName::Left);
    input.update_input_component(true, InputName::Down);
    assert_eq!(input.as_axes(), (0, 0));
}

#[test]
fn player_inputs_follow_events() {
    let mut binds = default_binds();
    binds[InputName::Up.value()] = InputEvent::from_keycode(17);
    binds[InputName::Bomb.value()] = InputEvent::ControllerInput {
        controller: 0,
        event: ControllerEvent::ButtonChanged { button: 3, value: 1000, code: 9 },
    };
    let mut input = Input::default();
    let events = vec![
        InputEvent::Keyboard { key: 17, down: true },
        InputEvent::ControllerInput { controller: 0, event: ControllerEvent::ButtonChanged { button: 3, value: 900, code: 9 } },
        InputEvent::Keyboard { key: 30, down: true },
    ];
    input.update_input_player(&events, binds);
    assert_eq!(input.up(), InputState::Pressed);
    assert_eq!(input.bomb(), InputState::Pressed);
    assert_eq!(input.down(), InputState::Released);
    // Nothing new: down inputs stay down and become held.
    input.update_input_player(&Vec::new(), binds);
    assert_eq!(input.up(), InputState::Held);
    // The key goes up; the last event about it decides.
    let events = vec![InputEvent::Keyboard { key: 17, down: true }, InputEvent::Keyboard { key: 17, down: false }];
    input.update_input_player(&events, binds);
    assert_eq!(input.up(), InputState::Released);
    assert_eq!(input.bomb(), InputState::Held);
}

#[test]
fn default_binds_are_unbound() {
    let binds = default_binds();
    for b in binds.iter() {
        assert_eq!(*b, InputEvent::Keyboard { key: KEY_UNBOUND, down: true });
        assert_eq!(*b, InputEvent::unbound());
    }
}

#[test]
fn menu_inputs_combine_players() {
    let mut a = Input::default();
    let mut b = Input::default();
    a.update_input_component(true, InputName::Up);
    a.update_input_component(true, InputName::Up);
    b.update_input_component(true, InputName::Up);
    b.update_input_component(true, InputName::Back);
    let inputs = vec![a, b];
    assert_eq!(inputs.menu_up(), InputState::Pressed);
    assert_eq!(inputs.menu_back(), InputState::Pressed);
    assert_eq!(inputs.menu_down(), InputState::Released);
    assert_eq!(inputs.menu_confirm(), InputState::Released);
    assert_eq!(inputs.get_or_default(1).back(), InputState::Pressed);
    assert_eq!(inputs.get_or_default(7).up(), InputState::Released);
}

#[test]
fn dead_zone_normalisation() {
    assert_eq!(normalize_value(0), 0);
    assert_eq!(normalize_value(199), 0);
    assert_eq!(normalize_value(-199), 0);
    assert_eq!(normalize_value(200), 1);
    assert_eq!(normalize_value(-200), -1);
    assert_eq!(normalize_value(i32::MIN), -1);
}

#[test]
fn bindable_actions() {
    assert!(is_bindable_action(&InputEvent::Keyboard { key: 4, down: true }));
    assert!(!is_bindable_action(&InputEvent::Keyboard { key: 4, down: false }));
    assert!(!is_bindable_action(&InputEvent::Click { x: 1, y: 2, button: 0 }));
    assert!(is_bindable_action(&InputEvent::ControllerInput {
        controller: 1,
        event: ControllerEvent::AxisChanged { axis: 2, value: -500, code: 1 },
    }));
    assert!(!is_bindable_action(&InputEvent::ControllerInput {
        controller: 1,
        event: ControllerEvent::ButtonChanged { button: 2, value: 100, code: 1 },
    }));
}

#[test]
fn binds_are_brought_to_full_scale() {
    let axis = InputEvent::ControllerInput { controller: 1, event: ControllerEvent::AxisChanged { axis: 2, value: -500, code: 7 } };
    assert_eq!(
        create_bind(&axis),
        InputEvent::ControllerInput { controller: 1, event: ControllerEvent::AxisChanged { axis: 2, value: -1000, code: 7 } }
    );
    let button = InputEvent::ControllerInput { controller: 0, event: ControllerEvent::ButtonChanged { button: 5, value: 300, code: 4 } };
    assert_eq!(
        create_bind(&button),
        InputEvent::ControllerInput { controller: 0, event: ControllerEvent::ButtonChanged { button: 5, value: 1000, code: 4 } }
    );
    let key = InputEvent::Keyboard { key: 9, down: true };
    assert_eq!(create_bind(&key), key);
}

#[test]
fn comparing_events_with_binds() {
    let bind = InputEvent::Keyboard { key: 9, down: true };
    assert_eq!(input_events_compare(&InputEvent::Keyboard { key: 9, down: true }, &bind), Some(true));
    assert_eq!(input_events_compare(&InputEvent::Keyboard { key: 9, down: false }, &bind), Some(false));
    assert_eq!(input_events_compare(&InputEvent::Keyboard { key: 8, down: true }, &bind), None);
    let axis_bind = InputEvent::ControllerInput { controller: 1, event: ControllerEvent::AxisChanged { axis: 2, value: 1000, code: 7 } };
    let pushed = InputEvent::ControllerInput { controller: 1, event: ControllerEvent::AxisChanged { axis: 2, value: 600, code: 7 } };
    let centred = InputEvent::ControllerInput { controller: 1, event: ControllerEvent::AxisChanged { axis: 2, value: 50, code: 7 } };
    let other_pad = InputEvent::ControllerInput { controller: 2, event: ControllerEvent::AxisChanged { axis: 2, value: 600, code: 7 } };
    assert_eq!(input_events_compare(&pushed, &axis_bind), Some(true));
    assert_eq!(input_events_compare(&centred, &axis_bind), Some(false));
    assert_eq!(input_events_compare(&other_pad, &axis_bind), None);
    assert_eq!(input_events_compare(&pushed, &bind), None);
}

#[test]
fn a_recorded_bind_matches_its_event() {
    let events = [
        InputEvent::Keyboard { key: 12, down: true },
        InputEvent::ControllerInput { controller: 3, event: ControllerEvent::AxisChanged { axis: 1, value: 700, code: 2 } },
        InputEvent::ControllerInput { controller: 3, event: ControllerEvent::ButtonChanged { button: 4, value: 999, code: 5 } },
    ];
    for e in events.iter() {
        assert!(is_bindable_action(e));
        assert_eq!(input_events_compare(e, e), Some(true));
        assert_eq!(input_events_compare(e, &create_bind(e)), Some(true));
    }
}
