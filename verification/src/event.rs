use vstd::prelude::*;

verus! {

/// The dead zone of analog controls, in thousandths: smaller values count as zero.
pub const DEADZONE: i32 = 200;

/// The key code standing for "no key bound" (F35, which keyboards lack).
pub const KEY_UNBOUND: u32 = 0xF35;

/// What a controller reported. Analog values are in thousandths of full
/// scale, between -1000 and 1000.
#[derive(Clone, Copy, Debug, PartialEq, Eq, Structural)]
pub enum ControllerEvent {
    /// A button moved to `value`.
    ButtonChanged { button: u32, value: i32, code: u32 },
    /// A stick axis moved to `value`.
    AxisChanged { axis: u32, value: i32, code: u32 },
    /// Any other controller event (connection, disconnection, ...), by kind.
    Other { kind: u32 },
}

/// An input from any source: keyboard, controller or mouse.
#[derive(Clone, Copy, Debug, PartialEq, Eq, Structural)]
pub enum InputEvent {
    Keyboard { key: u32, down: bool },
    ControllerInput { controller: usize, event: ControllerEvent },
    Click { x: i64, y: i64, button: u32 },
}

/// The sign of an analog value once the dead zone is applied: -1, 0 or 1.
pub open spec fn normalized(value: int) -> int {
    if -DEADZONE < value < DEADZONE {
        0
    } else if value > 0 {
        1
    } else {
        -1
    }
}

/// Whether an event is strong enough to be recorded as a key bind: a key
/// press, or a controller button or axis outside the dead zone.
pub open spec fn bindable(event: InputEvent) -> bool {
    match event {
        InputEvent::Keyboard { down, .. } => down,
        InputEvent::ControllerInput { event, .. } => match event {
            ControllerEvent::ButtonChanged { value, .. } => value > DEADZONE,
            ControllerEvent::AxisChanged { value, .. } => value > DEADZONE || value < -DEADZONE,
            ControllerEvent::Other { .. } => false,
        },
        InputEvent::Click { .. } => false,
    }
}

/// The bind recorded for an event: controller buttons at full press, axes
/// at full deflection in their direction, anything else unchanged.
pub open spec fn bind_of(event: InputEvent) -> InputEvent {
    match event {
        InputEvent::ControllerInput { controller, event } => match event {
            ControllerEvent::ButtonChanged { button, code, .. } => InputEvent::ControllerInput {
                controller,
                event: ControllerEvent::ButtonChanged { button, value: 1000i32, code },
            },
            ControllerEvent::AxisChanged { axis, value, code } => InputEvent::ControllerInput {
                controller,
                event: ControllerEvent::AxisChanged {
                    axis,
                    value: if value < 0 { -1000i32 } else { 1000i32 },
                    code,
                },
            },
            ControllerEvent::Other { .. } => event_of(controller, event),
        },
        _ => event,
    }
}

/// A controller input event.
pub open spec fn event_of(controller: usize, event: ControllerEvent) -> InputEvent {
    InputEvent::ControllerInput { controller, event }
}

/// How an event relates to a bind: `None` when they concern different keys,
/// buttons or axes, else whether the event holds the bound control down.
pub open spec fn compared(test: InputEvent, predicate: InputEvent) -> Option<bool> {
    if test == predicate {
        Some(true)
    } else {
        match (test, predicate) {
            (
                InputEvent::ControllerInput { controller: tc, event: te },
                InputEvent::ControllerInput { controller: pc, event: pe },
            ) => if tc != pc {
                None
            } else {
                match (te, pe) {
                    (
                        ControllerEvent::ButtonChanged { button: tb, value: tv, .. },
                        ControllerEvent::ButtonChanged { button: pb, value: pv, .. },
                    ) => if tb != pb {
                        None
                    } else {
                        Some(normalized(tv as int) == normalized(pv as int))
                    },
                    (
                        ControllerEvent::AxisChanged { axis: ta, value: tv, .. },
                        ControllerEvent::AxisChanged { axis: pa, value: pv, .. },
                    ) => if ta != pa {
                        None
                    } else {
                        Some(normalized(tv as int) == normalized(pv as int))
                    },
                    _ => None,
                }
            },
            (
                InputEvent::Keyboard { key: tk, down: td },
                InputEvent::Keyboard { key: pk, down: pd },
            ) => if tk != pk {
                None
            } else {
                Some(td == pd)
            },
            _ => None,
        }
    }
}

impl InputEvent {
    /// The special bind that stands for "nothing bound".
    pub fn unbound() -> (e: InputEvent)
        ensures
            e == (InputEvent::Keyboard { key: KEY_UNBOUND, down: true }),
    {
        InputEvent::Keyboard { key: KEY_UNBOUND, down: true }
    }

    /// The press of the key with the given code.
    pub fn from_keycode(code: u32) -> (e: InputEvent)
        ensures
            e == (InputEvent::Keyboard { key: code, down: true }),
    {
        InputEvent::Keyboard { key: code, down: true }
    }
}

/// The sign of an analog value once the dead zone is applied: -1, 0 or 1.
pub fn normalize_value(value: i32) -> (r: i32)
    ensures
        r == normalized(value as int),
{
    if -DEADZONE < value && value < DEADZONE {
        return 0;
    }
    if value > 0 {
        1
    } else {
        -1
    }
}

/// Whether an event can be recorded as a key bind.
pub fn is_bindable_action(event: &InputEvent) -> (r: bool)
    ensures
        r == bindable(*event),
{
    match event {
        InputEvent::Keyboard { key: _, down } => *down,
        InputEvent::ControllerInput { controller: _, event } => match event {
            ControllerEvent::ButtonChanged { value, .. } => *value > DEADZONE,
            ControllerEvent::AxisChanged { value, .. } => *value > DEADZONE || *value < -DEADZONE,
            ControllerEvent::Other { .. } => false,
        },
        InputEvent::Click { .. } => false,
    }
}

/// The bind to record for an event: controller values are brought to full
/// scale (1000, or -1000 for a negative axis), anything else is kept.
pub fn create_bind(input_event: &InputEvent) -> (r: InputEvent)
    ensures
        r == bind_of(*input_event),
{
    match input_event {
        InputEvent::ControllerInput { controller, event } => match event {
            ControllerEvent::ButtonChanged { button, value: _, code } => InputEvent::ControllerInput {
                controller: *controller,
                event: ControllerEvent::ButtonChanged { button: *button, value: 1000, code: *code },
            },
            ControllerEvent::AxisChanged { axis, value, code } => InputEvent::ControllerInput {
                controller: *controller,
                event: ControllerEvent::AxisChanged {
                    axis: *axis,
                    value: if *value < 0 { -1000 } else { 1000 },
                    code: *code,
                },
            },
            ControllerEvent::Other { .. } => *input_event,
        },
        _ => *input_event,
    }
}

/// Compares an event with a bind: `None` when they concern different keys,
/// buttons or axes; `Some(true)` when the event holds the bound control down
/// (same value once the dead zone is applied); `Some(false)` when it releases it.
pub fn input_events_compare(test: &InputEvent, predicate: &InputEvent) -> (r: Option<bool>)
    ensures
        r == compared(*test, *predicate),
{
    if *test == *predicate {
        return Some(true);
    }
    match (test, predicate) {
        (
            InputEvent::ControllerInput { controller: test_controller, event: test_event },
            InputEvent::ControllerInput { controller: predicate_controller, event: predicate_event },
        ) => {
            if *test_controller != *predicate_controller {
                return None;
            }
            match (test_event, predicate_event) {
                (
                    ControllerEvent::ButtonChanged { button: test_button, value: test_value, .. },
                    ControllerEvent::ButtonChanged {
                        button: predicate_button,
                        value: predicate_value,
                        ..
                    },
                ) => {
                    if test_button != predicate_button {
                        return None;
                    }
                    Some(normalize_value(*test_value) == normalize_value(*predicate_value))
                },
                (
                    ControllerEvent::AxisChanged { axis: test_axis, value: test_value, .. },
                    ControllerEvent::AxisChanged { axis: predicate_axis, value: predicate_value, .. },
                ) => {
                    if test_axis != predicate_axis {
                        return None;
                    }
                    Some(normalize_value(*test_value) == normalize_value(*predicate_value))
                },
                _ => None,
            }
        },
        (
            InputEvent::Keyboard { key: test_key, down: test_down },
            InputEvent::Keyboard { key: predicate_key, down: predicate_down },
        ) => {
            if *test_key != *predicate_key {
                return None;
            }
            Some(*test_down == *predicate_down)
        },
        _ => None,
    }
}

/// Law: every event matches itself as a bind, and a recorded bind matches
/// the event it was recorded from.
pub proof fn lemma_bind_matches_its_event(event: InputEvent)
    requires
        bindable(event),
    ensures
        compared(event, event) == Some(true),
        compared(event, bind_of(event)) == Some(true),
{
}

} // verus!
