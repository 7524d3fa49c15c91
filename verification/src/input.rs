use vstd::prelude::*;

use crate::direction::Direction;
use crate::event::{compared, input_events_compare, InputEvent, KEY_UNBOUND};

verus! {

/// The number of binds of each player.
pub const BIND_LEN: usize = 6;

/// The state of one input during a tick.
#[derive(Clone, Copy, Debug, PartialEq, Eq, Structural)]
pub enum InputState {
    Released,
    /// Went down during this tick.
    Pressed,
    /// Down, and already down at the previous tick.
    Held,
}

impl InputState {
    /// An input is down when it is pressed or held.
    pub fn is_down(&self) -> (r: bool)
        ensures
            r == (*self != InputState::Released),
    {
        !matches!(self, InputState::Released)
    }
}

/// The state an input takes after a tick during which its control was
/// down (`key_down`) or not, when it was `cur` before.
pub open spec fn next_state(cur: InputState, key_down: bool) -> InputState {
    if !key_down {
        InputState::Released
    } else if cur != InputState::Released {
        InputState::Held
    } else {
        InputState::Pressed
    }
}

/// The inputs a player can emit.
#[derive(Clone, Copy, Debug, PartialEq, Eq, Structural)]
pub enum InputName {
    Up,
    Down,
    Left,
    Right,
    Bomb,
    Back,
}

/// The index of an input among a player's binds and states.
pub open spec fn input_index(name: InputName) -> int {
    match name {
        InputName::Up => 0,
        InputName::Down => 1,
        InputName::Left => 2,
        InputName::Right => 3,
        InputName::Bomb => 4,
        InputName::Back => 5,
    }
}

/// All inputs, in the order of their indices.
pub open spec fn all_input_names() -> Seq<InputName> {
    seq![
        InputName::Up,
        InputName::Down,
        InputName::Left,
        InputName::Right,
        InputName::Bomb,
        InputName::Back,
    ]
}

/// The input that moves in a direction.
pub open spec fn input_for(direction: Direction) -> InputName {
    match direction {
        Direction::Down => InputName::Down,
        Direction::Up => InputName::Up,
        Direction::Right => InputName::Right,
        Direction::Left => InputName::Left,
    }
}

impl InputName {
    /// All inputs, in the order Up, Down, Left, Right, Bomb, Back.
    pub fn iterator() -> (r: Vec<InputName>)
        ensures
            r@ == all_input_names(),
    {
        let r = vec![
            InputName::Up,
            InputName::Down,
            InputName::Left,
            InputName::Right,
            InputName::Bomb,
            InputName::Back,
        ];
        assert(r@ =~= all_input_names());
        r
    }

    /// The index of this input among a player's binds and states.
    pub fn value(&self) -> (r: usize)
        ensures
            r == input_index(*self),
    {
        match self {
            InputName::Up => 0,
            InputName::Down => 1,
            InputName::Left => 2,
            InputName::Right => 3,
            InputName::Bomb => 4,
            InputName::Back => 5,
        }
    }

    /// The input that moves in `direction`.
    pub fn direction_to_input(direction: Direction) -> (r: InputName)
        ensures
            r == input_for(direction),
    {
        match direction {
            Direction::Down => InputName::Down,
            Direction::Up => InputName::Up,
            Direction::Right => InputName::Right,
            Direction::Left => InputName::Left,
        }
    }
}

/// The binds of one player, indexed by input.
pub type Binds = [InputEvent; 6];

/// The binds of a player with nothing bound.
pub fn default_binds() -> (r: Binds)
    ensures
        forall|i: int| 0 <= i < 6 ==> #[trigger] r@[i] == (InputEvent::Keyboard { key: KEY_UNBOUND, down: true }),
{
    let u = InputEvent::unbound();
    [u, u, u, u, u, u]
}

/// The current state of each input of a player.
#[derive(Clone, Copy, Debug)]
pub struct Input {
    states: [InputState; 6],
}

impl View for Input {
    type V = Seq<InputState>;

    closed spec fn view(&self) -> Seq<InputState> {
        self.states@
    }
}

/// The value of an axis driven by two opposite inputs: -1, 0 or 1.
pub open spec fn axis(negative: InputState, positive: InputState) -> int {
    (if positive != InputState::Released { 1int } else { 0 }) - (if negative != InputState::Released {
        1int
    } else {
        0
    })
}

impl Default for Input {
    fn default() -> (r: Input)
        ensures
            r@ == Seq::new(6, |i: int| InputState::Released),
    {
        let r = Input { states: [InputState::Released; 6] };
        assert(r@ =~= Seq::new(6, |i: int| InputState::Released));
        r
    }
}

impl Input {
    /// Every input already held, used when the number of players changes so
    /// that a key kept down does not count as a new press.
    pub fn held_new() -> (r: Input)
        ensures
            r@ == Seq::new(6, |i: int| InputState::Held),
    {
        let r = Input { states: [InputState::Held; 6] };
        assert(r@ =~= Seq::new(6, |i: int| InputState::Held));
        r
    }

    /// A player's input has one state per input name.
    pub proof fn lemma_len(&self)
        ensures
            self@.len() == 6,
    {
    }

    fn axis_value(negative: InputState, positive: InputState) -> (r: i8)
        ensures
            r == axis(negative, positive),
    {
        let n: i8 = if negative.is_down() { 1 } else { 0 };
        let p: i8 = if positive.is_down() { 1 } else { 0 };
        p - n
    }

    /// The movement the four direction inputs ask for, as (x, y) in -1..=1:
    /// x grows with Right, y grows with Up.
    pub fn as_axes(&self) -> (r: (i8, i8))
        ensures
            r.0 == axis(self@[2], self@[3]),
            r.1 == axis(self@[1], self@[0]),
    {
        (Self::axis_value(self.left(), self.right()), Self::axis_value(self.down(), self.up()))
    }

    /// The state of one input.
    pub fn get_state(&self, name: InputName) -> (r: InputState)
        ensures
            r == self@[input_index(name)],
    {
        self.states[name.value()]
    }

    /// The state of the Up input.
    pub fn up(&self) -> (r: InputState)
        ensures
            r == self@[0],
    {
        self.get_state(InputName::Up)
    }

    /// The state of the Down input.
    pub fn down(&self) -> (r: InputState)
        ensures
            r == self@[1],
    {
        self.get_state(InputName::Down)
    }

    /// The state of the Left input.
    pub fn left(&self) -> (r: InputState)
        ensures
            r == self@[2],
    {
        self.get_state(InputName::Left)
    }

    /// The state of the Right input.
    pub fn right(&self) -> (r: InputState)
        ensures
            r == self@[3],
    {
        self.get_state(InputName::Right)
    }

    /// The state of the Bomb input.
    pub fn bomb(&self) -> (r: InputState)
        ensures
            r == self@[4],
    {
        self.get_state(InputName::Bomb)
    }

    /// The state of the Back input.
    pub fn back(&self) -> (r: InputState)
        ensures
            r == self@[5],
    {
        self.get_state(InputName::Back)
    }

    /// Advances one input by a tick during which its control was down or not:
    /// released when not down, pressed on the first tick down, held after.
    pub fn update_input_component(&mut self, key_down: bool, input: InputName)
        ensures
            final(self)@ == old(self)@.update(
                input_index(input),
                next_state(old(self)@[input_index(input)], key_down),
            ),
    {
        let i = input.value();
        if !key_down {
            self.states[i] = InputState::Released;
            return;
        }
        if self.states[i].is_down() {
            self.states[i] = InputState::Held;
        } else {
            self.states[i] = InputState::Pressed;
        }
    }

    /// Releases every input.
    pub fn release_all(&mut self)
        ensures
            final(self)@ == Seq::new(6, |i: int| InputState::Released),
    {
        let mut i: usize = 0;
        while i < BIND_LEN
            invariant
                i <= 6,
                self@.len() == 6,
                forall|k: int| 0 <= k < i ==> self@[k] == InputState::Released,
            decreases 6 - i,
        {
            self.states[i] = InputState::Released;
            i = i + 1;
        }
        assert(self@ =~= Seq::new(6, |i: int| InputState::Released));
    }

    /// Releases every input but `input`, which keeps its state.
    pub fn release_all_but(&mut self, input: InputName)
        ensures
            final(self)@ == Seq::new(
                6,
                |i: int|
                    if i == input_index(input) {
                        old(self)@[i]
                    } else {
                        InputState::Released
                    },
            ),
    {
        let keep = input.value();
        let mut i: usize = 0;
        while i < BIND_LEN
            invariant
                i <= 6,
                keep == input_index(input),
                self@.len() == 6,
                forall|k: int|
                    0 <= k < 6 ==> self@[k] == if k < i && k != keep {
                        InputState::Released
                    } else {
                        old(self)@[k]
                    },
            decreases 6 - i,
        {
            if i != keep {
                self.states[i] = InputState::Released;
            }
            i = i + 1;
        }
        assert(self@ =~= Seq::new(
            6,
            |i: int|
                if i == input_index(input) {
                    old(self)@[i]
                } else {
                    InputState::Released
                },
        ));
    }

    /// Advances one input from the events of a tick and its bind: the last
    /// event that concerns the bound control decides whether it is down;
    /// without one, the input stays down or up as it was.
    fn update_input_component_from_events(
        &mut self,
        events: &Vec<InputEvent>,
        bind: &InputEvent,
        input: InputName,
    )
        ensures
            final(self)@ == old(self)@.update(
                input_index(input),
                next_state(
                    old(self)@[input_index(input)],
                    down_after(events@, *bind, old(self)@[input_index(input)] != InputState::Released),
                ),
            ),
    {
        let mut state = self.states[input.value()].is_down();
        let mut i: usize = 0;
        while i < events.len()
            invariant
                i <= events@.len(),
                self == old(self),
                state == down_after(
                    events@.subrange(0, i as int),
                    *bind,
                    old(self)@[input_index(input)] != InputState::Released,
                ),
            decreases events@.len() - i,
        {
            if let Some(value) = input_events_compare(&events[i], bind) {
                state = value;
            }
            assert(events@.subrange(0, i as int + 1).drop_last() =~= events@.subrange(0, i as int));
            i = i + 1;
        }
        assert(events@.subrange(0, events@.len() as int) =~= events@);
        self.update_input_component(state, input);
    }

    /// Advances all of a player's inputs from the events of a tick and the player's binds.
    pub fn update_input_player(&mut self, events: &Vec<InputEvent>, codes: Binds)
        ensures
            final(self)@ == Seq::new(
                6,
                |i: int|
                    next_state(
                        old(self)@[i],
                        down_after(events@, codes@[i], old(self)@[i] != InputState::Released),
                    ),
            ),
    {
        let names = InputName::iterator();
        let mut k: usize = 0;
        while k < names.len()
            invariant
                k <= 6,
                names@ == all_input_names(),
                self@.len() == 6,
                forall|i: int|
                    0 <= i < 6 ==> self@[i] == if i < k {
                        next_state(
                            old(self)@[i],
                            down_after(events@, codes@[i], old(self)@[i] != InputState::Released),
                        )
                    } else {
                        old(self)@[i]
                    },
            decreases 6 - k,
        {
            let name = names[k];
            assert(input_index(name) == k);
            self.update_input_component_from_events(events, &codes[k], name);
            k = k + 1;
        }
        assert(self@ =~= Seq::new(
            6,
            |i: int|
                next_state(
                    old(self)@[i],
                    down_after(events@, codes@[i], old(self)@[i] != InputState::Released),
                ),
        ));
    }
}

/// Whether the control bound to `bind` is down after the events `events`,
/// when it was `was_down` before them: the last event concerning it decides.
pub open spec fn down_after(events: Seq<InputEvent>, bind: InputEvent, was_down: bool) -> bool
    decreases events.len(),
{
    if events.len() == 0 {
        was_down
    } else {
        match compared(events.last(), bind) {
            Some(v) => v,
            None => down_after(events.drop_last(), bind, was_down),
        }
    }
}

/// Law: a control kept down is reported pressed for exactly one tick, then
/// held; letting it go reports it released whatever it was.
pub proof fn lemma_press_then_hold(s: InputState)
    ensures
        next_state(s, false) == InputState::Released,
        next_state(InputState::Released, true) == InputState::Pressed,
        next_state(next_state(s, true), true) == InputState::Held,
        s != InputState::Released ==> next_state(s, true) == InputState::Held,
{
}

/// The most urgent state of one input over all players: pressed if any
/// player pressed it, else held if any holds it, else released.
pub open spec fn menu_state(inputs: Seq<Input>, index: int) -> InputState {
    if exists|i: int| 0 <= i < inputs.len() && #[trigger] inputs[i]@[index] == InputState::Pressed {
        InputState::Pressed
    } else if exists|i: int| 0 <= i < inputs.len() && #[trigger] inputs[i]@[index] == InputState::Held {
        InputState::Held
    } else {
        InputState::Released
    }
}

/// Gives a copy of the element at an index, or the default value past the end.
pub trait GetOrDefault<T> {
    fn get_or_default(&self, i: usize) -> T;
}

impl GetOrDefault<Input> for Vec<Input> {
    /// The input of player `i`, or all inputs released when there is no such player.
    fn get_or_default(&self, i: usize) -> (r: Input)
        ensures
            r@ == if i < self@.len() {
                self@[i as int]@
            } else {
                Seq::new(6, |k: int| InputState::Released)
            },
    {
        if i < self.len() {
            self[i]
        } else {
            Input::default()
        }
    }
}

/// Reads menu navigation from the inputs of all players together.
pub trait MenuInput {
    fn get_input(&self, name: InputName) -> InputState;

    fn menu_up(&self) -> InputState;

    fn menu_down(&self) -> InputState;

    fn menu_left(&self) -> InputState;

    fn menu_right(&self) -> InputState;

    fn menu_confirm(&self) -> InputState;

    fn menu_back(&self) -> InputState;
}

impl MenuInput for Vec<Input> {
    /// The most urgent state of `name` over all players: pressed, then held, then released.
    fn get_input(&self, name: InputName) -> (r: InputState)
        ensures
            r == menu_state(self@, input_index(name)),
    {
        let index = name.value();
        let mut ret = InputState::Released;
        let mut i: usize = 0;
        while i < self.len()
            invariant
                i <= self@.len(),
                index == input_index(name),
                forall|k: int| 0 <= k < i ==> #[trigger] self@[k]@[index as int] != InputState::Pressed,
                ret == InputState::Held <==> exists|k: int|
                    0 <= k < i && #[trigger] self@[k]@[index as int] == InputState::Held,
                ret != InputState::Pressed,
            decreases self@.len() - i,
        {
            proof {
                self@[i as int].lemma_len();
            }
            match self[i].get_state(name) {
                InputState::Held => ret = InputState::Held,
                InputState::Pressed => {
                    assert(self@[i as int]@[index as int] == InputState::Pressed);
                    return InputState::Pressed;
                },
                InputState::Released => (),
            }
            i = i + 1;
        }
        ret
    }

    /// The most urgent state of Up over all players.
    fn menu_up(&self) -> (r: InputState)
        ensures
            r == menu_state(self@, 0),
    {
        self.get_input(InputName::Up)
    }

    /// The most urgent state of Down over all players.
    fn menu_down(&self) -> (r: InputState)
        ensures
            r == menu_state(self@, 1),
    {
        self.get_input(InputName::Down)
    }

    /// The most urgent state of Left over all players.
    fn menu_left(&self) -> (r: InputState)
        ensures
            r == menu_state(self@, 2),
    {
        self.get_input(InputName::Left)
    }

    /// The most urgent state of Right over all players.
    fn menu_right(&self) -> (r: InputState)
        ensures
            r == menu_state(self@, 3),
    {
        self.get_input(InputName::Right)
    }

    /// The most urgent state of Bomb, which confirms in menus, over all players.
    fn menu_confirm(&self) -> (r: InputState)
        ensures
            r == menu_state(self@, 4),
    {
        self.get_input(InputName::Bomb)
    }

    /// The most urgent state of Back over all players.
    fn menu_back(&self) -> (r: InputState)
        ensures
            r == menu_state(self@, 5),
    {
        self.get_input(InputName::Back)
    }
}

} // verus!
