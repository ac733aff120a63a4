//! Bindings from inputs to actions, and the keys that are held down.

use std::collections::{HashMap, HashSet};
use vstd::prelude::*;

verus! {

broadcast use vstd::std_specs::hash::group_hash_axioms;

/// Something the player can do to a key, a button, the wheel or the
/// pointer. Keys and buttons go by the numbers the window system gives
/// them.
#[derive(Copy, Clone, Debug, PartialEq, Eq, Structural)]
pub enum Input {
    Press(u32),
    Release(u32),
    Button(u32),
    Scroll,
    Motion,
}

/// A direction of walking, as the player sees it.
#[derive(Copy, Clone, Debug, PartialEq, Eq, Structural)]
pub enum Direction3 {
    Forward,
    Backward,
    Left,
    Right,
    Up,
    Down,
}

impl Direction3 {
    /// The unit step of the direction as `(x, y, z)`: right is along x,
    /// forward along y, up along z.
    pub open spec fn step(self) -> (int, int, int) {
        match self {
            Direction3::Forward => (0, 1, 0),
            Direction3::Backward => (0, -1, 0),
            Direction3::Left => (-1, 0, 0),
            Direction3::Right => (1, 0, 0),
            Direction3::Up => (0, 0, 1),
            Direction3::Down => (0, 0, -1),
        }
    }

    /// The unit vector of the direction.
    pub fn unit_vector(self) -> (r: [i32; 3])
        ensures
            (r[0] as int, r[1] as int, r[2] as int) == self.step(),
    {
        match self {
            Direction3::Forward => [0, 1, 0],
            Direction3::Backward => [0, -1, 0],
            Direction3::Left => [-1, 0, 0],
            Direction3::Right => [1, 0, 0],
            Direction3::Up => [0, 0, 1],
            Direction3::Down => [0, 0, -1],
        }
    }
}

/// What the game does in answer to an input.
#[derive(Copy, Clone, Debug, PartialEq, Eq, Structural)]
pub enum Action {
    Nop,
    ExitGame,
    Focus,
    Fullscreen,
    Place,
    Select,
    Pause,
    Resize { width: u32, height: u32 },
    Turn,
    Walk(Direction3),
    Stop(Direction3),
}

impl Default for Action {
    /// Doing nothing.
    fn default() -> (action: Action)
        ensures
            action == Action::Nop,
    {
        Action::Nop
    }
}

/// An event of the window or of a device, as far as the bindings read it.
#[derive(Copy, Clone, Debug, PartialEq, Eq, Structural)]
pub enum Event {
    /// A key went down or up.
    Key { code: u32, pressed: bool },
    /// A mouse button was used.
    Button(u32),
    /// The window has a new size.
    Resized { width: u32, height: u32 },
    /// The wheel turned.
    Wheel,
    /// The pointer moved.
    Motion,
    /// The window gained or lost the focus.
    Focused(bool),
    /// The window is asked to close.
    CloseRequested,
    /// Anything else.
    Other,
}

/// The number under which an input is filed: presses first, then
/// releases, then buttons, each by its code, then the wheel and the
/// pointer.
pub open spec fn input_key(input: Input) -> int {
    match input {
        Input::Press(code) => code as int,
        Input::Release(code) => 0x1_0000_0000 + code,
        Input::Button(code) => 0x2_0000_0000 + code,
        Input::Scroll => 0x3_0000_0000,
        Input::Motion => 0x3_0000_0001,
    }
}

/// Computes the number under which an input is filed.
fn key_of_input(input: Input) -> (key: u64)
    ensures
        key == input_key(input),
{
    match input {
        Input::Press(code) => code as u64,
        Input::Release(code) => 0x1_0000_0000 + code as u64,
        Input::Button(code) => 0x2_0000_0000 + code as u64,
        Input::Scroll => 0x3_0000_0000,
        Input::Motion => 0x3_0000_0001,
    }
}

/// Different inputs are filed under different numbers.
pub proof fn lemma_input_key_injective(a: Input, b: Input)
    requires
        input_key(a) == input_key(b),
    ensures
        a == b,
{
}

/// The action that a list of bindings gives to `input`: that of the last
/// binding of the input, and nothing where the list does not bind it.
pub open spec fn bound_by(bindings: Seq<(Input, Action)>, input: Input) -> Action
    decreases bindings.len(),
{
    if bindings.len() == 0 {
        Action::Nop
    } else if bindings.last().0 == input {
        bindings.last().1
    } else {
        bound_by(bindings.drop_last(), input)
    }
}

/// The input that an event of the window stands for, if it stands for
/// one, given the keys held down: a key that goes down while up, a key
/// that goes up while down, a button, the wheel. The pointer's motion is
/// an event of a device and stands for nothing here.
pub open spec fn input_of(held: Set<u32>, event: Event) -> Option<Input> {
    match event {
        Event::Key { code, pressed: true } => if held.contains(code) {
            None
        } else {
            Some(Input::Press(code))
        },
        Event::Key { code, pressed: false } => if held.contains(code) {
            Some(Input::Release(code))
        } else {
            None
        },
        Event::Button(code) => Some(Input::Button(code)),
        Event::Wheel => Some(Input::Scroll),
        _ => None,
    }
}

/// The keys held down after an event.
pub open spec fn held_after(held: Set<u32>, event: Event) -> Set<u32> {
    match event {
        Event::Key { code, pressed: true } => held.insert(code),
        Event::Key { code, pressed: false } => held.remove(code),
        _ => held,
    }
}

/// Turns events into actions by a table of bindings, and remembers which
/// keys are held down so that a key that repeats acts once.
pub struct InputHandler {
    keys_pressed: HashSet<u32>,
    bindings: HashMap<u64, Action>,
}

impl InputHandler {
    /// The keys that are held down.
    pub closed spec fn held(&self) -> Set<u32> {
        self.keys_pressed@
    }

    /// The action bound to `input`, and nothing where none is bound.
    pub closed spec fn binding(&self, input: Input) -> Action {
        if self.bindings@.contains_key(input_key(input) as u64) {
            self.bindings@[input_key(input) as u64]
        } else {
            Action::Nop
        }
    }

    /// The action that answers an event of the window: for a size, a focus
    /// or a close the action of that name; for an input its binding;
    /// nothing otherwise.
    pub open spec fn answer(&self, event: Event) -> Action {
        match event {
            Event::Resized { width, height } => Action::Resize { width, height },
            Event::Focused(true) => Action::Focus,
            Event::Focused(false) => Action::Pause,
            Event::CloseRequested => Action::ExitGame,
            _ => match input_of(self.held(), event) {
                Some(input) => self.binding(input),
                None => Action::Nop,
            },
        }
    }

    /// A handler with the given bindings and no key held down. Where an
    /// input is bound more than once the last binding counts.
    pub fn new(bindings: Vec<(Input, Action)>) -> (handler: InputHandler)
        ensures
            handler.held() == Set::<u32>::empty(),
            forall|input: Input| #[trigger] handler.binding(input) == bound_by(bindings@, input),
    {
        let mut table: HashMap<u64, Action> = HashMap::new();
        let mut n: usize = 0;
        while n < bindings.len()
            invariant
                n <= bindings.len(),
                forall|input: Input|
                    #![trigger bound_by(bindings@.take(n as int), input)]
                    if table@.contains_key(input_key(input) as u64) {
                        table@[input_key(input) as u64] == bound_by(
                            bindings@.take(n as int),
                            input,
                        )
                    } else {
                        bound_by(bindings@.take(n as int), input) == Action::Nop
                    },
            decreases bindings.len() - n,
        {
            let (input, action) = bindings[n];
            let ghost earlier = table@;
            table.insert(key_of_input(input), action);
            proof {
                let shorter = bindings@.take(n as int);
                let longer = bindings@.take(n + 1);
                assert(longer.drop_last() =~= shorter);
                assert(longer.last() == bindings@[n as int]);
                assert forall|other: Input|
                    #![trigger bound_by(longer, other)]
                    if table@.contains_key(input_key(other) as u64) {
                        table@[input_key(other) as u64] == bound_by(longer, other)
                    } else {
                        bound_by(longer, other) == Action::Nop
                    } by {
                    if other != input {
                        if input_key(other) == input_key(input) {
                            lemma_input_key_injective(other, input);
                        }
                        assert(bound_by(longer, other) == bound_by(shorter, other));
                    }
                }
            }
            n += 1;
        }
        let handler = InputHandler { keys_pressed: HashSet::new(), bindings: table };
        proof {
            assert(bindings@.take(n as int) =~= bindings@);
            assert(handler.held() =~= Set::<u32>::empty());
        }
        handler
    }

    /// Tells whether the key `code` is held down.
    pub fn is_held(&self, code: u32) -> (r: bool)
        ensures
            r == self.held().contains(code),
    {
        self.keys_pressed.contains(&code)
    }

    /// Looks up the action bound to `input`.
    pub fn bound(&self, input: Input) -> (action: Action)
        ensures
            action == self.binding(input),
    {
        match self.bindings.get(&key_of_input(input)) {
            Some(action) => *action,
            None => Action::Nop,
        }
    }

    /// Answers an event of a device: the pointer's motion by its binding,
    /// anything else by nothing. The keys held down stay as they are.
    pub fn handle_device(&mut self, event: Event) -> (action: Action)
        ensures
            action == if event == Event::Motion {
                old(self).binding(Input::Motion)
            } else {
                Action::Nop
            },
            final(self).held() == old(self).held(),
            forall|input: Input| #[trigger] final(self).binding(input) == old(self).binding(input),
    {
        match event {
            Event::Motion => self.bound(Input::Motion),
            _ => Action::Nop,
        }
    }

    /// Answers an event of the window and keeps track of the keys held
    /// down. A key that is reported down while held, or up while not
    /// held, does nothing.
    pub fn handle_window(&mut self, event: Event) -> (action: Action)
        ensures
            action == old(self).answer(event),
            final(self).held() == held_after(old(self).held(), event),
            forall|input: Input| #[trigger] final(self).binding(input) == old(self).binding(input),
    {
        match event {
            Event::Key { code, pressed } => {
                let held = self.keys_pressed.contains(&code);
                if pressed && !held {
                    self.keys_pressed.insert(code);
                    self.bound(Input::Press(code))
                } else if !pressed && held {
                    self.keys_pressed.remove(&code);
                    self.bound(Input::Release(code))
                } else {
                    proof {
                        assert(held_after(old(self).held(), event) =~= old(self).held());
                    }
                    Action::Nop
                }
            },
            Event::Button(code) => self.bound(Input::Button(code)),
            Event::Resized { width, height } => Action::Resize { width, height },
            Event::Wheel => self.bound(Input::Scroll),
            Event::Motion => Action::Nop,
            Event::Focused(true) => Action::Focus,
            Event::Focused(false) => Action::Pause,
            Event::CloseRequested => Action::ExitGame,
            Event::Other => Action::Nop,
        }
    }
}

} // verus!
