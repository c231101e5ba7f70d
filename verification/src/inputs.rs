//! Keyboard and mouse inputs, as the systems read them in a frame.
use vstd::prelude::*;

verus! {

/// Keys of the keyboard. A key that types a character is `Char` of that character.
#[derive(PartialEq, Eq, Structural, Clone, Copy, Debug)]
pub enum KeyCode {
    Tab,
    LShift,
    RShift,
    Escape,
    BackSpace,
    Enter,
    Char(char),
}

impl KeyCode {
    /// The character this key types, if it types one.
    pub open spec fn char_of(self) -> Option<char> {
        match self {
            KeyCode::Char(c) => Some(c),
            _ => None,
        }
    }

    /// The character this key types, if it types one.
    pub fn to_char(&self) -> (r: Option<char>)
        ensures
            r == self.char_of(),
    {
        match self {
            KeyCode::Char(c) => Some(*c),
            _ => None,
        }
    }
}

#[derive(PartialEq, Eq, Structural, Clone, Copy, Debug)]
pub enum MouseButton {
    Left,
    Right,
    Middle,
}

/// An input: a key or a mouse button.
#[derive(PartialEq, Eq, Structural, Clone, Copy, Debug)]
pub enum Input {
    Key(KeyCode),
    Mouse(MouseButton),
}

/// The state of the inputs in the current frame.
pub struct InputsController {
    /// Inputs held down.
    pub pressed: Vec<Input>,
    /// Inputs that went down in this frame, in the order they did.
    pub pressed_events: Vec<Input>,
}

impl InputsController {
    pub fn new() -> (r: Self)
        ensures
            r.pressed@ == Seq::<Input>::empty(),
            r.pressed_events@ == Seq::<Input>::empty(),
    {
        InputsController { pressed: Vec::new(), pressed_events: Vec::new() }
    }

    /// Whether `input` is held down.
    pub fn input_pressed(&self, input: &Input) -> (r: bool)
        ensures
            r == self.pressed@.contains(*input),
    {
        contains_input(&self.pressed, input)
    }

    /// Whether `input` went down in this frame.
    pub fn input_pressed_event(&self, input: &Input) -> (r: bool)
        ensures
            r == self.pressed_events@.contains(*input),
    {
        contains_input(&self.pressed_events, input)
    }

    /// Whether the key `key` is held down.
    pub fn key_pressed(&self, key: &KeyCode) -> (r: bool)
        ensures
            r == self.pressed@.contains(Input::Key(*key)),
    {
        contains_input(&self.pressed, &Input::Key(*key))
    }

    /// Whether a shortcut was pressed in this frame: all its inputs are held
    /// and at least one of them went down in this frame.
    pub open spec fn shortcut_event(self, shortcut: Seq<Input>) -> bool {
        &&& forall|i: int| 0 <= i < shortcut.len() ==> self.pressed@.contains(#[trigger] shortcut[i])
        &&& exists|i: int| 0 <= i < shortcut.len() && self.pressed_events@.contains(#[trigger] shortcut[i])
    }

    /// Whether the shortcut made of `shortcut` was pressed in this frame.
    pub fn shortcut_pressed_event(&self, shortcut: &Vec<Input>) -> (r: bool)
        ensures
            r == self.shortcut_event(shortcut@),
    {
        let mut all_held = true;
        let mut any_event = false;
        let mut i: usize = 0;
        while i < shortcut.len()
            invariant
                i <= shortcut.len(),
                all_held == (forall|j: int| 0 <= j < i ==> self.pressed@.contains(#[trigger] shortcut@[j])),
                any_event == (exists|j: int| 0 <= j < i && self.pressed_events@.contains(#[trigger] shortcut@[j])),
            decreases shortcut.len() - i,
        {
            let held = self.input_pressed(&shortcut[i]);
            let ev = self.input_pressed_event(&shortcut[i]);
            proof {
                if !held {
                    assert(!self.pressed@.contains(shortcut@[i as int]));
                }
                if ev {
                    assert(self.pressed_events@.contains(shortcut@[i as int]));
                }
                if any_event && !ev {
                    let j = choose|j: int| 0 <= j < i && self.pressed_events@.contains(#[trigger] shortcut@[j]);
                    assert(0 <= j < i + 1 && self.pressed_events@.contains(shortcut@[j]));
                }
            }
            all_held = all_held && held;
            any_event = any_event || ev;
            i = i + 1;
        }
        all_held && any_event
    }

    /// Inputs that went down in this frame.
    pub fn all_pressed_events(&self) -> (r: &Vec<Input>)
        ensures
            r@ == self.pressed_events@,
    {
        &self.pressed_events
    }
}

/// Whether `v` holds `input`.
pub fn contains_input(v: &Vec<Input>, input: &Input) -> (r: bool)
    ensures
        r == v@.contains(*input),
{
    let mut i: usize = 0;
    while i < v.len()
        invariant
            i <= v.len(),
            forall|j: int| 0 <= j < i ==> v@[j] != *input,
        decreases v.len() - i,
    {
        if v[i] == *input {
            assert(v@[i as int] == *input);
            return true;
        }
        i = i + 1;
    }
    false
}

/// Whether an input went down or up.
#[derive(PartialEq, Eq, Structural, Clone, Copy, Debug)]
pub enum InputState {
    Pressed,
    Released,
}

/// A key that went down or up.
#[derive(PartialEq, Eq, Structural, Clone, Copy, Debug)]
pub struct KeyboardEvent {
    pub keycode: KeyCode,
    pub state: InputState,
}

/// A mouse button that went down or up.
#[derive(PartialEq, Eq, Structural, Clone, Copy, Debug)]
pub struct MouseEvent {
    pub button: MouseButton,
    pub state: InputState,
}

/// What the inputs read of an event of the window.
#[derive(PartialEq, Eq, Structural, Clone, Copy, Debug)]
pub enum WindowInput {
    Keyboard(KeyboardEvent),
    Mouse(MouseEvent),
    /// Any other event.
    Other,
}

/// `s` without any occurrence of `x`.
pub open spec fn without_input(s: Seq<Input>, x: Input) -> Seq<Input>
    decreases s.len(),
{
    if s.len() == 0 {
        s
    } else if s.last() == x {
        without_input(s.drop_last(), x)
    } else {
        without_input(s.drop_last(), x).push(s.last())
    }
}

/// The inputs `c` once `input` went down (`pressed`) or up.
pub open spec fn input_changed(c: InputsController, input: Input, pressed: bool) -> (Seq<Input>, Seq<Input>) {
    if pressed {
        if c.pressed@.contains(input) {
            (c.pressed@, c.pressed_events@)
        } else {
            (c.pressed@.push(input), c.pressed_events@.push(input))
        }
    } else {
        (without_input(c.pressed@, input), c.pressed_events@)
    }
}

impl InputsController {
    /// Records that `input` went down (`pressed`) or up: an input that goes down
    /// while not held is held, and is an event of this frame; one that goes up is
    /// no longer held.
    pub fn record_input(&mut self, input: Input, pressed: bool)
        ensures
            (final(self).pressed@, final(self).pressed_events@) == input_changed(*old(self), input, pressed),
    {
        if pressed {
            if !contains_input(&self.pressed, &input) {
                self.pressed.push(input);
                self.pressed_events.push(input);
            }
        } else {
            let ghost p0 = self.pressed@;
            let mut kept: Vec<Input> = Vec::new();
            let mut i: usize = 0;
            while i < self.pressed.len()
                invariant
                    self.pressed@ == p0,
                    i <= p0.len(),
                    kept@ == without_input(p0.subrange(0, i as int), input),
                decreases self.pressed.len() - i,
            {
                assert(p0.subrange(0, i + 1).drop_last() == p0.subrange(0, i as int));
                assert(p0.subrange(0, i + 1).last() == p0[i as int]);
                if self.pressed[i] != input {
                    kept.push(self.pressed[i]);
                }
                i = i + 1;
            }
            assert(p0.subrange(0, p0.len() as int) == p0);
            self.pressed = kept;
        }
    }

    /// Records a key that went down or up.
    pub fn add_keyboard_event(&mut self, event: KeyboardEvent)
        ensures
            (final(self).pressed@, final(self).pressed_events@) == input_changed(
                *old(self),
                Input::Key(event.keycode),
                event.state == InputState::Pressed,
            ),
    {
        self.record_input(Input::Key(event.keycode), event.state == InputState::Pressed);
    }

    /// Records a mouse button that went down or up.
    pub fn add_click_event(&mut self, event: MouseEvent)
        ensures
            (final(self).pressed@, final(self).pressed_events@) == input_changed(
                *old(self),
                Input::Mouse(event.button),
                event.state == InputState::Pressed,
            ),
    {
        self.record_input(Input::Mouse(event.button), event.state == InputState::Pressed);
    }

    /// Starts a new frame: no input went down in it yet.
    pub fn reset_events(&mut self)
        ensures
            final(self).pressed@ == old(self).pressed@,
            final(self).pressed_events@.len() == 0,
    {
        self.pressed_events.clear();
    }
}

/// `without_input` takes every occurrence of the input out, and only those.
proof fn lemma_without_input(s: Seq<Input>, x: Input, y: Input)
    ensures
        without_input(s, x).contains(y) <==> (s.contains(y) && y != x),
    decreases s.len(),
{
    if s.len() > 0 {
        lemma_without_input(s.drop_last(), x, y);
        vstd::seq_lib::lemma_seq_contains_after_push(without_input(s.drop_last(), x), s.last(), y);
        vstd::seq_lib::lemma_seq_contains_after_push(s.drop_last(), s.last(), y);
        assert(s.drop_last().push(s.last()) == s);
    }
}

/// An input that went down is held, and is no longer held once it went up;
/// other inputs are held as they were.
pub proof fn law_press_then_release(c: InputsController, x: Input, y: Input)
    ensures
        input_changed(c, x, true).0.contains(x),
        ({
            let held = input_changed(c, x, true).0;
            &&& !without_input(held, x).contains(x)
            &&& y != x ==> (without_input(held, x).contains(y) <==> c.pressed@.contains(y))
        }),
{
    let held = input_changed(c, x, true).0;
    vstd::seq_lib::lemma_seq_contains_after_push(c.pressed@, x, x);
    vstd::seq_lib::lemma_seq_contains_after_push(c.pressed@, x, y);
    lemma_without_input(held, x, x);
    lemma_without_input(held, x, y);
}

} // verus!
