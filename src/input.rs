use vstd::prelude::*;

verus! {

/// Number of key codes that an input state tracks; a key is named by its
/// scancode, below this bound.
pub const NUM_KEYS: usize = 512;

/// Number of mouse buttons that an input state tracks.
pub const NUM_BUTTONS: usize = 6;

/// Scancodes of the keys the game reads.
pub const KEY_P: u32 = 19;
pub const KEY_RIGHT: u32 = 79;
pub const KEY_LEFT: u32 = 80;
pub const KEY_DOWN: u32 = 81;
pub const KEY_UP: u32 = 82;

/// Where a key or button stands in its press cycle.
#[derive(Clone, Copy, Debug, PartialEq, Eq, Structural)]
pub enum ButtonState {
    Released,
    /// Pressed in the latest frame, up in the one before.
    Clicked,
    /// Pressed in the latest two frames or more.
    Held,
}

/// The state of a key or button after a frame in which it is, or is not,
/// pressed.
pub open spec fn next_state(s: ButtonState, pressed: bool) -> ButtonState {
    if !pressed {
        ButtonState::Released
    } else if s == ButtonState::Released {
        ButtonState::Clicked
    } else {
        ButtonState::Held
    }
}

#[derive(Clone, Copy, Debug, PartialEq, Eq, Structural)]
pub enum MouseButton {
    Unknown,
    Left,
    Middle,
    Right,
    X1,
    X2,
}

pub open spec fn button_slot(b: MouseButton) -> int {
    match b {
        MouseButton::Unknown => 0,
        MouseButton::Left => 1,
        MouseButton::Middle => 2,
        MouseButton::Right => 3,
        MouseButton::X1 => 4,
        MouseButton::X2 => 5,
    }
}

fn button_index(b: MouseButton) -> (r: usize)
    ensures
        r == button_slot(b),
        r < NUM_BUTTONS,
{
    match b {
        MouseButton::Unknown => 0,
        MouseButton::Left => 1,
        MouseButton::Middle => 2,
        MouseButton::Right => 3,
        MouseButton::X1 => 4,
        MouseButton::X2 => 5,
    }
}

pub struct InputView {
    pub keys: Seq<ButtonState>,
    pub buttons: Seq<ButtonState>,
    pub mousex: i32,
    pub mousey: i32,
}

impl InputView {
    pub open spec fn wf(self) -> bool {
        self.keys.len() == NUM_KEYS && self.buttons.len() == NUM_BUTTONS
    }

    /// The state of a key; a key code past the tracked ones is released.
    pub open spec fn key(self, k: int) -> ButtonState {
        if 0 <= k < self.keys.len() {
            self.keys[k]
        } else {
            ButtonState::Released
        }
    }

    pub open spec fn button(self, b: MouseButton) -> ButtonState {
        self.buttons[button_slot(b)]
    }
}

/// Keys, mouse buttons and pointer position as of the latest frame.
pub struct InputState {
    key_state: Vec<ButtonState>,
    mouse_button_state: Vec<ButtonState>,
    mousex: i32,
    mousey: i32,
}

impl View for InputState {
    type V = InputView;

    closed spec fn view(&self) -> InputView {
        InputView {
            keys: self.key_state@,
            buttons: self.mouse_button_state@,
            mousex: self.mousex,
            mousey: self.mousey,
        }
    }
}

/// `k` is among `codes`.
pub open spec fn listed(codes: Seq<u32>, k: int) -> bool {
    exists|j: int| 0 <= j < codes.len() && codes[j] == k
}

/// Flags `n` slots: slot `k` is set when `k` is among `codes`.
fn pressed_flags(codes: &[u32], n: usize) -> (r: Vec<bool>)
    ensures
        r@.len() == n,
        forall|k: int| 0 <= k < n ==> #[trigger] r@[k] == listed(codes@, k),
{
    let mut flags: Vec<bool> = vec![false; n];
    let mut i: usize = 0;
    while i < codes.len()
        invariant
            i <= codes@.len(),
            flags@.len() == n,
            forall|k: int|
                0 <= k < n ==> #[trigger] flags@[k] == listed(codes@.subrange(0, i as int), k),
        decreases codes@.len() - i,
    {
        let c: u32 = codes[i];
        if (c as usize) < n {
            flags.set(c as usize, true);
        }
        proof {
            let pre = codes@.subrange(0, i as int);
            let post = codes@.subrange(0, i + 1);
            assert forall|k: int| 0 <= k < n implies #[trigger] flags@[k] == listed(post, k) by {
                if k == c as int {
                    assert(post[i as int] == c);
                } else {
                    if listed(post, k) {
                        let j = choose|j: int| 0 <= j < post.len() && post[j] == k;
                        assert(pre[j] == post[j]);
                    }
                    if listed(pre, k) {
                        let j = choose|j: int| 0 <= j < pre.len() && pre[j] == k;
                        assert(post[j] == pre[j]);
                    }
                }
            }
        }
        i = i + 1;
    }
    assert(codes@.subrange(0, codes@.len() as int) =~= codes@);
    flags
}

/// Moves each state one frame on.
fn step_states(states: &mut Vec<ButtonState>, pressed: &Vec<bool>)
    requires
        old(states)@.len() == pressed@.len(),
    ensures
        final(states)@.len() == old(states)@.len(),
        forall|k: int|
            0 <= k < old(states)@.len() ==> #[trigger] final(states)@[k] == next_state(
                old(states)@[k],
                pressed@[k],
            ),
{
    let mut k: usize = 0;
    while k < states.len()
        invariant
            k <= states@.len(),
            states@.len() == old(states)@.len(),
            states@.len() == pressed@.len(),
            forall|j: int|
                0 <= j < k ==> #[trigger] states@[j] == next_state(old(states)@[j], pressed@[j]),
            forall|j: int| k <= j < states@.len() ==> #[trigger] states@[j] == old(states)@[j],
        decreases states@.len() - k,
    {
        let s: ButtonState = states[k];
        let next: ButtonState = if !pressed[k] {
            ButtonState::Released
        } else if s == ButtonState::Released {
            ButtonState::Clicked
        } else {
            ButtonState::Held
        };
        states.set(k, next);
        k = k + 1;
    }
}

impl InputState {
    /// Nothing pressed, pointer at the origin.
    pub fn new() -> (r: InputState)
        ensures
            r@.wf(),
            forall|k: int| #[trigger] r@.key(k) == ButtonState::Released,
            forall|b: MouseButton| #[trigger] r@.button(b) == ButtonState::Released,
            r@.mousex == 0,
            r@.mousey == 0,
    {
        InputState {
            key_state: vec![ButtonState::Released; NUM_KEYS],
            mouse_button_state: vec![ButtonState::Released; NUM_BUTTONS],
            mousex: 0,
            mousey: 0,
        }
    }

    /// The key went down in the latest frame.
    pub fn key_is_clicked(&self, key: u32) -> (r: bool)
        requires
            self@.wf(),
        ensures
            r == (self@.key(key as int) == ButtonState::Clicked),
    {
        (key as usize) < self.key_state.len() && self.key_state[key as usize]
            == ButtonState::Clicked
    }

    /// The key is down, whether it went down in the latest frame or before.
    pub fn key_is_held(&self, key: u32) -> (r: bool)
        requires
            self@.wf(),
        ensures
            r == (self@.key(key as int) != ButtonState::Released),
    {
        (key as usize) < self.key_state.len() && self.key_state[key as usize]
            != ButtonState::Released
    }

    pub fn mouse_button_is_clicked(&self, button: MouseButton) -> (r: bool)
        requires
            self@.wf(),
        ensures
            r == (self@.button(button) == ButtonState::Clicked),
    {
        self.mouse_button_state[button_index(button)] == ButtonState::Clicked
    }

    pub fn mouse_button_is_held(&self, button: MouseButton) -> (r: bool)
        requires
            self@.wf(),
        ensures
            r == (self@.button(button) != ButtonState::Released),
    {
        self.mouse_button_state[button_index(button)] != ButtonState::Released
    }

    /// Takes in one frame: the keys (by scancode) and buttons that are down
    /// now, and where the pointer is.
    pub fn update(
        &mut self,
        pressed_keys: &[u32],
        pressed_buttons: &[MouseButton],
        mousex: i32,
        mousey: i32,
    )
        requires
            old(self)@.wf(),
        ensures
            final(self)@.wf(),
            forall|k: int|
                0 <= k < NUM_KEYS ==> #[trigger] final(self)@.key(k) == next_state(
                    old(self)@.key(k),
                    listed(pressed_keys@, k),
                ),
            forall|b: MouseButton| #[trigger]
                final(self)@.button(b) == next_state(
                    old(self)@.button(b),
                    pressed_buttons@.contains(b),
                ),
            final(self)@.mousex == mousex,
            final(self)@.mousey == mousey,
    {
        let keys: Vec<bool> = pressed_flags(pressed_keys, NUM_KEYS);
        step_states(&mut self.key_state, &keys);
        let mut slots: Vec<u32> = Vec::new();
        let mut i: usize = 0;
        while i < pressed_buttons.len()
            invariant
                i <= pressed_buttons@.len(),
                slots@.len() == i,
                forall|j: int| 0 <= j < i ==> #[trigger] slots@[j] == button_slot(pressed_buttons@[j]),
            decreases pressed_buttons@.len() - i,
        {
            slots.push(button_index(pressed_buttons[i]) as u32);
            i = i + 1;
        }
        let buttons: Vec<bool> = pressed_flags(slots.as_slice(), NUM_BUTTONS);
        step_states(&mut self.mouse_button_state, &buttons);
        self.mousex = mousex;
        self.mousey = mousey;
        assert forall|b: MouseButton| #[trigger] buttons@[button_slot(b)] == pressed_buttons@.contains(b) by {
            let k = button_slot(b);
            if pressed_buttons@.contains(b) {
                let j = choose|j: int| 0 <= j < pressed_buttons@.len() && pressed_buttons@[j] == b;
                assert(slots@[j] == k);
            }
            if listed(slots@, k) {
                let j = choose|j: int| 0 <= j < slots@.len() && slots@[j] == k;
                assert(button_slot(pressed_buttons@[j]) == k);
                assert(pressed_buttons@[j] == b);
            }
        }
    }

    pub fn mouse_pos(&self) -> (r: (i32, i32))
        ensures
            r == (self@.mousex, self@.mousey),
    {
        (self.mousex, self.mousey)
    }
}

} // verus!
