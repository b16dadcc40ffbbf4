use vstd::prelude::*;

verus! {

/// Symbolic names for virtual key codes.
#[derive(PartialEq, Eq, Structural, Hash, Clone, Copy, Debug)]
pub enum KeyCode {
    A,
    B,
    C,
    D,
    E,
    F,
    G,
    H,
    I,
    J,
    K,
    L,
    M,
    N,
    O,
    P,
    Q,
    R,
    S,
    T,
    U,
    V,
    W,
    X,
    Y,
    Z,
    /// The digit keys above the alphabetic keys.
    Alpha0,
    Alpha1,
    Alpha2,
    Alpha3,
    Alpha4,
    Alpha5,
    Alpha6,
    Alpha7,
    Alpha8,
    Alpha9,
    LeftControl,
    LeftShift,
    LeftAlt,
    RightControl,
    RightShift,
    RightAlt,
    Enter,
    Escape,
    Backspace,
    Tab,
    Space,
    PageUp,
    PageDown,
    End,
    Home,
    Insert,
    Delete,
    /// The digit keys on the numeric keypad.
    Num0,
    Num1,
    Num2,
    Num3,
    Num4,
    Num5,
    Num6,
    Num7,
    Num8,
    Num9,
    Left,
    Right,
    Up,
    Down,
}

/// The key, if any, that a windowing-layer key code denotes.  The values are
/// the `SDLK_` key codes of the SDL library: the printable keys carry their
/// ASCII value, the others carry a scan code with bit 30 set.
pub open spec fn keycode_of(code: i32) -> Option<KeyCode> {
    match code {
        97 => Some(KeyCode::A),
        98 => Some(KeyCode::B),
        99 => Some(KeyCode::C),
        100 => Some(KeyCode::D),
        101 => Some(KeyCode::E),
        102 => Some(KeyCode::F),
        103 => Some(KeyCode::G),
        104 => Some(KeyCode::H),
        105 => Some(KeyCode::I),
        106 => Some(KeyCode::J),
        107 => Some(KeyCode::K),
        108 => Some(KeyCode::L),
        109 => Some(KeyCode::M),
        110 => Some(KeyCode::N),
        111 => Some(KeyCode::O),
        112 => Some(KeyCode::P),
        113 => Some(KeyCode::Q),
        114 => Some(KeyCode::R),
        115 => Some(KeyCode::S),
        116 => Some(KeyCode::T),
        117 => Some(KeyCode::U),
        118 => Some(KeyCode::V),
        119 => Some(KeyCode::W),
        120 => Some(KeyCode::X),
        121 => Some(KeyCode::Y),
        122 => Some(KeyCode::Z),
        48 => Some(KeyCode::Alpha0),
        49 => Some(KeyCode::Alpha1),
        50 => Some(KeyCode::Alpha2),
        51 => Some(KeyCode::Alpha3),
        52 => Some(KeyCode::Alpha4),
        53 => Some(KeyCode::Alpha5),
        54 => Some(KeyCode::Alpha6),
        55 => Some(KeyCode::Alpha7),
        56 => Some(KeyCode::Alpha8),
        57 => Some(KeyCode::Alpha9),
        1073742048 => Some(KeyCode::LeftControl),
        1073742049 => Some(KeyCode::LeftShift),
        1073742050 => Some(KeyCode::LeftAlt),
        1073742052 => Some(KeyCode::RightControl),
        1073742053 => Some(KeyCode::RightShift),
        1073742054 => Some(KeyCode::RightAlt),
        13 => Some(KeyCode::Enter),
        27 => Some(KeyCode::Escape),
        8 => Some(KeyCode::Backspace),
        9 => Some(KeyCode::Tab),
        32 => Some(KeyCode::Space),
        1073741899 => Some(KeyCode::PageUp),
        1073741902 => Some(KeyCode::PageDown),
        1073741901 => Some(KeyCode::End),
        1073741898 => Some(KeyCode::Home),
        1073741897 => Some(KeyCode::Insert),
        127 => Some(KeyCode::Delete),
        1073741922 => Some(KeyCode::Num0),
        1073741913 => Some(KeyCode::Num1),
        1073741914 => Some(KeyCode::Num2),
        1073741915 => Some(KeyCode::Num3),
        1073741916 => Some(KeyCode::Num4),
        1073741917 => Some(KeyCode::Num5),
        1073741918 => Some(KeyCode::Num6),
        1073741919 => Some(KeyCode::Num7),
        1073741920 => Some(KeyCode::Num8),
        1073741921 => Some(KeyCode::Num9),
        1073741904 => Some(KeyCode::Left),
        1073741903 => Some(KeyCode::Right),
        1073741906 => Some(KeyCode::Up),
        1073741905 => Some(KeyCode::Down),
        _ => None,
    }
}

/// Translates a windowing-layer key code value into the library's key code,
/// or `None` for a key the library does not name.
pub fn convert_keycode(code: i32) -> (r: Option<KeyCode>)
    ensures
        r == keycode_of(code),
{
    match code {
        97 => Some(KeyCode::A),
        98 => Some(KeyCode::B),
        99 => Some(KeyCode::C),
        100 => Some(KeyCode::D),
        101 => Some(KeyCode::E),
        102 => Some(KeyCode::F),
        103 => Some(KeyCode::G),
        104 => Some(KeyCode::H),
        105 => Some(KeyCode::I),
        106 => Some(KeyCode::J),
        107 => Some(KeyCode::K),
        108 => Some(KeyCode::L),
        109 => Some(KeyCode::M),
        110 => Some(KeyCode::N),
        111 => Some(KeyCode::O),
        112 => Some(KeyCode::P),
        113 => Some(KeyCode::Q),
        114 => Some(KeyCode::R),
        115 => Some(KeyCode::S),
        116 => Some(KeyCode::T),
        117 => Some(KeyCode::U),
        118 => Some(KeyCode::V),
        119 => Some(KeyCode::W),
        120 => Some(KeyCode::X),
        121 => Some(KeyCode::Y),
        122 => Some(KeyCode::Z),
        48 => Some(KeyCode::Alpha0),
        49 => Some(KeyCode::Alpha1),
        50 => Some(KeyCode::Alpha2),
        51 => Some(KeyCode::Alpha3),
        52 => Some(KeyCode::Alpha4),
        53 => Some(KeyCode::Alpha5),
        54 => Some(KeyCode::Alpha6),
        55 => Some(KeyCode::Alpha7),
        56 => Some(KeyCode::Alpha8),
        57 => Some(KeyCode::Alpha9),
        1073742048 => Some(KeyCode::LeftControl),
        1073742049 => Some(KeyCode::LeftShift),
        1073742050 => Some(KeyCode::LeftAlt),
        1073742052 => Some(KeyCode::RightControl),
        1073742053 => Some(KeyCode::RightShift),
        1073742054 => Some(KeyCode::RightAlt),
        13 => Some(KeyCode::Enter),
        27 => Some(KeyCode::Escape),
        8 => Some(KeyCode::Backspace),
        9 => Some(KeyCode::Tab),
        32 => Some(KeyCode::Space),
        1073741899 => Some(KeyCode::PageUp),
        1073741902 => Some(KeyCode::PageDown),
        1073741901 => Some(KeyCode::End),
        1073741898 => Some(KeyCode::Home),
        1073741897 => Some(KeyCode::Insert),
        127 => Some(KeyCode::Delete),
        1073741922 => Some(KeyCode::Num0),
        1073741913 => Some(KeyCode::Num1),
        1073741914 => Some(KeyCode::Num2),
        1073741915 => Some(KeyCode::Num3),
        1073741916 => Some(KeyCode::Num4),
        1073741917 => Some(KeyCode::Num5),
        1073741918 => Some(KeyCode::Num6),
        1073741919 => Some(KeyCode::Num7),
        1073741920 => Some(KeyCode::Num8),
        1073741921 => Some(KeyCode::Num9),
        1073741904 => Some(KeyCode::Left),
        1073741903 => Some(KeyCode::Right),
        1073741906 => Some(KeyCode::Up),
        1073741905 => Some(KeyCode::Down),
        _ => None,
    }
}

/// The key list with this key appended, unless it is already there.
pub open spec fn added_once(s: Seq<KeyCode>, key: KeyCode) -> Seq<KeyCode> {
    if s.contains(key) {
        s
    } else {
        s.push(key)
    }
}

/// The key list with every occurrence of one key removed, order kept.
pub open spec fn without_key(s: Seq<KeyCode>, key: KeyCode) -> Seq<KeyCode> {
    s.filter(|k: KeyCode| k != key)
}

proof fn lemma_without_key_push(s: Seq<KeyCode>, key: KeyCode, x: KeyCode)
    ensures
        without_key(s.push(x), key) == if x != key {
            without_key(s, key).push(x)
        } else {
            without_key(s, key)
        },
{
    reveal(Seq::filter);
    assert(s.push(x).drop_last() =~= s);
    assert(s.push(x).last() == x);
}

/// Returns true when the key occurs in the list.
fn key_in(keys: &Vec<KeyCode>, key: KeyCode) -> (r: bool)
    ensures
        r == keys@.contains(key),
{
    let n = keys.len();
    let mut i: usize = 0;
    while i < n
        invariant
            n == keys@.len(),
            0 <= i <= n,
            forall|j: int| 0 <= j < i ==> keys@[j] != key,
        decreases n - i,
    {
        if keys[i] == key {
            assert(keys@[i as int] == key);
            return true;
        }
        i += 1;
    }
    false
}

/// An interface for querying user input, fed by the windowing driver and
/// polled by frame callbacks.
pub struct Input {
    keys_down: Vec<KeyCode>,
    keys_pressed: Vec<KeyCode>,
    keys_released: Vec<KeyCode>,
}

impl Input {
    /// The keys currently held down.
    pub closed spec fn spec_keys_down(&self) -> Seq<KeyCode> {
        self.keys_down@
    }

    /// The keys pressed since the last update.
    pub closed spec fn spec_keys_pressed(&self) -> Seq<KeyCode> {
        self.keys_pressed@
    }

    /// The keys released since the last update.
    pub closed spec fn spec_keys_released(&self) -> Seq<KeyCode> {
        self.keys_released@
    }

    /// Creates an input state with no keys down, pressed or released.
    pub fn new() -> (r: Input)
        ensures
            r.spec_keys_down() == Seq::<KeyCode>::empty(),
            r.spec_keys_pressed() == Seq::<KeyCode>::empty(),
            r.spec_keys_released() == Seq::<KeyCode>::empty(),
    {
        Input { keys_down: Vec::new(), keys_pressed: Vec::new(), keys_released: Vec::new() }
    }

    /// Starts a new tick: forgets which keys were pressed and released, while
    /// the keys still held down stay down.
    pub fn update(&mut self)
        ensures
            final(self).spec_keys_down() == old(self).spec_keys_down(),
            final(self).spec_keys_pressed() == Seq::<KeyCode>::empty(),
            final(self).spec_keys_released() == Seq::<KeyCode>::empty(),
    {
        self.keys_pressed.clear();
        self.keys_released.clear();
    }

    /// Records that a key went down: it is now held, and, if it was not
    /// already recorded, counts as pressed this tick.
    pub fn press_key(&mut self, key: KeyCode)
        ensures
            final(self).spec_keys_down() == added_once(old(self).spec_keys_down(), key),
            final(self).spec_keys_pressed() == added_once(old(self).spec_keys_pressed(), key),
            final(self).spec_keys_released() == old(self).spec_keys_released(),
    {
        if !key_in(&self.keys_down, key) {
            self.keys_down.push(key);
        }
        if !key_in(&self.keys_pressed, key) {
            self.keys_pressed.push(key);
        }
    }

    /// Records that a key went up: it is no longer held, and counts as
    /// released this tick.
    pub fn release_key(&mut self, key: KeyCode)
        ensures
            final(self).spec_keys_down() == without_key(old(self).spec_keys_down(), key),
            final(self).spec_keys_pressed() == old(self).spec_keys_pressed(),
            final(self).spec_keys_released() == old(self).spec_keys_released().push(key),
    {
        let ghost s0 = self.keys_down@;
        let n = self.keys_down.len();
        let mut kept: Vec<KeyCode> = Vec::new();
        let mut i: usize = 0;
        while i < n
            invariant
                n == s0.len(),
                s0 == self.keys_down@,
                0 <= i <= n,
                kept@ == without_key(s0.take(i as int), key),
            decreases n - i,
        {
            let k = self.keys_down[i];
            proof {
                assert(s0.take(i + 1 as int) =~= s0.take(i as int).push(s0[i as int]));
                lemma_without_key_push(s0.take(i as int), key, s0[i as int]);
            }
            if k != key {
                kept.push(k);
            }
            i += 1;
        }
        proof {
            assert(s0.take(n as int) =~= s0);
        }
        self.keys_down = kept;
        self.keys_released.push(key);
    }

    /// Returns true if the specified key is currently down.
    pub fn is_key_down(&self, key: KeyCode) -> (r: bool)
        ensures
            r == self.spec_keys_down().contains(key),
    {
        key_in(&self.keys_down, key)
    }

    /// Returns true if the specified key was pressed since the last update.
    pub fn is_key_pressed(&self, key: KeyCode) -> (r: bool)
        ensures
            r == self.spec_keys_pressed().contains(key),
    {
        key_in(&self.keys_pressed, key)
    }

    /// Returns true if the specified key was released since the last update.
    pub fn is_key_released(&self, key: KeyCode) -> (r: bool)
        ensures
            r == self.spec_keys_released().contains(key),
    {
        key_in(&self.keys_released, key)
    }

    /// Returns all keys that are currently down, in the order they went down.
    pub fn get_keys_down(&self) -> (r: Vec<KeyCode>)
        ensures
            r@ == self.spec_keys_down(),
    {
        self.keys_down.clone()
    }

    /// Returns all keys that were pressed since the last update.
    pub fn get_keys_pressed(&self) -> (r: Vec<KeyCode>)
        ensures
            r@ == self.spec_keys_pressed(),
    {
        self.keys_pressed.clone()
    }

    /// Returns all keys that were released since the last update.
    pub fn get_keys_released(&self) -> (r: Vec<KeyCode>)
        ensures
            r@ == self.spec_keys_released(),
    {
        self.keys_released.clone()
    }
}

/// One event of the windowing layer, as the event loop hands it to the core
/// between frames: a close request, a window resize, or a key transition
/// carrying the layer's raw key code.
#[derive(PartialEq, Eq, Structural, Clone, Copy, Debug)]
pub enum WindowEvent {
    Quit,
    Resized { width: u32, height: u32 },
    KeyDown { code: i32, repeat: bool },
    KeyUp { code: i32, repeat: bool },
}

/// What the event loop must do after the core has absorbed an event: carry
/// on, stop running, or resize the viewport.
#[derive(PartialEq, Eq, Structural, Clone, Copy, Debug)]
pub enum EventAction {
    Continue,
    Stop,
    Resize { width: u32, height: u32 },
}

/// Absorbs one windowing-layer event into the input state and tells the
/// event loop what to do next: a close request stops the loop, a resize is
/// handed back for the renderer, a non-repeated key transition on a key the
/// library names updates the input state, and everything else is ignored.
pub fn handle_event(input: &mut Input, event: &WindowEvent) -> (r: EventAction)
    ensures
        match *event {
            WindowEvent::Quit => r == EventAction::Stop && *final(input) == *old(input),
            WindowEvent::Resized { width, height } => r == (EventAction::Resize { width, height })
                && *final(input) == *old(input),
            WindowEvent::KeyDown { code, repeat } => r == EventAction::Continue && (match keycode_of(
                code,
            ) {
                Some(key) if !repeat => {
                    &&& final(input).spec_keys_down() == added_once(
                        old(input).spec_keys_down(),
                        key,
                    )
                    &&& final(input).spec_keys_pressed() == added_once(
                        old(input).spec_keys_pressed(),
                        key,
                    )
                    &&& final(input).spec_keys_released() == old(input).spec_keys_released()
                },
                _ => *final(input) == *old(input),
            }),
            WindowEvent::KeyUp { code, repeat } => r == EventAction::Continue && (match keycode_of(
                code,
            ) {
                Some(key) if !repeat => {
                    &&& final(input).spec_keys_down() == without_key(
                        old(input).spec_keys_down(),
                        key,
                    )
                    &&& final(input).spec_keys_pressed() == old(input).spec_keys_pressed()
                    &&& final(input).spec_keys_released() == old(input).spec_keys_released().push(
                        key,
                    )
                },
                _ => *final(input) == *old(input),
            }),
        },
{
    match *event {
        WindowEvent::Quit => EventAction::Stop,
        WindowEvent::Resized { width, height } => EventAction::Resize { width, height },
        WindowEvent::KeyDown { code, repeat } => {
            if !repeat {
                if let Some(key) = convert_keycode(code) {
                    input.press_key(key);
                }
            }
            EventAction::Continue
        },
        WindowEvent::KeyUp { code, repeat } => {
            if !repeat {
                if let Some(key) = convert_keycode(code) {
                    input.release_key(key);
                }
            }
            EventAction::Continue
        },
    }
}

} // verus!
