//! The state of keyboard and mouse, as the last event left it.

use vstd::prelude::*;
use crate::geometry::Cell;

verus! {

/// The keys that the game knows apart from characters.
#[derive(Copy, Clone, Debug, PartialEq, Eq, Structural)]
pub enum KeyCode {
    NoKey,
    Char,
    Escape,
    Backspace,
    Enter,
    Spacebar,
    Tab,
    F5,
}

/// A key event.
#[derive(Copy, Clone, Debug, PartialEq, Eq, Structural)]
pub struct Key {
    pub code: KeyCode,
    pub printable: char,
    pub pressed: bool,
    pub ctrl: bool,
}

/// A mouse event: the cell under the mouse, and whether the left button
/// was pressed.
#[derive(Copy, Clone, Debug, PartialEq, Eq, Structural)]
pub struct Mouse {
    pub cx: i32,
    pub cy: i32,
    pub lbutton_pressed: bool,
}

/// What the input backend reports.
#[derive(Copy, Clone, Debug, PartialEq, Eq, Structural)]
pub enum InputEvent {
    Key(Key),
    Mouse(Mouse),
}

/// The digit that a character stands for.
pub open spec fn digit_of(c: char) -> Option<i32> {
    if c == '0' {
        Some(0i32)
    } else if c == '1' {
        Some(1i32)
    } else if c == '2' {
        Some(2i32)
    } else if c == '3' {
        Some(3i32)
    } else if c == '4' {
        Some(4i32)
    } else if c == '5' {
        Some(5i32)
    } else if c == '6' {
        Some(6i32)
    } else if c == '7' {
        Some(7i32)
    } else if c == '8' {
        Some(8i32)
    } else if c == '9' {
        Some(9i32)
    } else {
        None
    }
}

/// The state of keyboard and mouse.
#[derive(Debug, PartialEq, Eq)]
pub struct InputHandler {
    pub mouse: Mouse,
    pub mouse_pos: Cell,
    pub key: Key,
    /// The characters whose keys are held down, each once.
    pub pressed_keys: Vec<char>,
    pub pressed_digit: Option<i32>,
    pub ctrl: bool,
}

impl Default for InputHandler {
    fn default() -> (h: InputHandler)
        ensures
            h.wf(),
            h.mouse == InputHandler::no_mouse(),
            h.key == InputHandler::no_key(),
            h.mouse_pos == (0i32, 0i32),
            h.down() == Set::<char>::empty(),
            h.pressed_digit.is_none(),
            !h.ctrl,
    {
        let h = InputHandler {
            mouse: Mouse { cx: 0, cy: 0, lbutton_pressed: false },
            mouse_pos: (0, 0),
            key: Key { code: KeyCode::NoKey, printable: '\0', pressed: false, ctrl: false },
            pressed_keys: Vec::new(),
            pressed_digit: None,
            ctrl: false,
        };
        assert(h.down() =~= Set::<char>::empty());
        h
    }
}

impl InputHandler {
    /// The key of a tick without key event.
    pub open spec fn no_key() -> Key {
        Key { code: KeyCode::NoKey, printable: '\0', pressed: false, ctrl: false }
    }

    /// The mouse of a tick without mouse event.
    pub open spec fn no_mouse() -> Mouse {
        Mouse { cx: 0, cy: 0, lbutton_pressed: false }
    }

    /// No character is held down twice.
    pub open spec fn wf(&self) -> bool {
        self.pressed_keys@.no_duplicates()
    }

    /// The characters whose keys are held down.
    pub open spec fn down(&self) -> Set<char> {
        self.pressed_keys@.to_set()
    }

    /// Finds a character among those held down.
    fn find(&self, c: char) -> (r: Option<usize>)
        ensures
            match r {
                Some(i) => i < self.pressed_keys@.len() && self.pressed_keys@[i as int] == c,
                None => !self.pressed_keys@.contains(c),
            },
    {
        let mut i: usize = 0;
        while i < self.pressed_keys.len()
            invariant
                i <= self.pressed_keys@.len(),
                forall|j: int| 0 <= j < i ==> self.pressed_keys@[j] != c,
            decreases self.pressed_keys@.len() - i,
        {
            if self.pressed_keys[i] == c {
                return Some(i);
            }
            i = i + 1;
        }
        None
    }

    /// Takes in a key event: the key is the last key, a character key is
    /// held down from its press to its release, and a digit pressed counts
    /// as the digit of this tick.
    pub fn register_key(&mut self, key: Key)
        requires
            old(self).wf(),
        ensures
            final(self).wf(),
            final(self).key == key,
            final(self).ctrl == key.ctrl,
            final(self).mouse == old(self).mouse,
            final(self).mouse_pos == old(self).mouse_pos,
            final(self).down() == if key.code != KeyCode::Char {
                old(self).down()
            } else if key.pressed {
                old(self).down().insert(key.printable)
            } else {
                old(self).down().remove(key.printable)
            },
            final(self).pressed_digit == if key.pressed {
                digit_of(key.printable)
            } else {
                None
            },
    {
        self.key = key;
        self.ctrl = key.ctrl;
        if key.code == KeyCode::Char {
            let found = self.find(key.printable);
            if key.pressed {
                if found.is_none() {
                    self.pressed_keys.push(key.printable);
                    proof {
                        let before = old(self).pressed_keys@;
                        assert(self.pressed_keys@ == before.push(key.printable));
                        assert forall|i: int, j: int|
                            0 <= i < self.pressed_keys@.len() && 0 <= j < self.pressed_keys@.len()
                                && i != j implies self.pressed_keys@[i] != self.pressed_keys@[j] by {
                            if i < before.len() {
                                assert(before.contains(before[i]));
                            }
                            if j < before.len() {
                                assert(before.contains(before[j]));
                            }
                        }
                        assert(self.down() =~= old(self).down().insert(key.printable)) by {
                            assert forall|c: char|
                                self.pressed_keys@.contains(c) <==> before.contains(c) || c
                                    == key.printable by {
                                if self.pressed_keys@.contains(c) {
                                    let i = choose|i: int|
                                        0 <= i < self.pressed_keys@.len() && self.pressed_keys@[i]
                                            == c;
                                    if i < before.len() {
                                        assert(before[i] == c);
                                    }
                                }
                                if before.contains(c) {
                                    let i = choose|i: int| 0 <= i < before.len() && before[i] == c;
                                    assert(self.pressed_keys@[i] == c);
                                }
                                if c == key.printable {
                                    assert(self.pressed_keys@[before.len() as int] == c);
                                }
                            }
                        }
                    }
                } else {
                    assert(self.down() =~= old(self).down().insert(key.printable));
                }
            } else {
                if let Some(i) = found {
                    self.pressed_keys.swap_remove(i);
                    proof {
                        let before = old(self).pressed_keys@;
                        let after = self.pressed_keys@;
                        let last = before.len() - 1;
                        assert forall|k: int| 0 <= k < after.len() implies after[k] == before[if k
                            == i {
                            last
                        } else {
                            k
                        }] by {}
                        assert(self.down() =~= old(self).down().remove(key.printable)) by {
                            assert forall|c: char|
                                after.contains(c) <==> before.contains(c) && c
                                    != key.printable by {
                                if after.contains(c) {
                                    let k = choose|k: int| 0 <= k < after.len() && after[k] == c;
                                    let o = if k == i {
                                        last
                                    } else {
                                        k
                                    };
                                    assert(before[o] == c);
                                }
                                if before.contains(c) && c != key.printable {
                                    let o = choose|o: int| 0 <= o < before.len() && before[o] == c;
                                    if o == last {
                                        assert(after[i as int] == c);
                                    } else {
                                        assert(after[o] == c);
                                    }
                                }
                            }
                        }
                    }
                } else {
                    assert(self.down() =~= old(self).down().remove(key.printable));
                }
            }
        }
        if key.pressed {
            self.pressed_digit = if key.printable == '0' {
                Some(0)
            } else if key.printable == '1' {
                Some(1)
            } else if key.printable == '2' {
                Some(2)
            } else if key.printable == '3' {
                Some(3)
            } else if key.printable == '4' {
                Some(4)
            } else if key.printable == '5' {
                Some(5)
            } else if key.printable == '6' {
                Some(6)
            } else if key.printable == '7' {
                Some(7)
            } else if key.printable == '8' {
                Some(8)
            } else if key.printable == '9' {
                Some(9)
            } else {
                None
            };
        } else {
            self.pressed_digit = None;
        }
    }

    /// Takes in a mouse event.
    pub fn register_mouse(&mut self, mouse: Mouse)
        ensures
            final(self).mouse == mouse,
            final(self).mouse_pos == (mouse.cx, mouse.cy),
            final(self).key == old(self).key,
            final(self).pressed_keys == old(self).pressed_keys,
            final(self).pressed_digit == old(self).pressed_digit,
            final(self).ctrl == old(self).ctrl,
    {
        self.mouse = mouse;
        self.mouse_pos = (mouse.cx, mouse.cy);
    }

    pub fn is_mouse_pressed(&self) -> (b: bool)
        ensures
            b == self.mouse.lbutton_pressed,
    {
        self.mouse.lbutton_pressed
    }

    /// Whether the key of a character is held down.
    pub fn is_char_down(&self, key: char) -> (b: bool)
        ensures
            b == self.down().contains(key),
    {
        self.find(key).is_some()
    }

    /// Whether the last key event was the press of a character.
    pub fn is_char_pressed(&self, key: char) -> (b: bool)
        ensures
            b == (self.key.printable == key && self.key.pressed),
    {
        self.key.printable == key && self.key.pressed
    }

    /// Whether the last key event was the press of a key.
    pub fn is_key_pressed(&self, key: KeyCode) -> (b: bool)
        ensures
            b == (self.key.code == key && self.key.pressed),
    {
        self.key.code == key && self.key.pressed
    }

    /// Takes in the event of a tick. A tick without event leaves no key
    /// and no mouse button pressed; what is held down stays held down.
    pub fn update(&mut self, event: Option<InputEvent>)
        requires
            old(self).wf(),
        ensures
            final(self).wf(),
            match event {
                Some(InputEvent::Mouse(m)) => {
                    &&& final(self).mouse == m
                    &&& final(self).mouse_pos == (m.cx, m.cy)
                    &&& final(self).key == old(self).key
                    &&& final(self).pressed_keys == old(self).pressed_keys
                    &&& final(self).pressed_digit == old(self).pressed_digit
                    &&& final(self).ctrl == old(self).ctrl
                },
                Some(InputEvent::Key(k)) => {
                    &&& final(self).key == k
                    &&& final(self).ctrl == k.ctrl
                    &&& final(self).mouse == old(self).mouse
                    &&& final(self).mouse_pos == old(self).mouse_pos
                    &&& final(self).down() == if k.code != KeyCode::Char {
                        old(self).down()
                    } else if k.pressed {
                        old(self).down().insert(k.printable)
                    } else {
                        old(self).down().remove(k.printable)
                    }
                    &&& final(self).pressed_digit == if k.pressed {
                        digit_of(k.printable)
                    } else {
                        None
                    }
                },
                None => {
                    &&& final(self).key == Self::no_key()
                    &&& final(self).mouse == Self::no_mouse()
                    &&& final(self).mouse_pos == old(self).mouse_pos
                    &&& final(self).pressed_keys == old(self).pressed_keys
                    &&& final(self).pressed_digit == old(self).pressed_digit
                    &&& final(self).ctrl == old(self).ctrl
                },
            },
    {
        match event {
            Some(InputEvent::Mouse(m)) => self.register_mouse(m),
            Some(InputEvent::Key(k)) => self.register_key(k),
            None => {
                self.key = Key { code: KeyCode::NoKey, printable: '\0', pressed: false, ctrl: false };
                self.mouse = Mouse { cx: 0, cy: 0, lbutton_pressed: false };
            },
        }
    }
}

} // verus!
