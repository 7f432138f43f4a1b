//! Mouse positions and synthesised mouse input: a position, a button
//! set and a press direction, and their translation into window
//! messages.

use vstd::prelude::*;
use crate::keyboard::{key_bits, keys_of, single_bit, KeyState};

verus! {

/// The mask of the five mouse buttons inside a key set.
pub open spec fn button_mask() -> u32 {
    0x76u32
}

/// A screen- or window-space mouse position.
#[derive(Clone, Copy, PartialEq, Eq, Structural, Debug)]
pub struct MousePosition {
    pub x: i32,
    pub y: i32,
}

impl MousePosition {
    /// A position from its coordinates.
    pub fn new(x: i32, y: i32) -> (r: MousePosition)
        ensures
            r.x == x && r.y == y,
    {
        MousePosition { x, y }
    }

    /// The empty (origin) position.
    pub fn empty() -> (r: MousePosition)
        ensures
            r.x == 0 && r.y == 0,
    {
        MousePosition { x: 0, y: 0 }
    }

    /// Whether this is the empty position.
    pub fn is_empty(&self) -> (r: bool)
        ensures
            r == (self.x == 0 && self.y == 0),
    {
        self.x == 0 && self.y == 0
    }

    /// The position packed into a message parameter: low word the
    /// horizontal coordinate's low bits shifted high, high word the
    /// vertical's low bits.
    pub fn packed(&self) -> (r: i64)
        ensures
            r == (((self.x & 0xffff) * 0x10000 + (self.y & 0xffff)) as i64),
    {
        let xu: i32 = self.x & 0xffff;
        let yu: i32 = self.y & 0xffff;
        (xu as i64) * 0x10000 + (yu as i64)
    }
}

/// One synthesised mouse input: where, which buttons (with modifier
/// keys), and whether they go down, up, or neither (a movement).
#[derive(Clone, Copy, PartialEq, Eq, Structural, Debug)]
pub struct MouseInput {
    pub position: MousePosition,
    pub button: KeyState,
    pub down: Option<bool>,
}

/// The window message a one-button event produces.
pub open spec fn event_msg_of(bits: u32, down: bool) -> u32 {
    if bits & button_mask() != 0 {
        if down {
            if bits == 0x2 {
                0x201
            } else if bits == 0x4 {
                0x204
            } else if bits == 0x10 {
                0x207
            } else {
                0x20b
            }
        } else {
            if bits == 0x2 {
                0x202
            } else if bits == 0x4 {
                0x205
            } else if bits == 0x10 {
                0x208
            } else {
                0x20c
            }
        }
    } else if bits == 0x40000 {
        if down {
            0x104
        } else {
            0x105
        }
    } else {
        if down {
            0x100
        } else {
            0x101
        }
    }
}

/// The window message, parameters included, one input produces: the
/// button message with its extra-button payload for a held-button
/// press, else a plain movement message; the packed position rides in
/// every case.
pub open spec fn to_event_of(m: MouseInput) -> (u32, usize, i64) {
    let l = (((m.position.x & 0xffff) * 0x10000 + (m.position.y & 0xffff)) as i64);
    match m.down {
        Some(d) => if m.button.bits & button_mask() != 0 {
            let b = m.button.bits & button_mask();
            let msg = event_msg_of(b, d);
            let w: usize = if msg == 0x20c {
                (((b & 0x60) >> 5) * 0x10000) as usize
            } else {
                0
            };
            (msg, w, l)
        } else {
            (0x200, 0, l)
        },
        None => (0x200, 0, l),
    }
}

/// The button events one input produces against the first `i` changed
/// keys: one message per physical-button key, in enumeration order.
pub open spec fn button_events_upto(m: MouseInput, keys: Seq<u32>, i: int) -> Seq<
    (u32, usize, i64),
>
    decreases i,
{
    if i <= 0 {
        Seq::empty()
    } else {
        button_events_upto(m, keys, i - 1) + (if keys[i - 1] & button_mask() != 0 {
            seq![
                to_event_of(
                    MouseInput {
                        position: m.position,
                        button: KeyState { bits: keys[i - 1] },
                        down: m.down,
                    },
                ),
            ]
        } else {
            Seq::empty()
        })
    }
}

/// The whole message sequence of one input against the prior one: a
/// leading event unless the position is unchanged (or, with no prior,
/// the input is a button event), then one event per changed
/// physical-button key.
pub open spec fn events_of_input(m: MouseInput, prior: Option<MouseInput>) -> Seq<
    (u32, usize, i64),
> {
    let skip = match prior {
        Some(p) => p.position == m.position,
        None => !(m.down is None || m.button.bits & button_mask() == 0),
    };
    let head = if skip {
        Seq::empty()
    } else {
        seq![to_event_of(m)]
    };
    let before = match prior {
        Some(p) => if p.down == Some(false) {
            p.button.bits & !button_mask()
        } else {
            p.button.bits
        },
        None => if m.down == Some(true) {
            m.button.bits & !button_mask()
        } else {
            m.button.bits
        },
    };
    let after = if m.down == Some(false) {
        m.button.bits & !button_mask()
    } else {
        m.button.bits
    };
    let changes = keys_of(after ^ before);
    head + button_events_upto(m, changes, changes.len() as int)
}

impl MouseInput {
    /// A movement to a position, no buttons.
    pub fn with_position(position: MousePosition) -> (r: MouseInput)
        ensures
            r.position == position && r.button.bits == 0 && r.down is None,
    {
        MouseInput { position, button: KeyState::empty(), down: None }
    }

    /// A button set at the empty position.
    pub fn with_button(button: KeyState) -> (r: MouseInput)
        ensures
            r.position.x == 0 && r.position.y == 0 && r.button == button && r.down is None,
    {
        MouseInput { position: MousePosition::empty(), button, down: None }
    }

    /// An input from all three parts.
    pub fn new(position: MousePosition, button: KeyState, down: Option<bool>) -> (r: MouseInput)
        ensures
            r.position == position && r.button == button && r.down == down,
    {
        MouseInput { position, button, down }
    }

    /// The same input with its press direction dropped.
    pub fn to_movement(self) -> (r: MouseInput)
        ensures
            r.position == self.position && r.button == self.button && r.down is None,
    {
        MouseInput { down: None, ..self }
    }

    /// A movement: no direction, or no button held.
    pub fn is_movement(&self) -> (r: bool)
        ensures
            r == (self.down is None || self.button.bits & button_mask() == 0),
    {
        self.down.is_none() || self.button.bits & 0x76 == 0
    }

    /// The buttons alone.
    pub fn buttons(&self) -> (r: KeyState)
        ensures
            r.bits == self.button.bits & button_mask(),
    {
        KeyState { bits: self.button.bits & 0x76 }
    }

    /// The modifier keys alone.
    pub fn mods(&self) -> (r: KeyState)
        ensures
            r.bits == self.button.bits & !button_mask(),
    {
        KeyState { bits: self.button.bits & !0x76 }
    }

    /// The keys still held after this input lands.
    pub fn button_after(&self) -> (r: KeyState)
        ensures
            r == (if self.down == Some(false) {
                KeyState { bits: self.button.bits & !button_mask() }
            } else {
                self.button
            }),
    {
        match self.down {
            Some(false) => self.mods(),
            _ => self.button,
        }
    }

    /// The keys held before this input lands.
    pub fn button_before(&self) -> (r: KeyState)
        ensures
            r == (if self.down == Some(true) {
                KeyState { bits: self.button.bits & !button_mask() }
            } else {
                self.button
            }),
    {
        match self.down {
            Some(true) => self.mods(),
            _ => self.button,
        }
    }

    /// One input per held button, in enumeration order, each carrying
    /// the modifiers.
    pub fn input_buttons(self) -> (r: Vec<MouseInput>)
        ensures
            r@.len() == keys_of(self.button.bits & button_mask()).len(),
            forall|i: int|
                0 <= i < r@.len() ==> #[trigger] r@[i] == (MouseInput {
                    position: self.position,
                    button: KeyState {
                        bits: keys_of(self.button.bits & button_mask())[i] | (self.button.bits
                            & !button_mask()),
                    },
                    down: self.down,
                }),
    {
        let buttons = self.buttons();
        let mods = self.mods();
        let keys = buttons.iter_keys();
        let n = keys.len();
        let mut r: Vec<MouseInput> = Vec::new();
        for i in 0..n
            invariant
                n == keys@.len(),
                key_bits(keys@) == keys_of(self.button.bits & button_mask()),
                mods.bits == self.button.bits & !button_mask(),
                r@.len() == i,
                forall|j: int|
                    0 <= j < r@.len() ==> #[trigger] r@[j] == (MouseInput {
                        position: self.position,
                        button: KeyState {
                            bits: keys_of(self.button.bits & button_mask())[j] | (self.button.bits
                                & !button_mask()),
                        },
                        down: self.down,
                    }),
        {
            let b = keys[i];
            let e = MouseInput {
                position: self.position,
                button: KeyState { bits: b.bits | mods.bits },
                down: self.down,
            };
            r.push(e);
            assert(key_bits(keys@)[i as int] == keys@[i as int].bits);
        }
        r
    }

    /// The window message, parameters included, this input produces.
    pub fn to_event(self) -> (r: Option<(u32, usize, i64)>)
        ensures
            r == Some(to_event_of(self)),
    {
        let l = self.position.packed();
        match self.down {
            Some(d) if self.button.bits & 0x76 != 0 => {
                let b = self.buttons();
                let msg = event_msg_exec(b.bits, d);
                proof {
                    let bb = b.bits;
                    assert(((bb & 0x60) >> 5) <= 3) by (bit_vector);
                }
                let w: usize = if msg == 0x20c {
                    (b.button_x() * 0x10000) as usize
                } else {
                    0
                };
                Some((msg, w, l))
            },
            _ => Some((0x200, 0, l)),
        }
    }

    /// The sequence of window messages this input produces against the
    /// prior input: exactly the leading movement (when owed) followed
    /// by one event per changed physical-button key, in enumeration
    /// order.
    pub fn to_events(self, prior: Option<MouseInput>) -> (r: Vec<(u32, usize, i64)>)
        ensures
            r@ == events_of_input(self, prior),
    {
        let mut r: Vec<(u32, usize, i64)> = Vec::new();
        let skip_movement = match prior {
            Some(p) => self.position == p.position,
            None => !self.is_movement(),
        };
        if !skip_movement {
            match self.to_event() {
                Some(e) => {
                    r.push(e);
                },
                None => {},
            }
        }
        let ghost head = r@;
        let before = match prior {
            Some(p) => p.button_after(),
            None => self.button_before(),
        };
        let after = self.button_after();
        let changes = KeyState { bits: after.bits ^ before.bits };
        let keys = changes.iter_keys();
        proof {
            assert(head =~= (if (match prior {
                Some(p) => p.position == self.position,
                None => !(self.down is None || self.button.bits & button_mask() == 0),
            }) {
                Seq::<(u32, usize, i64)>::empty()
            } else {
                seq![to_event_of(self)]
            }));
        }
        let n = keys.len();
        for i in 0..n
            invariant
                n == keys@.len(),
                key_bits(keys@) == keys_of(changes.bits),
                changes.bits == (if self.down == Some(false) {
                    self.button.bits & !button_mask()
                } else {
                    self.button.bits
                }) ^ (match prior {
                    Some(p) => if p.down == Some(false) {
                        p.button.bits & !button_mask()
                    } else {
                        p.button.bits
                    },
                    None => if self.down == Some(true) {
                        self.button.bits & !button_mask()
                    } else {
                        self.button.bits
                    },
                }),
                head == (if (match prior {
                    Some(p) => p.position == self.position,
                    None => !(self.down is None || self.button.bits & button_mask() == 0),
                }) {
                    Seq::<(u32, usize, i64)>::empty()
                } else {
                    seq![to_event_of(self)]
                }),
                r@ == head + button_events_upto(self, key_bits(keys@), i as int),
        {
            let button = keys[i];
            let ghost prev = r@;
            if button.bits & 0x76 != 0 {
                let input = MouseInput { position: self.position, button, down: self.down };
                match input.to_event() {
                    Some(e) => {
                        r.push(e);
                    },
                    None => {},
                }
            }
            proof {
                assert(key_bits(keys@)[i as int] == keys@[i as int].bits);
                if keys@[i as int].bits & button_mask() != 0 {
                    assert(r@ =~= prev.push(to_event_of(MouseInput {
                        position: self.position,
                        button: KeyState { bits: key_bits(keys@)[i as int] },
                        down: self.down,
                    })));
                    assert(r@ =~= head + button_events_upto(self, key_bits(keys@), i + 1));
                } else {
                    assert(r@ =~= head + button_events_upto(self, key_bits(keys@), i + 1));
                }
            }
        }
        proof {
            assert(key_bits(keys@).len() == keys_of(changes.bits).len());
            assert(r@ =~= events_of_input(self, prior));
        }
        r
    }
}

/// The window message of one button or key transition.
fn event_msg_exec(bits: u32, down: bool) -> (r: u32)
    ensures
        r == event_msg_of(bits, down),
{
    if bits & 0x76 != 0 {
        if down {
            if bits == 0x2 {
                0x201
            } else if bits == 0x4 {
                0x204
            } else if bits == 0x10 {
                0x207
            } else {
                0x20b
            }
        } else {
            if bits == 0x2 {
                0x202
            } else if bits == 0x4 {
                0x205
            } else if bits == 0x10 {
                0x208
            } else {
                0x20c
            }
        }
    } else if bits == 0x40000 {
        if down {
            0x104
        } else {
            0x105
        }
    } else {
        if down {
            0x100
        } else {
            0x101
        }
    }
}

} // verus!
