//! The sixteen-key CHIP-8 keypad, as the host last reported it.
//!
//! The host translates its own keyboard events into presses and releases of
//! keys 0x0..0xF; the interpreter only polls the resulting flags.

use vstd::prelude::*;

verus! {

/// The lowest-numbered key pressed in `keys[i..16]`, if any.
pub open spec fn first_pressed_from(keys: Seq<bool>, i: int) -> Option<u8>
    decreases 16 - i,
{
    if i < 0 || i >= 16 {
        None
    } else if keys[i] {
        Some(i as u8)
    } else {
        first_pressed_from(keys, i + 1)
    }
}

/// The lowest-numbered key currently pressed, if any.
pub open spec fn first_pressed(keys: Seq<bool>) -> Option<u8> {
    first_pressed_from(keys, 0)
}

/// Key state for the sixteen-key keypad; `true` is pressed.
pub struct Chip8Input {
    pub keys: Vec<bool>,
}

impl Chip8Input {
    pub open spec fn wf(&self) -> bool {
        self.keys@.len() == 16
    }

    /// A keypad with every key up.
    pub fn new() -> (inp: Chip8Input)
        ensures
            inp.wf(),
            forall|i: int| 0 <= i < 16 ==> !(#[trigger] inp.keys@[i]),
    {
        let mut keys: Vec<bool> = Vec::new();
        let mut i: usize = 0;
        while i < 16
            invariant
                i <= 16,
                keys@.len() == i,
                forall|j: int| 0 <= j < i ==> !(#[trigger] keys@[j]),
            decreases 16 - i,
        {
            keys.push(false);
            i = i + 1;
        }
        Chip8Input { keys }
    }

    /// Record a key press or release reported by the host.
    pub fn set_key(&mut self, key: u8, pressed: bool)
        requires
            old(self).wf(),
            key < 16,
        ensures
            final(self).wf(),
            final(self).keys@ == old(self).keys@.update(key as int, pressed),
    {
        self.keys.set(key as usize, pressed);
    }

    /// Whether key `key` is currently pressed.
    pub fn is_pressed(&self, key: u8) -> (pressed: bool)
        requires
            self.wf(),
            key < 16,
        ensures
            pressed == self.keys@[key as int],
    {
        self.keys[key as usize]
    }

    /// The lowest-numbered pressed key, or `None` when every key is up.
    pub fn any_pressed(&self) -> (key: Option<u8>)
        requires
            self.wf(),
        ensures
            key == first_pressed(self.keys@),
    {
        let mut i: usize = 0;
        while i < 16
            invariant
                self.wf(),
                i <= 16,
                first_pressed(self.keys@) == first_pressed_from(self.keys@, i as int),
            decreases 16 - i,
        {
            if self.keys[i] {
                return Some(i as u8);
            }
            i = i + 1;
        }
        None
    }
}

} // verus!
